//! One named part of a multipart body.
use vstd::prelude::*;
use vstd::string::*;
use crate::body::{Body, BodyView, text_of_ref};

verus! {

/// What an [`Entry`] stands for.
pub struct EntryView {
    /// The field name.
    pub name: Seq<char>,
    /// The file name of the payload, if any.
    pub file_name: Option<Seq<char>>,
    /// The media type of the payload, if known.
    pub content_type: Option<Seq<char>>,
    /// The payload.
    pub payload: Seq<u8>,
}

/// A single multipart entry: a name and the body it labels.
#[derive(Debug)]
pub struct Entry {
    name: String,
    body: Body,
}

impl View for Entry {
    type V = EntryView;

    closed spec fn view(&self) -> EntryView {
        EntryView {
            name: self.name@,
            file_name: self.body@.file_name,
            content_type: self.body@.content_type,
            payload: self.body@.bytes,
        }
    }
}

impl Entry {
    /// Whether the length of the payload was known before it was read.
    pub closed spec fn length_known(&self) -> bool {
        self.body@.length_known
    }

    /// The body of the entry, as a model.
    pub closed spec fn body_view(&self) -> BodyView {
        self.body@
    }

    /// Create a new `Entry`.
    pub fn new(name: &str, body: Body) -> (entry: Entry)
        ensures
            entry@ == (EntryView {
                name: name@,
                file_name: body@.file_name,
                content_type: body@.content_type,
                payload: body@.bytes,
            }),
            entry.body_view() == body@,
            entry.length_known() == body@.length_known,
    {
        Entry { name: name.to_owned(), body }
    }

    /// Create a new `Entry` from a name that is already owned.
    pub fn from_parts(name: String, body: Body) -> (entry: Entry)
        ensures
            entry@ == (EntryView {
                name: name@,
                file_name: body@.file_name,
                content_type: body@.content_type,
                payload: body@.bytes,
            }),
            entry.body_view() == body@,
            entry.length_known() == body@.length_known,
    {
        Entry { name, body }
    }

    /// Get the entry name.
    pub fn name(&self) -> (name: &String)
        ensures
            name@ == self@.name,
    {
        &self.name
    }

    /// Get the file name of the entry, if it's set.
    pub fn file_name(&self) -> (f: Option<&String>)
        ensures
            text_of_ref(f) == self@.file_name,
    {
        self.body.suggested_file_name()
    }

    /// Get the media type of the entry, if it's set.
    pub fn content_type(&self) -> (c: Option<&String>)
        ensures
            text_of_ref(c) == self@.content_type,
    {
        self.body.content_type()
    }

    /// Get the payload of the entry.
    pub fn payload(&self) -> (p: &Vec<u8>)
        ensures
            p@ == self@.payload,
    {
        self.body.bytes()
    }

    /// Get the body of the entry.
    pub fn body(&self) -> (b: &Body)
        ensures
            b@ == self.body_view(),
            b@.bytes == self@.payload,
            b@.file_name == self@.file_name,
            b@.content_type == self@.content_type,
            b@.length_known == self.length_known(),
    {
        &self.body
    }

    /// Take the entry apart into its name and its body.
    pub fn into_parts(self) -> (parts: (String, Body))
        ensures
            parts.0@ == self@.name,
            parts.1@ == self.body_view(),
            parts.1@.bytes == self@.payload,
            parts.1@.file_name == self@.file_name,
            parts.1@.content_type == self@.content_type,
    {
        (self.name, self.body)
    }
}

/// What a list of entries stands for.
pub open spec fn views(entries: Seq<Entry>) -> Seq<EntryView> {
    entries.map_values(|e: Entry| e@)
}

/// What an optional entry stands for.
pub open spec fn optional_view(entry: Option<Entry>) -> Option<EntryView> {
    match entry {
        Some(e) => Some(e@),
        None => None,
    }
}

} // verus!
