//! The payload of an entry: its bytes, and what is known about them.
use vstd::prelude::*;
use vstd::string::*;

verus! {

/// What a [`Body`] stands for.
pub struct BodyView {
    /// The payload.
    pub bytes: Seq<u8>,
    /// The file name that the payload suggests for itself, if any.
    pub file_name: Option<Seq<char>>,
    /// The media type of the payload, if known.
    pub content_type: Option<Seq<char>>,
    /// Whether the length of the payload was known before it was read.
    pub length_known: bool,
}

/// The text of an optional string.
pub open spec fn text_of(s: Option<String>) -> Option<Seq<char>> {
    match s {
        Some(t) => Some(t@),
        None => None,
    }
}

/// A payload held in memory, with an optional file name and media type.
#[derive(Debug)]
pub struct Body {
    bytes: Vec<u8>,
    file_name: Option<String>,
    content_type: Option<String>,
    length_known: bool,
}

impl View for Body {
    type V = BodyView;

    closed spec fn view(&self) -> BodyView {
        BodyView {
            bytes: self.bytes@,
            file_name: text_of(self.file_name),
            content_type: text_of(self.content_type),
            length_known: self.length_known,
        }
    }
}

impl Body {
    /// A payload of known length, with no file name and no media type.
    pub fn from_bytes(bytes: Vec<u8>) -> (body: Body)
        ensures
            body@ == (BodyView {
                bytes: bytes@,
                file_name: None,
                content_type: None,
                length_known: true,
            }),
    {
        Body { bytes, file_name: None, content_type: None, length_known: true }
    }

    /// A payload that was gathered from a source which declared no length.
    pub fn from_stream(bytes: Vec<u8>) -> (body: Body)
        ensures
            body@ == (BodyView {
                bytes: bytes@,
                file_name: None,
                content_type: None,
                length_known: false,
            }),
    {
        Body { bytes, file_name: None, content_type: None, length_known: false }
    }

    /// A payload put together from its parts.
    pub fn from_parts(
        bytes: Vec<u8>,
        file_name: Option<String>,
        content_type: Option<String>,
        length_known: bool,
    ) -> (body: Body)
        ensures
            body@ == (BodyView {
                bytes: bytes@,
                file_name: text_of(file_name),
                content_type: text_of(content_type),
                length_known,
            }),
    {
        Body { bytes, file_name, content_type, length_known }
    }

    /// The same payload, tagged with the name of the file it came from.
    pub fn with_file_name(self, file_name: &str) -> (body: Body)
        ensures
            body@ == (BodyView { file_name: Some(file_name@), ..self@ }),
    {
        Body {
            bytes: self.bytes,
            file_name: Some(file_name.to_owned()),
            content_type: self.content_type,
            length_known: self.length_known,
        }
    }

    /// The same payload, tagged with its media type.
    pub fn with_content_type(self, content_type: &str) -> (body: Body)
        ensures
            body@ == (BodyView { content_type: Some(content_type@), ..self@ }),
    {
        Body {
            bytes: self.bytes,
            file_name: self.file_name,
            content_type: Some(content_type.to_owned()),
            length_known: self.length_known,
        }
    }

    /// The payload.
    pub fn bytes(&self) -> (b: &Vec<u8>)
        ensures
            b@ == self@.bytes,
    {
        &self.bytes
    }

    /// The payload, by value.
    pub fn into_bytes(self) -> (b: Vec<u8>)
        ensures
            b@ == self@.bytes,
    {
        self.bytes
    }

    /// The length of the payload, if it was known before the payload was read.
    pub fn declared_length(&self) -> (n: Option<usize>)
        ensures
            n is Some <==> self@.length_known,
            n is Some ==> n->Some_0 == self@.bytes.len(),
    {
        if self.length_known {
            Some(self.bytes.len())
        } else {
            None
        }
    }

    /// The file name that the payload suggests, if any.
    pub fn suggested_file_name(&self) -> (f: Option<&String>)
        ensures
            text_of_ref(f) == self@.file_name,
    {
        self.file_name.as_ref()
    }

    /// The media type of the payload, if known.
    pub fn content_type(&self) -> (c: Option<&String>)
        ensures
            text_of_ref(c) == self@.content_type,
    {
        self.content_type.as_ref()
    }
}

/// The text of an optional borrowed string.
pub open spec fn text_of_ref(s: Option<&String>) -> Option<Seq<char>> {
    match s {
        Some(t) => Some(t@),
        None => None,
    }
}

} // verus!
