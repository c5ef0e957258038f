//! The wire format, as a function from entries to bytes.
use vstd::prelude::*;
use vstd::utf8::*;
use crate::boundary::{crlf, delimiter_of, terminal_of};
use crate::entry::EntryView;
use crate::error::Error;
use crate::header::{SPACE, disposition_line, type_line};
use crate::quoting::header_safe;
use crate::text::encoded;

verus! {

/// Whether an optional text is absent or free of control characters.
pub open spec fn safe_text(t: Option<Seq<char>>) -> bool {
    t is Some ==> header_safe(encode_utf8(t->Some_0))
}

/// Whether a media type can be written: it holds no control character and
/// does not start with a space, which a reader would take for padding.
pub open spec fn safe_type(t: Option<Seq<char>>) -> bool {
    t is Some ==> {
        &&& header_safe(encode_utf8(t->Some_0))
        &&& encode_utf8(t->Some_0).len() > 0 ==> encode_utf8(t->Some_0)[0] != SPACE
    }
}

/// Why `e` cannot be written as a part, if it cannot: its name is empty or
/// holds a control character; else its file name holds one; else its media
/// type holds one or starts with a space.
pub open spec fn defect(e: EntryView) -> Option<Error> {
    if e.name.len() == 0 || !header_safe(encode_utf8(e.name)) {
        Some(Error::InvalidName)
    } else if !safe_text(e.file_name) {
        Some(Error::InvalidFileName)
    } else if !safe_type(e.content_type) {
        Some(Error::InvalidContentType)
    } else {
        None
    }
}

/// Whether `e` can be written as a part.
pub open spec fn encodable(e: EntryView) -> bool {
    defect(e) is None
}

/// The header block of `e`: the disposition line, the media type line if the
/// entry has a media type, and the blank line that ends the block.
pub open spec fn head_block(e: EntryView) -> Seq<u8> {
    disposition_line(encode_utf8(e.name), encoded(e.file_name)) + crlf() + match e.content_type {
        Some(c) => type_line(encode_utf8(c)) + crlf(),
        None => Seq::empty(),
    } + crlf()
}

/// One part: delimiter line, header block, payload, line ending.
pub open spec fn part(token: Seq<u8>, e: EntryView) -> Seq<u8> {
    delimiter_of(token) + crlf() + head_block(e) + e.payload + crlf()
}

/// The parts of `entries`, one after the other, in order.
pub open spec fn parts(token: Seq<u8>, entries: Seq<EntryView>) -> Seq<u8>
    decreases entries.len(),
{
    if entries.len() == 0 {
        Seq::empty()
    } else {
        parts(token, entries.drop_last()) + part(token, entries.last())
    }
}

/// The whole body: every part, then the terminal line.
pub open spec fn encoding(token: Seq<u8>, entries: Seq<EntryView>) -> Seq<u8> {
    parts(token, entries) + terminal_of(token) + crlf()
}

} // verus!
