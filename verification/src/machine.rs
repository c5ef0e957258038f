//! The decoder as a state machine over single bytes.
//!
//! The machine looks for the delimiter, a line ending followed by two hyphens
//! and the token. A token holds no carriage return, so the delimiter holds
//! one only at its start: when a byte breaks a partial match, none of the
//! bytes held back can start another match, and only the new byte can.
use vstd::prelude::*;
use crate::boundary::{crlf, delimiter_of};
use crate::entry::EntryView;
use crate::error::Error;
use crate::header::{FieldsView, line_applied, no_fields};

verus! {

/// A carriage return.
pub const CR: u8 = 0x0d;

/// A line feed.
pub const LF: u8 = 0x0a;

/// A hyphen.
pub const DASH: u8 = 0x2d;

/// What the decoder looks for between parts: a line ending, then `--token`.
pub open spec fn pattern_of(token: Seq<u8>) -> Seq<u8> {
    crlf() + delimiter_of(token)
}

/// Where the decoder stands in the stream.
pub enum State {
    /// Before the first delimiter line; `matched` bytes of the delimiter have
    /// just been seen.
    Preamble { matched: nat },
    /// Just behind a delimiter; `dash` tells whether one hyphen followed.
    Tail { dash: bool },
    /// In the rest of a delimiter line that opens a part; `cr` tells whether
    /// the last byte was a carriage return.
    Padding { cr: bool },
    /// In a header block; `line` is the unfinished line, `fields` what the
    /// finished lines gave.
    Headers { line: Seq<u8>, fields: FieldsView },
    /// In a payload; `matched` bytes of the delimiter have just been seen and
    /// are held back from `payload`.
    Body { fields: FieldsView, payload: Seq<u8>, matched: nat },
    /// Behind the terminal delimiter.
    Closed,
    /// Stopped by a framing error.
    Failed { error: Error },
}

/// The state before the first byte. The start of the stream counts as the
/// start of a line, so the line ending of the first delimiter is taken as seen.
pub open spec fn start() -> State {
    State::Preamble { matched: 2 }
}

/// What one byte does to a search for `pat`.
pub struct Scanned {
    /// The bytes that are now known to be no part of a delimiter.
    pub released: Seq<u8>,
    /// How many bytes of `pat` are matched after the byte.
    pub matched: nat,
    /// Whether the byte completed `pat`.
    pub found: bool,
}

/// The search for `pat`, of which `matched` bytes were matched, on the byte `b`.
pub open spec fn scanned(pat: Seq<u8>, matched: nat, b: u8) -> Scanned
    recommends
        matched < pat.len(),
{
    if b == pat[matched as int] {
        if matched + 1 == pat.len() {
            Scanned { released: Seq::empty(), matched: 0, found: true }
        } else {
            Scanned { released: Seq::empty(), matched: matched + 1, found: false }
        }
    } else if b == pat[0] {
        Scanned { released: pat.take(matched as int), matched: 1, found: false }
    } else {
        Scanned { released: pat.take(matched as int).push(b), matched: 0, found: false }
    }
}

/// The entry that a finished part gives.
pub open spec fn entry_of(fields: FieldsView, payload: Seq<u8>) -> EntryView
    recommends
        fields.name is Some,
{
    EntryView {
        name: fields.name->Some_0,
        file_name: fields.file_name,
        content_type: fields.content_type,
        payload,
    }
}

/// The state after a header line `line` (without its line ending) was
/// completed. A blank line ends the block: the payload follows if a
/// disposition line gave the name.
pub open spec fn after_line(fields: FieldsView, line: Seq<u8>) -> State {
    if line.len() == 0 {
        if fields.name is Some {
            State::Body { fields, payload: Seq::empty(), matched: 0 }
        } else {
            State::Failed { error: Error::MissingDisposition }
        }
    } else {
        match line_applied(fields, line) {
            Ok(f) => State::Headers { line: Seq::empty(), fields: f },
            Err(e) => State::Failed { error: e },
        }
    }
}

/// One step of the decoder: the state after the byte `b`, and the entry that
/// the byte completed, if it completed one.
pub open spec fn step(token: Seq<u8>, s: State, b: u8) -> (State, Option<EntryView>) {
    match s {
        State::Preamble { matched } => {
            let r = scanned(pattern_of(token), matched, b);
            if r.found {
                (State::Tail { dash: false }, None)
            } else {
                (State::Preamble { matched: r.matched }, None)
            }
        },
        State::Tail { dash } => {
            if b == DASH {
                if dash {
                    (State::Closed, None)
                } else {
                    (State::Tail { dash: true }, None)
                }
            } else {
                (State::Padding { cr: b == CR }, None)
            }
        },
        State::Padding { cr } => {
            if cr && b == LF {
                (State::Headers { line: Seq::empty(), fields: no_fields() }, None)
            } else {
                (State::Padding { cr: b == CR }, None)
            }
        },
        State::Headers { line, fields } => {
            if b == LF && line.len() > 0 && line.last() == CR {
                (after_line(fields, line.drop_last()), None)
            } else {
                (State::Headers { line: line.push(b), fields }, None)
            }
        },
        State::Body { fields, payload, matched } => {
            let r = scanned(pattern_of(token), matched, b);
            if r.found {
                (State::Tail { dash: false }, Some(entry_of(fields, payload)))
            } else {
                (State::Body { fields, payload: payload + r.released, matched: r.matched }, None)
            }
        },
        State::Closed => (State::Closed, None),
        State::Failed { error } => (State::Failed { error }, None),
    }
}

/// The entries that one step adds.
pub open spec fn yielded(e: Option<EntryView>) -> Seq<EntryView> {
    match e {
        Some(v) => seq![v],
        None => Seq::empty(),
    }
}

/// The decoder run over `bytes` from the state `s`: the state it ends in and
/// the entries it completed, in order.
pub open spec fn run(token: Seq<u8>, s: State, bytes: Seq<u8>) -> (State, Seq<EntryView>)
    decreases bytes.len(),
{
    if bytes.len() == 0 {
        (s, Seq::empty())
    } else {
        let before = run(token, s, bytes.drop_last());
        let last = step(token, before.0, bytes.last());
        (last.0, before.1 + yielded(last.1))
    }
}

/// What the end of the stream means in the state `s`: nothing behind the
/// terminal delimiter, the error that stopped the decoder if one did, and a
/// framing error of its own anywhere else.
pub open spec fn end_of_stream(s: State) -> Option<Error> {
    match s {
        State::Closed => None,
        State::Failed { error } => Some(error),
        State::Preamble { .. } => Some(Error::BoundaryNotFound),
        State::Tail { .. } => Some(Error::TruncatedHeaders),
        State::Padding { .. } => Some(Error::TruncatedHeaders),
        State::Headers { .. } => Some(Error::TruncatedHeaders),
        State::Body { .. } => Some(Error::TruncatedBody),
    }
}

/// Whether `s` is a state that the decoder can be in for `token`: a partial
/// match is shorter than the delimiter, and a payload has a name to go with.
pub open spec fn reachable(token: Seq<u8>, s: State) -> bool {
    match s {
        State::Preamble { matched } => matched < pattern_of(token).len(),
        State::Body { fields, payload, matched } => matched < pattern_of(token).len()
            && fields.name is Some,
        _ => true,
    }
}

/// The whole decoding of `bytes`: the entries found, and the framing error
/// that ended the decoding if one did.
pub open spec fn decoding(token: Seq<u8>, bytes: Seq<u8>) -> (Seq<EntryView>, Option<Error>) {
    let r = run(token, start(), bytes);
    (r.1, end_of_stream(r.0))
}

} // verus!
