//! The incremental decoder.
use vstd::prelude::*;
use vstd::slice::*;
use crate::body::Body;
use crate::boundary::{Boundary, crlf, dashes, is_valid_token};
use crate::entry::{Entry, EntryView, optional_view, views};
use crate::error::Error;
use crate::header::{Fields, apply_line};
use crate::machine::{
    CR, DASH, LF, State, decoding, end_of_stream, pattern_of, reachable, run, scanned, start,
    step,
};

verus! {

/// The stage of the stream that a [`Decoder`] is in.
#[derive(Clone, Copy, Debug, PartialEq, Eq, Structural)]
pub enum Phase {
    /// Before the first delimiter line.
    Preamble,
    /// In a delimiter line, behind the token.
    Delimiter,
    /// In the header block of a part.
    Headers,
    /// In the payload of a part.
    Body,
    /// Behind the terminal delimiter.
    Closed,
    /// Stopped by a framing error.
    Errored,
}

/// The stage that the state `s` belongs to.
pub open spec fn phase_of(s: State) -> Phase {
    match s {
        State::Preamble { .. } => Phase::Preamble,
        State::Tail { .. } => Phase::Delimiter,
        State::Padding { .. } => Phase::Delimiter,
        State::Headers { .. } => Phase::Headers,
        State::Body { .. } => Phase::Body,
        State::Closed => Phase::Closed,
        State::Failed { .. } => Phase::Errored,
    }
}

enum Mode {
    Preamble,
    Tail,
    TailDash,
    Padding,
    PaddingCr,
    Headers,
    Body,
    Closed,
    Failed(Error),
}

/// Advances a search for `pattern` by the byte `b`. The bytes that the step
/// releases are appended to `out` if `keep` is set, and dropped otherwise.
fn scan_byte(pattern: &Vec<u8>, matched: usize, b: u8, out: &mut Vec<u8>, keep: bool) -> (r: (
    usize,
    bool,
))
    requires
        matched < pattern@.len(),
        pattern@.len() >= 2,
    ensures
        r.0 == scanned(pattern@, matched as nat, b).matched,
        r.1 == scanned(pattern@, matched as nat, b).found,
        r.0 < pattern@.len(),
        final(out)@ == if keep {
            old(out)@ + scanned(pattern@, matched as nat, b).released
        } else {
            old(out)@
        },
{
    if b == pattern[matched] {
        assert(out@ + Seq::<u8>::empty() =~= out@);
        if matched == pattern.len() - 1 {
            (0, true)
        } else {
            (matched + 1, false)
        }
    } else {
        if keep {
            out.extend_from_slice(slice_subrange(pattern.as_slice(), 0, matched));
            assert(pattern@.subrange(0, matched as int) =~= pattern@.take(matched as int));
        }
        if b == pattern[0] {
            (1, false)
        } else {
            if keep {
                out.push(b);
                assert(out@ =~= old(out)@ + pattern@.take(matched as int).push(b));
            }
            (0, false)
        }
    }
}

/// A decoder for one multipart stream. It takes the stream in chunks of any
/// size and hands out each entry as soon as its closing delimiter was read.
pub struct Decoder {
    pattern: Vec<u8>,
    mode: Mode,
    matched: usize,
    line: Vec<u8>,
    fields: Fields,
    payload: Vec<u8>,
}

impl View for Decoder {
    type V = State;

    closed spec fn view(&self) -> State {
        match self.mode {
            Mode::Preamble => State::Preamble { matched: self.matched as nat },
            Mode::Tail => State::Tail { dash: false },
            Mode::TailDash => State::Tail { dash: true },
            Mode::Padding => State::Padding { cr: false },
            Mode::PaddingCr => State::Padding { cr: true },
            Mode::Headers => State::Headers { line: self.line@, fields: self.fields@ },
            Mode::Body => State::Body {
                fields: self.fields@,
                payload: self.payload@,
                matched: self.matched as nat,
            },
            Mode::Closed => State::Closed,
            Mode::Failed(error) => State::Failed { error },
        }
    }
}

impl Decoder {
    /// The invariant of the decoder. `new` establishes it and every method
    /// keeps it.
    pub closed spec fn wf(&self) -> bool {
        &&& self.pattern@.len() >= 5
        &&& self.pattern@.take(4) == crlf() + dashes()
        &&& is_valid_token(self.pattern@.skip(4))
        &&& self.matched < self.pattern@.len()
        &&& self.mode is Body ==> self.fields.name is Some
    }

    /// The boundary token that the decoder looks for.
    pub closed spec fn token(&self) -> Seq<u8> {
        self.pattern@.skip(4)
    }

    /// A decoder at the start of a stream that is delimited by `boundary`.
    pub fn new(boundary: &Boundary) -> (d: Decoder)
        ensures
            d.wf(),
            d.token() == boundary@,
            d@ == start(),
    {
        let token: &Vec<u8> = boundary.token();
        let mut pattern: Vec<u8> = Vec::new();
        pattern.push(CR);
        pattern.push(LF);
        pattern.push(DASH);
        pattern.push(DASH);
        pattern.extend_from_slice(token.as_slice());
        assert(pattern@.take(4) =~= crlf() + dashes());
        assert(pattern@.skip(4) =~= boundary@);
        Decoder {
            pattern,
            mode: Mode::Preamble,
            matched: 2,
            line: Vec::new(),
            fields: Fields::new(),
            payload: Vec::new(),
        }
    }

    /// The stage of the stream that the decoder is in.
    pub fn phase(&self) -> (p: Phase)
        ensures
            p == phase_of(self@),
    {
        match self.mode {
            Mode::Preamble => Phase::Preamble,
            Mode::Tail => Phase::Delimiter,
            Mode::TailDash => Phase::Delimiter,
            Mode::Padding => Phase::Delimiter,
            Mode::PaddingCr => Phase::Delimiter,
            Mode::Headers => Phase::Headers,
            Mode::Body => Phase::Body,
            Mode::Closed => Phase::Closed,
            Mode::Failed(_) => Phase::Errored,
        }
    }

    /// Takes one byte of the stream. Returns the entry that the byte
    /// completed, if it completed one.
    pub fn push_byte(&mut self, b: u8) -> (entry: Option<Entry>)
        requires
            old(self).wf(),
        ensures
            final(self).wf(),
            final(self).token() == old(self).token(),
            final(self)@ == step(old(self).token(), old(self)@, b).0,
            optional_view(entry) == step(old(self).token(), old(self)@, b).1,
            reachable(old(self).token(), old(self)@),
            reachable(final(self).token(), final(self)@),
    {
        proof {
            assert(self.pattern@ =~= pattern_of(self.token())) by {
                assert(self.pattern@ =~= self.pattern@.take(4) + self.pattern@.skip(4));
            }
        }
        match self.mode {
            Mode::Preamble => {
                let mut sink: Vec<u8> = Vec::new();
                let (m, found) = scan_byte(&self.pattern, self.matched, b, &mut sink, false);
                if found {
                    self.mode = Mode::Tail;
                    self.matched = 0;
                } else {
                    self.matched = m;
                }
                None
            },
            Mode::Tail => {
                if b == DASH {
                    self.mode = Mode::TailDash;
                } else if b == CR {
                    self.mode = Mode::PaddingCr;
                } else {
                    self.mode = Mode::Padding;
                }
                None
            },
            Mode::TailDash => {
                if b == DASH {
                    self.mode = Mode::Closed;
                } else if b == CR {
                    self.mode = Mode::PaddingCr;
                } else {
                    self.mode = Mode::Padding;
                }
                None
            },
            Mode::Padding => {
                if b == CR {
                    self.mode = Mode::PaddingCr;
                }
                None
            },
            Mode::PaddingCr => {
                if b == LF {
                    self.line = Vec::new();
                    self.fields = Fields::new();
                    self.mode = Mode::Headers;
                } else if b != CR {
                    self.mode = Mode::Padding;
                }
                None
            },
            Mode::Headers => {
                let n: usize = self.line.len();
                if b == LF && n > 0 && self.line[n - 1] == CR {
                    self.line.pop();
                    assert(self.line@ =~= old(self).line@.drop_last());
                    if self.line.len() == 0 {
                        if self.fields.name.is_some() {
                            self.payload = Vec::new();
                            self.matched = 0;
                            self.mode = Mode::Body;
                        } else {
                            self.mode = Mode::Failed(Error::MissingDisposition);
                        }
                    } else {
                        let mut fields = Fields::new();
                        core::mem::swap(&mut self.fields, &mut fields);
                        match apply_line(fields, self.line.as_slice()) {
                            Ok(next) => {
                                self.fields = next;
                                self.line = Vec::new();
                            },
                            Err(e) => {
                                self.mode = Mode::Failed(e);
                            },
                        }
                    }
                } else {
                    self.line.push(b);
                }
                None
            },
            Mode::Body => {
                let (m, found) = scan_byte(&self.pattern, self.matched, b, &mut self.payload, true);
                if found {
                    self.mode = Mode::Tail;
                    self.matched = 0;
                    let mut fields = Fields::new();
                    core::mem::swap(&mut self.fields, &mut fields);
                    let mut payload: Vec<u8> = Vec::new();
                    core::mem::swap(&mut self.payload, &mut payload);
                    let Fields { name, file_name, content_type } = fields;
                    match name {
                        Some(n) => Some(
                            Entry::from_parts(
                                n,
                                Body::from_parts(payload, file_name, content_type, true),
                            ),
                        ),
                        None => None,
                    }
                } else {
                    self.matched = m;
                    None
                }
            },
            Mode::Closed => None,
            Mode::Failed(_) => None,
        }
    }

    /// Hands out the payload gathered so far for the part that is being
    /// read, and forgets it: the entry that the part completes later holds
    /// only what was gathered since. A caller that takes the payload after
    /// every chunk never holds more of a part in memory than one chunk.
    /// Outside a payload there is nothing to take.
    pub fn take_payload(&mut self) -> (bytes: Vec<u8>)
        requires
            old(self).wf(),
        ensures
            final(self).wf(),
            final(self).token() == old(self).token(),
            match old(self)@ {
                State::Body { fields, payload, matched } => bytes@ == payload && final(self)@ == (
                    State::Body { fields, payload: Seq::empty(), matched }
                ),
                _ => bytes@ == Seq::<u8>::empty() && final(self)@ == old(self)@,
            },
    {
        let mut bytes: Vec<u8> = Vec::new();
        match self.mode {
            Mode::Body => {
                core::mem::swap(&mut self.payload, &mut bytes);
            },
            _ => {},
        }
        bytes
    }

    /// Takes the next chunk of the stream. Returns the entries that the
    /// chunk completed, in order.
    pub fn feed(&mut self, chunk: &[u8]) -> (entries: Vec<Entry>)
        requires
            old(self).wf(),
        ensures
            final(self).wf(),
            final(self).token() == old(self).token(),
            final(self)@ == run(old(self).token(), old(self)@, chunk@).0,
            views(entries@) == run(old(self).token(), old(self)@, chunk@).1,
    {
        let mut entries: Vec<Entry> = Vec::new();
        let mut i: usize = 0;
        assert(views(entries@) =~= Seq::<EntryView>::empty());
        assert(chunk@.take(0) =~= Seq::<u8>::empty());
        while i < chunk.len()
            invariant
                i <= chunk.len(),
                self.wf(),
                self.token() == old(self).token(),
                self@ == run(old(self).token(), old(self)@, chunk@.take(i as int)).0,
                views(entries@) == run(old(self).token(), old(self)@, chunk@.take(i as int)).1,
            decreases chunk.len() - i,
        {
            let ghost before = views(entries@);
            let done = self.push_byte(chunk[i]);
            proof {
                let next = chunk@.take(i + 1);
                assert(next.drop_last() =~= chunk@.take(i as int));
                assert(next.last() == chunk@[i as int]);
            }
            match done {
                Some(e) => {
                    entries.push(e);
                    assert(views(entries@) =~= before + seq![e@]);
                },
                None => {
                    assert(before + Seq::<EntryView>::empty() =~= before);
                },
            }
            i += 1;
        }
        assert(chunk@.take(i as int) =~= chunk@);
        entries
    }

    /// Tells what the end of the stream means here: `Ok` behind the terminal
    /// delimiter, and a framing error anywhere else.
    pub fn finish(&self) -> (r: Result<(), Error>)
        ensures
            r is Ok <==> end_of_stream(self@) is None,
            r is Err ==> end_of_stream(self@) == Some(r->Err_0),
    {
        match self.mode {
            Mode::Closed => Ok(()),
            Mode::Failed(e) => Err(e),
            Mode::Preamble => Err(Error::BoundaryNotFound),
            Mode::Body => Err(Error::TruncatedBody),
            _ => Err(Error::TruncatedHeaders),
        }
    }
}

/// Decodes a whole stream at once: the entries found, in order, and the
/// framing error that ended the decoding, if one did.
pub fn decode(bytes: &[u8], boundary: &Boundary) -> (r: (Vec<Entry>, Option<Error>))
    ensures
        (views(r.0@), r.1) == decoding(boundary@, bytes@),
{
    let mut decoder = Decoder::new(boundary);
    let entries: Vec<Entry> = decoder.feed(bytes);
    match decoder.finish() {
        Ok(()) => (entries, None),
        Err(e) => (entries, Some(e)),
    }
}

} // verus!
