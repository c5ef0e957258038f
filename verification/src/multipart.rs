//! Multipart/form-data collections.
//!
//! A collection is either outgoing, a list of entries to encode, or incoming,
//! a received body that is decoded entry by entry. It is never both.
use vstd::prelude::*;
use crate::body::Body;
use crate::boundary::{Boundary, is_valid_token};
use crate::chunking::{lemma_run_next, lemma_run_prefix};
use crate::decoder::Decoder;
use crate::encoder::{Encoder, check_entries, first_defect};
use crate::entry::{Entry, EntryView, views};
use crate::error::Error;
use crate::machine::{decoding, run, start};
use crate::roundtrip::{all_encodable, lemma_round_trip};
use crate::wire::encoding;

verus! {

/// What a [`Multipart`] stands for.
pub enum MultipartView {
    /// A list of entries to encode, and whether it was encoded already.
    Outgoing { entries: Seq<EntryView>, encoded: bool },
    /// A received body with its boundary token, and how many items of its
    /// decoding were handed out.
    Incoming { token: Seq<u8>, source: Seq<u8>, handed_out: nat },
}

/// One item of the sequence that an incoming collection hands out.
pub type Item = Option<Result<EntryView, Error>>;

/// The `k`-th item that the decoding of `source` hands out: the entries in
/// order, then the framing error if the decoding ended in one, then nothing.
pub open spec fn item(token: Seq<u8>, source: Seq<u8>, k: nat) -> Item {
    let d = decoding(token, source);
    if k < d.0.len() {
        Some(Ok(d.0[k as int]))
    } else if k == d.0.len() && d.1 is Some {
        Some(Err(d.1->Some_0))
    } else {
        None
    }
}

/// An incoming collection over the encoding of a list of entries hands out
/// exactly those entries, in their order, and then nothing: no error follows
/// them. This holds for every valid token and every list of entries that can
/// be written and whose payloads do not hold the delimiter.
pub proof fn lemma_items_of_encoding(token: Seq<u8>, entries: Seq<EntryView>, k: nat)
    requires
        is_valid_token(token),
        all_encodable(token, entries),
    ensures
        k < entries.len() ==> item(token, encoding(token, entries), k) == Some(
            Ok::<EntryView, Error>(entries[k as int]),
        ),
        k >= entries.len() ==> item(token, encoding(token, entries), k) is None,
{
    lemma_round_trip(token, entries);
}

/// What a handed-out item stands for.
pub open spec fn item_view(r: Option<Result<Entry, Error>>) -> Item {
    match r {
        Some(Ok(e)) => Some(Ok(e@)),
        Some(Err(e)) => Some(Err(e)),
        None => None,
    }
}

struct Source {
    bytes: Vec<u8>,
    decoder: Decoder,
    cursor: usize,
    reported: bool,
}

impl Source {
    spec fn wf(&self) -> bool {
        &&& self.decoder.wf()
        &&& self.cursor <= self.bytes@.len()
        &&& self.decoder@ == run(
            self.decoder.token(),
            start(),
            self.bytes@.take(self.cursor as int),
        ).0
        &&& self.reported ==> self.cursor == self.bytes@.len()
    }

    spec fn handed_out(&self) -> nat {
        let done = run(self.decoder.token(), start(), self.bytes@.take(self.cursor as int)).1.len();
        if self.reported {
            done + 1
        } else {
            done
        }
    }

    fn next_entry(&mut self) -> (r: Option<Result<Entry, Error>>)
        requires
            old(self).wf(),
        ensures
            final(self).wf(),
            final(self).decoder.token() == old(self).decoder.token(),
            final(self).bytes@ == old(self).bytes@,
            item_view(r) == item(old(self).decoder.token(), old(self).bytes@, old(self).handed_out()),
            final(self).handed_out() == old(self).handed_out() + if r is Some {
                1nat
            } else {
                0nat
            },
    {
        let ghost token = self.decoder.token();
        let ghost bytes = self.bytes@;
        let ghost h = self.handed_out();
        proof {
            lemma_run_prefix(token, start(), bytes, self.cursor as int);
        }
        if self.reported {
            assert(bytes.take(self.cursor as int) =~= bytes);
            return None;
        }
        while self.cursor < self.bytes.len()
            invariant
                self.wf(),
                !self.reported,
                token == old(self).decoder.token(),
                bytes == old(self).bytes@,
                h == old(self).handed_out(),
                self.decoder.token() == token,
                self.bytes@ == bytes,
                self.handed_out() == h,
            decreases self.bytes@.len() - self.cursor,
        {
            let b: u8 = self.bytes[self.cursor];
            proof {
                lemma_run_next(token, start(), bytes, self.cursor as int);
                lemma_run_prefix(token, start(), bytes, self.cursor + 1);
            }
            let done = self.decoder.push_byte(b);
            self.cursor = self.cursor + 1;
            match done {
                Some(e) => {
                    return Some(Ok(e));
                },
                None => {},
            }
        }
        assert(bytes.take(self.cursor as int) =~= bytes);
        match self.decoder.finish() {
            Ok(()) => None,
            Err(e) => {
                self.reported = true;
                Some(Err(e))
            },
        }
    }
}

/// A multipart body, either being put together or being taken apart.
pub struct Multipart {
    entries: Vec<Entry>,
    source: Option<Source>,
    encoded: bool,
}

impl View for Multipart {
    type V = MultipartView;

    closed spec fn view(&self) -> MultipartView {
        match self.source {
            Some(src) => MultipartView::Incoming {
                token: src.decoder.token(),
                source: src.bytes@,
                handed_out: src.handed_out(),
            },
            None => MultipartView::Outgoing {
                entries: views(self.entries@),
                encoded: self.encoded,
            },
        }
    }
}

impl Multipart {
    /// The invariant of the collection. The constructors establish it and
    /// every method keeps it.
    pub closed spec fn wf(&self) -> bool {
        match self.source {
            Some(src) => src.wf(),
            None => true,
        }
    }

    /// Create a new instance of `Multipart`: an outgoing collection without
    /// entries.
    pub fn new() -> (m: Multipart)
        ensures
            m.wf(),
            m@ == (MultipartView::Outgoing { entries: Seq::empty(), encoded: false }),
    {
        let m = Multipart { entries: Vec::new(), source: None, encoded: false };
        assert(views(m.entries@) =~= Seq::<EntryView>::empty());
        m
    }

    /// Parse a `Body` stream as a `Multipart` instance: an incoming
    /// collection over the bytes of `body`, delimited by `boundary`. Nothing
    /// is decoded until an entry is asked for.
    pub fn from_body(body: Body, boundary: &Boundary) -> (m: Multipart)
        ensures
            m.wf(),
            m@ == (MultipartView::Incoming {
                token: boundary@,
                source: body@.bytes,
                handed_out: 0,
            }),
    {
        let decoder = Decoder::new(boundary);
        let bytes: Vec<u8> = body.into_bytes();
        assert(bytes@.take(0) =~= Seq::<u8>::empty());
        let src = Source { bytes, decoder, cursor: 0, reported: false };
        Multipart { entries: Vec::new(), source: Some(src), encoded: false }
    }

    /// Whether this is an incoming collection.
    pub fn is_incoming(&self) -> (yes: bool)
        ensures
            yes == (self@ is Incoming),
    {
        self.source.is_some()
    }

    /// The number of entries that wait to be encoded; none in an incoming
    /// collection.
    pub fn len(&self) -> (n: usize)
        ensures
            self@ is Outgoing ==> n == self@->Outgoing_entries.len(),
            self@ is Incoming ==> n == 0,
    {
        if self.source.is_some() {
            0
        } else {
            assert(views(self.entries@).len() == self.entries@.len());
            self.entries.len()
        }
    }

    /// Add a new entry to the `Multipart` instance, behind those it holds.
    /// Fails on an incoming collection, and on one that was encoded already.
    pub fn push(&mut self, name: &str, body: Body) -> (r: Result<(), Error>)
        requires
            old(self).wf(),
        ensures
            final(self).wf(),
            match old(self)@ {
                MultipartView::Incoming { .. } => r == Err::<(), Error>(Error::NotOutgoing)
                    && final(self)@ == old(self)@,
                MultipartView::Outgoing { entries, encoded } => if encoded {
                    r == Err::<(), Error>(Error::AlreadyEncoded) && final(self)@ == old(self)@
                } else {
                    r is Ok && final(self)@ == (MultipartView::Outgoing {
                        entries: entries.push(
                            EntryView {
                                name: name@,
                                file_name: body@.file_name,
                                content_type: body@.content_type,
                                payload: body@.bytes,
                            },
                        ),
                        encoded: false,
                    })
                },
            },
    {
        if self.source.is_some() {
            return Err(Error::NotOutgoing);
        }
        if self.encoded {
            return Err(Error::AlreadyEncoded);
        }
        let entry = Entry::new(name, body);
        self.entries.push(entry);
        assert(views(self.entries@) =~= views(old(self).entries@).push(entry@));
        Ok(())
    }

    /// Hands the entries over to an encoder that writes them delimited by
    /// `boundary`. Works once: the collection is empty and closed afterwards.
    /// Fails, and leaves the collection as it is, on an incoming collection,
    /// on one that was encoded already, and where an entry cannot be written.
    pub fn encode(&mut self, boundary: &Boundary) -> (r: Result<Encoder, Error>)
        requires
            old(self).wf(),
        ensures
            final(self).wf(),
            match old(self)@ {
                MultipartView::Incoming { .. } => r is Err && r->Err_0 == Error::NotOutgoing
                    && final(self)@ == old(self)@,
                MultipartView::Outgoing { entries, encoded } => if encoded {
                    r is Err && r->Err_0 == Error::AlreadyEncoded && final(self)@ == old(self)@
                } else if first_defect(entries) is Some {
                    r is Err && first_defect(entries) == Some(r->Err_0) && final(self)@ == old(
                        self,
                    )@
                } else {
                    &&& r is Ok
                    &&& r->Ok_0.wf()
                    &&& r->Ok_0.token() == boundary@
                    &&& r->Ok_0.entries() == entries
                    &&& r->Ok_0.position() == 0
                    &&& !r->Ok_0.finished()
                    &&& final(self)@ == (MultipartView::Outgoing {
                        entries: Seq::empty(),
                        encoded: true,
                    })
                },
            },
    {
        if self.source.is_some() {
            return Err(Error::NotOutgoing);
        }
        if self.encoded {
            return Err(Error::AlreadyEncoded);
        }
        match check_entries(&self.entries) {
            Err(e) => Err(e),
            Ok(()) => {
                let mut entries: Vec<Entry> = Vec::new();
                core::mem::swap(&mut self.entries, &mut entries);
                self.encoded = true;
                assert(views(self.entries@) =~= Seq::<EntryView>::empty());
                Encoder::new(entries, boundary)
            },
        }
    }

    /// Hands out the next item of an incoming collection: the entries of the
    /// body in their order, each decoded only when it is asked for; then,
    /// once, the framing error if the body ends in one; then nothing, however
    /// often it is asked. An outgoing collection hands out nothing.
    pub fn next_entry(&mut self) -> (r: Option<Result<Entry, Error>>)
        requires
            old(self).wf(),
        ensures
            final(self).wf(),
            match old(self)@ {
                MultipartView::Outgoing { .. } => r is None && final(self)@ == old(self)@,
                MultipartView::Incoming { token, source, handed_out } => {
                    &&& item_view(r) == item(token, source, handed_out)
                    &&& final(self)@ == (MultipartView::Incoming {
                        token,
                        source,
                        handed_out: handed_out + if r is Some {
                            1nat
                        } else {
                            0nat
                        },
                    })
                },
            },
    {
        let taken: Option<Source> = self.source.take();
        match taken {
            None => None,
            Some(src) => {
                let mut src = src;
                let r = src.next_entry();
                self.source = Some(src);
                r
            },
        }
    }
}

} // verus!
