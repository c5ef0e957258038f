//! The encoder: entries in, one delimited byte stream out, a part at a time.
use vstd::prelude::*;
use vstd::string::*;
use vstd::utf8::*;
use crate::boundary::{Boundary, crlf, delimiter_of, terminal_of};
use crate::entry::{Entry, EntryView, views};
use crate::error::Error;
use crate::header::{
    COLON, EQUALS, SPACE, disposition_label, disposition_line, form_data, label_end, param,
    param_sep, type_line,
};
use crate::machine::{CR, LF};
use crate::quoting::{QUOTE, escape_into, escaped, is_header_safe};
use crate::text::encoded;
use crate::wire::{defect, encodable, encoding, head_block, part, parts};

verus! {

/// The reason why the first entry that cannot be written cannot be written,
/// if there is such an entry.
pub open spec fn first_defect(entries: Seq<EntryView>) -> Option<Error>
    decreases entries.len(),
{
    if entries.len() == 0 {
        None
    } else if defect(entries[0]) is Some {
        defect(entries[0])
    } else {
        first_defect(entries.skip(1))
    }
}

/// `first_defect` is the defect of the first entry that has one.
pub proof fn lemma_first_defect(entries: Seq<EntryView>, i: int)
    requires
        0 <= i <= entries.len(),
        forall|j: int| 0 <= j < i ==> encodable(#[trigger] entries[j]),
        i < entries.len() ==> !encodable(entries[i]),
    ensures
        i < entries.len() ==> first_defect(entries) == defect(entries[i]),
        i == entries.len() ==> first_defect(entries) is None,
    decreases entries.len(),
{
    if entries.len() > 0 && i > 0 {
        let rest = entries.skip(1);
        assert(encodable(entries[0]));
        assert forall|j: int| 0 <= j < i - 1 implies encodable(#[trigger] rest[j]) by {
            assert(rest[j] == entries[j + 1]);
        }
        lemma_first_defect(rest, i - 1);
    }
}

/// Whether the length of every payload was known before it was read.
pub open spec fn lengths_known(entries: Seq<Entry>) -> bool {
    forall|i: int| 0 <= i < entries.len() ==> (#[trigger] entries[i]).length_known()
}

/// The parts of one more entry are the parts so far and the part of that
/// entry.
pub proof fn lemma_parts_next(token: Seq<u8>, entries: Seq<EntryView>, i: int)
    requires
        0 <= i < entries.len(),
    ensures
        parts(token, entries.take(i + 1)) == parts(token, entries.take(i)) + part(
            token,
            entries[i],
        ),
{
    let next = entries.take(i + 1);
    assert(next.drop_last() =~= entries.take(i));
    assert(next.last() == entries[i]);
}

/// Tells whether `e` can be written as a part, and why not if it cannot.
pub fn check_entry(e: &Entry) -> (r: Result<(), Error>)
    ensures
        r is Ok <==> encodable(e@),
        r is Err ==> defect(e@) == Some(r->Err_0),
{
    let name: &str = e.name().as_str();
    if name.is_empty() || !is_header_safe(name.as_bytes()) {
        return Err(Error::InvalidName);
    }
    match e.file_name() {
        Some(f) => {
            if !is_header_safe(f.as_str().as_bytes()) {
                return Err(Error::InvalidFileName);
            }
        },
        None => {},
    }
    match e.content_type() {
        Some(c) => {
            let bytes: &[u8] = c.as_str().as_bytes();
            if !is_header_safe(bytes) {
                return Err(Error::InvalidContentType);
            }
            if bytes.len() > 0 && bytes[0] == SPACE {
                return Err(Error::InvalidContentType);
            }
        },
        None => {},
    }
    Ok(())
}

/// Tells whether every entry can be written, and why the first one that
/// cannot be written cannot.
pub fn check_entries(entries: &Vec<Entry>) -> (r: Result<(), Error>)
    ensures
        r is Ok <==> first_defect(views(entries@)) is None,
        r is Err ==> first_defect(views(entries@)) == Some(r->Err_0),
        r is Ok ==> forall|i: int| 0 <= i < entries@.len() ==> encodable(#[trigger] entries@[i]@),
{
    let mut i: usize = 0;
    while i < entries.len()
        invariant
            i <= entries.len(),
            forall|j: int| 0 <= j < i ==> encodable(#[trigger] views(entries@)[j]),
        decreases entries.len() - i,
    {
        match check_entry(&entries[i]) {
            Ok(()) => {},
            Err(e) => {
                proof {
                    assert(views(entries@)[i as int] == entries@[i as int]@);
                    lemma_first_defect(views(entries@), i as int);
                }
                return Err(e);
            },
        }
        assert(views(entries@)[i as int] == entries@[i as int]@);
        i += 1;
    }
    proof {
        lemma_first_defect(views(entries@), i as int);
        assert forall|k: int| 0 <= k < entries@.len() implies encodable(
            #[trigger] entries@[k]@,
        ) by {
            assert(views(entries@)[k] == entries@[k]@);
        }
    }
    Ok(())
}

/// Appends one parameter to `out`: `; key="value"`, the value escaped.
pub fn write_param(out: &mut Vec<u8>, key: &[u8], value: &[u8])
    ensures
        final(out)@ == old(out)@ + param(key@, value@),
{
    out.extend_from_slice("; ".as_bytes());
    out.extend_from_slice(key);
    out.push(EQUALS);
    out.push(QUOTE);
    let ghost opened = out@;
    assert(opened =~= old(out)@ + (param_sep() + key@ + seq![EQUALS, QUOTE]));
    escape_into(out, value);
    out.push(QUOTE);
    assert(out@ =~= old(out)@ + param(key@, value@));
}

/// Appends a line ending to `out`.
pub fn write_line_end(out: &mut Vec<u8>)
    ensures
        final(out)@ == old(out)@ + crlf(),
{
    out.push(CR);
    out.push(LF);
    assert(out@ =~= old(out)@ + crlf());
}

/// Appends the header block of `e` to `out`.
pub fn write_head(out: &mut Vec<u8>, e: &Entry)
    ensures
        final(out)@ == old(out)@ + head_block(e@),
{
    let ghost name = encode_utf8(e@.name);
    let ghost file_name = encoded(e@.file_name);
    out.extend_from_slice("Content-Disposition".as_bytes());
    out.push(COLON);
    out.push(SPACE);
    out.extend_from_slice("form-data".as_bytes());
    assert(out@ =~= old(out)@ + (disposition_label() + label_end() + form_data()));
    write_param(out, "name".as_bytes(), e.name().as_str().as_bytes());
    match e.file_name() {
        Some(f) => {
            write_param(out, "filename".as_bytes(), f.as_str().as_bytes());
        },
        None => {},
    }
    assert(out@ =~= old(out)@ + disposition_line(name, file_name));
    write_line_end(out);
    let ghost first = out@;
    match e.content_type() {
        Some(c) => {
            out.extend_from_slice("Content-Type".as_bytes());
            out.push(COLON);
            out.push(SPACE);
            out.extend_from_slice(c.as_str().as_bytes());
            assert(out@ =~= first + type_line(encode_utf8(c@)));
            write_line_end(out);
        },
        None => {},
    }
    let ghost second = out@;
    write_line_end(out);
    assert(out@ =~= old(out)@ + head_block(e@)) by {
        let tail = match e@.content_type {
            Some(c) => type_line(encode_utf8(c)) + crlf(),
            None => Seq::empty(),
        };
        assert(second =~= first + tail);
        assert(first =~= old(out)@ + (disposition_line(name, file_name) + crlf()));
    }
}

/// Appends the part of `e` to `out`.
pub fn write_part(out: &mut Vec<u8>, boundary: &Boundary, e: &Entry)
    ensures
        final(out)@ == old(out)@ + part(boundary@, e@),
{
    let line: Vec<u8> = boundary.delimiter_line();
    out.extend_from_slice(line.as_slice());
    write_line_end(out);
    let ghost opened = out@;
    write_head(out, e);
    out.extend_from_slice(e.payload().as_slice());
    write_line_end(out);
    assert(out@ =~= old(out)@ + part(boundary@, e@)) by {
        assert(opened =~= old(out)@ + (delimiter_of(boundary@) + crlf()));
    }
}

/// The length of the part of `e`, if it fits.
pub fn part_length(boundary: &Boundary, e: &Entry) -> (n: Option<u64>)
    ensures
        n is Some <==> part(boundary@, e@).len() <= u64::MAX,
        n is Some ==> n->Some_0 == part(boundary@, e@).len(),
{
    let mut frame: Vec<u8> = boundary.delimiter_line();
    write_line_end(&mut frame);
    write_head(&mut frame, e);
    write_line_end(&mut frame);
    assert(frame@.len() + e@.payload.len() == part(boundary@, e@).len()) by {
        assert(frame@ =~= delimiter_of(boundary@) + crlf() + head_block(e@) + crlf());
    }
    let a: u64 = frame.len() as u64;
    let b: u64 = e.payload().len() as u64;
    a.checked_add(b)
}

/// An encoder for one list of entries. It hands out the encoding in chunks:
/// one per entry, then the terminal line.
pub struct Encoder {
    boundary: Boundary,
    entries: Vec<Entry>,
    next: usize,
    finished: bool,
}

impl Encoder {
    /// The invariant of the encoder. `new` establishes it and every method
    /// keeps it.
    pub closed spec fn wf(&self) -> bool {
        &&& self.next <= self.entries@.len()
        &&& self.finished ==> self.next == self.entries@.len()
        &&& forall|i: int| 0 <= i < self.entries@.len() ==> encodable(#[trigger] self.entries@[i]@)
    }

    /// The boundary token.
    pub closed spec fn token(&self) -> Seq<u8> {
        self.boundary@
    }

    /// The entries to encode.
    pub closed spec fn entries(&self) -> Seq<EntryView> {
        views(self.entries@)
    }

    /// How many entries were handed out as parts.
    pub closed spec fn position(&self) -> nat {
        self.next as nat
    }

    /// Whether the terminal line was handed out.
    pub closed spec fn finished(&self) -> bool {
        self.finished
    }

    /// Whether the length of every payload was known before it was read.
    pub closed spec fn all_lengths_known(&self) -> bool {
        lengths_known(self.entries@)
    }

    /// The bytes handed out so far.
    pub open spec fn written(&self) -> Seq<u8> {
        parts(self.token(), self.entries().take(self.position() as int)) + if self.finished() {
            terminal_of(self.token()) + crlf()
        } else {
            Seq::empty()
        }
    }

    /// An encoder for `entries`, delimited by `boundary`. Fails, before
    /// anything is written, if an entry cannot be written: with the reason of
    /// the first such entry.
    pub fn new(entries: Vec<Entry>, boundary: &Boundary) -> (r: Result<Encoder, Error>)
        ensures
            r is Ok <==> first_defect(views(entries@)) is None,
            r is Err ==> first_defect(views(entries@)) == Some(r->Err_0),
            r is Ok ==> {
                &&& r->Ok_0.wf()
                &&& r->Ok_0.token() == boundary@
                &&& r->Ok_0.entries() == views(entries@)
                &&& r->Ok_0.position() == 0
                &&& !r->Ok_0.finished()
                &&& r->Ok_0.all_lengths_known() == lengths_known(entries@)
            },
    {
        match check_entries(&entries) {
            Err(e) => Err(e),
            Ok(()) => Ok(
                Encoder { boundary: boundary.duplicate(), entries, next: 0, finished: false },
            ),
        }
    }

    /// Once the terminal line is out, what was written is the whole encoding.
    pub proof fn lemma_finished(&self)
        requires
            self.wf(),
            self.finished(),
        ensures
            self.written() == encoding(self.token(), self.entries()),
    {
        assert(self.entries().take(self.position() as int) =~= self.entries());
    }

    /// The next chunk of the encoding: the part of the next entry; behind the
    /// last entry the terminal line; behind that nothing.
    pub fn next_chunk(&mut self) -> (chunk: Option<Vec<u8>>)
        requires
            old(self).wf(),
        ensures
            final(self).wf(),
            final(self).token() == old(self).token(),
            final(self).entries() == old(self).entries(),
            final(self).all_lengths_known() == old(self).all_lengths_known(),
            old(self).position() < old(self).entries().len() ==> {
                &&& chunk is Some
                &&& chunk->Some_0@ == part(
                    old(self).token(),
                    old(self).entries()[old(self).position() as int],
                )
                &&& final(self).position() == old(self).position() + 1
                &&& !final(self).finished()
            },
            old(self).position() == old(self).entries().len() && !old(self).finished() ==> {
                &&& chunk is Some
                &&& chunk->Some_0@ == terminal_of(old(self).token()) + crlf()
                &&& final(self).position() == old(self).position()
                &&& final(self).finished()
            },
            old(self).finished() ==> {
                &&& chunk is None
                &&& final(self).position() == old(self).position()
                &&& final(self).finished()
            },
            chunk is Some ==> final(self).written() == old(self).written() + chunk->Some_0@,
            chunk is None ==> final(self).written() == old(self).written(),
    {
        if self.finished {
            return None;
        }
        let mut out: Vec<u8> = Vec::new();
        if self.next < self.entries.len() {
            write_part(&mut out, &self.boundary, &self.entries[self.next]);
            proof {
                let i = self.next as int;
                assert(self.entries()[i] == self.entries@[i]@);
                lemma_parts_next(self.token(), self.entries(), i);
                assert(out@ =~= part(self.token(), self.entries()[i]));
                assert(parts(self.token(), self.entries().take(i)) + Seq::<u8>::empty() + out@
                    =~= parts(self.token(), self.entries().take(i + 1)) + Seq::<u8>::empty());
            }
            self.next = self.next + 1;
        } else {
            let line: Vec<u8> = self.boundary.terminal_line();
            out.extend_from_slice(line.as_slice());
            write_line_end(&mut out);
            assert(out@ =~= terminal_of(self.token()) + crlf());
            self.finished = true;
            assert(old(self).written() + out@ =~= self.written());
        }
        Some(out)
    }

    /// The length of the whole encoding, if the length of every payload was
    /// known before it was read, and the sum fits.
    pub fn declared_length(&self) -> (n: Option<u64>)
        requires
            self.wf(),
        ensures
            n is Some <==> self.all_lengths_known() && encoding(
                self.token(),
                self.entries(),
            ).len() <= u64::MAX,
            n is Some ==> n->Some_0 == encoding(self.token(), self.entries()).len(),
    {
        let ghost token = self.token();
        let ghost all = self.entries();
        let mut total: u64 = 0;
        let mut i: usize = 0;
        assert(all.take(0) =~= Seq::<EntryView>::empty());
        while i < self.entries.len()
            invariant
                i <= self.entries.len(),
                token == self.token(),
                all == self.entries(),
                total == parts(token, all.take(i as int)).len(),
                forall|j: int| 0 <= j < i ==> (#[trigger] self.entries@[j]).length_known(),
            decreases self.entries.len() - i,
        {
            let e: &Entry = &self.entries[i];
            proof {
                assert(all[i as int] == e@);
                lemma_parts_next(token, all, i as int);
                lemma_parts_grow(token, all, i as int + 1);
            }
            if e.body().declared_length().is_none() {
                return None;
            }
            match part_length(&self.boundary, e) {
                None => {
                    return None;
                },
                Some(n) => match total.checked_add(n) {
                    None => {
                        return None;
                    },
                    Some(sum) => {
                        total = sum;
                    },
                },
            }
            i += 1;
        }
        assert(all.take(i as int) =~= all);
        let line: Vec<u8> = self.boundary.terminal_line();
        let tail: u64 = line.len() as u64;
        match total.checked_add(tail) {
            None => None,
            Some(sum) => sum.checked_add(2),
        }
    }

    /// Everything that is still to come, as one run of bytes. On a fresh
    /// encoder that is the whole encoding.
    pub fn into_bytes(self) -> (bytes: Vec<u8>)
        requires
            self.wf(),
        ensures
            self.written() + bytes@ == encoding(self.token(), self.entries()),
    {
        let mut encoder = self;
        let mut bytes: Vec<u8> = Vec::new();
        assert(self.written() + bytes@ =~= self.written());
        loop
            invariant
                encoder.wf(),
                encoder.token() == self.token(),
                encoder.entries() == self.entries(),
                encoder.written() == self.written() + bytes@,
            decreases
                    encoder.entries().len() - encoder.position() + if encoder.finished() {
                        0nat
                    } else {
                        1nat
                    },
        {
            let ghost before = bytes@;
            match encoder.next_chunk() {
                Some(chunk) => {
                    bytes.extend_from_slice(chunk.as_slice());
                    assert(self.written() + before + chunk@ =~= self.written() + bytes@);
                },
                None => {
                    proof {
                        encoder.lemma_finished();
                    }
                    return bytes;
                },
            }
        }
    }
}

/// The parts of a list are at least as long as the parts of any of its
/// beginnings.
pub proof fn lemma_parts_grow(token: Seq<u8>, entries: Seq<EntryView>, i: int)
    requires
        0 <= i <= entries.len(),
    ensures
        parts(token, entries.take(i)).len() <= parts(token, entries).len(),
    decreases entries.len() - i,
{
    if i < entries.len() {
        lemma_parts_next(token, entries, i);
        lemma_parts_grow(token, entries, i + 1);
    } else {
        assert(entries.take(i) =~= entries);
    }
}

} // verus!
