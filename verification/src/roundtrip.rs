//! Decoding what was encoded gives back the entries.
use vstd::prelude::*;
use vstd::utf8::*;
use crate::boundary::{crlf, dashes, delimiter_of, is_valid_token};
use crate::chunking::{lemma_run_concat, lemma_run_one};
use crate::entry::EntryView;
use crate::error::Error;
use crate::header::{FieldsView, disposition_line, line_applied, no_fields, type_line};
use crate::machine::{
    CR, DASH, LF, State, after_line, decoding, entry_of, pattern_of, run, start, yielded,
};
use crate::quoting::{header_safe, is_control};
use crate::reading::{
    lemma_disposition_line_read, lemma_disposition_line_safe, lemma_type_line_read,
    lemma_type_line_safe,
};
use crate::scanning::{
    lemma_complete_match, lemma_pattern, lemma_payload_then_line_end, occurs_in, pending_entry,
    with_matched,
};
use crate::text::encoded;
use crate::wire::{encodable, encoding, head_block, part, parts};

verus! {

/// The header fields that the header block of `e` gives.
pub open spec fn fields_of(e: EntryView) -> FieldsView {
    FieldsView { name: Some(e.name), file_name: e.file_name, content_type: e.content_type }
}

/// Whether every entry can be written and none holds the delimiter of
/// `token` in its payload.
pub open spec fn all_encodable(token: Seq<u8>, entries: Seq<EntryView>) -> bool {
    forall|i: int|
        0 <= i < entries.len() ==> encodable(#[trigger] entries[i]) && !occurs_in(
            pattern_of(token),
            entries[i].payload,
        )
}

/// Bytes without a line feed only make the unfinished header line longer.
pub proof fn lemma_run_line(token: Seq<u8>, line: Seq<u8>, fields: FieldsView, bytes: Seq<u8>)
    requires
        forall|i: int| 0 <= i < bytes.len() ==> #[trigger] bytes[i] != LF,
    ensures
        run(token, State::Headers { line, fields }, bytes) == (
            State::Headers { line: line + bytes, fields },
            Seq::<EntryView>::empty(),
        ),
    decreases bytes.len(),
{
    if bytes.len() == 0 {
        assert(line + bytes =~= line);
    } else {
        let front = bytes.drop_last();
        assert forall|i: int| 0 <= i < front.len() implies #[trigger] front[i] != LF by {
            assert(front[i] == bytes[i]);
        }
        lemma_run_line(token, line, fields, front);
        assert(bytes.last() == bytes[bytes.len() - 1]);
        assert((line + front).push(bytes.last()) =~= line + bytes);
        assert(Seq::<EntryView>::empty() + yielded(None) =~= Seq::<EntryView>::empty());
    }
}

/// A header line without a line feed, followed by a line ending, is
/// completed as that line.
pub proof fn lemma_run_header_line(token: Seq<u8>, fields: FieldsView, line: Seq<u8>)
    requires
        forall|i: int| 0 <= i < line.len() ==> #[trigger] line[i] != LF,
    ensures
        run(token, State::Headers { line: Seq::empty(), fields }, line + crlf()) == (
            after_line(fields, line),
            Seq::<EntryView>::empty(),
        ),
{
    let s0 = State::Headers { line: Seq::empty(), fields };
    let open = line.push(CR);
    assert forall|i: int| 0 <= i < open.len() implies #[trigger] open[i] != LF by {
        if i < line.len() {
            assert(open[i] == line[i]);
        }
    }
    lemma_run_line(token, Seq::empty(), fields, open);
    assert(Seq::<u8>::empty() + open =~= open);
    let s1 = State::Headers { line: open, fields };
    assert(open.drop_last() =~= line);
    lemma_run_one(token, s1, LF);
    lemma_run_concat(token, s0, open, seq![LF]);
    assert(open + seq![LF] =~= line + crlf());
    assert(Seq::<EntryView>::empty() + yielded(None) =~= Seq::<EntryView>::empty());
}

/// A run of bytes without control characters holds no line feed.
pub proof fn lemma_safe_has_no_line_feed(s: Seq<u8>)
    requires
        header_safe(s),
    ensures
        forall|i: int| 0 <= i < s.len() ==> #[trigger] s[i] != LF,
{
    assert forall|i: int| 0 <= i < s.len() implies #[trigger] s[i] != LF by {
        assert(!is_control(s[i]));
    }
}

/// The header block of an entry that can be written takes the decoder from
/// the start of a header block to the start of the payload, with the fields
/// of that entry.
pub proof fn lemma_run_head(token: Seq<u8>, e: EntryView)
    requires
        encodable(e),
    ensures
        run(
            token,
            State::Headers { line: Seq::empty(), fields: no_fields() },
            head_block(e),
        ) == (
            State::Body { fields: fields_of(e), payload: Seq::empty(), matched: 0 },
            Seq::<EntryView>::empty(),
        ),
{
    broadcast use encode_utf8_valid_utf8, encode_utf8_decode_utf8;

    let none = Seq::<EntryView>::empty();
    let name = encode_utf8(e.name);
    let file_name = encoded(e.file_name);
    assert(name.len() > 0) by {
        if name.len() == 0 {
            assert(decode_utf8(name) == e.name);
            assert(decode_utf8(name).len() == 0);
        }
    }
    let first = disposition_line(name, file_name);
    let s0 = State::Headers { line: Seq::empty(), fields: no_fields() };
    let f1 = FieldsView { name: Some(e.name), file_name: e.file_name, content_type: None };
    lemma_disposition_line_safe(name, file_name);
    lemma_safe_has_no_line_feed(first);
    lemma_disposition_line_read(no_fields(), name, file_name);
    lemma_run_header_line(token, no_fields(), first);
    let s1 = State::Headers { line: Seq::empty(), fields: f1 };
    assert(line_applied(no_fields(), first) == Ok::<FieldsView, Error>(f1));
    assert(run(token, s0, first + crlf()) == (s1, none));
    let s3 = State::Body { fields: fields_of(e), payload: Seq::empty(), matched: 0 };
    lemma_run_header_line(token, fields_of(e), Seq::empty());
    assert(Seq::<u8>::empty() + crlf() =~= crlf());
    let s2 = State::Headers { line: Seq::empty(), fields: fields_of(e) };
    assert(run(token, s2, crlf()) == (s3, none));
    match e.content_type {
        Some(c) => {
            let second = type_line(encode_utf8(c));
            lemma_type_line_safe(encode_utf8(c));
            lemma_safe_has_no_line_feed(second);
            lemma_type_line_read(f1, encode_utf8(c));
            lemma_run_header_line(token, f1, second);
            assert(run(token, s1, second + crlf()) == (s2, none));
            lemma_run_concat(token, s0, first + crlf(), second + crlf());
            lemma_run_concat(token, s0, first + crlf() + (second + crlf()), crlf());
            assert(head_block(e) =~= first + crlf() + (second + crlf()) + crlf());
            assert(none + none =~= none);
        },
        None => {
            assert(s1 == s2);
            lemma_run_concat(token, s0, first + crlf(), crlf());
            assert(head_block(e) =~= first + crlf() + crlf());
            assert(none + none =~= none);
        },
    }
}

/// A line ending behind a delimiter opens a header block.
pub proof fn lemma_run_open(token: Seq<u8>)
    ensures
        run(token, State::Tail { dash: false }, crlf()) == (
            State::Headers { line: Seq::empty(), fields: no_fields() },
            Seq::<EntryView>::empty(),
        ),
{
    let none = Seq::<EntryView>::empty();
    let s0 = State::Tail { dash: false };
    let s1 = State::Padding { cr: true };
    lemma_run_one(token, s0, CR);
    lemma_run_one(token, s1, LF);
    lemma_run_concat(token, s0, seq![CR], seq![LF]);
    assert(seq![CR] + seq![LF] =~= crlf());
    assert(none + none =~= none);
}

/// Two hyphens and a line ending behind a delimiter close the stream.
pub proof fn lemma_run_close(token: Seq<u8>)
    ensures
        run(token, State::Tail { dash: false }, dashes() + crlf()) == (
            State::Closed,
            Seq::<EntryView>::empty(),
        ),
{
    let none = Seq::<EntryView>::empty();
    let s0 = State::Tail { dash: false };
    let s1 = State::Tail { dash: true };
    lemma_run_one(token, s0, DASH);
    lemma_run_one(token, s1, DASH);
    lemma_run_one(token, State::Closed, CR);
    lemma_run_one(token, State::Closed, LF);
    lemma_run_concat(token, s0, seq![DASH], seq![DASH]);
    assert(seq![DASH] + seq![DASH] =~= dashes());
    lemma_run_concat(token, State::Closed, seq![CR], seq![LF]);
    assert(seq![CR] + seq![LF] =~= crlf());
    lemma_run_concat(token, s0, dashes(), crlf());
    assert(none + none =~= none);
}

/// Four runs in a row are one run over the four pieces joined.
pub proof fn lemma_run_four(
    token: Seq<u8>,
    s0: State,
    a: Seq<u8>,
    b: Seq<u8>,
    c: Seq<u8>,
    d: Seq<u8>,
    s1: State,
    s2: State,
    s3: State,
    s4: State,
    out: Seq<EntryView>,
)
    requires
        run(token, s0, a) == (s1, out),
        run(token, s1, b) == (s2, Seq::<EntryView>::empty()),
        run(token, s2, c) == (s3, Seq::<EntryView>::empty()),
        run(token, s3, d) == (s4, Seq::<EntryView>::empty()),
    ensures
        run(token, s0, a + b + c + d) == (s4, out),
{
    let none = Seq::<EntryView>::empty();
    lemma_run_concat(token, s0, a, b);
    assert(out + none =~= out);
    lemma_run_concat(token, s0, a + b, c);
    lemma_run_concat(token, s0, a + b + c, d);
}

/// From the start of a line in the preamble or in a payload, one written
/// part takes the decoder to the end of that part's payload, with the line
/// ending behind it held back; on the way the decoder hands out the part it
/// was in, if it was in one.
pub proof fn lemma_run_part(token: Seq<u8>, s: State, e: EntryView)
    requires
        is_valid_token(token),
        s is Preamble || s is Body,
        encodable(e),
        !occurs_in(pattern_of(token), e.payload),
    ensures
        run(token, with_matched(s, 2), part(token, e)) == (
            State::Body { fields: fields_of(e), payload: e.payload, matched: 2 },
            pending_entry(s),
        ),
{
    let none = Seq::<EntryView>::empty();
    let s0 = with_matched(s, 2);
    let s1 = State::Tail { dash: false };
    let s2 = State::Headers { line: Seq::empty(), fields: no_fields() };
    let s3 = State::Body { fields: fields_of(e), payload: Seq::empty(), matched: 0 };
    let s4 = State::Body { fields: fields_of(e), payload: e.payload, matched: 2 };
    let a = delimiter_of(token);
    let b = crlf();
    let c = head_block(e);
    let d = e.payload + crlf();
    assert(run(token, s0, a) == (s1, pending_entry(s))) by {
        let p = pattern_of(token);
        lemma_pattern(token);
        lemma_complete_match(token, s, 2);
        assert(p.subrange(2, p.len() as int) =~= a);
    }
    assert(run(token, s1, b) == (s2, none)) by {
        lemma_run_open(token);
    }
    assert(run(token, s2, c) == (s3, none)) by {
        lemma_run_head(token, e);
    }
    assert(run(token, s3, d) == (s4, none)) by {
        lemma_payload_then_line_end(token, fields_of(e), e.payload);
    }
    lemma_run_four(token, s0, a, b, c, d, s1, s2, s3, s4, pending_entry(s));
    assert(part(token, e) == a + b + c + d);
}

/// The parts of a list of entries take the decoder from the start of the
/// stream into the payload of the last entry, with every entry before the
/// last handed out.
pub proof fn lemma_run_parts(token: Seq<u8>, entries: Seq<EntryView>)
    requires
        is_valid_token(token),
        all_encodable(token, entries),
    ensures
        entries.len() == 0 ==> run(token, start(), parts(token, entries)) == (
            start(),
            Seq::<EntryView>::empty(),
        ),
        entries.len() > 0 ==> run(token, start(), parts(token, entries)) == (
            State::Body {
                fields: fields_of(entries.last()),
                payload: entries.last().payload,
                matched: 2,
            },
            entries.drop_last(),
        ),
    decreases entries.len(),
{
    if entries.len() > 0 {
        let front = entries.drop_last();
        let e = entries.last();
        assert forall|i: int| 0 <= i < front.len() implies encodable(#[trigger] front[i])
            && !occurs_in(pattern_of(token), front[i].payload) by {
            assert(front[i] == entries[i]);
        }
        lemma_run_parts(token, front);
        let mid = run(token, start(), parts(token, front));
        assert(encodable(e) && !occurs_in(pattern_of(token), e.payload)) by {
            assert(e == entries[entries.len() - 1]);
        }
        lemma_run_part(token, mid.0, e);
        assert(with_matched(mid.0, 2) == mid.0);
        lemma_run_concat(token, start(), parts(token, front), part(token, e));
        if front.len() == 0 {
            assert(mid.1 + pending_entry(mid.0) =~= front);
        } else {
            let prev = front.last();
            assert(entry_of(fields_of(prev), prev.payload) == prev);
            assert(front.drop_last() + seq![prev] =~= front);
        }
    }
}

/// Decoding the encoding of a list of entries gives back the same entries,
/// with their names, file names, media types and payloads, in the same order
/// and with repeated names kept, and ends without an error. This holds for
/// every valid token and every list of entries that can be written, as long
/// as no payload holds the delimiter: a line ending, two hyphens and the
/// token.
pub proof fn lemma_round_trip(token: Seq<u8>, entries: Seq<EntryView>)
    requires
        is_valid_token(token),
        all_encodable(token, entries),
    ensures
        decoding(token, encoding(token, entries)) == (entries, None::<Error>),
{
    let none = Seq::<EntryView>::empty();
    let p = pattern_of(token);
    lemma_pattern(token);
    lemma_run_parts(token, entries);
    let mid = run(token, start(), parts(token, entries));
    lemma_complete_match(token, mid.0, 2);
    assert(with_matched(mid.0, 2) == mid.0);
    assert(p.subrange(2, p.len() as int) =~= delimiter_of(token));
    lemma_run_close(token);
    lemma_run_concat(token, mid.0, delimiter_of(token), dashes() + crlf());
    lemma_run_concat(token, start(), parts(token, entries), delimiter_of(token) + (dashes() + crlf()));
    assert(encoding(token, entries) =~= parts(token, entries) + (delimiter_of(token) + (dashes()
        + crlf())));
    if entries.len() == 0 {
        assert(mid.1 + (pending_entry(mid.0) + none) =~= entries);
    } else {
        let last = entries.last();
        assert(entry_of(fields_of(last), last.payload) == last);
        assert(mid.1 + (pending_entry(mid.0) + none) =~= entries);
    }
}

/// An encoding whose terminal line is missing decodes into every entry but
/// the last, whose end was never confirmed, and then reports a framing
/// error: that the payload was cut off, or, where there was no entry at all,
/// that no delimiter was found.
pub proof fn lemma_truncated(token: Seq<u8>, entries: Seq<EntryView>)
    requires
        is_valid_token(token),
        all_encodable(token, entries),
    ensures
        entries.len() == 0 ==> decoding(token, parts(token, entries)) == (
            Seq::<EntryView>::empty(),
            Some(Error::BoundaryNotFound),
        ),
        entries.len() > 0 ==> decoding(token, parts(token, entries)) == (
            entries.drop_last(),
            Some(Error::TruncatedBody),
        ),
{
    lemma_run_parts(token, entries);
}

} // verus!
