//! What the search for the delimiter does to a payload.
use vstd::prelude::*;
use crate::boundary::{crlf, delimiter_of, is_boundary_byte, is_valid_token};
use crate::chunking::{lemma_run_concat, lemma_run_one};
use crate::entry::EntryView;
use crate::header::FieldsView;
use crate::machine::{CR, DASH, LF, State, entry_of, pattern_of, run, scanned, step, yielded};

verus! {

/// Whether `pat` stands somewhere in `s`.
pub open spec fn occurs_in(pat: Seq<u8>, s: Seq<u8>) -> bool {
    exists|i: int| 0 <= i && i + pat.len() <= s.len() && #[trigger] s.subrange(i, i + pat.len()) == pat
}

/// The delimiter of a valid token is a line ending, two hyphens and the
/// token, and holds a carriage return at its start only.
pub proof fn lemma_pattern(token: Seq<u8>)
    requires
        is_valid_token(token),
    ensures
        pattern_of(token).len() == token.len() + 4,
        pattern_of(token)[0] == CR,
        pattern_of(token)[1] == LF,
        pattern_of(token)[2] == DASH,
        pattern_of(token)[3] == DASH,
        pattern_of(token).skip(2) == delimiter_of(token),
        forall|i: int| 1 <= i < pattern_of(token).len() ==> #[trigger] pattern_of(token)[i] != CR,
{
    let p = pattern_of(token);
    assert(p.skip(2) =~= delimiter_of(token));
    assert forall|i: int| 1 <= i < p.len() implies #[trigger] p[i] != CR by {
        if i >= 4 {
            assert(p[i] == token[i - 4]);
            assert(is_boundary_byte(token[i - 4]));
        }
    }
}

/// The state `s` with its count of matched delimiter bytes set to `k`.
pub open spec fn with_matched(s: State, k: nat) -> State {
    match s {
        State::Preamble { .. } => State::Preamble { matched: k },
        State::Body { fields, payload, .. } => State::Body { fields, payload, matched: k },
        other => other,
    }
}

/// The entry that the state `s` gives when its delimiter is completed: the
/// part in `s`, or none before the first part.
pub open spec fn pending_entry(s: State) -> Seq<EntryView> {
    match s {
        State::Body { fields, payload, .. } => seq![entry_of(fields, payload)],
        _ => Seq::empty(),
    }
}

/// While the bytes of the delimiter come in one after the other, the decoder
/// only counts them.
pub proof fn lemma_partial_match(token: Seq<u8>, s: State, from: int, to: int)
    requires
        is_valid_token(token),
        s is Preamble || s is Body,
        0 <= from <= to < pattern_of(token).len(),
    ensures
        run(token, with_matched(s, from as nat), pattern_of(token).subrange(from, to)) == (
            with_matched(s, to as nat),
            Seq::<EntryView>::empty(),
        ),
    decreases to - from,
{
    let p = pattern_of(token);
    let piece = p.subrange(from, to);
    if from == to {
        assert(piece =~= Seq::<u8>::empty());
    } else {
        assert(piece.drop_last() =~= p.subrange(from, to - 1));
        assert(piece.last() == p[to - 1]);
        lemma_partial_match(token, s, from, to - 1);
        let mid = with_matched(s, (to - 1) as nat);
        let r = scanned(p, (to - 1) as nat, p[to - 1]);
        assert(!r.found && r.matched == to);
        match s {
            State::Body { fields, payload, .. } => {
                assert(payload + r.released =~= payload);
            },
            _ => {},
        }
        assert(step(token, mid, p[to - 1]).0 == with_matched(s, to as nat));
        assert(Seq::<EntryView>::empty() + yielded(None) =~= Seq::<EntryView>::empty());
    }
}

/// From a state in which `from` bytes of the delimiter are matched, the rest
/// of the delimiter completes it: the decoder stands behind the delimiter and
/// hands out the part that it was in, if it was in one.
pub proof fn lemma_complete_match(token: Seq<u8>, s: State, from: int)
    requires
        is_valid_token(token),
        s is Preamble || s is Body,
        0 <= from < pattern_of(token).len(),
    ensures
        run(
            token,
            with_matched(s, from as nat),
            pattern_of(token).subrange(from, pattern_of(token).len() as int),
        ) == (State::Tail { dash: false }, pending_entry(s)),
{
    let p = pattern_of(token);
    let n = p.len() as int;
    let piece = p.subrange(from, n);
    assert(piece.drop_last() =~= p.subrange(from, n - 1));
    assert(piece.last() == p[n - 1]);
    lemma_partial_match(token, s, from, n - 1);
    let r = scanned(p, (n - 1) as nat, p[n - 1]);
    assert(r.found);
    assert(Seq::<EntryView>::empty() + pending_entry(s) =~= pending_entry(s));
}

/// Bytes in which the delimiter does not occur never end a part, whatever
/// else they hold, the token itself included: after them the decoder is still
/// in the payload, and the payload it has gathered, together with the bytes
/// it holds back as a possible start of a delimiter, is exactly those bytes.
pub proof fn lemma_payload_scan(token: Seq<u8>, fields: FieldsView, bytes: Seq<u8>)
    requires
        is_valid_token(token),
        !occurs_in(pattern_of(token), bytes),
    ensures
        run(token, State::Body { fields, payload: Seq::empty(), matched: 0 }, bytes).1.len() == 0,
        run(token, State::Body { fields, payload: Seq::empty(), matched: 0 }, bytes).0 is Body,
        ({
            let end = run(token, State::Body { fields, payload: Seq::empty(), matched: 0 }, bytes).0;
            &&& end->Body_fields == fields
            &&& end->Body_matched < pattern_of(token).len()
            &&& end->Body_payload + pattern_of(token).take(end->Body_matched as int) == bytes
        }),
    decreases bytes.len(),
{
    let p = pattern_of(token);
    let s0 = State::Body { fields, payload: Seq::empty(), matched: 0 };
    lemma_pattern(token);
    if bytes.len() == 0 {
        assert(Seq::<u8>::empty() + p.take(0) =~= bytes);
    } else {
        let front = bytes.drop_last();
        let b = bytes.last();
        assert(!occurs_in(p, front)) by {
            if occurs_in(p, front) {
                let i = choose|i: int|
                    0 <= i && i + p.len() <= front.len() && #[trigger] front.subrange(
                        i,
                        i + p.len(),
                    ) == p;
                assert(bytes.subrange(i, i + p.len()) =~= front.subrange(i, i + p.len()));
            }
        }
        lemma_payload_scan(token, fields, front);
        let mid = run(token, s0, front).0;
        let k = mid->Body_matched as int;
        let got = mid->Body_payload;
        let r = scanned(p, k as nat, b);
        assert(bytes =~= front.push(b));
        if b == p[k] {
            assert(k + 1 != p.len()) by {
                if k + 1 == p.len() {
                    let at = got.len() as int;
                    assert(p.take(k).push(b) =~= p);
                    assert(bytes =~= got + p.take(k).push(b));
                    assert(bytes.subrange(at, at + p.len()) =~= p);
                    assert(occurs_in(p, bytes));
                }
            }
            assert(got + p.take(k + 1) =~= bytes) by {
                assert(p.take(k + 1) =~= p.take(k).push(b));
            }
            assert(got + r.released =~= got);
        } else if b == p[0] {
            assert(got + r.released + p.take(1) =~= bytes) by {
                assert(p.take(1) =~= seq![b]);
            }
        } else {
            assert(got + r.released + p.take(0) =~= bytes);
        }
        assert(Seq::<EntryView>::empty() + yielded(None) =~= Seq::<EntryView>::empty());
    }
}

/// A payload in which the delimiter does not occur, followed by a line
/// ending, leaves the decoder with exactly that payload and the line ending
/// held back as the start of a delimiter.
pub proof fn lemma_payload_then_line_end(token: Seq<u8>, fields: FieldsView, payload: Seq<u8>)
    requires
        is_valid_token(token),
        !occurs_in(pattern_of(token), payload),
    ensures
        run(
            token,
            State::Body { fields, payload: Seq::empty(), matched: 0 },
            payload + crlf(),
        ) == (State::Body { fields, payload, matched: 2 }, Seq::<EntryView>::empty()),
{
    let p = pattern_of(token);
    let s0 = State::Body { fields, payload: Seq::empty(), matched: 0 };
    lemma_pattern(token);
    lemma_payload_scan(token, fields, payload);
    let mid = run(token, s0, payload);
    let k = mid.0->Body_matched as int;
    let got = mid.0->Body_payload;
    assert(mid.1 =~= Seq::<EntryView>::empty());
    let s1 = State::Body { fields, payload, matched: 1 };
    assert(step(token, mid.0, CR) == (s1, None::<EntryView>)) by {
        let r = scanned(p, k as nat, CR);
        if k == 0 {
            assert(p.take(0) =~= Seq::<u8>::empty());
            assert(got + r.released =~= payload);
        } else {
            assert(p[k] != CR);
            assert(got + r.released =~= payload);
        }
    }
    let s2 = State::Body { fields, payload, matched: 2 };
    assert(step(token, s1, LF) == (s2, None::<EntryView>)) by {
        assert(payload + scanned(p, 1, LF).released =~= payload);
    }
    lemma_run_one(token, mid.0, CR);
    lemma_run_one(token, s1, LF);
    lemma_run_concat(token, mid.0, seq![CR], seq![LF]);
    assert(seq![CR] + seq![LF] =~= crlf());
    lemma_run_concat(token, s0, payload, crlf());
    assert(mid.1 + (Seq::<EntryView>::empty() + Seq::<EntryView>::empty()) =~= Seq::<
        EntryView,
    >::empty());
}

/// The outcome `r` of a run that began in a payload, had the payload held
/// `taken` when the run began: `taken` stands in front of the payload of the
/// part that the run began in, which is the first entry if the run completed
/// one, and the payload in the final state if it did not.
pub open spec fn resumed(taken: Seq<u8>, r: (State, Seq<EntryView>)) -> (State, Seq<EntryView>) {
    if r.1.len() > 0 {
        (r.0, r.1.update(0, EntryView { payload: taken + r.1[0].payload, ..r.1[0] }))
    } else {
        match r.0 {
            State::Body { fields, payload, matched } => (
                State::Body { fields, payload: taken + payload, matched },
                r.1,
            ),
            other => (other, r.1),
        }
    }
}

/// Taking the gathered payload out of the decoder loses nothing and changes
/// nothing else: a run that begins with an emptied payload goes as the run
/// with the payload in place, except that what was taken is missing at the
/// front of the payload of the part in progress.
pub proof fn lemma_taking_loses_nothing(
    token: Seq<u8>,
    fields: FieldsView,
    taken: Seq<u8>,
    matched: nat,
    bytes: Seq<u8>,
)
    ensures
        run(token, State::Body { fields, payload: taken, matched }, bytes) == resumed(
            taken,
            run(token, State::Body { fields, payload: Seq::empty(), matched }, bytes),
        ),
        run(token, State::Body { fields, payload: Seq::empty(), matched }, bytes).1.len() == 0
            ==> run(token, State::Body { fields, payload: Seq::empty(), matched }, bytes).0 is Body,
    decreases bytes.len(),
{
    let full = State::Body { fields, payload: taken, matched };
    let bare = State::Body { fields, payload: Seq::empty(), matched };
    if bytes.len() == 0 {
        assert(taken + Seq::<u8>::empty() =~= taken);
    } else {
        let front = bytes.drop_last();
        let b = bytes.last();
        lemma_taking_loses_nothing(token, fields, taken, matched, front);
        let r0 = run(token, bare, front);
        let r1 = run(token, full, front);
        let y0 = yielded(step(token, r0.0, b).1);
        if r0.1.len() > 0 {
            let first = EntryView { payload: taken + r0.1[0].payload, ..r0.1[0] };
            assert((r0.1 + y0).update(0, first) =~= r0.1.update(0, first) + y0);
        } else {
            let p = pattern_of(token);
            let q = r0.0->Body_payload;
            let r = scanned(p, r0.0->Body_matched, b);
            if r.found {
                let e = entry_of(r0.0->Body_fields, q);
                assert(r0.1 + y0 =~= seq![e]);
                assert(r1.1 + yielded(step(token, r1.0, b).1) =~= seq![e].update(
                    0,
                    EntryView { payload: taken + q, ..e },
                ));
            } else {
                assert(taken + q + r.released =~= taken + (q + r.released));
                assert(r0.1 + y0 =~= Seq::<EntryView>::empty());
                assert(r1.1 + yielded(step(token, r1.0, b).1) =~= Seq::<EntryView>::empty());
            }
        }
    }
}

/// A part ends at the first delimiter: where the delimiter does not occur
/// in `payload`, the bytes `payload` followed by the delimiter complete the
/// part with exactly that payload, and the delimiter and the line ending
/// before it are no part of it.
pub proof fn lemma_part_ends_at_delimiter(token: Seq<u8>, fields: FieldsView, payload: Seq<u8>)
    requires
        is_valid_token(token),
        !occurs_in(pattern_of(token), payload),
    ensures
        run(
            token,
            State::Body { fields, payload: Seq::empty(), matched: 0 },
            payload + pattern_of(token),
        ) == (State::Tail { dash: false }, seq![entry_of(fields, payload)]),
{
    let p = pattern_of(token);
    let s0 = State::Body { fields, payload: Seq::empty(), matched: 0 };
    let s1 = State::Body { fields, payload, matched: 2 };
    lemma_pattern(token);
    lemma_payload_then_line_end(token, fields, payload);
    lemma_complete_match(token, s1, 2);
    lemma_run_concat(token, s0, payload + crlf(), p.subrange(2, p.len() as int));
    assert(payload + crlf() + p.subrange(2, p.len() as int) =~= payload + p);
    assert(Seq::<EntryView>::empty() + seq![entry_of(fields, payload)] =~= seq![
        entry_of(fields, payload),
    ]);
}

} // verus!
