//! The decoder does not see how its input was cut into chunks.
use vstd::prelude::*;
use crate::entry::EntryView;
use crate::machine::{State, run, step, yielded};

verus! {

/// The chunks, one after the other, as one run of bytes.
pub open spec fn joined(chunks: Seq<Seq<u8>>) -> Seq<u8>
    decreases chunks.len(),
{
    if chunks.len() == 0 {
        Seq::empty()
    } else {
        joined(chunks.drop_last()) + chunks.last()
    }
}

/// The decoder fed with the chunks one by one: the state it ends in and the
/// entries it completed on the way.
pub open spec fn run_chunks(token: Seq<u8>, s: State, chunks: Seq<Seq<u8>>) -> (
    State,
    Seq<EntryView>,
)
    decreases chunks.len(),
{
    if chunks.len() == 0 {
        (s, Seq::empty())
    } else {
        let before = run_chunks(token, s, chunks.drop_last());
        let last = run(token, before.0, chunks.last());
        (last.0, before.1 + last.1)
    }
}

/// Running over a single byte is one step.
pub proof fn lemma_run_one(token: Seq<u8>, s: State, b: u8)
    ensures
        run(token, s, seq![b]) == (step(token, s, b).0, yielded(step(token, s, b).1)),
{
    reveal_with_fuel(run, 2);
    assert(seq![b].drop_last() =~= Seq::<u8>::empty());
    assert(Seq::<EntryView>::empty() + yielded(step(token, s, b).1) =~= yielded(
        step(token, s, b).1,
    ));
}

/// Feeding `a` and then `b` is the same as feeding `a + b` at once: the
/// decoder ends in the same state and has completed the same entries.
pub proof fn lemma_run_concat(token: Seq<u8>, s: State, a: Seq<u8>, b: Seq<u8>)
    ensures
        run(token, s, a + b).0 == run(token, run(token, s, a).0, b).0,
        run(token, s, a + b).1 == run(token, s, a).1 + run(token, run(token, s, a).0, b).1,
    decreases b.len(),
{
    let first = run(token, s, a);
    if b.len() == 0 {
        assert(a + b =~= a);
        assert(first.1 + Seq::<EntryView>::empty() =~= first.1);
    } else {
        assert((a + b).drop_last() =~= a + b.drop_last());
        assert((a + b).last() == b.last());
        lemma_run_concat(token, s, a, b.drop_last());
        let mid = run(token, first.0, b.drop_last());
        let last = step(token, mid.0, b.last());
        assert((first.1 + mid.1) + yielded(last.1) =~= first.1 + (mid.1 + yielded(last.1)));
    }
}

/// What the decoder has completed after the first `n` bytes stays completed:
/// the entries of the whole run begin with the entries of that beginning.
pub proof fn lemma_run_prefix(token: Seq<u8>, s: State, bytes: Seq<u8>, n: int)
    requires
        0 <= n <= bytes.len(),
    ensures
        run(token, s, bytes).0 == run(token, run(token, s, bytes.take(n)).0, bytes.skip(n)).0,
        run(token, s, bytes).1 == run(token, s, bytes.take(n)).1 + run(
            token,
            run(token, s, bytes.take(n)).0,
            bytes.skip(n),
        ).1,
{
    assert(bytes.take(n) + bytes.skip(n) =~= bytes);
    lemma_run_concat(token, s, bytes.take(n), bytes.skip(n));
}

/// One more byte is one more step.
pub proof fn lemma_run_next(token: Seq<u8>, s: State, bytes: Seq<u8>, n: int)
    requires
        0 <= n < bytes.len(),
    ensures
        run(token, s, bytes.take(n + 1)).0 == step(
            token,
            run(token, s, bytes.take(n)).0,
            bytes[n],
        ).0,
        run(token, s, bytes.take(n + 1)).1 == run(token, s, bytes.take(n)).1 + yielded(
            step(token, run(token, s, bytes.take(n)).0, bytes[n]).1,
        ),
{
    let next = bytes.take(n + 1);
    assert(next.drop_last() =~= bytes.take(n));
    assert(next.last() == bytes[n]);
}

/// Behind the terminal delimiter, and after a framing error, nothing moves
/// the decoder any more and no entry follows.
pub proof fn lemma_run_settled(token: Seq<u8>, s: State, bytes: Seq<u8>)
    requires
        s is Closed || s is Failed,
    ensures
        run(token, s, bytes) == (s, Seq::<EntryView>::empty()),
    decreases bytes.len(),
{
    if bytes.len() > 0 {
        lemma_run_settled(token, s, bytes.drop_last());
        assert(Seq::<EntryView>::empty() + yielded(None) =~= Seq::<EntryView>::empty());
    }
}

/// However a stream is cut into chunks, one byte at a time included, the
/// decoder ends in the same state and has completed the same entries as when
/// it is fed the whole stream at once.
pub proof fn lemma_chunks_do_not_matter(token: Seq<u8>, s: State, chunks: Seq<Seq<u8>>)
    ensures
        run_chunks(token, s, chunks) == run(token, s, joined(chunks)),
    decreases chunks.len(),
{
    if chunks.len() > 0 {
        lemma_chunks_do_not_matter(token, s, chunks.drop_last());
        lemma_run_concat(token, s, joined(chunks.drop_last()), chunks.last());
    }
}

} // verus!
