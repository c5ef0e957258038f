//! Small searches and comparisons on byte strings that the header parser is
//! built from.
use vstd::prelude::*;
use vstd::slice::*;

verus! {

/// Whether `s` begins with `p`.
pub open spec fn has_prefix(s: Seq<u8>, p: Seq<u8>) -> bool {
    p.len() <= s.len() && s.take(p.len() as int) == p
}

/// Whether `p` is where `b` first occurs in `s`, or the length of `s` if `b`
/// does not occur.
pub open spec fn is_first(s: Seq<u8>, b: u8, p: int) -> bool {
    &&& 0 <= p <= s.len()
    &&& p < s.len() ==> s[p] == b
    &&& forall|i: int| 0 <= i < p ==> #[trigger] s[i] != b
}

/// The index at which `b` first occurs in `s`, or the length of `s` if `b`
/// does not occur.
pub open spec fn position(s: Seq<u8>, b: u8) -> int
    decreases s.len(),
{
    if s.len() == 0 {
        0
    } else if s[0] == b {
        0
    } else {
        1 + position(s.skip(1), b)
    }
}

/// `position` finds the first occurrence.
pub proof fn lemma_position(s: Seq<u8>, b: u8)
    ensures
        is_first(s, b, position(s, b)),
    decreases s.len(),
{
    if s.len() > 0 && s[0] != b {
        lemma_position(s.skip(1), b);
        let p = position(s.skip(1), b);
        assert forall|i: int| 0 <= i < 1 + p implies #[trigger] s[i] != b by {
            if i > 0 {
                assert(s[i] == s.skip(1)[i - 1]);
            }
        }
        if 1 + p < s.len() {
            assert(s[1 + p] == s.skip(1)[p]);
        }
    }
}

/// The first occurrence is unique.
pub proof fn lemma_first_unique(s: Seq<u8>, b: u8, p: int)
    requires
        is_first(s, b, p),
    ensures
        p == position(s, b),
{
    lemma_position(s, b);
    let q = position(s, b);
    if p < q {
        assert(s[p] != b);
    } else if q < p {
        assert(s[q] != b);
    }
}

/// A space or a horizontal tab.
pub open spec fn is_blank(b: u8) -> bool {
    b == 0x20 || b == 0x09
}

/// `s` without the blanks it begins with.
pub open spec fn trim_start(s: Seq<u8>) -> Seq<u8>
    decreases s.len(),
{
    if s.len() > 0 && is_blank(s[0]) {
        trim_start(s.skip(1))
    } else {
        s
    }
}

/// An upper-case ASCII letter becomes lower-case; any other byte stays.
pub open spec fn lower(b: u8) -> u8 {
    if 0x41 <= b <= 0x5a {
        (b + 0x20) as u8
    } else {
        b
    }
}

/// Whether `a` and `b` are the same up to the case of ASCII letters.
pub open spec fn same_ignoring_case(a: Seq<u8>, b: Seq<u8>) -> bool {
    &&& a.len() == b.len()
    &&& forall|i: int| 0 <= i < a.len() ==> lower(#[trigger] a[i]) == lower(b[i])
}

/// The index at which `b` first occurs in `s`, or the length of `s`.
pub fn find_byte(s: &[u8], b: u8) -> (p: usize)
    ensures
        p == position(s@, b),
        is_first(s@, b, p as int),
{
    let mut i: usize = 0;
    while i < s.len()
        invariant
            i <= s.len(),
            forall|j: int| 0 <= j < i ==> #[trigger] s@[j] != b,
        decreases s.len() - i,
    {
        if s[i] == b {
            proof {
                lemma_first_unique(s@, b, i as int);
            }
            return i;
        }
        i += 1;
    }
    proof {
        lemma_first_unique(s@, b, i as int);
    }
    i
}

/// The index of the first byte at or after `start` that is no blank.
pub fn skip_blanks(s: &[u8], start: usize) -> (end: usize)
    requires
        start <= s@.len(),
    ensures
        start <= end <= s@.len(),
        s@.skip(end as int) == trim_start(s@.skip(start as int)),
{
    let mut i: usize = start;
    while i < s.len() && (s[i] == 0x20 || s[i] == 0x09)
        invariant
            start <= i <= s.len(),
            trim_start(s@.skip(i as int)) == trim_start(s@.skip(start as int)),
        decreases s.len() - i,
    {
        proof {
            assert(s@.skip(i as int)[0] == s@[i as int]);
            assert(s@.skip(i as int).skip(1) =~= s@.skip(i + 1));
        }
        i += 1;
    }
    proof {
        if i < s.len() {
            assert(s@.skip(i as int)[0] == s@[i as int]);
        }
    }
    i
}

/// Looks for `prefix` in `s` at `start`. Returns the index just behind it if
/// it stands there.
pub fn after_prefix(s: &[u8], start: usize, prefix: &[u8]) -> (end: Option<usize>)
    requires
        start <= s@.len(),
    ensures
        end is Some <==> has_prefix(s@.skip(start as int), prefix@),
        end is Some ==> end->Some_0 == start + prefix@.len() && end->Some_0 <= s@.len(),
{
    if prefix.len() > s.len() - start {
        return None;
    }
    let ghost rest = s@.skip(start as int);
    let mut i: usize = 0;
    while i < prefix.len()
        invariant
            i <= prefix.len(),
            prefix.len() <= s.len() - start,
            rest == s@.skip(start as int),
            forall|j: int| 0 <= j < i ==> #[trigger] rest[j] == prefix@[j],
        decreases prefix.len() - i,
    {
        if s[start + i] != prefix[i] {
            proof {
                assert(rest[i as int] == s@[start + i]);
                assert(rest.take(prefix@.len() as int)[i as int] == rest[i as int]);
            }
            return None;
        }
        proof {
            assert(rest[i as int] == s@[start + i]);
        }
        i += 1;
    }
    assert(rest.take(prefix@.len() as int) =~= prefix@);
    Some(start + prefix.len())
}

/// Whether `a` and `b` hold the same bytes.
pub fn same_bytes(a: &[u8], b: &[u8]) -> (yes: bool)
    ensures
        yes == (a@ == b@),
{
    if a.len() != b.len() {
        return false;
    }
    let mut i: usize = 0;
    while i < a.len()
        invariant
            i <= a.len(),
            a.len() == b.len(),
            forall|j: int| 0 <= j < i ==> #[trigger] a@[j] == b@[j],
        decreases a.len() - i,
    {
        if a[i] != b[i] {
            return false;
        }
        i += 1;
    }
    assert(a@ =~= b@);
    true
}

/// The lower-case form of `b`.
pub fn to_lower(b: u8) -> (l: u8)
    ensures
        l == lower(b),
{
    if 0x41 <= b && b <= 0x5a {
        b + 0x20
    } else {
        b
    }
}

/// Whether `a` and `b` are the same up to the case of ASCII letters.
pub fn eq_ignoring_case(a: &[u8], b: &[u8]) -> (yes: bool)
    ensures
        yes == same_ignoring_case(a@, b@),
{
    if a.len() != b.len() {
        return false;
    }
    let mut i: usize = 0;
    while i < a.len()
        invariant
            i <= a.len(),
            a.len() == b.len(),
            forall|j: int| 0 <= j < i ==> lower(#[trigger] a@[j]) == lower(b@[j]),
        decreases a.len() - i,
    {
        if to_lower(a[i]) != to_lower(b[i]) {
            return false;
        }
        i += 1;
    }
    true
}

/// A copy of the bytes of `s` from `from` up to `to`.
pub fn copy_range(s: &[u8], from: usize, to: usize) -> (v: Vec<u8>)
    requires
        from <= to <= s@.len(),
    ensures
        v@ == s@.subrange(from as int, to as int),
{
    let mut v: Vec<u8> = Vec::new();
    v.extend_from_slice(slice_subrange(s, from, to));
    assert(v@ =~= s@.subrange(from as int, to as int));
    v
}

} // verus!
