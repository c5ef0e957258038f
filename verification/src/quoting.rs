//! Quoted strings in header parameters: escaping on the way out, and reading
//! them back.
use vstd::prelude::*;

verus! {

/// The double quote that encloses a parameter value.
pub const QUOTE: u8 = 0x22;

/// The backslash that escapes a quote or another backslash.
pub const BACKSLASH: u8 = 0x5c;

/// Whether `b` is an ASCII control character.
pub open spec fn is_control(b: u8) -> bool {
    b < 0x20 || b == 0x7f
}

/// Whether `s` can stand in a header line: it holds no control character, so
/// in particular no line ending.
pub open spec fn header_safe(s: Seq<u8>) -> bool {
    forall|i: int| 0 <= i < s.len() ==> !is_control(#[trigger] s[i])
}

/// What one byte of a value becomes inside quotes.
pub open spec fn escape_byte(b: u8) -> Seq<u8> {
    if b == QUOTE || b == BACKSLASH {
        seq![BACKSLASH, b]
    } else {
        seq![b]
    }
}

/// `s` with a backslash in front of every double quote and backslash.
pub open spec fn escaped(s: Seq<u8>) -> Seq<u8>
    decreases s.len(),
{
    if s.len() == 0 {
        Seq::empty()
    } else {
        escape_byte(s[0]) + escaped(s.skip(1))
    }
}

/// Reads a quoted value whose opening quote has just been passed: the value
/// up to the closing quote, with each backslash dropped and the byte after it
/// kept as it is, and what follows the closing quote. `None` if `s` ends
/// before the closing quote.
pub open spec fn unquoted(s: Seq<u8>) -> Option<(Seq<u8>, Seq<u8>)>
    decreases s.len(),
{
    if s.len() == 0 {
        None
    } else if s[0] == QUOTE {
        Some((Seq::empty(), s.skip(1)))
    } else if s[0] == BACKSLASH {
        if s.len() < 2 {
            None
        } else {
            prepend(seq![s[1]], unquoted(s.skip(2)))
        }
    } else {
        prepend(seq![s[0]], unquoted(s.skip(1)))
    }
}

/// Puts `head` in front of the value of a successful read.
pub open spec fn prepend(head: Seq<u8>, r: Option<(Seq<u8>, Seq<u8>)>) -> Option<
    (Seq<u8>, Seq<u8>),
> {
    match r {
        Some((v, rest)) => Some((head + v, rest)),
        None => None,
    }
}

/// Escaping distributes over concatenation.
pub proof fn lemma_escaped_concat(a: Seq<u8>, b: Seq<u8>)
    ensures
        escaped(a + b) == escaped(a) + escaped(b),
    decreases a.len(),
{
    if a.len() == 0 {
        assert(a + b =~= b);
        assert(escaped(a) + escaped(b) =~= escaped(b));
    } else {
        assert((a + b).skip(1) =~= a.skip(1) + b);
        lemma_escaped_concat(a.skip(1), b);
        assert(escape_byte(a[0]) + (escaped(a.skip(1)) + escaped(b)) =~= (escape_byte(a[0])
            + escaped(a.skip(1))) + escaped(b));
    }
}

/// Escaping never shortens a value and never introduces a control character.
pub proof fn lemma_escaped_safe(s: Seq<u8>)
    ensures
        escaped(s).len() >= s.len(),
        header_safe(s) ==> header_safe(escaped(s)),
    decreases s.len(),
{
    if s.len() > 0 {
        lemma_escaped_safe(s.skip(1));
        if header_safe(s) {
            assert forall|i: int| 0 <= i < s.skip(1).len() implies !is_control(
                #[trigger] s.skip(1)[i],
            ) by {
                assert(s.skip(1)[i] == s[i + 1]);
            }
            assert(!is_control(s[0]));
        }
    }
}

/// Reading back an escaped value that is followed by its closing quote gives
/// the value unchanged, and leaves exactly what follows the quote.
pub proof fn lemma_unquoted_escaped(s: Seq<u8>, tail: Seq<u8>)
    ensures
        unquoted(escaped(s) + seq![QUOTE] + tail) == Some((s, tail)),
    decreases s.len(),
{
    let whole = escaped(s) + seq![QUOTE] + tail;
    if s.len() == 0 {
        assert(whole.skip(1) =~= tail);
        assert(whole[0] == QUOTE);
    } else {
        let b = s[0];
        let next = escaped(s.skip(1)) + seq![QUOTE] + tail;
        lemma_unquoted_escaped(s.skip(1), tail);
        if b == QUOTE || b == BACKSLASH {
            assert(whole[0] == BACKSLASH);
            assert(whole[1] == b);
            assert(whole.skip(2) =~= next);
        } else {
            assert(whole[0] == b);
            assert(whole.skip(1) =~= next);
        }
        assert(seq![b] + s.skip(1) =~= s);
    }
}

/// A successful read consumes at least the closing quote.
pub proof fn lemma_unquoted_shrinks(s: Seq<u8>)
    ensures
        unquoted(s) is Some ==> unquoted(s)->Some_0.1.len() < s.len(),
    decreases s.len(),
{
    if s.len() == 0 {
    } else if s[0] == QUOTE {
    } else if s[0] == BACKSLASH {
        if s.len() >= 2 {
            lemma_unquoted_shrinks(s.skip(2));
        }
    } else {
        lemma_unquoted_shrinks(s.skip(1));
    }
}

/// Whether `s` holds no control character.
pub fn is_header_safe(s: &[u8]) -> (ok: bool)
    ensures
        ok == header_safe(s@),
{
    let mut i: usize = 0;
    while i < s.len()
        invariant
            i <= s.len(),
            forall|j: int| 0 <= j < i ==> !is_control(#[trigger] s@[j]),
        decreases s.len() - i,
    {
        let b: u8 = s[i];
        if b < 0x20 || b == 0x7f {
            return false;
        }
        i += 1;
    }
    true
}

/// Appends `s` to `out`, escaped.
pub fn escape_into(out: &mut Vec<u8>, s: &[u8])
    ensures
        final(out)@ == old(out)@ + escaped(s@),
{
    let mut i: usize = 0;
    assert(out@ =~= old(out)@ + escaped(s@.take(0)));
    while i < s.len()
        invariant
            i <= s.len(),
            out@ == old(out)@ + escaped(s@.take(i as int)),
        decreases s.len() - i,
    {
        let b: u8 = s[i];
        let ghost before = out@;
        if b == QUOTE || b == BACKSLASH {
            out.push(BACKSLASH);
        }
        out.push(b);
        proof {
            let done = s@.take(i as int);
            assert(s@.take(i + 1) =~= done + seq![b]);
            lemma_escaped_concat(done, seq![b]);
            assert(escaped(seq![b]) =~= escape_byte(b)) by {
                reveal_with_fuel(escaped, 2);
                assert(seq![b].skip(1) =~= Seq::<u8>::empty());
            }
            assert(out@ =~= before + escape_byte(b));
            assert(out@ =~= old(out)@ + escaped(s@.take(i + 1)));
        }
        i += 1;
    }
    assert(s@.take(i as int) =~= s@);
}

/// Reads the quoted value of `s` whose opening quote stands just before
/// `start`. Returns the value and the index just behind the closing quote.
pub fn unquote(s: &[u8], start: usize) -> (r: Option<(Vec<u8>, usize)>)
    requires
        start <= s@.len(),
    ensures
        r is Some <==> unquoted(s@.skip(start as int)) is Some,
        r is Some ==> {
            &&& r->Some_0.0@ == unquoted(s@.skip(start as int))->Some_0.0
            &&& start < r->Some_0.1 <= s@.len()
            &&& s@.skip(r->Some_0.1 as int) == unquoted(s@.skip(start as int))->Some_0.1
        },
{
    let mut value: Vec<u8> = Vec::new();
    let mut i: usize = start;
    assert(prepend(value@, unquoted(s@.skip(i as int))) =~= unquoted(s@.skip(start as int))) by {
        let r = unquoted(s@.skip(start as int));
        if r is Some {
            assert(value@ + r->Some_0.0 =~= r->Some_0.0);
        }
    }
    while i < s.len()
        invariant
            start <= i <= s.len(),
            prepend(value@, unquoted(s@.skip(i as int))) == unquoted(s@.skip(start as int)),
        decreases s.len() - i,
    {
        let ghost here = s@.skip(i as int);
        let b: u8 = s[i];
        assert(here[0] == b);
        if b == QUOTE {
            proof {
                assert(here.skip(1) =~= s@.skip(i + 1));
                assert(value@ + Seq::<u8>::empty() =~= value@);
            }
            return Some((value, i + 1));
        }
        if b == BACKSLASH {
            if i + 1 >= s.len() {
                return None;
            }
            let c: u8 = s[i + 1];
            let ghost before = value@;
            value.push(c);
            proof {
                assert(here[1] == c);
                assert(here.skip(2) =~= s@.skip(i + 2));
                let r = unquoted(s@.skip(i + 2));
                if r is Some {
                    assert(before + (seq![c] + r->Some_0.0) =~= value@ + r->Some_0.0);
                }
            }
            i += 2;
        } else {
            let ghost before = value@;
            value.push(b);
            proof {
                assert(here.skip(1) =~= s@.skip(i + 1));
                let r = unquoted(s@.skip(i + 1));
                if r is Some {
                    assert(before + (seq![b] + r->Some_0.0) =~= value@ + r->Some_0.0);
                }
            }
            i += 1;
        }
    }
    None
}

} // verus!
