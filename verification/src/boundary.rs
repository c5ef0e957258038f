//! The boundary token and the two delimiter lines built from it.
use vstd::prelude::*;
use crate::error::Error;

verus! {

/// The longest token that [`Boundary::validate`] accepts.
pub const MAX_BOUNDARY_LEN: usize = 70;

/// The fewest random bytes that [`Boundary::generate`] accepts.
pub const MIN_ENTROPY_LEN: usize = 16;

/// Whether `b` may occur in a boundary token: an ASCII letter or digit, or one
/// of `'()+_,-./:=?`.
pub open spec fn is_boundary_byte(b: u8) -> bool {
    ||| 0x30 <= b <= 0x39
    ||| 0x41 <= b <= 0x5a
    ||| 0x61 <= b <= 0x7a
    ||| b == 0x27
    ||| b == 0x28
    ||| b == 0x29
    ||| b == 0x2b
    ||| b == 0x5f
    ||| b == 0x2c
    ||| b == 0x2d
    ||| b == 0x2e
    ||| b == 0x2f
    ||| b == 0x3a
    ||| b == 0x3d
    ||| b == 0x3f
}

/// Whether `t` is a boundary token: between 1 and 70 permitted bytes.
pub open spec fn is_valid_token(t: Seq<u8>) -> bool {
    &&& 1 <= t.len() <= MAX_BOUNDARY_LEN
    &&& forall|i: int| 0 <= i < t.len() ==> is_boundary_byte(#[trigger] t[i])
}

/// The two hyphens that open every delimiter line and close the terminal one.
pub open spec fn dashes() -> Seq<u8> {
    seq![0x2du8, 0x2du8]
}

/// A carriage return followed by a line feed.
pub open spec fn crlf() -> Seq<u8> {
    seq![0x0du8, 0x0au8]
}

/// The delimiter line of `token`, without its line ending: `--token`.
pub open spec fn delimiter_of(token: Seq<u8>) -> Seq<u8> {
    dashes() + token
}

/// The terminal line of `token`, without its line ending: `--token--`.
pub open spec fn terminal_of(token: Seq<u8>) -> Seq<u8> {
    dashes() + token + dashes()
}

/// The `n`-th character of the alphabet that generated tokens are drawn from:
/// the digits, then the upper-case letters, then the lower-case letters.
pub open spec fn alphabet_byte(n: int) -> u8
    recommends
        0 <= n < 62,
{
    if n < 10 {
        (0x30 + n) as u8
    } else if n < 36 {
        (0x41 + (n - 10)) as u8
    } else {
        (0x61 + (n - 36)) as u8
    }
}

/// The token generated from `entropy`: one alphabet character per random
/// byte, for at most 70 bytes.
pub open spec fn generated_token(entropy: Seq<u8>) -> Seq<u8> {
    Seq::new(
        if entropy.len() <= MAX_BOUNDARY_LEN { entropy.len() } else { MAX_BOUNDARY_LEN as nat },
        |i: int| alphabet_byte(entropy[i] as int % 62),
    )
}

/// Whether `b` is permitted in a token, computed.
pub fn boundary_byte(b: u8) -> (ok: bool)
    ensures
        ok == is_boundary_byte(b),
{
    (0x30 <= b && b <= 0x39) || (0x41 <= b && b <= 0x5a) || (0x61 <= b && b <= 0x7a) || b == 0x27
        || b == 0x28 || b == 0x29 || b == 0x2b || b == 0x5f || b == 0x2c || b == 0x2d || b == 0x2e
        || b == 0x2f || b == 0x3a || b == 0x3d || b == 0x3f
}

/// A validated boundary token.
#[derive(Debug)]
pub struct Boundary {
    token: Vec<u8>,
}

impl View for Boundary {
    type V = Seq<u8>;

    closed spec fn view(&self) -> Seq<u8> {
        self.token@
    }
}

impl Boundary {
    #[verifier::type_invariant]
    spec fn well_formed(&self) -> bool {
        is_valid_token(self.token@)
    }

    /// Accepts `token` if it is between 1 and 70 bytes long and holds only
    /// permitted bytes; rejects it otherwise.
    pub fn validate(token: &[u8]) -> (r: Result<Boundary, Error>)
        ensures
            r is Ok <==> is_valid_token(token@),
            r is Ok ==> r->Ok_0@ == token@,
            r is Err ==> r->Err_0 == Error::InvalidBoundary,
    {
        if token.len() == 0 || token.len() > MAX_BOUNDARY_LEN {
            return Err(Error::InvalidBoundary);
        }
        let mut copy: Vec<u8> = Vec::new();
        let mut i: usize = 0;
        while i < token.len()
            invariant
                i <= token.len(),
                copy@ == token@.take(i as int),
                forall|j: int| 0 <= j < i ==> is_boundary_byte(#[trigger] token@[j]),
            decreases token.len() - i,
        {
            let b: u8 = token[i];
            if !boundary_byte(b) {
                return Err(Error::InvalidBoundary);
            }
            copy.push(b);
            assert(copy@ == token@.take(i + 1)) by {
                assert(token@.take(i + 1) =~= token@.take(i as int).push(b));
            }
            i += 1;
        }
        assert(token@.take(i as int) =~= token@);
        Ok(Boundary { token: copy })
    }

    /// Derives a token from caller-supplied random bytes: one letter or digit
    /// per byte, for at most 70 bytes. Fewer than 16 bytes are rejected, since
    /// a shorter token could plausibly occur inside a payload.
    pub fn generate(entropy: &[u8]) -> (r: Result<Boundary, Error>)
        ensures
            r is Ok <==> entropy@.len() >= MIN_ENTROPY_LEN,
            r is Ok ==> r->Ok_0@ == generated_token(entropy@),
            r is Err ==> r->Err_0 == Error::InsufficientEntropy,
    {
        if entropy.len() < MIN_ENTROPY_LEN {
            return Err(Error::InsufficientEntropy);
        }
        let n: usize = if entropy.len() <= MAX_BOUNDARY_LEN {
            entropy.len()
        } else {
            MAX_BOUNDARY_LEN
        };
        let mut token: Vec<u8> = Vec::new();
        let mut i: usize = 0;
        while i < n
            invariant
                i <= n <= entropy.len(),
                n <= MAX_BOUNDARY_LEN,
                token@.len() == i,
                forall|j: int| 0 <= j < i ==> #[trigger] token@[j] == alphabet_byte(entropy@[j] as int % 62),
            decreases n - i,
        {
            let k: u8 = entropy[i] % 62;
            let c: u8 = if k < 10 {
                0x30 + k
            } else if k < 36 {
                0x41 + (k - 10)
            } else {
                0x61 + (k - 36)
            };
            token.push(c);
            i += 1;
        }
        assert(token@ =~= generated_token(entropy@));
        assert forall|j: int| 0 <= j < token@.len() implies is_boundary_byte(#[trigger] token@[j]) by {
            let k = entropy@[j] as int % 62;
            assert(token@[j] == alphabet_byte(k));
        }
        Ok(Boundary { token })
    }

    /// The token itself, which is always a valid one.
    pub fn token(&self) -> (t: &Vec<u8>)
        ensures
            t@ == self@,
            is_valid_token(self@),
    {
        proof {
            use_type_invariant(self);
        }
        &self.token
    }

    /// The line that opens each part, without its line ending: `--token`.
    pub fn delimiter_line(&self) -> (line: Vec<u8>)
        ensures
            line@ == delimiter_of(self@),
    {
        let mut line: Vec<u8> = Vec::new();
        line.push(0x2d);
        line.push(0x2d);
        line.extend_from_slice(self.token.as_slice());
        assert(line@ =~= delimiter_of(self@));
        line
    }

    /// The line that ends the stream, without its line ending: `--token--`.
    pub fn terminal_line(&self) -> (line: Vec<u8>)
        ensures
            line@ == terminal_of(self@),
    {
        let mut line: Vec<u8> = self.delimiter_line();
        line.push(0x2d);
        line.push(0x2d);
        assert(line@ =~= terminal_of(self@));
        line
    }

    /// A copy of this boundary.
    pub fn duplicate(&self) -> (b: Boundary)
        ensures
            b@ == self@,
    {
        proof {
            use_type_invariant(self);
        }
        let token: Vec<u8> = self.token.clone();
        Boundary { token }
    }
}

} // verus!
