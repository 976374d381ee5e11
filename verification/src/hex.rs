//! Lowercase hexadecimal encoding and decoding of byte strings.
//!
//! A discovered secret key is written to the match log as hex text; the
//! log parser decodes it again. Both directions are verified against the
//! spec-level `hex_seq` / `unhex` functions, and decoding is proved to
//! invert encoding.

use vstd::prelude::*;

verus! {

/// The ASCII code of the hex digit with value `n` (lowercase).
pub open spec fn hex_digit(n: int) -> u8
    recommends
        0 <= n < 16,
{
    if n < 10 {
        (48 + n) as u8
    } else {
        (87 + n) as u8
    }
}

/// Whether `b` is the ASCII code of a lowercase hex digit.
pub open spec fn is_hex_digit(b: u8) -> bool {
    (48 <= b <= 57) || (97 <= b <= 102)
}

/// The value of the lowercase hex digit with ASCII code `b`.
pub open spec fn hex_value(b: u8) -> int
    recommends
        is_hex_digit(b),
{
    if b <= 57 {
        b - 48
    } else {
        b - 87
    }
}

/// Lowercase hex encoding of a byte string: two digits per byte.
pub open spec fn hex_seq(s: Seq<u8>) -> Seq<u8>
    decreases s.len(),
{
    if s.len() == 0 {
        Seq::empty()
    } else {
        seq![hex_digit(s[0] as int / 16), hex_digit(s[0] as int % 16)] + hex_seq(s.skip(1))
    }
}

/// Whether `s` is a well-formed lowercase hex encoding.
pub open spec fn valid_hex(s: Seq<u8>) -> bool {
    s.len() % 2 == 0 && (forall|i: int| 0 <= i < s.len() ==> is_hex_digit(#[trigger] s[i]))
}

/// The byte string whose lowercase hex encoding is `s`.
pub open spec fn unhex(s: Seq<u8>) -> Seq<u8>
    recommends
        valid_hex(s),
    decreases s.len(),
{
    if s.len() < 2 {
        Seq::empty()
    } else {
        seq![(hex_value(s[0]) * 16 + hex_value(s[1])) as u8] + unhex(s.skip(2))
    }
}

/// Every byte of a hex encoding is a hex digit; the encoding is twice as
/// long as its input and always well formed.
pub proof fn lemma_hex_seq_valid(s: Seq<u8>)
    ensures
        hex_seq(s).len() == 2 * s.len(),
        valid_hex(hex_seq(s)),
    decreases s.len(),
{
    if s.len() > 0 {
        lemma_hex_seq_valid(s.skip(1));
        assert forall|i: int| 0 <= i < hex_seq(s).len() implies is_hex_digit(
            #[trigger] hex_seq(s)[i],
        ) by {
            if i >= 2 {
                assert(hex_seq(s)[i] == hex_seq(s.skip(1))[i - 2]);
            }
        }
    }
}

/// Decoding inverts encoding: `unhex(hex_seq(s)) == s`.
pub proof fn lemma_unhex_hex(s: Seq<u8>)
    ensures
        unhex(hex_seq(s)) == s,
    decreases s.len(),
{
    if s.len() == 0 {
        assert(unhex(hex_seq(s)) =~= s);
    } else {
        lemma_unhex_hex(s.skip(1));
        lemma_hex_seq_valid(s.skip(1));
        let h = hex_seq(s);
        let b = s[0];
        assert(h[0] == hex_digit(b as int / 16) && h[1] == hex_digit(b as int % 16));
        assert(hex_value(hex_digit(b as int / 16)) == b as int / 16 && hex_value(hex_digit(b as int % 16)) == b as int % 16);
        assert((b as int / 16) * 16 + b as int % 16 == b as int) by (nonlinear_arith);
        assert(h.skip(2) =~= hex_seq(s.skip(1)));
        assert(unhex(h) =~= s);
    }
}

/// Encode `v` as lowercase hex text.
pub fn to_hex(v: &Vec<u8>) -> (r: Vec<u8>)
    ensures
        r@ == hex_seq(v@),
{
    let mut r: Vec<u8> = Vec::new();
    let mut i: usize = 0;
    proof {
        assert(v@.skip(0) =~= v@);
    }
    while i < v.len()
        invariant
            i <= v.len(),
            r@ + hex_seq(v@.skip(i as int)) == hex_seq(v@),
        decreases v.len() - i,
    {
        let b = v[i];
        r.push(hex_digit_exec(b / 16));
        r.push(hex_digit_exec(b % 16));
        proof {
            let t = v@.skip(i as int);
            assert(t[0] == v@[i as int]);
            assert(t.skip(1) =~= v@.skip(i as int + 1));
            assert(r@ + hex_seq(v@.skip(i as int + 1)) =~= hex_seq(v@));
        }
        i = i + 1;
    }
    proof {
        assert(v@.skip(v@.len() as int) =~= Seq::<u8>::empty());
        assert(r@ =~= hex_seq(v@));
    }
    r
}

/// Decode lowercase hex text; `None` exactly on malformed input.
pub fn from_hex(v: &Vec<u8>) -> (r: Option<Vec<u8>>)
    ensures
        r is Some <==> valid_hex(v@),
        r matches Some(w) ==> w@ == unhex(v@),
{
    let mut out: Vec<u8> = Vec::new();
    let mut i: usize = 0;
    proof {
        assert(v@.skip(0) =~= v@);
    }
    while i < v.len()
        invariant
            i <= v.len(),
            i % 2 == 0,
            forall|j: int| 0 <= j < i ==> is_hex_digit(#[trigger] v@[j]),
            out@ + unhex(v@.skip(i as int)) == unhex(v@),
        decreases v.len() - i,
    {
        if i + 1 >= v.len() {
            proof {
                assert(v@.len() % 2 != 0);
            }
            return None;
        }
        let hi = match hex_value_exec(v[i]) {
            Some(x) => x,
            None => {
                return None;
            },
        };
        let lo = match hex_value_exec(v[i + 1]) {
            Some(x) => x,
            None => {
                return None;
            },
        };
        out.push(hi * 16 + lo);
        proof {
            let t = v@.skip(i as int);
            assert(t[0] == v@[i as int] && t[1] == v@[i as int + 1]);
            assert(t.skip(2) =~= v@.skip(i as int + 2));
            assert(out@ + unhex(v@.skip(i as int + 2)) =~= unhex(v@));
        }
        i = i + 2;
    }
    proof {
        assert(v@.skip(v@.len() as int) =~= Seq::<u8>::empty());
        assert(out@ =~= unhex(v@));
    }
    Some(out)
}

/// The lowercase hex digit for a value below sixteen.
fn hex_digit_exec(n: u8) -> (r: u8)
    requires
        n < 16,
    ensures
        r == hex_digit(n as int),
{
    if n < 10 {
        48 + n
    } else {
        87 + n
    }
}

/// The value of one hex digit; `None` if `b` is no lowercase hex digit.
fn hex_value_exec(b: u8) -> (r: Option<u8>)
    ensures
        r is Some <==> is_hex_digit(b),
        r matches Some(x) ==> x == hex_value(b) && x < 16,
{
    if 48 <= b && b <= 57 {
        Some(b - 48)
    } else if 97 <= b && b <= 102 {
        Some(b - 87)
    } else {
        None
    }
}

} // verus!
