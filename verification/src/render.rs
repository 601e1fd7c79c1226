//! Rendering exact decimals back to text.
//!
//! A coordinate prints as its whole part, then — only when the fractional
//! part is not zero — a dot and the fractional digits with trailing zeros
//! removed.  `fixed_chars` is the full specification of that text.

use vstd::prelude::*;

use crate::fixed::Fixed;
use crate::scan::{lemma_pow10_small_values, pow10};

verus! {

/// The character of one digit value.
pub open spec fn digit_char_of(d: nat) -> char {
    if d == 0 {
        '0'
    } else if d == 1 {
        '1'
    } else if d == 2 {
        '2'
    } else if d == 3 {
        '3'
    } else if d == 4 {
        '4'
    } else if d == 5 {
        '5'
    } else if d == 6 {
        '6'
    } else if d == 7 {
        '7'
    } else if d == 8 {
        '8'
    } else {
        '9'
    }
}

/// The shortest decimal digit string of `n`.
pub open spec fn dec_digits(n: nat) -> Seq<char>
    decreases n,
{
    if n < 10 {
        seq![digit_char_of(n)]
    } else {
        dec_digits(n / 10) + seq![digit_char_of(n % 10)]
    }
}

/// Exactly `k` digits of `n`, zero padded on the left.
pub open spec fn padded_digits(n: nat, k: nat) -> Seq<char>
    decreases k,
{
    if k == 0 {
        Seq::empty()
    } else {
        padded_digits(n / 10, (k - 1) as nat) + seq![digit_char_of(n % 10)]
    }
}

/// `s` without its trailing zero characters.
pub open spec fn trim_zeros(s: Seq<char>) -> Seq<char>
    decreases s.len(),
{
    if s.len() > 0 && s.last() == '0' {
        trim_zeros(s.drop_last())
    } else {
        s
    }
}

/// The text of the scaled coordinate value `v`.
pub open spec fn fixed_chars(v: int) -> Seq<char> {
    let mag = if v >= 0 {
        v
    } else {
        -v
    };
    let sign: Seq<char> = if v < 0 {
        seq!['-']
    } else {
        Seq::empty()
    };
    let ip = dec_digits((mag / 1_000_000) as nat);
    let fp = mag % 1_000_000;
    if fp == 0 {
        sign + ip
    } else {
        sign + ip + seq!['.'] + trim_zeros(padded_digits(fp as nat, 6))
    }
}

/// The character of the digit `d`.
pub fn digit_to_char(d: u64) -> (c: char)
    requires
        d < 10,
    ensures
        c == digit_char_of(d as nat),
{
    if d == 0 {
        '0'
    } else if d == 1 {
        '1'
    } else if d == 2 {
        '2'
    } else if d == 3 {
        '3'
    } else if d == 4 {
        '4'
    } else if d == 5 {
        '5'
    } else if d == 6 {
        '6'
    } else if d == 7 {
        '7'
    } else if d == 8 {
        '8'
    } else {
        '9'
    }
}

/// Append the shortest digit string of `n`.
pub fn push_dec_digits(out: &mut Vec<char>, n: u64)
    ensures
        final (out)@ == old(out)@ + dec_digits(n as nat),
    decreases n,
{
    if n < 10 {
        out.push(digit_to_char(n));
        assert(out@ =~= old(out)@ + dec_digits(n as nat));
    } else {
        push_dec_digits(out, n / 10);
        out.push(digit_to_char(n % 10));
        assert(out@ =~= old(out)@ + dec_digits(n as nat));
    }
}

/// Append exactly `k` digits of `n`, zero padded.
pub fn push_padded_digits(out: &mut Vec<char>, n: u64, k: u64)
    ensures
        final (out)@ == old(out)@ + padded_digits(n as nat, k as nat),
    decreases k,
{
    if k == 0 {
        assert(out@ =~= old(out)@ + padded_digits(n as nat, 0));
    } else {
        push_padded_digits(out, n / 10, k - 1);
        out.push(digit_to_char(n % 10));
        assert(out@ =~= old(out)@ + padded_digits(n as nat, k as nat));
    }
}

/// Append the text of the coordinate `v`.
pub fn push_fixed_chars(out: &mut Vec<char>, v: Fixed)
    ensures
        final (out)@ == old(out)@ + fixed_chars(v@),
{
    let neg = v.scaled < 0;
    let mag: u64 = if neg {
        (-(v.scaled as i128)) as u64
    } else {
        v.scaled as u64
    };
    assert(mag as int == if v@ >= 0 {
        v@
    } else {
        -v@
    });
    if neg {
        out.push('-');
    }
    push_dec_digits(out, mag / 1_000_000);
    let fp = mag % 1_000_000;
    if fp > 0 {
        out.push('.');
        let ghost fp0 = fp as nat;
        let mut f = fp;
        let mut k: u64 = 6;
        proof {
            lemma_pow10_small_values();
        }
        while f % 10 == 0
            invariant
                1 <= k <= 6,
                0 < f,
                (f as int) < pow10(k as nat),
                trim_zeros(padded_digits(fp0, 6)) == trim_zeros(padded_digits(f as nat, k as nat)),
            decreases f,
        {
            proof {
                let pd = padded_digits(f as nat, k as nat);
                assert(pd.last() == digit_char_of((f % 10) as nat));
                assert(pd.drop_last() =~= padded_digits((f / 10) as nat, (k - 1) as nat));
                if k == 1 {
                    lemma_pow10_small_values();
                    assert(false);
                }
            }
            f = f / 10;
            k = k - 1;
        }
        proof {
            let pd = padded_digits(f as nat, k as nat);
            assert(pd.last() == digit_char_of((f % 10) as nat));
            assert(pd.last() != '0');
            assert(trim_zeros(pd) == pd);
        }
        push_padded_digits(out, f, k);
        assert(out@ =~= old(out)@ + fixed_chars(v@));
    } else {
        assert(out@ =~= old(out)@ + fixed_chars(v@));
    }
}

/// Builds the `String` with exactly the characters of `v`.
///
/// Relies on `String::from_iter` over a character sequence: the resulting
/// string holds exactly the characters handed to it, in order.
#[verifier::external_body]
pub fn chars_to_string(v: &Vec<char>) -> (r: String)
    ensures
        r@ == v@,
{
    v.iter().collect()
}

impl Fixed {
    /// The decimal text of this coordinate, in place of a `Display` impl.
    pub fn to_decimal_string(&self) -> (r: String)
        ensures
            r@ == fixed_chars(self@),
    {
        let mut buf: Vec<char> = Vec::new();
        push_fixed_chars(&mut buf, *self);
        chars_to_string(&buf)
    }
}

} // verus!
