//! Character scanning and exact decimal-number reading.
//!
//! Positions are character indices into the path-data string.  Every spec
//! function here walks a span `[i, to)` of the character sequence; each has
//! an executable mirror whose contract says it computes exactly the spec
//! value.
//!
//! A numeric token is `sign? digits ('.' digits?)? | sign? '.' digits`,
//! read as an exact decimal with six fractional digits (further digits are
//! truncated).  Reading is strict: the whole span must match the grammar
//! and the value must stay within `COORD_LIMIT`, else the outcome is an
//! error.  The tolerant reading used by the path parser maps any error to
//! zero.

use vstd::prelude::*;

use crate::errors::NormalizeError;
use crate::fixed::{in_coord_range, Fixed, COORD_LIMIT, MAX_INT_PART, SCALE};

verus! {

/// ASCII whitespace: what separates groups and pads coordinates.
pub open spec fn is_space(c: char) -> bool {
    c == ' ' || c == '\t' || c == '\n' || c == '\r' || c == '\u{b}' || c == '\u{c}'
}

/// An ASCII decimal digit.
pub open spec fn is_digit(c: char) -> bool {
    48 <= c as u32 <= 57
}

/// The numeric value of a digit character.
pub open spec fn digit_val(c: char) -> int {
    c as u32 as int - 48
}

/// Whether `c` is ASCII whitespace.
pub fn space_char(c: char) -> (r: bool)
    ensures
        r == is_space(c),
{
    c == ' ' || c == '\t' || c == '\n' || c == '\r' || c == '\u{b}' || c == '\u{c}'
}

/// Whether `c` is an ASCII digit.
pub fn digit_char(c: char) -> (r: bool)
    ensures
        r == is_digit(c),
{
    let u = c as u32;
    48 <= u && u <= 57
}

/// First position at or after `i` whose character is neither whitespace
/// nor a comma, or the end of the string.
pub open spec fn spec_skip_seps(s: Seq<char>, i: int) -> int
    decreases s.len() - i,
{
    if !(0 <= i < s.len()) {
        i
    } else if is_space(s[i]) || s[i] == ',' {
        spec_skip_seps(s, i + 1)
    } else {
        i
    }
}

/// Executable mirror of [`spec_skip_seps`].
pub fn skip_seps(s: &str, i: usize, len: usize) -> (r: usize)
    requires
        i <= len,
        len == s@.len(),
    ensures
        r as int == spec_skip_seps(s@, i as int),
        i <= r <= len,
    decreases len - i,
{
    if i == len {
        i
    } else {
        let c = s.get_char(i);
        if space_char(c) || c == ',' {
            skip_seps(s, i + 1, len)
        } else {
            i
        }
    }
}

/// First position at or after `i` whose character is neither a digit nor
/// a dot, or the end of the string.
pub open spec fn spec_num_end(s: Seq<char>, i: int) -> int
    decreases s.len() - i,
{
    if !(0 <= i < s.len()) {
        i
    } else if is_digit(s[i]) || s[i] == '.' {
        spec_num_end(s, i + 1)
    } else {
        i
    }
}

/// Executable mirror of [`spec_num_end`].
pub fn num_end(s: &str, i: usize, len: usize) -> (r: usize)
    requires
        i <= len,
        len == s@.len(),
    ensures
        r as int == spec_num_end(s@, i as int),
        i <= r <= len,
    decreases len - i,
{
    if i == len {
        i
    } else {
        let c = s.get_char(i);
        if digit_char(c) || c == '.' {
            num_end(s, i + 1, len)
        } else {
            i
        }
    }
}

/// First dot in `[i, to)`, or `to`.
pub open spec fn spec_dot_pos(s: Seq<char>, i: int, to: int) -> int
    decreases to - i,
{
    if !(0 <= i < to && to <= s.len()) {
        to
    } else if s[i] == '.' {
        i
    } else {
        spec_dot_pos(s, i + 1, to)
    }
}

/// Executable mirror of [`spec_dot_pos`].
pub fn dot_pos(s: &str, i: usize, to: usize) -> (r: usize)
    requires
        i <= to <= s@.len(),
    ensures
        r as int == spec_dot_pos(s@, i as int, to as int),
        i <= r <= to,
    decreases to - i,
{
    if i == to {
        to
    } else {
        let c = s.get_char(i);
        if c == '.' {
            i
        } else {
            dot_pos(s, i + 1, to)
        }
    }
}

/// First comma in `[i, to)`, or `to`.
pub open spec fn spec_comma_pos(s: Seq<char>, i: int, to: int) -> int
    decreases to - i,
{
    if !(0 <= i < to && to <= s.len()) {
        to
    } else if s[i] == ',' {
        i
    } else {
        spec_comma_pos(s, i + 1, to)
    }
}

/// Executable mirror of [`spec_comma_pos`].
pub fn comma_pos(s: &str, i: usize, to: usize) -> (r: usize)
    requires
        i <= to <= s@.len(),
    ensures
        r as int == spec_comma_pos(s@, i as int, to as int),
        i <= r <= to,
    decreases to - i,
{
    if i == to {
        to
    } else {
        let c = s.get_char(i);
        if c == ',' {
            i
        } else {
            comma_pos(s, i + 1, to)
        }
    }
}

/// Every character of `[i, to)` is a digit.
pub open spec fn all_digits(s: Seq<char>, i: int, to: int) -> bool
    decreases to - i,
{
    if !(0 <= i < to && to <= s.len()) {
        true
    } else {
        is_digit(s[i]) && all_digits(s, i + 1, to)
    }
}

/// Executable mirror of [`all_digits`].
pub fn all_digits_in(s: &str, i: usize, to: usize) -> (r: bool)
    requires
        i <= to <= s@.len(),
    ensures
        r == all_digits(s@, i as int, to as int),
    decreases to - i,
{
    if i == to {
        true
    } else {
        let c = s.get_char(i);
        digit_char(c) && all_digits_in(s, i + 1, to)
    }
}

/// A digit span stays a digit span when cut short.
pub proof fn lemma_all_digits_sub(s: Seq<char>, i: int, m: int, to: int)
    requires
        all_digits(s, i, to),
        i <= m <= to <= s.len(),
    ensures
        all_digits(s, i, m),
    decreases m - i,
{
    if 0 <= i < m {
        lemma_all_digits_sub(s, i + 1, m, to);
    }
}

/// Horner value of the digit span `[i, to)` on top of `acc`.
pub open spec fn digits_value(s: Seq<char>, i: int, to: int, acc: int) -> int
    decreases to - i,
{
    if !(0 <= i < to && to <= s.len()) {
        acc
    } else {
        digits_value(s, i + 1, to, acc * 10 + digit_val(s[i]))
    }
}

/// The Horner value never drops below the accumulator it starts from.
pub proof fn lemma_digits_value_lower(s: Seq<char>, i: int, to: int, acc: int)
    requires
        acc >= 0,
        all_digits(s, i, to),
    ensures
        digits_value(s, i, to, acc) >= acc,
    decreases to - i,
{
    if 0 <= i < to && to <= s.len() {
        lemma_digits_value_lower(s, i + 1, to, acc * 10 + digit_val(s[i]));
    }
}

/// Ten to the `k`.
pub open spec fn pow10(k: nat) -> int
    decreases k,
{
    if k == 0 {
        1
    } else {
        10 * pow10((k - 1) as nat)
    }
}

/// The Horner value of `k` digits on top of `acc` stays below
/// `(acc + 1) * 10^k`.
pub proof fn lemma_digits_value_upper(s: Seq<char>, i: int, to: int, acc: int)
    requires
        acc >= 0,
        all_digits(s, i, to),
    ensures
        digits_value(s, i, to, acc) < (acc + 1) * pow10(if to >= i {
            (to - i) as nat
        } else {
            0
        }),
    decreases to - i,
{
    if 0 <= i < to && to <= s.len() {
        let acc2 = acc * 10 + digit_val(s[i]);
        lemma_digits_value_upper(s, i + 1, to, acc2);
        let n1 = (to - i - 1) as nat;
        lemma_pow10_positive(n1);
        assert((acc2 + 1) * pow10(n1) <= ((acc + 1) * 10) * pow10(n1)) by (nonlinear_arith)
            requires
                acc2 + 1 <= (acc + 1) * 10,
                pow10(n1) >= 1,
        ;
        assert(((acc + 1) * 10) * pow10(n1) == (acc + 1) * (10 * pow10(n1))) by (nonlinear_arith);
        assert(pow10((to - i) as nat) == 10 * pow10(n1));
    } else {
        lemma_pow10_positive(if to >= i {
            (to - i) as nat
        } else {
            0
        });
        assert((acc + 1) * pow10(if to >= i {
            (to - i) as nat
        } else {
            0
        }) >= acc + 1) by (nonlinear_arith)
            requires
                acc >= 0,
                pow10(if to >= i {
                    (to - i) as nat
                } else {
                    0
                }) >= 1,
        ;
    }
}

/// `10^k` is positive.
pub proof fn lemma_pow10_positive(k: nat)
    ensures
        pow10(k) >= 1,
    decreases k,
{
    if k > 0 {
        lemma_pow10_positive((k - 1) as nat);
    }
}

/// Executable mirror of [`digits_value`], reporting an overflow of the
/// integer-part cap instead of wrapping.
pub fn digits_value_capped(s: &str, i: usize, to: usize, acc: i64) -> (r: Option<i64>)
    requires
        i <= to <= s@.len(),
        0 <= acc <= MAX_INT_PART,
        all_digits(s@, i as int, to as int),
    ensures
        match r {
            Some(v) => v as int == digits_value(s@, i as int, to as int, acc as int) && 0 <= v
                <= MAX_INT_PART,
            None => digits_value(s@, i as int, to as int, acc as int) > MAX_INT_PART as int,
        },
    decreases to - i,
{
    if i == to {
        Some(acc)
    } else {
        let c = s.get_char(i);
        let d = (c as u32 - 48) as i64;
        let acc2 = acc * 10 + d;
        if acc2 > MAX_INT_PART {
            proof {
                lemma_digits_value_lower(s@, i as int + 1, to as int, acc2 as int);
            }
            None
        } else {
            digits_value_capped(s, i + 1, to, acc2)
        }
    }
}

/// `10^k` for `k <= 6`.
pub fn pow10_small(k: usize) -> (r: i64)
    requires
        k <= 6,
    ensures
        r as int == pow10(k as nat),
        1 <= r <= 1_000_000,
{
    let r: i64 = if k == 0 {
        1
    } else if k == 1 {
        10
    } else if k == 2 {
        100
    } else if k == 3 {
        1_000
    } else if k == 4 {
        10_000
    } else if k == 5 {
        100_000
    } else {
        1_000_000
    };
    proof {
        reveal_with_fuel(pow10, 7);
    }
    r
}

/// Where the sign, if any, of the token `[from, to)` ends.
pub open spec fn body_start(s: Seq<char>, from: int, to: int) -> int {
    if from < to && (s[from] == '-' || s[from] == '+') {
        from + 1
    } else {
        from
    }
}

/// The sign of the token `[from, to)`.
pub open spec fn sign_of(s: Seq<char>, from: int, to: int) -> int {
    if from < to && s[from] == '-' {
        -1
    } else {
        1
    }
}

/// Where the fractional digits read for the value end: at most six of
/// them count.
pub open spec fn frac_stop(d: int, to: int) -> int {
    if to - (d + 1) > 6 {
        d + 7
    } else {
        to
    }
}

/// The scaled value of the fractional part after the dot at `d` (zero if
/// there is no dot before `to`).
pub open spec fn frac_val(s: Seq<char>, d: int, to: int) -> int {
    if d >= to {
        0
    } else {
        digits_value(s, d + 1, frac_stop(d, to), 0) * pow10((6 - (frac_stop(d, to) - (d + 1))) as nat)
    }
}

/// Whether the span `[from, to)` is a well-formed decimal token:
/// an optional sign, then digits with at most one dot, and at least one
/// digit somewhere.
pub open spec fn token_ok(s: Seq<char>, from: int, to: int) -> bool {
    let b = body_start(s, from, to);
    let d = spec_dot_pos(s, b, to);
    &&& all_digits(s, b, d)
    &&& (d < to ==> all_digits(s, d + 1, to))
    &&& (b < d || d + 1 < to)
}

/// The magnitude, in scaled units, of the token `[from, to)`.
pub open spec fn token_mag(s: Seq<char>, from: int, to: int) -> int {
    let b = body_start(s, from, to);
    let d = spec_dot_pos(s, b, to);
    digits_value(s, b, d, 0) * SCALE as int + frac_val(s, d, to)
}

/// The signed scaled value of the token `[from, to)`.
pub open spec fn token_value(s: Seq<char>, from: int, to: int) -> int {
    sign_of(s, from, to) * token_mag(s, from, to)
}

/// The value the tolerant scanner substitutes: the token's value where it
/// is well formed and representable, zero otherwise.
pub open spec fn lenient_value(s: Seq<char>, from: int, to: int) -> int {
    if token_ok(s, from, to) && in_coord_range(token_value(s, from, to)) {
        token_value(s, from, to)
    } else {
        0
    }
}

/// Read the token `[from, to)` strictly: exactly the decimal grammar, and
/// the value must be representable.
pub fn parse_decimal(s: &str, from: usize, to: usize) -> (r: Result<Fixed, NormalizeError>)
    requires
        from <= to <= s@.len(),
    ensures
        match r {
            Ok(f) => token_ok(s@, from as int, to as int) && in_coord_range(
                token_value(s@, from as int, to as int),
            ) && f@ == token_value(s@, from as int, to as int),
            Err(NormalizeError::InvalidNumber) => !token_ok(s@, from as int, to as int),
            Err(NormalizeError::OutOfRange) => token_ok(s@, from as int, to as int)
                && !in_coord_range(token_value(s@, from as int, to as int)),
        },
{
    let ghost sv = s@;
    let mut b = from;
    let mut neg = false;
    if b < to {
        let c = s.get_char(b);
        if c == '-' {
            neg = true;
            b = b + 1;
        } else if c == '+' {
            b = b + 1;
        }
    }
    assert(b as int == body_start(sv, from as int, to as int));
    assert(neg <==> sign_of(sv, from as int, to as int) == -1);
    let d = dot_pos(s, b, to);
    if !all_digits_in(s, b, d) {
        return Err(NormalizeError::InvalidNumber);
    }
    if d < to {
        if !all_digits_in(s, d + 1, to) {
            return Err(NormalizeError::InvalidNumber);
        }
    }
    if !(b < d || (d < to && d + 1 < to)) {
        return Err(NormalizeError::InvalidNumber);
    }
    let iv = match digits_value_capped(s, b, d, 0) {
        Some(v) => v,
        None => {
            proof {
                lemma_out_of_range_when_int_part_overflows(sv, from as int, to as int);
            }
            return Err(NormalizeError::OutOfRange);
        },
    };
    let mut fscaled: i64 = 0;
    if d < to {
        let fe = if to - (d + 1) > 6 {
            d + 7
        } else {
            to
        };
        proof {
            lemma_all_digits_sub(sv, d as int + 1, fe as int, to as int);
        }
        let fv = match digits_value_capped(s, d + 1, fe, 0) {
            Some(v) => v,
            None => {
                // at most seven fractional digits are scanned, so their
                // value stays far below the integer-part cap
                proof {
                    lemma_digits_value_upper(sv, d as int + 1, fe as int, 0);
                    lemma_pow10_small_values();
                }
                assert(false);
                return Err(NormalizeError::OutOfRange);
            },
        };
        let flen = fe - (d + 1);
        let p = pow10_small(6 - flen);
        proof {
            assert(0 <= fv as int * p as int <= 400_000_000_000_000_000) by (nonlinear_arith)
                requires
                    0 <= fv as int <= 400_000_000_000,
                    0 <= p as int <= 1_000_000,
            ;
        }
        fscaled = fv * p;
        assert(fscaled as int == frac_val(sv, d as int, to as int));
    }
    let mag = iv * SCALE + fscaled;
    if mag > COORD_LIMIT {
        return Err(NormalizeError::OutOfRange);
    }
    let v = if neg {
        -mag
    } else {
        mag
    };
    Ok(Fixed { scaled: v })
}

/// When the integer digits alone exceed the integer-part cap, the token's
/// value cannot be representable.
proof fn lemma_out_of_range_when_int_part_overflows(s: Seq<char>, from: int, to: int)
    requires
        token_ok(s, from, to),
        0 <= from <= to <= s.len(),
        digits_value(s, body_start(s, from, to), spec_dot_pos(s, body_start(s, from, to), to), 0)
            > MAX_INT_PART as int,
    ensures
        !in_coord_range(token_value(s, from, to)),
{
    let b = body_start(s, from, to);
    let d = spec_dot_pos(s, b, to);
    let iv = digits_value(s, b, d, 0);
    if d < to {
        lemma_all_digits_sub(s, d + 1, frac_stop(d, to), to);
        lemma_digits_value_lower(s, d + 1, frac_stop(d, to), 0);
        lemma_pow10_positive((6 - (frac_stop(d, to) - (d + 1))) as nat);
        assert(frac_val(s, d, to) >= 0) by (nonlinear_arith)
            requires
                frac_val(s, d, to) == digits_value(s, d + 1, frac_stop(d, to), 0) * pow10(
                    (6 - (frac_stop(d, to) - (d + 1))) as nat,
                ),
                digits_value(s, d + 1, frac_stop(d, to), 0) >= 0,
                pow10((6 - (frac_stop(d, to) - (d + 1))) as nat) >= 1,
        ;
    }
    assert(token_mag(s, from, to) > COORD_LIMIT as int);
}

/// The powers of ten up to six, spelled out.
pub proof fn lemma_pow10_small_values()
    ensures
        pow10(0) == 1,
        pow10(1) == 10,
        pow10(2) == 100,
        pow10(3) == 1_000,
        pow10(4) == 10_000,
        pow10(5) == 100_000,
        pow10(6) == 1_000_000,
        pow10(7) == 10_000_000,
{
    reveal_with_fuel(pow10, 8);
}

} // verus!
