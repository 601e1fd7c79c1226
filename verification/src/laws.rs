//! The library's laws: properties of the pipeline stated and proved once,
//! over the same spec functions the function contracts use.

use vstd::arithmetic::div_mod::{
    lemma_div_is_ordered, lemma_div_multiples_vanish, lemma_div_pos_is_pos,
    lemma_fundamental_div_mod,
};
use vstd::prelude::*;

use crate::bezier::{bez_num, div_trunc, SCALE3};
use crate::commands::SpecCommand;
use crate::errors::NormalizeError;
use crate::fixed::{in_coord_range, COORD_LIMIT, SCALE};
use crate::flatten::{bez_point, spec_curve_points, spec_step, FlatState};
use crate::normalize::{spec_group_end, spec_group_start, spec_normalize, spec_strict};
use crate::render::{dec_digits, digit_char_of, fixed_chars, padded_digits, trim_zeros};
use crate::scan::{
    all_digits, digit_val, digits_value, is_digit, lemma_pow10_small_values, pow10, spec_dot_pos,
};

verus! {

/// A move or line command emits exactly its own literal point and leaves
/// the cursor there; the pending control point is untouched.
pub proof fn lemma_move_line_emits_literal(st: FlatState, x: int, y: int, r: int)
    ensures
        spec_step(st, SpecCommand::MoveTo { x, y }, r) == (
            FlatState { cur: (x, y), lcp: st.lcp },
            seq![(x, y)],
        ),
        spec_step(st, SpecCommand::LineTo { x, y }, r) == (
            FlatState { cur: (x, y), lcp: st.lcp },
            seq![(x, y)],
        ),
{
}

/// A close command emits no points and changes no state.
pub proof fn lemma_close_path_inert(st: FlatState, r: int)
    ensures
        spec_step(st, SpecCommand::ClosePath, r) == (st, Seq::<(int, int)>::empty()),
{
}

/// One cubic segment emits exactly `SCALE / r + 2` points: the samples at
/// `t = 0, r, 2r, ...` up to one unit, then the exact endpoint.
pub proof fn lemma_curve_point_count(
    r: int,
    p0: (int, int),
    p1: (int, int),
    p2: (int, int),
    p3: (int, int),
)
    requires
        1 <= r <= SCALE as int,
    ensures
        spec_curve_points(r, p0, p1, p2, p3).len() == SCALE as int / r + 2,
        spec_curve_points(r, p0, p1, p2, p3).last() == p3,
{
    assert(SCALE as int / r >= 0) by {
        lemma_div_pos_is_pos(SCALE as int, r);
    }
}

/// A smooth cubic straight after a cubic with second control point
/// `(cx2, cy2)` and endpoint `(ex, ey)` samples the curve whose first
/// control point is the reflection `(2 ex - cx2, 2 ey - cy2)`.
pub proof fn lemma_smooth_reflects_last_control(
    st: FlatState,
    r: int,
    x1: int,
    y1: int,
    cx2: int,
    cy2: int,
    ex: int,
    ey: int,
    sx2: int,
    sy2: int,
    sx: int,
    sy: int,
)
    ensures
        ({
            let after_cubic = spec_step(
                st,
                SpecCommand::CubicBezier { x1, y1, x2: cx2, y2: cy2, x: ex, y: ey },
                r,
            ).0;
            spec_step(
                after_cubic,
                SpecCommand::SmoothCubicBezier { x2: sx2, y2: sy2, x: sx, y: sy },
                r,
            ).1 == spec_curve_points(
                r,
                (ex, ey),
                (2 * ex - cx2, 2 * ey - cy2),
                (sx2, sy2),
                (sx, sy),
            )
        }),
{
}

/// A degenerate cubic from the origin with both control points at the
/// origin and endpoint `(e, e)` stays on the diagonal: every sampled
/// point has equal coordinates between `0` and `e`.
pub proof fn lemma_degenerate_curve_on_diagonal(t: int, e: int)
    requires
        0 <= t <= SCALE as int,
        0 <= e <= 3 * COORD_LIMIT as int,
    ensures
        ({
            let p = bez_point(t, (0, 0), (0, 0), (0, 0), (e, e));
            p.0 == p.1 && 0 <= p.0 <= e
        }),
{
    let n = bez_num(t, 0, 0, 0, e);
    let u = SCALE as int - t;
    assert(n == t * t * t * e && 0 <= n <= (SCALE3 as int) * e) by (nonlinear_arith)
        requires
            n == u * u * u * 0 + 3 * u * u * t * 0 + 3 * u * t * t * 0 + t * t * t * e,
            0 <= t <= 1_000_000,
            SCALE3 as int == 1_000_000_000_000_000_000,
            e >= 0,
    ;
    lemma_div_pos_is_pos(n, SCALE3 as int);
    lemma_div_is_ordered(n, (SCALE3 as int) * e, SCALE3 as int);
    lemma_div_multiples_vanish(e, SCALE3 as int);
    assert(div_trunc(n, SCALE3 as int) == n / (SCALE3 as int));
}

/// The numeric value of a stand-alone digit string, most significant
/// digit first.
pub open spec fn seq_digit_value(d: Seq<char>) -> int
    decreases d.len(),
{
    if d.len() == 0 {
        0
    } else {
        seq_digit_value(d.drop_last()) * 10 + digit_val(d.last())
    }
}

/// Every character of the stand-alone string `d` is a digit.
pub open spec fn seq_all_digits(d: Seq<char>) -> bool {
    forall|j: int| 0 <= j < d.len() ==> is_digit(#[trigger] d[j])
}

/// The Horner scan can be split before its last digit.
proof fn lemma_digits_value_peel(s: Seq<char>, i: int, to: int, acc: int)
    requires
        0 <= i < to <= s.len(),
    ensures
        digits_value(s, i, to, acc) == digits_value(s, i, to - 1, acc) * 10 + digit_val(
            s[to - 1],
        ),
    decreases to - i,
{
    if i + 1 < to {
        lemma_digits_value_peel(s, i + 1, to, acc * 10 + digit_val(s[i]));
    } else {
        assert(digits_value(s, i + 1, to, acc * 10 + digit_val(s[i])) == acc * 10 + digit_val(
            s[i],
        ));
        assert(digits_value(s, i, to - 1, acc) == acc);
    }
}

/// Scanning a span that holds exactly the digit string `d` yields the
/// accumulator shifted past `d` plus `d`'s own value.
proof fn lemma_digits_value_embed(s: Seq<char>, i: int, d: Seq<char>, acc: int)
    requires
        0 <= i,
        i + d.len() <= s.len(),
        s.subrange(i, i + d.len() as int) == d,
    ensures
        digits_value(s, i, i + d.len() as int, acc) == acc * pow10(d.len()) + seq_digit_value(d),
    decreases d.len(),
{
    if d.len() == 0 {
    } else {
        let to = i + d.len() as int;
        lemma_digits_value_peel(s, i, to, acc);
        assert(s[to - 1] == d.last());
        assert(s.subrange(i, to - 1) =~= d.drop_last());
        lemma_digits_value_embed(s, i, d.drop_last(), acc);
        let p1 = pow10((d.len() - 1) as nat);
        assert((acc * p1 + seq_digit_value(d.drop_last())) * 10 == acc * (10 * p1)
            + seq_digit_value(d.drop_last()) * 10) by (nonlinear_arith);
        assert(pow10(d.len()) == 10 * p1);
    }
}

/// Each digit character carries its digit's value and is never a sign or
/// a dot.
proof fn lemma_digit_char_val(d: nat)
    requires
        d < 10,
    ensures
        is_digit(digit_char_of(d)),
        digit_val(digit_char_of(d)) == d,
        d != 0 ==> digit_char_of(d) != '0',
{
}

/// The shortest digit string of `n` is nonempty, all digits, and reads
/// back as `n`.
proof fn lemma_dec_digits_props(n: nat)
    ensures
        dec_digits(n).len() >= 1,
        seq_all_digits(dec_digits(n)),
        seq_digit_value(dec_digits(n)) == n,
    decreases n,
{
    let d = dec_digits(n);
    if n < 10 {
        lemma_digit_char_val(n);
        assert(d.drop_last() =~= Seq::<char>::empty());
        assert(seq_digit_value(Seq::<char>::empty()) == 0);
        assert(d.last() == digit_char_of(n));
    } else {
        lemma_dec_digits_props(n / 10);
        lemma_digit_char_val(n % 10);
        assert(d.drop_last() =~= dec_digits(n / 10));
        assert(d.last() == digit_char_of(n % 10));
        lemma_fundamental_div_mod(n as int, 10);
        assert forall|j: int| 0 <= j < d.len() implies is_digit(d[j]) by {
            if j < d.len() - 1 {
                assert(d[j] == dec_digits(n / 10)[j]);
            }
        }
    }
}

/// The `k`-digit padded string of `f` is all digits and reads back as
/// `f`.
proof fn lemma_padded_props(f: nat, k: nat)
    requires
        f < pow10(k),
    ensures
        padded_digits(f, k).len() == k,
        seq_all_digits(padded_digits(f, k)),
        seq_digit_value(padded_digits(f, k)) == f,
    decreases k,
{
    let d = padded_digits(f, k);
    if k == 0 {
    } else {
        assert(pow10(k) == 10 * pow10((k - 1) as nat));
        assert(f / 10 < pow10((k - 1) as nat));
        lemma_padded_props(f / 10, (k - 1) as nat);
        lemma_digit_char_val(f % 10);
        assert(d.drop_last() =~= padded_digits(f / 10, (k - 1) as nat));
        assert(d.last() == digit_char_of(f % 10));
        lemma_fundamental_div_mod(f as int, 10);
        assert forall|j: int| 0 <= j < d.len() implies is_digit(d[j]) by {
            if j < d.len() - 1 {
                assert(d[j] == padded_digits(f / 10, (k - 1) as nat)[j]);
            }
        }
    }
}

/// Trimming the trailing zeros of the padded string keeps its value: the
/// remaining digits times the ten-power of the dropped places give `f`
/// back.
proof fn lemma_trim_padded(f: nat, k: nat)
    requires
        0 < f < pow10(k),
    ensures
        ({
            let tr = trim_zeros(padded_digits(f, k));
            &&& 1 <= tr.len() <= k
            &&& seq_all_digits(tr)
            &&& seq_digit_value(tr) * pow10((k - tr.len()) as nat) == f
        }),
    decreases k,
{
    let pd = padded_digits(f, k);
    if k == 0 {
        assert(false);
    } else {
        lemma_padded_props(f, k);
        lemma_digit_char_val(f % 10);
        assert(pd.last() == digit_char_of(f % 10));
        if f % 10 == 0 {
            assert(pd.drop_last() =~= padded_digits(f / 10, (k - 1) as nat));
            assert(trim_zeros(pd) == trim_zeros(padded_digits(f / 10, (k - 1) as nat)));
            lemma_fundamental_div_mod(f as int, 10);
            assert(pow10(k) == 10 * pow10((k - 1) as nat));
            assert(f / 10 < pow10((k - 1) as nat));
            lemma_trim_padded(f / 10, (k - 1) as nat);
            let tr = trim_zeros(padded_digits(f / 10, (k - 1) as nat));
            assert(pow10((k - tr.len()) as nat) == 10 * pow10((k - 1 - tr.len()) as nat));
            assert(seq_digit_value(tr) * pow10((k - tr.len()) as nat) == (seq_digit_value(tr)
                * pow10((k - 1 - tr.len()) as nat)) * 10) by (nonlinear_arith)
                requires
                    pow10((k - tr.len()) as nat) == 10 * pow10((k - 1 - tr.len()) as nat),
            ;
        } else {
            assert(trim_zeros(pd) == pd);
        }
    }
}

/// A span without dots has its first dot only at its end.
proof fn lemma_dot_pos_none(s: Seq<char>, i: int, to: int)
    requires
        0 <= i <= to <= s.len(),
        forall|j: int| i <= j < to ==> s[j] != '.',
    ensures
        spec_dot_pos(s, i, to) == to,
    decreases to - i,
{
    if i < to {
        lemma_dot_pos_none(s, i + 1, to);
    }
}

/// The first dot of a span is where a dot stands after only dot-free
/// characters.
proof fn lemma_dot_pos_found(s: Seq<char>, i: int, to: int, p: int)
    requires
        0 <= i <= p < to <= s.len(),
        s[p] == '.',
        forall|j: int| i <= j < p ==> s[j] != '.',
    ensures
        spec_dot_pos(s, i, to) == p,
    decreases p - i,
{
    if i < p {
        lemma_dot_pos_found(s, i + 1, to, p);
    }
}

/// Pointwise digits make a digit span.
proof fn lemma_all_digits_from_forall(s: Seq<char>, i: int, to: int)
    requires
        0 <= i,
        to <= s.len(),
        forall|j: int| i <= j < to ==> is_digit(#[trigger] s[j]),
    ensures
        all_digits(s, i, to),
    decreases to - i,
{
    if i < to {
        lemma_all_digits_from_forall(s, i + 1, to);
    }
}

/// A rendered coordinate reads back strictly as exactly its own value:
/// the text the normalizer emits never shifts a coordinate.
#[verifier::rlimit(100)]
pub proof fn lemma_rendered_coordinate_reads_back(v: int)
    requires
        in_coord_range(v),
    ensures
        ({
            let t = fixed_chars(v);
            &&& spec_strict(t, 0, t.len() as int) == Ok::<int, NormalizeError>(v)
            &&& t.len() >= 1
            &&& (is_digit(t[0]) || t[0] == '-')
            &&& forall|j: int| 1 <= j < t.len() ==> is_digit(#[trigger] t[j]) || t[j] == '.'
        }),
{
    lemma_pow10_small_values();
    let t = fixed_chars(v);
    let len = t.len() as int;
    let mag = if v >= 0 {
        v
    } else {
        -v
    };
    let ipn = (mag / 1_000_000) as nat;
    let ip = dec_digits(ipn);
    let fp = mag % 1_000_000;
    lemma_dec_digits_props(ipn);
    lemma_fundamental_div_mod(mag, 1_000_000);
    let b: int = if v < 0 {
        1
    } else {
        0
    };
    assert forall|j: int| b <= j < b + ip.len() implies is_digit(#[trigger] t[j]) && t[j] != '.'
        && digit_val(t[j]) == digit_val(ip[j - b]) by {
        assert(t[j] == ip[j - b]);
    }
    assert(t.subrange(b, b + ip.len() as int) =~= ip);
    if v < 0 {
        assert(t[0] == '-');
    }
    let d = b + ip.len() as int;
    lemma_digits_value_embed(t, b, ip, 0);
    if fp == 0 {
        assert(len == d);
        assert(crate::scan::body_start(t, 0, len) == b);
        lemma_dot_pos_none(t, b, len);
        lemma_all_digits_from_forall(t, b, len);
        assert(crate::scan::token_ok(t, 0, len));
        assert(crate::scan::token_mag(t, 0, len) == (mag / 1_000_000) * 1_000_000);
        assert(crate::scan::token_value(t, 0, len) == v);
        assert forall|j: int| 1 <= j < len implies is_digit(#[trigger] t[j]) || t[j] == '.' by {
            assert(t[j] == ip[j - b]);
        }
    } else {
        let fr = trim_zeros(padded_digits(fp as nat, 6));
        lemma_trim_padded(fp as nat, 6);
        assert(t[d] == '.');
        assert(len == d + 1 + fr.len());
        assert forall|j: int| d + 1 <= j < len implies is_digit(#[trigger] t[j]) by {
            assert(t[j] == fr[j - (d + 1)]);
        }
        assert(t.subrange(d + 1, len) =~= fr);
        assert(crate::scan::body_start(t, 0, len) == b);
        lemma_dot_pos_found(t, b, len, d);
        lemma_all_digits_from_forall(t, b, d);
        lemma_all_digits_from_forall(t, d + 1, len);
        assert(crate::scan::token_ok(t, 0, len));
        assert(crate::scan::frac_stop(d, len) == len);
        lemma_digits_value_embed(t, d + 1, fr, 0);
        assert(crate::scan::frac_val(t, d, len) == seq_digit_value(fr) * pow10(
            (6 - fr.len()) as nat,
        ));
        assert(crate::scan::token_mag(t, 0, len) == (mag / 1_000_000) * 1_000_000 + fp);
        assert(crate::scan::token_value(t, 0, len) == v);
        assert forall|j: int| 1 <= j < len implies is_digit(#[trigger] t[j]) || t[j] == '.' by {
            if j < d {
                assert(t[j] == ip[j - b]);
            } else if j > d {
                assert(t[j] == fr[j - (d + 1)]);
            }
        }
    }
}

/// The first dot depends only on the span's own characters.
proof fn lemma_dot_pos_frame(s1: Seq<char>, s2: Seq<char>, i: int, to: int)
    requires
        0 <= i <= to <= s1.len(),
        to <= s2.len(),
        forall|j: int| i <= j < to ==> s1[j] == s2[j],
    ensures
        spec_dot_pos(s1, i, to) == spec_dot_pos(s2, i, to),
    decreases to - i,
{
    if i < to {
        lemma_dot_pos_frame(s1, s2, i + 1, to);
    }
}

/// The first dot lies within the span.
proof fn lemma_dot_pos_range(s: Seq<char>, i: int, to: int)
    requires
        0 <= i <= to <= s.len(),
    ensures
        i <= spec_dot_pos(s, i, to) <= to,
    decreases to - i,
{
    if i < to && s[i] != '.' {
        lemma_dot_pos_range(s, i + 1, to);
    }
}

/// Being all digits depends only on the span's own characters.
proof fn lemma_all_digits_frame(s1: Seq<char>, s2: Seq<char>, i: int, to: int)
    requires
        0 <= i <= to <= s1.len(),
        to <= s2.len(),
        forall|j: int| i <= j < to ==> s1[j] == s2[j],
    ensures
        all_digits(s1, i, to) == all_digits(s2, i, to),
    decreases to - i,
{
    if i < to {
        lemma_all_digits_frame(s1, s2, i + 1, to);
    }
}

/// The digit scan depends only on the span's own characters.
proof fn lemma_digits_value_frame(s1: Seq<char>, s2: Seq<char>, i: int, to: int, acc: int)
    requires
        0 <= i <= to <= s1.len(),
        to <= s2.len(),
        forall|j: int| i <= j < to ==> s1[j] == s2[j],
    ensures
        digits_value(s1, i, to, acc) == digits_value(s2, i, to, acc),
    decreases to - i,
{
    if i < to {
        lemma_digits_value_frame(s1, s2, i + 1, to, acc * 10 + digit_val(s1[i]));
    }
}

/// Whether a token reads, and what it reads as, depends only on its own
/// span.
proof fn lemma_token_frame(s1: Seq<char>, s2: Seq<char>, from: int, to: int)
    requires
        0 <= from <= to <= s1.len(),
        to <= s2.len(),
        forall|j: int| from <= j < to ==> s1[j] == s2[j],
    ensures
        crate::scan::token_ok(s1, from, to) == crate::scan::token_ok(s2, from, to),
        crate::scan::token_value(s1, from, to) == crate::scan::token_value(s2, from, to),
{
    let b = crate::scan::body_start(s1, from, to);
    assert(crate::scan::body_start(s2, from, to) == b);
    assert(crate::scan::sign_of(s2, from, to) == crate::scan::sign_of(s1, from, to));
    lemma_dot_pos_frame(s1, s2, b, to);
    lemma_dot_pos_range(s1, b, to);
    let d = spec_dot_pos(s1, b, to);
    lemma_all_digits_frame(s1, s2, b, d);
    lemma_digits_value_frame(s1, s2, b, d, 0);
    if d < to {
        lemma_all_digits_frame(s1, s2, d + 1, to);
        lemma_digits_value_frame(s1, s2, d + 1, crate::scan::frac_stop(d, to), 0);
    }
}

/// A run of digits and dots ends exactly where they stop.
proof fn lemma_num_end_at(s: Seq<char>, i: int, p: int)
    requires
        0 <= i <= p <= s.len(),
        forall|j: int| i <= j < p ==> is_digit(#[trigger] s[j]) || s[j] == '.',
        p == s.len() || !(is_digit(s[p]) || s[p] == '.'),
    ensures
        crate::scan::spec_num_end(s, i) == p,
    decreases p - i,
{
    if i < p {
        lemma_num_end_at(s, i + 1, p);
    }
}

/// The tolerant parser reads a rendered coordinate back as exactly its
/// value: whatever follows it (a comma, whitespace, or nothing), the
/// coordinate scan starting at the rendered text consumes precisely that
/// text and yields the value it was printed from.
pub proof fn lemma_parser_reads_rendered(v: int, rest: Seq<char>)
    requires
        in_coord_range(v),
        rest.len() > 0 ==> !(is_digit(rest[0]) || rest[0] == '.'),
    ensures
        ({
            let t = fixed_chars(v);
            let s = t + rest;
            &&& crate::parser::coord_end(s, 0) == t.len()
            &&& crate::parser::coord_value(s, 0) == v
        }),
{
    lemma_rendered_coordinate_reads_back(v);
    let t = fixed_chars(v);
    let s = t + rest;
    let tl = t.len() as int;
    assert(forall|j: int| 0 <= j < tl ==> s[j] == t[j]);
    assert(crate::scan::spec_skip_seps(s, 0) == 0) by {
        assert(is_digit(s[0]) || s[0] == '-');
    }
    let b: int = if s[0] == '-' || s[0] == '+' {
        1
    } else {
        0
    };
    assert(crate::parser::coord_body(s, 0) == b);
    assert(b <= tl);
    lemma_num_end_at(s, b, tl);
    assert(crate::parser::coord_end(s, 0) == tl);
    lemma_token_frame(t, s, 0, tl);
    assert(crate::scan::token_ok(s, 0, tl) && crate::scan::token_value(s, 0, tl) == v);
    assert(crate::parser::coord_value(s, 0) == crate::scan::lenient_value(s, 0, tl));
}

/// Every supported group of `s` from position `i` on is an absolute
/// (uppercase) command.
pub open spec fn all_absolute_groups(s: Seq<char>, i: int) -> bool
    decreases s.len() - i,
    via all_absolute_groups_dec
{
    let gs = spec_group_start(s, i);
    if !(0 <= gs < s.len()) {
        true
    } else {
        let ge = spec_group_end(s, gs);
        (s[gs] == 'M' || s[gs] == 'L' || s[gs] == 'C' || s[gs] == 'Z')
            && all_absolute_groups(s, ge)
    }
}

#[via_fn]
proof fn all_absolute_groups_dec(s: Seq<char>, i: int) {
    if 0 <= i <= s.len() {
        crate::normalize::lemma_group_start_range(s, i);
        let gs = spec_group_start(s, i);
        if 0 <= gs < s.len() {
            crate::normalize::lemma_group_end_range(s, gs + 1);
            assert(spec_group_end(s, gs) == spec_group_end(s, gs + 1));
        }
    } else {
        if i < 0 {
            assert(spec_group_start(s, i) == i);
        }
    }
}

/// Normalizing an already-absolute path is a no-op on coordinate values:
/// every emitted coordinate is the command's own parsed value, so the
/// result does not depend on the running cursor at all.
pub proof fn lemma_absolute_path_ignores_cursor(
    s: Seq<char>,
    i: int,
    cx: int,
    cy: int,
    dx: int,
    dy: int,
)
    requires
        all_absolute_groups(s, i),
    ensures
        spec_normalize(s, i, cx, cy) == spec_normalize(s, i, dx, dy),
    decreases
            (if s.len() - i >= 0 {
                s.len() - i
            } else {
                0
            }),
{
    let gs = spec_group_start(s, i);
    if 0 <= gs < s.len() {
        if i < 0 {
            assert(gs == i);
            assert(false);
        }
        crate::normalize::lemma_group_start_range(s, i);
        let ge = spec_group_end(s, gs);
        crate::normalize::lemma_group_end_range(s, gs + 1);
        assert(ge == spec_group_end(s, gs + 1));
        lemma_absolute_path_ignores_cursor(s, ge, cx, cy, dx, dy);
    }
}

} // verus!
