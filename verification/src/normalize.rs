//! The relative-to-absolute normalizer.
//!
//! The input is split on whitespace into groups; each group is one command
//! letter followed by comma-separated coordinates.  Lowercase move, line
//! and cubic commands are relative: their endpoint is added to a running
//! cursor (a cubic's control points are emitted as parsed, without
//! adjustment).  Uppercase commands set the cursor.  A close command
//! resets the cursor to the origin.  Groups with any other letter are
//! skipped.  The output is the same path with only absolute commands,
//! groups joined by single spaces.
//!
//! Numeric failures here are fatal: the whole conversion returns the
//! error.  `spec_normalize` states the exact output, or the exact error,
//! for every input.

use vstd::prelude::*;

use crate::errors::NormalizeError;
use crate::fixed::{in_coord_range, Fixed, COORD_LIMIT};
use crate::render::{fixed_chars, push_fixed_chars, chars_to_string};
use crate::scan::{
    comma_pos, is_space, parse_decimal, spec_comma_pos, token_ok, token_value,
};

verus! {

/// First position at or after `i` that is not whitespace.
pub open spec fn spec_group_start(s: Seq<char>, i: int) -> int
    decreases s.len() - i,
{
    if !(0 <= i < s.len()) {
        i
    } else if is_space(s[i]) {
        spec_group_start(s, i + 1)
    } else {
        i
    }
}

/// Executable mirror of [`spec_group_start`].
pub fn group_start(s: &str, i: usize, len: usize) -> (r: usize)
    requires
        i <= len,
        len == s@.len(),
    ensures
        r as int == spec_group_start(s@, i as int),
        i <= r <= len,
        r < len ==> !is_space(s@[r as int]),
    decreases len - i,
{
    if i == len {
        i
    } else {
        let c = s.get_char(i);
        if crate::scan::space_char(c) {
            group_start(s, i + 1, len)
        } else {
            i
        }
    }
}

/// First whitespace position at or after `i`.
pub open spec fn spec_group_end(s: Seq<char>, i: int) -> int
    decreases s.len() - i,
{
    if !(0 <= i < s.len()) {
        i
    } else if is_space(s[i]) {
        i
    } else {
        spec_group_end(s, i + 1)
    }
}

/// Executable mirror of [`spec_group_end`].
pub fn group_end(s: &str, i: usize, len: usize) -> (r: usize)
    requires
        i <= len,
        len == s@.len(),
    ensures
        r as int == spec_group_end(s@, i as int),
        i <= r <= len,
    decreases len - i,
{
    if i == len {
        i
    } else {
        let c = s.get_char(i);
        if crate::scan::space_char(c) {
            i
        } else {
            group_end(s, i + 1, len)
        }
    }
}

/// The strict reading of the token `[from, to)`: its exact value, or the
/// exact error.
pub open spec fn spec_strict(s: Seq<char>, from: int, to: int) -> Result<int, NormalizeError> {
    if !token_ok(s, from, to) {
        Err(NormalizeError::InvalidNumber)
    } else if !in_coord_range(token_value(s, from, to)) {
        Err(NormalizeError::OutOfRange)
    } else {
        Ok(token_value(s, from, to))
    }
}

/// The position after a comma-terminated field ending at `d`.
pub open spec fn spec_after(d: int, to: int) -> int {
    if d < to {
        d + 1
    } else {
        to
    }
}

/// Two coordinates split at the first comma of `[from, to)`: the first
/// field before it, the second everything after it.
pub open spec fn spec_pair(s: Seq<char>, from: int, to: int) -> Result<
    (int, int),
    NormalizeError,
> {
    let d = spec_comma_pos(s, from, to);
    match spec_strict(s, from, d) {
        Err(e) => Err(e),
        Ok(x) => match spec_strict(s, spec_after(d, to), to) {
            Err(e) => Err(e),
            Ok(y) => Ok((x, y)),
        },
    }
}

/// Six coordinates: five comma-terminated fields, then the rest of the
/// group.
pub open spec fn spec_six(s: Seq<char>, from: int, to: int) -> Result<
    (int, int, int, int, int, int),
    NormalizeError,
> {
    let d1 = spec_comma_pos(s, from, to);
    let b2 = spec_after(d1, to);
    let d2 = spec_comma_pos(s, b2, to);
    let b3 = spec_after(d2, to);
    let d3 = spec_comma_pos(s, b3, to);
    let b4 = spec_after(d3, to);
    let d4 = spec_comma_pos(s, b4, to);
    let b5 = spec_after(d4, to);
    let d5 = spec_comma_pos(s, b5, to);
    let b6 = spec_after(d5, to);
    match (
        spec_strict(s, from, d1),
        spec_strict(s, b2, d2),
        spec_strict(s, b3, d3),
        spec_strict(s, b4, d4),
        spec_strict(s, b5, d5),
        spec_strict(s, b6, to),
    ) {
        (Ok(x1), Ok(y1), Ok(x2), Ok(y2), Ok(x), Ok(y)) => Ok((x1, y1, x2, y2, x, y)),
        (Err(e), _, _, _, _, _) => Err(e),
        (_, Err(e), _, _, _, _) => Err(e),
        (_, _, Err(e), _, _, _) => Err(e),
        (_, _, _, Err(e), _, _) => Err(e),
        (_, _, _, _, Err(e), _) => Err(e),
        (_, _, _, _, _, Err(e)) => Err(e),
    }
}

/// The emitted text of one pair command: letter, both coordinates, a
/// trailing space.
pub open spec fn emit_pair(letter: char, x: int, y: int) -> Seq<char> {
    seq![letter] + fixed_chars(x) + seq![','] + fixed_chars(y) + seq![' ']
}

/// The emitted text of an absolute cubic command.
pub open spec fn emit_cubic(x1: int, y1: int, x2: int, y2: int, x: int, y: int) -> Seq<char> {
    seq!['C'] + fixed_chars(x1) + seq![','] + fixed_chars(y1) + seq![' '] + fixed_chars(x2)
        + seq![','] + fixed_chars(y2) + seq![' '] + fixed_chars(x) + seq![','] + fixed_chars(y)
        + seq![' ']
}

/// The normalized text of all groups from position `i` on, given the
/// running cursor `(cx, cy)` — or the first fatal error.  Every emitted
/// group carries one trailing space.
pub open spec fn spec_normalize(s: Seq<char>, i: int, cx: int, cy: int) -> Result<
    Seq<char>,
    NormalizeError,
>
    decreases s.len() - i,
    via spec_normalize_dec
{
    let gs = spec_group_start(s, i);
    if !(0 <= gs < s.len()) {
        Ok(Seq::empty())
    } else {
        let ge = spec_group_end(s, gs);
        let c = s[gs];
        if c == 'm' || c == 'M' || c == 'l' || c == 'L' {
            match spec_pair(s, gs + 1, ge) {
                Err(e) => Err(e),
                Ok((x, y)) => {
                    let nx = if c == 'm' || c == 'l' {
                        cx + x
                    } else {
                        x
                    };
                    let ny = if c == 'm' || c == 'l' {
                        cy + y
                    } else {
                        y
                    };
                    if !(in_coord_range(nx) && in_coord_range(ny)) {
                        Err(NormalizeError::OutOfRange)
                    } else {
                        match spec_normalize(s, ge, nx, ny) {
                            Err(e) => Err(e),
                            Ok(rest) => Ok(
                                emit_pair(
                                    if c == 'm' || c == 'M' {
                                        'M'
                                    } else {
                                        'L'
                                    },
                                    nx,
                                    ny,
                                ) + rest,
                            ),
                        }
                    }
                },
            }
        } else if c == 'c' || c == 'C' {
            match spec_six(s, gs + 1, ge) {
                Err(e) => Err(e),
                Ok((x1, y1, x2, y2, x, y)) => {
                    let nx = if c == 'c' {
                        cx + x
                    } else {
                        x
                    };
                    let ny = if c == 'c' {
                        cy + y
                    } else {
                        y
                    };
                    if !(in_coord_range(nx) && in_coord_range(ny)) {
                        Err(NormalizeError::OutOfRange)
                    } else {
                        match spec_normalize(s, ge, nx, ny) {
                            Err(e) => Err(e),
                            Ok(rest) => Ok(emit_cubic(x1, y1, x2, y2, nx, ny) + rest),
                        }
                    }
                },
            }
        } else if c == 'z' || c == 'Z' {
            match spec_normalize(s, ge, 0, 0) {
                Err(e) => Err(e),
                Ok(rest) => Ok(seq!['Z', ' '] + rest),
            }
        } else {
            spec_normalize(s, ge, cx, cy)
        }
    }
}

/// `spec_group_start` stays within `[i, len]` and lands on a non-space.
pub proof fn lemma_group_start_range(s: Seq<char>, i: int)
    requires
        0 <= i <= s.len(),
    ensures
        i <= spec_group_start(s, i) <= s.len(),
        spec_group_start(s, i) < s.len() ==> !is_space(s[spec_group_start(s, i)]),
    decreases s.len() - i,
{
    if 0 <= i < s.len() && is_space(s[i]) {
        lemma_group_start_range(s, i + 1);
    }
}

/// `spec_group_end` stays within `[i, len]`.
pub proof fn lemma_group_end_range(s: Seq<char>, i: int)
    requires
        0 <= i <= s.len(),
    ensures
        i <= spec_group_end(s, i) <= s.len(),
    decreases s.len() - i,
{
    if 0 <= i < s.len() && !is_space(s[i]) {
        lemma_group_end_range(s, i + 1);
    }
}

#[via_fn]
proof fn spec_normalize_dec(s: Seq<char>, i: int, cx: int, cy: int) {
    if 0 <= i <= s.len() {
        lemma_group_start_range(s, i);
        let gs = spec_group_start(s, i);
        if 0 <= gs < s.len() {
            lemma_group_end_range(s, gs + 1);
            assert(spec_group_end(s, gs) == spec_group_end(s, gs + 1));
        }
    } else {
        if i < 0 {
            assert(spec_group_start(s, i) == i);
        }
    }
}

/// The full conversion: the normalized groups with the single trailing
/// space removed, or the first fatal error.
pub open spec fn spec_convert(s: Seq<char>) -> Result<Seq<char>, NormalizeError> {
    match spec_normalize(s, 0, 0, 0) {
        Err(e) => Err(e),
        Ok(g) => Ok(
            if g.len() > 0 {
                g.drop_last()
            } else {
                g
            },
        ),
    }
}

/// `r` with `pre` prepended to its text when it is a success.
pub open spec fn spec_prepend(pre: Seq<char>, r: Result<Seq<char>, NormalizeError>) -> Result<
    Seq<char>,
    NormalizeError,
> {
    match r {
        Ok(t) => Ok(pre + t),
        Err(e) => Err(e),
    }
}

/// Prepending nothing changes nothing.
proof fn lemma_prepend_empty(r: Result<Seq<char>, NormalizeError>)
    ensures
        spec_prepend(Seq::empty(), r) == r,
{
    match r {
        Ok(t) => {
            assert(Seq::empty() + t =~= t);
        },
        Err(_) => {},
    }
}

/// Prepending twice is prepending the concatenation.
proof fn lemma_prepend_chain(a: Seq<char>, b: Seq<char>, r: Result<Seq<char>, NormalizeError>)
    ensures
        spec_prepend(a, spec_prepend(b, r)) == spec_prepend(a + b, r),
{
    match r {
        Ok(t) => {
            assert(a + (b + t) =~= (a + b) + t);
        },
        Err(_) => {},
    }
}

/// Read one coordinate pair of a group: the field before the first comma
/// and everything after it.  Any failure is fatal.
pub fn parse_coords(s: &str, from: usize, to: usize) -> (r: Result<(Fixed, Fixed), NormalizeError>)
    requires
        from <= to <= s@.len(),
    ensures
        match r {
            Ok(p) => spec_pair(s@, from as int, to as int) == Ok::<_, NormalizeError>((p.0@, p.1@)),
            Err(e) => spec_pair(s@, from as int, to as int) == Err::<(int, int), _>(e),
        },
{
    let d = comma_pos(s, from, to);
    let x = match parse_decimal(s, from, d) {
        Ok(v) => v,
        Err(e) => {
            return Err(e);
        },
    };
    let yfrom = if d < to {
        d + 1
    } else {
        to
    };
    let y = match parse_decimal(s, yfrom, to) {
        Ok(v) => v,
        Err(e) => {
            return Err(e);
        },
    };
    Ok((x, y))
}

/// Read the six coordinates of a cubic group: five comma-terminated
/// fields, then the rest of the group.  Any failure is fatal.
pub fn parse_cubic_bezier(s: &str, from: usize, to: usize) -> (r: Result<
    (Fixed, Fixed, Fixed, Fixed, Fixed, Fixed),
    NormalizeError,
>)
    requires
        from <= to <= s@.len(),
    ensures
        match r {
            Ok(p) => spec_six(s@, from as int, to as int) == Ok::<_, NormalizeError>(
                (p.0@, p.1@, p.2@, p.3@, p.4@, p.5@),
            ),
            Err(e) => spec_six(s@, from as int, to as int) == Err::<
                (int, int, int, int, int, int),
                _,
            >(e),
        },
{
    let d1 = comma_pos(s, from, to);
    let x1 = match parse_decimal(s, from, d1) {
        Ok(v) => v,
        Err(e) => {
            return Err(e);
        },
    };
    let b2 = if d1 < to {
        d1 + 1
    } else {
        to
    };
    let d2 = comma_pos(s, b2, to);
    let y1 = match parse_decimal(s, b2, d2) {
        Ok(v) => v,
        Err(e) => {
            return Err(e);
        },
    };
    let b3 = if d2 < to {
        d2 + 1
    } else {
        to
    };
    let d3 = comma_pos(s, b3, to);
    let x2 = match parse_decimal(s, b3, d3) {
        Ok(v) => v,
        Err(e) => {
            return Err(e);
        },
    };
    let b4 = if d3 < to {
        d3 + 1
    } else {
        to
    };
    let d4 = comma_pos(s, b4, to);
    let y2 = match parse_decimal(s, b4, d4) {
        Ok(v) => v,
        Err(e) => {
            return Err(e);
        },
    };
    let b5 = if d4 < to {
        d4 + 1
    } else {
        to
    };
    let d5 = comma_pos(s, b5, to);
    let x = match parse_decimal(s, b5, d5) {
        Ok(v) => v,
        Err(e) => {
            return Err(e);
        },
    };
    let b6 = if d5 < to {
        d5 + 1
    } else {
        to
    };
    let y = match parse_decimal(s, b6, to) {
        Ok(v) => v,
        Err(e) => {
            return Err(e);
        },
    };
    Ok((x1, y1, x2, y2, x, y))
}


/// Append the text of one pair command to `out`.
fn emit_pair_out(out: &mut Vec<char>, letter: char, x: Fixed, y: Fixed)
    ensures
        final (out)@ == old(out)@ + emit_pair(letter, x@, y@),
{
    out.push(letter);
    push_fixed_chars(out, x);
    out.push(',');
    push_fixed_chars(out, y);
    out.push(' ');
    assert(out@ =~= old(out)@ + emit_pair(letter, x@, y@));
}

/// Append the text of one absolute cubic command to `out`.
fn emit_cubic_out(out: &mut Vec<char>, x1: Fixed, y1: Fixed, x2: Fixed, y2: Fixed, x: Fixed, y: Fixed)
    ensures
        final (out)@ == old(out)@ + emit_cubic(x1@, y1@, x2@, y2@, x@, y@),
{
    out.push('C');
    push_fixed_chars(out, x1);
    out.push(',');
    push_fixed_chars(out, y1);
    out.push(' ');
    push_fixed_chars(out, x2);
    out.push(',');
    push_fixed_chars(out, y2);
    out.push(' ');
    push_fixed_chars(out, x);
    out.push(',');
    push_fixed_chars(out, y);
    out.push(' ');
    assert(out@ =~= old(out)@ + emit_cubic(x1@, y1@, x2@, y2@, x@, y@));
}

/// Handle one move or line group: read the pair, update the cursor, and
/// append the absolute command text.  States exactly the one-group unfold
/// of `spec_normalize`.
fn handle_pair_group(
    path_d: &str,
    gs: usize,
    ge: usize,
    c: char,
    cx: &mut Fixed,
    cy: &mut Fixed,
    out: &mut Vec<char>,
) -> (r: Result<(), NormalizeError>)
    requires
        gs < ge <= path_d@.len(),
        c == path_d@[gs as int],
        c == 'm' || c == 'M' || c == 'l' || c == 'L',
        spec_group_start(path_d@, gs as int) == gs as int,
        spec_group_end(path_d@, gs as int) == ge as int,
        in_coord_range(old(cx)@) && in_coord_range(old(cy)@),
    ensures
        in_coord_range(final (cx)@) && in_coord_range(final (cy)@),
        match r {
            Ok(_) => {
                &&& old(out)@.len() <= final (out)@.len()
                &&& final (out)@.subrange(0, old(out)@.len() as int) == old(out)@
                &&& spec_normalize(path_d@, gs as int, old(cx)@, old(cy)@) == spec_prepend(
                    final (out)@.subrange(old(out)@.len() as int, final (out)@.len() as int),
                    spec_normalize(path_d@, ge as int, final (cx)@, final (cy)@),
                )
            },
            Err(e) => spec_normalize(path_d@, gs as int, old(cx)@, old(cy)@) == Err::<
                Seq<char>,
                _,
            >(e),
        },
{
    let ghost sv = path_d@;
    let ghost out0 = out@;
    let (x, y) = match parse_coords(path_d, gs + 1, ge) {
        Ok(p) => p,
        Err(e) => {
            return Err(e);
        },
    };
    let nx = if c == 'm' || c == 'l' {
        cx.add(x)
    } else {
        x
    };
    let ny = if c == 'm' || c == 'l' {
        cy.add(y)
    } else {
        y
    };
    if nx.scaled > COORD_LIMIT || nx.scaled < -COORD_LIMIT || ny.scaled > COORD_LIMIT
        || ny.scaled < -COORD_LIMIT {
        return Err(NormalizeError::OutOfRange);
    }
    *cx = nx;
    *cy = ny;
    let letter = if c == 'm' || c == 'M' {
        'M'
    } else {
        'L'
    };
    emit_pair_out(out, letter, nx, ny);
    proof {
        assert(spec_normalize(sv, gs as int, old(cx)@, old(cy)@) == spec_prepend(
            emit_pair(letter, nx@, ny@),
            spec_normalize(sv, ge as int, nx@, ny@),
        ));
        assert(out@.subrange(0, out0.len() as int) =~= out0);
        assert(out@.subrange(out0.len() as int, out@.len() as int) =~= emit_pair(
            letter,
            nx@,
            ny@,
        ));
    }
    Ok(())
}

/// Handle one cubic group: read the six coordinates, shift only the
/// endpoint when relative, and append the absolute command text.
fn handle_cubic_group(
    path_d: &str,
    gs: usize,
    ge: usize,
    c: char,
    cx: &mut Fixed,
    cy: &mut Fixed,
    out: &mut Vec<char>,
) -> (r: Result<(), NormalizeError>)
    requires
        gs < ge <= path_d@.len(),
        c == path_d@[gs as int],
        c == 'c' || c == 'C',
        spec_group_start(path_d@, gs as int) == gs as int,
        spec_group_end(path_d@, gs as int) == ge as int,
        in_coord_range(old(cx)@) && in_coord_range(old(cy)@),
    ensures
        in_coord_range(final (cx)@) && in_coord_range(final (cy)@),
        match r {
            Ok(_) => {
                &&& old(out)@.len() <= final (out)@.len()
                &&& final (out)@.subrange(0, old(out)@.len() as int) == old(out)@
                &&& spec_normalize(path_d@, gs as int, old(cx)@, old(cy)@) == spec_prepend(
                    final (out)@.subrange(old(out)@.len() as int, final (out)@.len() as int),
                    spec_normalize(path_d@, ge as int, final (cx)@, final (cy)@),
                )
            },
            Err(e) => spec_normalize(path_d@, gs as int, old(cx)@, old(cy)@) == Err::<
                Seq<char>,
                _,
            >(e),
        },
{
    let ghost sv = path_d@;
    let ghost out0 = out@;
    let (x1, y1, x2, y2, x, y) = match parse_cubic_bezier(path_d, gs + 1, ge) {
        Ok(p) => p,
        Err(e) => {
            return Err(e);
        },
    };
    let nx = if c == 'c' {
        cx.add(x)
    } else {
        x
    };
    let ny = if c == 'c' {
        cy.add(y)
    } else {
        y
    };
    if nx.scaled > COORD_LIMIT || nx.scaled < -COORD_LIMIT || ny.scaled > COORD_LIMIT
        || ny.scaled < -COORD_LIMIT {
        return Err(NormalizeError::OutOfRange);
    }
    *cx = nx;
    *cy = ny;
    emit_cubic_out(out, x1, y1, x2, y2, nx, ny);
    proof {
        assert(spec_normalize(sv, gs as int, old(cx)@, old(cy)@) == spec_prepend(
            emit_cubic(x1@, y1@, x2@, y2@, nx@, ny@),
            spec_normalize(sv, ge as int, nx@, ny@),
        ));
        assert(out@.subrange(0, out0.len() as int) =~= out0);
        assert(out@.subrange(out0.len() as int, out@.len() as int) =~= emit_cubic(
            x1@,
            y1@,
            x2@,
            y2@,
            nx@,
            ny@,
        ));
    }
    Ok(())
}

/// Rewrite a path-data string so that every supported command is
/// absolute: `spec_convert` states the exact output text, or the exact
/// error, for every input.
#[verifier::rlimit(100)]
pub fn convert_relative_to_absolute(path_d: &str) -> (r: Result<String, NormalizeError>)
    ensures
        match r {
            Ok(t) => spec_convert(path_d@) == Ok::<_, NormalizeError>(t@),
            Err(e) => spec_convert(path_d@) == Err::<Seq<char>, _>(e),
        },
{
    let ghost sv = path_d@;
    let len = path_d.unicode_len();
    let mut out: Vec<char> = Vec::new();
    let mut cx = Fixed { scaled: 0 };
    let mut cy = Fixed { scaled: 0 };
    let mut gs = group_start(path_d, 0, len);
    proof {
        lemma_prepend_empty(spec_normalize(sv, 0, 0, 0));
        assert(spec_normalize(sv, gs as int, 0, 0) == spec_normalize(sv, 0, 0, 0));
    }
    while gs < len
        invariant
            gs <= len,
            len == sv.len(),
            sv == path_d@,
            gs < len ==> !is_space(sv[gs as int]),
            in_coord_range(cx@) && in_coord_range(cy@),
            spec_normalize(sv, 0, 0, 0) == spec_prepend(
                out@,
                spec_normalize(sv, gs as int, cx@, cy@),
            ),
        decreases len - gs,
    {
        let ghost out0 = out@;
        let ghost gs0 = gs as int;
        let ghost cx0 = cx@;
        let ghost cy0 = cy@;
        proof {
            assert(spec_group_start(sv, gs0) == gs0);
        }
        let ge = group_end(path_d, gs, len);
        proof {
            lemma_group_end_range(sv, gs0 + 1);
            assert(ge as int == spec_group_end(sv, gs0 + 1));
            assert(gs + 1 <= ge);
        }
        let c = path_d.get_char(gs);
        if c == 'm' || c == 'M' || c == 'l' || c == 'L' {
            match handle_pair_group(path_d, gs, ge, c, &mut cx, &mut cy, &mut out) {
                Ok(_) => {},
                Err(e) => {
                    return Err(e);
                },
            }
            proof {
                lemma_prepend_chain(
                    out0,
                    out@.subrange(out0.len() as int, out@.len() as int),
                    spec_normalize(sv, ge as int, cx@, cy@),
                );
                assert(out@ =~= out0 + out@.subrange(out0.len() as int, out@.len() as int));
            }
        } else if c == 'c' || c == 'C' {
            match handle_cubic_group(path_d, gs, ge, c, &mut cx, &mut cy, &mut out) {
                Ok(_) => {},
                Err(e) => {
                    return Err(e);
                },
            }
            proof {
                lemma_prepend_chain(
                    out0,
                    out@.subrange(out0.len() as int, out@.len() as int),
                    spec_normalize(sv, ge as int, cx@, cy@),
                );
                assert(out@ =~= out0 + out@.subrange(out0.len() as int, out@.len() as int));
            }
        } else if c == 'z' || c == 'Z' {
            cx = Fixed { scaled: 0 };
            cy = Fixed { scaled: 0 };
            out.push('Z');
            out.push(' ');
            proof {
                assert(out@ =~= out0 + seq!['Z', ' ']);
                assert(spec_normalize(sv, gs0, cx0, cy0) == spec_prepend(
                    seq!['Z', ' '],
                    spec_normalize(sv, ge as int, 0, 0),
                ));
                lemma_prepend_chain(out0, seq!['Z', ' '], spec_normalize(sv, ge as int, 0, 0));
            }
        } else {
            proof {
                assert(spec_normalize(sv, gs0, cx0, cy0) == spec_normalize(
                    sv,
                    ge as int,
                    cx0,
                    cy0,
                ));
            }
        }
        gs = group_start(path_d, ge, len);
        proof {
            assert(spec_normalize(sv, ge as int, cx@, cy@) == spec_normalize(
                sv,
                gs as int,
                cx@,
                cy@,
            ));
        }
    }
    proof {
        assert(spec_normalize(sv, gs as int, cx@, cy@) == Ok::<_, NormalizeError>(
            Seq::<char>::empty(),
        ));
        assert(out@ + Seq::<char>::empty() =~= out@);
    }
    if out.len() > 0 {
        let ghost before = out@;
        out.pop();
        proof {
            assert(out@ =~= before.drop_last());
        }
    }
    Ok(chars_to_string(&out))
}

} // verus!
