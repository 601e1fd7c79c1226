//! The tolerant path parser.
//!
//! The parser scans the character stream once.  A recognised command letter
//! consumes the letter and then the fixed number of coordinates of that
//! command; any other character is consumed and discarded.  Coordinate
//! scanning skips whitespace and commas, takes an optional sign and then a
//! run of digits and dots, and substitutes zero when that token is not a
//! readable number.  `spec_parse_path` states the exact command sequence of
//! any input.

use vstd::prelude::*;

use crate::commands::{cmd_within, PathCommand, SpecCommand};
use crate::fixed::{in_coord_range, Fixed, COORD_LIMIT};
use crate::scan::{
    lenient_value, num_end, parse_decimal, skip_seps, spec_num_end, spec_skip_seps,
};

verus! {

/// Where the coordinate token beginning at `pos` starts: after any
/// whitespace and commas.
pub open spec fn coord_start(s: Seq<char>, pos: int) -> int {
    spec_skip_seps(s, pos)
}

/// Where the digit run of that token starts: after an optional sign.
pub open spec fn coord_body(s: Seq<char>, pos: int) -> int {
    let st = spec_skip_seps(s, pos);
    if 0 <= st < s.len() && (s[st] == '-' || s[st] == '+') {
        st + 1
    } else {
        st
    }
}

/// Where the coordinate token beginning at `pos` ends.
pub open spec fn coord_end(s: Seq<char>, pos: int) -> int {
    spec_num_end(s, coord_body(s, pos))
}

/// The value of the coordinate token beginning at `pos`, zero when the
/// token is unreadable.
pub open spec fn coord_value(s: Seq<char>, pos: int) -> int {
    lenient_value(s, coord_start(s, pos), coord_end(s, pos))
}

/// `spec_skip_seps` stays within `[i, len]`.
pub proof fn lemma_skip_seps_range(s: Seq<char>, i: int)
    requires
        0 <= i <= s.len(),
    ensures
        i <= spec_skip_seps(s, i) <= s.len(),
    decreases s.len() - i,
{
    if 0 <= i < s.len() {
        lemma_skip_seps_range(s, i + 1);
    }
}

/// `spec_num_end` stays within `[i, len]`.
pub proof fn lemma_num_end_range(s: Seq<char>, i: int)
    requires
        0 <= i <= s.len(),
    ensures
        i <= spec_num_end(s, i) <= s.len(),
    decreases s.len() - i,
{
    if 0 <= i < s.len() {
        lemma_num_end_range(s, i + 1);
    }
}

/// A coordinate token never reaches back before `pos` nor past the end.
pub proof fn lemma_coord_end_range(s: Seq<char>, pos: int)
    requires
        0 <= pos <= s.len(),
    ensures
        pos <= coord_end(s, pos) <= s.len(),
{
    lemma_skip_seps_range(s, pos);
    lemma_num_end_range(s, coord_body(s, pos));
}

/// The command sequence that scanning `s` from position `i` yields.
pub open spec fn spec_parse_path(s: Seq<char>, i: int) -> Seq<SpecCommand>
    decreases s.len() - i,
    via spec_parse_path_dec
{
    if i < 0 || i >= s.len() {
        Seq::empty()
    } else {
        let c = s[i];
        if c == 'M' || c == 'm' || c == 'L' || c == 'l' {
            let x = coord_value(s, i + 1);
            let p1 = coord_end(s, i + 1);
            let y = coord_value(s, p1);
            let p2 = coord_end(s, p1);
            let cmd = if c == 'M' || c == 'm' {
                SpecCommand::MoveTo { x, y }
            } else {
                SpecCommand::LineTo { x, y }
            };
            seq![cmd] + spec_parse_path(s, p2)
        } else if c == 'C' || c == 'c' {
            let x1 = coord_value(s, i + 1);
            let p1 = coord_end(s, i + 1);
            let y1 = coord_value(s, p1);
            let p2 = coord_end(s, p1);
            let x2 = coord_value(s, p2);
            let p3 = coord_end(s, p2);
            let y2 = coord_value(s, p3);
            let p4 = coord_end(s, p3);
            let x = coord_value(s, p4);
            let p5 = coord_end(s, p4);
            let y = coord_value(s, p5);
            let p6 = coord_end(s, p5);
            seq![SpecCommand::CubicBezier { x1, y1, x2, y2, x, y }] + spec_parse_path(s, p6)
        } else if c == 'S' || c == 's' {
            let x2 = coord_value(s, i + 1);
            let p1 = coord_end(s, i + 1);
            let y2 = coord_value(s, p1);
            let p2 = coord_end(s, p1);
            let x = coord_value(s, p2);
            let p3 = coord_end(s, p2);
            let y = coord_value(s, p3);
            let p4 = coord_end(s, p3);
            seq![SpecCommand::SmoothCubicBezier { x2, y2, x, y }] + spec_parse_path(s, p4)
        } else if c == 'Z' || c == 'z' {
            seq![SpecCommand::ClosePath] + spec_parse_path(s, i + 1)
        } else {
            spec_parse_path(s, i + 1)
        }
    }
}

#[via_fn]
proof fn spec_parse_path_dec(s: Seq<char>, i: int) {
    if 0 <= i < s.len() {
        lemma_coord_end_range(s, i + 1);
        let p1 = coord_end(s, i + 1);
        lemma_coord_end_range(s, p1);
        let p2 = coord_end(s, p1);
        lemma_coord_end_range(s, p2);
        let p3 = coord_end(s, p2);
        lemma_coord_end_range(s, p3);
        let p4 = coord_end(s, p3);
        lemma_coord_end_range(s, p4);
        let p5 = coord_end(s, p4);
        lemma_coord_end_range(s, p5);
    }
}

/// Scan one coordinate: skip whitespace and commas, take an optional sign
/// and a run of digits and dots, and read it tolerantly.  Returns the
/// value and the position after the token.
pub fn parse_coordinate_with_comma(s: &str, pos: usize, len: usize) -> (r: (Fixed, usize))
    requires
        pos <= len,
        len == s@.len(),
    ensures
        r.0@ == coord_value(s@, pos as int),
        in_coord_range(r.0@),
        r.1 as int == coord_end(s@, pos as int),
        pos <= r.1 <= len,
{
    let start = skip_seps(s, pos, len);
    let mut body = start;
    if body < len {
        let c = s.get_char(body);
        if c == '-' || c == '+' {
            body = body + 1;
        }
    }
    let e = num_end(s, body, len);
    match parse_decimal(s, start, e) {
        Ok(f) => (f, e),
        Err(_) => (Fixed { scaled: 0 }, e),
    }
}

/// Parse a whole path-data string into its command sequence.
pub fn parse_path(path_data: &str) -> (r: Vec<PathCommand>)
    ensures
        r@.map_values(|c: PathCommand| c@) == spec_parse_path(path_data@, 0),
        forall|j: int| 0 <= j < r@.len() ==> cmd_within(#[trigger] r@[j]@, COORD_LIMIT as int),
{
    let ghost sv = path_data@;
    let len = path_data.unicode_len();
    let mut commands: Vec<PathCommand> = Vec::new();
    let ghost mut done: Seq<SpecCommand> = Seq::empty();
    let mut i: usize = 0;
    proof {
        assert(done + spec_parse_path(sv, 0) =~= spec_parse_path(sv, 0));
    }
    while i < len
        invariant
            i <= len,
            len == sv.len(),
            sv == path_data@,
            spec_parse_path(sv, 0) == done + spec_parse_path(sv, i as int),
            commands@.len() == done.len(),
            forall|j: int| 0 <= j < done.len() ==> (#[trigger] commands@[j])@ == done[j],
            forall|j: int|
                0 <= j < commands@.len() ==> cmd_within(#[trigger] commands@[j]@, COORD_LIMIT as int),
        decreases len - i,
    {
        let c = path_data.get_char(i);
        let ghost i0 = i as int;
        if c == 'M' || c == 'm' || c == 'L' || c == 'l' {
            let (x, p1) = parse_coordinate_with_comma(path_data, i + 1, len);
            let (y, p2) = parse_coordinate_with_comma(path_data, p1, len);
            let cmd = if c == 'M' || c == 'm' {
                PathCommand::MoveTo { x, y }
            } else {
                PathCommand::LineTo { x, y }
            };
            commands.push(cmd);
            proof {
                done = done + seq![cmd@];
                assert(done + spec_parse_path(sv, p2 as int) =~= (done.drop_last()
                    + spec_parse_path(sv, i0)));
            }
            i = p2;
        } else if c == 'C' || c == 'c' {
            let (x1, p1) = parse_coordinate_with_comma(path_data, i + 1, len);
            let (y1, p2) = parse_coordinate_with_comma(path_data, p1, len);
            let (x2, p3) = parse_coordinate_with_comma(path_data, p2, len);
            let (y2, p4) = parse_coordinate_with_comma(path_data, p3, len);
            let (x, p5) = parse_coordinate_with_comma(path_data, p4, len);
            let (y, p6) = parse_coordinate_with_comma(path_data, p5, len);
            let cmd = PathCommand::CubicBezier { x1, y1, x2, y2, x, y };
            commands.push(cmd);
            proof {
                done = done + seq![cmd@];
                assert(done + spec_parse_path(sv, p6 as int) =~= (done.drop_last()
                    + spec_parse_path(sv, i0)));
            }
            i = p6;
        } else if c == 'S' || c == 's' {
            let (x2, p1) = parse_coordinate_with_comma(path_data, i + 1, len);
            let (y2, p2) = parse_coordinate_with_comma(path_data, p1, len);
            let (x, p3) = parse_coordinate_with_comma(path_data, p2, len);
            let (y, p4) = parse_coordinate_with_comma(path_data, p3, len);
            let cmd = PathCommand::SmoothCubicBezier { x2, y2, x, y };
            commands.push(cmd);
            proof {
                done = done + seq![cmd@];
                assert(done + spec_parse_path(sv, p4 as int) =~= (done.drop_last()
                    + spec_parse_path(sv, i0)));
            }
            i = p4;
        } else if c == 'Z' || c == 'z' {
            let cmd = PathCommand::ClosePath;
            commands.push(cmd);
            proof {
                done = done + seq![cmd@];
                assert(done + spec_parse_path(sv, i0 + 1) =~= (done.drop_last()
                    + spec_parse_path(sv, i0)));
            }
            i = i + 1;
        } else {
            i = i + 1;
        }
    }
    proof {
        assert(spec_parse_path(sv, len as int) =~= Seq::<SpecCommand>::empty());
        assert(done + Seq::<SpecCommand>::empty() =~= done);
        assert(commands@.map_values(|c: PathCommand| c@) =~= done);
    }
    commands
}

} // verus!
