//! The curve flattener.
//!
//! A `PathFlattener` walks a command sequence while maintaining the current
//! point and the last cubic control point, and emits the sampled points of
//! every segment.  Its whole behaviour is specified by `spec_step`: the
//! exact points emitted for one command and the exact state after it.

use vstd::arithmetic::div_mod::lemma_fundamental_div_mod_converse;
use vstd::prelude::*;

use crate::bezier::{bez_coord, eval_coord};
use crate::commands::{cmd_within, PathCommand, Point, SpecCommand};
use crate::fixed::{in_coord_range, in_work_range, Fixed, COORD_LIMIT, SCALE};

verus! {

/// The mathematical state of one flattening pass.
pub struct FlatState {
    pub cur: (int, int),
    pub lcp: Option<(int, int)>,
}

/// The sampled point of the cubic with control points `p0 .. p3` at
/// parameter `t`.
pub open spec fn bez_point(
    t: int,
    p0: (int, int),
    p1: (int, int),
    p2: (int, int),
    p3: (int, int),
) -> (int, int) {
    (bez_coord(t, p0.0, p1.0, p2.0, p3.0), bez_coord(t, p0.1, p1.1, p2.1, p3.1))
}

/// All points one cubic segment emits: the samples at `t = 0, r, 2r, ...`
/// while `t <= SCALE`, followed by the exact endpoint.
pub open spec fn spec_curve_points(
    r: int,
    p0: (int, int),
    p1: (int, int),
    p2: (int, int),
    p3: (int, int),
) -> Seq<(int, int)> {
    Seq::new((SCALE as int / r + 1) as nat, |i: int| bez_point(i * r, p0, p1, p2, p3)).push(p3)
}

/// The synthetic first control point of a smooth cubic command: the last
/// control point reflected through the current point, or the current point
/// itself when no cubic has run yet.
pub open spec fn spec_reflected(st: FlatState) -> (int, int) {
    match st.lcp {
        Some(l) => (2 * st.cur.0 - l.0, 2 * st.cur.1 - l.1),
        None => st.cur,
    }
}

/// One step of the flattener: the state after `c` and the points `c`
/// emits, at resolution `r`.
pub open spec fn spec_step(st: FlatState, c: SpecCommand, r: int) -> (FlatState, Seq<(int, int)>) {
    match c {
        SpecCommand::MoveTo { x, y } => (
            FlatState { cur: (x, y), lcp: st.lcp },
            seq![(x, y)],
        ),
        SpecCommand::LineTo { x, y } => (
            FlatState { cur: (x, y), lcp: st.lcp },
            seq![(x, y)],
        ),
        SpecCommand::CubicBezier { x1, y1, x2, y2, x, y } => (
            FlatState { cur: (x, y), lcp: Some((x2, y2)) },
            spec_curve_points(r, st.cur, (x1, y1), (x2, y2), (x, y)),
        ),
        SpecCommand::SmoothCubicBezier { x2, y2, x, y } => (
            FlatState { cur: (x, y), lcp: Some((x2, y2)) },
            spec_curve_points(r, st.cur, spec_reflected(st), (x2, y2), (x, y)),
        ),
        SpecCommand::ClosePath => (st, Seq::empty()),
    }
}

/// The points emitted for `cmds[i ..]` starting from state `st`.
pub open spec fn spec_flatten_from(
    cmds: Seq<SpecCommand>,
    st: FlatState,
    r: int,
    i: int,
) -> Seq<(int, int)>
    decreases cmds.len() - i,
{
    if i < 0 || i >= cmds.len() {
        Seq::empty()
    } else {
        let (st2, pts) = spec_step(st, cmds[i], r);
        pts + spec_flatten_from(cmds, st2, r, i + 1)
    }
}

/// The flattener: resolution plus the running state of one pass.
pub struct PathFlattener {
    pub resolution: Fixed,
    pub current_point: Point,
    pub last_control_point: Option<Point>,
}

impl PathFlattener {
    /// The mathematical state of the pass.
    pub open spec fn state(&self) -> FlatState {
        FlatState {
            cur: self.current_point@,
            lcp: match self.last_control_point {
                Some(p) => Some(p@),
                None => None,
            },
        }
    }

    /// Every coordinate of the state is a parsed-range value and the
    /// resolution is a positive step of at most one unit.
    pub open spec fn wf(&self) -> bool {
        &&& 1 <= self.resolution@ <= SCALE as int
        &&& in_coord_range(self.current_point@.0)
        &&& in_coord_range(self.current_point@.1)
        &&& match self.last_control_point {
            Some(p) => in_coord_range(p@.0) && in_coord_range(p@.1),
            None => true,
        }
    }

    /// A fresh pass: cursor at the origin, no pending control point.
    pub fn new(resolution: Fixed) -> (r: PathFlattener)
        requires
            1 <= resolution@ <= SCALE as int,
        ensures
            r.wf(),
            r.resolution == resolution,
            r.state() == (FlatState { cur: (0, 0), lcp: None::<(int, int)> }),
    {
        PathFlattener {
            resolution,
            current_point: Point { x: Fixed { scaled: 0 }, y: Fixed { scaled: 0 } },
            last_control_point: None,
        }
    }

    /// One coordinate pair of the cubic Bezier through `p0 .. p3` at
    /// parameter `t`.
    pub fn cubic_bezier(&self, t: i64, p0: Point, p1: Point, p2: Point, p3: Point) -> (r: Point)
        requires
            0 <= t as int <= SCALE as int,
            in_work_range(p0@.0) && in_work_range(p0@.1),
            in_work_range(p1@.0) && in_work_range(p1@.1),
            in_work_range(p2@.0) && in_work_range(p2@.1),
            in_work_range(p3@.0) && in_work_range(p3@.1),
        ensures
            r@ == bez_point(t as int, p0@, p1@, p2@, p3@),
    {
        let x = eval_coord(t, p0.x.scaled, p1.x.scaled, p2.x.scaled, p3.x.scaled);
        let y = eval_coord(t, p0.y.scaled, p1.y.scaled, p2.y.scaled, p3.y.scaled);
        Point { x: Fixed { scaled: x }, y: Fixed { scaled: y } }
    }

    /// Sample one cubic segment: push `B(0), B(r), ...` while the
    /// parameter stays within one unit, then push the exact endpoint.
    fn push_curve_points(&self, p0: Point, p1: Point, p2: Point, p3: Point, out: &mut Vec<Point>)
        requires
            1 <= self.resolution@ <= SCALE as int,
            in_work_range(p0@.0) && in_work_range(p0@.1),
            in_work_range(p1@.0) && in_work_range(p1@.1),
            in_work_range(p2@.0) && in_work_range(p2@.1),
            in_work_range(p3@.0) && in_work_range(p3@.1),
        ensures
            final (out)@.map_values(|p: Point| p@) == old(out)@.map_values(|p: Point| p@)
                + spec_curve_points(self.resolution@, p0@, p1@, p2@, p3@),
    {
        let r = self.resolution.scaled;
        let mut t: i64 = 0;
        let ghost mut k: int = 0;
        let ghost bvec = out@;
        while t <= SCALE
            invariant
                1 <= r as int <= SCALE as int,
                in_work_range(p0@.0) && in_work_range(p0@.1),
                in_work_range(p1@.0) && in_work_range(p1@.1),
                in_work_range(p2@.0) && in_work_range(p2@.1),
                in_work_range(p3@.0) && in_work_range(p3@.1),
                k >= 0,
                t as int == k * r as int,
                k >= 1 ==> (k - 1) * r as int <= SCALE as int,
                out@.len() == bvec.len() + k,
                forall|j: int| 0 <= j < bvec.len() ==> out@[j] == bvec[j],
                forall|j: int|
                    0 <= j < k ==> (#[trigger] out@[bvec.len() + j])@ == bez_point(
                        j * (r as int),
                        p0@,
                        p1@,
                        p2@,
                        p3@,
                    ),
            decreases SCALE as int + r as int - t as int,
        {
            let p = self.cubic_bezier(t, p0, p1, p2, p3);
            out.push(p);
            proof {
                assert((k + 1) * r as int == k * r as int + r as int) by (nonlinear_arith);
                k = k + 1;
            }
            t = t + r;
        }
        proof {
            assert(k >= 1);
            assert(k * r as int == (k - 1) * r as int + r as int) by (nonlinear_arith);
            lemma_fundamental_div_mod_converse(
                SCALE as int,
                r as int,
                k - 1,
                SCALE as int - (k - 1) * r as int,
            );
            assert(k - 1 == SCALE as int / r as int);
        }
        let ghost cvec = out@;
        out.push(p3);
        proof {
            let m = out@.map_values(|p: Point| p@);
            let rhs = old(out)@.map_values(|p: Point| p@) + spec_curve_points(
                r as int,
                p0@,
                p1@,
                p2@,
                p3@,
            );
            assert(old(out)@ == bvec);
            assert(m.len() == rhs.len());
            assert forall|i: int| 0 <= i < m.len() implies m[i] == rhs[i] by {
                assert(m[i] == out@[i]@);
                if i < bvec.len() {
                    assert(out@[i] == bvec[i]);
                    assert(rhs[i] == bvec[i]@);
                } else if i < bvec.len() + k {
                    let j = i - bvec.len();
                    assert(out@[i] == cvec[bvec.len() + j]);
                    assert(cvec[bvec.len() + j]@ == bez_point(j * (r as int), p0@, p1@, p2@, p3@));
                    assert(rhs[i] == spec_curve_points(r as int, p0@, p1@, p2@, p3@)[i
                        - bvec.len()]);
                } else {
                    assert(out@[i] == p3);
                }
            }
            assert(m =~= rhs);
        }
    }

    /// Process one command: mutate the state as the command dictates and
    /// return exactly the points it emits.
    pub fn flatten_command(&mut self, cmd: &PathCommand) -> (segments: Vec<Point>)
        requires
            old(self).wf(),
            cmd_within(cmd@, COORD_LIMIT as int),
        ensures
            final (self).wf(),
            final (self).resolution == old(self).resolution,
            final (self).state() == spec_step(
                old(self).state(),
                cmd@,
                old(self).resolution@,
            ).0,
            segments@.map_values(|p: Point| p@) == spec_step(
                old(self).state(),
                cmd@,
                old(self).resolution@,
            ).1,
    {
        let mut segments: Vec<Point> = Vec::new();
        match cmd {
            PathCommand::MoveTo { x, y } => {
                self.current_point = Point { x: *x, y: *y };
                segments.push(self.current_point);
            },
            PathCommand::LineTo { x, y } => {
                self.current_point = Point { x: *x, y: *y };
                segments.push(self.current_point);
            },
            PathCommand::CubicBezier { x1, y1, x2, y2, x, y } => {
                let start = self.current_point;
                let control1 = Point { x: *x1, y: *y1 };
                let control2 = Point { x: *x2, y: *y2 };
                let end = Point { x: *x, y: *y };
                self.push_curve_points(start, control1, control2, end, &mut segments);
                self.last_control_point = Some(control2);
                self.current_point = end;
            },
            PathCommand::SmoothCubicBezier { x2, y2, x, y } => {
                let start = self.current_point;
                let control1 = match self.last_control_point {
                    Some(last_cp) => Point {
                        x: start.x.reflect(last_cp.x),
                        y: start.y.reflect(last_cp.y),
                    },
                    None => start,
                };
                let control2 = Point { x: *x2, y: *y2 };
                let end = Point { x: *x, y: *y };
                self.push_curve_points(start, control1, control2, end, &mut segments);
                self.last_control_point = Some(control2);
                self.current_point = end;
            },
            PathCommand::ClosePath => {},
        }
        segments
    }
}

/// Parse a path-data string and flatten it in one pass, from a fresh
/// state: exactly the points of `spec_flatten_from` over the parsed
/// command sequence.
pub fn flatten_path(path_data: &str, resolution: Fixed) -> (r: Vec<Point>)
    requires
        1 <= resolution@ <= SCALE as int,
    ensures
        r@.map_values(|p: Point| p@) == spec_flatten_from(
            crate::parser::spec_parse_path(path_data@, 0),
            FlatState { cur: (0, 0), lcp: None::<(int, int)> },
            resolution@,
            0,
        ),
{
    let commands = crate::parser::parse_path(path_data);
    let mut flattener = PathFlattener::new(resolution);
    let mut points: Vec<Point> = Vec::new();
    let ghost cmds = commands@.map_values(|c: PathCommand| c@);
    let ghost st0 = FlatState { cur: (0, 0), lcp: None::<(int, int)> };
    let ghost mut emitted: Seq<(int, int)> = Seq::empty();
    let mut idx: usize = 0;
    proof {
        assert(emitted + spec_flatten_from(cmds, st0, resolution@, 0) =~= spec_flatten_from(
            cmds,
            st0,
            resolution@,
            0,
        ));
    }
    while idx < commands.len()
        invariant
            idx <= commands.len(),
            commands@.len() == cmds.len(),
            forall|j: int| 0 <= j < cmds.len() ==> (#[trigger] commands@[j])@ == cmds[j],
            forall|j: int| 0 <= j < cmds.len() ==> cmd_within(#[trigger] cmds[j], COORD_LIMIT as int),
            flattener.wf(),
            flattener.resolution == resolution,
            1 <= resolution@ <= SCALE as int,
            spec_flatten_from(cmds, st0, resolution@, 0) == emitted + spec_flatten_from(
                cmds,
                flattener.state(),
                resolution@,
                idx as int,
            ),
            points@.len() == emitted.len(),
            forall|j: int| 0 <= j < emitted.len() ==> (#[trigger] points@[j])@ == emitted[j],
        decreases commands.len() - idx,
    {
        let cmd = commands[idx];
        let ghost st_before = flattener.state();
        let mut segs = flattener.flatten_command(&cmd);
        let ghost segs_view = segs@;
        points.append(&mut segs);
        proof {
            let step = spec_step(st_before, cmds[idx as int], resolution@);
            let em0 = emitted;
            emitted = em0 + step.1;
            let tail = spec_flatten_from(cmds, flattener.state(), resolution@, idx as int + 1);
            assert(spec_flatten_from(cmds, st_before, resolution@, idx as int) == step.1 + tail);
            assert((em0 + step.1) + tail =~= em0 + (step.1 + tail));
            assert forall|j: int| 0 <= j < emitted.len() implies (#[trigger] points@[j])@
                == emitted[j] by {
                if j >= em0.len() {
                    let q = j - em0.len();
                    assert(points@[j] == segs_view[q]);
                    assert(segs_view.map_values(|p: Point| p@)[q] == step.1[q]);
                }
            }
        }
        idx = idx + 1;
    }
    proof {
        assert(spec_flatten_from(cmds, flattener.state(), resolution@, idx as int)
            =~= Seq::<(int, int)>::empty());
        assert(emitted + Seq::<(int, int)>::empty() =~= emitted);
        assert(points@.map_values(|p: Point| p@) =~= emitted);
    }
    points
}

} // verus!
