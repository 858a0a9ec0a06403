//! Walking the points of a contour: the edges to draw and the vertices.
use vstd::prelude::*;
use crate::font::glyf::GlyfFlag;
use crate::rasterizer::geometry::{add_points, divide_point, in_i16, sub_points, trunc_div};

verus! {

/// A point of a contour.
#[derive(Clone, Copy, Debug, PartialEq, Eq, Structural)]
pub struct ContourPoint {
    pub x: i16,
    pub y: i16,
    pub on_curve: bool,
}

/// An edge of a contour: a straight line between two points, or a quadratic
/// curve from a start point through a control point to an end point.
#[derive(Clone, Copy, Debug, PartialEq, Eq)]
pub enum Segment {
    Line((i16, i16), (i16, i16)),
    Curve((i16, i16), (i16, i16), (i16, i16)),
}

/// The point `index` of a contour, where the index just past the last point
/// is the first point again; `None` past that, or where one of the three
/// arrays has no entry.
pub open spec fn point_at(xs: Seq<i16>, ys: Seq<i16>, flags: Seq<GlyfFlag>, index: int) -> Option<
    ContourPoint,
> {
    let k = if index == xs.len() { 0 } else { index };
    if 0 <= k < xs.len() && k < ys.len() && k < flags.len() {
        Some(ContourPoint { x: xs[k], y: ys[k], on_curve: flags[k].on_curve })
    } else {
        None
    }
}

/// The point half way from `b` to `a`, `b + (a - b) / 2` rounded toward `b`;
/// `None` where `a - b` leaves the range of `i16`.
pub open spec fn midpoint(a: ContourPoint, b: ContourPoint) -> Option<(i16, i16)> {
    let dx = a.x - b.x;
    let dy = a.y - b.y;
    if !in_i16(dx) || !in_i16(dy) {
        None
    } else {
        Some(((b.x + trunc_div(dx, 2)) as i16, (b.y + trunc_div(dy, 2)) as i16))
    }
}

/// `w` with `segments` and `vertices` put in front.
pub open spec fn after_walk(
    segments: Seq<Segment>,
    vertices: Seq<ContourPoint>,
    w: Option<(Seq<Segment>, Seq<ContourPoint>)>,
) -> Option<(Seq<Segment>, Seq<ContourPoint>)> {
    match w {
        Some((s, v)) => Some((segments + s, vertices + v)),
        None => None,
    }
}

/// The edges and visited vertices of a contour from point `i` on; the walk
/// starts at `start` in place of point `i` when there is one.
///
/// From the current on-curve point the walk takes the next point: an
/// on-curve one makes a line; an off-curve one is the control point of a
/// curve that ends at the point after it, or, when that one is off-curve too,
/// at the midpoint of the two control points, where the walk goes on. The
/// walk ends when a point is missing; `None` when a midpoint overflows.
pub open spec fn walk_contour(
    xs: Seq<i16>,
    ys: Seq<i16>,
    flags: Seq<GlyfFlag>,
    i: int,
    start: Option<ContourPoint>,
) -> Option<(Seq<Segment>, Seq<ContourPoint>)>
    decreases xs.len() + 2 - i,
{
    let current = match start {
        Some(v) => Some(v),
        None => point_at(xs, ys, flags, i),
    };
    match current {
        None => Some((Seq::empty(), Seq::empty())),
        Some(p0) => match point_at(xs, ys, flags, i + 1) {
            None => Some((Seq::empty(), seq![p0])),
            Some(p1) => if p1.on_curve {
                after_walk(
                    seq![Segment::Line((p0.x, p0.y), (p1.x, p1.y))],
                    seq![p0],
                    walk_contour(xs, ys, flags, i + 1, None),
                )
            } else {
                match point_at(xs, ys, flags, i + 2) {
                    None => Some((Seq::empty(), seq![p0])),
                    Some(p2) => if !p2.on_curve {
                        match midpoint(p1, p2) {
                            None => None,
                            Some(m) => after_walk(
                                seq![Segment::Curve((p0.x, p0.y), (p1.x, p1.y), m)],
                                seq![p0],
                                walk_contour(
                                    xs,
                                    ys,
                                    flags,
                                    i + 1,
                                    Some(ContourPoint { x: m.0, y: m.1, on_curve: true }),
                                ),
                            ),
                        }
                    } else {
                        after_walk(
                            seq![Segment::Curve((p0.x, p0.y), (p1.x, p1.y), (p2.x, p2.y))],
                            seq![p0],
                            walk_contour(xs, ys, flags, i + 2, None),
                        )
                    },
                }
            },
        },
    }
}

/// The edges of a contour, and its vertices with the second one repeated at
/// the end so that every vertex has a predecessor and a successor; `None`
/// when a midpoint overflows or fewer than two vertices are visited.
pub open spec fn contour_outline_of(xs: Seq<i16>, ys: Seq<i16>, flags: Seq<GlyfFlag>) -> Option<
    (Seq<Segment>, Seq<ContourPoint>),
> {
    match walk_contour(xs, ys, flags, 0, None) {
        Some((segments, vertices)) => if vertices.len() >= 2 {
            Some((segments, vertices.push(vertices[1])))
        } else {
            None
        },
        None => None,
    }
}

/// The exec form of `point_at`, for the index `base + ahead`.
fn get_point(xs: &[i16], ys: &[i16], flags: &[GlyfFlag], base: usize, ahead: usize) -> (res: Option<
    ContourPoint,
>)
    ensures
        res == point_at(xs@, ys@, flags@, base + ahead),
{
    let len = xs.len();
    let index = match base.checked_add(ahead) {
        Some(v) => v,
        None => {
            return None;
        },
    };
    let k = if index == xs.len() { 0 } else { index };
    if k < xs.len() && k < ys.len() && k < flags.len() {
        Some(ContourPoint { x: xs[k], y: ys[k], on_curve: flags[k].on_curve })
    } else {
        None
    }
}

/// The exec form of `midpoint`.
fn midpoint_of(a: ContourPoint, b: ContourPoint) -> (res: Option<(i16, i16)>)
    ensures
        res == midpoint(a, b),
{
    let dx = a.x as i32 - b.x as i32;
    let dy = a.y as i32 - b.y as i32;
    if dx < -32768 || dx > 32767 || dy < -32768 || dy > 32767 {
        return None;
    }
    let d = sub_points((a.x, a.y), (b.x, b.y));
    let half = divide_point(d, 2);
    assert(in_i16(b.x + trunc_div(d.0 as int, 2)));
    assert(in_i16(b.y + trunc_div(d.1 as int, 2)));
    Some(add_points((b.x, b.y), half))
}

/// Walks the points of a contour; `None` where `contour_outline_of` has no
/// outline.
fn walk_outline(xs: &[i16], ys: &[i16], flags: &[GlyfFlag]) -> (res: Option<
    (Vec<Segment>, Vec<ContourPoint>),
>)
    ensures
        match contour_outline_of(xs@, ys@, flags@) {
            Some((segments, vertices)) => res matches Some((s, v)) && s@ == segments && v@
                == vertices,
            None => res is None,
        },
{
    let ghost whole = walk_contour(xs@, ys@, flags@, 0, None);
    let mut segments: Vec<Segment> = Vec::new();
    let mut vertices: Vec<ContourPoint> = Vec::new();
    let mut i: usize = 0;
    let mut start: Option<ContourPoint> = None;
    let n = xs.len();
    proof {
        match whole {
            Some((s, v)) => {
                assert(Seq::<Segment>::empty() + s =~= s);
                assert(Seq::<ContourPoint>::empty() + v =~= v);
            },
            None => {},
        }
    }
    loop
        invariant_except_break
            n == xs@.len(),
            i <= n,
            whole == walk_contour(xs@, ys@, flags@, 0, None),
            whole == after_walk(
                segments@,
                vertices@,
                walk_contour(xs@, ys@, flags@, i as int, start),
            ),
        ensures
            whole == Some((segments@, vertices@)),
        decreases n + 2 - i,
    {
        let p0 = match start {
            Some(v) => v,
            None => match get_point(xs, ys, flags, i, 0) {
                Some(p) => p,
                None => {
                    assert(segments@ + Seq::<Segment>::empty() =~= segments@);
                    assert(vertices@ + Seq::<ContourPoint>::empty() =~= vertices@);
                    break;
                },
            },
        };
        let ghost before_s = segments@;
        let ghost before_v = vertices@;
        vertices.push(p0);
        let p1 = match get_point(xs, ys, flags, i, 1) {
            Some(p) => p,
            None => {
                assert(before_s + Seq::<Segment>::empty() =~= before_s);
                break;
            },
        };
        if p1.on_curve {
            segments.push(Segment::Line((p0.x, p0.y), (p1.x, p1.y)));
            proof {
                match walk_contour(xs@, ys@, flags@, i + 1, None) {
                    Some((s, v)) => {
                        assert(before_s + (seq![Segment::Line((p0.x, p0.y), (p1.x, p1.y))] + s)
                            =~= segments@ + s);
                        assert(before_v + (seq![p0] + v) =~= vertices@ + v);
                    },
                    None => {},
                }
            }
            i = i + 1;
            start = None;
        } else {
            let p2 = match get_point(xs, ys, flags, i, 2) {
                Some(p) => p,
                None => {
                    assert(before_s + Seq::<Segment>::empty() =~= before_s);
                    break;
                },
            };
            if !p2.on_curve {
                let m = match midpoint_of(p1, p2) {
                    Some(m) => m,
                    None => {
                        return None;
                    },
                };
                let next = ContourPoint { x: m.0, y: m.1, on_curve: true };
                segments.push(Segment::Curve((p0.x, p0.y), (p1.x, p1.y), m));
                proof {
                    match walk_contour(xs@, ys@, flags@, i + 1, Some(next)) {
                        Some((s, v)) => {
                            assert(before_s + (seq![Segment::Curve((p0.x, p0.y), (p1.x, p1.y), m)]
                                + s) =~= segments@ + s);
                            assert(before_v + (seq![p0] + v) =~= vertices@ + v);
                        },
                        None => {},
                    }
                }
                i = i + 1;
                start = Some(next);
            } else {
                segments.push(Segment::Curve((p0.x, p0.y), (p1.x, p1.y), (p2.x, p2.y)));
                proof {
                    match walk_contour(xs@, ys@, flags@, i + 2, None) {
                        Some((s, v)) => {
                            assert(before_s + (seq![
                                Segment::Curve((p0.x, p0.y), (p1.x, p1.y), (p2.x, p2.y)),
                            ] + s) =~= segments@ + s);
                            assert(before_v + (seq![p0] + v) =~= vertices@ + v);
                        },
                        None => {},
                    }
                }
                i = i + 2;
                start = None;
            }
        }
    }
    if vertices.len() < 2 {
        return None;
    }
    let second = vertices[1];
    vertices.push(second);
    Some((segments, vertices))
}

/// Whether the points of a contour have an outline: no midpoint of two
/// control points overflows and the walk visits at least two vertices.
pub fn contour_has_outline(xs: &[i16], ys: &[i16], flags: &[GlyfFlag]) -> (res: bool)
    ensures
        res == (contour_outline_of(xs@, ys@, flags@) is Some),
{
    walk_outline(xs, ys, flags).is_some()
}

/// The edges and the vertices of a contour that has an outline; see
/// `contour_outline_of`.
pub fn contour_outline(xs: &[i16], ys: &[i16], flags: &[GlyfFlag]) -> (res: (
    Vec<Segment>,
    Vec<ContourPoint>,
))
    requires
        contour_outline_of(xs@, ys@, flags@) is Some,
    ensures
        contour_outline_of(xs@, ys@, flags@) == Some((res.0@, res.1@)),
{
    match walk_outline(xs, ys, flags) {
        Some(outline) => outline,
        None => {
            // `requires` rules this arm out: the contour has an outline.
            proof {
                assert(contour_outline_of(xs@, ys@, flags@) is None);
            }
            (Vec::new(), Vec::new())
        },
    }
}

/// The first and last point index of each contour, given the last point
/// index of each: contour `k` starts just after contour `k - 1` ends.
pub open spec fn contour_range(end_pts: Seq<u16>, k: int) -> (int, int) {
    (if k == 0 {
        0
    } else {
        end_pts[k - 1] + 1
    }, end_pts[k] as int)
}

/// The point ranges of the contours whose last point indices are `end_pts`.
pub fn contour_ranges(end_pts: &Vec<u16>) -> (res: Vec<(usize, usize)>)
    ensures
        res@.len() == end_pts@.len(),
        forall|k: int|
            0 <= k < res@.len() ==> #[trigger] res@[k].0 == contour_range(end_pts@, k).0
                && res@[k].1 == contour_range(end_pts@, k).1,
{
    let mut res: Vec<(usize, usize)> = Vec::new();
    let mut start: usize = 0;
    let mut k: usize = 0;
    while k < end_pts.len()
        invariant
            k <= end_pts@.len(),
            res@.len() == k,
            start == (if k == 0 {
                0
            } else {
                end_pts@[k - 1] + 1
            }),
            forall|j: int|
                0 <= j < k ==> #[trigger] res@[j].0 == contour_range(end_pts@, j).0 && res@[j].1
                    == contour_range(end_pts@, j).1,
        decreases end_pts@.len() - k,
    {
        let end = end_pts[k] as usize;
        res.push((start, end));
        start = end + 1;
        k = k + 1;
    }
    res
}

/// The point of the glyph where a segment starts.
pub open spec fn segment_start(s: Segment) -> (i16, i16) {
    match s {
        Segment::Line(a, _) => a,
        Segment::Curve(a, _, _) => a,
    }
}

/// The point of the glyph where a segment ends.
pub open spec fn segment_end(s: Segment) -> (i16, i16) {
    match s {
        Segment::Line(_, b) => b,
        Segment::Curve(_, _, b) => b,
    }
}

/// Whether the segments join the vertices in order: segment `k` runs from
/// vertex `k` to vertex `k + 1`.
pub open spec fn joins(segments: Seq<Segment>, vertices: Seq<ContourPoint>) -> bool {
    &&& vertices.len() == segments.len() + 1
    &&& forall|k: int|
        0 <= k < segments.len() ==> segment_start(#[trigger] segments[k]) == (
        vertices[k].x, vertices[k].y) && segment_end(segments[k]) == (vertices[k + 1].x,
        vertices[k + 1].y)
}

/// The midpoint of two points lies between them, coordinate by coordinate.
pub proof fn law_midpoint_between(a: ContourPoint, b: ContourPoint)
    ensures
        midpoint(a, b) matches Some(m) ==> {
            &&& (a.x <= m.0 <= b.x || b.x <= m.0 <= a.x)
            &&& (a.y <= m.1 <= b.y || b.y <= m.1 <= a.y)
        },
{
}

/// The walk from a point that exists visits it first, and its edges join
/// the vertices it visits, one edge between each vertex and the next.
proof fn lemma_walk_joins(
    xs: Seq<i16>,
    ys: Seq<i16>,
    flags: Seq<GlyfFlag>,
    i: int,
    start: Option<ContourPoint>,
)
    requires
        start is Some || point_at(xs, ys, flags, i) is Some,
    ensures
        walk_contour(xs, ys, flags, i, start) matches Some((segs, vs)) ==> joins(segs, vs) && vs[0]
            == (match start {
            Some(v) => v,
            None => point_at(xs, ys, flags, i)->0,
        }),
    decreases xs.len() + 2 - i,
{
    let p0 = match start {
        Some(v) => v,
        None => point_at(xs, ys, flags, i)->0,
    };
    match point_at(xs, ys, flags, i + 1) {
        None => {},
        Some(p1) => {
            if p1.on_curve {
                lemma_walk_joins(xs, ys, flags, i + 1, None);
                lemma_join_front(
                    Segment::Line((p0.x, p0.y), (p1.x, p1.y)),
                    p0,
                    walk_contour(xs, ys, flags, i + 1, None),
                );
            } else {
                match point_at(xs, ys, flags, i + 2) {
                    None => {},
                    Some(p2) => {
                        if !p2.on_curve {
                            match midpoint(p1, p2) {
                                None => {},
                                Some(m) => {
                                    let next = ContourPoint { x: m.0, y: m.1, on_curve: true };
                                    lemma_walk_joins(xs, ys, flags, i + 1, Some(next));
                                    lemma_join_front(
                                        Segment::Curve((p0.x, p0.y), (p1.x, p1.y), m),
                                        p0,
                                        walk_contour(xs, ys, flags, i + 1, Some(next)),
                                    );
                                },
                            }
                        } else {
                            lemma_walk_joins(xs, ys, flags, i + 2, None);
                            lemma_join_front(
                                Segment::Curve((p0.x, p0.y), (p1.x, p1.y), (p2.x, p2.y)),
                                p0,
                                walk_contour(xs, ys, flags, i + 2, None),
                            );
                        }
                    },
                }
            }
        },
    }
}

/// Putting a segment and its start vertex in front of a joined walk that
/// starts where the segment ends keeps it joined.
proof fn lemma_join_front(seg: Segment, p0: ContourPoint, w: Option<(Seq<Segment>, Seq<ContourPoint>)>)
    requires
        segment_start(seg) == (p0.x, p0.y),
        w matches Some((segs, vs)) ==> joins(segs, vs) && segment_end(seg) == (vs[0].x, vs[0].y),
    ensures
        after_walk(seq![seg], seq![p0], w) matches Some((segs, vs)) ==> joins(segs, vs) && vs[0]
            == p0,
{
    match w {
        Some((segs, vs)) => {
            let s2 = seq![seg] + segs;
            let v2 = seq![p0] + vs;
            assert forall|k: int| 0 <= k < s2.len() implies segment_start(#[trigger] s2[k]) == (
            v2[k].x, v2[k].y) && segment_end(s2[k]) == (v2[k + 1].x, v2[k + 1].y) by {
                if k > 0 {
                    assert(s2[k] == segs[k - 1]);
                    assert(v2[k] == vs[k - 1]);
                    assert(v2[k + 1] == vs[k]);
                }
            }
        },
        None => {},
    }
}

/// The edges of a walked contour join its vertices in order, each edge
/// ending where the next begins; the walk starts at the first point.
pub proof fn law_outline_edges_join(xs: Seq<i16>, ys: Seq<i16>, flags: Seq<GlyfFlag>)
    ensures
        walk_contour(xs, ys, flags, 0, None) matches Some((segs, vs)) ==> (vs.len() == 0
            && segs.len() == 0) || (joins(segs, vs) && vs[0] == point_at(xs, ys, flags, 0)->0),
{
    if point_at(xs, ys, flags, 0) is Some {
        lemma_walk_joins(xs, ys, flags, 0, None);
    }
}

} // verus!
