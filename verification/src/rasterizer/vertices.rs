//! The vertex marks of a contour, which the scanline fill relies on.
use vstd::prelude::*;
use crate::font::glyf::GlyfData;
use crate::font::glyf::GlyfFlag;
use crate::rasterizer::contour::{contour_outline_of, point_at, walk_contour, ContourPoint};
use crate::rasterizer::pixel_map::{merged_pixel, PixelInfo, PixelMap};
use crate::rasterizer::plot::{glyph_pixel, glyph_pixel_of};

verus! {

/// The marks that the vertex `cur`, between `prev` and `next`, leaves.
///
/// A vertex where the contour turns back vertically (a local minimum or
/// maximum, or the lower end of a horizontal run) is an invisible vertex; the
/// upper start of a horizontal run that the contour enters going up is a
/// visible vertex of kind zero, the upper end of one that it leaves going down
/// a visible vertex of kind one.
pub open spec fn vertex_marks(prev: ContourPoint, cur: ContourPoint, next: ContourPoint) -> Seq<
    PixelInfo,
> {
    let invisible = (prev.y > cur.y && cur.y < next.y) || (prev.y < cur.y && cur.y > next.y) || (
    next.y == cur.y && cur.y < prev.y) || (prev.y == cur.y && cur.y < next.y);
    let zero = next.y == cur.y && cur.y > prev.y;
    let one = prev.y == cur.y && cur.y > next.y;
    (if invisible {
        seq![PixelInfo::InvisibleVertex]
    } else {
        Seq::empty()
    }) + (if zero {
        seq![PixelInfo::VisibleVertexZero]
    } else {
        Seq::empty()
    }) + (if one {
        seq![PixelInfo::VisibleVertexOne]
    } else {
        Seq::empty()
    })
}

/// The marks of the windows `0..k` of three consecutive vertices, each mark
/// with the vertex it belongs to.
pub open spec fn marks_upto(vs: Seq<ContourPoint>, k: nat) -> Seq<(PixelInfo, ContourPoint)>
    decreases k,
{
    if k == 0 {
        Seq::empty()
    } else {
        let w = (k - 1) as int;
        marks_upto(vs, (k - 1) as nat) + vertex_marks(vs[w], vs[w + 1], vs[w + 2]).map_values(
            |info: PixelInfo| (info, vs[w + 1]),
        )
    }
}

/// The number of windows of three consecutive vertices.
pub open spec fn window_count(vs: Seq<ContourPoint>) -> nat {
    if vs.len() >= 2 {
        (vs.len() - 2) as nat
    } else {
        0
    }
}

/// The marks of all windows of three consecutive vertices.
pub open spec fn contour_vertex_marks(vs: Seq<ContourPoint>) -> Seq<(PixelInfo, ContourPoint)> {
    marks_upto(vs, window_count(vs))
}

/// Whether each mark's vertex has a pixel inside a map of `width` by `len`.
pub open spec fn marks_fit(
    marks: Seq<(PixelInfo, ContourPoint)>,
    x_min: i16,
    y_min: i16,
    padding: usize,
    width: nat,
    len: nat,
) -> bool {
    forall|k: int|
        0 <= k < marks.len() ==> match glyph_pixel_of(
            x_min,
            y_min,
            padding,
            #[trigger] marks[k].1.x,
            marks[k].1.y,
        ) {
            Some((x, y)) => x + y * width < len,
            None => false,
        }
}

/// The cells after the marks are written, in order, merged with what the
/// cells held.
pub open spec fn paint_marks(
    cells: Seq<PixelInfo>,
    width: nat,
    marks: Seq<(PixelInfo, ContourPoint)>,
    x_min: i16,
    y_min: i16,
    padding: usize,
) -> Seq<PixelInfo>
    decreases marks.len(),
{
    if marks.len() == 0 {
        cells
    } else {
        let before = paint_marks(cells, width, marks.drop_last(), x_min, y_min, padding);
        let m = marks.last();
        match glyph_pixel_of(x_min, y_min, padding, m.1.x, m.1.y) {
            Some((x, y)) => before.update(x + y * width, merged_pixel(m.0, before[x + y * width])),
            None => before,
        }
    }
}

/// The marks of windows `0..k` come first among those of windows `0..n`.
proof fn lemma_marks_prefix(vs: Seq<ContourPoint>, k: nat, n: nat)
    requires
        k <= n,
    ensures
        marks_upto(vs, k).len() <= marks_upto(vs, n).len(),
        marks_upto(vs, n).take(marks_upto(vs, k).len() as int) == marks_upto(vs, k),
    decreases n,
{
    if k < n {
        lemma_marks_prefix(vs, k, (n - 1) as nat);
        let a = marks_upto(vs, (n - 1) as nat);
        let w = (n - 1) as int;
        let b = vertex_marks(vs[w], vs[w + 1], vs[w + 2]).map_values(
            |info: PixelInfo| (info, vs[w + 1]),
        );
        assert((a + b).take(marks_upto(vs, k).len() as int) =~= a.take(
            marks_upto(vs, k).len() as int,
        ));
    } else {
        assert(marks_upto(vs, n).take(marks_upto(vs, n).len() as int) =~= marks_upto(vs, n));
    }
}

/// The exec form of `vertex_marks`.
fn marks_of_vertex(prev: ContourPoint, cur: ContourPoint, next: ContourPoint) -> (res: Vec<PixelInfo>)
    ensures
        res@ == vertex_marks(prev, cur, next),
{
    let mut res: Vec<PixelInfo> = Vec::new();
    if (prev.y > cur.y && cur.y < next.y) || (prev.y < cur.y && cur.y > next.y) || (next.y == cur.y
        && cur.y < prev.y) || (prev.y == cur.y && cur.y < next.y) {
        res.push(PixelInfo::InvisibleVertex);
    }
    if next.y == cur.y && cur.y > prev.y {
        res.push(PixelInfo::VisibleVertexZero);
    }
    if prev.y == cur.y && cur.y > next.y {
        res.push(PixelInfo::VisibleVertexOne);
    }
    assert(res@ =~= vertex_marks(prev, cur, next));
    res
}

/// Writes the vertex marks of a walked contour into `pixel_map`; `false`,
/// and the map partly written, when a marked vertex has no pixel in the map.
pub fn mark_vertices(
    glyph: &GlyfData,
    padding: usize,
    pixel_map: &mut PixelMap,
    vertices: &Vec<ContourPoint>,
) -> (ok: bool)
    ensures
        final(pixel_map).spec_width() == old(pixel_map).spec_width(),
        final(pixel_map).cells().len() == old(pixel_map).cells().len(),
        ok == marks_fit(
            contour_vertex_marks(vertices@),
            glyph.x_min,
            glyph.y_min,
            padding,
            old(pixel_map).spec_width(),
            old(pixel_map).cells().len(),
        ),
        ok ==> final(pixel_map).cells() == paint_marks(
            old(pixel_map).cells(),
            old(pixel_map).spec_width(),
            contour_vertex_marks(vertices@),
            glyph.x_min,
            glyph.y_min,
            padding,
        ),
{
    let ghost vs = vertices@;
    let ghost width = pixel_map.spec_width();
    let ghost len = pixel_map.cells().len();
    let ghost start_cells = pixel_map.cells();
    let ghost all = contour_vertex_marks(vs);
    let n = vertices.len();
    let windows = if n >= 2 { n - 2 } else { 0 };
    let mut k: usize = 0;
    let ghost mut done: Seq<(PixelInfo, ContourPoint)> = Seq::empty();
    while k < windows
        invariant
            vs == vertices@,
            n == vs.len(),
            windows == window_count(vs),
            k <= windows,
            all == marks_upto(vs, windows as nat),
            done == marks_upto(vs, k as nat),
            pixel_map.spec_width() == width,
            pixel_map.cells().len() == len,
            width == old(pixel_map).spec_width(),
            len == old(pixel_map).cells().len(),
            start_cells == old(pixel_map).cells(),
            marks_fit(done, glyph.x_min, glyph.y_min, padding, width, len),
            pixel_map.cells() == paint_marks(
                start_cells,
                width,
                done,
                glyph.x_min,
                glyph.y_min,
                padding,
            ),
        decreases windows - k,
    {
        let prev = vertices[k];
        let cur = vertices[k + 1];
        let next = vertices[k + 2];
        let kinds = marks_of_vertex(prev, cur, next);
        let ghost window = kinds@.map_values(|info: PixelInfo| (info, vs[k + 1]));
        let ghost base = done;
        let mut j: usize = 0;
        while j < kinds.len()
            invariant
                vs == vertices@,
                k < windows,
                kinds@ == vertex_marks(vs[k as int], vs[k + 1], vs[k + 2]),
                windows == window_count(vs),
                n == vs.len(),
                cur == vs[k + 1],
                window == kinds@.map_values(|info: PixelInfo| (info, vs[k + 1])),
                j <= kinds@.len(),
                base == marks_upto(vs, k as nat),
                all == marks_upto(vs, windows as nat),
                done == base + window.take(j as int),
                pixel_map.spec_width() == width,
                pixel_map.cells().len() == len,
                width == old(pixel_map).spec_width(),
                len == old(pixel_map).cells().len(),
                start_cells == old(pixel_map).cells(),
                marks_fit(done, glyph.x_min, glyph.y_min, padding, width, len),
                pixel_map.cells() == paint_marks(
                    start_cells,
                    width,
                    done,
                    glyph.x_min,
                    glyph.y_min,
                    padding,
                ),
            decreases kinds@.len() - j,
        {
            let info = kinds[j];
            let spot = glyph_pixel(glyph, padding, cur.x, cur.y);
            let fits = match spot {
                Some((x, y)) => pixel_map.contains(x, y),
                None => false,
            };
            if !fits {
                proof {
                    let bad = base.len() + j;
                    lemma_marks_prefix(vs, (k + 1) as nat, windows as nat);
                    let w = k as int;
                    assert(window =~= vertex_marks(vs[w], vs[w + 1], vs[w + 2]).map_values(
                        |info: PixelInfo| (info, vs[w + 1]),
                    ));
                    assert(marks_upto(vs, (k + 1) as nat) =~= base + window);
                    assert(all.take((base + window).len() as int) == base + window);
                    assert(all[bad as int] == (base + window)[bad as int]);
                    assert(all[bad as int] == window[j as int]);
                    assert(all[bad as int].1 == cur);
                }
                return false;
            }
            let (x, y) = spot.unwrap();
            pixel_map.set(info, x, y);
            proof {
                let next_done = base + window.take(j + 1);
                assert(next_done.drop_last() =~= done);
                assert(next_done.last() == (info, cur));
                assert forall|i: int| 0 <= i < next_done.len() implies match glyph_pixel_of(
                    glyph.x_min,
                    glyph.y_min,
                    padding,
                    #[trigger] next_done[i].1.x,
                    next_done[i].1.y,
                ) {
                    Some((px, py)) => px + py * width < len,
                    None => false,
                } by {
                    if i < done.len() {
                        assert(next_done[i] == done[i]);
                    }
                }
                done = next_done;
            }
            j = j + 1;
        }
        proof {
            assert(window.take(kinds@.len() as int) =~= window);
            assert(done =~= marks_upto(vs, (k + 1) as nat));
        }
        k = k + 1;
    }
    true
}

/// A vertex gets at most one mark.
pub proof fn law_one_mark_per_vertex(prev: ContourPoint, cur: ContourPoint, next: ContourPoint)
    ensures
        vertex_marks(prev, cur, next).len() <= 1,
{
}


/// The cell index of the pixel of vertex `p` in a map `width` pixels wide.
pub open spec fn vertex_cell(p: ContourPoint, x_min: i16, y_min: i16, padding: usize, width: nat) -> Option<
    int,
> {
    match glyph_pixel_of(x_min, y_min, padding, p.x, p.y) {
        Some((x, y)) => Some(x + y * width),
        None => None,
    }
}

/// Painting marks keeps the length of the cells, and a cell that none of
/// the marks from `t` on reaches keeps what the first `t` marks left there.
proof fn lemma_later_marks_elsewhere(
    cells: Seq<PixelInfo>,
    width: nat,
    marks: Seq<(PixelInfo, ContourPoint)>,
    x_min: i16,
    y_min: i16,
    padding: usize,
    t: int,
    i: int,
)
    requires
        0 <= t <= marks.len(),
        0 <= i < cells.len(),
        marks_fit(marks, x_min, y_min, padding, width, cells.len()),
        forall|idx: int|
            t <= idx < marks.len() ==> vertex_cell(#[trigger] marks[idx].1, x_min, y_min, padding, width)
                != Some(i),
    ensures
        paint_marks(cells, width, marks, x_min, y_min, padding).len() == cells.len(),
        paint_marks(cells, width, marks, x_min, y_min, padding)[i] == paint_marks(
            cells,
            width,
            marks.take(t),
            x_min,
            y_min,
            padding,
        )[i],
    decreases marks.len(),
{
    if marks.len() == 0 {
        assert(marks.take(t) =~= marks);
    } else {
        let rest = marks.drop_last();
        assert forall|k: int| 0 <= k < rest.len() implies match glyph_pixel_of(
            x_min,
            y_min,
            padding,
            #[trigger] rest[k].1.x,
            rest[k].1.y,
        ) {
            Some((x, y)) => x + y * width < cells.len(),
            None => false,
        } by {
            assert(rest[k] == marks[k]);
            assert(marks[k].1.x == rest[k].1.x);
        }
        let last = marks.len() - 1;
        assert(marks[last].1.x == marks.last().1.x);
        if t == marks.len() {
            assert(marks.take(t) =~= marks);
            lemma_later_marks_elsewhere(cells, width, rest, x_min, y_min, padding, t - 1, i);
        } else {
            assert forall|idx: int| t <= idx < rest.len() implies vertex_cell(
                #[trigger] rest[idx].1,
                x_min,
                y_min,
                padding,
                width,
            ) != Some(i) by {
                assert(rest[idx] == marks[idx]);
            }
            lemma_later_marks_elsewhere(cells, width, rest, x_min, y_min, padding, t, i);
            assert(rest.take(t) =~= marks.take(t));
            assert(vertex_cell(marks[last].1, x_min, y_min, padding, width) != Some(i));
        }
    }
}

/// The marks of the windows `k + 1..n` belong to the vertices `k + 2..n + 1`.
proof fn lemma_later_windows(
    vs: Seq<ContourPoint>,
    k: nat,
    n: nat,
    x_min: i16,
    y_min: i16,
    padding: usize,
    width: nat,
    i: int,
)
    requires
        k + 1 <= n,
        forall|a: int|
            k < a < n ==> vertex_cell(#[trigger] vs[a + 1], x_min, y_min, padding, width) != Some(i),
    ensures
        forall|idx: int|
            marks_upto(vs, k + 1).len() <= idx < marks_upto(vs, n).len() ==> vertex_cell(
                #[trigger] marks_upto(vs, n)[idx].1,
                x_min,
                y_min,
                padding,
                width,
            ) != Some(i),
    decreases n,
{
    if n > k + 1 {
        lemma_later_windows(vs, k, (n - 1) as nat, x_min, y_min, padding, width, i);
        lemma_marks_prefix(vs, k + 1, (n - 1) as nat);
        let w = (n - 1) as int;
        let a = marks_upto(vs, (n - 1) as nat);
        let b = vertex_marks(vs[w], vs[w + 1], vs[w + 2]).map_values(
            |info: PixelInfo| (info, vs[w + 1]),
        );
        assert(marks_upto(vs, n) == a + b);
        assert forall|idx: int|
            marks_upto(vs, k + 1).len() <= idx < marks_upto(vs, n).len() implies vertex_cell(
            #[trigger] marks_upto(vs, n)[idx].1,
            x_min,
            y_min,
            padding,
            width,
        ) != Some(i) by {
            if idx < a.len() {
                assert(marks_upto(vs, n)[idx] == a[idx]);
            } else {
                assert(marks_upto(vs, n)[idx] == b[idx - a.len()]);
                assert(b[idx - a.len()].1 == vs[w + 1]);
            }
        }
    }
}

/// A vertex that leaves exactly the mark `m`, a vertex kind, keeps it in its
/// pixel once all vertices are marked, when no other marked vertex shares
/// that pixel and every marked vertex has a pixel in the map.
proof fn lemma_single_mark_kept(
    cells: Seq<PixelInfo>,
    width: nat,
    vs: Seq<ContourPoint>,
    x_min: i16,
    y_min: i16,
    padding: usize,
    k: int,
    m: PixelInfo,
)
    requires
        0 <= k < window_count(vs),
        vertex_marks(vs[k], vs[k + 1], vs[k + 2]) =~= seq![m],
        m == PixelInfo::InvisibleVertex || m == PixelInfo::VisibleVertexZero || m
            == PixelInfo::VisibleVertexOne,
        marks_fit(contour_vertex_marks(vs), x_min, y_min, padding, width, cells.len()),
        forall|a: int|
            0 <= a < window_count(vs) && a != k ==> vertex_cell(
                #[trigger] vs[a + 1],
                x_min,
                y_min,
                padding,
                width,
            ) != vertex_cell(vs[k + 1], x_min, y_min, padding, width),
    ensures
        vertex_cell(vs[k + 1], x_min, y_min, padding, width) matches Some(i) && paint_marks(
            cells,
            width,
            contour_vertex_marks(vs),
            x_min,
            y_min,
            padding,
        )[i] == m,
{
    let n = window_count(vs);
    let all = contour_vertex_marks(vs);
    let before = marks_upto(vs, k as nat);
    let mark = (m, vs[k + 1]);
    let upto = marks_upto(vs, (k + 1) as nat);
    assert(upto =~= before + seq![mark]);
    lemma_marks_prefix(vs, (k + 1) as nat, n);
    let t = upto.len() as int;
    assert(all.take(t) == upto);
    assert(upto[t - 1] == mark);
    assert(all.take(t)[t - 1] == all[t - 1]);
    assert(all[t - 1] == mark);
    assert(all[t - 1].1.x == vs[k + 1].x);
    let (px, py) = glyph_pixel_of(x_min, y_min, padding, vs[k + 1].x, vs[k + 1].y)->0;
    let i = px + py * width;
    assert(0 <= py * width) by (nonlinear_arith)
        requires
            0 <= py,
    ;
    assert forall|a: int| k < a < n implies vertex_cell(
        #[trigger] vs[a + 1],
        x_min,
        y_min,
        padding,
        width,
    ) != Some(i) by {}
    lemma_later_windows(vs, k as nat, n, x_min, y_min, padding, width, i);
    lemma_later_marks_elsewhere(cells, width, all, x_min, y_min, padding, t, i);
    assert(upto.drop_last() =~= before);
    assert(upto.last() == mark);
    lemma_marks_prefix(vs, k as nat, n);
    assert forall|j: int| 0 <= j < before.len() implies match glyph_pixel_of(
        x_min,
        y_min,
        padding,
        #[trigger] before[j].1.x,
        before[j].1.y,
    ) {
        Some((x, y)) => x + y * width < cells.len(),
        None => false,
    } by {
        assert(all.take(before.len() as int)[j] == all[j]);
        assert(before[j] == all[j]);
        assert(all[j].1.x == before[j].1.x);
    }
    lemma_later_marks_elsewhere(cells, width, before, x_min, y_min, padding, before.len() as int, i);
}

/// A vertex where the contour turns back upward or downward leaves its pixel
/// an invisible vertex once all vertices are marked: a strict local minimum
/// or maximum in y, or the lower end of a horizontal run (one neighbour at
/// its height, the other strictly above it). This holds when no other marked
/// vertex shares that pixel and every marked vertex has a pixel in the map.
pub proof fn law_turning_vertex_is_invisible(
    cells: Seq<PixelInfo>,
    width: nat,
    vs: Seq<ContourPoint>,
    x_min: i16,
    y_min: i16,
    padding: usize,
    k: int,
)
    requires
        0 <= k < window_count(vs),
        ({
            let (p, c, n) = (vs[k].y, vs[k + 1].y, vs[k + 2].y);
            ||| (p > c && n > c)
            ||| (p < c && n < c)
            ||| (p == c && n > c)
            ||| (n == c && p > c)
        }),
        marks_fit(contour_vertex_marks(vs), x_min, y_min, padding, width, cells.len()),
        forall|a: int|
            0 <= a < window_count(vs) && a != k ==> vertex_cell(
                #[trigger] vs[a + 1],
                x_min,
                y_min,
                padding,
                width,
            ) != vertex_cell(vs[k + 1], x_min, y_min, padding, width),
    ensures
        vertex_cell(vs[k + 1], x_min, y_min, padding, width) matches Some(i) && paint_marks(
            cells,
            width,
            contour_vertex_marks(vs),
            x_min,
            y_min,
            padding,
        )[i] == PixelInfo::InvisibleVertex,
{
    assert(vertex_marks(vs[k], vs[k + 1], vs[k + 2]) =~= seq![PixelInfo::InvisibleVertex]);
    lemma_single_mark_kept(cells, width, vs, x_min, y_min, padding, k, PixelInfo::InvisibleVertex);
}

/// The upper ends of a horizontal run are visible vertices once all
/// vertices are marked: the start of a run that the contour enters going up
/// (the next vertex at its height, the one before strictly below) is a
/// visible vertex of kind zero, the end of a run that it leaves going down
/// (the vertex before at its height, the next strictly below) one of kind
/// one. This holds when no other marked vertex shares that pixel and every
/// marked vertex has a pixel in the map.
pub proof fn law_flat_top_ends_are_visible(
    cells: Seq<PixelInfo>,
    width: nat,
    vs: Seq<ContourPoint>,
    x_min: i16,
    y_min: i16,
    padding: usize,
    k: int,
)
    requires
        0 <= k < window_count(vs),
        (vs[k].y < vs[k + 1].y && vs[k + 2].y == vs[k + 1].y) || (vs[k].y == vs[k + 1].y && vs[k
            + 2].y < vs[k + 1].y),
        marks_fit(contour_vertex_marks(vs), x_min, y_min, padding, width, cells.len()),
        forall|a: int|
            0 <= a < window_count(vs) && a != k ==> vertex_cell(
                #[trigger] vs[a + 1],
                x_min,
                y_min,
                padding,
                width,
            ) != vertex_cell(vs[k + 1], x_min, y_min, padding, width),
    ensures
        vertex_cell(vs[k + 1], x_min, y_min, padding, width) matches Some(i) && paint_marks(
            cells,
            width,
            contour_vertex_marks(vs),
            x_min,
            y_min,
            padding,
        )[i] == (if vs[k + 2].y == vs[k + 1].y {
            PixelInfo::VisibleVertexZero
        } else {
            PixelInfo::VisibleVertexOne
        }),
{
    if vs[k + 2].y == vs[k + 1].y {
        assert(vertex_marks(vs[k], vs[k + 1], vs[k + 2]) =~= seq![PixelInfo::VisibleVertexZero]);
        lemma_single_mark_kept(
            cells,
            width,
            vs,
            x_min,
            y_min,
            padding,
            k,
            PixelInfo::VisibleVertexZero,
        );
    } else {
        assert(vertex_marks(vs[k], vs[k + 1], vs[k + 2]) =~= seq![PixelInfo::VisibleVertexOne]);
        lemma_single_mark_kept(
            cells,
            width,
            vs,
            x_min,
            y_min,
            padding,
            k,
            PixelInfo::VisibleVertexOne,
        );
    }
}


/// Every mark of the windows `0..k` is a vertex kind, never `Empty`.
proof fn lemma_marks_are_kinds(vs: Seq<ContourPoint>, k: nat)
    ensures
        forall|idx: int|
            0 <= idx < marks_upto(vs, k).len() ==> (#[trigger] marks_upto(vs, k)[idx]).0
                != PixelInfo::Empty,
    decreases k,
{
    if k > 0 {
        lemma_marks_are_kinds(vs, (k - 1) as nat);
        let w = (k - 1) as int;
        let a = marks_upto(vs, (k - 1) as nat);
        let b = vertex_marks(vs[w], vs[w + 1], vs[w + 2]).map_values(
            |info: PixelInfo| (info, vs[w + 1]),
        );
        assert(marks_upto(vs, k) == a + b);
        assert forall|idx: int| 0 <= idx < marks_upto(vs, k).len() implies (
        #[trigger] marks_upto(vs, k)[idx]).0 != PixelInfo::Empty by {
            if idx >= a.len() {
                assert(marks_upto(vs, k)[idx] == b[idx - a.len()]);
            } else {
                assert(marks_upto(vs, k)[idx] == a[idx]);
            }
        }
    }
}

/// Painting marks that are never `Empty` keeps the length of the cells,
/// leaves no set cell empty, and sets every cell that it changes.
proof fn lemma_paint_keeps_cells_set(
    cells: Seq<PixelInfo>,
    width: nat,
    marks: Seq<(PixelInfo, ContourPoint)>,
    x_min: i16,
    y_min: i16,
    padding: usize,
)
    requires
        marks_fit(marks, x_min, y_min, padding, width, cells.len()),
        forall|idx: int| 0 <= idx < marks.len() ==> (#[trigger] marks[idx]).0 != PixelInfo::Empty,
    ensures
        paint_marks(cells, width, marks, x_min, y_min, padding).len() == cells.len(),
        forall|i: int|
            0 <= i < cells.len() ==> {
                let after = #[trigger] paint_marks(cells, width, marks, x_min, y_min, padding)[i];
                &&& cells[i] != PixelInfo::Empty ==> after != PixelInfo::Empty
                &&& after != cells[i] ==> after != PixelInfo::Empty
            },
    decreases marks.len(),
{
    if marks.len() > 0 {
        let rest = marks.drop_last();
        assert forall|k: int| 0 <= k < rest.len() implies match glyph_pixel_of(
            x_min,
            y_min,
            padding,
            #[trigger] rest[k].1.x,
            rest[k].1.y,
        ) {
            Some((x, y)) => x + y * width < cells.len(),
            None => false,
        } by {
            assert(rest[k] == marks[k]);
            assert(marks[k].1.x == rest[k].1.x);
        }
        assert forall|idx: int| 0 <= idx < rest.len() implies (#[trigger] rest[idx]).0
            != PixelInfo::Empty by {
            assert(rest[idx] == marks[idx]);
        }
        lemma_paint_keeps_cells_set(cells, width, rest, x_min, y_min, padding);
        let last = marks.len() - 1;
        assert(marks[last] == marks.last());
        assert(marks[last].1.x == marks.last().1.x);
        assert(marks.last().0 != PixelInfo::Empty);
    }
}

/// Marking the vertices of a contour leaves no set cell empty, and every
/// cell that it changes holds a vertex mark or an edge mark merged into one.
pub proof fn law_marking_keeps_cells_set(
    cells: Seq<PixelInfo>,
    width: nat,
    vs: Seq<ContourPoint>,
    x_min: i16,
    y_min: i16,
    padding: usize,
)
    requires
        marks_fit(contour_vertex_marks(vs), x_min, y_min, padding, width, cells.len()),
    ensures
        paint_marks(cells, width, contour_vertex_marks(vs), x_min, y_min, padding).len()
            == cells.len(),
        forall|i: int|
            0 <= i < cells.len() ==> {
                let after = #[trigger] paint_marks(
                    cells,
                    width,
                    contour_vertex_marks(vs),
                    x_min,
                    y_min,
                    padding,
                )[i];
                &&& cells[i] != PixelInfo::Empty ==> after != PixelInfo::Empty
                &&& after != cells[i] ==> after != PixelInfo::Empty
            },
{
    lemma_marks_are_kinds(vs, window_count(vs));
    lemma_paint_keeps_cells_set(cells, width, contour_vertex_marks(vs), x_min, y_min, padding);
}

/// Point `j` of a contour, the index just past the last point being the
/// first point again.
pub open spec fn outline_point(xs: Seq<i16>, ys: Seq<i16>, flags: Seq<GlyfFlag>, j: int) -> ContourPoint {
    let k = if j == xs.len() {
        0
    } else {
        j
    };
    ContourPoint { x: xs[k], y: ys[k], on_curve: flags[k].on_curve }
}

/// Whether a contour has `n >= 2` points, all on the curve, in arrays of one length.
pub open spec fn on_curve_polygon(xs: Seq<i16>, ys: Seq<i16>, flags: Seq<GlyfFlag>) -> bool {
    &&& xs.len() >= 2
    &&& ys.len() == xs.len()
    &&& flags.len() == xs.len()
    &&& forall|k: int| 0 <= k < flags.len() ==> (#[trigger] flags[k]).on_curve
}

/// The walk over a polygon from point `i` visits the points `i..n` and then
/// the first point again.
proof fn lemma_polygon_walk(xs: Seq<i16>, ys: Seq<i16>, flags: Seq<GlyfFlag>, i: int)
    requires
        on_curve_polygon(xs, ys, flags),
        0 <= i <= xs.len(),
    ensures
        walk_contour(xs, ys, flags, i, None) is Some,
        walk_contour(xs, ys, flags, i, None)->Some_0.1 == Seq::new(
            (xs.len() + 1 - i) as nat,
            |k: int| outline_point(xs, ys, flags, i + k),
        ),
    decreases xs.len() - i,
{
    let n = xs.len() as int;
    if i == n {
        assert(point_at(xs, ys, flags, i + 1) is None);
        assert(seq![outline_point(xs, ys, flags, i)] =~= Seq::new(
            (xs.len() + 1 - i) as nat,
            |k: int| outline_point(xs, ys, flags, i + k),
        ));
    } else {
        lemma_polygon_walk(xs, ys, flags, i + 1);
        let next = if i + 1 == n { 0 } else { i + 1 };
        assert(flags[next].on_curve);
        assert(point_at(xs, ys, flags, i) == Some(outline_point(xs, ys, flags, i)));
        let rest = walk_contour(xs, ys, flags, i + 1, None)->Some_0.1;
        assert(seq![outline_point(xs, ys, flags, i)] + rest =~= Seq::new(
            (xs.len() + 1 - i) as nat,
            |k: int| outline_point(xs, ys, flags, i + k),
        ));
    }
}

/// In a closed polygon whose points are all on the curve, a point where the
/// contour turns back vertically, strictly below or strictly above both its
/// neighbours or the lower end of a horizontal run (the point before the
/// first being the last), leaves its pixel
/// an invisible vertex once the vertices that the walk visits are marked,
/// when no other point shares that pixel and every marked vertex has a pixel
/// in the map.
pub proof fn law_polygon_turning_vertex_is_invisible(
    cells: Seq<PixelInfo>,
    width: nat,
    xs: Seq<i16>,
    ys: Seq<i16>,
    flags: Seq<GlyfFlag>,
    x_min: i16,
    y_min: i16,
    padding: usize,
    j: int,
)
    requires
        on_curve_polygon(xs, ys, flags),
        0 <= j < xs.len(),
        ({
            let prev = outline_point(
                xs,
                ys,
                flags,
                if j == 0 {
                    xs.len() - 1
                } else {
                    j - 1
                },
            );
            let cur = outline_point(xs, ys, flags, j);
            let next = outline_point(xs, ys, flags, j + 1);
            ||| (prev.y > cur.y && next.y > cur.y)
            ||| (prev.y < cur.y && next.y < cur.y)
            ||| (prev.y == cur.y && next.y > cur.y)
            ||| (next.y == cur.y && prev.y > cur.y)
        }),
        marks_fit(
            contour_vertex_marks(contour_outline_of(xs, ys, flags)->Some_0.1),
            x_min,
            y_min,
            padding,
            width,
            cells.len(),
        ),
        forall|a: int|
            0 <= a < xs.len() && a != j ==> vertex_cell(
                #[trigger] outline_point(xs, ys, flags, a),
                x_min,
                y_min,
                padding,
                width,
            ) != vertex_cell(outline_point(xs, ys, flags, j), x_min, y_min, padding, width),
    ensures
        contour_outline_of(xs, ys, flags) is Some,
        vertex_cell(outline_point(xs, ys, flags, j), x_min, y_min, padding, width) matches Some(i)
            && paint_marks(
            cells,
            width,
            contour_vertex_marks(contour_outline_of(xs, ys, flags)->Some_0.1),
            x_min,
            y_min,
            padding,
        )[i] == PixelInfo::InvisibleVertex,
{
    let n = xs.len() as int;
    lemma_polygon_walk(xs, ys, flags, 0);
    let walked = walk_contour(xs, ys, flags, 0, None)->Some_0.1;
    assert(walked.len() == n + 1);
    let vs = walked.push(walked[1]);
    assert(contour_outline_of(xs, ys, flags)->Some_0.1 == vs);
    assert(window_count(vs) == n);
    let k = if j == 0 { n - 1 } else { j - 1 };
    assert(vs[k + 1] == outline_point(xs, ys, flags, j)) by {
        if j == 0 {
            assert(vs[n] == walked[n]);
        } else {
            assert(vs[j] == walked[j]);
        }
    }
    assert(vs[k] == outline_point(xs, ys, flags, if j == 0 { n - 1 } else { j - 1 }));
    assert(vs[k + 2] == outline_point(xs, ys, flags, j + 1)) by {
        if j == 0 {
            assert(vs[n + 1] == walked[1]);
        } else {
            assert(vs[j + 1] == walked[j + 1]);
        }
    }
    assert forall|a: int| 0 <= a < window_count(vs) && a != k implies vertex_cell(
        #[trigger] vs[a + 1],
        x_min,
        y_min,
        padding,
        width,
    ) != vertex_cell(vs[k + 1], x_min, y_min, padding, width) by {
        assert(vs[a + 1] == walked[a + 1]);
        if a + 1 == n {
            assert(outline_point(xs, ys, flags, n) == outline_point(xs, ys, flags, 0));
            assert(vertex_cell(outline_point(xs, ys, flags, 0), x_min, y_min, padding, width)
                != vertex_cell(outline_point(xs, ys, flags, j), x_min, y_min, padding, width));
        } else {
            assert(vertex_cell(outline_point(xs, ys, flags, a + 1), x_min, y_min, padding, width)
                != vertex_cell(outline_point(xs, ys, flags, j), x_min, y_min, padding, width));
        }
    }
    law_turning_vertex_is_invisible(cells, width, vs, x_min, y_min, padding, k);
}

} // verus!
