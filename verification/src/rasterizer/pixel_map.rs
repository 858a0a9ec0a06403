use vstd::prelude::*;

verus! {

/// What the outline drawing left in one pixel of the map.
///
/// `Zero` marks a pixel of an edge that goes down (its start is above its
/// end), `One` one of an edge that goes up; the vertex kinds mark contour
/// vertices that the scanline fill treats specially.
#[derive(Clone, Copy, Debug, PartialEq, Eq, Structural)]
pub enum PixelInfo {
    Empty,
    Zero,
    One,
    InvisibleVertex,
    VisibleVertexZero,
    VisibleVertexOne,
}

/// The value a pixel holds after `info` is written over `old`.
///
/// Two edges of opposite direction through one pixel make it an invisible
/// vertex, an invisible vertex is not overwritten by an edge, and any other
/// write replaces the old value.
pub open spec fn merged_pixel(info: PixelInfo, old: PixelInfo) -> PixelInfo {
    match (info, old) {
        (PixelInfo::One, PixelInfo::InvisibleVertex) => PixelInfo::InvisibleVertex,
        (PixelInfo::Zero, PixelInfo::InvisibleVertex) => PixelInfo::InvisibleVertex,
        (PixelInfo::One, PixelInfo::Zero) => PixelInfo::InvisibleVertex,
        (PixelInfo::Zero, PixelInfo::One) => PixelInfo::InvisibleVertex,
        _ => info,
    }
}

/// A cell index below the length of the map is computed without overflow.
proof fn lemma_index_fits(x: int, y: int, w: int, len: int)
    requires
        0 <= x,
        0 <= y,
        0 <= w,
        x + y * w < len,
    ensures
        0 <= y * w <= x + y * w,
{
    assert(0 <= y * w) by (nonlinear_arith)
        requires
            0 <= y,
            0 <= w,
    ;
}

/// A row index past `(usize::MAX - x) / w` puts the cell index past `usize::MAX`.
proof fn lemma_row_overflow(x: int, y: int, w: int)
    requires
        0 <= x <= usize::MAX,
        0 < w,
        y > (usize::MAX - x) / w,
    ensures
        x + y * w > usize::MAX,
{
    assert(y * w >= ((usize::MAX - x) / w + 1) * w) by (nonlinear_arith)
        requires
            y >= (usize::MAX - x) / w + 1,
            0 < w,
    ;
    assert(((usize::MAX - x) / w + 1) * w > usize::MAX - x) by (nonlinear_arith)
        requires
            0 <= usize::MAX - x,
            0 < w,
    ;
}

/// A row index up to `(usize::MAX - x) / w` keeps the cell index within `usize`.
proof fn lemma_row_fits(x: int, y: int, w: int)
    requires
        0 <= x <= usize::MAX,
        0 <= y,
        0 < w,
        y <= (usize::MAX - x) / w,
    ensures
        0 <= y * w,
        x + y * w <= usize::MAX,
{
    assert(y * w <= ((usize::MAX - x) / w) * w) by (nonlinear_arith)
        requires
            y <= (usize::MAX - x) / w,
            0 < w,
    ;
    assert(((usize::MAX - x) / w) * w <= usize::MAX - x) by (nonlinear_arith)
        requires
            0 <= usize::MAX - x,
            0 < w,
    ;
    assert(0 <= y * w) by (nonlinear_arith)
        requires
            0 <= y,
            0 < w,
    ;
}

/// A row-major grid of `PixelInfo`; the cell of `(x, y)` is `x + y * width`.
pub struct PixelMap {
    width: usize,
    map: Vec<PixelInfo>,
}

impl PixelMap {
    /// The width the map was made with.
    pub closed spec fn spec_width(&self) -> nat {
        self.width as nat
    }

    /// The cells of the map, row after row.
    pub closed spec fn cells(&self) -> Seq<PixelInfo> {
        self.map@
    }

    /// The cell index of `(x, y)`.
    pub open spec fn index_of(&self, x: int, y: int) -> int {
        x + y * self.spec_width()
    }

    /// Whether `(x, y)` addresses a cell of the map.
    pub open spec fn in_map(&self, x: int, y: int) -> bool {
        0 <= self.index_of(x, y) < self.cells().len()
    }

    /// A map of `width * height` empty cells.
    pub fn new(width: usize, height: usize) -> (res: Self)
        requires
            width * height <= usize::MAX,
        ensures
            res.spec_width() == width,
            res.cells() == Seq::new((width * height) as nat, |i: int| PixelInfo::Empty),
    {
        let n = width * height;
        let mut map: Vec<PixelInfo> = Vec::with_capacity(n);
        let mut i: usize = 0;
        while i < n
            invariant
                i <= n,
                map@ == Seq::new(i as nat, |k: int| PixelInfo::Empty),
            decreases n - i,
        {
            map.push(PixelInfo::Empty);
            i = i + 1;
        }
        PixelMap { width, map }
    }

    /// Writes `info` into the cell of `(x, y)`, merged with what the cell held.
    pub fn set(&mut self, info: PixelInfo, x: usize, y: usize)
        requires
            old(self).in_map(x as int, y as int),
        ensures
            final(self).spec_width() == old(self).spec_width(),
            final(self).cells() == old(self).cells().update(
                old(self).index_of(x as int, y as int),
                merged_pixel(info, old(self).cells()[old(self).index_of(x as int, y as int)]),
            ),
    {
        let len = self.map.len();
        proof {
            lemma_index_fits(x as int, y as int, self.width as int, len as int);
        }
        let idx = x + y * self.width;
        let current = self.map[idx];
        let next = match (info, current) {
            (PixelInfo::One, PixelInfo::InvisibleVertex)
            | (PixelInfo::Zero, PixelInfo::InvisibleVertex) => current,
            (PixelInfo::One, PixelInfo::Zero) | (PixelInfo::Zero, PixelInfo::One) => {
                PixelInfo::InvisibleVertex
            },
            _ => info,
        };
        self.map.set(idx, next);
    }

    /// Whether `(x, y)` addresses a cell of the map.
    pub fn contains(&self, x: usize, y: usize) -> (res: bool)
        ensures
            res == self.in_map(x as int, y as int),
    {
        let len = self.map.len();
        if self.width == 0 {
            return x < len;
        }
        if y > (usize::MAX - x) / self.width {
            proof {
                lemma_row_overflow(x as int, y as int, self.width as int);
            }
            return false;
        }
        proof {
            lemma_row_fits(x as int, y as int, self.width as int);
        }
        x + y * self.width < len
    }

    /// The cell of `(x, y)`.
    pub fn get_unchecked(&self, x: usize, y: usize) -> (res: PixelInfo)
        requires
            self.in_map(x as int, y as int),
        ensures
            res == self.cells()[self.index_of(x as int, y as int)],
    {
        let len = self.map.len();
        proof {
            lemma_index_fits(x as int, y as int, self.width as int, len as int);
        }
        self.map[x + y * self.width]
    }
}

/// Writing the same value into a pixel twice leaves what writing it once
/// leaves.
/// Writing a mark into a pixel never leaves it empty.
pub proof fn law_mark_never_empties(info: PixelInfo, old: PixelInfo)
    requires
        info != PixelInfo::Empty,
    ensures
        merged_pixel(info, old) != PixelInfo::Empty,
{
}

pub proof fn law_write_idempotent(info: PixelInfo, old: PixelInfo)
    ensures
        merged_pixel(info, merged_pixel(info, old)) == merged_pixel(info, old),
{
}

/// Edges of both directions through one pixel make it an invisible vertex,
/// whichever comes first, and later edges keep it so.
pub proof fn law_crossing_edges_make_vertex(first: PixelInfo, second: PixelInfo, later: PixelInfo)
    requires
        (first == PixelInfo::Zero && second == PixelInfo::One) || (first == PixelInfo::One
            && second == PixelInfo::Zero),
        later == PixelInfo::Zero || later == PixelInfo::One,
    ensures
        merged_pixel(second, merged_pixel(first, PixelInfo::Empty)) == PixelInfo::InvisibleVertex,
        merged_pixel(later, merged_pixel(second, merged_pixel(first, PixelInfo::Empty)))
            == PixelInfo::InvisibleVertex,
{
}

/// `get_unchecked` after `set` at the same pixel gives the merged value; at
/// any other pixel of the map it gives what it gave before.
pub proof fn law_get_after_set(
    before: PixelMap,
    after: PixelMap,
    info: PixelInfo,
    x: int,
    y: int,
    qx: int,
    qy: int,
)
    requires
        before.in_map(x, y),
        after.spec_width() == before.spec_width(),
        after.cells() == before.cells().update(
            before.index_of(x, y),
            merged_pixel(info, before.cells()[before.index_of(x, y)]),
        ),
        before.in_map(qx, qy),
    ensures
        after.in_map(qx, qy),
        before.index_of(qx, qy) == before.index_of(x, y) ==> after.cells()[after.index_of(qx, qy)]
            == merged_pixel(info, before.cells()[before.index_of(x, y)]),
        before.index_of(qx, qy) != before.index_of(x, y) ==> after.cells()[after.index_of(qx, qy)]
            == before.cells()[before.index_of(qx, qy)],
{
}

} // verus!
