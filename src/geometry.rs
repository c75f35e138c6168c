use vstd::prelude::*;

verus! {

/// Width of one grid cell, in field units.
pub const CELL_WIDTH: i64 = 80;

/// Height of one grid cell, in field units.
pub const CELL_HEIGHT: i64 = 80;

/// Both boxes are shrunk by this much on each axis before the overlap
/// test, so that two cells that only share an edge never overlap.
pub const COLLISION_MARGIN: i64 = 15;

/// Largest magnitude of a coordinate or an extent that the geometry accepts.
pub const COORD_LIMIT: i64 = 1_000_000_000;

/// The anchor (upper-left corner) of one grid cell.
#[derive(Clone, Copy, Debug, PartialEq, Eq, Structural)]
pub struct Segment {
    pub x: i64,
    pub y: i64,
}

/// An axis-aligned rectangle, as handed to the renderer.
#[derive(Clone, Copy, Debug, PartialEq, Eq, Structural)]
pub struct Rect {
    pub x: i64,
    pub y: i64,
    pub width: i64,
    pub height: i64,
}

pub open spec fn coord_ok(v: int) -> bool {
    -COORD_LIMIT <= v <= COORD_LIMIT
}

impl Segment {
    pub open spec fn in_limits(self) -> bool {
        coord_ok(self.x as int) && coord_ok(self.y as int)
    }
}

impl Rect {
    pub open spec fn in_limits(self) -> bool {
        coord_ok(self.x as int) && coord_ok(self.y as int) && 0 <= self.width <= COORD_LIMIT && 0
            <= self.height <= COORD_LIMIT
    }
}

/// The six vertices (two triangles) covering `[x, x + w] × [y, y + h]`,
/// flattened as `x, y` pairs.
pub open spec fn box_vertices(x: int, y: int, w: int, h: int) -> Seq<int> {
    seq![x, y, x + w, y, x, y + h, x + w, y + h, x, y + h, x + w, y]
}

pub open spec fn rect_vertices(r: Rect) -> Seq<int> {
    box_vertices(r.x as int, r.y as int, r.width as int, r.height as int)
}

/// The vertices of a sequence of rectangles, one after the other.
pub open spec fn rects_vertices(rs: Seq<Rect>) -> Seq<int>
    decreases rs.len(),
{
    if rs.len() == 0 {
        seq![]
    } else {
        rects_vertices(rs.drop_last()) + rect_vertices(rs.last())
    }
}

/// A vertex buffer as mathematical integers.
pub open spec fn ints(v: Seq<i64>) -> Seq<int> {
    v.map_values(|e: i64| e as int)
}

/// Builds the two triangles of the quad at `(x, y)` with the given size.
pub fn create_box(x: i64, y: i64, width: i64, height: i64) -> (r: Vec<i64>)
    requires
        coord_ok(x as int),
        coord_ok(y as int),
        coord_ok(width as int),
        coord_ok(height as int),
    ensures
        ints(r@) == box_vertices(x as int, y as int, width as int, height as int),
{
    let right = x + width;
    let bottom = y + height;
    let r = vec![x, y, right, y, x, bottom, right, bottom, x, bottom, right, y];
    assert(ints(r@) =~= box_vertices(x as int, y as int, width as int, height as int));
    r
}

/// Appends the vertices of `r` to `out`.
pub fn push_rect(out: &mut Vec<i64>, r: Rect)
    requires
        r.in_limits(),
    ensures
        ints(final(out)@) == ints(old(out)@) + rect_vertices(r),
{
    let mut quad = create_box(r.x, r.y, r.width, r.height);
    let ghost before = out@;
    out.append(&mut quad);
    assert(ints(out@) =~= ints(before) + rect_vertices(r));
}

/// Overlap of two spans of length `extent`, each shrunk by the margin.
pub open spec fn spans_overlap(a: int, b: int, extent: int) -> bool {
    a < b + (extent - COLLISION_MARGIN) && a + (extent - COLLISION_MARGIN) > b
}

/// Whether the cell boxes anchored at `a` and `b` overlap once shrunk.
pub open spec fn boxes_overlap(a: Segment, b: Segment) -> bool {
    spans_overlap(a.x as int, b.x as int, CELL_WIDTH as int) && spans_overlap(
        a.y as int,
        b.y as int,
        CELL_HEIGHT as int,
    )
}

/// Axis-aligned overlap test of two cell boxes, shrunk by the margin.
pub fn box_collision(one: Segment, two: Segment) -> (r: bool)
    requires
        one.in_limits(),
        two.in_limits(),
    ensures
        r == boxes_overlap(one, two),
{
    let reach_x = CELL_WIDTH - COLLISION_MARGIN;
    let reach_y = CELL_HEIGHT - COLLISION_MARGIN;
    let collision_x = one.x < two.x + reach_x && one.x + reach_x > two.x;
    let collision_y = one.y < two.y + reach_y && one.y + reach_y > two.y;
    collision_x && collision_y
}

/// Two cells that share an edge do not overlap; a cell overlaps itself.
pub proof fn lemma_adjacent_cells_do_not_overlap(a: Segment)
    requires
        a.in_limits(),
    ensures
        boxes_overlap(a, a),
        !boxes_overlap(a, Segment { x: (a.x + CELL_WIDTH) as i64, y: a.y }),
        !boxes_overlap(a, Segment { x: (a.x - CELL_WIDTH) as i64, y: a.y }),
        !boxes_overlap(a, Segment { x: a.x, y: (a.y + CELL_HEIGHT) as i64 }),
        !boxes_overlap(a, Segment { x: a.x, y: (a.y - CELL_HEIGHT) as i64 }),
{
}

} // verus!
