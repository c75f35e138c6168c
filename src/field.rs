use vstd::prelude::*;

use crate::geometry::{
    coord_ok, ints, push_rect, rect_vertices, rects_vertices, Rect, Segment, CELL_HEIGHT,
    CELL_WIDTH,
};

verus! {

/// Largest width or height of a field.
pub const FIELD_LIMIT: i64 = 1_000_000;

/// The wrap-around play field, in field units.
#[derive(Clone, Copy, Debug, PartialEq, Eq, Structural)]
pub struct Field {
    pub width: i64,
    pub height: i64,
}

impl Field {
    /// The field is at least ten cells across and two cells down, so that the
    /// starting snake and the cell behind it lie on it.
    pub open spec fn wf(self) -> bool {
        10 * CELL_WIDTH <= self.width <= FIELD_LIMIT && 2 * CELL_HEIGHT <= self.height
            <= FIELD_LIMIT
    }

    /// The field holds at least one cell each way.
    pub open spec fn fits(self) -> bool {
        CELL_WIDTH <= self.width <= FIELD_LIMIT && CELL_HEIGHT <= self.height <= FIELD_LIMIT
    }

    /// An anchor that is at least partly on the field.
    pub open spec fn holds(self, s: Segment) -> bool {
        -CELL_WIDTH < s.x < self.width && -CELL_HEIGHT < s.y < self.height
    }
}

/// Horizontal wrap of an anchor: past the right edge it moves to the left
/// edge, fully past the left edge it moves to the last column.
pub open spec fn wrap_x(f: Field, x: int) -> int {
    if x >= f.width {
        0
    } else if x + CELL_WIDTH <= 0 {
        f.width - CELL_WIDTH
    } else {
        x
    }
}

/// Vertical wrap of an anchor, as `wrap_x`.
pub open spec fn wrap_y(f: Field, y: int) -> int {
    if y >= f.height {
        0
    } else if y + CELL_HEIGHT <= 0 {
        f.height - CELL_HEIGHT
    } else {
        y
    }
}

/// Where an anchor is relocated to, each axis on its own.
pub open spec fn wrap_anchor(f: Field, s: Segment) -> Segment {
    Segment { x: wrap_x(f, s.x as int) as i64, y: wrap_y(f, s.y as int) as i64 }
}

/// The part of a box that straddles the right edge, drawn at the left edge.
pub open spec fn sliver_right(f: Field, s: Segment) -> Seq<Rect> {
    if f.width - CELL_WIDTH < s.x < f.width {
        seq![
            Rect {
                x: 0,
                y: s.y,
                width: (s.x + CELL_WIDTH - f.width) as i64,
                height: CELL_HEIGHT,
            },
        ]
    } else {
        seq![]
    }
}

/// The part of a box that straddles the left edge, drawn at the right edge.
pub open spec fn sliver_left(f: Field, s: Segment) -> Seq<Rect> {
    if -CELL_WIDTH < s.x <= 0 {
        seq![
            Rect {
                x: (f.width + s.x) as i64,
                y: s.y,
                width: (-s.x) as i64,
                height: CELL_HEIGHT,
            },
        ]
    } else {
        seq![]
    }
}

/// The part of a box that straddles the far vertical edge, drawn at `y = 0`.
pub open spec fn sliver_up(f: Field, s: Segment) -> Seq<Rect> {
    if f.height - CELL_HEIGHT < s.y < f.height {
        seq![
            Rect {
                x: s.x,
                y: 0,
                width: CELL_WIDTH,
                height: (s.y + CELL_HEIGHT - f.height) as i64,
            },
        ]
    } else {
        seq![]
    }
}

/// The part of a box that straddles `y = 0`, drawn at the far vertical edge.
pub open spec fn sliver_down(f: Field, s: Segment) -> Seq<Rect> {
    if -CELL_HEIGHT < s.y <= 0 {
        seq![
            Rect {
                x: s.x,
                y: (f.height + s.y) as i64,
                width: CELL_WIDTH,
                height: (-s.y) as i64,
            },
        ]
    } else {
        seq![]
    }
}

/// The extra boxes drawn for a box that straddles an edge, in the order
/// right, left, up, down.
pub open spec fn slivers(f: Field, s: Segment) -> Seq<Rect> {
    sliver_right(f, s) + sliver_left(f, s) + sliver_up(f, s) + sliver_down(f, s)
}

proof fn lemma_rects_vertices_push(rs: Seq<Rect>, r: Rect)
    ensures
        rects_vertices(rs.push(r)) == rects_vertices(rs) + rect_vertices(r),
{
    assert(rs.push(r).drop_last() =~= rs);
}

/// Appends the sliver of `opt` (none or one box) to `out`, keeping
/// `emitted` the list of boxes whose vertices have been appended.
fn push_sliver(
    out: &mut Vec<i64>,
    emitted: Ghost<Seq<Rect>>,
    base: Ghost<Seq<int>>,
    present: bool,
    r: Rect,
) -> (added: Ghost<Seq<Rect>>)
    requires
        r.in_limits(),
        ints(old(out)@) == base@ + rects_vertices(emitted@),
    ensures
        added@ == emitted@ + (if present {
            seq![r]
        } else {
            seq![]
        }),
        ints(final(out)@) == base@ + rects_vertices(added@),
{
    if present {
        push_rect(out, r);
        proof {
            lemma_rects_vertices_push(emitted@, r);
            assert(emitted@ + seq![r] =~= emitted@.push(r));
        }
        Ghost(emitted@ + seq![r])
    } else {
        assert(emitted@ + seq![] =~= emitted@);
        Ghost(emitted@)
    }
}

/// Relocates an anchor that has fully crossed an edge to the opposite one.
pub fn wrap_segment(field: &Field, s: Segment) -> (r: Segment)
    requires
        field.fits(),
        s.in_limits(),
    ensures
        r == wrap_anchor(*field, s),
{
    let x = if s.x >= field.width {
        0
    } else if s.x + CELL_WIDTH <= 0 {
        field.width - CELL_WIDTH
    } else {
        s.x
    };
    let y = if s.y >= field.height {
        0
    } else if s.y + CELL_HEIGHT <= 0 {
        field.height - CELL_HEIGHT
    } else {
        s.y
    };
    Segment { x, y }
}

/// Wrap-clip of one box: relocates `block` to the opposite edge where it
/// has fully crossed one, and appends to `resulting_position` the vertices
/// of the slivers that show the part peeking in from the far edge while it
/// straddles one.
pub fn block_exceeds_screen_edge(field: &Field, block: &mut Segment, resulting_position: &mut Vec<i64>)
    requires
        field.fits(),
        old(block).in_limits(),
    ensures
        *final(block) == wrap_anchor(*field, *old(block)),
        ints(final(resulting_position)@) == ints(old(resulting_position)@) + rects_vertices(
            slivers(*field, *old(block)),
        ),
{
    let x = block.x;
    let y = block.y;
    let w = field.width;
    let h = field.height;
    let ghost base = ints(resulting_position@);
    let ghost s = *block;
    assert(base + rects_vertices(Seq::<Rect>::empty()) =~= base);

    let right = x > w - CELL_WIDTH && x < w;
    let e1 = push_sliver(
        resulting_position,
        Ghost(Seq::empty()),
        Ghost(base),
        right,
        Rect { x: 0, y, width: if right { x + CELL_WIDTH - w } else { 0 }, height: CELL_HEIGHT },
    );

    let left = x > -CELL_WIDTH && x <= 0;
    let e2 = push_sliver(
        resulting_position,
        e1,
        Ghost(base),
        left,
        Rect {
            x: if left { w + x } else { 0 },
            y,
            width: if left { -x } else { 0 },
            height: CELL_HEIGHT,
        },
    );

    let up = y > h - CELL_HEIGHT && y < h;
    let e3 = push_sliver(
        resulting_position,
        e2,
        Ghost(base),
        up,
        Rect { x, y: 0, width: CELL_WIDTH, height: if up { y + CELL_HEIGHT - h } else { 0 } },
    );

    let down = y > -CELL_HEIGHT && y <= 0;
    let e4 = push_sliver(
        resulting_position,
        e3,
        Ghost(base),
        down,
        Rect {
            x,
            y: if down { h + y } else { 0 },
            width: CELL_WIDTH,
            height: if down { -y } else { 0 },
        },
    );
    assert(e4@ =~= slivers(*field, s));

    *block = wrap_segment(field, *block);
}

} // verus!
