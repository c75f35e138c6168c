use vstd::prelude::*;

use crate::animation::lemma_interpolation_bounds;
use crate::field::{block_exceeds_screen_edge, slivers, wrap_anchor, Field};
use crate::game::{GameState, GameView};
use crate::geometry::{
    box_vertices, ints, push_rect, rect_vertices, rects_vertices, Rect, Segment, CELL_HEIGHT,
    CELL_WIDTH,
};
use crate::snake::lemma_held_in_limits;

verus! {

/// What a vertex is painted as.
#[derive(Clone, Copy, Debug, PartialEq, Eq, Structural)]
pub enum Paint {
    Snake,
    Apple,
}

/// One frame for the renderer: flat `x, y` vertex pairs of triangles, and
/// one paint per vertex.
pub struct Frame {
    pub vertices: Vec<i64>,
    pub paints: Vec<Paint>,
}

/// The positions the snake is drawn at: while a step is in flight, the head
/// eased towards its end and the body already at its end.
pub open spec fn render_segments(v: GameView, now: nat) -> Seq<Segment> {
    match v.animation {
        Some(a) => seq![a.interpolate_at(now)] + a.end_position.skip(1),
        None => v.snake,
    }
}

/// A segment's slivers, then its box at its relocated anchor.
pub open spec fn segment_vertices(f: Field, s: Segment) -> Seq<int> {
    rects_vertices(slivers(f, s)) + rect_vertices(
        Rect { x: wrap_anchor(f, s).x, y: wrap_anchor(f, s).y, width: CELL_WIDTH, height: CELL_HEIGHT },
    )
}

pub open spec fn segments_vertices(f: Field, ss: Seq<Segment>) -> Seq<int>
    decreases ss.len(),
{
    if ss.len() == 0 {
        seq![]
    } else {
        segments_vertices(f, ss.drop_last()) + segment_vertices(f, ss.last())
    }
}

pub open spec fn apple_vertices(apple: Option<Segment>) -> Seq<int> {
    match apple {
        Some(a) => box_vertices(a.x as int, a.y as int, CELL_WIDTH as int, CELL_HEIGHT as int),
        None => seq![],
    }
}

/// The snake's vertices, then the apple's.
pub open spec fn frame_vertices(v: GameView, now: nat) -> Seq<int> {
    segments_vertices(v.field, render_segments(v, now)) + apple_vertices(v.apple)
}

proof fn lemma_rects_len(rs: Seq<Rect>)
    ensures
        rects_vertices(rs).len() == 12 * rs.len(),
    decreases rs.len(),
{
    if rs.len() > 0 {
        lemma_rects_len(rs.drop_last());
    }
}

proof fn lemma_segments_len_even(f: Field, ss: Seq<Segment>)
    ensures
        segments_vertices(f, ss).len() % 2 == 0,
    decreases ss.len(),
{
    if ss.len() > 0 {
        lemma_segments_len_even(f, ss.drop_last());
        lemma_rects_len(slivers(f, ss.last()));
    }
}

proof fn lemma_segments_push(f: Field, ss: Seq<Segment>, s: Segment)
    ensures
        segments_vertices(f, ss.push(s)) == segments_vertices(f, ss) + segment_vertices(f, s),
{
    assert(ss.push(s).drop_last() =~= ss);
}

impl GameState {
    /// The positions the snake is drawn at, at time `now`.
    fn render_positions(&self, now: u64) -> (r: Vec<Segment>)
        requires
            self@.wf(),
        ensures
            r@ == render_segments(self@, now as nat),
            forall|i: int| 0 <= i < r@.len() ==> (#[trigger] r@[i]).in_limits(),
    {
        match &self.animation {
            None => {
                let r = crate::game::copy_segments(&self.snake);
                assert forall|i: int| 0 <= i < r@.len() implies (#[trigger] r@[i]).in_limits() by {
                    assert(self.field.holds(self.snake@[i]));
                }
                r
            },
            Some(a) => {
                proof {
                    assert(self.field.holds(self.snake@[0]));
                    lemma_held_in_limits(self.field, self.snake@[0], self.direction);
                    lemma_interpolation_bounds(a@, now as nat);
                }
                let mut r: Vec<Segment> = Vec::new();
                r.push(a.interpolate(now));
                let n = a.end_position.len();
                let mut i: usize = 1;
                while i < n
                    invariant
                        self@.wf(),
                        self.animation == Some(*a),
                        n == a.end_position@.len(),
                        1 <= i <= n,
                        r@ == seq![a@.interpolate_at(now as nat)] + a.end_position@.subrange(1, i as int),
                        forall|j: int| 0 <= j < r@.len() ==> (#[trigger] r@[j]).in_limits(),
                    decreases n - i,
                {
                    proof {
                        assert(a.end_position@[i as int] == self.snake@[i - 1]);
                        assert(self.field.holds(self.snake@[i - 1]));
                    }
                    r.push(a.end_position[i]);
                    i = i + 1;
                    assert(r@ =~= seq![a@.interpolate_at(now as nat)] + a.end_position@.subrange(1, i as int));
                }
                assert(a.end_position@.subrange(1, n as int) =~= a.end_position@.skip(1));
                r
            },
        }
    }

    /// The frame to draw at time `now`: the snake with its wrap slivers,
    /// then the apple.
    pub fn render(&self, now: u64) -> (r: Frame)
        requires
            self@.wf(),
        ensures
            ints(r.vertices@) == frame_vertices(self@, now as nat),
            r.paints@.len() * 2 == r.vertices@.len(),
            forall|i: int|
                0 <= i < r.paints@.len() ==> #[trigger] r.paints@[i] == (if 2 * i
                    < segments_vertices(self@.field, render_segments(self@, now as nat)).len() {
                    Paint::Snake
                } else {
                    Paint::Apple
                }),
    {
        let positions = self.render_positions(now);
        let mut vertices: Vec<i64> = Vec::new();
        let mut i: usize = 0;
        while i < positions.len()
            invariant
                self@.wf(),
                i <= positions@.len(),
                forall|j: int| 0 <= j < positions@.len() ==> (#[trigger] positions@[j]).in_limits(),
                ints(vertices@) == segments_vertices(self.field, positions@.take(i as int)),
            decreases positions@.len() - i,
        {
            let mut block = positions[i];
            block_exceeds_screen_edge(&self.field, &mut block, &mut vertices);
            push_rect(&mut vertices, Rect { x: block.x, y: block.y, width: CELL_WIDTH, height: CELL_HEIGHT });
            proof {
                lemma_segments_push(self.field, positions@.take(i as int), positions@[i as int]);
                assert(positions@.take(i as int).push(positions@[i as int]) =~= positions@.take(i + 1));
            }
            i = i + 1;
        }
        assert(positions@.take(positions@.len() as int) =~= positions@);
        proof {
            lemma_segments_len_even(self.field, positions@);
        }
        assert(ints(vertices@).len() == vertices@.len());
        let snake_vertices = vertices.len() / 2;
        let mut paints: Vec<Paint> = Vec::new();
        let mut k: usize = 0;
        while k < snake_vertices
            invariant
                k <= snake_vertices,
                paints@.len() == k,
                forall|j: int| 0 <= j < k ==> #[trigger] paints@[j] == Paint::Snake,
            decreases snake_vertices - k,
        {
            paints.push(Paint::Snake);
            k = k + 1;
        }
        if let Some(a) = self.apple {
            push_rect(&mut vertices, Rect { x: a.x, y: a.y, width: CELL_WIDTH, height: CELL_HEIGHT });
            assert(ints(vertices@).len() == vertices@.len());
            let mut m: usize = 0;
            while m < 6
                invariant
                    m <= 6,
                    paints@.len() == snake_vertices + m,
                    forall|j: int| 0 <= j < snake_vertices ==> #[trigger] paints@[j] == Paint::Snake,
                    forall|j: int| snake_vertices <= j < paints@.len() ==> #[trigger] paints@[j] == Paint::Apple,
                decreases 6 - m,
            {
                paints.push(Paint::Apple);
                m = m + 1;
            }
        } else {
            assert(ints(vertices@) =~= ints(vertices@) + apple_vertices(self.apple));
        }
        Frame { vertices, paints }
    }
}

} // verus!
