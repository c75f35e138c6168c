use vstd::prelude::*;

use crate::field::{slivers, wrap_anchor, Field, FIELD_LIMIT};
use crate::geometry::{box_collision, boxes_overlap, Rect, Segment, CELL_HEIGHT, CELL_WIDTH};

verus! {

/// Number of segments a fresh snake has.
pub const SNAKE_STARTING_LEN: usize = 4;

/// The segments right behind the head that always touch it and are left
/// out of the self-collision test.
pub const NECK_LEN: usize = 3;

/// A heading. `Up` goes towards larger `y`.
#[derive(Clone, Copy, Debug, PartialEq, Eq, Structural)]
pub enum Direction {
    Up,
    Down,
    Left,
    Right,
}

impl Direction {
    pub open spec fn reverse(self) -> Direction {
        match self {
            Direction::Up => Direction::Down,
            Direction::Down => Direction::Up,
            Direction::Left => Direction::Right,
            Direction::Right => Direction::Left,
        }
    }

    /// The heading pointing the other way.
    pub fn opposite(self) -> (r: Direction)
        ensures
            r == self.reverse(),
    {
        match self {
            Direction::Up => Direction::Down,
            Direction::Down => Direction::Up,
            Direction::Left => Direction::Right,
            Direction::Right => Direction::Left,
        }
    }
}

/// The anchor one full cell away from `s` in direction `d`.
pub open spec fn step(s: Segment, d: Direction) -> Segment {
    match d {
        Direction::Up => Segment { x: s.x, y: (s.y + CELL_HEIGHT) as i64 },
        Direction::Down => Segment { x: s.x, y: (s.y - CELL_HEIGHT) as i64 },
        Direction::Left => Segment { x: (s.x - CELL_WIDTH) as i64, y: s.y },
        Direction::Right => Segment { x: (s.x + CELL_WIDTH) as i64, y: s.y },
    }
}

/// Steps `s` one cell in direction `d`.
pub fn step_segment(s: Segment, d: Direction) -> (r: Segment)
    requires
        s.in_limits(),
    ensures
        r == step(s, d),
{
    match d {
        Direction::Up => Segment { x: s.x, y: s.y + CELL_HEIGHT },
        Direction::Down => Segment { x: s.x, y: s.y - CELL_HEIGHT },
        Direction::Left => Segment { x: s.x - CELL_WIDTH, y: s.y },
        Direction::Right => Segment { x: s.x + CELL_WIDTH, y: s.y },
    }
}

/// `a` lies one cell from `b`, across an edge of the field where needed.
pub open spec fn follows(f: Field, a: Segment, b: Segment) -> bool {
    ||| a == wrap_anchor(f, step(b, Direction::Up))
    ||| a == wrap_anchor(f, step(b, Direction::Down))
    ||| a == wrap_anchor(f, step(b, Direction::Left))
    ||| a == wrap_anchor(f, step(b, Direction::Right))
}

/// Each segment lies one cell from the one behind it.
pub open spec fn connected(f: Field, snake: Seq<Segment>) -> bool {
    forall|i: int| 0 <= i < snake.len() - 1 ==> #[trigger] follows(f, snake[i], snake[i + 1])
}

/// Every segment is at least partly on the field.
pub open spec fn all_held(f: Field, snake: Seq<Segment>) -> bool {
    forall|i: int| 0 <= i < snake.len() ==> #[trigger] f.holds(snake[i])
}

/// The snake after its head moved to `head`: every other segment takes the
/// place of the one before it, and the old tail is left.
pub open spec fn moved(snake: Seq<Segment>, head: Segment) -> Seq<Segment> {
    seq![head] + snake.take(snake.len() - 1)
}

/// A held anchor stays within the coordinate limits, and so do its steps.
pub proof fn lemma_held_in_limits(f: Field, s: Segment, d: Direction)
    requires
        f.wf(),
        f.holds(s),
    ensures
        s.in_limits(),
        step(s, d).in_limits(),
        f.holds(wrap_anchor(f, step(s, d))),
{
}

/// Rigid follow movement: the head goes to `head_movement`, each trailing
/// segment to where its predecessor was.
pub fn move_snake(snake: &Vec<Segment>, head_movement: Segment) -> (r: Vec<Segment>)
    requires
        snake@.len() >= 1,
    ensures
        r@ == moved(snake@, head_movement),
{
    let mut r: Vec<Segment> = Vec::new();
    r.push(head_movement);
    let n = snake.len();
    let mut i: usize = 0;
    while i + 1 < n
        invariant
            n == snake@.len(),
            n >= 1,
            i + 1 <= n,
            r@ == seq![head_movement] + snake@.take(i as int),
        decreases n - i,
    {
        r.push(snake[i]);
        i = i + 1;
        assert(r@ =~= seq![head_movement] + snake@.take(i as int));
    }
    r
}

/// Whether the head overlaps a segment past the neck.
pub open spec fn hits_itself(snake: Seq<Segment>) -> bool {
    exists|i: int| NECK_LEN <= i < snake.len() && #[trigger] boxes_overlap(snake[0], snake[i])
}

/// Self-collision test: the head against every segment from the fourth on.
pub fn collisions(snake: &Vec<Segment>) -> (r: bool)
    requires
        snake@.len() >= 1,
        forall|i: int| 0 <= i < snake@.len() ==> (#[trigger] snake@[i]).in_limits(),
    ensures
        r == hits_itself(snake@),
{
    let head = snake[0];
    let mut i: usize = NECK_LEN;
    while i < snake.len()
        invariant
            NECK_LEN <= i,
            forall|j: int| 0 <= j < snake@.len() ==> (#[trigger] snake@[j]).in_limits(),
            snake@.len() >= 1,
            head == snake@[0],
            forall|j: int| NECK_LEN <= j < i && j < snake@.len() ==> !boxes_overlap(head, #[trigger] snake@[j]),
        decreases snake@.len() - i,
    {
        if box_collision(head, snake[i]) {
            return true;
        }
        i = i + 1;
    }
    false
}

/// Whether the head's box overlaps the apple's.
pub open spec fn eats(head: Segment, apple: Option<Segment>) -> bool {
    match apple {
        Some(a) => boxes_overlap(head, a),
        None => false,
    }
}

/// Head and apple test; false where there is no apple.
pub fn did_the_snek_eat_the_apple(head: Segment, apple: Option<Segment>) -> (r: bool)
    requires
        head.in_limits(),
        apple matches Some(a) ==> a.in_limits(),
    ensures
        r == eats(head, apple),
{
    match apple {
        Some(a) => box_collision(head, a),
        None => false,
    }
}

/// The column (or row) nearest the middle of an extent, as an anchor.
pub open spec fn centre(extent: int, cell: int) -> int {
    ((extent + cell) / (2 * cell)) * cell
}

/// The fresh snake: its head in the middle cell, its body stretching
/// right, so that it can head left.
pub open spec fn starting_snake(f: Field) -> Seq<Segment> {
    Seq::new(
        SNAKE_STARTING_LEN as nat,
        |i: int|
            Segment {
                x: (centre(f.width as int, CELL_WIDTH as int) + i * CELL_WIDTH) as i64,
                y: centre(f.height as int, CELL_HEIGHT as int) as i64,
            },
    )
}

/// The cell the fresh snake's tail came from.
pub open spec fn starting_trail(f: Field) -> Segment {
    Segment {
        x: (centre(f.width as int, CELL_WIDTH as int) + SNAKE_STARTING_LEN * CELL_WIDTH) as i64,
        y: centre(f.height as int, CELL_HEIGHT as int) as i64,
    }
}

proof fn lemma_centre_bounds(extent: int, cell: int)
    requires
        cell == 80,
        2 * cell <= extent <= FIELD_LIMIT,
    ensures
        0 <= centre(extent, cell) <= (extent + cell) / 2,
        centre(extent, cell) % cell == 0,
{
    let q = (extent + cell) / (2 * cell);
    vstd::arithmetic::div_mod::lemma_fundamental_div_mod(extent + cell, 2 * cell);
    vstd::arithmetic::div_mod::lemma_mod_bound(extent + cell, 2 * cell);
    assert(q >= 0) by {
        vstd::arithmetic::div_mod::lemma_div_pos_is_pos(extent + cell, 2 * cell);
    }
    vstd::arithmetic::div_mod::lemma_mod_multiples_basic(q, cell);
}

/// The fresh snake lies on the field, one cell per segment, and its trail
/// cell lies one cell behind its tail.
pub proof fn lemma_starting_snake(f: Field)
    requires
        f.wf(),
    ensures
        starting_snake(f).len() == SNAKE_STARTING_LEN,
        all_held(f, starting_snake(f)),
        connected(f, starting_snake(f)),
        f.holds(starting_trail(f)),
        follows(f, starting_snake(f).last(), starting_trail(f)),
{
    lemma_centre_bounds(f.width as int, CELL_WIDTH as int);
    lemma_centre_bounds(f.height as int, CELL_HEIGHT as int);
    let s = starting_snake(f);
    assert forall|i: int| 0 <= i < s.len() - 1 implies #[trigger] follows(f, s[i], s[i + 1]) by {
        assert(s[i] == wrap_anchor(f, step(s[i + 1], Direction::Left)));
    }
    assert(s.last() == wrap_anchor(f, step(starting_trail(f), Direction::Left)));
}

/// Builds the fresh snake for a field.
pub fn initiate_snake(field: &Field) -> (r: Vec<Segment>)
    requires
        field.wf(),
    ensures
        r@ == starting_snake(*field),
{
    proof {
        lemma_centre_bounds(field.width as int, CELL_WIDTH as int);
        lemma_centre_bounds(field.height as int, CELL_HEIGHT as int);
    }
    let x0 = ((field.width + CELL_WIDTH) / (2 * CELL_WIDTH)) * CELL_WIDTH;
    let y0 = ((field.height + CELL_HEIGHT) / (2 * CELL_HEIGHT)) * CELL_HEIGHT;
    let mut r: Vec<Segment> = Vec::new();
    let mut i: usize = 0;
    while i < SNAKE_STARTING_LEN
        invariant
            i <= SNAKE_STARTING_LEN,
            x0 == centre(field.width as int, CELL_WIDTH as int),
            y0 == centre(field.height as int, CELL_HEIGHT as int),
            0 <= x0 <= FIELD_LIMIT,
            r@ =~= starting_snake(*field).take(i as int),
        decreases SNAKE_STARTING_LEN - i,
    {
        r.push(Segment { x: x0 + (i as i64) * CELL_WIDTH, y: y0 });
        i = i + 1;
        assert(r@ =~= starting_snake(*field).take(i as int));
    }
    r
}

/// The cell the fresh snake's tail came from.
pub fn initiate_trail(field: &Field) -> (r: Segment)
    requires
        field.wf(),
    ensures
        r == starting_trail(*field),
{
    proof {
        lemma_centre_bounds(field.width as int, CELL_WIDTH as int);
        lemma_centre_bounds(field.height as int, CELL_HEIGHT as int);
    }
    let x0 = ((field.width + CELL_WIDTH) / (2 * CELL_WIDTH)) * CELL_WIDTH;
    let y0 = ((field.height + CELL_HEIGHT) / (2 * CELL_HEIGHT)) * CELL_HEIGHT;
    Segment { x: x0 + (SNAKE_STARTING_LEN as i64) * CELL_WIDTH, y: y0 }
}

/// Whether two headings lie on the same axis.
pub open spec fn same_axis(a: Direction, b: Direction) -> bool {
    a == b || a == b.reverse()
}

/// The pending heading after the player asks for `wanted`: a reversal of
/// the current heading is ignored, and so is a request on the axis that is
/// already pending; otherwise `wanted` replaces what was pending.
pub open spec fn queued(current: Direction, pending: Option<Direction>, wanted: Direction) -> Option<
    Direction,
> {
    if wanted == current.reverse() {
        pending
    } else {
        match pending {
            Some(p) => if same_axis(p, wanted) {
                pending
            } else {
                Some(wanted)
            },
            None => Some(wanted),
        }
    }
}

/// Computes `queued`.
pub fn queue_direction(current: Direction, pending: Option<Direction>, wanted: Direction) -> (r:
    Option<Direction>)
    ensures
        r == queued(current, pending, wanted),
{
    if wanted == current.opposite() {
        return pending;
    }
    match pending {
        Some(p) => {
            if p == wanted || p == wanted.opposite() {
                pending
            } else {
                Some(wanted)
            }
        },
        None => Some(wanted),
    }
}

/// A segment in the column just left of the right edge, moving right, is
/// relocated to `x = 0` once the step is done. While a box on its row
/// straddles the right edge it shows exactly one sliver, at `x = 0` and as
/// wide as the part past the edge; once it has fully crossed, none.
pub proof fn lemma_wrap_right_edge(f: Field, s: Segment, p: Segment)
    requires
        f.fits(),
        s.x == f.width - 1,
        0 < s.y,
        s.y + CELL_HEIGHT <= f.height,
        p.y == s.y,
        s.x <= p.x <= s.x + CELL_WIDTH,
    ensures
        wrap_anchor(f, step(s, Direction::Right)).x == 0,
        wrap_anchor(f, step(s, Direction::Right)).y == s.y,
        p.x < f.width ==> slivers(f, p) == seq![
            Rect { x: 0, y: s.y, width: (p.x + CELL_WIDTH - f.width) as i64, height: CELL_HEIGHT },
        ],
        p.x >= f.width ==> slivers(f, p) == Seq::<Rect>::empty(),
{
    assert(slivers(f, p) =~= crate::field::sliver_right(f, p));
}

} // verus!
