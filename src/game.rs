use vstd::prelude::*;

use crate::animation::{Animation, AnimationView};
use crate::field::{wrap_anchor, wrap_segment, Field};
use crate::geometry::{boxes_overlap, Segment};
use crate::snake::{
    all_held, collisions, connected, did_the_snek_eat_the_apple, eats, follows, hits_itself,
    initiate_snake, initiate_trail, lemma_held_in_limits, lemma_starting_snake, move_snake, moved,
    queue_direction, queued, starting_snake, starting_trail, step, step_segment, Direction,
    SNAKE_STARTING_LEN,
};
use crate::spawner::{
    columns, free_cells, lemma_free_cells_on_field, occupied, rows, spawn_apple, spawn_choice,
};

verus! {

/// How long one step of the snake takes, in milliseconds.
pub const ANIMATION_DURATION: u64 = 200;

/// The whole state of one game.
pub struct GameState {
    pub field: Field,
    /// Head first.
    pub snake: Vec<Segment>,
    /// Where the tail was before the last completed step; cleared when the
    /// snake grows into it.
    pub previous_tail: Option<Segment>,
    pub apple: Option<Segment>,
    /// The committed heading.
    pub direction: Direction,
    /// The heading the player asked for; it stays until replaced.
    pub pending: Option<Direction>,
    /// The step in flight, if any.
    pub animation: Option<Animation>,
    pub paused: bool,
}

/// The mathematical model of a `GameState`.
pub struct GameView {
    pub field: Field,
    pub snake: Seq<Segment>,
    pub previous_tail: Option<Segment>,
    pub apple: Option<Segment>,
    pub direction: Direction,
    pub pending: Option<Direction>,
    pub animation: Option<AnimationView>,
    pub paused: bool,
}

impl View for GameState {
    type V = GameView;

    open spec fn view(&self) -> GameView {
        GameView {
            field: self.field,
            snake: self.snake@,
            previous_tail: self.previous_tail,
            apple: self.apple,
            direction: self.direction,
            pending: self.pending,
            animation: match self.animation {
                Some(a) => Some(a@),
                None => None,
            },
            paused: self.paused,
        }
    }
}

/// What a tick tells the outside: the score at a game over, the new score
/// after eating.
#[derive(Clone, Copy, Debug, PartialEq, Eq, Structural)]
pub struct TickEvents {
    pub game_over: Option<usize>,
    pub scored: Option<usize>,
}

/// The animation that moves `snake` one cell in direction `d` from `now`.
pub open spec fn step_animation(snake: Seq<Segment>, d: Direction, now: nat) -> AnimationView {
    AnimationView {
        start_time: now,
        duration: ANIMATION_DURATION as nat,
        start_position: snake,
        end_position: moved(snake, step(snake[0], d)),
        is_paused: false,
        pause_start_time: 0,
        pause_total: 0,
    }
}

impl GameView {
    /// The snake is at least the starting length, on the field, each segment
    /// one cell from the next; the cell behind the tail, where known, is one
    /// cell behind it; an apple under the head can only be there while that
    /// cell is known; a step in flight starts at the snake and moves it one
    /// cell along the heading; the pending heading never reverses the
    /// committed one.
    pub open spec fn wf(self) -> bool {
        &&& self.field.wf()
        &&& self.pending != Some(self.direction.reverse())
        &&& SNAKE_STARTING_LEN <= self.snake.len()
        &&& all_held(self.field, self.snake)
        &&& connected(self.field, self.snake)
        &&& (self.previous_tail matches Some(p) ==> self.field.holds(p) && follows(
            self.field,
            self.snake.last(),
            p,
        ))
        &&& (self.previous_tail is None ==> !eats(self.snake[0], self.apple))
        &&& (self.apple matches Some(a) ==> self.field.holds(a))
        &&& (self.animation matches Some(a) ==> a.wf() && a.start_position == self.snake
            && a.end_position == moved(self.snake, step(self.snake[0], self.direction)))
    }

    /// Segments beyond the starting length.
    pub open spec fn score(self) -> int {
        self.snake.len() - SNAKE_STARTING_LEN
    }

    /// A head that overlaps a segment past the neck ends the game, which
    /// starts afresh.
    pub open spec fn after_collision(self) -> GameView {
        if hits_itself(self.snake) {
            initial_view(self.field)
        } else {
            self
        }
    }

    /// A head that overlaps the apple eats it: the snake grows by the cell
    /// its tail left last, and the step in flight grows with it.
    pub open spec fn after_eating(self) -> GameView {
        if eats(self.snake[0], self.apple) {
            let p = self.previous_tail->Some_0;
            GameView {
                snake: self.snake.push(p),
                previous_tail: None,
                apple: None,
                animation: match self.animation {
                    Some(a) => Some(
                        AnimationView {
                            start_position: a.start_position.push(p),
                            end_position: a.end_position.push(self.snake.last()),
                            ..a
                        },
                    ),
                    None => None,
                },
                ..self
            }
        } else {
            self
        }
    }

    /// A finished step is committed: the snake takes its end position, the
    /// head relocated across an edge it has fully crossed.
    pub open spec fn after_advance(self, now: nat) -> GameView {
        match self.animation {
            Some(a) => if a.done_at(now) {
                GameView {
                    snake: a.end_position.update(0, wrap_anchor(self.field, a.end_position[0])),
                    previous_tail: Some(self.snake.last()),
                    animation: None,
                    ..self
                }
            } else {
                self
            },
            None => self,
        }
    }

    /// A move towards `d`: ignored while a step is in flight or where `d`
    /// reverses the heading; otherwise `d` becomes the heading and the
    /// pending one, and its step starts at `now`.
    pub open spec fn proposed(self, d: Direction, now: nat) -> GameView {
        if self.animation is Some || d == self.direction.reverse() {
            self
        } else {
            GameView {
                direction: d,
                pending: Some(d),
                animation: Some(step_animation(self.snake, d, now)),
                ..self
            }
        }
    }

    /// The pending heading, if any, is proposed.
    pub open spec fn after_input(self, now: nat) -> GameView {
        match self.pending {
            Some(d) => self.proposed(d, now),
            None => self,
        }
    }

    /// Without an apple, one is placed on a free cell picked by `seed`.
    pub open spec fn after_spawn(self, seed: nat) -> GameView {
        if self.apple is Some {
            self
        } else {
            GameView { apple: spawn_choice(free_cells(self.snake, self.field), seed), ..self }
        }
    }

    /// One tick: nothing while paused; otherwise collision, eating, the step
    /// in flight, the pending heading and the apple, in that order.
    pub open spec fn ticked(self, now: nat, seed: nat) -> GameView {
        if self.paused {
            self
        } else {
            self.after_collision().after_eating().after_advance(now).after_input(now).after_spawn(
                seed,
            )
        }
    }

    /// The player asks for heading `d`.
    pub open spec fn after_key(self, d: Direction) -> GameView {
        GameView { pending: queued(self.direction, self.pending, d), ..self }
    }

    /// Pausing freezes the step in flight; resuming lets it run on.
    pub open spec fn toggled(self, now: nat) -> GameView {
        GameView {
            paused: !self.paused,
            animation: match self.animation {
                Some(a) => Some(
                    if self.paused {
                        a.resumed_at(now)
                    } else {
                        a.paused_at(now)
                    },
                ),
                None => None,
            },
            ..self
        }
    }
}

/// A fresh game: the starting snake heading left, no apple, paused.
pub open spec fn initial_view(f: Field) -> GameView {
    GameView {
        field: f,
        snake: starting_snake(f),
        previous_tail: Some(starting_trail(f)),
        apple: None,
        direction: Direction::Left,
        pending: Some(Direction::Left),
        animation: None,
        paused: true,
    }
}

/// A fresh game is well formed.
pub proof fn lemma_initial_wf(f: Field)
    requires
        f.wf(),
    ensures
        initial_view(f).wf(),
{
    lemma_starting_snake(f);
}

proof fn lemma_collision_wf(v: GameView)
    requires
        v.wf(),
    ensures
        v.after_collision().wf(),
{
    lemma_initial_wf(v.field);
}

proof fn lemma_eating_wf(v: GameView)
    requires
        v.wf(),
    ensures
        v.after_eating().wf(),
{
    if eats(v.snake[0], v.apple) {
        let p = v.previous_tail->Some_0;
        let w = v.after_eating();
        let n = v.snake.len();
        assert(w.snake[n as int] == p);
        assert forall|i: int| 0 <= i < w.snake.len() - 1 implies #[trigger] follows(
            w.field,
            w.snake[i],
            w.snake[i + 1],
        ) by {
            if i < n - 1 {
                assert(follows(v.field, v.snake[i], v.snake[i + 1]));
            }
        }
        assert forall|i: int| 0 <= i < w.snake.len() implies #[trigger] w.field.holds(w.snake[i]) by {
            if i < n {
                assert(v.field.holds(v.snake[i]));
            }
        }
        if let Some(a) = v.animation {
            let h = step(v.snake[0], v.direction);
            assert(moved(w.snake, h) =~= moved(v.snake, h).push(v.snake.last()));
        }
    }
}

proof fn lemma_advance_wf(v: GameView, now: nat)
    requires
        v.wf(),
    ensures
        v.after_advance(now).wf(),
{
    if let Some(a) = v.animation {
        if a.done_at(now) {
            let w = v.after_advance(now);
            let n = v.snake.len();
            let d = v.direction;
            let h = wrap_anchor(v.field, step(v.snake[0], d));
            assert(v.field.holds(v.snake[0]));
            lemma_held_in_limits(v.field, v.snake[0], d);
            assert(w.snake =~= moved(v.snake, h));
            assert forall|i: int| 0 <= i < w.snake.len() - 1 implies #[trigger] follows(
                w.field,
                w.snake[i],
                w.snake[i + 1],
            ) by {
                if i > 0 {
                    let j = i - 1;
                    assert(follows(v.field, v.snake[j], v.snake[j + 1]));
                }
            }
            assert forall|i: int| 0 <= i < w.snake.len() implies #[trigger] w.field.holds(
                w.snake[i],
            ) by {
                if i > 0 {
                    assert(v.field.holds(v.snake[i - 1]));
                }
            }
            let k = n - 2;
            assert(follows(v.field, v.snake[k], v.snake[k + 1]));
            assert(v.field.holds(v.snake[n - 1]));
        }
    }
}

proof fn lemma_proposed_wf(v: GameView, d: Direction, now: nat)
    requires
        v.wf(),
    ensures
        v.proposed(d, now).wf(),
{
    assert(v.field.holds(v.snake[0]));
    lemma_held_in_limits(v.field, v.snake[0], d);
}

proof fn lemma_spawn_wf(v: GameView, seed: nat)
    requires
        v.wf(),
    ensures
        v.after_spawn(seed).wf(),
{
    if v.apple is None {
        let free = free_cells(v.snake, v.field);
        assert(0 <= columns(v.field) * rows(v.field)) by (nonlinear_arith)
            requires
                0 <= columns(v.field),
                0 <= rows(v.field),
        ;
        lemma_free_cells_on_field(v.snake, v.field, (columns(v.field) * rows(v.field)) as nat);
        if free.len() > 0 {
            let c = free[(seed % free.len()) as int];
            assert(!occupied(v.snake, c));
            assert(!boxes_overlap(v.snake[0], c));
        }
    }
}

proof fn lemma_toggled_wf(v: GameView, now: nat)
    requires
        v.wf(),
    ensures
        v.toggled(now).wf(),
{
}

/// Every tick keeps the game well formed.
pub proof fn lemma_ticked_wf(v: GameView, now: nat, seed: nat)
    requires
        v.wf(),
    ensures
        v.ticked(now, seed).wf(),
{
    if !v.paused {
        lemma_collision_wf(v);
        let v1 = v.after_collision();
        lemma_eating_wf(v1);
        let v2 = v1.after_eating();
        lemma_advance_wf(v2, now);
        let v3 = v2.after_advance(now);
        if let Some(d) = v3.pending {
            lemma_proposed_wf(v3, d, now);
        }
        let v4 = v3.after_input(now);
        lemma_spawn_wf(v4, seed);
    }
}

/// Something the game reacts to: a tick at a time with a seed, a heading
/// asked for, or the pause key at a time.
pub enum GameEvent {
    Tick(nat, nat),
    Key(Direction),
    TogglePause(nat),
}

pub open spec fn after_event(v: GameView, e: GameEvent) -> GameView {
    match e {
        GameEvent::Tick(now, seed) => v.ticked(now, seed),
        GameEvent::Key(d) => v.after_key(d),
        GameEvent::TogglePause(now) => v.toggled(now),
    }
}

/// The game after the events, in order.
pub open spec fn replay(v: GameView, events: Seq<GameEvent>) -> GameView
    decreases events.len(),
{
    if events.len() == 0 {
        v
    } else {
        after_event(replay(v, events.drop_last()), events.last())
    }
}

/// Whatever the player asks for and however time passes, each segment of a
/// game started afresh lies one cell from the next, across an edge where
/// needed, and every segment stays on the field.
pub proof fn lemma_segments_stay_adjacent(f: Field, events: Seq<GameEvent>)
    requires
        f.wf(),
    ensures
        replay(initial_view(f), events).wf(),
        replay(initial_view(f), events).field == f,
        connected(f, replay(initial_view(f), events).snake),
        all_held(f, replay(initial_view(f), events).snake),
    decreases events.len(),
{
    if events.len() == 0 {
        lemma_initial_wf(f);
    } else {
        lemma_segments_stay_adjacent(f, events.drop_last());
        let v = replay(initial_view(f), events.drop_last());
        match events.last() {
            GameEvent::Tick(now, seed) => {
                lemma_ticked_wf(v, now, seed);
                lemma_ticked_field(v, now, seed);
            },
            GameEvent::Key(d) => {},
            GameEvent::TogglePause(now) => lemma_toggled_wf(v, now),
        }
    }
}

proof fn lemma_ticked_field(v: GameView, now: nat, seed: nat)
    ensures
        v.ticked(now, seed).field == v.field,
{
}

/// Asking for the reverse of the heading changes nothing: not the heading,
/// not the step in flight, not the pending heading.
pub proof fn lemma_reverse_ignored(v: GameView, d: Direction, now: nat)
    requires
        d == v.direction.reverse(),
    ensures
        v.proposed(d, now) == v,
        v.after_key(d) == v,
{
}

/// Eating grows the snake by exactly one segment, at the cell its tail left
/// last, raises the score by one and removes the apple.
pub proof fn lemma_eating_grows_by_one(v: GameView)
    requires
        v.wf(),
        eats(v.snake[0], v.apple),
    ensures
        v.previous_tail is Some,
        v.after_eating().snake == v.snake.push(v.previous_tail->Some_0),
        v.after_eating().score() == v.score() + 1,
        v.after_eating().apple is None,
{
}

/// A copy of a list of segments.
pub(crate) fn copy_segments(v: &Vec<Segment>) -> (r: Vec<Segment>)
    ensures
        r@ == v@,
{
    let mut r: Vec<Segment> = Vec::new();
    let mut i: usize = 0;
    while i < v.len()
        invariant
            i <= v@.len(),
            r@ == v@.take(i as int),
        decreases v@.len() - i,
    {
        r.push(v[i]);
        i = i + 1;
        assert(r@ =~= v@.take(i as int));
    }
    assert(v@.take(v@.len() as int) =~= v@);
    r
}

impl GameState {
    /// A fresh game on `field`.
    pub fn new(field: Field) -> (r: GameState)
        requires
            field.wf(),
        ensures
            r@ == initial_view(field),
            r@.wf(),
    {
        proof {
            lemma_initial_wf(field);
        }
        GameState {
            field,
            snake: initiate_snake(&field),
            previous_tail: Some(initiate_trail(&field)),
            apple: None,
            direction: Direction::Left,
            pending: Some(Direction::Left),
            animation: None,
            paused: true,
        }
    }

    /// Starts the game afresh on the same field.
    pub fn initiate_game(&mut self)
        requires
            old(self)@.field.wf(),
        ensures
            final(self)@ == initial_view(old(self)@.field),
            final(self)@.wf(),
    {
        *self = GameState::new(self.field);
    }

    /// Segments beyond the starting length.
    pub fn score(&self) -> (r: usize)
        requires
            self@.wf(),
        ensures
            r == self@.score(),
    {
        self.snake.len() - SNAKE_STARTING_LEN
    }

    /// Ends the game where the head hits the body, starting afresh; gives
    /// the score at the end.
    pub fn check_collision(&mut self) -> (r: Option<usize>)
        requires
            old(self)@.wf(),
        ensures
            final(self)@ == old(self)@.after_collision(),
            final(self)@.wf(),
            r == (if hits_itself(old(self)@.snake) {
                Some(old(self)@.score() as usize)
            } else {
                None
            }),
    {
        proof {
            lemma_collision_wf(self@);
            assert forall|i: int| 0 <= i < self.snake@.len() implies (#[trigger] self.snake@[i]).in_limits() by {
                assert(self.field.holds(self.snake@[i]));
            }
        }
        if collisions(&self.snake) {
            let score = self.score();
            self.initiate_game();
            Some(score)
        } else {
            None
        }
    }

    /// Lets the head eat an apple it overlaps; gives the new score.
    pub fn check_eat(&mut self) -> (r: Option<usize>)
        requires
            old(self)@.wf(),
        ensures
            final(self)@ == old(self)@.after_eating(),
            final(self)@.wf(),
            r == (if eats(old(self)@.snake[0], old(self)@.apple) {
                Some(final(self)@.score() as usize)
            } else {
                None
            }),
    {
        proof {
            lemma_eating_wf(self@);
            assert(self.field.holds(self.snake@[0]));
        }
        let ghost before = self@;
        if !did_the_snek_eat_the_apple(self.snake[0], self.apple) {
            return None;
        }
        let p = match self.previous_tail {
            Some(p) => p,
            None => self.snake[0],
        };
        let last = self.snake[self.snake.len() - 1];
        self.snake.push(p);
        match &mut self.animation {
            Some(a) => {
                a.start_position.push(p);
                a.end_position.push(last);
            },
            None => {},
        }
        self.previous_tail = None;
        self.apple = None;
        assert(self@ == before.after_eating());
        Some(self.snake.len() - SNAKE_STARTING_LEN)
    }

    /// Commits the step in flight once it is done at `now`.
    pub fn advance_animation(&mut self, now: u64)
        requires
            old(self)@.wf(),
        ensures
            final(self)@ == old(self)@.after_advance(now as nat),
            final(self)@.wf(),
    {
        proof {
            lemma_advance_wf(self@, now as nat);
        }
        let ghost before = self@;
        let finished: Option<Vec<Segment>> = match &self.animation {
            Some(a) => if a.done(now) {
                Some(copy_segments(&a.end_position))
            } else {
                None
            },
            None => None,
        };
        if let Some(mut end) = finished {
            proof {
                assert(self.field.holds(self.snake@[0]));
                lemma_held_in_limits(self.field, self.snake@[0], self.direction);
            }
            let head = wrap_segment(&self.field, end[0]);
            end.set(0, head);
            let tail = self.snake[self.snake.len() - 1];
            self.snake = end;
            self.previous_tail = Some(tail);
            self.animation = None;
            assert(self@ == before.after_advance(now as nat));
        }
    }

    /// Proposes heading `d` at time `now`; a reversal, or a move while a
    /// step is in flight, changes nothing.
    pub fn propose_move(&mut self, d: Direction, now: u64)
        requires
            old(self)@.wf(),
        ensures
            final(self)@ == old(self)@.proposed(d, now as nat),
            final(self)@.wf(),
            d == old(self)@.direction.reverse() ==> final(self)@ == old(self)@,
    {
        proof {
            lemma_proposed_wf(self@, d, now as nat);
        }
        if self.animation.is_some() || d == self.direction.opposite() {
            return ;
        }
        proof {
            assert(self.field.holds(self.snake@[0]));
            lemma_held_in_limits(self.field, self.snake@[0], d);
        }
        let head = step_segment(self.snake[0], d);
        let end = move_snake(&self.snake, head);
        let start = copy_segments(&self.snake);
        self.direction = d;
        self.pending = Some(d);
        self.animation = Some(Animation::new(now, ANIMATION_DURATION, start, end));
    }

    /// Proposes the pending heading, if any.
    pub fn handle_key_action(&mut self, now: u64)
        requires
            old(self)@.wf(),
        ensures
            final(self)@ == old(self)@.after_input(now as nat),
            final(self)@.wf(),
    {
        if let Some(d) = self.pending {
            self.propose_move(d, now);
        }
    }

    /// Places an apple on a free cell picked by `seed` where there is none.
    pub fn spawn_apple(&mut self, seed: u64)
        requires
            old(self)@.wf(),
        ensures
            final(self)@ == old(self)@.after_spawn(seed as nat),
            final(self)@.wf(),
    {
        proof {
            lemma_spawn_wf(self@, seed as nat);
            assert forall|i: int| 0 <= i < self.snake@.len() implies (#[trigger] self.snake@[i]).in_limits() by {
                assert(self.field.holds(self.snake@[i]));
            }
        }
        if self.apple.is_some() {
            return ;
        }
        self.apple = spawn_apple(&self.snake, &self.field, seed);
    }

    /// One tick of the game at time `now`, with `seed` for placing an apple.
    pub fn tick(&mut self, now: u64, seed: u64) -> (r: TickEvents)
        requires
            old(self)@.wf(),
        ensures
            final(self)@ == old(self)@.ticked(now as nat, seed as nat),
            final(self)@.wf(),
            r.game_over == (if !old(self)@.paused && hits_itself(old(self)@.snake) {
                Some(old(self)@.score() as usize)
            } else {
                None
            }),
            r.scored == (if !old(self)@.paused && eats(
                old(self)@.after_collision().snake[0],
                old(self)@.after_collision().apple,
            ) {
                Some(old(self)@.after_collision().after_eating().score() as usize)
            } else {
                None
            }),
    {
        if self.paused {
            return TickEvents { game_over: None, scored: None };
        }
        let game_over = self.check_collision();
        let scored = self.check_eat();
        self.advance_animation(now);
        self.handle_key_action(now);
        self.spawn_apple(seed);
        TickEvents { game_over, scored }
    }

    /// The player asks for heading `d`; it is kept for the next steps.
    pub fn key_press(&mut self, d: Direction)
        requires
            old(self)@.wf(),
        ensures
            final(self)@ == old(self)@.after_key(d),
            final(self)@.wf(),
    {
        self.pending = queue_direction(self.direction, self.pending, d);
    }

    /// Pauses or resumes the game and the step in flight; gives whether the
    /// game is now paused.
    pub fn toggle_pause(&mut self, now: u64) -> (r: bool)
        requires
            old(self)@.wf(),
        ensures
            final(self)@ == old(self)@.toggled(now as nat),
            final(self)@.wf(),
            r == final(self)@.paused,
    {
        let was_paused = self.paused;
        self.paused = !was_paused;
        match &mut self.animation {
            Some(a) => {
                if was_paused {
                    a.resume(now);
                } else {
                    a.pause(now);
                }
            },
            None => {},
        }
        self.paused
    }
}

} // verus!
