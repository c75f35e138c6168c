use snake_game::field::Field;
use snake_game::frame::Paint;
use snake_game::game::{GameState, ANIMATION_DURATION};
use snake_game::geometry::{create_box, Segment};
use snake_game::snake::Direction;
use snake_game::spawner::spawn_apple;

fn seg(x: i64, y: i64) -> Segment {
    Segment { x, y }
}

fn field() -> Field {
    Field { width: 1280, height: 800 }
}

fn all_cells_but(free: Option<Segment>) -> Vec<Segment> {
    let mut cells = Vec::new();
    for col in 0..16 {
        for row in 0..10 {
            let c = seg(col * 80, row * 80);
            if Some(c) != free {
                cells.push(c);
            }
        }
    }
    cells
}

#[test]
fn spawn_on_empty_field_goes_column_by_column() {
    let f = field();
    assert_eq!(spawn_apple(&vec![], &f, 0), Some(seg(0, 0)));
    assert_eq!(spawn_apple(&vec![], &f, 7), Some(seg(0, 560)));
    assert_eq!(spawn_apple(&vec![], &f, 10), Some(seg(80, 0)));
    assert_eq!(spawn_apple(&vec![], &f, 160 + 13), Some(seg(80, 240)));
}

#[test]
fn spawn_skips_occupied_cells() {
    let f = field();
    let snake = vec![seg(0, 0), seg(0, 80)];
    assert_eq!(spawn_apple(&snake, &f, 0), Some(seg(0, 160)));
}

#[test]
fn single_free_cell_is_always_picked() {
    let f = field();
    let snake = all_cells_but(Some(seg(720, 320)));
    assert_eq!(snake.len(), 159);
    for seed in 0..200u64 {
        assert_eq!(spawn_apple(&snake, &f, seed), Some(seg(720, 320)));
    }
    assert_eq!(spawn_apple(&snake, &f, u64::MAX), Some(seg(720, 320)));
}

#[test]
fn full_field_spawns_nothing() {
    let f = field();
    let snake = all_cells_but(None);
    assert_eq!(spawn_apple(&snake, &f, 3), None);
}

#[test]
fn new_game_is_paused_and_centred() {
    let g = GameState::new(field());
    assert!(g.paused);
    assert_eq!(g.snake, vec![seg(640, 400), seg(720, 400), seg(800, 400), seg(880, 400)]);
    assert_eq!(g.direction, Direction::Left);
    assert_eq!(g.pending, Some(Direction::Left));
    assert_eq!(g.apple, None);
    assert!(g.animation.is_none());
    assert_eq!(g.score(), 0);
}

#[test]
fn paused_tick_does_nothing() {
    let mut g = GameState::new(field());
    let events = g.tick(1000, 7);
    assert_eq!(events.game_over, None);
    assert_eq!(events.scored, None);
    assert!(g.animation.is_none());
    assert_eq!(g.apple, None);
}

#[test]
fn ticks_move_the_snake_one_cell_per_step() {
    let mut g = GameState::new(field());
    assert!(!g.toggle_pause(0));
    g.tick(1000, 7);
    assert_eq!(g.apple, Some(seg(0, 560)));
    let a = g.animation.as_ref().unwrap();
    assert_eq!(a.start_time, 1000);
    assert_eq!(a.duration, ANIMATION_DURATION);
    assert_eq!(a.end_position[0], seg(560, 400));
    // Mid-step the committed snake has not moved.
    g.tick(1100, 0);
    assert_eq!(g.snake[0], seg(640, 400));
    // The step ends and the next one starts at once.
    g.tick(1200, 0);
    assert_eq!(g.snake, vec![seg(560, 400), seg(640, 400), seg(720, 400), seg(800, 400)]);
    assert_eq!(g.previous_tail, Some(seg(880, 400)));
    assert_eq!(g.animation.as_ref().unwrap().start_time, 1200);
    assert_eq!(g.animation.as_ref().unwrap().end_position[0], seg(480, 400));
}

#[test]
fn reversal_changes_nothing() {
    let mut g = GameState::new(field());
    g.propose_move(Direction::Right, 0);
    assert_eq!(g.direction, Direction::Left);
    assert!(g.animation.is_none());
    g.key_press(Direction::Right);
    assert_eq!(g.pending, Some(Direction::Left));
}

#[test]
fn accepted_move_never_leaves_a_reversing_heading_pending() {
    let mut g = GameState::new(field());
    g.key_press(Direction::Up);
    assert_eq!(g.pending, Some(Direction::Up));
    g.propose_move(Direction::Down, 0);
    assert_eq!(g.direction, Direction::Down);
    assert_eq!(g.pending, Some(Direction::Down));
}

#[test]
fn move_while_stepping_is_ignored() {
    let mut g = GameState::new(field());
    g.propose_move(Direction::Up, 0);
    assert_eq!(g.direction, Direction::Up);
    assert_eq!(g.pending, Some(Direction::Up));
    assert_eq!(g.animation.as_ref().unwrap().end_position[0], seg(640, 480));
    g.propose_move(Direction::Left, 10);
    assert_eq!(g.direction, Direction::Up);
    assert_eq!(g.animation.as_ref().unwrap().start_time, 0);
}

#[test]
fn turn_is_taken_at_the_next_step() {
    let mut g = GameState::new(field());
    g.toggle_pause(0);
    g.tick(0, 0);
    g.key_press(Direction::Up);
    g.tick(200, 0);
    assert_eq!(g.direction, Direction::Up);
    assert_eq!(g.animation.as_ref().unwrap().end_position[0], seg(560, 480));
}

fn eating_state() -> GameState {
    let mut g = GameState::new(field());
    g.snake = vec![seg(160, 240), seg(240, 240), seg(320, 240), seg(400, 240)];
    g.previous_tail = Some(seg(480, 240));
    g.apple = Some(seg(160, 240));
    g
}

#[test]
fn eating_grows_at_the_tail_left_behind() {
    let mut g = eating_state();
    assert_eq!(g.check_eat(), Some(1));
    assert_eq!(
        g.snake,
        vec![seg(160, 240), seg(240, 240), seg(320, 240), seg(400, 240), seg(480, 240)]
    );
    assert_eq!(g.apple, None);
    assert_eq!(g.score(), 1);
    assert_eq!(g.previous_tail, None);
}

#[test]
fn eating_through_a_tick_reports_the_score() {
    let mut g = eating_state();
    g.paused = false;
    let events = g.tick(500, 0);
    assert_eq!(events.scored, Some(1));
    assert_eq!(events.game_over, None);
    assert_eq!(g.snake.len(), 5);
    // A new apple is placed away from the snake, and a step has started.
    assert!(g.apple.is_some());
    assert_ne!(g.apple, Some(seg(160, 240)));
    let a = g.animation.as_ref().unwrap();
    assert_eq!(a.end_position.len(), 5);
    assert_eq!(a.end_position[0], seg(80, 240));
}

#[test]
fn growth_during_a_step_extends_the_step() {
    let mut g = eating_state();
    g.propose_move(Direction::Left, 0);
    assert_eq!(g.check_eat(), Some(1));
    let a = g.animation.as_ref().unwrap();
    assert_eq!(a.start_position, g.snake);
    assert_eq!(
        a.end_position,
        vec![seg(80, 240), seg(160, 240), seg(240, 240), seg(320, 240), seg(400, 240)]
    );
}

#[test]
fn no_apple_no_eating() {
    let mut g = eating_state();
    g.apple = Some(seg(800, 640));
    assert_eq!(g.check_eat(), None);
    assert_eq!(g.snake.len(), 4);
}

#[test]
fn self_collision_ends_and_resets_the_game() {
    let mut g = GameState::new(field());
    g.snake = vec![seg(400, 400), seg(480, 400), seg(480, 480), seg(400, 480), seg(400, 400)];
    g.previous_tail = Some(seg(320, 400));
    g.paused = false;
    let events = g.tick(100, 0);
    assert_eq!(events.game_over, Some(1));
    assert!(g.paused);
    assert_eq!(g.snake, vec![seg(640, 400), seg(720, 400), seg(800, 400), seg(880, 400)]);
    assert_eq!(g.direction, Direction::Left);
}

#[test]
fn check_collision_alone() {
    let mut g = GameState::new(field());
    assert_eq!(g.check_collision(), None);
    g.snake = vec![seg(400, 400), seg(480, 400), seg(480, 480), seg(400, 480), seg(400, 400)];
    assert_eq!(g.check_collision(), Some(1));
    assert_eq!(g.snake.len(), 4);
}

#[test]
fn head_wraps_across_the_right_edge() {
    let mut g = GameState::new(field());
    g.snake = vec![seg(1200, 400), seg(1120, 400), seg(1040, 400), seg(960, 400)];
    g.previous_tail = Some(seg(880, 400));
    g.direction = Direction::Right;
    g.pending = Some(Direction::Right);
    g.paused = false;
    g.tick(0, 0);
    assert_eq!(g.animation.as_ref().unwrap().end_position[0], seg(1280, 400));
    // Mid-step the head shows its sliver at the left edge.
    let frame = g.render(100);
    let mut expected = create_box(0, 400, 40, 80);
    expected.extend(create_box(1240, 400, 80, 80));
    assert_eq!(frame.vertices[..24].to_vec(), expected);
    g.tick(200, 0);
    assert_eq!(g.snake[0], seg(0, 400));
    assert_eq!(g.snake[1], seg(1200, 400));
}

#[test]
fn frame_of_a_resting_snake_and_apple() {
    let mut g = GameState::new(field());
    g.apple = Some(seg(0, 0));
    let frame = g.render(0);
    let mut expected = Vec::new();
    for x in [640, 720, 800, 880] {
        expected.extend(create_box(x, 400, 80, 80));
    }
    expected.extend(create_box(0, 0, 80, 80));
    assert_eq!(frame.vertices, expected);
    assert_eq!(frame.paints.len(), 30);
    assert!(frame.paints[..24].iter().all(|p| *p == Paint::Snake));
    assert!(frame.paints[24..].iter().all(|p| *p == Paint::Apple));
}

#[test]
fn frame_mid_step_eases_the_head_only() {
    let mut g = GameState::new(field());
    g.toggle_pause(0);
    g.tick(1000, 7);
    let frame = g.render(1100);
    let mut expected = Vec::new();
    for x in [600, 640, 720, 800] {
        expected.extend(create_box(x, 400, 80, 80));
    }
    expected.extend(create_box(0, 560, 80, 80));
    assert_eq!(frame.vertices, expected);
    assert_eq!(frame.paints.len(), 30);
}

#[test]
fn pausing_freezes_the_step() {
    let mut g = GameState::new(field());
    g.toggle_pause(0);
    g.tick(1000, 0);
    assert!(g.toggle_pause(1100));
    assert!(g.animation.as_ref().unwrap().is_paused);
    // While paused, ticks change nothing.
    g.tick(5000, 0);
    assert_eq!(g.snake[0], seg(640, 400));
    assert!(!g.toggle_pause(6000));
    assert_eq!(g.animation.as_ref().unwrap().elapsed(6000), 100);
    g.tick(6050, 0);
    assert_eq!(g.snake[0], seg(640, 400));
    g.tick(6100, 0);
    assert_eq!(g.snake[0], seg(560, 400));
}

fn one_cell_apart(a: Segment, b: Segment) -> bool {
    let dx = (a.x - b.x).abs();
    let dy = (a.y - b.y).abs();
    (dy == 0 && (dx == 80 || dx == 1280 - 80)) || (dx == 0 && (dy == 80 || dy == 800 - 80))
}

#[test]
fn segments_stay_one_cell_apart_across_turns_and_edges() {
    let mut g = GameState::new(field());
    g.toggle_pause(0);
    let turns = [
        (3, Direction::Up),
        (9, Direction::Right),
        (30, Direction::Down),
        (34, Direction::Left),
        (41, Direction::Down),
        (55, Direction::Right),
    ];
    for step in 0..70u64 {
        for (at, d) in turns {
            if at == step {
                g.key_press(d);
            }
        }
        g.tick(step * 200, step);
        if g.paused {
            g.toggle_pause(step * 200);
        }
        for pair in g.snake.windows(2) {
            assert!(one_cell_apart(pair[0], pair[1]), "{:?} at step {}", g.snake, step);
        }
        for s in &g.snake {
            assert!(0 <= s.x && s.x < 1280 && 0 <= s.y && s.y < 800);
        }
    }
}
