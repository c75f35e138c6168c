use snake_game::animation::Animation;
use snake_game::geometry::Segment;
use snake_game::snake::{
    collisions, did_the_snek_eat_the_apple, initiate_snake, initiate_trail, move_snake,
    queue_direction, step_segment, Direction,
};
use snake_game::field::Field;

fn seg(x: i64, y: i64) -> Segment {
    Segment { x, y }
}

fn head_step(start: Segment, end: Segment, now: u64) -> Animation {
    Animation::new(now, 200, vec![start], vec![end])
}

#[test]
fn elapsed_and_done() {
    let a = head_step(seg(640, 400), seg(560, 400), 1000);
    assert_eq!(a.elapsed(1000), 0);
    assert_eq!(a.elapsed(1150), 150);
    assert!(!a.done(1199));
    assert!(a.done(1200));
    assert_eq!(a.elapsed(900), 0);
}

#[test]
fn interpolation_endpoints_are_exact() {
    let a = head_step(seg(640, 400), seg(560, 400), 1000);
    assert_eq!(a.interpolate(1000), seg(640, 400));
    assert_eq!(a.interpolate(1200), seg(560, 400));
    assert_eq!(a.interpolate(5000), seg(560, 400));
}

#[test]
fn interpolation_is_snapped_to_the_quantum() {
    let a = head_step(seg(640, 400), seg(560, 400), 0);
    assert_eq!(a.interpolate(100), seg(600, 400));
    // 640 - 80 * 37 / 200 = 625.2, rounded down to 625, snapped to 630.
    assert_eq!(a.interpolate(37), seg(630, 400));
    let b = head_step(seg(400, 400), seg(400, 480), 0);
    // 400 + 80 * 63 / 200 = 425.2, so 425, which snaps up to 430.
    assert_eq!(b.interpolate(63), seg(400, 430));
    // An anchor off the quantum is snapped too.
    let c = head_step(seg(1279, 400), seg(1359, 400), 0);
    assert_eq!(c.interpolate(0), seg(1280, 400));
}

#[test]
fn pause_time_does_not_count() {
    let mut a = head_step(seg(640, 400), seg(560, 400), 1000);
    a.pause(1050);
    assert_eq!(a.elapsed(1050), 50);
    assert_eq!(a.elapsed(5000), 50);
    a.pause(3000);
    assert_eq!(a.pause_start_time, 1050);
    a.resume(1550);
    assert_eq!(a.elapsed(1550), 50);
    assert_eq!(a.elapsed(1600), 100);
    assert!(!a.done(1699));
    assert!(a.done(1700));
    // Resuming while running does nothing.
    a.resume(9000);
    assert_eq!(a.elapsed(1600), 100);
}

#[test]
fn two_pauses_add_up() {
    let mut a = head_step(seg(0, 0), seg(80, 0), 0);
    a.pause(10);
    a.resume(110);
    a.pause(150);
    a.resume(200);
    assert_eq!(a.pause_total, 150);
    assert_eq!(a.elapsed(250), 100);
}

#[test]
fn step_moves_one_cell() {
    assert_eq!(step_segment(seg(640, 400), Direction::Up), seg(640, 480));
    assert_eq!(step_segment(seg(640, 400), Direction::Down), seg(640, 320));
    assert_eq!(step_segment(seg(640, 400), Direction::Left), seg(560, 400));
    assert_eq!(step_segment(seg(640, 400), Direction::Right), seg(720, 400));
}

#[test]
fn opposite_headings() {
    assert_eq!(Direction::Up.opposite(), Direction::Down);
    assert_eq!(Direction::Down.opposite(), Direction::Up);
    assert_eq!(Direction::Left.opposite(), Direction::Right);
    assert_eq!(Direction::Right.opposite(), Direction::Left);
}

#[test]
fn move_snake_follows_the_head() {
    let snake = vec![seg(640, 400), seg(720, 400), seg(800, 400)];
    assert_eq!(move_snake(&snake, seg(640, 480)), vec![seg(640, 480), seg(640, 400), seg(720, 400)]);
}

#[test]
fn starting_snake_is_centred_heading_left() {
    let f = Field { width: 1280, height: 800 };
    assert_eq!(
        initiate_snake(&f),
        vec![seg(640, 400), seg(720, 400), seg(800, 400), seg(880, 400)]
    );
    assert_eq!(initiate_trail(&f), seg(960, 400));
}

fn coiled_snake(overlap_at: usize) -> Vec<Segment> {
    let mut snake: Vec<Segment> = (0..12).map(|i| seg(1000 + 80 * i as i64, 80)).collect();
    snake[0] = seg(160, 240);
    snake[overlap_at] = seg(160, 240);
    snake
}

#[test]
fn head_hitting_the_body_collides() {
    assert!(collisions(&coiled_snake(4)));
    assert!(collisions(&coiled_snake(11)));
    assert!(collisions(&coiled_snake(3)));
}

#[test]
fn neck_is_left_out_of_the_collision_test() {
    assert!(!collisions(&coiled_snake(2)));
    assert!(!collisions(&coiled_snake(1)));
}

#[test]
fn straight_snake_does_not_collide() {
    let snake = vec![seg(640, 400), seg(720, 400), seg(800, 400), seg(880, 400), seg(960, 400)];
    assert!(!collisions(&snake));
}

#[test]
fn eating_needs_an_overlapping_apple() {
    assert!(did_the_snek_eat_the_apple(seg(160, 240), Some(seg(160, 240))));
    assert!(!did_the_snek_eat_the_apple(seg(160, 240), Some(seg(240, 240))));
    assert!(!did_the_snek_eat_the_apple(seg(160, 240), None));
}

#[test]
fn reversal_is_never_queued() {
    assert_eq!(queue_direction(Direction::Left, None, Direction::Right), None);
    assert_eq!(
        queue_direction(Direction::Up, Some(Direction::Left), Direction::Down),
        Some(Direction::Left)
    );
}

#[test]
fn queued_heading_changes_axis_only() {
    assert_eq!(
        queue_direction(Direction::Left, Some(Direction::Left), Direction::Up),
        Some(Direction::Up)
    );
    assert_eq!(
        queue_direction(Direction::Up, Some(Direction::Up), Direction::Up),
        Some(Direction::Up)
    );
    assert_eq!(
        queue_direction(Direction::Up, Some(Direction::Left), Direction::Right),
        Some(Direction::Left)
    );
    assert_eq!(queue_direction(Direction::Up, None, Direction::Right), Some(Direction::Right));
}
