use aquarium::crab::{Crab, CrabState, CLEARANCE, STRIDE, WAIT_MAX, WAIT_MIN, WALK_MAX, WALK_MIN};
use aquarium::fixed::ONE;

const WIDTH: i64 = 800_000_000;
const HEIGHT: i64 = 600_000_000;
const FLOOR_Y: i64 = 540_000_000;

fn crab(x: i64, direction: i64, state: CrabState, state_timer: i32) -> Crab {
    Crab { x, y: FLOOR_Y - CLEARANCE, size: 12 * ONE, direction, state, state_timer }
}

#[test]
fn a_walking_crab_strides_and_counts_down() {
    let mut c = crab(100 * ONE, 1, CrabState::Walking, 5);
    c.advance(FLOOR_Y, WIDTH, 77, 88);
    assert_eq!(c.x, 100 * ONE + 500_000);
    assert_eq!(c.y, 532 * ONE);
    assert_eq!(c.state, CrabState::Walking);
    assert_eq!(c.state_timer, 4);
    assert_eq!(c.direction, 1);
    assert_eq!(c.size, 12 * ONE);
    let mut left = crab(100 * ONE, -1, CrabState::Walking, 5);
    left.advance(FLOOR_Y, WIDTH, 77, 88);
    assert_eq!(left.x, 100 * ONE - 500_000);
    assert_eq!(STRIDE, 500_000);
}

#[test]
fn a_waiting_crab_stays_and_counts_down() {
    let mut c = crab(100 * ONE, 1, CrabState::Waiting, 5);
    c.advance(FLOOR_Y + 3 * ONE, WIDTH, 77, 88);
    assert_eq!(c.x, 100 * ONE);
    assert_eq!(c.y, 535 * ONE);
    assert_eq!(c.state, CrabState::Waiting);
    assert_eq!(c.state_timer, 4);
}

#[test]
fn a_walk_that_runs_out_becomes_a_rest() {
    let mut c = crab(100 * ONE, 1, CrabState::Walking, 1);
    assert!(c.is_expiring());
    c.advance(FLOOR_Y, WIDTH, 77, 88);
    assert_eq!(c.state, CrabState::Waiting);
    assert_eq!(c.state_timer, 77);
    assert_eq!(c.x, 100 * ONE);
    assert_eq!(c.direction, 1);
}

#[test]
fn a_rest_that_runs_out_becomes_a_walk() {
    let mut c = crab(100 * ONE, -1, CrabState::Waiting, 1);
    c.advance(FLOOR_Y, WIDTH, 150, 88);
    assert_eq!(c.state, CrabState::Walking);
    assert_eq!(c.state_timer, 150);
    assert_eq!(c.x, 100 * ONE - 500_000);
    assert_eq!(c.direction, -1);
}

#[test]
fn the_timer_does_not_run_out_early() {
    let mut c = crab(100 * ONE, 1, CrabState::Walking, 2);
    assert!(!c.is_expiring());
    c.advance(FLOOR_Y, WIDTH, 77, 88);
    assert_eq!(c.state, CrabState::Walking);
    assert_eq!(c.state_timer, 1);
    assert!(c.is_expiring());
}

#[test]
fn a_crab_turns_back_at_the_right_wall() {
    let mut c = crab(WIDTH, 1, CrabState::Walking, 50);
    assert!(c.is_bouncing(WIDTH));
    c.advance(FLOOR_Y, WIDTH, 77, 123);
    assert_eq!(c.x, WIDTH + 500_000);
    assert_eq!(c.direction, -1);
    assert_eq!(c.state, CrabState::Walking);
    assert_eq!(c.state_timer, 123);
    assert!(!c.is_bouncing(WIDTH));
    c.advance(FLOOR_Y, WIDTH, 77, 99);
    assert_eq!(c.x, WIDTH);
    assert_eq!(c.direction, -1);
    assert_eq!(c.state_timer, 122);
}

#[test]
fn a_crab_turns_back_at_the_left_wall() {
    let mut c = crab(200_000, -1, CrabState::Walking, 50);
    c.advance(FLOOR_Y, WIDTH, 77, 123);
    assert_eq!(c.x, -300_000);
    assert_eq!(c.direction, 1);
    assert_eq!(c.state, CrabState::Walking);
    assert_eq!(c.state_timer, 123);
}

#[test]
fn a_crab_on_the_wall_has_not_crossed_it() {
    let mut c = crab(WIDTH - 500_000, 1, CrabState::Walking, 50);
    assert!(!c.is_bouncing(WIDTH));
    c.advance(FLOOR_Y, WIDTH, 77, 123);
    assert_eq!(c.x, WIDTH);
    assert_eq!(c.direction, 1);
    assert_eq!(c.state_timer, 49);
    let mut d = crab(500_000, -1, CrabState::Walking, 50);
    d.advance(FLOOR_Y, WIDTH, 77, 123);
    assert_eq!(d.x, 0);
    assert_eq!(d.direction, -1);
}

#[test]
fn a_resting_crab_outside_the_basin_walks_back() {
    let mut c = crab(WIDTH + 10 * ONE, 1, CrabState::Waiting, 9);
    assert!(c.is_bouncing(WIDTH));
    c.advance(FLOOR_Y, WIDTH, 77, 123);
    assert_eq!(c.x, WIDTH + 10 * ONE);
    assert_eq!(c.direction, -1);
    assert_eq!(c.state, CrabState::Walking);
    assert_eq!(c.state_timer, 123);
}

#[test]
fn a_crab_outside_that_faces_inward_does_not_turn() {
    let mut c = crab(WIDTH + 10 * ONE, -1, CrabState::Walking, 9);
    assert!(!c.is_bouncing(WIDTH));
    c.advance(FLOOR_Y, WIDTH, 77, 123);
    assert_eq!(c.direction, -1);
    assert_eq!(c.state_timer, 8);
}

#[test]
fn a_walk_begun_at_the_wall_overrides_a_rest_just_begun() {
    // the walk runs out in the very tick after which the crab is past the wall
    let mut c = crab(WIDTH + ONE, 1, CrabState::Walking, 1);
    c.advance(FLOOR_Y, WIDTH, 77, 123);
    assert_eq!(c.x, WIDTH + ONE);
    assert_eq!(c.state, CrabState::Walking);
    assert_eq!(c.state_timer, 123);
    assert_eq!(c.direction, -1);
}

#[test]
fn new_crabs_walk_on_the_floor_line() {
    let mut left = false;
    let mut right = false;
    for _ in 0..300 {
        let c = Crab::new(WIDTH, HEIGHT);
        assert!(0 <= c.x && c.x < WIDTH);
        assert_eq!(c.y, 540 * ONE);
        assert!(10 * ONE <= c.size && c.size < 15 * ONE);
        assert_eq!(c.state, CrabState::Walking);
        assert!(WALK_MIN <= c.state_timer as i64 && (c.state_timer as i64) < WALK_MAX);
        assert!(c.direction == 1 || c.direction == -1);
        if c.direction == 1 {
            right = true;
        } else {
            left = true;
        }
    }
    assert!(left && right);
}

#[test]
fn update_draws_timers_from_the_range_of_the_state_entered() {
    for _ in 0..300 {
        let mut c = crab(100 * ONE, 1, CrabState::Walking, 1);
        c.update(FLOOR_Y, WIDTH);
        assert_eq!(c.state, CrabState::Waiting);
        assert!(WAIT_MIN <= c.state_timer as i64 && (c.state_timer as i64) < WAIT_MAX);
        let mut d = crab(100 * ONE, 1, CrabState::Waiting, 1);
        d.update(FLOOR_Y, WIDTH);
        assert_eq!(d.state, CrabState::Walking);
        assert!(WALK_MIN <= d.state_timer as i64 && (d.state_timer as i64) < WALK_MAX);
        let mut e = crab(WIDTH, 1, CrabState::Walking, 40);
        e.update(FLOOR_Y, WIDTH);
        assert_eq!(e.direction, -1);
        assert!(WALK_MIN <= e.state_timer as i64 && (e.state_timer as i64) < WALK_MAX);
    }
}

#[test]
fn update_without_a_transition_draws_nothing() {
    let mut c = crab(100 * ONE, 1, CrabState::Walking, 40);
    c.update(FLOOR_Y, WIDTH);
    assert_eq!(c.state_timer, 39);
    assert_eq!(c.x, 100 * ONE + 500_000);
    assert_eq!(c.state, CrabState::Walking);
}

#[test]
fn a_crab_keeps_to_the_basin_and_turns_only_at_the_walls() {
    let narrow = 40 * ONE;
    for _ in 0..5 {
        let mut c = Crab::new(narrow, HEIGHT);
        let mut turns = 0;
        for _ in 0..20_000 {
            let before = c;
            let at_wall = c.is_bouncing(narrow);
            c.update(FLOOR_Y, narrow);
            assert!(c.state_timer >= 1);
            assert!(-STRIDE <= c.x && c.x <= narrow + STRIDE);
            assert_eq!(c.direction != before.direction, at_wall);
            if at_wall {
                turns += 1;
                assert_eq!(c.state, CrabState::Walking);
                assert!(c.x < 0 || c.x > narrow);
            } else if !before.is_expiring() {
                assert_eq!(c.state_timer, before.state_timer - 1);
                assert_eq!(c.state, before.state);
            }
            assert_eq!(c.y, FLOOR_Y - CLEARANCE);
        }
        assert!(turns > 0);
    }
}
