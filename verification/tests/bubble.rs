use aquarium::basin::update_bubbles;
use aquarium::bubble::{scale_offset, sources, Bubble, JITTER, WOBBLE_STEP};
use aquarium::fixed::{ONE, WORLD};
use aquarium::wave::{WaveTable, STEPS, TAU};

const CENTER_X: i64 = 400_000_000;
const BASE_Y: i64 = 570_000_000;
const SCALE: i64 = 900_000;

fn bubble_wave() -> WaveTable {
    let mut samples = Vec::with_capacity(STEPS);
    for i in 0..STEPS {
        let angle = (i as f64) * std::f64::consts::TAU / (STEPS as f64);
        samples.push((angle.sin() * 1_000_000.0).round() as i32);
    }
    WaveTable::new(samples).expect("samples of the sine make a table")
}

fn bubble(y: i64) -> Bubble {
    Bubble { x: 0, y, original_x: 300 * ONE, size: 4 * ONE, speed_y: 1_200_000, wobble_angle: 0 }
}

fn fresh(b: &Bubble) -> bool {
    let low = b.y == BASE_Y - 27 * ONE
        && -JITTER <= b.original_x - (CENTER_X - 72 * ONE)
        && b.original_x - (CENTER_X - 72 * ONE) < JITTER;
    let high = b.y == BASE_Y - 121_500_000
        && -JITTER <= b.original_x - (CENTER_X + 31_500_000)
        && b.original_x - (CENTER_X + 31_500_000) < JITTER;
    (low || high)
        && ONE <= b.size
        && b.size < 5 * ONE
        && 500_000 <= b.speed_y
        && b.speed_y < 1_500_000
        && 0 <= b.wobble_angle
        && b.wobble_angle < TAU
}

#[test]
fn the_two_sources() {
    assert_eq!(sources(), vec![(-80 * ONE, -30 * ONE), (35 * ONE, -135 * ONE)]);
}

#[test]
fn scale_offset_scales_toward_zero() {
    assert_eq!(scale_offset(-80 * ONE, SCALE), -72 * ONE);
    assert_eq!(scale_offset(35 * ONE, SCALE), 31_500_000);
    assert_eq!(scale_offset(-135 * ONE, 1_500_000), -202_500_000);
    assert_eq!(scale_offset(7, 500_000), 3);
    assert_eq!(scale_offset(-7, 500_000), -3);
    assert_eq!(scale_offset(100, 0), 0);
}

#[test]
fn update_rises_and_wobbles() {
    let wave = bubble_wave();
    let mut b = bubble(200 * ONE);
    b.update(&wave);
    assert_eq!(b.y, 200 * ONE - 1_200_000);
    assert_eq!(b.wobble_angle, WOBBLE_STEP);
    // sin(0.05) from the table is 0.049068; half the size is 2
    assert_eq!(b.x, 300 * ONE + 98_136);
    assert_eq!(b.original_x, 300 * ONE);
    assert_eq!(b.size, 4 * ONE);
    assert_eq!(b.speed_y, 1_200_000);
}

#[test]
fn the_wobble_wraps_after_a_full_turn() {
    let wave = bubble_wave();
    let mut b = bubble(200 * ONE);
    b.wobble_angle = TAU - 20_000;
    b.update(&wave);
    assert_eq!(b.wobble_angle, 30_000);
}

#[test]
fn a_bubble_rises_with_every_tick() {
    let wave = bubble_wave();
    let mut b = bubble(500 * ONE);
    let mut last = b.y;
    let mut left = false;
    let mut right = false;
    for n in 1..=1000 {
        b.update(&wave);
        assert!(b.y < last);
        assert_eq!(b.y, 500 * ONE - n * 1_200_000);
        assert!((b.x - b.original_x).abs() <= b.size / 2);
        if b.x < b.original_x {
            left = true;
        }
        if b.x > b.original_x {
            right = true;
        }
        last = b.y;
    }
    assert!(left && right);
}

#[test]
fn a_bubble_stops_at_the_top_of_the_world() {
    let wave = bubble_wave();
    let mut b = bubble(-WORLD + 1_000_000);
    b.update(&wave);
    assert_eq!(b.y, -WORLD);
    b.update(&wave);
    assert_eq!(b.y, -WORLD);
}

#[test]
fn has_escaped_means_above_the_top_by_more_than_the_size() {
    assert!(!bubble(0).has_escaped());
    assert!(!bubble(-4 * ONE).has_escaped());
    assert!(bubble(-4 * ONE - 1).has_escaped());
}

#[test]
fn new_bubbles_start_at_a_source() {
    let mut low = false;
    let mut high = false;
    for _ in 0..500 {
        let b = Bubble::new(CENTER_X, BASE_Y, SCALE);
        assert!(fresh(&b));
        assert_eq!(b.x, 0);
        if b.y == BASE_Y - 27 * ONE {
            low = true;
        } else {
            high = true;
        }
    }
    assert!(low && high);
}

#[test]
fn reset_starts_over_no_higher_than_the_highest_source() {
    for _ in 0..500 {
        let mut b = bubble(-10 * ONE);
        b.x = 123;
        b.reset(CENTER_X, BASE_Y, SCALE);
        assert!(fresh(&b));
        assert!(b.y >= BASE_Y - 121_500_000);
        assert_eq!(b.x, 123);
    }
}

#[test]
fn bubbles_that_leave_the_basin_start_over() {
    let wave = bubble_wave();
    let mut stays = bubble(100 * ONE);
    stays.wobble_angle = 1_000_000;
    let leaves = bubble(-3 * ONE);
    let mut bubbles = vec![stays, leaves];
    update_bubbles(&mut bubbles, &wave, CENTER_X, BASE_Y, SCALE);
    assert_eq!(bubbles.len(), 2);
    let mut expected = stays;
    expected.update(&wave);
    assert_eq!(bubbles[0].y, expected.y);
    assert_eq!(bubbles[0].x, expected.x);
    assert_eq!(bubbles[0].wobble_angle, expected.wobble_angle);
    assert!(fresh(&bubbles[1]));
    let mut risen = leaves;
    risen.update(&wave);
    assert_eq!(bubbles[1].x, risen.x);
}
