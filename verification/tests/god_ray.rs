use aquarium::fixed::ONE;
use aquarium::god_ray::{life_step_of, GodRay, LIFE_MAX, LIFE_MIN};
use aquarium::wave::{WaveTable, STEPS};

const WIDTH: i64 = 800_000_000;
const HEIGHT: i64 = 600_000_000;

fn ray_wave() -> WaveTable {
    let mut samples = Vec::with_capacity(STEPS);
    for i in 0..STEPS {
        let angle = (i as f64) * std::f64::consts::TAU / (STEPS as f64);
        samples.push((angle.sin() * 1_000_000.0).round() as i32);
    }
    WaveTable::new(samples).expect("samples of the sine make a table")
}

fn ray(life: i64, max_life: i64) -> GodRay {
    GodRay {
        x: 100 * ONE,
        top_width: 50 * ONE,
        bottom_width: 10 * ONE,
        length: 400 * ONE,
        blur: 12 * ONE,
        life,
        max_life,
    }
}

fn fresh(r: &GodRay) -> bool {
    -160 * ONE <= r.x
        && r.x < 960 * ONE
        && 20 * ONE <= r.top_width
        && r.top_width < 150 * ONE
        && 0 <= r.bottom_width
        && r.bottom_width < r.top_width * 3 / 10
        && 300 * ONE <= r.length
        && r.length < 720 * ONE
        && 10 * ONE <= r.blur
        && r.blur < 25 * ONE
        && LIFE_MIN <= r.max_life
        && r.max_life < LIFE_MAX
        && r.life == 0
}

#[test]
fn new_rays_lie_in_their_ranges() {
    let mut off_screen = false;
    for _ in 0..2000 {
        let r = GodRay::new(WIDTH, HEIGHT);
        assert!(fresh(&r));
        if r.x < 0 || r.x >= WIDTH {
            off_screen = true;
        }
    }
    assert!(off_screen);
}

#[test]
fn reset_makes_a_new_ray() {
    for _ in 0..200 {
        let mut r = ray(1500, 1500);
        r.reset(WIDTH, HEIGHT);
        assert!(fresh(&r));
    }
}

#[test]
fn update_ages_by_one_tick() {
    let mut r = ray(0, 1200);
    r.update();
    assert_eq!(r.life, 1);
    r.update();
    assert_eq!(r.life, 2);
    assert_eq!(r.max_life, 1200);
    assert_eq!(r.x, 100 * ONE);
    assert!(!r.is_spent());
}

#[test]
fn a_spent_ray_ages_no_further() {
    let mut r = ray(1199, 1200);
    assert!(!r.is_spent());
    r.update();
    assert_eq!(r.life, 1200);
    assert!(r.is_spent());
    r.update();
    assert_eq!(r.life, 1200);
}

#[test]
fn opacity_is_zero_at_both_ends_of_life() {
    let wave = ray_wave();
    for max_life in [1, 2, 7, 1200, 1533, 1799, 5000] {
        assert_eq!(ray(0, max_life).opacity(&wave), 0);
        assert_eq!(ray(max_life, max_life).opacity(&wave), 0);
    }
}

#[test]
fn opacity_is_positive_at_half_life() {
    let wave = ray_wave();
    for max_life in [2, 3, 7, 1200, 1201, 1533, 1799, 5000, 1_000_000_000] {
        assert!(ray(max_life / 2, max_life).opacity(&wave) > 0);
    }
}

#[test]
fn opacity_follows_the_sine_over_a_half_turn() {
    let wave = ray_wave();
    // the brightest glow, 0.15, at half life
    assert_eq!(ray(600, 1200).opacity(&wave), 150_000);
    // sin(pi / 4) * 0.15 at a quarter and at three quarters
    assert_eq!(ray(300, 1200).opacity(&wave), 106_067);
    assert_eq!(ray(900, 1200).opacity(&wave), 106_067);
    // a sixth of the half turn falls between two samples; the lower one counts
    assert_eq!(ray(200, 1200).opacity(&wave), 74_934);
}

#[test]
fn opacity_is_positive_all_through_a_life() {
    let wave = ray_wave();
    for max_life in [1200, 1500, 1799] {
        let mut r = ray(0, max_life);
        let mut peak = 0;
        for _ in 1..max_life {
            r.update();
            let alpha = r.opacity(&wave);
            assert!(alpha > 0);
            assert!(alpha <= 150_000);
            if alpha > peak {
                peak = alpha;
            }
        }
        assert!(peak >= 149_990);
        r.update();
        assert_eq!(r.opacity(&wave), 0);
    }
}

#[test]
fn life_step_spans_the_half_turn() {
    assert_eq!(life_step_of(0, 1200), 0);
    assert_eq!(life_step_of(1200, 1200), STEPS / 2);
    assert_eq!(life_step_of(600, 1200), STEPS / 4);
    assert_eq!(life_step_of(1, 1200), 1);
    assert_eq!(life_step_of(1199, 1200), 2046);
    assert_eq!(life_step_of(1, 4096), 0);
}
