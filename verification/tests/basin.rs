use aquarium::basin::{
    castle_scale_of, ray_count_of, remove_food, seafloor_y, update_crabs, update_fishes,
    update_food, update_rays, Aquarium, BUBBLE_COUNT, CRAB_COUNT, FISH_COUNT, FRAME_LIMIT,
};
use aquarium::crab::{Crab, CrabState};
use aquarium::fish::{nearest_food, urgency_of, Fish};
use aquarium::fixed::{ONE, WORLD};
use aquarium::food::Food;
use aquarium::god_ray::GodRay;
use aquarium::layout::cobblestones;
use aquarium::wave::{WaveTable, STEPS};

fn basin_wave() -> WaveTable {
    let mut samples = Vec::with_capacity(STEPS);
    for i in 0..STEPS {
        let angle = (i as f64) * std::f64::consts::TAU / (STEPS as f64);
        samples.push((angle.sin() * 1_000_000.0).round() as i32);
    }
    WaveTable::new(samples).expect("samples of the sine make a table")
}

fn basin() -> Aquarium {
    Aquarium::new(800, 600, basin_wave())
}

fn crumb(n: i64) -> Food {
    Food { x: n * ONE, y: 10 * n * ONE, vy: n }
}

#[test]
fn a_new_basin_has_its_first_inhabitants() {
    let a = basin();
    assert_eq!(a.width, 800 * ONE);
    assert_eq!(a.height, 600 * ONE);
    assert_eq!(a.fishes.len(), 15);
    assert_eq!(a.crabs.len(), 3);
    assert_eq!(a.bubbles.len(), 30);
    assert_eq!(a.food.len(), 0);
    assert_eq!(a.god_rays.len(), 4);
    assert_eq!(a.frame_count, 0);
    assert_eq!(a.castle_base_y, 570 * ONE);
    assert_eq!((FISH_COUNT, CRAB_COUNT, BUBBLE_COUNT), (15, 3, 30));
}

#[test]
fn the_first_inhabitants_are_inside_the_basin() {
    for _ in 0..20 {
        let a = basin();
        for f in a.fishes.iter() {
            assert!(0 <= f.x && f.x < a.width);
            assert!(0 <= f.y && f.y < 480 * ONE);
            assert_eq!((f.vx, f.vy), (0, 0));
        }
        for c in a.crabs.iter() {
            assert!(0 <= c.x && c.x < a.width);
            assert_eq!(c.y, 540 * ONE);
            assert_eq!(c.state, CrabState::Walking);
        }
        for b in a.bubbles.iter() {
            assert!(b.y == 570 * ONE - 27 * ONE || b.y == 570 * ONE - 121_500_000);
        }
        for r in a.god_rays.iter() {
            assert_eq!(r.life, 0);
            assert!(1200 <= r.max_life && r.max_life < 1800);
        }
    }
}

#[test]
fn ray_count_is_one_per_two_hundred_pixels_within_limits() {
    assert_eq!(ray_count_of(800), 4);
    assert_eq!(ray_count_of(1), 3);
    assert_eq!(ray_count_of(100), 3);
    assert_eq!(ray_count_of(699), 3);
    assert_eq!(ray_count_of(700), 4);
    assert_eq!(ray_count_of(899), 4);
    assert_eq!(ray_count_of(900), 5);
    assert_eq!(ray_count_of(1920), 10);
    assert_eq!(ray_count_of(3899), 19);
    assert_eq!(ray_count_of(3900), 20);
    assert_eq!(ray_count_of(100_000), 20);
    assert_eq!(ray_count_of(u32::MAX), 20);
}

#[test]
fn basins_of_other_widths_have_other_numbers_of_rays() {
    assert_eq!(Aquarium::new(1920, 1080, basin_wave()).god_rays.len(), 10);
    assert_eq!(Aquarium::new(200, 200, basin_wave()).god_rays.len(), 3);
    assert_eq!(Aquarium::new(8000, 200, basin_wave()).god_rays.len(), 20);
}

#[test]
fn castle_scale_follows_the_height() {
    assert_eq!(castle_scale_of(600 * ONE), 900_000);
    assert_eq!(castle_scale_of(1000 * ONE), 1_500_000);
    assert_eq!(castle_scale_of(2000 * ONE), 3_000_000);
    assert_eq!(castle_scale_of(500 * ONE), 750_000);
    assert_eq!(castle_scale_of(100 * ONE), 750_000);
    assert_eq!(castle_scale_of(1), 750_000);
    assert_eq!(basin().get_castle_scale(), 900_000);
}

#[test]
fn the_floor_is_level_where_both_waves_are_at_zero() {
    let wave = basin_wave();
    assert_eq!(seafloor_y(600 * ONE, 0, 0, &wave), 540 * ONE);
    assert_eq!(basin().get_seafloor_y_at(0), 540 * ONE);
}

#[test]
fn the_floor_is_two_waves_on_nine_tenths_of_the_height() {
    let wave = basin_wave();
    // after one tick the slow wave stands at the angle 0.01, the quick one at 0.005
    assert_eq!(seafloor_y(600 * ONE, 1, 0, &wave), 540_115_050);
    assert_eq!(seafloor_y(600 * ONE, 0, 400 * ONE, &wave), 554_045_060);
    assert_eq!(seafloor_y(600 * ONE, 3, -400 * ONE, &wave), 525_834_275);
}

#[test]
fn the_floor_stays_within_fifteen_pixels_of_its_level() {
    let wave = basin_wave();
    let mut high = 0;
    let mut low = 0;
    for frame in [0u64, 1, 17, 1000, 123_456, FRAME_LIMIT] {
        let mut x = -1000 * ONE;
        while x < 3000 * ONE {
            let y = seafloor_y(600 * ONE, frame, x, &wave);
            assert!((y - 540 * ONE).abs() <= 15 * ONE);
            if y - 540 * ONE > high {
                high = y - 540 * ONE;
            }
            if y - 540 * ONE < low {
                low = y - 540 * ONE;
            }
            x += 3_333_333;
        }
    }
    assert!(high > 12 * ONE);
    assert!(low < -12 * ONE);
    assert_eq!(seafloor_y(600 * ONE, 5, i64::MAX, &wave), seafloor_y(600 * ONE, 5, i64::MAX, &wave));
    assert!((seafloor_y(600 * ONE, 5, i64::MIN, &wave) - 540 * ONE).abs() <= 15 * ONE);
}

#[test]
fn the_floor_moves_with_the_frames() {
    let mut a = basin();
    let before = a.get_seafloor_y_at(100 * ONE);
    for _ in 0..50 {
        a.tick();
    }
    assert_eq!(a.frame_count, 50);
    assert_ne!(a.get_seafloor_y_at(100 * ONE), before);
    assert_eq!(a.get_seafloor_y_at(100 * ONE), seafloor_y(600 * ONE, 50, 100 * ONE, &a.wave));
}

#[test]
fn the_outline_has_a_point_every_ten_pixels() {
    let a = basin();
    let points = a.seafloor_outline();
    assert_eq!(points.len(), 81);
    for (k, point) in points.iter().enumerate() {
        assert_eq!(point.0, (k as i64) * 10 * ONE);
        assert_eq!(point.1, a.get_seafloor_y_at(point.0));
    }
    assert_eq!(points[80].0, 800 * ONE);
    assert_eq!(Aquarium::new(805, 600, basin_wave()).seafloor_outline().len(), 82);
    assert_eq!(Aquarium::new(1, 600, basin_wave()).seafloor_outline().len(), 2);
}

#[test]
fn remove_food_takes_out_the_named_particles() {
    let mut food: Vec<Food> = (0..5).map(crumb).collect();
    remove_food(&mut food, &vec![3, 1]);
    assert_eq!(food.len(), 3);
    assert_eq!(food[0].x, 0);
    assert_eq!(food[1].x, 2 * ONE);
    assert_eq!(food[2].x, 4 * ONE);
    assert_eq!(food[2].y, 40 * ONE);
    assert_eq!(food[2].vy, 4);
}

#[test]
fn remove_food_ignores_order_repeats_and_strays() {
    let queues: Vec<Vec<usize>> = vec![
        vec![1, 3],
        vec![3, 1],
        vec![3, 1, 3, 1, 1],
        vec![1, 9, 3, 5, usize::MAX],
        vec![3, 3, 3, 1],
    ];
    for queue in queues.iter() {
        let mut food: Vec<Food> = (0..5).map(crumb).collect();
        remove_food(&mut food, queue);
        let left: Vec<i64> = food.iter().map(|f| f.x / ONE).collect();
        assert_eq!(left, vec![0, 2, 4]);
    }
}

#[test]
fn remove_food_with_an_empty_queue_removes_nothing() {
    let mut food: Vec<Food> = (0..5).map(crumb).collect();
    remove_food(&mut food, &Vec::new());
    assert_eq!(food.len(), 5);
    remove_food(&mut food, &vec![5, 6, 7]);
    assert_eq!(food.len(), 5);
    let mut none: Vec<Food> = Vec::new();
    remove_food(&mut none, &vec![0, 1]);
    assert!(none.is_empty());
}

#[test]
fn remove_food_can_take_everything() {
    let mut food: Vec<Food> = (0..5).map(crumb).collect();
    remove_food(&mut food, &vec![4, 0, 2, 1, 3, 0]);
    assert!(food.is_empty());
    let mut ends: Vec<Food> = (0..5).map(crumb).collect();
    remove_food(&mut ends, &vec![0, 4]);
    let left: Vec<i64> = ends.iter().map(|f| f.x / ONE).collect();
    assert_eq!(left, vec![1, 2, 3]);
}

#[test]
fn add_food_appends_a_particle_at_rest() {
    let mut a = basin();
    a.add_food(400 * ONE, 100 * ONE);
    assert_eq!(a.food.len(), 1);
    assert_eq!((a.food[0].x, a.food[0].y, a.food[0].vy), (400 * ONE, 100 * ONE, 0));
    a.add_food(i64::MAX, i64::MIN);
    assert_eq!(a.food.len(), 2);
    assert_eq!((a.food[1].x, a.food[1].y), (WORLD, -WORLD));
    assert_eq!(a.fishes.len(), 15);
}

#[test]
fn add_fish_appends_a_fish_at_rest() {
    let mut a = basin();
    let before: Vec<i64> = a.fishes.iter().map(|f| f.x).collect();
    a.add_fish(123 * ONE, 456 * ONE);
    assert_eq!(a.fishes.len(), 16);
    let f = a.fishes[15];
    assert_eq!((f.x, f.y), (123 * ONE, 456 * ONE));
    assert_eq!((f.vx, f.vy, f.ax, f.ay), (0, 0, 0, 0));
    assert!(10 * ONE <= f.size && f.size < 18 * ONE);
    assert!(300_000 <= f.max_speed && f.max_speed < 600_000);
    let after: Vec<i64> = a.fishes.iter().take(15).map(|f| f.x).collect();
    assert_eq!(before, after);
    a.add_fish(i64::MIN, i64::MAX);
    assert_eq!((a.fishes[16].x, a.fishes[16].y), (-WORLD, WORLD));
    assert_eq!(a.food.len(), 0);
}

#[test]
fn a_tick_keeps_the_population() {
    let mut a = basin();
    let seed = a.castle_seed;
    for n in 1..=500u64 {
        a.tick();
        assert_eq!(a.frame_count, n);
        assert_eq!(a.fishes.len(), 15);
        assert_eq!(a.crabs.len(), 3);
        assert_eq!(a.bubbles.len(), 30);
        assert_eq!(a.god_rays.len(), 4);
        assert_eq!(a.food.len(), 0);
        assert_eq!(a.width, 800 * ONE);
        assert_eq!(a.height, 600 * ONE);
        assert_eq!(a.castle_seed, seed);
    }
}

#[test]
fn the_frame_counter_stops_at_its_limit() {
    let mut a = basin();
    a.frame_count = FRAME_LIMIT - 1;
    a.tick();
    assert_eq!(a.frame_count, FRAME_LIMIT);
    a.tick();
    assert_eq!(a.frame_count, FRAME_LIMIT);
}

#[test]
fn a_tick_moves_everything_by_its_own_rule() {
    let mut a = basin();
    a.add_food(400 * ONE, 100 * ONE);
    a.add_food(100 * ONE, 590 * ONE);
    for _ in 0..300 {
        let before_rays: Vec<GodRay> = a.god_rays.clone();
        let before_crabs: Vec<Crab> = a.crabs.clone();
        let before_fish: Vec<Fish> = a.fishes.clone();
        let before_food: Vec<Food> = a.food.clone();
        let before_bubbles = a.bubbles.clone();
        a.tick();
        for (old, new) in before_rays.iter().zip(a.god_rays.iter()) {
            assert_eq!(new.life, old.life + 1);
            assert_eq!(new.max_life, old.max_life);
        }
        for (old, new) in before_bubbles.iter().zip(a.bubbles.iter()) {
            let mut risen = *old;
            risen.update(&a.wave);
            if risen.has_escaped() {
                assert!(new.y > 400 * ONE);
            } else {
                assert_eq!(new.y, risen.y);
                assert_eq!(new.x, risen.x);
            }
        }
        for (old, new) in before_crabs.iter().zip(a.crabs.iter()) {
            assert_eq!(new.y, a.get_seafloor_y_at(old.x) - 8 * ONE);
            assert!((new.x - old.x).abs() <= 500_000);
            assert!(-500_000 <= new.x && new.x <= a.width + 500_000);
            assert!(new.state_timer >= 1);
        }
        for (old, new) in before_fish.iter().zip(a.fishes.iter()) {
            let t = nearest_food(&before_food, old.x, old.y);
            let top = match t {
                Some(t) => old.max_speed + urgency_of(t.dist_sq, a.width, a.height) / 2,
                None => old.max_speed,
            } as i128;
            let speed_sq =
                (new.vx as i128) * (new.vx as i128) + (new.vy as i128) * (new.vy as i128);
            assert!(speed_sq <= top * top);
            assert_eq!(new.x, old.x + new.vx);
            assert_eq!(new.y, old.y + new.vy);
            assert_eq!((new.ax, new.ay), (0, 0));
        }
        assert!(a.food.len() <= before_food.len());
        for f in a.food.iter() {
            assert!(f.y <= a.get_seafloor_y_at(f.x));
        }
    }
}

#[test]
fn a_ray_that_is_spent_starts_over() {
    let old = GodRay {
        x: 0,
        top_width: 30 * ONE,
        bottom_width: ONE,
        length: 400 * ONE,
        blur: 11 * ONE,
        life: 1198,
        max_life: 1200,
    };
    let mut rays = vec![old, GodRay { life: 1199, ..old }, GodRay { life: 1200, ..old }];
    update_rays(&mut rays, 800 * ONE, 600 * ONE);
    assert_eq!(rays[0].life, 1199);
    assert_eq!(rays[0].top_width, 30 * ONE);
    assert_eq!(rays[1].life, 0);
    assert_eq!(rays[2].life, 0);
    assert!(rays[1].top_width >= 20 * ONE);
    assert!(rays[1].length >= 300 * ONE);
}

#[test]
fn crabs_walk_on_the_floor_under_them() {
    let wave = basin_wave();
    let c = Crab {
        x: 100 * ONE,
        y: 0,
        size: 12 * ONE,
        direction: 1,
        state: CrabState::Walking,
        state_timer: 50,
    };
    let mut crabs = vec![c, Crab { x: 700 * ONE, direction: -1, ..c }];
    update_crabs(&mut crabs, 800 * ONE, 600 * ONE, 7, &wave);
    assert_eq!(crabs[0].x, 100 * ONE + 500_000);
    assert_eq!(crabs[0].y, seafloor_y(600 * ONE, 7, 100 * ONE, &wave) - 8 * ONE);
    assert_eq!(crabs[1].x, 700 * ONE - 500_000);
    assert_eq!(crabs[1].y, seafloor_y(600 * ONE, 7, 700 * ONE, &wave) - 8 * ONE);
    assert_eq!(crabs[0].state_timer, 49);
}

#[test]
fn food_sinks_to_the_floor_under_it() {
    let wave = basin_wave();
    let mut food = vec![
        Food { x: 100 * ONE, y: 100 * ONE, vy: 0 },
        Food { x: 300 * ONE, y: 599 * ONE, vy: 0 },
    ];
    update_food(&mut food, 600 * ONE, 9, &wave);
    assert_eq!(food[0].y, 100 * ONE + 6_930);
    assert_eq!(food[0].vy, 6_930);
    assert_eq!(food[1].y, seafloor_y(600 * ONE, 9, 300 * ONE, &wave));
    assert_eq!(food[1].vy, 0);
}

#[test]
fn fish_eat_what_they_reach_and_nothing_else() {
    let wave = basin_wave();
    let fish = Fish {
        x: 400 * ONE,
        y: 300 * ONE,
        vx: 0,
        vy: 0,
        ax: 0,
        ay: 0,
        size: 10 * ONE,
        hue: 1,
        wander_angle: 0,
        max_speed: 400_000,
        max_force: 20_000,
    };
    let mut fishes = vec![fish, Fish { x: 405 * ONE, ..fish }, Fish { x: 100 * ONE, ..fish }];
    let mut food = vec![
        Food { x: 700 * ONE, y: 100 * ONE, vy: 0 },
        Food { x: 402 * ONE, y: 300 * ONE, vy: 3 },
        Food { x: 50 * ONE, y: 500 * ONE, vy: 0 },
        Food { x: 100 * ONE, y: 305 * ONE, vy: 5 },
        Food { x: 600 * ONE, y: 400 * ONE, vy: 0 },
    ];
    update_fishes(&mut fishes, &mut food, 800 * ONE, 600 * ONE, 1, &wave);
    assert_eq!(fishes.len(), 3);
    // two fish reach the particle at 402, one reaches the particle at (100, 305)
    let left: Vec<i64> = food.iter().map(|f| f.x / ONE).collect();
    assert_eq!(left, vec![700, 50, 600]);
}

#[test]
fn dropped_food_is_eaten_within_bounded_time() {
    let mut a = basin();
    a.add_food(400 * ONE, 100 * ONE);
    assert_eq!(a.food.len(), 1);
    let mut ticks = 0;
    while a.food.len() == 1 {
        let fishes_before = a.fishes.len();
        a.tick();
        ticks += 1;
        assert_eq!(a.fishes.len(), fishes_before);
        assert!(ticks < 200_000);
    }
    assert_eq!(a.food.len(), 0);
}

#[test]
fn food_is_eaten_exactly_when_a_fish_has_reached_it() {
    let mut a = basin();
    a.add_food(400 * ONE, 100 * ONE);
    let mut ticks = 0;
    loop {
        let before = a.food.clone();
        a.tick();
        ticks += 1;
        let reached = a.fishes.iter().any(|f| f.bite(&before).is_some());
        if reached {
            assert_eq!(a.food.len(), 0);
            break;
        }
        assert_eq!(a.food.len(), 1);
        assert!(ticks < 200_000);
    }
}

#[test]
fn the_stonework_of_a_basin_never_changes() {
    let mut a = basin();
    let first = a.cobblestones();
    assert_eq!(first, cobblestones(a.castle_seed));
    assert_eq!(a.cobblestones(), first);
    for _ in 0..20 {
        a.tick();
        assert_eq!(a.cobblestones(), first);
    }
    let mut b = basin();
    b.castle_seed = a.castle_seed;
    assert_eq!(b.cobblestones(), first);
}

#[test]
fn basins_get_seeds_of_their_own() {
    let first = basin().castle_seed;
    let mut differs = false;
    for _ in 0..20 {
        if basin().castle_seed != first {
            differs = true;
        }
    }
    assert!(differs);
}
