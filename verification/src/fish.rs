//! Fish and their steering.
//!
//! Each tick a fish weighs three drives against each other: it seeks the nearest
//! food, it avoids the walls, and it wanders. The drives are blended by weight,
//! the net force moves the velocity, and the velocity is capped before it moves
//! the fish.

use vstd::prelude::*;
use crate::chance::draw_between;
use crate::fixed::{
    cap, capped, clamp, clamp_to, in_world, lemma_component_within_length, lemma_mul_range,
    lemma_quot_range, lemma_resized_within, lemma_root_up_zero, norm_sq, norm_sq_of, quot, resize,
    resized, root_up, root_up_of, EXTENT, FAR, ONE, WORLD,
};
use crate::food::Food;
use crate::wave::{turn_by, turned, WaveTable, TAU};

verus! {

/// How close to a wall a fish starts to turn away from it.
pub const MARGIN: i64 = 60_000_000;

/// How far ahead of the fish the circle lies on which it picks its wandering goal.
pub const WANDER_AHEAD: i64 = 50_000_000;

/// The radius of that circle, in pixels.
pub const WANDER_RADIUS: i64 = 25;

/// The most the wandering angle changes in a tick, in millionths of a radian.
pub const WANDER_TURN: i64 = 300_000;

/// A fish touches food that lies closer to it than its size and this much more.
pub const BITE: i64 = 3_000_000;

/// The largest top speed a fish may have.
pub const SPEED_LIMIT: i64 = 1_000_000_000;

/// The largest steering force a fish may have.
pub const FORCE_LIMIT: i64 = 1_000_000_000;

/// The largest size a fish may have.
pub const SIZE_LIMIT: i64 = 1_000_000_000;

/// The largest velocity component a fish may have.
pub const VELOCITY_LIMIT: i64 = 1_001_000_000;

/// The largest force a fish may have accumulated, per component.
pub const PUSH_LIMIT: i64 = 10_000_000_000;

/// A fish.
#[derive(Clone, Copy, Debug)]
pub struct Fish {
    pub x: i64,
    pub y: i64,
    pub vx: i64,
    pub vy: i64,
    /// The force accumulated for the coming step; zero between ticks.
    pub ax: i64,
    pub ay: i64,
    pub size: i64,
    /// The hue of its colour, in degrees.
    pub hue: u16,
    pub wander_angle: i64,
    pub max_speed: i64,
    pub max_force: i64,
}

/// The food particle that a fish steers by: which one it is, how far away, where.
#[derive(Clone, Copy, Debug)]
pub struct Target {
    /// Its place in the food collection.
    pub index: usize,
    /// Its squared distance from the fish.
    pub dist_sq: i128,
    pub x: i64,
    pub y: i64,
}

/// The squared distance between `(ax, ay)` and `(bx, by)`.
pub open spec fn dist_sq(ax: int, ay: int, bx: int, by: int) -> int {
    norm_sq(ax - bx, ay - by)
}

/// The squared distance from `(x, y)` to the particle `food[i]`.
pub open spec fn food_dist_sq(food: Seq<Food>, x: int, y: int, i: int) -> int {
    dist_sq(x, y, food[i].x as int, food[i].y as int)
}

/// `food[i]` is the particle nearest to `(x, y)`, the first of them where several
/// are equally near.
pub open spec fn is_nearest(food: Seq<Food>, x: int, y: int, i: int) -> bool {
    &&& 0 <= i < food.len()
    &&& forall|j: int| 0 <= j < food.len() ==> food_dist_sq(food, x, y, i) <= #[trigger] food_dist_sq(food, x, y, j)
    &&& forall|j: int| 0 <= j < i ==> food_dist_sq(food, x, y, i) < #[trigger] food_dist_sq(food, x, y, j)
}

/// The index of the particle nearest to `(x, y)`.
pub open spec fn nearest_index(food: Seq<Food>, x: int, y: int) -> int {
    choose|i: int| is_nearest(food, x, y, i)
}

/// The nearest particle as the steering sees it. Nothing where there is no food.
pub open spec fn nearest_target(food: Seq<Food>, x: int, y: int) -> Option<Target> {
    if food.len() == 0 {
        None
    } else {
        let i = nearest_index(food, x, y);
        Some(
            Target {
                index: i as usize,
                dist_sq: food_dist_sq(food, x, y, i) as i128,
                x: food[i].x,
                y: food[i].y,
            },
        )
    }
}

impl Target {
    /// A target that the steering can work on: it lies in the world.
    pub open spec fn wf(&self) -> bool {
        &&& 0 <= self.dist_sq <= 2 * FAR * FAR
        &&& -WORLD <= self.x <= WORLD
        &&& -WORLD <= self.y <= WORLD
    }
}

/// The target, if there is one, lies in the world.
pub open spec fn target_in_world(c: Option<Target>) -> bool {
    c is Some ==> c.unwrap().wf()
}

/// How strongly food at the squared distance `d` draws a fish in a basin `width`
/// by `height`: the square of one minus the distance's share of the diagonal,
/// kept between zero and one.
pub open spec fn urgency(d: int, width: int, height: int) -> int {
    let diagonal = root_up(norm_sq(width, height));
    let share = (root_up(d) * ONE) / diagonal;
    clamp(quot((ONE - share) * (ONE - share), ONE as int), 0, ONE as int)
}

/// The part `w` (of one) of the value `v`.
pub open spec fn weighted(v: int, w: int) -> int {
    quot(v * w, ONE as int)
}

/// The three drives blended: avoidance first, seeking in what avoidance leaves,
/// wandering in what both leave.
pub open spec fn blend(avoid: int, avoid_w: int, seek: int, seek_w: int, wander: int) -> int {
    weighted(avoid, avoid_w) + weighted(weighted(seek, seek_w), ONE - avoid_w) + weighted(
        weighted(wander, ONE - seek_w),
        ONE - avoid_w,
    )
}

/// At most one particle is the nearest.
pub proof fn lemma_nearest_unique(food: Seq<Food>, x: int, y: int, i: int, j: int)
    requires
        is_nearest(food, x, y, i),
        is_nearest(food, x, y, j),
    ensures
        i == j,
{
    if i < j {
        assert(food_dist_sq(food, x, y, j) < food_dist_sq(food, x, y, i));
        assert(food_dist_sq(food, x, y, i) <= food_dist_sq(food, x, y, j));
    }
    if j < i {
        assert(food_dist_sq(food, x, y, i) < food_dist_sq(food, x, y, j));
        assert(food_dist_sq(food, x, y, j) <= food_dist_sq(food, x, y, i));
    }
}

/// With avoidance at full weight the blend is the avoiding force alone; with none,
/// seeking and wandering share it.
pub proof fn lemma_blend_priority(avoid: int, seek: int, seek_w: int, wander: int)
    ensures
        blend(avoid, ONE as int, seek, seek_w, wander) == avoid,
        blend(avoid, 0, seek, seek_w, wander) == weighted(seek, seek_w) + weighted(
            wander,
            ONE - seek_w,
        ),
        blend(avoid, 0, seek, ONE as int, wander) == seek,
        blend(avoid, 0, seek, 0, wander) == wander,
{
    lemma_weight_ends(avoid);
    lemma_weight_ends(seek);
    lemma_weight_ends(wander);
    lemma_weight_ends(weighted(seek, seek_w));
    lemma_weight_ends(weighted(wander, ONE - seek_w));
}

/// The whole of a value is the value, and none of it is nothing.
pub proof fn lemma_weight_ends(v: int)
    ensures
        weighted(v, ONE as int) == v,
        weighted(v, 0) == 0,
{
    assert(v * 0 == 0) by (nonlinear_arith);
    if v >= 0 {
        assert((v * 1_000_000) / 1_000_000 == v);
    } else {
        assert(((-v) * 1_000_000) / 1_000_000 == -v);
        assert(-(v * 1_000_000) == (-v) * 1_000_000);
    }
}

/// From rest, the seeking force points toward the target: along neither axis
/// does it point away.
pub proof fn lemma_seek_from_rest(fish: Fish, target: Target, width: int, height: int)
    requires
        fish.wf(),
        fish.vx == 0,
        fish.vy == 0,
    ensures
        target.x >= fish.x ==> fish.seek_force(Some(target), width, height).0 >= 0,
        target.x <= fish.x ==> fish.seek_force(Some(target), width, height).0 <= 0,
        target.y >= fish.y ==> fish.seek_force(Some(target), width, height).1 >= 0,
        target.y <= fish.y ==> fish.seek_force(Some(target), width, height).1 <= 0,
{
    let dx = target.x - fish.x;
    let dy = target.y - fish.y;
    let want = resized(dx, dy, fish.max_speed as int);
    if dx != 0 || dy != 0 {
        lemma_resized_within(dx, dy, fish.max_speed as int);
    } else {
        lemma_component_within_length(dx, dy);
    }
    if want.0 != 0 || want.1 != 0 {
        lemma_resized_within(want.0, want.1, fish.max_force as int);
    }
}

/// The particle nearest to `(x, y)`.
pub fn nearest_food(food: &Vec<Food>, x: i64, y: i64) -> (r: Option<Target>)
    requires
        -WORLD <= x <= WORLD,
        -WORLD <= y <= WORLD,
        forall|i: int| 0 <= i < food.len() ==> (#[trigger] food[i]).wf(),
    ensures
        r == nearest_target(food@, x as int, y as int),
        r is None <==> food.len() == 0,
        r is Some ==> is_nearest(food@, x as int, y as int, r.unwrap().index as int),
        r is Some ==> r.unwrap().dist_sq == food_dist_sq(
            food@,
            x as int,
            y as int,
            r.unwrap().index as int,
        ),
        target_in_world(r),
{
    if food.len() == 0 {
        return None;
    }
    let mut best: usize = 0;
    let mut best_d: i128 = norm_sq_of(x - food[0].x, y - food[0].y);
    let mut i: usize = 1;
    while i < food.len()
        invariant
            1 <= i <= food.len(),
            -WORLD <= x <= WORLD,
            -WORLD <= y <= WORLD,
            forall|k: int| 0 <= k < food.len() ==> (#[trigger] food[k]).wf(),
            0 <= best < i,
            best_d == food_dist_sq(food@, x as int, y as int, best as int),
            0 <= best_d <= 2 * FAR * FAR,
            forall|j: int|
                0 <= j < i ==> best_d <= #[trigger] food_dist_sq(food@, x as int, y as int, j),
            forall|j: int|
                0 <= j < best ==> best_d < #[trigger] food_dist_sq(food@, x as int, y as int, j),
        decreases food.len() - i,
    {
        let d: i128 = norm_sq_of(x - food[i].x, y - food[i].y);
        if d < best_d {
            best = i;
            best_d = d;
        }
        i += 1;
    }
    proof {
        lemma_nearest_unique(
            food@,
            x as int,
            y as int,
            best as int,
            nearest_index(food@, x as int, y as int),
        );
    }
    Some(Target { index: best, dist_sq: best_d, x: food[best].x, y: food[best].y })
}

/// How strongly food at the squared distance `d` draws a fish.
pub fn urgency_of(d: i128, width: i64, height: i64) -> (u: i64)
    requires
        0 <= d <= 2 * FAR * FAR,
        0 < width <= EXTENT,
        0 < height <= EXTENT,
    ensures
        u == urgency(d as int, width as int, height as int),
        0 <= u <= ONE,
{
    let diagonal: i64 = root_up_of(norm_sq_of(width, height));
    let dist: i64 = root_up_of(d);
    proof {
        assert(norm_sq(width as int, height as int) > 0) by (nonlinear_arith)
            requires
                width > 0,
                height > 0,
        ;
        lemma_root_up_zero(norm_sq(width as int, height as int), diagonal as int);
    }
    let share: i128 = (dist as i128 * ONE as i128) / (diagonal as i128);
    if share >= 2 * ONE as i128 {
        proof {
            let t = ONE - share;
            assert(t * t >= ONE * ONE) by (nonlinear_arith)
                requires
                    t <= -ONE,
            ;
            assert((t * t) / (ONE as int) >= ONE) by (nonlinear_arith)
                requires
                    t * t >= ONE * ONE,
            ;
        }
        ONE
    } else {
        let t: i128 = ONE as i128 - share;
        proof {
            lemma_mul_range(t as int, t as int, ONE as int, ONE as int);
            assert(t * t >= 0) by (nonlinear_arith);
        }
        let sq: i128 = (t * t) / (ONE as i128);
        clamp_to(sq, 0, ONE)
    }
}

/// The part `w` (of one) of the value `v`.
pub fn part_of(v: i64, w: i64) -> (r: i64)
    requires
        -FAR <= v <= FAR,
        0 <= w <= ONE,
    ensures
        r == weighted(v as int, w as int),
        v >= 0 ==> 0 <= r <= v,
        v <= 0 ==> v <= r <= 0,
{
    proof {
        lemma_part_between(v as int, w as int);
        lemma_mul_range(v as int, w as int, FAR as int, ONE as int);
    }
    let p: i128 = (v as i128 * w as i128) / (ONE as i128);
    p as i64
}

/// A part of a value lies between zero and the value.
pub proof fn lemma_part_between(v: int, w: int)
    requires
        0 <= w <= ONE,
    ensures
        v >= 0 ==> 0 <= weighted(v, w) <= v,
        v <= 0 ==> v <= weighted(v, w) <= 0,
{
    if v >= 0 {
        lemma_mul_range(v, w, v, ONE as int);
        assert(v * w >= 0) by (nonlinear_arith)
            requires
                v >= 0,
                w >= 0,
        ;
        lemma_quot_range(v * w, ONE as int, v);
    } else {
        lemma_mul_range(v, w, -v, ONE as int);
        assert(v * w <= 0) by (nonlinear_arith)
            requires
                v <= 0,
                w >= 0,
        ;
        lemma_quot_range(v * w, ONE as int, -v);
    }
}

/// The three drives blended.
pub fn blend_of(avoid: i64, avoid_w: i64, seek: i64, seek_w: i64, wander: i64) -> (r: i64)
    requires
        -FORCE_LIMIT <= avoid <= FORCE_LIMIT,
        -FORCE_LIMIT <= seek <= FORCE_LIMIT,
        -FORCE_LIMIT <= wander <= FORCE_LIMIT,
        0 <= avoid_w <= ONE,
        0 <= seek_w <= ONE,
    ensures
        r == blend(avoid as int, avoid_w as int, seek as int, seek_w as int, wander as int),
        -3 * FORCE_LIMIT <= r <= 3 * FORCE_LIMIT,
{
    let a: i64 = part_of(avoid, avoid_w);
    let s: i64 = part_of(part_of(seek, seek_w), ONE - avoid_w);
    let w: i64 = part_of(part_of(wander, ONE - seek_w), ONE - avoid_w);
    a + s + w
}

impl Fish {
    /// Every field lies in the range that the steering can work on.
    pub open spec fn wf(&self) -> bool {
        &&& -WORLD <= self.x <= WORLD
        &&& -WORLD <= self.y <= WORLD
        &&& -VELOCITY_LIMIT <= self.vx <= VELOCITY_LIMIT
        &&& -VELOCITY_LIMIT <= self.vy <= VELOCITY_LIMIT
        &&& -PUSH_LIMIT <= self.ax <= PUSH_LIMIT
        &&& -PUSH_LIMIT <= self.ay <= PUSH_LIMIT
        &&& 0 <= self.size <= SIZE_LIMIT
        &&& self.hue < 360
        &&& 0 <= self.wander_angle < TAU
        &&& 0 <= self.max_speed <= SPEED_LIMIT
        &&& 0 <= self.max_force <= FORCE_LIMIT
    }

    /// The fish is one that `new` may leave in a basin `canvas_width` by
    /// `canvas_height`: at rest somewhere in the upper four fifths, with every
    /// trait in its range.
    pub open spec fn fresh_in(&self, canvas_width: int, canvas_height: int) -> bool {
        &&& 0 <= self.x < canvas_width
        &&& 0 <= self.y <= canvas_height * 4 / 5
        &&& canvas_height >= 2 ==> self.y < canvas_height * 4 / 5
        &&& self.has_fresh_traits()
    }

    /// The fish is at rest, and its traits lie in the ranges from which `new`
    /// draws them.
    pub open spec fn has_fresh_traits(&self) -> bool {
        &&& self.vx == 0 && self.vy == 0 && self.ax == 0 && self.ay == 0
        &&& 10 * ONE <= self.size < 18 * ONE
        &&& self.hue < 360
        &&& 0 <= self.wander_angle < TAU
        &&& 300_000 <= self.max_speed < 600_000
        &&& 10_000 <= self.max_force < 30_000
    }

    /// The force that steers toward the target, and its weight: the velocity
    /// wanted is the top speed in the target's direction, the force is what
    /// separates it from the present velocity, capped at the largest force.
    /// Without a target both are zero.
    pub open spec fn seek_force(&self, target: Option<Target>, width: int, height: int) -> (
        int,
        int,
        int,
    ) {
        match target {
            None => (0, 0, 0),
            Some(t) => {
                let want = resized(t.x - self.x, t.y - self.y, self.max_speed as int);
                let steer = capped(want.0 - self.vx, want.1 - self.vy, self.max_force as int);
                (steer.0, steer.1, urgency(t.dist_sq as int, width, height))
            },
        }
    }

    /// The fish is within the margin of the left wall, and the target does not lie
    /// beyond that wall.
    pub open spec fn crowds_left(&self, target: Option<Target>) -> bool {
        self.x < MARGIN && !(target is Some && target.unwrap().x < self.x)
    }

    /// The same for the right wall, at `width`.
    pub open spec fn crowds_right(&self, width: int, target: Option<Target>) -> bool {
        self.x > width - MARGIN && !(target is Some && target.unwrap().x > self.x)
    }

    /// The same for the surface.
    pub open spec fn crowds_top(&self, target: Option<Target>) -> bool {
        self.y < MARGIN && !(target is Some && target.unwrap().y < self.y)
    }

    /// The same for the floor, at `floor_y`.
    pub open spec fn crowds_floor(&self, floor_y: int, target: Option<Target>) -> bool {
        self.y > floor_y - MARGIN && !(target is Some && target.unwrap().y > self.y)
    }

    /// The push away from the walls before it is capped: along each axis, what
    /// separates the velocity from top speed toward the inside.
    pub open spec fn wall_push(&self, floor_y: int, width: int, target: Option<Target>) -> (
        int,
        int,
    ) {
        let from_left = if self.crowds_left(target) {
            self.max_speed - self.vx
        } else {
            0
        };
        let from_right = if self.crowds_right(width, target) {
            -self.max_speed - self.vx
        } else {
            0
        };
        let from_top = if self.crowds_top(target) {
            self.max_speed - self.vy
        } else {
            0
        };
        let from_floor = if self.crowds_floor(floor_y, target) {
            -self.max_speed - self.vy
        } else {
            0
        };
        (from_left + from_right, from_top + from_floor)
    }

    /// The force that steers away from the walls, and its weight: one where any
    /// wall is too close, else zero.
    pub open spec fn avoid_force(&self, floor_y: int, width: int, target: Option<Target>) -> (
        int,
        int,
        int,
    ) {
        if self.crowds_left(target) || self.crowds_right(width, target) || self.crowds_top(target)
            || self.crowds_floor(floor_y, target) {
            let push = self.wall_push(floor_y, width, target);
            let steer = capped(push.0, push.1, self.max_force as int);
            (steer.0, steer.1, ONE as int)
        } else {
            (0, 0, 0)
        }
    }

    /// The wandering force for the wandering angle `angle`: a point on a circle
    /// ahead of the fish (ahead along the x axis where the fish is at rest),
    /// rescaled to a fifth of the largest force.
    pub open spec fn wander_force(&self, angle: int, wave: WaveTable) -> (int, int) {
        let ahead = if self.vx == 0 && self.vy == 0 {
            (WANDER_AHEAD as int, 0int)
        } else {
            resized(self.vx as int, self.vy as int, WANDER_AHEAD as int)
        };
        let goal_x = ahead.0 + wave.cosine(angle) * WANDER_RADIUS;
        let goal_y = ahead.1 + wave.sine(angle) * WANDER_RADIUS;
        if goal_x == 0 && goal_y == 0 {
            (0, 0)
        } else {
            resized(goal_x, goal_y, self.max_force as int / 5)
        }
    }

    /// The force that one step accumulates: the blend of the three drives.
    pub open spec fn net_force(
        &self,
        food: Seq<Food>,
        floor_y: int,
        width: int,
        height: int,
        turn: int,
        wave: WaveTable,
    ) -> (int, int) {
        let target = nearest_target(food, self.x as int, self.y as int);
        let seek = self.seek_force(target, width, height);
        let avoid = self.avoid_force(floor_y, width, target);
        let wander = self.wander_force(turned(self.wander_angle as int, turn), wave);
        (
            blend(avoid.0, avoid.2, seek.0, seek.2, wander.0),
            blend(avoid.1, avoid.2, seek.1, seek.2, wander.1),
        )
    }

    /// The speed that the fish may not pass in this step: its top speed and half
    /// the weight of its appetite.
    pub open spec fn speed_cap(&self, food: Seq<Food>, width: int, height: int) -> int {
        let target = nearest_target(food, self.x as int, self.y as int);
        self.max_speed + self.seek_force(target, width, height).2 / 2
    }

    /// The velocity after one step: the old velocity and the accumulated force,
    /// capped.
    pub open spec fn next_velocity(
        &self,
        food: Seq<Food>,
        floor_y: int,
        width: int,
        height: int,
        turn: int,
        wave: WaveTable,
    ) -> (int, int) {
        let force = self.net_force(food, floor_y, width, height, turn, wave);
        let push_x = clamp(self.ax + force.0, -PUSH_LIMIT, PUSH_LIMIT as int);
        let push_y = clamp(self.ay + force.1, -PUSH_LIMIT, PUSH_LIMIT as int);
        capped(self.vx + push_x, self.vy + push_y, self.speed_cap(food, width, height))
    }

    /// `next` is this fish one step on, having turned its wandering angle by `turn`.
    pub open spec fn advances_to(
        &self,
        next: Fish,
        food: Seq<Food>,
        floor_y: int,
        width: int,
        height: int,
        turn: int,
        wave: WaveTable,
    ) -> bool {
        let v = self.next_velocity(food, floor_y, width, height, turn, wave);
        &&& next.vx == v.0
        &&& next.vy == v.1
        &&& next.x == in_world(self.x + v.0)
        &&& next.y == in_world(self.y + v.1)
        &&& next.ax == 0
        &&& next.ay == 0
        &&& next.wander_angle == turned(self.wander_angle as int, turn)
        &&& next.size == self.size
        &&& next.hue == self.hue
        &&& next.max_speed == self.max_speed
        &&& next.max_force == self.max_force
    }

    /// The particle that the fish eats where it is now: the nearest one, if it lies
    /// closer than the fish's size and the bite.
    pub open spec fn bitten(&self, food: Seq<Food>) -> Option<int> {
        let i = nearest_index(food, self.x as int, self.y as int);
        if food.len() > 0 && food_dist_sq(food, self.x as int, self.y as int, i) < (self.size
            + BITE) * (self.size + BITE) {
            Some(i)
        } else {
            None
        }
    }

    /// A fish at rest somewhere in the upper four fifths of a basin `canvas_width`
    /// by `canvas_height`, its traits drawn at random.
    pub fn new(canvas_width: i64, canvas_height: i64) -> (fish: Fish)
        requires
            0 < canvas_width <= EXTENT,
            0 < canvas_height <= EXTENT,
        ensures
            fish.wf(),
            fish.fresh_in(canvas_width as int, canvas_height as int),
    {
        let size: i64 = draw_between(10 * ONE, 18 * ONE);
        let x: i64 = draw_between(0, canvas_width);
        let y: i64 = draw_between(0, canvas_height * 4 / 5);
        let hue: i64 = draw_between(0, 360);
        let wander_angle: i64 = draw_between(0, TAU);
        let max_speed: i64 = draw_between(300_000, 600_000);
        let max_force: i64 = draw_between(10_000, 30_000);
        Fish {
            x,
            y,
            vx: 0,
            vy: 0,
            ax: 0,
            ay: 0,
            size,
            hue: hue as u16,
            wander_angle,
            max_speed,
            max_force,
        }
    }

    /// Adds `(fx, fy)` to the accumulated force.
    pub fn apply_force(&mut self, fx: i64, fy: i64)
        requires
            old(self).wf(),
        ensures
            final(self).ax == clamp(old(self).ax + fx, -PUSH_LIMIT, PUSH_LIMIT as int),
            final(self).ay == clamp(old(self).ay + fy, -PUSH_LIMIT, PUSH_LIMIT as int),
            final(self).wf(),
            *final(self) == (Fish { ax: final(self).ax, ay: final(self).ay, ..*old(self) }),
    {
        self.ax = clamp_to(self.ax as i128 + fx as i128, -PUSH_LIMIT, PUSH_LIMIT);
        self.ay = clamp_to(self.ay as i128 + fy as i128, -PUSH_LIMIT, PUSH_LIMIT);
    }

    /// The force that steers toward `closest_food`, and its weight.
    pub fn get_seek_force(&self, closest_food: Option<Target>, width: i64, height: i64) -> (r: (
        i64,
        i64,
        i64,
    ))
        requires
            self.wf(),
            target_in_world(closest_food),
            0 < width <= EXTENT,
            0 < height <= EXTENT,
        ensures
            (r.0 as int, r.1 as int, r.2 as int) == self.seek_force(
                closest_food,
                width as int,
                height as int,
            ),
            norm_sq(r.0 as int, r.1 as int) <= self.max_force * self.max_force,
            -self.max_force <= r.0 <= self.max_force,
            -self.max_force <= r.1 <= self.max_force,
            0 <= r.2 <= ONE,
            closest_food is None ==> r == (0i64, 0i64, 0i64),
    {
        match closest_food {
            Some(t) => {
                let urgency: i64 = urgency_of(t.dist_sq, width, height);
                let want: (i64, i64) = resize(t.x - self.x, t.y - self.y, self.max_speed);
                let steer: (i64, i64) = cap(want.0 - self.vx, want.1 - self.vy, self.max_force);
                (steer.0, steer.1, urgency)
            },
            None => {
                assert(0int * 0int == 0) by (nonlinear_arith);
                assert(self.max_force * self.max_force >= 0) by (nonlinear_arith);
                (0, 0, 0)
            },
        }
    }

    /// The force that steers away from the walls, and its weight.
    pub fn get_avoid_force(
        &self,
        floor_y: i64,
        width: i64,
        _height: i64,
        closest_food: Option<Target>,
    ) -> (r: (i64, i64, i64))
        requires
            self.wf(),
            target_in_world(closest_food),
            -WORLD <= floor_y <= WORLD,
            0 < width <= EXTENT,
        ensures
            (r.0 as int, r.1 as int, r.2 as int) == self.avoid_force(
                floor_y as int,
                width as int,
                closest_food,
            ),
            norm_sq(r.0 as int, r.1 as int) <= self.max_force * self.max_force,
            -self.max_force <= r.0 <= self.max_force,
            -self.max_force <= r.1 <= self.max_force,
            r.2 == 0 || r.2 == ONE,
    {
        let mut total_steer_x: i64 = 0;
        let mut total_steer_y: i64 = 0;
        let mut should_avoid: bool = false;
        let (food_left, food_right, food_above, food_below): (bool, bool, bool, bool) =
            match closest_food {
            Some(t) => (t.x < self.x, t.x > self.x, t.y < self.y, t.y > self.y),
            None => (false, false, false, false),
        };
        if self.x < MARGIN && !food_left {
            total_steer_x = total_steer_x + (self.max_speed - self.vx);
            should_avoid = true;
        }
        if self.x > width - MARGIN && !food_right {
            total_steer_x = total_steer_x + (-self.max_speed - self.vx);
            should_avoid = true;
        }
        if self.y < MARGIN && !food_above {
            total_steer_y = total_steer_y + (self.max_speed - self.vy);
            should_avoid = true;
        }
        if self.y > floor_y - MARGIN && !food_below {
            total_steer_y = total_steer_y + (-self.max_speed - self.vy);
            should_avoid = true;
        }
        assert((total_steer_x as int, total_steer_y as int) == self.wall_push(
            floor_y as int,
            width as int,
            closest_food,
        ));
        if should_avoid {
            let steer: (i64, i64) = cap(total_steer_x, total_steer_y, self.max_force);
            (steer.0, steer.1, ONE)
        } else {
            assert(0int * 0int == 0) by (nonlinear_arith);
            assert(self.max_force * self.max_force >= 0) by (nonlinear_arith);
            (0, 0, 0)
        }
    }

    /// Turns the wandering angle by `turn` and gives the wandering force.
    pub fn wander_by(&mut self, turn: i64, wave: &WaveTable) -> (r: (i64, i64))
        requires
            old(self).wf(),
            wave.wf(),
            -WANDER_TURN <= turn <= WANDER_TURN,
        ensures
            final(self).wander_angle == turned(old(self).wander_angle as int, turn as int),
            *final(self) == (Fish { wander_angle: final(self).wander_angle, ..*old(self) }),
            final(self).wf(),
            (r.0 as int, r.1 as int) == old(self).wander_force(
                final(self).wander_angle as int,
                *wave,
            ),
            -old(self).max_force <= r.0 <= old(self).max_force,
            -old(self).max_force <= r.1 <= old(self).max_force,
    {
        self.wander_angle = turn_by(self.wander_angle, turn);
        let ahead: (i64, i64) = if self.vx == 0 && self.vy == 0 {
            (WANDER_AHEAD, 0)
        } else {
            resize(self.vx, self.vy, WANDER_AHEAD)
        };
        let goal_x: i64 = ahead.0 + wave.cos(self.wander_angle) * WANDER_RADIUS;
        let goal_y: i64 = ahead.1 + wave.sin(self.wander_angle) * WANDER_RADIUS;
        if goal_x == 0 && goal_y == 0 {
            (0, 0)
        } else {
            resize(goal_x, goal_y, self.max_force / 5)
        }
    }

    /// Turns the wandering angle by a random amount and gives the wandering force.
    pub fn wander(&mut self, wave: &WaveTable) -> (r: (i64, i64))
        requires
            old(self).wf(),
            wave.wf(),
        ensures
            final(self).wf(),
            exists|turn: int|
                {
                    &&& -WANDER_TURN <= turn < WANDER_TURN
                    &&& final(self).wander_angle == #[trigger] turned(
                        old(self).wander_angle as int,
                        turn,
                    )
                },
            *final(self) == (Fish { wander_angle: final(self).wander_angle, ..*old(self) }),
            (r.0 as int, r.1 as int) == old(self).wander_force(
                final(self).wander_angle as int,
                *wave,
            ),
    {
        let turn: i64 = draw_between(-WANDER_TURN, WANDER_TURN);
        self.wander_by(turn, wave)
    }

    /// Moves the fish by one step, its wandering angle turned by `turn`.
    pub fn advance(
        &mut self,
        food_items: &Vec<Food>,
        floor_y: i64,
        width: i64,
        height: i64,
        turn: i64,
        wave: &WaveTable,
    )
        requires
            old(self).wf(),
            wave.wf(),
            forall|i: int| 0 <= i < food_items.len() ==> (#[trigger] food_items[i]).wf(),
            -WORLD <= floor_y <= WORLD,
            0 < width <= EXTENT,
            0 < height <= EXTENT,
            -WANDER_TURN <= turn <= WANDER_TURN,
        ensures
            old(self).advances_to(
                *final(self),
                food_items@,
                floor_y as int,
                width as int,
                height as int,
                turn as int,
                *wave,
            ),
            final(self).wf(),
            norm_sq(final(self).vx as int, final(self).vy as int) <= old(self).speed_cap(
                food_items@,
                width as int,
                height as int,
            ) * old(self).speed_cap(food_items@, width as int, height as int),
            old(self).max_speed <= old(self).speed_cap(food_items@, width as int, height as int)
                <= old(self).max_speed + ONE / 2,
    {
        let closest_food: Option<Target> = nearest_food(food_items, self.x, self.y);
        let seek: (i64, i64, i64) = self.get_seek_force(closest_food, width, height);
        let avoid: (i64, i64, i64) = self.get_avoid_force(floor_y, width, height, closest_food);
        let wander: (i64, i64) = self.wander_by(turn, wave);
        let force_x: i64 = blend_of(avoid.0, avoid.2, seek.0, seek.2, wander.0);
        let force_y: i64 = blend_of(avoid.1, avoid.2, seek.1, seek.2, wander.1);
        self.apply_force(force_x, force_y);
        let current_max_speed: i64 = self.max_speed + seek.2 / 2;
        let v: (i64, i64) = cap(self.vx + self.ax, self.vy + self.ay, current_max_speed);
        self.vx = v.0;
        self.vy = v.1;
        self.x = clamp_to(self.x as i128 + v.0 as i128, -WORLD, WORLD);
        self.y = clamp_to(self.y as i128 + v.1 as i128, -WORLD, WORLD);
        self.ax = 0;
        self.ay = 0;
    }

    /// Moves the fish by one step, its wandering angle turned at random.
    pub fn update(
        &mut self,
        food_items: &Vec<Food>,
        floor_y: i64,
        width: i64,
        height: i64,
        wave: &WaveTable,
    )
        requires
            old(self).wf(),
            wave.wf(),
            forall|i: int| 0 <= i < food_items.len() ==> (#[trigger] food_items[i]).wf(),
            -WORLD <= floor_y <= WORLD,
            0 < width <= EXTENT,
            0 < height <= EXTENT,
        ensures
            exists|turn: int|
                {
                    &&& -WANDER_TURN <= turn < WANDER_TURN
                    &&& #[trigger] old(self).advances_to(
                        *final(self),
                        food_items@,
                        floor_y as int,
                        width as int,
                        height as int,
                        turn,
                        *wave,
                    )
                },
            final(self).wf(),
            norm_sq(final(self).vx as int, final(self).vy as int) <= old(self).speed_cap(
                food_items@,
                width as int,
                height as int,
            ) * old(self).speed_cap(food_items@, width as int, height as int),
    {
        let turn: i64 = draw_between(-WANDER_TURN, WANDER_TURN);
        self.advance(food_items, floor_y, width, height, turn, wave);
    }

    /// The particle that the fish eats where it is now, if any.
    pub fn bite(&self, food_items: &Vec<Food>) -> (eaten: Option<usize>)
        requires
            self.wf(),
            forall|i: int| 0 <= i < food_items.len() ==> (#[trigger] food_items[i]).wf(),
        ensures
            eaten is Some <==> self.bitten(food_items@) is Some,
            eaten is Some ==> eaten.unwrap() as int == self.bitten(food_items@).unwrap(),
            eaten is Some ==> eaten.unwrap() < food_items.len(),
    {
        match nearest_food(food_items, self.x, self.y) {
            Some(t) => {
                let reach: i128 = self.size as i128 + BITE as i128;
                proof {
                    lemma_mul_range(
                        reach as int,
                        reach as int,
                        SIZE_LIMIT + BITE,
                        SIZE_LIMIT + BITE,
                    );
                }
                if t.dist_sq < reach * reach {
                    Some(t.index)
                } else {
                    None
                }
            },
            None => None,
        }
    }
}

} // verus!
