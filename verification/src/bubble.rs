//! Bubbles: they rise from the structure, wobble, and start over at the top.

use vstd::prelude::*;
use crate::chance::{draw_between, pick};
use crate::fixed::{
    clamp_to, in_world, lemma_mul_range, lemma_quot_range, quot, EXTENT, ONE, WORLD,
};
use crate::wave::{turn_by, turned, WaveTable, TAU};

verus! {

/// How far the wobble advances in a tick, in millionths of a radian.
pub const WOBBLE_STEP: i64 = 50_000;

/// The largest scale that a structure may have.
pub const SCALE_LIMIT: i64 = 10_000_000_000_000;

/// The largest size a bubble may have.
pub const BUBBLE_LIMIT: i64 = 1_000_000_000;

/// How far a bubble's starting point may lie to either side of its source.
pub const JITTER: i64 = 5_000_000;

/// A bubble.
#[derive(Clone, Copy, Debug)]
pub struct Bubble {
    /// Where the bubble is shown: its anchor, moved by the wobble.
    pub x: i64,
    pub y: i64,
    /// The anchor of the wobble.
    pub original_x: i64,
    pub size: i64,
    /// How far the bubble rises in a tick; more than nothing.
    pub speed_y: i64,
    pub wobble_angle: i64,
}

/// The two points of the structure from which bubbles rise, relative to its
/// anchor and before scaling.
pub open spec fn bubble_sources() -> Seq<(i64, i64)> {
    seq![(-80_000_000i64, -30_000_000i64), (35_000_000i64, -135_000_000i64)]
}

/// The offset `offset` at the scale `scale`.
pub open spec fn scaled(offset: int, scale: int) -> int {
    quot(offset * scale, ONE as int)
}

/// The highest point from which a bubble rises, relative to the structure's
/// base and at the scale `scale`.
pub open spec fn highest_source(scale: int) -> int {
    scaled(-135_000_000, scale)
}

/// How far the wobble moves a bubble of size `size` sideways where the sine of
/// its wobble angle is `sine`: half the size at most.
pub open spec fn sway(sine: int, size: int) -> int {
    quot(sine * size, 2 * ONE)
}

impl Bubble {
    /// The bubble lies in the world and rises.
    pub open spec fn wf(&self) -> bool {
        &&& -WORLD <= self.x <= WORLD
        &&& -WORLD <= self.y <= WORLD
        &&& -WORLD <= self.original_x <= WORLD
        &&& 0 <= self.size <= BUBBLE_LIMIT
        &&& 1 <= self.speed_y <= BUBBLE_LIMIT
        &&& 0 <= self.wobble_angle < TAU
    }

    /// The bubble is one that `reset` may leave at a structure anchored at
    /// `(center_x, base_y)` with the scale `scale`: it starts at one of the two
    /// sources, a little to the side, and its traits lie in their ranges.
    pub open spec fn fresh_at(&self, center_x: int, base_y: int, scale: int) -> bool {
        &&& exists|i: int|
            0 <= i < 2 && {
                let source = #[trigger] bubble_sources()[i];
                &&& self.y == base_y + scaled(source.1 as int, scale)
                &&& -JITTER <= self.original_x - (center_x + scaled(source.0 as int, scale))
                    < JITTER
            }
        &&& ONE <= self.size < 5 * ONE
        &&& ONE / 2 <= self.speed_y < ONE * 3 / 2
        &&& 0 <= self.wobble_angle < TAU
    }

    /// The bubble has risen out of the basin by more than its own size.
    pub open spec fn escaped(&self) -> bool {
        self.y < -self.size
    }

    /// The bubble one tick on: risen by its speed, its wobble advanced, shown
    /// where the wobble puts it.
    pub open spec fn risen(&self, wave: WaveTable) -> Bubble {
        let angle = turned(self.wobble_angle as int, WOBBLE_STEP as int);
        Bubble {
            x: in_world(self.original_x + sway(wave.sine(angle), self.size as int)) as i64,
            y: in_world(self.y - self.speed_y) as i64,
            original_x: self.original_x,
            size: self.size,
            speed_y: self.speed_y,
            wobble_angle: angle as i64,
        }
    }

    /// The bubble `ticks` ticks on, if it is never started over.
    pub open spec fn risen_times(&self, wave: WaveTable, ticks: nat) -> Bubble
        decreases ticks,
    {
        if ticks == 0 {
            *self
        } else {
            self.risen_times(wave, (ticks - 1) as nat).risen(wave)
        }
    }

    /// A new bubble at a structure anchored at `(castle_center_x, castle_base_y)`.
    pub fn new(castle_center_x: i64, castle_base_y: i64, castle_scale: i64) -> (bubble: Bubble)
        requires
            -EXTENT <= castle_center_x <= EXTENT,
            -EXTENT <= castle_base_y <= EXTENT,
            0 <= castle_scale <= SCALE_LIMIT,
        ensures
            bubble.wf(),
            bubble.fresh_at(castle_center_x as int, castle_base_y as int, castle_scale as int),
            bubble.x == 0,
    {
        let mut bubble: Bubble = Bubble {
            x: 0,
            y: 0,
            original_x: 0,
            size: 0,
            speed_y: 0,
            wobble_angle: 0,
        };
        bubble.reset(castle_center_x, castle_base_y, castle_scale);
        bubble
    }

    /// Starts the bubble over at one of the structure's two sources, with new
    /// traits drawn at random. Where it is shown changes only with the next tick.
    pub fn reset(&mut self, castle_center_x: i64, castle_base_y: i64, castle_scale: i64)
        requires
            -WORLD <= old(self).x <= WORLD,
            -EXTENT <= castle_center_x <= EXTENT,
            -EXTENT <= castle_base_y <= EXTENT,
            0 <= castle_scale <= SCALE_LIMIT,
        ensures
            final(self).wf(),
            final(self).fresh_at(castle_center_x as int, castle_base_y as int, castle_scale as int),
            final(self).x == old(self).x,
            final(self).y >= castle_base_y + highest_source(castle_scale as int),
    {
        let sources: Vec<(i64, i64)> = sources();
        let source: (i64, i64) = match pick(&sources) {
            Some(s) => s,
            None => (0, 0),
        };
        let ghost which: int = choose|i: int| 0 <= i < 2 && bubble_sources()[i] == source;
        assert(0 <= which < 2 && bubble_sources()[which] == source);
        let dx: i64 = scale_offset(source.0, castle_scale);
        let dy: i64 = scale_offset(source.1, castle_scale);
        proof {
            lemma_scaled_order(-135_000_000, source.1 as int, castle_scale as int);
        }
        self.original_x = castle_center_x + dx + draw_between(-JITTER, JITTER);
        self.y = castle_base_y + dy;
        self.size = draw_between(ONE, 5 * ONE);
        self.speed_y = draw_between(ONE / 2, ONE * 3 / 2);
        self.wobble_angle = draw_between(0, TAU);
    }

    /// Lets the bubble rise for one tick. Its height falls strictly, as long as
    /// the world has room above it.
    pub fn update(&mut self, wave: &WaveTable)
        requires
            old(self).wf(),
            wave.wf(),
        ensures
            *final(self) == old(self).risen(*wave),
            final(self).wf(),
            final(self).y <= old(self).y,
            old(self).y > -WORLD ==> final(self).y < old(self).y,
            old(self).y - old(self).speed_y >= -WORLD ==> final(self).y == old(self).y - old(
                self,
            ).speed_y,
            -old(self).size <= 2 * (final(self).x - old(self).original_x) <= old(self).size
                || final(self).x == WORLD || final(self).x == -WORLD,
    {
        self.y = clamp_to(self.y as i128 - self.speed_y as i128, -WORLD, WORLD);
        self.wobble_angle = turn_by(self.wobble_angle, WOBBLE_STEP);
        let sine: i64 = wave.sin(self.wobble_angle);
        proof {
            lemma_mul_range(sine as int, self.size as int, ONE as int, BUBBLE_LIMIT as int);
            lemma_sway_range(sine as int, self.size as int);
        }
        let sway: i128 = (sine as i128 * self.size as i128) / (2 * ONE as i128);
        self.x = clamp_to(self.original_x as i128 + sway, -WORLD, WORLD);
    }

    /// Whether the bubble has risen out of the basin by more than its own size.
    pub fn has_escaped(&self) -> (b: bool)
        requires
            self.wf(),
        ensures
            b == self.escaped(),
    {
        self.y < -self.size
    }
}

/// A tick leaves a bubble in working order, with its size and speed, and higher
/// by its speed as far as the world has room.
pub proof fn lemma_risen(bubble: Bubble, wave: WaveTable)
    requires
        bubble.wf(),
        wave.wf(),
    ensures
        bubble.risen(wave).wf(),
        bubble.risen(wave).size == bubble.size,
        bubble.risen(wave).speed_y == bubble.speed_y,
        bubble.risen(wave).original_x == bubble.original_x,
        bubble.risen(wave).y == in_world(bubble.y - bubble.speed_y),
{
}

/// A bubble that is not started over is higher after every tick, by its speed,
/// as long as the world has room above it.
pub proof fn lemma_bubble_keeps_rising(bubble: Bubble, wave: WaveTable, ticks: nat)
    requires
        bubble.wf(),
        wave.wf(),
        bubble.y - ticks * bubble.speed_y >= -WORLD,
    ensures
        bubble.risen_times(wave, ticks).wf(),
        bubble.risen_times(wave, ticks).speed_y == bubble.speed_y,
        bubble.risen_times(wave, ticks).y == bubble.y - ticks * bubble.speed_y,
        ticks > 0 ==> bubble.risen_times(wave, ticks).y < bubble.risen_times(
            wave,
            (ticks - 1) as nat,
        ).y,
        ticks > 0 ==> bubble.risen_times(wave, ticks).y < bubble.y,
    decreases ticks,
{
    if ticks > 0 {
        let before = (ticks - 1) as nat;
        assert(ticks * bubble.speed_y == before * bubble.speed_y + bubble.speed_y)
            by (nonlinear_arith)
            requires
                before == ticks - 1,
        ;
        assert(before * bubble.speed_y >= 0) by (nonlinear_arith)
            requires
                bubble.speed_y >= 1,
        ;
        lemma_bubble_keeps_rising(bubble, wave, before);
        lemma_risen(bubble.risen_times(wave, before), wave);
    } else {
        assert(ticks * bubble.speed_y == 0) by (nonlinear_arith)
            requires
                ticks == 0,
        ;
    }
}

/// The wobble moves a bubble by half its size at most.
pub proof fn lemma_sway_range(sine: int, size: int)
    requires
        -ONE <= sine <= ONE,
        0 <= size,
    ensures
        -size <= 2 * sway(sine, size) <= size,
{
    lemma_mul_range(sine, size, ONE as int, size);
    let n = sine * size;
    if n >= 0 {
        assert(0 <= 2 * (n / 2_000_000) <= size) by (nonlinear_arith)
            requires
                0 <= n <= 1_000_000 * size,
        ;
    } else {
        let p = -n;
        assert(0 <= 2 * (p / 2_000_000) <= size) by (nonlinear_arith)
            requires
                0 <= p <= 1_000_000 * size,
        ;
    }
}

/// At a scale that is not negative, a larger offset stays the larger.
pub proof fn lemma_scaled_order(a: int, b: int, scale: int)
    requires
        a <= b,
        0 <= scale,
    ensures
        scaled(a, scale) <= scaled(b, scale),
{
    assert(a * scale <= b * scale) by (nonlinear_arith)
        requires
            a <= b,
            0 <= scale,
    ;
    let m = a * scale;
    let n = b * scale;
    if m >= 0 {
        assert(m / 1_000_000 <= n / 1_000_000);
    } else if n >= 0 {
        assert((-m) / 1_000_000 >= 0);
        assert(n / 1_000_000 >= 0);
    } else {
        assert((-m) / 1_000_000 >= (-n) / 1_000_000);
    }
}

/// The two points of the structure from which bubbles rise.
pub fn sources() -> (v: Vec<(i64, i64)>)
    ensures
        v@ == bubble_sources(),
{
    let mut v: Vec<(i64, i64)> = Vec::new();
    v.push((-80_000_000, -30_000_000));
    v.push((35_000_000, -135_000_000));
    assert(v@ =~= bubble_sources());
    v
}

/// The offset `offset` at the scale `scale`.
pub fn scale_offset(offset: i64, scale: i64) -> (r: i64)
    requires
        -135_000_000 <= offset <= 135_000_000,
        0 <= scale <= SCALE_LIMIT,
    ensures
        r == scaled(offset as int, scale as int),
        -1_350_000_000_000_000 <= r <= 1_350_000_000_000_000,
{
    proof {
        lemma_mul_range(offset as int, scale as int, 135_000_000, SCALE_LIMIT as int);
        lemma_quot_range(offset * scale, ONE as int, 1_350_000_000_000_000);
    }
    let r: i128 = (offset as i128 * scale as i128) / (ONE as i128);
    r as i64
}

} // verus!
