//! Shafts of light that fade in and out over their lifetime.

use vstd::prelude::*;
use crate::chance::draw_between;
use crate::fixed::{EXTENT, ONE, WORLD};
use crate::wave::{WaveTable, STEPS};

verus! {

/// A shaft lives at least this many ticks,
pub const LIFE_MIN: i64 = 1200;

/// and fewer than this many.
pub const LIFE_MAX: i64 = 1800;

/// The longest lifetime a shaft may be given.
pub const LIFE_LIMIT: i64 = 1_000_000_000;

/// The opacity of a shaft at its brightest, in hundredths.
pub const GLOW: i64 = 15;

/// A shaft of light.
#[derive(Clone, Copy, Debug)]
pub struct GodRay {
    pub x: i64,
    pub top_width: i64,
    pub bottom_width: i64,
    pub length: i64,
    pub blur: i64,
    /// The age of the shaft in ticks.
    pub life: i64,
    /// The age at which the shaft is spent.
    pub max_life: i64,
}

/// The step of the wave that a shaft of age `life` out of `max_life` has reached:
/// its lifetime spans the first half turn.
pub open spec fn life_step(life: int, max_life: int) -> int {
    life * (STEPS as int / 2) / max_life
}

/// An opacity of `sample` millionths of the brightest glow, in millionths and
/// rounded up.
pub open spec fn glow_of(sample: int) -> int {
    (sample * GLOW + 99) / 100
}

impl GodRay {
    /// The shaft lies in the world and is no older than its lifetime.
    pub open spec fn wf(&self) -> bool {
        &&& -WORLD <= self.x <= WORLD
        &&& 0 <= self.top_width <= WORLD
        &&& 0 <= self.bottom_width <= WORLD
        &&& 0 <= self.length <= WORLD
        &&& 0 <= self.blur <= WORLD
        &&& 1 <= self.max_life <= LIFE_LIMIT
        &&& 0 <= self.life <= self.max_life
    }

    /// The shaft has reached the end of its lifetime.
    pub open spec fn spent(&self) -> bool {
        self.life >= self.max_life
    }

    /// The shaft is one that `reset` may leave in a basin `canvas_width` by
    /// `canvas_height`: new, and with every measure in its range.
    pub open spec fn fresh_in(&self, canvas_width: int, canvas_height: int) -> bool {
        &&& -(canvas_width / 5) <= self.x < canvas_width * 6 / 5
        &&& 20 * ONE <= self.top_width < 150 * ONE
        &&& 0 <= self.bottom_width < self.top_width * 3 / 10
        &&& canvas_height / 2 <= self.length < canvas_height * 6 / 5
        &&& 10 * ONE <= self.blur < 25 * ONE
        &&& LIFE_MIN <= self.max_life < LIFE_MAX
        &&& self.life == 0
    }

    /// The opacity of the shaft, in millionths: the sine over the half turn that
    /// its lifetime spans, times the brightest glow.
    pub open spec fn glow(&self, wave: WaveTable) -> int {
        glow_of(wave.samples@[life_step(self.life as int, self.max_life as int)] as int)
    }

    /// A new shaft somewhere over a basin `canvas_width` by `canvas_height`.
    pub fn new(canvas_width: i64, canvas_height: i64) -> (ray: GodRay)
        requires
            0 < canvas_width <= EXTENT,
            0 < canvas_height <= EXTENT,
        ensures
            ray.wf(),
            ray.fresh_in(canvas_width as int, canvas_height as int),
    {
        let mut ray: GodRay = GodRay {
            x: 0,
            top_width: 0,
            bottom_width: 0,
            length: 0,
            blur: 0,
            life: 0,
            max_life: 1,
        };
        ray.reset(canvas_width, canvas_height);
        ray
    }

    /// Makes the shaft a new one, placed and shaped at random.
    pub fn reset(&mut self, canvas_width: i64, canvas_height: i64)
        requires
            0 < canvas_width <= EXTENT,
            0 < canvas_height <= EXTENT,
        ensures
            final(self).wf(),
            final(self).fresh_in(canvas_width as int, canvas_height as int),
    {
        self.x = draw_between(-(canvas_width / 5), canvas_width * 6 / 5);
        self.top_width = draw_between(20 * ONE, 150 * ONE);
        self.bottom_width = draw_between(0, self.top_width * 3 / 10);
        self.length = draw_between(canvas_height / 2, canvas_height * 6 / 5);
        self.blur = draw_between(10 * ONE, 25 * ONE);
        self.max_life = draw_between(LIFE_MIN, LIFE_MAX);
        self.life = 0;
    }

    /// Ages the shaft by one tick; a spent shaft ages no further.
    pub fn update(&mut self)
        requires
            old(self).wf(),
        ensures
            final(self).wf(),
            !old(self).spent() ==> final(self).life == old(self).life + 1,
            old(self).spent() ==> final(self).life == old(self).life,
            *final(self) == (GodRay { life: final(self).life, ..*old(self) }),
    {
        if self.life < self.max_life {
            self.life = self.life + 1;
        }
    }

    /// Whether the shaft has reached the end of its lifetime.
    pub fn is_spent(&self) -> (b: bool)
        ensures
            b == self.spent(),
    {
        self.life >= self.max_life
    }

    /// The opacity of the shaft, in millionths. It is zero for a new and for a
    /// spent shaft, positive at half its lifetime, and positive all the way in
    /// between where the lifetime has no more ticks than the half turn has steps.
    pub fn opacity(&self, wave: &WaveTable) -> (alpha: i64)
        requires
            self.wf(),
            wave.wf(),
        ensures
            alpha == self.glow(*wave),
            0 <= alpha <= GLOW * ONE / 100,
            alpha > 0 ==> 0 < self.life < self.max_life,
            self.life == 0 || self.life == self.max_life ==> alpha == 0,
            self.max_life >= 2 && self.life == self.max_life / 2 ==> alpha > 0,
            self.max_life <= STEPS / 2 && 0 < self.life < self.max_life ==> alpha > 0,
    {
        let step: usize = life_step_of(self.life, self.max_life);
        let sample: i64 = wave.at(step);
        (sample * GLOW + 99) / 100
    }
}

/// The step of the wave that a shaft of age `life` out of `max_life` has reached.
pub fn life_step_of(life: i64, max_life: i64) -> (step: usize)
    requires
        1 <= max_life <= LIFE_LIMIT,
        0 <= life <= max_life,
    ensures
        step == life_step(life as int, max_life as int),
        step <= STEPS / 2,
        life == 0 ==> step == 0,
        life > 0 && max_life <= STEPS / 2 ==> step > 0,
        life == max_life <==> step == STEPS / 2,
        max_life >= 2 && life == max_life / 2 ==> 0 < step < STEPS / 2,
{
    proof {
        lemma_life_step(life as int, max_life as int);
    }
    (life * 2048 / max_life) as usize
}

/// A lifetime is laid over the first half turn of the wave: age zero falls on
/// the first step, the full lifetime on the half turn, and nothing else does.
pub proof fn lemma_life_step(life: int, max_life: int)
    requires
        1 <= max_life <= LIFE_LIMIT,
        0 <= life <= max_life,
    ensures
        0 <= life_step(life, max_life) <= 2048,
        life == max_life <==> life_step(life, max_life) == 2048,
        life == 0 ==> life_step(life, max_life) == 0,
        life > 0 && max_life <= 2048 ==> life_step(life, max_life) > 0,
        max_life >= 2 && life == max_life / 2 ==> 0 < life_step(life, max_life) < 2048,
        0 <= life * 2048 <= 2048 * LIFE_LIMIT,
{
    let n = life * 2048;
    assert(0 <= n / max_life) by (nonlinear_arith)
        requires
            n >= 0,
            max_life >= 1,
    ;
    assert(n / max_life <= 2048) by (nonlinear_arith)
        requires
            0 <= n <= 2048 * max_life,
            max_life >= 1,
    ;
    if life == max_life {
        assert(n / max_life == 2048) by (nonlinear_arith)
            requires
                n == 2048 * max_life,
                max_life >= 1,
        ;
    } else {
        assert(n / max_life < 2048) by (nonlinear_arith)
            requires
                0 <= n < 2048 * max_life,
                max_life >= 1,
        ;
    }
    if life == 0 {
        assert(0int / max_life == 0) by (nonlinear_arith)
            requires
                max_life >= 1,
        ;
    }
    if life > 0 && max_life <= 2048 {
        assert(n / max_life >= 1) by (nonlinear_arith)
            requires
                n >= max_life,
                max_life >= 1,
        ;
    }
    if max_life >= 2 && life == max_life / 2 {
        assert(n / max_life >= 1) by (nonlinear_arith)
            requires
                n >= max_life,
                max_life >= 1,
        ;
    }
}

} // verus!
