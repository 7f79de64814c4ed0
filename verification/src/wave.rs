//! One period of the sine wave, sampled by the host.
//!
//! The simulation does no floating-point arithmetic. Whoever embeds it samples
//! the sine once, at `STEPS` equal steps of a full turn and in millionths, and
//! hands the samples over. The table is accepted only if it has the sign pattern of
//! a sine wave; everything the simulation proves about waves rests on that
//! pattern alone.

use vstd::prelude::*;
use crate::fixed::ONE;

verus! {

/// A full turn, in millionths of a radian.
pub const TAU: i64 = 6_283_185;

/// The number of samples that cover a full turn.
pub const STEPS: usize = 4096;

/// One period of the sine wave in millionths, `STEPS` samples long.
pub struct WaveTable {
    pub samples: Vec<i32>,
}

/// `samples` has the sign pattern of one period of a sine wave: zero at the start
/// and at the half turn, positive in between, negative after, never beyond one.
pub open spec fn is_wave(samples: Seq<i32>) -> bool {
    &&& samples.len() == STEPS
    &&& samples[0] == 0
    &&& samples[(STEPS / 2) as int] == 0
    &&& forall|i: int| 0 < i < STEPS / 2 ==> 0 < #[trigger] samples[i] <= ONE
    &&& forall|i: int| STEPS / 2 < i < STEPS ==> -ONE <= #[trigger] samples[i] < 0
}

/// The step of the table on which the angle `angle` falls.
pub open spec fn step_of(angle: int) -> int {
    (angle % (TAU as int)) * (STEPS as int) / (TAU as int)
}

/// The step a quarter turn after `step`.
pub open spec fn quarter_on(step: int) -> int {
    (step + (STEPS as int) / 4) % (STEPS as int)
}

/// The angle `angle + turn`, brought back into `0 .. TAU`.
pub open spec fn turned(angle: int, turn: int) -> int {
    (angle + turn) % (TAU as int)
}

impl WaveTable {
    /// The table holds one period of a wave shaped like the sine.
    pub open spec fn wf(&self) -> bool {
        is_wave(self.samples@)
    }

    /// The sine of `angle`, in millionths.
    pub open spec fn sine(&self, angle: int) -> int {
        self.samples@[step_of(angle)] as int
    }

    /// The cosine of `angle`, in millionths: the sine a quarter turn on.
    pub open spec fn cosine(&self, angle: int) -> int {
        self.samples@[quarter_on(step_of(angle))] as int
    }

    /// Accepts `samples` if they have the shape of a sine wave.
    pub fn new(samples: Vec<i32>) -> (table: Option<WaveTable>)
        ensures
            table is Some <==> is_wave(samples@),
            table is Some ==> table->0.samples@ == samples@,
    {
        if samples.len() != STEPS {
            return None;
        }
        if samples[0] != 0 || samples[STEPS / 2] != 0 {
            return None;
        }
        let mut i: usize = 1;
        while i < STEPS / 2
            invariant
                1 <= i <= STEPS / 2,
                samples.len() == STEPS,
                forall|j: int| 0 < j < i ==> 0 < #[trigger] samples[j] <= ONE,
            decreases STEPS / 2 - i,
        {
            if samples[i] <= 0 || samples[i] as i64 > ONE {
                return None;
            }
            i += 1;
        }
        let mut k: usize = STEPS / 2 + 1;
        while k < STEPS
            invariant
                STEPS / 2 + 1 <= k <= STEPS,
                samples.len() == STEPS,
                forall|j: int| STEPS / 2 < j < k ==> -ONE <= #[trigger] samples[j] < 0,
            decreases STEPS - k,
        {
            if samples[k] >= 0 || (samples[k] as i64) < -ONE {
                return None;
            }
            k += 1;
        }
        Some(WaveTable { samples })
    }

    /// The sample at `step`.
    pub fn at(&self, step: usize) -> (s: i64)
        requires
            self.wf(),
            step < STEPS,
        ensures
            s == self.samples@[step as int],
            -ONE <= s <= ONE,
            0 < step < STEPS / 2 ==> s > 0,
            step == 0 || step == STEPS / 2 ==> s == 0,
            STEPS / 2 < step ==> s < 0,
    {
        self.samples[step] as i64
    }

    /// The sine of `angle`, in millionths.
    pub fn sin(&self, angle: i64) -> (s: i64)
        requires
            self.wf(),
        ensures
            s == self.sine(angle as int),
            -ONE <= s <= ONE,
    {
        let step: usize = step_at(angle);
        self.at(step)
    }

    /// The cosine of `angle`, in millionths.
    pub fn cos(&self, angle: i64) -> (c: i64)
        requires
            self.wf(),
        ensures
            c == self.cosine(angle as int),
            -ONE <= c <= ONE,
    {
        let step: usize = step_at(angle);
        let shifted: usize = (step + STEPS / 4) % STEPS;
        self.at(shifted)
    }
}

/// `angle`, brought back into `0 .. TAU`.
pub fn wrap(angle: i64) -> (a: i64)
    ensures
        a == angle as int % (TAU as int),
        0 <= a < TAU,
{
    let m: i64 = angle % TAU;
    proof {
        lemma_wrap(angle as int, m as int);
    }
    if m < 0 {
        m + TAU
    } else {
        m
    }
}

/// The remainder that rounds toward zero, raised by a full turn where it is
/// negative, is the remainder that is never negative.
pub proof fn lemma_wrap(angle: int, m: int)
    requires
        m == (if angle >= 0 {
            angle % 6_283_185
        } else {
            -((-angle) % 6_283_185)
        }),
    ensures
        -6_283_185 < m < 6_283_185,
        (if m < 0 {
            m + 6_283_185
        } else {
            m
        }) == angle % 6_283_185,
{
    if angle < 0 {
        let p = -angle;
        let q = p / 6_283_185;
        let r = p % 6_283_185;
        assert(p == 6_283_185 * q + r);
        if r == 0 {
            assert(angle == 6_283_185 * (-q));
        } else {
            assert(angle == 6_283_185 * (-q - 1) + (6_283_185 - r));
        }
    }
}

/// The step of the table on which `angle` falls.
pub fn step_at(angle: i64) -> (step: usize)
    ensures
        step == step_of(angle as int),
        step < STEPS,
{
    let a: i64 = wrap(angle);
    let n: i64 = a * 4096;
    assert(0 <= n / 6_283_185 < 4096) by (nonlinear_arith)
        requires
            0 <= n < 4096 * 6_283_185,
    ;
    (n / TAU) as usize
}

/// `angle + turn`, brought back into `0 .. TAU`.
pub fn turn_by(angle: i64, turn: i64) -> (a: i64)
    requires
        -TAU <= angle <= TAU,
        -TAU <= turn <= TAU,
    ensures
        a == turned(angle as int, turn as int),
        0 <= a < TAU,
{
    wrap(angle + turn)
}

} // verus!
