//! Food particles: they sink until they lie on the floor.

use vstd::prelude::*;
use crate::fixed::{clamp_to, in_world, ONE, WORLD};

verus! {

/// What a sinking particle gains in speed each tick, before damping.
pub const GRAVITY: i64 = 7_000;

/// A particle of food.
#[derive(Clone, Copy, Debug)]
pub struct Food {
    pub x: i64,
    pub y: i64,
    /// The sinking speed; it is never negative.
    pub vy: i64,
}

/// The sinking speed one tick after `vy`: gravity added, then damped by a hundredth.
pub open spec fn sunk_speed(vy: int) -> int {
    (vy + GRAVITY) * 99 / 100
}

impl Food {
    /// The particle lies in the world and sinks no faster than a pixel a tick.
    pub open spec fn wf(&self) -> bool {
        &&& -WORLD <= self.x <= WORLD
        &&& -WORLD <= self.y <= WORLD
        &&& 0 <= self.vy <= ONE
    }

    /// The particle one tick later, over a floor at `floor_y`: above the floor it
    /// sinks, and it never ends below the floor.
    pub open spec fn sunk(&self, floor_y: int) -> Food {
        if self.y < floor_y {
            let vy = sunk_speed(self.vy as int);
            let y = if self.y + vy > floor_y {
                floor_y
            } else {
                self.y + vy
            };
            Food { x: self.x, y: y as i64, vy: vy as i64 }
        } else {
            Food { x: self.x, y: floor_y as i64, vy: self.vy }
        }
    }

    /// A particle at rest at `(x, y)`, brought into the world where it lies outside.
    pub fn new(x: i64, y: i64) -> (food: Food)
        ensures
            food.wf(),
            food.x == in_world(x as int),
            food.y == in_world(y as int),
            food.vy == 0,
    {
        Food { x: clamp_to(x as i128, -WORLD, WORLD), y: clamp_to(y as i128, -WORLD, WORLD), vy: 0 }
    }

    /// Lets the particle sink for one tick over a floor at `floor_y`.
    pub fn sink(&mut self, floor_y: i64)
        requires
            old(self).wf(),
            -WORLD <= floor_y <= WORLD,
        ensures
            *final(self) == old(self).sunk(floor_y as int),
            final(self).wf(),
            final(self).y <= floor_y,
            final(self).x == old(self).x,
            old(self).y >= floor_y ==> final(self).y == floor_y && final(self).vy == old(self).vy,
            old(self).y < floor_y ==> old(self).y <= final(self).y,
    {
        if self.y < floor_y {
            let vy: i64 = (self.vy + GRAVITY) * 99 / 100;
            self.vy = vy;
            self.y = self.y + vy;
        }
        if self.y > floor_y {
            self.y = floor_y;
        }
    }
}

} // verus!
