//! Crabs: they walk along the floor, rest, and turn back at the walls.

use vstd::prelude::*;
use crate::chance::{draw_between, flip};
use crate::fixed::{clamp_to, in_world, EXTENT, ONE, WORLD};

verus! {

/// How far a walking crab moves in a tick.
pub const STRIDE: i64 = 500_000;

/// How far above the floor line a crab is drawn.
pub const CLEARANCE: i64 = 8_000_000;

/// A walk lasts at least this many ticks,
pub const WALK_MIN: i64 = 100;

/// and fewer than this many.
pub const WALK_MAX: i64 = 300;

/// A rest lasts at least this many ticks,
pub const WAIT_MIN: i64 = 60;

/// and fewer than this many.
pub const WAIT_MAX: i64 = 180;

/// What a crab is doing.
#[derive(Clone, Copy, Debug, PartialEq, Eq, Structural)]
pub enum CrabState {
    Walking,
    Waiting,
}

/// A crab.
#[derive(Clone, Copy, Debug)]
pub struct Crab {
    pub x: i64,
    pub y: i64,
    pub size: i64,
    /// `1` where the crab faces right, `-1` where it faces left.
    pub direction: i64,
    pub state: CrabState,
    /// The ticks that the present state still lasts; at least one.
    pub state_timer: i32,
}

/// The state that follows `state` when its time is up.
pub open spec fn other_state(state: CrabState) -> CrabState {
    match state {
        CrabState::Walking => CrabState::Waiting,
        CrabState::Waiting => CrabState::Walking,
    }
}

/// `timer` is a length that the state `state` may be given when it is entered.
pub open spec fn fits_state(state: CrabState, timer: int) -> bool {
    match state {
        CrabState::Walking => WALK_MIN <= timer < WALK_MAX,
        CrabState::Waiting => WAIT_MIN <= timer < WAIT_MAX,
    }
}

impl Crab {
    /// The crab lies in the world, faces left or right, and its state has time left.
    pub open spec fn wf(&self) -> bool {
        &&& -WORLD <= self.x <= WORLD
        &&& -WORLD <= self.y <= WORLD
        &&& 0 <= self.size <= WORLD
        &&& (self.direction == 1 || self.direction == -1)
        &&& self.state_timer >= 1
    }

    /// The crab keeps to a basin `width` wide: it is at most one stride outside,
    /// and then it faces inward.
    pub open spec fn roams(&self, width: int) -> bool {
        &&& -STRIDE <= self.x <= width + STRIDE
        &&& self.direction > 0 ==> self.x <= width
        &&& self.direction < 0 ==> self.x >= 0
    }

    /// The crab is one that `new` may leave in a basin `canvas_width` by
    /// `canvas_height`: walking, somewhere on the floor line.
    pub open spec fn fresh_in(&self, canvas_width: int, canvas_height: int) -> bool {
        &&& 0 <= self.x < canvas_width
        &&& self.y == canvas_height * 9 / 10
        &&& 10 * ONE <= self.size < 15 * ONE
        &&& self.state == CrabState::Walking
        &&& WALK_MIN <= self.state_timer < WALK_MAX
    }

    /// The time of the present state runs out in this tick.
    pub open spec fn timer_expires(&self) -> bool {
        self.state_timer <= 1
    }

    /// The state in which the crab moves in this tick.
    pub open spec fn moving_state(&self) -> CrabState {
        if self.timer_expires() {
            other_state(self.state)
        } else {
            self.state
        }
    }

    /// Where the crab stands after it has moved in this tick.
    pub open spec fn moved_x(&self) -> int {
        if self.moving_state() == CrabState::Walking {
            in_world(self.x + self.direction * STRIDE)
        } else {
            self.x as int
        }
    }

    /// The crab has walked out of the basin on the side that it faces.
    pub open spec fn bounces(&self, width: int) -> bool {
        (self.moved_x() > width && self.direction > 0) || (self.moved_x() < 0 && self.direction
            < 0)
    }

    /// `next` is this crab one tick on, over a floor at `floor_y` in a basin
    /// `width` wide, where a state entered because time ran out lasts
    /// `fresh_timer` and a walk begun at a wall lasts `bounce_timer`.
    pub open spec fn advances_to(
        &self,
        next: Crab,
        floor_y: int,
        width: int,
        fresh_timer: int,
        bounce_timer: int,
    ) -> bool {
        &&& next.x == self.moved_x()
        &&& next.y == in_world(floor_y - CLEARANCE)
        &&& next.size == self.size
        &&& if self.bounces(width) {
            &&& next.direction == -self.direction
            &&& next.state == CrabState::Walking
            &&& next.state_timer == bounce_timer
        } else {
            &&& next.direction == self.direction
            &&& next.state == self.moving_state()
            &&& next.state_timer == if self.timer_expires() {
                fresh_timer
            } else {
                self.state_timer - 1
            }
        }
    }

    /// A walking crab on the floor line of a basin `canvas_width` by
    /// `canvas_height`, placed and sized at random.
    pub fn new(canvas_width: i64, canvas_height: i64) -> (crab: Crab)
        requires
            0 < canvas_width <= EXTENT,
            0 < canvas_height <= EXTENT,
        ensures
            crab.wf(),
            crab.roams(canvas_width as int),
            crab.fresh_in(canvas_width as int, canvas_height as int),
    {
        let x: i64 = draw_between(0, canvas_width);
        let size: i64 = draw_between(10 * ONE, 15 * ONE);
        let direction: i64 = if flip() {
            1
        } else {
            -1
        };
        let state_timer: i64 = draw_between(WALK_MIN, WALK_MAX);
        Crab {
            x,
            y: canvas_height * 9 / 10,
            size,
            direction,
            state: CrabState::Walking,
            state_timer: state_timer as i32,
        }
    }

    /// Whether the time of the present state runs out in this tick.
    pub fn is_expiring(&self) -> (b: bool)
        ensures
            b == self.timer_expires(),
    {
        self.state_timer <= 1
    }

    /// Whether the crab turns back at a wall in this tick.
    pub fn is_bouncing(&self, width: i64) -> (b: bool)
        requires
            self.wf(),
        ensures
            b == self.bounces(width as int),
    {
        let walking: bool = match self.state {
            CrabState::Walking => self.state_timer > 1,
            CrabState::Waiting => self.state_timer <= 1,
        };
        let x: i64 = if walking {
            clamp_to(self.x as i128 + (self.direction * STRIDE) as i128, -WORLD, WORLD)
        } else {
            self.x
        };
        (x > width && self.direction > 0) || (x < 0 && self.direction < 0)
    }

    /// Moves the crab by one tick. `fresh_timer` is the length of the state that
    /// it enters if its time runs out, `bounce_timer` that of the walk that it
    /// begins if it turns back at a wall.
    pub fn advance(&mut self, floor_y: i64, width: i64, fresh_timer: i32, bounce_timer: i32)
        requires
            old(self).wf(),
            -WORLD <= floor_y <= WORLD,
            fresh_timer >= 1,
            bounce_timer >= 1,
        ensures
            old(self).advances_to(
                *final(self),
                floor_y as int,
                width as int,
                fresh_timer as int,
                bounce_timer as int,
            ),
            final(self).wf(),
            final(self).direction != old(self).direction <==> old(self).bounces(width as int),
            old(self).roams(width as int) && 0 < width <= EXTENT ==> final(self).roams(
                width as int,
            ),
    {
        self.state_timer = self.state_timer - 1;
        if self.state_timer <= 0 {
            match self.state {
                CrabState::Walking => {
                    self.state = CrabState::Waiting;
                },
                CrabState::Waiting => {
                    self.state = CrabState::Walking;
                },
            }
            self.state_timer = fresh_timer;
        }
        match self.state {
            CrabState::Walking => {
                self.x = clamp_to(self.x as i128 + (self.direction * STRIDE) as i128, -WORLD, WORLD);
            },
            CrabState::Waiting => {},
        }
        self.y = clamp_to(floor_y as i128 - CLEARANCE as i128, -WORLD, WORLD);
        if (self.x > width && self.direction > 0) || (self.x < 0 && self.direction < 0) {
            self.direction = -self.direction;
            self.state = CrabState::Walking;
            self.state_timer = bounce_timer;
        }
    }

    /// Moves the crab by one tick, drawing at random the length of any state
    /// that it enters.
    pub fn update(&mut self, floor_y: i64, width: i64)
        requires
            old(self).wf(),
            -WORLD <= floor_y <= WORLD,
        ensures
            exists|fresh_timer: int, bounce_timer: int|
                {
                    &&& fits_state(other_state(old(self).state), fresh_timer)
                    &&& fits_state(CrabState::Walking, bounce_timer)
                    &&& #[trigger] old(self).advances_to(
                        *final(self),
                        floor_y as int,
                        width as int,
                        fresh_timer,
                        bounce_timer,
                    )
                },
            final(self).wf(),
            final(self).direction != old(self).direction <==> old(self).bounces(width as int),
            old(self).roams(width as int) && 0 < width <= EXTENT ==> final(self).roams(
                width as int,
            ),
    {
        let fresh_timer: i64 = if self.is_expiring() {
            match self.state {
                CrabState::Walking => draw_between(WAIT_MIN, WAIT_MAX),
                CrabState::Waiting => draw_between(WALK_MIN, WALK_MAX),
            }
        } else {
            match self.state {
                CrabState::Walking => WAIT_MIN,
                CrabState::Waiting => WALK_MIN,
            }
        };
        let bounce_timer: i64 = if self.is_bouncing(width) {
            draw_between(WALK_MIN, WALK_MAX)
        } else {
            WALK_MIN
        };
        self.advance(floor_y, width, fresh_timer as i32, bounce_timer as i32);
    }
}

} // verus!
