//! A fixed-point simulation of a small aquarium: fish that seek food, avoid the
//! walls and wander; crabs, bubbles, light shafts and sinking food.
//!
//! Every length, weight and angle is an integer counted in millionths. The
//! host supplies one period of the sine wave as a table of samples and draws
//! what the simulation computes; the simulation itself does no floating-point
//! arithmetic and draws nothing.

pub mod basin;
pub mod bubble;
pub mod chance;
pub mod crab;
pub mod fish;
pub mod fixed;
pub mod food;
pub mod god_ray;
pub mod layout;
pub mod wave;

pub use crate::basin::Aquarium;
pub use crate::bubble::Bubble;
pub use crate::crab::{Crab, CrabState};
pub use crate::fish::Fish;
pub use crate::food::Food;
pub use crate::god_ray::GodRay;
pub use crate::wave::WaveTable;
