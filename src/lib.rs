//! A tick-driven tower defense simulation on fixed-point coordinates.
//!
//! Every length, position and speed is counted in thousandths of a world
//! unit, so that the whole simulation runs on integers.
use vstd::prelude::*;

pub mod geometry;
pub mod path;
pub mod balloons;
pub mod projectiles;
pub mod towers;
pub mod game;
pub mod codec;

verus! {

/// The colours in which the scene's entities are drawn.
#[derive(Debug, Clone, Copy, PartialEq, Eq, Structural)]
pub enum Tint {
    Red,
    Blue,
    Gray,
    LightRed,
    Yellow,
}

} // verus!
