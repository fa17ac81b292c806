//! Behaviour core of a click-to-move action-RPG character: a ground-plane
//! motion state machine, its movement integrator, and the rule that keeps the
//! character's animation in step with its motion.
//!
//! All geometry is fixed point: one unit of length is a micrometre and one unit
//! of time is a microsecond.
use vstd::prelude::*;

pub mod geometry;
pub mod motion;
pub mod animation;
pub mod input;
pub mod world;
