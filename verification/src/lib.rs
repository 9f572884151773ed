//! The physics step of a small three-dimensional scene.
//!
//! A scene is an ordered collection of [`object::Object`]s, spheres and
//! boxes that are all treated as spheres when they collide. Once per frame
//! the host calls [`object::Object::update`] for an object, with the time
//! that has passed and the other objects of the scene. The update cuts the
//! time into steps of at most 0.016 s. In each step the object is pushed out
//! of whatever it overlaps; if it overlapped nothing it falls under gravity;
//! and its rotation advances. Static objects never move.
//!
//! All quantities are fixed-point numbers with nine decimal places, held in
//! an `i64` ([`fixed`]). Every operation saturates instead of overflowing,
//! so the step is total: it accepts any state and any time.
//!
//! [`laws`] and [`separation`] state and prove what holds of every step.

pub mod fixed;
pub mod sqrt;
mod arith;
pub mod trig;
pub mod vector;
pub mod object;
pub mod laws;
pub mod separation;
