//! Core rules of an endless downhill runner: a ball rolls along a track of
//! tilted platforms that is extended as the ball advances; falling off the
//! track, hitting an obstacle or asking for it starts the run over; a camera
//! follows the ball.
//!
//! The library decides; it neither simulates nor draws. Each tick it is told
//! where the physics has left the ball and which bodies have started to
//! touch, and it answers with what has changed: the score, the platforms and
//! obstacles to add, whether the run has started over, where the camera
//! stands and which velocity the ball is to have.
//!
//! All positions are fixed-point integers, a thousand to the world unit.
//!
//! - [`vector`]: points, distances and the integer square root.
//! - [`config`]: what is fixed for the length of a game.
//! - [`random`]: the source of random draws.
//! - [`track`]: platforms, obstacles and the generator that extends the track.
//! - [`motion`]: steering and the cap on the ball's speed.
//! - [`camera`]: the camera that follows the ball.
//! - [`world`]: the state of a game and the steps that change it.
//! - [`laws`]: what holds of every run.

pub mod camera;
pub mod config;
pub mod laws;
pub mod motion;
pub mod random;
pub mod track;
pub mod vector;
pub mod world;
