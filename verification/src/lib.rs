//! Skeletal animation: a hierarchy of bones, clips of keyframes, a player that
//! advances through a clip, and the matrices a renderer skins a mesh with.
//!
//! - [`skeleton`] holds the bones and derives world and skinning matrices;
//!   [`hierarchy`] says what a well-formed hierarchy is, [`validation`] checks
//!   one that came from elsewhere, and [`indices`] has the list operations
//!   both lean on.
//! - [`clip`] holds keyframes and decides, for a point in time, which of them
//!   count and how far between them the time lies.
//! - [`player`] is the playback state machine.
//! - [`matrix`] is the boundary to `glam`, whose numbers the library carries
//!   and multiplies but does not look into.
//!
//! Beside these stand the containers an engine builds on: an object [`pool`],
//! a [`command`] history with undo and redo, [`assets`] with shared handles,
//! and the engine's [`config`].
//!
//! Times are whole microseconds throughout; speeds and weights are counted in
//! millionths.

pub mod assets;
pub mod clip;
pub mod command;
pub mod config;
pub mod hierarchy;
pub mod indices;
pub mod matrix;
pub mod player;
pub mod pool;
pub mod skeleton;
pub mod validation;
