//! Procedural dungeon-level generation and the spatial query surface that
//! pathfinding and field-of-view consumers walk.
//!
//! The level grid is carved by a best-first flood fill whose frontier is
//! ordered by accumulated noise-derived roughness plus a centrality bias.
//! Rooms are grown from well-separated seed points, rasterized into a
//! classification grid that controls where the carver may breach a wall,
//! and reconciled after carving so that every breached room ends enclosed.

pub mod builder;
pub mod carver;
pub mod classifier;
pub mod common;
pub mod map;
pub mod post;
pub mod rng;
pub mod rooms;
pub mod sampler;
