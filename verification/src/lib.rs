//! Core of an interactive physics sandbox: a position-based soft-body
//! (cloth) simulation, together with the bookkeeping that couples it to a
//! rigid-body/fluid world — object registries, spawn-command dispatch,
//! liquid block layout, and the flattened render-data view.
//!
//! All quantities are fixed-point scalars: an `i64` counts millionths of a
//! world unit (see [`fixed::SCALE`]), so every computation is exact integer
//! arithmetic with stated rounding.

pub mod commands;
pub mod fixed;
pub mod registry;
pub mod render_data;
pub mod soft_body;
pub mod vec3;
pub mod world;
