//! Rule engine for a machine-building puzzle: directional pipe-like blocks are
//! placed on a 3-D grid, a "wind" medium flows through matching ports between
//! adjacent blocks, and kinded tokens ("blips") travel along those ports,
//! triggering per-block effects (spawning, duplicating, consuming).
//!
//! The crate covers the spatial block model (grid storage, slot arena,
//! rotation-aware port geometry) and the per-tick execution engine that
//! recomputes the wind state and advances the blips. Rendering, editing and
//! persistence layers sit outside and only read or rebuild this state.

pub mod arena;
pub mod grid;
pub mod exec;
pub mod level;
pub mod machine;
pub mod play;
pub mod timer;
