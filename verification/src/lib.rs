//! A terminal virtual-grid transition engine.
//!
//! The crate models a rectangular grid of styled terminal cells, composes two
//! such grids side by side, and computes deterministic sliding-window frames
//! that animate a horizontal transition between two rendered states. Rows are
//! merged into runs of identically styled cells, frame indices are clamped and
//! mirrored across the two playback directions, and partially visible runs are
//! truncated against the viewport, honoring each style's width multiplier.

pub mod grid;
pub mod media;
pub mod runs;
pub mod style;
pub mod transition;
