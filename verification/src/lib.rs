//! Damage-tracked pixel-surface synchronization.
//!
//! An in-memory pixel surface accumulates drawing, and a damage tracker
//! decides, once per frame, exactly which bytes must cross the display bus
//! to bring the physical panel in sync with the surface: discrete positioned
//! pixel writes, a single rectangular block, or nothing at all.

pub mod color;
pub mod rect;
pub mod sink;
pub mod payload;
pub mod surface;
pub mod target;
pub mod tracker;
