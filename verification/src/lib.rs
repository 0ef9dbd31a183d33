//! A spatial selection-and-transform engine for vector-graphic strokes.
//!
//! Strokes live in an entity/component store: each stroke entity carries
//! sparse selection, render, trash and chrono components. The engine decides
//! which strokes a drawn selector region picks up, moves and rescales the
//! selected subset as one group, duplicates it, and serializes stroke subsets
//! into a vector-markup document.

pub mod components;
pub mod compose;
pub mod export;
pub mod geometry;
pub mod laws;
pub mod selection;
pub mod state;
pub mod strokestyle;
pub mod transform;
