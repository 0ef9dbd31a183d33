//! Sparse per-entity components.
//!
//! Each component is stored independently of the others; an entity that lacks
//! a component simply does not support that capability.

use vstd::prelude::*;

verus! {

/// Marks whether an entity is part of the current selection.
#[derive(Clone, Copy, PartialEq, Eq, Structural, Debug)]
pub struct SelectionComponent {
    pub selected: bool,
}

impl SelectionComponent {
    pub fn new(selected: bool) -> (r: SelectionComponent)
        ensures
            r == (SelectionComponent { selected }),
    {
        SelectionComponent { selected }
    }
}

impl Default for SelectionComponent {
    /// A fresh entity starts out unselected.
    fn default() -> (r: SelectionComponent)
        ensures
            r == (SelectionComponent { selected: false }),
    {
        SelectionComponent { selected: false }
    }
}

/// Marks whether an entity is visible; invisible strokes are excluded from
/// selection and export.
#[derive(Clone, Copy, PartialEq, Eq, Structural, Debug)]
pub struct RenderComponent {
    pub render: bool,
}

impl Default for RenderComponent {
    /// A fresh entity starts out visible.
    fn default() -> (r: RenderComponent)
        ensures
            r == (RenderComponent { render: true }),
    {
        RenderComponent { render: true }
    }
}

/// Soft-delete flag; trashed strokes stay in the registry but take part in no
/// selection, bounds or export operation.
#[derive(Clone, Copy, PartialEq, Eq, Structural, Debug)]
pub struct TrashComponent {
    pub trashed: bool,
}

impl Default for TrashComponent {
    /// A fresh entity starts out live.
    fn default() -> (r: TrashComponent)
        ensures
            r == (TrashComponent { trashed: false }),
    {
        TrashComponent { trashed: false }
    }
}

/// Creation-order stamp, used to find the most recently created selected
/// stroke.
#[derive(Clone, Copy, PartialEq, Eq, Structural, Debug)]
pub struct ChronoComponent {
    pub t: u32,
}

} // verus!
