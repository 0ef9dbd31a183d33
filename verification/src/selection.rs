//! The selection engine: which strokes a selector region picks up.
//!
//! The containment policy is centralized here: a stroke whose bounds are
//! fully contained in the selector is selected; a free-form stroke whose
//! bounds merely intersect the selector is selected only if every hitbox
//! sub-box is fully contained; a stroke without hitboxes is never selected
//! by mere intersection.

use vstd::pervasive::VecAdditionalExecFns;
use vstd::prelude::*;

use crate::components::SelectionComponent;
use crate::geometry::Aabb;
use crate::state::{
    lemma_bounds_upto_agree, lemma_bounds_upto_none, lemma_count_upto_zero,
    StateView, StrokeKey, StrokesState,
};
use crate::strokestyle::stroke_hit;

verus! {

/// The selector region handed over by the gesture recognizer; `bounds` is
/// `None` while no selector is active.
#[derive(Clone, Copy, PartialEq, Eq, Structural, Debug)]
pub struct Selector {
    pub bounds: Option<Aabb>,
}

impl Selector {
    pub fn new(bounds: Option<Aabb>) -> (r: Selector)
        ensures
            r == (Selector { bounds }),
    {
        Selector { bounds }
    }
}

impl StateView {
    /// Entity `i` qualifies for `last_selection_key`: it carries trash,
    /// selection and chrono components, and is untrashed and selected.
    pub open spec fn lsk_candidate(self, i: int) -> bool {
        &&& 0 <= i < self.strokes.len()
        &&& match (self.trash[i], self.selection[i], self.chrono[i]) {
            (Some(tc), Some(sc), Some(_)) => !tc.trashed && sc.selected,
            _ => false,
        }
    }

    /// The creation ordinal of entity `i`.
    pub open spec fn lsk_t(self, i: int) -> u32 {
        match self.chrono[i] {
            Some(c) => c.t,
            None => 0,
        }
    }

    /// Entity `i` is hidden from the scan: it has both a render and a trash
    /// component, and is invisible or trashed.
    pub open spec fn hidden(self, i: int) -> bool {
        match (self.render[i], self.trash[i]) {
            (Some(rc), Some(tc)) => !rc.render || tc.trashed,
            _ => false,
        }
    }

    /// The scan passes over entity `i` without touching its selection flag.
    pub open spec fn scan_skips(self, i: int, viewport: Option<Aabb>) -> bool {
        self.hidden(i) || (match viewport {
            Some(vp) => !vp.spec_intersects(self.strokes[i].bounds),
            None => false,
        })
    }

    /// The selection component of entity `i` after a scan with selector
    /// bounds `sel`.
    pub open spec fn scanned_selection(self, i: int, sel: Aabb, viewport: Option<Aabb>) -> Option<
        SelectionComponent,
    > {
        if self.scan_skips(i, viewport) {
            self.selection[i]
        } else {
            match self.selection[i] {
                Some(_) => Some(SelectionComponent { selected: stroke_hit(self.strokes[i], sel) }),
                None => None,
            }
        }
    }

    /// The state after the per-stroke scan, before the bounds refresh.
    pub open spec fn scanned(self, sel: Aabb, viewport: Option<Aabb>) -> StateView {
        StateView {
            selection: Seq::new(
                self.strokes.len(),
                |i: int| self.scanned_selection(i, sel, viewport),
            ),
            ..self
        }
    }

    /// The state and return value of a selector-driven selection update: a
    /// scan updates every selectable, visible, in-viewport stroke's flag;
    /// the aggregate bounds are refreshed only when the selected count
    /// changed, and that change is the return value.
    pub open spec fn spec_update_selection(self, selector: Option<Aabb>, viewport: Option<Aabb>) -> (
        StateView,
        bool,
    ) {
        match selector {
            None => (self, false),
            Some(sel) => {
                let s = self.scanned(sel, viewport);
                if s.spec_selection_len() != self.spec_selection_len() {
                    ((StateView { selection_bounds: s.spec_gen_bounds(), ..s }), true)
                } else {
                    (s, false)
                }
            },
        }
    }
}

impl StrokesState {
    /// Clears every selection flag and empties the aggregate bounds cache.
    pub fn deselect(&mut self)
        requires
            old(self)@.wf(),
        ensures
            final(self)@.wf(),
            final(self)@.selection == Seq::new(
                old(self)@.selection.len(),
                |i: int|
                    match old(self)@.selection[i] {
                        Some(_) => Some(SelectionComponent { selected: false }),
                        None => None,
                    },
            ),
            final(self)@.strokes == old(self)@.strokes,
            final(self)@.render == old(self)@.render,
            final(self)@.trash == old(self)@.trash,
            final(self)@.chrono == old(self)@.chrono,
            final(self)@.chrono_counter == old(self)@.chrono_counter,
            final(self)@.selection_bounds is None,
            forall|i: int| !final(self)@.is_selected(i),
            final(self)@.spec_selection_len() == 0,
            final(self)@.bounds_consistent(),
    {
        let ghost prev = self@;
        let n = self.strokes_len();
        let mut i: usize = 0;
        while i < n
            invariant
                self@.wf(),
                n == self@.strokes.len(),
                i <= n,
                self@.strokes == prev.strokes,
                self@.render == prev.render,
                self@.trash == prev.trash,
                self@.chrono == prev.chrono,
                self@.chrono_counter == prev.chrono_counter,
                self@.selection_bounds == prev.selection_bounds,
                self@.selection.len() == n,
                forall|j: int|
                    0 <= j < i ==> #[trigger] self@.selection[j] == (match prev.selection[j] {
                        Some(_) => Some(SelectionComponent { selected: false }),
                        None => None,
                    }),
                forall|j: int| i <= j < n ==> #[trigger] self@.selection[j] == prev.selection[j],
            decreases n - i,
        {
            let c = self.selection_component(i);
            if c.is_some() {
                self.set_selection_component(i, Some(SelectionComponent { selected: false }));
            }
            i = i + 1;
        }
        self.clear_selection_bounds();
        proof {
            assert(self@.selection =~= Seq::new(
                prev.selection.len(),
                |i: int|
                    match prev.selection[i] {
                        Some(_) => Some(SelectionComponent { selected: false }),
                        None => None,
                    },
            ));
            assert(forall|j: int| !self@.is_selected(j));
            lemma_count_upto_zero(self@, self@.strokes.len() as int);
            lemma_bounds_upto_none(self@, self@.strokes.len() as int);
        }
    }

    /// Among entities that are selected, untrashed and chrono-stamped, the
    /// key with the greatest creation ordinal; equal ordinals are broken
    /// deterministically toward the greatest key. `None` when no entity
    /// qualifies.
    pub fn last_selection_key(&self) -> (r: Option<StrokeKey>)
        requires
            self@.wf(),
        ensures
            match r {
                None => forall|j: int| !self@.lsk_candidate(j),
                Some(k) => {
                    &&& self@.lsk_candidate(k as int)
                    &&& forall|j: int|
                        #[trigger]
                        self@.lsk_candidate(j) ==> self@.lsk_t(j) <= self@.lsk_t(k as int) && (
                        self@.lsk_t(j) == self@.lsk_t(k as int) ==> j <= k)
                },
            },
    {
        let n = self.strokes_len();
        let mut best: Option<(usize, u32)> = None;
        let mut i: usize = 0;
        while i < n
            invariant
                self@.wf(),
                n == self@.strokes.len(),
                i <= n,
                match best {
                    None => forall|j: int| 0 <= j < i ==> !#[trigger] self@.lsk_candidate(j),
                    Some((k, t)) => {
                        &&& self@.lsk_candidate(k as int)
                        &&& (k as int) < i
                        &&& t == self@.lsk_t(k as int)
                        &&& forall|j: int|
                            0 <= j < i && #[trigger] self@.lsk_candidate(j) ==> self@.lsk_t(j) <= t
                                && (self@.lsk_t(j) == t ==> j <= k)
                    },
                },
            decreases n - i,
        {
            let tr = self.trash_component(i);
            let sel = self.selection_component(i);
            let ch = self.chrono_component(i);
            let cand: Option<u32> = match (tr, sel, ch) {
                (Some(tc), Some(sc), Some(cc)) => {
                    if !tc.trashed && sc.selected {
                        Some(cc.t)
                    } else {
                        None
                    }
                },
                _ => None,
            };
            if let Some(t) = cand {
                let take = match best {
                    None => true,
                    Some((_, bt)) => t >= bt,
                };
                if take {
                    best = Some((i, t));
                }
            }
            i = i + 1;
        }
        match best {
            None => None,
            Some((k, _)) => Some(k),
        }
    }

    /// Updates the selection from the selector region: every visible,
    /// untrashed, in-viewport, selectable stroke's flag is recomputed by the
    /// containment policy. Returns whether the selected count changed; only
    /// then is the aggregate bounds cache refreshed. A selector without
    /// bounds leaves the state untouched.
    pub fn update_selection_for_selector(
        &mut self,
        selector: &Selector,
        viewport: Option<Aabb>,
    ) -> (changed: bool)
        requires
            old(self)@.wf(),
        ensures
            final(self)@.wf(),
            final(self)@ == old(self)@.spec_update_selection(selector.bounds, viewport).0,
            changed == old(self)@.spec_update_selection(selector.bounds, viewport).1,
    {
        let ghost prev = self@;
        let prev_len = self.selection_len();
        let sel_bounds = match selector.bounds {
            Some(b) => b,
            None => {
                return false;
            },
        };
        let n = self.strokes_len();
        let mut i: usize = 0;
        while i < n
            invariant
                self@.wf(),
                prev.wf(),
                n == self@.strokes.len(),
                n == prev.strokes.len(),
                i <= n,
                self@.strokes == prev.strokes,
                self@.render == prev.render,
                self@.trash == prev.trash,
                self@.chrono == prev.chrono,
                self@.chrono_counter == prev.chrono_counter,
                self@.selection_bounds == prev.selection_bounds,
                self@.selection.len() == n,
                forall|j: int|
                    0 <= j < i ==> #[trigger] self@.selection[j] == prev.scanned_selection(
                        j,
                        sel_bounds,
                        viewport,
                    ),
                forall|j: int| i <= j < n ==> #[trigger] self@.selection[j] == prev.selection[j],
            decreases n - i,
        {
            let rc = self.render_component(i);
            let tc = self.trash_component(i);
            let mut skip: bool = false;
            match (rc, tc) {
                (Some(r), Some(t)) => {
                    if !r.render || t.trashed {
                        skip = true;
                    }
                },
                _ => {},
            }
            if !skip {
                if let Some(vp) = viewport {
                    let b = self.stroke_bounds_at(i);
                    if !vp.intersects(&b) {
                        skip = true;
                    }
                }
            }
            if !skip {
                let has_comp = self.selection_component(i).is_some();
                if has_comp {
                    let hit = self.stroke_hit_at(i, &sel_bounds);
                    self.set_selection_component(i, Some(SelectionComponent { selected: hit }));
                }
            }
            i = i + 1;
        }
        proof {
            assert(self@.selection =~= prev.scanned(sel_bounds, viewport).selection);
            assert(self@ =~= prev.scanned(sel_bounds, viewport));
        }
        let new_len = self.selection_len();
        if new_len != prev_len {
            let ghost mid = self@;
            self.update_selection_bounds();
            proof {
                lemma_bounds_upto_agree(self@, mid, mid.strokes.len() as int);
            }
            true
        } else {
            false
        }
    }
}

} // verus!
