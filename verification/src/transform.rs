//! The transform engine and the duplication service.
//!
//! Translation shifts every selected stroke and the cached aggregate bounds
//! by the same offset. Resizing maps every selected stroke by the affine
//! transform that carries the old aggregate bounds onto the new ones; a
//! source extent of zero on either axis would leave the per-axis scale
//! undefined, so such a resize is rejected as a whole. Duplication clones
//! every selected stroke into a fresh, selected entity shifted by a fixed
//! visual offset, deselecting the originals.

use vstd::prelude::*;

use crate::components::{ChronoComponent, RenderComponent, SelectionComponent, TrashComponent};
use crate::geometry::{Aabb, Vector2};
use crate::state::{lemma_bounds_upto_agree, StateView, StrokesState};

verus! {

/// The fixed visual offset a duplicated stroke is shifted by, so the copy
/// is visibly distinct from its original.
pub open spec fn spec_duplication_offset() -> Vector2 {
    Vector2 { x: 20, y: 20 }
}

impl StateView {
    /// The state after translating the selection by `off`: every selected
    /// stroke and the cached bounds shift rigidly; nothing else changes.
    pub open spec fn spec_translate_selection(self, off: Vector2) -> StateView {
        StateView {
            strokes: Seq::new(
                self.strokes.len(),
                |i: int|
                    if self.is_selected(i) {
                        self.strokes[i].spec_translate(off)
                    } else {
                        self.strokes[i]
                    },
            ),
            selection_bounds: match self.selection_bounds {
                Some(b) => Some(b.spec_translate(off)),
                None => None,
            },
            ..self
        }
    }

    /// The translation stays within the coordinate limits: every translated
    /// selected stroke and the translated cached bounds are well-formed.
    pub open spec fn can_translate(self, off: Vector2) -> bool {
        &&& off.wf()
        &&& forall|i: int|
            self.is_selected(i) ==> (#[trigger] self.strokes[i].spec_translate(off)).wf()
        &&& match self.selection_bounds {
            Some(b) => b.spec_translate(off).wf(),
            None => true,
        }
    }

    /// The state after resizing the selection to `nb`: with current
    /// aggregate bounds of positive extent, every selected stroke is mapped
    /// by the affine transform onto `nb` and the cache becomes `nb`; with no
    /// cached bounds, or bounds of zero extent on an axis, the resize is
    /// rejected and nothing changes.
    pub open spec fn spec_resize_selection(self, nb: Aabb) -> StateView {
        match self.selection_bounds {
            None => self,
            Some(ob) => {
                if ob.spec_width() > 0 && ob.spec_height() > 0 {
                    StateView {
                        strokes: Seq::new(
                            self.strokes.len(),
                            |i: int|
                                if self.is_selected(i) {
                                    self.strokes[i].spec_resize_in(ob, nb)
                                } else {
                                    self.strokes[i]
                                },
                        ),
                        selection_bounds: Some(nb),
                        ..self
                    }
                } else {
                    self
                }
            },
        }
    }

    /// The resize stays within the coordinate limits: the new bounds and
    /// every mapped selected stroke are well-formed.
    pub open spec fn can_resize(self, nb: Aabb) -> bool {
        &&& nb.wf()
        &&& match self.selection_bounds {
            None => true,
            Some(ob) => ob.spec_width() > 0 && ob.spec_height() > 0 ==> forall|i: int|
                self.is_selected(i) ==> (#[trigger] self.strokes[i].spec_resize_in(ob, nb)).wf(),
        }
    }

    /// The selection components with every selected entity deselected.
    pub open spec fn cleared_selection(self) -> Seq<Option<SelectionComponent>> {
        Seq::new(
            self.selection.len(),
            |j: int|
                if self.is_selected(j) {
                    Some(SelectionComponent { selected: false })
                } else {
                    self.selection[j]
                },
        )
    }

    /// The duplicated strokes, one per selected entity in key order, each
    /// shifted by the fixed duplication offset.
    pub open spec fn dup_strokes(self) -> Seq<crate::strokestyle::StrokeView> {
        self.spec_selection_keys().map_values(
            |k: crate::state::StrokeKey|
                self.strokes[k as int].spec_translate(spec_duplication_offset()),
        )
    }

    /// The state after duplicating the selection: the originals are
    /// deselected; for each of them, in key order, a fresh entity is
    /// appended holding the shifted clone, selected, visible, untrashed and
    /// without chrono stamp; finally the aggregate bounds are recomputed.
    pub open spec fn spec_duplicate_selection(self) -> StateView {
        let count = self.spec_selection_keys().len();
        let s = StateView {
            strokes: self.strokes + self.dup_strokes(),
            selection: self.cleared_selection() + Seq::new(
                count,
                |d: int| Some(SelectionComponent { selected: true }),
            ),
            render: self.render + Seq::new(count, |d: int| Some(RenderComponent { render: true })),
            trash: self.trash + Seq::new(count, |d: int| Some(TrashComponent { trashed: false })),
            chrono: self.chrono + Seq::new(count, |d: int| None::<ChronoComponent>),
            ..self
        };
        StateView { selection_bounds: s.spec_gen_bounds(), ..s }
    }

    /// The duplication stays within the machine's limits: the registry can
    /// hold the new entities and every shifted clone is well-formed.
    pub open spec fn can_duplicate(self) -> bool {
        &&& self.strokes.len() + self.spec_selection_len() <= usize::MAX
        &&& forall|i: int|
            self.is_selected(i) ==> (#[trigger] self.strokes[i].spec_translate(
                spec_duplication_offset(),
            )).wf()
    }
}

impl StrokesState {
    /// Translates every selected stroke by `offset` and shifts the cached
    /// aggregate bounds by the same offset; the cache stays empty when it
    /// was empty (nothing selected contributes no bounds).
    pub fn translate_selection(&mut self, offset: Vector2)
        requires
            old(self)@.wf(),
            old(self)@.can_translate(offset),
        ensures
            final(self)@.wf(),
            final(self)@ == old(self)@.spec_translate_selection(offset),
    {
        let ghost prev = self@;
        let n = self.strokes_len();
        let mut i: usize = 0;
        while i < n
            invariant
                self@.wf(),
                prev.wf(),
                prev.can_translate(offset),
                n == prev.strokes.len(),
                self@.strokes.len() == n,
                i <= n,
                self@.selection == prev.selection,
                self@.render == prev.render,
                self@.trash == prev.trash,
                self@.chrono == prev.chrono,
                self@.chrono_counter == prev.chrono_counter,
                self@.selection_bounds == prev.selection_bounds,
                forall|j: int|
                    0 <= j < i ==> #[trigger] self@.strokes[j] == (if prev.is_selected(j) {
                        prev.strokes[j].spec_translate(offset)
                    } else {
                        prev.strokes[j]
                    }),
                forall|j: int| i <= j < n ==> #[trigger] self@.strokes[j] == prev.strokes[j],
            decreases n - i,
        {
            let sel = match self.selection_component(i) {
                Some(c) => c.selected,
                None => false,
            };
            if sel {
                self.translate_stroke_at(i, offset);
            }
            i = i + 1;
        }
        let cache = self.selection_bounds();
        match cache {
            Some(b) => {
                let shifted = b.translate(offset);
                self.set_selection_bounds_opt(Some(shifted));
            },
            None => {},
        }
        proof {
            assert(self@.strokes =~= prev.spec_translate_selection(offset).strokes);
            assert(self@ =~= prev.spec_translate_selection(offset));
        }
    }

    /// Resizes the selection with its contents onto the new aggregate
    /// bounds `new_bounds`; rejected as a no-op when no aggregate bounds are
    /// cached or the cached bounds have zero extent on an axis (the per-axis
    /// scale would be undefined there).
    pub fn resize_selection(&mut self, new_bounds: Aabb)
        requires
            old(self)@.wf(),
            old(self)@.can_resize(new_bounds),
        ensures
            final(self)@.wf(),
            final(self)@ == old(self)@.spec_resize_selection(new_bounds),
    {
        let ghost prev = self@;
        let ob = match self.selection_bounds() {
            Some(b) => b,
            None => {
                return ;
            },
        };
        if ob.width() == 0 || ob.height() == 0 {
            return ;
        }
        let n = self.strokes_len();
        let mut i: usize = 0;
        while i < n
            invariant
                self@.wf(),
                prev.wf(),
                prev.can_resize(new_bounds),
                prev.selection_bounds == Some(ob),
                ob.wf(),
                new_bounds.wf(),
                ob.spec_width() > 0,
                ob.spec_height() > 0,
                n == prev.strokes.len(),
                self@.strokes.len() == n,
                i <= n,
                self@.selection == prev.selection,
                self@.render == prev.render,
                self@.trash == prev.trash,
                self@.chrono == prev.chrono,
                self@.chrono_counter == prev.chrono_counter,
                self@.selection_bounds == prev.selection_bounds,
                forall|j: int|
                    0 <= j < i ==> #[trigger] self@.strokes[j] == (if prev.is_selected(j) {
                        prev.strokes[j].spec_resize_in(ob, new_bounds)
                    } else {
                        prev.strokes[j]
                    }),
                forall|j: int| i <= j < n ==> #[trigger] self@.strokes[j] == prev.strokes[j],
            decreases n - i,
        {
            let sel = match self.selection_component(i) {
                Some(c) => c.selected,
                None => false,
            };
            if sel {
                self.resize_stroke_at(i, &ob, &new_bounds);
            }
            i = i + 1;
        }
        self.set_selection_bounds_opt(Some(new_bounds));
        proof {
            assert(self@.strokes =~= prev.spec_resize_selection(new_bounds).strokes);
            assert(self@ =~= prev.spec_resize_selection(new_bounds));
        }
    }

    /// Duplicates the selection: each selected entity is deselected and a
    /// fresh selected entity holding its clone, shifted by the fixed visual
    /// offset, is appended with default render and trash components; the
    /// aggregate bounds are then recomputed once for the whole batch.
    pub fn duplicate_selection(&mut self)
        requires
            old(self)@.wf(),
            old(self)@.can_duplicate(),
        ensures
            final(self)@.wf(),
            final(self)@ == old(self)@.spec_duplicate_selection(),
            final(self)@.bounds_consistent(),
    {
        let ghost prev = self@;
        let n = self.strokes_len();
        let mut i: usize = 0;
        while i < n
            invariant
                self@.wf(),
                prev.wf(),
                prev.can_duplicate(),
                n == prev.strokes.len(),
                i <= n,
                self@.strokes == prev.strokes + prev.keys_upto(i as int).map_values(
                    |k: crate::state::StrokeKey|
                        prev.strokes[k as int].spec_translate(spec_duplication_offset()),
                ),
                self@.selection == Seq::new(
                    prev.selection.len(),
                    |j: int|
                        if j < i && prev.is_selected(j) {
                            Some(SelectionComponent { selected: false })
                        } else {
                            prev.selection[j]
                        },
                ) + Seq::new(
                    prev.keys_upto(i as int).len(),
                    |d: int| Some(SelectionComponent { selected: true }),
                ),
                self@.render == prev.render + Seq::new(
                    prev.keys_upto(i as int).len(),
                    |d: int| Some(RenderComponent { render: true }),
                ),
                self@.trash == prev.trash + Seq::new(
                    prev.keys_upto(i as int).len(),
                    |d: int| Some(TrashComponent { trashed: false }),
                ),
                self@.chrono == prev.chrono + Seq::new(
                    prev.keys_upto(i as int).len(),
                    |d: int| None::<ChronoComponent>,
                ),
                self@.chrono_counter == prev.chrono_counter,
                self@.selection_bounds == prev.selection_bounds,
            decreases n - i,
        {
            proof {
                crate::state::lemma_keys_upto_len(prev, i as int);
                crate::state::lemma_keys_upto_len(prev, n as int);
                lemma_keys_upto_mono(prev, i as int, n as int);
            }
            let sel = match self.selection_component(i) {
                Some(c) => c.selected,
                None => false,
            };
            if sel {
                proof {
                    lemma_keys_upto_mono(prev, i + 1, n as int);
                    assert(prev.keys_upto(i + 1) =~= prev.keys_upto(i as int).push(
                        i as crate::state::StrokeKey,
                    ));
                    assert(self@.strokes.len() < usize::MAX);
                }
                self.set_selection_component(i, Some(SelectionComponent { selected: false }));
                let clone = self.stroke_clone_translated(i, 20, 20);
                self.push_dup_entity(clone);
                proof {
                    assert(prev.keys_upto(i + 1) =~= prev.keys_upto(i as int).push(
                        i as crate::state::StrokeKey,
                    ));
                    assert(self@.strokes =~= prev.strokes + prev.keys_upto(i + 1).map_values(
                        |k: crate::state::StrokeKey|
                            prev.strokes[k as int].spec_translate(spec_duplication_offset()),
                    ));
                    assert(self@.selection =~= Seq::new(
                        prev.selection.len(),
                        |j: int|
                            if j < i + 1 && prev.is_selected(j) {
                                Some(SelectionComponent { selected: false })
                            } else {
                                prev.selection[j]
                            },
                    ) + Seq::new(
                        prev.keys_upto(i + 1).len(),
                        |d: int| Some(SelectionComponent { selected: true }),
                    ));
                    assert(self@.render =~= prev.render + Seq::new(
                        prev.keys_upto(i + 1).len(),
                        |d: int| Some(RenderComponent { render: true }),
                    ));
                    assert(self@.trash =~= prev.trash + Seq::new(
                        prev.keys_upto(i + 1).len(),
                        |d: int| Some(TrashComponent { trashed: false }),
                    ));
                    assert(self@.chrono =~= prev.chrono + Seq::new(
                        prev.keys_upto(i + 1).len(),
                        |d: int| None::<ChronoComponent>,
                    ));
                }
            } else {
                proof {
                    assert(prev.keys_upto(i + 1) =~= prev.keys_upto(i as int));
                    assert(self@.selection =~= Seq::new(
                        prev.selection.len(),
                        |j: int|
                            if j < i + 1 && prev.is_selected(j) {
                                Some(SelectionComponent { selected: false })
                            } else {
                                prev.selection[j]
                            },
                    ) + Seq::new(
                        prev.keys_upto(i + 1).len(),
                        |d: int| Some(SelectionComponent { selected: true }),
                    ));
                }
            }
            i = i + 1;
        }
        self.update_selection_bounds();
        proof {
            assert(prev.keys_upto(n as int) == prev.spec_selection_keys());
            let s = prev.spec_duplicate_selection();
            let count = prev.spec_selection_keys().len();
            let inner = StateView {
                strokes: prev.strokes + prev.dup_strokes(),
                selection: prev.cleared_selection() + Seq::new(
                    count,
                    |d: int| Some(SelectionComponent { selected: true }),
                ),
                render: prev.render + Seq::new(
                    count,
                    |d: int| Some(RenderComponent { render: true }),
                ),
                trash: prev.trash + Seq::new(
                    count,
                    |d: int| Some(TrashComponent { trashed: false }),
                ),
                chrono: prev.chrono + Seq::new(count, |d: int| None::<ChronoComponent>),
                ..prev
            };
            assert(s == (StateView { selection_bounds: inner.spec_gen_bounds(), ..inner }));
            assert(self@.strokes =~= s.strokes);
            assert(self@.selection =~= s.selection);
            assert(self@.render =~= s.render);
            assert(self@.trash =~= s.trash);
            assert(self@.chrono =~= s.chrono);
            lemma_bounds_upto_agree(inner, s, s.strokes.len() as int);
            lemma_bounds_upto_agree(self@, s, s.strokes.len() as int);
            assert(self@.selection_bounds == s.selection_bounds);
            assert(self@ =~= s);
        }
    }
}

/// A longer scan prefix only appends selected keys.
proof fn lemma_keys_upto_mono(v: StateView, i: int, n: int)
    requires
        0 <= i <= n,
    ensures
        v.keys_upto(i).len() <= v.keys_upto(n).len(),
    decreases n - i,
{
    if i < n {
        lemma_keys_upto_mono(v, i + 1, n);
    }
}

} // verus!
