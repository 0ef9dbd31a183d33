//! The strokes state: registry plus sparse component stores.
//!
//! One container owns the stroke registry and the per-entity component maps.
//! Entities are stable keys into the registry; a missing component entry
//! means the entity does not support that capability. The container also
//! caches the aggregate selection bounds: the union of the bounds of every
//! stroke that is selected and not trashed.

use vstd::pervasive::VecAdditionalExecFns;
use vstd::prelude::*;

use crate::components::{ChronoComponent, RenderComponent, SelectionComponent, TrashComponent};
use crate::geometry::{lemma_merge_opt_wf, merge_opt, Aabb, Vector2};
use crate::strokestyle::{stroke_hit, StrokeStyle, StrokeView};

verus! {

/// A stable handle to one stroke entity in the registry.
pub type StrokeKey = usize;

/// The abstract contents of a strokes state.
#[verifier::ext_equal]
pub struct StateView {
    pub strokes: Seq<StrokeView>,
    pub selection: Seq<Option<SelectionComponent>>,
    pub render: Seq<Option<RenderComponent>>,
    pub trash: Seq<Option<TrashComponent>>,
    pub chrono: Seq<Option<ChronoComponent>>,
    pub selection_bounds: Option<Aabb>,
    pub chrono_counter: u32,
}

impl StateView {
    /// Structural well-formedness: the component stores cover exactly the
    /// registry's entities, and every stroke and the cached bounds are
    /// geometrically well-formed.
    pub open spec fn wf(self) -> bool {
        &&& self.selection.len() == self.strokes.len()
        &&& self.render.len() == self.strokes.len()
        &&& self.trash.len() == self.strokes.len()
        &&& self.chrono.len() == self.strokes.len()
        &&& forall|i: int| 0 <= i < self.strokes.len() ==> (#[trigger] self.strokes[i]).wf()
        &&& match self.selection_bounds {
            Some(b) => b.wf(),
            None => true,
        }
    }

    /// Entity `i` is selected.
    pub open spec fn is_selected(self, i: int) -> bool {
        &&& 0 <= i < self.strokes.len()
        &&& match self.selection[i] {
            Some(c) => c.selected,
            None => false,
        }
    }

    /// Entity `i` is trashed.
    pub open spec fn is_trashed(self, i: int) -> bool {
        &&& 0 <= i < self.strokes.len()
        &&& match self.trash[i] {
            Some(c) => c.trashed,
            None => false,
        }
    }

    /// Entity `i` contributes to the aggregate selection bounds.
    pub open spec fn in_bounds_set(self, i: int) -> bool {
        self.is_selected(i) && !self.is_trashed(i)
    }

    /// The union of the bounds of contributing entities among the first `n`.
    pub open spec fn bounds_upto(self, n: int) -> Option<Aabb>
        decreases n,
    {
        if n <= 0 {
            None
        } else {
            let rest = self.bounds_upto(n - 1);
            if self.in_bounds_set(n - 1) {
                Some(merge_opt(rest, self.strokes[n - 1].bounds))
            } else {
                rest
            }
        }
    }

    /// The recomputed aggregate selection bounds: `None` exactly when no
    /// entity is selected and untrashed.
    pub open spec fn spec_gen_bounds(self) -> Option<Aabb> {
        self.bounds_upto(self.strokes.len() as int)
    }

    /// The cached aggregate bounds agree with a full recomputation.
    pub open spec fn bounds_consistent(self) -> bool {
        self.selection_bounds == self.spec_gen_bounds()
    }

    /// How many of the first `n` entities are selected.
    pub open spec fn count_upto(self, n: int) -> int
        decreases n,
    {
        if n <= 0 {
            0
        } else {
            self.count_upto(n - 1) + if self.is_selected(n - 1) {
                1int
            } else {
                0int
            }
        }
    }

    /// The number of selected entities.
    pub open spec fn spec_selection_len(self) -> int {
        self.count_upto(self.strokes.len() as int)
    }

    /// The selected entities' keys, in increasing order.
    pub open spec fn keys_upto(self, n: int) -> Seq<StrokeKey>
        decreases n,
    {
        if n <= 0 {
            Seq::empty()
        } else {
            let rest = self.keys_upto(n - 1);
            if self.is_selected(n - 1) {
                rest.push((n - 1) as StrokeKey)
            } else {
                rest
            }
        }
    }

    /// All selected entities' keys, in increasing order.
    pub open spec fn spec_selection_keys(self) -> Seq<StrokeKey> {
        self.keys_upto(self.strokes.len() as int)
    }
}

/// Two views that agree entity-by-entity on the first `n` entries (and on
/// the entries' existence) compute the same partial bounds union.
pub proof fn lemma_bounds_upto_agree(a: StateView, b: StateView, n: int)
    requires
        0 <= n <= a.strokes.len(),
        n <= b.strokes.len(),
        forall|i: int| 0 <= i < n ==> #[trigger] a.strokes[i].bounds == b.strokes[i].bounds,
        forall|i: int| 0 <= i < n ==> #[trigger] a.selection[i] == b.selection[i],
        forall|i: int| 0 <= i < n ==> #[trigger] a.trash[i] == b.trash[i],
    ensures
        a.bounds_upto(n) == b.bounds_upto(n),
    decreases n,
{
    if n > 0 {
        lemma_bounds_upto_agree(a, b, n - 1);
    }
}

/// Same, for the selected-entity count.
pub proof fn lemma_count_upto_agree(a: StateView, b: StateView, n: int)
    requires
        0 <= n <= a.strokes.len(),
        n <= b.strokes.len(),
        forall|i: int| 0 <= i < n ==> #[trigger] a.selection[i] == b.selection[i],
    ensures
        a.count_upto(n) == b.count_upto(n),
    decreases n,
{
    if n > 0 {
        lemma_count_upto_agree(a, b, n - 1);
    }
}

/// A partial bounds union over well-formed strokes is well-formed.
pub proof fn lemma_bounds_upto_wf(v: StateView, n: int)
    requires
        v.wf(),
        0 <= n <= v.strokes.len(),
    ensures
        v.bounds_upto(n) matches Some(b) ==> b.wf(),
    decreases n,
{
    if n > 0 {
        lemma_bounds_upto_wf(v, n - 1);
        if v.in_bounds_set(n - 1) {
            lemma_merge_opt_wf(v.bounds_upto(n - 1), v.strokes[n - 1].bounds);
        }
    }
}

/// When no entity among the first `n` contributes, the partial union is
/// empty.
pub proof fn lemma_bounds_upto_none(v: StateView, n: int)
    requires
        0 <= n,
        forall|i: int| 0 <= i < n ==> !(#[trigger] v.in_bounds_set(i)),
    ensures
        v.bounds_upto(n) is None,
    decreases n,
{
    if n > 0 {
        lemma_bounds_upto_none(v, n - 1);
    }
}

/// The count of selected entities is zero exactly when none is selected.
pub proof fn lemma_count_upto_zero(v: StateView, n: int)
    requires
        0 <= n,
        forall|i: int| 0 <= i < n ==> !(#[trigger] v.is_selected(i)),
    ensures
        v.count_upto(n) == 0,
    decreases n,
{
    if n > 0 {
        lemma_count_upto_zero(v, n - 1);
    }
}

/// The selected-entity count is never negative and never exceeds `n`.
pub proof fn lemma_count_upto_bounds(v: StateView, n: int)
    requires
        0 <= n,
    ensures
        0 <= v.count_upto(n) <= n,
    decreases n,
{
    if n > 0 {
        lemma_count_upto_bounds(v, n - 1);
    }
}

/// The selected-key sequence has exactly as many entries as the count.
pub proof fn lemma_keys_upto_len(v: StateView, n: int)
    requires
        0 <= n <= usize::MAX,
    ensures
        v.keys_upto(n).len() == v.count_upto(n),
        forall|j: int|
            0 <= j < v.keys_upto(n).len() ==> v.is_selected(#[trigger] v.keys_upto(n)[j] as int)
                && v.keys_upto(n)[j] < n,
    decreases n,
{
    if n > 0 {
        lemma_keys_upto_len(v, n - 1);
        let rest = v.keys_upto(n - 1);
        let whole = v.keys_upto(n);
        assert forall|j: int|
            0 <= j < whole.len() implies v.is_selected(#[trigger] whole[j] as int) && whole[j]
            < n by {
            if j < rest.len() {
                assert(whole[j] == rest[j]);
            } else {
                assert(v.is_selected(n - 1));
                assert(whole[j] == (n - 1) as StrokeKey);
            }
        }
    }
}

/// The selection-and-transform engine's state: the stroke registry, the
/// sparse component stores, and the cached aggregate selection bounds.
pub struct StrokesState {
    strokes: Vec<StrokeStyle>,
    selection_components: Vec<Option<SelectionComponent>>,
    render_components: Vec<Option<RenderComponent>>,
    trash_components: Vec<Option<TrashComponent>>,
    chrono_components: Vec<Option<ChronoComponent>>,
    selection_bounds: Option<Aabb>,
    chrono_counter: u32,
}

impl View for StrokesState {
    type V = StateView;

    closed spec fn view(&self) -> StateView {
        StateView {
            strokes: self.strokes@.map_values(|s: StrokeStyle| s@),
            selection: self.selection_components@,
            render: self.render_components@,
            trash: self.trash_components@,
            chrono: self.chrono_components@,
            selection_bounds: self.selection_bounds,
            chrono_counter: self.chrono_counter,
        }
    }
}

impl StrokesState {
    /// An empty state: no entities, no cached bounds.
    pub fn new() -> (r: StrokesState)
        ensures
            r@.strokes.len() == 0,
            r@.selection_bounds is None,
            r@.chrono_counter == 0,
            r@.wf(),
            r@.bounds_consistent(),
    {
        StrokesState {
            strokes: Vec::new(),
            selection_components: Vec::new(),
            render_components: Vec::new(),
            trash_components: Vec::new(),
            chrono_components: Vec::new(),
            selection_bounds: None,
            chrono_counter: 0,
        }
    }

    /// The number of entities in the registry.
    pub fn strokes_len(&self) -> (r: usize)
        ensures
            r == self@.strokes.len(),
    {
        self.strokes.len()
    }

    /// The cached aggregate selection bounds.
    pub fn selection_bounds(&self) -> (r: Option<Aabb>)
        ensures
            r == self@.selection_bounds,
    {
        self.selection_bounds
    }

    /// The bounds of the stroke behind `key`, or `None` for an invalid key.
    pub fn stroke_bounds(&self, key: StrokeKey) -> (r: Option<Aabb>)
        ensures
            match r {
                Some(b) => key < self@.strokes.len() && b == self@.strokes[key as int].bounds,
                None => key >= self@.strokes.len(),
            },
    {
        if key < self.strokes.len() {
            Some(self.strokes[key].bounds())
        } else {
            None
        }
    }

    /// The selection component of entity `i`.
    pub fn selection_component(&self, i: StrokeKey) -> (r: Option<SelectionComponent>)
        requires
            self@.wf(),
            i < self@.strokes.len(),
        ensures
            r == self@.selection[i as int],
    {
        self.selection_components[i]
    }

    /// The render component of entity `i`.
    pub fn render_component(&self, i: StrokeKey) -> (r: Option<RenderComponent>)
        requires
            self@.wf(),
            i < self@.strokes.len(),
        ensures
            r == self@.render[i as int],
    {
        self.render_components[i]
    }

    /// The trash component of entity `i`.
    pub fn trash_component(&self, i: StrokeKey) -> (r: Option<TrashComponent>)
        requires
            self@.wf(),
            i < self@.strokes.len(),
        ensures
            r == self@.trash[i as int],
    {
        self.trash_components[i]
    }

    /// The chrono component of entity `i`.
    pub fn chrono_component(&self, i: StrokeKey) -> (r: Option<ChronoComponent>)
        requires
            self@.wf(),
            i < self@.strokes.len(),
        ensures
            r == self@.chrono[i as int],
    {
        self.chrono_components[i]
    }

    /// Overwrites entity `i`'s selection entry without touching the cached
    /// bounds; the selection engine refreshes them at the end of a batch.
    pub(crate) fn set_selection_component(&mut self, i: StrokeKey, c: Option<SelectionComponent>)
        requires
            old(self)@.wf(),
            i < old(self)@.strokes.len(),
        ensures
            final(self)@ == (StateView {
                selection: old(self)@.selection.update(i as int, c),
                ..old(self)@
            }),
            final(self)@.wf(),
    {
        self.selection_components.set(i, c);
    }

    /// Empties the cached aggregate bounds.
    pub(crate) fn clear_selection_bounds(&mut self)
        requires
            old(self)@.wf(),
        ensures
            final(self)@ == (StateView { selection_bounds: None, ..old(self)@ }),
            final(self)@.wf(),
    {
        self.selection_bounds = None;
    }

    /// The bounds of the stroke behind entity `i`.
    pub fn stroke_bounds_at(&self, i: StrokeKey) -> (r: Aabb)
        requires
            i < self@.strokes.len(),
        ensures
            r == self@.strokes[i as int].bounds,
    {
        self.strokes[i].bounds()
    }

    /// The markup fragment of the stroke behind entity `i`, shifted by
    /// `off`; fails exactly when the stroke's geometry is malformed.
    pub fn stroke_svg_at(&self, i: StrokeKey, off: Vector2) -> (r: Result<
        String,
        crate::compose::SvgError,
    >)
        requires
            i < self@.strokes.len(),
            off.wf(),
        ensures
            match r {
                Ok(s) => self@.strokes[i as int].bounds.wf() && s@
                    == crate::compose::spec_rect_fragment(self@.strokes[i as int].bounds, off),
                Err(e) => !self@.strokes[i as int].bounds.wf() && e
                    == crate::compose::SvgError::MalformedGeometry,
            },
    {
        self.strokes[i].gen_svg_data(off)
    }

    /// Applies the selector containment policy to the stroke behind entity
    /// `i`.
    pub fn stroke_hit_at(&self, i: StrokeKey, sel: &Aabb) -> (r: bool)
        requires
            i < self@.strokes.len(),
        ensures
            r == stroke_hit(self@.strokes[i as int], *sel),
    {
        let stroke = &self.strokes[i];
        let b = stroke.bounds();
        if sel.contains(&b) {
            true
        } else if stroke.has_hitbox() && sel.intersects(&b) {
            stroke.hitbox_all_contained(sel)
        } else {
            false
        }
    }

    /// Shifts the stroke behind entity `i` rigidly by `off`.
    pub(crate) fn translate_stroke_at(&mut self, i: StrokeKey, off: crate::geometry::Vector2)
        requires
            old(self)@.wf(),
            i < old(self)@.strokes.len(),
            off.wf(),
        ensures
            final(self)@ == (StateView {
                strokes: old(self)@.strokes.update(
                    i as int,
                    old(self)@.strokes[i as int].spec_translate(off),
                ),
                ..old(self)@
            }),
    {
        let ghost prev = self@;
        let t = self.strokes[i].translated(off);
        self.strokes.set(i, t);
        proof {
            assert(self@.strokes =~= prev.strokes.update(
                i as int,
                prev.strokes[i as int].spec_translate(off),
            ));
        }
    }

    /// Re-fits the stroke behind entity `i` by the affine transform carrying
    /// the aggregate bounds `ob` onto the new aggregate bounds `nb`.
    pub(crate) fn resize_stroke_at(&mut self, i: StrokeKey, ob: &Aabb, nb: &Aabb)
        requires
            old(self)@.wf(),
            i < old(self)@.strokes.len(),
            ob.wf(),
            nb.wf(),
            old(self)@.strokes[i as int].spec_resize_in(*ob, *nb).wf(),
        ensures
            final(self)@ == (StateView {
                strokes: old(self)@.strokes.update(
                    i as int,
                    old(self)@.strokes[i as int].spec_resize_in(*ob, *nb),
                ),
                ..old(self)@
            }),
    {
        let ghost prev = self@;
        let b = self.strokes[i].bounds();
        let newb = crate::geometry::scale_aabb(&b, ob, nb);
        proof {
            assert(newb == prev.strokes[i as int].spec_resize_in(*ob, *nb).bounds);
        }
        let t = self.strokes[i].resized(newb);
        self.strokes.set(i, t);
        proof {
            assert(self@.strokes =~= prev.strokes.update(
                i as int,
                prev.strokes[i as int].spec_resize_in(*ob, *nb),
            ));
        }
    }

    /// A clone of the stroke behind entity `i`, shifted by `(dx, dy)`.
    pub(crate) fn stroke_clone_translated(&self, i: StrokeKey, dx: i64, dy: i64) -> (r: StrokeStyle)
        requires
            self@.wf(),
            i < self@.strokes.len(),
            (Vector2 { x: dx, y: dy }).wf(),
        ensures
            r@ == self@.strokes[i as int].spec_translate(Vector2 { x: dx, y: dy }),
    {
        self.strokes[i].translated(Vector2 { x: dx, y: dy })
    }

    /// Overwrites the cached aggregate bounds.
    pub(crate) fn set_selection_bounds_opt(&mut self, b: Option<Aabb>)
        requires
            old(self)@.wf(),
            b matches Some(a) ==> a.wf(),
        ensures
            final(self)@ == (StateView { selection_bounds: b, ..old(self)@ }),
            final(self)@.wf(),
    {
        self.selection_bounds = b;
    }

    /// Appends a duplicated entity: the stroke, a selected selection
    /// component, default render and trash components, and no chrono
    /// component.
    pub(crate) fn push_dup_entity(&mut self, stroke: StrokeStyle)
        requires
            old(self)@.wf(),
            stroke@.wf(),
            old(self)@.strokes.len() < usize::MAX,
        ensures
            final(self)@ == (StateView {
                strokes: old(self)@.strokes.push(stroke@),
                selection: old(self)@.selection.push(Some(SelectionComponent { selected: true })),
                render: old(self)@.render.push(Some(RenderComponent { render: true })),
                trash: old(self)@.trash.push(Some(TrashComponent { trashed: false })),
                chrono: old(self)@.chrono.push(None::<ChronoComponent>),
                ..old(self)@
            }),
            final(self)@.wf(),
    {
        let ghost prev = self@;
        self.strokes.push(stroke);
        self.selection_components.push(Some(SelectionComponent { selected: true }));
        self.render_components.push(Some(RenderComponent { render: true }));
        self.trash_components.push(Some(TrashComponent { trashed: false }));
        self.chrono_components.push(None);
        proof {
            assert(self@.strokes =~= prev.strokes.push(stroke@));
        }
    }

    /// Creates a fresh entity for `stroke` with default components:
    /// unselected, visible, untrashed, stamped with the next creation
    /// ordinal. Returns the new entity's key.
    pub fn insert_stroke(&mut self, stroke: StrokeStyle) -> (key: StrokeKey)
        requires
            old(self)@.wf(),
            stroke@.wf(),
            old(self)@.strokes.len() < usize::MAX,
            old(self)@.chrono_counter < u32::MAX,
        ensures
            key == old(self)@.strokes.len(),
            final(self)@.strokes == old(self)@.strokes.push(stroke@),
            final(self)@.selection == old(self)@.selection.push(
                Some(SelectionComponent { selected: false }),
            ),
            final(self)@.render == old(self)@.render.push(Some(RenderComponent { render: true })),
            final(self)@.trash == old(self)@.trash.push(Some(TrashComponent { trashed: false })),
            final(self)@.chrono == old(self)@.chrono.push(
                Some(ChronoComponent { t: old(self)@.chrono_counter }),
            ),
            final(self)@.selection_bounds == old(self)@.selection_bounds,
            final(self)@.chrono_counter == old(self)@.chrono_counter + 1,
            final(self)@.wf(),
            old(self)@.bounds_consistent() ==> final(self)@.bounds_consistent(),
    {
        let key = self.strokes.len();
        let ghost prev = self@;
        self.strokes.push(stroke);
        self.selection_components.push(Some(SelectionComponent { selected: false }));
        self.render_components.push(Some(RenderComponent { render: true }));
        self.trash_components.push(Some(TrashComponent { trashed: false }));
        self.chrono_components.push(Some(ChronoComponent { t: self.chrono_counter }));
        self.chrono_counter = self.chrono_counter + 1;
        proof {
            assert(self@.strokes =~= prev.strokes.push(stroke@));
            lemma_bounds_upto_agree(self@, prev, prev.strokes.len() as int);
            assert(self@.spec_gen_bounds() == prev.spec_gen_bounds());
        }
        key
    }

    /// Creates a fresh entity that does not support selection: it carries
    /// render, trash and chrono components, but no selection component.
    pub fn insert_stroke_without_selection(&mut self, stroke: StrokeStyle) -> (key: StrokeKey)
        requires
            old(self)@.wf(),
            stroke@.wf(),
            old(self)@.strokes.len() < usize::MAX,
            old(self)@.chrono_counter < u32::MAX,
        ensures
            key == old(self)@.strokes.len(),
            final(self)@.strokes == old(self)@.strokes.push(stroke@),
            final(self)@.selection == old(self)@.selection.push(None::<SelectionComponent>),
            final(self)@.render == old(self)@.render.push(Some(RenderComponent { render: true })),
            final(self)@.trash == old(self)@.trash.push(Some(TrashComponent { trashed: false })),
            final(self)@.chrono == old(self)@.chrono.push(
                Some(ChronoComponent { t: old(self)@.chrono_counter }),
            ),
            final(self)@.selection_bounds == old(self)@.selection_bounds,
            final(self)@.chrono_counter == old(self)@.chrono_counter + 1,
            final(self)@.wf(),
            old(self)@.bounds_consistent() ==> final(self)@.bounds_consistent(),
    {
        let key = self.strokes.len();
        let ghost prev = self@;
        self.strokes.push(stroke);
        self.selection_components.push(None);
        self.render_components.push(Some(RenderComponent { render: true }));
        self.trash_components.push(Some(TrashComponent { trashed: false }));
        self.chrono_components.push(Some(ChronoComponent { t: self.chrono_counter }));
        self.chrono_counter = self.chrono_counter + 1;
        proof {
            assert(self@.strokes =~= prev.strokes.push(stroke@));
            lemma_bounds_upto_agree(self@, prev, prev.strokes.len() as int);
            assert(self@.spec_gen_bounds() == prev.spec_gen_bounds());
        }
        key
    }

    /// Sets the trashed flag of `key`, then refreshes the aggregate bounds;
    /// a no-op when the entity does not support trashing.
    pub fn set_trashed(&mut self, key: StrokeKey, trashed: bool)
        requires
            old(self)@.wf(),
        ensures
            final(self)@.wf(),
            if key < old(self)@.strokes.len() && old(self)@.trash[key as int] is Some {
                &&& final(self)@.trash == old(self)@.trash.update(
                    key as int,
                    Some(TrashComponent { trashed }),
                )
                &&& final(self)@.strokes == old(self)@.strokes
                &&& final(self)@.selection == old(self)@.selection
                &&& final(self)@.render == old(self)@.render
                &&& final(self)@.chrono == old(self)@.chrono
                &&& final(self)@.chrono_counter == old(self)@.chrono_counter
                &&& final(self)@.bounds_consistent()
            } else {
                final(self)@ == old(self)@
            },
    {
        if key < self.trash_components.len() {
            let c = self.trash_components[key];
            if c.is_some() {
                self.trash_components.set(key, Some(TrashComponent { trashed }));
                self.update_selection_bounds();
                return ;
            }
        }
    }

    /// Recomputes the union of the bounds of every selected, untrashed
    /// stroke.
    fn compute_selection_bounds(&self) -> (r: Option<Aabb>)
        requires
            self@.wf(),
        ensures
            r == self@.spec_gen_bounds(),
    {
        let mut acc: Option<Aabb> = None;
        let mut i: usize = 0;
        let n = self.strokes.len();
        while i < n
            invariant
                self@.wf(),
                n == self@.strokes.len(),
                i <= n,
                acc == self@.bounds_upto(i as int),
            decreases n - i,
        {
            let sel = self.selection_components[i];
            let tr = self.trash_components[i];
            let selected = match sel {
                Some(c) => c.selected,
                None => false,
            };
            let trashed = match tr {
                Some(c) => c.trashed,
                None => false,
            };
            if selected && !trashed {
                let b = self.strokes[i].bounds();
                acc = match acc {
                    Some(a) => Some(a.merge(&b)),
                    None => Some(b),
                };
            }
            i = i + 1;
        }
        acc
    }

    /// Refreshes the cached aggregate selection bounds by full recompute.
    pub fn update_selection_bounds(&mut self)
        requires
            old(self)@.wf(),
        ensures
            final(self)@ == (StateView { selection_bounds: final(self)@.selection_bounds, ..old(self)@ }),
            final(self)@.bounds_consistent(),
            final(self)@.wf(),
    {
        proof {
            lemma_bounds_upto_wf(self@, self@.strokes.len() as int);
        }
        let ghost prev = self@;
        let b = self.compute_selection_bounds();
        self.selection_bounds = b;
        proof {
            lemma_bounds_upto_agree(self@, prev, prev.strokes.len() as int);
        }
    }

    /// Whether the entity supports selection at all.
    pub fn can_select(&self, key: StrokeKey) -> (r: bool)
        requires
            self@.wf(),
        ensures
            r == (key < self@.strokes.len() && self@.selection[key as int] is Some),
    {
        key < self.selection_components.len() && self.selection_components[key].is_some()
    }

    /// The selection flag of `key`; `None` when the entity does not support
    /// selection (a recoverable condition for callers, not an error).
    pub fn selected(&self, key: StrokeKey) -> (r: Option<bool>)
        requires
            self@.wf(),
        ensures
            match r {
                Some(s) => {
                    &&& key < self@.strokes.len()
                    &&& self@.selection[key as int] matches Some(c)
                    &&& c.selected == s
                },
                None => key >= self@.strokes.len() || self@.selection[key as int] is None,
            },
    {
        if key < self.selection_components.len() {
            match self.selection_components[key] {
                Some(c) => Some(c.selected),
                None => None,
            }
        } else {
            None
        }
    }

    /// Sets the selection flag of `key` and refreshes the aggregate bounds;
    /// a no-op when the entity does not support selection.
    pub fn set_selected(&mut self, key: StrokeKey, selected: bool)
        requires
            old(self)@.wf(),
        ensures
            final(self)@.wf(),
            if key < old(self)@.strokes.len() && old(self)@.selection[key as int] is Some {
                &&& final(self)@.selection == old(self)@.selection.update(
                    key as int,
                    Some(SelectionComponent { selected }),
                )
                &&& final(self)@.strokes == old(self)@.strokes
                &&& final(self)@.render == old(self)@.render
                &&& final(self)@.trash == old(self)@.trash
                &&& final(self)@.chrono == old(self)@.chrono
                &&& final(self)@.chrono_counter == old(self)@.chrono_counter
                &&& final(self)@.bounds_consistent()
            } else {
                final(self)@ == old(self)@
            },
    {
        if key < self.selection_components.len() {
            let c = self.selection_components[key];
            if c.is_some() {
                self.selection_components.set(key, Some(SelectionComponent { selected }));
                self.update_selection_bounds();
                return ;
            }
        }
    }

    /// The number of selected entities.
    pub fn selection_len(&self) -> (r: usize)
        requires
            self@.wf(),
        ensures
            r == self@.spec_selection_len(),
    {
        let mut count: usize = 0;
        let mut i: usize = 0;
        let n = self.selection_components.len();
        while i < n
            invariant
                self@.wf(),
                n == self@.strokes.len(),
                i <= n,
                count == self@.count_upto(i as int),
                count <= i,
            decreases n - i,
        {
            let sel = self.selection_components[i];
            match sel {
                Some(c) => {
                    if c.selected {
                        count = count + 1;
                    }
                },
                None => {},
            }
            i = i + 1;
        }
        count
    }

    /// The keys of all selected entities, in increasing key order. Trash and
    /// render state are not consulted; callers filter as needed.
    pub fn selection_keys(&self) -> (r: Vec<StrokeKey>)
        requires
            self@.wf(),
        ensures
            r@ == self@.spec_selection_keys(),
    {
        let mut r: Vec<StrokeKey> = Vec::new();
        let mut i: usize = 0;
        let n = self.selection_components.len();
        while i < n
            invariant
                self@.wf(),
                n == self@.strokes.len(),
                i <= n,
                r@ == self@.keys_upto(i as int),
            decreases n - i,
        {
            let sel = self.selection_components[i];
            match sel {
                Some(c) => {
                    if c.selected {
                        r.push(i);
                    }
                },
                None => {},
            }
            i = i + 1;
        }
        r
    }
}

} // verus!
