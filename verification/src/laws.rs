//! Engine-wide laws, proved over the abstract state.
//!
//! Each law is stated against the same spec functions the public
//! operations' contracts use, so it applies to every state those
//! operations can produce.

use vstd::prelude::*;

use crate::components::SelectionComponent;
use crate::geometry::{
    lemma_merge_opt_swap, lemma_scale_aabb_roundtrip, merge_opt, scale_exact, Aabb, Vector2,
};
use crate::state::{
    lemma_bounds_upto_agree, lemma_bounds_upto_none, lemma_count_upto_agree, lemma_count_upto_zero,
    lemma_keys_upto_len, StateView, StrokeKey,
};
use crate::strokestyle::StrokeView;
use crate::transform::spec_duplication_offset;

verus! {

/// Selecting entity `k` extends the partial bounds union by `k`'s bounds,
/// for every prefix reaching past `k`.
proof fn lemma_bounds_upto_select(v: StateView, v2: StateView, k: int, n: int)
    requires
        v.selection.len() == v.strokes.len(),
        0 <= k < v.strokes.len(),
        k < n <= v.strokes.len(),
        !v.in_bounds_set(k),
        !v.is_trashed(k),
        v2 == (StateView {
            selection: v.selection.update(k, Some(SelectionComponent { selected: true })),
            ..v
        }),
    ensures
        v2.bounds_upto(n) == Some(merge_opt(v.bounds_upto(n), v.strokes[k].bounds)),
    decreases n,
{
    assert forall|i: int| 0 <= i < v.selection.len() && i != k implies #[trigger] v2.selection[i]
        == v.selection[i] by {}
    if n - 1 == k {
        lemma_bounds_upto_agree(v, v2, k);
        assert(v2.in_bounds_set(k));
    } else {
        lemma_bounds_upto_select(v, v2, k, n - 1);
        assert(v2.in_bounds_set(n - 1) == v.in_bounds_set(n - 1));
        if v.in_bounds_set(n - 1) {
            lemma_merge_opt_swap(
                v.bounds_upto(n - 1),
                v.strokes[k].bounds,
                v.strokes[n - 1].bounds,
            );
        }
    }
}

/// Selecting a previously unselected, untrashed entity makes the
/// recomputed aggregate bounds the union of the prior aggregate bounds with
/// that entity's bounds.
pub proof fn lemma_select_extends_bounds(v: StateView, k: int)
    requires
        v.wf(),
        v.bounds_consistent(),
        0 <= k < v.strokes.len(),
        v.selection[k] is Some,
        !v.is_selected(k),
        !v.is_trashed(k),
    ensures
        (StateView {
            selection: v.selection.update(k, Some(SelectionComponent { selected: true })),
            ..v
        }).spec_gen_bounds() == Some(merge_opt(v.selection_bounds, v.strokes[k].bounds)),
{
    let v2 = StateView {
        selection: v.selection.update(k, Some(SelectionComponent { selected: true })),
        ..v
    };
    lemma_bounds_upto_select(v, v2, k, v.strokes.len() as int);
}

/// A state with no selected entity has no selection keys, a zero count and
/// empty recomputed aggregate bounds.
pub proof fn lemma_empty_selection(v: StateView)
    requires
        v.strokes.len() <= usize::MAX,
        forall|i: int| !(#[trigger] v.is_selected(i)),
    ensures
        v.spec_selection_keys() =~= Seq::<StrokeKey>::empty(),
        v.spec_selection_len() == 0,
        v.spec_gen_bounds() is None,
{
    lemma_count_upto_zero(v, v.strokes.len() as int);
    lemma_keys_upto_len(v, v.strokes.len() as int);
    lemma_bounds_upto_none(v, v.strokes.len() as int);
}

/// Scanning a state that was itself just produced by a scan with the same
/// selector and viewport changes nothing, so the second selector update
/// reports no change.
pub proof fn lemma_selector_update_idempotent(
    v: StateView,
    selector: Option<Aabb>,
    viewport: Option<Aabb>,
)
    requires
        v.wf(),
    ensures
        v.spec_update_selection(selector, viewport).0.spec_update_selection(
            selector,
            viewport,
        ).1 == false,
{
    match selector {
        None => {},
        Some(sel) => {
            let v1 = v.spec_update_selection(selector, viewport).0;
            let s1 = v.scanned(sel, viewport);
            assert(v1.strokes == v.strokes);
            assert(v1.render == v.render);
            assert(v1.trash == v.trash);
            assert(v1.selection == s1.selection);
            let s2 = v1.scanned(sel, viewport);
            assert forall|j: int| 0 <= j < v1.strokes.len() implies #[trigger] s2.selection[j]
                == v1.selection[j] by {
                assert(v1.scan_skips(j, viewport) == v.scan_skips(j, viewport));
                if !v1.scan_skips(j, viewport) {
                    assert(v1.selection[j] == v.scanned_selection(j, sel, viewport));
                }
            }
            assert(s2.selection =~= v1.selection);
            lemma_count_upto_agree(s2, v1, v1.strokes.len() as int);
        },
    }
}

/// A scanned stroke whose bounds the selector fully contains is selected,
/// whatever its hitbox holds.
pub proof fn lemma_containment_selects(v: StateView, sel: Aabb, viewport: Option<Aabb>, k: int)
    requires
        v.wf(),
        0 <= k < v.strokes.len(),
        !v.scan_skips(k, viewport),
        v.selection[k] is Some,
        sel.spec_contains(v.strokes[k].bounds),
    ensures
        v.spec_update_selection(Some(sel), viewport).0.is_selected(k),
{
    let v1 = v.spec_update_selection(Some(sel), viewport).0;
    assert(v1.selection[k] == v.scanned_selection(k, sel, viewport));
}

/// A scanned free-form stroke that intersects the selector without bounds
/// containment, and with at least one hitbox sub-box not fully contained,
/// is never selected.
pub proof fn lemma_partial_hitbox_never_selects(
    v: StateView,
    sel: Aabb,
    viewport: Option<Aabb>,
    k: int,
    j: int,
)
    requires
        v.wf(),
        0 <= k < v.strokes.len(),
        !v.scan_skips(k, viewport),
        crate::strokestyle::kind_has_hitbox(v.strokes[k].kind),
        sel.spec_intersects(v.strokes[k].bounds),
        !sel.spec_contains(v.strokes[k].bounds),
        0 <= j < v.strokes[k].hitbox.len(),
        !sel.spec_contains(v.strokes[k].hitbox[j]),
    ensures
        !v.spec_update_selection(Some(sel), viewport).0.is_selected(k),
{
    let v1 = v.spec_update_selection(Some(sel), viewport).0;
    assert(v1.selection[k] == v.scanned_selection(k, sel, viewport));
    assert(!crate::strokestyle::stroke_hit(v.strokes[k], sel));
}

/// Resizing the selection to new bounds and then back to the old aggregate
/// bounds restores every selected stroke's bounds, provided both resizes
/// stay within the coordinate limits and the forward rescaling is exact.
pub proof fn lemma_resize_roundtrip(v: StateView, nb: Aabb)
    requires
        v.wf(),
        v.selection_bounds matches Some(ob) && ob.spec_width() > 0 && ob.spec_height() > 0,
        nb.spec_width() > 0,
        nb.spec_height() > 0,
        v.can_resize(nb),
        v.spec_resize_selection(nb).can_resize(v.selection_bounds->Some_0),
        forall|i: int|
            v.is_selected(i) ==> scale_exact(
                (#[trigger] v.strokes[i]).bounds,
                v.selection_bounds->Some_0,
                nb,
            ),
    ensures
        ({
            let ob = v.selection_bounds->Some_0;
            let v2 = v.spec_resize_selection(nb).spec_resize_selection(ob);
            &&& v2.selection_bounds == Some(ob)
            &&& v2.strokes.len() == v.strokes.len()
            &&& forall|i: int|
                v.is_selected(i) ==> (#[trigger] v2.strokes[i]).bounds == v.strokes[i].bounds
            &&& forall|i: int|
                0 <= i < v.strokes.len() && !v.is_selected(i) ==> #[trigger] v2.strokes[i]
                    == v.strokes[i]
        }),
{
    let ob = v.selection_bounds->Some_0;
    let v1 = v.spec_resize_selection(nb);
    let v2 = v1.spec_resize_selection(ob);
    assert(v1.selection_bounds == Some(nb));
    assert(v1.selection == v.selection);
    assert forall|i: int| v.is_selected(i) implies (#[trigger] v2.strokes[i]).bounds
        == v.strokes[i].bounds by {
        assert(v1.is_selected(i) == v.is_selected(i));
        let b = v.strokes[i].bounds;
        assert(v1.strokes[i] == v.strokes[i].spec_resize_in(ob, nb));
        assert(v1.strokes[i].bounds == crate::geometry::spec_scale_aabb(b, ob, nb));
        assert(v2.strokes[i].bounds == crate::geometry::spec_scale_aabb(
            v1.strokes[i].bounds,
            nb,
            ob,
        ));
        lemma_scale_aabb_roundtrip(b, ob, nb);
    }
}

/// Translating a stroke twice equals translating it once by the combined
/// offset.
proof fn lemma_translate_stroke_composes(s: StrokeView, a: Vector2, b: Vector2)
    requires
        s.wf(),
        a.wf(),
        b.wf(),
    ensures
        s.spec_translate(a).spec_translate(b) =~= s.spec_translate(a.spec_add(b)),
{
    let lhs = s.spec_translate(a).spec_translate(b);
    let rhs = s.spec_translate(a.spec_add(b));
    assert(lhs.bounds == rhs.bounds);
    assert forall|i: int| 0 <= i < s.hitbox.len() implies lhs.hitbox[i] == rhs.hitbox[i] by {
        assert(s.hitbox[i].wf());
        assert(lhs.hitbox[i] == s.hitbox[i].spec_translate(a).spec_translate(b));
        assert(rhs.hitbox[i] == s.hitbox[i].spec_translate(a.spec_add(b)));
    }
    assert(lhs.hitbox =~= rhs.hitbox);
}

/// Translating the selection by `a` and then by `b` yields the same state
/// as one translation by `a + b`.
pub proof fn lemma_translate_composes(v: StateView, a: Vector2, b: Vector2)
    requires
        v.wf(),
        v.can_translate(a),
        v.spec_translate_selection(a).can_translate(b),
    ensures
        v.spec_translate_selection(a).spec_translate_selection(b) =~~= v.spec_translate_selection(
            a.spec_add(b),
        ),
{
    let v1 = v.spec_translate_selection(a);
    let lhs = v1.spec_translate_selection(b);
    let rhs = v.spec_translate_selection(a.spec_add(b));
    assert forall|i: int| 0 <= i < v.strokes.len() implies lhs.strokes[i] =~= rhs.strokes[i] by {
        assert(v1.is_selected(i) == v.is_selected(i));
        if v.is_selected(i) {
            assert(v1.strokes[i] == v.strokes[i].spec_translate(a));
            lemma_translate_stroke_composes(v.strokes[i], a, b);
        } else {
            assert(lhs.strokes[i] == v.strokes[i]);
        }
    }
    assert(lhs.strokes =~~= rhs.strokes);
    assert(lhs.selection_bounds == rhs.selection_bounds);
    assert(lhs =~~= rhs);
}

/// Duplicating a selection of size `k` appends exactly `k` fresh selected
/// entities whose bounds are the originals' shifted by the fixed offset,
/// and deselects the originals.
pub proof fn lemma_duplicate_effects(v: StateView)
    requires
        v.wf(),
        v.can_duplicate(),
    ensures
        ({
            let v2 = v.spec_duplicate_selection();
            let ks = v.spec_selection_keys();
            let n = v.strokes.len() as int;
            &&& v2.strokes.len() == n + ks.len()
            &&& forall|j: int| 0 <= j < n ==> !(#[trigger] v2.is_selected(j))
            &&& forall|d: int| 0 <= d < ks.len() ==> #[trigger] v2.is_selected(n + d)
            &&& forall|d: int|
                0 <= d < ks.len() ==> (#[trigger] v2.strokes[n + d]).bounds == v.strokes[ks[d] as int].bounds.spec_translate(spec_duplication_offset())
        }),
{
    let v2 = v.spec_duplicate_selection();
    let ks = v.spec_selection_keys();
    let n = v.strokes.len() as int;
    crate::state::lemma_count_upto_bounds(v, n);
    lemma_keys_upto_len(v, n);
    assert(v2.strokes.len() == n + ks.len());
    assert forall|j: int| 0 <= j < n implies !(#[trigger] v2.is_selected(j)) by {
        assert(v2.selection[j] == v.cleared_selection()[j]);
    }
    assert forall|d: int| 0 <= d < ks.len() implies #[trigger] v2.is_selected(n + d) by {
        assert(v2.selection[n + d] == Some(SelectionComponent { selected: true }));
    }
    assert forall|d: int| 0 <= d < ks.len() implies (#[trigger] v2.strokes[n + d]).bounds
        == v.strokes[ks[d] as int].bounds.spec_translate(spec_duplication_offset()) by {
        assert(v2.strokes[n + d] == v.dup_strokes()[d]);
        assert(v.dup_strokes()[d] == v.strokes[ks[d] as int].spec_translate(
            spec_duplication_offset(),
        ));
    }
}

} // verus!
