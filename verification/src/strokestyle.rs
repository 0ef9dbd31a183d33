//! The closed set of stroke variants the registry can hold.
//!
//! Every variant exposes an axis-aligned bounding box; the free-form kinds
//! (marker, brush) additionally expose a hitbox: a sequence of fine-grained
//! sub-boxes approximating the concave outline, used for precise hit testing.

use vstd::pervasive::VecAdditionalExecFns;
use vstd::prelude::*;

use crate::compose::{rect_fragment, spec_rect_fragment, SvgError};
use crate::geometry::{scale_aabb, spec_scale_aabb, Aabb, Vector2};

verus! {

/// The kind of a stroke, which decides its hit-testing capability.
#[derive(Clone, Copy, PartialEq, Eq, Structural, Debug)]
pub enum StrokeKind {
    Marker,
    Brush,
    Shape,
    VectorImage,
    BitmapImage,
}

/// Free-form marker stroke: bounds plus a fine-grained hitbox.
#[derive(Clone, Debug)]
pub struct MarkerStroke {
    pub bounds: Aabb,
    pub hitbox: Vec<Aabb>,
}

/// Free-form brush stroke: bounds plus a fine-grained hitbox.
#[derive(Clone, Debug)]
pub struct BrushStroke {
    pub bounds: Aabb,
    pub hitbox: Vec<Aabb>,
}

/// Geometric primitive; its bounds are its only coarse geometry.
#[derive(Clone, Copy, PartialEq, Eq, Structural, Debug)]
pub struct ShapeStroke {
    pub bounds: Aabb,
}

/// Embedded vector image.
#[derive(Clone, Copy, PartialEq, Eq, Structural, Debug)]
pub struct VectorImage {
    pub bounds: Aabb,
}

/// Embedded bitmap image.
#[derive(Clone, Copy, PartialEq, Eq, Structural, Debug)]
pub struct BitmapImage {
    pub bounds: Aabb,
}

/// A stroke entity's geometric variant.
#[derive(Clone, Debug)]
pub enum StrokeStyle {
    MarkerStroke(MarkerStroke),
    BrushStroke(BrushStroke),
    ShapeStroke(ShapeStroke),
    VectorImage(VectorImage),
    BitmapImage(BitmapImage),
}

/// The abstract geometry of a stroke: its kind, bounds and hitbox sequence.
#[verifier::ext_equal]
pub struct StrokeView {
    pub kind: StrokeKind,
    pub bounds: Aabb,
    pub hitbox: Seq<Aabb>,
}

/// Whether strokes of this kind carry a fine-grained hitbox.
pub open spec fn kind_has_hitbox(kind: StrokeKind) -> bool {
    kind == StrokeKind::Marker || kind == StrokeKind::Brush
}

/// Whether the selector region `sel` picks up the stroke `s`: full
/// containment of the bounds always selects; mere intersection selects a
/// free-form stroke only when every hitbox sub-box is fully contained, and
/// never selects a stroke without hitbox support.
pub open spec fn stroke_hit(s: StrokeView, sel: Aabb) -> bool {
    if sel.spec_contains(s.bounds) {
        true
    } else if kind_has_hitbox(s.kind) && sel.spec_intersects(s.bounds) {
        forall|i: int| 0 <= i < s.hitbox.len() ==> sel.spec_contains(#[trigger] s.hitbox[i])
    } else {
        false
    }
}

impl View for StrokeStyle {
    type V = StrokeView;

    open spec fn view(&self) -> StrokeView {
        match self {
            StrokeStyle::MarkerStroke(m) => StrokeView {
                kind: StrokeKind::Marker,
                bounds: m.bounds,
                hitbox: m.hitbox@,
            },
            StrokeStyle::BrushStroke(b) => StrokeView {
                kind: StrokeKind::Brush,
                bounds: b.bounds,
                hitbox: b.hitbox@,
            },
            StrokeStyle::ShapeStroke(s) => StrokeView {
                kind: StrokeKind::Shape,
                bounds: s.bounds,
                hitbox: Seq::empty(),
            },
            StrokeStyle::VectorImage(v) => StrokeView {
                kind: StrokeKind::VectorImage,
                bounds: v.bounds,
                hitbox: Seq::empty(),
            },
            StrokeStyle::BitmapImage(b) => StrokeView {
                kind: StrokeKind::BitmapImage,
                bounds: b.bounds,
                hitbox: Seq::empty(),
            },
        }
    }
}

impl StrokeView {
    /// Well-formed stroke geometry: ordered, bounded coordinates throughout.
    pub open spec fn wf(self) -> bool {
        &&& self.bounds.wf()
        &&& forall|i: int| 0 <= i < self.hitbox.len() ==> #[trigger] self.hitbox[i].wf()
        &&& !kind_has_hitbox(self.kind) ==> self.hitbox.len() == 0
    }

    /// The stroke shifted rigidly by `off`.
    pub open spec fn spec_translate(self, off: Vector2) -> StrokeView {
        StrokeView {
            kind: self.kind,
            bounds: self.bounds.spec_translate(off),
            hitbox: self.hitbox.map_values(|b: Aabb| b.spec_translate(off)),
        }
    }

    /// The stroke as the transform engine resizes it within a selection:
    /// its bounds are mapped by the affine transform carrying the aggregate
    /// bounds `ob` onto the new aggregate bounds `nb`, and the stroke is
    /// re-fitted to the mapped bounds.
    pub open spec fn spec_resize_in(self, ob: Aabb, nb: Aabb) -> StrokeView {
        self.spec_resize(spec_scale_aabb(self.bounds, ob, nb))
    }

    /// The stroke re-fitted to the new bounds: the bounds become `nb`, and
    /// each hitbox sub-box is carried along by the affine transform taking
    /// the old bounds onto `nb`.
    pub open spec fn spec_resize(self, nb: Aabb) -> StrokeView {
        StrokeView {
            kind: self.kind,
            bounds: nb,
            hitbox: self.hitbox.map_values(|b: Aabb| spec_scale_aabb(b, self.bounds, nb)),
        }
    }
}

/// Each box of `v` shifted by `off`.
fn translate_boxes(v: &Vec<Aabb>, off: Vector2) -> (r: Vec<Aabb>)
    requires
        off.wf(),
        forall|i: int| 0 <= i < v@.len() ==> #[trigger] v@[i].wf(),
    ensures
        r@ == v@.map_values(|b: Aabb| b.spec_translate(off)),
{
    let mut r: Vec<Aabb> = Vec::new();
    let mut i: usize = 0;
    while i < v.len()
        invariant
            off.wf(),
            forall|j: int| 0 <= j < v@.len() ==> #[trigger] v@[j].wf(),
            i <= v@.len(),
            r@.len() == i,
            forall|j: int| 0 <= j < i ==> #[trigger] r@[j] == v@[j].spec_translate(off),
        decreases v@.len() - i,
    {
        r.push(v[i].translate(off));
        i = i + 1;
    }
    proof {
        assert(r@ =~= v@.map_values(|b: Aabb| b.spec_translate(off)));
    }
    r
}

/// Each box of `v` carried by the affine transform from `from` onto `to`.
fn scale_boxes(v: &Vec<Aabb>, from: &Aabb, to: &Aabb) -> (r: Vec<Aabb>)
    requires
        from.wf(),
        to.wf(),
        forall|i: int| 0 <= i < v@.len() ==> #[trigger] v@[i].wf(),
    ensures
        r@ == v@.map_values(|b: Aabb| spec_scale_aabb(b, *from, *to)),
{
    let mut r: Vec<Aabb> = Vec::new();
    let mut i: usize = 0;
    while i < v.len()
        invariant
            from.wf(),
            to.wf(),
            forall|j: int| 0 <= j < v@.len() ==> #[trigger] v@[j].wf(),
            i <= v@.len(),
            r@.len() == i,
            forall|j: int| 0 <= j < i ==> #[trigger] r@[j] == spec_scale_aabb(v@[j], *from, *to),
        decreases v@.len() - i,
    {
        r.push(scale_aabb(&v[i], from, to));
        i = i + 1;
    }
    proof {
        assert(r@ =~= v@.map_values(|b: Aabb| spec_scale_aabb(b, *from, *to)));
    }
    r
}

impl StrokeStyle {
    /// The stroke's axis-aligned bounding box.
    pub fn bounds(&self) -> (r: Aabb)
        ensures
            r == self@.bounds,
    {
        match self {
            StrokeStyle::MarkerStroke(m) => m.bounds,
            StrokeStyle::BrushStroke(b) => b.bounds,
            StrokeStyle::ShapeStroke(s) => s.bounds,
            StrokeStyle::VectorImage(v) => v.bounds,
            StrokeStyle::BitmapImage(b) => b.bounds,
        }
    }

    /// Whether this stroke kind carries a fine-grained hitbox.
    pub fn has_hitbox(&self) -> (r: bool)
        ensures
            r == kind_has_hitbox(self@.kind),
    {
        match self {
            StrokeStyle::MarkerStroke(_) => true,
            StrokeStyle::BrushStroke(_) => true,
            _ => false,
        }
    }

    /// Whether every hitbox sub-box is fully contained in `sel`; vacuously
    /// true for a stroke without hitbox entries.
    pub fn hitbox_all_contained(&self, sel: &Aabb) -> (r: bool)
        ensures
            r == forall|i: int|
                0 <= i < self@.hitbox.len() ==> sel.spec_contains(#[trigger] self@.hitbox[i]),
    {
        match self {
            StrokeStyle::MarkerStroke(m) => {
                let r = hitbox_contained(&m.hitbox, sel);
                proof {
                    assert(self@.hitbox == m.hitbox@);
                    if r {
                        assert(forall|i: int|
                            0 <= i < self@.hitbox.len() ==> sel.spec_contains(
                                #[trigger] self@.hitbox[i],
                            )) by {
                            assert(forall|i: int|
                                0 <= i < m.hitbox@.len() ==> sel.spec_contains(
                                    #[trigger] m.hitbox@[i],
                                ));
                        };
                    }
                }
                r
            },
            StrokeStyle::BrushStroke(b) => {
                let r = hitbox_contained(&b.hitbox, sel);
                proof {
                    assert(self@.hitbox == b.hitbox@);
                    if r {
                        assert(forall|i: int|
                            0 <= i < self@.hitbox.len() ==> sel.spec_contains(
                                #[trigger] self@.hitbox[i],
                            )) by {
                            assert(forall|i: int|
                                0 <= i < b.hitbox@.len() ==> sel.spec_contains(
                                    #[trigger] b.hitbox@[i],
                                ));
                        };
                    }
                }
                r
            },
            StrokeStyle::ShapeStroke(_) => true,
            StrokeStyle::VectorImage(_) => true,
            StrokeStyle::BitmapImage(_) => true,
        }
    }

    /// The markup fragment for this stroke's geometry shifted by `off`.
    /// Fails exactly when the geometry is malformed.
    pub fn gen_svg_data(&self, off: Vector2) -> (r: Result<String, SvgError>)
        requires
            off.wf(),
        ensures
            match r {
                Ok(s) => self@.bounds.wf() && s@ == spec_rect_fragment(self@.bounds, off),
                Err(e) => !self@.bounds.wf() && e == SvgError::MalformedGeometry,
            },
    {
        let b = self.bounds();
        if b.is_wf() {
            Ok(rect_fragment(&b, off))
        } else {
            Err(SvgError::MalformedGeometry)
        }
    }

    /// A copy of this stroke shifted rigidly by `off`.
    pub fn translated(&self, off: Vector2) -> (r: StrokeStyle)
        requires
            self@.wf(),
            off.wf(),
        ensures
            r@ == self@.spec_translate(off),
    {
        let r = match self {
            StrokeStyle::MarkerStroke(m) => StrokeStyle::MarkerStroke(
                MarkerStroke { bounds: m.bounds.translate(off), hitbox: translate_boxes(&m.hitbox, off) },
            ),
            StrokeStyle::BrushStroke(b) => StrokeStyle::BrushStroke(
                BrushStroke { bounds: b.bounds.translate(off), hitbox: translate_boxes(&b.hitbox, off) },
            ),
            StrokeStyle::ShapeStroke(s) => StrokeStyle::ShapeStroke(
                ShapeStroke { bounds: s.bounds.translate(off) },
            ),
            StrokeStyle::VectorImage(v) => StrokeStyle::VectorImage(
                VectorImage { bounds: v.bounds.translate(off) },
            ),
            StrokeStyle::BitmapImage(b) => StrokeStyle::BitmapImage(
                BitmapImage { bounds: b.bounds.translate(off) },
            ),
        };
        proof {
            assert(r@.hitbox =~= self@.spec_translate(off).hitbox);
            assert(r@ =~= self@.spec_translate(off));
        }
        r
    }

    /// A copy of this stroke re-fitted to the new bounds `nb`.
    pub fn resized(&self, nb: Aabb) -> (r: StrokeStyle)
        requires
            self@.wf(),
            nb.wf(),
        ensures
            r@ == self@.spec_resize(nb),
    {
        let old_bounds = self.bounds();
        let r = match self {
            StrokeStyle::MarkerStroke(m) => StrokeStyle::MarkerStroke(
                MarkerStroke { bounds: nb, hitbox: scale_boxes(&m.hitbox, &old_bounds, &nb) },
            ),
            StrokeStyle::BrushStroke(b) => StrokeStyle::BrushStroke(
                BrushStroke { bounds: nb, hitbox: scale_boxes(&b.hitbox, &old_bounds, &nb) },
            ),
            StrokeStyle::ShapeStroke(_) => StrokeStyle::ShapeStroke(ShapeStroke { bounds: nb }),
            StrokeStyle::VectorImage(_) => StrokeStyle::VectorImage(VectorImage { bounds: nb }),
            StrokeStyle::BitmapImage(_) => StrokeStyle::BitmapImage(BitmapImage { bounds: nb }),
        };
        proof {
            assert(r@.hitbox =~= self@.spec_resize(nb).hitbox);
            assert(r@ =~= self@.spec_resize(nb));
        }
        r
    }
}

/// Whether `sel` fully contains every box of `v`.
fn hitbox_contained(v: &Vec<Aabb>, sel: &Aabb) -> (r: bool)
    ensures
        r == forall|i: int| 0 <= i < v@.len() ==> sel.spec_contains(#[trigger] v@[i]),
{
    let mut i: usize = 0;
    while i < v.len()
        invariant
            i <= v@.len(),
            forall|j: int| 0 <= j < i ==> sel.spec_contains(#[trigger] v@[j]),
        decreases v@.len() - i,
    {
        if !sel.contains(&v[i]) {
            return false;
        }
        i = i + 1;
    }
    true
}

} // verus!
