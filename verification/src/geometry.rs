//! Integer axis-aligned geometry for the selection engine.
//!
//! Every box the engine handles keeps its coordinates within `COORD_LIMIT`,
//! so the affine arithmetic of the transform engine stays inside a machine
//! integer with room to spare.

use vstd::prelude::*;

verus! {

/// Bound on every coordinate of a well-formed box or offset vector.
pub const COORD_LIMIT: i64 = 1000000;

/// A two-dimensional offset.
#[derive(Clone, Copy, PartialEq, Eq, Structural, Debug)]
pub struct Vector2 {
    pub x: i64,
    pub y: i64,
}

/// An axis-aligned bounding box, given by its minimum and maximum corners.
#[derive(Clone, Copy, PartialEq, Eq, Structural, Debug)]
pub struct Aabb {
    pub min_x: i64,
    pub min_y: i64,
    pub max_x: i64,
    pub max_y: i64,
}

impl Vector2 {
    /// The offset stays within twice the coordinate limit, so adding it to a
    /// well-formed coordinate cannot overflow.
    pub open spec fn wf(self) -> bool {
        &&& -2 * COORD_LIMIT <= self.x <= 2 * COORD_LIMIT
        &&& -2 * COORD_LIMIT <= self.y <= 2 * COORD_LIMIT
    }

    pub open spec fn spec_add(self, other: Vector2) -> Vector2 {
        Vector2 { x: (self.x + other.x) as i64, y: (self.y + other.y) as i64 }
    }

    pub fn new(x: i64, y: i64) -> (r: Vector2)
        ensures
            r == (Vector2 { x, y }),
    {
        Vector2 { x, y }
    }

    pub fn add(self, other: Vector2) -> (r: Vector2)
        requires
            self.wf(),
            other.wf(),
        ensures
            r == self.spec_add(other),
            r.x == self.x + other.x,
            r.y == self.y + other.y,
    {
        Vector2 { x: self.x + other.x, y: self.y + other.y }
    }
}

impl Aabb {
    /// Well-formed: ordered corners, coordinates within the engine's limit.
    pub open spec fn wf(self) -> bool {
        &&& self.min_x <= self.max_x
        &&& self.min_y <= self.max_y
        &&& -COORD_LIMIT <= self.min_x
        &&& -COORD_LIMIT <= self.min_y
        &&& self.max_x <= COORD_LIMIT
        &&& self.max_y <= COORD_LIMIT
    }

    pub open spec fn spec_width(self) -> int {
        self.max_x - self.min_x
    }

    pub open spec fn spec_height(self) -> int {
        self.max_y - self.min_y
    }

    /// `self` fully contains `other` (corners included).
    pub open spec fn spec_contains(self, other: Aabb) -> bool {
        &&& self.min_x <= other.min_x
        &&& self.min_y <= other.min_y
        &&& other.max_x <= self.max_x
        &&& other.max_y <= self.max_y
    }

    /// `self` and `other` overlap, touching edges included.
    pub open spec fn spec_intersects(self, other: Aabb) -> bool {
        &&& self.min_x <= other.max_x
        &&& other.min_x <= self.max_x
        &&& self.min_y <= other.max_y
        &&& other.min_y <= self.max_y
    }

    /// The smallest box holding both `self` and `other`.
    pub open spec fn spec_merge(self, other: Aabb) -> Aabb {
        Aabb {
            min_x: if self.min_x <= other.min_x { self.min_x } else { other.min_x },
            min_y: if self.min_y <= other.min_y { self.min_y } else { other.min_y },
            max_x: if self.max_x >= other.max_x { self.max_x } else { other.max_x },
            max_y: if self.max_y >= other.max_y { self.max_y } else { other.max_y },
        }
    }

    pub open spec fn spec_translate(self, off: Vector2) -> Aabb {
        Aabb {
            min_x: (self.min_x + off.x) as i64,
            min_y: (self.min_y + off.y) as i64,
            max_x: (self.max_x + off.x) as i64,
            max_y: (self.max_y + off.y) as i64,
        }
    }

    pub fn new(min_x: i64, min_y: i64, max_x: i64, max_y: i64) -> (r: Aabb)
        ensures
            r == (Aabb { min_x, min_y, max_x, max_y }),
    {
        Aabb { min_x, min_y, max_x, max_y }
    }

    pub fn contains(&self, other: &Aabb) -> (r: bool)
        ensures
            r == self.spec_contains(*other),
    {
        self.min_x <= other.min_x && self.min_y <= other.min_y && other.max_x <= self.max_x
            && other.max_y <= self.max_y
    }

    pub fn intersects(&self, other: &Aabb) -> (r: bool)
        ensures
            r == self.spec_intersects(*other),
    {
        self.min_x <= other.max_x && other.min_x <= self.max_x && self.min_y <= other.max_y
            && other.min_y <= self.max_y
    }

    pub fn merge(&self, other: &Aabb) -> (r: Aabb)
        ensures
            r == self.spec_merge(*other),
    {
        Aabb {
            min_x: if self.min_x <= other.min_x { self.min_x } else { other.min_x },
            min_y: if self.min_y <= other.min_y { self.min_y } else { other.min_y },
            max_x: if self.max_x >= other.max_x { self.max_x } else { other.max_x },
            max_y: if self.max_y >= other.max_y { self.max_y } else { other.max_y },
        }
    }

    pub fn translate(&self, off: Vector2) -> (r: Aabb)
        requires
            self.wf(),
            off.wf(),
        ensures
            r == self.spec_translate(off),
            r.min_x == self.min_x + off.x,
            r.min_y == self.min_y + off.y,
            r.max_x == self.max_x + off.x,
            r.max_y == self.max_y + off.y,
    {
        Aabb {
            min_x: self.min_x + off.x,
            min_y: self.min_y + off.y,
            max_x: self.max_x + off.x,
            max_y: self.max_y + off.y,
        }
    }

    pub fn is_wf(&self) -> (r: bool)
        ensures
            r == self.wf(),
    {
        self.min_x <= self.max_x && self.min_y <= self.max_y && -COORD_LIMIT <= self.min_x
            && -COORD_LIMIT <= self.min_y && self.max_x <= COORD_LIMIT && self.max_y <= COORD_LIMIT
    }

    pub fn width(&self) -> (r: i64)
        requires
            self.wf(),
        ensures
            r == self.spec_width(),
    {
        self.max_x - self.min_x
    }

    pub fn height(&self) -> (r: i64)
        requires
            self.wf(),
        ensures
            r == self.spec_height(),
    {
        self.max_y - self.min_y
    }
}

/// Accumulates a box into an optional running union.
pub open spec fn merge_opt(acc: Option<Aabb>, b: Aabb) -> Aabb {
    match acc {
        Some(a) => a.spec_merge(b),
        None => b,
    }
}

/// Accumulating a well-formed box keeps the union well-formed.
pub proof fn lemma_merge_opt_wf(acc: Option<Aabb>, b: Aabb)
    requires
        acc matches Some(a) ==> a.wf(),
        b.wf(),
    ensures
        merge_opt(acc, b).wf(),
{
    match acc {
        Some(a) => lemma_merge_wf(a, b),
        None => {},
    }
}

/// Accumulation order of two boxes into a union does not matter.
pub proof fn lemma_merge_opt_swap(acc: Option<Aabb>, b: Aabb, c: Aabb)
    ensures
        merge_opt(Some(merge_opt(acc, b)), c) == merge_opt(Some(merge_opt(acc, c)), b),
{
    match acc {
        Some(a) => {
            lemma_merge_associates(a, b, c);
            lemma_merge_associates(a, c, b);
            lemma_merge_commutes(b, c);
        },
        None => {
            lemma_merge_commutes(b, c);
        },
    }
}

/// Offset `delta` rescaled by the ratio `num / den`, rounded toward zero.
pub open spec fn scale_off(delta: int, num: int, den: int) -> int
    recommends
        den > 0,
        num >= 0,
{
    if delta >= 0 {
        (delta * num) / den
    } else {
        -(((-delta) * num) / den)
    }
}

/// Nonnegative length `w` rescaled by the ratio `num / den`, rounded down.
pub open spec fn scale_len(w: int, num: int, den: int) -> int
    recommends
        den > 0,
        num >= 0,
        w >= 0,
{
    (w * num) / den
}

/// The box `b` mapped by the anisotropic affine transform that carries
/// `from` onto `to`: offsets from `from`'s minimum corner are rescaled by the
/// per-axis extent ratio and re-anchored at `to`'s minimum corner. An axis on
/// which `from` has zero extent keeps its offsets unscaled, so the transform
/// is defined for every pair of boxes.
pub open spec fn spec_scale_aabb(b: Aabb, from: Aabb, to: Aabb) -> Aabb {
    let dx = if from.spec_width() > 0 {
        scale_off(b.min_x - from.min_x, to.spec_width(), from.spec_width())
    } else {
        b.min_x - from.min_x
    };
    let wx = if from.spec_width() > 0 {
        scale_len(b.spec_width(), to.spec_width(), from.spec_width())
    } else {
        b.spec_width()
    };
    let dy = if from.spec_height() > 0 {
        scale_off(b.min_y - from.min_y, to.spec_height(), from.spec_height())
    } else {
        b.min_y - from.min_y
    };
    let hy = if from.spec_height() > 0 {
        scale_len(b.spec_height(), to.spec_height(), from.spec_height())
    } else {
        b.spec_height()
    };
    Aabb {
        min_x: (to.min_x + dx) as i64,
        min_y: (to.min_y + dy) as i64,
        max_x: (to.min_x + dx + wx) as i64,
        max_y: (to.min_y + dy + hy) as i64,
    }
}

/// A nonnegative quotient is bounded by its dividend.
proof fn lemma_div_le_dividend(x: int, d: int)
    requires
        0 <= x,
        1 <= d,
    ensures
        0 <= x / d <= x,
{
    vstd::arithmetic::div_mod::lemma_div_pos_is_pos(x, d);
    vstd::arithmetic::div_mod::lemma_div_nonincreasing(x, d);
}

/// Rescaled offsets stay within the range the engine's arithmetic needs.
pub proof fn lemma_scale_off_bounds(delta: int, num: int, den: int)
    requires
        -2 * COORD_LIMIT <= delta <= 2 * COORD_LIMIT,
        0 <= num <= 2 * COORD_LIMIT,
        1 <= den,
    ensures
        -4 * COORD_LIMIT * COORD_LIMIT <= scale_off(delta, num, den) <= 4 * COORD_LIMIT
            * COORD_LIMIT,
{
    if delta >= 0 {
        assert(delta * num <= 4 * COORD_LIMIT * COORD_LIMIT) by (nonlinear_arith)
            requires
                0 <= delta <= 2 * COORD_LIMIT,
                0 <= num <= 2 * COORD_LIMIT,
        ;
        vstd::arithmetic::mul::lemma_mul_nonnegative(delta, num);
        lemma_div_le_dividend(delta * num, den);
    } else {
        assert((-delta) * num <= 4 * COORD_LIMIT * COORD_LIMIT) by (nonlinear_arith)
            requires
                0 <= -delta <= 2 * COORD_LIMIT,
                0 <= num <= 2 * COORD_LIMIT,
        ;
        vstd::arithmetic::mul::lemma_mul_nonnegative(-delta, num);
        lemma_div_le_dividend((-delta) * num, den);
    }
}

/// Exact rescaling is undone by the inverse rescaling: if `den` divides
/// `delta * num`, scaling by `num / den` and back by `den / num` restores
/// `delta`.
pub proof fn lemma_scale_off_roundtrip(delta: int, num: int, den: int)
    requires
        1 <= num,
        1 <= den,
        (delta * num) % den == 0,
    ensures
        scale_off(scale_off(delta, num, den), den, num) == delta,
{
    vstd::arithmetic::div_mod::lemma_fundamental_div_mod(delta * num, den);
    if delta >= 0 {
        let q = (delta * num) / den;
        assert(den * q == delta * num);
        vstd::arithmetic::mul::lemma_mul_is_commutative(den, q);
        assert(q * den == delta * num);
        vstd::arithmetic::mul::lemma_mul_nonnegative(delta, num);
        vstd::arithmetic::div_mod::lemma_div_pos_is_pos(delta * num, den);
        assert(scale_off(delta, num, den) == q);
        vstd::arithmetic::div_mod::lemma_div_by_multiple(delta, num);
        assert((delta * num) / num == delta);
        assert(scale_off(q, den, num) == (q * den) / num);
        assert((q * den) / num == delta);
    } else {
        let q = ((-delta) * num) / den;
        assert((-delta) * num == -(delta * num)) by (nonlinear_arith);
        assert((delta * num) % den == 0);
        assert(delta * num == den * ((delta * num) / den));
        let k = (delta * num) / den;
        assert(den * (-k) == -(den * k)) by (nonlinear_arith);
        assert((-delta) * num == den * (-k));
        vstd::arithmetic::div_mod::lemma_div_multiples_vanish(-k, den);
        assert(q == -k);
        vstd::arithmetic::mul::lemma_mul_nonnegative(-delta, num);
        vstd::arithmetic::div_mod::lemma_div_pos_is_pos((-delta) * num, den);
        assert(q >= 0);
        assert(scale_off(delta, num, den) == -q);
        if q == 0 {
            assert((-delta) * num < den * 1) by {
                assert(den * (-k) == (-delta) * num);
                assert(-k == 0);
                assert(den * 0 == 0) by (nonlinear_arith);
                assert((-delta) * num == 0);
                assert(den * 1 >= 1) by (nonlinear_arith)
                    requires
                        1 <= den,
                ;
            };
            assert((-delta) * num >= 1 * 1) by (nonlinear_arith)
                requires
                    -delta >= 1,
                    num >= 1,
            ;
            assert(false);
        }
        assert(scale_off(-q, den, num) == -((q * den) / num));
        assert(q * den == (-delta) * num) by {
            assert(den * (-k) == (-delta) * num);
            assert(q == -k);
            vstd::arithmetic::mul::lemma_mul_is_commutative(q, den);
        };
        vstd::arithmetic::div_mod::lemma_div_by_multiple(-delta, num);
        assert(((-delta) * num) / num == -delta);
        assert(-((q * den) / num) == delta);
    }
}

/// The rescaling of `b` from `from` onto `to` is exact: the per-axis
/// divisions leave no remainder, so the inverse rescaling restores `b`.
pub open spec fn scale_exact(b: Aabb, from: Aabb, to: Aabb) -> bool {
    &&& ((b.min_x - from.min_x) * to.spec_width()) % from.spec_width() == 0
    &&& (b.spec_width() * to.spec_width()) % from.spec_width() == 0
    &&& ((b.min_y - from.min_y) * to.spec_height()) % from.spec_height() == 0
    &&& (b.spec_height() * to.spec_height()) % from.spec_height() == 0
}

/// An exact affine rescaling of a box is undone by the inverse rescaling.
pub proof fn lemma_scale_aabb_roundtrip(b: Aabb, from: Aabb, to: Aabb)
    requires
        b.wf(),
        from.wf(),
        to.wf(),
        from.spec_width() > 0,
        from.spec_height() > 0,
        to.spec_width() > 0,
        to.spec_height() > 0,
        scale_exact(b, from, to),
    ensures
        spec_scale_aabb(spec_scale_aabb(b, from, to), to, from) == b,
{
    let nw = to.spec_width();
    let ow = from.spec_width();
    let nh = to.spec_height();
    let oh = from.spec_height();
    let dx = scale_off(b.min_x - from.min_x, nw, ow);
    let wx = scale_len(b.spec_width(), nw, ow);
    let dy = scale_off(b.min_y - from.min_y, nh, oh);
    let hy = scale_len(b.spec_height(), nh, oh);
    lemma_scale_off_bounds(b.min_x - from.min_x, nw, ow);
    lemma_scale_off_bounds(b.spec_width(), nw, ow);
    lemma_scale_off_bounds(b.min_y - from.min_y, nh, oh);
    lemma_scale_off_bounds(b.spec_height(), nh, oh);
    vstd::arithmetic::mul::lemma_mul_nonnegative(b.spec_width(), nw);
    vstd::arithmetic::div_mod::lemma_div_pos_is_pos(b.spec_width() * nw, ow);
    vstd::arithmetic::mul::lemma_mul_nonnegative(b.spec_height(), nh);
    vstd::arithmetic::div_mod::lemma_div_pos_is_pos(b.spec_height() * nh, oh);
    let b1 = spec_scale_aabb(b, from, to);
    assert(b1.min_x == to.min_x + dx);
    assert(b1.max_x == to.min_x + dx + wx);
    assert(b1.min_y == to.min_y + dy);
    assert(b1.max_y == to.min_y + dy + hy);
    lemma_scale_off_roundtrip(b.min_x - from.min_x, nw, ow);
    lemma_scale_off_roundtrip(b.spec_width(), nw, ow);
    lemma_scale_off_roundtrip(b.min_y - from.min_y, nh, oh);
    lemma_scale_off_roundtrip(b.spec_height(), nh, oh);
    let b2 = spec_scale_aabb(b1, to, from);
    assert(b1.min_x - to.min_x == dx);
    assert(b1.spec_width() == wx);
    assert(scale_off(wx, ow, nw) == b.spec_width());
    assert(scale_len(wx, ow, nw) == scale_off(wx, ow, nw));
    assert(b2.min_x == from.min_x + scale_off(dx, ow, nw));
    assert(b2.min_x == b.min_x);
    assert(b2.max_x == b2.min_x + scale_len(wx, ow, nw));
    assert(b2.max_x == b.max_x);
    assert(b2.min_y == b.min_y);
    assert(b2.max_y == b.max_y);
}

/// Computes `scale_off` on machine integers.
fn scale_off_i64(delta: i64, num: i64, den: i64) -> (r: i64)
    requires
        -2 * COORD_LIMIT <= delta <= 2 * COORD_LIMIT,
        0 <= num <= 2 * COORD_LIMIT,
        1 <= den,
    ensures
        r == scale_off(delta as int, num as int, den as int),
        -4 * COORD_LIMIT * COORD_LIMIT <= r <= 4 * COORD_LIMIT * COORD_LIMIT,
{
    proof {
        assert(-4 * COORD_LIMIT * COORD_LIMIT <= delta * num <= 4 * COORD_LIMIT * COORD_LIMIT)
            by (nonlinear_arith)
            requires
                -2 * COORD_LIMIT <= delta <= 2 * COORD_LIMIT,
                0 <= num <= 2 * COORD_LIMIT,
        ;
        lemma_scale_off_bounds(delta as int, num as int, den as int);
    }
    let prod: i64 = delta * num;
    proof {
        vstd::arithmetic::div_mod::lemma_div_of0(den as int);
    }
    let q = prod.checked_div(den);
    proof {
        let x = prod as int;
        let d = den as int;
        let s = scale_off(delta as int, num as int, den as int);
        assert(x == delta * num);
        if delta >= 0 {
            vstd::arithmetic::mul::lemma_mul_nonnegative(delta as int, num as int);
            assert(x >= 0);
            assert(s == x / d);
        } else {
            assert((-delta) * num == x * -1) by (nonlinear_arith)
                requires
                    x == delta * num,
            ;
            assert(s == -((x * -1) / d));
            if x == 0 {
                assert(s == 0);
            } else {
                assert(x < 0) by (nonlinear_arith)
                    requires
                        x == delta * num,
                        delta < 0,
                        num >= 0,
                        x != 0,
                ;
            }
        }
        assert(-4 * COORD_LIMIT * COORD_LIMIT <= s <= 4 * COORD_LIMIT * COORD_LIMIT);
        assert(q == Some(s as i64));
    }
    q.unwrap()
}

/// Computes `scale_len` on machine integers.
fn scale_len_i64(w: i64, num: i64, den: i64) -> (r: i64)
    requires
        0 <= w <= 2 * COORD_LIMIT,
        0 <= num <= 2 * COORD_LIMIT,
        1 <= den,
    ensures
        r == scale_len(w as int, num as int, den as int),
        0 <= r <= 4 * COORD_LIMIT * COORD_LIMIT,
{
    let r = scale_off_i64(w, num, den);
    proof {
        vstd::arithmetic::mul::lemma_mul_nonnegative(w as int, num as int);
        vstd::arithmetic::div_mod::lemma_div_pos_is_pos(w as int * num as int, den as int);
    }
    r
}

/// Computes `spec_scale_aabb` on machine integers.
pub fn scale_aabb(b: &Aabb, from: &Aabb, to: &Aabb) -> (r: Aabb)
    requires
        b.wf(),
        from.wf(),
        to.wf(),
    ensures
        r == spec_scale_aabb(*b, *from, *to),
{
    let from_w = from.width();
    let from_h = from.height();
    let to_w = to.width();
    let to_h = to.height();
    let dx: i64 = if from_w > 0 {
        scale_off_i64(b.min_x - from.min_x, to_w, from_w)
    } else {
        b.min_x - from.min_x
    };
    let wx: i64 = if from_w > 0 {
        scale_len_i64(b.max_x - b.min_x, to_w, from_w)
    } else {
        b.max_x - b.min_x
    };
    let dy: i64 = if from_h > 0 {
        scale_off_i64(b.min_y - from.min_y, to_h, from_h)
    } else {
        b.min_y - from.min_y
    };
    let hy: i64 = if from_h > 0 {
        scale_len_i64(b.max_y - b.min_y, to_h, from_h)
    } else {
        b.max_y - b.min_y
    };
    Aabb {
        min_x: to.min_x + dx,
        min_y: to.min_y + dy,
        max_x: to.min_x + dx + wx,
        max_y: to.min_y + dy + hy,
    }
}

/// Merging is commutative.
pub proof fn lemma_merge_commutes(a: Aabb, b: Aabb)
    ensures
        a.spec_merge(b) == b.spec_merge(a),
{
}

/// Merging is associative.
pub proof fn lemma_merge_associates(a: Aabb, b: Aabb, c: Aabb)
    ensures
        a.spec_merge(b).spec_merge(c) == a.spec_merge(b.spec_merge(c)),
{
}

/// A merge of well-formed boxes is well-formed.
pub proof fn lemma_merge_wf(a: Aabb, b: Aabb)
    requires
        a.wf(),
        b.wf(),
    ensures
        a.spec_merge(b).wf(),
        a.spec_merge(b).spec_contains(a),
        a.spec_merge(b).spec_contains(b),
{
}

} // verus!
