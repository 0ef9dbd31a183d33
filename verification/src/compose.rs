//! Composition of vector-markup text.
//!
//! The markup a stroke produces is specified character by character, so the
//! export services can state exactly which document they emit.

use vstd::prelude::*;
use vstd::string::StringExecFns;

use crate::geometry::{Aabb, Vector2};

verus! {

/// Errors of the export services.
#[derive(Clone, Copy, PartialEq, Eq, Structural, Debug)]
pub enum SvgError {
    /// A stroke's geometry is malformed (unordered or out-of-range corners),
    /// so no markup can be produced for it.
    MalformedGeometry,
}

impl SvgError {
    /// A short description of the error.
    pub fn message(&self) -> (r: &'static str)
        ensures
            r@ == "malformed stroke geometry"@,
    {
        "malformed stroke geometry"
    }
}

/// The decimal digit character for `d`.
pub open spec fn spec_digit(d: int) -> char
    recommends
        0 <= d <= 9,
{
    if d == 0 {
        '0'
    } else if d == 1 {
        '1'
    } else if d == 2 {
        '2'
    } else if d == 3 {
        '3'
    } else if d == 4 {
        '4'
    } else if d == 5 {
        '5'
    } else if d == 6 {
        '6'
    } else if d == 7 {
        '7'
    } else if d == 8 {
        '8'
    } else {
        '9'
    }
}

/// The base-ten rendering of a natural number, most significant digit first.
pub open spec fn spec_dec_nat(n: nat) -> Seq<char>
    decreases n,
{
    if n < 10 {
        seq![spec_digit(n as int)]
    } else {
        spec_dec_nat(n / 10).push(spec_digit((n % 10) as int))
    }
}

/// The base-ten rendering of an integer, with a leading minus sign when
/// negative.
pub open spec fn spec_dec_int(v: int) -> Seq<char> {
    if v < 0 {
        seq!['-'] + spec_dec_nat((-v) as nat)
    } else {
        spec_dec_nat(v as nat)
    }
}

/// Relies on `i64::to_string` (the standard `Display` rendering of machine
/// integers): base ten, no padding, a leading `-` exactly when the value is
/// negative.
#[verifier::external_body]
pub fn i64_to_string(v: i64) -> (r: String)
    ensures
        r@ == spec_dec_int(v as int),
{
    v.to_string()
}

/// The markup fragment for a box shifted by `off`: a rectangle element
/// carrying the shifted position and the extent.
pub open spec fn spec_rect_fragment(b: Aabb, off: Vector2) -> Seq<char> {
    "<rect x=\""@ + spec_dec_int(b.min_x + off.x) + "\" y=\""@ + spec_dec_int(b.min_y + off.y)
        + "\" width=\""@ + spec_dec_int(b.spec_width()) + "\" height=\""@ + spec_dec_int(
        b.spec_height(),
    ) + "\"/>\n"@
}

/// Builds `spec_rect_fragment(b, off)` as a string.
pub fn rect_fragment(b: &Aabb, off: Vector2) -> (r: String)
    requires
        b.wf(),
        off.wf(),
    ensures
        r@ == spec_rect_fragment(*b, off),
{
    let mut s = String::new();
    s.append("<rect x=\"");
    s.append(i64_to_string(b.min_x + off.x).as_str());
    s.append("\" y=\"");
    s.append(i64_to_string(b.min_y + off.y).as_str());
    s.append("\" width=\"");
    s.append(i64_to_string(b.max_x - b.min_x).as_str());
    s.append("\" height=\"");
    s.append(i64_to_string(b.max_y - b.min_y).as_str());
    s.append("\"/>\n");
    s
}

/// The markup document wrapping `data` in a sized container element whose
/// extent is `w` by `h`.
pub open spec fn spec_wrap_svg(data: Seq<char>, w: int, h: int) -> Seq<char> {
    "<svg xmlns=\"http://www.w3.org/2000/svg\" width=\""@ + spec_dec_int(w) + "\" height=\""@
        + spec_dec_int(h) + "\">\n"@ + data + "</svg>\n"@
}

/// Wraps already-composed fragments in a sized container element of the
/// given extent.
pub fn wrap_svg(data: &str, width: i64, height: i64) -> (r: String)
    ensures
        r@ == spec_wrap_svg(data@, width as int, height as int),
{
    let mut s = String::new();
    s.append("<svg xmlns=\"http://www.w3.org/2000/svg\" width=\"");
    s.append(i64_to_string(width).as_str());
    s.append("\" height=\"");
    s.append(i64_to_string(height).as_str());
    s.append("\">\n");
    s.append(data);
    s.append("</svg>\n");
    s
}

} // verus!
