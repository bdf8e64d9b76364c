//! The rules on the numeric parameters of each operation.
//!
//! Every rule is decided before any geometry is computed. Real parameters are
//! given by the bits of their binary64 encoding (see [`crate::ieee`]).

use vstd::prelude::*;
use crate::error::Error;
use crate::ieee::{
    at_most64, f64_at_most, f64_is_non_negative, f64_is_positive, f64_is_zero, non_negative64,
    positive64, zero64,
};

verus! {

/// The fewest segments that can close a loop around an axis.
pub const MIN_SEGMENTS: u32 = 3;

/// The bits of the binary64 value 360, a full turn in degrees.
pub const FULL_TURN: u64 = 0x4076_8000_0000_0000;

/// A sphere needs a positive radius and at least three segments.
pub open spec fn sphere_ok(radius: u64, segments: u32) -> bool {
    positive64(radius) && segments >= 3
}

/// A box needs three positive edge lengths.
pub open spec fn cube_ok(x: u64, y: u64, z: u64) -> bool {
    positive64(x) && positive64(y) && positive64(z)
}

/// A frustum needs two radii that are not negative and not both zero, a
/// positive height and at least three segments.
pub open spec fn cylinder_ok(radius_low: u64, radius_high: u64, height: u64, segments: u32) -> bool {
    &&& non_negative64(radius_low)
    &&& non_negative64(radius_high)
    &&& !(zero64(radius_low) && zero64(radius_high))
    &&& positive64(height)
    &&& segments >= 3
}

/// An extrusion needs a positive height.
pub open spec fn extrude_ok(height: u64) -> bool {
    positive64(height)
}

/// A revolution needs at least three segments for the full circle and a
/// sweep angle in `(0, 360]` degrees.
pub open spec fn revolve_ok(circular_segments: u32, revolve_degrees: u64) -> bool {
    &&& circular_segments >= 3
    &&& positive64(revolve_degrees)
    &&& at_most64(revolve_degrees, 0x4076_8000_0000_0000)
}

/// Whether every point of every contour has a radial coordinate (its first)
/// that is not negative, so that the cross-section lies on one side of the
/// axis of revolution.
pub open spec fn on_one_side(contours: Seq<Seq<(u64, u64)>>) -> bool {
    forall|i: int, j: int|
        0 <= i < contours.len() && 0 <= j < contours[i].len() ==> non_negative64(
            #[trigger] contours[i][j].0,
        )
}

/// What a revolution answers to its input: the numeric parameters are judged
/// first, the contours after.
pub open spec fn revolve_verdict(
    contours: Seq<Seq<(u64, u64)>>,
    circular_segments: u32,
    revolve_degrees: u64,
) -> Result<(), Error> {
    if !revolve_ok(circular_segments, revolve_degrees) {
        Err(Error::InvalidParameter)
    } else if !on_one_side(contours) {
        Err(Error::InvalidGeometry)
    } else {
        Ok(())
    }
}

/// A cutting plane `a*x + b*y + c*z + d = 0` needs a normal `(a, b, c)` that
/// is not the zero vector.
pub open spec fn plane_ok(a: u64, b: u64, c: u64) -> bool {
    !(zero64(a) && zero64(b) && zero64(c))
}

/// A refinement needs a positive bound on the edge length.
pub open spec fn refine_ok(max_edge_length: u64) -> bool {
    positive64(max_edge_length)
}

/// The answer to a rule on numeric parameters: nothing if it holds,
/// `InvalidParameter` if it does not.
pub open spec fn parameter_verdict(ok: bool) -> Result<(), Error> {
    if ok {
        Ok(())
    } else {
        Err(Error::InvalidParameter)
    }
}

fn verdict(ok: bool) -> (r: Result<(), Error>)
    ensures
        r == parameter_verdict(ok),
{
    if ok {
        Ok(())
    } else {
        Err(Error::InvalidParameter)
    }
}

/// Judges the parameters of a sphere of the given radius, approximated with
/// `segments` divisions around its axis.
pub fn check_sphere(radius: u64, segments: u32) -> (r: Result<(), Error>)
    ensures
        r == parameter_verdict(sphere_ok(radius, segments)),
{
    verdict(f64_is_positive(radius) && segments >= MIN_SEGMENTS)
}

/// Judges the edge lengths of an axis-aligned box.
pub fn check_cube(x_size: u64, y_size: u64, z_size: u64) -> (r: Result<(), Error>)
    ensures
        r == parameter_verdict(cube_ok(x_size, y_size, z_size)),
{
    verdict(f64_is_positive(x_size) && f64_is_positive(y_size) && f64_is_positive(z_size))
}

/// Judges the parameters of a frustum. Equal radii give a cylinder, one zero
/// radius gives a cone; two zero radii give a line and are refused.
pub fn check_cylinder(radius_low: u64, radius_high: u64, height: u64, segments: u32) -> (r: Result<
    (),
    Error,
>)
    ensures
        r == parameter_verdict(cylinder_ok(radius_low, radius_high, height, segments)),
{
    verdict(
        f64_is_non_negative(radius_low) && f64_is_non_negative(radius_high) && !(f64_is_zero(
            radius_low,
        ) && f64_is_zero(radius_high)) && f64_is_positive(height) && segments >= MIN_SEGMENTS,
    )
}

/// Judges the height of an extrusion. Any number of divisions, twist and top
/// scale is accepted.
pub fn check_extrude(height: u64) -> (r: Result<(), Error>)
    ensures
        r == parameter_verdict(extrude_ok(height)),
{
    verdict(f64_is_positive(height))
}

/// Judges the coefficients of a cutting plane.
pub fn check_trim_by_plane(a: u64, b: u64, c: u64) -> (r: Result<(), Error>)
    ensures
        r == parameter_verdict(plane_ok(a, b, c)),
{
    verdict(!(f64_is_zero(a) && f64_is_zero(b) && f64_is_zero(c)))
}

/// Judges the edge length that a refinement may not exceed.
pub fn check_refine_to_length(max_edge_length: u64) -> (r: Result<(), Error>)
    ensures
        r == parameter_verdict(refine_ok(max_edge_length)),
{
    verdict(f64_is_positive(max_edge_length))
}

/// Judges the input of a revolution: a sweep that is out of range is an
/// `InvalidParameter`; with the sweep in range, a contour point on the wrong
/// side of the axis is an `InvalidGeometry`.
pub fn check_revolve(
    contours: &Vec<Vec<(u64, u64)>>,
    circular_segments: u32,
    revolve_degrees: u64,
) -> (r: Result<(), Error>)
    ensures
        r == revolve_verdict(contours.deep_view(), circular_segments, revolve_degrees),
{
    if !(circular_segments >= MIN_SEGMENTS && f64_is_positive(revolve_degrees) && f64_at_most(
        revolve_degrees,
        FULL_TURN,
    )) {
        return Err(Error::InvalidParameter);
    }
    let ghost all = contours.deep_view();
    let mut i: usize = 0;
    while i < contours.len()
        invariant
            i <= contours.len(),
            all == contours.deep_view(),
            revolve_ok(circular_segments, revolve_degrees),
            forall|a: int, b: int|
                0 <= a < i && 0 <= b < all[a].len() ==> non_negative64(#[trigger] all[a][b].0),
        decreases contours.len() - i,
    {
        let contour = &contours[i];
        let mut j: usize = 0;
        while j < contour.len()
            invariant
                i < contours.len(),
                j <= contour.len(),
                all == contours.deep_view(),
                revolve_ok(circular_segments, revolve_degrees),
                contour.deep_view() == all[i as int],
                forall|b: int| 0 <= b < j ==> non_negative64(#[trigger] all[i as int][b].0),
            decreases contour.len() - j,
        {
            if !f64_is_non_negative(contour[j].0) {
                assert(all[i as int][j as int] == contour@[j as int].deep_view());
                assert(!non_negative64(all[i as int][j as int].0));
                return Err(Error::InvalidGeometry);
            }
            j += 1;
        }
        i += 1;
    }
    Ok(())
}

} // verus!
