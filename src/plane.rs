//! Pixel to complex-plane mapping, kept as exact rationals.

use vstd::prelude::*;

verus! {

/// The point `re_num / den + i * im_num / den` of the complex plane.
#[derive(Clone, Copy, Debug, PartialEq, Eq, Structural)]
pub struct PlanePoint {
    pub re_num: i64,
    pub im_num: i64,
    pub den: u32,
}

/// The plane point of pixel `(x, y)` in an image `width` columns wide:
/// `re = (x - 3 * width / 4) / (width / 4)` and `im = (y - width / 4) / (width / 4)`,
/// both written over the denominator `width`. The vertical axis is scaled by the
/// width too, so the mapping keeps its aspect on non-square images.
pub open spec fn plane_point_spec(width: u32, x: u32, y: u32) -> PlanePoint {
    PlanePoint {
        re_num: (4 * x - 3 * width) as i64,
        im_num: (4 * y - width) as i64,
        den: width,
    }
}

/// Maps pixel `(x, y)` to the plane; the result depends on `x`, `y` and `width` alone.
pub fn map_pixel(width: u32, x: u32, y: u32) -> (r: PlanePoint)
    ensures
        r == plane_point_spec(width, x, y),
{
    let re_num: i64 = 4 * (x as i64) - 3 * (width as i64);
    let im_num: i64 = 4 * (y as i64) - (width as i64);
    PlanePoint { re_num, im_num, den: width }
}

} // verus!
