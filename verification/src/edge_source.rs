//! Source-channel extraction: turn a packed 4:2:2 luminance/chrominance
//! camera image into a single-channel grayscale image, either by taking
//! the luma samples as they are or by darkening saturated pixels with the
//! luma-minus-RGB-spread policy.

use vstd::prelude::*;

use crate::matrix::GrayImage;

verus! {

/// One packed 4:2:2 group: two luma samples sharing one chroma pair.
pub struct Ycbcr422 {
    pub y1: u8,
    pub cb: u8,
    pub y2: u8,
    pub cr: u8,
}

/// A packed 4:2:2 image; each group covers two horizontally adjacent
/// pixels, so the width is even and the buffer holds `width/2` groups per
/// row.
pub struct YCbCr422Image {
    pub width: usize,
    pub height: usize,
    pub buffer: Vec<Ycbcr422>,
}

impl YCbCr422Image {
    pub open spec fn wf(&self) -> bool {
        &&& 0 < self.width
        &&& 0 < self.height
        &&& self.width % 2 == 0
        &&& self.buffer@.len() * 2 == self.width * self.height
    }

    /// The luma sample of pixel `p` in scan order: even pixels read `y1`
    /// of their group, odd pixels `y2`.
    pub open spec fn luma_at(&self, p: int) -> u8 {
        if p % 2 == 0 {
            self.buffer@[p / 2].y1
        } else {
            self.buffer@[p / 2].y2
        }
    }

    /// The chroma pair shared by pixel `p` and its group neighbour.
    pub open spec fn cb_at(&self, p: int) -> u8 {
        self.buffer@[p / 2].cb
    }

    pub open spec fn cr_at(&self, p: int) -> u8 {
        self.buffer@[p / 2].cr
    }
}

/// Which single channel the edge detector reads.
pub enum EdgeSourceType {
    /// Grayscale minus the RGB spread: saturated (strongly coloured)
    /// pixels are darkened before edge extraction.
    DifferenceOfLumaAndRgbRange,
    /// The luma channel unchanged.
    LuminanceOfYuv,
}

/// Clamp an integer into the 8-bit range.
pub open spec fn clamp8(x: int) -> int {
    if x < 0 { 0 } else if x > 255 { 255 } else { x }
}

/// Red channel reconstructed from one pixel's luma and chroma
/// (fixed-point BT.601 full-range weights, 16 fractional bits).
pub open spec fn spec_red(y: u8, cr: u8) -> int {
    clamp8(y + ((91881 * (cr - 128)) as i32 >> 16u32))
}

/// Green channel reconstructed from one pixel's luma and chroma.
pub open spec fn spec_green(y: u8, cb: u8, cr: u8) -> int {
    clamp8(y - ((22554 * (cb - 128) + 46802 * (cr - 128)) as i32 >> 16u32))
}

/// Blue channel reconstructed from one pixel's luma and chroma.
pub open spec fn spec_blue(y: u8, cb: u8) -> int {
    clamp8(y + ((116130 * (cb - 128)) as i32 >> 16u32))
}

pub open spec fn max3(a: int, b: int, c: int) -> int {
    if a >= b && a >= c { a } else if b >= c { b } else { c }
}

pub open spec fn min3(a: int, b: int, c: int) -> int {
    if a <= b && a <= c { a } else if b <= c { b } else { c }
}

/// The luma-minus-spread policy for one pixel: the RGB mean darkened by
/// the spread between the largest and smallest channel, clamped to 8 bits.
pub open spec fn spec_luma_minus_spread(y: u8, cb: u8, cr: u8) -> int {
    let r = spec_red(y, cr);
    let g = spec_green(y, cb, cr);
    let b = spec_blue(y, cb);
    let gray = (r + g + b) / 3;
    let spread = max3(r, g, b) - min3(r, g, b);
    clamp8(gray - spread)
}

/// The pixel the extractor emits at scan position `p`.
pub open spec fn source_pixel(image: &YCbCr422Image, source_type: &EdgeSourceType, p: int) -> int {
    match source_type {
        EdgeSourceType::LuminanceOfYuv => image.luma_at(p) as int,
        EdgeSourceType::DifferenceOfLumaAndRgbRange => spec_luma_minus_spread(
            image.luma_at(p),
            image.cb_at(p),
            image.cr_at(p),
        ),
    }
}

/// Clamp an `i32` into the 8-bit range and narrow it.
fn clamp_to_u8(x: i32) -> (r: u8)
    ensures
        r as int == clamp8(x as int),
{
    if x < 0 {
        0
    } else if x > 255 {
        255
    } else {
        x as u8
    }
}

/// A right shift by 16 of a moderately sized value stays moderately
/// sized, so adding it to a luma sample cannot overflow.
proof fn lemma_shr16_bound(x: i32)
    requires
        -0x4000000 <= x <= 0x4000000,
    ensures
        -0x400 <= x >> 16u32 <= 0x400,
{
    assert(-0x4000000 <= x <= 0x4000000 ==> -0x400 <= x >> 16u32 <= 0x400) by (bit_vector);
}

/// Reconstruct one pixel's RGB channels from luma and shared chroma.
fn ycbcr_to_rgb(y: u8, cb: u8, cr: u8) -> (rgb: (u8, u8, u8))
    ensures
        rgb.0 as int == spec_red(y, cr),
        rgb.1 as int == spec_green(y, cb, cr),
        rgb.2 as int == spec_blue(y, cb),
{
    let cb_d = cb as i32 - 128;
    let cr_d = cr as i32 - 128;
    proof {
        lemma_shr16_bound((91881 * cr_d) as i32);
        lemma_shr16_bound((22554 * cb_d + 46802 * cr_d) as i32);
        lemma_shr16_bound((116130 * cb_d) as i32);
    }
    let r = clamp_to_u8(y as i32 + ((91881 * cr_d) >> 16u32));
    let g = clamp_to_u8(y as i32 - ((22554 * cb_d + 46802 * cr_d) >> 16u32));
    let b = clamp_to_u8(y as i32 + ((116130 * cb_d) >> 16u32));
    (r, g, b)
}

/// The luma-minus-spread policy for one pixel.
fn luma_minus_spread(y: u8, cb: u8, cr: u8) -> (r: u8)
    ensures
        r as int == spec_luma_minus_spread(y, cb, cr),
{
    let (red, green, blue) = ycbcr_to_rgb(y, cb, cr);
    let r = red as i32;
    let g = green as i32;
    let b = blue as i32;
    let gray = (r + g + b) / 3;
    let maximum = if r >= g && r >= b {
        r
    } else if g >= b {
        g
    } else {
        b
    };
    let minimum = if r <= g && r <= b {
        r
    } else if g <= b {
        g
    } else {
        b
    };
    clamp_to_u8(gray - (maximum - minimum))
}

/// Extract the single-channel image the edge detector works on.  The
/// output has the same dimensions as the input, one sample per pixel in
/// scan order.
#[verifier::loop_isolation(false)]
pub fn get_edge_source_image(image: &YCbCr422Image, source_type: EdgeSourceType) -> (r: GrayImage)
    requires
        image.wf(),
    ensures
        r.wf(),
        r.width == image.width,
        r.height == image.height,
        forall|p: int|
            0 <= p < r.data@.len() ==> #[trigger] r.data@[p] as int == source_pixel(
                image,
                &source_type,
                p,
            ),
{
    let group_count = image.buffer.len();
    let mut data: Vec<u8> = Vec::new();
    let mut g: usize = 0;
    while g < group_count
        invariant
            g <= group_count,
            group_count == image.buffer@.len(),
            data@.len() == 2 * g,
            forall|p: int|
                0 <= p < 2 * g ==> #[trigger] data@[p] as int == source_pixel(
                    image,
                    &source_type,
                    p,
                ),
        decreases group_count - g,
    {
        let group = &image.buffer[g];
        let (first, second) = match source_type {
            EdgeSourceType::LuminanceOfYuv => (group.y1, group.y2),
            EdgeSourceType::DifferenceOfLumaAndRgbRange => (
                luma_minus_spread(group.y1, group.cb, group.cr),
                luma_minus_spread(group.y2, group.cb, group.cr),
            ),
        };
        data.push(first);
        data.push(second);
        proof {
            assert((2 * g) / 2 == g && (2 * g) % 2 == 0 && (2 * g + 1) / 2 == g && (2 * g + 1) % 2
                == 1);
        }
        g = g + 1;
    }
    proof {
        assert(data@.len() == image.width * image.height);
    }
    GrayImage { width: image.width, height: image.height, data }
}

} // verus!
