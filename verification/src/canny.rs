//! Canny-style edge detection on the integer convolution engine: a
//! box-filter approximation of the Gaussian blur, Sobel gradients on both
//! axes, non-maximum suppression with hysteresis, and collection of the
//! surviving edge points above the horizon.

use vstd::prelude::*;

use crate::matrix::{GrayImage, TransposedMatrix};
use crate::conv::{
    abs1, abs_sum, box_kernel_seq, h_result, v_result, divisor_shift,
    piecewise_2d_convolution_mut,
};

verus! {

/// An edge point in image coordinates.
pub struct EdgePoint {
    pub x: u32,
    pub y: u32,
}

/// All-zero scratch buffer contents.
pub open spec fn zeros_seq(n: nat) -> Seq<i16> {
    Seq::new(n, |i: int| 0i16)
}

/// Weight sums of an all-ones kernel count its taps.
proof fn lemma_abs_sum_of_ones(ker: Seq<i32>, n: nat)
    requires
        forall|i: int| 0 <= i < n ==> #[trigger] ker[i] == 1i32,
    ensures
        abs_sum(ker, n) == n,
    decreases n,
{
    if n > 0 {
        lemma_abs_sum_of_ones(ker, (n - 1) as nat);
    }
}

/// The image reinterpreted as the transposed matrix the convolution
/// engine expects: the contiguous axis runs along the image rows, so the
/// matrix has `width` rows and `height` columns and the flat buffer keeps
/// the scan order `y * width + x`.
pub fn image_to_matrix(image: &GrayImage) -> (m: TransposedMatrix)
    requires
        image.wf(),
    ensures
        m.wf(),
        m.rows == image.width,
        m.cols == image.height,
        m.data@.len() == image.data@.len(),
        forall|i: int| 0 <= i < m.data@.len() ==> #[trigger] m.data@[i] == image.data@[i] as i16,
{
    let n = image.data.len();
    let mut data: Vec<i16> = Vec::new();
    let mut i: usize = 0;
    while i < n
        invariant
            i <= n,
            n == image.data@.len(),
            data@.len() == i,
            forall|j: int| 0 <= j < i ==> #[trigger] data@[j] == image.data@[j] as i16,
        decreases n - i,
    {
        data.push(image.data[i] as i16);
        i = i + 1;
    }
    TransposedMatrix { rows: image.width, cols: image.height, data }
}

/// One box-filter pass over the whole buffer, borders reading as zero.
pub open spec fn blur_pass(src: Seq<i16>, rows: int, cols: int, w: nat, shift: u32) -> Seq<i16> {
    v_result(
        h_result(src, rows, box_kernel_seq(w), shift, zeros_seq(src.len())),
        rows,
        cols,
        box_kernel_seq(w),
        shift,
    )
}

/// Build the all-ones box kernel of width `w`.
fn box_kernel(w: usize) -> (ker: Vec<i32>)
    ensures
        ker@ == box_kernel_seq(w as nat),
        abs_sum(ker@, w as nat) == w,
{
    let mut ker: Vec<i32> = Vec::new();
    let mut i: usize = 0;
    while i < w
        invariant
            i <= w,
            ker@.len() == i,
            forall|j: int| 0 <= j < i ==> #[trigger] ker@[j] == 1i32,
        decreases w - i,
    {
        ker.push(1i32);
        i = i + 1;
    }
    proof {
        assert(ker@ =~= box_kernel_seq(w as nat));
        lemma_abs_sum_of_ones(ker@, w as nat);
    }
    ker
}

/// Gaussian blur approximated by three identical box-filter passes; each
/// pass divides by the box width through the engine's power-of-two shift.
/// The cost is linear in the box width however large the target sigma.
pub fn gaussian_blur_box_filter(matrix: &TransposedMatrix, box_width: usize) -> (blurred:
    TransposedMatrix)
    requires
        matrix.wf(),
        3 <= box_width <= matrix.rows,
        box_width <= matrix.cols,
        box_width % 2 == 1,
        box_width <= 0xffff,
    ensures
        blurred.wf(),
        blurred.rows == matrix.rows,
        blurred.cols == matrix.cols,
        blurred.data@ == blur_pass(
            blur_pass(
                blur_pass(
                    matrix.data@,
                    matrix.rows as int,
                    matrix.cols as int,
                    box_width as nat,
                    divisor_shift(box_width as int) as u32,
                ),
                matrix.rows as int,
                matrix.cols as int,
                box_width as nat,
                divisor_shift(box_width as int) as u32,
            ),
            matrix.rows as int,
            matrix.cols as int,
            box_width as nat,
            divisor_shift(box_width as int) as u32,
        ),
{
    let rows = matrix.rows;
    let cols = matrix.cols;
    let n = matrix.data.len();
    let ker = box_kernel(box_width);

    let mut dst0: Vec<i16> = vec![0i16; n];
    proof {
        assert(dst0@ =~= zeros_seq(matrix.data@.len()));
    }
    piecewise_2d_convolution_mut(matrix, &mut dst0, &ker, &ker, box_width as u32);
    let pass1 = TransposedMatrix { rows, cols, data: dst0 };

    let mut dst1: Vec<i16> = vec![0i16; n];
    proof {
        assert(dst1@ =~= zeros_seq(pass1.data@.len()));
    }
    piecewise_2d_convolution_mut(&pass1, &mut dst1, &ker, &ker, box_width as u32);
    let pass2 = TransposedMatrix { rows, cols, data: dst1 };

    let mut dst2: Vec<i16> = vec![0i16; n];
    proof {
        assert(dst2@ =~= zeros_seq(pass2.data@.len()));
    }
    piecewise_2d_convolution_mut(&pass2, &mut dst2, &ker, &ker, box_width as u32);
    TransposedMatrix { rows, cols, data: dst2 }
}

/// The differencing arm of the Sobel operator.
pub open spec fn sobel_diff() -> Seq<i32> {
    seq![-1i32, 0i32, 1i32]
}

/// The smoothing arm of the Sobel operator.
pub open spec fn sobel_smooth() -> Seq<i32> {
    seq![1i32, 2i32, 1i32]
}

/// The gradient along the contiguous (image x) axis: difference across
/// x, smoothing across y, no rescaling.
pub open spec fn sobel_gx_spec(src: Seq<i16>, rows: int, cols: int) -> Seq<i16> {
    v_result(
        h_result(src, rows, sobel_diff(), 0u32, zeros_seq(src.len())),
        rows,
        cols,
        sobel_smooth(),
        0u32,
    )
}

/// The gradient along the other (image y) axis.
pub open spec fn sobel_gy_spec(src: Seq<i16>, rows: int, cols: int) -> Seq<i16> {
    v_result(
        h_result(src, rows, sobel_smooth(), 0u32, zeros_seq(src.len())),
        rows,
        cols,
        sobel_diff(),
        0u32,
    )
}

/// Both Sobel gradient images of a blurred matrix, computed with the
/// separable `[1,2,1]` x `[-1,0,1]` kernels at unit scale.
pub fn sobel_gradients(matrix: &TransposedMatrix) -> (grads: (TransposedMatrix, TransposedMatrix))
    requires
        matrix.wf(),
        3 <= matrix.rows,
        3 <= matrix.cols,
    ensures
        grads.0.wf(),
        grads.0.rows == matrix.rows,
        grads.0.cols == matrix.cols,
        grads.0.data@ == sobel_gx_spec(matrix.data@, matrix.rows as int, matrix.cols as int),
        grads.1.wf(),
        grads.1.rows == matrix.rows,
        grads.1.cols == matrix.cols,
        grads.1.data@ == sobel_gy_spec(matrix.data@, matrix.rows as int, matrix.cols as int),
{
    let rows = matrix.rows;
    let cols = matrix.cols;
    let n = matrix.data.len();

    let mut diff: Vec<i32> = Vec::new();
    diff.push(-1i32);
    diff.push(0i32);
    diff.push(1i32);
    let mut smooth: Vec<i32> = Vec::new();
    smooth.push(1i32);
    smooth.push(2i32);
    smooth.push(1i32);
    proof {
        assert(diff@ =~= sobel_diff());
        assert(smooth@ =~= sobel_smooth());
        assert(abs_sum(diff@, 3) == 2) by {
            assert(abs_sum(diff@, 0) == 0);
            assert(abs_sum(diff@, 1) == 1);
            assert(abs_sum(diff@, 2) == 1);
        }
        assert(abs_sum(smooth@, 3) == 4) by {
            assert(abs_sum(smooth@, 0) == 0);
            assert(abs_sum(smooth@, 1) == 1);
            assert(abs_sum(smooth@, 2) == 3);
        }
    }

    let mut gx: Vec<i16> = vec![0i16; n];
    proof {
        assert(gx@ =~= zeros_seq(matrix.data@.len()));
    }
    piecewise_2d_convolution_mut(matrix, &mut gx, &diff, &smooth, 1u32);

    let mut gy: Vec<i16> = vec![0i16; n];
    proof {
        assert(gy@ =~= zeros_seq(matrix.data@.len()));
    }
    piecewise_2d_convolution_mut(matrix, &mut gy, &smooth, &diff, 1u32);

    (
        TransposedMatrix { rows, cols, data: gx },
        TransposedMatrix { rows, cols, data: gy },
    )
}

/// The L1 gradient magnitude at flat index `i`.
pub open spec fn l1_mag(gx: Seq<i16>, gy: Seq<i16>, i: int) -> int {
    abs1(gx[i] as int) + abs1(gy[i] as int)
}

/// Quantize the gradient direction into four bins: 0 along the x axis, 1
/// and 3 on the diagonals, 2 along the y axis.  The boundaries are the
/// 22.5 and 67.5 degree lines, encoded by the fixed-point tangent
/// 27146/65536 of 22.5 degrees.
pub open spec fn grad_bin(gxv: int, gyv: int) -> int {
    let ax = abs1(gxv);
    let ay = abs1(gyv);
    if ay * 65536 < ax * 27146 {
        0
    } else if ax * 65536 < ay * 27146 {
        2
    } else if (gxv > 0) == (gyv > 0) {
        1
    } else {
        3
    }
}

/// The flat-index step towards the neighbour along a direction bin, for
/// an image of width `w` in scan order.
pub open spec fn neighbor_offset(bin: int, w: int) -> int {
    if bin == 0 {
        1
    } else if bin == 1 {
        w + 1
    } else if bin == 2 {
        w
    } else {
        w - 1
    }
}

/// Is flat index `i` an interior pixel of a `w` x `h` image, one pixel
/// away from every border?
pub open spec fn interior(w: int, h: int, i: int) -> bool {
    1 <= i % w < w - 1 && 1 <= i / w < h - 1
}

/// Does non-maximum suppression keep pixel `i` as a strong edge?  It must
/// be interior, at or above the high threshold, and at least as large as
/// both neighbours along its quantized gradient direction.
pub open spec fn nms_strong_keep(
    gx: Seq<i16>,
    gy: Seq<i16>,
    w: int,
    h: int,
    high: u32,
    i: int,
) -> bool {
    let m = l1_mag(gx, gy, i);
    let off = neighbor_offset(grad_bin(gx[i] as int, gy[i] as int), w);
    &&& interior(w, h, i)
    &&& m >= high
    &&& m >= l1_mag(gx, gy, i + off)
    &&& m >= l1_mag(gx, gy, i - off)
}

/// A weak edge pixel: interior, between the two thresholds.
pub open spec fn weak_edge(gx: Seq<i16>, gy: Seq<i16>, w: int, h: int, low: u32, high: u32, i: int) -> bool {
    &&& interior(w, h, i)
    &&& low <= l1_mag(gx, gy, i) < high
}

/// L1 magnitude of one pixel of a gradient pair.
fn mag_at(gx: &Vec<i16>, gy: &Vec<i16>, i: usize) -> (m: i32)
    requires
        i < gx@.len(),
        i < gy@.len(),
    ensures
        m == l1_mag(gx@, gy@, i as int),
        0 <= m <= 65536,
{
    let gxv = gx[i] as i32;
    let gyv = gy[i] as i32;
    let ax = if gxv < 0 { -gxv } else { gxv };
    let ay = if gyv < 0 { -gyv } else { gyv };
    ax + ay
}

/// The non-maximum-suppressed strong mask: exactly the pixels that
/// [`nms_strong_keep`] accepts are set.
#[verifier::loop_isolation(false)]
pub fn strong_edge_mask(gx: &TransposedMatrix, gy: &TransposedMatrix, high: u32) -> (mask: Vec<u8>)
    requires
        gx.wf(),
        gy.wf(),
        gy.rows == gx.rows,
        gy.cols == gx.cols,
        3 <= gx.rows,
        3 <= gx.cols,
    ensures
        mask@.len() == gx.data@.len(),
        forall|i: int|
            0 <= i < mask@.len() ==> #[trigger] mask@[i] == (
            if nms_strong_keep(gx.data@, gy.data@, gx.rows as int, gx.cols as int, high, i) {
                1u8
            } else {
                0u8
            }),
{
    let w = gx.rows;
    let h = gx.cols;
    let n = gx.data.len();
    let ghost gxs = gx.data@;
    let ghost gys = gy.data@;
    let mut mask: Vec<u8> = vec![0u8; n];

    proof {
        assert(1 * w == w && w <= n) by (nonlinear_arith)
            requires
                w * h == n,
                3 <= h,
                0 <= w,
        ;
        assert forall|j: int| 0 <= j < 1 * w implies !interior(w as int, h as int, j) by {
            vstd::arithmetic::div_mod::lemma_fundamental_div_mod_converse(j, w as int, 0, j);
        }
    }
    let mut y: usize = 1;
    while y < h - 1
        invariant
            1 <= y <= h - 1,
            mask@.len() == n,
            n == gx.data@.len(),
            n == gy.data@.len(),
            forall|j: int|
                0 <= j < y * w ==> #[trigger] mask@[j] == (
                if nms_strong_keep(gxs, gys, w as int, h as int, high, j) {
                    1u8
                } else {
                    0u8
                }),
            forall|j: int| y * w <= j < n ==> #[trigger] mask@[j] == 0u8,
        decreases h - 1 - y,
    {
        proof {
            assert((y + 1) * w <= h * w && y * w + w == (y + 1) * w && h * w == n && w <= y
                * w && (y + 1) * w + w == (y + 2) * w && (y + 2) * w <= n) by (nonlinear_arith)
                requires
                    w * h == n,
                    1 <= y,
                    y + 2 <= h,
                    0 <= w,
            ;
            assert forall|j: int| y * w <= j < y * w + 1 implies #[trigger] mask@[j] == (
                if nms_strong_keep(gxs, gys, w as int, h as int, high, j) {
                    1u8
                } else {
                    0u8
                }) by {
                vstd::arithmetic::div_mod::lemma_fundamental_div_mod_converse(
                    j,
                    w as int,
                    y as int,
                    j - y * w,
                );
            }
        }
        let mut x: usize = 1;
        while x < w - 1
            invariant
                1 <= x <= w - 1,
                1 <= y < h - 1,
                mask@.len() == n,
                (y + 1) * w <= n,
                y * w + w == (y + 1) * w,
                w <= y * w,
                (y + 1) * w + w == (y + 2) * w,
                (y + 2) * w <= n,
                forall|j: int|
                    0 <= j < y * w + x ==> #[trigger] mask@[j] == (
                    if nms_strong_keep(gxs, gys, w as int, h as int, high, j) {
                        1u8
                    } else {
                        0u8
                    }),
                forall|j: int| y * w + x <= j < n ==> #[trigger] mask@[j] == 0u8,
            decreases w - 1 - x,
        {
            let i = y * w + x;
            proof {
                vstd::arithmetic::div_mod::lemma_fundamental_div_mod_converse(
                    i as int,
                    w as int,
                    y as int,
                    x as int,
                );
            }
            let gxv = gx.data[i] as i32;
            let gyv = gy.data[i] as i32;
            let ax = if gxv < 0 { -gxv } else { gxv };
            let ay = if gyv < 0 { -gyv } else { gyv };
            let bin: usize = if (ay as i64) * 65536 < (ax as i64) * 27146 {
                0
            } else if (ax as i64) * 65536 < (ay as i64) * 27146 {
                2
            } else if (gxv > 0) == (gyv > 0) {
                1
            } else {
                3
            };
            let off: usize = if bin == 0 {
                1
            } else if bin == 1 {
                w + 1
            } else if bin == 2 {
                w
            } else {
                w - 1
            };
            proof {
                assert(bin == grad_bin(gxs[i as int] as int, gys[i as int] as int));
                assert(off == neighbor_offset(bin as int, w as int));
                assert(w + 1 <= i && i + w + 1 < n);
            }
            let m = ax + ay;
            let m_fwd = mag_at(&gx.data, &gy.data, i + off);
            let m_bwd = mag_at(&gx.data, &gy.data, i - off);
            let keep = (m as i64) >= (high as i64) && m >= m_fwd && m >= m_bwd;
            if keep {
                mask[i] = 1u8;
            }
            proof {
                assert(keep == nms_strong_keep(gxs, gys, w as int, h as int, high, i as int));
            }
            x = x + 1;
        }
        proof {
            assert forall|j: int| y * w + (w - 1) <= j < (y + 1) * w implies #[trigger] mask@[j]
                == (
                if nms_strong_keep(gxs, gys, w as int, h as int, high, j) {
                    1u8
                } else {
                    0u8
                }) by {
                vstd::arithmetic::div_mod::lemma_fundamental_div_mod_converse(
                    j,
                    w as int,
                    y as int,
                    j - y * w,
                );
            }
        }
        y = y + 1;
    }
    proof {
        assert((h - 1) * w + w == h * w && h * w == n) by (nonlinear_arith)
            requires
                w * h == n,
        ;
        assert forall|j: int| (h - 1) * w <= j < n implies #[trigger] mask@[j] == (
            if nms_strong_keep(gxs, gys, w as int, h as int, high, j) {
                1u8
            } else {
                0u8
            }) by {
            vstd::arithmetic::div_mod::lemma_fundamental_div_mod_converse(
                j,
                w as int,
                h as int - 1,
                j - (h - 1) * w,
            );
        }
    }
    mask
}

/// The weak mask: exactly the interior pixels between the thresholds.
#[verifier::loop_isolation(false)]
pub fn weak_edge_mask(gx: &TransposedMatrix, gy: &TransposedMatrix, low: u32, high: u32) -> (mask:
    Vec<u8>)
    requires
        gx.wf(),
        gy.wf(),
        gy.rows == gx.rows,
        gy.cols == gx.cols,
        3 <= gx.rows,
        3 <= gx.cols,
    ensures
        mask@.len() == gx.data@.len(),
        forall|i: int|
            0 <= i < mask@.len() ==> #[trigger] mask@[i] == (
            if weak_edge(gx.data@, gy.data@, gx.rows as int, gx.cols as int, low, high, i) {
                1u8
            } else {
                0u8
            }),
{
    let w = gx.rows;
    let h = gx.cols;
    let n = gx.data.len();
    let ghost gxs = gx.data@;
    let ghost gys = gy.data@;
    let mut mask: Vec<u8> = vec![0u8; n];

    proof {
        assert(1 * w == w && w <= n) by (nonlinear_arith)
            requires
                w * h == n,
                3 <= h,
                0 <= w,
        ;
        assert forall|j: int| 0 <= j < 1 * w implies !interior(w as int, h as int, j) by {
            vstd::arithmetic::div_mod::lemma_fundamental_div_mod_converse(j, w as int, 0, j);
        }
    }
    let mut y: usize = 1;
    while y < h - 1
        invariant
            1 <= y <= h - 1,
            mask@.len() == n,
            n == gx.data@.len(),
            n == gy.data@.len(),
            forall|j: int|
                0 <= j < y * w ==> #[trigger] mask@[j] == (
                if weak_edge(gxs, gys, w as int, h as int, low, high, j) {
                    1u8
                } else {
                    0u8
                }),
            forall|j: int| y * w <= j < n ==> #[trigger] mask@[j] == 0u8,
        decreases h - 1 - y,
    {
        proof {
            assert((y + 1) * w <= h * w && y * w + w == (y + 1) * w && h * w == n && w <= y
                * w && (y + 1) * w + w == (y + 2) * w && (y + 2) * w <= n) by (nonlinear_arith)
                requires
                    w * h == n,
                    1 <= y,
                    y + 2 <= h,
                    0 <= w,
            ;
            assert forall|j: int| y * w <= j < y * w + 1 implies #[trigger] mask@[j] == (
                if weak_edge(gxs, gys, w as int, h as int, low, high, j) {
                    1u8
                } else {
                    0u8
                }) by {
                vstd::arithmetic::div_mod::lemma_fundamental_div_mod_converse(
                    j,
                    w as int,
                    y as int,
                    j - y * w,
                );
            }
        }
        let mut x: usize = 1;
        while x < w - 1
            invariant
                1 <= x <= w - 1,
                1 <= y < h - 1,
                mask@.len() == n,
                (y + 1) * w <= n,
                y * w + w == (y + 1) * w,
                forall|j: int|
                    0 <= j < y * w + x ==> #[trigger] mask@[j] == (
                    if weak_edge(gxs, gys, w as int, h as int, low, high, j) {
                        1u8
                    } else {
                        0u8
                    }),
                forall|j: int| y * w + x <= j < n ==> #[trigger] mask@[j] == 0u8,
            decreases w - 1 - x,
        {
            let i = y * w + x;
            proof {
                vstd::arithmetic::div_mod::lemma_fundamental_div_mod_converse(
                    i as int,
                    w as int,
                    y as int,
                    x as int,
                );
            }
            let m = mag_at(&gx.data, &gy.data, i);
            if (m as i64) >= (low as i64) && (m as i64) < (high as i64) {
                mask[i] = 1u8;
            }
            x = x + 1;
        }
        proof {
            assert forall|j: int| y * w + (w - 1) <= j < (y + 1) * w implies #[trigger] mask@[j]
                == (
                if weak_edge(gxs, gys, w as int, h as int, low, high, j) {
                    1u8
                } else {
                    0u8
                }) by {
                vstd::arithmetic::div_mod::lemma_fundamental_div_mod_converse(
                    j,
                    w as int,
                    y as int,
                    j - y * w,
                );
            }
        }
        y = y + 1;
    }
    proof {
        assert((h - 1) * w + w == h * w && h * w == n) by (nonlinear_arith)
            requires
                w * h == n,
        ;
        assert forall|j: int| (h - 1) * w <= j < n implies #[trigger] mask@[j] == (
            if weak_edge(gxs, gys, w as int, h as int, low, high, j) {
                1u8
            } else {
                0u8
            }) by {
            vstd::arithmetic::div_mod::lemma_fundamental_div_mod_converse(
                j,
                w as int,
                h as int - 1,
                j - (h - 1) * w,
            );
        }
    }
    mask
}

/// Number of set bytes in a 0/1 mask.
pub open spec fn count_ones(s: Seq<u8>) -> int
    decreases s.len(),
{
    if s.len() == 0 {
        0
    } else {
        count_ones(s.drop_last()) + (if s.last() == 1u8 {
            1int
        } else {
            0int
        })
    }
}

proof fn lemma_count_ones_le_len(s: Seq<u8>)
    ensures
        0 <= count_ones(s) <= s.len(),
    decreases s.len(),
{
    if s.len() > 0 {
        lemma_count_ones_le_len(s.drop_last());
    }
}

/// Setting a clear byte raises the count by one.
proof fn lemma_count_ones_update(s: Seq<u8>, i: int)
    requires
        0 <= i < s.len(),
        s[i] != 1u8,
    ensures
        count_ones(s.update(i, 1u8)) == count_ones(s) + 1,
    decreases s.len(),
{
    let t = s.update(i, 1u8);
    assert(t.len() == s.len());
    if i == s.len() - 1 {
        assert(t.drop_last() =~= s.drop_last());
    } else {
        assert(t.drop_last() =~= s.drop_last().update(i, 1u8));
        lemma_count_ones_update(s.drop_last(), i);
        assert(t.last() == s.last());
    }
}

/// Appending a byte adds its value to the count.
proof fn lemma_count_ones_push(s: Seq<u8>, v: u8)
    ensures
        count_ones(s.push(v)) == count_ones(s) + (if v == 1u8 {
            1int
        } else {
            0int
        }),
{
    assert(s.push(v).drop_last() =~= s);
    assert(s.push(v).last() == v);
}

/// Is pixel `i` reached by the hysteresis flood within `k` steps: either
/// strong itself, or weak and 8-adjacent to a pixel reached one step
/// earlier.
pub open spec fn reachable(strong: Seq<u8>, weak: Seq<u8>, w: int, i: int, k: nat) -> bool
    decreases k,
{
    if strong[i] == 1u8 {
        true
    } else if k == 0 {
        false
    } else {
        weak[i] == 1u8 && {
            ||| reachable(strong, weak, w, i - 1, (k - 1) as nat)
            ||| reachable(strong, weak, w, i + 1, (k - 1) as nat)
            ||| reachable(strong, weak, w, i - w, (k - 1) as nat)
            ||| reachable(strong, weak, w, i + w, (k - 1) as nat)
            ||| reachable(strong, weak, w, i - w - 1, (k - 1) as nat)
            ||| reachable(strong, weak, w, i - w + 1, (k - 1) as nat)
            ||| reachable(strong, weak, w, i + w - 1, (k - 1) as nat)
            ||| reachable(strong, weak, w, i + w + 1, (k - 1) as nat)
        }
    }
}

/// A pixel reached within `k1` steps is reached within any larger bound.
pub proof fn lemma_reachable_mono(
    strong: Seq<u8>,
    weak: Seq<u8>,
    w: int,
    i: int,
    k1: nat,
    k2: nat,
)
    requires
        k1 <= k2,
        reachable(strong, weak, w, i, k1),
    ensures
        reachable(strong, weak, w, i, k2),
    decreases k1,
{
    if strong[i] == 1u8 {
    } else {
        let j1 = (k1 - 1) as nat;
        let j2 = (k2 - 1) as nat;
        if reachable(strong, weak, w, i - 1, j1) {
            lemma_reachable_mono(strong, weak, w, i - 1, j1, j2);
        } else if reachable(strong, weak, w, i + 1, j1) {
            lemma_reachable_mono(strong, weak, w, i + 1, j1, j2);
        } else if reachable(strong, weak, w, i - w, j1) {
            lemma_reachable_mono(strong, weak, w, i - w, j1, j2);
        } else if reachable(strong, weak, w, i + w, j1) {
            lemma_reachable_mono(strong, weak, w, i + w, j1, j2);
        } else if reachable(strong, weak, w, i - w - 1, j1) {
            lemma_reachable_mono(strong, weak, w, i - w - 1, j1, j2);
        } else if reachable(strong, weak, w, i - w + 1, j1) {
            lemma_reachable_mono(strong, weak, w, i - w + 1, j1, j2);
        } else if reachable(strong, weak, w, i + w - 1, j1) {
            lemma_reachable_mono(strong, weak, w, i + w - 1, j1, j2);
        } else {
            lemma_reachable_mono(strong, weak, w, i + w + 1, j1, j2);
        }
    }
}

/// Every neighbour of an interior pixel is a valid flat index.
proof fn lemma_interior_neighbors(w: int, h: int, n: int, i: int)
    requires
        w * h == n,
        3 <= w,
        3 <= h,
        0 <= i < n,
        interior(w, h, i),
    ensures
        w + 1 <= i,
        i + w + 1 < n,
{
    vstd::arithmetic::div_mod::lemma_fundamental_div_mod(i, w);
    assert(w <= w * (i / w) && w * (i / w) + 2 * w <= w * h) by (nonlinear_arith)
        requires
            0 < w,
            1 <= i / w,
            i / w < h - 1,
    ;
}

/// A mask that contains the strong pixels and is closed under the
/// promotion rule contains every reachable pixel.
proof fn lemma_closed_mask_reachable(
    strong: Seq<u8>,
    weak: Seq<u8>,
    mask: Seq<u8>,
    w: int,
    h: int,
    i: int,
    k: nat,
)
    requires
        w * h == strong.len(),
        strong.len() == weak.len(),
        strong.len() == mask.len(),
        3 <= w,
        3 <= h,
        forall|j: int|
            0 <= j < strong.len() && #[trigger] strong[j] == 1u8 ==> interior(w, h, j),
        forall|j: int| 0 <= j < weak.len() && #[trigger] weak[j] == 1u8 ==> interior(w, h, j),
        forall|j: int| 0 <= j < strong.len() && strong[j] == 1u8 ==> #[trigger] mask[j] == 1u8,
        forall|j: int|
            0 <= j < mask.len() && #[trigger] weak[j] == 1u8 && has_set_neighbor(mask, w, j)
                ==> mask[j] == 1u8,
        0 <= i < mask.len(),
        reachable(strong, weak, w, i, k),
    ensures
        mask[i] == 1u8,
    decreases k,
{
    if strong[i] == 1u8 {
    } else {
        lemma_interior_neighbors(w, h, strong.len() as int, i);
        let j1 = (k - 1) as nat;
        if reachable(strong, weak, w, i - 1, j1) {
            lemma_closed_mask_reachable(strong, weak, mask, w, h, i - 1, j1);
        } else if reachable(strong, weak, w, i + 1, j1) {
            lemma_closed_mask_reachable(strong, weak, mask, w, h, i + 1, j1);
        } else if reachable(strong, weak, w, i - w, j1) {
            lemma_closed_mask_reachable(strong, weak, mask, w, h, i - w, j1);
        } else if reachable(strong, weak, w, i + w, j1) {
            lemma_closed_mask_reachable(strong, weak, mask, w, h, i + w, j1);
        } else if reachable(strong, weak, w, i - w - 1, j1) {
            lemma_closed_mask_reachable(strong, weak, mask, w, h, i - w - 1, j1);
        } else if reachable(strong, weak, w, i - w + 1, j1) {
            lemma_closed_mask_reachable(strong, weak, mask, w, h, i - w + 1, j1);
        } else if reachable(strong, weak, w, i + w - 1, j1) {
            lemma_closed_mask_reachable(strong, weak, mask, w, h, i + w - 1, j1);
        } else {
            lemma_closed_mask_reachable(strong, weak, mask, w, h, i + w + 1, j1);
        }
        assert(has_set_neighbor(mask, w, i));
    }
}

/// Does one of the eight neighbours of interior pixel `i` carry a set
/// mask byte?
pub open spec fn has_set_neighbor(mask: Seq<u8>, w: int, i: int) -> bool {
    ||| mask[i - 1] == 1u8
    ||| mask[i + 1] == 1u8
    ||| mask[i - w] == 1u8
    ||| mask[i + w] == 1u8
    ||| mask[i - w - 1] == 1u8
    ||| mask[i - w + 1] == 1u8
    ||| mask[i + w - 1] == 1u8
    ||| mask[i + w + 1] == 1u8
}

/// Hysteresis: keep every strong pixel, and promote weak pixels that are
/// 8-connected to the kept set, flooding iteratively until nothing
/// changes.  The result contains the strong mask, stays inside the union
/// of strong and weak, every promoted pixel has a kept neighbour, and no
/// further weak pixel touches the kept set.
#[verifier::loop_isolation(false)]
pub fn hysteresis(strong: &Vec<u8>, weak: &Vec<u8>, w: usize, h: usize) -> (mask: Vec<u8>)
    requires
        3 <= w,
        3 <= h,
        strong@.len() == w * h,
        weak@.len() == w * h,
        forall|i: int| 0 <= i < strong@.len() ==> #[trigger] strong@[i] == 1u8 || strong@[i] == 0u8,
        forall|i: int| 0 <= i < weak@.len() ==> #[trigger] weak@[i] == 1u8 || weak@[i] == 0u8,
        forall|i: int|
            0 <= i < strong@.len() && #[trigger] strong@[i] == 1u8 ==> interior(w as int, h as int, i),
        forall|i: int|
            0 <= i < weak@.len() && #[trigger] weak@[i] == 1u8 ==> interior(w as int, h as int, i),
    ensures
        mask@.len() == w * h,
        forall|i: int| 0 <= i < mask@.len() ==> #[trigger] mask@[i] == 1u8 || mask@[i] == 0u8,
        forall|i: int| 0 <= i < mask@.len() && strong@[i] == 1u8 ==> #[trigger] mask@[i] == 1u8,
        forall|i: int|
            0 <= i < mask@.len() && #[trigger] mask@[i] == 1u8 ==> strong@[i] == 1u8 || (weak@[i]
                == 1u8 && has_set_neighbor(mask@, w as int, i)),
        forall|i: int|
            0 <= i < mask@.len() && #[trigger] weak@[i] == 1u8 && has_set_neighbor(
                mask@,
                w as int,
                i,
            ) ==> mask@[i] == 1u8,
        forall|i: int|
            0 <= i < mask@.len() ==> (#[trigger] mask@[i] == 1u8 <==> reachable(
                strong@,
                weak@,
                w as int,
                i,
                (w * h) as nat,
            )),
{
    let n = strong.len();
    let mut mask: Vec<u8> = Vec::new();
    let mut count: usize = 0;
    let mut i: usize = 0;
    while i < n
        invariant
            i <= n,
            n == strong@.len(),
            mask@.len() == i,
            count == count_ones(mask@),
            count <= i,
            forall|j: int| 0 <= j < i ==> #[trigger] mask@[j] == strong@[j],
        decreases n - i,
    {
        let v = strong[i];
        proof {
            lemma_count_ones_push(mask@, v);
        }
        mask.push(v);
        if v == 1u8 {
            count = count + 1;
        } else {
            proof {
                assert(strong@[i as int] == 1u8 || strong@[i as int] == 0u8);
            }
        }
        i = i + 1;
    }

    let mut changed = true;
    while changed
        invariant
            mask@.len() == n,
            n == w * h,
            count == count_ones(mask@),
            count <= n,
            forall|j: int| 0 <= j < n ==> #[trigger] mask@[j] == 1u8 || mask@[j] == 0u8,
            forall|j: int| 0 <= j < n && strong@[j] == 1u8 ==> #[trigger] mask@[j] == 1u8,
            forall|j: int|
                0 <= j < n && #[trigger] mask@[j] == 1u8 ==> reachable(
                    strong@,
                    weak@,
                    w as int,
                    j,
                    count as nat,
                ),
            forall|j: int|
                0 <= j < n && #[trigger] mask@[j] == 1u8 ==> strong@[j] == 1u8 || (weak@[j] == 1u8
                    && has_set_neighbor(mask@, w as int, j)),
            !changed ==> forall|j: int|
                0 <= j < n && #[trigger] weak@[j] == 1u8 && has_set_neighbor(mask@, w as int, j)
                    ==> mask@[j] == 1u8,
        decreases n - count, (if changed {
            1int
        } else {
            0int
        }),
    {
        changed = false;
        let ghost snapshot = mask@;
        let ghost count0 = count as int;
        proof {
            assert(1 * w == w && w <= n) by (nonlinear_arith)
                requires
                    w * h == n,
                    3 <= h,
                    0 <= w,
            ;
            assert forall|j: int| 0 <= j < 1 * w implies !interior(w as int, h as int, j) by {
                vstd::arithmetic::div_mod::lemma_fundamental_div_mod_converse(j, w as int, 0, j);
            }
        }
        let mut y: usize = 1;
        while y < h - 1
            invariant
                1 <= y <= h - 1,
                mask@.len() == n,
                count == count_ones(mask@),
                count <= n,
                count0 <= count,
                changed ==> count0 < count,
                forall|j: int| 0 <= j < n ==> #[trigger] mask@[j] == 1u8 || mask@[j] == 0u8,
                forall|j: int| 0 <= j < n && strong@[j] == 1u8 ==> #[trigger] mask@[j] == 1u8,
                forall|j: int|
                    0 <= j < n && #[trigger] mask@[j] == 1u8 ==> reachable(
                        strong@,
                        weak@,
                        w as int,
                        j,
                        count as nat,
                    ),
                forall|j: int|
                    0 <= j < n && #[trigger] mask@[j] == 1u8 ==> strong@[j] == 1u8 || (weak@[j]
                        == 1u8 && has_set_neighbor(mask@, w as int, j)),
                !changed ==> mask@ == snapshot,
                !changed ==> forall|j: int|
                    0 <= j < y * w && #[trigger] weak@[j] == 1u8 && has_set_neighbor(
                        mask@,
                        w as int,
                        j,
                    ) ==> mask@[j] == 1u8,
            decreases h - 1 - y,
        {
            proof {
                assert((y + 1) * w <= h * w && y * w + w == (y + 1) * w && h * w == n && w <= y
                    * w && (y + 1) * w + w == (y + 2) * w && (y + 2) * w <= n)
                    by (nonlinear_arith)
                    requires
                        w * h == n,
                        1 <= y,
                        y + 2 <= h,
                        0 <= w,
                ;
                assert forall|j: int| y * w <= j < y * w + 1 implies !interior(
                    w as int,
                    h as int,
                    j,
                ) by {
                    vstd::arithmetic::div_mod::lemma_fundamental_div_mod_converse(
                        j,
                        w as int,
                        y as int,
                        j - y * w,
                    );
                }
            }
            let mut x: usize = 1;
            while x < w - 1
                invariant
                    1 <= x <= w - 1,
                    1 <= y < h - 1,
                    mask@.len() == n,
                    count == count_ones(mask@),
                    count <= n,
                    count0 <= count,
                    changed ==> count0 < count,
                    (y + 1) * w <= n,
                    y * w + w == (y + 1) * w,
                    w <= y * w,
                    (y + 1) * w + w == (y + 2) * w,
                    (y + 2) * w <= n,
                    forall|j: int| 0 <= j < n ==> #[trigger] mask@[j] == 1u8 || mask@[j] == 0u8,
                    forall|j: int|
                        0 <= j < n && strong@[j] == 1u8 ==> #[trigger] mask@[j] == 1u8,
                    forall|j: int|
                        0 <= j < n && #[trigger] mask@[j] == 1u8 ==> reachable(
                            strong@,
                            weak@,
                            w as int,
                            j,
                            count as nat,
                        ),
                    forall|j: int|
                        0 <= j < n && #[trigger] mask@[j] == 1u8 ==> strong@[j] == 1u8 || (weak@[j]
                            == 1u8 && has_set_neighbor(mask@, w as int, j)),
                    !changed ==> mask@ == snapshot,
                    !changed ==> forall|j: int|
                        0 <= j < y * w + x && #[trigger] weak@[j] == 1u8 && has_set_neighbor(
                            mask@,
                            w as int,
                            j,
                        ) ==> mask@[j] == 1u8,
                decreases w - 1 - x,
            {
                let i2 = y * w + x;
                if mask[i2] == 0u8 && weak[i2] == 1u8 {
                    let any = mask[i2 - 1] == 1u8 || mask[i2 + 1] == 1u8 || mask[i2 - w] == 1u8
                        || mask[i2 + w] == 1u8 || mask[i2 - w - 1] == 1u8 || mask[i2 - w + 1]
                        == 1u8 || mask[i2 + w - 1] == 1u8 || mask[i2 + w + 1] == 1u8;
                    if any {
                        let ghost before = mask@;
                        proof {
                            lemma_count_ones_update(mask@, i2 as int);
                            lemma_count_ones_le_len(mask@.update(i2 as int, 1u8));
                        }
                        mask[i2] = 1u8;
                        count = count + 1;
                        changed = true;
                        proof {
                            // the mask only grows, so earlier justifications
                            // for set pixels still stand
                            assert(mask@ == before.update(i2 as int, 1u8));
                            assert forall|j: int|
                                0 <= j < n && #[trigger] before[j] == 1u8 implies mask@[j]
                                == 1u8 by {}
                            // the new pixel is reached through whichever
                            // neighbour justified the promotion, one step
                            // after that neighbour
                            let wi = w as int;
                            let ii = i2 as int;
                            let k0 = (count - 1) as nat;
                            assert(strong@[ii] == 0u8);
                            if before[ii - 1] == 1u8 {
                                assert(reachable(strong@, weak@, wi, ii - 1, k0));
                            } else if before[ii + 1] == 1u8 {
                                assert(reachable(strong@, weak@, wi, ii + 1, k0));
                            } else if before[ii - wi] == 1u8 {
                                assert(reachable(strong@, weak@, wi, ii - wi, k0));
                            } else if before[ii + wi] == 1u8 {
                                assert(reachable(strong@, weak@, wi, ii + wi, k0));
                            } else if before[ii - wi - 1] == 1u8 {
                                assert(reachable(strong@, weak@, wi, ii - wi - 1, k0));
                            } else if before[ii - wi + 1] == 1u8 {
                                assert(reachable(strong@, weak@, wi, ii - wi + 1, k0));
                            } else if before[ii + wi - 1] == 1u8 {
                                assert(reachable(strong@, weak@, wi, ii + wi - 1, k0));
                            } else {
                                assert(reachable(strong@, weak@, wi, ii + wi + 1, k0));
                            }
                            assert(reachable(strong@, weak@, wi, ii, count as nat));
                            assert forall|j: int|
                                0 <= j < n && #[trigger] mask@[j] == 1u8 implies reachable(
                                strong@,
                                weak@,
                                wi,
                                j,
                                count as nat,
                            ) by {
                                if j != ii {
                                    lemma_reachable_mono(strong@, weak@, wi, j, k0, count as nat);
                                }
                            }
                            assert forall|j: int|
                                0 <= j < n && interior(w as int, h as int, j) && has_set_neighbor(
                                    before,
                                    w as int,
                                    j,
                                ) implies #[trigger] has_set_neighbor(mask@, w as int, j) by {
                                vstd::arithmetic::div_mod::lemma_fundamental_div_mod(j, w as int);
                                assert(w <= w * (j / (w as int)) && w * (j / (w as int)) + 2 * w
                                    <= w * h) by (nonlinear_arith)
                                    requires
                                        0 < w,
                                        1 <= j / (w as int),
                                        j / (w as int) < h - 1,
                                ;
                            }
                            assert(has_set_neighbor(mask@, w as int, i2 as int));
                        }
                    }
                }
                x = x + 1;
            }
            proof {
                assert forall|j: int| y * w + (w - 1) <= j < (y + 1) * w implies !interior(
                    w as int,
                    h as int,
                    j,
                ) by {
                    vstd::arithmetic::div_mod::lemma_fundamental_div_mod_converse(
                        j,
                        w as int,
                        y as int,
                        j - y * w,
                    );
                }
            }
            y = y + 1;
        }
        proof {
            if !changed {
                assert((h - 1) * w + w == h * w && w * h == h * w) by (nonlinear_arith);
                assert forall|j: int|
                    0 <= j < n && #[trigger] weak@[j] == 1u8 && has_set_neighbor(
                        mask@,
                        w as int,
                        j,
                    ) implies mask@[j] == 1u8 by {
                    if j >= (h - 1) * w {
                        vstd::arithmetic::div_mod::lemma_fundamental_div_mod_converse(
                            j,
                            w as int,
                            h as int - 1,
                            j - (h - 1) * w,
                        );
                        assert(!interior(w as int, h as int, j));
                    }
                }
            }
        }
    }
    proof {
        assert forall|i: int| 0 <= i < n implies (mask@[i] == 1u8 <==> reachable(
            strong@,
            weak@,
            w as int,
            i,
            (w * h) as nat,
        )) by {
            if mask@[i] == 1u8 {
                lemma_reachable_mono(strong@, weak@, w as int, i, count as nat, (w * h) as nat);
            }
            if reachable(strong@, weak@, w as int, i, (w * h) as nat) {
                lemma_closed_mask_reachable(
                    strong@,
                    weak@,
                    mask@,
                    w as int,
                    h as int,
                    i,
                    (w * h) as nat,
                );
            }
        }
    }
    mask
}

proof fn lemma_push_keeps_contains(s: Seq<EdgePoint>, v: EdgePoint, e: EdgePoint)
    requires
        s.contains(e),
    ensures
        s.push(v).contains(e),
{
    let k = choose|k: int| 0 <= k < s.len() && s[k] == e;
    assert(s.push(v)[k] == e);
}

/// Collect the surviving edge pixels as coordinates, dropping everything
/// above the horizon row and the one-pixel frame at the image border.
/// The result holds exactly the set interior mask pixels at or below the
/// horizon, in scan order.
#[verifier::loop_isolation(false)]
pub fn collect_edge_points(mask: &Vec<u8>, w: usize, h: usize, horizon_y: u32) -> (edges: Vec<
    EdgePoint,
>)
    requires
        3 <= w <= 0xffff_ffff,
        3 <= h <= 0xffff_ffff,
        mask@.len() == w * h,
    ensures
        forall|k: int|
            0 <= k < edges@.len() ==> {
                let p = #[trigger] edges@[k];
                &&& 1 <= p.x < w - 1
                &&& 1 <= p.y < h - 1
                &&& p.y >= horizon_y
                &&& mask@[p.y * w + p.x] == 1u8
            },
        forall|j: int|
            0 <= j < mask@.len() && interior(w as int, h as int, j) && #[trigger] mask@[j] == 1u8
                && j / (w as int) >= horizon_y ==> edges@.contains(
                EdgePoint { x: (j % (w as int)) as u32, y: (j / (w as int)) as u32 },
            ),
        forall|k1: int, k2: int|
            0 <= k1 < k2 < edges@.len() ==> #[trigger] edges@[k1].y * w + edges@[k1].x
                < #[trigger] edges@[k2].y * w + edges@[k2].x,
{
    let n = mask.len();
    let mut edges: Vec<EdgePoint> = Vec::new();
    let y_start: usize = if horizon_y <= 1 {
        1
    } else if (horizon_y as u64) >= (h as u64) {
        h
    } else {
        horizon_y as usize
    };

    proof {
        assert(y_start * w <= h * w && h * w == n) by (nonlinear_arith)
            requires
                w * h == n,
                0 <= y_start <= h,
                0 <= w,
        ;
        assert forall|j: int|
            0 <= j < y_start * w && interior(w as int, h as int, j) && #[trigger] mask@[j] == 1u8
                implies j / (w as int) < horizon_y by {
            assert(j / (w as int) < y_start) by {
                vstd::arithmetic::div_mod::lemma_fundamental_div_mod(j, w as int);
                assert(y_start <= j / (w as int) ==> y_start * w <= w * (j / (w as int)))
                    by (nonlinear_arith)
                    requires
                        0 < w,
                ;
            }
        }
    }

    let mut y: usize = y_start;
    while y < h - 1
        invariant
            y_start <= y,
            y <= h || y == y_start,
            y < h - 1 ==> y_start <= y < h - 1,
            mask@.len() == n,
            y_start * w <= y * w,
            forall|k: int|
                0 <= k < edges@.len() ==> {
                    let p = #[trigger] edges@[k];
                    &&& 1 <= p.x < w - 1
                    &&& 1 <= p.y < h - 1
                    &&& p.y >= horizon_y
                    &&& mask@[p.y * w + p.x] == 1u8
                },
            forall|j: int|
                0 <= j < y * w && interior(w as int, h as int, j) && #[trigger] mask@[j] == 1u8
                    && j / (w as int) >= horizon_y ==> edges@.contains(
                    EdgePoint { x: (j % (w as int)) as u32, y: (j / (w as int)) as u32 },
                ),
            forall|k1: int, k2: int|
                0 <= k1 < k2 < edges@.len() ==> #[trigger] edges@[k1].y * w + edges@[k1].x
                    < #[trigger] edges@[k2].y * w + edges@[k2].x,
            forall|k: int|
                0 <= k < edges@.len() ==> #[trigger] edges@[k].y * w + edges@[k].x < y * w,
        decreases h - y,
    {
        proof {
            assert((y + 1) * w <= h * w && y * w + w == (y + 1) * w && h * w == n)
                by (nonlinear_arith)
                requires
                    w * h == n,
                    0 <= y,
                    y + 1 <= h,
                    0 <= w,
            ;
            assert forall|j: int| y * w <= j < y * w + 1 implies !interior(w as int, h as int, j) by {
                vstd::arithmetic::div_mod::lemma_fundamental_div_mod_converse(
                    j,
                    w as int,
                    y as int,
                    j - y * w,
                );
            }
        }
        let mut x: usize = 1;
        while x < w - 1
            invariant
                1 <= x <= w - 1,
                y_start <= y < h - 1,
                mask@.len() == n,
                (y + 1) * w <= n,
                y * w + w == (y + 1) * w,
                forall|k: int|
                    0 <= k < edges@.len() ==> {
                        let p = #[trigger] edges@[k];
                        &&& 1 <= p.x < w - 1
                        &&& 1 <= p.y < h - 1
                        &&& p.y >= horizon_y
                        &&& mask@[p.y * w + p.x] == 1u8
                    },
                forall|j: int|
                    0 <= j < y * w + x && interior(w as int, h as int, j) && #[trigger] mask@[j]
                        == 1u8 && j / (w as int) >= horizon_y ==> edges@.contains(
                        EdgePoint { x: (j % (w as int)) as u32, y: (j / (w as int)) as u32 },
                    ),
                forall|k1: int, k2: int|
                    0 <= k1 < k2 < edges@.len() ==> #[trigger] edges@[k1].y * w + edges@[k1].x
                        < #[trigger] edges@[k2].y * w + edges@[k2].x,
                forall|k: int|
                    0 <= k < edges@.len() ==> #[trigger] edges@[k].y * w + edges@[k].x < y * w
                        + x,
            decreases w - 1 - x,
        {
            let i = y * w + x;
            proof {
                vstd::arithmetic::div_mod::lemma_fundamental_div_mod_converse(
                    i as int,
                    w as int,
                    y as int,
                    x as int,
                );
            }
            if mask[i] == 1u8 {
                let p = EdgePoint { x: x as u32, y: y as u32 };
                let ghost old_edges = edges@;
                edges.push(p);
                proof {
                    assert(edges@ == old_edges.push(p));
                    assert(edges@[old_edges.len() as int] == p);
                    assert forall|j: int|
                        0 <= j < y * w + x && interior(w as int, h as int, j) && #[trigger] mask@[j]
                            == 1u8 && j / (w as int) >= horizon_y implies edges@.contains(
                        EdgePoint { x: (j % (w as int)) as u32, y: (j / (w as int)) as u32 },
                    ) by {
                        lemma_push_keeps_contains(
                            old_edges,
                            p,
                            EdgePoint { x: (j % (w as int)) as u32, y: (j / (w as int)) as u32 },
                        );
                    }
                    assert(edges@.contains(p)) by {
                        assert(edges@[edges@.len() - 1] == p);
                    }
                }
            }
            x = x + 1;
        }
        proof {
            assert forall|j: int| y * w + (w - 1) <= j < (y + 1) * w implies !interior(
                w as int,
                h as int,
                j,
            ) by {
                vstd::arithmetic::div_mod::lemma_fundamental_div_mod_converse(
                    j,
                    w as int,
                    y as int,
                    j - y * w,
                );
            }
        }
        y = y + 1;
    }
    proof {
        if y_start < h {
            assert((h - 1) * w + w == h * w && w * h == h * w) by (nonlinear_arith);
            assert forall|j: int| (h - 1) * w <= j < n implies !interior(w as int, h as int, j) by {
                vstd::arithmetic::div_mod::lemma_fundamental_div_mod_converse(
                    j,
                    w as int,
                    h as int - 1,
                    j - (h - 1) * w,
                );
            }
        }
    }
    edges
}

/// The horizon row encoded by an optional exclusion threshold.
pub open spec fn horizon_row(upper_points_exclusion_threshold_y: Option<u32>) -> u32 {
    match upper_points_exclusion_threshold_y {
        Some(y) => y,
        None => 0u32,
    }
}

/// The single-channel image the pipeline starts from, as the flat matrix
/// buffer the convolution engine reads.
pub open spec fn source_matrix_seq(
    image: &crate::edge_source::YCbCr422Image,
    source_type: &crate::edge_source::EdgeSourceType,
) -> Seq<i16> {
    Seq::new(
        (image.width * image.height) as nat,
        |p: int| crate::edge_source::source_pixel(image, source_type, p) as i16,
    )
}

/// The blurred matrix the gradients are taken of: three box passes.
pub open spec fn pipeline_blurred(
    image: &crate::edge_source::YCbCr422Image,
    source_type: &crate::edge_source::EdgeSourceType,
    box_width: nat,
) -> Seq<i16> {
    let rows = image.width as int;
    let cols = image.height as int;
    let shift = divisor_shift(box_width as int) as u32;
    blur_pass(
        blur_pass(
            blur_pass(source_matrix_seq(image, source_type), rows, cols, box_width, shift),
            rows,
            cols,
            box_width,
            shift,
        ),
        rows,
        cols,
        box_width,
        shift,
    )
}

/// The strong mask as a mathematical sequence.
pub open spec fn strong_mask_seq(gx: Seq<i16>, gy: Seq<i16>, w: int, h: int, high: u32) -> Seq<
    u8,
> {
    Seq::new(
        (w * h) as nat,
        |i: int|
            if nms_strong_keep(gx, gy, w, h, high, i) {
                1u8
            } else {
                0u8
            },
    )
}

/// The weak mask as a mathematical sequence.
pub open spec fn weak_mask_seq(
    gx: Seq<i16>,
    gy: Seq<i16>,
    w: int,
    h: int,
    low: u32,
    high: u32,
) -> Seq<u8> {
    Seq::new(
        (w * h) as nat,
        |i: int|
            if weak_edge(gx, gy, w, h, low, high, i) {
                1u8
            } else {
                0u8
            },
    )
}

/// The x gradient of the blurred image.
pub open spec fn pipeline_gx(
    image: &crate::edge_source::YCbCr422Image,
    source_type: &crate::edge_source::EdgeSourceType,
    box_width: nat,
) -> Seq<i16> {
    sobel_gx_spec(
        pipeline_blurred(image, source_type, box_width),
        image.width as int,
        image.height as int,
    )
}

/// The y gradient of the blurred image.
pub open spec fn pipeline_gy(
    image: &crate::edge_source::YCbCr422Image,
    source_type: &crate::edge_source::EdgeSourceType,
    box_width: nat,
) -> Seq<i16> {
    sobel_gy_spec(
        pipeline_blurred(image, source_type, box_width),
        image.width as int,
        image.height as int,
    )
}

/// Full Canny-style edge extraction: source channel, box-filter blur,
/// Sobel gradients, non-maximum suppression with hysteresis, and point
/// collection.  Every returned point lies strictly inside the image, at
/// or below the horizon row, and at a pixel that reached at least the
/// weak threshold; every strong local maximum at or below the horizon is
/// returned.  Between those two bounds sits the hysteresis flood, which
/// promotes weak pixels 8-connected to kept ones.
pub fn get_edges_canny(
    gaussian_box_width: usize,
    canny_low_threshold: u32,
    canny_high_threshold: u32,
    image: &crate::edge_source::YCbCr422Image,
    source_channel: crate::edge_source::EdgeSourceType,
    upper_points_exclusion_threshold_y: Option<u32>,
) -> (edges: Vec<EdgePoint>)
    requires
        image.wf(),
        3 <= gaussian_box_width <= image.width,
        gaussian_box_width <= image.height,
        gaussian_box_width % 2 == 1,
        gaussian_box_width <= 0xffff,
        image.width <= 0xffff_ffff,
        image.height <= 0xffff_ffff,
    ensures
        forall|k: int|
            0 <= k < edges@.len() ==> {
                let p = #[trigger] edges@[k];
                &&& 1 <= p.x < image.width - 1
                &&& 1 <= p.y < image.height - 1
                &&& p.y >= horizon_row(upper_points_exclusion_threshold_y)
                &&& (nms_strong_keep(
                    pipeline_gx(image, &source_channel, gaussian_box_width as nat),
                    pipeline_gy(image, &source_channel, gaussian_box_width as nat),
                    image.width as int,
                    image.height as int,
                    canny_high_threshold,
                    p.y * image.width + p.x,
                ) || weak_edge(
                    pipeline_gx(image, &source_channel, gaussian_box_width as nat),
                    pipeline_gy(image, &source_channel, gaussian_box_width as nat),
                    image.width as int,
                    image.height as int,
                    canny_low_threshold,
                    canny_high_threshold,
                    p.y * image.width + p.x,
                ))
            },
        forall|i: int|
            0 <= i < image.width * image.height ==> (#[trigger] edges@.contains(
                EdgePoint {
                    x: (i % (image.width as int)) as u32,
                    y: (i / (image.width as int)) as u32,
                },
            ) <==> (reachable(
                strong_mask_seq(
                    pipeline_gx(image, &source_channel, gaussian_box_width as nat),
                    pipeline_gy(image, &source_channel, gaussian_box_width as nat),
                    image.width as int,
                    image.height as int,
                    canny_high_threshold,
                ),
                weak_mask_seq(
                    pipeline_gx(image, &source_channel, gaussian_box_width as nat),
                    pipeline_gy(image, &source_channel, gaussian_box_width as nat),
                    image.width as int,
                    image.height as int,
                    canny_low_threshold,
                    canny_high_threshold,
                ),
                image.width as int,
                i,
                (image.width * image.height) as nat,
            ) && i / (image.width as int) >= horizon_row(upper_points_exclusion_threshold_y))),
{
    let ghost gx_spec = pipeline_gx(image, &source_channel, gaussian_box_width as nat);
    let ghost gy_spec = pipeline_gy(image, &source_channel, gaussian_box_width as nat);

    let source = crate::edge_source::get_edge_source_image(image, source_channel);
    let matrix = image_to_matrix(&source);
    proof {
        assert(matrix.data@ =~= source_matrix_seq(image, &source_channel));
    }
    let blurred = gaussian_blur_box_filter(&matrix, gaussian_box_width);
    let (gx, gy) = sobel_gradients(&blurred);
    proof {
        assert(gx.data@ == gx_spec);
        assert(gy.data@ == gy_spec);
    }
    let strong = strong_edge_mask(&gx, &gy, canny_high_threshold);
    let weak = weak_edge_mask(&gx, &gy, canny_low_threshold, canny_high_threshold);
    let mask = hysteresis(&strong, &weak, image.width, image.height);
    let horizon = match upper_points_exclusion_threshold_y {
        Some(y) => y,
        None => 0u32,
    };
    let edges = collect_edge_points(&mask, image.width, image.height, horizon);
    proof {
        let w = image.width as int;
        let h = image.height as int;
        assert forall|k: int| 0 <= k < edges@.len() implies {
            let p = #[trigger] edges@[k];
            nms_strong_keep(gx_spec, gy_spec, w, h, canny_high_threshold, p.y * w + p.x)
                || weak_edge(
                gx_spec,
                gy_spec,
                w,
                h,
                canny_low_threshold,
                canny_high_threshold,
                p.y * w + p.x,
            )
        } by {
            let p = edges@[k];
            let i = p.y * w + p.x;
            assert(0 <= i < w * h) by (nonlinear_arith)
                requires
                    i == p.y * w + p.x,
                    1 <= p.x < w - 1,
                    1 <= p.y < h - 1,
                    3 <= w,
                    3 <= h,
            ;
            assert(mask@[i] == 1u8);
            assert(strong@[i] == 1u8 || weak@[i] == 1u8);
        }
        let strong_spec = strong_mask_seq(gx_spec, gy_spec, w, h, canny_high_threshold);
        let weak_spec = weak_mask_seq(
            gx_spec,
            gy_spec,
            w,
            h,
            canny_low_threshold,
            canny_high_threshold,
        );
        assert(strong@ =~= strong_spec);
        assert(weak@ =~= weak_spec);
        assert forall|i: int| 0 <= i < w * h implies (#[trigger] edges@.contains(
            EdgePoint { x: (i % w) as u32, y: (i / w) as u32 },
        ) <==> (reachable(strong_spec, weak_spec, w, i, (w * h) as nat) && i / w >= horizon)) by {
            vstd::arithmetic::div_mod::lemma_fundamental_div_mod(i, w);
            if reachable(strong_spec, weak_spec, w, i, (w * h) as nat) && i / w >= horizon {
                assert(mask@[i] == 1u8);
                assert(strong@[i] == 1u8 || weak@[i] == 1u8);
                assert(interior(w, h, i));
                assert(edges@.contains(EdgePoint { x: (i % w) as u32, y: (i / w) as u32 }));
            }
            if edges@.contains(EdgePoint { x: (i % w) as u32, y: (i / w) as u32 }) {
                let p = EdgePoint { x: (i % w) as u32, y: (i / w) as u32 };
                let k = choose|k: int| 0 <= k < edges@.len() && edges@[k] == p;
                assert(edges@[k] == p);
                assert(i / w < h && (i / w) * w == w * (i / w)) by (nonlinear_arith)
                    requires
                        0 < w,
                        w * (i / w) <= i,
                        i < w * h,
                ;
                assert(p.y * w + p.x == i);
                assert(mask@[i] == 1u8);
                assert(p.y >= horizon);
            }
        }
    }
    edges
}

} // verus!
