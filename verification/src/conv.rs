//! Separable integer convolution engine on transposed (column-major)
//! matrices.
//!
//! All passes accumulate in `i32`, rescale by an arithmetic right shift of
//! `ceil_log2(scale)` bits, and clamp the result into the `i16` output
//! range.  A border of half the kernel size is left untouched on the axis
//! being convolved; callers that need a clean output zero the destination
//! first.

use vstd::prelude::*;
use vstd::arithmetic::power2::pow2;

use crate::matrix::TransposedMatrix;

verus! {

/// Largest scale the engine accepts: the next power of two must still fit
/// in a `u32`, so the shift amount stays a valid one.
pub const MAX_SCALE: u32 = 0x8000_0000;

/// Absolute value of a mathematical integer.
pub open spec fn abs1(x: int) -> int {
    if x < 0 { -x } else { x }
}

/// Sum of `|ker[0]| + ... + |ker[n-1]|`.
pub open spec fn abs_sum(ker: Seq<i32>, n: nat) -> int
    decreases n,
{
    if n == 0 {
        0
    } else {
        abs_sum(ker, (n - 1) as nat) + abs1(ker[n - 1] as int)
    }
}

/// The all-ones box kernel of width `w`.
pub open spec fn box_kernel_seq(w: nat) -> Seq<i32> {
    Seq::new(w, |i: int| 1i32)
}

/// Strided dot product
/// `ker[0]*src[base] + ker[1]*src[base+stride] + ... + ker[n-1]*src[base+(n-1)*stride]`.
///
/// With `stride == 1` this is the window of one column that the horizontal
/// pass reads; with `stride == rows` it is the same row of `n` consecutive
/// columns, which the vertical pass reads.
pub open spec fn dot(ker: Seq<i32>, src: Seq<i16>, base: int, stride: int, n: nat) -> int
    decreases n,
{
    if n == 0 {
        0
    } else {
        dot(ker, src, base, stride, (n - 1) as nat) + ker[n - 1] * src[base + (n - 1) * stride]
    }
}

/// The number of bits the engine shifts right to divide by `scale`:
/// `ceil_log2(scale)`, and 0 for a scale of 1.
pub open spec fn divisor_shift(scale: int) -> nat
    decreases scale,
{
    if scale <= 1 {
        0
    } else {
        1 + divisor_shift((scale + 1) / 2)
    }
}

/// Rescaling step: an arithmetic right shift, skipped entirely for shift 0.
pub open spec fn spec_scale_down(acc: i32, shift: u32) -> i32 {
    if shift == 0 { acc } else { acc >> shift }
}

/// Saturating clamp of an accumulator into the `i16` range.
pub open spec fn clamp16(x: int) -> int {
    if x < -0x8000 { -0x8000 } else if x > 0x7fff { 0x7fff } else { x }
}

/// The output sample produced from the raw accumulator `acc`.
pub open spec fn out_val(acc: int, shift: u32) -> i16
    recommends -0x8000_0000 <= acc < 0x8000_0000,
{
    clamp16(spec_scale_down(acc as i32, shift) as int) as i16
}

/// `divisor_shift` grows with its argument only as fast as the exponent:
/// any scale at most `2^k` shifts by at most `k` bits.
pub proof fn lemma_divisor_shift_le(scale: int, k: nat)
    requires
        scale <= pow2(k),
    ensures
        divisor_shift(scale) <= k,
    decreases k,
{
    vstd::arithmetic::power2::lemma_pow2_pos(k);
    if scale <= 1 {
    } else {
        if k == 0 {
            // pow2(0) == 1 contradicts 1 < scale <= pow2(k)
            vstd::arithmetic::power2::lemma2_to64();
        } else {
            assert(pow2(k) == 2 * pow2((k - 1) as nat)) by {
                vstd::arithmetic::power2::lemma_pow2_unfold(k);
            }
            lemma_divisor_shift_le((scale + 1) / 2, (k - 1) as nat);
        }
    }
}

/// Any accepted scale shifts by at most 31 bits, so the shift is a valid
/// `i32` shift amount.
pub proof fn lemma_divisor_shift_31(scale: u32)
    requires
        scale <= MAX_SCALE,
    ensures
        divisor_shift(scale as int) <= 31,
{
    vstd::arithmetic::power2::lemma2_to64();
    lemma_divisor_shift_le(scale as int, 31);
}

/// The bit-shift amount that stands in for division by `scale_value`:
/// zero when no division is needed, else the exponent of the next power of
/// two at or above the scale.
pub fn calculate_divisor(scale_value: u32) -> (r: u32)
    ensures
        r == divisor_shift(scale_value as int),
        r <= 32,
    decreases scale_value,
{
    proof {
        vstd::arithmetic::power2::lemma2_to64();
        lemma_divisor_shift_le(scale_value as int, 32);
    }
    if scale_value <= 1 {
        0
    } else {
        let half = (scale_value - 1) / 2 + 1;
        assert(half == (scale_value + 1) / 2);
        1 + calculate_divisor(half)
    }
}

/// `abs_sum` is never negative.
pub proof fn lemma_abs_sum_nonneg(ker: Seq<i32>, n: nat)
    ensures
        0 <= abs_sum(ker, n),
    decreases n,
{
    if n > 0 {
        lemma_abs_sum_nonneg(ker, (n - 1) as nat);
    }
}

/// `abs_sum` grows with the prefix length.
pub proof fn lemma_abs_sum_mono(ker: Seq<i32>, m: nat, n: nat)
    requires
        m <= n,
    ensures
        abs_sum(ker, m) <= abs_sum(ker, n),
    decreases n,
{
    if m < n {
        lemma_abs_sum_mono(ker, m, (n - 1) as nat);
    }
}

/// Every strided dot product of `i16` samples is bounded by the kernel's
/// absolute weight sum times the widest sample magnitude.
pub proof fn lemma_dot_bound(ker: Seq<i32>, src: Seq<i16>, base: int, stride: int, n: nat)
    ensures
        abs1(dot(ker, src, base, stride, n)) <= abs_sum(ker, n) * 32768,
    decreases n,
{
    if n > 0 {
        lemma_dot_bound(ker, src, base, stride, (n - 1) as nat);
        let k = ker[n - 1] as int;
        let s = src[base + (n - 1) * stride] as int;
        assert(abs1(k * s) <= abs1(k) * 32768) by (nonlinear_arith)
            requires
                -32768 <= s <= 32767,
        ;
    }
}

/// Clamp a raw accumulator into the `i16` range and narrow it.
fn clamp_to_i16(x: i32) -> (r: i16)
    ensures
        r as int == clamp16(x as int),
{
    if x < -0x8000 {
        -0x8000
    } else if x > 0x7fff {
        0x7fff
    } else {
        x as i16
    }
}

/// One rescale step of the engine; mirrors [`spec_scale_down`].
fn scale_down(acc: i32, shift: u32) -> (r: i32)
    requires
        shift < 32,
    ensures
        r == spec_scale_down(acc, shift),
{
    if shift == 0 {
        acc
    } else {
        acc >> shift
    }
}

/// Accumulate one strided kernel window into an `i32`, the shared inner
/// step of every pass.  The caller's weight-sum bound rules out overflow.
fn accumulate_dot(data: &Vec<i16>, kernel: &Vec<i32>, base: usize, stride: usize) -> (acc: i32)
    requires
        1 <= kernel@.len(),
        1 <= stride,
        abs_sum(kernel@, kernel@.len()) * 32768 <= 0x7fff_ffff,
        base + (kernel@.len() - 1) * stride < data@.len(),
    ensures
        acc == dot(kernel@, data@, base as int, stride as int, kernel@.len()),
{
    let klen = kernel.len();
    let data_len = data.len();
    let mut acc: i32 = 0;
    let mut t: usize = 0;
    while t < klen
        invariant
            t <= klen,
            klen == kernel@.len(),
            acc == dot(kernel@, data@, base as int, stride as int, t as nat),
            1 <= stride,
            data_len == data@.len(),
            base + (klen - 1) * stride < data@.len(),
            abs_sum(kernel@, klen as nat) * 32768 <= 0x7fff_ffff,
        decreases klen - t,
    {
        proof {
            lemma_dot_bound(kernel@, data@, base as int, stride as int, t as nat);
            lemma_abs_sum_nonneg(kernel@, t as nat);
            lemma_abs_sum_mono(kernel@, (t + 1) as nat, klen as nat);
            assert(t * stride <= (klen - 1) * stride) by (nonlinear_arith)
                requires
                    0 <= stride,
                    0 <= t <= klen - 1,
            ;
        }
        let sample = data[base + t * stride] as i32;
        let weight = kernel[t];
        proof {
            assert(abs1(weight * sample) <= abs1(weight as int) * 32768) by (nonlinear_arith)
                requires
                    -32768 <= sample <= 32767,
            ;
        }
        acc = acc + weight * sample;
        t = t + 1;
    }
    acc
}

/// Partial strided dot product over the window `[from, to)` of the kernel.
pub open spec fn dot_window(
    ker: Seq<i32>,
    src: Seq<i16>,
    base: int,
    stride: int,
    from: nat,
    to: nat,
) -> int
    decreases to,
{
    if to <= from {
        0
    } else {
        dot_window(ker, src, base, stride, from, (to - 1) as nat) + ker[to - 1] * src[base + (to
            - 1) * stride]
    }
}

/// A mirror-symmetric kernel: each weight equals its opposite.
pub open spec fn kernel_symmetric(ker: Seq<i32>) -> bool {
    forall|i: int| 0 <= i < ker.len() / 2 ==> #[trigger] ker[i] == ker[ker.len() - 1 - i]
}

/// Paired accumulation for a symmetric kernel: the two mirrored samples
/// are added first, then multiplied once by the shared weight.  `n` pairs
/// from the outside in have been taken.
pub open spec fn dot_sym(ker: Seq<i32>, src: Seq<i16>, base: int, stride: int, n: nat) -> int
    decreases n,
{
    if n == 0 {
        0
    } else {
        dot_sym(ker, src, base, stride, (n - 1) as nat) + ker[n - 1] * (src[base + (n - 1) * stride]
            + src[base + (ker.len() - n) * stride])
    }
}

/// The full dot product is the window over the whole kernel.
pub proof fn lemma_dot_is_window(ker: Seq<i32>, src: Seq<i16>, base: int, stride: int, n: nat)
    ensures
        dot(ker, src, base, stride, n) == dot_window(ker, src, base, stride, 0, n),
    decreases n,
{
    if n > 0 {
        lemma_dot_is_window(ker, src, base, stride, (n - 1) as nat);
    }
}

/// Windows over adjacent ranges add up.
pub proof fn lemma_dot_window_split(
    ker: Seq<i32>,
    src: Seq<i16>,
    base: int,
    stride: int,
    a: nat,
    b: nat,
    c: nat,
)
    requires
        a <= b <= c,
    ensures
        dot_window(ker, src, base, stride, a, c) == dot_window(ker, src, base, stride, a, b)
            + dot_window(ker, src, base, stride, b, c),
    decreases c,
{
    if c > b {
        lemma_dot_window_split(ker, src, base, stride, a, b, (c - 1) as nat);
    }
}

/// Pairing from the outside in: after `n` pairs, the paired sum equals the
/// two matching windows of the plain sum.
proof fn lemma_dot_sym_windows(ker: Seq<i32>, src: Seq<i16>, base: int, stride: int, n: nat)
    requires
        kernel_symmetric(ker),
        ker.len() % 2 == 1,
        n <= ker.len() / 2,
    ensures
        dot_sym(ker, src, base, stride, n) == dot_window(ker, src, base, stride, 0, n)
            + dot_window(ker, src, base, stride, (ker.len() - n) as nat, ker.len()),
    decreases n,
{
    let klen = ker.len();
    if n > 0 {
        lemma_dot_sym_windows(ker, src, base, stride, (n - 1) as nat);
        lemma_dot_window_split(
            ker,
            src,
            base,
            stride,
            (klen - n) as nat,
            (klen - n + 1) as nat,
            klen,
        );
        let k = ker[n - 1] as int;
        let s1 = src[base + (n - 1) * stride] as int;
        let s2 = src[base + (klen - n) * stride] as int;
        assert(k * (s1 + s2) == k * s1 + k * s2) by (nonlinear_arith);
        assert(ker[n - 1] == ker[klen - 1 - (n - 1)]);
        assert(dot_window(ker, src, base, stride, (klen - n) as nat, (klen - n) as nat) == 0);
        assert(dot_window(ker, src, base, stride, (klen - n) as nat, (klen - n + 1) as nat)
            == ker[klen - n] * src[base + (klen - n) * stride]);
    }
}

/// The symmetric-pair optimization is exact: the centre term plus all the
/// mirrored pairs, each summed before its single multiplication, equals
/// the plain left-to-right accumulation, weight by weight.
pub proof fn lemma_symmetric_pairing(ker: Seq<i32>, src: Seq<i16>, base: int, stride: int)
    requires
        kernel_symmetric(ker),
        ker.len() % 2 == 1,
        1 <= ker.len(),
    ensures
        ker[ker.len() as int / 2] * src[base + (ker.len() as int / 2) * stride] + dot_sym(
            ker,
            src,
            base,
            stride,
            (ker.len() / 2) as nat,
        ) == dot(ker, src, base, stride, ker.len()),
{
    let klen = ker.len();
    let half = (klen / 2) as nat;
    lemma_dot_is_window(ker, src, base, stride, klen);
    lemma_dot_window_split(ker, src, base, stride, 0, half, klen);
    lemma_dot_window_split(ker, src, base, stride, half, (half + 1) as nat, klen);
    lemma_dot_sym_windows(ker, src, base, stride, half);
    assert(dot_window(ker, src, base, stride, half, half) == 0);
    assert(dot_window(ker, src, base, stride, half, (half + 1) as nat) == ker[half as int]
        * src[base + half * stride]);
}

/// For a symmetric kernel the absolute weight sum splits into twice the
/// first half plus the centre weight.
proof fn lemma_abs_sum_symmetric_split(ker: Seq<i32>, n: nat)
    requires
        kernel_symmetric(ker),
        ker.len() % 2 == 1,
        1 <= ker.len(),
        n <= ker.len() / 2,
    ensures
        abs_sum(ker, ker.len()) == abs_sum(ker, (ker.len() - n) as nat) + abs_sum(ker, n),
    decreases n,
{
    if n > 0 {
        lemma_abs_sum_symmetric_split(ker, (n - 1) as nat);
        assert(ker[ker.len() - n] == ker[n - 1]);
    }
}

/// The paired partial sums obey the same weight-sum bound, with the
/// doubled sample range of a pair.
proof fn lemma_dot_sym_bound(ker: Seq<i32>, src: Seq<i16>, base: int, stride: int, n: nat)
    ensures
        abs1(dot_sym(ker, src, base, stride, n)) <= 2 * abs_sum(ker, n) * 32768,
    decreases n,
{
    if n > 0 {
        lemma_dot_sym_bound(ker, src, base, stride, (n - 1) as nat);
        let k = ker[n - 1] as int;
        let s1 = src[base + (n - 1) * stride] as int;
        let s2 = src[base + (ker.len() - n) * stride] as int;
        assert(abs1(k * (s1 + s2)) <= 2 * abs1(k) * 32768) by (nonlinear_arith)
            requires
                -32768 <= s1 <= 32767,
                -32768 <= s2 <= 32767,
        ;
    }
}

/// Mirror-symmetry check on a kernel vector.
pub fn is_kernel_symmetric(kernel: &Vec<i32>) -> (r: bool)
    ensures
        r == kernel_symmetric(kernel@),
{
    let klen = kernel.len();
    let half = klen / 2;
    let mut t: usize = 0;
    while t < half
        invariant
            t <= half,
            half == klen / 2,
            klen == kernel@.len(),
            forall|i: int| 0 <= i < t ==> #[trigger] kernel@[i] == kernel@[klen - 1 - i],
        decreases half - t,
    {
        if kernel[t] != kernel[klen - 1 - t] {
            return false;
        }
        t = t + 1;
    }
    true
}

/// Accumulate one strided window of a symmetric kernel with the pairing
/// optimization: centre sample first, then each mirrored pair summed
/// before its one multiplication.  Bit-identical to [`accumulate_dot`].
fn accumulate_dot_symmetric(data: &Vec<i16>, kernel: &Vec<i32>, base: usize, stride: usize) -> (acc:
    i32)
    requires
        1 <= kernel@.len(),
        kernel@.len() % 2 == 1,
        kernel_symmetric(kernel@),
        1 <= stride,
        abs_sum(kernel@, kernel@.len()) * 32768 <= 0x7fff_ffff,
        base + (kernel@.len() - 1) * stride < data@.len(),
    ensures
        acc == dot(kernel@, data@, base as int, stride as int, kernel@.len()),
{
    let klen = kernel.len();
    let half = klen / 2;
    let data_len = data.len();
    proof {
        lemma_abs_sum_nonneg(kernel@, half as nat);
        lemma_abs_sum_symmetric_split(kernel@, half as nat);
        assert(half * stride <= (klen - 1) * stride) by (nonlinear_arith)
            requires
                0 <= stride,
                0 <= half <= klen - 1,
        ;
    }
    let centre_weight = kernel[half];
    let centre_sample = data[base + half * stride] as i32;
    proof {
        assert(abs1(centre_weight * centre_sample) <= abs1(centre_weight as int) * 32768)
            by (nonlinear_arith)
            requires
                -32768 <= centre_sample <= 32767,
        ;
    }
    let mut acc: i32 = centre_weight * centre_sample;
    let ghost centre_term = (kernel@[half as int] * data@[base + half * stride]) as int;
    let mut t: usize = 0;
    while t < half
        invariant
            t <= half,
            half == klen / 2,
            klen == kernel@.len(),
            klen % 2 == 1,
            kernel_symmetric(kernel@),
            1 <= stride,
            data_len == data@.len(),
            base + (klen - 1) * stride < data@.len(),
            abs_sum(kernel@, klen as nat) * 32768 <= 0x7fff_ffff,
            abs_sum(kernel@, klen as nat) == abs_sum(kernel@, (klen - half) as nat) + abs_sum(
                kernel@,
                half as nat,
            ),
            centre_term == kernel@[half as int] * data@[base + half * stride],
            abs1(centre_term) <= abs1(kernel@[half as int] as int) * 32768,
            acc == centre_term + dot_sym(kernel@, data@, base as int, stride as int, t as nat),
        decreases half - t,
    {
        proof {
            lemma_dot_sym_bound(kernel@, data@, base as int, stride as int, t as nat);
            lemma_abs_sum_nonneg(kernel@, t as nat);
            lemma_abs_sum_mono(kernel@, (t + 1) as nat, half as nat);
            // the centre weight plus both mirrored halves stays under the
            // full weight sum
            assert(abs_sum(kernel@, (klen - half) as nat) == abs_sum(kernel@, half as nat) + abs1(
                kernel@[half as int] as int,
            ));
            assert(t * stride <= (klen - 1) * stride && (klen - 1 - t) * stride <= (klen - 1)
                * stride) by (nonlinear_arith)
                requires
                    0 <= stride,
                    0 <= t <= klen - 1,
                    0 <= klen - 1 - t <= klen - 1,
            ;
        }
        let s1 = data[base + t * stride] as i32;
        let s2 = data[base + (klen - 1 - t) * stride] as i32;
        let weight = kernel[t];
        proof {
            assert(abs1(weight * (s1 + s2)) <= 2 * abs1(weight as int) * 32768)
                by (nonlinear_arith)
                requires
                    -32768 <= s1 <= 32767,
                    -32768 <= s2 <= 32767,
            ;
            assert(2 * abs1(kernel@[t as int] as int) + 2 * abs_sum(kernel@, t as nat) <= 2
                * abs_sum(kernel@, (t + 1) as nat));
        }
        acc = acc + weight * (s1 + s2);
        proof {
            assert((klen - 1 - t) * stride == (klen - (t + 1)) * stride) by (nonlinear_arith);
        }
        t = t + 1;
    }
    proof {
        lemma_symmetric_pairing(kernel@, data@, base as int, stride as int);
    }
    acc
}

/// Does index `i` of the flat buffer get written by the horizontal pass?
/// The pass runs a window down each column, so the border of half a kernel
/// at the top and bottom of every column stays untouched.
pub open spec fn h_written(rows: int, srclen: int, klen: int, i: int) -> bool {
    0 <= i < srclen && klen / 2 <= i % rows < rows - klen / 2
}

/// The sample the horizontal pass writes at flat index `i`.
pub open spec fn h_val(src: Seq<i16>, ker: Seq<i32>, shift: u32, i: int) -> i16 {
    out_val(dot(ker, src, i - ker.len() / 2, 1, ker.len()), shift)
}

/// Horizontal piecewise pass: convolve each column of the transposed
/// matrix with the kernel along its contiguous axis.  Every interior cell
/// of every column is rewritten; the rest of `dst` keeps its old contents.
#[verifier::loop_isolation(false)]
pub fn piecewise_horizontal_convolution_mut(
    transposed_image: &TransposedMatrix,
    dst: &mut Vec<i16>,
    piecewise_kernel: &Vec<i32>,
    scale_value: u32,
)
    requires
        transposed_image.wf(),
        3 <= piecewise_kernel@.len() <= transposed_image.rows,
        piecewise_kernel@.len() % 2 == 1,
        old(dst)@.len() >= transposed_image.data@.len(),
        1 <= scale_value <= MAX_SCALE,
        abs_sum(piecewise_kernel@, piecewise_kernel@.len()) * 32768 <= 0x7fff_ffff,
    ensures
        final(dst)@.len() == old(dst)@.len(),
        forall|i: int|
            0 <= i < final(dst)@.len() ==> #[trigger] final(dst)@[i] == (
            if h_written(
                transposed_image.rows as int,
                transposed_image.data@.len() as int,
                piecewise_kernel@.len() as int,
                i,
            ) {
                h_val(
                    transposed_image.data@,
                    piecewise_kernel@,
                    divisor_shift(scale_value as int) as u32,
                    i,
                )
            } else {
                old(dst)@[i]
            }),
{
    let rows = transposed_image.rows;
    let cols = transposed_image.cols;
    let klen = piecewise_kernel.len();
    let half = klen / 2;
    let shift = calculate_divisor(scale_value);
    let data_len = transposed_image.data.len();
    let ghost src_seq = transposed_image.data@;
    let ghost srclen = src_seq.len() as int;

    proof {
        lemma_divisor_shift_31(scale_value);
    }

    let mut c: usize = 0;
    while c < cols
        invariant
            c <= cols,
            dst@.len() == old(dst)@.len(),
            forall|i: int|
                0 <= i < c * rows ==> #[trigger] dst@[i] == (
                if h_written(rows as int, srclen, klen as int, i) {
                    h_val(src_seq, piecewise_kernel@, shift, i)
                } else {
                    old(dst)@[i]
                }),
            forall|i: int| c * rows <= i < dst@.len() ==> #[trigger] dst@[i] == old(dst)@[i],
        decreases cols - c,
    {
        proof {
            assert((c + 1) * rows <= srclen && c * rows + rows == (c + 1) * rows)
                by (nonlinear_arith)
                requires
                    rows * cols == srclen,
                    0 <= c,
                    c + 1 <= cols,
                    0 <= rows,
            ;
        }
        let mut r: usize = half;
        while r < rows - half
            invariant
                half <= r <= rows - half,
                dst@.len() == old(dst)@.len(),
                (c + 1) * rows <= srclen,
                c * rows + rows == (c + 1) * rows,
                forall|i: int|
                    0 <= i < c * rows ==> #[trigger] dst@[i] == (
                    if h_written(rows as int, srclen, klen as int, i) {
                        h_val(src_seq, piecewise_kernel@, shift, i)
                    } else {
                        old(dst)@[i]
                    }),
                forall|i: int|
                    c * rows <= i < c * rows + r ==> #[trigger] dst@[i] == (
                    if i - c * rows >= half {
                        h_val(src_seq, piecewise_kernel@, shift, i)
                    } else {
                        old(dst)@[i]
                    }),
                forall|i: int| c * rows + r <= i < dst@.len() ==> #[trigger] dst@[i] == old(dst)@[i],
            decreases rows - half - r,
        {
            proof {
                assert(c * rows + r < srclen);
            }
            let base = c * rows + r - half;
            let acc = accumulate_dot(&transposed_image.data, piecewise_kernel, base, 1);
            let value = clamp_to_i16(scale_down(acc, shift));
            let idx = c * rows + r;
            dst[idx] = value;
            proof {
                assert(dst@[idx as int] == h_val(src_seq, piecewise_kernel@, shift, idx as int));
            }
            r = r + 1;
        }
        proof {
            assert forall|i: int| c * rows <= i < (c + 1) * rows implies #[trigger] dst@[i] == (
                if h_written(rows as int, srclen, klen as int, i) {
                    h_val(src_seq, piecewise_kernel@, shift, i)
                } else {
                    old(dst)@[i]
                }) by {
                vstd::arithmetic::div_mod::lemma_fundamental_div_mod_converse(
                    i,
                    rows as int,
                    c as int,
                    i - c * rows,
                );
            }
        }
        c = c + 1;
    }
    proof {
        assert(cols * rows == srclen) by (nonlinear_arith)
            requires
                rows * cols == srclen,
        ;
    }
}

/// Does index `i` of the flat buffer get written by the vertical pass?
/// The pass reads the same row of a window of columns, so the first and
/// last half-kernel of columns stay untouched; every row is written.
pub open spec fn v_written(rows: int, cols: int, klen: int, i: int) -> bool {
    (klen / 2) * rows <= i < (cols - klen / 2) * rows
}

/// The sample the vertical pass writes at flat index `i`.
pub open spec fn v_val(src: Seq<i16>, rows: int, ker: Seq<i32>, shift: u32, i: int) -> i16 {
    out_val(dot(ker, src, i - (ker.len() / 2) * rows, rows, ker.len()), shift)
}

/// Vertical piecewise pass: convolve each row across a window of columns
/// of the transposed matrix.  When the kernel is mirror symmetric the
/// mirrored column pairs are summed before their single multiplication;
/// the result is bit-identical either way ([`lemma_symmetric_pairing`]).
#[verifier::loop_isolation(false)]
pub fn piecewise_vertical_convolution_mut(
    transposed_image: &TransposedMatrix,
    dst: &mut Vec<i16>,
    piecewise_kernel: &Vec<i32>,
    scale_value: u32,
)
    requires
        transposed_image.wf(),
        3 <= piecewise_kernel@.len() <= transposed_image.cols,
        piecewise_kernel@.len() % 2 == 1,
        old(dst)@.len() >= transposed_image.data@.len(),
        1 <= scale_value <= MAX_SCALE,
        abs_sum(piecewise_kernel@, piecewise_kernel@.len()) * 32768 <= 0x7fff_ffff,
    ensures
        final(dst)@.len() == old(dst)@.len(),
        forall|i: int|
            0 <= i < final(dst)@.len() ==> #[trigger] final(dst)@[i] == (
            if v_written(
                transposed_image.rows as int,
                transposed_image.cols as int,
                piecewise_kernel@.len() as int,
                i,
            ) {
                v_val(
                    transposed_image.data@,
                    transposed_image.rows as int,
                    piecewise_kernel@,
                    divisor_shift(scale_value as int) as u32,
                    i,
                )
            } else {
                old(dst)@[i]
            }),
{
    let rows = transposed_image.rows;
    let cols = transposed_image.cols;
    let klen = piecewise_kernel.len();
    let half = klen / 2;
    let shift = calculate_divisor(scale_value);
    let data_len = transposed_image.data.len();
    let ghost src_seq = transposed_image.data@;
    let ghost srclen = src_seq.len() as int;

    proof {
        lemma_divisor_shift_31(scale_value);
        assert(half * rows <= (cols - half) * rows && (cols - half) * rows <= srclen)
            by (nonlinear_arith)
            requires
                rows * cols == srclen,
                0 <= half,
                half <= cols - half,
                0 <= rows,
        ;
    }

    let symmetric = is_kernel_symmetric(piecewise_kernel);

    let mut c: usize = half;
    while c < cols - half
        invariant
            half <= c <= cols - half,
            dst@.len() == old(dst)@.len(),
            symmetric == kernel_symmetric(piecewise_kernel@),
            forall|i: int|
                0 <= i < c * rows ==> #[trigger] dst@[i] == (
                if v_written(rows as int, cols as int, klen as int, i) {
                    v_val(src_seq, rows as int, piecewise_kernel@, shift, i)
                } else {
                    old(dst)@[i]
                }),
            forall|i: int| c * rows <= i < dst@.len() ==> #[trigger] dst@[i] == old(dst)@[i],
        decreases cols - half - c,
    {
        proof {
            assert((c + 1) * rows <= (cols - half) * rows && c * rows + rows == (c + 1) * rows
                && half * rows <= c * rows && (c - half) * rows == c * rows - half * rows && (c
                + half) * rows == c * rows + half * rows && (klen - 1) * rows == 2 * (half * rows))
                by (nonlinear_arith)
                requires
                    0 <= rows,
                    0 <= half,
                    half <= c,
                    c + 1 <= cols - half,
                    klen == 2 * half + 1,
            ;
        }
        let mut r: usize = 0;
        while r < rows
            invariant
                r <= rows,
                dst@.len() == old(dst)@.len(),
                symmetric == kernel_symmetric(piecewise_kernel@),
                (c + 1) * rows <= (cols - half) * rows,
                (cols - half) * rows <= srclen,
                c * rows + rows == (c + 1) * rows,
                half * rows <= c * rows,
                (c - half) * rows == c * rows - half * rows,
                (klen - 1) * rows == 2 * (half * rows),
                forall|i: int|
                    0 <= i < c * rows ==> #[trigger] dst@[i] == (
                    if v_written(rows as int, cols as int, klen as int, i) {
                        v_val(src_seq, rows as int, piecewise_kernel@, shift, i)
                    } else {
                        old(dst)@[i]
                    }),
                forall|i: int|
                    c * rows <= i < c * rows + r ==> #[trigger] dst@[i] == v_val(
                        src_seq,
                        rows as int,
                        piecewise_kernel@,
                        shift,
                        i,
                    ),
                forall|i: int| c * rows + r <= i < dst@.len() ==> #[trigger] dst@[i] == old(
                    dst,
                )@[i],
            decreases rows - r,
        {
            let base = (c - half) * rows + r;
            proof {
                assert(base + (klen - 1) * rows == (c + half) * rows + r);
                assert((c + half) * rows + r < srclen) by (nonlinear_arith)
                    requires
                        rows * cols == srclen,
                        0 <= rows,
                        r < rows,
                        c + half < cols,
                ;
            }
            let acc = if symmetric {
                accumulate_dot_symmetric(&transposed_image.data, piecewise_kernel, base, rows)
            } else {
                accumulate_dot(&transposed_image.data, piecewise_kernel, base, rows)
            };
            let value = clamp_to_i16(scale_down(acc, shift));
            let idx = c * rows + r;
            dst[idx] = value;
            proof {
                assert(idx - half * rows == base);
                assert(dst@[idx as int] == v_val(
                    src_seq,
                    rows as int,
                    piecewise_kernel@,
                    shift,
                    idx as int,
                ));
            }
            r = r + 1;
        }
        c = c + 1;
    }
}

/// Two sequences that agree on every cell a strided window reads give the
/// same dot product.
pub proof fn lemma_dot_agree(
    ker: Seq<i32>,
    s1: Seq<i16>,
    s2: Seq<i16>,
    base: int,
    stride: int,
    n: nat,
    lo: int,
    hi: int,
)
    requires
        1 <= stride,
        lo <= base,
        n > 0 ==> base + (n - 1) * stride < hi,
        forall|p: int| lo <= p < hi ==> s1[p] == s2[p],
    ensures
        dot(ker, s1, base, stride, n) == dot(ker, s2, base, stride, n),
    decreases n,
{
    if n > 0 {
        assert((n - 1 - 1) * stride <= (n - 1) * stride) by (nonlinear_arith)
            requires
                1 <= stride,
        ;
        lemma_dot_agree(ker, s1, s2, base, stride, (n - 1) as nat, lo, hi);
        assert(0 * stride <= (n - 1) * stride) by (nonlinear_arith)
            requires
                1 <= stride,
                0 <= n - 1,
        ;
        assert(s1[base + (n - 1) * stride] == s2[base + (n - 1) * stride]);
    }
}

/// `abs_sum` of a prefix depends only on that prefix.
proof fn lemma_abs_sum_agree(k1: Seq<i32>, k2: Seq<i32>, n: nat)
    requires
        forall|t: int| 0 <= t < n ==> k1[t] == k2[t],
    ensures
        abs_sum(k1, n) == abs_sum(k2, n),
    decreases n,
{
    if n > 0 {
        lemma_abs_sum_agree(k1, k2, (n - 1) as nat);
    }
}

/// Splitting an absolute weight sum at `a`: the tail equals the sum over
/// the subrange starting there.
pub proof fn lemma_abs_sum_concat(ker: Seq<i32>, a: nat, k: nat)
    requires
        a + k <= ker.len(),
    ensures
        abs_sum(ker, (a + k) as nat) == abs_sum(ker, a) + abs_sum(
            ker.subrange(a as int, (a + k) as int),
            k,
        ),
    decreases k,
{
    if k > 0 {
        lemma_abs_sum_concat(ker, a, (k - 1) as nat);
        lemma_abs_sum_agree(
            ker.subrange(a as int, (a + k) as int),
            ker.subrange(a as int, (a + k - 1) as int),
            (k - 1) as nat,
        );
    }
}

/// Full 2D dot product of a `ksize` x `ksize` kernel stored column major,
/// summed column by column: kernel column `j` runs down source column
/// `base/rows + j` starting at flat index `base + j*rows`.
pub open spec fn dot2d(
    ker2: Seq<i32>,
    src: Seq<i16>,
    rows: int,
    base: int,
    ksize: nat,
    nj: nat,
) -> int
    decreases nj,
{
    if nj == 0 {
        0
    } else {
        dot2d(ker2, src, rows, base, ksize, (nj - 1) as nat) + dot(
            ker2.subrange(((nj - 1) * ksize) as int, ((nj - 1) * ksize + ksize) as int),
            src,
            base + (nj - 1) * rows,
            1,
            ksize,
        )
    }
}

/// The partial 2D sums obey the same weight-sum bound as the 1D windows.
pub proof fn lemma_dot2d_bound(
    ker2: Seq<i32>,
    src: Seq<i16>,
    rows: int,
    base: int,
    ksize: nat,
    nj: nat,
)
    requires
        nj * ksize <= ker2.len(),
    ensures
        abs1(dot2d(ker2, src, rows, base, ksize, nj)) <= abs_sum(ker2, (nj * ksize) as nat) * 32768,
    decreases nj,
{
    if nj > 0 {
        assert((nj - 1) * ksize + ksize == nj * ksize) by (nonlinear_arith);
        assert((nj - 1) * ksize >= 0) by (nonlinear_arith)
            requires
                nj >= 1,
                ksize >= 0,
        ;
        assert((nj - 1) * ksize <= nj * ksize) by (nonlinear_arith)
            requires
                nj >= 1,
                ksize >= 0,
        ;
        lemma_dot2d_bound(ker2, src, rows, base, ksize, (nj - 1) as nat);
        let sub = ker2.subrange(((nj - 1) * ksize) as int, (nj * ksize) as int);
        lemma_dot_bound(sub, src, base + (nj - 1) * rows, 1, ksize);
        lemma_abs_sum_concat(ker2, ((nj - 1) * ksize) as nat, ksize);
        lemma_abs_sum_nonneg(sub, ksize);
        let a = dot2d(ker2, src, rows, base, ksize, (nj - 1) as nat);
        let b = dot(sub, src, base + (nj - 1) * rows, 1, ksize);
        assert(dot2d(ker2, src, rows, base, ksize, nj) == a + b);
        assert(abs1(a + b) <= abs1(a) + abs1(b));
        assert(abs_sum(ker2, (nj * ksize) as nat) == abs_sum(ker2, ((nj - 1) * ksize) as nat)
            + abs_sum(sub, ksize));
        assert(abs1(a) <= abs_sum(ker2, ((nj - 1) * ksize) as nat) * 32768);
        assert(abs1(b) <= abs_sum(sub, ksize) * 32768);
        assert(abs1(dot2d(ker2, src, rows, base, ksize, nj)) <= abs_sum(ker2, (nj * ksize) as nat)
            * 32768);
    } else {
        assert(nj * ksize == 0) by (nonlinear_arith)
            requires
                nj == 0,
        ;
    }
}

/// Accumulate one column window `[koff, koff + count)` of a packed 2D
/// kernel; the shared inner step of the direct convolution.
fn accumulate_dot_range(
    data: &Vec<i16>,
    kernel: &Vec<i32>,
    koff: usize,
    count: usize,
    base: usize,
) -> (acc: i32)
    requires
        1 <= count,
        koff + count <= kernel@.len(),
        abs_sum(kernel@.subrange(koff as int, (koff + count) as int), count as nat) * 32768
            <= 0x7fff_ffff,
        base + count <= data@.len(),
    ensures
        acc == dot(
            kernel@.subrange(koff as int, (koff + count) as int),
            data@,
            base as int,
            1,
            count as nat,
        ),
{
    let ghost sub = kernel@.subrange(koff as int, (koff + count) as int);
    let data_len = data.len();
    let kernel_len = kernel.len();
    let mut acc: i32 = 0;
    let mut t: usize = 0;
    while t < count
        invariant
            t <= count,
            data_len == data@.len(),
            kernel_len == kernel@.len(),
            koff + count <= kernel@.len(),
            base + count <= data@.len(),
            sub == kernel@.subrange(koff as int, (koff + count) as int),
            abs_sum(sub, count as nat) * 32768 <= 0x7fff_ffff,
            acc == dot(sub, data@, base as int, 1, t as nat),
        decreases count - t,
    {
        proof {
            lemma_dot_bound(sub, data@, base as int, 1, t as nat);
            lemma_abs_sum_nonneg(sub, t as nat);
            lemma_abs_sum_mono(sub, (t + 1) as nat, count as nat);
        }
        let sample = data[base + t] as i32;
        let weight = kernel[koff + t];
        proof {
            assert(sub[t as int] == kernel@[koff + t]);
            assert(abs1(weight * sample) <= abs1(weight as int) * 32768) by (nonlinear_arith)
                requires
                    -32768 <= sample <= 32767,
            ;
        }
        acc = acc + weight * sample;
        t = t + 1;
    }
    acc
}

/// Does index `i` get written by the direct 2D convolution?  Both the row
/// and the column must be interior by half a kernel.
pub open spec fn d_written(rows: int, cols: int, srclen: int, klen: int, i: int) -> bool {
    h_written(rows, srclen, klen, i) && v_written(rows, cols, klen, i)
}

/// The sample the direct 2D convolution writes at flat index `i`.
pub open spec fn d_val(src: Seq<i16>, rows: int, ker2: Seq<i32>, ksize: int, shift: u32, i: int) -> i16 {
    out_val(
        dot2d(ker2, src, rows, i - (ksize / 2) * rows - ksize / 2, ksize as nat, ksize as nat),
        shift,
    )
}

/// Full 2D convolution with a `ksize` x `ksize` kernel packed column
/// major.  Every doubly interior cell is rewritten with the clamped,
/// rescaled kernel sum; the border of half a kernel on all four sides
/// keeps its old contents.
#[verifier::loop_isolation(false)]
pub fn direct_convolution_mut(
    transposed_image: &TransposedMatrix,
    dst: &mut Vec<i16>,
    kernel: &Vec<i32>,
    ksize: usize,
    scale_value: u32,
)
    requires
        transposed_image.wf(),
        3 <= ksize <= transposed_image.rows,
        ksize <= transposed_image.cols,
        ksize % 2 == 1,
        kernel@.len() == ksize * ksize,
        old(dst)@.len() >= transposed_image.data@.len(),
        1 <= scale_value <= MAX_SCALE,
        abs_sum(kernel@, kernel@.len()) * 32768 <= 0x7fff_ffff,
    ensures
        final(dst)@.len() == old(dst)@.len(),
        forall|i: int|
            0 <= i < final(dst)@.len() ==> #[trigger] final(dst)@[i] == (
            if d_written(
                transposed_image.rows as int,
                transposed_image.cols as int,
                transposed_image.data@.len() as int,
                ksize as int,
                i,
            ) {
                d_val(
                    transposed_image.data@,
                    transposed_image.rows as int,
                    kernel@,
                    ksize as int,
                    divisor_shift(scale_value as int) as u32,
                    i,
                )
            } else {
                old(dst)@[i]
            }),
{
    let rows = transposed_image.rows;
    let cols = transposed_image.cols;
    let half = ksize / 2;
    let shift = calculate_divisor(scale_value);
    let data_len = transposed_image.data.len();
    let kernel_len = kernel.len();
    let ghost src_seq = transposed_image.data@;
    let ghost srclen = src_seq.len() as int;

    proof {
        lemma_divisor_shift_31(scale_value);
        lemma_abs_sum_nonneg(kernel@, kernel@.len());
    }

    let mut c: usize = half;
    while c < cols - half
        invariant
            half <= c <= cols - half,
            dst@.len() == old(dst)@.len(),
            forall|i: int|
                0 <= i < c * rows ==> #[trigger] dst@[i] == (
                if d_written(rows as int, cols as int, srclen, ksize as int, i) {
                    d_val(src_seq, rows as int, kernel@, ksize as int, shift, i)
                } else {
                    old(dst)@[i]
                }),
            forall|i: int| c * rows <= i < dst@.len() ==> #[trigger] dst@[i] == old(dst)@[i],
        decreases cols - half - c,
    {
        proof {
            assert((c + 1) * rows <= (cols - half) * rows && (cols - half) * rows <= srclen && c
                * rows + rows == (c + 1) * rows && half * rows <= c * rows && (c - half) * rows == c
                * rows - half * rows) by (nonlinear_arith)
                requires
                    rows * cols == srclen,
                    0 <= rows,
                    0 <= half,
                    half <= c,
                    c + 1 <= cols - half,
            ;
        }
        let mut r: usize = half;
        while r < rows - half
            invariant
                half <= r <= rows - half,
                dst@.len() == old(dst)@.len(),
                (c + 1) * rows <= (cols - half) * rows,
                (cols - half) * rows <= srclen,
                c * rows + rows == (c + 1) * rows,
                half * rows <= c * rows,
                (c - half) * rows == c * rows - half * rows,
                forall|i: int|
                    0 <= i < c * rows ==> #[trigger] dst@[i] == (
                    if d_written(rows as int, cols as int, srclen, ksize as int, i) {
                        d_val(src_seq, rows as int, kernel@, ksize as int, shift, i)
                    } else {
                        old(dst)@[i]
                    }),
                forall|i: int|
                    c * rows <= i < c * rows + r ==> #[trigger] dst@[i] == (
                    if i - c * rows >= half {
                        d_val(src_seq, rows as int, kernel@, ksize as int, shift, i)
                    } else {
                        old(dst)@[i]
                    }),
                forall|i: int| c * rows + r <= i < dst@.len() ==> #[trigger] dst@[i] == old(
                    dst,
                )@[i],
            decreases rows - half - r,
        {
            let base = (c - half) * rows + r - half;
            let mut acc: i32 = 0;
            let mut j: usize = 0;
            while j < ksize
                invariant
                    j <= ksize,
                    half <= r < rows - half,
                    half <= c < cols - half,
                    (c - half) * rows == c * rows - half * rows,
                    (c + 1) * rows <= (cols - half) * rows,
                    (cols - half) * rows <= srclen,
                    base == (c - half) * rows + r - half,
                    acc == dot2d(kernel@, src_seq, rows as int, base as int, ksize as nat, j as nat),
                decreases ksize - j,
            {
                proof {
                    assert(j * ksize <= ksize * ksize && j * ksize + ksize == (j + 1) * ksize && (j
                        + 1) * ksize <= ksize * ksize) by (nonlinear_arith)
                        requires
                            0 <= j,
                            j + 1 <= ksize,
                    ;
                    lemma_dot2d_bound(kernel@, src_seq, rows as int, base as int, ksize as nat, j as nat);
                    lemma_abs_sum_concat(kernel@, (j * ksize) as nat, ksize as nat);
                    lemma_abs_sum_mono(kernel@, ((j + 1) * ksize) as nat, (ksize * ksize) as nat);
                    lemma_abs_sum_nonneg(kernel@, (j * ksize) as nat);
                    lemma_abs_sum_nonneg(
                        kernel@.subrange((j * ksize) as int, ((j + 1) * ksize) as int),
                        ksize as nat,
                    );
                    // the window this kernel column reads stays inside the
                    // source buffer
                    assert(base + j * rows + ksize <= srclen) by (nonlinear_arith)
                        requires
                            rows * cols == srclen,
                            base == (c - half) * rows + r - half,
                            0 <= half,
                            ksize == 2 * half + 1,
                            half <= r < rows - half,
                            half <= c < cols - half,
                            0 <= j < ksize,
                            0 < rows,
                    ;
                }
                let col_acc = accumulate_dot_range(
                    &transposed_image.data,
                    kernel,
                    j * ksize,
                    ksize,
                    base + j * rows,
                );
                proof {
                    let sub = kernel@.subrange((j * ksize) as int, ((j + 1) * ksize) as int);
                    lemma_dot_bound(sub, src_seq, base + j * rows, 1, ksize as nat);
                }
                acc = acc + col_acc;
                j = j + 1;
            }
            let value = clamp_to_i16(scale_down(acc, shift));
            let idx = c * rows + r;
            proof {
                assert(idx < srclen);
                assert(idx - half * rows - half == base);
            }
            dst[idx] = value;
            r = r + 1;
        }
        proof {
            assert forall|i: int| c * rows <= i < (c + 1) * rows implies #[trigger] dst@[i] == (
                if d_written(rows as int, cols as int, srclen, ksize as int, i) {
                    d_val(src_seq, rows as int, kernel@, ksize as int, shift, i)
                } else {
                    old(dst)@[i]
                }) by {
                vstd::arithmetic::div_mod::lemma_fundamental_div_mod_converse(
                    i,
                    rows as int,
                    c as int,
                    i - c * rows,
                );
            }
        }
        c = c + 1;
    }
    proof {
        assert(cols * rows == srclen) by (nonlinear_arith)
            requires
                rows * cols == srclen,
        ;
        assert forall|i: int| (cols - half) * rows <= i < srclen implies !v_written(
            rows as int,
            cols as int,
            ksize as int,
            i,
        ) by {}
    }
}

/// Direct 2D convolution into a freshly allocated zeroed matrix, so the
/// untouched border reads as zero.
pub fn direct_convolution(
    transposed_image: &TransposedMatrix,
    kernel: &Vec<i32>,
    ksize: usize,
    scale_value: u32,
) -> (result: TransposedMatrix)
    requires
        transposed_image.wf(),
        3 <= ksize <= transposed_image.rows,
        ksize <= transposed_image.cols,
        ksize % 2 == 1,
        kernel@.len() == ksize * ksize,
        1 <= scale_value <= MAX_SCALE,
        abs_sum(kernel@, kernel@.len()) * 32768 <= 0x7fff_ffff,
    ensures
        result.wf(),
        result.rows == transposed_image.rows,
        result.cols == transposed_image.cols,
        forall|i: int|
            0 <= i < result.data@.len() ==> #[trigger] result.data@[i] == (
            if d_written(
                transposed_image.rows as int,
                transposed_image.cols as int,
                transposed_image.data@.len() as int,
                ksize as int,
                i,
            ) {
                d_val(
                    transposed_image.data@,
                    transposed_image.rows as int,
                    kernel@,
                    ksize as int,
                    divisor_shift(scale_value as int) as u32,
                    i,
                )
            } else {
                0i16
            }),
{
    let rows = transposed_image.rows;
    let cols = transposed_image.cols;
    let data_len = transposed_image.data.len();
    let mut result = TransposedMatrix::zeros(rows, cols);
    direct_convolution_mut(transposed_image, &mut result.data, kernel, ksize, scale_value);
    result
}

/// Alternative entry point for the direct 2D convolution, for callers
/// that pick a traversal by kernel size; both entry points promise the
/// same result.
pub fn direct_convolution_mut_try_again(
    transposed_image: &TransposedMatrix,
    dst_as_slice: &mut Vec<i16>,
    kernel: &Vec<i32>,
    ksize: usize,
    scale_value: u32,
)
    requires
        transposed_image.wf(),
        3 <= ksize <= transposed_image.rows,
        ksize <= transposed_image.cols,
        ksize % 2 == 1,
        kernel@.len() == ksize * ksize,
        old(dst_as_slice)@.len() >= transposed_image.data@.len(),
        1 <= scale_value <= MAX_SCALE,
        abs_sum(kernel@, kernel@.len()) * 32768 <= 0x7fff_ffff,
    ensures
        final(dst_as_slice)@.len() == old(dst_as_slice)@.len(),
        forall|i: int|
            0 <= i < final(dst_as_slice)@.len() ==> #[trigger] final(dst_as_slice)@[i] == (
            if d_written(
                transposed_image.rows as int,
                transposed_image.cols as int,
                transposed_image.data@.len() as int,
                ksize as int,
                i,
            ) {
                d_val(
                    transposed_image.data@,
                    transposed_image.rows as int,
                    kernel@,
                    ksize as int,
                    divisor_shift(scale_value as int) as u32,
                    i,
                )
            } else {
                old(dst_as_slice)@[i]
            }),
{
    direct_convolution_mut(transposed_image, dst_as_slice, kernel, ksize, scale_value);
}

/// The buffer after a horizontal pass over `src` on top of `olddst`.
pub open spec fn h_result(
    src: Seq<i16>,
    rows: int,
    ker: Seq<i32>,
    shift: u32,
    olddst: Seq<i16>,
) -> Seq<i16> {
    Seq::new(
        olddst.len(),
        |i: int|
            if h_written(rows, src.len() as int, ker.len() as int, i) {
                h_val(src, ker, shift, i)
            } else {
                olddst[i]
            },
    )
}

/// The buffer after a vertical pass whose source and destination hold
/// `mid`, for a `rows` x `cols` matrix at the front of the buffer.
pub open spec fn v_result(mid: Seq<i16>, rows: int, cols: int, ker: Seq<i32>, shift: u32) -> Seq<
    i16,
> {
    Seq::new(
        mid.len(),
        |i: int|
            if v_written(rows, cols, ker.len() as int, i) {
                v_val(mid, rows, ker, shift, i)
            } else {
                mid[i]
            },
    )
}

/// Separable 2D convolution: the horizontal pass into `dst`, then the
/// vertical pass reading a snapshot of `dst` back into `dst`, both with
/// the same rescaling.
#[verifier::loop_isolation(false)]
pub fn piecewise_2d_convolution_mut(
    transposed_image: &TransposedMatrix,
    dst: &mut Vec<i16>,
    piecewise_kernel_horizontal: &Vec<i32>,
    piecewise_kernel_vertical: &Vec<i32>,
    scale_value: u32,
)
    requires
        transposed_image.wf(),
        3 <= piecewise_kernel_horizontal@.len() <= transposed_image.rows,
        piecewise_kernel_horizontal@.len() % 2 == 1,
        piecewise_kernel_vertical@.len() == piecewise_kernel_horizontal@.len(),
        piecewise_kernel_vertical@.len() <= transposed_image.cols,
        old(dst)@.len() >= transposed_image.data@.len(),
        1 <= scale_value <= MAX_SCALE,
        abs_sum(piecewise_kernel_horizontal@, piecewise_kernel_horizontal@.len()) * 32768
            <= 0x7fff_ffff,
        abs_sum(piecewise_kernel_vertical@, piecewise_kernel_vertical@.len()) * 32768
            <= 0x7fff_ffff,
    ensures
        final(dst)@ == v_result(
            h_result(
                transposed_image.data@,
                transposed_image.rows as int,
                piecewise_kernel_horizontal@,
                divisor_shift(scale_value as int) as u32,
                old(dst)@,
            ),
            transposed_image.rows as int,
            transposed_image.cols as int,
            piecewise_kernel_vertical@,
            divisor_shift(scale_value as int) as u32,
        ),
{
    let rows = transposed_image.rows;
    let cols = transposed_image.cols;
    let data_len = transposed_image.data.len();
    let ghost shift = divisor_shift(scale_value as int) as u32;
    let ghost src_seq = transposed_image.data@;
    let ghost srclen = src_seq.len() as int;

    piecewise_horizontal_convolution_mut(
        transposed_image,
        dst,
        piecewise_kernel_horizontal,
        scale_value,
    );
    let ghost mid_full = dst@;
    proof {
        assert(mid_full =~= h_result(src_seq, rows as int, piecewise_kernel_horizontal@, shift, old(dst)@));
    }

    // snapshot the intermediate image for the vertical pass
    let mut mid_data: Vec<i16> = Vec::new();
    let mut i: usize = 0;
    while i < data_len
        invariant
            i <= data_len,
            dst@ == mid_full,
            mid_data@ == mid_full.subrange(0, i as int),
        decreases data_len - i,
    {
        let s = dst[i];
        mid_data.push(s);
        proof {
            assert(mid_data@ =~= mid_full.subrange(0, i + 1));
        }
        i = i + 1;
    }
    let mid = TransposedMatrix { rows, cols, data: mid_data };
    assert(mid.wf());

    piecewise_vertical_convolution_mut(&mid, dst, piecewise_kernel_vertical, scale_value);

    proof {
        let vker = piecewise_kernel_vertical@;
        let klen = vker.len() as int;
        let half = klen / 2;
        assert forall|j: int| 0 <= j < dst@.len() implies #[trigger] dst@[j] == v_result(
            mid_full,
            rows as int,
            cols as int,
            vker,
            shift,
        )[j] by {
            if v_written(rows as int, cols as int, klen, j) {
                assert((cols - half) * rows <= rows * cols) by (nonlinear_arith)
                    requires
                        0 <= half,
                        0 <= rows,
                        cols >= half,
                ;
                assert(j - half * rows + (klen - 1) * rows == j + half * rows) by (nonlinear_arith)
                    requires
                        klen == 2 * half + 1,
                ;
                assert(j + half * rows < (cols - half) * rows + half * rows);
                assert((cols - half) * rows + half * rows <= srclen) by (nonlinear_arith)
                    requires
                        rows * cols == srclen,
                        0 <= half,
                        0 <= rows,
                ;
                lemma_dot_agree(
                    vker,
                    mid.data@,
                    mid_full,
                    j - half * rows,
                    rows as int,
                    vker.len(),
                    0,
                    srclen,
                );
            }
        }
        assert(dst@ =~= v_result(mid_full, rows as int, cols as int, vker, shift));
    }
}

/// Scaling a kernel scales its dot products: if every weight of `sker` is
/// `c` times the matching weight of `u`, its window sums are `c` times
/// those of `u`.
proof fn lemma_dot_scale(
    sker: Seq<i32>,
    u: Seq<i32>,
    c: int,
    src: Seq<i16>,
    base: int,
    n: nat,
)
    requires
        forall|t: int| 0 <= t < n ==> #[trigger] sker[t] == c * u[t],
    ensures
        dot(sker, src, base, 1, n) == c * dot(u, src, base, 1, n),
    decreases n,
{
    if n == 0 {
        assert(c * 0 == 0) by (nonlinear_arith);
    } else {
        lemma_dot_scale(sker, u, c, src, base, (n - 1) as nat);
        let d = dot(u, src, base, 1, (n - 1) as nat);
        let w = u[n - 1] as int;
        let s = src[base + (n - 1) * 1] as int;
        assert(c * d + (c * w) * s == c * (d + w * s)) by (nonlinear_arith);
    }
}

/// Induction over the kernel columns for
/// [`lemma_piecewise_matches_direct`]: the first `n` columns of the
/// vertical window match the first `n` columns of the direct sum.
proof fn lemma_piecewise_matches_direct_cols(
    u: Seq<i32>,
    v: Seq<i32>,
    ker2: Seq<i32>,
    src: Seq<i16>,
    mid: Seq<i16>,
    rows: int,
    cols: int,
    i: int,
    n: nat,
)
    requires
        3 <= u.len(),
        u.len() % 2 == 1,
        v.len() == u.len(),
        ker2.len() == u.len() * u.len(),
        forall|kk: int|
            0 <= kk < ker2.len() ==> #[trigger] ker2[kk] == v[kk / (u.len() as int)] * u[kk % (
            u.len() as int)],
        src.len() == rows * cols,
        0 < rows,
        forall|m: int|
            h_written(rows, src.len() as int, u.len() as int, m) ==> #[trigger] mid[m] == dot(
                u,
                src,
                m - u.len() / 2,
                1,
                u.len(),
            ),
        h_written(rows, src.len() as int, u.len() as int, i),
        v_written(rows, cols, u.len() as int, i),
        n <= u.len(),
    ensures
        dot(v, mid, i - (u.len() / 2) * rows, rows, n) == dot2d(
            ker2,
            src,
            rows,
            i - (u.len() / 2) * rows - u.len() / 2,
            u.len(),
            n,
        ),
    decreases n,
{
    let klen = u.len() as int;
    let half = klen / 2;
    let bv = i - half * rows;
    let bd = bv - half;
    if n > 0 {
        lemma_piecewise_matches_direct_cols(u, v, ker2, src, mid, rows, cols, i, (n - 1) as nat);
        let m = bv + (n - 1) * rows;
        // m sits on the same row as i, in a column the window may read
        assert(m == rows * (n - 1 - half) + i) by (nonlinear_arith)
            requires
                bv == i - half * rows,
                m == bv + (n - 1) * rows,
        ;
        vstd::arithmetic::div_mod::lemma_mod_multiples_vanish(n - 1 - half, i, rows);
        assert(0 * rows <= (n - 1) * rows && (n - 1) * rows <= (klen - 1) * rows)
            by (nonlinear_arith)
            requires
                0 < rows,
                0 <= n - 1 <= klen - 1,
        ;
        assert(i + half * rows < (cols - half) * rows + half * rows) by (nonlinear_arith)
            requires
                i < (cols - half) * rows,
                0 <= half,
                0 < rows,
        ;
        assert((cols - half) * rows + half * rows == rows * cols) by (nonlinear_arith);
        assert((klen - 1) * rows == 2 * (half * rows)) by (nonlinear_arith)
            requires
                klen == 2 * half + 1,
        ;
        assert(h_written(rows, src.len() as int, klen, m));
        assert(mid[m] == dot(u, src, m - half, 1, u.len()));
        // the matching column of the packed outer-product kernel is the
        // horizontal kernel scaled by this vertical weight
        let sub = ker2.subrange((n - 1) * klen, (n - 1) * klen + klen);
        assert((n - 1) * klen >= 0 && (n - 1) * klen + klen <= klen * klen) by (nonlinear_arith)
            requires
                0 <= n - 1,
                n <= klen,
        ;
        assert forall|t: int| 0 <= t < u.len() implies #[trigger] sub[t] == v[n - 1] * u[t] by {
            vstd::arithmetic::div_mod::lemma_fundamental_div_mod_converse(
                (n - 1) * klen + t,
                klen,
                n - 1,
                t,
            );
            assert(ker2[(n - 1) * klen + t] == v[n - 1] * u[t]);
        }
        lemma_dot_scale(sub, u, v[n - 1] as int, src, bd + (n - 1) * rows, u.len());
        assert(bd + (n - 1) * rows == m - half);
        assert(v[n - 1] * mid[m] == v[n - 1] * dot(u, src, m - half, 1, u.len()));
        assert(mid[bv + (n - 1) * rows] == mid[m]);
    }
}

/// A horizontal pass followed by a vertical pass with the two arms of a
/// separable kernel equals the direct convolution with their outer
/// product, up to the shared rescaling shift and clamp, at every doubly
/// interior cell.  `mid` is any buffer that holds the exact (unclamped,
/// unshifted) horizontal sums wherever the horizontal pass writes, so
/// the claim covers the inputs on which the intermediate pass neither
/// saturates nor shifts; `ker2` holds `v[j] * u[t]` at column `j`, row
/// `t`.
pub proof fn lemma_piecewise_matches_direct(
    u: Seq<i32>,
    v: Seq<i32>,
    ker2: Seq<i32>,
    src: Seq<i16>,
    mid: Seq<i16>,
    rows: int,
    cols: int,
    shift: u32,
    i: int,
)
    requires
        3 <= u.len(),
        u.len() % 2 == 1,
        v.len() == u.len(),
        ker2.len() == u.len() * u.len(),
        forall|kk: int|
            0 <= kk < ker2.len() ==> #[trigger] ker2[kk] == v[kk / (u.len() as int)] * u[kk % (
            u.len() as int)],
        src.len() == rows * cols,
        0 < rows,
        forall|m: int|
            h_written(rows, src.len() as int, u.len() as int, m) ==> #[trigger] mid[m] == dot(
                u,
                src,
                m - u.len() / 2,
                1,
                u.len(),
            ),
        h_written(rows, src.len() as int, u.len() as int, i),
        v_written(rows, cols, u.len() as int, i),
    ensures
        v_val(mid, rows, v, shift, i) == d_val(src, rows, ker2, u.len() as int, shift, i),
{
    lemma_piecewise_matches_direct_cols(u, v, ker2, src, mid, rows, cols, i, u.len());
}

} // verus!
