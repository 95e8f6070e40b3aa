use center_circle::conv::{
    calculate_divisor, direct_convolution, direct_convolution_mut, direct_convolution_mut_try_again,
    is_kernel_symmetric, piecewise_2d_convolution_mut, piecewise_horizontal_convolution_mut,
    piecewise_vertical_convolution_mut,
};
use center_circle::matrix::TransposedMatrix;

const NROWS: usize = 10;
const NCOLS: usize = 5;

/// Column-major buffer from row-major values, as the reference data is
/// written down.
fn from_row_major(nrows: usize, ncols: usize, values: &[i16]) -> Vec<i16> {
    assert_eq!(values.len(), nrows * ncols);
    let mut out = vec![0i16; nrows * ncols];
    for r in 0..nrows {
        for c in 0..ncols {
            out[c * nrows + r] = values[r * ncols + c];
        }
    }
    out
}

/// The shared test image: three bright bands with a dark column through
/// the middle.
fn get_image() -> TransposedMatrix {
    let mut data = vec![0i16; NROWS * NCOLS];
    for c in 0..NCOLS {
        for r in 0..NROWS {
            let bright = r < 3 || r >= 6;
            data[c * NROWS + r] = if bright && c != 2 { 255 } else { 0 };
        }
    }
    TransposedMatrix::new(NROWS, NCOLS, data).expect("image dimensions are consistent")
}

const EXPECTED_SOBEL_HORIZONTAL_OUT: [[i16; NROWS]; NCOLS] = [
    [0, 0, 0, 0, 0, 0, 0, 0, 0, 0],
    [
        -1020, -765, -510, -765, -1020, -1020, -765, -510, -765, -1020,
    ],
    [0, 0, 0, 0, 0, 1020, 765, 510, 765, 1020],
    [1020, 765, 510, 765, 1020, 0, 0, 0, 0, 0],
    [0, 0, 0, 0, 0, 0, 0, 0, 0, 0],
];

/// The expected buffer in the matrix's own column-major layout.  The
/// arrays above list one image column per inner array, read here through
/// a row-major constructor, which undoes that transposition.
fn expected_horizontal_full_result() -> Vec<i16> {
    let mut flat = Vec::new();
    for col in EXPECTED_SOBEL_HORIZONTAL_OUT.iter() {
        flat.extend_from_slice(col);
    }
    from_row_major(NROWS, NCOLS, &flat)
}

#[test]
fn test_kernel_symmetry() {
    let symmetric = [vec![1, 2, 1], vec![2, 4, 2], vec![1, 2, 1]];
    let asymmetric = [vec![1, 2, 5], vec![2, 4, 3], vec![0, 2, 1]];

    assert!(symmetric.iter().all(|k| is_kernel_symmetric(k)));
    assert!(asymmetric.iter().all(|k| !is_kernel_symmetric(k)));
}

#[test]
fn test_direct_convolution() {
    let image = get_image();
    let nrows = image.rows;
    let ncols = image.cols;

    // Since these operations assume the matrix is transposed, the kernel
    // is stored column by column as well.
    let kernel: Vec<i32> = vec![-1, 0, 1, -2, 0, 2, -1, 0, 1];

    let result = direct_convolution(&image, &kernel, 3, 1);

    let expected = expected_horizontal_full_result();

    for c in 1..ncols - 1 {
        for r in 1..nrows - 1 {
            assert_eq!(
                result.data[c * nrows + r],
                expected[c * nrows + r],
                "The sub-views of the results should match! {} {}",
                result.data[c * nrows + r],
                expected[c * nrows + r]
            );
        }
    }

    let mut fast_result = vec![0i16; nrows * ncols];
    direct_convolution_mut(&image, &mut fast_result, &kernel, 3, 1);
    for c in 1..ncols - 1 {
        for r in 1..nrows - 1 {
            assert_eq!(
                fast_result[c * nrows + r],
                expected[c * nrows + r],
                "The faster version should match! {} {}",
                fast_result[c * nrows + r],
                expected[c * nrows + r]
            );
        }
    }
}

#[test]
fn test_piecewise_conv() {
    // Horizontal sobel
    // -1, 0, 1,
    // -2, 0, 2,
    // -1, 0, 1
    // piecewise -> [1, 2, 1].T * [-1, 0, 1]
    let image = get_image();
    let nrows = image.rows;
    let ncols = image.cols;

    let mut out = vec![0i16; nrows * ncols];

    let kernel_vertical: Vec<i32> = vec![1, 2, 1];
    let kernel_horizontal: Vec<i32> = vec![-1, 0, 1];

    piecewise_horizontal_convolution_mut(&image, &mut out, &kernel_horizontal, 1);
    let intermediate =
        TransposedMatrix::new(nrows, ncols, out.clone()).expect("dimensions are consistent");
    piecewise_vertical_convolution_mut(&intermediate, &mut out, &kernel_vertical, 1);

    let expected = expected_horizontal_full_result();
    for c in 1..ncols - 1 {
        for r in 1..nrows - 1 {
            assert_eq!(
                out[c * nrows + r],
                expected[c * nrows + r],
                "The sub-views of the results should match! {} {}",
                out[c * nrows + r],
                expected[c * nrows + r]
            );
        }
    }
}

#[test]
fn divisor_shift_values() {
    assert_eq!(calculate_divisor(1), 0);
    assert_eq!(calculate_divisor(2), 1);
    assert_eq!(calculate_divisor(3), 2);
    assert_eq!(calculate_divisor(4), 2);
    assert_eq!(calculate_divisor(16), 4);
    assert_eq!(calculate_divisor(17), 5);
}

#[test]
fn kernel_pairing() {
    // A uniform patch under the separable smoothing kernel with its full
    // gain as the scale returns the patch unchanged in the interior.
    let image =
        TransposedMatrix::new(5, 5, vec![100i16; 25]).expect("dimensions are consistent");
    let outer_product: Vec<i32> = vec![1, 2, 1, 2, 4, 2, 1, 2, 1];
    let result = direct_convolution(&image, &outer_product, 3, 16);
    for c in 1..4 {
        for r in 1..4 {
            assert_eq!(result.data[c * 5 + r], 100);
        }
    }

    // The symmetric vertical pass (which pairs mirrored columns before
    // multiplying) agrees bit for bit with the naive accumulation,
    // written out by hand here for the uniform patch: 4 * 100 >> 2.
    let mut out = vec![0i16; 25];
    piecewise_vertical_convolution_mut(&image, &mut out, &vec![1, 2, 1], 4);
    for c in 1..4 {
        for r in 0..5 {
            assert_eq!(out[c * 5 + r], 100);
        }
    }
}

#[test]
fn try_again_matches_direct() {
    let image = get_image();
    let kernel: Vec<i32> = vec![-1, 0, 1, -2, 0, 2, -1, 0, 1];
    let mut a = vec![0i16; NROWS * NCOLS];
    let mut b = vec![0i16; NROWS * NCOLS];
    direct_convolution_mut(&image, &mut a, &kernel, 3, 1);
    direct_convolution_mut_try_again(&image, &mut b, &kernel, 3, 1);
    assert_eq!(a, b);
}

#[test]
fn piecewise_2d_composes_the_two_passes() {
    let image = get_image();
    let mut composed = vec![0i16; NROWS * NCOLS];
    piecewise_2d_convolution_mut(&image, &mut composed, &vec![-1, 0, 1], &vec![1, 2, 1], 1);

    let mut manual = vec![0i16; NROWS * NCOLS];
    piecewise_horizontal_convolution_mut(&image, &mut manual, &vec![-1, 0, 1], 1);
    let intermediate =
        TransposedMatrix::new(NROWS, NCOLS, manual.clone()).expect("dimensions are consistent");
    piecewise_vertical_convolution_mut(&intermediate, &mut manual, &vec![1, 2, 1], 1);

    assert_eq!(composed, manual);
}
