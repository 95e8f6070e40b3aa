//! Image containers: a row-major 8-bit grayscale image and the transposed
//! (column-major) signed 16-bit matrix that the convolution engine works on.

use vstd::prelude::*;

verus! {

/// A row-major 8-bit grayscale image; the stride equals the width.
pub struct GrayImage {
    pub width: usize,
    pub height: usize,
    pub data: Vec<u8>,
}

impl GrayImage {
    /// Structural invariant: positive dimensions, exactly one byte per pixel.
    pub open spec fn wf(&self) -> bool {
        &&& 0 < self.width
        &&& 0 < self.height
        &&& self.data@.len() == self.width * self.height
    }

    /// The pixel at column `x`, row `y` (row-major addressing).
    pub open spec fn at(&self, x: int, y: int) -> u8 {
        self.data@[y * self.width + x]
    }

    pub fn new(width: usize, height: usize, data: Vec<u8>) -> (r: Option<GrayImage>)
        ensures
            match r {
                Some(image) => {
                    &&& image.wf()
                    &&& image.width == width
                    &&& image.height == height
                    &&& image.data@ == data@
                },
                None => !(0 < width && 0 < height && data@.len() == width * height),
            },
    {
        if width == 0 || height == 0 {
            return None;
        }
        let n = data.len();
        if let Some(expected) = width.checked_mul(height) {
            if n == expected {
                return Some(GrayImage { width, height, data });
            }
        }
        None
    }
}

/// A matrix of `i16` samples stored column major: the sample at row `r`,
/// column `c` sits at index `c * rows + r` of the flat buffer.  For an image
/// of width W and height H taken column by column, `rows == H` and
/// `cols == W`, so consecutive buffer entries run down one image column.
pub struct TransposedMatrix {
    pub rows: usize,
    pub cols: usize,
    pub data: Vec<i16>,
}

impl TransposedMatrix {
    /// Structural invariant: positive dimensions, one sample per cell.
    pub open spec fn wf(&self) -> bool {
        &&& 0 < self.rows
        &&& 0 < self.cols
        &&& self.data@.len() == self.rows * self.cols
    }

    /// The sample at row `r`, column `c` (column-major addressing).
    pub open spec fn at(&self, r: int, c: int) -> i16 {
        self.data@[c * self.rows + r]
    }

    pub fn new(rows: usize, cols: usize, data: Vec<i16>) -> (r: Option<TransposedMatrix>)
        ensures
            match r {
                Some(m) => {
                    &&& m.wf()
                    &&& m.rows == rows
                    &&& m.cols == cols
                    &&& m.data@ == data@
                },
                None => !(0 < rows && 0 < cols && data@.len() == rows * cols),
            },
    {
        if rows == 0 || cols == 0 {
            return None;
        }
        let n = data.len();
        if let Some(expected) = rows.checked_mul(cols) {
            if n == expected {
                return Some(TransposedMatrix { rows, cols, data });
            }
        }
        None
    }

    /// A zero-filled matrix, the usual scratch buffer between passes.
    pub fn zeros(rows: usize, cols: usize) -> (r: TransposedMatrix)
        requires
            0 < rows,
            0 < cols,
            rows * cols <= usize::MAX,
        ensures
            r.wf(),
            r.rows == rows,
            r.cols == cols,
            forall|i: int| 0 <= i < r.data@.len() ==> r.data@[i] == 0i16,
    {
        let n = rows * cols;
        let data = vec![0i16; n];
        TransposedMatrix { rows, cols, data }
    }
}

} // verus!
