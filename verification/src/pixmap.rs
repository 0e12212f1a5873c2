//! The in-memory image type: a rectangle of RGB samples in row-major order.

use vstd::prelude::*;

verus! {

/// One pixel: three 8-bit channels, no alpha.
#[derive(Debug, Clone, Copy, PartialEq, Eq, Structural)]
pub struct RGB {
    pub r: u8,
    pub g: u8,
    pub b: u8,
}

/// A decoded image: a format tag, dimensions, a declared maximum channel
/// value, and `w * h` samples in row-major order (row 0 first, left to right
/// within a row).
#[derive(Debug)]
pub struct Pixmap {
    pub format: String,
    pub w: u32,
    pub h: u32,
    pub max_color_val: u32,
    pub data: Vec<RGB>,
}

/// The mathematical content of a `Pixmap`: the same fields over `Seq`.
pub struct ImageModel {
    pub format: Seq<char>,
    pub w: u32,
    pub h: u32,
    pub max_color_val: u32,
    pub data: Seq<RGB>,
}

impl View for Pixmap {
    type V = ImageModel;

    open spec fn view(&self) -> ImageModel {
        ImageModel {
            format: self.format@,
            w: self.w,
            h: self.h,
            max_color_val: self.max_color_val,
            data: self.data@,
        }
    }
}

/// The grayscale reduction of a pixel: the truncating integer average of the
/// three channels.
pub open spec fn gray(p: RGB) -> u8 {
    ((p.r + p.g + p.b) / 3) as u8
}

impl Pixmap {
    /// The shape invariant: the sample count matches the dimensions, and the
    /// flat sample byte count fits in memory.
    pub open spec fn wf(self) -> bool {
        &&& self.data@.len() == self.w * self.h
        &&& self.w * self.h * 3 <= usize::MAX
    }

    /// The grayscale value of the sample at column `x`, row `y`.
    pub fn at(&self, x: u32, y: u32) -> (v: u8)
        requires
            self.wf(),
            x < self.w,
            y < self.h,
        ensures
            v == gray(self.data@[y * self.w + x]),
    {
        proof {
            assert((y as int) * (self.w as int) + (x as int) < (self.w as int) * (self.h as int))
                by (nonlinear_arith)
                requires
                    x < self.w,
                    y < self.h,
            ;
        }
        let index: usize = (y as usize) * (self.w as usize) + (x as usize);
        let p = self.data[index];
        ((p.r as u32 + p.g as u32 + p.b as u32) / 3) as u8
    }
}

} // verus!
