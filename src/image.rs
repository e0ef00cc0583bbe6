//! Framebuffers and their byte layout.
use vstd::prelude::*;

verus! {

/// A framebuffer: `width * height` pixels in row-major order from the top-left corner.
pub struct Image<P> {
    pub data: Vec<P>,
    pub width: usize,
    pub height: usize,
}

impl<P> Image<P> {
    pub open spec fn well_formed(&self) -> bool {
        self.data@.len() == self.width * self.height
    }

    /// Wraps pixels already laid out row by row.
    pub fn new(data: Vec<P>, width: usize, height: usize) -> (r: Self)
        requires
            data@.len() == width * height,
        ensures
            r.well_formed(),
            r.data@ == data@,
            r.width == width,
            r.height == height,
    {
        Image { data, width, height }
    }

    /// The pixel in column `x` of row `y`.
    pub fn pixel(&self, x: usize, y: usize) -> (r: &P)
        requires
            self.well_formed(),
            x < self.width,
            y < self.height,
        ensures
            *r == self.data@[y * self.width + x],
    {
        let len = self.data.len();
        proof {
            lemma_row_major_index(x as int, y as int, self.width as int, self.height as int);
            assert(y * self.width + x < len);
        }
        &self.data[y * self.width + x]
    }
}

proof fn lemma_row_major_index(x: int, y: int, w: int, h: int)
    requires
        0 <= x < w,
        0 <= y < h,
    ensures
        0 <= y * w + x < w * h,
{
    assert(y * w + x < w * h) by (nonlinear_arith)
        requires 0 <= x < w, 0 <= y < h;
    assert(0 <= y * w) by (nonlinear_arith)
        requires 0 <= y, 0 <= w;
}

/// Lays 8-bit colours out as RGBA bytes, four per pixel, alpha fully opaque.
pub fn rgba_bytes(rgb: &Vec<(u8, u8, u8)>) -> (r: Vec<u8>)
    requires
        4 * rgb@.len() <= usize::MAX,
    ensures
        r@.len() == 4 * rgb@.len(),
        forall|i: int|
            #![trigger rgb@[i]]
            0 <= i < rgb@.len() ==> {
                &&& r@[4 * i] == rgb@[i].0
                &&& r@[4 * i + 1] == rgb@[i].1
                &&& r@[4 * i + 2] == rgb@[i].2
                &&& r@[4 * i + 3] == 255
            },
{
    let mut r: Vec<u8> = Vec::new();
    let mut i: usize = 0;
    while i < rgb.len()
        invariant
            i <= rgb@.len(),
            r@.len() == 4 * i,
            forall|j: int|
                #![trigger rgb@[j]]
                0 <= j < i ==> {
                    &&& r@[4 * j] == rgb@[j].0
                    &&& r@[4 * j + 1] == rgb@[j].1
                    &&& r@[4 * j + 2] == rgb@[j].2
                    &&& r@[4 * j + 3] == 255
                },
        decreases rgb@.len() - i,
    {
        let (red, green, blue) = rgb[i];
        r.push(red);
        r.push(green);
        r.push(blue);
        r.push(255);
        i = i + 1;
    }
    r
}

} // verus!
