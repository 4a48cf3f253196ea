use vstd::prelude::*;

verus! {

/// One pixel of an image: its position and its colour.
#[derive(Clone, Copy, Debug, PartialEq, Eq)]
pub struct Sample {
    pub x: u32,
    pub y: u32,
    pub color: [u8; 3],
}

/// A decoded image: `pixels` holds the colours in row-major order.
#[derive(Clone, Debug, PartialEq, Eq)]
pub struct Image {
    pub width: u32,
    pub height: u32,
    pub pixels: Vec<[u8; 3]>,
}

impl Image {
    /// The pixel buffer holds exactly one colour per position.
    pub open spec fn wf(&self) -> bool {
        self.pixels@.len() == self.width as int * self.height as int
    }

    /// The sample at row-major index `i`.
    pub open spec fn sample_at(&self, i: int) -> Sample {
        Sample {
            x: (i % self.width as int) as u32,
            y: (i / self.width as int) as u32,
            color: self.pixels@[i],
        }
    }
}

/// Whether `s` lies inside a `width` by `height` image.
pub open spec fn in_bounds(s: Sample, width: u32, height: u32) -> bool {
    s.x < width && s.y < height
}

/// The row-major index of the position `(x, y)`, and its inverse.
pub proof fn lemma_row_major(width: u32, x: int, y: int)
    requires
        width > 0,
        0 <= x < width,
        0 <= y,
    ensures
        (y * width + x) % (width as int) == x,
        (y * width + x) / (width as int) == y,
        y * width + x >= 0,
{
    vstd::arithmetic::div_mod::lemma_fundamental_div_mod_converse(
        y * width + x,
        width as int,
        y,
        x,
    );
    vstd::arithmetic::mul::lemma_mul_nonnegative(y, width as int);
}

/// The position after `(x, y)` in row-major order over a `width` by `height`
/// image; it lies inside the image whenever its index does.
pub fn next_position(x: u32, y: u32, width: u32, height: u32) -> (r: (u32, u32))
    requires
        x < width,
        y < height,
    ensures
        r.1 as int * width as int + r.0 as int == y as int * width as int + x as int + 1,
        (r.1 as int) * (width as int) + (r.0 as int) < (width as int) * (height as int) ==> (r.0 < width
            && r.1 < height),
        r.0 < width,
{
    let r = if x + 1 == width {
        proof {
            assert((y as int + 1) * width as int == y as int * width as int + width as int)
                by (nonlinear_arith);
        }
        (0, y + 1)
    } else {
        (x + 1, y)
    };
    proof {
        let (w, h, yy, xx) = (width as int, height as int, r.1 as int, r.0 as int);
        if yy * w + xx < w * h {
            assert(yy < h) by (nonlinear_arith)
                requires
                    yy * w + xx < h * w,
                    0 <= xx,
                    0 < w,
                    0 <= yy,
            ;
        }
    }
    r
}

/// Lists every pixel of `img` with its position, in row-major order.
pub fn index_pixels(img: &Image) -> (r: Vec<Sample>)
    requires
        img.wf(),
    ensures
        r@.len() == img.pixels@.len(),
        forall|i: int| 0 <= i < r@.len() ==> r@[i] == img.sample_at(i),
        forall|i: int| 0 <= i < r@.len() ==> in_bounds(#[trigger] r@[i], img.width, img.height),
{
    let n = img.pixels.len();
    let mut r: Vec<Sample> = Vec::with_capacity(n);
    let mut x: u32 = 0;
    let mut y: u32 = 0;
    let mut i: usize = 0;
    while i < n
        invariant
            n == img.pixels@.len(),
            img.wf(),
            i <= n,
            r@.len() == i,
            i < n ==> x < img.width && y < img.height,
            i as int == y as int * img.width as int + x as int,
            forall|k: int| 0 <= k < i ==> r@[k] == img.sample_at(k),
            forall|k: int| 0 <= k < i ==> in_bounds(#[trigger] r@[k], img.width, img.height),
        decreases n - i,
    {
        proof {
            lemma_row_major(img.width, x as int, y as int);
        }
        r.push(Sample { x, y, color: img.pixels[i] });
        let (nx, ny) = next_position(x, y, img.width, img.height);
        x = nx;
        y = ny;
        i = i + 1;
    }
    r
}

} // verus!
