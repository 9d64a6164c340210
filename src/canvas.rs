//! A row-major RGBA pixel grid.

use vstd::prelude::*;

verus! {

/// One pixel's colour.
#[derive(Clone, Copy, Debug, PartialEq, Eq, Structural)]
pub struct Rgba {
    pub r: u8,
    pub g: u8,
    pub b: u8,
    pub a: u8,
}

pub open spec fn rgba(r: u8, g: u8, b: u8) -> Rgba {
    Rgba { r, g, b, a: 255 }
}

pub open spec fn black() -> Rgba {
    rgba(0, 0, 0)
}

pub open spec fn white() -> Rgba {
    rgba(255, 255, 255)
}

pub open spec fn red() -> Rgba {
    rgba(255, 112, 3)
}

pub open spec fn blue() -> Rgba {
    rgba(0, 112, 255)
}

pub open spec fn green() -> Rgba {
    rgba(0, 255, 0)
}

impl Rgba {
    pub fn new(r: u8, g: u8, b: u8, a: u8) -> (c: Rgba)
        ensures
            c == (Rgba { r, g, b, a }),
    {
        Rgba { r, g, b, a }
    }

    pub fn black() -> (c: Rgba)
        ensures
            c == black(),
    {
        Rgba { r: 0, g: 0, b: 0, a: 255 }
    }

    pub fn white() -> (c: Rgba)
        ensures
            c == white(),
    {
        Rgba { r: 255, g: 255, b: 255, a: 255 }
    }

    pub fn red() -> (c: Rgba)
        ensures
            c == red(),
    {
        Rgba { r: 255, g: 112, b: 3, a: 255 }
    }

    pub fn blue() -> (c: Rgba)
        ensures
            c == blue(),
    {
        Rgba { r: 0, g: 112, b: 255, a: 255 }
    }

    pub fn green() -> (c: Rgba)
        ensures
            c == green(),
    {
        Rgba { r: 0, g: 255, b: 0, a: 255 }
    }
}

/// `y * w + x` is the place of pixel `(x, y)`, and no other pixel shares it.
pub proof fn lemma_pixel_index(w: int, h: int, x: int, y: int)
    requires
        0 <= x < w,
        0 <= y < h,
    ensures
        0 <= y * w + x < w * h,
        forall|x2: int, y2: int|
            #![trigger y2 * w + x2]
            0 <= x2 < w && 0 <= y2 < h && (x2 != x || y2 != y) ==> y2 * w + x2 != y * w + x,
{
    assert(0 <= y * w) by (nonlinear_arith)
        requires
            0 <= y,
            0 <= w,
    ;
    assert(y * w + x < w * h) by (nonlinear_arith)
        requires
            0 <= x < w,
            0 <= y < h,
    ;
    assert forall|x2: int, y2: int|
        0 <= x2 < w && 0 <= y2 < h && (x2 != x || y2 != y) implies #[trigger] (y2 * w + x2) != y * w + x by {
        if y2 < y {
            assert(y2 * w + x2 < y * w + x) by (nonlinear_arith)
                requires
                    y2 < y,
                    0 <= x2 < w,
                    0 <= x,
            ;
        } else if y < y2 {
            assert(y * w + x < y2 * w + x2) by (nonlinear_arith)
                requires
                    y < y2,
                    0 <= x < w,
                    0 <= x2,
            ;
        }
    }
}

/// A `width` by `height` grid of pixels, stored row by row.
pub struct Canvas {
    width: usize,
    height: usize,
    pixels: Vec<Rgba>,
}

impl Canvas {
    pub closed spec fn width_spec(&self) -> nat {
        self.width as nat
    }

    pub closed spec fn height_spec(&self) -> nat {
        self.height as nat
    }

    /// The stored pixels, row by row.
    pub closed spec fn pixels_spec(&self) -> Seq<Rgba> {
        self.pixels@
    }

    pub open spec fn wf(&self) -> bool {
        &&& self.pixels_spec().len() == self.width_spec() * self.height_spec()
        &&& self.width_spec() * self.height_spec() <= usize::MAX
    }

    pub open spec fn in_bounds(&self, x: int, y: int) -> bool {
        0 <= x < self.width_spec() && 0 <= y < self.height_spec()
    }

    /// The colour of pixel `(x, y)`.
    pub open spec fn at(&self, x: int, y: int) -> Rgba {
        self.pixels_spec()[y * self.width_spec() + x]
    }

    /// A canvas of the given size with every pixel set to `fill`.
    pub fn new(width: usize, height: usize, fill: Rgba) -> (c: Canvas)
        requires
            width * height <= usize::MAX,
        ensures
            c.wf(),
            c.width_spec() == width,
            c.height_spec() == height,
            forall|x: int, y: int| c.in_bounds(x, y) ==> #[trigger] c.at(x, y) == fill,
    {
        let n: usize = width * height;
        let mut pixels: Vec<Rgba> = Vec::new();
        let mut i: usize = 0;
        while i < n
            invariant
                i <= n,
                pixels@.len() == i,
                forall|j: int| 0 <= j < i ==> pixels@[j] == fill,
            decreases n - i,
        {
            pixels.push(fill);
            i = i + 1;
        }
        let c = Canvas { width, height, pixels };
        assert forall|x: int, y: int| c.in_bounds(x, y) implies #[trigger] c.at(x, y) == fill by {
            lemma_pixel_index(width as int, height as int, x, y);
        }
        c
    }

    pub fn width(&self) -> (r: usize)
        ensures
            r == self.width_spec(),
    {
        self.width
    }

    pub fn height(&self) -> (r: usize)
        ensures
            r == self.height_spec(),
    {
        self.height
    }

    /// Number of pixels held.
    pub fn len(&self) -> (r: usize)
        ensures
            r == self.pixels_spec().len(),
    {
        self.pixels.len()
    }

    /// The colour at `(x, y)`, or `None` off the canvas.
    pub fn get(&self, x: usize, y: usize) -> (r: Option<Rgba>)
        requires
            self.wf(),
        ensures
            self.in_bounds(x as int, y as int) ==> r == Some(self.at(x as int, y as int)),
            !self.in_bounds(x as int, y as int) ==> r.is_none(),
    {
        if x < self.width && y < self.height {
            proof {
                lemma_pixel_index(self.width as int, self.height as int, x as int, y as int);
            }
            Some(self.pixels[y * self.width + x])
        } else {
            None
        }
    }

    /// Paints `(x, y)`; a point off the canvas is ignored.
    pub fn set(&mut self, x: usize, y: usize, c: Rgba)
        requires
            old(self).wf(),
        ensures
            final(self).wf(),
            final(self).width_spec() == old(self).width_spec(),
            final(self).height_spec() == old(self).height_spec(),
            forall|px: int, py: int|
                final(self).in_bounds(px, py) ==> #[trigger] final(self).at(px, py) == if px == x
                    && py == y {
                    c
                } else {
                    old(self).at(px, py)
                },
    {
        if x < self.width && y < self.height {
            proof {
                lemma_pixel_index(self.width as int, self.height as int, x as int, y as int);
            }
            let i = y * self.width + x;
            self.pixels[i] = c;
            assert forall|px: int, py: int| self.in_bounds(px, py) implies #[trigger] self.at(px, py)
                == if px == x && py == y {
                c
            } else {
                old(self).at(px, py)
            } by {
                lemma_pixel_index(self.width as int, self.height as int, px, py);
                lemma_pixel_index(self.width as int, self.height as int, x as int, y as int);
            }
        }
    }

    /// The pixels as bytes, four per pixel (red, green, blue, alpha), row by
    /// row.
    pub fn to_rgba_bytes(&self) -> (b: Vec<u8>)
        requires
            self.wf(),
        ensures
            b@.len() == 4 * self.pixels_spec().len(),
            forall|i: int|
                0 <= i < self.pixels_spec().len() ==> {
                    &&& #[trigger] b@[4 * i] == self.pixels_spec()[i].r
                    &&& b@[4 * i + 1] == self.pixels_spec()[i].g
                    &&& b@[4 * i + 2] == self.pixels_spec()[i].b
                    &&& b@[4 * i + 3] == self.pixels_spec()[i].a
                },
    {
        let mut b: Vec<u8> = Vec::new();
        let mut i: usize = 0;
        while i < self.pixels.len()
            invariant
                i <= self.pixels@.len(),
                b@.len() == 4 * i,
                forall|j: int|
                    0 <= j < i ==> {
                        &&& #[trigger] b@[4 * j] == self.pixels@[j].r
                        &&& b@[4 * j + 1] == self.pixels@[j].g
                        &&& b@[4 * j + 2] == self.pixels@[j].b
                        &&& b@[4 * j + 3] == self.pixels@[j].a
                    },
            decreases self.pixels@.len() - i,
        {
            let p = self.pixels[i];
            let ghost b0 = b@;
            b.push(p.r);
            b.push(p.g);
            b.push(p.b);
            b.push(p.a);
            proof {
                assert forall|j: int| 0 <= j < i + 1 implies {
                    &&& #[trigger] b@[4 * j] == self.pixels@[j].r
                    &&& b@[4 * j + 1] == self.pixels@[j].g
                    &&& b@[4 * j + 2] == self.pixels@[j].b
                    &&& b@[4 * j + 3] == self.pixels@[j].a
                } by {
                    if j < i {
                        assert(b0[4 * j] == self.pixels@[j].r);
                    }
                }
            }
            i = i + 1;
        }
        b
    }
}

} // verus!
