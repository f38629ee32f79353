//! An 8-bit grayscale image, row-major, on which the "now playing" screen is drawn.
use vstd::prelude::*;

verus! {

/// Index of `(x, y)` in a row-major image `w` pixels wide.
pub open spec fn pixel_at(w: int, x: int, y: int) -> int {
    y * w + x
}

/// Whether `(x, y)` lies in the half-open rectangle `[x0, x1) x [y0, y1)`.
pub open spec fn in_rect(x: int, y: int, x0: int, x1: int, y0: int, y1: int) -> bool {
    x0 <= x < x1 && y0 <= y < y1
}

/// A grayscale image (0 black, 255 white).
pub struct GrayCanvas {
    width: u32,
    height: u32,
    pixels: Vec<u8>,
}

proof fn lemma_index_in_bounds(w: int, h: int, x: int, y: int)
    requires
        0 <= x < w,
        0 <= y < h,
    ensures
        0 <= pixel_at(w, x, y) < w * h,
        0 <= y * w <= pixel_at(w, x, y),
{
    assert(0 <= y * w <= y * w + x < w * h) by (nonlinear_arith)
        requires
            0 <= x < w,
            0 <= y < h,
    ;
}

proof fn lemma_index_injective(w: int, x1: int, y1: int, x2: int, y2: int)
    requires
        0 <= x1 < w,
        0 <= x2 < w,
        0 <= y1,
        0 <= y2,
        pixel_at(w, x1, y1) == pixel_at(w, x2, y2),
    ensures
        x1 == x2,
        y1 == y2,
{
    assert(y1 == y2) by (nonlinear_arith)
        requires
            0 <= x1 < w,
            0 <= x2 < w,
            0 <= y1,
            0 <= y2,
            y1 * w + x1 == y2 * w + x2,
    ;
}

impl GrayCanvas {
    /// Width in pixels.
    pub closed spec fn w(&self) -> int {
        self.width as int
    }

    /// Height in pixels.
    pub closed spec fn h(&self) -> int {
        self.height as int
    }

    /// The pixels, row by row.
    pub closed spec fn data(&self) -> Seq<u8> {
        self.pixels@
    }

    /// The size matches the pixel data.
    pub closed spec fn wf(&self) -> bool {
        self.pixels@.len() == self.width * self.height
    }

    /// Pixel `(x, y)`.
    pub open spec fn at(&self, x: int, y: int) -> u8 {
        self.data()[pixel_at(self.w(), x, y)]
    }

    /// Whether `self` is `old` with every pixel for which `painted` holds set to `luma`.
    pub open spec fn painted_from(&self, old: GrayCanvas, painted: spec_fn(int, int) -> bool, luma: u8) -> bool {
        &&& self.wf()
        &&& self.w() == old.w()
        &&& self.h() == old.h()
        &&& forall|x: int, y: int|
            0 <= x < self.w() && 0 <= y < self.h() ==> #[trigger] self.at(x, y) == if painted(x, y) {
                luma
            } else {
                old.at(x, y)
            }
    }

    /// A `width` x `height` canvas filled with `luma`.
    pub fn filled(width: u32, height: u32, luma: u8) -> (c: GrayCanvas)
        requires
            width * height <= usize::MAX,
        ensures
            c.wf(),
            c.w() == width,
            c.h() == height,
            forall|x: int, y: int| 0 <= x < width && 0 <= y < height ==> #[trigger] c.at(x, y) == luma,
    {
        let n: usize = width as usize * height as usize;
        let mut pixels: Vec<u8> = Vec::new();
        let mut i: usize = 0;
        while i < n
            invariant
                i <= n,
                pixels@.len() == i,
                forall|j: int| 0 <= j < i ==> pixels@[j] == luma,
            decreases n - i,
        {
            pixels.push(luma);
            i = i + 1;
        }
        let c = GrayCanvas { width, height, pixels };
        assert forall|x: int, y: int| 0 <= x < width && 0 <= y < height implies #[trigger] c.at(x, y)
            == luma by {
            lemma_index_in_bounds(width as int, height as int, x, y);
        }
        c
    }

    /// A canvas over row-major `pixels`, or `None` when their number is not
    /// `width * height`.
    pub fn from_raw(width: u32, height: u32, pixels: Vec<u8>) -> (c: Option<GrayCanvas>)
        ensures
            c is Some <==> pixels@.len() == width * height,
            c matches Some(c) ==> c.wf() && c.w() == width && c.h() == height && c.data() == pixels@,
    {
        let len: usize = pixels.len();
        match (width as usize).checked_mul(height as usize) {
            Some(n) => {
                if len == n {
                    Some(GrayCanvas { width, height, pixels })
                } else {
                    None
                }
            },
            None => None,
        }
    }

    /// The pixels, row by row.
    pub fn into_raw(self) -> (p: Vec<u8>)
        ensures
            p@ == self.data(),
    {
        self.pixels
    }

    /// Width in pixels.
    pub fn width(&self) -> (r: u32)
        ensures
            r == self.w(),
    {
        self.width
    }

    /// Height in pixels.
    pub fn height(&self) -> (r: u32)
        ensures
            r == self.h(),
    {
        self.height
    }

    /// Pixel `(x, y)`.
    pub fn get_pixel(&self, x: u32, y: u32) -> (v: u8)
        requires
            self.wf(),
            x < self.w(),
            y < self.h(),
        ensures
            v == self.at(x as int, y as int),
    {
        let len: usize = self.pixels.len();
        proof {
            lemma_index_in_bounds(self.width as int, self.height as int, x as int, y as int);
            assert(y * self.width + x < self.pixels@.len());
        }
        self.pixels[y as usize * self.width as usize + x as usize]
    }

    /// Sets pixel `(x, y)` to `luma`.
    pub fn put_pixel(&mut self, x: u32, y: u32, luma: u8)
        requires
            old(self).wf(),
            x < old(self).w(),
            y < old(self).h(),
        ensures
            final(self).painted_from(*old(self), |a: int, b: int| a == x && b == y, luma),
    {
        let len: usize = self.pixels.len();
        proof {
            lemma_index_in_bounds(self.width as int, self.height as int, x as int, y as int);
            assert(y * self.width + x < self.pixels@.len());
        }
        let i: usize = y as usize * self.width as usize + x as usize;
        self.pixels.set(i, luma);
        proof {
            assert forall|a: int, b: int| 0 <= a < self.w() && 0 <= b < self.h() implies #[trigger] self.at(
                a,
                b,
            ) == if a == x && b == y {
                luma
            } else {
                old(self).at(a, b)
            } by {
                lemma_index_in_bounds(self.width as int, self.height as int, a, b);
                if pixel_at(self.w(), a, b) == i {
                    lemma_index_injective(self.w(), a, b, x as int, y as int);
                }
            }
        }
    }

    /// Sets every pixel of `[x0, x1) x [y0, y1)` to `luma`.
    pub fn fill_rect(&mut self, x0: u32, x1: u32, y0: u32, y1: u32, luma: u8)
        requires
            old(self).wf(),
            x1 <= old(self).w(),
            y1 <= old(self).h(),
        ensures
            final(self).painted_from(
                *old(self),
                |a: int, b: int| in_rect(a, b, x0 as int, x1 as int, y0 as int, y1 as int),
                luma,
            ),
    {
        let ghost start = *self;
        let mut y: u32 = y0;
        while y < y1
            invariant
                y0 <= y,
                y <= y1 || y == y0,
                y1 <= start.h(),
                x1 <= start.w(),
                self.painted_from(
                    start,
                    |a: int, b: int| in_rect(a, b, x0 as int, x1 as int, y0 as int, y as int),
                    luma,
                ),
            decreases y1 - y,
        {
            let mut x: u32 = x0;
            while x < x1
                invariant
                    y0 <= y < y1,
                    x0 <= x,
                    x <= x1 || x == x0,
                    y1 <= start.h(),
                    x1 <= start.w(),
                    self.painted_from(
                        start,
                        |a: int, b: int|
                            in_rect(a, b, x0 as int, x1 as int, y0 as int, y as int) || (b == y && x0
                                <= a < x),
                        luma,
                    ),
                decreases x1 - x,
            {
                let ghost before = *self;
                self.put_pixel(x, y, luma);
                assert forall|a: int, b: int| 0 <= a < self.w() && 0 <= b < self.h() implies #[trigger] self.at(
                    a,
                    b,
                ) == if in_rect(a, b, x0 as int, x1 as int, y0 as int, y as int) || (b == y && x0 <= a
                    < x + 1) {
                    luma
                } else {
                    start.at(a, b)
                } by {
                    assert(self.at(a, b) == if a == x && b == y {
                        luma
                    } else {
                        before.at(a, b)
                    });
                }
                x = x + 1;
            }
            assert forall|a: int, b: int| 0 <= a < self.w() && 0 <= b < self.h() implies #[trigger] self.at(
                a,
                b,
            ) == if in_rect(a, b, x0 as int, x1 as int, y0 as int, y + 1) {
                luma
            } else {
                start.at(a, b)
            } by {
                if b == y {
                    assert(x >= x1 || x == x0);
                }
            }
            y = y + 1;
        }
        assert forall|a: int, b: int| 0 <= a < self.w() && 0 <= b < self.h() implies #[trigger] self.at(
            a,
            b,
        ) == if in_rect(a, b, x0 as int, x1 as int, y0 as int, y1 as int) {
            luma
        } else {
            start.at(a, b)
        } by {
            assert(in_rect(a, b, x0 as int, x1 as int, y0 as int, y as int) == in_rect(
                a,
                b,
                x0 as int,
                x1 as int,
                y0 as int,
                y1 as int,
            ));
        }
    }
}


impl GrayCanvas {
    /// Whether `self` is `old` with the `size` x `size` square at `(x0, y0)` replaced by
    /// the row-major pixels `data`.
    pub open spec fn square_from(&self, old: GrayCanvas, x0: int, y0: int, size: int, data: Seq<u8>) -> bool {
        &&& self.wf()
        &&& self.w() == old.w()
        &&& self.h() == old.h()
        &&& forall|x: int, y: int|
            0 <= x < self.w() && 0 <= y < self.h() ==> #[trigger] self.at(x, y) == if in_rect(
                x,
                y,
                x0,
                x0 + size,
                y0,
                y0 + size,
            ) {
                data[pixel_at(size, x - x0, y - y0)]
            } else {
                old.at(x, y)
            }
    }

    /// Copies the row-major `size` x `size` pixels `data` to the square at `(x0, y0)`.
    pub fn draw_square(&mut self, x0: u32, y0: u32, size: u32, data: &Vec<u8>)
        requires
            old(self).wf(),
            x0 + size <= old(self).w(),
            y0 + size <= old(self).h(),
            data@.len() == size * size,
        ensures
            final(self).square_from(*old(self), x0 as int, y0 as int, size as int, data@),
    {
        let ghost start = *self;
        let n: usize = data.len();
        let mut y: u32 = 0;
        while y < size
            invariant
                y <= size,
                x0 + size <= start.w(),
                y0 + size <= start.h(),
                data@.len() == size * size,
                n == data@.len(),
                self.wf(),
                self.w() == start.w(),
                self.h() == start.h(),
                forall|a: int, b: int|
                    0 <= a < self.w() && 0 <= b < self.h() ==> #[trigger] self.at(a, b) == if in_rect(
                        a,
                        b,
                        x0 as int,
                        x0 + size,
                        y0 as int,
                        y0 + y,
                    ) {
                        data@[pixel_at(size as int, a - x0, b - y0)]
                    } else {
                        start.at(a, b)
                    },
            decreases size - y,
        {
            let mut x: u32 = 0;
            while x < size
                invariant
                    y < size,
                    x <= size,
                    n == data@.len(),
                    x0 + size <= start.w(),
                    y0 + size <= start.h(),
                    data@.len() == size * size,
                    self.wf(),
                    self.w() == start.w(),
                    self.h() == start.h(),
                    forall|a: int, b: int|
                        0 <= a < self.w() && 0 <= b < self.h() ==> #[trigger] self.at(a, b) == if in_rect(
                            a,
                            b,
                            x0 as int,
                            x0 + size,
                            y0 as int,
                            y0 + y,
                        ) || (b == y0 + y && x0 <= a < x0 + x) {
                            data@[pixel_at(size as int, a - x0, b - y0)]
                        } else {
                            start.at(a, b)
                        },
                decreases size - x,
            {
                proof {
                    lemma_index_in_bounds(size as int, size as int, x as int, y as int);
                }
                let i: usize = y as usize * size as usize + x as usize;
                let v = data[i];
                let ghost before = *self;
                self.put_pixel(x0 + x, y0 + y, v);
                assert forall|a: int, b: int| 0 <= a < self.w() && 0 <= b < self.h() implies #[trigger] self.at(
                    a,
                    b,
                ) == if in_rect(a, b, x0 as int, x0 + size, y0 as int, y0 + y) || (b == y0 + y && x0 <= a
                    < x0 + x + 1) {
                    data@[pixel_at(size as int, a - x0, b - y0)]
                } else {
                    start.at(a, b)
                } by {
                    assert(self.at(a, b) == if a == x0 + x && b == y0 + y {
                        v
                    } else {
                        before.at(a, b)
                    });
                }
                x = x + 1;
            }
            assert forall|a: int, b: int| 0 <= a < self.w() && 0 <= b < self.h() implies #[trigger] self.at(
                a,
                b,
            ) == if in_rect(a, b, x0 as int, x0 + size, y0 as int, y0 + y + 1) {
                data@[pixel_at(size as int, a - x0, b - y0)]
            } else {
                start.at(a, b)
            } by {}
            y = y + 1;
        }
    }
}

/// Painting one region and then another with the same gray paints their union.
pub proof fn lemma_paint_compose(
    c0: GrayCanvas,
    c1: GrayCanvas,
    c2: GrayCanvas,
    p: spec_fn(int, int) -> bool,
    q: spec_fn(int, int) -> bool,
    luma: u8,
)
    requires
        c1.painted_from(c0, p, luma),
        c2.painted_from(c1, q, luma),
    ensures
        c2.painted_from(c0, |a: int, b: int| p(a, b) || q(a, b), luma),
{
    assert forall|x: int, y: int| 0 <= x < c2.w() && 0 <= y < c2.h() implies #[trigger] c2.at(x, y) == if (
    |a: int, b: int| p(a, b) || q(a, b))(x, y) {
        luma
    } else {
        c0.at(x, y)
    } by {
        assert(c2.at(x, y) == if q(x, y) {
            luma
        } else {
            c1.at(x, y)
        });
        assert(c1.at(x, y) == if p(x, y) {
            luma
        } else {
            c0.at(x, y)
        });
    }
}

} // verus!
