use vstd::prelude::*;

verus! {

/// Why an operation on a canvas was refused.
#[derive(Debug, Clone, Copy, PartialEq, Eq, Structural)]
pub enum CanvasError {
    /// A canvas was asked for with a zero width or height.
    InvalidDimension,
    /// A coordinate lies outside `[0, width) x [0, height)`.
    OutOfBounds,
    /// The encoded image could not be written out.
    IoError,
}

/// A fixed-size buffer of packed `0x00RRGGBB` colors, stored row by row.
pub struct RustCanvas {
    width: usize,
    height: usize,
    pixels: Vec<u32>,
}

impl RustCanvas {
    /// Number of columns.
    pub closed spec fn w(&self) -> int {
        self.width as int
    }

    /// Number of rows.
    pub closed spec fn h(&self) -> int {
        self.height as int
    }

    /// The pixel storage holds exactly one color per coordinate.
    pub closed spec fn storage_ok(&self) -> bool {
        self.pixels@.len() == self.width * self.height
    }

    /// Well-formedness: positive dimensions that `i32` coordinates can address.
    pub open spec fn wf(&self) -> bool {
        &&& 0 < self.w() <= i32::MAX
        &&& 0 < self.h() <= i32::MAX
        &&& self.storage_ok()
    }

    pub open spec fn in_bounds(&self, x: int, y: int) -> bool {
        0 <= x < self.w() && 0 <= y < self.h()
    }

    /// The color at `(x, y)`; meaningful for in-bounds coordinates.
    pub closed spec fn pixel_at(&self, x: int, y: int) -> u32 {
        self.pixels@[y * self.w() + x]
    }

    /// What a read of `(x, y)` yields.
    pub open spec fn read(&self, x: int, y: int) -> Option<u32> {
        if self.in_bounds(x, y) {
            Some(self.pixel_at(x, y))
        } else {
            None
        }
    }

    /// Creates a `width` x `height` canvas with every pixel zero.
    pub fn new(width: usize, height: usize) -> (r: Result<RustCanvas, CanvasError>)
        requires
            width <= i32::MAX,
            height <= i32::MAX,
            width * height <= usize::MAX,
        ensures
            r is Ok <==> width > 0 && height > 0,
            r is Err ==> r == Err::<RustCanvas, CanvasError>(CanvasError::InvalidDimension),
            r is Ok ==> {
                let c = r->Ok_0;
                &&& c.wf()
                &&& c.w() == width
                &&& c.h() == height
                &&& forall|x: int, y: int| c.in_bounds(x, y) ==> #[trigger] c.pixel_at(x, y) == 0
            },
    {
        if width == 0 || height == 0 {
            return Err(CanvasError::InvalidDimension);
        }
        let n: usize = width * height;
        let mut pixels: Vec<u32> = Vec::new();
        let mut i: usize = 0;
        while i < n
            invariant
                i <= n,
                pixels@.len() == i,
                forall|k: int| 0 <= k < i ==> pixels@[k] == 0,
            decreases n - i,
        {
            pixels.push(0);
            i = i + 1;
        }
        let c = RustCanvas { width, height, pixels };
        assert forall|x: int, y: int| c.in_bounds(x, y) implies #[trigger] c.pixel_at(x, y) == 0 by {
            lemma_index_in_range(x, y, c.w(), c.h());
        }
        Ok(c)
    }
}

/// `after` is `before` with exactly the in-bounds pixels of `region` set to `c`:
/// same dimensions, still well formed, every other pixel unchanged.
pub open spec fn paints(before: RustCanvas, after: RustCanvas, region: spec_fn(int, int) -> bool, c: u32) -> bool {
    &&& after.wf()
    &&& after.w() == before.w()
    &&& after.h() == before.h()
    &&& forall|x: int, y: int| after.in_bounds(x, y) ==> #[trigger] after.pixel_at(x, y) == if region(x, y) {
        c
    } else {
        before.pixel_at(x, y)
    }
}

impl RustCanvas {
    pub fn width(&self) -> (r: usize)
        ensures
            r == self.w(),
    {
        self.width
    }

    pub fn height(&self) -> (r: usize)
        ensures
            r == self.h(),
    {
        self.height
    }

    /// Largest valid x coordinate.
    pub fn max_x(&self) -> (r: usize)
        requires
            self.wf(),
        ensures
            r == self.w() - 1,
    {
        self.width - 1
    }

    /// Largest valid y coordinate.
    pub fn max_y(&self) -> (r: usize)
        requires
            self.wf(),
        ensures
            r == self.h() - 1,
    {
        self.height - 1
    }

    pub fn max_x_i32(&self) -> (r: i32)
        requires
            self.wf(),
        ensures
            r == self.w() - 1,
    {
        self.max_x() as i32
    }

    pub fn max_y_i32(&self) -> (r: i32)
        requires
            self.wf(),
        ensures
            r == self.h() - 1,
    {
        self.max_y() as i32
    }

    /// Middle column, rounded down.
    pub fn center_x(&self) -> (r: usize)
        requires
            self.wf(),
        ensures
            r == (self.w() - 1) / 2,
    {
        self.max_x() / 2
    }

    /// Middle row, rounded down.
    pub fn center_y(&self) -> (r: usize)
        requires
            self.wf(),
        ensures
            r == (self.h() - 1) / 2,
    {
        self.max_y() / 2
    }

    pub fn center_x_i32(&self) -> (r: i32)
        requires
            self.wf(),
        ensures
            r == (self.w() - 1) / 2,
    {
        self.max_x_i32() / 2
    }

    pub fn center_y_i32(&self) -> (r: i32)
        requires
            self.wf(),
        ensures
            r == (self.h() - 1) / 2,
    {
        self.max_y_i32() / 2
    }

    /// Sets one in-bounds pixel.
    pub fn write_pixel(&mut self, x: usize, y: usize, color: u32)
        requires
            old(self).wf(),
            old(self).in_bounds(x as int, y as int),
        ensures
            paints(*old(self), *final(self), |px: int, py: int| px == x && py == y, color),
    {
        let n: usize = self.pixels.len();
        proof {
            lemma_index_in_range(x as int, y as int, self.w(), self.h());
            assert(y * self.width <= y * self.width + x < n);
        }
        let i: usize = y * self.width + x;
        self.pixels.set(i, color);
        let ghost before = *old(self);
        assert forall|px: int, py: int| self.in_bounds(px, py) implies #[trigger] self.pixel_at(px, py) == if px == x && py == y {
            color
        } else {
            before.pixel_at(px, py)
        } by {
            lemma_index_in_range(px, py, self.w(), self.h());
            if px != x || py != y {
                lemma_index_distinct(px, py, x as int, y as int, self.w());
            }
        }
    }

    /// Sets the pixel at `(x, y)`, or reports `OutOfBounds` and leaves the
    /// canvas as it was.
    pub fn set_pixel(&mut self, x: usize, y: usize, color: u32) -> (r: Result<(), CanvasError>)
        requires
            old(self).wf(),
        ensures
            old(self).in_bounds(x as int, y as int) <==> r is Ok,
            r is Err ==> r == Err::<(), CanvasError>(CanvasError::OutOfBounds) && *final(self) == *old(self),
            r is Ok ==> paints(*old(self), *final(self), |px: int, py: int| px == x && py == y, color),
    {
        if x < self.width && y < self.height {
            self.write_pixel(x, y, color);
            Ok(())
        } else {
            Err(CanvasError::OutOfBounds)
        }
    }

    /// The color at `(x, y)`, or `None` outside the canvas.
    pub fn get_pixel(&self, x: usize, y: usize) -> (r: Option<u32>)
        requires
            self.wf(),
        ensures
            r == self.read(x as int, y as int),
    {
        if x < self.width && y < self.height {
            let n: usize = self.pixels.len();
            proof {
                lemma_index_in_range(x as int, y as int, self.w(), self.h());
                assert(y * self.width <= y * self.width + x < n);
            }
            Some(self.pixels[y * self.width + x])
        } else {
            None
        }
    }

    /// Overwrites every pixel with `color`.
    pub fn fill(&mut self, color: u32)
        requires
            old(self).wf(),
        ensures
            paints(*old(self), *final(self), |px: int, py: int| true, color),
    {
        let n: usize = self.pixels.len();
        let mut i: usize = 0;
        while i < n
            invariant
                self.wf(),
                self.w() == old(self).w(),
                self.h() == old(self).h(),
                n == self.pixels@.len(),
                i <= n,
                forall|k: int| 0 <= k < i ==> self.pixels@[k] == color,
            decreases n - i,
        {
            self.pixels.set(i, color);
            i = i + 1;
        }
        assert forall|px: int, py: int| #[trigger] self.in_bounds(px, py) implies self.pixel_at(px, py) == color by {
            lemma_index_in_range(px, py, self.w(), self.h());
        }
    }
}

/// ASCII decimal digits of `n`, most significant first, without leading zeros.
pub open spec fn decimal(n: nat) -> Seq<u8>
    decreases n,
{
    if n < 10 {
        seq![(48 + n) as u8]
    } else {
        decimal(n / 10).push((48 + n % 10) as u8)
    }
}

/// The binary PPM header: the magic number, the width and height in
/// decimal separated by a space, then the maximum channel value 255, each
/// followed by a newline.
pub open spec fn ppm_header(w: nat, h: nat) -> Seq<u8> {
    seq![80u8, 54u8, 10u8] + decimal(w) + seq![32u8] + decimal(h) + seq![10u8, 50u8, 53u8, 53u8, 10u8]
}

/// Channel `k` of a packed color: 0 is red (bits 16..24), 1 green (bits 8..16),
/// anything else blue (bits 0..8). Bits above 24 are dropped.
pub open spec fn channel(p: u32, k: int) -> u8 {
    if k == 0 {
        ((p >> 16u32) & 0xffu32) as u8
    } else if k == 1 {
        ((p >> 8u32) & 0xffu32) as u8
    } else {
        (p & 0xffu32) as u8
    }
}

/// Three bytes (red, green, blue) per pixel, rows top to bottom, each row left to right.
pub open spec fn ppm_body(c: RustCanvas) -> Seq<u8> {
    Seq::new(
        (3 * (c.w() * c.h())) as nat,
        |i: int| channel(c.pixel_at((i / 3) % c.w(), (i / 3) / c.w()), i % 3),
    )
}

/// The whole binary PPM image of a canvas.
pub open spec fn ppm_image(c: RustCanvas) -> Seq<u8> {
    ppm_header(c.w() as nat, c.h() as nat) + ppm_body(c)
}

/// Appends the decimal digits of `n`.
fn push_decimal(out: &mut Vec<u8>, n: usize)
    ensures
        final(out)@ == old(out)@ + decimal(n as nat),
    decreases n,
{
    if n >= 10 {
        push_decimal(out, n / 10);
    }
    let d: u8 = (n % 10) as u8;
    out.push(48 + d);
    proof {
        if n >= 10 {
            assert(decimal(n as nat) == decimal((n / 10) as nat).push((48 + n % 10) as u8));
        }
    }
}

impl RustCanvas {
    /// The canvas encoded as a binary PPM image: the header, then raw RGB
    /// bytes in row-major order.
    pub fn ppm_bytes(&self) -> (r: Vec<u8>)
        requires
            self.wf(),
        ensures
            r@ == ppm_image(*self),
    {
        let mut out: Vec<u8> = Vec::new();
        out.push(80);
        out.push(54);
        out.push(10);
        push_decimal(&mut out, self.width);
        out.push(32);
        push_decimal(&mut out, self.height);
        out.push(10);
        out.push(50);
        out.push(53);
        out.push(53);
        out.push(10);
        let ghost header = out@;
        assert(header =~= ppm_header(self.w() as nat, self.h() as nat));
        let n: usize = self.pixels.len();
        let ghost px = self.pixels@;
        let mut k: usize = 0;
        while k < n
            invariant
                n == px.len(),
                px == self.pixels@,
                k <= n,
                out@ =~= header + Seq::new((3 * k) as nat, |i: int| channel(px[i / 3], i % 3)),
            decreases n - k,
        {
            let p: u32 = self.pixels[k];
            out.push(((p >> 16u32) & 0xffu32) as u8);
            out.push(((p >> 8u32) & 0xffu32) as u8);
            out.push((p & 0xffu32) as u8);
            assert(Seq::new((3 * (k + 1)) as nat, |i: int| channel(px[i / 3], i % 3)) =~= Seq::new(
                (3 * k) as nat,
                |i: int| channel(px[i / 3], i % 3),
            ).push(channel(p, 0)).push(channel(p, 1)).push(channel(p, 2)));
            k = k + 1;
        }
        let ghost w = self.w();
        assert forall|i: int| 0 <= i < 3 * (w * self.h()) implies px[i / 3] == self.pixel_at(
            #[trigger] ((i / 3) % w),
            (i / 3) / w,
        ) by {
            vstd::arithmetic::div_mod::lemma_fundamental_div_mod(i / 3, w);
            assert((i / 3) / w * w == w * ((i / 3) / w)) by (nonlinear_arith);
        }
        assert(out@ =~= ppm_image(*self));
        out
    }
}

/// Distinct coordinates in a row of width `w` have distinct row-major indices.
pub proof fn lemma_index_distinct(x1: int, y1: int, x2: int, y2: int, w: int)
    requires
        0 <= x1 < w,
        0 <= x2 < w,
        0 <= y1,
        0 <= y2,
        x1 != x2 || y1 != y2,
    ensures
        y1 * w + x1 != y2 * w + x2,
{
    if y1 == y2 {
    } else if y1 < y2 {
        assert(y1 * w + x1 < y2 * w + x2) by (nonlinear_arith)
            requires
                0 <= x1 < w,
                0 <= x2,
                y1 < y2,
        ;
    } else {
        assert(y2 * w + x2 < y1 * w + x1) by (nonlinear_arith)
            requires
                0 <= x2 < w,
                0 <= x1,
                y2 < y1,
        ;
    }
}

/// The row-major index of an in-bounds coordinate lies inside the storage.
pub proof fn lemma_index_in_range(x: int, y: int, w: int, h: int)
    requires
        0 <= x < w,
        0 <= y < h,
    ensures
        0 <= y * w + x < w * h,
{
    assert(0 <= y * w + x < w * h) by (nonlinear_arith)
        requires
            0 <= x < w,
            0 <= y < h,
    ;
}

} // verus!
