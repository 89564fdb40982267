use vstd::prelude::*;
use crate::canvas::{paints, RustCanvas, CanvasError};

verus! {

pub open spec fn smaller(a: int, b: int) -> int {
    if a <= b {
        a
    } else {
        b
    }
}

pub open spec fn larger(a: int, b: int) -> int {
    if a <= b {
        b
    } else {
        a
    }
}

/// `v` lies between `a` and `b`, both included, in either order.
pub open spec fn between(v: int, a: int, b: int) -> bool {
    smaller(a, b) <= v <= larger(a, b)
}

/// Division rounded toward negative infinity, for a positive divisor.
pub open spec fn floor_div(n: int, d: int) -> int
    recommends
        d > 0,
{
    n / d
}

/// The coordinate at `t` on the segment from `(a0, t0)` to `(a1, t1)`,
/// interpolated with the quotient rounded down; `a0` when `t0 == t1`.
pub open spec fn interp(a0: int, t0: int, a1: int, t1: int, t: int) -> int {
    if t0 == t1 {
        a0
    } else {
        a0 + floor_div((t - t0) * (a1 - a0), t1 - t0)
    }
}

/// The half-open rectangle with corners `(x1, y1)` and `(x1 + w, y1 + h)`,
/// whichever way round the corners are.
pub open spec fn rect_covers(x1: int, y1: int, w: int, h: int, x: int, y: int) -> bool {
    &&& smaller(x1, x1 + w) <= x < larger(x1, x1 + w)
    &&& smaller(y1, y1 + h) <= y < larger(y1, y1 + h)
}

/// The closed disc of radius `r` around `(cx, cy)`, by squared distance.
pub open spec fn disc_covers(cx: int, cy: int, r: int, x: int, y: int) -> bool {
    r >= 0 && (x - cx) * (x - cx) + (y - cy) * (y - cy) <= r * r
}

/// For a line with `x1 < x2`: column `x` holds the rows between the line's
/// height at `x` and at the next column (the last column only its endpoint).
pub open spec fn column_covers(x1: int, y1: int, x2: int, y2: int, x: int, y: int) -> bool {
    &&& x1 <= x <= x2
    &&& between(y, interp(y1, x1, y2, x2, x), interp(y1, x1, y2, x2, smaller(x + 1, x2)))
}

/// The pixels of the line from `(x1, y1)` to `(x2, y2)`.
pub open spec fn line_covers(x1: int, y1: int, x2: int, y2: int, x: int, y: int) -> bool {
    if x1 == x2 {
        x == x1 && between(y, y1, y2)
    } else if x1 < x2 {
        column_covers(x1, y1, x2, y2, x, y)
    } else {
        column_covers(x2, y2, x1, y1, x, y)
    }
}

/// Two points ordered by their y coordinate; the pair is kept as it is on a tie.
pub open spec fn order_by_y(p: (int, int), q: (int, int)) -> ((int, int), (int, int)) {
    if p.1 > q.1 {
        (q, p)
    } else {
        (p, q)
    }
}

/// Three points sorted by y, each x travelling with its y.
pub open spec fn sort_by_y(p: (int, int), q: (int, int), s: (int, int)) -> ((int, int), (int, int), (int, int)) {
    let (top, rest) = order_by_y(p, q);
    let (mid, bottom) = order_by_y(rest, s);
    let (top2, mid2) = order_by_y(top, mid);
    (top2, mid2, bottom)
}

/// The x span painted on row `y` of the triangle `a`, `b`, `c` sorted by y:
/// between the long edge `a`-`c` and the short edge that crosses the row
/// (`a`-`b` above `b`'s row, `b`-`c` from it down). A triangle lying on one
/// row spans all three x coordinates.
pub open spec fn row_span(a: (int, int), b: (int, int), c: (int, int), y: int) -> (int, int) {
    if a.1 == c.1 {
        (smaller(a.0, smaller(b.0, c.0)), larger(a.0, larger(b.0, c.0)))
    } else {
        let long = interp(a.0, a.1, c.0, c.1, y);
        let short = if y < b.1 {
            interp(a.0, a.1, b.0, b.1, y)
        } else {
            interp(b.0, b.1, c.0, c.1, y)
        };
        (smaller(short, long), larger(short, long))
    }
}

/// The pixels of a triangle whose vertices are already sorted by y.
pub open spec fn sorted_triangle_covers(a: (int, int), b: (int, int), c: (int, int), x: int, y: int) -> bool {
    &&& a.1 <= y <= c.1
    &&& row_span(a, b, c, y).0 <= x <= row_span(a, b, c, y).1
}

/// The pixels of the filled triangle with vertices `(x1, y1)`, `(x2, y2)`, `(x3, y3)`.
pub open spec fn triangle_covers(x1: int, y1: int, x2: int, y2: int, x3: int, y3: int, x: int, y: int) -> bool {
    let (a, b, c) = sort_by_y((x1, y1), (x2, y2), (x3, y3));
    sorted_triangle_covers(a, b, c, x, y)
}

/// A bound on the magnitude of the differences that interpolation multiplies;
/// the product of two stays far inside `i128`.
const BIG: i128 = 0x4_0000_0000;

/// `n / d` rounded down.
fn floor_div_exec(n: i128, d: i128) -> (r: i128)
    requires
        0 < d <= BIG,
        -BIG * BIG <= n <= BIG * BIG,
    ensures
        r == floor_div(n as int, d as int),
        -BIG * BIG - BIG <= r <= BIG * BIG,
{
    proof {
        let q = (n as int) / (d as int);
        vstd::arithmetic::div_mod::lemma_fundamental_div_mod(n as int, d as int);
        vstd::arithmetic::div_mod::lemma_mod_bound(n as int, d as int);
        assert(-BIG * BIG - BIG <= q <= BIG * BIG) by (nonlinear_arith)
            requires
                n == d * q + (n as int) % (d as int),
                0 <= (n as int) % (d as int) < d,
                0 < d <= BIG,
                -BIG * BIG <= n <= BIG * BIG,
        ;
    }
    if n >= 0 {
        ((n as u128) / (d as u128)) as i128
    } else {
        let m: u128 = (-n) as u128;
        let q: u128 = (m + (d as u128) - 1) / (d as u128);
        proof {
            lemma_floor_of_negative(m as int, d as int);
        }
        -(q as i128)
    }
}

proof fn lemma_floor_of_negative(m: int, d: int)
    requires
        m >= 0,
        d > 0,
    ensures
        (-m) / d == -((m + d - 1) / d),
{
    let q = (m + d - 1) / d;
    let r = (m + d - 1) % d;
    vstd::arithmetic::div_mod::lemma_fundamental_div_mod(m + d - 1, d);
    assert(-m == (-q) * d + (d - 1 - r)) by (nonlinear_arith)
        requires
            m + d - 1 == d * q + r,
    ;
    vstd::arithmetic::div_mod::lemma_fundamental_div_mod_converse(-m, d, -q, d - 1 - r);
}

/// The x coordinate at row `y` on the edge from `(x1, y1)` to `(x2, y2)`.
fn get_x_at(y: i64, x1: i64, y1: i64, x2: i64, y2: i64) -> (r: i128)
    requires
        y1 <= y2,
        -0x1_0000_0000 <= y <= 0x1_0000_0000,
        -0x1_0000_0000 <= x1 <= 0x1_0000_0000,
        -0x1_0000_0000 <= y1 <= 0x1_0000_0000,
        -0x1_0000_0000 <= x2 <= 0x1_0000_0000,
        -0x1_0000_0000 <= y2 <= 0x1_0000_0000,
    ensures
        r == interp(x1 as int, y1 as int, x2 as int, y2 as int, y as int),
        -2 * BIG * BIG <= r <= 2 * BIG * BIG,
{
    let dy: i128 = (y2 as i128) - (y1 as i128);
    if dy == 0 {
        return x1 as i128;
    }
    let dx: i128 = (x2 as i128) - (x1 as i128);
    let t: i128 = (y as i128) - (y1 as i128);
    assert(-BIG * BIG <= t * dx <= BIG * BIG) by (nonlinear_arith)
        requires
            -BIG <= t <= BIG,
            -BIG <= dx <= BIG,
    ;
    (x1 as i128) + floor_div_exec(t * dx, dy)
}

pub open spec fn clamp_spec(v: int, lo: int, hi: int) -> int {
    if v < lo {
        lo
    } else if v > hi {
        hi
    } else {
        v
    }
}

/// `v` limited to `[lo, hi]`.
fn clamp(v: i128, lo: i128, hi: i128) -> (r: i128)
    requires
        lo <= hi,
    ensures
        r == clamp_spec(v as int, lo as int, hi as int),
{
    if v < lo {
        lo
    } else if v > hi {
        hi
    } else {
        v
    }
}

/// A point as a pair of mathematical integers.
pub open spec fn pt(p: (i32, i32)) -> (int, int) {
    (p.0 as int, p.1 as int)
}

/// Orders two points by y, moving each point whole.
fn order_points(p: (i32, i32), q: (i32, i32)) -> (r: ((i32, i32), (i32, i32)))
    ensures
        (pt(r.0), pt(r.1)) == order_by_y(pt(p), pt(q)),
{
    if p.1 > q.1 {
        (q, p)
    } else {
        (p, q)
    }
}

/// The painted x span of row `y` of a triangle sorted by y.
fn triangle_row_span(a: (i32, i32), b: (i32, i32), c: (i32, i32), y: i64) -> (r: (i128, i128))
    requires
        a.1 <= b.1 <= c.1,
        a.1 <= y <= c.1,
    ensures
        (r.0 as int, r.1 as int) == row_span(pt(a), pt(b), pt(c), y as int),
        r.1 <= 2 * BIG * BIG,
{
    if a.1 == c.1 {
        let lo: i32 = if a.0 <= b.0 && a.0 <= c.0 {
            a.0
        } else if b.0 <= c.0 {
            b.0
        } else {
            c.0
        };
        let hi: i32 = if a.0 >= b.0 && a.0 >= c.0 {
            a.0
        } else if b.0 >= c.0 {
            b.0
        } else {
            c.0
        };
        (lo as i128, hi as i128)
    } else {
        let long: i128 = get_x_at(y, a.0 as i64, a.1 as i64, c.0 as i64, c.1 as i64);
        let short: i128 = if y < b.1 as i64 {
            get_x_at(y, a.0 as i64, a.1 as i64, b.0 as i64, b.1 as i64)
        } else {
            get_x_at(y, b.0 as i64, b.1 as i64, c.0 as i64, c.1 as i64)
        };
        if short <= long {
            (short, long)
        } else {
            (long, short)
        }
    }
}

/// Every pixel of the disc lies in its bounding square.
proof fn lemma_disc_in_square(cx: int, cy: int, r: int, x: int, y: int)
    requires
        disc_covers(cx, cy, r, x, y),
    ensures
        cx - r <= x <= cx + r,
        cy - r <= y <= cy + r,
{
    assert(cx - r <= x <= cx + r && cy - r <= y <= cy + r) by (nonlinear_arith)
        requires
            r >= 0,
            (x - cx) * (x - cx) + (y - cy) * (y - cy) <= r * r,
    ;
}

impl RustCanvas {
    /// Paints row `y` from `xlo` up to, not including, `xhi`.
    fn paint_row(&mut self, y: usize, xlo: usize, xhi: usize, color: u32)
        requires
            old(self).wf(),
            y < old(self).h(),
            xhi <= old(self).w(),
        ensures
            paints(*old(self), *final(self), |px: int, py: int| py == y && xlo <= px < xhi, color),
    {
        let mut x: usize = xlo;
        while x < xhi
            invariant
                xhi <= self.w(),
                y < self.h(),
                xlo <= xhi ==> xlo <= x <= xhi,
                xlo > xhi ==> x == xlo,
                paints(*old(self), *self, |px: int, py: int| py == y && xlo <= px < x, color),
            decreases xhi - x,
        {
            self.write_pixel(x, y, color);
            x = x + 1;
        }
    }

    /// Paints column `x` from `ylo` down to, not including, `yhi`.
    fn paint_column(&mut self, x: usize, ylo: usize, yhi: usize, color: u32)
        requires
            old(self).wf(),
            x < old(self).w(),
            yhi <= old(self).h(),
        ensures
            paints(*old(self), *final(self), |px: int, py: int| px == x && ylo <= py < yhi, color),
    {
        let mut y: usize = ylo;
        while y < yhi
            invariant
                yhi <= self.h(),
                x < self.w(),
                ylo <= yhi ==> ylo <= y <= yhi,
                ylo > yhi ==> y == ylo,
                paints(*old(self), *self, |px: int, py: int| px == x && ylo <= py < y, color),
            decreases yhi - y,
        {
            self.write_pixel(x, y, color);
            y = y + 1;
        }
    }
}

impl RustCanvas {
    /// `Ok` when `(x, y)` lies on the canvas, `OutOfBounds` otherwise.
    fn ensure_in_range(&self, x: i32, y: i32) -> (r: Result<(), CanvasError>)
        requires
            self.wf(),
        ensures
            r is Ok <==> self.in_bounds(x as int, y as int),
            r is Err ==> r == Err::<(), CanvasError>(CanvasError::OutOfBounds),
    {
        if x < 0 || y < 0 || x as i64 >= self.width() as i64 || y as i64 >= self.height() as i64 {
            Err(CanvasError::OutOfBounds)
        } else {
            Ok(())
        }
    }

    /// Fills the half-open rectangle spanned by `(x1, y1)` and
    /// `(x1 + width, y1 + height)`; negative sizes extend left or up. Parts off
    /// the canvas are clipped.
    pub fn fill_rect(&mut self, x1: i32, y1: i32, width: i32, height: i32, color: u32)
        requires
            old(self).wf(),
        ensures
            paints(
                *old(self),
                *final(self),
                |px: int, py: int| rect_covers(x1 as int, y1 as int, width as int, height as int, px, py),
                color,
            ),
    {
        let xa: i128 = x1 as i128;
        let xb: i128 = x1 as i128 + width as i128;
        let ya: i128 = y1 as i128;
        let yb: i128 = y1 as i128 + height as i128;
        let w: i128 = self.width() as i128;
        let h: i128 = self.height() as i128;
        let xlo: i128 = clamp(if xa <= xb { xa } else { xb }, 0, w);
        let xhi: i128 = clamp(if xa <= xb { xb } else { xa }, 0, w);
        let ylo: i128 = clamp(if ya <= yb { ya } else { yb }, 0, h);
        let yhi: i128 = clamp(if ya <= yb { yb } else { ya }, 0, h);
        let mut y: i128 = ylo;
        while y < yhi
            invariant
                self.wf(),
                self.w() == w,
                self.h() == h,
                0 <= xlo <= w,
                0 <= xhi <= w,
                0 <= ylo <= y,
                ylo <= yhi ==> y <= yhi,
                ylo > yhi ==> y == ylo,
                yhi <= h,
                paints(*old(self), *self, |px: int, py: int| ylo <= py < y && xlo <= px < xhi, color),
            decreases yhi - y,
        {
            self.paint_row(y as usize, xlo as usize, xhi as usize, color);
            y = y + 1;
        }
    }

    /// Paints the in-bounds pixels of row `y` from `xlo` up to, not including,
    /// `xhi` that lie in the disc.
    fn paint_disc_row(&mut self, y: i128, xlo: i128, xhi: i128, cx: i128, cy: i128, r: i128, color: u32)
        requires
            old(self).wf(),
            0 <= y < old(self).h(),
            0 <= xlo,
            xhi <= old(self).w(),
            i32::MIN <= cx <= i32::MAX,
            i32::MIN <= cy <= i32::MAX,
            0 <= r <= i32::MAX,
        ensures
            paints(
                *old(self),
                *final(self),
                |px: int, py: int| py == y && xlo <= px < xhi && disc_covers(cx as int, cy as int, r as int, px, py),
                color,
            ),
    {
        let dy: i128 = y - cy;
        assert(0 <= r * r <= 0x1_0000_0000 * 0x1_0000_0000) by (nonlinear_arith)
            requires
                0 <= r <= 0x1_0000_0000,
        ;
        let r2: i128 = r * r;
        let mut x: i128 = xlo;
        while x < xhi
            invariant
                self.wf(),
                self.w() == old(self).w(),
                0 <= y < self.h(),
                0 <= xlo,
                xhi <= self.w(),
                xlo <= xhi ==> xlo <= x <= xhi,
                xlo > xhi ==> x == xlo,
                dy == y - cy,
                r2 == r * r,
                0 <= r <= i32::MAX,
                -0x1_0000_0000 <= dy <= 0x1_0000_0000,
                i32::MIN <= cx <= i32::MAX,
                paints(
                    *old(self),
                    *self,
                    |px: int, py: int| py == y && xlo <= px < x && disc_covers(cx as int, cy as int, r as int, px, py),
                    color,
                ),
            decreases xhi - x,
        {
            let dx: i128 = x - cx;
            assert(0 <= dx * dx <= 0x1_0000_0000 * 0x1_0000_0000) by (nonlinear_arith)
                requires
                    -0x1_0000_0000 <= dx <= 0x1_0000_0000,
            ;
            assert(0 <= dy * dy <= 0x1_0000_0000 * 0x1_0000_0000) by (nonlinear_arith)
                requires
                    -0x1_0000_0000 <= dy <= 0x1_0000_0000,
            ;
            let inside: bool = dx * dx + dy * dy <= r2;
            assert(inside == disc_covers(cx as int, cy as int, r as int, x as int, y as int));
            if inside {
                self.write_pixel(x as usize, y as usize, color);
            }
            x = x + 1;
        }
    }

    /// Fills every pixel whose squared distance from `(center_x, center_y)` is
    /// at most `radius` squared. Parts off the canvas are clipped; a negative
    /// radius paints nothing.
    pub fn fill_circle(&mut self, center_x: i32, center_y: i32, radius: i32, color: u32)
        requires
            old(self).wf(),
        ensures
            paints(
                *old(self),
                *final(self),
                |px: int, py: int| disc_covers(center_x as int, center_y as int, radius as int, px, py),
                color,
            ),
    {
        if radius < 0 {
            return;
        }
        let cx: i128 = center_x as i128;
        let cy: i128 = center_y as i128;
        let r: i128 = radius as i128;
        let w: i128 = self.width() as i128;
        let h: i128 = self.height() as i128;
        let xlo: i128 = clamp(cx - r, 0, w);
        let xhi: i128 = clamp(cx + r + 1, 0, w);
        let ylo: i128 = clamp(cy - r, 0, h);
        let yhi: i128 = clamp(cy + r + 1, 0, h);
        let mut y: i128 = ylo;
        while y < yhi
            invariant
                self.wf(),
                self.w() == w,
                self.h() == h,
                0 <= xlo,
                xhi <= w,
                0 <= ylo <= y,
                ylo <= yhi ==> y <= yhi,
                ylo > yhi ==> y == ylo,
                yhi <= h,
                cx == center_x,
                cy == center_y,
                r == radius,
                0 <= r,
                paints(
                    *old(self),
                    *self,
                    |px: int, py: int| ylo <= py < y && xlo <= px < xhi && disc_covers(cx as int, cy as int, r as int, px, py),
                    color,
                ),
            decreases yhi - y,
        {
            self.paint_disc_row(y, xlo, xhi, cx, cy, r, color);
            y = y + 1;
        }
        assert forall|px: int, py: int| self.in_bounds(px, py) && disc_covers(cx as int, cy as int, r as int, px, py) implies ylo <= py < yhi && xlo <= px < xhi by {
            lemma_disc_in_square(cx as int, cy as int, r as int, px, py);
        }
    }
}

impl RustCanvas {
    /// Paints the columns of a line with `x1 < x2`, both endpoints on the canvas.
    fn draw_columns(&mut self, x1: i32, y1: i32, x2: i32, y2: i32, color: u32)
        requires
            old(self).wf(),
            x1 < x2,
            old(self).in_bounds(x1 as int, y1 as int),
            old(self).in_bounds(x2 as int, y2 as int),
        ensures
            paints(
                *old(self),
                *final(self),
                |px: int, py: int| column_covers(x1 as int, y1 as int, x2 as int, y2 as int, px, py),
                color,
            ),
    {
        let h: i128 = self.height() as i128;
        let mut x: i64 = x1 as i64;
        while x <= x2 as i64
            invariant
                self.wf(),
                self.w() == old(self).w(),
                self.h() == old(self).h(),
                h == self.h(),
                x1 < x2,
                self.in_bounds(x1 as int, y1 as int),
                self.in_bounds(x2 as int, y2 as int),
                x1 <= x <= x2 + 1,
                paints(
                    *old(self),
                    *self,
                    |px: int, py: int| px < x && column_covers(x1 as int, y1 as int, x2 as int, y2 as int, px, py),
                    color,
                ),
            decreases x2 + 1 - x,
        {
            let next: i64 = if x + 1 < x2 as i64 {
                x + 1
            } else {
                x2 as i64
            };
            let a: i128 = get_x_at(x, y1 as i64, x1 as i64, y2 as i64, x2 as i64);
            let b: i128 = get_x_at(next, y1 as i64, x1 as i64, y2 as i64, x2 as i64);
            let lo: i128 = clamp(if a <= b { a } else { b }, 0, h);
            let hi: i128 = clamp(if a <= b { b } else { a } + 1, 0, h);
            self.paint_column(x as usize, lo as usize, hi as usize, color);
            x = x + 1;
        }
    }

    /// Draws the line from `(x1, y1)` to `(x2, y2)`. Both endpoints must lie on
    /// the canvas; otherwise `OutOfBounds` is returned and nothing is drawn.
    pub fn line_to(&mut self, x1: i32, y1: i32, x2: i32, y2: i32, color: u32) -> (r: Result<(), CanvasError>)
        requires
            old(self).wf(),
        ensures
            r is Ok <==> old(self).in_bounds(x1 as int, y1 as int) && old(self).in_bounds(x2 as int, y2 as int),
            r is Err ==> r == Err::<(), CanvasError>(CanvasError::OutOfBounds) && *final(self) == *old(self),
            r is Ok ==> paints(
                *old(self),
                *final(self),
                |px: int, py: int| line_covers(x1 as int, y1 as int, x2 as int, y2 as int, px, py),
                color,
            ),
    {
        if let Err(e) = self.ensure_in_range(x1, y1) {
            return Err(e);
        }
        if let Err(e) = self.ensure_in_range(x2, y2) {
            return Err(e);
        }
        if x1 == x2 {
            let ylo: i32 = if y1 <= y2 { y1 } else { y2 };
            let yhi: i32 = if y1 <= y2 { y2 } else { y1 };
            self.paint_column(x1 as usize, ylo as usize, yhi as usize + 1, color);
        } else if x1 < x2 {
            self.draw_columns(x1, y1, x2, y2, color);
        } else {
            self.draw_columns(x2, y2, x1, y1, color);
        }
        Ok(())
    }

    /// Fills the triangle of vertices sorted by y, clipped to the canvas.
    fn fill_sorted_triangle(&mut self, a: (i32, i32), b: (i32, i32), c: (i32, i32), color: u32)
        requires
            old(self).wf(),
            a.1 <= b.1 <= c.1,
        ensures
            paints(
                *old(self),
                *final(self),
                |px: int, py: int| sorted_triangle_covers(pt(a), pt(b), pt(c), px, py),
                color,
            ),
    {
        let w: i128 = self.width() as i128;
        let h: i128 = self.height() as i128;
        let ylo: i128 = clamp(a.1 as i128, 0, h);
        let yhi: i128 = clamp(c.1 as i128 + 1, 0, h);
        let mut y: i128 = ylo;
        while y < yhi
            invariant
                self.wf(),
                self.w() == w,
                self.h() == h,
                a.1 <= b.1 <= c.1,
                ylo == clamp_spec(a.1 as int, 0, h as int),
                yhi == clamp_spec(c.1 + 1, 0, h as int),
                ylo <= yhi ==> ylo <= y <= yhi,
                ylo > yhi ==> y == ylo,
                paints(
                    *old(self),
                    *self,
                    |px: int, py: int| py < y && sorted_triangle_covers(pt(a), pt(b), pt(c), px, py),
                    color,
                ),
            decreases yhi - y,
        {
            let span: (i128, i128) = triangle_row_span(a, b, c, y as i64);
            let lo: i128 = clamp(span.0, 0, w);
            let hi: i128 = clamp(span.1 + 1, 0, w);
            self.paint_row(y as usize, lo as usize, hi as usize, color);
            y = y + 1;
        }
    }

    /// Fills the triangle with the given vertices, clipped to the canvas: each
    /// row from the top vertex to the bottom one is painted between the long
    /// edge and the short edge that crosses it.
    pub fn draw_triangle(&mut self, x1: i32, y1: i32, x2: i32, y2: i32, x3: i32, y3: i32, color: u32)
        requires
            old(self).wf(),
        ensures
            paints(
                *old(self),
                *final(self),
                |px: int, py: int| triangle_covers(x1 as int, y1 as int, x2 as int, y2 as int, x3 as int, y3 as int, px, py),
                color,
            ),
    {
        let (p, q) = order_points((x1, y1), (x2, y2));
        let (q, s) = order_points(q, (x3, y3));
        let (p, q) = order_points(p, q);
        self.fill_sorted_triangle(p, q, s, color);
    }
}

} // verus!
