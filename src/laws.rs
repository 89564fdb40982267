use vstd::prelude::*;
use crate::canvas::{paints, RustCanvas};
use crate::raster::{
    between, column_covers, disc_covers, interp, line_covers, rect_covers, row_span, smaller, sort_by_y,
    sorted_triangle_covers, triangle_covers,
};

verus! {

/// After a pixel write at an in-bounds `(x, y)`, reading `(x, y)` yields the
/// written color.
pub proof fn read_after_write(before: RustCanvas, after: RustCanvas, x: int, y: int, c: u32)
    requires
        before.wf(),
        before.in_bounds(x, y),
        paints(before, after, |px: int, py: int| px == x && py == y, c),
    ensures
        after.read(x, y) == Some(c),
{
    assert(after.pixel_at(x, y) == c);
}

/// After a fill with `c`, every coordinate of the canvas reads `c`.
pub proof fn read_after_fill(before: RustCanvas, after: RustCanvas, c: u32)
    requires
        before.wf(),
        paints(before, after, |px: int, py: int| true, c),
    ensures
        forall|x: int, y: int| after.in_bounds(x, y) ==> #[trigger] after.read(x, y) == Some(c),
{
    assert forall|x: int, y: int| after.in_bounds(x, y) implies #[trigger] after.read(x, y) == Some(c) by {
        assert(after.pixel_at(x, y) == c);
    }
}

/// The line from `(0, 0)` to `(0, h - 1)` on a canvas of height `h` paints
/// exactly the first column and leaves every other pixel as it was.
pub proof fn left_edge_line(before: RustCanvas, after: RustCanvas, c: u32)
    requires
        before.wf(),
        paints(before, after, |px: int, py: int| line_covers(0, 0, 0, before.h() - 1, px, py), c),
    ensures
        forall|x: int, y: int| after.in_bounds(x, y) ==> #[trigger] after.pixel_at(x, y) == if x == 0 {
            c
        } else {
            before.pixel_at(x, y)
        },
{
}

/// A line paints the same pixels whichever endpoint it is drawn from.
pub proof fn line_symmetric(x1: int, y1: int, x2: int, y2: int, x: int, y: int)
    ensures
        line_covers(x1, y1, x2, y2, x, y) == line_covers(x2, y2, x1, y1, x, y),
{
}

/// A line holds both of its endpoints.
pub proof fn line_holds_endpoints(x1: int, y1: int, x2: int, y2: int)
    ensures
        line_covers(x1, y1, x2, y2, x1, y1),
        line_covers(x1, y1, x2, y2, x2, y2),
{
    if x1 < x2 {
        lemma_interp_at_ends(y1, x1, y2, x2);
    } else if x2 < x1 {
        lemma_interp_at_ends(y2, x2, y1, x1);
    }
}

/// A line is connected: each column from the leftmost to the rightmost one
/// shares a row with the next column.
pub proof fn line_connected(x1: int, y1: int, x2: int, y2: int, x: int)
    requires
        smaller(x1, x2) <= x < if x1 <= x2 { x2 } else { x1 },
    ensures
        exists|y: int| line_covers(x1, y1, x2, y2, x, y) && line_covers(x1, y1, x2, y2, x + 1, y),
{
    let (ax, ay, bx, by) = if x1 < x2 { (x1, y1, x2, y2) } else { (x2, y2, x1, y1) };
    let y = interp(ay, ax, by, bx, x + 1);
    assert(column_covers(ax, ay, bx, by, x, y));
    assert(column_covers(ax, ay, bx, by, x + 1, y));
    assert(line_covers(x1, y1, x2, y2, x, y) && line_covers(x1, y1, x2, y2, x + 1, y));
}

/// A vertical line holds every row between its endpoints and nothing else.
pub proof fn vertical_line_rows(x1: int, y1: int, y2: int, x: int, y: int)
    ensures
        line_covers(x1, y1, x1, y2, x, y) <==> x == x1 && between(y, y1, y2),
{
}

/// A rectangle covers the same pixels when given from its opposite corner.
pub proof fn rect_corner_order(x1: int, y1: int, w: int, h: int, x: int, y: int)
    ensures
        rect_covers(x1, y1, w, h, x, y) == rect_covers(x1 + w, y1 + h, -w, -h, x, y),
{
}

/// A disc of radius zero is its center alone.
pub proof fn disc_radius_zero(cx: int, cy: int, x: int, y: int)
    ensures
        disc_covers(cx, cy, 0, x, y) <==> x == cx && y == cy,
{
    assert(disc_covers(cx, cy, 0, x, y) ==> x == cx && y == cy) by (nonlinear_arith);
}

/// The three points lie on one straight line.
pub open spec fn collinear(x1: int, y1: int, x2: int, y2: int, x3: int, y3: int) -> bool {
    (x2 - x1) * (y3 - y1) == (x3 - x1) * (y2 - y1)
}

/// A filled triangle holds its three vertices; every row from the top vertex
/// to the bottom one holds the long edge's point and the point of the short
/// edge that crosses that row, the middle vertex's row included.
pub proof fn triangle_holds_edges(x1: int, y1: int, x2: int, y2: int, x3: int, y3: int)
    ensures
        triangle_covers(x1, y1, x2, y2, x3, y3, x1, y1),
        triangle_covers(x1, y1, x2, y2, x3, y3, x2, y2),
        triangle_covers(x1, y1, x2, y2, x3, y3, x3, y3),
        ({
            let (a, b, c) = sort_by_y((x1, y1), (x2, y2), (x3, y3));
            a.1 < c.1 ==> forall|y: int|
                a.1 <= y <= c.1 ==> {
                    &&& #[trigger] triangle_covers(x1, y1, x2, y2, x3, y3, interp(a.0, a.1, c.0, c.1, y), y)
                    &&& y < b.1 ==> triangle_covers(x1, y1, x2, y2, x3, y3, interp(a.0, a.1, b.0, b.1, y), y)
                    &&& y >= b.1 ==> triangle_covers(x1, y1, x2, y2, x3, y3, interp(b.0, b.1, c.0, c.1, y), y)
                }
        }),
{
    let (a, b, c) = sort_by_y((x1, y1), (x2, y2), (x3, y3));
    if a.1 < c.1 {
        lemma_interp_at_ends(a.0, a.1, c.0, c.1);
        if a.1 < b.1 {
            lemma_interp_at_ends(a.0, a.1, b.0, b.1);
        }
        if b.1 < c.1 {
            lemma_interp_at_ends(b.0, b.1, c.0, c.1);
        }
    }
    assert(sorted_triangle_covers(a, b, c, a.0, a.1));
    assert(sorted_triangle_covers(a, b, c, b.0, b.1));
    assert(sorted_triangle_covers(a, b, c, c.0, c.1));
}

/// A triangle whose vertices lie on one line, not all on one row, paints at
/// most one pixel on each row: no area.
pub proof fn collinear_triangle_is_thin(x1: int, y1: int, x2: int, y2: int, x3: int, y3: int, x: int, xx: int, y: int)
    requires
        collinear(x1, y1, x2, y2, x3, y3),
        !(y1 == y2 && y2 == y3),
        triangle_covers(x1, y1, x2, y2, x3, y3, x, y),
        triangle_covers(x1, y1, x2, y2, x3, y3, xx, y),
    ensures
        x == xx,
{
    let (a, b, c) = sort_by_y((x1, y1), (x2, y2), (x3, y3));
    lemma_collinear_swaps(x1, y1, x2, y2, x3, y3);
    assert(collinear(a.0, a.1, b.0, b.1, c.0, c.1));
    lemma_sorted_collinear_row(a.0, a.1, b.0, b.1, c.0, c.1, y);
}

/// Collinearity does not depend on the order of the points.
proof fn lemma_collinear_swaps(x1: int, y1: int, x2: int, y2: int, x3: int, y3: int)
    ensures
        collinear(x1, y1, x2, y2, x3, y3) == collinear(x2, y2, x1, y1, x3, y3),
        collinear(x1, y1, x2, y2, x3, y3) == collinear(x1, y1, x3, y3, x2, y2),
        collinear(x1, y1, x2, y2, x3, y3) == collinear(x3, y3, x2, y2, x1, y1),
        collinear(x1, y1, x2, y2, x3, y3) == collinear(x2, y2, x3, y3, x1, y1),
        collinear(x1, y1, x2, y2, x3, y3) == collinear(x3, y3, x1, y1, x2, y2),
{
    assert((x2 - x1) * (y3 - y1) - (x3 - x1) * (y2 - y1) == -((x1 - x2) * (y3 - y2) - (x3 - x2) * (y1 - y2))) by (nonlinear_arith);
    assert((x2 - x1) * (y3 - y1) - (x3 - x1) * (y2 - y1) == -((x2 - x3) * (y1 - y3) - (x1 - x3) * (y2 - y3))) by (nonlinear_arith);
    assert((x2 - x1) * (y3 - y1) - (x3 - x1) * (y2 - y1) == (x3 - x2) * (y1 - y2) - (x1 - x2) * (y3 - y2)) by (nonlinear_arith);
    assert((x2 - x1) * (y3 - y1) - (x3 - x1) * (y2 - y1) == (x1 - x3) * (y2 - y3) - (x2 - x3) * (y1 - y3)) by (nonlinear_arith);
}

/// On a row of a sorted collinear triangle that is not flat, the span is one pixel wide.
proof fn lemma_sorted_collinear_row(ax: int, ay: int, bx: int, by: int, cx: int, cy: int, y: int)
    requires
        ay <= by <= cy,
        ay < cy,
        ay <= y <= cy,
        collinear(ax, ay, bx, by, cx, cy),
    ensures
        row_span((ax, ay), (bx, by), (cx, cy), y).0 == row_span((ax, ay), (bx, by), (cx, cy), y).1,
{
    let a_ = bx - ax;
    let b_ = by - ay;
    let c_ = cx - ax;
    let d_ = cy - ay;
    let t = y - ay;
    if y < by {
        assert((t * a_) * d_ == (t * c_) * b_) by (nonlinear_arith)
            requires
                a_ * d_ == c_ * b_,
        ;
        lemma_div_cross(t * a_, b_, t * c_, d_);
    } else if by == cy {
        assert(a_ == c_) by (nonlinear_arith)
            requires
                a_ * d_ == c_ * b_,
                b_ == d_,
                d_ > 0,
        ;
        lemma_interp_at_ends(ax, ay, cx, cy);
    } else {
        let u = y - by;
        assert((u * (c_ - a_)) * d_ == (u * c_) * (d_ - b_)) by (nonlinear_arith)
            requires
                a_ * d_ == c_ * b_,
        ;
        lemma_div_cross(u * (c_ - a_), d_ - b_, u * c_, d_);
        vstd::arithmetic::div_mod::lemma_hoist_over_denominator(u * c_, a_, d_ as nat);
        assert(u * c_ + a_ * d_ == t * c_) by (nonlinear_arith)
            requires
                a_ * d_ == c_ * b_,
                u == t - b_,
        ;
    }
}

/// Quotients of equal fractions with positive denominators agree.
proof fn lemma_div_cross(n1: int, d1: int, n2: int, d2: int)
    requires
        d1 > 0,
        d2 > 0,
        n1 * d2 == n2 * d1,
    ensures
        n1 / d1 == n2 / d2,
{
    let q = n1 / d1;
    let r = n1 % d1;
    vstd::arithmetic::div_mod::lemma_fundamental_div_mod(n1, d1);
    vstd::arithmetic::div_mod::lemma_mod_bound(n1, d1);
    assert(0 <= n2 - q * d2 < d2) by (nonlinear_arith)
        requires
            n1 == d1 * q + r,
            0 <= r < d1,
            n1 * d2 == n2 * d1,
            d1 > 0,
            d2 > 0,
    ;
    vstd::arithmetic::div_mod::lemma_fundamental_div_mod_converse(n2, d2, q, n2 - q * d2);
}

/// Interpolation returns the endpoints at the ends of the segment.
proof fn lemma_interp_at_ends(a0: int, t0: int, a1: int, t1: int)
    requires
        t0 < t1,
    ensures
        interp(a0, t0, a1, t1, t0) == a0,
        interp(a0, t0, a1, t1, t1) == a1,
{
    assert(0 * (a1 - a0) == 0);
    assert((t1 - t0) * (a1 - a0) == (a1 - a0) * (t1 - t0)) by (nonlinear_arith);
    vstd::arithmetic::div_mod::lemma_div_multiples_vanish(a1 - a0, t1 - t0);
}

} // verus!
