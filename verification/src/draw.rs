use vstd::prelude::*;
use vstd::arithmetic::div_mod::lemma_fundamental_div_mod;

use crate::color::Color;
use crate::framebuffer::DmaReadyFramebuffer;
use crate::{DrawPrimitive, Pixel, Point};

verus! {

/// The largest coordinate magnitude at the ends of a line: Bresenham's walk
/// mirrors coordinates into one octant and steps one past the last point,
/// both of which stay inside `i32` within it.
pub const COORD_LIMIT: i32 = 0x7fff_fffe;

/// Both coordinates lie within `COORD_LIMIT`.
pub open spec fn coord_ok(p: Point) -> bool {
    -COORD_LIMIT <= p.x <= COORD_LIMIT && -COORD_LIMIT <= p.y <= COORD_LIMIT
}

/// The value is an `i32`.
pub open spec fn fits_i32(v: int) -> bool {
    i32::MIN <= v <= i32::MAX
}

/// The value is an `i32` whose negation is one too.
pub open spec fn negatable_i32(v: int) -> bool {
    -i32::MAX <= v <= i32::MAX
}

/// A line can be walked without `i32` overflow: its ends lie within
/// `COORD_LIMIT` and the differences of their coordinates, which the walk
/// negates when it mirrors the line, are negatable `i32`s.
pub open spec fn line_ok(p: Point, q: Point) -> bool {
    coord_ok(p) && coord_ok(q) && negatable_i32(q.x - p.x) && negatable_i32(q.y - p.y)
}

/// The differences that filling a bottom-flat triangle computes are `i32`s:
/// its height and the x extents of its two edges.
pub open spec fn bottom_flat_ok(p1: Point, p2: Point, p3: Point) -> bool {
    fits_i32(p2.y - p1.y) && fits_i32(p2.x - p1.x) && fits_i32(p3.x - p1.x)
}

/// The differences that filling a top-flat triangle computes are `i32`s:
/// its height and the x extents of its two edges.
pub open spec fn top_flat_ok(p1: Point, p2: Point, p3: Point) -> bool {
    fits_i32(p3.y - p1.y) && fits_i32(p3.x - p1.x) && fits_i32(p3.x - p2.x)
}

/// The differences that filling a triangle with vertices sorted by `y`
/// computes are `i32`s: those of the flat part it is, or, split at the
/// middle row, its full height and the x extents of its three edges.
pub open spec fn sorted_triangle_ok(p1: Point, p2: Point, p3: Point) -> bool {
    if p2.y == p3.y {
        bottom_flat_ok(p1, p2, p3)
    } else if p1.y == p2.y {
        top_flat_ok(p1, p2, p3)
    } else {
        fits_i32(p3.y - p1.y) && fits_i32(p3.x - p1.x) && fits_i32(p2.x - p1.x) && fits_i32(
            p3.x - p2.x,
        )
    }
}

/// A primitive can be rasterised without `i32` overflow: a point always, a
/// line when `line_ok`, a triangle when `sorted_triangle_ok` holds of its
/// sorted vertices.
pub open spec fn primitive_ok(prim: DrawPrimitive) -> bool {
    match prim {
        DrawPrimitive::ColoredPoint(_, _) => true,
        DrawPrimitive::Line(ps, _) => line_ok(ps[0], ps[1]),
        DrawPrimitive::ColoredTriangle(ps, _) => {
            let (p1, p2, p3) = sort_by_y(ps[0], ps[1], ps[2]);
            sorted_triangle_ok(p1, p2, p3)
        },
    }
}

/// `num / den` rounded to the nearest integer, halves away from zero.
pub open spec fn round_div(num: int, den: int) -> int {
    if num >= 0 {
        (2 * num + den) / (2 * den)
    } else {
        -((-2 * num + den) / (2 * den))
    }
}

/// `num / den` rounded toward zero.
pub open spec fn trunc_div(num: int, den: int) -> int {
    if num >= 0 {
        num / den
    } else {
        -((-num) / den)
    }
}

/// The x coordinate, rounded to the nearest pixel (halves away from zero),
/// at which the edge from `a` to `b` stands after `s` of `h` scanlines: the
/// exact rational `a.x + s * (b.x - a.x) / h`, rounded. An interpolation in
/// `f32` gives the same pixel wherever its arithmetic is exact; beyond 2^24,
/// where `f32` no longer holds every integer, it can land a pixel away (a
/// corner at x = 16777217 stays there here, `f32` puts it at 16777216). An
/// edge of height zero gives 0, as an interpolation by 0 / 0 does.
pub open spec fn edge_x(a: Point, b: Point, h: int, s: int) -> int {
    if h == 0 {
        0
    } else {
        round_div(a.x * h + s * (b.x - a.x), h)
    }
}

/// The pixels of the horizontal run between `x1` and `x2` (in either
/// order, both included) on row `y`, from left to right.
pub open spec fn hline_pixels(x1: int, x2: int, y: int, c: Color) -> Seq<Pixel> {
    let lo = if x1 <= x2 { x1 } else { x2 };
    let hi = if x1 <= x2 { x2 } else { x1 };
    Seq::new(
        (hi - lo + 1) as nat,
        |i: int| Pixel { point: Point { x: (lo + i) as i32, y: y as i32 }, color: c },
    )
}

/// Scanline `s` of a triangle whose flat side is at the bottom: apex `p1`,
/// bottom corners `p2` and `p3` on the row of `p2`.
pub open spec fn bottom_row(p1: Point, p2: Point, p3: Point, c: Color, s: int) -> Seq<Pixel> {
    let h = p2.y - p1.y;
    hline_pixels(edge_x(p1, p2, h, s), edge_x(p1, p3, h, s), p1.y + s, c)
}

/// The first `n` scanlines of a bottom-flat triangle.
pub open spec fn bottom_rows(p1: Point, p2: Point, p3: Point, c: Color, n: nat) -> Seq<Pixel>
    decreases n,
{
    if n == 0 {
        Seq::empty()
    } else {
        bottom_rows(p1, p2, p3, c, (n - 1) as nat) + bottom_row(p1, p2, p3, c, n - 1)
    }
}

/// The pixels of a bottom-flat triangle, row by row from `p1.y` to `p2.y`.
pub open spec fn bottom_flat_pixels(p1: Point, p2: Point, p3: Point, c: Color) -> Seq<Pixel> {
    if p2.y < p1.y {
        Seq::empty()
    } else {
        bottom_rows(p1, p2, p3, c, (p2.y - p1.y + 1) as nat)
    }
}

/// Scanline `s` of a triangle whose flat side is at the top: top corners
/// `p1` and `p2` on the row of `p1`, apex `p3`.
pub open spec fn top_row(p1: Point, p2: Point, p3: Point, c: Color, s: int) -> Seq<Pixel> {
    let h = p3.y - p1.y;
    hline_pixels(edge_x(p1, p3, h, s), edge_x(p2, p3, h, s), p1.y + s, c)
}

/// The first `n` scanlines of a top-flat triangle.
pub open spec fn top_rows(p1: Point, p2: Point, p3: Point, c: Color, n: nat) -> Seq<Pixel>
    decreases n,
{
    if n == 0 {
        Seq::empty()
    } else {
        top_rows(p1, p2, p3, c, (n - 1) as nat) + top_row(p1, p2, p3, c, n - 1)
    }
}

/// The pixels of a top-flat triangle, row by row from `p1.y` to `p3.y`.
pub open spec fn top_flat_pixels(p1: Point, p2: Point, p3: Point, c: Color) -> Seq<Pixel> {
    if p3.y < p1.y {
        Seq::empty()
    } else {
        top_rows(p1, p2, p3, c, (p3.y - p1.y + 1) as nat)
    }
}

/// The three vertices in order of `y`, equal `y` keeping their order.
pub open spec fn sort_by_y(a: Point, b: Point, c: Point) -> (Point, Point, Point) {
    if a.y <= b.y {
        if b.y <= c.y {
            (a, b, c)
        } else if a.y <= c.y {
            (a, c, b)
        } else {
            (c, a, b)
        }
    } else {
        if a.y <= c.y {
            (b, a, c)
        } else if b.y <= c.y {
            (b, c, a)
        } else {
            (c, b, a)
        }
    }
}

/// The point where the long edge from `p1` to `p3` crosses the row of `p2`,
/// its x coordinate the exact rational value rounded toward zero (an `f32`
/// computation of it can differ beyond 2^24, as for `edge_x`).
pub open spec fn split_point(p1: Point, p2: Point, p3: Point) -> Point {
    Point {
        x: trunc_div(p1.x * (p3.y - p1.y) + (p2.y - p1.y) * (p3.x - p1.x), p3.y - p1.y) as i32,
        y: p2.y,
    }
}

/// The pixels of a filled triangle whose vertices are sorted by `y`: a
/// bottom-flat part, a top-flat part, or a bottom-flat part above a
/// top-flat part split at the row of the middle vertex.
pub open spec fn sorted_triangle_pixels(p1: Point, p2: Point, p3: Point, c: Color) -> Seq<Pixel> {
    if p2.y == p3.y {
        bottom_flat_pixels(p1, p2, p3, c)
    } else if p1.y == p2.y {
        top_flat_pixels(p1, p2, p3, c)
    } else {
        let p4 = split_point(p1, p2, p3);
        bottom_flat_pixels(p1, p2, p4, c) + top_flat_pixels(p2, p4, p3, c)
    }
}

/// The pixels of a filled triangle: its vertices sorted by `y`, then filled
/// as `sorted_triangle_pixels` describes.
pub open spec fn triangle_pixels(v: [Point; 3], c: Color) -> Seq<Pixel> {
    let (p1, p2, p3) = sort_by_y(v[0], v[1], v[2]);
    sorted_triangle_pixels(p1, p2, p3, c)
}

/// The points of Bresenham's line from `(x0, y0)` to `(x1, y1)` as the
/// line_drawing crate produces them.
pub uninterp spec fn bresenham_points(x0: i32, y0: i32, x1: i32, y1: i32) -> Seq<(i32, i32)>;

/// The larger of the two coordinate distances between the endpoints.
pub open spec fn chebyshev(x0: int, y0: int, x1: int, y1: int) -> int {
    let dx = if x1 >= x0 { x1 - x0 } else { x0 - x1 };
    let dy = if y1 >= y0 { y1 - y0 } else { y0 - y1 };
    if dx >= dy { dx } else { dy }
}

/// Calls `line_drawing::Bresenham::new((x0, y0), (x1, y1))` and collects the
/// points. Claimed, as the crate documents ("includes both the start and end
/// point") and its iterator shows (one point per step along the major axis):
/// the first point is the start, the last is the end, and there are
/// `max(|dx|, |dy|) + 1` of them. Which points lie between is named, not
/// stated. `line_ok` keeps the crate's `i32` arithmetic (mirroring into an
/// octant, the error term, the step past the last point) from
/// overflowing.
#[verifier::external_body]
fn bresenham(x0: i32, y0: i32, x1: i32, y1: i32) -> (pts: Vec<(i32, i32)>)
    requires
        line_ok((Point { x: x0, y: y0 }), (Point { x: x1, y: y1 })),
    ensures
        pts@ == bresenham_points(x0, y0, x1, y1),
        pts@.len() == chebyshev(x0 as int, y0 as int, x1 as int, y1 as int) + 1,
        pts@[0] == (x0, y0),
        pts@.last() == (x1, y1),
{
    line_drawing::Bresenham::new((x0, y0), (x1, y1)).collect()
}

/// The pixels of a line in the given colour.
pub open spec fn line_pixels(p1: Point, p2: Point, c: Color) -> Seq<Pixel> {
    bresenham_points(p1.x, p1.y, p2.x, p2.y).map_values(
        |q: (i32, i32)| Pixel { point: Point { x: q.0, y: q.1 }, color: c },
    )
}

/// The pixels that drawing a primitive produces, in drawing order.
pub open spec fn primitive_pixels_spec(prim: DrawPrimitive) -> Seq<Pixel> {
    match prim {
        DrawPrimitive::ColoredPoint(p, c) => seq![Pixel { point: p, color: c }],
        DrawPrimitive::Line(ps, c) => line_pixels(ps[0], ps[1], c),
        DrawPrimitive::ColoredTriangle(ps, c) => triangle_pixels(ps, c),
    }
}

/// If `lo * d <= x < (hi + 1) * d` then `lo <= x / d <= hi`.
proof fn lemma_div_between(x: int, d: int, lo: int, hi: int)
    requires
        d > 0,
        lo * d <= x,
        x < (hi + 1) * d,
    ensures
        lo <= x / d <= hi,
{
    lemma_fundamental_div_mod(x, d);
    let q = x / d;
    let r = x % d;
    assert(lo <= q <= hi) by (nonlinear_arith)
        requires
            d > 0,
            lo * d <= x,
            x < (hi + 1) * d,
            x == d * q + r,
            0 <= r < d,
    ;
}

/// Rounding to nearest keeps a quotient between integer bounds of it.
proof fn lemma_round_div_between(num: int, den: int, lo: int, hi: int)
    requires
        den > 0,
        lo * den <= num <= hi * den,
    ensures
        lo <= round_div(num, den) <= hi,
{
    if num >= 0 {
        assert(lo * (2 * den) <= 2 * num + den) by (nonlinear_arith)
            requires
                lo * den <= num,
                den > 0,
        ;
        assert(2 * num + den < (hi + 1) * (2 * den)) by (nonlinear_arith)
            requires
                num <= hi * den,
                den > 0,
        ;
        lemma_div_between(2 * num + den, 2 * den, lo, hi);
    } else {
        assert((-hi) * (2 * den) <= -2 * num + den) by (nonlinear_arith)
            requires
                num <= hi * den,
                den > 0,
        ;
        assert(-2 * num + den < (-lo + 1) * (2 * den)) by (nonlinear_arith)
            requires
                lo * den <= num,
                den > 0,
        ;
        lemma_div_between(-2 * num + den, 2 * den, -hi, -lo);
    }
}

/// Rounding toward zero keeps a quotient between integer bounds of it.
proof fn lemma_trunc_div_between(num: int, den: int, lo: int, hi: int)
    requires
        den > 0,
        lo * den <= num <= hi * den,
    ensures
        lo <= trunc_div(num, den) <= hi,
{
    if num >= 0 {
        assert(num < (hi + 1) * den) by (nonlinear_arith)
            requires
                num <= hi * den,
                den > 0,
        ;
        lemma_div_between(num, den, lo, hi);
    } else {
        assert(-num < (-lo + 1) * den) by (nonlinear_arith)
            requires
                lo * den <= num,
                den > 0,
        ;
        assert((-hi) * den <= -num) by (nonlinear_arith)
            requires
                num <= hi * den,
        ;
        lemma_div_between(-num, den, -hi, -lo);
    }
}

/// An edge's x coordinate on a scanline lies between the x coordinates of
/// its ends, and equals them on the first and last scanline.
proof fn lemma_edge_x_between(a: Point, b: Point, h: int, s: int)
    requires
        h > 0,
        0 <= s <= h,
    ensures
        a.x <= b.x ==> a.x <= edge_x(a, b, h, s) <= b.x,
        b.x <= a.x ==> b.x <= edge_x(a, b, h, s) <= a.x,
        s == 0 ==> edge_x(a, b, h, s) == a.x,
        s == h ==> edge_x(a, b, h, s) == b.x,
{
    let num = a.x * h + s * (b.x - a.x);
    if a.x <= b.x {
        assert(a.x * h <= num <= b.x * h) by (nonlinear_arith)
            requires
                num == a.x * h + s * (b.x - a.x),
                a.x <= b.x,
                0 <= s <= h,
        ;
        lemma_round_div_between(num, h, a.x as int, b.x as int);
    } else {
        assert(b.x * h <= num <= a.x * h) by (nonlinear_arith)
            requires
                num == a.x * h + s * (b.x - a.x),
                b.x <= a.x,
                0 <= s <= h,
        ;
        lemma_round_div_between(num, h, b.x as int, a.x as int);
    }
    if s == 0 {
        assert(num == a.x * h);
        lemma_round_div_between(num, h, a.x as int, a.x as int);
    }
    if s == h {
        assert(num == b.x * h) by (nonlinear_arith)
            requires
                num == a.x * h + s * (b.x - a.x),
                s == h,
        ;
        lemma_round_div_between(num, h, b.x as int, b.x as int);
    }
}

/// The x coordinate of edge `a`-`b` on scanline `s` of `h`, computed exactly
/// in 128-bit arithmetic and rounded to the nearest pixel.
fn edge_x_exec(a: Point, b: Point, h: i32, s: i32) -> (x: i32)
    requires
        fits_i32(b.x - a.x),
        0 <= h,
        0 <= s <= h,
    ensures
        x == edge_x(a, b, h as int, s as int),
        h > 0 && a.x <= b.x ==> a.x <= x <= b.x,
        h > 0 && b.x <= a.x ==> b.x <= x <= a.x,
{
    if h == 0 {
        return 0;
    }
    let ax = a.x as i128;
    let hh = h as i128;
    let ss = s as i128;
    let d = b.x as i128 - ax;
    assert(-0x8000_0000 * 0x8000_0000 <= ax * hh <= 0x8000_0000 * 0x8000_0000) by (nonlinear_arith)
        requires
            -0x8000_0000 <= ax <= 0x8000_0000,
            0 <= hh <= 0x8000_0000,
    ;
    assert(-0x8000_0000 * 0x8000_0000 <= ss * d <= 0x8000_0000 * 0x8000_0000) by (nonlinear_arith)
        requires
            -0x8000_0000 <= d <= 0x8000_0000,
            0 <= ss <= 0x8000_0000,
    ;
    let num: i128 = ax * hh + ss * d;
    assert(-0x1_0000_0000_0000_0000 <= num <= 0x1_0000_0000_0000_0000);
    let q: i128 = if num >= 0 {
        (2 * num + hh) / (2 * hh)
    } else {
        -((-2 * num + hh) / (2 * hh))
    };
    proof {
        lemma_edge_x_between(a, b, h as int, s as int);
    }
    q as i32
}

/// Appends the pixels of the horizontal run from `p1.x` to `p2.x` (both
/// included, left to right) on the row of `p1`.
pub fn draw_horizontal_line(p1: Point, p2: Point, color: Color, out: &mut Vec<Pixel>)
    ensures
        final(out)@ == old(out)@ + hline_pixels(p1.x as int, p2.x as int, p1.y as int, color),
{
    let start = if p1.x <= p2.x { p1.x } else { p2.x };
    let end = if p1.x <= p2.x { p2.x } else { p1.x };
    let ghost base = out@;
    let mut x = start;
    loop
        invariant
            start <= x <= end,
            out@ == base + hline_pixels(start as int, (x - 1) as int, p1.y as int, color).take(
                x - start,
            ),
            base == old(out)@,
            start == (if p1.x <= p2.x { p1.x } else { p2.x }),
            end == (if p1.x <= p2.x { p2.x } else { p1.x }),
        decreases end - x,
    {
        out.push(Pixel { point: Point { x, y: p1.y }, color });
        proof {
            assert(out@ == base + hline_pixels(start as int, x as int, p1.y as int, color));
        }
        if x == end {
            proof {
                assert(hline_pixels(start as int, end as int, p1.y as int, color)
                    == hline_pixels(p1.x as int, p2.x as int, p1.y as int, color));
            }
            return;
        }
        x = x + 1;
        proof {
            assert(hline_pixels(start as int, (x - 1) as int, p1.y as int, color).take(x - start)
                == hline_pixels(start as int, (x - 1) as int, p1.y as int, color));
        }
    }
}

/// Appends the pixels of a triangle whose flat side is at the bottom: apex
/// `p1`, corners `p2` and `p3` on the row of `p2`. Each scanline from `p1.y`
/// to `p2.y` runs between the edges `p1`-`p2` and `p1`-`p3`.
pub fn fill_bottom_flat_triangle(p1: Point, p2: Point, p3: Point, color: Color, out: &mut Vec<Pixel>)
    requires
        bottom_flat_ok(p1, p2, p3),
    ensures
        final(out)@ == old(out)@ + bottom_flat_pixels(p1, p2, p3, color),
{
    if p2.y < p1.y {
        return;
    }
    let h = p2.y - p1.y;
    let ghost base = out@;
    let mut y = p1.y;
    loop
        invariant
            p1.y <= y <= p2.y,
            h == p2.y - p1.y,
            bottom_flat_ok(p1, p2, p3),
            base == old(out)@,
            out@ == base + bottom_rows(p1, p2, p3, color, (y - p1.y) as nat),
        decreases p2.y - y,
    {
        let s = y - p1.y;
        let x1 = edge_x_exec(p1, p2, h, s);
        let x2 = edge_x_exec(p1, p3, h, s);
        draw_horizontal_line(Point { x: x1, y }, Point { x: x2, y }, color, out);
        proof {
            assert(bottom_rows(p1, p2, p3, color, (s + 1) as nat) == bottom_rows(
                p1,
                p2,
                p3,
                color,
                s as nat,
            ) + bottom_row(p1, p2, p3, color, s as int));
        }
        if y == p2.y {
            return;
        }
        y = y + 1;
    }
}

/// Appends the pixels of a triangle whose flat side is at the top: corners
/// `p1` and `p2` on the row of `p1`, apex `p3`. Each scanline from `p1.y` to
/// `p3.y` runs between the edges `p1`-`p3` and `p2`-`p3`.
pub fn fill_top_flat_triangle(p1: Point, p2: Point, p3: Point, color: Color, out: &mut Vec<Pixel>)
    requires
        top_flat_ok(p1, p2, p3),
    ensures
        final(out)@ == old(out)@ + top_flat_pixels(p1, p2, p3, color),
{
    if p3.y < p1.y {
        return;
    }
    let h = p3.y - p1.y;
    let ghost base = out@;
    let mut y = p1.y;
    loop
        invariant
            p1.y <= y <= p3.y,
            h == p3.y - p1.y,
            top_flat_ok(p1, p2, p3),
            base == old(out)@,
            out@ == base + top_rows(p1, p2, p3, color, (y - p1.y) as nat),
        decreases p3.y - y,
    {
        let s = y - p1.y;
        let x1 = edge_x_exec(p1, p3, h, s);
        let x2 = edge_x_exec(p2, p3, h, s);
        draw_horizontal_line(Point { x: x1, y }, Point { x: x2, y }, color, out);
        proof {
            assert(top_rows(p1, p2, p3, color, (s + 1) as nat) == top_rows(
                p1,
                p2,
                p3,
                color,
                s as nat,
            ) + top_row(p1, p2, p3, color, s as int));
        }
        if y == p3.y {
            return;
        }
        y = y + 1;
    }
}

/// The vertices in order of `y`; vertices with equal `y` keep their order.
fn sort_vertices(a: Point, b: Point, c: Point) -> (r: (Point, Point, Point))
    ensures
        r == sort_by_y(a, b, c),
        r.0.y <= r.1.y <= r.2.y,
{
    if a.y <= b.y {
        if b.y <= c.y {
            (a, b, c)
        } else if a.y <= c.y {
            (a, c, b)
        } else {
            (c, a, b)
        }
    } else {
        if a.y <= c.y {
            (b, a, c)
        } else if b.y <= c.y {
            (b, c, a)
        } else {
            (c, b, a)
        }
    }
}

/// The split point lies on the row of `p2`, between `p1.x` and `p3.x`.
proof fn lemma_split_point_between(p1: Point, p2: Point, p3: Point)
    requires
        p1.y < p2.y < p3.y,
    ensures
        p1.x <= p3.x ==> p1.x <= trunc_div(
            p1.x * (p3.y - p1.y) + (p2.y - p1.y) * (p3.x - p1.x),
            p3.y - p1.y,
        ) <= p3.x,
        p3.x <= p1.x ==> p3.x <= trunc_div(
            p1.x * (p3.y - p1.y) + (p2.y - p1.y) * (p3.x - p1.x),
            p3.y - p1.y,
        ) <= p1.x,
{
    let h = p3.y - p1.y;
    let s = p2.y - p1.y;
    let num = p1.x * h + s * (p3.x - p1.x);
    if p1.x <= p3.x {
        assert(p1.x * h <= num <= p3.x * h) by (nonlinear_arith)
            requires
                num == p1.x * h + s * (p3.x - p1.x),
                p1.x <= p3.x,
                0 <= s <= h,
        ;
        lemma_trunc_div_between(num, h, p1.x as int, p3.x as int);
    } else {
        assert(p3.x * h <= num <= p1.x * h) by (nonlinear_arith)
            requires
                num == p1.x * h + s * (p3.x - p1.x),
                p3.x <= p1.x,
                0 <= s <= h,
        ;
        lemma_trunc_div_between(num, h, p3.x as int, p1.x as int);
    }
}

/// Where the long edge `p1`-`p3` crosses the row of `p2`.
fn split_point_exec(p1: Point, p2: Point, p3: Point) -> (p4: Point)
    requires
        sorted_triangle_ok(p1, p2, p3),
        p1.y < p2.y < p3.y,
    ensures
        p4 == split_point(p1, p2, p3),
        p1.x <= p3.x ==> p1.x <= p4.x <= p3.x,
        p3.x <= p1.x ==> p3.x <= p4.x <= p1.x,
{
    let h = (p3.y - p1.y) as i128;
    let s = (p2.y - p1.y) as i128;
    let ax = p1.x as i128;
    let d = p3.x as i128 - ax;
    assert(-0x8000_0000 * 0x8000_0000 <= ax * h <= 0x8000_0000 * 0x8000_0000) by (nonlinear_arith)
        requires
            -0x8000_0000 <= ax <= 0x8000_0000,
            0 <= h <= 0x8000_0000,
    ;
    assert(-0x8000_0000 * 0x8000_0000 <= s * d <= 0x8000_0000 * 0x8000_0000) by (nonlinear_arith)
        requires
            -0x8000_0000 <= d <= 0x8000_0000,
            0 <= s <= 0x8000_0000,
    ;
    let num: i128 = ax * h + s * d;
    assert(-0x1_0000_0000_0000_0000 <= num <= 0x1_0000_0000_0000_0000);
    let q: i128 = if num >= 0 {
        num / h
    } else {
        -((-num) / h)
    };
    proof {
        lemma_split_point_between(p1, p2, p3);
    }
    Point { x: q as i32, y: p2.y }
}

/// Appends the pixels of a filled triangle: the vertices sorted by `y`,
/// then a bottom-flat part, a top-flat part, or both, split at the row of
/// the middle vertex.
pub fn fill_triangle(vertices: [Point; 3], color: Color, out: &mut Vec<Pixel>)
    requires
        primitive_ok(DrawPrimitive::ColoredTriangle(vertices, color)),
    ensures
        final(out)@ == old(out)@ + triangle_pixels(vertices, color),
{
    let (p1, p2, p3) = sort_vertices(vertices[0], vertices[1], vertices[2]);
    if p2.y == p3.y {
        fill_bottom_flat_triangle(p1, p2, p3, color, out);
    } else if p1.y == p2.y {
        fill_top_flat_triangle(p1, p2, p3, color, out);
    } else {
        let p4 = split_point_exec(p1, p2, p3);
        let ghost mid = out@;
        fill_bottom_flat_triangle(p1, p2, p4, color, out);
        fill_top_flat_triangle(p2, p4, p3, color, out);
        proof {
            assert(out@ == old(out)@ + (bottom_flat_pixels(p1, p2, p4, color) + top_flat_pixels(
                p2,
                p4,
                p3,
                color,
            )));
        }
    }
}

/// The pixels at the given points, in order, all in one colour.
pub fn points_to_pixels(pts: &Vec<(i32, i32)>, color: Color) -> (out: Vec<Pixel>)
    ensures
        out@ == pts@.map_values(|q: (i32, i32)| Pixel { point: Point { x: q.0, y: q.1 }, color }),
{
    let mut out: Vec<Pixel> = Vec::new();
    let mut i: usize = 0;
    while i < pts.len()
        invariant
            0 <= i <= pts@.len(),
            out@ == pts@.take(i as int).map_values(
                |q: (i32, i32)| Pixel { point: Point { x: q.0, y: q.1 }, color },
            ),
        decreases pts@.len() - i,
    {
        let q = pts[i];
        out.push(Pixel { point: Point { x: q.0, y: q.1 }, color });
        proof {
            assert(pts@.take(i + 1) == pts@.take(i as int).push(q));
        }
        i = i + 1;
    }
    proof {
        assert(pts@.take(pts@.len() as int) == pts@);
    }
    out
}

/// The pixels that drawing a primitive produces, in drawing order: one
/// pixel for a point, Bresenham's line for a line, the scanline fill for a
/// triangle.
pub fn primitive_pixels(primitive: &DrawPrimitive) -> (pixels: Vec<Pixel>)
    requires
        primitive_ok(*primitive),
    ensures
        pixels@ == primitive_pixels_spec(*primitive),
        match *primitive {
            DrawPrimitive::Line(ps, c) => {
                &&& pixels@.len() == chebyshev(ps[0].x as int, ps[0].y as int, ps[1].x as int, ps[1].y as int) + 1
                &&& pixels@[0] == (Pixel { point: ps[0], color: c })
                &&& pixels@.last() == (Pixel { point: ps[1], color: c })
            },
            _ => true,
        },
{
    match primitive {
        DrawPrimitive::ColoredPoint(p, c) => {
            let mut out: Vec<Pixel> = Vec::new();
            out.push(Pixel { point: *p, color: *c });
            proof {
                assert(out@ == seq![Pixel { point: *p, color: *c }]);
            }
            out
        },
        DrawPrimitive::Line(ps, c) => {
            let pts = bresenham(ps[0].x, ps[0].y, ps[1].x, ps[1].y);
            let out = points_to_pixels(&pts, *c);
            proof {
                assert(out@[0] == Pixel { point: Point { x: pts@[0].0, y: pts@[0].1 }, color: *c });
                assert(out@.last() == Pixel { point: Point { x: pts@.last().0, y: pts@.last().1 }, color: *c });
            }
            out
        },
        DrawPrimitive::ColoredTriangle(vs, c) => {
            let mut out: Vec<Pixel> = Vec::new();
            fill_triangle(*vs, *c, &mut out);
            proof {
                assert(out@ == Seq::<Pixel>::empty() + triangle_pixels(*vs, *c));
            }
            out
        },
    }
}

/// Draws a primitive on a framebuffer: its pixels are stored one after
/// another, those off the buffer ignored.
pub fn draw(primitive: DrawPrimitive, fb: &mut DmaReadyFramebuffer)
    requires
        old(fb).wf(),
        primitive_ok(primitive),
    ensures
        final(fb).wf(),
        final(fb).same_layout(old(fb)),
        final(fb).words() == old(fb).words_after(primitive_pixels_spec(primitive)),
{
    let pixels = primitive_pixels(&primitive);
    fb.draw_iter(&pixels);
}

/// Fills a framebuffer with one colour.
pub fn fill_buffer(fb: &mut DmaReadyFramebuffer, color: Color)
    requires
        old(fb).wf(),
    ensures
        final(fb).wf(),
        final(fb).same_layout(old(fb)),
        final(fb).words() == Seq::new(
            old(fb).words().len(),
            |i: int| old(fb).word_of(color),
        ),
{
    fb.clear(color);
}

/// Whether a coordinate lies within `COORD_LIMIT`.
fn coord_in_range(p: Point) -> (ok: bool)
    ensures
        ok == coord_ok(p),
{
    -COORD_LIMIT <= p.x && p.x <= COORD_LIMIT && -COORD_LIMIT <= p.y && p.y <= COORD_LIMIT
}

/// Whether `b - a` is an `i32`.
fn difference_fits(a: i32, b: i32) -> (ok: bool)
    ensures
        ok == fits_i32(b - a),
{
    let d = b as i64 - a as i64;
    i32::MIN as i64 <= d && d <= i32::MAX as i64
}

/// Whether `b - a` is an `i32` whose negation is one too.
fn difference_negatable(a: i32, b: i32) -> (ok: bool)
    ensures
        ok == negatable_i32(b - a),
{
    let d = b as i64 - a as i64;
    -(i32::MAX as i64) <= d && d <= i32::MAX as i64
}

/// Whether the primitive can be rasterised without `i32` overflow, as
/// `primitive_ok` says.
pub fn primitive_in_range(primitive: &DrawPrimitive) -> (ok: bool)
    ensures
        ok == primitive_ok(*primitive),
{
    match primitive {
        DrawPrimitive::ColoredPoint(_, _) => true,
        DrawPrimitive::Line(ps, _) => coord_in_range(ps[0]) && coord_in_range(ps[1])
            && difference_negatable(ps[0].x, ps[1].x) && difference_negatable(ps[0].y, ps[1].y),
        DrawPrimitive::ColoredTriangle(ps, _) => {
            let (p1, p2, p3) = sort_vertices(ps[0], ps[1], ps[2]);
            if p2.y == p3.y {
                difference_fits(p1.y, p2.y) && difference_fits(p1.x, p2.x) && difference_fits(p1.x, p3.x)
            } else if p1.y == p2.y {
                difference_fits(p1.y, p3.y) && difference_fits(p1.x, p3.x) && difference_fits(p2.x, p3.x)
            } else {
                difference_fits(p1.y, p3.y) && difference_fits(p1.x, p3.x) && difference_fits(p1.x, p2.x)
                    && difference_fits(p2.x, p3.x)
            }
        },
    }
}

/// Drawing a point on a framebuffer and reading it back gives its colour
/// when the point lies on the buffer.
pub proof fn law_draw_point_reads_back(
    before: DmaReadyFramebuffer,
    after: DmaReadyFramebuffer,
    p: Point,
    c: Color,
)
    requires
        before.wf(),
        after.same_layout(&before),
        after.words() == before.words_after(
            primitive_pixels_spec(DrawPrimitive::ColoredPoint(p, c)),
        ),
        before.in_bounds(p),
    ensures
        after.pixel_at(p) == Some(c),
{
    let px = seq![Pixel { point: p, color: c }];
    assert(px.drop_last() == Seq::<Pixel>::empty());
    assert(px.last() == Pixel { point: p, color: c });
    assert(before.words_after(Seq::<Pixel>::empty()) == before.words());
    assert(before.words_after(px) == before.put_pixel(before.words_after(px.drop_last()), p, c));
    assert(before.words_after(px) == before.words_with_pixel(p, c));
    crate::framebuffer::law_get_after_set(before, after, p, c, p);
}

/// A horizontal run does not depend on the order of its ends.
proof fn lemma_hline_symmetric(x1: int, x2: int, y: int, c: Color)
    ensures
        hline_pixels(x1, x2, y, c) == hline_pixels(x2, x1, y, c),
{
    assert(hline_pixels(x1, x2, y, c) =~= hline_pixels(x2, x1, y, c));
}

/// A bottom-flat triangle does not depend on the order of its bottom corners.
proof fn lemma_bottom_rows_symmetric(p1: Point, p2: Point, p3: Point, c: Color, n: nat)
    requires
        p2.y == p3.y,
    ensures
        bottom_rows(p1, p2, p3, c, n) == bottom_rows(p1, p3, p2, c, n),
    decreases n,
{
    if n > 0 {
        lemma_bottom_rows_symmetric(p1, p2, p3, c, (n - 1) as nat);
        let h = p2.y - p1.y;
        let s = n - 1;
        lemma_hline_symmetric(edge_x(p1, p2, h, s), edge_x(p1, p3, h, s), p1.y + s, c);
    }
}

/// A top-flat triangle does not depend on the order of its top corners.
proof fn lemma_top_rows_symmetric(p1: Point, p2: Point, p3: Point, c: Color, n: nat)
    requires
        p1.y == p2.y,
    ensures
        top_rows(p1, p2, p3, c, n) == top_rows(p2, p1, p3, c, n),
    decreases n,
{
    if n > 0 {
        lemma_top_rows_symmetric(p1, p2, p3, c, (n - 1) as nat);
        let h = p3.y - p1.y;
        let s = n - 1;
        lemma_hline_symmetric(edge_x(p1, p3, h, s), edge_x(p2, p3, h, s), p1.y + s, c);
    }
}

/// A triangle on one row is the single pixel at x = 0 of that row.
proof fn lemma_one_row_triangle(p1: Point, p2: Point, p3: Point, c: Color)
    requires
        p1.y == p2.y,
        p2.y == p3.y,
    ensures
        sorted_triangle_pixels(p1, p2, p3, c) == hline_pixels(0, 0, p1.y as int, c),
{
    assert(bottom_rows(p1, p2, p3, c, 0) == Seq::<Pixel>::empty());
    assert(bottom_rows(p1, p2, p3, c, 1) =~= hline_pixels(0, 0, p1.y as int, c));
}

/// Swapping two sorted vertices of equal `y` does not change the fill.
proof fn lemma_sorted_triangle_symmetric(p1: Point, p2: Point, p3: Point, c: Color)
    requires
        p1.y <= p2.y <= p3.y,
    ensures
        p1.y == p2.y ==> sorted_triangle_pixels(p1, p2, p3, c) == sorted_triangle_pixels(p2, p1, p3, c),
        p2.y == p3.y ==> sorted_triangle_pixels(p1, p2, p3, c) == sorted_triangle_pixels(p1, p3, p2, c),
{
    if p1.y == p2.y && p2.y == p3.y {
        lemma_one_row_triangle(p1, p2, p3, c);
        lemma_one_row_triangle(p2, p1, p3, c);
        lemma_one_row_triangle(p1, p3, p2, c);
    } else if p1.y == p2.y {
        lemma_top_rows_symmetric(p1, p2, p3, c, (p3.y - p1.y + 1) as nat);
    } else if p2.y == p3.y {
        lemma_bottom_rows_symmetric(p1, p2, p3, c, (p2.y - p1.y + 1) as nat);
    }
}

/// The fill of a triangle given by its vertices in any order is the same
/// as for the order given; both rules for sorting ties give one result.
proof fn lemma_triangle_swaps(a: Point, b: Point, c: Point, col: Color)
    ensures
        triangle_pixels([a, b, c], col) == triangle_pixels([b, a, c], col),
        triangle_pixels([a, b, c], col) == triangle_pixels([a, c, b], col),
{
    let (p1, p2, p3) = sort_by_y(a, b, c);
    lemma_sorted_triangle_symmetric(p1, p2, p3, col);
    if a.y == b.y && b.y == c.y {
        lemma_one_row_triangle(a, b, c, col);
        lemma_one_row_triangle(b, a, c, col);
        lemma_one_row_triangle(a, c, b, col);
    }
}

/// The pixels of a filled triangle do not depend on the order in which its
/// vertices are given.
pub proof fn law_triangle_vertex_order(a: Point, b: Point, c: Point, col: Color)
    ensures
        triangle_pixels([a, c, b], col) == triangle_pixels([a, b, c], col),
        triangle_pixels([b, a, c], col) == triangle_pixels([a, b, c], col),
        triangle_pixels([b, c, a], col) == triangle_pixels([a, b, c], col),
        triangle_pixels([c, a, b], col) == triangle_pixels([a, b, c], col),
        triangle_pixels([c, b, a], col) == triangle_pixels([a, b, c], col),
{
    lemma_triangle_swaps(a, b, c, col);
    lemma_triangle_swaps(b, a, c, col);
    lemma_triangle_swaps(a, c, b, col);
    lemma_triangle_swaps(b, c, a, col);
    lemma_triangle_swaps(c, a, b, col);
}

/// A horizontal run holds every pixel between its ends on its row.
proof fn lemma_hline_contains(x1: int, x2: int, y: int, c: Color, x: int)
    requires
        (x1 <= x <= x2) || (x2 <= x <= x1),
        i32::MIN <= x <= i32::MAX,
        i32::MIN <= y <= i32::MAX,
    ensures
        hline_pixels(x1, x2, y, c).contains(Pixel { point: Point { x: x as i32, y: y as i32 }, color: c }),
{
    let lo = if x1 <= x2 { x1 } else { x2 };
    let run = hline_pixels(x1, x2, y, c);
    assert(run[x - lo] == Pixel { point: Point { x: x as i32, y: y as i32 }, color: c });
}

/// Every scanline before `n` is part of the first `n` scanlines.
proof fn lemma_bottom_rows_contain(p1: Point, p2: Point, p3: Point, c: Color, n: nat, k: nat, px: Pixel)
    requires
        k < n,
        bottom_row(p1, p2, p3, c, k as int).contains(px),
    ensures
        bottom_rows(p1, p2, p3, c, n).contains(px),
    decreases n,
{
    let prev = bottom_rows(p1, p2, p3, c, (n - 1) as nat);
    let row = bottom_row(p1, p2, p3, c, n - 1);
    if k == n - 1 {
        let j = choose|j: int| 0 <= j < row.len() && row[j] == px;
        assert((prev + row)[prev.len() + j] == px);
    } else {
        lemma_bottom_rows_contain(p1, p2, p3, c, (n - 1) as nat, k, px);
        let j = choose|j: int| 0 <= j < prev.len() && prev[j] == px;
        assert((prev + row)[j] == px);
    }
}

/// Every scanline before `n` is part of the first `n` scanlines.
proof fn lemma_top_rows_contain(p1: Point, p2: Point, p3: Point, c: Color, n: nat, k: nat, px: Pixel)
    requires
        k < n,
        top_row(p1, p2, p3, c, k as int).contains(px),
    ensures
        top_rows(p1, p2, p3, c, n).contains(px),
    decreases n,
{
    let prev = top_rows(p1, p2, p3, c, (n - 1) as nat);
    let row = top_row(p1, p2, p3, c, n - 1);
    if k == n - 1 {
        let j = choose|j: int| 0 <= j < row.len() && row[j] == px;
        assert((prev + row)[prev.len() + j] == px);
    } else {
        lemma_top_rows_contain(p1, p2, p3, c, (n - 1) as nat, k, px);
        let j = choose|j: int| 0 <= j < prev.len() && prev[j] == px;
        assert((prev + row)[j] == px);
    }
}

/// A filled bottom-flat triangle of positive height covers its three
/// corners: the apex on its first scanline, the two bottom corners on its
/// last.
pub proof fn law_bottom_flat_covers_corners(p1: Point, p2: Point, p3: Point, c: Color)
    requires
        p1.y < p2.y,
        p2.y == p3.y,
    ensures
        bottom_flat_pixels(p1, p2, p3, c).contains(Pixel { point: p1, color: c }),
        bottom_flat_pixels(p1, p2, p3, c).contains(Pixel { point: p2, color: c }),
        bottom_flat_pixels(p1, p2, p3, c).contains(Pixel { point: p3, color: c }),
{
    let h = p2.y - p1.y;
    let n = (h + 1) as nat;
    lemma_edge_x_between(p1, p2, h, 0);
    lemma_edge_x_between(p1, p3, h, 0);
    lemma_edge_x_between(p1, p2, h, h);
    lemma_edge_x_between(p1, p3, h, h);
    lemma_hline_contains(p1.x as int, p1.x as int, p1.y as int, c, p1.x as int);
    lemma_bottom_rows_contain(p1, p2, p3, c, n, 0, Pixel { point: p1, color: c });
    lemma_hline_contains(p2.x as int, p3.x as int, p2.y as int, c, p2.x as int);
    lemma_hline_contains(p2.x as int, p3.x as int, p2.y as int, c, p3.x as int);
    lemma_bottom_rows_contain(p1, p2, p3, c, n, h as nat, Pixel { point: p2, color: c });
    lemma_bottom_rows_contain(p1, p2, p3, c, n, h as nat, Pixel { point: p3, color: c });
}

/// A filled top-flat triangle of positive height covers its three corners:
/// the two top corners on its first scanline, the apex on its last.
pub proof fn law_top_flat_covers_corners(p1: Point, p2: Point, p3: Point, c: Color)
    requires
        p1.y == p2.y,
        p2.y < p3.y,
    ensures
        top_flat_pixels(p1, p2, p3, c).contains(Pixel { point: p1, color: c }),
        top_flat_pixels(p1, p2, p3, c).contains(Pixel { point: p2, color: c }),
        top_flat_pixels(p1, p2, p3, c).contains(Pixel { point: p3, color: c }),
{
    let h = p3.y - p1.y;
    let n = (h + 1) as nat;
    lemma_edge_x_between(p1, p3, h, 0);
    lemma_edge_x_between(p2, p3, h, 0);
    lemma_edge_x_between(p1, p3, h, h);
    lemma_edge_x_between(p2, p3, h, h);
    lemma_hline_contains(p1.x as int, p2.x as int, p1.y as int, c, p1.x as int);
    lemma_hline_contains(p1.x as int, p2.x as int, p1.y as int, c, p2.x as int);
    lemma_top_rows_contain(p1, p2, p3, c, n, 0, Pixel { point: p1, color: c });
    lemma_top_rows_contain(p1, p2, p3, c, n, 0, Pixel { point: p2, color: c });
    lemma_hline_contains(p3.x as int, p3.x as int, p3.y as int, c, p3.x as int);
    lemma_top_rows_contain(p1, p2, p3, c, n, h as nat, Pixel { point: p3, color: c });
}

/// A filled triangle covers its three vertices, unless all three lie on one
/// row (then the single scanline is interpolated by 0 / 0 and only the pixel
/// at x = 0 of that row is drawn).
pub proof fn law_triangle_covers_vertices(v: [Point; 3], c: Color)
    requires
        !(v[0].y == v[1].y && v[1].y == v[2].y),
    ensures
        triangle_pixels(v, c).contains(Pixel { point: v[0], color: c }),
        triangle_pixels(v, c).contains(Pixel { point: v[1], color: c }),
        triangle_pixels(v, c).contains(Pixel { point: v[2], color: c }),
{
    let (p1, p2, p3) = sort_by_y(v[0], v[1], v[2]);
    let px1 = Pixel { point: p1, color: c };
    let px2 = Pixel { point: p2, color: c };
    let px3 = Pixel { point: p3, color: c };
    let all = triangle_pixels(v, c);
    if p2.y == p3.y {
        law_bottom_flat_covers_corners(p1, p2, p3, c);
    } else if p1.y == p2.y {
        law_top_flat_covers_corners(p1, p2, p3, c);
    } else {
        let p4 = split_point(p1, p2, p3);
        lemma_split_point_between(p1, p2, p3);
        law_bottom_flat_covers_corners(p1, p2, p4, c);
        law_top_flat_covers_corners(p2, p4, p3, c);
        let lower = bottom_flat_pixels(p1, p2, p4, c);
        let upper = top_flat_pixels(p2, p4, p3, c);
        assert(all == lower + upper);
        let j1 = choose|j: int| 0 <= j < lower.len() && lower[j] == px1;
        assert(all[j1] == px1);
        let j2 = choose|j: int| 0 <= j < lower.len() && lower[j] == px2;
        assert(all[j2] == px2);
        let j3 = choose|j: int| 0 <= j < upper.len() && upper[j] == px3;
        assert(all[lower.len() + j3] == px3);
    }
}

/// Every pixel of a horizontal run lies on its row, in its colour.
proof fn lemma_hline_row(x1: int, x2: int, y: int, c: Color)
    ensures
        forall|i: int|
            0 <= i < hline_pixels(x1, x2, y, c).len() ==> #[trigger] hline_pixels(x1, x2, y, c)[i].color == c
                && hline_pixels(x1, x2, y, c)[i].point.y == y as i32,
{
}

/// The first `n` scanlines of a bottom-flat triangle lie on rows `p1.y` to
/// `p1.y + n - 1`, in colour `c`.
proof fn lemma_bottom_rows_rows(p1: Point, p2: Point, p3: Point, c: Color, n: nat)
    requires
        n <= p2.y - p1.y + 1,
    ensures
        forall|k: int|
            0 <= k < bottom_rows(p1, p2, p3, c, n).len() ==> #[trigger] bottom_rows(p1, p2, p3, c, n)[k].color == c
                && p1.y <= bottom_rows(p1, p2, p3, c, n)[k].point.y < p1.y + n,
    decreases n,
{
    if n > 0 {
        let m = (n - 1) as nat;
        lemma_bottom_rows_rows(p1, p2, p3, c, m);
        let h = p2.y - p1.y;
        lemma_hline_row(edge_x(p1, p2, h, n - 1), edge_x(p1, p3, h, n - 1), p1.y + n - 1, c);
        let prev = bottom_rows(p1, p2, p3, c, m);
        let row = bottom_row(p1, p2, p3, c, n - 1);
        let all = bottom_rows(p1, p2, p3, c, n);
        assert forall|k: int| 0 <= k < all.len() implies #[trigger] all[k].color == c && p1.y <= all[k].point.y < p1.y
            + n by {
            if k < prev.len() {
                assert(all[k] == prev[k]);
            } else {
                assert(all[k] == row[k - prev.len()]);
            }
        }
    }
}

/// The first `n` scanlines of a top-flat triangle lie on rows `p1.y` to
/// `p1.y + n - 1`, in colour `c`.
proof fn lemma_top_rows_rows(p1: Point, p2: Point, p3: Point, c: Color, n: nat)
    requires
        n <= p3.y - p1.y + 1,
    ensures
        forall|k: int|
            0 <= k < top_rows(p1, p2, p3, c, n).len() ==> #[trigger] top_rows(p1, p2, p3, c, n)[k].color == c
                && p1.y <= top_rows(p1, p2, p3, c, n)[k].point.y < p1.y + n,
    decreases n,
{
    if n > 0 {
        let m = (n - 1) as nat;
        lemma_top_rows_rows(p1, p2, p3, c, m);
        let h = p3.y - p1.y;
        lemma_hline_row(edge_x(p1, p3, h, n - 1), edge_x(p2, p3, h, n - 1), p1.y + n - 1, c);
        let prev = top_rows(p1, p2, p3, c, m);
        let row = top_row(p1, p2, p3, c, n - 1);
        let all = top_rows(p1, p2, p3, c, n);
        assert forall|k: int| 0 <= k < all.len() implies #[trigger] all[k].color == c && p1.y <= all[k].point.y < p1.y
            + n by {
            if k < prev.len() {
                assert(all[k] == prev[k]);
            } else {
                assert(all[k] == row[k - prev.len()]);
            }
        }
    }
}

/// The least of three numbers.
pub open spec fn min3(a: int, b: int, c: int) -> int {
    if a <= b && a <= c {
        a
    } else if b <= c {
        b
    } else {
        c
    }
}

/// The greatest of three numbers.
pub open spec fn max3(a: int, b: int, c: int) -> int {
    if a >= b && a >= c {
        a
    } else if b >= c {
        b
    } else {
        c
    }
}

/// Every pixel of a filled triangle carries the triangle's colour and lies
/// on a row between the lowest and the highest `y` of its vertices.
pub proof fn law_triangle_pixels_in_rows(v: [Point; 3], c: Color)
    ensures
        forall|k: int|
            0 <= k < triangle_pixels(v, c).len() ==> #[trigger] triangle_pixels(v, c)[k].color == c && min3(
                v[0].y as int,
                v[1].y as int,
                v[2].y as int,
            ) <= triangle_pixels(v, c)[k].point.y <= max3(v[0].y as int, v[1].y as int, v[2].y as int),
{
    let sorted = sort_by_y(v[0], v[1], v[2]);
    let p1 = sorted.0;
    let p2 = sorted.1;
    let p3 = sorted.2;
    let out = triangle_pixels(v, c);
    assert(p1.y <= p2.y <= p3.y);
    assert(min3(v[0].y as int, v[1].y as int, v[2].y as int) == p1.y);
    assert(max3(v[0].y as int, v[1].y as int, v[2].y as int) == p3.y);
    assert(out == sorted_triangle_pixels(p1, p2, p3, c));
    if p2.y == p3.y {
        lemma_bottom_rows_rows(p1, p2, p3, c, (p2.y - p1.y + 1) as nat);
        assert(out == bottom_rows(p1, p2, p3, c, (p2.y - p1.y + 1) as nat));
    } else if p1.y == p2.y {
        lemma_top_rows_rows(p1, p2, p3, c, (p3.y - p1.y + 1) as nat);
        assert(out == top_rows(p1, p2, p3, c, (p3.y - p1.y + 1) as nat));
    } else {
        let p4 = split_point(p1, p2, p3);
        let top = bottom_rows(p1, p2, p4, c, (p2.y - p1.y + 1) as nat);
        let bot = top_rows(p2, p4, p3, c, (p3.y - p2.y + 1) as nat);
        assert(out == top + bot);
        lemma_bottom_rows_rows(p1, p2, p4, c, (p2.y - p1.y + 1) as nat);
        lemma_top_rows_rows(p2, p4, p3, c, (p3.y - p2.y + 1) as nat);
        assert forall|k: int| 0 <= k < out.len() implies #[trigger] out[k].color == c && p1.y <= out[k].point.y
            <= p3.y by {
            if k < top.len() {
                assert(out[k] == top[k]);
            } else {
                assert(out[k] == bot[k - top.len()]);
            }
        }
    }
}

} // verus!
