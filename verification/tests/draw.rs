use drm_gfx::color::Color;
use drm_gfx::draw::{
    draw, draw_horizontal_line, fill_bottom_flat_triangle, fill_buffer, fill_top_flat_triangle,
    primitive_pixels,
};
use drm_gfx::framebuffer::DmaReadyFramebuffer;
use drm_gfx::{DrawPrimitive, Pixel, Point};

/// A 100 x 100 framebuffer; a non-zero word marks a drawn pixel.
struct MockFrameBuffer {
    fb: DmaReadyFramebuffer,
}

impl MockFrameBuffer {
    fn new(width: usize, height: usize) -> Self {
        MockFrameBuffer { fb: DmaReadyFramebuffer::new(width, height, false) }
    }

    fn draw_pixels(&mut self, pixels: &Vec<Pixel>) {
        self.fb.draw_iter(pixels);
    }

    fn get_pixel(&mut self, x: i32, y: i32) -> Option<Color> {
        match self.fb.get_pixel(Point::new(x, y)) {
            Some(c) if c != Color::new(0, 0, 0) => Some(c),
            _ => None,
        }
    }

    fn pixel_count(&self) -> usize {
        self.fb.framebuffer.iter().filter(|w| **w != 0).count()
    }

    fn contains_line(&mut self, p1: Point, p2: Point) -> bool {
        for (x, y) in line_drawing::Bresenham::new((p1.x, p1.y), (p2.x, p2.y)) {
            if x < 0 || y < 0 || x >= self.fb.width as i32 || y >= self.fb.height as i32 {
                continue;
            }
            if self.get_pixel(x, y).is_none() {
                return false;
            }
        }
        true
    }
}

#[test]
fn test_draw_colored_point() {
    let mut fb = MockFrameBuffer::new(100, 100);
    let point = Point::new(50, 50);
    let color = Color::new(255, 127, 63);

    draw(DrawPrimitive::ColoredPoint(point, color), &mut fb.fb);

    assert_eq!(fb.get_pixel(50, 50), Some(color));
    assert_eq!(fb.pixel_count(), 1);
}

#[test]
fn test_draw_line() {
    let mut fb = MockFrameBuffer::new(100, 100);
    let p1 = Point::new(10, 10);
    let p2 = Point::new(20, 20);
    let color = Color::new(255, 127, 63);

    draw(DrawPrimitive::Line([p1, p2], color), &mut fb.fb);

    assert!(fb.contains_line(p1, p2));

    let pixel_count = fb.pixel_count();
    assert_eq!(pixel_count, 11);
}

#[test]
fn test_draw_horizontal_line() {
    let mut fb = MockFrameBuffer::new(100, 100);
    let p1 = Point::new(10, 50);
    let p2 = Point::new(20, 50);
    let color = Color::new(255, 127, 63);

    let mut pixels = Vec::new();
    draw_horizontal_line(p1, p2, color, &mut pixels);
    fb.draw_pixels(&pixels);

    for x in 10..=20 {
        assert_eq!(fb.get_pixel(x, 50), Some(color));
    }

    assert_eq!(fb.pixel_count(), 11);
}

#[test]
fn test_fill_bottom_flat_triangle() {
    let mut fb = MockFrameBuffer::new(100, 100);
    let p1 = Point::new(50, 10);
    let p2 = Point::new(30, 50);
    let p3 = Point::new(70, 50);
    let color = Color::new(255, 127, 63);

    let mut pixels = Vec::new();
    fill_bottom_flat_triangle(p1, p2, p3, color, &mut pixels);
    fb.draw_pixels(&pixels);

    assert_eq!(fb.get_pixel(50, 10), Some(color));
    assert_eq!(fb.get_pixel(30, 50), Some(color));
    assert_eq!(fb.get_pixel(70, 50), Some(color));
    assert_eq!(fb.get_pixel(50, 30), Some(color));

    assert!(fb.pixel_count() > 0);
}

#[test]
fn test_fill_top_flat_triangle() {
    let mut fb = MockFrameBuffer::new(100, 100);
    let p1 = Point::new(30, 10);
    let p2 = Point::new(70, 10);
    let p3 = Point::new(50, 50);
    let color = Color::new(255, 127, 63);

    let mut pixels = Vec::new();
    fill_top_flat_triangle(p1, p2, p3, color, &mut pixels);
    fb.draw_pixels(&pixels);

    assert_eq!(fb.get_pixel(30, 10), Some(color));
    assert_eq!(fb.get_pixel(70, 10), Some(color));
    assert_eq!(fb.get_pixel(50, 50), Some(color));
    assert_eq!(fb.get_pixel(50, 30), Some(color));

    assert!(fb.pixel_count() > 0);
}

#[test]
fn test_draw_colored_triangle() {
    let mut fb = MockFrameBuffer::new(100, 100);
    let vertices = [Point::new(50, 10), Point::new(30, 70), Point::new(70, 70)];
    let color = Color::new(255, 127, 63);

    draw(DrawPrimitive::ColoredTriangle(vertices, color), &mut fb.fb);

    assert_eq!(fb.get_pixel(50, 10), Some(color));
    assert_eq!(fb.get_pixel(30, 70), Some(color));
    assert_eq!(fb.get_pixel(70, 70), Some(color));

    assert_eq!(fb.get_pixel(50, 50), Some(color));

    assert!(fb.pixel_count() > 0);
}

#[test]
fn test_draw_colored_triangle_flat_top() {
    let mut fb = MockFrameBuffer::new(100, 100);
    let vertices = [Point::new(30, 10), Point::new(70, 10), Point::new(50, 70)];
    let color = Color::new(255, 127, 63);

    draw(DrawPrimitive::ColoredTriangle(vertices, color), &mut fb.fb);

    assert_eq!(fb.get_pixel(30, 10), Some(color));
    assert_eq!(fb.get_pixel(70, 10), Some(color));
    assert_eq!(fb.get_pixel(50, 70), Some(color));

    assert!(fb.pixel_count() > 0);
}

#[test]
fn test_draw_colored_triangle_flat_bottom() {
    let mut fb = MockFrameBuffer::new(100, 100);
    let vertices = [Point::new(50, 10), Point::new(30, 70), Point::new(70, 70)];
    let color = Color::new(255, 127, 63);

    draw(DrawPrimitive::ColoredTriangle(vertices, color), &mut fb.fb);

    assert_eq!(fb.get_pixel(50, 10), Some(color));
    assert_eq!(fb.get_pixel(30, 70), Some(color));
    assert_eq!(fb.get_pixel(70, 70), Some(color));

    assert!(fb.pixel_count() > 0);
}

#[test]
fn test_draw_colored_triangle_general_case() {
    let mut fb = MockFrameBuffer::new(100, 100);
    let vertices = [Point::new(20, 20), Point::new(40, 60), Point::new(80, 40)];
    let color = Color::new(255, 127, 63);

    draw(DrawPrimitive::ColoredTriangle(vertices, color), &mut fb.fb);

    assert_eq!(fb.get_pixel(20, 20), Some(color));
    assert_eq!(fb.get_pixel(40, 60), Some(color));
    assert_eq!(fb.get_pixel(80, 40), Some(color));

    assert!(fb.pixel_count() > 0);
}

#[test]
fn test_fill_buffer() {
    let mut fb = MockFrameBuffer::new(100, 100);
    let color = Color::new(255, 127, 63);

    fill_buffer(&mut fb.fb, color);

    for y in 0..100 {
        for x in 0..100 {
            assert_eq!(fb.get_pixel(x, y), Some(color));
        }
    }

    assert_eq!(fb.pixel_count(), 100 * 100);
}

#[test]
fn horizontal_line_runs_left_to_right_whatever_the_end_order() {
    let c = Color::new(1, 2, 3);
    let mut a = Vec::new();
    draw_horizontal_line(Point::new(7, 4), Point::new(3, 9), c, &mut a);
    let xs: Vec<(i32, i32)> = a.iter().map(|p| (p.point.x, p.point.y)).collect();
    assert_eq!(xs, vec![(3, 4), (4, 4), (5, 4), (6, 4), (7, 4)]);
}

#[test]
fn line_pixels_start_and_end_at_the_endpoints() {
    let c = Color::new(9, 9, 9);
    let px = primitive_pixels(&DrawPrimitive::Line([Point::new(0, 0), Point::new(5, 6)], c));
    let pts: Vec<(i32, i32)> = px.iter().map(|p| (p.point.x, p.point.y)).collect();
    assert_eq!(pts, vec![(0, 0), (0, 1), (1, 2), (2, 3), (3, 4), (4, 5), (5, 6)]);
    let back = primitive_pixels(&DrawPrimitive::Line([Point::new(5, -3), Point::new(-2, -3)], c));
    assert_eq!(back.len(), 8);
    assert_eq!(back[0].point, Point::new(5, -3));
    assert_eq!(back[7].point, Point::new(-2, -3));
}

#[test]
fn triangle_on_one_row_draws_the_pixel_at_x_zero() {
    let c = Color::new(5, 5, 5);
    let px = primitive_pixels(&DrawPrimitive::ColoredTriangle(
        [Point::new(10, 7), Point::new(20, 7), Point::new(30, 7)],
        c,
    ));
    assert_eq!(px, vec![Pixel { point: Point::new(0, 7), color: c }]);
}

#[test]
fn bottom_flat_triangle_rows_round_half_away_from_zero() {
    let c = Color::new(1, 1, 1);
    let mut px = Vec::new();
    fill_bottom_flat_triangle(Point::new(0, 0), Point::new(-3, 2), Point::new(3, 2), c, &mut px);
    let pts: Vec<(i32, i32)> = px.iter().map(|p| (p.point.x, p.point.y)).collect();
    // row 1 spans -1.5 .. 1.5, rounded to -2 .. 2
    assert_eq!(
        pts,
        vec![(0, 0), (-2, 1), (-1, 1), (0, 1), (1, 1), (2, 1), (-3, 2), (-2, 2), (-1, 2), (0, 2), (1, 2), (2, 2), (3, 2)]
    );
}

#[test]
fn general_triangle_is_split_at_the_middle_row() {
    let c = Color::new(1, 1, 1);
    let px = primitive_pixels(&DrawPrimitive::ColoredTriangle(
        [Point::new(0, 0), Point::new(4, 4), Point::new(1, 2)],
        c,
    ));
    // the long edge (0,0)-(4,4) crosses row 2 at x = 2
    assert!(px.contains(&Pixel { point: Point::new(1, 2), color: c }));
    assert!(px.contains(&Pixel { point: Point::new(2, 2), color: c }));
    assert!(px.contains(&Pixel { point: Point::new(0, 0), color: c }));
    assert!(px.contains(&Pixel { point: Point::new(4, 4), color: c }));
    assert!(px.iter().all(|p| 0 <= p.point.y && p.point.y <= 4));
}

#[test]
fn draw_ignores_pixels_off_the_buffer() {
    let mut fb = DmaReadyFramebuffer::new(10, 10, false);
    let c = Color::new(200, 100, 50);
    draw(DrawPrimitive::Line([Point::new(-5, 5), Point::new(15, 5)], c), &mut fb);
    for x in 0..10 {
        assert_eq!(fb.get_pixel(Point::new(x, 5)), Some(c));
    }
    assert_eq!(fb.framebuffer.iter().filter(|w| **w != 0).count(), 10);
}

#[test]
fn points_far_off_the_buffer_are_ignored() {
    let mut fb = DmaReadyFramebuffer::new(4, 4, false);
    let c = Color::new(1, 2, 3);
    draw(DrawPrimitive::ColoredPoint(Point::new(i32::MAX, i32::MIN), c), &mut fb);
    draw(DrawPrimitive::ColoredPoint(Point::new(i32::MIN, 2), c), &mut fb);
    assert!(fb.framebuffer.iter().all(|w| *w == 0));
    assert!(drm_gfx::draw::primitive_in_range(&DrawPrimitive::ColoredPoint(Point::new(i32::MIN, i32::MAX), c)));
}

#[test]
fn points_to_pixels_keeps_order_and_colour() {
    let c = Color::new(7, 7, 7);
    let px = drm_gfx::draw::points_to_pixels(&vec![(3, 4), (-1, 0)], c);
    assert_eq!(px, vec![Pixel { point: Point::new(3, 4), color: c }, Pixel { point: Point::new(-1, 0), color: c }]);
}

#[test]
fn triangle_fill_ignores_vertex_order() {
    let c = Color::new(1, 1, 1);
    let (a, b, d) = (Point::new(20, 20), Point::new(40, 60), Point::new(80, 40));
    let base = primitive_pixels(&DrawPrimitive::ColoredTriangle([a, b, d], c));
    for v in [[a, d, b], [b, a, d], [b, d, a], [d, a, b], [d, b, a]] {
        assert_eq!(primitive_pixels(&DrawPrimitive::ColoredTriangle(v, c)), base);
    }
}

#[test]
fn long_line_near_the_coordinate_limit_keeps_its_endpoints() {
    let c = Color::new(2, 2, 2);
    let lim = drm_gfx::draw::COORD_LIMIT;
    let px = primitive_pixels(&DrawPrimitive::Line([Point::new(lim - 3, -lim), Point::new(lim, -lim + 2)], c));
    assert_eq!(px.len(), 4);
    assert_eq!(px[0].point, Point::new(lim - 3, -lim));
    assert_eq!(px[3].point, Point::new(lim, -lim + 2));
}

#[test]
fn lines_far_from_the_origin_are_drawn() {
    let c = Color::new(3, 3, 3);
    let line = DrawPrimitive::Line([Point::new(1 << 30, 0), Point::new((1 << 30) + 1, 0)], c);
    assert!(drm_gfx::draw::primitive_in_range(&line));
    let px = primitive_pixels(&line);
    assert_eq!(px.len(), 2);
    assert_eq!(px[1].point, Point::new((1 << 30) + 1, 0));
}

#[test]
fn primitives_whose_differences_overflow_are_refused() {
    let c = Color::new(3, 3, 3);
    let wide = DrawPrimitive::Line([Point::new(-2_000_000_000, 0), Point::new(2_000_000_000, 0)], c);
    assert!(!drm_gfx::draw::primitive_in_range(&wide));
    let edge = DrawPrimitive::Line([Point::new(i32::MAX, 0), Point::new(i32::MAX - 1, 0)], c);
    assert!(!drm_gfx::draw::primitive_in_range(&edge));
    let tall = DrawPrimitive::ColoredTriangle(
        [Point::new(0, -2_000_000_000), Point::new(1, 2_000_000_000), Point::new(2, 0)],
        c,
    );
    assert!(!drm_gfx::draw::primitive_in_range(&tall));
}

#[test]
fn triangles_far_from_the_origin_are_filled() {
    let c = Color::new(4, 4, 4);
    let base = 2_000_000_000;
    let tri = DrawPrimitive::ColoredTriangle(
        [Point::new(base, base), Point::new(base + 4, base + 2), Point::new(base - 4, base + 2)],
        c,
    );
    assert!(drm_gfx::draw::primitive_in_range(&tri));
    let px = primitive_pixels(&tri);
    assert!(px.contains(&Pixel { point: Point::new(base, base), color: c }));
    assert!(px.contains(&Pixel { point: Point::new(base + 4, base + 2), color: c }));
    assert!(px.contains(&Pixel { point: Point::new(base - 4, base + 2), color: c }));
    assert_eq!(px.len(), 1 + 5 + 9);
}
