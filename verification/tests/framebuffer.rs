use drm_gfx::color::Color;
use drm_gfx::framebuffer::{swaps_for_probe, DmaReadyFramebuffer};
use drm_gfx::{Pixel, Point};

#[test]
fn test_framebuffer_creation() {
    const WIDTH: usize = 64;
    const HEIGHT: usize = 32;

    let fb_le = DmaReadyFramebuffer::new(WIDTH, HEIGHT, false);
    assert!(!fb_le.big_endian());

    let fb_be = DmaReadyFramebuffer::new(WIDTH, HEIGHT, true);
    assert!(fb_be.big_endian());
}

#[test]
fn test_set_pixel() {
    const WIDTH: usize = 32;
    const HEIGHT: usize = 32;

    let mut fb = DmaReadyFramebuffer::new(WIDTH, HEIGHT, false);

    let color = Color::new(64, 128, 255);
    let point = Point::new(5, 10);
    fb.set_pixel(point, color);

    let value = fb.framebuffer[10 * WIDTH + 5];

    let expected = color.into_storage();
    assert_eq!(value, expected);
}

#[test]
fn test_set_pixel_big_endian() {
    const WIDTH: usize = 32;
    const HEIGHT: usize = 32;

    let mut fb = DmaReadyFramebuffer::new(WIDTH, HEIGHT, true);

    let color = Color::new(64, 128, 255);
    let point = Point::new(5, 10);
    fb.set_pixel(point, color);

    let value = fb.framebuffer[10 * WIDTH + 5];

    let expected = color.into_storage().to_be();
    assert_eq!(value, expected);
}

#[test]
fn test_get_pixel_roundtrip() {
    const WIDTH: usize = 32;
    const HEIGHT: usize = 32;

    let mut fb_le = DmaReadyFramebuffer::new(WIDTH, HEIGHT, false);
    let color = Color::new(64, 128, 255);
    let point = Point::new(5, 10);
    fb_le.set_pixel(point, color);
    assert_eq!(fb_le.get_pixel(point), Some(color));

    let mut fb_be = DmaReadyFramebuffer::new(WIDTH, HEIGHT, true);
    fb_be.set_pixel(point, color);
    assert_eq!(fb_be.get_pixel(point), Some(color));
}

#[test]
fn test_set_pixel_out_of_bounds() {
    const WIDTH: usize = 32;
    const HEIGHT: usize = 32;

    let mut fb = DmaReadyFramebuffer::new(WIDTH, HEIGHT, false);

    let color = Color::new(255, 0, 0);

    fb.set_pixel(Point::new(-1, 10), color);
    fb.set_pixel(Point::new(WIDTH as i32, 10), color);

    fb.set_pixel(Point::new(5, -1), color);
    fb.set_pixel(Point::new(5, HEIGHT as i32), color);
}

#[test]
fn test_as_slice() {
    const WIDTH: usize = 4;
    const HEIGHT: usize = 2;

    let mut fb = DmaReadyFramebuffer::new(WIDTH, HEIGHT, false);

    fb.set_pixel(Point::new(0, 0), Color::new(0, 0, 1));
    fb.set_pixel(Point::new(1, 0), Color::new(0, 0, 2));
    fb.set_pixel(Point::new(0, 1), Color::new(0, 0, 3));

    let slice = fb.framebuffer;
    assert_eq!(slice.len(), WIDTH * HEIGHT);

    assert_eq!(slice[0], Color::new(0, 0, 1).into_storage());
    assert_eq!(slice[1], Color::new(0, 0, 2).into_storage());
    assert_eq!(slice[WIDTH], Color::new(0, 0, 3).into_storage());
}

#[test]
fn test_as_mut_slice() {
    const WIDTH: usize = 4;
    const HEIGHT: usize = 2;

    let mut fb = DmaReadyFramebuffer::new(WIDTH, HEIGHT, false);

    let slice = &mut fb.framebuffer;
    assert_eq!(slice.len(), WIDTH * HEIGHT);

    slice[0] = 0x00FF0000;
    slice[1] = 0x0000FF00;

    let check_slice = fb.framebuffer;
    assert_eq!(check_slice[0], 0x00FF0000);
    assert_eq!(check_slice[1], 0x0000FF00);
}

#[test]
fn test_draw_target_draw_iter() {
    const WIDTH: usize = 32;
    const HEIGHT: usize = 32;

    let mut fb = DmaReadyFramebuffer::new(WIDTH, HEIGHT, false);

    let pixels = vec![
        Pixel { point: Point::new(1, 1), color: Color::new(0, 0, 255) },
        Pixel { point: Point::new(2, 1), color: Color::new(0, 255, 0) },
        Pixel { point: Point::new(3, 1), color: Color::new(255, 0, 0) },
    ];

    fb.draw_iter(&pixels);

    let slice = fb.framebuffer;

    assert_eq!(slice[1 * WIDTH + 1], Color::new(0, 0, 255).into_storage());
    assert_eq!(slice[1 * WIDTH + 2], Color::new(0, 255, 0).into_storage());
    assert_eq!(slice[1 * WIDTH + 3], Color::new(255, 0, 0).into_storage());
}

#[test]
fn test_draw_target_clear() {
    const WIDTH: usize = 16;
    const HEIGHT: usize = 16;

    let mut fb = DmaReadyFramebuffer::new(WIDTH, HEIGHT, false);

    fb.set_pixel(Point::new(0, 0), Color::new(255, 0, 0));
    fb.set_pixel(Point::new(1, 1), Color::new(0, 255, 0));

    fb.clear(Color::new(0, 0, 128));

    let slice = fb.framebuffer;
    let blue_value = Color::new(0, 0, 128).into_storage();

    for pixel in slice {
        assert_eq!(pixel, blue_value);
    }
}

#[test]
fn test_draw_target_clear_big_endian() {
    const WIDTH: usize = 16;
    const HEIGHT: usize = 16;

    let mut fb = DmaReadyFramebuffer::new(WIDTH, HEIGHT, true);

    let color = Color::new(10, 20, 30);
    fb.clear(color);

    let slice = fb.framebuffer;
    let expected_value = color.into_storage().to_be();

    for pixel in slice {
        assert_eq!(pixel, expected_value);
    }
}

#[test]
fn test_origin_dimensions() {
    const WIDTH: usize = 64;
    const HEIGHT: usize = 32;

    let fb = DmaReadyFramebuffer::new(WIDTH, HEIGHT, false);

    let size = fb.framebuffer.len();
    assert_eq!(size, WIDTH * HEIGHT);
}

#[test]
fn storage_word_layout_is_bgr() {
    // red in the low byte, blue in the third byte
    assert_eq!(Color::new(64, 128, 255).into_storage(), 0x00FF_8040);
    assert_eq!(Color::new(1, 0, 0).into_storage(), 0x0000_0001);
    assert_eq!(Color::new(0, 0, 1).into_storage(), 0x0001_0000);
}

#[test]
fn storage_word_decodes_and_ignores_top_byte() {
    assert_eq!(Color::from_storage(0x00FF_8040), Color::new(64, 128, 255));
    assert_eq!(Color::from_storage(0xAB12_3456), Color::new(0x56, 0x34, 0x12));
}

#[test]
fn size_reports_width_and_height() {
    let fb = DmaReadyFramebuffer::new(7, 3, false);
    assert_eq!(fb.size(), (7, 3));
}

#[test]
fn new_framebuffer_is_black() {
    let mut fb = DmaReadyFramebuffer::new(4, 4, true);
    for y in 0..4 {
        for x in 0..4 {
            assert_eq!(fb.get_pixel(Point::new(x, y)), Some(Color::new(0, 0, 0)));
        }
    }
}

#[test]
fn get_pixel_off_the_buffer_is_none() {
    let mut fb = DmaReadyFramebuffer::new(4, 3, false);
    assert_eq!(fb.get_pixel(Point::new(-1, 0)), None);
    assert_eq!(fb.get_pixel(Point::new(4, 0)), None);
    assert_eq!(fb.get_pixel(Point::new(0, 3)), None);
    assert_eq!(fb.get_pixel(Point::new(0, -1)), None);
}

#[test]
fn set_pixel_leaves_other_pixels_alone() {
    let mut fb = DmaReadyFramebuffer::new(4, 4, true);
    fb.set_pixel(Point::new(1, 1), Color::new(9, 8, 7));
    fb.set_pixel(Point::new(2, 1), Color::new(1, 2, 3));
    assert_eq!(fb.get_pixel(Point::new(1, 1)), Some(Color::new(9, 8, 7)));
    assert_eq!(fb.get_pixel(Point::new(2, 1)), Some(Color::new(1, 2, 3)));
    assert_eq!(fb.get_pixel(Point::new(0, 0)), Some(Color::new(0, 0, 0)));
}

#[test]
fn set_pixel_out_of_bounds_changes_nothing() {
    let mut fb = DmaReadyFramebuffer::new(3, 3, false);
    let before = fb.framebuffer.clone();
    fb.set_pixel(Point::new(3, 0), Color::new(255, 255, 255));
    fb.set_pixel(Point::new(0, -5), Color::new(255, 255, 255));
    assert_eq!(fb.framebuffer, before);
}

#[test]
fn clear_then_every_pixel_reads_back() {
    let mut fb = DmaReadyFramebuffer::new(5, 2, true);
    fb.clear(Color::new(10, 20, 30));
    for y in 0..2 {
        for x in 0..5 {
            assert_eq!(fb.get_pixel(Point::new(x, y)), Some(Color::new(10, 20, 30)));
        }
    }
}

#[test]
fn byte_order_is_chosen_by_big_endian_and_host() {
    let color = Color::new(64, 128, 255);
    let p = Point::new(1, 1);

    let mut swapped = DmaReadyFramebuffer::with_byte_order(2, 2, true, true);
    swapped.set_pixel(p, color);
    assert_eq!(swapped.framebuffer[3], color.into_storage().swap_bytes());
    assert_eq!(swapped.get_pixel(p), Some(color));

    let mut native = DmaReadyFramebuffer::with_byte_order(2, 2, true, false);
    native.set_pixel(p, color);
    assert_eq!(native.framebuffer[3], color.into_storage());

    let mut little = DmaReadyFramebuffer::with_byte_order(2, 2, false, true);
    little.set_pixel(p, color);
    assert_eq!(little.framebuffer[3], color.into_storage());
    assert!(!little.big_endian());
}

#[test]
fn probe_reads_the_host_order() {
    assert!(!swaps_for_probe(1));
    assert!(swaps_for_probe(0x0100_0000));
    assert_eq!(swaps_for_probe(1u32.to_be()), 1u32.to_be() != 1);
}
