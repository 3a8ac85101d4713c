use drm_gfx::color::Color;
use drm_gfx::doublebuffer::DoubleBuffer;
use drm_gfx::Point;

#[test]
fn test_doublebuffer_creation() {
    const WIDTH: usize = 64;
    const HEIGHT: usize = 64;

    let db = DoubleBuffer::new(WIDTH, HEIGHT);

    assert!(!db.toggle);
    assert_eq!(db.size, WIDTH * HEIGHT);
}

#[test]
fn test_framebuffer_swapping() {
    const WIDTH: usize = 64;
    const HEIGHT: usize = 64;

    let mut db = DoubleBuffer::new(WIDTH, HEIGHT);

    let fb1 = db.swap_framebuffer();

    fb1.set_pixel(Point::new(0, 0), Color::new(255, 255, 255));

    let fb2 = db.swap_framebuffer();

    assert_eq!(fb2.get_pixel(Point { x: 0, y: 0 }), Some(Color::new(0, 0, 0)));

    let fb3 = db.swap_framebuffer();

    assert_eq!(fb3.get_pixel(Point { x: 0, y: 0 }), Some(Color::new(255, 255, 255)));
}

#[test]
fn test_toggle_behavior() {
    const WIDTH: usize = 64;
    const HEIGHT: usize = 64;

    let mut db = DoubleBuffer::new(WIDTH, HEIGHT);

    let initial_toggle = db.toggle;
    assert!(!initial_toggle);

    let _first_fb = db.swap_framebuffer();
    let _second_fb = db.swap_framebuffer();
    let _third_fb = db.swap_framebuffer();

    assert!(db.toggle);
}

#[test]
fn current_framebuffer_is_the_one_last_swapped_in() {
    let mut db = DoubleBuffer::new(4, 4);
    let fb = db.swap_framebuffer();
    fb.set_pixel(Point::new(2, 3), Color::new(1, 2, 3));
    let current = db.get_current_framebuffer();
    assert_eq!(current.get_pixel(Point::new(2, 3)), Some(Color::new(1, 2, 3)));
    assert!(db.toggle);
}

#[test]
fn double_buffer_frames_are_big_endian() {
    let db = DoubleBuffer::new(2, 2);
    assert!(db.fbuf0.big_endian());
    assert!(db.fbuf1.big_endian());
}

#[test]
fn double_buffer_with_byte_order_swaps_both_frames() {
    let mut db = DoubleBuffer::with_byte_order(2, 1, true);
    let fb = db.swap_framebuffer();
    fb.set_pixel(Point::new(1, 0), Color::new(1, 2, 3));
    assert_eq!(fb.framebuffer[1], Color::new(1, 2, 3).into_storage().swap_bytes());
}
