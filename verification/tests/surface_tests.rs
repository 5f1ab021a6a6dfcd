use damage_sync::rect::Rect;
use damage_sync::surface::PixelSurface;
use damage_sync::payload::serialize_region;
use damage_sync::target::DrawTarget;

#[test]
fn new_surface_is_black() {
    let s = PixelSurface::new(3, 2);
    assert_eq!(s.size(), (3, 2));
    for y in 0..2 {
        for x in 0..3 {
            assert_eq!(s.get_pixel(x, y), 0);
        }
    }
}

#[test]
fn draw_pixel_stores_and_keeps_others() {
    let mut s = PixelSurface::new(3, 3);
    s.draw_pixel(1, 2, 0xABCD);
    assert_eq!(s.get_pixel(1, 2), 0xABCD);
    assert_eq!(s.get_pixel(2, 1), 0);
    assert_eq!(s.get_pixel(0, 0), 0);
}

#[test]
fn clear_fills_every_position() {
    let mut s = PixelSurface::new(4, 4);
    s.draw_pixel(2, 2, 7);
    s.clear(0x1234);
    for y in 0..4 {
        for x in 0..4 {
            assert_eq!(s.get_pixel(x, y), 0x1234);
        }
    }
}

#[test]
fn clone_is_byte_for_byte() {
    let mut s = PixelSurface::new(2, 2);
    s.draw_pixel(0, 1, 42);
    let c = s.clone();
    assert_eq!(c.size(), (2, 2));
    for y in 0..2 {
        for x in 0..2 {
            assert_eq!(c.get_pixel(x, y), s.get_pixel(x, y));
        }
    }
}

#[test]
fn serialize_region_is_row_major_big_endian() {
    // 3x3 surface; serialize the 2x2 region with corners (1,1) and (2,2).
    let mut s = PixelSurface::new(3, 3);
    s.draw_pixel(1, 1, 0x1122);
    s.draw_pixel(2, 1, 0x3344);
    s.draw_pixel(1, 2, 0x5566);
    s.draw_pixel(2, 2, 0x7788);
    let r = Rect { left: 1, top: 1, right: 2, bottom: 2 };
    let bytes = serialize_region(&s, &r);
    assert_eq!(bytes, vec![0x11, 0x22, 0x33, 0x44, 0x55, 0x66, 0x77, 0x88]);
}

#[test]
fn surface_as_draw_target() {
    fn paint<T: DrawTarget>(t: &mut T) {
        let (w, h) = t.size();
        t.clear(5);
        t.draw_pixel(w - 1, h - 1, 9);
    }
    let mut s = PixelSurface::new(2, 3);
    paint(&mut s);
    assert_eq!(s.get_pixel(0, 0), 5);
    assert_eq!(s.get_pixel(1, 2), 9);
}

#[test]
fn rect_expand_takes_in_new_points() {
    let r = Rect { left: 2, top: 2, right: 2, bottom: 2 };
    let r = r.expand(4, 1);
    let r = r.expand(3, 5);
    assert_eq!(r, Rect { left: 2, top: 1, right: 4, bottom: 5 });
    assert_eq!(r.width(), 3);
    assert_eq!(r.height(), 5);
}
