use oxide::buffer::OffscreenBuffer;
use oxide::color::{blend_pixel, get_alpha, lerp_color};

#[test]
fn get_alpha_reads_top_byte() {
    assert_eq!(get_alpha(0xFF00_0000), 255);
    assert_eq!(get_alpha(0x3300_DDAA), 0x33);
    assert_eq!(get_alpha(0x00FF_FFFF), 0);
}

#[test]
fn lerp_color_moves_each_channel() {
    assert_eq!(lerp_color(0x0000_0000, 0x00FF_FFFF, 0), 0x0000_0000);
    assert_eq!(lerp_color(0x0000_0000, 0x00FF_FFFF, 255), 0x00FF_FFFF);
    assert_eq!(lerp_color(0xFF10_2030, 0x40F0_E0D0, 64), 0x0048_5058);
}

#[test]
fn blend_opaque_overwrites() {
    assert_eq!(blend_pixel(0x1234_5678, 0xFFAB_CDEF), 0xFFAB_CDEF);
    assert_eq!(blend_pixel(0xFFFF_FFFF, 0xFF00_0000), 0xFF00_0000);
}

#[test]
fn blend_transparent_keeps_pixel() {
    assert_eq!(blend_pixel(0x1234_5678, 0x00AB_CDEF), 0x1234_5678);
    assert_eq!(blend_pixel(0xFF00_FF00, 0x00FF_FFFF), 0xFF00_FF00);
}

#[test]
fn blend_matches_formula_on_samples() {
    assert_eq!(blend_pixel(0x0000_0000, 0x80FF_FFFF), 0x0080_8080);
    assert_eq!(blend_pixel(0xFF10_2030, 0x40F0_E0D0), 0xFF48_5058);
    assert_eq!(blend_pixel(0xFFFF_FFFF, 0x7F00_0000), 0xFF80_8080);
    assert_eq!(blend_pixel(0x0012_3456, 0xC065_4321), 0x0050_3F2E);
    assert_eq!(blend_pixel(0xAB80_8080, 0x01FF_00FF), 0xAB80_7F80);
    assert_eq!(blend_pixel(0x00FF_FFFF, 0x3300_DDAA), 0x00CC_F8EE);
}

#[test]
fn draw_pixel_blends_into_buffer() {
    let mut b = OffscreenBuffer::new(3, 2);
    b.draw_pixel(2, 1, 0xFF10_2030);
    assert_eq!(b.get_pixel(2, 1), 0xFF10_2030);
    b.draw_pixel(2, 1, 0x40F0_E0D0);
    assert_eq!(b.get_pixel(2, 1), 0xFF48_5058);
    b.draw_pixel(2, 1, 0x00FF_FFFF);
    assert_eq!(b.get_pixel(2, 1), 0xFF48_5058);
    b.draw_pixel(2, 1, 0xFF00_0001);
    assert_eq!(b.get_pixel(2, 1), 0xFF00_0001);
    assert_eq!(b.get_pixel(1, 1), 0);
}
