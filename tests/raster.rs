use oxide::buffer::OffscreenBuffer;
use oxide::raster::{
    draw_circle, draw_grid_column, draw_grid_row, draw_line, fill_rect, render_weird_gradient,
};
use oxide::vector::{Vector2i32, Vector2u32};

const WHITE: u32 = 0xFFFF_FFFF;

fn painted(b: &OffscreenBuffer) -> Vec<(u32, u32)> {
    let mut out = Vec::new();
    for y in 0..b.height {
        for x in 0..b.width {
            if b.get_pixel(x, y) != 0 {
                out.push((x, y));
            }
        }
    }
    out
}

#[test]
fn fill_rect_is_cut_at_the_buffer_edge() {
    let mut b = OffscreenBuffer::new(4, 4);
    fill_rect(&mut b, Vector2u32 { x: 1, y: 1 }, Vector2u32 { x: 10, y: 3 }, WHITE);
    assert_eq!(painted(&b), vec![(1, 1), (2, 1), (3, 1), (1, 2), (2, 2), (3, 2)]);
}

#[test]
fn fill_rect_blends_translucent_colour() {
    let mut b = OffscreenBuffer::new(2, 2);
    fill_rect(&mut b, Vector2u32 { x: 0, y: 0 }, Vector2u32 { x: 1, y: 1 }, 0x80FF_FFFF);
    assert_eq!(b.get_pixel(0, 0), 0x0080_8080);
    assert_eq!(b.get_pixel(1, 0), 0);
}

#[test]
fn fill_rect_empty_when_corners_cross() {
    let mut b = OffscreenBuffer::new(4, 4);
    fill_rect(&mut b, Vector2u32 { x: 3, y: 3 }, Vector2u32 { x: 1, y: 1 }, WHITE);
    assert!(painted(&b).is_empty());
}

#[test]
fn grid_row_wraps_negative_positions() {
    let mut b = OffscreenBuffer::new(4, 3);
    draw_grid_row(&mut b, -1, 0xFF44_4444);
    assert_eq!(painted(&b), vec![(0, 2), (1, 2), (2, 2), (3, 2)]);
    assert_eq!(b.get_pixel(2, 2), 0xFF44_4444);
}

#[test]
fn grid_column_wraps_past_the_width() {
    let mut b = OffscreenBuffer::new(4, 3);
    draw_grid_column(&mut b, 5, 0xFF44_4444);
    assert_eq!(painted(&b), vec![(1, 0), (1, 1), (1, 2)]);
}

#[test]
fn grid_on_empty_buffer_does_nothing() {
    let mut b = OffscreenBuffer::new(0, 0);
    draw_grid_row(&mut b, 3, WHITE);
    draw_grid_column(&mut b, 3, WHITE);
    assert!(b.memory.is_empty());
}

#[test]
fn horizontal_line_covers_both_ends() {
    let mut b = OffscreenBuffer::new(6, 3);
    draw_line(&mut b, Vector2i32 { x: 4, y: 1 }, Vector2i32 { x: 1, y: 1 }, WHITE);
    assert_eq!(painted(&b), vec![(1, 0), (2, 0), (3, 0), (4, 0), (1, 1), (2, 1), (3, 1), (4, 1)]);
}

#[test]
fn steep_line_walks_rows() {
    let mut b = OffscreenBuffer::new(3, 5);
    draw_line(&mut b, Vector2i32 { x: 2, y: 0 }, Vector2i32 { x: 2, y: 3 }, WHITE);
    assert_eq!(painted(&b), vec![(1, 0), (2, 0), (1, 1), (2, 1), (1, 2), (2, 2), (1, 3), (2, 3)]);
}

#[test]
fn shallow_line_fades_the_neighbour() {
    let mut b = OffscreenBuffer::new(6, 5);
    draw_line(&mut b, Vector2i32 { x: 0, y: 2 }, Vector2i32 { x: 4, y: 3 }, WHITE);
    assert_eq!(b.get_pixel(0, 2), WHITE);
    assert_eq!(b.get_pixel(1, 2), WHITE);
    assert_eq!(b.get_pixel(2, 2), WHITE);
    assert_eq!(b.get_pixel(3, 2), WHITE);
    assert_eq!(b.get_pixel(4, 3), WHITE);
    assert_eq!(b.get_pixel(0, 1), WHITE);
    assert_eq!(b.get_pixel(1, 1), 0x00BF_BFBF);
    assert_eq!(b.get_pixel(2, 1), 0x007F_7F7F);
    assert_eq!(b.get_pixel(3, 1), 0x003F_3F3F);
    assert_eq!(b.get_pixel(4, 2), WHITE);
    assert_eq!(b.get_pixel(5, 2), 0);
}

#[test]
fn line_left_of_buffer_is_raised_to_column_zero() {
    let mut b = OffscreenBuffer::new(3, 3);
    draw_line(&mut b, Vector2i32 { x: -5, y: 2 }, Vector2i32 { x: -3, y: 2 }, WHITE);
    assert_eq!(painted(&b), vec![(0, 1), (0, 2)]);
}

#[test]
fn line_off_the_far_edge_is_dropped() {
    let mut b = OffscreenBuffer::new(3, 3);
    draw_line(&mut b, Vector2i32 { x: 1, y: 1 }, Vector2i32 { x: 9, y: 1 }, WHITE);
    assert_eq!(painted(&b), vec![(1, 0), (2, 0), (1, 1), (2, 1)]);
}

#[test]
fn circle_paints_disc_and_fades_corners() {
    let mut b = OffscreenBuffer::new(11, 11);
    draw_circle(&mut b, Vector2i32 { x: 5, y: 5 }, 1, 0xFF00_FF00);
    for (x, y) in [(5, 5), (4, 5), (6, 5), (5, 4), (5, 6)] {
        assert_eq!(b.get_pixel(x, y), 0xFF00_FF00);
    }
    for (x, y) in [(4, 4), (6, 4), (4, 6), (6, 6)] {
        assert_eq!(b.get_pixel(x, y), 0x0000_9500);
    }
    assert_eq!(painted(&b).len(), 9);
}

#[test]
fn circle_is_cut_at_the_buffer_edge() {
    let mut b = OffscreenBuffer::new(3, 3);
    draw_circle(&mut b, Vector2i32 { x: 0, y: 0 }, 1, WHITE);
    assert_eq!(b.get_pixel(0, 0), WHITE);
    assert_eq!(b.get_pixel(1, 0), WHITE);
    assert_eq!(b.get_pixel(0, 1), WHITE);
    assert_eq!(b.get_pixel(1, 1), 0x0095_9595);
    assert_eq!(painted(&b).len(), 4);
}

#[test]
fn circle_with_negative_radius_draws_nothing() {
    let mut b = OffscreenBuffer::new(5, 5);
    draw_circle(&mut b, Vector2i32 { x: 2, y: 2 }, -1, WHITE);
    assert!(painted(&b).is_empty());
}

#[test]
fn gradient_fills_pixels_and_keeps_padding() {
    let mut b = OffscreenBuffer { memory: vec![7; 9], width: 2, height: 3, pitch: 12 };
    render_weird_gradient(&mut b, 3, 253);
    assert_eq!(b.memory, vec![0xFE03, 0xFE04, 7, 0x0003, 0x0004, 7, 0x0103, 0x0104, 7]);
}

#[test]
fn gradient_wraps_blue_at_255() {
    let mut b = OffscreenBuffer::new(3, 1);
    render_weird_gradient(&mut b, 253, 0);
    assert_eq!(b.memory, vec![0x01FD, 0x01FE, 0x0100]);
}
