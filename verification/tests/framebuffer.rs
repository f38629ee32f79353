use waveshare_epaper::framebuffer::{draw_pixels, fill_white, set_pixel, FB_SIZE};

fn black_at(fb: &[u8; FB_SIZE], x: usize, y: usize) -> bool {
    fb[y * 50 + x / 8] & (0x80u8 >> (x % 8)) == 0
}

#[test]
fn set_pixel_black_then_white() {
    let mut fb = [0xFFu8; FB_SIZE];
    set_pixel(&mut fb, 10, 3, true);
    assert_eq!(fb[3 * 50 + 1], 0b1101_1111);
    assert!(black_at(&fb, 10, 3));
    set_pixel(&mut fb, 10, 3, false);
    assert_eq!(fb[3 * 50 + 1], 0xFF);
}

#[test]
fn set_pixel_corners() {
    let mut fb = [0xFFu8; FB_SIZE];
    set_pixel(&mut fb, 0, 0, true);
    set_pixel(&mut fb, 399, 299, true);
    assert_eq!(fb[0], 0x7F);
    assert_eq!(fb[FB_SIZE - 1], 0xFE);
    assert_eq!(fb.iter().filter(|b| **b != 0xFF).count(), 2);
}

#[test]
fn set_pixel_off_panel_is_ignored() {
    let mut fb = [0x55u8; FB_SIZE];
    set_pixel(&mut fb, 400, 0, true);
    set_pixel(&mut fb, 0, 300, false);
    set_pixel(&mut fb, u32::MAX, u32::MAX, true);
    assert!(fb.iter().all(|b| *b == 0x55));
}

#[test]
fn set_pixel_keeps_neighbours() {
    let mut fb = [0xFFu8; FB_SIZE];
    set_pixel(&mut fb, 17, 5, true);
    for x in 0..400 {
        for y in 0..300 {
            assert_eq!(black_at(&fb, x, y), x == 17 && y == 5);
        }
    }
}

#[test]
fn fill_white_clears_everything() {
    let mut fb = [0u8; FB_SIZE];
    fill_white(&mut fb);
    assert!(fb.iter().all(|b| *b == 0xFF));
}

#[test]
fn draw_pixels_in_order_skipping_negative() {
    let mut fb = [0xFFu8; FB_SIZE];
    let pixels = vec![(1, 1, true), (-1, 2, true), (2, -5, true), (1, 1, false), (9, 0, true)];
    draw_pixels(&mut fb, &pixels);
    assert!(!black_at(&fb, 1, 1));
    assert!(black_at(&fb, 9, 0));
    assert_eq!(fb.iter().filter(|b| **b != 0xFF).count(), 1);
}
