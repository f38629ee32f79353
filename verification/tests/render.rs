use waveshare_epaper::canvas::GrayCanvas;
use waveshare_epaper::render::{
    draw_album_art, draw_album_art_checked, draw_art, draw_progress_bar, format_time, idle_text, now_playing_text, pack_1bpp, truncate,
};
use waveshare_epaper::backend::NowPlaying;

#[test]
fn format_time_pads_seconds() {
    assert_eq!(format_time(0), "0:00");
    assert_eq!(format_time(65), "1:05");
    assert_eq!(format_time(600), "10:00");
    assert_eq!(format_time(3599), "59:59");
    assert_eq!(format_time(7325), "122:05");
    assert_eq!(format_time(u32::MAX), "71582788:15");
}

#[test]
fn truncate_short_and_long() {
    assert_eq!(truncate("hello", 5), "hello");
    assert_eq!(truncate("hello", 3), "he…");
    assert_eq!(truncate("", 0), "");
    assert_eq!(truncate("héllo wörld", 6), "héllo…");
    assert_eq!(truncate("abc", 1), "…");
    assert_eq!(truncate("ab", 1).chars().count(), 1);
}

fn np(duration: Option<u32>, progress: Option<u32>) -> NowPlaying {
    NowPlaying {
        track: "A very long track name indeed".to_string(),
        artist: "Artist".to_string(),
        album: "Album".to_string(),
        cover_art: None,
        progress_secs: progress,
        duration_secs: duration,
    }
}

#[test]
fn now_playing_text_layout() {
    let lines = now_playing_text(&np(Some(200), Some(61)));
    assert_eq!(lines.len(), 4);
    assert_eq!((lines[0].x, lines[0].y, lines[0].luma, lines[0].size_px), (185, 50, 0, 24));
    assert_eq!(lines[0].text, "A very long track…");
    assert_eq!((lines[1].x, lines[1].y, lines[1].luma, lines[1].size_px), (185, 85, 60, 18));
    assert_eq!(lines[1].text, "Artist");
    assert_eq!((lines[2].y, lines[2].luma), (112, 80));
    assert_eq!((lines[3].y, lines[3].luma, lines[3].size_px), (150, 0, 14));
    assert_eq!(lines[3].text, "1:01 / 3:20");
    let lines = now_playing_text(&np(Some(200), None));
    assert_eq!(lines[3].text, "3:20");
    assert_eq!(now_playing_text(&np(None, Some(3))).len(), 3);
}

#[test]
fn idle_text_layout() {
    let lines = idle_text();
    assert_eq!(lines.len(), 1);
    assert_eq!((lines[0].x, lines[0].y, lines[0].luma, lines[0].size_px), (130, 135, 80, 22));
    assert_eq!(lines[0].text, "nothing playing");
}

fn white() -> GrayCanvas {
    GrayCanvas::filled(400, 300, 255)
}

#[test]
fn progress_bar_outline_only() {
    let mut c = white();
    draw_progress_bar(&mut c, None, 100);
    assert_eq!(c.get_pixel(20, 220), 0);
    assert_eq!(c.get_pixel(379, 226), 0);
    assert_eq!(c.get_pixel(200, 223), 255);
    assert_eq!(c.get_pixel(380, 220), 255);
    assert_eq!(c.get_pixel(19, 223), 255);
    let raw = c.into_raw();
    assert_eq!(raw.iter().filter(|v| **v == 0).count(), 2 * 360 + 2 * 5);
}

#[test]
fn progress_bar_half_filled() {
    let mut c = white();
    draw_progress_bar(&mut c, Some(50), 100);
    // 50 * 358 / 100 = 179 columns, x = 21..=199
    assert_eq!(c.get_pixel(21, 221), 0);
    assert_eq!(c.get_pixel(199, 225), 0);
    assert_eq!(c.get_pixel(200, 223), 255);
    let raw = c.into_raw();
    assert_eq!(raw.iter().filter(|v| **v == 0).count(), 2 * 360 + 2 * 5 + 179 * 5);
}

#[test]
fn progress_bar_zero_duration() {
    let mut c = white();
    draw_progress_bar(&mut c, Some(30), 0);
    assert_eq!(c.get_pixel(21, 223), 255);
}

fn encoded_png(shade: u8, w: u32, h: u32) -> Vec<u8> {
    let img = image::GrayImage::from_pixel(w, h, image::Luma([shade]));
    let mut bytes = std::io::Cursor::new(Vec::new());
    img.write_to(&mut bytes, image::ImageFormat::Png).unwrap();
    bytes.into_inner()
}

#[test]
fn album_art_is_drawn_and_framed() {
    let mut c = white();
    draw_album_art(&mut c, &encoded_png(100, 30, 30));
    assert_eq!(c.get_pixel(20, 40), 0);
    assert_eq!(c.get_pixel(169, 189), 0);
    assert_eq!(c.get_pixel(95, 40), 0);
    assert_eq!(c.get_pixel(95, 115), 100);
    assert_eq!(c.get_pixel(21, 41), 100);
    assert_eq!(c.get_pixel(170, 100), 255);
    assert_eq!(c.get_pixel(100, 190), 255);
}

#[test]
fn album_art_garbage_leaves_canvas() {
    let mut c = white();
    draw_album_art(&mut c, &[1, 2, 3, 4]);
    assert!(c.into_raw().iter().all(|v| *v == 255));
}

#[test]
fn pack_1bpp_layout() {
    let mut black = vec![false; 400 * 300];
    black[0] = true;
    black[9] = true;
    black[299 * 400 + 399] = true;
    let fb = pack_1bpp(&black);
    assert_eq!(fb.len(), 15000);
    assert_eq!(fb[0], 0x7F);
    assert_eq!(fb[1], 0xBF);
    assert_eq!(fb[14999], 0xFE);
    assert_eq!(fb.iter().filter(|b| **b != 0xFF).count(), 3);
    let all_black = pack_1bpp(&vec![true; 400 * 300]);
    assert!(all_black.iter().all(|b| *b == 0));
}

#[test]
fn canvas_from_raw_checks_size() {
    assert!(GrayCanvas::from_raw(2, 2, vec![0; 4]).is_some());
    assert!(GrayCanvas::from_raw(2, 2, vec![0; 5]).is_none());
    let mut c = GrayCanvas::from_raw(3, 2, vec![9; 6]).unwrap();
    c.put_pixel(2, 1, 4);
    c.fill_rect(0, 1, 0, 2, 7);
    assert_eq!(c.into_raw(), vec![7, 9, 9, 7, 9, 4]);
}

#[test]
fn draw_art_places_pixels() {
    let art: Vec<u8> = (0..22500u32).map(|i| (i % 200) as u8 + 1).collect();
    let mut c = white();
    draw_art(&mut c, &art);
    assert_eq!(c.get_pixel(50, 60), art[20 * 150 + 30]);
    assert_eq!(c.get_pixel(168, 188), art[148 * 150 + 148]);
    assert_eq!(c.get_pixel(20, 100), 0);
    assert_eq!(c.get_pixel(19, 100), 255);
}

#[test]
fn album_art_checked_on_small_canvas() {
    let mut small = GrayCanvas::filled(100, 100, 255);
    assert!(!draw_album_art_checked(&mut small, &encoded_png(10, 4, 4)));
    assert!(small.into_raw().iter().all(|v| *v == 255));
    let mut small = GrayCanvas::filled(100, 100, 255);
    assert!(draw_album_art_checked(&mut small, b"<html>not found</html>"));
    assert!(small.into_raw().iter().all(|v| *v == 255));
    let mut big = white();
    assert!(draw_album_art_checked(&mut big, &encoded_png(10, 4, 4)));
    assert_eq!(big.get_pixel(100, 100), 10);
}

#[test]
fn album_art_garbage_on_small_canvas() {
    let mut c = GrayCanvas::filled(10, 10, 7);
    draw_album_art(&mut c, &[1, 2, 3]);
    assert!(c.into_raw().iter().all(|v| *v == 7));
}
