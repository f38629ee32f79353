//! The "now playing" and idle screens: text, album art, progress bar, and the packing
//! of the finished (dithered) image into the panel's framebuffer format.
//!
//! Text glyphs and the dithering itself are drawn with floating-point code outside this
//! library; here are their positions and contents and everything around them.
use vstd::prelude::*;
use crate::backend::NowPlaying;
use crate::canvas::{GrayCanvas, in_rect, lemma_paint_compose, pixel_at};
use crate::framebuffer::{
    FB_SIZE, HEIGHT, WIDTH, fill_white, is_black, lemma_paint_keeps_others,
    lemma_read_after_paint, lemma_white_has_no_black, on_panel, set_pixel,
};

verus! {

/// The decimal digit `d` as a character.
pub open spec fn digit_char(d: int) -> char {
    if d == 0 { '0' }
    else if d == 1 { '1' }
    else if d == 2 { '2' }
    else if d == 3 { '3' }
    else if d == 4 { '4' }
    else if d == 5 { '5' }
    else if d == 6 { '6' }
    else if d == 7 { '7' }
    else if d == 8 { '8' }
    else { '9' }
}

/// `n` in decimal, without leading zeros.
pub open spec fn decimal(n: nat) -> Seq<char>
    decreases n,
{
    if n < 10 {
        seq![digit_char(n as int)]
    } else {
        decimal(n / 10) + seq![digit_char((n % 10) as int)]
    }
}

/// `n`, below 100, as two decimal digits.
pub open spec fn two_digits(n: nat) -> Seq<char> {
    seq![digit_char((n / 10) as int), digit_char((n % 10) as int)]
}

/// `secs` as minutes, a colon, and two-digit seconds ("3:07").
pub open spec fn time_text(secs: nat) -> Seq<char> {
    decimal(secs / 60) + seq![':'] + two_digits(secs % 60)
}

/// `s` when it has at most `max` characters; else its first `max - 1` characters and
/// an ellipsis.
pub open spec fn shortened(s: Seq<char>, max: nat) -> Seq<char> {
    if s.len() <= max {
        s
    } else {
        s.take(max - 1) + seq!['…']
    }
}

/// A shortened text never exceeds the limit, and keeps the start of the text.
pub proof fn lemma_shortened_fits(s: Seq<char>, max: nat)
    requires
        max >= 1,
    ensures
        shortened(s, max).len() <= max,
        shortened(s, max).len() == s.len() || shortened(s, max).take(max - 1) == s.take(max - 1),
{
    if s.len() > max {
        assert(shortened(s, max).take(max - 1) =~= s.take(max - 1));
    }
}

/// The number a string of decimal digits spells.
pub open spec fn digits_value(s: Seq<char>) -> int
    decreases s.len(),
{
    if s.len() == 0 {
        0
    } else {
        digits_value(s.drop_last()) * 10 + (s.last() as int - 48)
    }
}

/// Whether every character of `s` is an ASCII decimal digit.
pub open spec fn all_digits(s: Seq<char>) -> bool {
    forall|i: int| 0 <= i < s.len() ==> 48 <= #[trigger] (s[i] as int) <= 57
}

/// The digit character of `d` is the ASCII character with code 48 + d.
pub proof fn lemma_digit_char(d: int)
    requires
        0 <= d < 10,
    ensures
        digit_char(d) as int == 48 + d,
{
}

/// `decimal(n)` spells `n` in base 10: only digits, the number they spell is `n`, and
/// there is no leading zero.
pub proof fn lemma_decimal_spells(n: nat)
    ensures
        decimal(n).len() >= 1,
        all_digits(decimal(n)),
        digits_value(decimal(n)) == n,
        n >= 1 ==> decimal(n)[0] != '0',
    decreases n,
{
    assert(digits_value(Seq::<char>::empty()) == 0);
    if n < 10 {
        lemma_digit_char(n as int);
        assert(seq![digit_char(n as int)].drop_last() =~= Seq::<char>::empty());
        assert(digits_value(decimal(n)) == digits_value(Seq::<char>::empty()) * 10 + (digit_char(
            n as int,
        ) as int - 48));
    } else {
        lemma_decimal_spells(n / 10);
        lemma_digit_char((n % 10) as int);
        let h = decimal(n / 10);
        let t = h + seq![digit_char((n % 10) as int)];
        assert(t.drop_last() =~= h);
        assert(t.last() == digit_char((n % 10) as int));
        assert(t[0] == h[0]);
        assert(digits_value(t) == digits_value(h) * 10 + (digit_char((n % 10) as int) as int - 48));
        assert forall|i: int| 0 <= i < t.len() implies 48 <= #[trigger] (t[i] as int) <= 57 by {
            if i < h.len() {
                assert(t[i] == h[i]);
            }
        }
    }
}

/// A playback time reads as minutes, a colon and two-digit seconds: the digits before the
/// colon spell `secs / 60` and the two after it spell `secs % 60`.
pub proof fn lemma_time_text_reads(secs: nat)
    ensures
        ({
            let t = time_text(secs);
            let c = t.len() - 3;
            &&& c >= 1
            &&& t[c] == ':'
            &&& all_digits(t.take(c))
            &&& digits_value(t.take(c)) == secs / 60
            &&& all_digits(t.skip(c + 1))
            &&& t.skip(c + 1).len() == 2
            &&& digits_value(t.skip(c + 1)) == secs % 60
        }),
{
    let m = decimal(secs / 60);
    let r = secs % 60;
    lemma_decimal_spells(secs / 60);
    lemma_digit_char((r / 10) as int);
    lemma_digit_char((r % 10) as int);
    let t = time_text(secs);
    let c = t.len() - 3;
    assert(c == m.len());
    assert(t.take(c) =~= m);
    let two = two_digits(r);
    assert(t.skip(c + 1) =~= two);
    assert(two.drop_last() =~= seq![digit_char((r / 10) as int)]);
    assert(seq![digit_char((r / 10) as int)].drop_last() =~= Seq::<char>::empty());
    assert(digits_value(Seq::<char>::empty()) == 0);
    assert(digits_value(seq![digit_char((r / 10) as int)]) == r / 10);
    assert(two.last() == digit_char((r % 10) as int));
    assert(digits_value(two) == (r / 10) * 10 + r % 10);
}

fn digit_str(d: u32) -> (r: &'static str)
    requires
        d < 10,
    ensures
        r@ == seq![digit_char(d as int)],
{
    proof {
        reveal_strlit("0");
        reveal_strlit("1");
        reveal_strlit("2");
        reveal_strlit("3");
        reveal_strlit("4");
        reveal_strlit("5");
        reveal_strlit("6");
        reveal_strlit("7");
        reveal_strlit("8");
        reveal_strlit("9");
    }
    if d == 0 { "0" }
    else if d == 1 { "1" }
    else if d == 2 { "2" }
    else if d == 3 { "3" }
    else if d == 4 { "4" }
    else if d == 5 { "5" }
    else if d == 6 { "6" }
    else if d == 7 { "7" }
    else if d == 8 { "8" }
    else { "9" }
}

/// `n` in decimal.
pub fn decimal_string(n: u32) -> (r: String)
    ensures
        r@ == decimal(n as nat),
    decreases n,
{
    if n < 10 {
        String::from_str(digit_str(n))
    } else {
        let head = decimal_string(n / 10);
        head.concat(digit_str(n % 10))
    }
}

/// Formats a number of seconds as `m:ss`.
pub fn format_time(secs: u32) -> (r: String)
    ensures
        r@ == time_text(secs as nat),
{
    let minutes = decimal_string(secs / 60);
    let rest: u32 = secs % 60;
    proof {
        reveal_strlit(":");
    }
    let with_colon = minutes.concat(":");
    let tens = with_colon.concat(digit_str(rest / 10));
    let r = tens.concat(digit_str(rest % 10));
    assert(r@ =~= time_text(secs as nat));
    r
}

/// Shortens `s` to at most `max_chars` characters, marking a cut with an ellipsis.
pub fn truncate(s: &str, max_chars: usize) -> (r: String)
    requires
        max_chars >= 1 || s@.len() == 0,
    ensures
        r@ == shortened(s@, max_chars as nat),
{
    if s.unicode_len() <= max_chars {
        String::from_str(s)
    } else {
        proof {
            reveal_strlit("…");
        }
        let kept = String::from_str(s.substring_char(0, max_chars - 1));
        let r = kept.concat("…");
        assert(r@ =~= shortened(s@, max_chars as nat));
        r
    }
}


/// Side of the square album art, in pixels.
pub const ART_SIZE: u32 = 150;
/// Left edge of the album art.
pub const ART_X: u32 = 20;
/// Top edge of the album art.
pub const ART_Y: u32 = 40;
/// Left edge of the text column.
pub const TEXT_X: i32 = 185;

/// A line of text to draw.
pub struct TextLine {
    /// Left edge.
    pub x: i32,
    /// Top edge.
    pub y: i32,
    /// Gray level of the glyphs.
    pub luma: u8,
    /// Font size in pixels.
    pub size_px: u32,
    pub text: String,
}

/// The progress text: "progress / duration", or the duration alone.
pub open spec fn progress_text(progress: Option<u32>, duration: u32) -> Seq<char> {
    match progress {
        Some(p) => time_text(p as nat) + seq![' ', '/', ' '] + time_text(duration as nat),
        None => time_text(duration as nat),
    }
}

/// Whether `line` is the given text at `(x, y)` in gray `luma` and size `size_px`.
pub open spec fn line_is(line: TextLine, x: int, y: int, luma: u8, size_px: u32, text: Seq<char>) -> bool {
    line.x == x && line.y == y && line.luma == luma && line.size_px == size_px && line.text@ == text
}

/// The text of the "now playing" screen: track, artist, album, and, when the duration
/// is known, the progress.
pub fn now_playing_text(np: &NowPlaying) -> (lines: Vec<TextLine>)
    ensures
        lines@.len() == if np.duration_secs is Some { 4int } else { 3int },
        line_is(lines@[0], 185, 50, 0, 24, shortened(np.track@, 18)),
        line_is(lines@[1], 185, 85, 60, 18, shortened(np.artist@, 20)),
        line_is(lines@[2], 185, 112, 80, 18, shortened(np.album@, 20)),
        np.duration_secs matches Some(d) ==> line_is(
            lines@[3],
            185,
            150,
            0,
            14,
            progress_text(np.progress_secs, d),
        ),
{
    let mut lines: Vec<TextLine> = Vec::new();
    let top: i32 = ART_Y as i32;
    lines.push(
        TextLine { x: TEXT_X, y: top + 10, luma: 0, size_px: 24, text: truncate(np.track.as_str(), 18) },
    );
    lines.push(
        TextLine { x: TEXT_X, y: top + 45, luma: 60, size_px: 18, text: truncate(np.artist.as_str(), 20) },
    );
    lines.push(
        TextLine { x: TEXT_X, y: top + 72, luma: 80, size_px: 18, text: truncate(np.album.as_str(), 20) },
    );
    if let Some(duration) = np.duration_secs {
        let time = match np.progress_secs {
            Some(progress) => {
                proof {
                    reveal_strlit(" / ");
                }
                assert(" / "@ =~= seq![' ', '/', ' ']);
                let t = format_time(progress).concat(" / ");
                let r = t.concat(format_time(duration).as_str());
                assert(r@ =~= progress_text(np.progress_secs, duration));
                r
            },
            None => format_time(duration),
        };
        lines.push(TextLine { x: TEXT_X, y: top + 110, luma: 0, size_px: 14, text: time });
    }
    lines
}

/// The text of the idle screen.
pub fn idle_text() -> (lines: Vec<TextLine>)
    ensures
        lines@.len() == 1,
        line_is(lines@[0], 130, 135, 80, 22, "nothing playing"@),
{
    let mut lines: Vec<TextLine> = Vec::new();
    lines.push(
        TextLine { x: 130, y: 135, luma: 80, size_px: 22, text: String::from_str("nothing playing") },
    );
    lines
}


/// Width of the progress fill for `progress` of `duration` seconds: the share of the
/// 358-pixel inside of the bar, rounded down (as a 32-bit number); none for a zero
/// duration.
pub open spec fn bar_fill(progress: u32, duration: u32) -> int {
    if duration > 0 {
        ((progress * 358) / (duration as int)) as u32 as int
    } else {
        0
    }
}

/// Whether `(x, y)` belongs to the progress bar: its 360 x 7 outline at (20, 220), and,
/// when the progress is known, the filled part of its inside.
pub open spec fn on_progress_bar(x: int, y: int, progress: Option<u32>, duration: u32) -> bool {
    ||| in_rect(x, y, 20, 380, 220, 221)
    ||| in_rect(x, y, 20, 380, 226, 227)
    ||| in_rect(x, y, 20, 21, 220, 227)
    ||| in_rect(x, y, 379, 380, 220, 227)
    ||| (progress matches Some(p) && in_rect(x, y, 21, 21 + bar_fill(p, duration), 221, 226))
}

/// The inside of the progress bar is filled, left to right, in proportion to the share of
/// the track played: after `draw_progress_bar`, an inside pixel `x` columns from the bar's
/// left edge is black exactly when `x / 358 <= progress / duration`, so nothing is filled
/// at the start of a track and more is filled as it plays; with a zero duration nothing is
/// filled.
pub proof fn lemma_progress_bar_fill(
    old: GrayCanvas,
    new: GrayCanvas,
    progress: u32,
    duration: u32,
    x: int,
    y: int,
)
    requires
        new.painted_from(old, |a: int, b: int| on_progress_bar(a, b, Some(progress), duration), 0),
        21 <= x <= 378,
        221 <= y <= 225,
        x < old.w(),
        y < old.h(),
        duration > 0 ==> progress * 358 / (duration as int) <= u32::MAX,
    ensures
        duration > 0 ==> new.at(x, y) == if (x - 20) * duration <= progress * 358 {
            0
        } else {
            old.at(x, y)
        },
        duration == 0 ==> new.at(x, y) == old.at(x, y),
{
    assert(new.at(x, y) == if on_progress_bar(x, y, Some(progress), duration) {
        0u8
    } else {
        old.at(x, y)
    });
    if duration > 0 {
        let q = progress * 358 / (duration as int);
        let k = x - 20;
        assert(0 <= q);
        assert(bar_fill(progress, duration) == q);
        assert((k <= q) == (k * duration <= progress * 358)) by (nonlinear_arith)
            requires
                duration > 0,
                q == progress * 358 / (duration as int),
                progress >= 0,
        ;
    }
}

/// Without a known progress the bar is only its outline.
pub proof fn lemma_bar_without_progress(x: int, y: int, duration: u32)
    ensures
        on_progress_bar(x, y, None, duration) == (in_rect(x, y, 20, 380, 220, 227) && !in_rect(
            x,
            y,
            21,
            379,
            221,
            226,
        )),
{
}

/// Draws the progress bar in black.
pub fn draw_progress_bar(img: &mut GrayCanvas, progress: Option<u32>, duration: u32)
    requires
        old(img).wf(),
        old(img).w() >= 380,
        old(img).h() >= 227,
        progress matches Some(p) ==> 20 + bar_fill(p, duration) < old(img).w(),
    ensures
        final(img).painted_from(*old(img), |x: int, y: int| on_progress_bar(x, y, progress, duration), 0),
{
    let bar_x: u32 = 20;
    let bar_y: u32 = 220;
    let bar_w: u32 = 360;
    let bar_h: u32 = 6;
    let ghost c0 = *img;
    img.fill_rect(bar_x, bar_x + bar_w, bar_y, bar_y + 1, 0);
    let ghost c1 = *img;
    img.fill_rect(bar_x, bar_x + bar_w, bar_y + bar_h, bar_y + bar_h + 1, 0);
    let ghost c2 = *img;
    img.fill_rect(bar_x, bar_x + 1, bar_y, bar_y + bar_h + 1, 0);
    let ghost c3 = *img;
    img.fill_rect(bar_x + bar_w - 1, bar_x + bar_w, bar_y, bar_y + bar_h + 1, 0);
    let ghost c4 = *img;
    let ghost r1 = |a: int, b: int| in_rect(a, b, 20, 380, 220, 221);
    let ghost r2 = |a: int, b: int| in_rect(a, b, 20, 380, 226, 227);
    let ghost r3 = |a: int, b: int| in_rect(a, b, 20, 21, 220, 227);
    let ghost r4 = |a: int, b: int| in_rect(a, b, 379, 380, 220, 227);
    proof {
        lemma_paint_compose(c0, c1, c2, r1, r2, 0);
        lemma_paint_compose(c0, c2, c3, |a: int, b: int| r1(a, b) || r2(a, b), r3, 0);
        lemma_paint_compose(
            c0,
            c3,
            c4,
            |a: int, b: int| (r1(a, b) || r2(a, b)) || r3(a, b),
            r4,
            0,
        );
    }
    let ghost outline = |a: int, b: int| ((r1(a, b) || r2(a, b)) || r3(a, b)) || r4(a, b);
    if let Some(p) = progress {
        let fill_w: u32 = if duration > 0 {
            #[verifier::truncate]
            ((p as u64 * (bar_w - 2) as u64 / duration as u64) as u32)
        } else {
            0
        };
        assert(fill_w == bar_fill(p, duration));
        let width: u32 = img.width();
        img.fill_rect(bar_x + 1, bar_x + fill_w + 1, bar_y + 1, bar_y + bar_h, 0);
        proof {
            lemma_paint_compose(
                c0,
                c4,
                *img,
                outline,
                |a: int, b: int| in_rect(a, b, 21, 21 + fill_w, 221, 226),
                0,
            );
        }
    }
    assert forall|x: int, y: int| 0 <= x < img.w() && 0 <= y < img.h() implies #[trigger] img.at(x, y)
        == if on_progress_bar(x, y, progress, duration) {
        0
    } else {
        c0.at(x, y)
    } by {}
}


/// Whether `bytes` encode a picture that the image decoder recognizes and decodes.
pub uninterp spec fn is_decodable_image(bytes: Seq<u8>) -> bool;

/// Decodes `bytes` with `image::load_from_memory`, resizes the picture to `size` x
/// `size` with `DynamicImage::resize_exact` and the Lanczos3 filter, converts it to
/// 8-bit gray with `to_luma8` and returns its pixels (`into_raw`); a decoding error
/// gives `None`. Whether decoding succeeds is named and depends on the bytes alone;
/// the pixel values are left unsaid, as the resampling weights come from
/// floating-point `sin`, whose precision std leaves unspecified, so only their number,
/// one byte per pixel of the square, is claimed.
#[verifier::external_body]
fn decode_square_gray(bytes: &[u8], size: u32) -> (r: Option<Vec<u8>>)
    ensures
        r is Some <==> is_decodable_image(bytes@),
        r matches Some(v) ==> v@.len() == size * size,
{
    match image::load_from_memory(bytes) {
        Ok(picture) => Some(
            picture.resize_exact(size, size, image::imageops::FilterType::Lanczos3).to_luma8().into_raw(),
        ),
        Err(_) => None,
    }
}

/// Whether `(x, y)` lies on the one-pixel frame around the album art.
pub open spec fn on_art_frame(x: int, y: int) -> bool {
    ||| in_rect(x, y, 20, 170, 40, 41)
    ||| in_rect(x, y, 20, 170, 189, 190)
    ||| in_rect(x, y, 20, 21, 40, 190)
    ||| in_rect(x, y, 169, 170, 40, 190)
}

/// Pixel `(x, y)` of `old` once the album art `art` (150 x 150 gray pixels) and its black
/// frame are drawn at (20, 40).
pub open spec fn with_art(old: GrayCanvas, art: Seq<u8>, x: int, y: int) -> u8 {
    if on_art_frame(x, y) {
        0
    } else if in_rect(x, y, 20, 170, 40, 190) {
        art[pixel_at(150, x - 20, y - 40)]
    } else {
        old.at(x, y)
    }
}

/// Whether `new` is `old` with the album art `art` and its frame drawn.
pub open spec fn shows_art(new: GrayCanvas, old: GrayCanvas, art: Seq<u8>) -> bool {
    &&& new.wf()
    &&& new.w() == old.w()
    &&& new.h() == old.h()
    &&& forall|x: int, y: int|
        0 <= x < old.w() && 0 <= y < old.h() ==> #[trigger] new.at(x, y) == with_art(old, art, x, y)
}

/// Draws the album art `art` (150 x 150 gray pixels, row by row), framed in black, at
/// the left of the screen.
pub fn draw_art(img: &mut GrayCanvas, art: &Vec<u8>)
    requires
        old(img).wf(),
        old(img).w() >= 170,
        old(img).h() >= 190,
        art@.len() == ART_SIZE * ART_SIZE,
    ensures
        shows_art(*final(img), *old(img), art@),
{
    let ghost c0 = *img;
    img.draw_square(ART_X, ART_Y, ART_SIZE, art);
    let ghost c1 = *img;
    img.fill_rect(ART_X, ART_X + ART_SIZE, ART_Y, ART_Y + 1, 0);
    let ghost c2 = *img;
    img.fill_rect(ART_X, ART_X + ART_SIZE, ART_Y + ART_SIZE - 1, ART_Y + ART_SIZE, 0);
    let ghost c3 = *img;
    img.fill_rect(ART_X, ART_X + 1, ART_Y, ART_Y + ART_SIZE, 0);
    let ghost c4 = *img;
    img.fill_rect(ART_X + ART_SIZE - 1, ART_X + ART_SIZE, ART_Y, ART_Y + ART_SIZE, 0);
    let ghost c5 = *img;
    let ghost r1 = |a: int, b: int| in_rect(a, b, 20, 170, 40, 41);
    let ghost r2 = |a: int, b: int| in_rect(a, b, 20, 170, 189, 190);
    let ghost r3 = |a: int, b: int| in_rect(a, b, 20, 21, 40, 190);
    let ghost r4 = |a: int, b: int| in_rect(a, b, 169, 170, 40, 190);
    proof {
        lemma_paint_compose(c1, c2, c3, r1, r2, 0);
        lemma_paint_compose(c1, c3, c4, |a: int, b: int| r1(a, b) || r2(a, b), r3, 0);
        lemma_paint_compose(c1, c4, c5, |a: int, b: int| (r1(a, b) || r2(a, b)) || r3(a, b), r4, 0);
        assert forall|x: int, y: int| 0 <= x < c0.w() && 0 <= y < c0.h() implies #[trigger] c5.at(x, y)
            == with_art(c0, art@, x, y) by {
            assert(c1.at(x, y) == if in_rect(x, y, 20, 170, 40, 190) {
                art@[pixel_at(150, x - 20, y - 40)]
            } else {
                c0.at(x, y)
            });
        }
    }
}

/// Draws the album art encoded in `art_bytes`, framed in black, at the left of the
/// screen; leaves the canvas as it is when the bytes are no picture.
pub fn draw_album_art(img: &mut GrayCanvas, art_bytes: &[u8])
    requires
        old(img).wf(),
        is_decodable_image(art_bytes@) ==> old(img).w() >= 170 && old(img).h() >= 190,
    ensures
        !is_decodable_image(art_bytes@) ==> *final(img) == *old(img),
        is_decodable_image(art_bytes@) ==> exists|art: Seq<u8>|
            art.len() == ART_SIZE * ART_SIZE && #[trigger] shows_art(*final(img), *old(img), art),
{
    let art = match decode_square_gray(art_bytes, ART_SIZE) {
        Some(art) => art,
        None => {
            return ;
        },
    };
    draw_art(img, &art);
    assert(shows_art(*img, *old(img), art@));
}

/// Draws the album art like [`draw_album_art`] where the canvas can hold it; when the
/// bytes are a picture but the canvas is smaller than 170 x 190, draws nothing and
/// returns `false`.
pub fn draw_album_art_checked(img: &mut GrayCanvas, art_bytes: &[u8]) -> (drawn: bool)
    requires
        old(img).wf(),
    ensures
        drawn == !(is_decodable_image(art_bytes@) && (old(img).w() < 170 || old(img).h() < 190)),
        !drawn || !is_decodable_image(art_bytes@) ==> *final(img) == *old(img),
        drawn && is_decodable_image(art_bytes@) ==> exists|art: Seq<u8>|
            art.len() == ART_SIZE * ART_SIZE && #[trigger] shows_art(*final(img), *old(img), art),
{
    if img.width() < 170 || img.height() < 190 {
        if decode_square_gray(art_bytes, ART_SIZE).is_some() {
            return false;
        }
    }
    draw_album_art(img, art_bytes);
    true
}

/// Packs a 400 x 300 black-and-white image, given row by row as "is black" flags, into
/// the panel's framebuffer format (a set bit is white).
pub fn pack_1bpp(black: &Vec<bool>) -> (fb: Vec<u8>)
    requires
        black@.len() == WIDTH * HEIGHT,
    ensures
        fb@.len() == FB_SIZE,
        forall|x: int, y: int| on_panel(x, y) ==> #[trigger] is_black(fb@, x, y) == black@[y * 400 + x],
{
    let mut frame: [u8; FB_SIZE] = [0u8; FB_SIZE];
    fill_white(&mut frame);
    proof {
        assert forall|a: int, b: int| on_panel(a, b) implies !#[trigger] is_black(frame@, a, b) by {
            lemma_white_has_no_black(a, b);
        }
    }
    let mut y: u32 = 0;
    while y < HEIGHT
        invariant
            y <= HEIGHT,
            black@.len() == WIDTH * HEIGHT,
            frame@.len() == FB_SIZE,
            forall|a: int, b: int| on_panel(a, b) ==> #[trigger] is_black(frame@, a, b) == (b < y
                && black@[b * 400 + a]),
        decreases HEIGHT - y,
    {
        let mut x: u32 = 0;
        while x < WIDTH
            invariant
                y < HEIGHT,
                x <= WIDTH,
                black@.len() == WIDTH * HEIGHT,
                frame@.len() == FB_SIZE,
                forall|a: int, b: int| on_panel(a, b) ==> #[trigger] is_black(frame@, a, b) == ((b < y
                    || (b == y && a < x)) && black@[b * 400 + a]),
            decreases WIDTH - x,
        {
            let i: usize = y as usize * 400 + x as usize;
            if black[i] {
                let ghost before = frame@;
                set_pixel(&mut frame, x, y, true);
                proof {
                    lemma_read_after_paint(before, x as int, y as int, true);
                    assert forall|a: int, b: int| on_panel(a, b) && (a != x || b != y) implies #[trigger] is_black(
                        frame@,
                        a,
                        b,
                    ) == is_black(before, a, b) by {
                        lemma_paint_keeps_others(before, x as int, y as int, true, a, b);
                    }
                }
            }
            x = x + 1;
        }
        y = y + 1;
    }
    let mut fb: Vec<u8> = Vec::new();
    let mut i: usize = 0;
    while i < FB_SIZE
        invariant
            i <= FB_SIZE,
            frame@.len() == FB_SIZE,
            fb@ =~= frame@.take(i as int),
        decreases FB_SIZE - i,
    {
        fb.push(frame[i]);
        i = i + 1;
    }
    assert(fb@ =~= frame@);
    fb
}

} // verus!
