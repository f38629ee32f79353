//! The 1 bit-per-pixel framebuffer shared by both panel controllers.
//!
//! A set bit is a white pixel, a cleared bit a black one. Pixel `(x, y)` lives in byte
//! `y * ROW_BYTES + x / 8`, most significant bit first.
use vstd::prelude::*;

verus! {

/// Panel width in pixels.
pub const WIDTH: u32 = 400;

/// Panel height in pixels.
pub const HEIGHT: u32 = 300;

/// Bytes per framebuffer row.
pub const ROW_BYTES: usize = 50;

/// Framebuffer size in bytes.
pub const FB_SIZE: usize = 15000;

/// Whether `(x, y)` lies on the panel.
pub open spec fn on_panel(x: int, y: int) -> bool {
    0 <= x < WIDTH && 0 <= y < HEIGHT
}

/// Byte that holds pixel `(x, y)`.
pub open spec fn byte_index(x: int, y: int) -> int {
    y * (ROW_BYTES as int) + x / 8
}

/// Bit of that byte that holds column `x`.
pub open spec fn bit_mask(x: int) -> u8 {
    0x80u8 >> ((x % 8) as u8)
}

/// Whether pixel `(x, y)` of `fb` is black.
pub open spec fn is_black(fb: Seq<u8>, x: int, y: int) -> bool {
    fb[byte_index(x, y)] & bit_mask(x) == 0
}

/// `fb` with pixel `(x, y)` painted black or white; off-panel pixels leave it unchanged.
pub open spec fn with_pixel(fb: Seq<u8>, x: int, y: int, black: bool) -> Seq<u8> {
    if on_panel(x, y) {
        let i = byte_index(x, y);
        fb.update(i, if black { fb[i] & !bit_mask(x) } else { fb[i] | bit_mask(x) })
    } else {
        fb
    }
}

/// An all-white framebuffer.
pub open spec fn all_white() -> Seq<u8> {
    Seq::new(FB_SIZE as nat, |i: int| 0xFFu8)
}

proof fn lemma_byte_index_bounds(x: int, y: int)
    requires
        on_panel(x, y),
    ensures
        0 <= byte_index(x, y) < FB_SIZE,
{
    assert(y * 50 <= 299 * 50) by (nonlinear_arith)
        requires
            0 <= y <= 299,
    ;
}

proof fn lemma_shift_mask(k: u32)
    requires
        k < 8,
    ensures
        0x80u8 >> k == 0x80u8 >> (k as u8),
        0x80u8 >> k != 0,
{
    assert(0x80u8 >> k == 0x80u8 >> (k as u8)) by (bit_vector)
        requires
            k < 8,
    ;
    assert(0x80u8 >> k != 0) by (bit_vector)
        requires
            k < 8,
    ;
}

proof fn lemma_and_mod(x: u32)
    ensures
        x & 7 == x % 8,
{
    assert(x & 7 == x % 8) by (bit_vector);
}

/// Paints pixel `(x, y)` black or white; does nothing off the panel.
pub fn set_pixel(fb: &mut [u8; FB_SIZE], x: u32, y: u32, black: bool)
    ensures
        final(fb)@ == with_pixel(old(fb)@, x as int, y as int, black),
{
    if x >= WIDTH || y >= HEIGHT {
        return ;
    }
    proof {
        lemma_byte_index_bounds(x as int, y as int);
        lemma_and_mod(x);
        lemma_shift_mask(x & 7);
    }
    assert(x as usize >> 3 == x / 8) by (bit_vector);
    assert(y as usize * ROW_BYTES + (x as usize >> 3) == byte_index(x as int, y as int));
    let idx: usize = y as usize * ROW_BYTES + (x as usize >> 3);
    let mask: u8 = 0x80u8 >> (x & 7);
    if black {
        fb[idx] = fb[idx] & !mask;
    } else {
        fb[idx] = fb[idx] | mask;
    }
    assert(final(fb)@ =~= with_pixel(old(fb)@, x as int, y as int, black));
}


/// `fb` after painting each `(x, y, black)` of `pixels` in order; pixels with a negative
/// coordinate are skipped, those beyond the panel leave it unchanged.
pub open spec fn with_pixels(fb: Seq<u8>, pixels: Seq<(i32, i32, bool)>) -> Seq<u8>
    decreases pixels.len(),
{
    if pixels.len() == 0 {
        fb
    } else {
        let before = with_pixels(fb, pixels.drop_last());
        let p = pixels.last();
        if p.0 >= 0 && p.1 >= 0 {
            with_pixel(before, p.0 as int, p.1 as int, p.2)
        } else {
            before
        }
    }
}

/// Fills the whole framebuffer with white.
pub fn fill_white(fb: &mut [u8; FB_SIZE])
    ensures
        final(fb)@ == all_white(),
{
    let mut i: usize = 0;
    while i < FB_SIZE
        invariant
            i <= FB_SIZE,
            fb@.len() == FB_SIZE,
            forall|j: int| 0 <= j < i ==> fb@[j] == 0xFFu8,
        decreases FB_SIZE - i,
    {
        fb[i] = 0xFF;
        i = i + 1;
    }
    assert(fb@ =~= all_white());
}

/// Paints each pixel of `pixels` in order, skipping those with a negative coordinate.
pub fn draw_pixels(fb: &mut [u8; FB_SIZE], pixels: &Vec<(i32, i32, bool)>)
    ensures
        final(fb)@ == with_pixels(old(fb)@, pixels@),
{
    let mut i: usize = 0;
    while i < pixels.len()
        invariant
            i <= pixels.len(),
            fb@ == with_pixels(old(fb)@, pixels@.take(i as int)),
        decreases pixels.len() - i,
    {
        let (x, y, black) = pixels[i];
        assert(pixels@.take(i + 1).drop_last() =~= pixels@.take(i as int));
        if x >= 0 && y >= 0 {
            set_pixel(fb, x as u32, y as u32, black);
        }
        i = i + 1;
    }
    assert(pixels@.take(pixels.len() as int) =~= pixels@);
}

proof fn lemma_clear_bit(b: u8, k: u8)
    requires
        k < 8,
    ensures
        (b & !(0x80u8 >> k)) & (0x80u8 >> k) == 0,
        (b | (0x80u8 >> k)) & (0x80u8 >> k) != 0,
        0xFFu8 & (0x80u8 >> k) != 0,
{
    assert((b & !(0x80u8 >> k)) & (0x80u8 >> k) == 0) by (bit_vector);
    assert((b | (0x80u8 >> k)) & (0x80u8 >> k) != 0) by (bit_vector)
        requires
            k < 8,
    ;
    assert(0xFFu8 & (0x80u8 >> k) != 0) by (bit_vector)
        requires
            k < 8,
    ;
}

proof fn lemma_other_bit(b: u8, k1: u8, k2: u8)
    requires
        k1 < 8,
        k2 < 8,
        k1 != k2,
    ensures
        (b & !(0x80u8 >> k1)) & (0x80u8 >> k2) == b & (0x80u8 >> k2),
        (b | (0x80u8 >> k1)) & (0x80u8 >> k2) == b & (0x80u8 >> k2),
{
    assert((b & !(0x80u8 >> k1)) & (0x80u8 >> k2) == b & (0x80u8 >> k2)) by (bit_vector)
        requires
            k1 < 8,
            k2 < 8,
            k1 != k2,
    ;
    assert((b | (0x80u8 >> k1)) & (0x80u8 >> k2) == b & (0x80u8 >> k2)) by (bit_vector)
        requires
            k1 < 8,
            k2 < 8,
            k1 != k2,
    ;
}

proof fn lemma_byte_index_injective(x1: int, y1: int, x2: int, y2: int)
    requires
        on_panel(x1, y1),
        on_panel(x2, y2),
        byte_index(x1, y1) == byte_index(x2, y2),
    ensures
        y1 == y2,
        x1 / 8 == x2 / 8,
{
    let a1 = x1 / 8;
    let a2 = x2 / 8;
    assert(0 <= a1 < 50 && 0 <= a2 < 50);
    assert(y1 == y2) by (nonlinear_arith)
        requires
            y1 * 50 + a1 == y2 * 50 + a2,
            0 <= a1 < 50,
            0 <= a2 < 50,
    ;
}

/// Reading a pixel back gives what was last painted there.
pub proof fn lemma_read_after_paint(fb: Seq<u8>, x: int, y: int, black: bool)
    requires
        fb.len() == FB_SIZE,
        on_panel(x, y),
    ensures
        is_black(with_pixel(fb, x, y, black), x, y) == black,
        with_pixel(fb, x, y, black).len() == FB_SIZE,
{
    lemma_byte_index_bounds(x, y);
    lemma_clear_bit(fb[byte_index(x, y)], (x % 8) as u8);
}

/// Painting one pixel leaves every other pixel as it was.
pub proof fn lemma_paint_keeps_others(fb: Seq<u8>, x: int, y: int, black: bool, x2: int, y2: int)
    requires
        fb.len() == FB_SIZE,
        on_panel(x2, y2),
        x != x2 || y != y2,
    ensures
        is_black(with_pixel(fb, x, y, black), x2, y2) == is_black(fb, x2, y2),
{
    lemma_byte_index_bounds(x2, y2);
    if on_panel(x, y) {
        lemma_byte_index_bounds(x, y);
        if byte_index(x, y) == byte_index(x2, y2) {
            lemma_byte_index_injective(x, y, x2, y2);
            assert(x % 8 != x2 % 8);
            lemma_other_bit(fb[byte_index(x, y)], (x % 8) as u8, (x2 % 8) as u8);
        }
    }
}

/// A framebuffer filled with white shows no black pixel.
pub proof fn lemma_white_has_no_black(x: int, y: int)
    requires
        on_panel(x, y),
    ensures
        !is_black(all_white(), x, y),
{
    lemma_byte_index_bounds(x, y);
    lemma_clear_bit(0xFFu8, (x % 8) as u8);
}

/// The framebuffer layout: pixel `(x, y)` is held by byte `50 * y + x / 8`, in its bit
/// `7 - x % 8` (the leftmost pixel in the most significant bit), and it is black exactly
/// when that bit is clear.
pub proof fn lemma_pixel_layout(fb: Seq<u8>, x: int, y: int)
    requires
        fb.len() == FB_SIZE,
        on_panel(x, y),
    ensures
        0 <= 50 * y + x / 8 < FB_SIZE,
        is_black(fb, x, y) == ((fb[50 * y + x / 8] >> ((7 - x % 8) as u8)) % 2 == 0),
{
    lemma_byte_index_bounds(x, y);
    let b = fb[byte_index(x, y)];
    let k = (x % 8) as u8;
    let j = (7 - x % 8) as u8;
    assert(j + k == 7);
    assert((b & (0x80u8 >> k) == 0) == ((b >> j) % 2 == 0)) by (bit_vector)
        requires
            k < 8,
            j + k == 7,
    ;
}

} // verus!
