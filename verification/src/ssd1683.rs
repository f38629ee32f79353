//! SSD1683 controller (Waveshare 4.2" e-Paper V2 Rev 2.2, GDEY042T81).
//!
//! The controller has two RAM buffers, "current" (0x24) and "previous" (0x26); a
//! partial refresh drives only the pixels that differ between them. It uses the
//! waveforms stored in its OTP, so no lookup tables are sent.
use vstd::prelude::*;
use crate::bus::{
    framed, initialized_after, lemma_cmd_framed, lemma_cmd_with_framed, lemma_cmd_with_no_marker,
    lemma_ends_with_marker, lemma_framed_concat, lemma_initialized_concat, lemma_no_marker_concat,
    lemma_no_marker_keeps, lemma_quiet_framed, lemma_marker_prefix, lemma_no_marker_prefix, lemma_stream_framed, lemma_stream_no_marker, no_marker,
    quiet, data_ops, fb_row, rows_ops, BusyLabel, Op, OpV, cmd_ops, bytes1, bytes2, bytes4, cmd_with_ops, plan_view, cmd, cmd_with, push_op,
    push_stream, stream_ops, mentions, first_write_at, last_sent_with, lemma_mentions_concat,
    lemma_cmd_silent, lemma_quiet_silent, lemma_stream_silent, lemma_first_write, lemma_last_sent,
    lemma_one_byte_seq_ne,
};
use crate::framebuffer::{
    FB_SIZE, HEIGHT, WIDTH, all_white, draw_pixels, fill_white, set_pixel, with_pixel, with_pixels,
};

verus! {

/// Software reset.
pub const CMD_SW_RESET: u8 = 0x12;
/// Data entry mode (address counter direction).
pub const CMD_DATA_ENTRY_MODE: u8 = 0x11;
/// RAM x window, in bytes.
pub const CMD_SET_RAM_X_ADDR: u8 = 0x44;
/// RAM y window, in rows.
pub const CMD_SET_RAM_Y_ADDR: u8 = 0x45;
/// RAM x address counter.
pub const CMD_SET_RAM_X_COUNT: u8 = 0x4E;
/// RAM y address counter.
pub const CMD_SET_RAM_Y_COUNT: u8 = 0x4F;
/// Write the "current" (new) black/white RAM.
pub const CMD_WRITE_RAM_BW: u8 = 0x24;
/// Write the "previous" (old) RAM, the base of a partial refresh.
pub const CMD_WRITE_RAM_RED: u8 = 0x26;
/// Border waveform.
pub const CMD_BORDER_WAVEFORM: u8 = 0x3C;
/// Temperature register override.
pub const CMD_WRITE_TEMP: u8 = 0x1A;
/// Display update control (how the RED RAM takes part).
pub const CMD_DISPLAY_UPDATE_CTRL: u8 = 0x21;
/// Display update sequence selection.
pub const CMD_DISPLAY_UPDATE_SEQ: u8 = 0x22;
/// Run the selected update sequence.
pub const CMD_MASTER_ACTIVATE: u8 = 0x20;
/// Enter deep sleep.
pub const CMD_DEEP_SLEEP: u8 = 0x10;

/// Busy-line poll interval of this controller, in ms.
pub const POLL_MS: u32 = 10;

/// Error of a plan's execution: from the SPI bus or from a control pin.
#[derive(Debug)]
pub enum Error<S, P> {
    Spi(S),
    Pin(P),
}

/// Driver state: the framebuffer and whether the controller has been initialized.
pub struct Ssd1683 {
    fb: [u8; FB_SIZE],
    initialized: bool,
}

/// Waiting for the busy line.
pub open spec fn wait_ops(label: BusyLabel, timeout: u32) -> Seq<OpV> {
    seq![OpV::WaitBusy(label, timeout, POLL_MS)]
}

/// Hardware reset pulse.
pub open spec fn reset_plan() -> Seq<OpV> {
    seq![
        OpV::Rst(true),
        OpV::DelayMs(20),
        OpV::Rst(false),
        OpV::DelayMs(2),
        OpV::Rst(true),
        OpV::DelayMs(20),
    ]
}

/// Setting the RAM window to `w` x `h` pixels at `(x, y)` and the address counters to
/// its start, with x and y increasing.
pub open spec fn ram_area_ops(x: u16, y: u16, w: u16, h: u16) -> Seq<OpV> {
    cmd_with_ops(CMD_DATA_ENTRY_MODE, seq![0x03u8])
        + cmd_with_ops(CMD_SET_RAM_X_ADDR, seq![(x / 8) as u8, ((x + w - 1) / 8) as u8])
        + cmd_with_ops(
        CMD_SET_RAM_Y_ADDR,
        seq![(y % 256) as u8, (y / 256) as u8, ((y + h - 1) % 256) as u8, ((y + h - 1) / 256) as u8],
    ) + cmd_with_ops(CMD_SET_RAM_X_COUNT, seq![(x / 8) as u8]) + cmd_with_ops(
        CMD_SET_RAM_Y_COUNT,
        seq![(y % 256) as u8, (y / 256) as u8],
    )
}

/// The RAM window covering the whole panel.
pub open spec fn full_area_ops() -> Seq<OpV> {
    ram_area_ops(0, 0, 400, 300)
}

/// Controller initialization after a reset; marks the controller initialized.
pub open spec fn init_display_plan() -> Seq<OpV> {
    cmd_ops(CMD_SW_RESET) + wait_ops(BusyLabel::SwReset, 5000) + cmd_with_ops(
        CMD_DISPLAY_UPDATE_CTRL,
        seq![0x40u8, 0x00u8],
    ) + cmd_with_ops(CMD_BORDER_WAVEFORM, seq![0x05u8]) + full_area_ops() + wait_ops(
        BusyLabel::Init,
        5000,
    ) + seq![OpV::SetInitialized(true)]
}

/// [`Ssd1683::init`]: reset, wait, initialize.
pub open spec fn init_plan() -> Seq<OpV> {
    reset_plan() + wait_ops(BusyLabel::Reset, 5000) + init_display_plan()
}

/// Writing the framebuffer into one RAM over the whole panel.
pub open spec fn ram_write_ops(ram: u8, fb: Seq<u8>) -> Seq<OpV> {
    full_area_ops() + stream_ops(ram, fb)
}

/// Writing the framebuffer into the previous RAM and then the current RAM.
pub open spec fn write_full_ops(fb: Seq<u8>) -> Seq<OpV> {
    ram_write_ops(CMD_WRITE_RAM_RED, fb) + ram_write_ops(CMD_WRITE_RAM_BW, fb)
}

/// Writing the framebuffer into the current RAM, then into the previous RAM.
pub open spec fn copy_to_previous_ops(fb: Seq<u8>) -> Seq<OpV> {
    ram_write_ops(CMD_WRITE_RAM_BW, fb) + ram_write_ops(CMD_WRITE_RAM_RED, fb)
}

/// What a refresh does first: initialize the controller unless it already is.
pub open spec fn ensure_init_ops(initialized: bool) -> Seq<OpV> {
    if initialized {
        seq![]
    } else {
        init_display_plan()
    }
}

/// [`Ssd1683::flush`]: full refresh.
pub open spec fn flush_plan(fb: Seq<u8>, initialized: bool) -> Seq<OpV> {
    ensure_init_ops(initialized) + write_full_ops(fb) + cmd_with_ops(
        CMD_DISPLAY_UPDATE_CTRL,
        seq![0x40u8, 0x00u8],
    ) + cmd_with_ops(CMD_DISPLAY_UPDATE_SEQ, seq![0xF7u8]) + cmd_ops(CMD_MASTER_ACTIVATE) + wait_ops(
        BusyLabel::Refresh,
        30000,
    )
}

/// [`Ssd1683::flush_fast`]: full refresh with the temperature override.
pub open spec fn flush_fast_plan(fb: Seq<u8>, initialized: bool) -> Seq<OpV> {
    ensure_init_ops(initialized) + write_full_ops(fb) + cmd_with_ops(
        CMD_DISPLAY_UPDATE_CTRL,
        seq![0x40u8, 0x00u8],
    ) + cmd_with_ops(CMD_WRITE_TEMP, seq![0x6Eu8]) + cmd_with_ops(CMD_DISPLAY_UPDATE_SEQ, seq![0xD7u8])
        + cmd_ops(CMD_MASTER_ACTIVATE) + wait_ops(BusyLabel::Refresh, 30000)
}

/// [`Ssd1683::flush_partial`]: differential refresh against the previous RAM, which
/// then receives the new image.
pub open spec fn flush_partial_plan(fb: Seq<u8>, initialized: bool) -> Seq<OpV> {
    ensure_init_ops(initialized) + ram_write_ops(CMD_WRITE_RAM_BW, fb) + cmd_with_ops(
        CMD_BORDER_WAVEFORM,
        seq![0x80u8],
    ) + cmd_with_ops(CMD_DISPLAY_UPDATE_CTRL, seq![0x00u8, 0x00u8]) + cmd_with_ops(
        CMD_DISPLAY_UPDATE_SEQ,
        seq![0xFCu8],
    ) + cmd_ops(CMD_MASTER_ACTIVATE) + wait_ops(BusyLabel::Refresh, 30000) + copy_to_previous_ops(fb)
}

/// [`Ssd1683::sleep`]: deep sleep; the controller then needs a reset.
pub open spec fn sleep_plan() -> Seq<OpV> {
    cmd_with_ops(CMD_DEEP_SLEEP, seq![0x01u8]) + seq![OpV::SetInitialized(false)]
}

fn wait_busy(ops: &mut Vec<Op>, label: BusyLabel, timeout: u32)
    ensures
        plan_view(final(ops)@) == plan_view(old(ops)@) + wait_ops(label, timeout),
{
    push_op(ops, Op::WaitBusy(label, timeout, POLL_MS));
    assert(plan_view(old(ops)@).push(OpV::WaitBusy(label, timeout, POLL_MS)) =~= plan_view(old(ops)@)
        + wait_ops(label, timeout));
}

fn reset(ops: &mut Vec<Op>)
    ensures
        plan_view(final(ops)@) == plan_view(old(ops)@) + reset_plan(),
{
    push_op(ops, Op::Rst(true));
    push_op(ops, Op::DelayMs(20));
    push_op(ops, Op::Rst(false));
    push_op(ops, Op::DelayMs(2));
    push_op(ops, Op::Rst(true));
    push_op(ops, Op::DelayMs(20));
    assert(plan_view(ops@) =~= plan_view(old(ops)@) + reset_plan());
}

/// Sets the RAM window and counters.
fn set_ram_area(ops: &mut Vec<Op>, x: u16, y: u16, w: u16, h: u16)
    requires
        w >= 1,
        h >= 1,
        x + w <= u16::MAX,
        y + h <= u16::MAX,
    ensures
        plan_view(final(ops)@) == plan_view(old(ops)@) + ram_area_ops(x, y, w, h),
{
    cmd_with(ops, CMD_DATA_ENTRY_MODE, bytes1(0x03));
    let x_end: u16 = x + w - 1;
    let y_end: u16 = y + h - 1;
    cmd_with(
        ops,
        CMD_SET_RAM_X_ADDR,
        bytes2(#[verifier::truncate] ((x / 8) as u8), #[verifier::truncate] ((x_end / 8) as u8)),
    );
    cmd_with(
        ops,
        CMD_SET_RAM_Y_ADDR,
        bytes4(#[verifier::truncate] ((y % 256) as u8), #[verifier::truncate] ((y / 256) as u8), #[verifier::truncate] ((y_end % 256) as u8), #[verifier::truncate] ((y_end / 256) as u8)),
    );
    cmd_with(ops, CMD_SET_RAM_X_COUNT, bytes1(#[verifier::truncate] ((x / 8) as u8)));
    cmd_with(
        ops,
        CMD_SET_RAM_Y_COUNT,
        bytes2(#[verifier::truncate] ((y % 256) as u8), #[verifier::truncate] ((y / 256) as u8)),
    );
    assert(plan_view(ops@) =~= plan_view(old(ops)@) + ram_area_ops(x, y, w, h));
}

fn init_display(ops: &mut Vec<Op>)
    ensures
        plan_view(final(ops)@) == plan_view(old(ops)@) + init_display_plan(),
{
    cmd(ops, CMD_SW_RESET);
    wait_busy(ops, BusyLabel::SwReset, 5000);
    cmd_with(ops, CMD_DISPLAY_UPDATE_CTRL, bytes2(0x40, 0x00));
    cmd_with(ops, CMD_BORDER_WAVEFORM, bytes1(0x05));
    set_ram_area(ops, 0, 0, WIDTH as u16, HEIGHT as u16);
    wait_busy(ops, BusyLabel::Init, 5000);
    push_op(ops, Op::SetInitialized(true));
    assert(plan_view(ops@) =~= plan_view(old(ops)@) + init_display_plan());
}

fn write_ram(ops: &mut Vec<Op>, ram: u8, fb: &[u8; FB_SIZE])
    ensures
        plan_view(final(ops)@) == plan_view(old(ops)@) + ram_write_ops(ram, fb@),
{
    set_ram_area(ops, 0, 0, WIDTH as u16, HEIGHT as u16);
    push_stream(ops, ram, fb);
    assert(plan_view(ops@) =~= plan_view(old(ops)@) + ram_write_ops(ram, fb@));
}

/// Writes the framebuffer to the previous and the current RAM, as a full refresh needs.
fn write_framebuffer_full(ops: &mut Vec<Op>, fb: &[u8; FB_SIZE])
    ensures
        plan_view(final(ops)@) == plan_view(old(ops)@) + write_full_ops(fb@),
{
    write_ram(ops, CMD_WRITE_RAM_RED, fb);
    write_ram(ops, CMD_WRITE_RAM_BW, fb);
    assert(plan_view(ops@) =~= plan_view(old(ops)@) + write_full_ops(fb@));
}

/// Writes the framebuffer to the current RAM only, for a partial refresh.
fn write_framebuffer_current(ops: &mut Vec<Op>, fb: &[u8; FB_SIZE])
    ensures
        plan_view(final(ops)@) == plan_view(old(ops)@) + ram_write_ops(CMD_WRITE_RAM_BW, fb@),
{
    write_ram(ops, CMD_WRITE_RAM_BW, fb);
}

/// Writes the framebuffer to the current RAM and then the previous RAM, so that the
/// next partial refresh diffs against what is now shown.
fn copy_current_to_previous(ops: &mut Vec<Op>, fb: &[u8; FB_SIZE])
    ensures
        plan_view(final(ops)@) == plan_view(old(ops)@) + copy_to_previous_ops(fb@),
{
    write_ram(ops, CMD_WRITE_RAM_BW, fb);
    write_ram(ops, CMD_WRITE_RAM_RED, fb);
    assert(plan_view(ops@) =~= plan_view(old(ops)@) + copy_to_previous_ops(fb@));
}

impl Ssd1683 {
    /// The framebuffer contents.
    pub closed spec fn frame(&self) -> Seq<u8> {
        self.fb@
    }

    /// Whether the controller is known to be initialized.
    pub closed spec fn is_initialized(&self) -> bool {
        self.initialized
    }

    /// A driver over the given framebuffer; the controller is not initialized yet.
    pub fn new(fb: [u8; FB_SIZE]) -> (r: Self)
        ensures
            r.frame() == fb@,
            !r.is_initialized(),
    {
        Ssd1683 { fb, initialized: false }
    }

    /// Hardware reset followed by initialization.
    pub fn init(&self) -> (plan: Vec<Op>)
        ensures
            plan_view(plan@) == init_plan(),
    {
        let mut ops: Vec<Op> = Vec::new();
        reset(&mut ops);
        wait_busy(&mut ops, BusyLabel::Reset, 5000);
        init_display(&mut ops);
        assert(plan_view(ops@) =~= init_plan());
        ops
    }

    /// Paints the whole framebuffer white.
    pub fn clear_white(&mut self)
        ensures
            final(self).frame() == all_white(),
            final(self).is_initialized() == old(self).is_initialized(),
    {
        fill_white(&mut self.fb);
    }

    /// The framebuffer, for reading.
    pub fn framebuffer(&self) -> (r: &[u8; FB_SIZE])
        ensures
            r@ == self.frame(),
    {
        &self.fb
    }

    /// The framebuffer, for writing.
    pub fn framebuffer_mut(&mut self) -> (r: &mut [u8; FB_SIZE])
        ensures
            r@ == old(self).frame(),
            final(self).frame() == final(r)@,
            final(self).is_initialized() == old(self).is_initialized(),
    {
        &mut self.fb
    }

    /// Records that `op`, a step of one of this driver's plans, has been carried out.
    pub fn note_done(&mut self, op: &Op)
        ensures
            final(self).frame() == old(self).frame(),
            final(self).is_initialized() == (match op@ {
                OpV::SetInitialized(b) => b,
                _ => old(self).is_initialized(),
            }),
    {
        if let Op::SetInitialized(b) = op {
            self.initialized = *b;
        }
    }

    /// Full refresh: clean, no ghosting.
    pub fn flush(&self) -> (plan: Vec<Op>)
        ensures
            plan_view(plan@) == flush_plan(self.frame(), self.is_initialized()),
    {
        let mut ops: Vec<Op> = Vec::new();
        if !self.initialized {
            init_display(&mut ops);
        }
        let ghost pre = plan_view(ops@);
        assert(pre =~= ensure_init_ops(self.initialized));
        write_framebuffer_full(&mut ops, &self.fb);
        cmd_with(&mut ops, CMD_DISPLAY_UPDATE_CTRL, bytes2(0x40, 0x00));
        cmd_with(&mut ops, CMD_DISPLAY_UPDATE_SEQ, bytes1(0xF7));
        cmd(&mut ops, CMD_MASTER_ACTIVATE);
        wait_busy(&mut ops, BusyLabel::Refresh, 30000);
        assert(plan_view(ops@) =~= flush_plan(self.fb@, self.initialized));
        ops
    }

    /// Fast full refresh, with the temperature override.
    pub fn flush_fast(&self) -> (plan: Vec<Op>)
        ensures
            plan_view(plan@) == flush_fast_plan(self.frame(), self.is_initialized()),
    {
        let mut ops: Vec<Op> = Vec::new();
        if !self.initialized {
            init_display(&mut ops);
        }
        let ghost pre = plan_view(ops@);
        assert(pre =~= ensure_init_ops(self.initialized));
        write_framebuffer_full(&mut ops, &self.fb);
        cmd_with(&mut ops, CMD_DISPLAY_UPDATE_CTRL, bytes2(0x40, 0x00));
        cmd_with(&mut ops, CMD_WRITE_TEMP, bytes1(0x6E));
        cmd_with(&mut ops, CMD_DISPLAY_UPDATE_SEQ, bytes1(0xD7));
        cmd(&mut ops, CMD_MASTER_ACTIVATE);
        wait_busy(&mut ops, BusyLabel::Refresh, 30000);
        assert(plan_view(ops@) =~= flush_fast_plan(self.fb@, self.initialized));
        ops
    }

    /// Partial refresh: only changed pixels are driven; may ghost over time.
    pub fn flush_partial(&self) -> (plan: Vec<Op>)
        ensures
            plan_view(plan@) == flush_partial_plan(self.frame(), self.is_initialized()),
    {
        let mut ops: Vec<Op> = Vec::new();
        if !self.initialized {
            init_display(&mut ops);
        }
        let ghost pre = plan_view(ops@);
        assert(pre =~= ensure_init_ops(self.initialized));
        write_framebuffer_current(&mut ops, &self.fb);
        cmd_with(&mut ops, CMD_BORDER_WAVEFORM, bytes1(0x80));
        cmd_with(&mut ops, CMD_DISPLAY_UPDATE_CTRL, bytes2(0x00, 0x00));
        cmd_with(&mut ops, CMD_DISPLAY_UPDATE_SEQ, bytes1(0xFC));
        cmd(&mut ops, CMD_MASTER_ACTIVATE);
        wait_busy(&mut ops, BusyLabel::Refresh, 30000);
        copy_current_to_previous(&mut ops, &self.fb);
        assert(plan_view(ops@) =~= flush_partial_plan(self.fb@, self.initialized));
        ops
    }

    /// Deep sleep; waking needs a hardware reset.
    pub fn sleep(&self) -> (plan: Vec<Op>)
        ensures
            plan_view(plan@) == sleep_plan(),
    {
        let mut ops: Vec<Op> = Vec::new();
        cmd_with(&mut ops, CMD_DEEP_SLEEP, bytes1(0x01));
        push_op(&mut ops, Op::SetInitialized(false));
        assert(plan_view(ops@) =~= sleep_plan());
        ops
    }

    /// Paints pixel `(x, y)`; off-panel pixels are ignored.
    pub fn set_pixel(&mut self, x: u32, y: u32, black: bool)
        ensures
            final(self).frame() == with_pixel(old(self).frame(), x as int, y as int, black),
            final(self).is_initialized() == old(self).is_initialized(),
    {
        set_pixel(&mut self.fb, x, y, black);
    }

    /// Paints `(x, y, black)` pixels in order, skipping negative coordinates.
    pub fn draw_iter(&mut self, pixels: &Vec<(i32, i32, bool)>)
        ensures
            final(self).frame() == with_pixels(old(self).frame(), pixels@),
            final(self).is_initialized() == old(self).is_initialized(),
    {
        draw_pixels(&mut self.fb, pixels);
    }
}


proof fn lemma_wait(label: BusyLabel, timeout: u32)
    ensures
        framed(wait_ops(label, timeout)),
        no_marker(wait_ops(label, timeout)),
{
    lemma_quiet_framed(wait_ops(label, timeout));
}

proof fn lemma_ram_area(x: u16, y: u16, w: u16, h: u16)
    ensures
        framed(ram_area_ops(x, y, w, h)),
        no_marker(ram_area_ops(x, y, w, h)),
{
    let a = cmd_with_ops(CMD_DATA_ENTRY_MODE, seq![0x03u8]);
    let b = cmd_with_ops(CMD_SET_RAM_X_ADDR, seq![(x / 8) as u8, ((x + w - 1) / 8) as u8]);
    let c = cmd_with_ops(
        CMD_SET_RAM_Y_ADDR,
        seq![(y % 256) as u8, (y / 256) as u8, ((y + h - 1) % 256) as u8, ((y + h - 1) / 256) as u8],
    );
    let d = cmd_with_ops(CMD_SET_RAM_X_COUNT, seq![(x / 8) as u8]);
    let e = cmd_with_ops(CMD_SET_RAM_Y_COUNT, seq![(y % 256) as u8, (y / 256) as u8]);
    lemma_cmd_with_framed(CMD_DATA_ENTRY_MODE, seq![0x03u8]);
    lemma_cmd_with_framed(CMD_SET_RAM_X_ADDR, seq![(x / 8) as u8, ((x + w - 1) / 8) as u8]);
    lemma_cmd_with_framed(
        CMD_SET_RAM_Y_ADDR,
        seq![(y % 256) as u8, (y / 256) as u8, ((y + h - 1) % 256) as u8, ((y + h - 1) / 256) as u8],
    );
    lemma_cmd_with_framed(CMD_SET_RAM_X_COUNT, seq![(x / 8) as u8]);
    lemma_cmd_with_framed(CMD_SET_RAM_Y_COUNT, seq![(y % 256) as u8, (y / 256) as u8]);
    lemma_cmd_with_no_marker(CMD_DATA_ENTRY_MODE, seq![0x03u8]);
    lemma_cmd_with_no_marker(CMD_SET_RAM_X_ADDR, seq![(x / 8) as u8, ((x + w - 1) / 8) as u8]);
    lemma_cmd_with_no_marker(
        CMD_SET_RAM_Y_ADDR,
        seq![(y % 256) as u8, (y / 256) as u8, ((y + h - 1) % 256) as u8, ((y + h - 1) / 256) as u8],
    );
    lemma_cmd_with_no_marker(CMD_SET_RAM_X_COUNT, seq![(x / 8) as u8]);
    lemma_cmd_with_no_marker(CMD_SET_RAM_Y_COUNT, seq![(y % 256) as u8, (y / 256) as u8]);
    lemma_framed_concat(a, b);
    lemma_framed_concat(a + b, c);
    lemma_framed_concat(a + b + c, d);
    lemma_framed_concat(a + b + c + d, e);
    lemma_no_marker_concat(a, b);
    lemma_no_marker_concat(a + b, c);
    lemma_no_marker_concat(a + b + c, d);
    lemma_no_marker_concat(a + b + c + d, e);
}

proof fn lemma_init_display()
    ensures
        framed(init_display_plan()),
        forall|s: bool| #[trigger] initialized_after(init_display_plan(), s),
{
    let a = cmd_ops(CMD_SW_RESET);
    let b = wait_ops(BusyLabel::SwReset, 5000);
    let c = cmd_with_ops(CMD_DISPLAY_UPDATE_CTRL, seq![0x40u8, 0x00u8]);
    let d = cmd_with_ops(CMD_BORDER_WAVEFORM, seq![0x05u8]);
    let e = full_area_ops();
    let f = wait_ops(BusyLabel::Init, 5000);
    let g = seq![OpV::SetInitialized(true)];
    lemma_cmd_framed(CMD_SW_RESET);
    lemma_wait(BusyLabel::SwReset, 5000);
    lemma_cmd_with_framed(CMD_DISPLAY_UPDATE_CTRL, seq![0x40u8, 0x00u8]);
    lemma_cmd_with_framed(CMD_BORDER_WAVEFORM, seq![0x05u8]);
    lemma_ram_area(0, 0, 400, 300);
    lemma_wait(BusyLabel::Init, 5000);
    lemma_quiet_framed(g);
    lemma_framed_concat(a, b);
    lemma_framed_concat(a + b, c);
    lemma_framed_concat(a + b + c, d);
    lemma_framed_concat(a + b + c + d, e);
    lemma_framed_concat(a + b + c + d + e, f);
    lemma_framed_concat(a + b + c + d + e + f, g);
    assert forall|s: bool| #[trigger] initialized_after(init_display_plan(), s) by {
        lemma_ends_with_marker(a + b + c + d + e + f, true, s);
    }
}

proof fn lemma_ram_write(ram: u8, fb: Seq<u8>)
    ensures
        framed(ram_write_ops(ram, fb)),
        no_marker(ram_write_ops(ram, fb)),
{
    lemma_ram_area(0, 0, 400, 300);
    lemma_stream_framed(ram, fb);
    lemma_stream_no_marker(ram, fb);
    lemma_framed_concat(full_area_ops(), stream_ops(ram, fb));
    lemma_no_marker_concat(full_area_ops(), stream_ops(ram, fb));
}

proof fn lemma_cmd_block(c: u8, d: Seq<u8>)
    ensures
        framed(cmd_ops(c)),
        no_marker(cmd_ops(c)),
        framed(cmd_with_ops(c, d)),
        no_marker(cmd_with_ops(c, d)),
{
    lemma_cmd_framed(c);
    lemma_cmd_with_framed(c, d);
    lemma_cmd_with_no_marker(c, d);
}

/// The refresh plans, minus the initialization they may start with, are framed and
/// leave the flag alone.
proof fn lemma_refresh_bodies(fb: Seq<u8>)
    ensures
        framed(write_full_ops(fb) + cmd_with_ops(CMD_DISPLAY_UPDATE_CTRL, seq![0x40u8, 0x00u8])
            + cmd_with_ops(CMD_DISPLAY_UPDATE_SEQ, seq![0xF7u8]) + cmd_ops(CMD_MASTER_ACTIVATE)
            + wait_ops(BusyLabel::Refresh, 30000)),
        no_marker(write_full_ops(fb) + cmd_with_ops(CMD_DISPLAY_UPDATE_CTRL, seq![0x40u8, 0x00u8])
            + cmd_with_ops(CMD_DISPLAY_UPDATE_SEQ, seq![0xF7u8]) + cmd_ops(CMD_MASTER_ACTIVATE)
            + wait_ops(BusyLabel::Refresh, 30000)),
        framed(write_full_ops(fb) + cmd_with_ops(CMD_DISPLAY_UPDATE_CTRL, seq![0x40u8, 0x00u8])
            + cmd_with_ops(CMD_WRITE_TEMP, seq![0x6Eu8]) + cmd_with_ops(CMD_DISPLAY_UPDATE_SEQ, seq![0xD7u8])
            + cmd_ops(CMD_MASTER_ACTIVATE) + wait_ops(BusyLabel::Refresh, 30000)),
        no_marker(write_full_ops(fb) + cmd_with_ops(CMD_DISPLAY_UPDATE_CTRL, seq![0x40u8, 0x00u8])
            + cmd_with_ops(CMD_WRITE_TEMP, seq![0x6Eu8]) + cmd_with_ops(CMD_DISPLAY_UPDATE_SEQ, seq![0xD7u8])
            + cmd_ops(CMD_MASTER_ACTIVATE) + wait_ops(BusyLabel::Refresh, 30000)),
        framed(ram_write_ops(CMD_WRITE_RAM_BW, fb) + cmd_with_ops(CMD_BORDER_WAVEFORM, seq![0x80u8])
            + cmd_with_ops(CMD_DISPLAY_UPDATE_CTRL, seq![0x00u8, 0x00u8]) + cmd_with_ops(
            CMD_DISPLAY_UPDATE_SEQ,
            seq![0xFCu8],
        ) + cmd_ops(CMD_MASTER_ACTIVATE) + wait_ops(BusyLabel::Refresh, 30000) + copy_to_previous_ops(fb)),
        no_marker(ram_write_ops(CMD_WRITE_RAM_BW, fb) + cmd_with_ops(CMD_BORDER_WAVEFORM, seq![0x80u8])
            + cmd_with_ops(CMD_DISPLAY_UPDATE_CTRL, seq![0x00u8, 0x00u8]) + cmd_with_ops(
            CMD_DISPLAY_UPDATE_SEQ,
            seq![0xFCu8],
        ) + cmd_ops(CMD_MASTER_ACTIVATE) + wait_ops(BusyLabel::Refresh, 30000) + copy_to_previous_ops(fb)),
{
    lemma_ram_write(CMD_WRITE_RAM_RED, fb);
    lemma_ram_write(CMD_WRITE_RAM_BW, fb);
    let red = ram_write_ops(CMD_WRITE_RAM_RED, fb);
    let bw = ram_write_ops(CMD_WRITE_RAM_BW, fb);
    lemma_framed_concat(red, bw);
    lemma_no_marker_concat(red, bw);
    lemma_framed_concat(bw, red);
    lemma_no_marker_concat(bw, red);
    let ctrl = cmd_with_ops(CMD_DISPLAY_UPDATE_CTRL, seq![0x40u8, 0x00u8]);
    let ctrl0 = cmd_with_ops(CMD_DISPLAY_UPDATE_CTRL, seq![0x00u8, 0x00u8]);
    let seq_f7 = cmd_with_ops(CMD_DISPLAY_UPDATE_SEQ, seq![0xF7u8]);
    let seq_d7 = cmd_with_ops(CMD_DISPLAY_UPDATE_SEQ, seq![0xD7u8]);
    let seq_fc = cmd_with_ops(CMD_DISPLAY_UPDATE_SEQ, seq![0xFCu8]);
    let temp = cmd_with_ops(CMD_WRITE_TEMP, seq![0x6Eu8]);
    let border = cmd_with_ops(CMD_BORDER_WAVEFORM, seq![0x80u8]);
    let act = cmd_ops(CMD_MASTER_ACTIVATE);
    let w = wait_ops(BusyLabel::Refresh, 30000);
    lemma_cmd_block(CMD_DISPLAY_UPDATE_CTRL, seq![0x40u8, 0x00u8]);
    lemma_cmd_block(CMD_DISPLAY_UPDATE_CTRL, seq![0x00u8, 0x00u8]);
    lemma_cmd_block(CMD_DISPLAY_UPDATE_SEQ, seq![0xF7u8]);
    lemma_cmd_block(CMD_DISPLAY_UPDATE_SEQ, seq![0xD7u8]);
    lemma_cmd_block(CMD_DISPLAY_UPDATE_SEQ, seq![0xFCu8]);
    lemma_cmd_block(CMD_WRITE_TEMP, seq![0x6Eu8]);
    lemma_cmd_block(CMD_BORDER_WAVEFORM, seq![0x80u8]);
    lemma_cmd_block(CMD_MASTER_ACTIVATE, seq![]);
    lemma_wait(BusyLabel::Refresh, 30000);
    let full = red + bw;
    lemma_framed_concat(full, ctrl);
    lemma_no_marker_concat(full, ctrl);
    lemma_framed_concat(full + ctrl, seq_f7);
    lemma_no_marker_concat(full + ctrl, seq_f7);
    lemma_framed_concat(full + ctrl + seq_f7, act);
    lemma_no_marker_concat(full + ctrl + seq_f7, act);
    lemma_framed_concat(full + ctrl + seq_f7 + act, w);
    lemma_no_marker_concat(full + ctrl + seq_f7 + act, w);
    lemma_framed_concat(full + ctrl, temp);
    lemma_no_marker_concat(full + ctrl, temp);
    lemma_framed_concat(full + ctrl + temp, seq_d7);
    lemma_no_marker_concat(full + ctrl + temp, seq_d7);
    lemma_framed_concat(full + ctrl + temp + seq_d7, act);
    lemma_no_marker_concat(full + ctrl + temp + seq_d7, act);
    lemma_framed_concat(full + ctrl + temp + seq_d7 + act, w);
    lemma_no_marker_concat(full + ctrl + temp + seq_d7 + act, w);
    lemma_framed_concat(bw, border);
    lemma_no_marker_concat(bw, border);
    lemma_framed_concat(bw + border, ctrl0);
    lemma_no_marker_concat(bw + border, ctrl0);
    lemma_framed_concat(bw + border + ctrl0, seq_fc);
    lemma_no_marker_concat(bw + border + ctrl0, seq_fc);
    lemma_framed_concat(bw + border + ctrl0 + seq_fc, act);
    lemma_no_marker_concat(bw + border + ctrl0 + seq_fc, act);
    lemma_framed_concat(bw + border + ctrl0 + seq_fc + act, w);
    lemma_no_marker_concat(bw + border + ctrl0 + seq_fc + act, w);
    lemma_framed_concat(bw + border + ctrl0 + seq_fc + act + w, bw + red);
    lemma_no_marker_concat(bw + border + ctrl0 + seq_fc + act + w, bw + red);
}

proof fn lemma_with_ensure_init(initialized: bool, body: Seq<OpV>)
    requires
        framed(body),
        no_marker(body),
    ensures
        framed(ensure_init_ops(initialized) + body),
        initialized_after(ensure_init_ops(initialized) + body, initialized),
{
    lemma_init_display();
    lemma_initialized_concat(ensure_init_ops(initialized), body, initialized);
    lemma_no_marker_keeps(body, initialized_after(ensure_init_ops(initialized), initialized));
    if initialized {
        assert(ensure_init_ops(initialized) + body =~= body);
        lemma_no_marker_keeps(body, true);
    } else {
        lemma_framed_concat(init_display_plan(), body);
        assert(initialized_after(init_display_plan(), initialized));
    }
}

/// Every plan of this driver only transfers while the chip is selected, sends each
/// command as a single byte in command mode, and leaves the chip deselected.
pub proof fn lemma_plans_framed(fb: Seq<u8>, initialized: bool)
    ensures
        framed(init_plan()),
        framed(flush_plan(fb, initialized)),
        framed(flush_fast_plan(fb, initialized)),
        framed(flush_partial_plan(fb, initialized)),
        framed(sleep_plan()),
{
    lemma_plans(fb, initialized, false);
}

/// Once a plan has run to its end the controller counts as initialized, whatever it
/// counted as before, except after `sleep`, when it no longer does.
pub proof fn lemma_plans_initialization(fb: Seq<u8>, initialized: bool, before: bool)
    ensures
        initialized_after(init_plan(), before),
        initialized_after(flush_plan(fb, initialized), initialized),
        initialized_after(flush_fast_plan(fb, initialized), initialized),
        initialized_after(flush_partial_plan(fb, initialized), initialized),
        !initialized_after(sleep_plan(), before),
{
    lemma_plans(fb, initialized, before);
}

proof fn lemma_plans(fb: Seq<u8>, initialized: bool, before: bool)
    ensures
        initialized_after(init_plan(), before),
        initialized_after(flush_plan(fb, initialized), initialized),
        initialized_after(flush_fast_plan(fb, initialized), initialized),
        initialized_after(flush_partial_plan(fb, initialized), initialized),
        !initialized_after(sleep_plan(), before),
        framed(init_plan()),
        framed(flush_plan(fb, initialized)),
        framed(flush_fast_plan(fb, initialized)),
        framed(flush_partial_plan(fb, initialized)),
        framed(sleep_plan()),
{
    lemma_init_display();
    lemma_refresh_bodies(fb);
    let ctrl = cmd_with_ops(CMD_DISPLAY_UPDATE_CTRL, seq![0x40u8, 0x00u8]);
    let w = wait_ops(BusyLabel::Refresh, 30000);
    let act = cmd_ops(CMD_MASTER_ACTIVATE);
    let full = write_full_ops(fb);
    let b1 = full + ctrl + cmd_with_ops(CMD_DISPLAY_UPDATE_SEQ, seq![0xF7u8]) + act + w;
    let b2 = full + ctrl + cmd_with_ops(CMD_WRITE_TEMP, seq![0x6Eu8]) + cmd_with_ops(
        CMD_DISPLAY_UPDATE_SEQ,
        seq![0xD7u8],
    ) + act + w;
    let b3 = ram_write_ops(CMD_WRITE_RAM_BW, fb) + cmd_with_ops(CMD_BORDER_WAVEFORM, seq![0x80u8])
        + cmd_with_ops(CMD_DISPLAY_UPDATE_CTRL, seq![0x00u8, 0x00u8]) + cmd_with_ops(
        CMD_DISPLAY_UPDATE_SEQ,
        seq![0xFCu8],
    ) + act + w + copy_to_previous_ops(fb);
    lemma_with_ensure_init(initialized, b1);
    lemma_with_ensure_init(initialized, b2);
    lemma_with_ensure_init(initialized, b3);
    assert(flush_plan(fb, initialized) =~= ensure_init_ops(initialized) + b1);
    assert(flush_fast_plan(fb, initialized) =~= ensure_init_ops(initialized) + b2);
    assert(flush_partial_plan(fb, initialized) =~= ensure_init_ops(initialized) + b3);
    // init
    let r = reset_plan() + wait_ops(BusyLabel::Reset, 5000);
    assert(quiet(reset_plan() + wait_ops(BusyLabel::Reset, 5000)));
    lemma_quiet_framed(r);
    lemma_framed_concat(r, init_display_plan());
    lemma_initialized_concat(r, init_display_plan(), before);
    // sleep
    lemma_cmd_block(CMD_DEEP_SLEEP, seq![0x01u8]);
    lemma_quiet_framed(seq![OpV::SetInitialized(false)]);
    lemma_framed_concat(cmd_with_ops(CMD_DEEP_SLEEP, seq![0x01u8]), seq![OpV::SetInitialized(false)]);
    lemma_ends_with_marker(cmd_with_ops(CMD_DEEP_SLEEP, seq![0x01u8]), false, before);
}


/// Initialization splits into steps without markers and the final marker.
proof fn lemma_init_display_split()
    ensures
        no_marker(init_display_plan().drop_last()),
        init_display_plan() == init_display_plan().drop_last() + seq![OpV::SetInitialized(true)],
{
    let a = cmd_ops(CMD_SW_RESET);
    let b = wait_ops(BusyLabel::SwReset, 5000);
    let c = cmd_with_ops(CMD_DISPLAY_UPDATE_CTRL, seq![0x40u8, 0x00u8]);
    let d = cmd_with_ops(CMD_BORDER_WAVEFORM, seq![0x05u8]);
    let e = full_area_ops();
    let f = wait_ops(BusyLabel::Init, 5000);
    lemma_cmd_block(CMD_SW_RESET, seq![]);
    lemma_wait(BusyLabel::SwReset, 5000);
    lemma_cmd_block(CMD_DISPLAY_UPDATE_CTRL, seq![0x40u8, 0x00u8]);
    lemma_cmd_block(CMD_BORDER_WAVEFORM, seq![0x05u8]);
    lemma_ram_area(0, 0, 400, 300);
    lemma_wait(BusyLabel::Init, 5000);
    lemma_no_marker_concat(a, b);
    lemma_no_marker_concat(a + b, c);
    lemma_no_marker_concat(a + b + c, d);
    lemma_no_marker_concat(a + b + c + d, e);
    lemma_no_marker_concat(a + b + c + d + e, f);
    assert(init_display_plan().drop_last() =~= a + b + c + d + e + f);
    assert(init_display_plan() =~= init_display_plan().drop_last() + seq![OpV::SetInitialized(true)]);
}

/// A plan that fails part-way, after its first `k` steps, changes the flag only if it got
/// past the step that records it: a refresh of an uninitialized controller leaves it
/// uninitialized unless the whole initialization went through, `init` marks it only
/// at its very end, and an interrupted `sleep` leaves the flag as it was.
pub proof fn lemma_interrupted_plans(fb: Seq<u8>, initialized: bool, before: bool, k: int)
    requires
        0 <= k,
    ensures
        k <= init_plan().len() ==> initialized_after(init_plan().take(k), before) == if k < init_plan().len() {
            before
        } else {
            true
        },
        k <= flush_plan(fb, initialized).len() ==> initialized_after(flush_plan(fb, initialized).take(k), initialized)
            == (initialized || k >= init_display_plan().len()),
        k <= flush_fast_plan(fb, initialized).len() ==> initialized_after(
            flush_fast_plan(fb, initialized).take(k),
            initialized,
        ) == (initialized || k >= init_display_plan().len()),
        k <= flush_partial_plan(fb, initialized).len() ==> initialized_after(
            flush_partial_plan(fb, initialized).take(k),
            initialized,
        ) == (initialized || k >= init_display_plan().len()),
        k <= sleep_plan().len() ==> initialized_after(sleep_plan().take(k), before) == if k < sleep_plan().len() {
            before
        } else {
            false
        },
{
    lemma_init_display_split();
    lemma_refresh_bodies(fb);
    let x = init_display_plan().drop_last();
    let m = seq![OpV::SetInitialized(true)];
    let ctrl = cmd_with_ops(CMD_DISPLAY_UPDATE_CTRL, seq![0x40u8, 0x00u8]);
    let w = wait_ops(BusyLabel::Refresh, 30000);
    let act = cmd_ops(CMD_MASTER_ACTIVATE);
    let full = write_full_ops(fb);
    let b1 = full + ctrl + cmd_with_ops(CMD_DISPLAY_UPDATE_SEQ, seq![0xF7u8]) + act + w;
    let b2 = full + ctrl + cmd_with_ops(CMD_WRITE_TEMP, seq![0x6Eu8]) + cmd_with_ops(
        CMD_DISPLAY_UPDATE_SEQ,
        seq![0xD7u8],
    ) + act + w;
    let b3 = ram_write_ops(CMD_WRITE_RAM_BW, fb) + cmd_with_ops(CMD_BORDER_WAVEFORM, seq![0x80u8])
        + cmd_with_ops(CMD_DISPLAY_UPDATE_CTRL, seq![0x00u8, 0x00u8]) + cmd_with_ops(
        CMD_DISPLAY_UPDATE_SEQ,
        seq![0xFCu8],
    ) + act + w + copy_to_previous_ops(fb);
    assert(flush_plan(fb, initialized) =~= ensure_init_ops(initialized) + b1);
    assert(flush_fast_plan(fb, initialized) =~= ensure_init_ops(initialized) + b2);
    assert(flush_partial_plan(fb, initialized) =~= ensure_init_ops(initialized) + b3);
    if initialized {
        assert(ensure_init_ops(initialized) + b1 =~= b1);
        assert(ensure_init_ops(initialized) + b2 =~= b2);
        assert(ensure_init_ops(initialized) + b3 =~= b3);
        if k <= b1.len() {
            lemma_no_marker_prefix(b1, true, k);
        }
        if k <= b2.len() {
            lemma_no_marker_prefix(b2, true, k);
        }
        if k <= b3.len() {
            lemma_no_marker_prefix(b3, true, k);
        }
    } else {
        assert(ensure_init_ops(initialized) + b1 =~= x + m + b1);
        assert(ensure_init_ops(initialized) + b2 =~= x + m + b2);
        assert(ensure_init_ops(initialized) + b3 =~= x + m + b3);
        if k <= (x + m + b1).len() {
            lemma_marker_prefix(x, true, b1, false, k);
        }
        if k <= (x + m + b2).len() {
            lemma_marker_prefix(x, true, b2, false, k);
        }
        if k <= (x + m + b3).len() {
            lemma_marker_prefix(x, true, b3, false, k);
        }
    }
    // init
    let r = reset_plan() + wait_ops(BusyLabel::Reset, 5000);
    assert(no_marker(r));
    lemma_no_marker_concat(r, x);
    assert(init_plan() =~= (r + x) + m + Seq::<OpV>::empty());
    assert(no_marker(Seq::<OpV>::empty()));
    if k <= init_plan().len() {
        lemma_marker_prefix(r + x, true, Seq::<OpV>::empty(), before, k);
    }
    // sleep
    lemma_cmd_block(CMD_DEEP_SLEEP, seq![0x01u8]);
    let z = cmd_with_ops(CMD_DEEP_SLEEP, seq![0x01u8]);
    assert(sleep_plan() =~= z + seq![OpV::SetInitialized(false)] + Seq::<OpV>::empty());
    if k <= sleep_plan().len() {
        lemma_marker_prefix(z, false, Seq::<OpV>::empty(), before, k);
    }
}

// ---- the two image RAMs ----

/// Which RAM the data bytes of the current command go to.
pub enum RamTarget {
    Neither,
    Current,
    Previous,
}

/// The controller's two image RAMs as plans write them: after a RAM-write command
/// (0x24 current, 0x26 previous) the address counter is at the start of the window,
/// which every plan here sets to the whole panel, and each data byte lands at the
/// counter, which then advances; the bytes of other commands go elsewhere.
pub struct Rams {
    pub data_mode: bool,
    pub target: RamTarget,
    pub pos: nat,
    pub current: Seq<u8>,
    pub previous: Seq<u8>,
}

/// `ram` with `bytes` written from position `pos` on (bytes past its end are dropped).
pub open spec fn write_at(ram: Seq<u8>, pos: nat, bytes: Seq<u8>) -> Seq<u8> {
    Seq::new(ram.len(), |i: int| if pos <= i < pos + bytes.len() { bytes[i - pos] } else { ram[i] })
}

/// One operation's effect on the RAMs.
pub open spec fn ram_step(s: Rams, op: OpV) -> Rams {
    match op {
        OpV::Dc(d) => Rams { data_mode: d, ..s },
        OpV::Write(bytes) => if !s.data_mode {
            if bytes == seq![CMD_WRITE_RAM_BW] {
                Rams { target: RamTarget::Current, pos: 0, ..s }
            } else if bytes == seq![CMD_WRITE_RAM_RED] {
                Rams { target: RamTarget::Previous, pos: 0, ..s }
            } else {
                Rams { target: RamTarget::Neither, ..s }
            }
        } else {
            match s.target {
                RamTarget::Current => Rams {
                    current: write_at(s.current, s.pos, bytes),
                    pos: s.pos + bytes.len(),
                    ..s
                },
                RamTarget::Previous => Rams {
                    previous: write_at(s.previous, s.pos, bytes),
                    pos: s.pos + bytes.len(),
                    ..s
                },
                RamTarget::Neither => s,
            }
        },
        _ => s,
    }
}

/// The RAMs after a plan ran (as far as it got).
pub open spec fn ram_run(ops: Seq<OpV>, s: Rams) -> Rams
    decreases ops.len(),
{
    if ops.len() == 0 {
        s
    } else {
        ram_run(ops.drop_first(), ram_step(s, ops[0]))
    }
}

proof fn lemma_ram_run_concat(a: Seq<OpV>, b: Seq<OpV>, s: Rams)
    ensures
        ram_run(a + b, s) == ram_run(b, ram_run(a, s)),
    decreases a.len(),
{
    if a.len() == 0 {
        assert(a + b =~= b);
    } else {
        assert((a + b)[0] == a[0]);
        assert((a + b).drop_first() =~= a.drop_first() + b);
        lemma_ram_run_concat(a.drop_first(), b, ram_step(s, a[0]));
    }
}

/// Whether running `ops` never changes either RAM.
pub open spec fn ram_neutral(ops: Seq<OpV>) -> bool {
    forall|s: Rams| #![trigger ram_run(ops, s)] ram_run(ops, s).current == s.current
        && ram_run(ops, s).previous == s.previous
}

proof fn lemma_neutral_concat(a: Seq<OpV>, b: Seq<OpV>)
    requires
        ram_neutral(a),
        ram_neutral(b),
    ensures
        ram_neutral(a + b),
{
    assert forall|s: Rams| #![trigger ram_run(a + b, s)] ram_run(a + b, s).current == s.current
        && ram_run(a + b, s).previous == s.previous by {
        lemma_ram_run_concat(a, b, s);
        let t = ram_run(a, s);
        assert(ram_run(b, t).current == t.current);
    }
}

proof fn lemma_run_single(op: OpV, s: Rams)
    ensures
        ram_run(seq![op], s) == ram_step(s, op),
{
    let ops = seq![op];
    assert(ops[0] == op);
    assert(ops.drop_first() =~= Seq::<OpV>::empty());
    assert(ram_run(ops.drop_first(), ram_step(s, op)) == ram_step(s, op));
}

proof fn lemma_run_front(op: OpV, rest: Seq<OpV>, s: Rams)
    ensures
        ram_run(seq![op] + rest, s) == ram_run(rest, ram_step(s, op)),
{
    lemma_ram_run_concat(seq![op], rest, s);
    lemma_run_single(op, s);
}

/// Operations that write nothing leave the RAMs alone.
proof fn lemma_quiet_neutral(ops: Seq<OpV>)
    requires
        forall|i: int| 0 <= i < ops.len() ==> !(#[trigger] ops[i] is Write),
    ensures
        ram_neutral(ops),
    decreases ops.len(),
{
    if ops.len() > 0 {
        assert forall|i: int| 0 <= i < ops.drop_first().len() implies !(
        #[trigger] ops.drop_first()[i] is Write) by {
            assert(ops.drop_first()[i] == ops[i + 1]);
        }
        lemma_quiet_neutral(ops.drop_first());
        assert(!(ops[0] is Write));
        assert forall|s: Rams| #![trigger ram_run(ops, s)] ram_run(ops, s).current == s.current
            && ram_run(ops, s).previous == s.previous by {
            assert(ram_run(ops.drop_first(), ram_step(s, ops[0])).current == ram_step(s, ops[0]).current);
        }
    }
}

/// A command other than the two RAM writes, with its parameters, leaves the RAMs alone.
proof fn lemma_cmd_neutral(c: u8, d: Seq<u8>)
    requires
        c != CMD_WRITE_RAM_BW,
        c != CMD_WRITE_RAM_RED,
    ensures
        ram_neutral(cmd_ops(c)),
        ram_neutral(cmd_with_ops(c, d)),
{
    assert(seq![c] != seq![CMD_WRITE_RAM_BW]) by {
        assert(seq![c][0] != seq![CMD_WRITE_RAM_BW][0]);
    }
    assert(seq![c] != seq![CMD_WRITE_RAM_RED]) by {
        assert(seq![c][0] != seq![CMD_WRITE_RAM_RED][0]);
    }
    let tail = seq![OpV::Flush, OpV::Cs(true)];
    lemma_quiet_neutral(tail);
    assert forall|s: Rams| #![trigger ram_run(cmd_ops(c), s)] ram_run(cmd_ops(c), s).current
        == s.current && ram_run(cmd_ops(c), s).previous == s.previous && ram_run(cmd_ops(c), s).target
        == RamTarget::Neither by {
        assert(cmd_ops(c) =~= seq![OpV::Dc(false)] + (seq![OpV::Cs(false)] + (seq![OpV::Write(seq![c])] + tail)));
        lemma_run_front(OpV::Dc(false), seq![OpV::Cs(false)] + (seq![OpV::Write(seq![c])] + tail), s);
        let s1 = ram_step(s, OpV::Dc(false));
        lemma_run_front(OpV::Cs(false), seq![OpV::Write(seq![c])] + tail, s1);
        lemma_run_front(OpV::Write(seq![c]), tail, s1);
        let s2 = ram_step(s1, OpV::Write(seq![c]));
        assert(tail =~= seq![OpV::Flush] + seq![OpV::Cs(true)]);
        lemma_run_front(OpV::Flush, seq![OpV::Cs(true)], s2);
        lemma_run_single(OpV::Cs(true), s2);
    }
    let dt = seq![OpV::Cs(false), OpV::Write(d), OpV::Flush, OpV::Cs(true)];
    assert forall|s: Rams| #![trigger ram_run(cmd_with_ops(c, d), s)] ram_run(cmd_with_ops(c, d), s).current
        == s.current && ram_run(cmd_with_ops(c, d), s).previous == s.previous by {
        lemma_ram_run_concat(cmd_ops(c), data_ops(d), s);
        let t = ram_run(cmd_ops(c), s);
        assert(t.target == RamTarget::Neither);
        assert(data_ops(d) =~= seq![OpV::Dc(true)] + (seq![OpV::Cs(false)] + (seq![OpV::Write(d)] + tail)));
        lemma_run_front(OpV::Dc(true), seq![OpV::Cs(false)] + (seq![OpV::Write(d)] + tail), t);
        let t1 = ram_step(t, OpV::Dc(true));
        lemma_run_front(OpV::Cs(false), seq![OpV::Write(d)] + tail, t1);
        lemma_run_front(OpV::Write(d), tail, t1);
        assert(ram_step(t1, OpV::Write(d)) == t1);
    }
}


/// Sending a RAM-write command points the data bytes at that RAM, from its start.
proof fn lemma_ram_cmd(c: u8, s: Rams)
    requires
        c == CMD_WRITE_RAM_BW || c == CMD_WRITE_RAM_RED,
    ensures
        ram_run(cmd_ops(c), s) == (Rams {
            data_mode: false,
            target: if c == CMD_WRITE_RAM_BW {
                RamTarget::Current
            } else {
                RamTarget::Previous
            },
            pos: 0,
            ..s
        }),
{
    assert(seq![CMD_WRITE_RAM_BW] != seq![CMD_WRITE_RAM_RED]) by {
        assert(seq![CMD_WRITE_RAM_BW][0] != seq![CMD_WRITE_RAM_RED][0]);
    }
    let tail = seq![OpV::Flush, OpV::Cs(true)];
    assert(cmd_ops(c) =~= seq![OpV::Dc(false)] + (seq![OpV::Cs(false)] + (seq![OpV::Write(seq![c])] + tail)));
    lemma_run_front(OpV::Dc(false), seq![OpV::Cs(false)] + (seq![OpV::Write(seq![c])] + tail), s);
    let s1 = ram_step(s, OpV::Dc(false));
    lemma_run_front(OpV::Cs(false), seq![OpV::Write(seq![c])] + tail, s1);
    lemma_run_front(OpV::Write(seq![c]), tail, s1);
    let s2 = ram_step(s1, OpV::Write(seq![c]));
    assert(tail =~= seq![OpV::Flush] + seq![OpV::Cs(true)]);
    lemma_run_front(OpV::Flush, seq![OpV::Cs(true)], s2);
    lemma_run_single(OpV::Cs(true), s2);
}

/// `ram` with its first `n` bytes taken from `img`.
pub open spec fn overwritten(ram: Seq<u8>, img: Seq<u8>, n: int) -> Seq<u8> {
    Seq::new(ram.len(), |i: int| if i < n { img[i] } else { ram[i] })
}

proof fn lemma_rows_fill(fb: Seq<u8>, n: nat, t: Rams)
    requires
        fb.len() == 15000,
        n <= 300,
        t.data_mode,
        !(t.target is Neither),
        t.pos == 0,
    ensures
        ram_run(rows_ops(fb, n), t).data_mode,
        ram_run(rows_ops(fb, n), t).target == t.target,
        ram_run(rows_ops(fb, n), t).pos == 50 * n,
        t.target is Current ==> ram_run(rows_ops(fb, n), t).current == overwritten(t.current, fb, (50 * n) as int)
            && ram_run(rows_ops(fb, n), t).previous == t.previous,
        t.target is Previous ==> ram_run(rows_ops(fb, n), t).previous == overwritten(t.previous, fb, (50 * n) as int)
            && ram_run(rows_ops(fb, n), t).current == t.current,
    decreases n,
{
    if n == 0 {
        assert(overwritten(t.current, fb, 0) =~= t.current);
        assert(overwritten(t.previous, fb, 0) =~= t.previous);
    } else {
        let m = (n - 1) as nat;
        lemma_rows_fill(fb, m, t);
        let u = ram_run(rows_ops(fb, m), t);
        let row = fb_row(fb, m as int);
        lemma_ram_run_concat(rows_ops(fb, m), seq![OpV::Write(row), OpV::Flush], t);
        assert(seq![OpV::Write(row), OpV::Flush] =~= seq![OpV::Write(row)] + seq![OpV::Flush]);
        lemma_run_front(OpV::Write(row), seq![OpV::Flush], u);
        let v = ram_step(u, OpV::Write(row));
        lemma_run_single(OpV::Flush, v);
        if t.target is Current {
            assert(v.current =~= overwritten(t.current, fb, (50 * n) as int));
        } else {
            assert(v.previous =~= overwritten(t.previous, fb, (50 * n) as int));
        }
    }
}

/// Streaming the framebuffer after a RAM-write command fills that RAM with it and leaves
/// the other RAM alone.
proof fn lemma_ram_stream(c: u8, fb: Seq<u8>, s: Rams)
    requires
        c == CMD_WRITE_RAM_BW || c == CMD_WRITE_RAM_RED,
        fb.len() == 15000,
        s.current.len() == 15000,
        s.previous.len() == 15000,
    ensures
        c == CMD_WRITE_RAM_BW ==> ram_run(stream_ops(c, fb), s).current == fb && ram_run(
            stream_ops(c, fb),
            s,
        ).previous == s.previous,
        c == CMD_WRITE_RAM_RED ==> ram_run(stream_ops(c, fb), s).previous == fb && ram_run(
            stream_ops(c, fb),
            s,
        ).current == s.current,
{
    lemma_ram_cmd(c, s);
    let t0 = ram_run(cmd_ops(c), s);
    let head = seq![OpV::Dc(true), OpV::Cs(false)];
    lemma_ram_run_concat(cmd_ops(c) + head + rows_ops(fb, 300), seq![OpV::Cs(true)], s);
    lemma_ram_run_concat(cmd_ops(c) + head, rows_ops(fb, 300), s);
    lemma_ram_run_concat(cmd_ops(c), head, s);
    assert(head =~= seq![OpV::Dc(true)] + seq![OpV::Cs(false)]);
    lemma_run_front(OpV::Dc(true), seq![OpV::Cs(false)], t0);
    let t1 = ram_step(t0, OpV::Dc(true));
    lemma_run_single(OpV::Cs(false), t1);
    lemma_rows_fill(fb, 300, t1);
    let t2 = ram_run(rows_ops(fb, 300), t1);
    lemma_run_single(OpV::Cs(true), t2);
    assert(overwritten(s.current, fb, 15000) =~= fb);
    assert(overwritten(s.previous, fb, 15000) =~= fb);
}

/// Writing the framebuffer into one RAM over the whole panel.
proof fn lemma_ram_fill(c: u8, fb: Seq<u8>, s: Rams)
    requires
        c == CMD_WRITE_RAM_BW || c == CMD_WRITE_RAM_RED,
        fb.len() == 15000,
        s.current.len() == 15000,
        s.previous.len() == 15000,
    ensures
        c == CMD_WRITE_RAM_BW ==> ram_run(ram_write_ops(c, fb), s).current == fb && ram_run(
            ram_write_ops(c, fb),
            s,
        ).previous == s.previous,
        c == CMD_WRITE_RAM_RED ==> ram_run(ram_write_ops(c, fb), s).previous == fb && ram_run(
            ram_write_ops(c, fb),
            s,
        ).current == s.current,
{
    lemma_area_neutral();
    lemma_ram_run_concat(full_area_ops(), stream_ops(c, fb), s);
    lemma_ram_stream(c, fb, ram_run(full_area_ops(), s));
}

proof fn lemma_area_neutral()
    ensures
        ram_neutral(full_area_ops()),
{
    let a = cmd_with_ops(CMD_DATA_ENTRY_MODE, seq![0x03u8]);
    let b = cmd_with_ops(CMD_SET_RAM_X_ADDR, seq![0u8, 49u8]);
    let c = cmd_with_ops(CMD_SET_RAM_Y_ADDR, seq![0u8, 0u8, 43u8, 1u8]);
    let d = cmd_with_ops(CMD_SET_RAM_X_COUNT, seq![0u8]);
    let e = cmd_with_ops(CMD_SET_RAM_Y_COUNT, seq![0u8, 0u8]);
    assert(full_area_ops() =~= a + b + c + d + e);
    lemma_cmd_neutral(CMD_DATA_ENTRY_MODE, seq![0x03u8]);
    lemma_cmd_neutral(CMD_SET_RAM_X_ADDR, seq![0u8, 49u8]);
    lemma_cmd_neutral(CMD_SET_RAM_Y_ADDR, seq![0u8, 0u8, 43u8, 1u8]);
    lemma_cmd_neutral(CMD_SET_RAM_X_COUNT, seq![0u8]);
    lemma_cmd_neutral(CMD_SET_RAM_Y_COUNT, seq![0u8, 0u8]);
    lemma_neutral_concat(a, b);
    lemma_neutral_concat(a + b, c);
    lemma_neutral_concat(a + b + c, d);
    lemma_neutral_concat(a + b + c + d, e);
}

proof fn lemma_init_neutral(initialized: bool)
    ensures
        ram_neutral(ensure_init_ops(initialized)),
{
    lemma_area_neutral();
    let a = cmd_ops(CMD_SW_RESET);
    let b = wait_ops(BusyLabel::SwReset, 5000);
    let c = cmd_with_ops(CMD_DISPLAY_UPDATE_CTRL, seq![0x40u8, 0x00u8]);
    let d = cmd_with_ops(CMD_BORDER_WAVEFORM, seq![0x05u8]);
    let e = full_area_ops();
    let f = wait_ops(BusyLabel::Init, 5000);
    let g = seq![OpV::SetInitialized(true)];
    lemma_cmd_neutral(CMD_SW_RESET, seq![]);
    lemma_quiet_neutral(b);
    lemma_cmd_neutral(CMD_DISPLAY_UPDATE_CTRL, seq![0x40u8, 0x00u8]);
    lemma_cmd_neutral(CMD_BORDER_WAVEFORM, seq![0x05u8]);
    lemma_quiet_neutral(f);
    lemma_quiet_neutral(g);
    lemma_neutral_concat(a, b);
    lemma_neutral_concat(a + b, c);
    lemma_neutral_concat(a + b + c, d);
    lemma_neutral_concat(a + b + c + d, e);
    lemma_neutral_concat(a + b + c + d + e, f);
    lemma_neutral_concat(a + b + c + d + e + f, g);
    lemma_quiet_neutral(Seq::<OpV>::empty());
}

/// The part of [`flush_partial_plan`] up to the activation of the update.
pub open spec fn partial_until_activation(fb: Seq<u8>, initialized: bool) -> Seq<OpV> {
    ensure_init_ops(initialized) + ram_write_ops(CMD_WRITE_RAM_BW, fb) + cmd_with_ops(
        CMD_BORDER_WAVEFORM,
        seq![0x80u8],
    ) + cmd_with_ops(CMD_DISPLAY_UPDATE_CTRL, seq![0x00u8, 0x00u8]) + cmd_with_ops(
        CMD_DISPLAY_UPDATE_SEQ,
        seq![0xFCu8],
    )
}

/// Whether both RAMs hold `image`.
pub open spec fn both_hold(s: Rams, image: Seq<u8>) -> bool {
    s.current == image && s.previous == image
}

/// Both RAMs hold the last image sent: after a full, fast or partial refresh of framebuffer
/// `fb` run to its end, the current and the previous RAM hold `fb`, whatever they held
/// before. A partial refresh activates its update while the current RAM holds `fb` and
/// the previous RAM still holds what it held before (the last image sent, by the former
/// point), so only the pixels that differ between the two are driven.
pub proof fn lemma_dual_ram(fb: Seq<u8>, initialized: bool, s: Rams)
    requires
        fb.len() == 15000,
        s.current.len() == 15000,
        s.previous.len() == 15000,
    ensures
        both_hold(ram_run(flush_plan(fb, initialized), s), fb),
        both_hold(ram_run(flush_fast_plan(fb, initialized), s), fb),
        both_hold(ram_run(flush_partial_plan(fb, initialized), s), fb),
        flush_partial_plan(fb, initialized) == partial_until_activation(fb, initialized) + cmd_ops(
            CMD_MASTER_ACTIVATE,
        ) + wait_ops(BusyLabel::Refresh, 30000) + copy_to_previous_ops(fb),
        ram_run(partial_until_activation(fb, initialized), s).current == fb,
        ram_run(partial_until_activation(fb, initialized), s).previous == s.previous,
{
    lemma_init_neutral(initialized);
    let pre = ensure_init_ops(initialized);
    let s0 = ram_run(pre, s);
    let ctrl = cmd_with_ops(CMD_DISPLAY_UPDATE_CTRL, seq![0x40u8, 0x00u8]);
    let ctrl0 = cmd_with_ops(CMD_DISPLAY_UPDATE_CTRL, seq![0x00u8, 0x00u8]);
    let seq_f7 = cmd_with_ops(CMD_DISPLAY_UPDATE_SEQ, seq![0xF7u8]);
    let seq_d7 = cmd_with_ops(CMD_DISPLAY_UPDATE_SEQ, seq![0xD7u8]);
    let seq_fc = cmd_with_ops(CMD_DISPLAY_UPDATE_SEQ, seq![0xFCu8]);
    let temp = cmd_with_ops(CMD_WRITE_TEMP, seq![0x6Eu8]);
    let border = cmd_with_ops(CMD_BORDER_WAVEFORM, seq![0x80u8]);
    let act = cmd_ops(CMD_MASTER_ACTIVATE);
    let w = wait_ops(BusyLabel::Refresh, 30000);
    lemma_cmd_neutral(CMD_DISPLAY_UPDATE_CTRL, seq![0x40u8, 0x00u8]);
    lemma_cmd_neutral(CMD_DISPLAY_UPDATE_CTRL, seq![0x00u8, 0x00u8]);
    lemma_cmd_neutral(CMD_DISPLAY_UPDATE_SEQ, seq![0xF7u8]);
    lemma_cmd_neutral(CMD_DISPLAY_UPDATE_SEQ, seq![0xD7u8]);
    lemma_cmd_neutral(CMD_DISPLAY_UPDATE_SEQ, seq![0xFCu8]);
    lemma_cmd_neutral(CMD_WRITE_TEMP, seq![0x6Eu8]);
    lemma_cmd_neutral(CMD_BORDER_WAVEFORM, seq![0x80u8]);
    lemma_cmd_neutral(CMD_MASTER_ACTIVATE, seq![]);
    lemma_quiet_neutral(w);
    let red = ram_write_ops(CMD_WRITE_RAM_RED, fb);
    let bw = ram_write_ops(CMD_WRITE_RAM_BW, fb);
    // full and fast refresh: previous RAM, then current RAM
    lemma_ram_fill(CMD_WRITE_RAM_RED, fb, s0);
    let s1 = ram_run(red, s0);
    lemma_ram_fill(CMD_WRITE_RAM_BW, fb, s1);
    let s2 = ram_run(bw, s1);
    lemma_ram_run_concat(pre, red, s);
    lemma_ram_run_concat(pre + red, bw, s);
    lemma_neutral_concat(ctrl, seq_f7);
    lemma_neutral_concat(ctrl + seq_f7, act);
    lemma_neutral_concat(ctrl + seq_f7 + act, w);
    lemma_neutral_concat(ctrl, temp);
    lemma_neutral_concat(ctrl + temp, seq_d7);
    lemma_neutral_concat(ctrl + temp + seq_d7, act);
    lemma_neutral_concat(ctrl + temp + seq_d7 + act, w);
    assert(flush_plan(fb, initialized) =~= (pre + red + bw) + (ctrl + seq_f7 + act + w));
    lemma_ram_run_concat(pre + red + bw, ctrl + seq_f7 + act + w, s);
    assert(flush_fast_plan(fb, initialized) =~= (pre + red + bw) + (ctrl + temp + seq_d7 + act + w));
    lemma_ram_run_concat(pre + red + bw, ctrl + temp + seq_d7 + act + w, s);
    // partial refresh: current RAM, update, then current and previous RAM again
    lemma_ram_fill(CMD_WRITE_RAM_BW, fb, s0);
    let p1 = ram_run(bw, s0);
    lemma_ram_run_concat(pre, bw, s);
    lemma_neutral_concat(border, ctrl0);
    lemma_neutral_concat(border + ctrl0, seq_fc);
    assert(partial_until_activation(fb, initialized) =~= (pre + bw) + (border + ctrl0 + seq_fc));
    lemma_ram_run_concat(pre + bw, border + ctrl0 + seq_fc, s);
    let p2 = ram_run(partial_until_activation(fb, initialized), s);
    lemma_neutral_concat(act, w);
    assert(flush_partial_plan(fb, initialized) =~= partial_until_activation(fb, initialized) + cmd_ops(
        CMD_MASTER_ACTIVATE,
    ) + wait_ops(BusyLabel::Refresh, 30000) + copy_to_previous_ops(fb));
    assert(flush_partial_plan(fb, initialized) =~= partial_until_activation(fb, initialized) + (act + w)
        + (bw + red));
    lemma_ram_run_concat(partial_until_activation(fb, initialized) + (act + w), bw + red, s);
    lemma_ram_run_concat(partial_until_activation(fb, initialized), act + w, s);
    let p3 = ram_run(act + w, p2);
    lemma_ram_run_concat(bw, red, p3);
    lemma_ram_fill(CMD_WRITE_RAM_BW, fb, p3);
    lemma_ram_fill(CMD_WRITE_RAM_RED, fb, ram_run(bw, p3));
}

// ---- the state in which a refresh activates its update ----

proof fn lemma_no_activation(fb: Seq<u8>, initialized: bool)
    requires
        fb.len() == 15000,
    ensures
        !mentions(ensure_init_ops(initialized), CMD_MASTER_ACTIVATE),
        !mentions(ram_write_ops(CMD_WRITE_RAM_BW, fb), CMD_MASTER_ACTIVATE),
        !mentions(ram_write_ops(CMD_WRITE_RAM_RED, fb), CMD_MASTER_ACTIVATE),
{
    let act = CMD_MASTER_ACTIVATE;
    lemma_one_byte_seq_ne(0x03u8, act);
    lemma_one_byte_seq_ne(0x00u8, act);
    lemma_one_byte_seq_ne(0x05u8, act);
    assert(seq![0u8, 49u8].len() == 2);
    assert(seq![0u8, 0u8, 43u8, 1u8].len() == 4);
    assert(seq![0u8, 0u8].len() == 2);
    assert(seq![0x40u8, 0x00u8].len() == 2);
    assert(seq![act].len() == 1);
    let a = cmd_with_ops(CMD_DATA_ENTRY_MODE, seq![0x03u8]);
    let b = cmd_with_ops(CMD_SET_RAM_X_ADDR, seq![0u8, 49u8]);
    let c = cmd_with_ops(CMD_SET_RAM_Y_ADDR, seq![0u8, 0u8, 43u8, 1u8]);
    let d = cmd_with_ops(CMD_SET_RAM_X_COUNT, seq![0u8]);
    let e = cmd_with_ops(CMD_SET_RAM_Y_COUNT, seq![0u8, 0u8]);
    assert(full_area_ops() =~= a + b + c + d + e);
    lemma_cmd_silent(CMD_DATA_ENTRY_MODE, seq![0x03u8], act);
    lemma_cmd_silent(CMD_SET_RAM_X_ADDR, seq![0u8, 49u8], act);
    lemma_cmd_silent(CMD_SET_RAM_Y_ADDR, seq![0u8, 0u8, 43u8, 1u8], act);
    lemma_cmd_silent(CMD_SET_RAM_X_COUNT, seq![0u8], act);
    lemma_cmd_silent(CMD_SET_RAM_Y_COUNT, seq![0u8, 0u8], act);
    lemma_mentions_concat(a, b, act);
    lemma_mentions_concat(a + b, c, act);
    lemma_mentions_concat(a + b + c, d, act);
    lemma_mentions_concat(a + b + c + d, e, act);
    lemma_stream_silent(CMD_WRITE_RAM_BW, fb, act);
    lemma_stream_silent(CMD_WRITE_RAM_RED, fb, act);
    lemma_mentions_concat(full_area_ops(), stream_ops(CMD_WRITE_RAM_BW, fb), act);
    lemma_mentions_concat(full_area_ops(), stream_ops(CMD_WRITE_RAM_RED, fb), act);
    let i0 = cmd_ops(CMD_SW_RESET);
    let i1 = wait_ops(BusyLabel::SwReset, 5000);
    let i2 = cmd_with_ops(CMD_DISPLAY_UPDATE_CTRL, seq![0x40u8, 0x00u8]);
    let i3 = cmd_with_ops(CMD_BORDER_WAVEFORM, seq![0x05u8]);
    let i4 = full_area_ops();
    let i5 = wait_ops(BusyLabel::Init, 5000);
    let i6 = seq![OpV::SetInitialized(true)];
    lemma_cmd_silent(CMD_SW_RESET, seq![0x05u8], act);
    lemma_quiet_silent(i1, act);
    lemma_cmd_silent(CMD_DISPLAY_UPDATE_CTRL, seq![0x40u8, 0x00u8], act);
    lemma_cmd_silent(CMD_BORDER_WAVEFORM, seq![0x05u8], act);
    lemma_quiet_silent(i5, act);
    lemma_quiet_silent(i6, act);
    lemma_mentions_concat(i0, i1, act);
    lemma_mentions_concat(i0 + i1, i2, act);
    lemma_mentions_concat(i0 + i1 + i2, i3, act);
    lemma_mentions_concat(i0 + i1 + i2 + i3, i4, act);
    lemma_mentions_concat(i0 + i1 + i2 + i3 + i4, i5, act);
    lemma_mentions_concat(i0 + i1 + i2 + i3 + i4 + i5, i6, act);
    lemma_quiet_silent(Seq::<OpV>::empty(), act);
}

proof fn lemma_written_rams(fb: Seq<u8>, initialized: bool, s: Rams)
    requires
        fb.len() == 15000,
        s.current.len() == 15000,
        s.previous.len() == 15000,
    ensures
        both_hold(
            ram_run(
                ensure_init_ops(initialized) + ram_write_ops(CMD_WRITE_RAM_RED, fb) + ram_write_ops(
                    CMD_WRITE_RAM_BW,
                    fb,
                ),
                s,
            ),
            fb,
        ),
        ram_run(ensure_init_ops(initialized) + ram_write_ops(CMD_WRITE_RAM_BW, fb), s).current == fb,
        ram_run(ensure_init_ops(initialized) + ram_write_ops(CMD_WRITE_RAM_BW, fb), s).previous
            == s.previous,
{
    lemma_init_neutral(initialized);
    let pre = ensure_init_ops(initialized);
    let s0 = ram_run(pre, s);
    let red = ram_write_ops(CMD_WRITE_RAM_RED, fb);
    let bw = ram_write_ops(CMD_WRITE_RAM_BW, fb);
    lemma_ram_fill(CMD_WRITE_RAM_RED, fb, s0);
    lemma_ram_fill(CMD_WRITE_RAM_BW, fb, ram_run(red, s0));
    lemma_ram_run_concat(pre, red, s);
    lemma_ram_run_concat(pre + red, bw, s);
    lemma_ram_fill(CMD_WRITE_RAM_BW, fb, s0);
    lemma_ram_run_concat(pre, bw, s);
}

/// The full refresh activates its update on the image it was given: the first time its
/// plan sends the activation command (and it does send it), both RAMs hold the
/// framebuffer, whatever they held before, and the display update control and the update
/// sequence last sent are [0x40, 0x00] and [0xF7].
pub proof fn lemma_full_activation(fb: Seq<u8>, initialized: bool, s: Rams)
    requires
        fb.len() == 15000,
        s.current.len() == 15000,
        s.previous.len() == 15000,
    ensures
        exists|k: int| #[trigger] first_write_at(flush_plan(fb, initialized), CMD_MASTER_ACTIVATE, k),
        forall|k: int| #[trigger]
            first_write_at(flush_plan(fb, initialized), CMD_MASTER_ACTIVATE, k) ==> both_hold(
                ram_run(flush_plan(fb, initialized).take(k), s),
                fb,
            ) && last_sent_with(
                flush_plan(fb, initialized).take(k),
                CMD_DISPLAY_UPDATE_CTRL,
                seq![0x40u8, 0x00u8],
            ) && last_sent_with(flush_plan(fb, initialized).take(k), CMD_DISPLAY_UPDATE_SEQ, seq![0xF7u8]),
{
    let act = CMD_MASTER_ACTIVATE;
    let p = flush_plan(fb, initialized);
    let x = ensure_init_ops(initialized) + ram_write_ops(CMD_WRITE_RAM_RED, fb) + ram_write_ops(
        CMD_WRITE_RAM_BW,
        fb,
    );
    let ctrl = cmd_with_ops(CMD_DISPLAY_UPDATE_CTRL, seq![0x40u8, 0x00u8]);
    let sq = cmd_with_ops(CMD_DISPLAY_UPDATE_SEQ, seq![0xF7u8]);
    let sel = seq![OpV::Dc(false), OpV::Cs(false)];
    let a = x + ctrl + sq;
    let b = wait_ops(BusyLabel::Refresh, 30000);
    assert(p =~= a + cmd_ops(act) + b);
    assert(seq![0x40u8, 0x00u8].len() == 2);
    assert(seq![act].len() == 1);
    lemma_one_byte_seq_ne(0xF7u8, act);
    lemma_one_byte_seq_ne(0xF7u8, CMD_DISPLAY_UPDATE_CTRL);
    lemma_one_byte_seq_ne(0xF7u8, CMD_DISPLAY_UPDATE_SEQ);
    // no activation before the one that follows `a`
    lemma_no_activation(fb, initialized);
    lemma_cmd_silent(CMD_DISPLAY_UPDATE_CTRL, seq![0x40u8, 0x00u8], act);
    lemma_cmd_silent(CMD_DISPLAY_UPDATE_SEQ, seq![0xF7u8], act);
    lemma_mentions_concat(ensure_init_ops(initialized), ram_write_ops(CMD_WRITE_RAM_RED, fb), act);
    lemma_mentions_concat(
        ensure_init_ops(initialized) + ram_write_ops(CMD_WRITE_RAM_RED, fb),
        ram_write_ops(CMD_WRITE_RAM_BW, fb),
        act,
    );
    lemma_mentions_concat(x, ctrl, act);
    lemma_mentions_concat(x + ctrl, sq, act);
    lemma_first_write(a, act, b);
    let pre = a + sel;
    assert(p.take(a.len() + 2int) =~= pre);
    // the RAMs
    lemma_written_rams(fb, initialized, s);
    lemma_cmd_neutral(CMD_DISPLAY_UPDATE_CTRL, seq![0x40u8, 0x00u8]);
    lemma_cmd_neutral(CMD_DISPLAY_UPDATE_SEQ, seq![0xF7u8]);
    lemma_quiet_neutral(sel);
    lemma_neutral_concat(ctrl, sq);
    lemma_neutral_concat(ctrl + sq, sel);
    assert(pre =~= x + (ctrl + sq + sel));
    lemma_ram_run_concat(x, ctrl + sq + sel, s);
    // the settings
    lemma_quiet_silent(sel, CMD_DISPLAY_UPDATE_CTRL);
    lemma_quiet_silent(sel, CMD_DISPLAY_UPDATE_SEQ);
    lemma_cmd_silent(CMD_DISPLAY_UPDATE_SEQ, seq![0xF7u8], CMD_DISPLAY_UPDATE_CTRL);
    lemma_mentions_concat(sq, sel, CMD_DISPLAY_UPDATE_CTRL);
    assert(pre =~= x + ctrl + (sq + sel));
    lemma_last_sent(x, CMD_DISPLAY_UPDATE_CTRL, seq![0x40u8, 0x00u8], sq + sel);
    lemma_last_sent(x + ctrl, CMD_DISPLAY_UPDATE_SEQ, seq![0xF7u8], sel);
    assert(first_write_at(p, act, a.len() + 2int));
}

/// The fast refresh, too, activates its update on the image it was given: the first time
/// its plan sends the activation command (and it does send it), both RAMs hold the
/// framebuffer, whatever they held before, and the display update control, the
/// temperature override and the update sequence last sent are [0x40, 0x00], [0x6E] and
/// [0xD7].
pub proof fn lemma_fast_activation(fb: Seq<u8>, initialized: bool, s: Rams)
    requires
        fb.len() == 15000,
        s.current.len() == 15000,
        s.previous.len() == 15000,
    ensures
        exists|k: int| #[trigger] first_write_at(flush_fast_plan(fb, initialized), CMD_MASTER_ACTIVATE, k),
        forall|k: int| #[trigger]
            first_write_at(flush_fast_plan(fb, initialized), CMD_MASTER_ACTIVATE, k) ==> both_hold(
                ram_run(flush_fast_plan(fb, initialized).take(k), s),
                fb,
            ) && last_sent_with(
                flush_fast_plan(fb, initialized).take(k),
                CMD_DISPLAY_UPDATE_CTRL,
                seq![0x40u8, 0x00u8],
            ) && last_sent_with(flush_fast_plan(fb, initialized).take(k), CMD_WRITE_TEMP, seq![0x6Eu8])
                && last_sent_with(
                flush_fast_plan(fb, initialized).take(k),
                CMD_DISPLAY_UPDATE_SEQ,
                seq![0xD7u8],
            ),
{
    let act = CMD_MASTER_ACTIVATE;
    let p = flush_fast_plan(fb, initialized);
    let x = ensure_init_ops(initialized) + ram_write_ops(CMD_WRITE_RAM_RED, fb) + ram_write_ops(
        CMD_WRITE_RAM_BW,
        fb,
    );
    let ctrl = cmd_with_ops(CMD_DISPLAY_UPDATE_CTRL, seq![0x40u8, 0x00u8]);
    let temp = cmd_with_ops(CMD_WRITE_TEMP, seq![0x6Eu8]);
    let sq = cmd_with_ops(CMD_DISPLAY_UPDATE_SEQ, seq![0xD7u8]);
    let sel = seq![OpV::Dc(false), OpV::Cs(false)];
    let a = x + ctrl + temp + sq;
    let b = wait_ops(BusyLabel::Refresh, 30000);
    assert(p =~= a + cmd_ops(act) + b);
    assert(seq![0x40u8, 0x00u8].len() == 2);
    assert(seq![act].len() == 1);
    lemma_one_byte_seq_ne(0x6Eu8, act);
    lemma_one_byte_seq_ne(0xD7u8, act);
    lemma_one_byte_seq_ne(0x6Eu8, CMD_DISPLAY_UPDATE_CTRL);
    lemma_one_byte_seq_ne(0xD7u8, CMD_DISPLAY_UPDATE_CTRL);
    lemma_one_byte_seq_ne(0x6Eu8, CMD_WRITE_TEMP);
    lemma_one_byte_seq_ne(0xD7u8, CMD_WRITE_TEMP);
    lemma_one_byte_seq_ne(0xD7u8, CMD_DISPLAY_UPDATE_SEQ);
    // no activation before the one that follows `a`
    lemma_no_activation(fb, initialized);
    lemma_cmd_silent(CMD_DISPLAY_UPDATE_CTRL, seq![0x40u8, 0x00u8], act);
    lemma_cmd_silent(CMD_WRITE_TEMP, seq![0x6Eu8], act);
    lemma_cmd_silent(CMD_DISPLAY_UPDATE_SEQ, seq![0xD7u8], act);
    lemma_mentions_concat(ensure_init_ops(initialized), ram_write_ops(CMD_WRITE_RAM_RED, fb), act);
    lemma_mentions_concat(
        ensure_init_ops(initialized) + ram_write_ops(CMD_WRITE_RAM_RED, fb),
        ram_write_ops(CMD_WRITE_RAM_BW, fb),
        act,
    );
    lemma_mentions_concat(x, ctrl, act);
    lemma_mentions_concat(x + ctrl, temp, act);
    lemma_mentions_concat(x + ctrl + temp, sq, act);
    lemma_first_write(a, act, b);
    let pre = a + sel;
    assert(p.take(a.len() + 2int) =~= pre);
    // the RAMs
    lemma_written_rams(fb, initialized, s);
    lemma_cmd_neutral(CMD_DISPLAY_UPDATE_CTRL, seq![0x40u8, 0x00u8]);
    lemma_cmd_neutral(CMD_WRITE_TEMP, seq![0x6Eu8]);
    lemma_cmd_neutral(CMD_DISPLAY_UPDATE_SEQ, seq![0xD7u8]);
    lemma_quiet_neutral(sel);
    lemma_neutral_concat(ctrl, temp);
    lemma_neutral_concat(ctrl + temp, sq);
    lemma_neutral_concat(ctrl + temp + sq, sel);
    assert(pre =~= x + (ctrl + temp + sq + sel));
    lemma_ram_run_concat(x, ctrl + temp + sq + sel, s);
    // the settings
    lemma_quiet_silent(sel, CMD_DISPLAY_UPDATE_CTRL);
    lemma_quiet_silent(sel, CMD_WRITE_TEMP);
    lemma_quiet_silent(sel, CMD_DISPLAY_UPDATE_SEQ);
    lemma_cmd_silent(CMD_WRITE_TEMP, seq![0x6Eu8], CMD_DISPLAY_UPDATE_CTRL);
    lemma_cmd_silent(CMD_DISPLAY_UPDATE_SEQ, seq![0xD7u8], CMD_DISPLAY_UPDATE_CTRL);
    lemma_cmd_silent(CMD_DISPLAY_UPDATE_SEQ, seq![0xD7u8], CMD_WRITE_TEMP);
    lemma_mentions_concat(sq, sel, CMD_DISPLAY_UPDATE_CTRL);
    lemma_mentions_concat(temp, sq + sel, CMD_DISPLAY_UPDATE_CTRL);
    lemma_mentions_concat(sq, sel, CMD_WRITE_TEMP);
    assert(pre =~= x + ctrl + (temp + (sq + sel)));
    lemma_last_sent(x, CMD_DISPLAY_UPDATE_CTRL, seq![0x40u8, 0x00u8], temp + (sq + sel));
    assert(pre =~= x + ctrl + temp + (sq + sel));
    lemma_last_sent(x + ctrl, CMD_WRITE_TEMP, seq![0x6Eu8], sq + sel);
    lemma_last_sent(x + ctrl + temp, CMD_DISPLAY_UPDATE_SEQ, seq![0xD7u8], sel);
    assert(first_write_at(p, act, a.len() + 2int));
}

/// The partial refresh activates a differential update: the first time its plan sends
/// the activation command (and it does send it), the current RAM holds the framebuffer
/// and the previous RAM still holds what it held before the call, the border waveform
/// last sent is [0x80], and the display update control last sent is [0x00, 0x00], which
/// lets the previous RAM take part in the update, with the update sequence [0xFC].
pub proof fn lemma_partial_activation(fb: Seq<u8>, initialized: bool, s: Rams)
    requires
        fb.len() == 15000,
        s.current.len() == 15000,
        s.previous.len() == 15000,
    ensures
        exists|k: int| #[trigger] first_write_at(flush_partial_plan(fb, initialized), CMD_MASTER_ACTIVATE, k),
        forall|k: int| #[trigger]
            first_write_at(flush_partial_plan(fb, initialized), CMD_MASTER_ACTIVATE, k) ==> ram_run(
                flush_partial_plan(fb, initialized).take(k),
                s,
            ).current == fb && ram_run(flush_partial_plan(fb, initialized).take(k), s).previous
                == s.previous && last_sent_with(
                flush_partial_plan(fb, initialized).take(k),
                CMD_BORDER_WAVEFORM,
                seq![0x80u8],
            ) && last_sent_with(
                flush_partial_plan(fb, initialized).take(k),
                CMD_DISPLAY_UPDATE_CTRL,
                seq![0x00u8, 0x00u8],
            ) && last_sent_with(
                flush_partial_plan(fb, initialized).take(k),
                CMD_DISPLAY_UPDATE_SEQ,
                seq![0xFCu8],
            ),
{
    let act = CMD_MASTER_ACTIVATE;
    let p = flush_partial_plan(fb, initialized);
    let x = ensure_init_ops(initialized) + ram_write_ops(CMD_WRITE_RAM_BW, fb);
    let border = cmd_with_ops(CMD_BORDER_WAVEFORM, seq![0x80u8]);
    let ctrl = cmd_with_ops(CMD_DISPLAY_UPDATE_CTRL, seq![0x00u8, 0x00u8]);
    let sq = cmd_with_ops(CMD_DISPLAY_UPDATE_SEQ, seq![0xFCu8]);
    let sel = seq![OpV::Dc(false), OpV::Cs(false)];
    let a = x + border + ctrl + sq;
    let b = wait_ops(BusyLabel::Refresh, 30000) + copy_to_previous_ops(fb);
    assert(p =~= a + cmd_ops(act) + b);
    assert(seq![0x00u8, 0x00u8].len() == 2);
    assert(seq![act].len() == 1);
    lemma_one_byte_seq_ne(0x80u8, act);
    lemma_one_byte_seq_ne(0xFCu8, act);
    lemma_one_byte_seq_ne(0x80u8, CMD_BORDER_WAVEFORM);
    lemma_one_byte_seq_ne(0xFCu8, CMD_BORDER_WAVEFORM);
    lemma_one_byte_seq_ne(0xFCu8, CMD_DISPLAY_UPDATE_CTRL);
    lemma_one_byte_seq_ne(0xFCu8, CMD_DISPLAY_UPDATE_SEQ);
    assert(seq![CMD_BORDER_WAVEFORM].len() == 1);
    assert(seq![CMD_DISPLAY_UPDATE_CTRL].len() == 1);
    // no activation before the one that follows `a`
    lemma_no_activation(fb, initialized);
    lemma_cmd_silent(CMD_BORDER_WAVEFORM, seq![0x80u8], act);
    lemma_cmd_silent(CMD_DISPLAY_UPDATE_CTRL, seq![0x00u8, 0x00u8], act);
    lemma_cmd_silent(CMD_DISPLAY_UPDATE_SEQ, seq![0xFCu8], act);
    lemma_mentions_concat(ensure_init_ops(initialized), ram_write_ops(CMD_WRITE_RAM_BW, fb), act);
    lemma_mentions_concat(x, border, act);
    lemma_mentions_concat(x + border, ctrl, act);
    lemma_mentions_concat(x + border + ctrl, sq, act);
    lemma_first_write(a, act, b);
    let pre = a + sel;
    assert(p.take(a.len() + 2int) =~= pre);
    // the RAMs
    lemma_written_rams(fb, initialized, s);
    lemma_cmd_neutral(CMD_BORDER_WAVEFORM, seq![0x80u8]);
    lemma_cmd_neutral(CMD_DISPLAY_UPDATE_CTRL, seq![0x00u8, 0x00u8]);
    lemma_cmd_neutral(CMD_DISPLAY_UPDATE_SEQ, seq![0xFCu8]);
    lemma_quiet_neutral(sel);
    lemma_neutral_concat(border, ctrl);
    lemma_neutral_concat(border + ctrl, sq);
    lemma_neutral_concat(border + ctrl + sq, sel);
    assert(pre =~= x + (border + ctrl + sq + sel));
    lemma_ram_run_concat(x, border + ctrl + sq + sel, s);
    // the settings
    lemma_quiet_silent(sel, CMD_BORDER_WAVEFORM);
    lemma_quiet_silent(sel, CMD_DISPLAY_UPDATE_CTRL);
    lemma_quiet_silent(sel, CMD_DISPLAY_UPDATE_SEQ);
    lemma_cmd_silent(CMD_DISPLAY_UPDATE_CTRL, seq![0x00u8, 0x00u8], CMD_BORDER_WAVEFORM);
    lemma_cmd_silent(CMD_DISPLAY_UPDATE_SEQ, seq![0xFCu8], CMD_BORDER_WAVEFORM);
    lemma_cmd_silent(CMD_DISPLAY_UPDATE_SEQ, seq![0xFCu8], CMD_DISPLAY_UPDATE_CTRL);
    lemma_mentions_concat(sq, sel, CMD_BORDER_WAVEFORM);
    lemma_mentions_concat(ctrl, sq + sel, CMD_BORDER_WAVEFORM);
    lemma_mentions_concat(sq, sel, CMD_DISPLAY_UPDATE_CTRL);
    assert(pre =~= x + border + (ctrl + (sq + sel)));
    lemma_last_sent(x, CMD_BORDER_WAVEFORM, seq![0x80u8], ctrl + (sq + sel));
    assert(pre =~= x + border + ctrl + (sq + sel));
    lemma_last_sent(x + border, CMD_DISPLAY_UPDATE_CTRL, seq![0x00u8, 0x00u8], sq + sel);
    lemma_last_sent(x + border + ctrl, CMD_DISPLAY_UPDATE_SEQ, seq![0xFCu8], sel);
    assert(first_write_at(p, act, a.len() + 2int));
}

} // verus!
