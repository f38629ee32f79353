//! IL0398 controller (older Waveshare 4.2" e-Paper revisions).
//!
//! Every refresh powers the controller up with the full initialization sequence and
//! sends its own waveform lookup tables: the slow full set, or a single short phase for
//! a quick (partial) refresh. Only the "new data" RAM is written.
use vstd::prelude::*;
use crate::bus::{
    bytes1, bytes3, bytes4, cmd_ops, cmd_with_ops, framed, lemma_cmd_framed, lemma_cmd_with_framed,
    lemma_cmd_with_no_marker, lemma_framed_concat, lemma_no_marker_concat, lemma_quiet_framed,
    lemma_stream_framed, lemma_stream_no_marker, lemma_no_marker_keeps, initialized_after, no_marker, plan_view, cmd, cmd_with,
    push_op, push_stream, quiet, stream_ops, BusyLabel, Op, OpV, always_with, mentions, sends_with,
    lemma_with_concat, lemma_with_cmd, lemma_with_cmd_with, lemma_with_quiet, lemma_with_stream,
    payload, lemma_payload_concat, lemma_stream_payload,
};
use crate::framebuffer::{
    FB_SIZE, HEIGHT, WIDTH, all_white, draw_pixels, fill_white, set_pixel, with_pixel, with_pixels,
};

verus! {

/// Panel setting (lookup tables from OTP or from registers).
pub const CMD_PANEL_SETTING: u8 = 0x00;
/// Power setting.
pub const CMD_POWER_SETTING: u8 = 0x01;
/// Power on.
pub const CMD_POWER_ON: u8 = 0x04;
/// Booster soft start.
pub const CMD_BOOSTER_SOFT_START: u8 = 0x06;
/// Deep sleep.
pub const CMD_DEEP_SLEEP: u8 = 0x07;
/// Old image data (black/white mode).
pub const CMD_DATA_START_1: u8 = 0x10;
/// New image data (black/white mode).
pub const CMD_DATA_START_2: u8 = 0x13;
/// Start a refresh.
pub const CMD_DISPLAY_REFRESH: u8 = 0x12;
/// VCOM lookup table.
pub const CMD_LUT_VCOM: u8 = 0x20;
/// White-to-white lookup table.
pub const CMD_LUT_WW: u8 = 0x21;
/// Black-to-white lookup table.
pub const CMD_LUT_BW: u8 = 0x22;
/// White-to-black lookup table.
pub const CMD_LUT_WB: u8 = 0x23;
/// Black-to-black lookup table.
pub const CMD_LUT_BB: u8 = 0x24;
/// PLL (frame rate) control.
pub const CMD_PLL_CONTROL: u8 = 0x30;
/// VCOM and data interval.
pub const CMD_VCOM_DATA_INTERVAL: u8 = 0x50;
/// Gate/source non-overlap timing.
pub const CMD_TCON_SETTING: u8 = 0x60;
/// Resolution.
pub const CMD_RESOLUTION_SETTING: u8 = 0x61;
/// VCOM DC level.
pub const CMD_VCOM_DC_SETTING: u8 = 0x82;
/// Partial window.
pub const CMD_PARTIAL_WINDOW: u8 = 0x90;
/// Enter partial mode.
pub const CMD_PARTIAL_IN: u8 = 0x91;
/// Leave partial mode.
pub const CMD_PARTIAL_OUT: u8 = 0x92;

/// Busy-line poll interval of this controller, in ms.
pub const POLL_MS: u32 = 100;

/// Error of a plan's execution: from the SPI bus or from a control pin.
#[derive(Debug)]
pub enum Error<S, P> {
    Spi(S),
    Pin(P),
}

/// Driver state: the framebuffer.
pub struct Il0398 {
    fb: [u8; FB_SIZE],
}

/// VCOM lookup table for a full refresh.
pub open spec fn spec_lut_vcom() -> Seq<u8> {
    seq![
            0x00u8, 0x17, 0x00, 0x00, 0x00, 0x02,
            0x00, 0x17, 0x17, 0x00, 0x00, 0x02,
            0x00, 0x0A, 0x01, 0x00, 0x00, 0x01,
            0x00, 0x0E, 0x0E, 0x00, 0x00, 0x02,
            0x00, 0x00, 0x00, 0x00, 0x00, 0x00,
            0x00, 0x00, 0x00, 0x00, 0x00, 0x00,
            0x00, 0x00, 0x00, 0x00, 0x00, 0x00,
            0x00, 0x00,
    ]
}

/// VCOM lookup table for a full refresh.
pub fn lut_vcom() -> (t: Vec<u8>)
    ensures
        t@ == spec_lut_vcom(),
{
    let t: Vec<u8> = vec![
        0x00u8, 0x17, 0x00, 0x00, 0x00, 0x02,
        0x00, 0x17, 0x17, 0x00, 0x00, 0x02,
        0x00, 0x0A, 0x01, 0x00, 0x00, 0x01,
        0x00, 0x0E, 0x0E, 0x00, 0x00, 0x02,
        0x00, 0x00, 0x00, 0x00, 0x00, 0x00,
        0x00, 0x00, 0x00, 0x00, 0x00, 0x00,
        0x00, 0x00, 0x00, 0x00, 0x00, 0x00,
        0x00, 0x00,
    ];
    assert(t@ =~= spec_lut_vcom());
    t
}

/// White-to-white lookup table for a full refresh.
pub open spec fn spec_lut_ww() -> Seq<u8> {
    seq![
            0x40u8, 0x17, 0x00, 0x00, 0x00, 0x02,
            0x90, 0x17, 0x17, 0x00, 0x00, 0x02,
            0x40, 0x0A, 0x01, 0x00, 0x00, 0x01,
            0xA0, 0x0E, 0x0E, 0x00, 0x00, 0x02,
            0x00, 0x00, 0x00, 0x00, 0x00, 0x00,
            0x00, 0x00, 0x00, 0x00, 0x00, 0x00,
            0x00, 0x00, 0x00, 0x00, 0x00, 0x00,
    ]
}

/// White-to-white lookup table for a full refresh.
pub fn lut_ww() -> (t: Vec<u8>)
    ensures
        t@ == spec_lut_ww(),
{
    let t: Vec<u8> = vec![
        0x40u8, 0x17, 0x00, 0x00, 0x00, 0x02,
        0x90, 0x17, 0x17, 0x00, 0x00, 0x02,
        0x40, 0x0A, 0x01, 0x00, 0x00, 0x01,
        0xA0, 0x0E, 0x0E, 0x00, 0x00, 0x02,
        0x00, 0x00, 0x00, 0x00, 0x00, 0x00,
        0x00, 0x00, 0x00, 0x00, 0x00, 0x00,
        0x00, 0x00, 0x00, 0x00, 0x00, 0x00,
    ];
    assert(t@ =~= spec_lut_ww());
    t
}

/// Black-to-white lookup table for a full refresh.
pub open spec fn spec_lut_bw() -> Seq<u8> {
    seq![
            0x40u8, 0x17, 0x00, 0x00, 0x00, 0x02,
            0x90, 0x17, 0x17, 0x00, 0x00, 0x02,
            0x40, 0x0A, 0x01, 0x00, 0x00, 0x01,
            0xA0, 0x0E, 0x0E, 0x00, 0x00, 0x02,
            0x00, 0x00, 0x00, 0x00, 0x00, 0x00,
            0x00, 0x00, 0x00, 0x00, 0x00, 0x00,
            0x00, 0x00, 0x00, 0x00, 0x00, 0x00,
    ]
}

/// Black-to-white lookup table for a full refresh.
pub fn lut_bw() -> (t: Vec<u8>)
    ensures
        t@ == spec_lut_bw(),
{
    let t: Vec<u8> = vec![
        0x40u8, 0x17, 0x00, 0x00, 0x00, 0x02,
        0x90, 0x17, 0x17, 0x00, 0x00, 0x02,
        0x40, 0x0A, 0x01, 0x00, 0x00, 0x01,
        0xA0, 0x0E, 0x0E, 0x00, 0x00, 0x02,
        0x00, 0x00, 0x00, 0x00, 0x00, 0x00,
        0x00, 0x00, 0x00, 0x00, 0x00, 0x00,
        0x00, 0x00, 0x00, 0x00, 0x00, 0x00,
    ];
    assert(t@ =~= spec_lut_bw());
    t
}

/// White-to-black lookup table for a full refresh.
pub open spec fn spec_lut_wb() -> Seq<u8> {
    seq![
            0x80u8, 0x17, 0x00, 0x00, 0x00, 0x02,
            0x90, 0x17, 0x17, 0x00, 0x00, 0x02,
            0x80, 0x0A, 0x01, 0x00, 0x00, 0x01,
            0x50, 0x0E, 0x0E, 0x00, 0x00, 0x02,
            0x00, 0x00, 0x00, 0x00, 0x00, 0x00,
            0x00, 0x00, 0x00, 0x00, 0x00, 0x00,
            0x00, 0x00, 0x00, 0x00, 0x00, 0x00,
    ]
}

/// White-to-black lookup table for a full refresh.
pub fn lut_wb() -> (t: Vec<u8>)
    ensures
        t@ == spec_lut_wb(),
{
    let t: Vec<u8> = vec![
        0x80u8, 0x17, 0x00, 0x00, 0x00, 0x02,
        0x90, 0x17, 0x17, 0x00, 0x00, 0x02,
        0x80, 0x0A, 0x01, 0x00, 0x00, 0x01,
        0x50, 0x0E, 0x0E, 0x00, 0x00, 0x02,
        0x00, 0x00, 0x00, 0x00, 0x00, 0x00,
        0x00, 0x00, 0x00, 0x00, 0x00, 0x00,
        0x00, 0x00, 0x00, 0x00, 0x00, 0x00,
    ];
    assert(t@ =~= spec_lut_wb());
    t
}

/// Black-to-black lookup table for a full refresh.
pub open spec fn spec_lut_bb() -> Seq<u8> {
    seq![
            0x80u8, 0x17, 0x00, 0x00, 0x00, 0x02,
            0x90, 0x17, 0x17, 0x00, 0x00, 0x02,
            0x80, 0x0A, 0x01, 0x00, 0x00, 0x01,
            0x50, 0x0E, 0x0E, 0x00, 0x00, 0x02,
            0x00, 0x00, 0x00, 0x00, 0x00, 0x00,
            0x00, 0x00, 0x00, 0x00, 0x00, 0x00,
            0x00, 0x00, 0x00, 0x00, 0x00, 0x00,
    ]
}

/// Black-to-black lookup table for a full refresh.
pub fn lut_bb() -> (t: Vec<u8>)
    ensures
        t@ == spec_lut_bb(),
{
    let t: Vec<u8> = vec![
        0x80u8, 0x17, 0x00, 0x00, 0x00, 0x02,
        0x90, 0x17, 0x17, 0x00, 0x00, 0x02,
        0x80, 0x0A, 0x01, 0x00, 0x00, 0x01,
        0x50, 0x0E, 0x0E, 0x00, 0x00, 0x02,
        0x00, 0x00, 0x00, 0x00, 0x00, 0x00,
        0x00, 0x00, 0x00, 0x00, 0x00, 0x00,
        0x00, 0x00, 0x00, 0x00, 0x00, 0x00,
    ];
    assert(t@ =~= spec_lut_bb());
    t
}

/// VCOM lookup table for a quick (partial) refresh.
pub open spec fn spec_lut_vcom_quick() -> Seq<u8> {
    seq![
            0x00u8, 0x0E, 0x00, 0x00, 0x00, 0x01,
            0x00, 0x00, 0x00, 0x00, 0x00, 0x00,
            0x00, 0x00, 0x00, 0x00, 0x00, 0x00,
            0x00, 0x00, 0x00, 0x00, 0x00, 0x00,
            0x00, 0x00, 0x00, 0x00, 0x00, 0x00,
            0x00, 0x00, 0x00, 0x00, 0x00, 0x00,
            0x00, 0x00, 0x00, 0x00, 0x00, 0x00,
            0x00, 0x00,
    ]
}

/// VCOM lookup table for a quick (partial) refresh.
pub fn lut_vcom_quick() -> (t: Vec<u8>)
    ensures
        t@ == spec_lut_vcom_quick(),
{
    let t: Vec<u8> = vec![
        0x00u8, 0x0E, 0x00, 0x00, 0x00, 0x01,
        0x00, 0x00, 0x00, 0x00, 0x00, 0x00,
        0x00, 0x00, 0x00, 0x00, 0x00, 0x00,
        0x00, 0x00, 0x00, 0x00, 0x00, 0x00,
        0x00, 0x00, 0x00, 0x00, 0x00, 0x00,
        0x00, 0x00, 0x00, 0x00, 0x00, 0x00,
        0x00, 0x00, 0x00, 0x00, 0x00, 0x00,
        0x00, 0x00,
    ];
    assert(t@ =~= spec_lut_vcom_quick());
    t
}

/// White-to-white lookup table for a quick (partial) refresh.
pub open spec fn spec_lut_ww_quick() -> Seq<u8> {
    seq![
            0xA0u8, 0x0E, 0x00, 0x00, 0x00, 0x01,
            0x00, 0x00, 0x00, 0x00, 0x00, 0x00,
            0x00, 0x00, 0x00, 0x00, 0x00, 0x00,
            0x00, 0x00, 0x00, 0x00, 0x00, 0x00,
            0x00, 0x00, 0x00, 0x00, 0x00, 0x00,
            0x00, 0x00, 0x00, 0x00, 0x00, 0x00,
            0x00, 0x00, 0x00, 0x00, 0x00, 0x00,
    ]
}

/// White-to-white lookup table for a quick (partial) refresh.
pub fn lut_ww_quick() -> (t: Vec<u8>)
    ensures
        t@ == spec_lut_ww_quick(),
{
    let t: Vec<u8> = vec![
        0xA0u8, 0x0E, 0x00, 0x00, 0x00, 0x01,
        0x00, 0x00, 0x00, 0x00, 0x00, 0x00,
        0x00, 0x00, 0x00, 0x00, 0x00, 0x00,
        0x00, 0x00, 0x00, 0x00, 0x00, 0x00,
        0x00, 0x00, 0x00, 0x00, 0x00, 0x00,
        0x00, 0x00, 0x00, 0x00, 0x00, 0x00,
        0x00, 0x00, 0x00, 0x00, 0x00, 0x00,
    ];
    assert(t@ =~= spec_lut_ww_quick());
    t
}

/// Black-to-white lookup table for a quick (partial) refresh.
pub open spec fn spec_lut_bw_quick() -> Seq<u8> {
    seq![
            0xA0u8, 0x0E, 0x00, 0x00, 0x00, 0x01,
            0x00, 0x00, 0x00, 0x00, 0x00, 0x00,
            0x00, 0x00, 0x00, 0x00, 0x00, 0x00,
            0x00, 0x00, 0x00, 0x00, 0x00, 0x00,
            0x00, 0x00, 0x00, 0x00, 0x00, 0x00,
            0x00, 0x00, 0x00, 0x00, 0x00, 0x00,
            0x00, 0x00, 0x00, 0x00, 0x00, 0x00,
    ]
}

/// Black-to-white lookup table for a quick (partial) refresh.
pub fn lut_bw_quick() -> (t: Vec<u8>)
    ensures
        t@ == spec_lut_bw_quick(),
{
    let t: Vec<u8> = vec![
        0xA0u8, 0x0E, 0x00, 0x00, 0x00, 0x01,
        0x00, 0x00, 0x00, 0x00, 0x00, 0x00,
        0x00, 0x00, 0x00, 0x00, 0x00, 0x00,
        0x00, 0x00, 0x00, 0x00, 0x00, 0x00,
        0x00, 0x00, 0x00, 0x00, 0x00, 0x00,
        0x00, 0x00, 0x00, 0x00, 0x00, 0x00,
        0x00, 0x00, 0x00, 0x00, 0x00, 0x00,
    ];
    assert(t@ =~= spec_lut_bw_quick());
    t
}

/// White-to-black lookup table for a quick (partial) refresh.
pub open spec fn spec_lut_wb_quick() -> Seq<u8> {
    seq![
            0x50u8, 0x0E, 0x00, 0x00, 0x00, 0x01,
            0x00, 0x00, 0x00, 0x00, 0x00, 0x00,
            0x00, 0x00, 0x00, 0x00, 0x00, 0x00,
            0x00, 0x00, 0x00, 0x00, 0x00, 0x00,
            0x00, 0x00, 0x00, 0x00, 0x00, 0x00,
            0x00, 0x00, 0x00, 0x00, 0x00, 0x00,
            0x00, 0x00, 0x00, 0x00, 0x00, 0x00,
    ]
}

/// White-to-black lookup table for a quick (partial) refresh.
pub fn lut_wb_quick() -> (t: Vec<u8>)
    ensures
        t@ == spec_lut_wb_quick(),
{
    let t: Vec<u8> = vec![
        0x50u8, 0x0E, 0x00, 0x00, 0x00, 0x01,
        0x00, 0x00, 0x00, 0x00, 0x00, 0x00,
        0x00, 0x00, 0x00, 0x00, 0x00, 0x00,
        0x00, 0x00, 0x00, 0x00, 0x00, 0x00,
        0x00, 0x00, 0x00, 0x00, 0x00, 0x00,
        0x00, 0x00, 0x00, 0x00, 0x00, 0x00,
        0x00, 0x00, 0x00, 0x00, 0x00, 0x00,
    ];
    assert(t@ =~= spec_lut_wb_quick());
    t
}

/// Black-to-black lookup table for a quick (partial) refresh.
pub open spec fn spec_lut_bb_quick() -> Seq<u8> {
    seq![
            0x50u8, 0x0E, 0x00, 0x00, 0x00, 0x01,
            0x00, 0x00, 0x00, 0x00, 0x00, 0x00,
            0x00, 0x00, 0x00, 0x00, 0x00, 0x00,
            0x00, 0x00, 0x00, 0x00, 0x00, 0x00,
            0x00, 0x00, 0x00, 0x00, 0x00, 0x00,
            0x00, 0x00, 0x00, 0x00, 0x00, 0x00,
            0x00, 0x00, 0x00, 0x00, 0x00, 0x00,
    ]
}

/// Black-to-black lookup table for a quick (partial) refresh.
pub fn lut_bb_quick() -> (t: Vec<u8>)
    ensures
        t@ == spec_lut_bb_quick(),
{
    let t: Vec<u8> = vec![
        0x50u8, 0x0E, 0x00, 0x00, 0x00, 0x01,
        0x00, 0x00, 0x00, 0x00, 0x00, 0x00,
        0x00, 0x00, 0x00, 0x00, 0x00, 0x00,
        0x00, 0x00, 0x00, 0x00, 0x00, 0x00,
        0x00, 0x00, 0x00, 0x00, 0x00, 0x00,
        0x00, 0x00, 0x00, 0x00, 0x00, 0x00,
        0x00, 0x00, 0x00, 0x00, 0x00, 0x00,
    ];
    assert(t@ =~= spec_lut_bb_quick());
    t
}

/// Waiting for the busy line.
pub open spec fn wait_ops(label: BusyLabel, timeout: u32) -> Seq<OpV> {
    seq![OpV::WaitBusy(label, timeout, POLL_MS)]
}

/// Hardware reset: three low pulses.
pub open spec fn reset_plan() -> Seq<OpV> {
    seq![
        OpV::Rst(false),
        OpV::DelayMs(2),
        OpV::Rst(true),
        OpV::DelayMs(20),
        OpV::Rst(false),
        OpV::DelayMs(2),
        OpV::Rst(true),
        OpV::DelayMs(20),
        OpV::Rst(false),
        OpV::DelayMs(2),
        OpV::Rst(true),
        OpV::DelayMs(20),
    ]
}

/// The panel resolution parameters: width then height, each as a big-endian 16-bit
/// number (400 = 0x0190, 300 = 0x012C).
pub open spec fn resolution_bytes() -> Seq<u8> {
    seq![0x01u8, 0x90u8, 0x01u8, 0x2Cu8]
}

/// Power-up and panel configuration, sent before every refresh.
pub open spec fn init_sequence_ops() -> Seq<OpV> {
    cmd_with_ops(CMD_POWER_SETTING, seq![0x03u8, 0x00u8, 0x2Bu8, 0x2Bu8]) + cmd_with_ops(
        CMD_BOOSTER_SOFT_START,
        seq![0x17u8, 0x17u8, 0x17u8],
    ) + cmd_ops(CMD_POWER_ON) + wait_ops(BusyLabel::PowerOn, 10000) + cmd_with_ops(
        CMD_PANEL_SETTING,
        seq![0xBFu8],
    ) + cmd_with_ops(CMD_PLL_CONTROL, seq![0x3Cu8]) + cmd_with_ops(
        CMD_RESOLUTION_SETTING,
        resolution_bytes(),
    ) + cmd_with_ops(CMD_VCOM_DC_SETTING, seq![0x12u8]) + cmd_with_ops(
        CMD_VCOM_DATA_INTERVAL,
        seq![0x97u8],
    )
}

/// Loading the five full-refresh lookup tables.
pub open spec fn lut_full_ops() -> Seq<OpV> {
    cmd_with_ops(CMD_LUT_VCOM, spec_lut_vcom()) + cmd_with_ops(CMD_LUT_WW, spec_lut_ww())
        + cmd_with_ops(CMD_LUT_BW, spec_lut_bw()) + cmd_with_ops(CMD_LUT_WB, spec_lut_wb())
        + cmd_with_ops(CMD_LUT_BB, spec_lut_bb())
}

/// Loading the five quick-refresh lookup tables.
pub open spec fn lut_quick_ops() -> Seq<OpV> {
    cmd_with_ops(CMD_LUT_VCOM, spec_lut_vcom_quick()) + cmd_with_ops(CMD_LUT_WW, spec_lut_ww_quick())
        + cmd_with_ops(CMD_LUT_BW, spec_lut_bw_quick()) + cmd_with_ops(CMD_LUT_WB, spec_lut_wb_quick())
        + cmd_with_ops(CMD_LUT_BB, spec_lut_bb_quick())
}

/// [`Il0398::init`]: reset and wait.
pub open spec fn init_plan() -> Seq<OpV> {
    reset_plan() + wait_ops(BusyLabel::Reset, 5000)
}

/// [`Il0398::flush`]: full refresh with the full lookup tables.
pub open spec fn flush_plan(fb: Seq<u8>) -> Seq<OpV> {
    init_sequence_ops() + lut_full_ops() + stream_ops(CMD_DATA_START_2, fb) + cmd_ops(
        CMD_DISPLAY_REFRESH,
    ) + wait_ops(BusyLabel::Refresh, 30000)
}

/// [`Il0398::flush_partial`]: quick refresh with register lookup tables.
pub open spec fn flush_partial_plan(fb: Seq<u8>) -> Seq<OpV> {
    init_sequence_ops() + cmd_with_ops(CMD_PANEL_SETTING, seq![0x3Fu8]) + lut_quick_ops() + stream_ops(
        CMD_DATA_START_2,
        fb,
    ) + cmd_ops(CMD_DISPLAY_REFRESH) + wait_ops(BusyLabel::Refresh, 30000)
}

/// [`Il0398::sleep`]: deep sleep; waking needs a hardware reset.
pub open spec fn sleep_plan() -> Seq<OpV> {
    cmd_with_ops(CMD_DEEP_SLEEP, seq![0xA5u8])
}

fn wait_busy(ops: &mut Vec<Op>, label: BusyLabel, timeout: u32)
    ensures
        plan_view(final(ops)@) == plan_view(old(ops)@) + wait_ops(label, timeout),
{
    push_op(ops, Op::WaitBusy(label, timeout, POLL_MS));
    assert(plan_view(old(ops)@).push(OpV::WaitBusy(label, timeout, POLL_MS)) =~= plan_view(old(ops)@)
        + wait_ops(label, timeout));
}

fn reset(ops: &mut Vec<Op>)
    ensures
        plan_view(final(ops)@) == plan_view(old(ops)@) + reset_plan(),
{
    push_op(ops, Op::Rst(false));
    push_op(ops, Op::DelayMs(2));
    push_op(ops, Op::Rst(true));
    push_op(ops, Op::DelayMs(20));
    push_op(ops, Op::Rst(false));
    push_op(ops, Op::DelayMs(2));
    push_op(ops, Op::Rst(true));
    push_op(ops, Op::DelayMs(20));
    push_op(ops, Op::Rst(false));
    push_op(ops, Op::DelayMs(2));
    push_op(ops, Op::Rst(true));
    push_op(ops, Op::DelayMs(20));
    assert(plan_view(ops@) =~= plan_view(old(ops)@) + reset_plan());
}

/// The resolution parameters, computed from the panel size.
fn resolution() -> (r: Vec<u8>)
    ensures
        r@ == resolution_bytes(),
{
    let w: u32 = WIDTH;
    let h: u32 = HEIGHT;
    assert((w >> 8) as u8 == 0x01u8 && (w & 0xFF) as u8 == 0x90u8) by (bit_vector)
        requires
            w == 400,
    ;
    assert((h >> 8) as u8 == 0x01u8 && (h & 0xFF) as u8 == 0x2Cu8) by (bit_vector)
        requires
            h == 300,
    ;
    bytes4((w >> 8) as u8, (w & 0xFF) as u8, (h >> 8) as u8, (h & 0xFF) as u8)
}

fn send_init_sequence(ops: &mut Vec<Op>)
    ensures
        plan_view(final(ops)@) == plan_view(old(ops)@) + init_sequence_ops(),
{
    cmd_with(ops, CMD_POWER_SETTING, bytes4(0x03, 0x00, 0x2B, 0x2B));
    cmd_with(ops, CMD_BOOSTER_SOFT_START, bytes3(0x17, 0x17, 0x17));
    cmd(ops, CMD_POWER_ON);
    wait_busy(ops, BusyLabel::PowerOn, 10000);
    cmd_with(ops, CMD_PANEL_SETTING, bytes1(0xBF));
    cmd_with(ops, CMD_PLL_CONTROL, bytes1(0x3C));
    cmd_with(ops, CMD_RESOLUTION_SETTING, resolution());
    cmd_with(ops, CMD_VCOM_DC_SETTING, bytes1(0x12));
    cmd_with(ops, CMD_VCOM_DATA_INTERVAL, bytes1(0x97));
    assert(plan_view(ops@) =~= plan_view(old(ops)@) + init_sequence_ops());
}

fn set_lut_full(ops: &mut Vec<Op>)
    ensures
        plan_view(final(ops)@) == plan_view(old(ops)@) + lut_full_ops(),
{
    cmd_with(ops, CMD_LUT_VCOM, lut_vcom());
    cmd_with(ops, CMD_LUT_WW, lut_ww());
    cmd_with(ops, CMD_LUT_BW, lut_bw());
    cmd_with(ops, CMD_LUT_WB, lut_wb());
    cmd_with(ops, CMD_LUT_BB, lut_bb());
    assert(plan_view(ops@) =~= plan_view(old(ops)@) + lut_full_ops());
}

fn set_lut_quick(ops: &mut Vec<Op>)
    ensures
        plan_view(final(ops)@) == plan_view(old(ops)@) + lut_quick_ops(),
{
    cmd_with(ops, CMD_LUT_VCOM, lut_vcom_quick());
    cmd_with(ops, CMD_LUT_WW, lut_ww_quick());
    cmd_with(ops, CMD_LUT_BW, lut_bw_quick());
    cmd_with(ops, CMD_LUT_WB, lut_wb_quick());
    cmd_with(ops, CMD_LUT_BB, lut_bb_quick());
    assert(plan_view(ops@) =~= plan_view(old(ops)@) + lut_quick_ops());
}

/// Sends the framebuffer as the new image data.
fn write_framebuffer(ops: &mut Vec<Op>, fb: &[u8; FB_SIZE])
    ensures
        plan_view(final(ops)@) == plan_view(old(ops)@) + stream_ops(CMD_DATA_START_2, fb@),
{
    push_stream(ops, CMD_DATA_START_2, fb);
}

impl Il0398 {
    /// The framebuffer contents.
    pub closed spec fn frame(&self) -> Seq<u8> {
        self.fb@
    }

    /// A driver over the given framebuffer.
    pub fn new(fb: [u8; FB_SIZE]) -> (r: Self)
        ensures
            r.frame() == fb@,
    {
        Il0398 { fb }
    }

    /// Hardware reset.
    pub fn init(&self) -> (plan: Vec<Op>)
        ensures
            plan_view(plan@) == init_plan(),
    {
        let mut ops: Vec<Op> = Vec::new();
        reset(&mut ops);
        wait_busy(&mut ops, BusyLabel::Reset, 5000);
        assert(plan_view(ops@) =~= init_plan());
        ops
    }

    /// Paints the whole framebuffer white.
    pub fn clear_white(&mut self)
        ensures
            final(self).frame() == all_white(),
    {
        fill_white(&mut self.fb);
    }

    /// The framebuffer, for reading.
    pub fn framebuffer(&self) -> (r: &[u8; FB_SIZE])
        ensures
            r@ == self.frame(),
    {
        &self.fb
    }

    /// The framebuffer, for writing.
    pub fn framebuffer_mut(&mut self) -> (r: &mut [u8; FB_SIZE])
        ensures
            r@ == old(self).frame(),
            final(self).frame() == final(r)@,
    {
        &mut self.fb
    }

    /// Full refresh: clean, no ghosting.
    pub fn flush(&self) -> (plan: Vec<Op>)
        ensures
            plan_view(plan@) == flush_plan(self.frame()),
    {
        let mut ops: Vec<Op> = Vec::new();
        send_init_sequence(&mut ops);
        set_lut_full(&mut ops);
        write_framebuffer(&mut ops, &self.fb);
        cmd(&mut ops, CMD_DISPLAY_REFRESH);
        wait_busy(&mut ops, BusyLabel::Refresh, 30000);
        assert(plan_view(ops@) =~= flush_plan(self.fb@));
        ops
    }

    /// Quick (partial) refresh: faster, may ghost over time.
    pub fn flush_partial(&self) -> (plan: Vec<Op>)
        ensures
            plan_view(plan@) == flush_partial_plan(self.frame()),
    {
        let mut ops: Vec<Op> = Vec::new();
        send_init_sequence(&mut ops);
        cmd_with(&mut ops, CMD_PANEL_SETTING, bytes1(0x3F));
        set_lut_quick(&mut ops);
        write_framebuffer(&mut ops, &self.fb);
        cmd(&mut ops, CMD_DISPLAY_REFRESH);
        wait_busy(&mut ops, BusyLabel::Refresh, 30000);
        assert(plan_view(ops@) =~= flush_partial_plan(self.fb@));
        ops
    }

    /// Deep sleep; waking needs a hardware reset.
    pub fn sleep(&self) -> (plan: Vec<Op>)
        ensures
            plan_view(plan@) == sleep_plan(),
    {
        let mut ops: Vec<Op> = Vec::new();
        cmd_with(&mut ops, CMD_DEEP_SLEEP, bytes1(0xA5));
        assert(plan_view(ops@) =~= sleep_plan());
        ops
    }

    /// Paints pixel `(x, y)`; off-panel pixels are ignored.
    pub fn set_pixel(&mut self, x: u32, y: u32, black: bool)
        ensures
            final(self).frame() == with_pixel(old(self).frame(), x as int, y as int, black),
    {
        set_pixel(&mut self.fb, x, y, black);
    }

    /// Paints `(x, y, black)` pixels in order, skipping negative coordinates.
    pub fn draw_iter(&mut self, pixels: &Vec<(i32, i32, bool)>)
        ensures
            final(self).frame() == with_pixels(old(self).frame(), pixels@),
    {
        draw_pixels(&mut self.fb, pixels);
    }
}


proof fn lemma_block(c: u8, d: Seq<u8>)
    ensures
        framed(cmd_ops(c)),
        no_marker(cmd_ops(c)),
        framed(cmd_with_ops(c, d)),
        no_marker(cmd_with_ops(c, d)),
{
    lemma_cmd_framed(c);
    lemma_cmd_with_framed(c, d);
    lemma_cmd_with_no_marker(c, d);
}

proof fn lemma_join(a: Seq<OpV>, b: Seq<OpV>)
    requires
        framed(a),
        no_marker(a),
        framed(b),
        no_marker(b),
    ensures
        framed(a + b),
        no_marker(a + b),
{
    lemma_framed_concat(a, b);
    lemma_no_marker_concat(a, b);
}

proof fn lemma_wait(label: BusyLabel, timeout: u32)
    ensures
        framed(wait_ops(label, timeout)),
        no_marker(wait_ops(label, timeout)),
{
    lemma_quiet_framed(wait_ops(label, timeout));
}

proof fn lemma_init_sequence()
    ensures
        framed(init_sequence_ops()),
        no_marker(init_sequence_ops()),
{
    let a = cmd_with_ops(CMD_POWER_SETTING, seq![0x03u8, 0x00u8, 0x2Bu8, 0x2Bu8]);
    let b = cmd_with_ops(CMD_BOOSTER_SOFT_START, seq![0x17u8, 0x17u8, 0x17u8]);
    let c = cmd_ops(CMD_POWER_ON);
    let d = wait_ops(BusyLabel::PowerOn, 10000);
    let e = cmd_with_ops(CMD_PANEL_SETTING, seq![0xBFu8]);
    let f = cmd_with_ops(CMD_PLL_CONTROL, seq![0x3Cu8]);
    let g = cmd_with_ops(CMD_RESOLUTION_SETTING, resolution_bytes());
    let h = cmd_with_ops(CMD_VCOM_DC_SETTING, seq![0x12u8]);
    let i = cmd_with_ops(CMD_VCOM_DATA_INTERVAL, seq![0x97u8]);
    lemma_block(CMD_POWER_SETTING, seq![0x03u8, 0x00u8, 0x2Bu8, 0x2Bu8]);
    lemma_block(CMD_BOOSTER_SOFT_START, seq![0x17u8, 0x17u8, 0x17u8]);
    lemma_block(CMD_POWER_ON, seq![]);
    lemma_wait(BusyLabel::PowerOn, 10000);
    lemma_block(CMD_PANEL_SETTING, seq![0xBFu8]);
    lemma_block(CMD_PLL_CONTROL, seq![0x3Cu8]);
    lemma_block(CMD_RESOLUTION_SETTING, resolution_bytes());
    lemma_block(CMD_VCOM_DC_SETTING, seq![0x12u8]);
    lemma_block(CMD_VCOM_DATA_INTERVAL, seq![0x97u8]);
    lemma_join(a, b);
    lemma_join(a + b, c);
    lemma_join(a + b + c, d);
    lemma_join(a + b + c + d, e);
    lemma_join(a + b + c + d + e, f);
    lemma_join(a + b + c + d + e + f, g);
    lemma_join(a + b + c + d + e + f + g, h);
    lemma_join(a + b + c + d + e + f + g + h, i);
}

proof fn lemma_luts(vcom: Seq<u8>, ww: Seq<u8>, bw: Seq<u8>, wb: Seq<u8>, bb: Seq<u8>)
    ensures
        framed(cmd_with_ops(CMD_LUT_VCOM, vcom) + cmd_with_ops(CMD_LUT_WW, ww) + cmd_with_ops(CMD_LUT_BW, bw)
            + cmd_with_ops(CMD_LUT_WB, wb) + cmd_with_ops(CMD_LUT_BB, bb)),
        no_marker(cmd_with_ops(CMD_LUT_VCOM, vcom) + cmd_with_ops(CMD_LUT_WW, ww) + cmd_with_ops(
            CMD_LUT_BW,
            bw,
        ) + cmd_with_ops(CMD_LUT_WB, wb) + cmd_with_ops(CMD_LUT_BB, bb)),
{
    let a = cmd_with_ops(CMD_LUT_VCOM, vcom);
    let b = cmd_with_ops(CMD_LUT_WW, ww);
    let c = cmd_with_ops(CMD_LUT_BW, bw);
    let d = cmd_with_ops(CMD_LUT_WB, wb);
    let e = cmd_with_ops(CMD_LUT_BB, bb);
    lemma_block(CMD_LUT_VCOM, vcom);
    lemma_block(CMD_LUT_WW, ww);
    lemma_block(CMD_LUT_BW, bw);
    lemma_block(CMD_LUT_WB, wb);
    lemma_block(CMD_LUT_BB, bb);
    lemma_join(a, b);
    lemma_join(a + b, c);
    lemma_join(a + b + c, d);
    lemma_join(a + b + c + d, e);
}

/// Every plan of this driver only transfers while the chip is selected, sends each
/// command as a single byte in command mode, and leaves the chip deselected.
pub proof fn lemma_plans_framed(fb: Seq<u8>)
    ensures
        framed(init_plan()),
        framed(flush_plan(fb)),
        framed(flush_partial_plan(fb)),
        framed(sleep_plan()),
{
    lemma_plans(fb, false);
}

/// No plan of this driver records anything about initialization: this controller is
/// brought up again at every refresh.
pub proof fn lemma_plans_keep_flag(fb: Seq<u8>, s: bool)
    ensures
        initialized_after(init_plan(), s) == s,
        initialized_after(flush_plan(fb), s) == s,
        initialized_after(flush_partial_plan(fb), s) == s,
        initialized_after(sleep_plan(), s) == s,
{
    lemma_plans(fb, s);
}

proof fn lemma_plans(fb: Seq<u8>, s: bool)
    ensures
        initialized_after(init_plan(), s) == s,
        initialized_after(flush_plan(fb), s) == s,
        initialized_after(flush_partial_plan(fb), s) == s,
        initialized_after(sleep_plan(), s) == s,
        framed(init_plan()),
        framed(flush_plan(fb)),
        framed(flush_partial_plan(fb)),
        framed(sleep_plan()),
{
    assert(quiet(init_plan()));
    lemma_quiet_framed(init_plan());
    assert(no_marker(init_plan()));
    lemma_init_sequence();
    lemma_luts(spec_lut_vcom(), spec_lut_ww(), spec_lut_bw(), spec_lut_wb(), spec_lut_bb());
    lemma_luts(
        spec_lut_vcom_quick(),
        spec_lut_ww_quick(),
        spec_lut_bw_quick(),
        spec_lut_wb_quick(),
        spec_lut_bb_quick(),
    );
    lemma_stream_framed(CMD_DATA_START_2, fb);
    lemma_stream_no_marker(CMD_DATA_START_2, fb);
    lemma_block(CMD_DISPLAY_REFRESH, seq![]);
    lemma_block(CMD_PANEL_SETTING, seq![0x3Fu8]);
    lemma_block(CMD_DEEP_SLEEP, seq![0xA5u8]);
    lemma_wait(BusyLabel::Refresh, 30000);
    let init = init_sequence_ops();
    let stream = stream_ops(CMD_DATA_START_2, fb);
    let refresh = cmd_ops(CMD_DISPLAY_REFRESH);
    let w = wait_ops(BusyLabel::Refresh, 30000);
    lemma_join(init, lut_full_ops());
    lemma_join(init + lut_full_ops(), stream);
    lemma_join(init + lut_full_ops() + stream, refresh);
    lemma_join(init + lut_full_ops() + stream + refresh, w);
    let p = cmd_with_ops(CMD_PANEL_SETTING, seq![0x3Fu8]);
    lemma_join(init, p);
    lemma_join(init + p, lut_quick_ops());
    lemma_join(init + p + lut_quick_ops(), stream);
    lemma_join(init + p + lut_quick_ops() + stream, refresh);
    lemma_join(init + p + lut_quick_ops() + stream + refresh, w);
    lemma_no_marker_keeps(init_plan(), s);
    lemma_no_marker_keeps(flush_plan(fb), s);
    lemma_no_marker_keeps(flush_partial_plan(fb), s);
    lemma_no_marker_keeps(sleep_plan(), s);
}

proof fn lemma_init_with(c: u8, d: Seq<u8>)
    requires
        CMD_LUT_VCOM <= c <= CMD_LUT_BB,
    ensures
        always_with(init_sequence_ops(), c, d),
{
    let a = cmd_with_ops(CMD_POWER_SETTING, seq![0x03u8, 0x00u8, 0x2Bu8, 0x2Bu8]);
    let b = cmd_with_ops(CMD_BOOSTER_SOFT_START, seq![0x17u8, 0x17u8, 0x17u8]);
    let e = cmd_with_ops(CMD_PANEL_SETTING, seq![0xBFu8]);
    let f = cmd_with_ops(CMD_PLL_CONTROL, seq![0x3Cu8]);
    let g = cmd_with_ops(CMD_RESOLUTION_SETTING, resolution_bytes());
    let h = cmd_with_ops(CMD_VCOM_DC_SETTING, seq![0x12u8]);
    let i = cmd_with_ops(CMD_VCOM_DATA_INTERVAL, seq![0x97u8]);
    let p = cmd_ops(CMD_POWER_ON);
    let w = wait_ops(BusyLabel::PowerOn, 10000);
    assert(seq![0xBFu8] != seq![c]) by { assert(seq![0xBFu8][0] != seq![c][0]); }
    assert(seq![0x3Cu8] != seq![c]) by { assert(seq![0x3Cu8][0] != seq![c][0]); }
    assert(seq![0x12u8] != seq![c]) by { assert(seq![0x12u8][0] != seq![c][0]); }
    assert(seq![0x97u8] != seq![c]) by { assert(seq![0x97u8][0] != seq![c][0]); }
    lemma_with_cmd_with(CMD_POWER_SETTING, seq![0x03u8, 0x00u8, 0x2Bu8, 0x2Bu8], c, d);
    lemma_with_cmd_with(CMD_BOOSTER_SOFT_START, seq![0x17u8, 0x17u8, 0x17u8], c, d);
    lemma_with_cmd(CMD_POWER_ON, c, d);
    lemma_with_quiet(w, c, d);
    lemma_with_cmd_with(CMD_PANEL_SETTING, seq![0xBFu8], c, d);
    lemma_with_cmd_with(CMD_PLL_CONTROL, seq![0x3Cu8], c, d);
    lemma_with_cmd_with(CMD_RESOLUTION_SETTING, resolution_bytes(), c, d);
    lemma_with_cmd_with(CMD_VCOM_DC_SETTING, seq![0x12u8], c, d);
    lemma_with_cmd_with(CMD_VCOM_DATA_INTERVAL, seq![0x97u8], c, d);
    lemma_with_concat(a, b, c, d);
    lemma_with_concat(a + b, p, c, d);
    lemma_with_concat(a + b + p, w, c, d);
    lemma_with_concat(a + b + p + w, e, c, d);
    lemma_with_concat(a + b + p + w + e, f, c, d);
    lemma_with_concat(a + b + p + w + e + f, g, c, d);
    lemma_with_concat(a + b + p + w + e + f + g, h, c, d);
    lemma_with_concat(a + b + p + w + e + f + g + h, i, c, d);
}

proof fn lemma_luts_with(
    vcom: Seq<u8>,
    ww: Seq<u8>,
    bw: Seq<u8>,
    wb: Seq<u8>,
    bb: Seq<u8>,
    c: u8,
    d: Seq<u8>,
)
    requires
        CMD_LUT_VCOM <= c <= CMD_LUT_BB,
        vcom.len() > 1,
        ww.len() > 1,
        bw.len() > 1,
        wb.len() > 1,
        bb.len() > 1,
        c == CMD_LUT_VCOM ==> d == vcom,
        c == CMD_LUT_WW ==> d == ww,
        c == CMD_LUT_BW ==> d == bw,
        c == CMD_LUT_WB ==> d == wb,
        c == CMD_LUT_BB ==> d == bb,
    ensures
        sends_with(
            cmd_with_ops(CMD_LUT_VCOM, vcom) + cmd_with_ops(CMD_LUT_WW, ww) + cmd_with_ops(CMD_LUT_BW, bw)
                + cmd_with_ops(CMD_LUT_WB, wb) + cmd_with_ops(CMD_LUT_BB, bb),
            c,
            d,
        ),
{
    let a = cmd_with_ops(CMD_LUT_VCOM, vcom);
    let b = cmd_with_ops(CMD_LUT_WW, ww);
    let e = cmd_with_ops(CMD_LUT_BW, bw);
    let f = cmd_with_ops(CMD_LUT_WB, wb);
    let g = cmd_with_ops(CMD_LUT_BB, bb);
    lemma_with_cmd_with(CMD_LUT_VCOM, vcom, c, d);
    lemma_with_cmd_with(CMD_LUT_WW, ww, c, d);
    lemma_with_cmd_with(CMD_LUT_BW, bw, c, d);
    lemma_with_cmd_with(CMD_LUT_WB, wb, c, d);
    lemma_with_cmd_with(CMD_LUT_BB, bb, c, d);
    lemma_with_concat(a, b, c, d);
    lemma_with_concat(a + b, e, c, d);
    lemma_with_concat(a + b + e, f, c, d);
    lemma_with_concat(a + b + e + f, g, c, d);
}

/// Each lookup table goes under its own command. The full refresh sends the VCOM,
/// white-to-white, black-to-white, white-to-black and black-to-black tables of the full
/// waveform after their commands, and the quick refresh those of the quick waveform;
/// every time a refresh plan sends one of these commands, the bytes that follow it as
/// its data are that table.
pub proof fn lemma_lut_tables(fb: Seq<u8>)
    requires
        fb.len() == FB_SIZE,
    ensures
        sends_with(flush_plan(fb), CMD_LUT_VCOM, spec_lut_vcom()),
        sends_with(flush_plan(fb), CMD_LUT_WW, spec_lut_ww()),
        sends_with(flush_plan(fb), CMD_LUT_BW, spec_lut_bw()),
        sends_with(flush_plan(fb), CMD_LUT_WB, spec_lut_wb()),
        sends_with(flush_plan(fb), CMD_LUT_BB, spec_lut_bb()),
        sends_with(flush_partial_plan(fb), CMD_LUT_VCOM, spec_lut_vcom_quick()),
        sends_with(flush_partial_plan(fb), CMD_LUT_WW, spec_lut_ww_quick()),
        sends_with(flush_partial_plan(fb), CMD_LUT_BW, spec_lut_bw_quick()),
        sends_with(flush_partial_plan(fb), CMD_LUT_WB, spec_lut_wb_quick()),
        sends_with(flush_partial_plan(fb), CMD_LUT_BB, spec_lut_bb_quick()),
{
    lemma_full_tables(fb, CMD_LUT_VCOM, spec_lut_vcom());
    lemma_full_tables(fb, CMD_LUT_WW, spec_lut_ww());
    lemma_full_tables(fb, CMD_LUT_BW, spec_lut_bw());
    lemma_full_tables(fb, CMD_LUT_WB, spec_lut_wb());
    lemma_full_tables(fb, CMD_LUT_BB, spec_lut_bb());
    lemma_quick_tables(fb, CMD_LUT_VCOM, spec_lut_vcom_quick());
    lemma_quick_tables(fb, CMD_LUT_WW, spec_lut_ww_quick());
    lemma_quick_tables(fb, CMD_LUT_BW, spec_lut_bw_quick());
    lemma_quick_tables(fb, CMD_LUT_WB, spec_lut_wb_quick());
    lemma_quick_tables(fb, CMD_LUT_BB, spec_lut_bb_quick());
}

proof fn lemma_full_tables(fb: Seq<u8>, c: u8, d: Seq<u8>)
    requires
        fb.len() == FB_SIZE,
        CMD_LUT_VCOM <= c <= CMD_LUT_BB,
        c == CMD_LUT_VCOM ==> d == spec_lut_vcom(),
        c == CMD_LUT_WW ==> d == spec_lut_ww(),
        c == CMD_LUT_BW ==> d == spec_lut_bw(),
        c == CMD_LUT_WB ==> d == spec_lut_wb(),
        c == CMD_LUT_BB ==> d == spec_lut_bb(),
    ensures
        sends_with(flush_plan(fb), c, d),
{
    let init = init_sequence_ops();
    let luts = lut_full_ops();
    let stream = stream_ops(CMD_DATA_START_2, fb);
    let refresh = cmd_ops(CMD_DISPLAY_REFRESH);
    let w = wait_ops(BusyLabel::Refresh, 30000);
    lemma_init_with(c, d);
    assert(sends_with(luts, c, d)) by {
        lemma_luts_with(spec_lut_vcom(), spec_lut_ww(), spec_lut_bw(), spec_lut_wb(), spec_lut_bb(), c, d);
    }
    lemma_with_stream(CMD_DATA_START_2, fb, c, d);
    lemma_with_cmd(CMD_DISPLAY_REFRESH, c, d);
    lemma_with_quiet(w, c, d);
    lemma_with_concat(init, luts, c, d);
    lemma_with_concat(init + luts, stream, c, d);
    lemma_with_concat(init + luts + stream, refresh, c, d);
    lemma_with_concat(init + luts + stream + refresh, w, c, d);
}

proof fn lemma_quick_tables(fb: Seq<u8>, c: u8, d: Seq<u8>)
    requires
        fb.len() == FB_SIZE,
        CMD_LUT_VCOM <= c <= CMD_LUT_BB,
        c == CMD_LUT_VCOM ==> d == spec_lut_vcom_quick(),
        c == CMD_LUT_WW ==> d == spec_lut_ww_quick(),
        c == CMD_LUT_BW ==> d == spec_lut_bw_quick(),
        c == CMD_LUT_WB ==> d == spec_lut_wb_quick(),
        c == CMD_LUT_BB ==> d == spec_lut_bb_quick(),
    ensures
        sends_with(flush_partial_plan(fb), c, d),
{
    let init = init_sequence_ops();
    let p = cmd_with_ops(CMD_PANEL_SETTING, seq![0x3Fu8]);
    let luts = lut_quick_ops();
    let stream = stream_ops(CMD_DATA_START_2, fb);
    let refresh = cmd_ops(CMD_DISPLAY_REFRESH);
    let w = wait_ops(BusyLabel::Refresh, 30000);
    lemma_init_with(c, d);
    assert(seq![0x3Fu8] != seq![c]) by { assert(seq![0x3Fu8][0] != seq![c][0]); }
    lemma_with_cmd_with(CMD_PANEL_SETTING, seq![0x3Fu8], c, d);
    assert(sends_with(luts, c, d)) by {
        lemma_luts_with(
            spec_lut_vcom_quick(),
            spec_lut_ww_quick(),
            spec_lut_bw_quick(),
            spec_lut_wb_quick(),
            spec_lut_bb_quick(),
            c,
            d,
        );
    }
    lemma_with_stream(CMD_DATA_START_2, fb, c, d);
    lemma_with_cmd(CMD_DISPLAY_REFRESH, c, d);
    lemma_with_quiet(w, c, d);
    lemma_with_concat(init, p, c, d);
    lemma_with_concat(init + p, luts, c, d);
    lemma_with_concat(init + p + luts, stream, c, d);
    lemma_with_concat(init + p + luts + stream, refresh, c, d);
    lemma_with_concat(init + p + luts + stream + refresh, w, c, d);
}

/// Both refreshes send the image before they start the refresh: each plan ends by sending
/// the refresh command and waiting for the busy line, and the bytes it puts on the bus
/// just before that command are the new-data command followed by exactly the framebuffer.
pub proof fn lemma_image_before_refresh(fb: Seq<u8>)
    requires
        fb.len() == FB_SIZE,
    ensures
        flush_plan(fb).len() >= 6,
        flush_plan(fb).skip(flush_plan(fb).len() - 6) == cmd_ops(CMD_DISPLAY_REFRESH) + wait_ops(
            BusyLabel::Refresh,
            30000,
        ),
        payload(flush_plan(fb).take(flush_plan(fb).len() - 6)).len() >= FB_SIZE + 1,
        payload(flush_plan(fb).take(flush_plan(fb).len() - 6)).skip(
            payload(flush_plan(fb).take(flush_plan(fb).len() - 6)).len() - (FB_SIZE + 1),
        ) == seq![CMD_DATA_START_2] + fb,
        flush_partial_plan(fb).len() >= 6,
        flush_partial_plan(fb).skip(flush_partial_plan(fb).len() - 6) == cmd_ops(CMD_DISPLAY_REFRESH)
            + wait_ops(BusyLabel::Refresh, 30000),
        payload(flush_partial_plan(fb).take(flush_partial_plan(fb).len() - 6)).len() >= FB_SIZE + 1,
        payload(flush_partial_plan(fb).take(flush_partial_plan(fb).len() - 6)).skip(
            payload(flush_partial_plan(fb).take(flush_partial_plan(fb).len() - 6)).len() - (FB_SIZE + 1),
        ) == seq![CMD_DATA_START_2] + fb,
{
    let stream = stream_ops(CMD_DATA_START_2, fb);
    let tail = cmd_ops(CMD_DISPLAY_REFRESH) + wait_ops(BusyLabel::Refresh, 30000);
    lemma_stream_payload(CMD_DATA_START_2, fb);
    let x = init_sequence_ops() + lut_full_ops();
    let p = flush_plan(fb);
    assert(p =~= (x + stream) + tail);
    assert(p.skip(p.len() - 6) =~= tail);
    assert(p.take(p.len() - 6) =~= x + stream);
    lemma_payload_concat(x, stream);
    assert(payload(x + stream).skip(payload(x + stream).len() - (FB_SIZE + 1)) =~= seq![CMD_DATA_START_2]
        + fb);
    let y = init_sequence_ops() + cmd_with_ops(CMD_PANEL_SETTING, seq![0x3Fu8]) + lut_quick_ops();
    let q = flush_partial_plan(fb);
    assert(q =~= (y + stream) + tail);
    assert(q.skip(q.len() - 6) =~= tail);
    assert(q.take(q.len() - 6) =~= y + stream);
    lemma_payload_concat(y, stream);
    assert(payload(y + stream).skip(payload(y + stream).len() - (FB_SIZE + 1)) =~= seq![CMD_DATA_START_2]
        + fb);
}

} // verus!
