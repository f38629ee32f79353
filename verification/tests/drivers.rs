use waveshare_epaper::bus::{BusyAction, BusyLabel, BusyPoll, Op};
use waveshare_epaper::framebuffer::FB_SIZE;
use waveshare_epaper::il0398::Il0398;
use waveshare_epaper::ssd1683::Ssd1683;

/// The (data/command, bytes) transfers of a plan.
fn transfers(plan: &[Op]) -> Vec<(bool, Vec<u8>)> {
    let mut dc = false;
    let mut out = Vec::new();
    for op in plan {
        match op {
            Op::Dc(d) => dc = *d,
            Op::Write(b) => out.push((dc, b.clone())),
            _ => {}
        }
    }
    out
}

/// The command bytes of a plan, in order.
fn commands(plan: &[Op]) -> Vec<u8> {
    transfers(plan).into_iter().filter(|(d, _)| !d).map(|(_, b)| b[0]).collect()
}

/// Checks chip-select framing the way the hardware sees it.
fn framed(plan: &[Op]) -> bool {
    let mut selected = false;
    let mut dc: Option<bool> = None;
    for op in plan {
        match op {
            Op::Cs(high) => selected = !high,
            Op::Dc(d) => dc = Some(*d),
            Op::Write(b) => {
                if !selected || dc.is_none() || (dc == Some(false) && b.len() != 1) {
                    return false;
                }
            }
            Op::Flush => {
                if !selected {
                    return false;
                }
            }
            _ => {}
        }
    }
    !selected
}

fn patterned() -> [u8; FB_SIZE] {
    let mut fb = [0u8; FB_SIZE];
    for (i, b) in fb.iter_mut().enumerate() {
        *b = (i % 251) as u8;
    }
    fb
}

#[test]
fn ssd1683_sleep_plan() {
    let d = Ssd1683::new([0xFF; FB_SIZE]);
    let plan = d.sleep();
    assert_eq!(
        plan,
        vec![
            Op::Dc(false),
            Op::Cs(false),
            Op::Write(vec![0x10]),
            Op::Flush,
            Op::Cs(true),
            Op::Dc(true),
            Op::Cs(false),
            Op::Write(vec![0x01]),
            Op::Flush,
            Op::Cs(true),
            Op::SetInitialized(false),
        ]
    );
}

#[test]
fn ssd1683_init_plan() {
    let d = Ssd1683::new([0xFF; FB_SIZE]);
    let plan = d.init();
    assert_eq!(
        &plan[..7],
        &[
            Op::Rst(true),
            Op::DelayMs(20),
            Op::Rst(false),
            Op::DelayMs(2),
            Op::Rst(true),
            Op::DelayMs(20),
            Op::WaitBusy(BusyLabel::Reset, 5000, 10),
        ]
    );
    assert_eq!(commands(&plan), vec![0x12, 0x21, 0x3C, 0x11, 0x44, 0x45, 0x4E, 0x4F]);
    let t = transfers(&plan);
    assert!(t.contains(&(true, vec![0x00, 0x31])));
    assert!(t.contains(&(true, vec![0x00, 0x00, 0x2B, 0x01])));
    assert_eq!(plan.last(), Some(&Op::SetInitialized(true)));
    assert!(framed(&plan));
}

#[test]
fn ssd1683_flush_initializes_only_once() {
    let mut d = Ssd1683::new(patterned());
    let first = d.flush();
    assert_eq!(commands(&first)[0], 0x12);
    for op in &first {
        d.note_done(op);
    }
    let second = d.flush();
    assert_ne!(commands(&second)[0], 0x12);
    assert!(!second.iter().any(|op| matches!(op, Op::SetInitialized(_))));
    assert!(framed(&first) && framed(&second));
    for op in &d.sleep() {
        d.note_done(op);
    }
    assert_eq!(commands(&d.flush_partial())[0], 0x12);
}

#[test]
fn ssd1683_flush_sends_frame_to_both_rams() {
    let fb = patterned();
    let mut d = Ssd1683::new(fb);
    for op in &d.init() {
        d.note_done(op);
    }
    let plan = d.flush();
    let t = transfers(&plan);
    // previous RAM, then current RAM, each followed by the whole frame in 50-byte rows
    let red = t.iter().position(|x| *x == (false, vec![0x26])).unwrap();
    let bw = t.iter().position(|x| *x == (false, vec![0x24])).unwrap();
    assert!(red < bw);
    let rows: Vec<u8> = t[red + 1..red + 301].iter().flat_map(|(_, b)| b.clone()).collect();
    assert_eq!(rows, fb.to_vec());
    let rows: Vec<u8> = t[bw + 1..bw + 301].iter().flat_map(|(_, b)| b.clone()).collect();
    assert_eq!(rows, fb.to_vec());
    assert_eq!(&commands(&plan)[commands(&plan).len() - 3..], &[0x21, 0x22, 0x20]);
    assert!(t.contains(&(true, vec![0xF7])));
    assert_eq!(plan.last(), Some(&Op::WaitBusy(BusyLabel::Refresh, 30000, 10)));
}

#[test]
fn ssd1683_flush_fast_uses_temperature() {
    let mut d = Ssd1683::new([0xFF; FB_SIZE]);
    for op in &d.init() {
        d.note_done(op);
    }
    let t = transfers(&d.flush_fast());
    let temp = t.iter().position(|x| *x == (false, vec![0x1A])).unwrap();
    assert_eq!(t[temp + 1], (true, vec![0x6E]));
    assert_eq!(t[temp + 3], (true, vec![0xD7]));
}

#[test]
fn ssd1683_flush_partial_copies_to_previous() {
    let mut d = Ssd1683::new([0xFF; FB_SIZE]);
    for op in &d.init() {
        d.note_done(op);
    }
    let plan = d.flush_partial();
    let cmds = commands(&plan);
    let ram_cmds: Vec<u8> = cmds.iter().copied().filter(|c| *c == 0x24 || *c == 0x26).collect();
    assert_eq!(ram_cmds, vec![0x24, 0x24, 0x26]);
    let t = transfers(&plan);
    assert!(t.contains(&(true, vec![0xFC])));
    assert!(t.contains(&(true, vec![0x80])));
    assert!(framed(&plan));
}

#[test]
fn ssd1683_pixels_and_clear() {
    let mut d = Ssd1683::new([0u8; FB_SIZE]);
    d.clear_white();
    assert!(d.framebuffer().iter().all(|b| *b == 0xFF));
    d.set_pixel(8, 1, true);
    assert_eq!(d.framebuffer()[51], 0x7F);
    d.draw_iter(&vec![(8, 1, false), (-3, 0, true)]);
    assert!(d.framebuffer().iter().all(|b| *b == 0xFF));
    d.framebuffer_mut()[7] = 0x12;
    assert_eq!(d.framebuffer()[7], 0x12);
}

#[test]
fn il0398_flush_plan() {
    let fb = patterned();
    let d = Il0398::new(fb);
    let plan = d.flush();
    assert!(framed(&plan));
    assert_eq!(
        commands(&plan),
        vec![0x01, 0x06, 0x04, 0x00, 0x30, 0x61, 0x82, 0x50, 0x20, 0x21, 0x22, 0x23, 0x24, 0x13, 0x12]
    );
    let t = transfers(&plan);
    assert!(t.contains(&(true, vec![0x01, 0x90, 0x01, 0x2C])));
    assert!(t.contains(&(true, vec![0xBF])));
    let vcom = t.iter().position(|x| *x == (false, vec![0x20])).unwrap();
    assert_eq!(t[vcom + 1].1.len(), 44);
    assert_eq!(t[vcom + 3].1.len(), 42);
    assert_eq!(t[vcom + 3].1[0], 0x40);
    let data = t.iter().position(|x| *x == (false, vec![0x13])).unwrap();
    let rows: Vec<u8> = t[data + 1..data + 301].iter().flat_map(|(_, b)| b.clone()).collect();
    assert_eq!(rows, fb.to_vec());
    assert!(plan.contains(&Op::WaitBusy(BusyLabel::PowerOn, 10000, 100)));
}

#[test]
fn il0398_flush_partial_plan() {
    let d = Il0398::new([0xFF; FB_SIZE]);
    let plan = d.flush_partial();
    let t = transfers(&plan);
    let panel = t.iter().rposition(|x| *x == (false, vec![0x00])).unwrap();
    assert_eq!(t[panel + 1], (true, vec![0x3F]));
    let vcom = t.iter().position(|x| *x == (false, vec![0x20])).unwrap();
    assert_eq!(&t[vcom + 1].1[..6], &[0x00, 0x0E, 0x00, 0x00, 0x00, 0x01]);
    assert!(framed(&plan));
}

#[test]
fn il0398_init_and_sleep() {
    let d = Il0398::new([0xFF; FB_SIZE]);
    let init = d.init();
    assert_eq!(init.len(), 13);
    assert_eq!(init[0], Op::Rst(false));
    assert_eq!(init[12], Op::WaitBusy(BusyLabel::Reset, 5000, 100));
    let sleep = d.sleep();
    assert_eq!(transfers(&sleep), vec![(false, vec![0x07]), (true, vec![0xA5])]);
}

#[test]
fn busy_poll_ready_at_once() {
    let (mut p, first) = BusyPoll::start(5000, 10);
    assert_eq!(first, 10);
    assert_eq!(p.on_reading(Some(false)), BusyAction::Ready(10));
}

#[test]
fn busy_poll_ready_after_waits() {
    let (mut p, _) = BusyPoll::start(5000, 100);
    assert_eq!(p.on_reading(Some(true)), BusyAction::Delay(100));
    assert_eq!(p.on_reading(None), BusyAction::Delay(100));
    assert_eq!(p.on_reading(Some(false)), BusyAction::Ready(210));
}

#[test]
fn busy_poll_times_out() {
    let (mut p, _) = BusyPoll::start(50, 10);
    let mut steps = 0;
    loop {
        match p.on_reading(Some(true)) {
            BusyAction::Delay(10) => steps += 1,
            BusyAction::DelayThenGiveUp(10, total) => {
                assert_eq!(total, 50);
                break;
            }
            other => panic!("unexpected {:?}", other),
        }
    }
    assert_eq!(steps, 3);
}
