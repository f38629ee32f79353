//! The wire-level operations that the panel drivers hand to the hardware, and the
//! busy-line polling that sits between them.
//!
//! A driver method does not touch the hardware itself: it returns a plan, a list of
//! [`Op`]s that the caller carries out in order, stopping at the first one that fails.
use vstd::prelude::*;

verus! {

/// What a busy wait is waiting for (used only to label progress messages).
#[derive(Clone, Copy, Debug, PartialEq, Eq)]
pub enum BusyLabel {
    Reset,
    SwReset,
    Init,
    PowerOn,
    Refresh,
}

/// One step of a plan.
#[derive(Debug, PartialEq, Eq)]
pub enum Op {
    /// Drive the data/command line: `true` is data (high), `false` is command (low).
    Dc(bool),
    /// Drive chip select: `true` deselects (high), `false` selects (low).
    Cs(bool),
    /// Drive the reset line high (`true`) or low (`false`).
    Rst(bool),
    /// Write these bytes on the SPI bus.
    Write(Vec<u8>),
    /// Wait for the SPI bus to finish.
    Flush,
    /// Sleep this many milliseconds.
    DelayMs(u32),
    /// Poll the busy line (see [`BusyPoll`]) with this timeout and poll interval in ms.
    WaitBusy(BusyLabel, u32, u32),
    /// Record whether the controller is initialized.
    SetInitialized(bool),
}

/// The mathematical value of an [`Op`].
pub enum OpV {
    Dc(bool),
    Cs(bool),
    Rst(bool),
    Write(Seq<u8>),
    Flush,
    DelayMs(u32),
    WaitBusy(BusyLabel, u32, u32),
    SetInitialized(bool),
}

impl View for Op {
    type V = OpV;

    open spec fn view(&self) -> OpV {
        match self {
            Op::Dc(b) => OpV::Dc(*b),
            Op::Cs(b) => OpV::Cs(*b),
            Op::Rst(b) => OpV::Rst(*b),
            Op::Write(v) => OpV::Write(v@),
            Op::Flush => OpV::Flush,
            Op::DelayMs(ms) => OpV::DelayMs(*ms),
            Op::WaitBusy(l, t, p) => OpV::WaitBusy(*l, *t, *p),
            Op::SetInitialized(b) => OpV::SetInitialized(*b),
        }
    }
}

/// The values of a plan's operations.
pub open spec fn plan_view(ops: Seq<Op>) -> Seq<OpV> {
    Seq::new(ops.len(), |i: int| ops[i]@)
}

/// Sending one command byte.
pub open spec fn cmd_ops(c: u8) -> Seq<OpV> {
    seq![OpV::Dc(false), OpV::Cs(false), OpV::Write(seq![c]), OpV::Flush, OpV::Cs(true)]
}

/// Sending parameter bytes.
pub open spec fn data_ops(d: Seq<u8>) -> Seq<OpV> {
    seq![OpV::Dc(true), OpV::Cs(false), OpV::Write(d), OpV::Flush, OpV::Cs(true)]
}

/// Sending a command byte followed by its parameters.
pub open spec fn cmd_with_ops(c: u8, d: Seq<u8>) -> Seq<OpV> {
    cmd_ops(c) + data_ops(d)
}

/// Row `r` (50 bytes) of a framebuffer.
pub open spec fn fb_row(fb: Seq<u8>, r: int) -> Seq<u8> {
    fb.subrange(r * 50, r * 50 + 50)
}

/// Writing the first `n` framebuffer rows, each followed by a bus flush.
pub open spec fn rows_ops(fb: Seq<u8>, n: nat) -> Seq<OpV>
    decreases n,
{
    if n == 0 {
        seq![]
    } else {
        rows_ops(fb, (n - 1) as nat) + seq![OpV::Write(fb_row(fb, n - 1)), OpV::Flush]
    }
}

/// Sending command `c` and then the whole framebuffer, row by row, as its data.
pub open spec fn stream_ops(c: u8, fb: Seq<u8>) -> Seq<OpV> {
    cmd_ops(c) + seq![OpV::Dc(true), OpV::Cs(false)] + rows_ops(fb, 300) + seq![OpV::Cs(true)]
}

/// A one-byte payload.
pub fn bytes1(a: u8) -> (v: Vec<u8>)
    ensures
        v@ == seq![a],
{
    let v = vec![a];
    assert(v@ =~= seq![a]);
    v
}

/// A two-byte payload.
pub fn bytes2(a: u8, b: u8) -> (v: Vec<u8>)
    ensures
        v@ == seq![a, b],
{
    let v = vec![a, b];
    assert(v@ =~= seq![a, b]);
    v
}

/// A three-byte payload.
pub fn bytes3(a: u8, b: u8, c: u8) -> (v: Vec<u8>)
    ensures
        v@ == seq![a, b, c],
{
    let v = vec![a, b, c];
    assert(v@ =~= seq![a, b, c]);
    v
}

/// A four-byte payload.
pub fn bytes4(a: u8, b: u8, c: u8, d: u8) -> (v: Vec<u8>)
    ensures
        v@ == seq![a, b, c, d],
{
    let v = vec![a, b, c, d];
    assert(v@ =~= seq![a, b, c, d]);
    v
}

/// Appends one operation to a plan.
pub fn push_op(ops: &mut Vec<Op>, op: Op)
    ensures
        plan_view(final(ops)@) == plan_view(old(ops)@).push(op@),
{
    let ghost v = op@;
    ops.push(op);
    assert(plan_view(ops@) =~= plan_view(old(ops)@).push(v));
}

/// Appends the sending of a command byte.
pub fn cmd(ops: &mut Vec<Op>, c: u8)
    ensures
        plan_view(final(ops)@) == plan_view(old(ops)@) + cmd_ops(c),
{
    push_op(ops, Op::Dc(false));
    push_op(ops, Op::Cs(false));
    let bytes = vec![c];
    assert(bytes@ =~= seq![c]);
    push_op(ops, Op::Write(bytes));
    push_op(ops, Op::Flush);
    push_op(ops, Op::Cs(true));
    assert(plan_view(ops@) =~= plan_view(old(ops)@) + cmd_ops(c));
}

/// Appends the sending of parameter bytes.
pub fn data(ops: &mut Vec<Op>, d: Vec<u8>)
    ensures
        plan_view(final(ops)@) == plan_view(old(ops)@) + data_ops(d@),
{
    let ghost dv = d@;
    push_op(ops, Op::Dc(true));
    push_op(ops, Op::Cs(false));
    push_op(ops, Op::Write(d));
    push_op(ops, Op::Flush);
    push_op(ops, Op::Cs(true));
    assert(plan_view(ops@) =~= plan_view(old(ops)@) + data_ops(dv));
}

/// Appends the sending of a command byte and its parameters.
pub fn cmd_with(ops: &mut Vec<Op>, c: u8, d: Vec<u8>)
    ensures
        plan_view(final(ops)@) == plan_view(old(ops)@) + cmd_with_ops(c, d@),
{
    let ghost dv = d@;
    cmd(ops, c);
    data(ops, d);
    assert(plan_view(ops@) =~= plan_view(old(ops)@) + cmd_with_ops(c, dv));
}

/// Copies framebuffer row `r`.
fn copy_row(fb: &[u8; 15000], r: usize) -> (row: Vec<u8>)
    requires
        r < 300,
    ensures
        row@ == fb_row(fb@, r as int),
{
    let mut row: Vec<u8> = Vec::new();
    let start: usize = r * 50;
    let mut i: usize = 0;
    while i < 50
        invariant
            r < 300,
            start == r * 50,
            i <= 50,
            fb@.len() == 15000,
            row@ =~= fb@.subrange(start as int, start + i),
        decreases 50 - i,
    {
        row.push(fb[start + i]);
        i = i + 1;
    }
    row
}

/// Appends the sending of command `c` followed by the whole framebuffer.
pub fn push_stream(ops: &mut Vec<Op>, c: u8, fb: &[u8; 15000])
    ensures
        plan_view(final(ops)@) == plan_view(old(ops)@) + stream_ops(c, fb@),
{
    cmd(ops, c);
    push_op(ops, Op::Dc(true));
    push_op(ops, Op::Cs(false));
    let ghost before_rows = plan_view(ops@);
    let mut r: usize = 0;
    while r < 300
        invariant
            r <= 300,
            plan_view(ops@) == before_rows + rows_ops(fb@, r as nat),
        decreases 300 - r,
    {
        let row = copy_row(fb, r);
        push_op(ops, Op::Write(row));
        push_op(ops, Op::Flush);
        assert(plan_view(ops@) =~= before_rows + rows_ops(fb@, (r + 1) as nat));
        r = r + 1;
    }
    push_op(ops, Op::Cs(true));
    assert(plan_view(ops@) =~= plan_view(old(ops)@) + stream_ops(c, fb@));
}


/// Bus state while a plan runs: whether the chip is selected, and the level of the
/// data/command line if it has been driven yet.
pub type BusState = (bool, Option<bool>);

/// One operation's effect on the bus state, or `None` where it breaks the SPI framing:
/// a transfer while the chip is deselected or before the data/command line is set,
/// or a command-mode write of more than one byte.
pub open spec fn bus_step(s: BusState, op: OpV) -> Option<BusState> {
    match op {
        OpV::Cs(high) => Some((!high, s.1)),
        OpV::Dc(data) => Some((s.0, Some(data))),
        OpV::Write(bytes) => {
            if s.0 && s.1 is Some && (s.1 == Some(true) || bytes.len() == 1) {
                Some(s)
            } else {
                None
            }
        },
        OpV::Flush => if s.0 {
            Some(s)
        } else {
            None
        },
        _ => Some(s),
    }
}

/// Runs a plan over the bus state; `None` if some step breaks the framing.
pub open spec fn bus_run(ops: Seq<OpV>, s: BusState) -> Option<BusState>
    decreases ops.len(),
{
    if ops.len() == 0 {
        Some(s)
    } else {
        match bus_step(s, ops[0]) {
            None => None,
            Some(t) => bus_run(ops.drop_first(), t),
        }
    }
}

/// A plan is framed when, started with the chip deselected, it only transfers while the
/// chip is selected and in a known data/command mode, sends commands one byte at a
/// time, and ends with the chip deselected again.
pub open spec fn framed(ops: Seq<OpV>) -> bool {
    forall|d: Option<bool>| #[trigger] bus_run(ops, (false, d)) matches Some(t) && !t.0
}

proof fn lemma_bus_run_concat(a: Seq<OpV>, b: Seq<OpV>, s: BusState)
    ensures
        bus_run(a + b, s) == (match bus_run(a, s) {
            None => None,
            Some(t) => bus_run(b, t),
        }),
    decreases a.len(),
{
    if a.len() == 0 {
        assert(a + b =~= b);
    } else {
        assert((a + b)[0] == a[0]);
        assert((a + b).drop_first() =~= a.drop_first() + b);
        match bus_step(s, a[0]) {
            None => {},
            Some(t) => lemma_bus_run_concat(a.drop_first(), b, t),
        }
    }
}

/// Framed plans stay framed when run one after the other.
pub proof fn lemma_framed_concat(a: Seq<OpV>, b: Seq<OpV>)
    requires
        framed(a),
        framed(b),
    ensures
        framed(a + b),
{
    assert forall|d: Option<bool>| #[trigger] bus_run(a + b, (false, d)) matches Some(t) && !t.0 by {
        lemma_bus_run_concat(a, b, (false, d));
        let t = bus_run(a, (false, d))->0;
        assert(bus_run(b, (false, t.1)) matches Some(u) && !u.0);
    }
}

proof fn lemma_run_one(op: OpV, s: BusState)
    ensures
        bus_run(seq![op], s) == bus_step(s, op),
{
    let ops = seq![op];
    assert(ops[0] == op);
    assert(ops.drop_first() =~= Seq::<OpV>::empty());
    match bus_step(s, op) {
        None => {},
        Some(t) => {
            assert(bus_run(ops.drop_first(), t) == Some(t));
        },
    }
}

proof fn lemma_run_cons(op: OpV, rest: Seq<OpV>, s: BusState)
    ensures
        bus_run(seq![op] + rest, s) == (match bus_step(s, op) {
            None => None,
            Some(t) => bus_run(rest, t),
        }),
{
    lemma_bus_run_concat(seq![op], rest, s);
    lemma_run_one(op, s);
}

proof fn lemma_transaction_framed(dc: bool, bytes: Seq<u8>)
    requires
        dc || bytes.len() == 1,
    ensures
        framed(seq![OpV::Dc(dc), OpV::Cs(false), OpV::Write(bytes), OpV::Flush, OpV::Cs(true)]),
{
    let ops = seq![OpV::Dc(dc), OpV::Cs(false), OpV::Write(bytes), OpV::Flush, OpV::Cs(true)];
    assert forall|d: Option<bool>| #[trigger] bus_run(ops, (false, d)) matches Some(t) && !t.0 by {
        assert(ops =~= seq![OpV::Dc(dc)] + (seq![OpV::Cs(false)] + (seq![OpV::Write(bytes)] + (
        seq![OpV::Flush] + seq![OpV::Cs(true)]))));
        lemma_run_cons(OpV::Dc(dc), seq![OpV::Cs(false)] + (seq![OpV::Write(bytes)] + (
        seq![OpV::Flush] + seq![OpV::Cs(true)])), (false, d));
        lemma_run_cons(OpV::Cs(false), seq![OpV::Write(bytes)] + (seq![OpV::Flush] + seq![OpV::Cs(true)]), (false, Some(dc)));
        lemma_run_cons(OpV::Write(bytes), seq![OpV::Flush] + seq![OpV::Cs(true)], (true, Some(dc)));
        lemma_run_cons(OpV::Flush, seq![OpV::Cs(true)], (true, Some(dc)));
        lemma_run_one(OpV::Cs(true), (true, Some(dc)));
    }
}

/// Sending a command byte is framed.
pub proof fn lemma_cmd_framed(c: u8)
    ensures
        framed(cmd_ops(c)),
{
    lemma_transaction_framed(false, seq![c]);
    assert(cmd_ops(c) =~= seq![OpV::Dc(false), OpV::Cs(false), OpV::Write(seq![c]), OpV::Flush, OpV::Cs(true)]);
}

/// Sending parameter bytes is framed.
pub proof fn lemma_data_framed(d: Seq<u8>)
    ensures
        framed(data_ops(d)),
{
    lemma_transaction_framed(true, d);
}

/// Sending a command with parameters is framed.
pub proof fn lemma_cmd_with_framed(c: u8, d: Seq<u8>)
    ensures
        framed(cmd_with_ops(c, d)),
{
    lemma_cmd_framed(c);
    lemma_data_framed(d);
    lemma_framed_concat(cmd_ops(c), data_ops(d));
}

proof fn lemma_rows_keep_state(fb: Seq<u8>, n: nat)
    ensures
        bus_run(rows_ops(fb, n), (true, Some(true))) == Some((true, Some(true))),
    decreases n,
{
    if n > 0 {
        lemma_rows_keep_state(fb, (n - 1) as nat);
        let tail = seq![OpV::Write(fb_row(fb, n - 1)), OpV::Flush];
        lemma_bus_run_concat(rows_ops(fb, (n - 1) as nat), tail, (true, Some(true)));
        assert(tail =~= seq![OpV::Write(fb_row(fb, n - 1))] + seq![OpV::Flush]);
        lemma_run_cons(OpV::Write(fb_row(fb, n - 1)), seq![OpV::Flush], (true, Some(true)));
        lemma_run_one(OpV::Flush, (true, Some(true)));
    }
}

/// Streaming the framebuffer after a command is framed.
pub proof fn lemma_stream_framed(c: u8, fb: Seq<u8>)
    ensures
        framed(stream_ops(c, fb)),
{
    lemma_cmd_framed(c);
    let body = seq![OpV::Dc(true), OpV::Cs(false)] + rows_ops(fb, 300) + seq![OpV::Cs(true)];
    assert forall|d: Option<bool>| #[trigger] bus_run(body, (false, d)) matches Some(t) && !t.0 by {
        lemma_bus_run_concat(seq![OpV::Dc(true), OpV::Cs(false)] + rows_ops(fb, 300), seq![OpV::Cs(true)], (false, d));
        lemma_bus_run_concat(seq![OpV::Dc(true), OpV::Cs(false)], rows_ops(fb, 300), (false, d));
        assert(seq![OpV::Dc(true), OpV::Cs(false)] =~= seq![OpV::Dc(true)] + seq![OpV::Cs(false)]);
        lemma_run_cons(OpV::Dc(true), seq![OpV::Cs(false)], (false, d));
        lemma_run_one(OpV::Cs(false), (false, Some(true)));
        lemma_rows_keep_state(fb, 300);
        lemma_run_one(OpV::Cs(true), (true, Some(true)));
    }
    lemma_framed_concat(cmd_ops(c), body);
    assert(stream_ops(c, fb) =~= cmd_ops(c) + body);
}


/// Whether no operation of `ops` selects the chip or touches the bus.
pub open spec fn quiet(ops: Seq<OpV>) -> bool {
    forall|i: int| 0 <= i < ops.len() ==> !(#[trigger] ops[i] is Write) && !(ops[i] is Flush) && !(
    ops[i] is Cs)
}

proof fn lemma_quiet_keeps_state(ops: Seq<OpV>, s: BusState)
    requires
        quiet(ops),
    ensures
        bus_run(ops, s) matches Some(t) && t.0 == s.0,
    decreases ops.len(),
{
    if ops.len() > 0 {
        assert(!(ops[0] is Write) && !(ops[0] is Flush) && !(ops[0] is Cs));
        let t = bus_step(s, ops[0])->0;
        assert(quiet(ops.drop_first())) by {
            assert forall|i: int| 0 <= i < ops.drop_first().len() implies !(
            #[trigger] ops.drop_first()[i] is Write) && !(ops.drop_first()[i] is Flush) && !(
            ops.drop_first()[i] is Cs) by {
                assert(ops.drop_first()[i] == ops[i + 1]);
            }
        }
        lemma_quiet_keeps_state(ops.drop_first(), t);
    }
}

/// A plan that never selects the chip nor touches the bus is framed.
pub proof fn lemma_quiet_framed(ops: Seq<OpV>)
    requires
        quiet(ops),
    ensures
        framed(ops),
{
    assert forall|d: Option<bool>| #[trigger] bus_run(ops, (false, d)) matches Some(t) && !t.0 by {
        lemma_quiet_keeps_state(ops, (false, d));
    }
}

/// Whether the controller counts as initialized after `ops` ran to the end, having
/// counted as `s` before.
pub open spec fn initialized_after(ops: Seq<OpV>, s: bool) -> bool
    decreases ops.len(),
{
    if ops.len() == 0 {
        s
    } else {
        initialized_after(
            ops.drop_first(),
            match ops[0] {
                OpV::SetInitialized(b) => b,
                _ => s,
            },
        )
    }
}

/// Whether `ops` never changes the initialized flag.
pub open spec fn no_marker(ops: Seq<OpV>) -> bool {
    forall|i: int| 0 <= i < ops.len() ==> !(#[trigger] ops[i] is SetInitialized)
}

/// Running two plans in turn leaves the flag as the second leaves it, started from
/// where the first left it.
pub proof fn lemma_initialized_concat(a: Seq<OpV>, b: Seq<OpV>, s: bool)
    ensures
        initialized_after(a + b, s) == initialized_after(b, initialized_after(a, s)),
    decreases a.len(),
{
    if a.len() == 0 {
        assert(a + b =~= b);
    } else {
        assert((a + b)[0] == a[0]);
        assert((a + b).drop_first() =~= a.drop_first() + b);
        lemma_initialized_concat(
            a.drop_first(),
            b,
            match a[0] {
                OpV::SetInitialized(v) => v,
                _ => s,
            },
        );
    }
}

/// A plan without flag markers keeps the flag.
pub proof fn lemma_no_marker_keeps(ops: Seq<OpV>, s: bool)
    requires
        no_marker(ops),
    ensures
        initialized_after(ops, s) == s,
    decreases ops.len(),
{
    if ops.len() > 0 {
        assert(!(ops[0] is SetInitialized));
        assert(no_marker(ops.drop_first())) by {
            assert forall|i: int| 0 <= i < ops.drop_first().len() implies !(
            #[trigger] ops.drop_first()[i] is SetInitialized) by {
                assert(ops.drop_first()[i] == ops[i + 1]);
            }
        }
        lemma_no_marker_keeps(ops.drop_first(), s);
    }
}

/// A plan ending in a flag marker leaves the flag at the marker's value.
pub proof fn lemma_ends_with_marker(ops: Seq<OpV>, b: bool, s: bool)
    ensures
        initialized_after(ops + seq![OpV::SetInitialized(b)], s) == b,
{
    lemma_initialized_concat(ops, seq![OpV::SetInitialized(b)], s);
    let t = initialized_after(ops, s);
    let m = seq![OpV::SetInitialized(b)];
    assert(m[0] == OpV::SetInitialized(b));
    assert(m.drop_first() =~= Seq::<OpV>::empty());
    assert(initialized_after(m.drop_first(), b) == b);
}

/// A plan made of `a`, a marker setting the flag to `v`, and `b`, with no other marker:
/// stopped after its first `k` steps (by a failure), it leaves the flag as it found it
/// when it stopped before the marker, and at `v` otherwise.
pub proof fn lemma_marker_prefix(a: Seq<OpV>, v: bool, b: Seq<OpV>, s: bool, k: int)
    requires
        no_marker(a),
        no_marker(b),
        0 <= k <= a.len() + 1 + b.len(),
    ensures
        initialized_after((a + seq![OpV::SetInitialized(v)] + b).take(k), s) == if k <= a.len() {
            s
        } else {
            v
        },
{
    let m = seq![OpV::SetInitialized(v)];
    let p = a + m + b;
    if k <= a.len() {
        assert(p.take(k) =~= a.take(k));
        assert(no_marker(a.take(k))) by {
            assert forall|i: int| 0 <= i < a.take(k).len() implies !(#[trigger] a.take(k)[i] is SetInitialized) by {
                assert(a.take(k)[i] == a[i]);
            }
        }
        lemma_no_marker_keeps(a.take(k), s);
    } else {
        let rest = b.take(k - a.len() - 1);
        assert(p.take(k) =~= (a + m) + rest);
        lemma_initialized_concat(a + m, rest, s);
        lemma_ends_with_marker(a, v, s);
        assert(no_marker(rest)) by {
            assert forall|i: int| 0 <= i < rest.len() implies !(#[trigger] rest[i] is SetInitialized) by {
                assert(rest[i] == b[i]);
            }
        }
        lemma_no_marker_keeps(rest, v);
    }
}

/// A plan without markers, stopped anywhere, leaves the flag as it found it.
pub proof fn lemma_no_marker_prefix(a: Seq<OpV>, s: bool, k: int)
    requires
        no_marker(a),
        0 <= k <= a.len(),
    ensures
        initialized_after(a.take(k), s) == s,
{
    assert(no_marker(a.take(k))) by {
        assert forall|i: int| 0 <= i < a.take(k).len() implies !(#[trigger] a.take(k)[i] is SetInitialized) by {
            assert(a.take(k)[i] == a[i]);
        }
    }
    lemma_no_marker_keeps(a.take(k), s);
}

/// Concatenating plans without markers gives a plan without markers.
pub proof fn lemma_no_marker_concat(a: Seq<OpV>, b: Seq<OpV>)
    requires
        no_marker(a),
        no_marker(b),
    ensures
        no_marker(a + b),
{
    assert forall|i: int| 0 <= i < (a + b).len() implies !(#[trigger] (a + b)[i] is SetInitialized) by {
        if i < a.len() {
            assert((a + b)[i] == a[i]);
        } else {
            assert((a + b)[i] == b[i - a.len()]);
        }
    }
}

/// Sending commands and data sets no marker.
pub proof fn lemma_cmd_with_no_marker(c: u8, d: Seq<u8>)
    ensures
        no_marker(cmd_ops(c)),
        no_marker(data_ops(d)),
        no_marker(cmd_with_ops(c, d)),
{
    lemma_no_marker_concat(cmd_ops(c), data_ops(d));
}

proof fn lemma_rows_no_marker(fb: Seq<u8>, n: nat)
    ensures
        no_marker(rows_ops(fb, n)),
    decreases n,
{
    if n > 0 {
        lemma_rows_no_marker(fb, (n - 1) as nat);
        lemma_no_marker_concat(
            rows_ops(fb, (n - 1) as nat),
            seq![OpV::Write(fb_row(fb, n - 1)), OpV::Flush],
        );
    }
}

/// Streaming the framebuffer sets no marker.
pub proof fn lemma_stream_no_marker(c: u8, fb: Seq<u8>)
    ensures
        no_marker(stream_ops(c, fb)),
{
    lemma_rows_no_marker(fb, 300);
    lemma_cmd_with_no_marker(c, seq![]);
    lemma_no_marker_concat(cmd_ops(c), seq![OpV::Dc(true), OpV::Cs(false)]);
    lemma_no_marker_concat(cmd_ops(c) + seq![OpV::Dc(true), OpV::Cs(false)], rows_ops(fb, 300));
    lemma_no_marker_concat(
        cmd_ops(c) + seq![OpV::Dc(true), OpV::Cs(false)] + rows_ops(fb, 300),
        seq![OpV::Cs(true)],
    );
}

/// All bytes a plan writes on the bus, in order.
pub open spec fn payload(ops: Seq<OpV>) -> Seq<u8>
    decreases ops.len(),
{
    if ops.len() == 0 {
        seq![]
    } else {
        (match ops[0] {
            OpV::Write(b) => b,
            _ => seq![],
        }) + payload(ops.drop_first())
    }
}

/// The bytes a plan made of two writes are those of the first, then those of the second.
pub proof fn lemma_payload_concat(a: Seq<OpV>, b: Seq<OpV>)
    ensures
        payload(a + b) == payload(a) + payload(b),
    decreases a.len(),
{
    if a.len() == 0 {
        assert(a + b =~= b);
        assert(payload(a) + payload(b) =~= payload(b));
    } else {
        assert((a + b)[0] == a[0]);
        assert((a + b).drop_first() =~= a.drop_first() + b);
        lemma_payload_concat(a.drop_first(), b);
        let head = match a[0] {
            OpV::Write(x) => x,
            _ => seq![],
        };
        assert(head + (payload(a.drop_first()) + payload(b)) =~= (head + payload(a.drop_first()))
            + payload(b));
    }
}

proof fn lemma_payload_pair(b: Seq<u8>, other: OpV)
    requires
        !(other is Write),
    ensures
        payload(seq![OpV::Write(b), other]) == b,
{
    let s = seq![OpV::Write(b), other];
    assert(s.drop_first() =~= seq![other]);
    assert(s[0] == OpV::Write(b));
    assert(seq![other][0] == other);
    assert(seq![other].drop_first() =~= Seq::<OpV>::empty());
    assert(payload(Seq::<OpV>::empty()) =~= seq![]);
    assert(payload(seq![other]) =~= seq![]);
    assert(b + Seq::<u8>::empty() =~= b);
}

/// The rows written for the first `n` rows carry exactly the first `n` rows' bytes.
pub proof fn lemma_rows_payload(fb: Seq<u8>, n: nat)
    requires
        n * 50 <= fb.len(),
    ensures
        payload(rows_ops(fb, n)) == fb.subrange(0, (n * 50) as int),
    decreases n,
{
    if n == 0 {
        assert(payload(rows_ops(fb, 0)) =~= fb.subrange(0, 0));
    } else {
        lemma_rows_payload(fb, (n - 1) as nat);
        lemma_payload_concat(
            rows_ops(fb, (n - 1) as nat),
            seq![OpV::Write(fb_row(fb, n - 1)), OpV::Flush],
        );
        lemma_payload_pair(fb_row(fb, n - 1), OpV::Flush);
        assert(fb.subrange(0, (n - 1) * 50) + fb_row(fb, n - 1) =~= fb.subrange(0, (n * 50) as int));
    }
}

/// Streaming the framebuffer after command `c` puts `c` and then exactly the
/// framebuffer's bytes on the bus.
pub proof fn lemma_stream_payload(c: u8, fb: Seq<u8>)
    requires
        fb.len() == 15000,
    ensures
        payload(stream_ops(c, fb)) == seq![c] + fb,
{
    let a = cmd_ops(c);
    let b = seq![OpV::Dc(true), OpV::Cs(false)];
    let r = rows_ops(fb, 300);
    let e = seq![OpV::Cs(true)];
    lemma_payload_concat(a + b + r, e);
    lemma_payload_concat(a + b, r);
    lemma_payload_concat(a, b);
    lemma_rows_payload(fb, 300);
    assert(fb.subrange(0, 15000) =~= fb);
    reveal_with_fuel(payload, 6);
    assert(a.drop_first() =~= seq![OpV::Cs(false), OpV::Write(seq![c]), OpV::Flush, OpV::Cs(true)]);
    assert(a.drop_first().drop_first() =~= seq![OpV::Write(seq![c]), OpV::Flush, OpV::Cs(true)]);
    assert(a.drop_first().drop_first().drop_first() =~= seq![OpV::Flush, OpV::Cs(true)]);
    assert(a.drop_first().drop_first().drop_first().drop_first() =~= seq![OpV::Cs(true)]);
    assert(seq![OpV::Cs(true)].drop_first() =~= Seq::<OpV>::empty());
    assert(payload(a) =~= seq![c]);
    assert(b.drop_first() =~= seq![OpV::Cs(false)]);
    assert(seq![OpV::Cs(false)].drop_first() =~= Seq::<OpV>::empty());
    assert(payload(b) =~= seq![]);
    assert(payload(e) =~= seq![]);
    assert(payload(stream_ops(c, fb)) =~= seq![c] + fb);
}

/// Whether every time `ops` writes the single byte `c` (a command), it goes on, after the
/// bus flush and deselect, to switch to data mode and send exactly the parameters `d`.
pub open spec fn always_with(ops: Seq<OpV>, c: u8, d: Seq<u8>) -> bool {
    forall|i: int|
        0 <= i < ops.len() && #[trigger] ops[i] == OpV::Write(seq![c]) ==> i + 5 < ops.len() && ops[i + 3]
            == OpV::Dc(true) && ops[i + 5] == OpV::Write(d)
}

/// Whether `ops` writes the single byte `c` somewhere.
pub open spec fn mentions(ops: Seq<OpV>, c: u8) -> bool {
    exists|i: int| 0 <= i < ops.len() && #[trigger] ops[i] == OpV::Write(seq![c])
}

/// Whether `ops` sends command `c`, each time with parameters `d`.
pub open spec fn sends_with(ops: Seq<OpV>, c: u8, d: Seq<u8>) -> bool {
    mentions(ops, c) && always_with(ops, c, d)
}

/// Both properties carry over to a plan made of two.
pub proof fn lemma_with_concat(a: Seq<OpV>, b: Seq<OpV>, c: u8, d: Seq<u8>)
    requires
        always_with(a, c, d),
        always_with(b, c, d),
    ensures
        always_with(a + b, c, d),
        mentions(a, c) || mentions(b, c) ==> mentions(a + b, c),
{
    assert forall|i: int| 0 <= i < (a + b).len() && #[trigger] (a + b)[i] == OpV::Write(seq![c]) implies i
        + 5 < (a + b).len() && (a + b)[i + 3] == OpV::Dc(true) && (a + b)[i + 5] == OpV::Write(d) by {
        if i < a.len() {
            assert(a[i] == (a + b)[i]);
            assert((a + b)[i + 3] == a[i + 3]);
            assert((a + b)[i + 5] == a[i + 5]);
        } else {
            let j = i - a.len();
            assert(b[j] == (a + b)[i]);
            assert((a + b)[i + 3] == b[j + 3]);
            assert((a + b)[i + 5] == b[j + 5]);
        }
    }
    if mentions(a, c) {
        let i = choose|i: int| 0 <= i < a.len() && #[trigger] a[i] == OpV::Write(seq![c]);
        assert((a + b)[i] == a[i]);
    } else if mentions(b, c) {
        let i = choose|i: int| 0 <= i < b.len() && #[trigger] b[i] == OpV::Write(seq![c]);
        assert((a + b)[a.len() + i] == b[i]);
    }
}

proof fn lemma_one_byte_ne(x: u8, y: u8)
    requires
        x != y,
    ensures
        OpV::Write(seq![x]) != OpV::Write(seq![y]),
{
    assert(seq![x][0] != seq![y][0]);
}

/// A command other than `c` keeps the property.
pub proof fn lemma_with_cmd(c2: u8, c: u8, d: Seq<u8>)
    requires
        c2 != c,
    ensures
        always_with(cmd_ops(c2), c, d),
{
    lemma_one_byte_ne(c2, c);
}

/// A command with parameters keeps the property when it is `c` with `d`, or another
/// command whose parameters are not the single byte `c`.
pub proof fn lemma_with_cmd_with(c2: u8, d2: Seq<u8>, c: u8, d: Seq<u8>)
    requires
        c2 == c ==> d2 == d,
        d2 != seq![c],
    ensures
        always_with(cmd_with_ops(c2, d2), c, d),
        c2 == c ==> mentions(cmd_with_ops(c2, d2), c),
{
    let ops = cmd_with_ops(c2, d2);
    assert(ops[2] == OpV::Write(seq![c2]));
    assert(ops[7] == OpV::Write(d2));
    if c2 != c {
        lemma_one_byte_ne(c2, c);
    }
    assert(OpV::Write(d2) != OpV::Write(seq![c]));
}

/// Operations without writes keep the property.
pub proof fn lemma_with_quiet(ops: Seq<OpV>, c: u8, d: Seq<u8>)
    requires
        forall|i: int| 0 <= i < ops.len() ==> !(#[trigger] ops[i] is Write),
    ensures
        always_with(ops, c, d),
{
    assert forall|i: int| 0 <= i < ops.len() && #[trigger] ops[i] == OpV::Write(seq![c]) implies i + 5
        < ops.len() && ops[i + 3] == OpV::Dc(true) && ops[i + 5] == OpV::Write(d) by {
        assert(!(ops[i] is Write));
    }
}

proof fn lemma_with_rows(fb: Seq<u8>, n: nat, c: u8, d: Seq<u8>)
    requires
        n * 50 <= fb.len(),
    ensures
        always_with(rows_ops(fb, n), c, d),
    decreases n,
{
    if n > 0 {
        lemma_with_rows(fb, (n - 1) as nat, c, d);
        let tail = seq![OpV::Write(fb_row(fb, n - 1)), OpV::Flush];
        assert(fb_row(fb, n - 1).len() == 50);
        assert(fb_row(fb, n - 1) != seq![c]);
        assert(always_with(tail, c, d)) by {
            assert forall|i: int| 0 <= i < tail.len() && #[trigger] tail[i] == OpV::Write(seq![c]) implies i
                + 5 < tail.len() && tail[i + 3] == OpV::Dc(true) && tail[i + 5] == OpV::Write(d) by {
                if i == 0 {
                    assert(tail[0] == OpV::Write(fb_row(fb, n - 1)));
                } else {
                    assert(tail[1] == OpV::Flush);
                }
            }
        }
        lemma_with_concat(rows_ops(fb, (n - 1) as nat), tail, c, d);
    }
}

/// Streaming the framebuffer after a command other than `c` keeps the property.
pub proof fn lemma_with_stream(c2: u8, fb: Seq<u8>, c: u8, d: Seq<u8>)
    requires
        c2 != c,
        fb.len() == 15000,
    ensures
        always_with(stream_ops(c2, fb), c, d),
{
    lemma_with_cmd(c2, c, d);
    let h = seq![OpV::Dc(true), OpV::Cs(false)];
    lemma_with_quiet(h, c, d);
    lemma_with_rows(fb, 300, c, d);
    lemma_with_quiet(seq![OpV::Cs(true)], c, d);
    lemma_with_concat(cmd_ops(c2), h, c, d);
    lemma_with_concat(cmd_ops(c2) + h, rows_ops(fb, 300), c, d);
    lemma_with_concat(cmd_ops(c2) + h + rows_ops(fb, 300), seq![OpV::Cs(true)], c, d);
}

/// Whether the first time `ops` writes the single byte `c` (a command) is at position `k`.
pub open spec fn first_write_at(ops: Seq<OpV>, c: u8, k: int) -> bool {
    &&& 0 <= k < ops.len()
    &&& ops[k] == OpV::Write(seq![c])
    &&& forall|j: int| 0 <= j < k ==> ops[j] != OpV::Write(seq![c])
}

/// Whether the last time `ops` writes the single byte `c` (a command), it goes on, after
/// the bus flush and deselect, to switch to data mode and send exactly the parameters `d`.
pub open spec fn last_sent_with(ops: Seq<OpV>, c: u8, d: Seq<u8>) -> bool {
    exists|j: int|
        #![trigger ops[j]]
        0 <= j && j + 5 < ops.len() && ops[j] == OpV::Write(seq![c]) && ops[j + 3] == OpV::Dc(true)
            && ops[j + 5] == OpV::Write(d) && forall|i: int| j < i < ops.len() ==> ops[i] != OpV::Write(
            seq![c],
        )
}

/// Two single-byte sequences differ when their bytes do.
pub proof fn lemma_one_byte_seq_ne(x: u8, y: u8)
    requires
        x != y,
    ensures
        seq![x] != seq![y],
{
    assert(seq![x][0] != seq![y][0]);
}

/// A plan made of two writes the byte `c` exactly when one of them does.
pub proof fn lemma_mentions_concat(a: Seq<OpV>, b: Seq<OpV>, c: u8)
    ensures
        mentions(a + b, c) == (mentions(a, c) || mentions(b, c)),
{
    if mentions(a + b, c) {
        let i = choose|i: int| 0 <= i < (a + b).len() && #[trigger] (a + b)[i] == OpV::Write(seq![c]);
        if i < a.len() {
            assert(a[i] == (a + b)[i]);
        } else {
            assert(b[i - a.len()] == (a + b)[i]);
        }
    }
    if mentions(a, c) {
        let i = choose|i: int| 0 <= i < a.len() && #[trigger] a[i] == OpV::Write(seq![c]);
        assert((a + b)[i] == a[i]);
    } else if mentions(b, c) {
        let i = choose|i: int| 0 <= i < b.len() && #[trigger] b[i] == OpV::Write(seq![c]);
        assert((a + b)[a.len() + i] == b[i]);
    }
}

/// A command other than `c`, alone or with parameters other than the single byte `c`,
/// never writes `c`.
pub proof fn lemma_cmd_silent(c2: u8, d2: Seq<u8>, c: u8)
    requires
        c2 != c,
        d2 != seq![c],
    ensures
        !mentions(cmd_ops(c2), c),
        !mentions(cmd_with_ops(c2, d2), c),
{
    lemma_one_byte_ne(c2, c);
    assert(OpV::Write(d2) != OpV::Write(seq![c]));
    let ops = cmd_with_ops(c2, d2);
    assert forall|i: int| 0 <= i < ops.len() implies #[trigger] ops[i] != OpV::Write(seq![c]) by {
        if i < 5 {
            assert(ops[i] == cmd_ops(c2)[i]);
        } else {
            assert(ops[i] == data_ops(d2)[i - 5]);
        }
    }
    assert forall|i: int| 0 <= i < cmd_ops(c2).len() implies #[trigger] cmd_ops(c2)[i] != OpV::Write(
        seq![c],
    ) by {
        assert(cmd_ops(c2)[i] == ops[i]);
    }
}

/// Operations without writes never write `c`.
pub proof fn lemma_quiet_silent(ops: Seq<OpV>, c: u8)
    requires
        forall|i: int| 0 <= i < ops.len() ==> !(#[trigger] ops[i] is Write),
    ensures
        !mentions(ops, c),
{
    assert forall|i: int| 0 <= i < ops.len() implies #[trigger] ops[i] != OpV::Write(seq![c]) by {
        assert(!(ops[i] is Write));
    }
}

proof fn lemma_rows_silent(fb: Seq<u8>, n: nat, c: u8)
    requires
        n * 50 <= fb.len(),
    ensures
        !mentions(rows_ops(fb, n), c),
    decreases n,
{
    if n > 0 {
        lemma_rows_silent(fb, (n - 1) as nat, c);
        let tail = seq![OpV::Write(fb_row(fb, n - 1)), OpV::Flush];
        assert(fb_row(fb, n - 1).len() == 50);
        assert(fb_row(fb, n - 1) != seq![c]);
        assert forall|i: int| 0 <= i < tail.len() implies #[trigger] tail[i] != OpV::Write(seq![c]) by {
            if i == 0 {
                assert(tail[0] == OpV::Write(fb_row(fb, n - 1)));
            } else {
                assert(tail[1] == OpV::Flush);
            }
        }
        lemma_mentions_concat(rows_ops(fb, (n - 1) as nat), tail, c);
    }
}

/// Streaming the framebuffer after a command other than `c` never writes `c`.
pub proof fn lemma_stream_silent(c2: u8, fb: Seq<u8>, c: u8)
    requires
        c2 != c,
        fb.len() == 15000,
    ensures
        !mentions(stream_ops(c2, fb), c),
{
    let none: Seq<u8> = seq![];
    assert(none != seq![c]) by {
        assert(none.len() == 0);
        assert(seq![c].len() == 1);
    }
    lemma_cmd_silent(c2, none, c);
    let h = seq![OpV::Dc(true), OpV::Cs(false)];
    lemma_quiet_silent(h, c);
    lemma_rows_silent(fb, 300, c);
    lemma_quiet_silent(seq![OpV::Cs(true)], c);
    lemma_mentions_concat(cmd_ops(c2), h, c);
    lemma_mentions_concat(cmd_ops(c2) + h, rows_ops(fb, 300), c);
    lemma_mentions_concat(cmd_ops(c2) + h + rows_ops(fb, 300), seq![OpV::Cs(true)], c);
}

/// When `a` never writes `c`, the first time `a`, then command `c`, then `b` writes `c`
/// is that command, two operations after `a`.
pub proof fn lemma_first_write(a: Seq<OpV>, c: u8, b: Seq<OpV>)
    requires
        !mentions(a, c),
    ensures
        first_write_at(a + cmd_ops(c) + b, c, a.len() + 2int),
        forall|k: int| #[trigger] first_write_at(a + cmd_ops(c) + b, c, k) ==> k == a.len() + 2int,
{
    let p = a + cmd_ops(c) + b;
    assert(p[a.len() + 2int] == cmd_ops(c)[2]);
    assert forall|j: int| 0 <= j < a.len() + 2 implies p[j] != OpV::Write(seq![c]) by {
        if j < a.len() {
            assert(p[j] == a[j]);
            if a[j] == OpV::Write(seq![c]) {
                assert(mentions(a, c));
            }
        } else {
            assert(p[j] == cmd_ops(c)[j - a.len()]);
        }
    }
    assert forall|k: int| #[trigger] first_write_at(p, c, k) implies k == a.len() + 2 by {
        if k > a.len() + 2 {
            assert(p[a.len() + 2int] == OpV::Write(seq![c]));
        }
    }
}

/// When `b` never writes `c` and `d` is not the single byte `c`, the last time `a`, then
/// `c` with parameters `d`, then `b` sends `c`, its parameters are `d`.
pub proof fn lemma_last_sent(a: Seq<OpV>, c: u8, d: Seq<u8>, b: Seq<OpV>)
    requires
        !mentions(b, c),
        d != seq![c],
    ensures
        last_sent_with(a + cmd_with_ops(c, d) + b, c, d),
{
    let blk = cmd_with_ops(c, d);
    let lit = seq![
        OpV::Dc(false),
        OpV::Cs(false),
        OpV::Write(seq![c]),
        OpV::Flush,
        OpV::Cs(true),
        OpV::Dc(true),
        OpV::Cs(false),
        OpV::Write(d),
        OpV::Flush,
        OpV::Cs(true),
    ];
    assert(blk =~= lit);
    let ab = a + blk;
    let p = ab + b;
    let j: int = a.len() + 2int;
    assert(OpV::Write(d) != OpV::Write(seq![c]));
    assert forall|i: int| j < i < ab.len() implies ab[i] != OpV::Write(seq![c]) by {
        assert(ab[i] == lit[i - a.len()]);
    }
    assert forall|i: int| j < i < p.len() implies p[i] != OpV::Write(seq![c]) by {
        if i < ab.len() {
            assert(p[i] == ab[i]);
        } else {
            assert(p[i] == b[i - ab.len()]);
            if b[i - ab.len()] == OpV::Write(seq![c]) {
                assert(mentions(b, c));
            }
        }
    }
    assert(p[j] == ab[j] && ab[j] == lit[2]);
    assert(p[j + 3] == ab[j + 3] && ab[j + 3] == lit[5]);
    assert(p[j + 5] == ab[j + 5] && ab[j + 5] == lit[7]);
}

/// Milliseconds slept before the busy line is first read.
pub const BUSY_FIRST_DELAY_MS: u32 = 10;

/// Polling of the busy line (low while the controller works): after a first sleep the
/// line is read; while it reads busy (or cannot be read) the poller sleeps one interval
/// and gives up once the time slept reaches the timeout.
pub struct BusyPoll {
    /// Milliseconds slept so far.
    pub elapsed: u32,
    /// Give up once `elapsed` reaches this.
    pub timeout: u32,
    /// Milliseconds slept between two reads.
    pub interval: u32,
}

/// What the poller asks for after a reading of the busy line.
#[derive(Debug, PartialEq, Eq)]
pub enum BusyAction {
    /// Sleep this many ms, then read the line again.
    Delay(u32),
    /// Sleep this many ms, then stop: the wait timed out after the given total.
    DelayThenGiveUp(u32, u32),
    /// Stop: the controller is idle, after the given total.
    Ready(u32),
}

impl BusyPoll {
    /// The states a poller can be in while it still reads the line.
    pub open spec fn wf(&self) -> bool {
        &&& self.interval > 0
        &&& self.timeout <= u32::MAX - self.interval
        &&& BUSY_FIRST_DELAY_MS <= u32::MAX - self.interval
        &&& (self.elapsed == BUSY_FIRST_DELAY_MS || self.elapsed < self.timeout)
    }

    /// Starts a wait; the caller first sleeps the returned number of ms, then reads the line.
    pub fn start(timeout: u32, interval: u32) -> (r: (BusyPoll, u32))
        requires
            interval > 0,
            timeout <= u32::MAX - interval,
            BUSY_FIRST_DELAY_MS <= u32::MAX - interval,
        ensures
            r.0 == (BusyPoll { elapsed: BUSY_FIRST_DELAY_MS, timeout, interval }),
            r.0.wf(),
            r.1 == BUSY_FIRST_DELAY_MS,
    {
        (BusyPoll { elapsed: BUSY_FIRST_DELAY_MS, timeout, interval }, BUSY_FIRST_DELAY_MS)
    }

    /// Takes one reading of the busy line: `Some(true)` when it reads low (busy),
    /// `Some(false)` when high (idle), `None` when it could not be read, which counts
    /// as busy.
    pub fn on_reading(&mut self, is_low: Option<bool>) -> (action: BusyAction)
        requires
            old(self).wf(),
        ensures
            final(self).timeout == old(self).timeout,
            final(self).interval == old(self).interval,
            is_low == Some(false) ==> action == BusyAction::Ready(old(self).elapsed)
                && final(self).elapsed == old(self).elapsed,
            is_low != Some(false) ==> final(self).elapsed == old(self).elapsed + old(self).interval,
            is_low != Some(false) && final(self).elapsed >= old(self).timeout ==> action
                == BusyAction::DelayThenGiveUp(old(self).interval, final(self).elapsed),
            is_low != Some(false) && final(self).elapsed < old(self).timeout ==> action
                == BusyAction::Delay(old(self).interval),
            action is Delay ==> final(self).wf(),
    {
        let busy = match is_low {
            Some(low) => low,
            None => true,
        };
        if !busy {
            return BusyAction::Ready(self.elapsed);
        }
        self.elapsed = self.elapsed + self.interval;
        if self.elapsed >= self.timeout {
            BusyAction::DelayThenGiveUp(self.interval, self.elapsed)
        } else {
            BusyAction::Delay(self.interval)
        }
    }
}

/// A wait gives up only once the time slept reaches its timeout, and by then has slept
/// less than one interval past the timeout, unless it gave up after its very first
/// reading: `on_reading` gives up with `elapsed + interval` as the total.
pub proof fn lemma_give_up_bound(p: BusyPoll)
    requires
        p.wf(),
        p.elapsed + p.interval >= p.timeout,
    ensures
        p.timeout <= p.elapsed + p.interval,
        p.elapsed + p.interval < p.timeout + p.interval || p.elapsed == BUSY_FIRST_DELAY_MS,
{
}

/// While the line reads busy and the wait goes on, the time left before the timeout
/// shrinks by one interval and stays positive, so a wait ends after at most
/// `timeout / interval + 1` readings.
pub proof fn lemma_wait_progress(p: BusyPoll)
    requires
        p.wf(),
        p.elapsed + p.interval < p.timeout,
    ensures
        0 < p.timeout - (p.elapsed + p.interval) == (p.timeout - p.elapsed) - p.interval,
{
}

} // verus!
