//! APC (Application Program Command) byte sequence detector for Kitty graphics protocol.
//!
//! Kitty graphics protocol uses APC sequences starting with `\x1b_G` and ending with `\x1b\`.
//! This parser intercepts bytes before they reach the VTE parser, detecting Kitty graphics
//! APC sequences while passing through all other bytes unchanged.

use vstd::prelude::*;

verus! {

/// Result of advancing the APC parser by one byte.
#[derive(Debug, PartialEq)]
pub enum ApcParserResult {
    /// Byte is NOT part of an APC sequence — forward to VTE.
    PassThrough(u8),
    /// Byte IS part of an in-progress APC sequence — do NOT forward to VTE.
    Collecting,
    /// Full APC captured. Contains payload bytes (after 'G', before `\x1b\`).
    Complete(Vec<u8>),
    /// APC was not a valid Kitty sequence or exceeded max size — re-emit these bytes to VTE.
    Aborted(Vec<u8>),
}

/// Mathematical value of a parser result.
pub enum ApcResultView {
    PassThrough(u8),
    Collecting,
    Complete(Seq<u8>),
    Aborted(Seq<u8>),
}

impl View for ApcParserResult {
    type V = ApcResultView;

    open spec fn view(&self) -> ApcResultView {
        match self {
            ApcParserResult::PassThrough(b) => ApcResultView::PassThrough(*b),
            ApcParserResult::Collecting => ApcResultView::Collecting,
            ApcParserResult::Complete(v) => ApcResultView::Complete(v@),
            ApcParserResult::Aborted(v) => ApcResultView::Aborted(v@),
        }
    }
}

/// Where the detector stands inside a possible APC sequence.
#[derive(Debug, Clone, Copy, PartialEq, Eq, Structural)]
pub enum ApcState {
    Normal,
    EscSeen,
    ApcOpen,
    ApcPayload,
    ApcEscSeen,
}

/// Largest payload collected before an APC is given up: 16 MiB.
pub const DEFAULT_MAX_SIZE: usize = 16777216;

/// Byte-at-a-time state machine that detects Kitty graphics APC sequences.
///
/// Bytes are fed one at a time via [`advance`](ApcParser::advance). The return value
/// tells the caller whether to forward the byte to VTE, buffer it, or handle a
/// completed/aborted APC payload.
pub struct ApcParser {
    state: ApcState,
    buffer: Vec<u8>,
    max_size: usize,
}

/// Mathematical value of the detector.
pub struct ApcParserView {
    pub state: ApcState,
    pub buffer: Seq<u8>,
    pub max_size: nat,
}

impl View for ApcParser {
    type V = ApcParserView;

    closed spec fn view(&self) -> ApcParserView {
        ApcParserView { state: self.state, buffer: self.buffer@, max_size: self.max_size as nat }
    }
}

impl ApcParserView {
    /// The collected payload never exceeds the limit.
    pub open spec fn valid(self) -> bool {
        self.buffer.len() <= self.max_size
    }

    /// The detector after one byte, and what that byte yields.
    pub open spec fn step(self, byte: u8) -> (ApcParserView, ApcResultView) {
        let normal = ApcParserView { state: ApcState::Normal, buffer: Seq::empty(), ..self };
        match self.state {
            ApcState::Normal => if byte == 0x1b {
                (ApcParserView { state: ApcState::EscSeen, ..self }, ApcResultView::Collecting)
            } else {
                (self, ApcResultView::PassThrough(byte))
            },
            ApcState::EscSeen => if byte == 0x5f {
                (ApcParserView { state: ApcState::ApcOpen, ..self }, ApcResultView::Collecting)
            } else {
                (
                    ApcParserView { state: ApcState::Normal, ..self },
                    ApcResultView::Aborted(seq![0x1bu8, byte]),
                )
            },
            ApcState::ApcOpen => if byte == 0x47 {
                (
                    ApcParserView { state: ApcState::ApcPayload, buffer: Seq::empty(), ..self },
                    ApcResultView::Collecting,
                )
            } else {
                (
                    ApcParserView { state: ApcState::Normal, ..self },
                    ApcResultView::Aborted(seq![0x1bu8, 0x5fu8, byte]),
                )
            },
            ApcState::ApcPayload => if byte == 0x1b {
                (ApcParserView { state: ApcState::ApcEscSeen, ..self }, ApcResultView::Collecting)
            } else {
                let buf = self.buffer.push(byte);
                if buf.len() > self.max_size {
                    (normal, ApcResultView::Aborted(buf))
                } else {
                    (ApcParserView { buffer: buf, ..self }, ApcResultView::Collecting)
                }
            },
            ApcState::ApcEscSeen => if byte == 0x5c {
                (normal, ApcResultView::Complete(self.buffer))
            } else if byte == 0x1b {
                let buf = self.buffer.push(0x1b);
                if buf.len() > self.max_size {
                    (normal, ApcResultView::Aborted(buf))
                } else {
                    (ApcParserView { buffer: buf, ..self }, ApcResultView::Collecting)
                }
            } else {
                let buf = self.buffer.push(0x1b).push(byte);
                if buf.len() > self.max_size {
                    (normal, ApcResultView::Aborted(buf))
                } else {
                    (
                        ApcParserView { state: ApcState::ApcPayload, buffer: buf, ..self },
                        ApcResultView::Collecting,
                    )
                }
            },
        }
    }

    /// The bytes the detector has taken in and not yet handed back.
    pub open spec fn absorbed(self) -> Seq<u8> {
        match self.state {
            ApcState::Normal => Seq::empty(),
            ApcState::EscSeen => seq![0x1bu8],
            ApcState::ApcOpen => seq![0x1bu8, 0x5fu8],
            ApcState::ApcPayload => seq![0x1bu8, 0x5fu8, 0x47u8] + self.buffer,
            ApcState::ApcEscSeen => seq![0x1bu8, 0x5fu8, 0x47u8] + self.buffer + seq![0x1bu8],
        }
    }

    /// The detector after a run of bytes, and what each byte yields.
    pub open spec fn feed(self, input: Seq<u8>) -> (ApcParserView, Seq<ApcResultView>)
        decreases input.len(),
    {
        if input.len() == 0 {
            (self, Seq::empty())
        } else {
            let (p1, r) = self.step(input[0]);
            let (p2, rs) = p1.feed(input.drop_first());
            (p2, seq![r] + rs)
        }
    }
}

/// The bytes a result hands back, as they stood in the input: passed and
/// aborted bytes as they are, a completed payload inside its APC framing.
pub open spec fn emitted(r: ApcResultView) -> Seq<u8> {
    match r {
        ApcResultView::PassThrough(b) => seq![b],
        ApcResultView::Collecting => Seq::empty(),
        ApcResultView::Complete(p) => seq![0x1bu8, 0x5fu8, 0x47u8] + p + seq![0x1bu8, 0x5cu8],
        ApcResultView::Aborted(v) => v,
    }
}

/// The bytes a run of results hands back, in order.
pub open spec fn emitted_all(rs: Seq<ApcResultView>) -> Seq<u8>
    decreases rs.len(),
{
    if rs.len() == 0 {
        Seq::empty()
    } else {
        emitted(rs[0]) + emitted_all(rs.drop_first())
    }
}

/// A Kitty graphics APC sequence carrying `payload`.
pub open spec fn kitty_apc(payload: Seq<u8>) -> Seq<u8> {
    seq![0x1bu8, 0x5fu8, 0x47u8] + payload + seq![0x1bu8, 0x5cu8]
}

/// This byte makes the payload outgrow the limit, and the APC is given up.
pub open spec fn overflows(p: ApcParserView, byte: u8) -> bool {
    match p.state {
        ApcState::ApcPayload => byte != 0x1b && p.buffer.len() + 1 > p.max_size,
        ApcState::ApcEscSeen => byte != 0x5c && p.buffer.len() + (if byte == 0x1b {
            1int
        } else {
            2int
        }) > p.max_size,
        _ => false,
    }
}

/// Some byte of the run makes an APC payload outgrow the limit.
pub open spec fn feed_overflows(p: ApcParserView, input: Seq<u8>) -> bool
    decreases input.len(),
{
    input.len() > 0 && (overflows(p, input[0]) || feed_overflows(
        p.step(input[0]).0,
        input.drop_first(),
    ))
}

/// Each byte is accounted for: what was absorbed before, plus the byte, is
/// what the step hands back followed by what stays absorbed — unless the
/// payload outgrows the limit on this very byte.
pub proof fn lemma_step_conserves_bytes(p: ApcParserView, byte: u8)
    requires
        !overflows(p, byte),
    ensures
        p.absorbed().push(byte) == emitted(p.step(byte).1) + p.step(byte).0.absorbed(),
        p.step(byte).0.max_size == p.max_size,
{
    let (q, r) = p.step(byte);
    assert(p.absorbed().push(byte) =~= emitted(r) + q.absorbed());
}

/// Passing bytes through the detector loses and invents nothing: the bytes
/// absorbed at the start followed by the input equal, in order, everything
/// the results hand back followed by what is still absorbed at the end,
/// unless an APC payload outgrows the limit on the way (then the bytes that
/// opened it are dropped).
pub proof fn lemma_feed_conserves_bytes(p: ApcParserView, input: Seq<u8>)
    requires
        !feed_overflows(p, input),
    ensures
        p.absorbed() + input == emitted_all(p.feed(input).1) + p.feed(input).0.absorbed(),
    decreases input.len(),
{
    if input.len() == 0 {
        assert(p.absorbed() + input =~= p.absorbed());
        assert(emitted_all(Seq::<ApcResultView>::empty()) =~= Seq::<u8>::empty());
        assert(emitted_all(p.feed(input).1) + p.absorbed() =~= p.absorbed());
    } else {
        lemma_step_conserves_bytes(p, input[0]);
        let (q, r) = p.step(input[0]);
        lemma_feed_conserves_bytes(q, input.drop_first());
        let (q2, rs) = q.feed(input.drop_first());
        assert(emitted_all(seq![r] + rs) == emitted(r) + emitted_all(rs)) by {
            assert((seq![r] + rs).drop_first() =~= rs);
        }
        assert(p.absorbed() + input =~= p.absorbed().push(input[0]) + input.drop_first());
    }
}

/// No ESC of the payload is followed by `\`, so nothing inside it ends the
/// APC early.
pub open spec fn holds_no_terminator(payload: Seq<u8>) -> bool {
    forall|i: int| 0 <= i < payload.len() - 1 ==> !(#[trigger] payload[i] == 0x1b && payload[i + 1] == 0x5c)
}

/// The payload bytes the detector holds while inside an APC: its buffer, and
/// an ESC it has seen but not yet placed.
pub open spec fn held(p: ApcParserView) -> Seq<u8> {
    if p.state == ApcState::ApcEscSeen {
        p.buffer.push(0x1b)
    } else {
        p.buffer
    }
}

/// Inside an APC, feeding payload bytes that do not end it keeps collecting
/// them: every result is `Collecting`, the bytes are held after those held
/// before, and the detector waits on an ESC exactly when the last byte was one.
proof fn lemma_collects_payload(p: ApcParserView, payload: Seq<u8>)
    requires
        p.state == ApcState::ApcPayload || p.state == ApcState::ApcEscSeen,
        held(p).len() + payload.len() <= p.max_size,
        holds_no_terminator(payload),
        p.state == ApcState::ApcEscSeen && payload.len() > 0 ==> payload[0] != 0x5c,
    ensures
        p.feed(payload).0.state == ApcState::ApcPayload || p.feed(payload).0.state
            == ApcState::ApcEscSeen,
        p.feed(payload).0.max_size == p.max_size,
        held(p.feed(payload).0) == held(p) + payload,
        (p.feed(payload).0.state == ApcState::ApcEscSeen) == (if payload.len() == 0 {
            p.state == ApcState::ApcEscSeen
        } else {
            payload.last() == 0x1b
        }),
        forall|i: int|
            0 <= i < payload.len() ==> #[trigger] p.feed(payload).1[i] == ApcResultView::Collecting,
        p.feed(payload).1.len() == payload.len(),
    decreases payload.len(),
{
    if payload.len() == 0 {
        assert(held(p) + payload =~= held(p));
    } else {
        let (q, r) = p.step(payload[0]);
        let rest = payload.drop_first();
        assert(held(q) =~= held(p).push(payload[0]));
        assert(r == ApcResultView::Collecting);
        assert forall|i: int| 0 <= i < rest.len() - 1 implies !(#[trigger] rest[i] == 0x1b && rest[i
            + 1] == 0x5c) by {
            assert(rest[i] == payload[i + 1] && rest[i + 1] == payload[i + 2]);
        }
        if q.state == ApcState::ApcEscSeen && rest.len() > 0 {
            assert(payload[0] == 0x1b);
            assert(rest[0] == payload[1]);
        }
        lemma_collects_payload(q, rest);
        assert(held(p).push(payload[0]) + rest =~= held(p) + payload);
        if rest.len() > 0 {
            assert(rest.last() == payload.last());
        }
        let (q2, rs) = q.feed(rest);
        assert forall|i: int| 0 <= i < payload.len() implies #[trigger] p.feed(payload).1[i]
            == ApcResultView::Collecting by {
            if i > 0 {
                assert(p.feed(payload).1[i] == rs[i - 1]);
            }
        }
    }
}

/// A Kitty graphics APC, fed to a detector in its normal state, is
/// delivered intact on its final byte — unless its payload outgrows the
/// limit or holds an ESC `\` that ends it early; every earlier byte only
/// collects, and the detector is back in its normal state.
pub proof fn lemma_kitty_apc_delivered(p: ApcParserView, payload: Seq<u8>)
    requires
        p.state == ApcState::Normal,
        payload.len() <= p.max_size,
        holds_no_terminator(payload),
    ensures
        p.feed(kitty_apc(payload)).0.state == ApcState::Normal,
        p.feed(kitty_apc(payload)).0.buffer == Seq::<u8>::empty(),
        p.feed(kitty_apc(payload)).1.len() == kitty_apc(payload).len(),
        p.feed(kitty_apc(payload)).1.last() == ApcResultView::Complete(payload),
        forall|i: int|
            0 <= i < kitty_apc(payload).len() - 1 ==> #[trigger] p.feed(kitty_apc(payload)).1[i]
                == ApcResultView::Collecting,
{
    let input = kitty_apc(payload);
    let p1 = p.step(0x1b).0;
    let p2 = p1.step(0x5f).0;
    let p3 = p2.step(0x47).0;
    assert(p3.state == ApcState::ApcPayload && p3.buffer == Seq::<u8>::empty());
    assert(held(p3) + payload =~= payload);
    lemma_collects_payload(p3, payload);
    let p4 = p3.feed(payload).0;
    let tail = seq![0x1bu8, 0x5cu8];
    let p5 = p4.step(0x1b).0;
    let p6 = p5.step(0x5c).0;
    if p4.state == ApcState::ApcPayload {
        assert(p4.buffer =~= payload);
        assert(p5.buffer =~= payload && p5.state == ApcState::ApcEscSeen);
    } else {
        assert(p4.buffer.push(0x1b) =~= payload);
        assert(p5.buffer =~= payload && p5.state == ApcState::ApcEscSeen);
    }
    let t2 = seq![0x5cu8];
    assert(tail.drop_first() =~= t2);
    assert(t2.drop_first() =~= Seq::<u8>::empty());
    assert(p6.feed(t2.drop_first()) == (p6, Seq::<ApcResultView>::empty()));
    assert(p5.feed(t2).0 == p6);
    assert(p5.feed(t2).1 =~= seq![ApcResultView::Complete(payload)]);
    assert(p4.feed(tail).0 == p6);
    assert(p4.feed(tail).1 =~= seq![ApcResultView::Collecting, ApcResultView::Complete(payload)]);
    lemma_feed_split(p3, payload, tail);
    let pre = seq![0x1bu8, 0x5fu8, 0x47u8];
    let c = ApcResultView::Collecting;
    assert(pre.drop_first() =~= seq![0x5fu8, 0x47u8]);
    assert(seq![0x5fu8, 0x47u8].drop_first() =~= seq![0x47u8]);
    assert(seq![0x47u8].drop_first() =~= Seq::<u8>::empty());
    assert(p3.feed(Seq::<u8>::empty()) == (p3, Seq::<ApcResultView>::empty()));
    assert(p2.feed(seq![0x47u8]).0 == p3);
    assert(p2.feed(seq![0x47u8]).1 =~= seq![c]);
    assert(p1.feed(seq![0x5fu8, 0x47u8]).0 == p3);
    assert(p1.feed(seq![0x5fu8, 0x47u8]).1 =~= seq![c, c]);
    assert(p.feed(pre).0 == p3);
    assert(p.feed(pre).1 =~= seq![c, c, c]);
    assert(input =~= pre + (payload + tail));
    lemma_feed_split(p, pre, payload + tail);
    let rs3 = p3.feed(payload + tail).1;
    assert(p.feed(input).1 == seq![c, c, c] + rs3);
    assert(p.feed(input).0 == p6);
    assert forall|i: int| 0 <= i < input.len() - 1 implies #[trigger] p.feed(input).1[i]
        == ApcResultView::Collecting by {
        if i >= 3 {
            assert(p.feed(input).1[i] == rs3[i - 3]);
            if i - 3 < payload.len() {
                assert(rs3[i - 3] == p3.feed(payload).1[i - 3]);
            } else {
                assert(rs3[i - 3] == p4.feed(tail).1[i - 3 - payload.len()]);
            }
        }
    }
}

/// A run that holds, with what the detector already absorbed, no more bytes
/// than the limit cannot make a payload outgrow it.
proof fn lemma_short_run_fits(p: ApcParserView, input: Seq<u8>)
    requires
        p.absorbed().len() + input.len() <= p.max_size,
    ensures
        !feed_overflows(p, input),
    decreases input.len(),
{
    if input.len() > 0 {
        assert(!overflows(p, input[0]));
        lemma_step_conserves_bytes(p, input[0]);
        let (q, r) = p.step(input[0]);
        assert(q.absorbed().len() <= p.absorbed().len() + 1) by {
            assert(p.absorbed().push(input[0]).len() == emitted(r).len() + q.absorbed().len());
        }
        lemma_short_run_fits(q, input.drop_first());
    }
}

/// Every result but `Collecting` leaves the detector in its normal state.
proof fn lemma_settled_after_result(p: ApcParserView, input: Seq<u8>)
    requires
        input.len() > 0,
        p.feed(input).1.last() != ApcResultView::Collecting,
    ensures
        p.feed(input).0.state == ApcState::Normal,
        p.feed(input).1.len() == input.len(),
    decreases input.len(),
{
    let (q, r) = p.step(input[0]);
    let (q2, rs) = q.feed(input.drop_first());
    lemma_feed_len(q, input.drop_first());
    if input.len() == 1 {
        assert(input.drop_first().len() == 0);
        assert(p.feed(input).1 =~= seq![r]);
    } else {
        assert(p.feed(input).1.last() == rs.last());
        lemma_settled_after_result(q, input.drop_first());
    }
}

/// A run yields one result per byte.
proof fn lemma_feed_len(p: ApcParserView, input: Seq<u8>)
    ensures
        p.feed(input).1.len() == input.len(),
    decreases input.len(),
{
    if input.len() > 0 {
        lemma_feed_len(p.step(input[0]).0, input.drop_first());
    }
}

/// Bytes fed to a fresh detector, no more than the limit, come back whole
/// and in order once the last result is not `Collecting`: the bytes passed
/// through, aborted runs and completed APCs (framing included) together are
/// exactly the input.
pub proof fn lemma_fresh_run_returns_input(p: ApcParserView, input: Seq<u8>)
    requires
        p.state == ApcState::Normal,
        input.len() <= p.max_size,
        input.len() == 0 || p.feed(input).1.last() != ApcResultView::Collecting,
    ensures
        emitted_all(p.feed(input).1) == input,
{
    assert(p.absorbed() =~= Seq::<u8>::empty());
    lemma_short_run_fits(p, input);
    lemma_feed_conserves_bytes(p, input);
    assert(p.absorbed() + input =~= input);
    if input.len() > 0 {
        lemma_settled_after_result(p, input);
    } else {
        assert(p.feed(input).0 == p);
    }
    let end = p.feed(input).0.absorbed();
    assert(end =~= Seq::<u8>::empty());
    assert(emitted_all(p.feed(input).1) + end =~= emitted_all(p.feed(input).1));
}

/// From any state the detector can be in (its payload within the limit), a
/// step keeps it there, completes with at most the limit's worth of payload,
/// and aborts with at most the limit plus 2 bytes.
pub proof fn lemma_step_bounds(p: ApcParserView, byte: u8)
    requires
        p.valid(),
        p.max_size >= 1,
    ensures
        p.step(byte).0.valid(),
        p.step(byte).0.max_size == p.max_size,
        p.step(byte).1 matches ApcResultView::Complete(q) ==> q.len() <= p.max_size,
        p.step(byte).1 matches ApcResultView::Aborted(v) ==> v.len() <= p.max_size + 2,
{
}

/// The opening `ESC _ G` of a Kitty graphics APC, then `payload`, with no end.
pub open spec fn apc_opened(payload: Seq<u8>) -> Seq<u8> {
    seq![0x1bu8, 0x5fu8, 0x47u8] + payload
}

/// A Kitty graphics APC whose payload runs one byte past the limit with no
/// ESC is given up on that byte: every earlier byte collects, the last one
/// aborts with the whole payload, and the detector is back in its normal
/// state with nothing held.
pub proof fn lemma_oversized_apc_aborted(p: ApcParserView, payload: Seq<u8>)
    requires
        p.state == ApcState::Normal,
        payload.len() == p.max_size + 1,
        forall|i: int| 0 <= i < payload.len() ==> payload[i] != 0x1b,
    ensures
        p.feed(apc_opened(payload)).1.len() == payload.len() + 3,
        p.feed(apc_opened(payload)).1.last() == ApcResultView::Aborted(payload),
        forall|i: int|
            0 <= i < payload.len() + 2 ==> #[trigger] p.feed(apc_opened(payload)).1[i] == ApcResultView::Collecting,
        p.feed(apc_opened(payload)).0 == (ApcParserView {
            state: ApcState::Normal,
            buffer: Seq::empty(),
            ..p
        }),
{
    let pre = seq![0x1bu8, 0x5fu8, 0x47u8];
    let c = ApcResultView::Collecting;
    let p1 = p.step(0x1b).0;
    let p2 = p1.step(0x5f).0;
    let p3 = p2.step(0x47).0;
    assert(pre.drop_first() =~= seq![0x5fu8, 0x47u8]);
    assert(seq![0x5fu8, 0x47u8].drop_first() =~= seq![0x47u8]);
    assert(seq![0x47u8].drop_first() =~= Seq::<u8>::empty());
    assert(p3.feed(Seq::<u8>::empty()) == (p3, Seq::<ApcResultView>::empty()));
    assert(p2.feed(seq![0x47u8]).1 =~= seq![c]);
    assert(p1.feed(seq![0x5fu8, 0x47u8]).1 =~= seq![c, c]);
    assert(p.feed(pre).0 == p3);
    assert(p.feed(pre).1 =~= seq![c, c, c]);
    let body = payload.drop_last();
    let last = payload.last();
    assert(forall|i: int| 0 <= i < body.len() - 1 ==> #[trigger] body[i] != 0x1b) by {
        assert forall|i: int| 0 <= i < body.len() - 1 implies #[trigger] body[i] != 0x1b by {
            assert(body[i] == payload[i]);
        }
    }
    assert(holds_no_terminator(body)) by {
        assert forall|i: int| 0 <= i < body.len() - 1 implies !(#[trigger] body[i] == 0x1b && body[i
            + 1] == 0x5c) by {
            assert(body[i] == payload[i]);
        }
    }
    assert(held(p3) + body =~= body);
    lemma_collects_payload(p3, body);
    let p4 = p3.feed(body).0;
    if body.len() > 0 {
        assert(body.last() == payload[body.len() - 1]);
    }
    assert(p4.state == ApcState::ApcPayload);
    assert(p4.buffer =~= body);
    assert(last == payload[payload.len() - 1]);
    let tail = seq![last];
    assert(tail.drop_first() =~= Seq::<u8>::empty());
    let p5 = p4.step(last).0;
    assert(p4.buffer.push(last) =~= payload);
    assert(p4.step(last).1 == ApcResultView::Aborted(payload));
    assert(p5.feed(Seq::<u8>::empty()) == (p5, Seq::<ApcResultView>::empty()));
    assert(p4.feed(tail).1 =~= seq![ApcResultView::Aborted(payload)]);
    assert(p4.feed(tail).0 == p5);
    assert(payload =~= body + tail);
    lemma_feed_split(p3, body, tail);
    lemma_feed_split(p, pre, payload);
    let rs3 = p3.feed(payload).1;
    assert(apc_opened(payload) == pre + payload);
    assert(p.feed(pre + payload).1 == seq![c, c, c] + rs3);
    assert(p5 =~= (ApcParserView { state: ApcState::Normal, buffer: Seq::empty(), ..p }));
    assert forall|i: int| 0 <= i < payload.len() + 2 implies #[trigger] p.feed(pre + payload).1[i]
        == ApcResultView::Collecting by {
        if i >= 3 {
            assert(p.feed(pre + payload).1[i] == rs3[i - 3]);
            assert(rs3[i - 3] == p3.feed(body).1[i - 3]);
        }
    }
}

/// Feeding two runs is feeding the first, then the second.
pub proof fn lemma_feed_split(p: ApcParserView, a: Seq<u8>, b: Seq<u8>)
    ensures
        p.feed(a + b).0 == p.feed(a).0.feed(b).0,
        p.feed(a + b).1 == p.feed(a).1 + p.feed(a).0.feed(b).1,
    decreases a.len(),
{
    if a.len() == 0 {
        assert(a + b =~= b);
        assert(p.feed(a).1 + p.feed(b).1 =~= p.feed(b).1);
    } else {
        let (q, r) = p.step(a[0]);
        assert((a + b).drop_first() =~= a.drop_first() + b);
        assert((a + b)[0] == a[0]);
        lemma_feed_split(q, a.drop_first(), b);
        assert(p.feed(a + b).1 =~= p.feed(a).1 + p.feed(a).0.feed(b).1);
    }
}

impl ApcParser {
    /// A detector in its normal state with the default payload limit.
    pub fn new() -> (r: Self)
        ensures
            r@ == (ApcParserView {
                state: ApcState::Normal,
                buffer: Seq::empty(),
                max_size: DEFAULT_MAX_SIZE as nat,
            }),
            r@.valid(),
    {
        Self { state: ApcState::Normal, buffer: Vec::new(), max_size: DEFAULT_MAX_SIZE }
    }

    /// Hands back the collected payload and resets to the normal state.
    fn take_buffer(&mut self) -> (r: Vec<u8>)
        ensures
            r@ == old(self)@.buffer,
            final(self)@ == (ApcParserView {
                state: ApcState::Normal,
                buffer: Seq::empty(),
                ..old(self)@
            }),
    {
        let mut taken: Vec<u8> = Vec::new();
        std::mem::swap(&mut taken, &mut self.buffer);
        self.state = ApcState::Normal;
        taken
    }

    /// Advance the parser state machine by one byte.
    pub fn advance(&mut self, byte: u8) -> (r: ApcParserResult)
        requires
            old(self)@.valid(),
        ensures
            final(self)@.valid(),
            (final(self)@, r@) == old(self)@.step(byte),
    {
        match self.state {
            ApcState::Normal => {
                if byte == 0x1B {
                    self.state = ApcState::EscSeen;
                    ApcParserResult::Collecting
                } else {
                    ApcParserResult::PassThrough(byte)
                }
            },
            ApcState::EscSeen => {
                if byte == 0x5F {
                    self.state = ApcState::ApcOpen;
                    ApcParserResult::Collecting
                } else {
                    self.state = ApcState::Normal;
                    let v = vec![0x1B, byte];
                    assert(v@ =~= seq![0x1bu8, byte]);
                    ApcParserResult::Aborted(v)
                }
            },
            ApcState::ApcOpen => {
                if byte == 0x47 {
                    self.state = ApcState::ApcPayload;
                    self.buffer.clear();
                    ApcParserResult::Collecting
                } else {
                    self.state = ApcState::Normal;
                    let v = vec![0x1B, 0x5F, byte];
                    assert(v@ =~= seq![0x1bu8, 0x5fu8, byte]);
                    ApcParserResult::Aborted(v)
                }
            },
            ApcState::ApcPayload => {
                if byte == 0x1B {
                    self.state = ApcState::ApcEscSeen;
                    ApcParserResult::Collecting
                } else {
                    self.buffer.push(byte);
                    if self.buffer.len() > self.max_size {
                        let aborted = self.take_buffer();
                        ApcParserResult::Aborted(aborted)
                    } else {
                        ApcParserResult::Collecting
                    }
                }
            },
            ApcState::ApcEscSeen => {
                if byte == 0x5C {
                    let payload = self.take_buffer();
                    ApcParserResult::Complete(payload)
                } else if byte == 0x1B {
                    self.buffer.push(0x1B);
                    if self.buffer.len() > self.max_size {
                        let aborted = self.take_buffer();
                        ApcParserResult::Aborted(aborted)
                    } else {
                        ApcParserResult::Collecting
                    }
                } else {
                    self.buffer.push(0x1B);
                    self.buffer.push(byte);
                    self.state = ApcState::ApcPayload;
                    if self.buffer.len() > self.max_size {
                        let aborted = self.take_buffer();
                        ApcParserResult::Aborted(aborted)
                    } else {
                        ApcParserResult::Collecting
                    }
                }
            },
        }
    }
}

} // verus!
