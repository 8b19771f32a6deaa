use vstd::prelude::*;
use vstd::bytes::*;
use vstd::utf8::*;
use vstd::slice::{slice_subrange, slice_to_vec, slice_index_get};
use vstd::string::*;
use crate::proc::{ProcState, ExitInfo, StateView, ExitView};

verus! {

/// Largest payload one frame may carry; a length header above this is a
/// protocol error that closes the connection.
pub const MAX_FRAME: u32 = 1048576;

/// One row of a process-list snapshot: stable id, display name, state.
#[derive(Clone, Debug, PartialEq, Eq)]
pub struct ProcSummary {
    pub id: u64,
    pub name: String,
    pub state: ProcState,
}

/// A one-shot command addressed by process name, as the control gateway
/// sends it.
#[derive(Clone, Debug, PartialEq, Eq)]
pub enum CtlCommand {
    StartByName(String),
    StopByName(String),
    RestartByName(String),
}

/// Error reported to one session over the wire.
#[derive(Clone, Copy, Debug, PartialEq, Eq, Structural)]
pub enum ErrMsg {
    UnknownProcess,
    InvalidTransition,
    Protocol,
}

/// The wire message: client-to-server commands and server-to-client events
/// share one tag space so either peer can decode what it receives.
#[derive(Clone, Debug, PartialEq, Eq)]
pub enum Message {
    Start { id: u64 },
    Stop { id: u64 },
    Restart { id: u64 },
    SendInput { id: u64, data: Vec<u8> },
    Resize { id: u64, cols: u16, rows: u16 },
    Attach { id: u64 },
    Detach { id: u64 },
    ListRequest,
    Ctl(CtlCommand),
    Output { id: u64, data: Vec<u8> },
    StateChanged { id: u64, state: ProcState },
    ListSnapshot(Vec<ProcSummary>),
    Ack,
    ErrorEvent(ErrMsg),
}

/// Mathematical form of `ProcSummary`.
pub struct SummaryView {
    pub id: u64,
    pub name: Seq<char>,
    pub state: StateView,
}

/// Mathematical form of `CtlCommand`.
pub enum CtlView {
    StartByName(Seq<char>),
    StopByName(Seq<char>),
    RestartByName(Seq<char>),
}

/// Mathematical form of `Message`.
pub enum MsgView {
    Start { id: u64 },
    Stop { id: u64 },
    Restart { id: u64 },
    SendInput { id: u64, data: Seq<u8> },
    Resize { id: u64, cols: u16, rows: u16 },
    Attach { id: u64 },
    Detach { id: u64 },
    ListRequest,
    Ctl(CtlView),
    Output { id: u64, data: Seq<u8> },
    StateChanged { id: u64, state: StateView },
    ListSnapshot(Seq<SummaryView>),
    Ack,
    ErrorEvent(ErrMsg),
}

impl View for ProcSummary {
    type V = SummaryView;

    open spec fn view(&self) -> SummaryView {
        SummaryView { id: self.id, name: self.name@, state: self.state@ }
    }
}

impl View for CtlCommand {
    type V = CtlView;

    open spec fn view(&self) -> CtlView {
        match self {
            CtlCommand::StartByName(n) => CtlView::StartByName(n@),
            CtlCommand::StopByName(n) => CtlView::StopByName(n@),
            CtlCommand::RestartByName(n) => CtlView::RestartByName(n@),
        }
    }
}

pub open spec fn views_of_summaries(ps: Seq<ProcSummary>) -> Seq<SummaryView> {
    ps.map_values(|p: ProcSummary| p@)
}

impl View for Message {
    type V = MsgView;

    open spec fn view(&self) -> MsgView {
        match self {
            Message::Start { id } => MsgView::Start { id: *id },
            Message::Stop { id } => MsgView::Stop { id: *id },
            Message::Restart { id } => MsgView::Restart { id: *id },
            Message::SendInput { id, data } => MsgView::SendInput { id: *id, data: data@ },
            Message::Resize { id, cols, rows } => MsgView::Resize {
                id: *id,
                cols: *cols,
                rows: *rows,
            },
            Message::Attach { id } => MsgView::Attach { id: *id },
            Message::Detach { id } => MsgView::Detach { id: *id },
            Message::ListRequest => MsgView::ListRequest,
            Message::Ctl(c) => MsgView::Ctl(c@),
            Message::Output { id, data } => MsgView::Output { id: *id, data: data@ },
            Message::StateChanged { id, state } => MsgView::StateChanged {
                id: *id,
                state: state@,
            },
            Message::ListSnapshot(ps) => MsgView::ListSnapshot(views_of_summaries(ps@)),
            Message::Ack => MsgView::Ack,
            Message::ErrorEvent(e) => MsgView::ErrorEvent(*e),
        }
    }
}

// ------------------------------------------------------------------
// Payload encoding: a discriminant tag, then the variant's fields.
// Integers are little-endian and fixed width; byte blocks and strings are
// length-prefixed; strings travel as UTF-8.
// ------------------------------------------------------------------

pub open spec fn enc_u16(x: u16) -> Seq<u8> {
    spec_u16_to_le_bytes(x)
}

pub open spec fn enc_u32(x: u32) -> Seq<u8> {
    spec_u32_to_le_bytes(x)
}

pub open spec fn enc_u64(x: u64) -> Seq<u8> {
    spec_u64_to_le_bytes(x)
}

pub open spec fn enc_bytes(d: Seq<u8>) -> Seq<u8> {
    enc_u32(d.len() as u32) + d
}

pub open spec fn enc_str(s: Seq<char>) -> Seq<u8> {
    enc_bytes(encode_utf8(s))
}

pub open spec fn enc_state(st: StateView) -> Seq<u8> {
    match st {
        StateView::NotStarted => seq![0u8],
        StateView::Running => seq![1u8],
        StateView::Stopping => seq![2u8],
        StateView::Stopped(info) => match info {
            ExitView::Exited(code) => seq![3u8] + enc_u32(code),
            ExitView::Signaled(sig) => seq![4u8] + enc_u32(sig),
            ExitView::SpawnFailed(reason) => seq![5u8] + enc_str(reason),
        },
    }
}

pub open spec fn enc_ctl(c: CtlView) -> Seq<u8> {
    match c {
        CtlView::StartByName(n) => seq![0u8] + enc_str(n),
        CtlView::StopByName(n) => seq![1u8] + enc_str(n),
        CtlView::RestartByName(n) => seq![2u8] + enc_str(n),
    }
}

pub open spec fn enc_err(e: ErrMsg) -> Seq<u8> {
    match e {
        ErrMsg::UnknownProcess => seq![0u8],
        ErrMsg::InvalidTransition => seq![1u8],
        ErrMsg::Protocol => seq![2u8],
    }
}

pub open spec fn enc_summary(p: SummaryView) -> Seq<u8> {
    enc_u64(p.id) + enc_str(p.name) + enc_state(p.state)
}

pub open spec fn enc_summaries(ps: Seq<SummaryView>) -> Seq<u8>
    decreases ps.len(),
{
    if ps.len() == 0 {
        Seq::empty()
    } else {
        enc_summary(ps[0]) + enc_summaries(ps.drop_first())
    }
}

pub open spec fn enc_msg(m: MsgView) -> Seq<u8> {
    match m {
        MsgView::Start { id } => seq![1u8] + enc_u64(id),
        MsgView::Stop { id } => seq![2u8] + enc_u64(id),
        MsgView::Restart { id } => seq![3u8] + enc_u64(id),
        MsgView::SendInput { id, data } => seq![4u8] + enc_u64(id) + enc_bytes(data),
        MsgView::Resize { id, cols, rows } => seq![5u8] + enc_u64(id) + enc_u16(cols) + enc_u16(
            rows,
        ),
        MsgView::Attach { id } => seq![6u8] + enc_u64(id),
        MsgView::Detach { id } => seq![7u8] + enc_u64(id),
        MsgView::ListRequest => seq![8u8],
        MsgView::Ctl(c) => seq![9u8] + enc_ctl(c),
        MsgView::Output { id, data } => seq![10u8] + enc_u64(id) + enc_bytes(data),
        MsgView::StateChanged { id, state } => seq![11u8] + enc_u64(id) + enc_state(state),
        MsgView::ListSnapshot(ps) => seq![12u8] + enc_u32(ps.len() as u32) + enc_summaries(ps),
        MsgView::Ack => seq![13u8],
        MsgView::ErrorEvent(e) => seq![14u8] + enc_err(e),
    }
}

// ------------------------------------------------------------------
// Well-formedness: every length that travels in a 32-bit header fits one.
// ------------------------------------------------------------------

pub open spec fn str_wf(s: Seq<char>) -> bool {
    encode_utf8(s).len() < 4294967296
}

pub open spec fn state_wf(st: StateView) -> bool {
    match st {
        StateView::Stopped(ExitView::SpawnFailed(reason)) => str_wf(reason),
        _ => true,
    }
}

pub open spec fn summary_wf(p: SummaryView) -> bool {
    str_wf(p.name) && state_wf(p.state)
}

pub open spec fn msg_wf(m: MsgView) -> bool {
    match m {
        MsgView::SendInput { data, .. } => data.len() < 4294967296,
        MsgView::Output { data, .. } => data.len() < 4294967296,
        MsgView::Ctl(c) => match c {
            CtlView::StartByName(n) => str_wf(n),
            CtlView::StopByName(n) => str_wf(n),
            CtlView::RestartByName(n) => str_wf(n),
        },
        MsgView::StateChanged { state, .. } => state_wf(state),
        MsgView::ListSnapshot(ps) => ps.len() < 4294967296 && (forall|i: int|
            0 <= i < ps.len() ==> summary_wf(#[trigger] ps[i])),
        _ => true,
    }
}

// ------------------------------------------------------------------
// Executable encoding.
// ------------------------------------------------------------------

fn push_u16(out: &mut Vec<u8>, x: u16)
    ensures
        final(out)@ == old(out)@ + enc_u16(x),
{
    let mut b = u16_to_le_bytes(x);
    out.append(&mut b);
}

fn push_u32(out: &mut Vec<u8>, x: u32)
    ensures
        final(out)@ == old(out)@ + enc_u32(x),
{
    let mut b = u32_to_le_bytes(x);
    out.append(&mut b);
}

fn push_u64(out: &mut Vec<u8>, x: u64)
    ensures
        final(out)@ == old(out)@ + enc_u64(x),
{
    let mut b = u64_to_le_bytes(x);
    out.append(&mut b);
}

fn push_byte(out: &mut Vec<u8>, x: u8)
    ensures
        final(out)@ == old(out)@ + seq![x],
{
    out.push(x);
    assert(out@ =~= old(out)@ + seq![x]);
}

fn push_bytes(out: &mut Vec<u8>, data: &[u8])
    requires
        data@.len() < 4294967296,
    ensures
        final(out)@ == old(out)@ + enc_bytes(data@),
{
    push_u32(out, data.len() as u32);
    let mut v = slice_to_vec(data);
    out.append(&mut v);
    assert(out@ =~= old(out)@ + enc_bytes(data@));
}

fn push_str(out: &mut Vec<u8>, s: &str)
    requires
        str_wf(s@),
    ensures
        final(out)@ == old(out)@ + enc_str(s@),
{
    let b = s.as_bytes();
    push_bytes(out, b);
}

fn push_state(out: &mut Vec<u8>, st: &ProcState)
    requires
        state_wf(st@),
    ensures
        final(out)@ == old(out)@ + enc_state(st@),
{
    match st {
        ProcState::NotStarted => push_byte(out, 0),
        ProcState::Running => push_byte(out, 1),
        ProcState::Stopping => push_byte(out, 2),
        ProcState::Stopped(info) => match info {
            ExitInfo::Exited(code) => {
                push_byte(out, 3);
                push_u32(out, *code);
                assert(out@ =~= old(out)@ + enc_state(st@));
            },
            ExitInfo::Signaled(sig) => {
                push_byte(out, 4);
                push_u32(out, *sig);
                assert(out@ =~= old(out)@ + enc_state(st@));
            },
            ExitInfo::SpawnFailed(reason) => {
                push_byte(out, 5);
                push_str(out, reason.as_str());
                assert(out@ =~= old(out)@ + enc_state(st@));
            },
        },
    }
}

fn push_summary(out: &mut Vec<u8>, p: &ProcSummary)
    requires
        summary_wf(p@),
    ensures
        final(out)@ == old(out)@ + enc_summary(p@),
{
    push_u64(out, p.id);
    push_str(out, p.name.as_str());
    push_state(out, &p.state);
    assert(out@ =~= old(out)@ + enc_summary(p@));
}

fn push_summaries(out: &mut Vec<u8>, ps: &[ProcSummary])
    requires
        forall|i: int| 0 <= i < ps@.len() ==> summary_wf(#[trigger] ps@[i]@),
    ensures
        final(out)@ == old(out)@ + enc_summaries(views_of_summaries(ps@)),
    decreases ps@.len(),
{
    if ps.len() == 0 {
        assert(out@ =~= old(out)@ + enc_summaries(views_of_summaries(ps@)));
    } else {
        let head = slice_index_get(ps, 0);
        push_summary(out, head);
        let tail = slice_subrange(ps, 1, ps.len());
        push_summaries(out, tail);
        proof {
            assert(views_of_summaries(tail@) =~= views_of_summaries(ps@).drop_first());
            assert(out@ =~= old(out)@ + enc_summaries(views_of_summaries(ps@)));
        }
    }
}

/// Serializes one message as the tagged payload of a frame.
pub fn encode_msg(m: &Message) -> (r: Vec<u8>)
    requires
        msg_wf(m@),
    ensures
        r@ == enc_msg(m@),
{
    let mut out: Vec<u8> = Vec::new();
    match m {
        Message::Start { id } => {
            push_byte(&mut out, 1);
            push_u64(&mut out, *id);
        },
        Message::Stop { id } => {
            push_byte(&mut out, 2);
            push_u64(&mut out, *id);
        },
        Message::Restart { id } => {
            push_byte(&mut out, 3);
            push_u64(&mut out, *id);
        },
        Message::SendInput { id, data } => {
            push_byte(&mut out, 4);
            push_u64(&mut out, *id);
            push_bytes(&mut out, data.as_slice());
        },
        Message::Resize { id, cols, rows } => {
            push_byte(&mut out, 5);
            push_u64(&mut out, *id);
            push_u16(&mut out, *cols);
            push_u16(&mut out, *rows);
        },
        Message::Attach { id } => {
            push_byte(&mut out, 6);
            push_u64(&mut out, *id);
        },
        Message::Detach { id } => {
            push_byte(&mut out, 7);
            push_u64(&mut out, *id);
        },
        Message::ListRequest => {
            push_byte(&mut out, 8);
        },
        Message::Ctl(c) => {
            push_byte(&mut out, 9);
            match c {
                CtlCommand::StartByName(n) => {
                    push_byte(&mut out, 0);
                    push_str(&mut out, n.as_str());
                },
                CtlCommand::StopByName(n) => {
                    push_byte(&mut out, 1);
                    push_str(&mut out, n.as_str());
                },
                CtlCommand::RestartByName(n) => {
                    push_byte(&mut out, 2);
                    push_str(&mut out, n.as_str());
                },
            }
        },
        Message::Output { id, data } => {
            push_byte(&mut out, 10);
            push_u64(&mut out, *id);
            push_bytes(&mut out, data.as_slice());
        },
        Message::StateChanged { id, state } => {
            push_byte(&mut out, 11);
            push_u64(&mut out, *id);
            push_state(&mut out, state);
        },
        Message::ListSnapshot(ps) => {
            push_byte(&mut out, 12);
            push_u32(&mut out, ps.len() as u32);
            proof {
                let psv = views_of_summaries(ps@);
                assert forall|i: int| 0 <= i < ps@.len() implies summary_wf(
                    #[trigger] ps@[i]@,
                ) by {
                    assert(psv[i] == ps@[i]@);
                }
            }
            push_summaries(&mut out, ps.as_slice());
        },
        Message::Ack => {
            push_byte(&mut out, 13);
        },
        Message::ErrorEvent(e) => {
            push_byte(&mut out, 14);
            match e {
                ErrMsg::UnknownProcess => push_byte(&mut out, 0),
                ErrMsg::InvalidTransition => push_byte(&mut out, 1),
                ErrMsg::Protocol => push_byte(&mut out, 2),
            }
        },
    }
    assert(out@ =~= enc_msg(m@));
    out
}

// ------------------------------------------------------------------
// Payload decoding. The spec decoders consume a prefix and hand back the
// rest; the executable decoder mirrors them over slices.
// ------------------------------------------------------------------

pub open spec fn dec_u16(b: Seq<u8>) -> Option<(u16, Seq<u8>)> {
    if b.len() >= 2 {
        Some((spec_u16_from_le_bytes(b.take(2)), b.skip(2)))
    } else {
        None
    }
}

pub open spec fn dec_u32(b: Seq<u8>) -> Option<(u32, Seq<u8>)> {
    if b.len() >= 4 {
        Some((spec_u32_from_le_bytes(b.take(4)), b.skip(4)))
    } else {
        None
    }
}

pub open spec fn dec_u64(b: Seq<u8>) -> Option<(u64, Seq<u8>)> {
    if b.len() >= 8 {
        Some((spec_u64_from_le_bytes(b.take(8)), b.skip(8)))
    } else {
        None
    }
}

pub open spec fn dec_bytes(b: Seq<u8>) -> Option<(Seq<u8>, Seq<u8>)> {
    match dec_u32(b) {
        None => None,
        Some((n, r)) => if r.len() >= n {
            Some((r.take(n as int), r.skip(n as int)))
        } else {
            None
        },
    }
}

pub open spec fn dec_str(b: Seq<u8>) -> Option<(Seq<char>, Seq<u8>)> {
    match dec_bytes(b) {
        None => None,
        Some((bs, r)) => if valid_utf8(bs) {
            Some((decode_utf8(bs), r))
        } else {
            None
        },
    }
}

pub open spec fn dec_state(b: Seq<u8>) -> Option<(StateView, Seq<u8>)> {
    if b.len() < 1 {
        None
    } else {
        let tag = b[0];
        let r = b.skip(1);
        if tag == 0 {
            Some((StateView::NotStarted, r))
        } else if tag == 1 {
            Some((StateView::Running, r))
        } else if tag == 2 {
            Some((StateView::Stopping, r))
        } else if tag == 3 {
            match dec_u32(r) {
                None => None,
                Some((code, r2)) => Some((StateView::Stopped(ExitView::Exited(code)), r2)),
            }
        } else if tag == 4 {
            match dec_u32(r) {
                None => None,
                Some((sig, r2)) => Some((StateView::Stopped(ExitView::Signaled(sig)), r2)),
            }
        } else if tag == 5 {
            match dec_str(r) {
                None => None,
                Some((reason, r2)) => Some(
                    (StateView::Stopped(ExitView::SpawnFailed(reason)), r2),
                ),
            }
        } else {
            None
        }
    }
}

pub open spec fn dec_ctl(b: Seq<u8>) -> Option<(CtlView, Seq<u8>)> {
    if b.len() < 1 {
        None
    } else {
        let tag = b[0];
        match dec_str(b.skip(1)) {
            None => None,
            Some((n, r)) => if tag == 0 {
                Some((CtlView::StartByName(n), r))
            } else if tag == 1 {
                Some((CtlView::StopByName(n), r))
            } else if tag == 2 {
                Some((CtlView::RestartByName(n), r))
            } else {
                None
            },
        }
    }
}

pub open spec fn dec_err(b: Seq<u8>) -> Option<(ErrMsg, Seq<u8>)> {
    if b.len() < 1 {
        None
    } else {
        let tag = b[0];
        let r = b.skip(1);
        if tag == 0 {
            Some((ErrMsg::UnknownProcess, r))
        } else if tag == 1 {
            Some((ErrMsg::InvalidTransition, r))
        } else if tag == 2 {
            Some((ErrMsg::Protocol, r))
        } else {
            None
        }
    }
}

pub open spec fn dec_summary(b: Seq<u8>) -> Option<(SummaryView, Seq<u8>)> {
    match dec_u64(b) {
        None => None,
        Some((id, r1)) => match dec_str(r1) {
            None => None,
            Some((name, r2)) => match dec_state(r2) {
                None => None,
                Some((state, r3)) => Some((SummaryView { id, name, state }, r3)),
            },
        },
    }
}

pub open spec fn dec_summaries(n: nat, b: Seq<u8>) -> Option<(Seq<SummaryView>, Seq<u8>)>
    decreases n,
{
    if n == 0 {
        Some((Seq::empty(), b))
    } else {
        match dec_summary(b) {
            None => None,
            Some((p, r)) => match dec_summaries((n - 1) as nat, r) {
                None => None,
                Some((ps, r2)) => Some((seq![p] + ps, r2)),
            },
        }
    }
}

/// The message a payload holds, or `None` when the payload is malformed:
/// an unknown tag, a field that does not fit, trailing garbage, or bytes
/// that are not the UTF-8 of any string.
pub open spec fn dec_msg(b: Seq<u8>) -> Option<MsgView> {
    if b.len() < 1 {
        None
    } else {
        let tag = b[0];
        let r = b.skip(1);
        if tag == 1 {
            match dec_u64(r) {
                Some((id, rest)) => if rest.len() == 0 {
                    Some(MsgView::Start { id })
                } else {
                    None
                },
                None => None,
            }
        } else if tag == 2 {
            match dec_u64(r) {
                Some((id, rest)) => if rest.len() == 0 {
                    Some(MsgView::Stop { id })
                } else {
                    None
                },
                None => None,
            }
        } else if tag == 3 {
            match dec_u64(r) {
                Some((id, rest)) => if rest.len() == 0 {
                    Some(MsgView::Restart { id })
                } else {
                    None
                },
                None => None,
            }
        } else if tag == 4 {
            match dec_u64(r) {
                Some((id, r1)) => match dec_bytes(r1) {
                    Some((data, rest)) => if rest.len() == 0 {
                        Some(MsgView::SendInput { id, data })
                    } else {
                        None
                    },
                    None => None,
                },
                None => None,
            }
        } else if tag == 5 {
            match dec_u64(r) {
                Some((id, r1)) => match dec_u16(r1) {
                    Some((cols, r2)) => match dec_u16(r2) {
                        Some((rows, rest)) => if rest.len() == 0 {
                            Some(MsgView::Resize { id, cols, rows })
                        } else {
                            None
                        },
                        None => None,
                    },
                    None => None,
                },
                None => None,
            }
        } else if tag == 6 {
            match dec_u64(r) {
                Some((id, rest)) => if rest.len() == 0 {
                    Some(MsgView::Attach { id })
                } else {
                    None
                },
                None => None,
            }
        } else if tag == 7 {
            match dec_u64(r) {
                Some((id, rest)) => if rest.len() == 0 {
                    Some(MsgView::Detach { id })
                } else {
                    None
                },
                None => None,
            }
        } else if tag == 8 {
            if r.len() == 0 {
                Some(MsgView::ListRequest)
            } else {
                None
            }
        } else if tag == 9 {
            match dec_ctl(r) {
                Some((c, rest)) => if rest.len() == 0 {
                    Some(MsgView::Ctl(c))
                } else {
                    None
                },
                None => None,
            }
        } else if tag == 10 {
            match dec_u64(r) {
                Some((id, r1)) => match dec_bytes(r1) {
                    Some((data, rest)) => if rest.len() == 0 {
                        Some(MsgView::Output { id, data })
                    } else {
                        None
                    },
                    None => None,
                },
                None => None,
            }
        } else if tag == 11 {
            match dec_u64(r) {
                Some((id, r1)) => match dec_state(r1) {
                    Some((state, rest)) => if rest.len() == 0 {
                        Some(MsgView::StateChanged { id, state })
                    } else {
                        None
                    },
                    None => None,
                },
                None => None,
            }
        } else if tag == 12 {
            match dec_u32(r) {
                Some((n, r1)) => match dec_summaries(n as nat, r1) {
                    Some((ps, rest)) => if rest.len() == 0 {
                        Some(MsgView::ListSnapshot(ps))
                    } else {
                        None
                    },
                    None => None,
                },
                None => None,
            }
        } else if tag == 13 {
            if r.len() == 0 {
                Some(MsgView::Ack)
            } else {
                None
            }
        } else if tag == 14 {
            match dec_err(r) {
                Some((e, rest)) => if rest.len() == 0 {
                    Some(MsgView::ErrorEvent(e))
                } else {
                    None
                },
                None => None,
            }
        } else {
            None
        }
    }
}


// ------------------------------------------------------------------
// Executable decoding.
// ------------------------------------------------------------------

/// Relies on std's str::from_utf8: it returns Ok exactly on valid UTF-8
/// input, and the returned string holds the characters those bytes encode;
/// str::to_owned then copies them into an owned string.
#[verifier::external_body]
pub(crate) fn utf8_to_string(b: &[u8]) -> (r: Option<String>)
    ensures
        r is Some <==> valid_utf8(b@),
        r matches Some(s) ==> s@ == decode_utf8(b@),
{
    match core::str::from_utf8(b) {
        Ok(s) => Some(s.to_owned()),
        Err(_) => None,
    }
}

fn read_u16<'a>(b: &'a [u8]) -> (r: Option<(u16, &'a [u8])>)
    ensures
        r is Some <==> dec_u16(b@) is Some,
        r matches Some(p) ==> dec_u16(b@) == Some((p.0, p.1@)),
{
    if b.len() >= 2 {
        let head = slice_subrange(b, 0, 2);
        let rest = slice_subrange(b, 2, b.len());
        assert(head@ =~= b@.take(2));
        assert(rest@ =~= b@.skip(2));
        Some((u16_from_le_bytes(head), rest))
    } else {
        None
    }
}

fn read_u32<'a>(b: &'a [u8]) -> (r: Option<(u32, &'a [u8])>)
    ensures
        r is Some <==> dec_u32(b@) is Some,
        r matches Some(p) ==> dec_u32(b@) == Some((p.0, p.1@)),
{
    if b.len() >= 4 {
        let head = slice_subrange(b, 0, 4);
        let rest = slice_subrange(b, 4, b.len());
        assert(head@ =~= b@.take(4));
        assert(rest@ =~= b@.skip(4));
        Some((u32_from_le_bytes(head), rest))
    } else {
        None
    }
}

fn read_u64<'a>(b: &'a [u8]) -> (r: Option<(u64, &'a [u8])>)
    ensures
        r is Some <==> dec_u64(b@) is Some,
        r matches Some(p) ==> dec_u64(b@) == Some((p.0, p.1@)),
{
    if b.len() >= 8 {
        let head = slice_subrange(b, 0, 8);
        let rest = slice_subrange(b, 8, b.len());
        assert(head@ =~= b@.take(8));
        assert(rest@ =~= b@.skip(8));
        Some((u64_from_le_bytes(head), rest))
    } else {
        None
    }
}

fn read_bytes<'a>(b: &'a [u8]) -> (r: Option<(Vec<u8>, &'a [u8])>)
    ensures
        r is Some <==> dec_bytes(b@) is Some,
        r matches Some(p) ==> dec_bytes(b@) == Some((p.0@, p.1@)),
{
    match read_u32(b) {
        None => None,
        Some((n, r1)) => {
            let nn = n as usize;
            if r1.len() >= nn {
                let data = slice_to_vec(slice_subrange(r1, 0, nn));
                let rest = slice_subrange(r1, nn, r1.len());
                assert(data@ =~= r1@.take(n as int));
                assert(rest@ =~= r1@.skip(n as int));
                Some((data, rest))
            } else {
                None
            }
        },
    }
}

fn read_str<'a>(b: &'a [u8]) -> (r: Option<(String, &'a [u8])>)
    ensures
        r is Some <==> dec_str(b@) is Some,
        r matches Some(p) ==> dec_str(b@) == Some((p.0@, p.1@)),
{
    match read_bytes(b) {
        None => None,
        Some((bs, rest)) => match utf8_to_string(bs.as_slice()) {
            None => None,
            Some(s) => Some((s, rest)),
        },
    }
}

fn read_state<'a>(b: &'a [u8]) -> (r: Option<(ProcState, &'a [u8])>)
    ensures
        r is Some <==> dec_state(b@) is Some,
        r matches Some(p) ==> dec_state(b@) == Some((p.0@, p.1@)),
{
    if b.len() < 1 {
        return None;
    }
    let tag = *slice_index_get(b, 0);
    let r1 = slice_subrange(b, 1, b.len());
    assert(r1@ =~= b@.skip(1));
    if tag == 0 {
        Some((ProcState::NotStarted, r1))
    } else if tag == 1 {
        Some((ProcState::Running, r1))
    } else if tag == 2 {
        Some((ProcState::Stopping, r1))
    } else if tag == 3 {
        match read_u32(r1) {
            None => None,
            Some((code, r2)) => Some((ProcState::Stopped(ExitInfo::Exited(code)), r2)),
        }
    } else if tag == 4 {
        match read_u32(r1) {
            None => None,
            Some((sig, r2)) => Some((ProcState::Stopped(ExitInfo::Signaled(sig)), r2)),
        }
    } else if tag == 5 {
        match read_str(r1) {
            None => None,
            Some((reason, r2)) => Some((ProcState::Stopped(ExitInfo::SpawnFailed(reason)), r2)),
        }
    } else {
        None
    }
}

fn read_ctl<'a>(b: &'a [u8]) -> (r: Option<(CtlCommand, &'a [u8])>)
    ensures
        r is Some <==> dec_ctl(b@) is Some,
        r matches Some(p) ==> dec_ctl(b@) == Some((p.0@, p.1@)),
{
    if b.len() < 1 {
        return None;
    }
    let tag = *slice_index_get(b, 0);
    let r1 = slice_subrange(b, 1, b.len());
    assert(r1@ =~= b@.skip(1));
    match read_str(r1) {
        None => None,
        Some((n, r2)) => if tag == 0 {
            Some((CtlCommand::StartByName(n), r2))
        } else if tag == 1 {
            Some((CtlCommand::StopByName(n), r2))
        } else if tag == 2 {
            Some((CtlCommand::RestartByName(n), r2))
        } else {
            None
        },
    }
}

fn read_err<'a>(b: &'a [u8]) -> (r: Option<(ErrMsg, &'a [u8])>)
    ensures
        r is Some <==> dec_err(b@) is Some,
        r matches Some(p) ==> dec_err(b@) == Some((p.0, p.1@)),
{
    if b.len() < 1 {
        return None;
    }
    let tag = *slice_index_get(b, 0);
    let r1 = slice_subrange(b, 1, b.len());
    assert(r1@ =~= b@.skip(1));
    if tag == 0 {
        Some((ErrMsg::UnknownProcess, r1))
    } else if tag == 1 {
        Some((ErrMsg::InvalidTransition, r1))
    } else if tag == 2 {
        Some((ErrMsg::Protocol, r1))
    } else {
        None
    }
}

fn read_summary<'a>(b: &'a [u8]) -> (r: Option<(ProcSummary, &'a [u8])>)
    ensures
        r is Some <==> dec_summary(b@) is Some,
        r matches Some(p) ==> dec_summary(b@) == Some((p.0@, p.1@)),
{
    match read_u64(b) {
        None => None,
        Some((id, r1)) => match read_str(r1) {
            None => None,
            Some((name, r2)) => match read_state(r2) {
                None => None,
                Some((state, r3)) => Some((ProcSummary { id, name, state }, r3)),
            },
        },
    }
}

fn read_summaries<'a>(n: u32, b: &'a [u8]) -> (r: Option<(Vec<ProcSummary>, &'a [u8])>)
    ensures
        r is Some <==> dec_summaries(n as nat, b@) is Some,
        r matches Some(p) ==> dec_summaries(n as nat, b@) == Some(
            (views_of_summaries(p.0@), p.1@),
        ),
    decreases n,
{
    if n == 0 {
        let v: Vec<ProcSummary> = Vec::new();
        assert(views_of_summaries(v@) =~= Seq::<SummaryView>::empty());
        Some((v, b))
    } else {
        match read_summary(b) {
            None => None,
            Some((p, r1)) => match read_summaries(n - 1, r1) {
                None => None,
                Some((mut ps, r2)) => {
                    let ghost before = ps@;
                    ps.insert(0, p);
                    proof {
                        assert(ps@ =~= seq![p] + before);
                        assert(views_of_summaries(ps@) =~= seq![p@] + views_of_summaries(
                            before,
                        ));
                    }
                    Some((ps, r2))
                },
            },
        }
    }
}

/// Decodes one frame payload, or returns `None` exactly when the payload
/// is malformed.
pub fn decode_msg(b: &[u8]) -> (r: Option<Message>)
    ensures
        r is Some <==> dec_msg(b@) is Some,
        r matches Some(m) ==> dec_msg(b@) == Some(m@),
{
    if b.len() < 1 {
        return None;
    }
    let tag = *slice_index_get(b, 0);
    let r1 = slice_subrange(b, 1, b.len());
    assert(r1@ =~= b@.skip(1));
    if tag == 1 {
        match read_u64(r1) {
            Some((id, rest)) => if rest.len() == 0 {
                Some(Message::Start { id })
            } else {
                None
            },
            None => None,
        }
    } else if tag == 2 {
        match read_u64(r1) {
            Some((id, rest)) => if rest.len() == 0 {
                Some(Message::Stop { id })
            } else {
                None
            },
            None => None,
        }
    } else if tag == 3 {
        match read_u64(r1) {
            Some((id, rest)) => if rest.len() == 0 {
                Some(Message::Restart { id })
            } else {
                None
            },
            None => None,
        }
    } else if tag == 4 {
        match read_u64(r1) {
            Some((id, r2)) => match read_bytes(r2) {
                Some((data, rest)) => if rest.len() == 0 {
                    Some(Message::SendInput { id, data })
                } else {
                    None
                },
                None => None,
            },
            None => None,
        }
    } else if tag == 5 {
        match read_u64(r1) {
            Some((id, r2)) => match read_u16(r2) {
                Some((cols, r3)) => match read_u16(r3) {
                    Some((rows, rest)) => if rest.len() == 0 {
                        Some(Message::Resize { id, cols, rows })
                    } else {
                        None
                    },
                    None => None,
                },
                None => None,
            },
            None => None,
        }
    } else if tag == 6 {
        match read_u64(r1) {
            Some((id, rest)) => if rest.len() == 0 {
                Some(Message::Attach { id })
            } else {
                None
            },
            None => None,
        }
    } else if tag == 7 {
        match read_u64(r1) {
            Some((id, rest)) => if rest.len() == 0 {
                Some(Message::Detach { id })
            } else {
                None
            },
            None => None,
        }
    } else if tag == 8 {
        if r1.len() == 0 {
            Some(Message::ListRequest)
        } else {
            None
        }
    } else if tag == 9 {
        match read_ctl(r1) {
            Some((c, rest)) => if rest.len() == 0 {
                Some(Message::Ctl(c))
            } else {
                None
            },
            None => None,
        }
    } else if tag == 10 {
        match read_u64(r1) {
            Some((id, r2)) => match read_bytes(r2) {
                Some((data, rest)) => if rest.len() == 0 {
                    Some(Message::Output { id, data })
                } else {
                    None
                },
                None => None,
            },
            None => None,
        }
    } else if tag == 11 {
        match read_u64(r1) {
            Some((id, r2)) => match read_state(r2) {
                Some((state, rest)) => if rest.len() == 0 {
                    Some(Message::StateChanged { id, state })
                } else {
                    None
                },
                None => None,
            },
            None => None,
        }
    } else if tag == 12 {
        match read_u32(r1) {
            Some((n, r2)) => match read_summaries(n, r2) {
                Some((ps, rest)) => if rest.len() == 0 {
                    Some(Message::ListSnapshot(ps))
                } else {
                    None
                },
                None => None,
            },
            None => None,
        }
    } else if tag == 13 {
        if r1.len() == 0 {
            Some(Message::Ack)
        } else {
            None
        }
    } else if tag == 14 {
        match read_err(r1) {
            Some((e, rest)) => if rest.len() == 0 {
                Some(Message::ErrorEvent(e))
            } else {
                None
            },
            None => None,
        }
    } else {
        None
    }
}


// ------------------------------------------------------------------
// Round trip: encoding then decoding gives the message back.
// ------------------------------------------------------------------

proof fn lemma_rt_u16(x: u16, rest: Seq<u8>)
    ensures
        dec_u16(enc_u16(x) + rest) == Some((x, rest)),
{
    lemma_auto_spec_u16_to_from_le_bytes();
    assert((enc_u16(x) + rest).take(2) =~= enc_u16(x));
    assert((enc_u16(x) + rest).skip(2) =~= rest);
}

proof fn lemma_rt_u32(x: u32, rest: Seq<u8>)
    ensures
        dec_u32(enc_u32(x) + rest) == Some((x, rest)),
{
    lemma_auto_spec_u32_to_from_le_bytes();
    assert((enc_u32(x) + rest).take(4) =~= enc_u32(x));
    assert((enc_u32(x) + rest).skip(4) =~= rest);
}

proof fn lemma_rt_u64(x: u64, rest: Seq<u8>)
    ensures
        dec_u64(enc_u64(x) + rest) == Some((x, rest)),
{
    lemma_auto_spec_u64_to_from_le_bytes();
    assert((enc_u64(x) + rest).take(8) =~= enc_u64(x));
    assert((enc_u64(x) + rest).skip(8) =~= rest);
}

proof fn lemma_rt_bytes(d: Seq<u8>, rest: Seq<u8>)
    requires
        d.len() < 4294967296,
    ensures
        dec_bytes(enc_bytes(d) + rest) == Some((d, rest)),
{
    let n = d.len() as u32;
    assert(enc_bytes(d) + rest =~= enc_u32(n) + (d + rest));
    lemma_rt_u32(n, d + rest);
    assert((d + rest).take(n as int) =~= d);
    assert((d + rest).skip(n as int) =~= rest);
}

proof fn lemma_rt_str(sv: Seq<char>, rest: Seq<u8>)
    requires
        str_wf(sv),
    ensures
        dec_str(enc_str(sv) + rest) == Some((sv, rest)),
{
    broadcast use encode_utf8_valid_utf8, encode_utf8_decode_utf8;

    lemma_rt_bytes(encode_utf8(sv), rest);
}

proof fn lemma_rt_state(st: StateView, rest: Seq<u8>)
    requires
        state_wf(st),
    ensures
        dec_state(enc_state(st) + rest) == Some((st, rest)),
{
    let b = enc_state(st) + rest;
    match st {
        StateView::NotStarted => {
            assert(b.skip(1) =~= rest);
        },
        StateView::Running => {
            assert(b.skip(1) =~= rest);
        },
        StateView::Stopping => {
            assert(b.skip(1) =~= rest);
        },
        StateView::Stopped(info) => match info {
            ExitView::Exited(code) => {
                assert(b.skip(1) =~= enc_u32(code) + rest);
                lemma_rt_u32(code, rest);
            },
            ExitView::Signaled(sig) => {
                assert(b.skip(1) =~= enc_u32(sig) + rest);
                lemma_rt_u32(sig, rest);
            },
            ExitView::SpawnFailed(reason) => {
                assert(b.skip(1) =~= enc_str(reason) + rest);
                lemma_rt_str(reason, rest);
            },
        },
    }
}

proof fn lemma_rt_ctl(c: CtlView, rest: Seq<u8>)
    requires
        (c matches CtlView::StartByName(n) ==> str_wf(n)),
        (c matches CtlView::StopByName(n) ==> str_wf(n)),
        (c matches CtlView::RestartByName(n) ==> str_wf(n)),
    ensures
        dec_ctl(enc_ctl(c) + rest) == Some((c, rest)),
{
    let b = enc_ctl(c) + rest;
    match c {
        CtlView::StartByName(n) => {
            assert(b.skip(1) =~= enc_str(n) + rest);
            lemma_rt_str(n, rest);
        },
        CtlView::StopByName(n) => {
            assert(b.skip(1) =~= enc_str(n) + rest);
            lemma_rt_str(n, rest);
        },
        CtlView::RestartByName(n) => {
            assert(b.skip(1) =~= enc_str(n) + rest);
            lemma_rt_str(n, rest);
        },
    }
}

proof fn lemma_rt_err(e: ErrMsg, rest: Seq<u8>)
    ensures
        dec_err(enc_err(e) + rest) == Some((e, rest)),
{
    let b = enc_err(e) + rest;
    assert(b.skip(1) =~= rest);
}

proof fn lemma_rt_summary(p: SummaryView, rest: Seq<u8>)
    requires
        summary_wf(p),
    ensures
        dec_summary(enc_summary(p) + rest) == Some((p, rest)),
{
    assert(enc_summary(p) + rest =~= enc_u64(p.id) + (enc_str(p.name) + (enc_state(p.state)
        + rest)));
    lemma_rt_u64(p.id, enc_str(p.name) + (enc_state(p.state) + rest));
    lemma_rt_str(p.name, enc_state(p.state) + rest);
    lemma_rt_state(p.state, rest);
}

proof fn lemma_rt_summaries(ps: Seq<SummaryView>, rest: Seq<u8>)
    requires
        forall|i: int| 0 <= i < ps.len() ==> summary_wf(#[trigger] ps[i]),
    ensures
        dec_summaries(ps.len(), enc_summaries(ps) + rest) == Some((ps, rest)),
    decreases ps.len(),
{
    if ps.len() == 0 {
        assert(enc_summaries(ps) + rest =~= rest);
        assert(ps =~= Seq::<SummaryView>::empty());
    } else {
        let tail = ps.drop_first();
        assert(enc_summaries(ps) + rest =~= enc_summary(ps[0]) + (enc_summaries(tail) + rest));
        lemma_rt_summary(ps[0], enc_summaries(tail) + rest);
        assert(forall|i: int| 0 <= i < tail.len() ==> summary_wf(#[trigger] tail[i]));
        lemma_rt_summaries(tail, rest);
        assert(seq![ps[0]] + tail =~= ps);
    }
}

/// Round trip of the payload codec: any well-formed message, encoded and
/// then decoded, comes back as itself.
pub proof fn lemma_msg_round_trip(m: MsgView)
    requires
        msg_wf(m),
    ensures
        dec_msg(enc_msg(m)) == Some(m),
{
    let b = enc_msg(m);
    let e: Seq<u8> = Seq::empty();
    match m {
        MsgView::Start { id } => {
            assert(b.skip(1) =~= enc_u64(id) + e);
            lemma_rt_u64(id, e);
        },
        MsgView::Stop { id } => {
            assert(b.skip(1) =~= enc_u64(id) + e);
            lemma_rt_u64(id, e);
        },
        MsgView::Restart { id } => {
            assert(b.skip(1) =~= enc_u64(id) + e);
            lemma_rt_u64(id, e);
        },
        MsgView::SendInput { id, data } => {
            assert(b.skip(1) =~= enc_u64(id) + (enc_bytes(data) + e));
            lemma_rt_u64(id, enc_bytes(data) + e);
            lemma_rt_bytes(data, e);
        },
        MsgView::Resize { id, cols, rows } => {
            assert(b.skip(1) =~= enc_u64(id) + (enc_u16(cols) + (enc_u16(rows) + e)));
            lemma_rt_u64(id, enc_u16(cols) + (enc_u16(rows) + e));
            lemma_rt_u16(cols, enc_u16(rows) + e);
            lemma_rt_u16(rows, e);
        },
        MsgView::Attach { id } => {
            assert(b.skip(1) =~= enc_u64(id) + e);
            lemma_rt_u64(id, e);
        },
        MsgView::Detach { id } => {
            assert(b.skip(1) =~= enc_u64(id) + e);
            lemma_rt_u64(id, e);
        },
        MsgView::ListRequest => {
            assert(b.skip(1) =~= e);
        },
        MsgView::Ctl(c) => {
            assert(b.skip(1) =~= enc_ctl(c) + e);
            lemma_rt_ctl(c, e);
        },
        MsgView::Output { id, data } => {
            assert(b.skip(1) =~= enc_u64(id) + (enc_bytes(data) + e));
            lemma_rt_u64(id, enc_bytes(data) + e);
            lemma_rt_bytes(data, e);
        },
        MsgView::StateChanged { id, state } => {
            assert(b.skip(1) =~= enc_u64(id) + (enc_state(state) + e));
            lemma_rt_u64(id, enc_state(state) + e);
            lemma_rt_state(state, e);
        },
        MsgView::ListSnapshot(ps) => {
            let n = ps.len() as u32;
            assert(b.skip(1) =~= enc_u32(n) + (enc_summaries(ps) + e));
            lemma_rt_u32(n, enc_summaries(ps) + e);
            assert(enc_summaries(ps) + e =~= enc_summaries(ps) + Seq::<u8>::empty());
            lemma_rt_summaries(ps, e);
            assert(n as nat == ps.len());
        },
        MsgView::Ack => {
            assert(b.skip(1) =~= e);
        },
        MsgView::ErrorEvent(err) => {
            assert(b.skip(1) =~= enc_err(err) + e);
            lemma_rt_err(err, e);
        },
    }
}

// ------------------------------------------------------------------
// Framing: a fixed-width length header, then exactly that many payload
// bytes. Partial frames stay buffered; an oversized header is fatal to
// the one connection it arrived on.
// ------------------------------------------------------------------

pub open spec fn enc_frame(p: Seq<u8>) -> Seq<u8> {
    enc_u32(p.len() as u32) + p
}

/// What scanning a receive buffer for one frame yields.
#[derive(Debug, PartialEq, Eq)]
pub enum FrameStep {
    NeedMore,
    Frame(Vec<u8>),
    TooLong,
}

/// Mathematical form of one buffer scan: the frame found and the bytes
/// left over, or the reason none was produced.
pub enum FrameView {
    NeedMore,
    Frame(Seq<u8>, Seq<u8>),
    TooLong,
}

pub open spec fn spec_frame_step(b: Seq<u8>) -> FrameView {
    if b.len() < 4 {
        FrameView::NeedMore
    } else {
        let n = spec_u32_from_le_bytes(b.take(4));
        if n > MAX_FRAME {
            FrameView::TooLong
        } else if b.len() >= 4 + n {
            FrameView::Frame(b.subrange(4, 4 + n), b.skip(4 + n))
        } else {
            FrameView::NeedMore
        }
    }
}

/// Wraps one encoded payload in a length-prefixed frame.
pub fn encode_frame(payload: &Vec<u8>) -> (r: Vec<u8>)
    requires
        payload@.len() <= MAX_FRAME,
    ensures
        r@ == enc_frame(payload@),
{
    let mut out: Vec<u8> = Vec::new();
    push_u32(&mut out, payload.len() as u32);
    let mut v = slice_to_vec(payload.as_slice());
    out.append(&mut v);
    assert(out@ =~= enc_frame(payload@));
    out
}

/// Receive buffer of one connection; bytes go in as they arrive and come
/// out one whole frame at a time.
pub struct FrameBuf {
    pub buf: Vec<u8>,
}

impl FrameBuf {
    pub fn new() -> (r: FrameBuf)
        ensures
            r.buf@ == Seq::<u8>::empty(),
    {
        FrameBuf { buf: Vec::new() }
    }

    /// Buffers newly arrived bytes after everything already held.
    pub fn feed(&mut self, data: &[u8])
        ensures
            final(self).buf@ == old(self).buf@ + data@,
    {
        let mut v = slice_to_vec(data);
        self.buf.append(&mut v);
    }

    /// Takes one complete frame off the front of the buffer, or reports
    /// that more bytes are needed, or that the length header is oversized
    /// and the connection must be closed.
    pub fn next_frame(&mut self) -> (r: FrameStep)
        ensures
            match spec_frame_step(old(self).buf@) {
                FrameView::NeedMore => r is NeedMore && final(self).buf@ == old(self).buf@,
                FrameView::TooLong => r is TooLong && final(self).buf@ == old(self).buf@,
                FrameView::Frame(p, rest) => {
                    &&& r matches FrameStep::Frame(v) && v@ == p
                    &&& final(self).buf@ == rest
                },
            },
    {
        if self.buf.len() < 4 {
            return FrameStep::NeedMore;
        }
        let head = slice_subrange(self.buf.as_slice(), 0, 4);
        assert(head@ =~= self.buf@.take(4));
        let n = u32_from_le_bytes(head);
        if n > MAX_FRAME {
            return FrameStep::TooLong;
        }
        let need = 4 + n as usize;
        if self.buf.len() >= need {
            let payload = slice_to_vec(slice_subrange(self.buf.as_slice(), 4, need));
            let rest = slice_to_vec(slice_subrange(self.buf.as_slice(), need, self.buf.len()));
            assert(payload@ =~= old(self).buf@.subrange(4, 4 + n));
            assert(rest@ =~= old(self).buf@.skip(4 + n));
            self.buf = rest;
            FrameStep::Frame(payload)
        } else {
            FrameStep::NeedMore
        }
    }
}

/// Round trip of the framing: a frame holding any payload within the size
/// bound, however the bytes after it are cut, is taken back whole with the
/// following bytes untouched.
pub proof fn lemma_frame_round_trip(p: Seq<u8>, rest: Seq<u8>)
    requires
        p.len() <= MAX_FRAME,
    ensures
        spec_frame_step(enc_frame(p) + rest) == FrameView::Frame(p, rest),
{
    lemma_auto_spec_u32_to_from_le_bytes();
    let b = enc_frame(p) + rest;
    assert(b.take(4) =~= enc_u32(p.len() as u32));
    assert(b.subrange(4, 4 + p.len() as u32) =~= p);
    assert(b.skip(4 + p.len() as u32) =~= rest);
}

/// Round trip of the whole wire path: a well-formed message that fits one
/// frame, framed and sent, is recovered whole by the receiver's buffer
/// scan and payload decoder, with any following bytes untouched.
pub proof fn lemma_wire_round_trip(m: MsgView, rest: Seq<u8>)
    requires
        msg_wf(m),
        enc_msg(m).len() <= MAX_FRAME as int,
    ensures
        ({
            let fr = spec_frame_step(enc_frame(enc_msg(m)) + rest);
            fr matches FrameView::Frame(p, r2) && dec_msg(p) == Some(m) && r2 == rest
        }),
{
    lemma_frame_round_trip(enc_msg(m), rest);
    lemma_msg_round_trip(m);
}

} // verus!
