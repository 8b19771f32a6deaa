use vstd::prelude::*;
use vstd::string::*;
use vstd::utf8::encode_utf8;
use crate::codec::{
    Message, CtlCommand, ErrMsg, MsgView, CtlView, enc_frame, enc_msg, encode_msg, encode_frame,
    str_wf, msg_wf, MAX_FRAME,
};

verus! {

/// The control gateway's client half never holds a supervisor of its own:
/// it builds exactly one framed command for an already-running server and
/// reads exactly one response.

/// Builds the one framed request of a gateway run, or `None` when the
/// name cannot travel in one frame.
pub fn ctl_request(cmd: &CtlCommand) -> (r: Option<Vec<u8>>)
    ensures
        r matches Some(b) ==> msg_wf(MsgView::Ctl(cmd@)) && b@ == enc_frame(
            enc_msg(MsgView::Ctl(cmd@)),
        ),
        r is None ==> !(msg_wf(MsgView::Ctl(cmd@)) && enc_msg(MsgView::Ctl(cmd@)).len()
            <= MAX_FRAME as int),
{
    let name: &String = match cmd {
        CtlCommand::StartByName(n) => n,
        CtlCommand::StopByName(n) => n,
        CtlCommand::RestartByName(n) => n,
    };
    let nstr = name.as_str();
    let nbytes = nstr.as_bytes();
    let nlen = nbytes.len();
    assert(nlen as nat == encode_utf8(nstr@).len());
    if (nlen as u64) >= 4294967296u64 {
        return None;
    }
    assert(nstr@ == name@);
    assert(str_wf(name@));
    let msg = match cmd {
        CtlCommand::StartByName(n) => Message::Ctl(CtlCommand::StartByName(n.clone())),
        CtlCommand::StopByName(n) => Message::Ctl(CtlCommand::StopByName(n.clone())),
        CtlCommand::RestartByName(n) => Message::Ctl(CtlCommand::RestartByName(n.clone())),
    };
    assert(msg@ == MsgView::Ctl(cmd@));
    let payload = encode_msg(&msg);
    if payload.len() > MAX_FRAME as usize {
        return None;
    }
    Some(encode_frame(&payload))
}

/// Reads the one response a gateway run waits for: an acknowledgement is
/// success, a reported error is that error, and any other message is a
/// protocol error.
pub fn ctl_response(msg: &Message) -> (r: Result<(), ErrMsg>)
    ensures
        msg is Ack ==> r is Ok,
        msg matches Message::ErrorEvent(e) ==> r == Err::<(), ErrMsg>(*e),
        !(msg is Ack) && !(msg is ErrorEvent) ==> r == Err::<(), ErrMsg>(ErrMsg::Protocol),
{
    match msg {
        Message::Ack => Ok(()),
        Message::ErrorEvent(e) => Err(*e),
        _ => Err(ErrMsg::Protocol),
    }
}

} // verus!
