use mprocs::codec::{decode_msg, CtlCommand, ErrMsg, FrameBuf, FrameStep, Message};
use mprocs::gateway::{ctl_request, ctl_response};

#[test]
fn ctl_request_frames_one_command() {
    let bytes = ctl_request(&CtlCommand::StopByName("echo".to_string())).unwrap();
    let mut buf = FrameBuf::new();
    buf.feed(bytes.as_slice());
    let payload = match buf.next_frame() {
        FrameStep::Frame(p) => p,
        other => panic!("expected frame, got {:?}", other),
    };
    assert_eq!(
        decode_msg(payload.as_slice()),
        Some(Message::Ctl(CtlCommand::StopByName("echo".to_string())))
    );
}

#[test]
fn ctl_response_interprets_single_reply() {
    assert!(ctl_response(&Message::Ack).is_ok());
    assert_eq!(
        ctl_response(&Message::ErrorEvent(ErrMsg::UnknownProcess)),
        Err(ErrMsg::UnknownProcess)
    );
    assert_eq!(ctl_response(&Message::ListRequest), Err(ErrMsg::Protocol));
}
