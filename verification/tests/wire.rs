use mprocs::codec::{
    decode_msg, encode_frame, encode_msg, CtlCommand, ErrMsg, FrameBuf, FrameStep, Message,
    ProcSummary,
};
use mprocs::proc::{ExitInfo, ProcState};

fn round_trip(m: Message) {
    let payload = encode_msg(&m);
    let got = decode_msg(payload.as_slice());
    assert_eq!(got, Some(m));
}

#[test]
fn messages_round_trip() {
    round_trip(Message::Start { id: 3 });
    round_trip(Message::Stop { id: 0 });
    round_trip(Message::Restart { id: u64::MAX });
    round_trip(Message::SendInput { id: 1, data: vec![0, 255, 10] });
    round_trip(Message::Resize { id: 2, cols: 80, rows: 24 });
    round_trip(Message::Attach { id: 7 });
    round_trip(Message::Detach { id: 7 });
    round_trip(Message::ListRequest);
    round_trip(Message::Ctl(CtlCommand::StopByName("echo".to_string())));
    round_trip(Message::Output { id: 4, data: b"hi\n".to_vec() });
    round_trip(Message::StateChanged {
        id: 5,
        state: ProcState::Stopped(ExitInfo::SpawnFailed("bad \u{1F980} path".to_string())),
    });
    round_trip(Message::ListSnapshot(vec![
        ProcSummary { id: 0, name: "a".to_string(), state: ProcState::NotStarted },
        ProcSummary { id: 1, name: "b".to_string(), state: ProcState::Running },
        ProcSummary { id: 2, name: "c".to_string(), state: ProcState::Stopped(ExitInfo::Exited(0)) },
    ]));
    round_trip(Message::Ack);
    round_trip(Message::ErrorEvent(ErrMsg::UnknownProcess));
}

#[test]
fn garbage_payload_is_rejected() {
    assert_eq!(decode_msg(&[]), None);
    assert_eq!(decode_msg(&[99]), None);
    assert_eq!(decode_msg(&[1, 1, 2]), None);
    // valid message followed by trailing garbage
    let mut payload = encode_msg(&Message::Ack);
    payload.push(0);
    assert_eq!(decode_msg(payload.as_slice()), None);
    // string field that is not UTF-8
    let mut p = vec![9u8, 1u8];
    p.extend_from_slice(&2u32.to_le_bytes());
    p.extend_from_slice(&[0xff, 0xfe]);
    assert_eq!(decode_msg(p.as_slice()), None);
}

#[test]
fn frames_reassemble_from_partial_reads() {
    let payload = encode_msg(&Message::Start { id: 9 });
    let frame = encode_frame(&payload);
    let mut buf = FrameBuf::new();
    for b in frame.iter() {
        assert!(matches!(buf.next_frame(), FrameStep::NeedMore) || *b == frame[frame.len() - 1]);
        buf.feed(&[*b]);
    }
    match buf.next_frame() {
        FrameStep::Frame(p) => assert_eq!(p, payload),
        other => panic!("expected a frame, got {:?}", other),
    }
    assert!(matches!(buf.next_frame(), FrameStep::NeedMore));
}

#[test]
fn oversized_length_header_is_fatal() {
    let mut buf = FrameBuf::new();
    buf.feed(&u32::MAX.to_le_bytes());
    buf.feed(&[1, 2, 3]);
    assert!(matches!(buf.next_frame(), FrameStep::TooLong));
}

#[test]
fn two_frames_in_one_read() {
    let first = encode_msg(&Message::Attach { id: 1 });
    let second = encode_msg(&Message::ListRequest);
    let mut bytes = encode_frame(&first);
    bytes.extend_from_slice(&encode_frame(&second));
    let mut buf = FrameBuf::new();
    buf.feed(bytes.as_slice());
    assert!(matches!(buf.next_frame(), FrameStep::Frame(p) if p == first));
    assert!(matches!(buf.next_frame(), FrameStep::Frame(p) if p == second));
    assert!(matches!(buf.next_frame(), FrameStep::NeedMore));
}
