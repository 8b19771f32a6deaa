use mprocs::codec::{decode_msg, encode_frame, encode_msg, CtlCommand, ErrMsg, FrameBuf, FrameStep, Message};
use mprocs::config::{CmdConfig, ProcConfig};
use mprocs::proc::{ExitInfo, ProcAction, ProcEvent, ProcState, StopPolicy, StopSignal};
use mprocs::server::Supervisor;

fn rec(name: &str, shell: &str) -> ProcConfig {
    ProcConfig {
        name: name.to_string(),
        cmd: CmdConfig::Shell { shell: shell.to_string() },
        cwd: None,
        env: None,
        autostart: true,
        stop: StopPolicy { signal: StopSignal::Interrupt, grace_ms: 5000 },
    }
}

#[test]
fn snapshot_keeps_insertion_order_across_attach_detach() {
    let mut sup = Supervisor::new(vec![rec("b", "true"), rec("a", "true"), rec("c", "true")]);
    sup.add_session(1);
    sup.add_session(2);
    let names = |sup: &Supervisor| {
        sup.list_snapshot().iter().map(|s| (s.id, s.name.clone())).collect::<Vec<_>>()
    };
    let before = names(&sup);
    assert_eq!(
        before,
        vec![(0, "b".to_string()), (1, "a".to_string()), (2, "c".to_string())]
    );
    let _ = sup.attach(1, 0).unwrap();
    let _ = sup.attach(2, 2).unwrap();
    let _ = sup.detach(1, 0).unwrap();
    sup.remove_session(2);
    assert_eq!(names(&sup), before);
}

#[test]
fn echo_scenario_output_before_stopped_event() {
    // record {name: "echo", command: ShellLine("echo hi")}, autostart = true
    let mut sup = Supervisor::new(vec![rec("echo", "echo hi")]);
    sup.add_session(1);
    let replay = sup.attach(1, 0).unwrap();
    assert_eq!(replay.len(), 1);
    // autostart: the supervisor starts the process at startup
    let out = sup.apply_proc_event(0, 0, ProcEvent::CmdStart);
    assert!(out.error.is_none());
    assert_eq!(out.actions, vec![ProcAction::Spawn]);
    // the child writes one chunk, then exits with code 0
    let devs = sup.handle_output(0, b"hi\n");
    assert_eq!(devs.len(), 1);
    assert_eq!(devs[0].session, 1);
    match &devs[0].msg {
        Message::Output { id, data } => {
            assert_eq!(*id, 0);
            assert_eq!(data, b"hi\n");
        }
        other => panic!("expected output, got {:?}", other),
    }
    let out = sup.apply_proc_event(0, 0, ProcEvent::ChildExited(ExitInfo::Exited(0)));
    assert_eq!(out.deliveries.len(), 1);
    match &out.deliveries[0].msg {
        Message::StateChanged { id, state } => {
            assert_eq!(*id, 0);
            assert_eq!(*state, ProcState::Stopped(ExitInfo::Exited(0)));
        }
        other => panic!("expected state change, got {:?}", other),
    }
    let snap = sup.list_snapshot();
    assert_eq!(snap[0].state, ProcState::Stopped(ExitInfo::Exited(0)));
}

#[test]
fn start_twice_rejected_only_to_origin() {
    let mut sup = Supervisor::new(vec![rec("w", "watch date")]);
    sup.add_session(5);
    let ok = sup.apply_proc_event(5, 0, ProcEvent::CmdStart);
    assert!(ok.error.is_none());
    let out = sup.apply_proc_event(5, 0, ProcEvent::CmdStart);
    assert_eq!(out.deliveries.len(), 1);
    assert_eq!(out.deliveries[0].session, 5);
    assert!(matches!(
        out.deliveries[0].msg,
        Message::ErrorEvent(ErrMsg::InvalidTransition)
    ));
    assert!(out.actions.is_empty());
}

#[test]
fn unknown_id_only_answers_origin() {
    let mut sup = Supervisor::new(vec![rec("x", "true")]);
    sup.add_session(3);
    sup.add_session(4);
    let out = sup.apply_proc_event(3, 17, ProcEvent::CmdStop);
    assert_eq!(out.deliveries.len(), 1);
    assert_eq!(out.deliveries[0].session, 3);
    assert!(matches!(
        out.deliveries[0].msg,
        Message::ErrorEvent(ErrMsg::UnknownProcess)
    ));
}

#[test]
fn ctl_stop_unknown_name_single_error_response() {
    // a server with no process named "echo"
    let mut sup = Supervisor::new(vec![rec("web", "true"), rec("db", "true")]);
    sup.add_session(1);
    let before = sup.list_snapshot().len();
    let out = sup.handle_ctl(99, &CtlCommand::StopByName("echo".to_string()));
    assert_eq!(out.deliveries.len(), 1);
    assert_eq!(out.deliveries[0].session, 99);
    assert!(matches!(
        out.deliveries[0].msg,
        Message::ErrorEvent(ErrMsg::UnknownProcess)
    ));
    assert!(out.actions.is_empty());
    // other sessions and processes are unaffected
    assert_eq!(sup.list_snapshot().len(), before);
    let ok = sup.apply_proc_event(1, 0, ProcEvent::CmdStart);
    assert!(ok.error.is_none());
}

#[test]
fn ctl_by_name_acks_origin() {
    let mut sup = Supervisor::new(vec![rec("job", "true")]);
    let out = sup.handle_ctl(7, &CtlCommand::StartByName("job".to_string()));
    assert!(out.error.is_none());
    assert_eq!(out.actions, vec![ProcAction::Spawn]);
    let last = out.deliveries.last().unwrap();
    assert_eq!(last.session, 7);
    assert!(matches!(last.msg, Message::Ack));
}

#[test]
fn attach_replays_retained_tail_then_live_output() {
    let mut sup = Supervisor::new(vec![rec("p", "true")]);
    let _ = sup.apply_proc_event(0, 0, ProcEvent::CmdStart);
    let _ = sup.handle_output(0, b"early ");
    sup.add_session(8);
    let replay = sup.attach(8, 0).unwrap();
    match &replay[0].msg {
        Message::Output { data, .. } => assert_eq!(data, b"early "),
        other => panic!("expected replay, got {:?}", other),
    }
    let devs = sup.handle_output(0, b"late");
    assert_eq!(devs.len(), 1);
    match &devs[0].msg {
        Message::Output { data, .. } => assert_eq!(data, b"late"),
        other => panic!("expected live chunk, got {:?}", other),
    }
}

#[test]
fn output_retention_keeps_only_the_tail() {
    let mut sup = Supervisor::new(vec![rec("big", "true")]);
    let chunk = vec![7u8; 40000];
    let _ = sup.handle_output(0, chunk.as_slice());
    let _ = sup.handle_output(0, chunk.as_slice());
    sup.add_session(1);
    let replay = sup.attach(1, 0).unwrap();
    match &replay[0].msg {
        Message::Output { data, .. } => assert_eq!(data.len(), 65536),
        other => panic!("expected replay, got {:?}", other),
    }
}

#[test]
fn malformed_frame_closes_only_one_connection() {
    let mut sup = Supervisor::new(vec![rec("svc", "true")]);
    sup.add_session(1);
    sup.add_session(2);
    // session 1 sends an oversized length header followed by garbage
    let mut bad = FrameBuf::new();
    bad.feed(&0xFFFF_FFFFu32.to_le_bytes());
    bad.feed(b"garbage");
    assert!(matches!(bad.next_frame(), FrameStep::TooLong));
    sup.remove_session(1);
    // session 2 keeps working
    let mut good = FrameBuf::new();
    good.feed(encode_frame(&encode_msg(&Message::Start { id: 0 })).as_slice());
    let frame = match good.next_frame() {
        FrameStep::Frame(p) => p,
        other => panic!("expected frame, got {:?}", other),
    };
    let msg = decode_msg(frame.as_slice()).unwrap();
    assert_eq!(msg, Message::Start { id: 0 });
    let out = sup.apply_proc_event(2, 0, ProcEvent::CmdStart);
    assert!(out.error.is_none());
    assert_eq!(out.deliveries.len(), 1);
    assert_eq!(out.deliveries[0].session, 2);
}

#[test]
fn autostart_ids_follow_record_flags() {
    let mut a = rec("a", "true");
    a.autostart = false;
    let b = rec("b", "true");
    let mut c = rec("c", "true");
    c.autostart = false;
    let d = rec("d", "true");
    let sup = Supervisor::new(vec![a, b, c, d]);
    assert_eq!(sup.autostart_ids(), vec![1, 3]);
}
