use bytes::{Bytes, BytesMut};
use hytch::commands::{
    clear, connect_error_line, current, kill_frame, parse_char_spec, push, rm, started, wait_gone,
    ClearOutcome, ConnectFailure, Kill, KillAction, KillEvent, PushAction, PushEvent, Report,
    WaitStep, PUSH_CHUNK_SIZE,
};
use hytch::{Message, MessageCodec, DEFAULT_MAX_FRAME_LEN};

fn out(code: i32, line: &str) -> Report {
    Report {
        code,
        out: vec![line.to_string()],
        err: vec![],
    }
}

fn err(code: i32, line: &str) -> Report {
    Report {
        code,
        out: vec![],
        err: vec![line.to_string()],
    }
}

fn quiet(code: i32) -> Report {
    Report {
        code,
        out: vec![],
        err: vec![],
    }
}

#[test]
fn current_outside_a_session_exits_1_silently() {
    assert_eq!(current(None), quiet(1));
    assert_eq!(current(Some("")), quiet(1));
}

#[test]
fn current_prints_the_short_name() {
    assert_eq!(current(Some("/s/outer:/s/inner")), out(0, "outer > inner"));
}

#[test]
fn kill_of_a_nonexistent_session_reports_it_does_not_exist() {
    let (mut kill, action) = Kill::new("nosuchsession", false, false);
    assert_eq!(action, KillAction::Send { signal: 15 });
    let action = kill.step(KillEvent::SendFailed(ConnectFailure::NotFound));
    assert_eq!(
        action,
        KillAction::Finish(out(1, "hytch: session 'nosuchsession' does not exist"))
    );
}

#[test]
fn push_to_a_nonexistent_session_reports_it_does_not_exist() {
    match push(
        "nosuchsession",
        PushEvent::ConnectFailed(ConnectFailure::NotFound),
    ) {
        PushAction::Finish(report) => {
            assert_eq!(
                report,
                out(1, "hytch: session 'nosuchsession' does not exist")
            )
        }
        PushAction::Send(_) => panic!("nothing must be sent"),
    }
}

#[test]
fn rm_of_a_nonexistent_session_reports_it_does_not_exist() {
    let plan = rm("nosuchsession", false, false, false, false);
    assert_eq!(
        plan.report,
        out(1, "hytch: session 'nosuchsession' does not exist")
    );
}

#[test]
fn rm_refuses_a_running_session() {
    let plan = rm("rmtest", true, true, true, true);
    assert!(!plan.remove);
    assert_eq!(
        plan.report,
        out(
            1,
            "hytch: session 'rmtest' is running (use 'hytch kill rmtest' first)"
        )
    );
}

#[test]
fn rm_removes_a_stopped_session() {
    for (socket, log) in [(false, true), (true, false), (true, true)] {
        let plan = rm("rmtest2", false, false, socket, log);
        assert!(plan.remove);
        assert_eq!(plan.report, out(0, "hytch: session 'rmtest2' removed"));
        assert_eq!(rm("rmtest2", true, false, socket, log).report, quiet(0));
    }
}

#[test]
fn kill_stops_a_session_within_the_grace_period() {
    let (mut kill, _) = Kill::new("work", false, false);
    assert_eq!(
        kill.step(KillEvent::Sent),
        KillAction::AwaitGone { timeout_ms: 5000 }
    );
    assert_eq!(
        kill.step(KillEvent::Gone),
        KillAction::Finish(out(0, "hytch: session 'work' stopped"))
    );
}

#[test]
fn kill_escalates_once_after_the_grace_period() {
    let (mut kill, _) = Kill::new("work", false, false);
    kill.step(KillEvent::Sent);
    assert_eq!(
        kill.step(KillEvent::StillThere),
        KillAction::Send { signal: 9 }
    );
    assert_eq!(
        kill.step(KillEvent::SendFailed(ConnectFailure::Refused)),
        KillAction::AwaitGone { timeout_ms: 2000 }
    );
    assert_eq!(
        kill.step(KillEvent::Gone),
        KillAction::Finish(out(0, "hytch: session 'work' killed"))
    );
}

#[test]
fn kill_admits_defeat_even_when_quiet() {
    let (mut kill, _) = Kill::new("work", false, true);
    kill.step(KillEvent::Sent);
    kill.step(KillEvent::StillThere);
    kill.step(KillEvent::Sent);
    assert_eq!(
        kill.step(KillEvent::StillThere),
        KillAction::Finish(out(1, "hytch: session 'work' did not stop"))
    );
}

#[test]
fn forced_kill_does_not_escalate() {
    let (mut kill, action) = Kill::new("work", true, true);
    assert_eq!(action, KillAction::Send { signal: 9 });
    assert_eq!(
        kill.step(KillEvent::Sent),
        KillAction::AwaitGone { timeout_ms: 2000 }
    );
    assert_eq!(
        kill.step(KillEvent::StillThere),
        KillAction::Finish(out(1, "hytch: session 'work' did not stop"))
    );
    let (mut kill, _) = Kill::new("work", true, true);
    kill.step(KillEvent::Sent);
    assert_eq!(kill.step(KillEvent::Gone), KillAction::Finish(quiet(0)));
}

#[test]
fn kill_frame_is_a_kill_message() {
    let mut frame = kill_frame(9);
    assert_eq!(&frame[..], &[5, 0, 0, 0, 1, 9][..]);
    assert_eq!(
        MessageCodec::default().decode(&mut frame),
        Ok(Some(Message::Kill { signal: 9 }))
    );
}

#[test]
fn waiting_for_the_end_of_a_session() {
    assert_eq!(wait_gone(0, 5000, false), WaitStep::Over);
    assert_eq!(wait_gone(0, 5000, true), WaitStep::Sleep(100));
    assert_eq!(wait_gone(4999, 5000, true), WaitStep::Sleep(100));
    assert_eq!(wait_gone(5000, 5000, true), WaitStep::TimedOut);
    assert_eq!(wait_gone(6000, 5000, false), WaitStep::Over);
}

#[test]
fn a_large_push_arrives_verbatim_in_frames_that_fit() {
    let input: Vec<u8> = (0..2 * 1024 * 1024 + 17).map(|i| (i * 7) as u8).collect();
    let mut codec = MessageCodec::default();
    let mut wire = BytesMut::new();
    let mut arrived = Vec::new();
    for chunk in input.chunks(PUSH_CHUNK_SIZE) {
        match push("work", PushEvent::Read(chunk)) {
            PushAction::Send(frame) => {
                assert!(frame.len() <= DEFAULT_MAX_FRAME_LEN);
                wire.extend_from_slice(&frame);
            }
            PushAction::Finish(_) => panic!("the input is not over"),
        }
        while let Some(message) = codec.decode(&mut wire).unwrap() {
            match message {
                Message::Push(data) => arrived.extend_from_slice(&data),
                other => panic!("expected Push, got {other:?}"),
            }
        }
    }
    assert!(arrived == input);
}

#[test]
fn push_ends_with_its_input() {
    assert!(matches!(
        push("work", PushEvent::Read(b"")),
        PushAction::Finish(report) if report == quiet(0)
    ));
    assert!(matches!(
        push("work", PushEvent::ReadFailed("bad input")),
        PushAction::Finish(report) if report == err(1, "hytch: work: bad input")
    ));
    assert!(matches!(
        push("work", PushEvent::SendFailed),
        PushAction::Finish(report)
            if report == err(1, "hytch: work: connection to session lost mid-push")
    ));
}

#[test]
fn a_push_is_one_frame() {
    match push("work", PushEvent::Read(b"hi")) {
        PushAction::Send(mut frame) => {
            assert_eq!(
                MessageCodec::default().decode(&mut frame),
                Ok(Some(Message::Push(Bytes::from_static(b"hi"))))
            );
            assert!(frame.is_empty());
        }
        PushAction::Finish(_) => panic!("the input is not over"),
    }
}

#[test]
fn clearing_a_log() {
    assert_eq!(clear("work", false, ClearOutcome::Cleared), quiet(0));
    assert_eq!(clear("work", false, ClearOutcome::Missing), quiet(0));
    assert_eq!(
        clear("work", false, ClearOutcome::Failed("denied".to_string())),
        err(1, "hytch: work: denied")
    );
    assert_eq!(
        clear("work", true, ClearOutcome::Failed("denied".to_string())),
        quiet(1)
    );
}

#[test]
fn connect_errors_in_words() {
    assert_eq!(
        connect_error_line("work", &ConnectFailure::NotFound),
        "hytch: session 'work' does not exist"
    );
    assert_eq!(
        connect_error_line("work", &ConnectFailure::Refused),
        "hytch: session 'work' is not running"
    );
    assert_eq!(
        connect_error_line("work", &ConnectFailure::Other("no luck".to_string())),
        "hytch: work: no luck"
    );
}

#[test]
fn started_is_announced_unless_quiet() {
    assert_eq!(
        started("clitest", false),
        out(0, "hytch: session 'clitest' started")
    );
    assert_eq!(started("clitest", true), quiet(0));
}

#[test]
fn character_specifications() {
    assert_eq!(parse_char_spec("^\\"), Some(0x1c));
    assert_eq!(parse_char_spec("^a"), Some(1));
    assert_eq!(parse_char_spec("^A"), Some(1));
    assert_eq!(parse_char_spec("^z"), Some(26));
    assert_eq!(parse_char_spec("^@"), Some(0));
    assert_eq!(parse_char_spec("^["), Some(27));
    assert_eq!(parse_char_spec("^_"), Some(31));
    assert_eq!(parse_char_spec("^?"), Some(0x7f));
    assert_eq!(parse_char_spec("^1"), Some(b'^'));
    assert_eq!(parse_char_spec("^{"), Some(b'^'));
    assert_eq!(parse_char_spec("^"), Some(b'^'));
    assert_eq!(parse_char_spec("^ab"), Some(b'^'));
    assert_eq!(parse_char_spec("x"), Some(b'x'));
    assert_eq!(parse_char_spec("xyz"), Some(b'x'));
    assert_eq!(parse_char_spec("\u{e9}"), Some(0xc3));
    assert_eq!(parse_char_spec(""), None);
}
