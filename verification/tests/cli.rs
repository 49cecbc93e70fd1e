use hytch::cli::{
    build_spawn_request, clear_target, default_target, detach_char, exit_byte, log_cap_fits,
    parse_log_cap, rm_target, Course, Flow, FlowAction, FlowEvent,
};
use hytch::commands::{ConnectFailure, Report};
use hytch::paths::{log_path_for, session_dir, socket_path};
use hytch::ring_buffer::RingBuffer;

fn report(code: i32, out: &[&str], err: &[&str]) -> Report {
    Report {
        code,
        out: out.iter().map(|s| s.to_string()).collect(),
        err: err.iter().map(|s| s.to_string()).collect(),
    }
}

fn attach(replayed: bool, err: &[&str]) -> FlowAction {
    FlowAction::Attach {
        replayed,
        remarks: report(0, &[], err),
    }
}

#[test]
fn attach_to_a_nonexistent_session_fails() {
    let (mut flow, action) = Flow::new(Course::Attach, "nosuchsession", false);
    assert_eq!(action, FlowAction::ReplayLog);
    assert_eq!(flow.step(FlowEvent::Replayed(false)), attach(false, &[]));
    assert_eq!(
        flow.step(FlowEvent::AttachFailed(ConnectFailure::NotFound)),
        FlowAction::Finish(report(
            1,
            &["hytch: session 'nosuchsession' does not exist"],
            &[]
        ))
    );
}

#[test]
fn attach_succeeds_when_it_ends() {
    let (mut flow, _) = Flow::new(Course::Attach, "work", false);
    assert_eq!(flow.step(FlowEvent::Replayed(true)), attach(true, &[]));
    assert_eq!(
        flow.step(FlowEvent::Attached),
        FlowAction::Finish(report(0, &[], &[]))
    );
}

#[test]
fn new_replays_creates_and_attaches() {
    let (mut flow, action) = Flow::new(Course::New, "work", false);
    assert_eq!(action, FlowAction::ReplayLog);
    assert_eq!(flow.step(FlowEvent::Replayed(true)), FlowAction::Spawn);
    assert_eq!(
        flow.step(FlowEvent::Spawned),
        attach(true, &["hytch: session 'work' created"])
    );
    assert_eq!(
        flow.step(FlowEvent::Attached),
        FlowAction::Finish(report(0, &[], &[]))
    );
    let (mut flow, _) = Flow::new(Course::New, "work", true);
    flow.step(FlowEvent::Replayed(false));
    assert_eq!(flow.step(FlowEvent::Spawned), attach(false, &[]));
}

#[test]
fn failed_start_is_reported() {
    let (mut flow, _) = Flow::new(Course::Start, "work", true);
    assert_eq!(
        flow.step(FlowEvent::SpawnFailed("no such file".to_string())),
        FlowAction::Finish(report(1, &[], &["hytch: work: no such file"]))
    );
    let (mut flow, _) = Flow::new(Course::Start, "work", true);
    assert_eq!(
        flow.step(FlowEvent::Spawned),
        FlowAction::Finish(report(0, &[], &[]))
    );
}

#[test]
fn default_attaches_to_a_session_that_runs() {
    let (mut flow, _) = Flow::new(Course::Default, "work", false);
    assert_eq!(
        flow.step(FlowEvent::Replayed(true)),
        FlowAction::LookForSocket
    );
    assert_eq!(flow.step(FlowEvent::SocketExists(true)), attach(true, &[]));
    assert_eq!(
        flow.step(FlowEvent::Attached),
        FlowAction::Finish(report(0, &[], &[]))
    );
}

#[test]
fn default_creates_where_nothing_listens_and_shows_history_once() {
    let (mut flow, _) = Flow::new(Course::Default, "work", false);
    flow.step(FlowEvent::Replayed(true));
    assert_eq!(
        flow.step(FlowEvent::SocketExists(false)),
        FlowAction::Spawn
    );
    assert_eq!(
        flow.step(FlowEvent::Spawned),
        attach(true, &["hytch: session 'work' created"])
    );

    for failure in [ConnectFailure::NotFound, ConnectFailure::Refused] {
        let (mut flow, _) = Flow::new(Course::Default, "work", true);
        flow.step(FlowEvent::Replayed(true));
        flow.step(FlowEvent::SocketExists(true));
        assert_eq!(
            flow.step(FlowEvent::AttachFailed(failure)),
            FlowAction::Spawn
        );
        assert_eq!(flow.step(FlowEvent::Spawned), attach(true, &[]));
        assert_eq!(
            flow.step(FlowEvent::AttachFailed(ConnectFailure::Refused)),
            FlowAction::Finish(report(1, &["hytch: session 'work' is not running"], &[]))
        );
    }
}

#[test]
fn default_does_not_create_from_within_the_session() {
    let (mut flow, _) = Flow::new(Course::Default, "main", false);
    flow.step(FlowEvent::Replayed(false));
    flow.step(FlowEvent::SocketExists(true));
    let text = "cannot attach to session from within itself";
    assert_eq!(
        flow.step(FlowEvent::AttachFailed(ConnectFailure::Other(
            text.to_string()
        ))),
        FlowAction::Finish(report(
            1,
            &["hytch: main: cannot attach to session from within itself"],
            &[]
        ))
    );
}

#[test]
fn log_caps() {
    assert_eq!(parse_log_cap(None), 1048576);
    assert_eq!(parse_log_cap(Some("0")), 0);
    assert_eq!(parse_log_cap(Some("4096")), 4096);
    assert_eq!(parse_log_cap(Some("+7")), 7);
    assert_eq!(parse_log_cap(Some("64k")), 65536);
    assert_eq!(parse_log_cap(Some("64K")), 65536);
    assert_eq!(parse_log_cap(Some("2m")), 2097152);
    assert_eq!(parse_log_cap(Some("2M")), 2097152);
    for no_number in ["", "k", "m", "x", "-1", "1g", "1kk", " 1", "+", "18446744073709551616"] {
        assert_eq!(parse_log_cap(Some(no_number)), 1048576);
    }
    assert_eq!(parse_log_cap(Some("18446744073709551615")), u64::MAX);
}

#[test]
fn log_caps_that_cannot_be_counted() {
    assert!(log_cap_fits(None));
    assert!(log_cap_fits(Some("18446744073709551615")));
    assert!(log_cap_fits(Some("18014398509481983k")));
    assert!(!log_cap_fits(Some("18014398509481984k")));
    assert!(!log_cap_fits(Some("18446744073709551615m")));
}

#[test]
fn detach_characters() {
    assert_eq!(detach_char(false, None), Some(0x1c));
    assert_eq!(detach_char(false, Some("^a")), Some(1));
    assert_eq!(detach_char(false, Some("")), Some(0x1c));
    assert_eq!(detach_char(true, Some("^a")), None);
}

#[test]
fn spawn_request_of_a_command() {
    let cmd: Vec<String> = vec!["vim".to_string(), "-v".to_string(), "x".to_string()];
    let req = build_spawn_request("work", &cmd, 4096, "/s", Some("/bin/zsh".to_string()), (5, 6));
    assert_eq!(req.socket_path, "/s/work");
    assert_eq!(req.log_path, Some("/s/work.log".to_string()));
    assert_eq!(req.log_max_size, 4096);
    assert_eq!(req.program, "vim");
    assert_eq!(req.args, vec!["-v", "x"]);
    assert_eq!((req.rows, req.cols), (5, 6));
    assert!(RingBuffer::valid_capacity(req.scrollback_size));
}

#[test]
fn spawn_request_of_a_shell_without_a_log() {
    let req = build_spawn_request("/tmp/w", &vec![], 0, "/s", Some("/bin/zsh".to_string()), (1, 1));
    assert_eq!(req.socket_path, "/tmp/w");
    assert_eq!(req.log_path, None);
    assert_eq!(req.program, "/bin/zsh");
    assert!(req.args.is_empty());
    let req = build_spawn_request("w", &vec![], 0, "/s", None, (1, 1));
    assert_eq!(req.program, "/bin/sh");
}

#[test]
fn session_to_clear() {
    assert_eq!(
        clear_target(Some("work".to_string()), Some("/s/x")),
        Ok("work".to_string())
    );
    assert_eq!(clear_target(None, Some("/s/x")), Ok("x".to_string()));
    assert_eq!(
        clear_target(None, Some("/s/outer:/s/inner")),
        Ok("outer > inner".to_string())
    );
    assert_eq!(clear_target(None, Some("")), Ok("".to_string()));
    assert_eq!(
        clear_target(None, None),
        Err(report(
            1,
            &[],
            &["hytch: no session specified and not inside one"]
        ))
    );
}

#[test]
fn session_to_remove() {
    assert_eq!(
        rm_target(false, Some("work".to_string())),
        Ok("work".to_string())
    );
    assert_eq!(
        rm_target(false, None),
        Err(report(
            1,
            &[],
            &["hytch: a session name is required (or use -a)"]
        ))
    );
    assert_eq!(
        rm_target(true, Some("work".to_string())),
        Err(report(
            1,
            &[],
            &["hytch: rm -a is not implemented yet; remove sessions by name for now"]
        ))
    );
}

#[test]
fn session_of_a_bare_invocation() {
    let rest: Vec<String> = vec!["work".to_string(), "cat".to_string(), "-u".to_string()];
    assert_eq!(
        default_target(&rest),
        Ok((
            "work".to_string(),
            vec!["cat".to_string(), "-u".to_string()]
        ))
    );
    assert_eq!(
        default_target(&vec![]),
        Err(report(
            1,
            &[],
            &["hytch: a session name is required. Try `hytch --help`."]
        ))
    );
}

#[test]
fn exit_codes_are_cut_to_a_byte() {
    for code in [0, 1, 127, 128, 255, 256, 257, -1, -256, i32::MAX, i32::MIN] {
        assert_eq!(exit_byte(code), code as u8);
    }
}

#[test]
fn files_of_a_session() {
    assert_eq!(session_dir(Some("/home/a"), 7), "/home/a/.cache/hytch");
    assert_eq!(session_dir(None, 7), "/tmp/.hytch-7");
    assert_eq!(
        socket_path("work", Some("/home/a"), 7),
        "/home/a/.cache/hytch/work"
    );
    assert_eq!(socket_path("./work", Some("/home/a"), 7), "./work");
    assert_eq!(log_path_for("/s/work"), "/s/work.log");
}
