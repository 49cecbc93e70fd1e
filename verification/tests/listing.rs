use hytch::commands::{Kill, KillAction, KillEvent, Report};
use hytch::cli::{Course, Flow, FlowAction, FlowEvent};
use hytch::listing::{
    is_session_name, list, list_unreadable, log_base, DirFailure, ListEntry,
};

fn entry(name: &str, running: bool, has_socket: bool) -> ListEntry {
    ListEntry {
        key: name.as_bytes().to_vec(),
        name: name.to_string(),
        running,
        has_socket,
    }
}

fn lines(report: Report) -> Vec<String> {
    assert_eq!(report.code, 0);
    assert!(report.err.is_empty());
    report.out
}

#[test]
fn list_on_a_fresh_home_reports_no_sessions() {
    let report = list_unreadable("/home/.cache/hytch", DirFailure::Missing, false);
    assert_eq!(lines(report), vec!["(no sessions)"]);
    assert_eq!(lines(list(&vec![], true, false)), vec!["(no sessions)"]);
    assert!(lines(list(&vec![], true, true)).is_empty());
    assert!(lines(list_unreadable("/x", DirFailure::Missing, true)).is_empty());
}

#[test]
fn start_creates_a_session_visible_in_list_and_kill_removes_it() {
    let (mut flow, action) = Flow::new(Course::Start, "clitest", false);
    assert_eq!(action, FlowAction::Spawn);
    match flow.step(FlowEvent::Spawned) {
        FlowAction::Finish(report) => {
            assert_eq!(report.code, 0);
            assert_eq!(report.out, vec!["hytch: session 'clitest' started"]);
        }
        other => panic!("expected the end, got {other:?}"),
    }

    let files = vec![
        entry("clitest.log", false, true),
        entry("clitest", true, false),
    ];
    assert_eq!(
        lines(list(&files, false, false)),
        vec!["clitest                  [running]"]
    );

    let (mut kill, _) = Kill::new("clitest", false, false);
    kill.step(KillEvent::Sent);
    match kill.step(KillEvent::Gone) {
        KillAction::Finish(report) => {
            assert_eq!(report.code, 0);
            assert_eq!(report.out, vec!["hytch: session 'clitest' stopped"]);
        }
        other => panic!("expected the end, got {other:?}"),
    }
}

#[test]
fn sessions_come_in_the_order_of_their_bytes() {
    let files = vec![
        entry("b", false, false),
        entry("a10", true, false),
        entry("B", true, false),
        entry("a", true, false),
        entry("a1", true, false),
    ];
    assert_eq!(
        lines(list(&files, false, false)),
        vec![
            "B                        [running]",
            "a                        [running]",
            "a1                       [running]",
            "a10                      [running]",
            "b                        [stale]",
        ]
    );
}

#[test]
fn the_order_of_the_directory_does_not_show() {
    let mut files = vec![
        entry("one", true, false),
        entry("two", false, false),
        entry("three", true, false),
        entry("four.log", false, false),
    ];
    let expected = list(&files, true, false);
    files.reverse();
    assert_eq!(list(&files, true, false), expected);
    files.swap(0, 2);
    assert_eq!(list(&files, true, false), expected);
}

#[test]
fn exited_sessions_follow_when_asked_for() {
    let files = vec![
        entry("gone.log", false, false),
        entry("live", true, false),
        entry("live.log", false, true),
        entry(".hidden", false, false),
    ];
    assert_eq!(
        lines(list(&files, false, false)),
        vec!["live                     [running]"]
    );
    assert_eq!(
        lines(list(&files, true, false)),
        vec![
            "live                     [running]",
            "gone                     [exited]",
        ]
    );
}

#[test]
fn only_logs_are_no_sessions() {
    let files = vec![entry("gone.log", false, false)];
    assert_eq!(lines(list(&files, false, false)), vec!["(no sessions)"]);
    assert!(lines(list(&files, false, true)).is_empty());
}

#[test]
fn long_names_are_not_cut() {
    let name = "a-session-with-a-very-long-name";
    assert_eq!(
        lines(list(&vec![entry(name, false, false)], false, false)),
        vec![format!("{name:<24} [stale]")]
    );
    assert_eq!(
        lines(list(&vec![entry("\u{e9}", false, false)], false, false)),
        vec![format!("{:<24} [stale]", "\u{e9}")]
    );
}

#[test]
fn unreadable_directory_is_reported() {
    let report = list_unreadable("/x", DirFailure::Other("denied".to_string()), true);
    assert_eq!(report.code, 1);
    assert!(report.out.is_empty());
    assert_eq!(report.err, vec!["hytch: /x: denied"]);
}

#[test]
fn names_of_sessions_and_logs() {
    assert!(is_session_name("work"));
    assert!(is_session_name("log"));
    assert!(!is_session_name(".work"));
    assert!(!is_session_name("work.log"));
    assert!(!is_session_name(".log"));
    assert!(is_session_name(""));
    assert_eq!(log_base("work.log"), Some("work"));
    assert_eq!(log_base(".log"), Some(""));
    assert_eq!(log_base("log"), None);
    assert_eq!(log_base("work.logs"), None);
    assert_eq!(log_base("a.log.log"), Some("a.log"));
}
