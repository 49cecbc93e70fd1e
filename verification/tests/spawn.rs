use hytch::commands::WaitStep;
use hytch::spawn::{
    log_path_from_arg, start_result, wait_for_socket, SpawnRequest, StartOutcome,
    DAEMON_SUBCOMMAND,
};
use hytch::text::parse_u64;

fn request(log_path: Option<&str>) -> SpawnRequest {
    SpawnRequest {
        socket_path: "/s/work".to_string(),
        log_path: log_path.map(|p| p.to_string()),
        log_max_size: 1048576,
        scrollback_size: 131072,
        rows: 24,
        cols: 80,
        program: "cat".to_string(),
        args: vec!["-u".to_string(), "".to_string()],
    }
}

#[test]
fn daemon_arguments_in_order() {
    assert_eq!(
        request(Some("/s/work.log")).daemon_run_args(),
        vec![
            "__daemon-run",
            "/s/work",
            "/s/work.log",
            "1048576",
            "131072",
            "24",
            "80",
            "cat",
            "-u",
            "",
        ]
    );
    assert_eq!(request(None).daemon_run_args()[2], "-");
    assert_eq!(DAEMON_SUBCOMMAND, "__daemon-run");
}

#[test]
fn daemon_reads_its_request_back() {
    for log_path in [None, Some("/s/work.log")] {
        let req = request(log_path);
        let argv = req.daemon_run_args();
        let again = SpawnRequest {
            socket_path: argv[1].clone(),
            log_path: log_path_from_arg(argv[2].clone()),
            log_max_size: parse_u64(&argv[3]).unwrap(),
            scrollback_size: parse_u64(&argv[4]).unwrap() as usize,
            rows: parse_u64(&argv[5]).unwrap() as u16,
            cols: parse_u64(&argv[6]).unwrap() as u16,
            program: argv[7].clone(),
            args: argv[8..].to_vec(),
        };
        assert_eq!(again, req);
    }
}

#[test]
fn request_becomes_a_configuration() {
    let config = request(Some("/s/work.log")).into_config();
    assert_eq!(config.socket_path, "/s/work");
    assert_eq!(config.log_path, Some("/s/work.log".to_string()));
    assert_eq!(config.log_max_size, 1048576);
    assert_eq!(config.scrollback_size, 131072);
    assert_eq!(config.program, "cat");
    assert_eq!(config.args, vec!["-u", ""]);
    assert_eq!((config.initial_rows, config.initial_cols), (24, 80));
}

#[test]
fn waiting_for_a_new_socket() {
    assert_eq!(wait_for_socket(0, 3000, true), WaitStep::Over);
    assert_eq!(wait_for_socket(0, 3000, false), WaitStep::Sleep(20));
    assert_eq!(wait_for_socket(2999, 3000, false), WaitStep::Sleep(20));
    assert_eq!(wait_for_socket(3000, 3000, false), WaitStep::TimedOut);
}

#[test]
fn what_a_start_comes_to() {
    assert_eq!(start_result(StartOutcome::Running), Ok(()));
    assert_eq!(
        start_result(StartOutcome::Exited("exit status: 1".to_string())),
        Err(
            "daemon process exited immediately (exit status: 1) -- check the program name/path"
                .to_string()
        )
    );
    assert_eq!(
        start_result(StartOutcome::Failed("no such file".to_string())),
        Err("no such file".to_string())
    );
}
