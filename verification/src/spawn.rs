//! Launching the daemon detached: the argument list of the process that runs
//! it, and what its start comes to.

use crate::commands::WaitStep;
use crate::daemon::DaemonConfig;
use crate::text::{decimal, decimal_string, law_decimal_reads_back, parsed_u64, str_eq, views};
use vstd::prelude::*;
use vstd::string::*;

verus! {

/// The hidden subcommand that runs the daemon in the foreground.
pub const DAEMON_SUBCOMMAND: &'static str = "__daemon-run";

/// What stands for "no log" in the daemon's arguments.
pub const NO_LOG: &'static str = "-";

/// How long the socket of a new daemon is waited for.
pub const START_TIMEOUT_MS: u64 = 3000;

/// How often a wait for a new socket looks again.
pub const START_POLL_MS: u64 = 20;

/// A daemon to start.
#[derive(Debug, Clone, PartialEq, Eq)]
pub struct SpawnRequest {
    pub socket_path: String,
    /// `None` disables the on-disk log.
    pub log_path: Option<String>,
    pub log_max_size: u64,
    pub scrollback_size: usize,
    pub rows: u16,
    pub cols: u16,
    pub program: String,
    pub args: Vec<String>,
}

/// A [`SpawnRequest`] by its contents.
#[verifier::ext_equal]
pub struct SpawnView {
    pub socket_path: Seq<char>,
    pub log_path: Option<Seq<char>>,
    pub log_max_size: u64,
    pub scrollback_size: usize,
    pub rows: u16,
    pub cols: u16,
    pub program: Seq<char>,
    pub args: Seq<Seq<char>>,
}

/// The view of an optional string.
pub open spec fn opt_string(s: Option<String>) -> Option<Seq<char>> {
    match s {
        Some(t) => Some(t@),
        None => None,
    }
}

impl View for SpawnRequest {
    type V = SpawnView;

    open spec fn view(&self) -> SpawnView {
        SpawnView {
            socket_path: self.socket_path@,
            log_path: opt_string(self.log_path),
            log_max_size: self.log_max_size,
            scrollback_size: self.scrollback_size,
            rows: self.rows,
            cols: self.cols,
            program: self.program@,
            args: views(self.args@),
        }
    }
}

/// How a log path stands among the arguments.
pub open spec fn log_arg(log_path: Option<Seq<char>>) -> Seq<char> {
    match log_path {
        Some(path) => path,
        None => NO_LOG@,
    }
}

/// The log path that an argument stands for.
pub open spec fn log_of_arg(arg: Seq<char>) -> Option<Seq<char>> {
    if arg == NO_LOG@ {
        None
    } else {
        Some(arg)
    }
}

/// The arguments that run the daemon of a request.
pub open spec fn daemon_argv(r: SpawnView) -> Seq<Seq<char>> {
    seq![
        DAEMON_SUBCOMMAND@,
        r.socket_path,
        log_arg(r.log_path),
        decimal(r.log_max_size as nat),
        decimal(r.scrollback_size as nat),
        decimal(r.rows as nat),
        decimal(r.cols as nat),
        r.program,
    ] + r.args
}

impl SpawnRequest {
    /// The arguments for running this program again as the daemon, in the
    /// order in which the subcommand takes them.
    pub fn daemon_run_args(&self) -> (args: Vec<String>)
        ensures
            views(args@) == daemon_argv(self@),
    {
        let mut args: Vec<String> = Vec::new();
        args.push(DAEMON_SUBCOMMAND.to_owned());
        args.push(self.socket_path.clone());
        args.push(
            match &self.log_path {
                Some(path) => path.clone(),
                None => NO_LOG.to_owned(),
            },
        );
        args.push(decimal_string(self.log_max_size));
        args.push(decimal_string(self.scrollback_size as u64));
        args.push(decimal_string(self.rows as u64));
        args.push(decimal_string(self.cols as u64));
        args.push(self.program.clone());
        let ghost fixed = views(args@);
        let ghost all = daemon_argv(self@);
        let mut i: usize = 0;
        assert(fixed =~= all.take(8));
        while i < self.args.len()
            invariant
                i <= self.args@.len(),
                all == daemon_argv(self@),
                views(args@) == all.take(8 + i),
            decreases self.args.len() - i,
        {
            let ghost before = args@;
            let arg = self.args[i].clone();
            args.push(arg);
            assert(all[8 + i] == arg@);
            assert(views(args@) =~= views(before).push(arg@));
            assert(views(args@) =~= all.take(8 + i + 1));
            i += 1;
        }
        assert(all.take(8 + i) =~= all);
        args
    }

    /// What the daemon of this request runs.
    pub fn into_config(self) -> (config: DaemonConfig)
        ensures
            config.socket_path == self.socket_path,
            config.log_path == self.log_path,
            config.log_max_size == self.log_max_size,
            config.scrollback_size == self.scrollback_size,
            config.program == self.program,
            config.args == self.args,
            config.initial_rows == self.rows,
            config.initial_cols == self.cols,
    {
        DaemonConfig {
            socket_path: self.socket_path,
            log_path: self.log_path,
            log_max_size: self.log_max_size,
            scrollback_size: self.scrollback_size,
            program: self.program,
            args: self.args,
            initial_rows: self.rows,
            initial_cols: self.cols,
        }
    }
}

/// The log path that an argument stands for.
pub fn log_path_from_arg(arg: String) -> (path: Option<String>)
    ensures
        opt_string(path) == log_of_arg(arg@),
{
    if str_eq(arg.as_str(), NO_LOG) {
        None
    } else {
        Some(arg)
    }
}

/// The daemon reads back from its arguments what was asked for. (A log whose
/// path is `-` cannot be told from no log.)
pub proof fn law_daemon_reads_its_request(r: SpawnView)
    requires
        r.log_path != Some(NO_LOG@),
    ensures
        daemon_argv(r).len() == 8 + r.args.len(),
        daemon_argv(r)[0] == DAEMON_SUBCOMMAND@,
        daemon_argv(r)[1] == r.socket_path,
        log_of_arg(daemon_argv(r)[2]) == r.log_path,
        parsed_u64(daemon_argv(r)[3]) == Some(r.log_max_size),
        parsed_u64(daemon_argv(r)[4]) == Some(r.scrollback_size as u64),
        parsed_u64(daemon_argv(r)[5]) == Some(r.rows as u64),
        parsed_u64(daemon_argv(r)[6]) == Some(r.cols as u64),
        daemon_argv(r)[7] == r.program,
        daemon_argv(r).skip(8) == r.args,
{
    law_decimal_reads_back(r.log_max_size);
    law_decimal_reads_back(r.scrollback_size as u64);
    law_decimal_reads_back(r.rows as u64);
    law_decimal_reads_back(r.cols as u64);
    assert(daemon_argv(r).skip(8) =~= r.args);
}

/// Waits for the socket of a new daemon to appear.
pub fn wait_for_socket(elapsed_ms: u64, timeout_ms: u64, socket_exists: bool) -> (step: WaitStep)
    ensures
        step == (if elapsed_ms >= timeout_ms {
            WaitStep::TimedOut
        } else if socket_exists {
            WaitStep::Over
        } else {
            WaitStep::Sleep(START_POLL_MS)
        }),
{
    if elapsed_ms >= timeout_ms {
        WaitStep::TimedOut
    } else if socket_exists {
        WaitStep::Over
    } else {
        WaitStep::Sleep(START_POLL_MS)
    }
}

/// What the start of a daemon came to.
#[derive(Debug, Clone, PartialEq, Eq)]
pub enum StartOutcome {
    /// The wait for its socket ended, and it still runs.
    Running,
    /// It exited, with this status in words.
    Exited(String),
    /// It could not be started or waited for, in words.
    Failed(String),
}

/// What is said of a daemon that exited at once.
pub open spec fn early_exit(status: Seq<char>) -> Seq<char> {
    "daemon process exited immediately ("@ + status + ") -- check the program name/path"@
}

/// Whether a start succeeded, or why not: a daemon that is still there after
/// the wait counts as started.
pub fn start_result(outcome: StartOutcome) -> (r: Result<(), String>)
    ensures
        match outcome {
            StartOutcome::Running => r is Ok,
            StartOutcome::Exited(status) => r matches Err(text) && text@ == early_exit(status@),
            StartOutcome::Failed(why) => r matches Err(text) && text@ == why@,
        },
{
    match outcome {
        StartOutcome::Running => Ok(()),
        StartOutcome::Exited(status) => {
            let mut text = String::new();
            text.append("daemon process exited immediately (");
            text.append(status.as_str());
            text.append(") -- check the program name/path");
            assert(text@ =~= early_exit(status@));
            Err(text)
        },
        StartOutcome::Failed(why) => Err(why),
    }
}

/// The arguments name the hidden subcommand, then what was asked for, in this
/// order: the socket, the log or `-`, the four numbers in decimal, the program
/// and all its arguments.
pub proof fn law_arguments_hold_the_request(request: &SpawnRequest, args: Vec<String>)
    requires
        call_ensures(SpawnRequest::daemon_run_args, (request,), args),
    ensures
        args@.len() == 8 + request.args@.len(),
        args@[0]@ == "__daemon-run"@,
        args@[1]@ == request.socket_path@,
        request.log_path matches Some(path) ==> args@[2]@ == path@,
        request.log_path is None ==> args@[2]@ == "-"@,
        parsed_u64(args@[3]@) == Some(request.log_max_size),
        parsed_u64(args@[4]@) == Some(request.scrollback_size as u64),
        parsed_u64(args@[5]@) == Some(request.rows as u64),
        parsed_u64(args@[6]@) == Some(request.cols as u64),
        args@[7]@ == request.program@,
        forall|i: int|
            0 <= i < request.args@.len() ==> (#[trigger] args@[8 + i])@ == request.args@[i]@,
{
    law_decimal_reads_back(request.log_max_size);
    law_decimal_reads_back(request.scrollback_size as u64);
    law_decimal_reads_back(request.rows as u64);
    law_decimal_reads_back(request.cols as u64);
    let all = views(args@);
    assert(all.len() == args@.len());
    assert forall|i: int| 0 <= i < args@.len() implies all[i] == (#[trigger] args@[i])@ by {}
    assert(views(request.args@).len() == request.args@.len());
    assert forall|i: int| 0 <= i < request.args@.len() implies (#[trigger] args@[8 + i])@
        == request.args@[i]@ by {
        assert(views(request.args@)[i] == request.args@[i]@);
        assert(all[8 + i] == args@[8 + i]@);
    }
}

/// An argument `-` stands for no log, any other for the log of that path.
pub proof fn law_dash_is_no_log(arg: String, path: Option<String>)
    requires
        call_ensures(log_path_from_arg, (arg,), path),
    ensures
        path is None <==> arg@ == "-"@,
        path matches Some(log) ==> log@ == arg@,
{
}

/// A daemon runs what its request asks for, field by field.
pub proof fn law_daemon_runs_its_request(request: SpawnRequest, config: DaemonConfig)
    requires
        call_ensures(SpawnRequest::into_config, (request,), config),
    ensures
        config.socket_path@ == request.socket_path@,
        opt_string(config.log_path) == opt_string(request.log_path),
        config.log_max_size == request.log_max_size,
        config.scrollback_size == request.scrollback_size,
        config.program@ == request.program@,
        views(config.args@) == views(request.args@),
        config.initial_rows == request.rows,
        config.initial_cols == request.cols,
{
}

/// A wait for a socket ends in success only where the socket is there and in
/// time, in a timeout only where the time is over; else it looks again 20 ms
/// later.
pub proof fn law_socket_is_waited_for(
    elapsed_ms: u64,
    timeout_ms: u64,
    socket_exists: bool,
    step: WaitStep,
)
    requires
        call_ensures(wait_for_socket, (elapsed_ms, timeout_ms, socket_exists), step),
    ensures
        step is TimedOut <==> elapsed_ms >= timeout_ms,
        step is Over <==> elapsed_ms < timeout_ms && socket_exists,
        step matches WaitStep::Sleep(ms) ==> ms == 20,
        START_TIMEOUT_MS == 3000,
{
}

/// A start succeeds exactly where the daemon is running; else the failure says
/// how it exited, or why it could not be started.
pub proof fn law_start_fails_where_nothing_runs(outcome: StartOutcome, r: Result<(), String>)
    requires
        call_ensures(start_result, (outcome,), r),
    ensures
        r is Ok <==> outcome is Running,
        outcome matches StartOutcome::Exited(status) ==> r->Err_0@
            == "daemon process exited immediately ("@ + status@
            + ") -- check the program name/path"@,
        outcome matches StartOutcome::Failed(why) ==> r->Err_0@ == why@,
{
}

} // verus!
