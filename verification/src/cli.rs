//! The command line: what its options mean, and the course of the commands
//! that create sessions and attach to them.

use crate::commands::{
    about, about_line, char_spec, connect_error, connect_error_line, parse_char_spec, problem,
    problem_line, saying, silent, started, announced, warning, ConnectFailure, Report, ReportView,
};
use crate::paths::{log_path_for, log_path_of};
use crate::session::{opt_view, resolve_socket_path, short_name, short_name_of, socket_path_of};
use crate::spawn::{daemon_argv, opt_string, SpawnRequest, SpawnView, NO_LOG};
use crate::text::{
    chars_of, decimal, is_digit, law_decimal_reads_back, lemma_decimal_digits, parse_u64, parsed_u64,
    views,
};
use vstd::prelude::*;
use vstd::string::*;
use vstd::utf8::encode_utf8;

verus! {

/// The cap of a session's log where none is asked for.
pub const DEFAULT_LOG_MAX_SIZE: u64 = 1048576;

/// How much scrollback a session keeps in memory.
pub const SCROLLBACK_SIZE: usize = 131072;

/// The detach character where none is asked for: `^\`.
pub const DEFAULT_DETACH_CHAR: u8 = 28;

/// The shell where the environment names none.
pub const DEFAULT_SHELL: &'static str = "/bin/sh";

/// What the last character of a size multiplies by.
pub open spec fn multiplier(c: char) -> nat {
    if c == 'k' || c == 'K' {
        1024
    } else if c == 'm' || c == 'M' {
        1048576
    } else {
        1
    }
}

/// The cap that an option asks for: a number of bytes, or of KiB or MiB
/// with a `k` or an `m` behind it. What is no number asks for the default.
pub open spec fn log_cap(spec: Option<Seq<char>>) -> nat {
    match spec {
        Some(s) => {
            let mult = if s.len() > 0 {
                multiplier(s.last())
            } else {
                1
            };
            let digits = if mult > 1 {
                s.drop_last()
            } else {
                s
            };
            match parsed_u64(digits) {
                Some(n) => n as nat * mult,
                None => DEFAULT_LOG_MAX_SIZE as nat,
            }
        },
        None => DEFAULT_LOG_MAX_SIZE as nat,
    }
}

/// The number and the multiplier of a cap; without a number the default.
fn log_cap_parts(spec: &str) -> (r: (u64, u64))
    ensures
        r.0 * r.1 == log_cap(Some(spec@)),
        r.1 >= 1,
{
    let chars = chars_of(spec);
    let n: usize = chars.len();
    let mult: u64 = if n == 0 {
        1
    } else {
        match chars[n - 1] {
            'k' => 1024,
            'K' => 1024,
            'm' => 1048576,
            'M' => 1048576,
            _ => 1,
        }
    };
    let digits = if mult > 1 {
        spec.substring_char(0, n - 1)
    } else {
        spec
    };
    assert(mult > 1 ==> digits@ =~= spec@.drop_last());
    match parse_u64(digits) {
        Some(number) => (number, mult),
        None => (DEFAULT_LOG_MAX_SIZE, 1),
    }
}

/// Whether the cap that an option asks for can be counted.
pub fn log_cap_fits(spec: Option<&str>) -> (ok: bool)
    ensures
        ok == (log_cap(opt_view(spec)) <= u64::MAX),
{
    match spec {
        Some(s) => {
            let (number, mult): (u64, u64) = log_cap_parts(s);
            proof {
                vstd::arithmetic::div_mod::lemma_fundamental_div_mod(
                    u64::MAX as int,
                    mult as int,
                );
                let q = u64::MAX as int / mult as int;
                if number <= q {
                    assert(number * mult <= q * mult) by (nonlinear_arith)
                        requires
                            number <= q,
                            mult >= 1,
                    ;
                    assert(q * mult == mult * q) by (nonlinear_arith);
                } else {
                    assert(number * mult >= (q + 1) * mult) by (nonlinear_arith)
                        requires
                            number >= q + 1,
                            mult >= 1,
                    ;
                    assert((q + 1) * mult == mult * q + mult) by (nonlinear_arith);
                }
            }
            number <= u64::MAX / mult
        },
        None => true,
    }
}

/// The cap of a session's log: bytes, or a number with a `k`/`K` (KiB) or
/// `m`/`M` (MiB) suffix. Zero disables logging.
pub fn parse_log_cap(spec: Option<&str>) -> (cap: u64)
    requires
        log_cap(opt_view(spec)) <= u64::MAX,
    ensures
        cap == log_cap(opt_view(spec)),
{
    match spec {
        Some(s) => {
            let (number, mult): (u64, u64) = log_cap_parts(s);
            number * mult
        },
        None => DEFAULT_LOG_MAX_SIZE,
    }
}

/// A cap that is written in decimal is read as it is, in KiB with a `k` behind
/// it and in MiB with an `m`.
pub proof fn law_log_cap_reads_sizes(n: u64)
    ensures
        log_cap(Some(decimal(n as nat))) == n,
        log_cap(Some(decimal(n as nat).push('k'))) == n * 1024,
        log_cap(Some(decimal(n as nat).push('K'))) == n * 1024,
        log_cap(Some(decimal(n as nat).push('m'))) == n * 1048576,
        log_cap(Some(decimal(n as nat).push('M'))) == n * 1048576,
{
    let s = decimal(n as nat);
    law_decimal_reads_back(n);
    lemma_decimal_digits(n as nat);
    assert(is_digit(s[s.len() - 1]));
    assert(multiplier(s.last()) == 1);
    assert(n as nat * 1nat == n) by (nonlinear_arith);
    assert(log_cap(Some(s)) == n as nat * 1nat);
    assert(s.push('k').drop_last() =~= s);
    assert(s.push('K').drop_last() =~= s);
    assert(s.push('m').drop_last() =~= s);
    assert(s.push('M').drop_last() =~= s);
}

/// The detach character: none if it is disabled, else the one that is asked
/// for, else the default.
pub fn detach_char(no_detach: bool, spec: Option<&str>) -> (c: Option<u8>)
    ensures
        c == (if no_detach {
            None
        } else {
            match spec {
                Some(s) => match char_spec(encode_utf8(s@)) {
                    Some(b) => Some(b),
                    None => Some(DEFAULT_DETACH_CHAR),
                },
                None => Some(DEFAULT_DETACH_CHAR),
            }
        }),
{
    if no_detach {
        return None;
    }
    let asked = match spec {
        Some(s) => parse_char_spec(s),
        None => None,
    };
    match asked {
        Some(b) => Some(b),
        None => Some(DEFAULT_DETACH_CHAR),
    }
}

/// The request for a session: the command that is given, or else the shell,
/// with a log unless its cap is zero.
pub open spec fn request_for(
    session: Seq<char>,
    cmd: Seq<Seq<char>>,
    log_max_size: u64,
    session_dir: Seq<char>,
    shell: Option<Seq<char>>,
    size: (u16, u16),
) -> SpawnView {
    let socket_path = socket_path_of(session, session_dir);
    SpawnView {
        socket_path,
        log_path: if log_max_size > 0 {
            Some(log_path_of(socket_path))
        } else {
            None
        },
        log_max_size,
        scrollback_size: SCROLLBACK_SIZE,
        rows: size.0,
        cols: size.1,
        program: if cmd.len() > 0 {
            cmd[0]
        } else {
            match shell {
                Some(s) => s,
                None => DEFAULT_SHELL@,
            }
        },
        args: if cmd.len() > 0 {
            cmd.skip(1)
        } else {
            Seq::empty()
        },
    }
}

/// The request for a session: the command that is given, or else the shell,
/// with a log unless its cap is zero.
pub fn build_spawn_request(
    session: &str,
    cmd: &Vec<String>,
    log_max_size: u64,
    session_dir: &str,
    shell: Option<String>,
    size: (u16, u16),
) -> (req: SpawnRequest)
    ensures
        req@ == request_for(
            session@,
            views(cmd@),
            log_max_size,
            session_dir@,
            opt_string(shell),
            size,
        ),
{
    let socket_path = resolve_socket_path(session, session_dir);
    let log_path = if log_max_size > 0 {
        Some(log_path_for(socket_path.as_str()))
    } else {
        None
    };
    let mut args: Vec<String> = Vec::new();
    let program = if cmd.len() > 0 {
        let mut i: usize = 1;
        assert(views(args@) =~= views(cmd@).subrange(1, 1));
        while i < cmd.len()
            invariant
                1 <= i <= cmd@.len(),
                views(args@) == views(cmd@).subrange(1, i as int),
            decreases cmd.len() - i,
        {
            let ghost before = args@;
            let arg = cmd[i].clone();
            args.push(arg);
            assert(views(args@) =~= views(before).push(arg@));
            assert(views(args@) =~= views(cmd@).subrange(1, i + 1));
            i += 1;
        }
        assert(views(cmd@).subrange(1, i as int) =~= views(cmd@).skip(1));
        cmd[0].clone()
    } else {
        assert(views(args@) =~= Seq::<Seq<char>>::empty());
        match shell {
            Some(s) => s,
            None => DEFAULT_SHELL.to_owned(),
        }
    };
    SpawnRequest {
        socket_path,
        log_path,
        log_max_size,
        scrollback_size: SCROLLBACK_SIZE,
        rows: size.0,
        cols: size.1,
        program,
        args,
    }
}

/// A request of the command line is one that a daemon reads back whole, and
/// its scrollback is one that a ring buffer can have.
pub proof fn law_requests_can_be_served(
    session: Seq<char>,
    cmd: Seq<Seq<char>>,
    log_max_size: u64,
    session_dir: Seq<char>,
    shell: Option<Seq<char>>,
    size: (u16, u16),
)
    ensures
        request_for(session, cmd, log_max_size, session_dir, shell, size).log_path != Some(NO_LOG@),
        vstd::arithmetic::power2::is_pow2(
            request_for(session, cmd, log_max_size, session_dir, shell, size).scrollback_size as int,
        ),
{
    let r = request_for(session, cmd, log_max_size, session_dir, shell, size);
    reveal_strlit(".log");
    reveal_strlit("-");
    if log_max_size > 0 {
        assert(r.log_path->0.len() >= 4);
        assert(NO_LOG@.len() == 1);
    }
    assert(vstd::arithmetic::power2::is_pow2(131072)) by {
        reveal_with_fuel(vstd::arithmetic::power2::is_pow2, 19);
    }
}

/// A command that creates sessions or attaches to them.
#[derive(Debug, Clone, Copy, PartialEq, Eq, Structural)]
pub enum Course {
    /// Attach, and fail if there is no session.
    Attach,
    /// Create a session and attach to it.
    New,
    /// Create a session and leave it alone.
    Start,
    /// Attach, and create the session first if there is none.
    Default,
}

/// How far a command has come: what it waits for.
#[derive(Debug, Clone, Copy, PartialEq, Eq, Structural)]
pub enum FlowStage {
    /// The replay of the log.
    Replaying,
    /// Whether there is a socket.
    Looking,
    /// The attach to a session that may not run any more.
    Trying,
    /// The start of a daemon.
    Spawning,
    /// The attach to a session that is known to run.
    Attaching,
    /// Nothing.
    Over,
}

/// What came of the last action.
#[derive(Debug, Clone, PartialEq, Eq)]
pub enum FlowEvent {
    /// The log was replayed, or there was nothing to replay.
    Replayed(bool),
    /// There is a socket, or none.
    SocketExists(bool),
    /// A daemon was started.
    Spawned,
    /// No daemon could be started, in words.
    SpawnFailed(String),
    /// An attach came to its end.
    Attached,
    /// An attach failed.
    AttachFailed(ConnectFailure),
}

/// What a command does next.
#[derive(Debug, Clone, PartialEq, Eq)]
pub enum FlowAction {
    /// Show the on-disk log, if there is one.
    ReplayLog,
    /// Find out whether there is a socket.
    LookForSocket,
    /// Start a daemon.
    Spawn,
    /// Print these lines, then attach. `replayed` says whether history is on
    /// the screen already, so that it is not shown again.
    Attach { replayed: bool, remarks: Report },
    /// Stop.
    Finish(Report),
}

/// A [`FlowAction`] by its contents.
#[verifier::ext_equal]
pub enum FlowActionView {
    ReplayLog,
    LookForSocket,
    Spawn,
    Attach { replayed: bool, remarks: ReportView },
    Finish(ReportView),
}

impl View for FlowAction {
    type V = FlowActionView;

    open spec fn view(&self) -> FlowActionView {
        match *self {
            FlowAction::ReplayLog => FlowActionView::ReplayLog,
            FlowAction::LookForSocket => FlowActionView::LookForSocket,
            FlowAction::Spawn => FlowActionView::Spawn,
            FlowAction::Attach { replayed, remarks } => FlowActionView::Attach {
                replayed,
                remarks: remarks@,
            },
            FlowAction::Finish(report) => FlowActionView::Finish(report@),
        }
    }
}

/// A [`Flow`] by its contents.
#[verifier::ext_equal]
pub struct FlowView {
    pub course: Course,
    pub session: Seq<char>,
    pub quiet: bool,
    pub replayed: bool,
    pub stage: FlowStage,
}

/// The course of one command.
pub struct Flow {
    course: Course,
    session: String,
    quiet: bool,
    replayed: bool,
    stage: FlowStage,
}

impl View for Flow {
    type V = FlowView;

    closed spec fn view(&self) -> FlowView {
        FlowView {
            course: self.course,
            session: self.session@,
            quiet: self.quiet,
            replayed: self.replayed,
            stage: self.stage,
        }
    }
}

/// Whether the event can follow the action of this stage.
pub open spec fn flow_awaits(stage: FlowStage, event: FlowEvent) -> bool {
    match stage {
        FlowStage::Replaying => event is Replayed,
        FlowStage::Looking => event is SocketExists,
        FlowStage::Spawning => event is Spawned || event is SpawnFailed,
        FlowStage::Trying | FlowStage::Attaching => event is Attached || event is AttachFailed,
        FlowStage::Over => false,
    }
}

/// A command at its start, and what it does first: history is shown before
/// anything else, except where the session is left alone.
pub open spec fn flow_start(course: Course, session: Seq<char>, quiet: bool) -> (
    FlowView,
    FlowActionView,
) {
    let stage = if course == Course::Start {
        FlowStage::Spawning
    } else {
        FlowStage::Replaying
    };
    (
        (FlowView { course, session, quiet, replayed: false, stage }),
        if course == Course::Start {
            FlowActionView::Spawn
        } else {
            FlowActionView::ReplayLog
        },
    )
}

/// What is said before the attach to a session that was just created.
pub open spec fn creation_remarks(session: Seq<char>, quiet: bool) -> ReportView {
    if quiet {
        silent(0)
    } else {
        warning(0, about(session, "' created"@))
    }
}

/// The next step of a command.
pub open spec fn flow_step(f: FlowView, event: FlowEvent) -> (FlowView, FlowActionView) {
    let ended = FlowView { stage: FlowStage::Over, ..f };
    match event {
        FlowEvent::Replayed(replayed) => match f.course {
            Course::Attach => (
                (FlowView { replayed, stage: FlowStage::Attaching, ..f }),
                FlowActionView::Attach { replayed, remarks: silent(0) },
            ),
            Course::Default => (
                (FlowView { replayed, stage: FlowStage::Looking, ..f }),
                FlowActionView::LookForSocket,
            ),
            _ => (
                (FlowView { replayed, stage: FlowStage::Spawning, ..f }),
                FlowActionView::Spawn,
            ),
        },
        FlowEvent::SocketExists(there) => if there {
            (
                (FlowView { stage: FlowStage::Trying, ..f }),
                FlowActionView::Attach { replayed: f.replayed, remarks: silent(0) },
            )
        } else {
            ((FlowView { stage: FlowStage::Spawning, ..f }), FlowActionView::Spawn)
        },
        FlowEvent::Spawned => if f.course == Course::Start {
            (ended, FlowActionView::Finish(announced(f.quiet, about(f.session, "' started"@))))
        } else {
            (
                (FlowView { stage: FlowStage::Attaching, ..f }),
                FlowActionView::Attach {
                    replayed: f.replayed,
                    remarks: creation_remarks(f.session, f.quiet),
                },
            )
        },
        FlowEvent::SpawnFailed(text) => (
            ended,
            FlowActionView::Finish(warning(1, problem(f.session, text@))),
        ),
        FlowEvent::Attached => (ended, FlowActionView::Finish(silent(0))),
        FlowEvent::AttachFailed(failure) => if f.stage == FlowStage::Trying && !(
        failure@ is Other) {
            ((FlowView { stage: FlowStage::Spawning, ..f }), FlowActionView::Spawn)
        } else {
            (ended, FlowActionView::Finish(saying(1, connect_error(f.session, failure@))))
        },
    }
}

impl Flow {
    /// Starts a command.
    pub fn new(course: Course, session: &str, quiet: bool) -> (r: (Flow, FlowAction))
        ensures
            (r.0@, r.1@) == flow_start(course, session@, quiet),
    {
        let session = session.to_owned();
        if matches!(course, Course::Start) {
            let stage = FlowStage::Spawning;
            (Flow { course, session, quiet, replayed: false, stage }, FlowAction::Spawn)
        } else {
            let stage = FlowStage::Replaying;
            (Flow { course, session, quiet, replayed: false, stage }, FlowAction::ReplayLog)
        }
    }

    /// Takes what came of the last action and gives the next one.
    pub fn step(&mut self, event: FlowEvent) -> (action: FlowAction)
        requires
            flow_awaits(old(self)@.stage, event),
        ensures
            (final(self)@, action@) == flow_step(old(self)@, event),
    {
        match event {
            FlowEvent::Replayed(replayed) => {
                self.replayed = replayed;
                match self.course {
                    Course::Attach => {
                        self.stage = FlowStage::Attaching;
                        FlowAction::Attach { replayed, remarks: Report::silent(0) }
                    },
                    Course::Default => {
                        self.stage = FlowStage::Looking;
                        FlowAction::LookForSocket
                    },
                    _ => {
                        self.stage = FlowStage::Spawning;
                        FlowAction::Spawn
                    },
                }
            },
            FlowEvent::SocketExists(there) => {
                if there {
                    self.stage = FlowStage::Trying;
                    FlowAction::Attach { replayed: self.replayed, remarks: Report::silent(0) }
                } else {
                    self.stage = FlowStage::Spawning;
                    FlowAction::Spawn
                }
            },
            FlowEvent::Spawned => {
                if matches!(self.course, Course::Start) {
                    self.stage = FlowStage::Over;
                    FlowAction::Finish(started(self.session.as_str(), self.quiet))
                } else {
                    self.stage = FlowStage::Attaching;
                    let remarks = if self.quiet {
                        Report::silent(0)
                    } else {
                        Report::warning(0, about_line(self.session.as_str(), "' created"))
                    };
                    FlowAction::Attach { replayed: self.replayed, remarks }
                }
            },
            FlowEvent::SpawnFailed(text) => {
                self.stage = FlowStage::Over;
                let line = problem_line(self.session.as_str(), text.as_str());
                FlowAction::Finish(Report::warning(1, line))
            },
            FlowEvent::Attached => {
                self.stage = FlowStage::Over;
                FlowAction::Finish(Report::silent(0))
            },
            FlowEvent::AttachFailed(failure) => {
                if matches!(self.stage, FlowStage::Trying)
                    && !matches!(failure, ConnectFailure::Other(_)) {
                    self.stage = FlowStage::Spawning;
                    FlowAction::Spawn
                } else {
                    self.stage = FlowStage::Over;
                    let line = connect_error_line(self.session.as_str(), &failure);
                    FlowAction::Finish(Report::saying(1, line))
                }
            },
        }
    }
}

/// What a command does on the events, one after the other.
pub open spec fn flow_trace(f: FlowView, events: Seq<FlowEvent>) -> Seq<FlowActionView>
    decreases events.len(),
{
    if events.len() == 0 {
        Seq::empty()
    } else {
        let (g, action) = flow_step(f, events[0]);
        seq![action] + flow_trace(g, events.drop_first())
    }
}

/// Whether each event can follow the action before it.
pub open spec fn flow_accepts(f: FlowView, events: Seq<FlowEvent>) -> bool
    decreases events.len(),
{
    events.len() == 0 || (flow_awaits(f.stage, events[0]) && flow_accepts(
        flow_step(f, events[0]).0,
        events.drop_first(),
    ))
}

proof fn lemma_trace_after_replay(f: FlowView, events: Seq<FlowEvent>)
    requires
        f.stage != FlowStage::Replaying,
        flow_accepts(f, events),
    ensures
        forall|i: int|
            0 <= i < flow_trace(f, events).len() ==> !(#[trigger] flow_trace(f, events)[i]
                is ReplayLog),
        forall|i: int|
            0 <= i < flow_trace(f, events).len() ==> (#[trigger] flow_trace(f, events)[i] matches
                FlowActionView::Attach { replayed, .. } ==> replayed == f.replayed),
    decreases events.len(),
{
    if events.len() > 0 {
        let (g, action) = flow_step(f, events[0]);
        lemma_trace_after_replay(g, events.drop_first());
        let rest = flow_trace(g, events.drop_first());
        let all = flow_trace(f, events);
        assert forall|i: int| 0 <= i < all.len() implies !(#[trigger] all[i] is ReplayLog) && (
        all[i] matches FlowActionView::Attach { replayed, .. } ==> replayed == f.replayed) by {
            if i > 0 {
                assert(all[i] == rest[i - 1]);
            }
        }
    }
}

/// History is shown once in a whole invocation: the log is replayed first and
/// never again, whichever way the command takes, and every attach that follows
/// leaves out the daemon's scrollback exactly if the log was shown.
pub proof fn law_history_is_shown_once(
    course: Course,
    session: Seq<char>,
    quiet: bool,
    events: Seq<FlowEvent>,
)
    requires
        course != Course::Start,
        flow_accepts(flow_start(course, session, quiet).0, events),
    ensures
        flow_start(course, session, quiet).1 is ReplayLog,
        ({
            let trace = flow_trace(flow_start(course, session, quiet).0, events);
            &&& forall|i: int| 0 <= i < trace.len() ==> !(#[trigger] trace[i] is ReplayLog)
            &&& forall|i: int|
                0 <= i < trace.len() ==> (#[trigger] trace[i] matches FlowActionView::Attach {
                    replayed,
                    ..
                } ==> events[0] == FlowEvent::Replayed(replayed))
        }),
{
    let f = flow_start(course, session, quiet).0;
    if events.len() > 0 {
        let (g, action) = flow_step(f, events[0]);
        lemma_trace_after_replay(g, events.drop_first());
        let rest = flow_trace(g, events.drop_first());
        let all = flow_trace(f, events);
        assert forall|i: int| 0 <= i < all.len() implies !(#[trigger] all[i] is ReplayLog) && (
        all[i] matches FlowActionView::Attach { replayed, .. } ==> events[0]
            == FlowEvent::Replayed(replayed)) by {
            if i > 0 {
                assert(all[i] == rest[i - 1]);
            }
        }
    }
}

/// A session that is created detached shows nothing and attaches to nothing.
pub proof fn law_start_leaves_the_session_alone(
    session: Seq<char>,
    quiet: bool,
    events: Seq<FlowEvent>,
)
    requires
        flow_accepts(flow_start(Course::Start, session, quiet).0, events),
    ensures
        flow_start(Course::Start, session, quiet).1 is Spawn,
        events.len() <= 1,
        events.len() == 1 ==> flow_trace(flow_start(Course::Start, session, quiet).0, events)[0]
            is Finish,
{
    reveal_with_fuel(flow_accepts, 3);
    let f = flow_start(Course::Start, session, quiet).0;
    if events.len() > 0 {
        assert(flow_step(f, events[0]).0.stage is Over);
    }
}

/// How many actions of a command can still follow.
pub open spec fn flow_rank(stage: FlowStage) -> nat {
    match stage {
        FlowStage::Replaying => 5,
        FlowStage::Looking => 4,
        FlowStage::Trying => 3,
        FlowStage::Spawning => 2,
        FlowStage::Attaching => 1,
        FlowStage::Over => 0,
    }
}

/// A command comes to its end. It succeeds exactly when an attach ended or a
/// detached session was started.
pub proof fn law_commands_end(f: FlowView, event: FlowEvent)
    requires
        flow_awaits(f.stage, event),
    ensures
        flow_rank(flow_step(f, event).0.stage) < flow_rank(f.stage),
        flow_step(f, event).0.stage is Over <==> flow_step(f, event).1 is Finish,
        flow_step(f, event).1 matches FlowActionView::Finish(report) ==> (report.code == 0 <==> (
        event is Attached || (event is Spawned && f.course == Course::Start))),
{
}

/// The stages that a command can be in.
pub open spec fn flow_wf(f: FlowView) -> bool {
    match f.course {
        Course::Attach => f.stage is Replaying || f.stage is Attaching || f.stage is Over,
        Course::New => !(f.stage is Looking) && !(f.stage is Trying),
        Course::Start => f.stage is Spawning || f.stage is Over,
        Course::Default => true,
    }
}

/// A command is only ever in the stages of its course.
pub proof fn law_commands_keep_to_their_course(
    course: Course,
    session: Seq<char>,
    quiet: bool,
    f: FlowView,
    event: FlowEvent,
)
    requires
        flow_wf(f),
        flow_awaits(f.stage, event),
    ensures
        flow_wf(flow_start(course, session, quiet).0),
        flow_wf(flow_step(f, event).0),
        flow_step(f, event).0.course == f.course,
{
}

/// Attach-or-create creates only if nothing is listening: there is no socket,
/// or nobody answers on it. An attach that is refused for any other reason,
/// such as one from within the session itself, fails and starts nothing. A
/// strict attach never creates.
pub proof fn law_creates_only_if_nothing_listens(f: FlowView, event: FlowEvent)
    requires
        flow_awaits(f.stage, event),
        flow_wf(f),
        flow_step(f, event).1 is Spawn,
    ensures
        f.course != Course::Attach,
        f.course == Course::Default ==> (event == FlowEvent::SocketExists(false) || (event matches
            FlowEvent::AttachFailed(failure) && !(failure is Other))),
        f.course == Course::New ==> event is Replayed,
        f.course != Course::Start,
{
}

/// The session whose log is to be cleared: the one that is named, or else the
/// one that the short form of this process's ancestry chain names.
pub open spec fn clear_target_of(
    session: Option<Seq<char>>,
    chain: Option<Seq<char>>,
) -> Option<Seq<char>> {
    match session {
        Some(s) => Some(s),
        None => match chain {
            Some(c) => Some(short_name_of(c)),
            None => None,
        },
    }
}

/// The session whose log is to be cleared, or what is said where none is named
/// and there is no chain.
pub fn clear_target(session: Option<String>, chain: Option<&str>) -> (r: Result<String, Report>)
    ensures
        match clear_target_of(opt_string(session), opt_view(chain)) {
            Some(name) => r matches Ok(n) && n@ == name,
            None => r matches Err(report) && report@ == warning(
                1,
                "hytch: no session specified and not inside one"@,
            ),
        },
{
    match session {
        Some(s) => Ok(s),
        None => match chain {
            Some(c) => Ok(short_name(c)),
            None => Err(
                Report::warning(1, "hytch: no session specified and not inside one".to_owned()),
            ),
        },
    }
}

/// The session that is to be removed, or what is said where none is named. A
/// sweep of all sessions is not offered.
pub fn rm_target(all: bool, session: Option<String>) -> (r: Result<String, Report>)
    ensures
        if all {
            r matches Err(report) && report@ == warning(
                1,
                "hytch: rm -a is not implemented yet; remove sessions by name for now"@,
            )
        } else {
            match session {
                Some(name) => r matches Ok(n) && n@ == name@,
                None => r matches Err(report) && report@ == warning(
                    1,
                    "hytch: a session name is required (or use -a)"@,
                ),
            }
        },
{
    if all {
        return Err(
            Report::warning(
                1,
                "hytch: rm -a is not implemented yet; remove sessions by name for now".to_owned(),
            ),
        );
    }
    match session {
        Some(name) => Ok(name),
        None => Err(
            Report::warning(1, "hytch: a session name is required (or use -a)".to_owned()),
        ),
    }
}

/// The session and the command of a bare invocation, or what is said where no
/// session is named.
pub fn default_target(rest: &Vec<String>) -> (r: Result<(String, Vec<String>), Report>)
    ensures
        if rest@.len() == 0 {
            r matches Err(report) && report@ == warning(
                1,
                "hytch: a session name is required. Try `hytch --help`."@,
            )
        } else {
            r matches Ok((session, cmd)) && session@ == rest@[0]@ && views(cmd@) == views(
                rest@,
            ).skip(1)
        },
{
    if rest.len() == 0 {
        return Err(
            Report::warning(
                1,
                "hytch: a session name is required. Try `hytch --help`.".to_owned(),
            ),
        );
    }
    let mut cmd: Vec<String> = Vec::new();
    let mut i: usize = 1;
    assert(views(cmd@) =~= views(rest@).subrange(1, 1));
    while i < rest.len()
        invariant
            1 <= i <= rest@.len(),
            views(cmd@) == views(rest@).subrange(1, i as int),
        decreases rest.len() - i,
    {
        let ghost before = cmd@;
        let arg = rest[i].clone();
        cmd.push(arg);
        assert(views(cmd@) =~= views(before).push(arg@));
        assert(views(cmd@) =~= views(rest@).subrange(1, i + 1));
        i += 1;
    }
    assert(views(rest@).subrange(1, i as int) =~= views(rest@).skip(1));
    Ok((rest[0].clone(), cmd))
}

/// The byte that a process can exit with: the low byte of the code.
pub fn exit_byte(code: i32) -> (b: u8)
    ensures
        b == code as int % 256,
{
    let wide: i64 = code as i64 + 2147483648;
    (wide % 256) as u8
}

/// On every run of attach-or-create, whatever happens, each start of a daemon
/// comes directly after it was found that nothing listens.
pub proof fn law_default_never_starts_over_a_session(
    session: Seq<char>,
    quiet: bool,
    events: Seq<FlowEvent>,
    i: int,
)
    requires
        flow_accepts(flow_start(Course::Default, session, quiet).0, events),
        0 <= i < events.len(),
        flow_trace(flow_start(Course::Default, session, quiet).0, events)[i] is Spawn,
    ensures
        events[i] == FlowEvent::SocketExists(false) || (events[i] matches FlowEvent::AttachFailed(
            failure,
        ) && !(failure is Other)),
{
    lemma_default_spawns(flow_start(Course::Default, session, quiet).0, events, i);
}

proof fn lemma_trace_len(f: FlowView, events: Seq<FlowEvent>)
    ensures
        flow_trace(f, events).len() == events.len(),
    decreases events.len(),
{
    if events.len() > 0 {
        lemma_trace_len(flow_step(f, events[0]).0, events.drop_first());
    }
}

proof fn lemma_default_spawns(f: FlowView, events: Seq<FlowEvent>, i: int)
    requires
        f.course == Course::Default,
        flow_accepts(f, events),
        0 <= i < events.len(),
        flow_trace(f, events)[i] is Spawn,
    ensures
        events[i] == FlowEvent::SocketExists(false) || (events[i] matches FlowEvent::AttachFailed(
            failure,
        ) && !(failure is Other)),
    decreases events.len(),
{
    let (g, action) = flow_step(f, events[0]);
    let rest = events.drop_first();
    if i == 0 {
        law_creates_only_if_nothing_listens(f, events[0]);
    } else {
        law_commands_keep_to_their_course(f.course, f.session, f.quiet, f, events[0]);
        lemma_trace_len(g, rest);
        assert(flow_trace(f, events)[i] == flow_trace(g, rest)[i - 1]);
        lemma_default_spawns(g, rest, i - 1);
        assert(rest[i - 1] == events[i]);
    }
}

/// A command begins and goes on by the steps of its course, and what it hands
/// out is what the step says.
pub proof fn law_commands_take_the_steps_of_their_course(
    course: Course,
    session: &str,
    quiet: bool,
    begun: (Flow, FlowAction),
    flow: &mut Flow,
    event: FlowEvent,
    action: FlowAction,
)
    requires
        call_ensures(Flow::new, (course, session, quiet), begun),
        call_ensures(Flow::step, (flow, event), action),
    ensures
        (begun.0@, begun.1@) == flow_start(course, session@, quiet),
        begun.1 is Spawn <==> course == Course::Start,
        begun.1 is ReplayLog <==> course != Course::Start,
        !begun.0@.replayed,
        final(flow)@ == flow_step(old(flow)@, event).0,
        match action {
            FlowAction::ReplayLog => flow_step(old(flow)@, event).1 is ReplayLog,
            FlowAction::LookForSocket => flow_step(old(flow)@, event).1 is LookForSocket,
            FlowAction::Spawn => flow_step(old(flow)@, event).1 is Spawn,
            FlowAction::Attach { replayed, remarks } => flow_step(old(flow)@, event).1
                == (FlowActionView::Attach { replayed, remarks: remarks@ }),
            FlowAction::Finish(report) => flow_step(old(flow)@, event).1 == FlowActionView::Finish(
                report@,
            ),
        },
{
}

/// A report of nothing but success.
pub open spec fn success() -> ReportView {
    ReportView { code: 0, out: Seq::empty(), err: Seq::empty() }
}

/// A report that a session could not be reached, which names it.
pub open spec fn unreachable_report(session: Seq<char>, failure: ConnectFailure) -> ReportView {
    ReportView {
        code: 1,
        out: seq![
            match failure {
                ConnectFailure::NotFound => "hytch: session '"@ + session + "' does not exist"@,
                ConnectFailure::Refused => "hytch: session '"@ + session + "' is not running"@,
                ConnectFailure::Other(text) => "hytch: "@ + session + ": "@ + text@,
            },
        ],
        err: Seq::empty(),
    }
}

/// The remark that a session was created, unless nothing is to be said.
pub open spec fn created(session: Seq<char>, quiet: bool) -> ReportView {
    ReportView {
        code: 0,
        out: Seq::empty(),
        err: if quiet {
            Seq::empty()
        } else {
            seq!["hytch: session '"@ + session + "' created"@]
        },
    }
}

/// A report that no daemon could be started, which says why.
pub open spec fn unstarted(session: Seq<char>, text: Seq<char>) -> ReportView {
    ReportView {
        code: 1,
        out: Seq::empty(),
        err: seq!["hytch: "@ + session + ": "@ + text],
    }
}

/// The whole course of a strict attach: history is shown, then the session is
/// attached to, with the daemon's scrollback left out if there was history. The
/// end of the attach is a success, and a failure is reported.
pub proof fn law_course_of_attach(
    session: Seq<char>,
    quiet: bool,
    replayed: bool,
    failure: ConnectFailure,
)
    ensures
        ({
            let (f0, a0) = flow_start(Course::Attach, session, quiet);
            let (f1, a1) = flow_step(f0, FlowEvent::Replayed(replayed));
            &&& a0 is ReplayLog
            &&& a1 == (FlowActionView::Attach { replayed, remarks: success() })
            &&& flow_step(f1, FlowEvent::Attached).1 == FlowActionView::Finish(success())
            &&& flow_step(f1, FlowEvent::AttachFailed(failure)).1 == FlowActionView::Finish(
                unreachable_report(session, failure),
            )
        }),
{
}

/// The whole course of a new session: history is shown, the daemon is started,
/// and the session is attached to, after it was said that it was created.
pub proof fn law_course_of_new(
    session: Seq<char>,
    quiet: bool,
    replayed: bool,
    text: String,
    failure: ConnectFailure,
)
    ensures
        ({
            let (f0, a0) = flow_start(Course::New, session, quiet);
            let (f1, a1) = flow_step(f0, FlowEvent::Replayed(replayed));
            let (f2, a2) = flow_step(f1, FlowEvent::Spawned);
            &&& a0 is ReplayLog
            &&& a1 is Spawn
            &&& flow_step(f1, FlowEvent::SpawnFailed(text)).1 == FlowActionView::Finish(
                unstarted(session, text@),
            )
            &&& a2 == (FlowActionView::Attach { replayed, remarks: created(session, quiet) })
            &&& flow_step(f2, FlowEvent::Attached).1 == FlowActionView::Finish(success())
            &&& flow_step(f2, FlowEvent::AttachFailed(failure)).1 == FlowActionView::Finish(
                unreachable_report(session, failure),
            )
        }),
{
}

/// The whole course of a detached start: the daemon is started, and that is
/// announced, or it is said why not.
pub proof fn law_course_of_start(session: Seq<char>, quiet: bool, text: String)
    ensures
        ({
            let (f0, a0) = flow_start(Course::Start, session, quiet);
            &&& a0 is Spawn
            &&& flow_step(f0, FlowEvent::Spawned).1 == FlowActionView::Finish(
                ReportView {
                    code: 0,
                    out: if quiet {
                        Seq::empty()
                    } else {
                        seq!["hytch: session '"@ + session + "' started"@]
                    },
                    err: Seq::empty(),
                },
            )
            &&& flow_step(f0, FlowEvent::SpawnFailed(text)).1 == FlowActionView::Finish(
                unstarted(session, text@),
            )
        }),
{
}

/// The whole course of attach-or-create: history is shown, and the socket is
/// looked for, whether or not there was history. A session whose socket is
/// there is attached to; where there is no socket, or nobody answers on it, one
/// is created and attached to as by `new`. An attach that fails for any other
/// reason fails the command.
pub proof fn law_course_of_default(
    session: Seq<char>,
    quiet: bool,
    replayed: bool,
    text: String,
    failure: ConnectFailure,
    later: ConnectFailure,
)
    ensures
        ({
            let (f0, a0) = flow_start(Course::Default, session, quiet);
            let (f1, a1) = flow_step(f0, FlowEvent::Replayed(replayed));
            let (there, a2) = flow_step(f1, FlowEvent::SocketExists(true));
            let (absent, a3) = flow_step(f1, FlowEvent::SocketExists(false));
            let (unanswered, a4) = flow_step(there, FlowEvent::AttachFailed(failure));
            let (made, a5) = flow_step(absent, FlowEvent::Spawned);
            &&& a0 is ReplayLog
            &&& a1 is LookForSocket
            &&& a2 == (FlowActionView::Attach { replayed, remarks: success() })
            &&& flow_step(there, FlowEvent::Attached).1 == FlowActionView::Finish(success())
            &&& failure is Other ==> a4 == FlowActionView::Finish(unreachable_report(session, failure))
            &&& !(failure is Other) ==> a4 is Spawn && unanswered == absent
            &&& a3 is Spawn
            &&& flow_step(absent, FlowEvent::SpawnFailed(text)).1 == FlowActionView::Finish(
                unstarted(session, text@),
            )
            &&& a5 == (FlowActionView::Attach { replayed, remarks: created(session, quiet) })
            &&& flow_step(made, FlowEvent::Attached).1 == FlowActionView::Finish(success())
            &&& flow_step(made, FlowEvent::AttachFailed(later)).1 == FlowActionView::Finish(
                unreachable_report(session, later),
            )
        }),
{
}

/// A command that is given is what runs, word for word; only without one does
/// the shell run, and without a shell `/bin/sh`.
pub proof fn law_command_that_is_given_runs(
    session: &str,
    cmd: &Vec<String>,
    log_max_size: u64,
    session_dir: &str,
    shell: Option<String>,
    size: (u16, u16),
    req: SpawnRequest,
)
    requires
        call_ensures(
            build_spawn_request,
            (session, cmd, log_max_size, session_dir, shell, size),
            req,
        ),
    ensures
        cmd@.len() > 0 ==> {
            &&& req.program@ == cmd@[0]@
            &&& req.args@.len() == cmd@.len() - 1
            &&& forall|i: int|
                0 <= i < req.args@.len() ==> (#[trigger] req.args@[i])@ == cmd@[i + 1]@
            &&& seq![req@.program] + req@.args == views(cmd@)
            &&& daemon_argv(req@).skip(7) == views(cmd@)
        },
        cmd@.len() == 0 ==> req.args@.len() == 0 && req.program@ == (match shell {
            Some(program) => program@,
            None => "/bin/sh"@,
        }),
{
    assert(views(req.args@).len() == req.args@.len());
    assert(views(cmd@).len() == cmd@.len());
    if cmd@.len() > 0 {
        let all = views(cmd@);
        assert(seq![req@.program] + req@.args =~= all);
        assert(daemon_argv(req@).skip(7) =~= all);
        assert forall|i: int| 0 <= i < req.args@.len() implies (#[trigger] req.args@[i])@ == cmd@[i
            + 1]@ by {
            assert(views(req.args@)[i] == all[i + 1]);
        }
    }
}

/// A session is created where its name says, with a log beside its socket
/// unless the cap is zero, and with the size and the cap that were given. Its
/// scrollback is 128 KiB.
pub proof fn law_session_is_created_as_asked(
    session: &str,
    cmd: &Vec<String>,
    log_max_size: u64,
    session_dir: &str,
    shell: Option<String>,
    size: (u16, u16),
    req: SpawnRequest,
    path: String,
)
    requires
        call_ensures(
            build_spawn_request,
            (session, cmd, log_max_size, session_dir, shell, size),
            req,
        ),
        call_ensures(resolve_socket_path, (session, session_dir), path),
    ensures
        req.socket_path@ == path@,
        req.log_path is Some <==> log_max_size > 0,
        req.log_path matches Some(log) ==> log@ == path@ + ".log"@,
        req.log_max_size == log_max_size,
        (req.rows, req.cols) == size,
        req.scrollback_size == 131072,
{
}

/// The session that is named is cleared; where none is named, the one that the
/// short name of the chain names, and without a chain it is said that there is
/// none.
pub proof fn law_clear_target_is_the_one_that_is_named(
    session: Option<String>,
    chain: Option<&str>,
    r: Result<String, Report>,
    name: String,
)
    requires
        call_ensures(clear_target, (session, chain), r),
        chain is Some ==> call_ensures(short_name, (chain->0,), name),
    ensures
        session matches Some(s) ==> (r matches Ok(n) && n@ == s@),
        session is None && chain is Some ==> (r matches Ok(n) && n@ == name@),
        session is None && chain is None ==> (r matches Err(report) && report@ == (ReportView {
            code: 1,
            out: Seq::empty(),
            err: seq!["hytch: no session specified and not inside one"@],
        })),
{
}

/// Only a session that is named is removed; a sweep is refused, whatever is
/// named beside it.
pub proof fn law_rm_target_is_the_one_that_is_named(
    all: bool,
    session: Option<String>,
    r: Result<String, Report>,
)
    requires
        call_ensures(rm_target, (all, session), r),
    ensures
        r is Ok <==> !all && session is Some,
        r matches Ok(name) ==> name@ == session->0@,
        r matches Err(report) ==> report.code == 1 && report@.out.len() == 0 && report@.err == seq![
            if all {
                "hytch: rm -a is not implemented yet; remove sessions by name for now"@
            } else {
                "hytch: a session name is required (or use -a)"@
            },
        ],
{
}

/// A bare invocation is a session and its command: put together again they are
/// what was given, word for word.
pub proof fn law_bare_invocation_is_session_and_command(
    rest: &Vec<String>,
    r: Result<(String, Vec<String>), Report>,
)
    requires
        call_ensures(default_target, (rest,), r),
    ensures
        r is Ok <==> rest@.len() > 0,
        r matches Ok((session, cmd)) ==> seq![session@] + views(cmd@) == views(rest@) && cmd@.len()
            + 1 == rest@.len(),
        r matches Err(report) ==> report@ == (ReportView {
            code: 1,
            out: Seq::empty(),
            err: seq!["hytch: a session name is required. Try `hytch --help`."@],
        }),
{
    if rest@.len() > 0 {
        let (session, cmd) = r->Ok_0;
        assert(views(cmd@).len() == cmd@.len());
        assert(seq![session@] + views(cmd@) =~= views(rest@));
    }
}

/// The detach character is none if it is disabled, whatever is asked for; else
/// it is the one that [`parse_char_spec`] reads, and `^\` where there is none.
pub proof fn law_detach_char_is_the_one_asked_for(
    no_detach: bool,
    spec: Option<&str>,
    c: Option<u8>,
    asked: Option<u8>,
)
    requires
        call_ensures(detach_char, (no_detach, spec), c),
        spec is Some ==> call_ensures(parse_char_spec, (spec->0,), asked),
        spec is None ==> asked is None,
    ensures
        no_detach ==> c is None,
        !no_detach && asked is Some ==> c == asked,
        !no_detach && asked is None ==> c == Some(28u8),
{
}

/// The cap of a log, read from its option: the number before a suffix, in KiB
/// or MiB, or the number itself; without an option or a number, 1 MiB.
pub proof fn law_log_cap_is_the_number_that_is_given(
    spec: Option<&str>,
    cap: u64,
    fits: bool,
    prefix: Seq<char>,
)
    requires
        call_ensures(parse_log_cap, (spec,), cap),
        call_ensures(log_cap_fits, (spec,), fits),
    ensures
        spec is None ==> cap == 1048576 && fits,
        spec matches Some(s) ==> {
            &&& s@ == prefix.push('k') || s@ == prefix.push('K') ==> cap == (match parsed_u64(
                prefix,
            ) {
                Some(n) => n * 1024,
                None => 1048576,
            })
            &&& s@ == prefix.push('m') || s@ == prefix.push('M') ==> cap == (match parsed_u64(
                prefix,
            ) {
                Some(n) => n * 1048576,
                None => 1048576,
            })
            &&& s@.len() == 0 ==> cap == 1048576
            &&& s@.len() > 0 && s@.last() != 'k' && s@.last() != 'K' && s@.last() != 'm'
                && s@.last() != 'M' ==> cap == (match parsed_u64(s@) {
                Some(n) => n,
                None => 1048576u64,
            })
        },
        fits,
{
    match spec {
        Some(s) => match parsed_u64(s@) {
            Some(n) => {
                assert(n as nat * 1nat == n) by (nonlinear_arith);
            },
            None => {},
        },
        None => {},
    }
    assert(prefix.push('k').drop_last() =~= prefix);
    assert(prefix.push('K').drop_last() =~= prefix);
    assert(prefix.push('m').drop_last() =~= prefix);
    assert(prefix.push('M').drop_last() =~= prefix);
}

/// A process exits with the low byte of its code: codes that differ by a
/// multiple of 256 are the same, and codes that fit are kept.
pub proof fn law_exit_byte_keeps_the_low_byte(code: i32, b: u8)
    requires
        call_ensures(exit_byte, (code,), b),
    ensures
        (code - b) % 256 == 0,
        0 <= code <= 255 ==> b == code,
{
}

/// A cap can be counted unless it is a number that is too large in its unit.
pub proof fn law_log_cap_fits_unless_it_is_too_large(spec: &str, fits: bool, prefix: Seq<char>)
    requires
        call_ensures(log_cap_fits, (Some(spec),), fits),
    ensures
        spec@ == prefix.push('k') || spec@ == prefix.push('K') ==> (fits <==> (parsed_u64(
            prefix,
        ) matches Some(n) ==> n * 1024 <= u64::MAX)),
        spec@ == prefix.push('m') || spec@ == prefix.push('M') ==> (fits <==> (parsed_u64(
            prefix,
        ) matches Some(n) ==> n * 1048576 <= u64::MAX)),
        spec@.len() == 0 || (spec@.last() != 'k' && spec@.last() != 'K' && spec@.last() != 'm'
            && spec@.last() != 'M') ==> fits,
{
    match parsed_u64(spec@) {
        Some(n) => {
            assert(n as nat * 1nat == n) by (nonlinear_arith);
        },
        None => {},
    }
    assert(prefix.push('k').drop_last() =~= prefix);
    assert(prefix.push('K').drop_last() =~= prefix);
    assert(prefix.push('m').drop_last() =~= prefix);
    assert(prefix.push('M').drop_last() =~= prefix);
}

} // verus!
