//! One-shot commands that need no attach: kill, push, clear, rm, current and
//! list. What they decide and say is here; the caller connects, reads and
//! prints.

use crate::buffers::buf_seq;
use crate::codec::{
    decoded_all, fits, frame, law_stream_of_frames, payload, stream, MessageCodec,
    DEFAULT_MAX_FRAME_LEN, HEADER_LEN,
};
use crate::daemon::input_of;
use crate::message::{Message, MessageView};
use crate::ring_buffer::{concat, lemma_concat_push};
use crate::session::{opt_view, short_name, short_name_of};
use crate::text::views;
use bytes::{Bytes, BytesMut};
use vstd::prelude::*;
use vstd::string::*;
use vstd::utf8::encode_utf8;

verus! {

/// How much input a push reads at once. It stays under the longest frame that
/// a daemon accepts, so a large push is many frames.
pub const PUSH_CHUNK_SIZE: usize = 32768;

/// How often a wait for the end of a session looks again.
pub const GONE_POLL_MS: u64 = 100;

/// How long a session may take to end after it was asked to.
pub const TERM_GRACE_MS: u64 = 5000;

/// How long a session may take to end after it was killed.
pub const KILL_GRACE_MS: u64 = 2000;

/// The width of the names in a listing.
pub const NAME_WIDTH: usize = 24;

/// What a command leaves: its exit code and the lines that it prints.
#[derive(Debug, Clone, PartialEq, Eq)]
pub struct Report {
    pub code: i32,
    /// Lines for the standard output.
    pub out: Vec<String>,
    /// Lines for the standard error.
    pub err: Vec<String>,
}

/// A [`Report`] by its contents.
#[verifier::ext_equal]
pub struct ReportView {
    pub code: i32,
    pub out: Seq<Seq<char>>,
    pub err: Seq<Seq<char>>,
}

impl View for Report {
    type V = ReportView;

    open spec fn view(&self) -> ReportView {
        ReportView { code: self.code, out: views(self.out@), err: views(self.err@) }
    }
}

/// A report that says nothing.
pub open spec fn silent(code: i32) -> ReportView {
    ReportView { code, out: Seq::empty(), err: Seq::empty() }
}

/// A report with one line for the standard output.
pub open spec fn saying(code: i32, line: Seq<char>) -> ReportView {
    ReportView { code, out: seq![line], err: Seq::empty() }
}

/// A report with one line for the standard error.
pub open spec fn warning(code: i32, line: Seq<char>) -> ReportView {
    ReportView { code, out: Seq::empty(), err: seq![line] }
}

impl Report {
    /// A report that says nothing.
    pub fn silent(code: i32) -> (r: Report)
        ensures
            r@ == silent(code),
    {
        let r = Report { code, out: Vec::new(), err: Vec::new() };
        assert(r@ =~= silent(code));
        r
    }

    /// A report with one line for the standard output.
    pub fn saying(code: i32, line: String) -> (r: Report)
        ensures
            r@ == saying(code, line@),
    {
        let mut out: Vec<String> = Vec::new();
        out.push(line);
        let r = Report { code, out, err: Vec::new() };
        assert(r@ =~= saying(code, line@));
        r
    }

    /// A report with one line for the standard error.
    pub fn warning(code: i32, line: String) -> (r: Report)
        ensures
            r@ == warning(code, line@),
    {
        let mut err: Vec<String> = Vec::new();
        err.push(line);
        let r = Report { code, out: Vec::new(), err };
        assert(r@ =~= warning(code, line@));
        r
    }
}

/// Three pieces one after the other.
pub fn text3(a: &str, b: &str, c: &str) -> (r: String)
    ensures
        r@ == a@ + b@ + c@,
{
    let mut r = String::new();
    r.append(a);
    r.append(b);
    r.append(c);
    assert(r@ =~= a@ + b@ + c@);
    r
}

/// What is said of a session by its name.
pub open spec fn about(name: Seq<char>, what: Seq<char>) -> Seq<char> {
    "hytch: session '"@ + name + what
}

/// A problem with a session, in the words of whoever reported it.
pub open spec fn problem(name: Seq<char>, text: Seq<char>) -> Seq<char> {
    "hytch: "@ + name + ": "@ + text
}

/// What is said of a session by its name.
pub fn about_line(name: &str, what: &str) -> (r: String)
    ensures
        r@ == about(name@, what@),
{
    text3("hytch: session '", name, what)
}

/// A problem with a session, in the words of whoever reported it.
pub fn problem_line(name: &str, text: &str) -> (r: String)
    ensures
        r@ == problem(name@, text@),
{
    let mut r = text3("hytch: ", name, ": ");
    r.append(text);
    r
}

/// Why a session could not be reached.
#[derive(Debug, Clone, PartialEq, Eq)]
pub enum ConnectFailure {
    /// There is no socket.
    NotFound,
    /// There is a socket and nobody listens on it.
    Refused,
    /// Anything else, in words.
    Other(String),
}

/// A [`ConnectFailure`] by its contents.
#[verifier::ext_equal]
pub enum FailureView {
    NotFound,
    Refused,
    Other(Seq<char>),
}

impl View for ConnectFailure {
    type V = FailureView;

    open spec fn view(&self) -> FailureView {
        match *self {
            ConnectFailure::NotFound => FailureView::NotFound,
            ConnectFailure::Refused => FailureView::Refused,
            ConnectFailure::Other(text) => FailureView::Other(text@),
        }
    }
}

/// What is said of a session that could not be reached.
pub open spec fn connect_error(name: Seq<char>, failure: FailureView) -> Seq<char> {
    match failure {
        FailureView::NotFound => about(name, "' does not exist"@),
        FailureView::Refused => about(name, "' is not running"@),
        FailureView::Other(text) => problem(name, text),
    }
}

/// What is said of a session that could not be reached.
pub fn connect_error_line(name: &str, failure: &ConnectFailure) -> (r: String)
    ensures
        r@ == connect_error(name@, failure@),
{
    match failure {
        ConnectFailure::NotFound => about_line(name, "' does not exist"),
        ConnectFailure::Refused => about_line(name, "' is not running"),
        ConnectFailure::Other(text) => problem_line(name, text.as_str()),
    }
}

/// A byte, with an ASCII letter in upper case.
pub open spec fn upper(b: u8) -> u8 {
    if 97 <= b <= 122 {
        (b - 32) as u8
    } else {
        b
    }
}

/// The character that the bytes of an option stand for: `^X` notation for a
/// control character, or the first byte as it is.
pub open spec fn char_spec(s: Seq<u8>) -> Option<u8> {
    if s.len() == 2 && s[0] == 94 && upper(s[1]) == 63 {
        Some(127)
    } else if s.len() == 2 && s[0] == 94 && 64 <= upper(s[1]) <= 95 {
        Some((upper(s[1]) - 64) as u8)
    } else if s.len() > 0 {
        Some(s[0])
    } else {
        None
    }
}

/// Parses a detach character as an option gives it.
pub fn parse_char_spec(s: &str) -> (r: Option<u8>)
    ensures
        r == char_spec(encode_utf8(s@)),
{
    let bytes = s.as_bytes();
    if bytes.len() == 2 && bytes[0] == 94 {
        let b: u8 = bytes[1];
        let c: u8 = if b >= 97 && b <= 122 {
            b - 32
        } else {
            b
        };
        if c == 63 {
            return Some(127);
        }
        if c >= 64 && c <= 95 {
            assert(c & 0x1f == c - 64) by (bit_vector)
                requires
                    64 <= c <= 95,
            ;
            return Some(c & 0x1f);
        }
    }
    if bytes.len() > 0 {
        Some(bytes[0])
    } else {
        None
    }
}

/// Every control character can be asked for in `^X` notation, and that
/// notation asks for nothing else.
pub proof fn law_caret_names_the_control_chars(c: u8, x: u8)
    ensures
        c < 32 ==> char_spec(seq![94u8, (c + 64) as u8]) == Some(c),
        char_spec(seq![94u8, 63u8]) == Some(127u8),
        char_spec(seq![94u8, x]) matches Some(b) && (b < 32 || b == 127 || b == 94),
{
}

/// What a wait does next.
#[derive(Debug, Clone, Copy, PartialEq, Eq, Structural)]
pub enum WaitStep {
    /// What was waited for is there.
    Over,
    /// Look again after so many milliseconds.
    Sleep(u64),
    /// Time is up.
    TimedOut,
}

/// Waits for a session's socket to go away.
pub fn wait_gone(elapsed_ms: u64, timeout_ms: u64, socket_exists: bool) -> (step: WaitStep)
    ensures
        step == (if !socket_exists {
            WaitStep::Over
        } else if elapsed_ms < timeout_ms {
            WaitStep::Sleep(GONE_POLL_MS)
        } else {
            WaitStep::TimedOut
        }),
{
    if !socket_exists {
        WaitStep::Over
    } else if elapsed_ms < timeout_ms {
        WaitStep::Sleep(GONE_POLL_MS)
    } else {
        WaitStep::TimedOut
    }
}

/// The frame that asks a daemon to signal its program.
pub fn kill_frame(signal: u8) -> (send: BytesMut)
    ensures
        buf_seq(send) == frame(MessageView::Kill { signal }),
{
    let mut codec = MessageCodec::default();
    let mut send = BytesMut::new();
    let _ = codec.encode(Message::Kill { signal }, &mut send);
    assert(Seq::<u8>::empty() + frame(MessageView::Kill { signal }) =~= frame(
        MessageView::Kill { signal },
    ));
    send
}

/// How far a kill has come: what it waits for.
#[derive(Debug, Clone, Copy, PartialEq, Eq, Structural)]
pub enum KillStage {
    Asking,
    Waiting,
    Forcing,
    WaitingForced,
    Over,
}

/// What came of a kill's last action.
#[derive(Debug, Clone, PartialEq, Eq)]
pub enum KillEvent {
    /// The request was sent.
    Sent,
    /// The request could not be sent.
    SendFailed(ConnectFailure),
    /// The session ended.
    Gone,
    /// The session did not end in time.
    StillThere,
}

/// What a kill does next.
#[derive(Debug, Clone, PartialEq, Eq)]
pub enum KillAction {
    /// Send this signal to the session.
    Send { signal: u8 },
    /// Wait so long for the session to end.
    AwaitGone { timeout_ms: u64 },
    /// Stop.
    Finish(Report),
}

/// A [`KillAction`] by its contents.
#[verifier::ext_equal]
pub enum KillActionView {
    Send { signal: u8 },
    AwaitGone { timeout_ms: u64 },
    Finish(ReportView),
}

impl View for KillAction {
    type V = KillActionView;

    open spec fn view(&self) -> KillActionView {
        match *self {
            KillAction::Send { signal } => KillActionView::Send { signal },
            KillAction::AwaitGone { timeout_ms } => KillActionView::AwaitGone { timeout_ms },
            KillAction::Finish(report) => KillActionView::Finish(report@),
        }
    }
}

/// A [`Kill`] by its contents.
#[verifier::ext_equal]
pub struct KillView {
    pub name: Seq<char>,
    pub force: bool,
    pub quiet: bool,
    pub stage: KillStage,
}

/// Stops a session: asks it to terminate, and kills it where it has not ended
/// after a grace period. With `force` it is killed at once.
pub struct Kill {
    name: String,
    force: bool,
    quiet: bool,
    stage: KillStage,
}

impl View for Kill {
    type V = KillView;

    closed spec fn view(&self) -> KillView {
        KillView { name: self.name@, force: self.force, quiet: self.quiet, stage: self.stage }
    }
}

/// Whether the event can follow the action of this stage.
pub open spec fn kill_awaits(stage: KillStage, event: KillEvent) -> bool {
    match stage {
        KillStage::Asking | KillStage::Forcing => event is Sent || event is SendFailed,
        KillStage::Waiting | KillStage::WaitingForced => event is Gone || event is StillThere,
        KillStage::Over => false,
    }
}

/// A success that is only announced where something is to be said.
pub open spec fn announced(quiet: bool, line: Seq<char>) -> ReportView {
    if quiet {
        silent(0)
    } else {
        saying(0, line)
    }
}

/// The next stage of a kill, and what is done.
pub open spec fn kill_step(k: KillView, event: KillEvent) -> (KillStage, KillActionView) {
    match k.stage {
        KillStage::Asking => match event {
            KillEvent::SendFailed(failure) => (
                KillStage::Over,
                KillActionView::Finish(saying(1, connect_error(k.name, failure@))),
            ),
            _ => (
                KillStage::Waiting,
                KillActionView::AwaitGone {
                    timeout_ms: if k.force {
                        KILL_GRACE_MS
                    } else {
                        TERM_GRACE_MS
                    },
                },
            ),
        },
        KillStage::Waiting => if event is Gone {
            (
                KillStage::Over,
                KillActionView::Finish(announced(k.quiet, about(k.name, "' stopped"@))),
            )
        } else if k.force {
            (
                KillStage::Over,
                KillActionView::Finish(saying(1, about(k.name, "' did not stop"@))),
            )
        } else {
            (KillStage::Forcing, KillActionView::Send { signal: 9 })
        },
        KillStage::Forcing => (
            KillStage::WaitingForced,
            KillActionView::AwaitGone { timeout_ms: KILL_GRACE_MS },
        ),
        _ => (
            KillStage::Over,
            KillActionView::Finish(
                if event is Gone {
                    announced(k.quiet, about(k.name, "' killed"@))
                } else {
                    saying(1, about(k.name, "' did not stop"@))
                },
            ),
        ),
    }
}

impl Kill {
    /// Starts with the first signal.
    pub fn new(name: &str, force: bool, quiet: bool) -> (r: (Kill, KillAction))
        ensures
            r.0@ == (KillView { name: name@, force, quiet, stage: KillStage::Asking }),
            r.1@ == (KillActionView::Send { signal: if force { 9 } else { 15 } }),
    {
        let signal: u8 = if force {
            9
        } else {
            15
        };
        let kill = Kill { name: name.to_owned(), force, quiet, stage: KillStage::Asking };
        (kill, KillAction::Send { signal })
    }

    /// Takes what came of the last action and gives the next one.
    pub fn step(&mut self, event: KillEvent) -> (action: KillAction)
        requires
            kill_awaits(old(self)@.stage, event),
        ensures
            final(self)@ == (KillView {
                stage: kill_step(old(self)@, event).0,
                ..old(self)@
            }),
            action@ == kill_step(old(self)@, event).1,
    {
        match self.stage {
            KillStage::Asking => {
                match event {
                    KillEvent::SendFailed(failure) => {
                        self.stage = KillStage::Over;
                        let line = connect_error_line(self.name.as_str(), &failure);
                        KillAction::Finish(Report::saying(1, line))
                    },
                    _ => {
                        self.stage = KillStage::Waiting;
                        let timeout_ms: u64 = if self.force {
                            KILL_GRACE_MS
                        } else {
                            TERM_GRACE_MS
                        };
                        KillAction::AwaitGone { timeout_ms }
                    },
                }
            },
            KillStage::Waiting => {
                if matches!(event, KillEvent::Gone) {
                    self.stage = KillStage::Over;
                    KillAction::Finish(self.ended("' stopped"))
                } else if self.force {
                    self.stage = KillStage::Over;
                    let line = about_line(self.name.as_str(), "' did not stop");
                    KillAction::Finish(Report::saying(1, line))
                } else {
                    self.stage = KillStage::Forcing;
                    KillAction::Send { signal: 9 }
                }
            },
            KillStage::Forcing => {
                self.stage = KillStage::WaitingForced;
                KillAction::AwaitGone { timeout_ms: KILL_GRACE_MS }
            },
            _ => {
                self.stage = KillStage::Over;
                if matches!(event, KillEvent::Gone) {
                    KillAction::Finish(self.ended("' killed"))
                } else {
                    let line = about_line(self.name.as_str(), "' did not stop");
                    KillAction::Finish(Report::saying(1, line))
                }
            },
        }
    }

    /// The report of a session that ended.
    fn ended(&self, how: &str) -> (r: Report)
        ensures
            r@ == announced(self@.quiet, about(self@.name, how@)),
    {
        if self.quiet {
            Report::silent(0)
        } else {
            Report::saying(0, about_line(self.name.as_str(), how))
        }
    }
}

/// A kill succeeds exactly when the session is gone. It fails only where the
/// session could not be reached or outlived every signal.
pub proof fn law_kill_succeeds_exactly_when_gone(k: KillView, event: KillEvent)
    requires
        kill_awaits(k.stage, event),
    ensures
        event is Gone ==> kill_step(k, event).1 is Finish,
        kill_step(k, event).1 matches KillActionView::Finish(report) ==> (report.code == 0
            <==> event is Gone),
{
}

/// How many actions of a kill can still follow.
pub open spec fn kill_rank(stage: KillStage) -> nat {
    match stage {
        KillStage::Asking => 4,
        KillStage::Waiting => 3,
        KillStage::Forcing => 2,
        KillStage::WaitingForced => 1,
        KillStage::Over => 0,
    }
}

/// A kill comes to an end, escalates at most once, and does not escalate where
/// it was forced from the start.
pub proof fn law_kill_ends_and_escalates_once(k: KillView, event: KillEvent)
    requires
        kill_awaits(k.stage, event),
    ensures
        kill_rank(kill_step(k, event).0) < kill_rank(k.stage),
        kill_step(k, event).0 is Over <==> kill_step(k, event).1 is Finish,
        kill_step(k, event).1 is Send ==> !k.force && k.stage is Waiting && kill_step(k, event).1
            == (KillActionView::Send { signal: 9 }),
{
}

/// Something that happened to a push.
pub enum PushEvent<'a> {
    /// The session could not be reached.
    ConnectFailed(ConnectFailure),
    /// These bytes were read; none at the end of the input.
    Read(&'a [u8]),
    /// The input could not be read, in words.
    ReadFailed(&'a str),
    /// A frame could not be sent.
    SendFailed,
}

/// What a push does next.
pub enum PushAction {
    /// Send these bytes to the session, then read on.
    Send(BytesMut),
    /// Stop.
    Finish(Report),
}

/// A [`PushAction`] by its contents.
#[verifier::ext_equal]
pub enum PushActionView {
    Send(Seq<u8>),
    Finish(ReportView),
}

impl View for PushAction {
    type V = PushActionView;

    open spec fn view(&self) -> PushActionView {
        match *self {
            PushAction::Send(bytes) => PushActionView::Send(buf_seq(bytes)),
            PushAction::Finish(report) => PushActionView::Finish(report@),
        }
    }
}

/// What a push does on an event.
pub open spec fn push_step(name: Seq<char>, event: PushEvent) -> PushActionView {
    match event {
        PushEvent::ConnectFailed(failure) => PushActionView::Finish(
            saying(1, connect_error(name, failure@)),
        ),
        PushEvent::Read(data) => if data@.len() == 0 {
            PushActionView::Finish(silent(0))
        } else {
            PushActionView::Send(frame(MessageView::Push(data@)))
        },
        PushEvent::ReadFailed(text) => PushActionView::Finish(warning(1, problem(name, text@))),
        PushEvent::SendFailed => PushActionView::Finish(
            warning(1, problem(name, "connection to session lost mid-push"@)),
        ),
    }
}

/// Copies input verbatim to a session: what is done on an event.
pub fn push(name: &str, event: PushEvent<'_>) -> (action: PushAction)
    requires
        event matches PushEvent::Read(data) ==> data@.len() + HEADER_LEN <= isize::MAX,
    ensures
        action@ == push_step(name@, event),
{
    match event {
        PushEvent::ConnectFailed(failure) => {
            PushAction::Finish(Report::saying(1, connect_error_line(name, &failure)))
        },
        PushEvent::Read(data) => {
            if data.len() == 0 {
                return PushAction::Finish(Report::silent(0));
            }
            let mut codec = MessageCodec::default();
            let mut send = BytesMut::new();
            let _ = codec.encode(Message::Push(Bytes::copy_from_slice(data)), &mut send);
            assert(Seq::<u8>::empty() + frame(MessageView::Push(data@)) =~= frame(
                MessageView::Push(data@),
            ));
            PushAction::Send(send)
        },
        PushEvent::ReadFailed(text) => {
            PushAction::Finish(Report::warning(1, problem_line(name, text)))
        },
        PushEvent::SendFailed => {
            let line = problem_line(name, "connection to session lost mid-push");
            PushAction::Finish(Report::warning(1, line))
        },
    }
}

/// One push message for each chunk of input.
pub open spec fn pushes(chunks: Seq<Seq<u8>>) -> Seq<MessageView> {
    chunks.map_values(|c: Seq<u8>| MessageView::Push(c))
}

proof fn lemma_input_of_pushes(chunks: Seq<Seq<u8>>)
    ensures
        input_of(pushes(chunks)) == concat(chunks),
    decreases chunks.len(),
{
    let ms = pushes(chunks);
    if chunks.len() > 0 {
        let init = chunks.drop_last();
        lemma_input_of_pushes(init);
        assert(ms.drop_last() =~= pushes(init));
        lemma_concat_push(init, chunks.last());
        assert(init.push(chunks.last()) =~= chunks);
    } else {
        assert(input_of(ms) =~= concat(chunks));
    }
}

/// A push of any size arrives whole: cut into chunks of at most
/// [`PUSH_CHUNK_SIZE`] bytes, every frame is accepted by the daemon, and the
/// input that it takes from them is the input that was read, byte for byte.
pub proof fn law_push_arrives_verbatim(chunks: Seq<Seq<u8>>)
    requires
        forall|i: int| 0 <= i < chunks.len() ==> (#[trigger] chunks[i]).len() <= PUSH_CHUNK_SIZE,
    ensures
        decoded_all(stream(pushes(chunks)), DEFAULT_MAX_FRAME_LEN) == (
            pushes(chunks),
            Seq::<u8>::empty(),
        ),
        input_of(pushes(chunks)) == concat(chunks),
{
    let ms = pushes(chunks);
    assert forall|i: int| 0 <= i < ms.len() implies fits(#[trigger] ms[i], DEFAULT_MAX_FRAME_LEN) by {
        assert(chunks[i].len() <= PUSH_CHUNK_SIZE);
    }
    let next = MessageView::Detach;
    law_stream_of_frames(ms, next, 0, DEFAULT_MAX_FRAME_LEN);
    assert(frame(next).take(0) =~= Seq::<u8>::empty());
    assert(stream(ms) + frame(next).take(0) =~= stream(ms));
    lemma_input_of_pushes(chunks);
}

/// What came of opening a log to clear it.
#[derive(Debug, Clone, PartialEq, Eq)]
pub enum ClearOutcome {
    /// It was opened, and cut to nothing.
    Cleared,
    /// There is no log.
    Missing,
    /// It could not be opened, in words.
    Failed(String),
}

/// What clearing a log leaves: that there is nothing to clear is no error.
pub fn clear(name: &str, quiet: bool, outcome: ClearOutcome) -> (r: Report)
    ensures
        r@ == (match outcome {
            ClearOutcome::Failed(text) => if quiet {
                silent(1)
            } else {
                warning(1, problem(name@, text@))
            },
            _ => silent(0),
        }),
{
    match outcome {
        ClearOutcome::Failed(text) => {
            if quiet {
                Report::silent(1)
            } else {
                Report::warning(1, problem_line(name, text.as_str()))
            }
        },
        _ => Report::silent(0),
    }
}

/// What a removal does.
#[derive(Debug, Clone, PartialEq, Eq)]
pub struct RmPlan {
    /// Remove the socket and the log, whichever there are.
    pub remove: bool,
    pub report: Report,
}

/// What is said of the removal of a session that runs.
pub open spec fn rm_refusal(name: Seq<char>) -> Seq<char> {
    about(name, "' is running (use 'hytch kill "@) + name + "' first)"@
}

/// Removes a session's socket and log, unless a daemon listens on the socket.
pub fn rm(name: &str, quiet: bool, running: bool, had_socket: bool, had_log: bool) -> (plan: RmPlan)
    ensures
        plan.remove == !running,
        plan.report@ == (if running {
            saying(1, rm_refusal(name@))
        } else if !had_socket && !had_log {
            saying(1, about(name@, "' does not exist"@))
        } else {
            announced(quiet, about(name@, "' removed"@))
        }),
{
    if running {
        let mut line = about_line(name, "' is running (use 'hytch kill ");
        line.append(name);
        line.append("' first)");
        return RmPlan { remove: false, report: Report::saying(1, line) };
    }
    if !had_socket && !had_log {
        let line = about_line(name, "' does not exist");
        return RmPlan { remove: true, report: Report::saying(1, line) };
    }
    if quiet {
        RmPlan { remove: true, report: Report::silent(0) }
    } else {
        RmPlan { remove: true, report: Report::saying(0, about_line(name, "' removed")) }
    }
}

/// The name of the session that this process runs in, given its ancestry
/// chain; outside of one, nothing but a failure.
pub fn current(chain: Option<&str>) -> (r: Report)
    ensures
        r@ == (match opt_view(chain) {
            Some(c) => if c.len() > 0 {
                saying(0, short_name_of(c))
            } else {
                silent(1)
            },
            None => silent(1),
        }),
{
    match chain {
        Some(c) => {
            if c.unicode_len() > 0 {
                Report::saying(0, short_name(c))
            } else {
                Report::silent(1)
            }
        },
        None => Report::silent(1),
    }
}

/// What is said of a session that was started, if anything.
pub fn started(name: &str, quiet: bool) -> (r: Report)
    ensures
        r@ == announced(quiet, about(name@, "' started"@)),
{
    if quiet {
        Report::silent(0)
    } else {
        Report::saying(0, about_line(name, "' started"))
    }
}

/// What a session could not be reached for, in words that name it.
pub proof fn law_connect_errors_name_the_session(
    name: &str,
    failure: &ConnectFailure,
    line: String,
)
    requires
        call_ensures(connect_error_line, (name, failure), line),
    ensures
        match *failure {
            ConnectFailure::NotFound => line@ == "hytch: session '"@ + name@ + "' does not exist"@,
            ConnectFailure::Refused => line@ == "hytch: session '"@ + name@ + "' is not running"@,
            ConnectFailure::Other(text) => line@ == "hytch: "@ + name@ + ": "@ + text@,
        },
{
}

/// A kill starts with the signal that was asked for, whatever else it was told,
/// and every step that it takes is the next one of its course.
pub proof fn law_kill_takes_the_steps_of_its_course(
    name: &str,
    force: bool,
    quiet: bool,
    begun: (Kill, KillAction),
    kill: &mut Kill,
    event: KillEvent,
    action: KillAction,
)
    requires
        call_ensures(Kill::new, (name, force, quiet), begun),
        call_ensures(Kill::step, (kill, event), action),
    ensures
        begun.0@ == (KillView { name: name@, force, quiet, stage: KillStage::Asking }),
        begun.1 == (KillAction::Send { signal: if force { 9u8 } else { 15u8 } }),
        final(kill)@ == (KillView { stage: kill_step(old(kill)@, event).0, ..old(kill)@ }),
        match action {
            KillAction::Send { signal } => kill_step(old(kill)@, event).1
                == (KillActionView::Send { signal }),
            KillAction::AwaitGone { timeout_ms } => kill_step(old(kill)@, event).1
                == (KillActionView::AwaitGone { timeout_ms }),
            KillAction::Finish(report) => kill_step(old(kill)@, event).1 == KillActionView::Finish(
                report@,
            ),
        },
{
}

/// The whole course of a kill. A session that cannot be reached is reported.
/// One that was asked has five seconds, one that is killed at once has two, and
/// one that ends is reported as stopped. One that is still there after it was
/// asked is killed, has two seconds more, whether or not it could be told, and
/// is reported as killed; one that outlives that, or a forced kill, is reported
/// as not stopped. Success is silent where nothing is to be said; failure is
/// never.
pub proof fn law_course_of_a_kill(
    name: Seq<char>,
    force: bool,
    quiet: bool,
    failure: ConnectFailure,
)
    ensures
        ({
            let asked = KillView { name, force, quiet, stage: KillStage::Asking };
            let subject = "hytch: session '"@ + name;
            let stopped = ReportView {
                code: 0,
                out: if quiet { Seq::empty() } else { seq![subject + "' stopped"@] },
                err: Seq::empty(),
            };
            let killed = ReportView {
                code: 0,
                out: if quiet { Seq::empty() } else { seq![subject + "' killed"@] },
                err: Seq::empty(),
            };
            let defeated = ReportView {
                code: 1,
                out: seq![subject + "' did not stop"@],
                err: Seq::empty(),
            };
            let unreached = ReportView {
                code: 1,
                out: seq![
                    match failure {
                        ConnectFailure::NotFound => subject + "' does not exist"@,
                        ConnectFailure::Refused => subject + "' is not running"@,
                        ConnectFailure::Other(text) => "hytch: "@ + name + ": "@ + text@,
                    },
                ],
                err: Seq::empty(),
            };
            let (s1, a1) = kill_step(asked, KillEvent::Sent);
            let waiting = KillView { stage: s1, ..asked };
            let (s2, a2) = kill_step(waiting, KillEvent::StillThere);
            let forcing = KillView { stage: s2, ..asked };
            let (s3, a3) = kill_step(forcing, KillEvent::Sent);
            let (s4, a4) = kill_step(forcing, KillEvent::SendFailed(failure));
            let last = KillView { stage: s3, ..asked };
            &&& kill_step(asked, KillEvent::SendFailed(failure)).1 == KillActionView::Finish(
                unreached,
            )
            &&& a1 == (KillActionView::AwaitGone { timeout_ms: if force { 2000 } else { 5000 } })
            &&& kill_step(waiting, KillEvent::Gone).1 == KillActionView::Finish(stopped)
            &&& force ==> a2 == KillActionView::Finish(defeated)
            &&& !force ==> {
                &&& a2 == (KillActionView::Send { signal: 9 })
                &&& a3 == (KillActionView::AwaitGone { timeout_ms: 2000 })
                &&& (s4, a4) == (s3, a3)
                &&& kill_step(last, KillEvent::Gone).1 == KillActionView::Finish(killed)
                &&& kill_step(last, KillEvent::StillThere).1 == KillActionView::Finish(defeated)
            }
        }),
{
}

/// The request that a kill sends arrives at the daemon as a kill with that
/// signal, and nothing is left over.
pub proof fn law_kill_frame_arrives(signal: u8, send: BytesMut)
    requires
        call_ensures(kill_frame, (signal,), send),
    ensures
        decoded_all(buf_seq(send), DEFAULT_MAX_FRAME_LEN) == (
            seq![MessageView::Kill { signal }],
            Seq::<u8>::empty(),
        ),
{
    let m = MessageView::Kill { signal };
    lemma_one_frame(m);
}

/// The daemon decodes one frame as its message, and nothing is left over.
proof fn lemma_one_frame(m: MessageView)
    requires
        fits(m, DEFAULT_MAX_FRAME_LEN),
    ensures
        decoded_all(frame(m), DEFAULT_MAX_FRAME_LEN) == (seq![m], Seq::<u8>::empty()),
{
    let ms = seq![m];
    let next = MessageView::Detach;
    law_stream_of_frames(ms, next, 0, DEFAULT_MAX_FRAME_LEN);
    assert(frame(next).take(0) =~= Seq::<u8>::empty());
    reveal_with_fuel(stream, 2);
    assert(ms.drop_first() =~= Seq::<MessageView>::empty());
    assert(stream(ms) + frame(next).take(0) =~= frame(m));
}

/// A wait for the end of a session is over exactly when the socket is gone,
/// even at the last look. Before its time it looks again after a tenth of a
/// second, and it gives up only when its time has come.
pub proof fn law_wait_is_over_when_the_socket_is_gone(
    elapsed_ms: u64,
    timeout_ms: u64,
    socket_exists: bool,
    step: WaitStep,
)
    requires
        call_ensures(wait_gone, (elapsed_ms, timeout_ms, socket_exists), step),
    ensures
        step is Over <==> !socket_exists,
        step is TimedOut <==> socket_exists && elapsed_ms >= timeout_ms,
        step matches WaitStep::Sleep(ms) ==> ms == 100,
{
}

/// The contents of what was read.
pub open spec fn contents(reads: Seq<&[u8]>) -> Seq<Seq<u8>> {
    reads.map_values(|r: &[u8]| r@)
}

/// The bytes that a push sends for what it reads, in order.
pub open spec fn sent_for(name: Seq<char>, reads: Seq<&[u8]>) -> Seq<u8>
    decreases reads.len(),
{
    if reads.len() == 0 {
        Seq::empty()
    } else {
        match push_step(name, PushEvent::Read(reads[0])) {
            PushActionView::Send(bytes) => bytes + sent_for(name, reads.drop_first()),
            PushActionView::Finish(_) => Seq::empty(),
        }
    }
}

/// A push copies its input verbatim: whatever it reads, in whatever pieces, the
/// input that the daemon decodes from what it sends is what was read, byte for
/// byte, and nothing is left over.
pub proof fn law_push_copies_its_input_verbatim(name: Seq<char>, reads: Seq<&[u8]>)
    requires
        forall|i: int|
            0 <= i < reads.len() ==> 0 < (#[trigger] reads[i])@.len() <= PUSH_CHUNK_SIZE,
    ensures
        input_of(decoded_all(sent_for(name, reads), DEFAULT_MAX_FRAME_LEN).0) == concat(
            contents(reads),
        ),
        decoded_all(sent_for(name, reads), DEFAULT_MAX_FRAME_LEN).0.len() == reads.len(),
        decoded_all(sent_for(name, reads), DEFAULT_MAX_FRAME_LEN).1.len() == 0,
{
    let chunks = contents(reads);
    assert forall|i: int| 0 <= i < chunks.len() implies (#[trigger] chunks[i]).len()
        <= PUSH_CHUNK_SIZE by {
        assert(chunks[i] == reads[i]@);
    }
    lemma_sent_for(name, reads);
    law_push_arrives_verbatim(chunks);
}

proof fn lemma_sent_for(name: Seq<char>, reads: Seq<&[u8]>)
    requires
        forall|i: int| 0 <= i < reads.len() ==> 0 < (#[trigger] reads[i])@.len(),
    ensures
        sent_for(name, reads) == stream(pushes(contents(reads))),
    decreases reads.len(),
{
    let ms = pushes(contents(reads));
    if reads.len() > 0 {
        let rest = reads.drop_first();
        assert forall|i: int| 0 <= i < rest.len() implies 0 < (#[trigger] rest[i])@.len() by {
            assert(rest[i] == reads[i + 1]);
        }
        lemma_sent_for(name, rest);
        assert(ms.drop_first() =~= pushes(contents(rest)));
        assert(ms[0] == MessageView::Push(reads[0]@));
    }
}

/// What one read of a push comes to. Bytes arrive at the daemon as one push of
/// exactly those bytes. The end of the input ends the push with success, and
/// silently.
pub proof fn law_each_read_is_pushed_as_it_is(name: &str, data: &[u8], action: PushAction)
    requires
        call_ensures(push, (name, PushEvent::Read(data)), action),
        data@.len() <= DEFAULT_MAX_FRAME_LEN,
    ensures
        action is Send <==> data@.len() > 0,
        action matches PushAction::Send(bytes) ==> decoded_all(
            buf_seq(bytes),
            DEFAULT_MAX_FRAME_LEN,
        ) == (seq![MessageView::Push(data@)], Seq::<u8>::empty()),
        action matches PushAction::Finish(report) ==> report.code == 0 && report.out@.len() == 0
            && report.err@.len() == 0,
{
    let m = MessageView::Push(data@);
    lemma_one_frame(m);
    match action {
        PushAction::Finish(report) => {
            assert(report@.out.len() == report.out@.len());
            assert(report@.err.len() == report.err@.len());
        },
        _ => {},
    }
}

/// A push that cannot go on fails, and says why: on the standard output where
/// there is no session, else on the standard error.
pub proof fn law_failed_pushes_are_reported(name: &str, event: PushEvent, action: PushAction)
    requires
        call_ensures(push, (name, event), action),
        !(event is Read),
    ensures
        action matches PushAction::Finish(report) && report@ == (match event {
            PushEvent::ConnectFailed(ConnectFailure::NotFound) => ReportView {
                code: 1,
                out: seq!["hytch: session '"@ + name@ + "' does not exist"@],
                err: Seq::empty(),
            },
            PushEvent::ConnectFailed(ConnectFailure::Refused) => ReportView {
                code: 1,
                out: seq!["hytch: session '"@ + name@ + "' is not running"@],
                err: Seq::empty(),
            },
            PushEvent::ConnectFailed(ConnectFailure::Other(text)) => ReportView {
                code: 1,
                out: seq!["hytch: "@ + name@ + ": "@ + text@],
                err: Seq::empty(),
            },
            PushEvent::ReadFailed(text) => ReportView {
                code: 1,
                out: Seq::empty(),
                err: seq!["hytch: "@ + name@ + ": "@ + text@],
            },
            _ => ReportView {
                code: 1,
                out: Seq::empty(),
                err: seq!["hytch: "@ + name@ + ": "@ + "connection to session lost mid-push"@],
            },
        }),
{
}

/// Clearing fails only where the log could not be opened, and then says why
/// unless it is to be quiet. A log that is missing is as good as cleared.
pub proof fn law_clear_fails_only_where_the_log_could_not_be_opened(
    name: &str,
    quiet: bool,
    outcome: ClearOutcome,
    r: Report,
)
    requires
        call_ensures(clear, (name, quiet, outcome), r),
    ensures
        r.code == if outcome is Failed { 1i32 } else { 0i32 },
        r@.out.len() == 0,
        r@.err == (match outcome {
            ClearOutcome::Failed(text) => if quiet {
                Seq::empty()
            } else {
                seq!["hytch: "@ + name@ + ": "@ + text@]
            },
            _ => Seq::empty(),
        }),
{
}

/// A removal never touches a session that runs, and says how to stop it. Any
/// other is removed, and it fails only where there was nothing to remove.
pub proof fn law_rm_spares_what_runs(
    name: &str,
    quiet: bool,
    running: bool,
    had_socket: bool,
    had_log: bool,
    plan: RmPlan,
)
    requires
        call_ensures(rm, (name, quiet, running, had_socket, had_log), plan),
    ensures
        plan.remove <==> !running,
        plan.report.code == 0 <==> !running && (had_socket || had_log),
        plan.report.code == 0 || plan.report.code == 1,
        plan.report@.err.len() == 0,
        plan.report@.out == (if running {
            seq![
                "hytch: session '"@ + name@ + "' is running (use 'hytch kill "@ + name@
                    + "' first)"@,
            ]
        } else if !had_socket && !had_log {
            seq!["hytch: session '"@ + name@ + "' does not exist"@]
        } else if quiet {
            Seq::empty()
        } else {
            seq!["hytch: session '"@ + name@ + "' removed"@]
        }),
{
}

/// Inside a session its short name is printed, in the words of
/// [`short_name`]; outside of one there is nothing but a failure.
pub proof fn law_current_names_the_session(chain: &str, r: Report, none: Report, name: String)
    requires
        call_ensures(current, (Some(chain),), r),
        call_ensures(current, (None::<&str>,), none),
        call_ensures(short_name, (chain,), name),
    ensures
        none@ == (ReportView { code: 1, out: Seq::empty(), err: Seq::empty() }),
        chain@.len() == 0 ==> r@ == none@,
        chain@.len() > 0 ==> r@ == (ReportView { code: 0, out: seq![name@], err: Seq::empty() }),
{
}

/// A start is announced with the session's name, unless it is to be quiet, and
/// is a success either way.
pub proof fn law_start_is_announced(name: &str, quiet: bool, r: Report)
    requires
        call_ensures(started, (name, quiet), r),
    ensures
        r.code == 0,
        r@.err.len() == 0,
        r@.out == if quiet {
            Seq::empty()
        } else {
            seq!["hytch: session '"@ + name@ + "' started"@]
        },
{
}

/// The character that an option stands for: a caret and a letter in either
/// case, or another character from `@` to `_`, is the control character; a
/// caret and a question mark is delete; anything else is its first byte, and
/// nothing is none.
pub proof fn law_char_options_are_read(spec: &str, c: Option<u8>)
    requires
        call_ensures(parse_char_spec, (spec,), c),
    ensures
        ({
            let s = encode_utf8(spec@);
            &&& s.len() == 0 ==> c is None
            &&& s.len() > 0 && !(s.len() == 2 && s[0] == 94) ==> c == Some(s[0])
            &&& s.len() == 2 && s[0] == 94 ==> {
                &&& c is Some
                &&& 97 <= s[1] <= 122 ==> c->0 == s[1] - 96
                &&& 64 <= s[1] <= 95 ==> c->0 == s[1] - 64
                &&& s[1] == 63 ==> c->0 == 127
                &&& s[1] < 63 || s[1] == 96 || s[1] > 122 ==> c->0 == 94
            }
        }),
{
}

/// A report has the code that it is given, and prints its one line to the one
/// place that it is for.
pub proof fn law_reports_print_their_line(
    code: i32,
    line: String,
    quiet: Report,
    said: Report,
    warned: Report,
)
    requires
        call_ensures(Report::silent, (code,), quiet),
        call_ensures(Report::saying, (code, line), said),
        call_ensures(Report::warning, (code, line), warned),
    ensures
        quiet.code == code && quiet.out@.len() == 0 && quiet.err@.len() == 0,
        said.code == code && said.out@.len() == 1 && said.out@[0]@ == line@ && said.err@.len() == 0,
        warned.code == code && warned.out@.len() == 0 && warned.err@.len() == 1 && warned.err@[0]@
            == line@,
{
    assert(views(quiet.out@).len() == quiet.out@.len() && views(quiet.err@).len()
        == quiet.err@.len());
    assert(views(said.out@).len() == said.out@.len() && views(said.err@).len() == said.err@.len());
    assert(views(warned.out@).len() == warned.out@.len() && views(warned.err@).len()
        == warned.err@.len());
    assert(said.out@.len() == 1 ==> views(said.out@)[0] == said.out@[0]@);
    assert(warned.err@.len() == 1 ==> views(warned.err@)[0] == warned.err@[0]@);
}

/// A line begins with the program's name, and holds what it is given as it is.
pub proof fn law_lines_hold_what_they_are_given(
    name: &str,
    text: &str,
    more: &str,
    put: String,
    said: String,
    reported: String,
)
    requires
        call_ensures(text3, (name, text, more), put),
        call_ensures(about_line, (name, text), said),
        call_ensures(problem_line, (name, text), reported),
    ensures
        put@ == name@ + text@ + more@,
        said@ == "hytch: session '"@ + name@ + text@,
        reported@ == "hytch: "@ + name@ + ": "@ + text@,
{
}

/// Input is read in chunks of 32 KiB, each of which the daemon takes as one
/// frame.
pub proof fn law_chunk_fits_in_a_frame(data: Seq<u8>)
    requires
        data.len() <= PUSH_CHUNK_SIZE,
    ensures
        PUSH_CHUNK_SIZE == 32 * 1024,
        payload(MessageView::Push(data)).len() <= DEFAULT_MAX_FRAME_LEN,
{
}

} // verus!
