//! The decisions of the daemon: what it does on each event of its loop, and
//! what it does for each client.
//!
//! One task owns the pty and serializes everything that is done to it. Clients
//! hand it commands on two lanes: resizes and signals on the control lane,
//! input for the program on the push lane ([`PtyCommand::lane`]). Of what is
//! ready, [`next_source`] takes control commands first and pushes last, and
//! [`on_event`] gives a push [`PTY_WRITE_TIMEOUT_MS`] and everything else no
//! limit, since nothing else waits for the program. So a kill is behind one
//! push at most, however many pile up.

use crate::age::{age_text, format_age};
use crate::buffers::bytes_seq;
use crate::codec::{
    decoded_all, fits, frame, law_stream_of_frames, stream, DEFAULT_MAX_FRAME_LEN,
};
use crate::fanout::Fanout;
use crate::message::{Message, MessageView, RedrawMethod};
use crate::ring_buffer::{concat, lemma_concat_push, tail};
use crate::session::{ancestors, extend_ancestry, extended, law_extended_chain_guards, opt_view};
use crate::session_log::{
    after_all, countable, in_step, law_log_is_the_tail_of_everything, FileModel, LogView,
};
use bytes::Bytes;
use tokio::sync::broadcast;
use vstd::prelude::*;
use vstd::string::*;

verus! {

/// How many chunks of output a client may fall behind before it is
/// disconnected: the backlog of a [`Fanout`] that is made with it.
pub const BROADCAST_CAPACITY: usize = 1024;

/// How many commands wait on a lane before a client is held back.
pub const COMMAND_QUEUE: usize = 256;

/// The most bytes that are read from the pty at once.
pub const READ_SIZE: usize = 4096;

/// How long a push may block the daemon's loop before it is given up.
pub const PTY_WRITE_TIMEOUT_MS: u64 = 250;

/// The number of the signal that asks a program to terminate.
pub const SIGTERM: i32 = 15;

/// What a daemon runs, and where.
#[derive(Debug, Clone)]
pub struct DaemonConfig {
    pub socket_path: String,
    /// `None` disables the on-disk log.
    pub log_path: Option<String>,
    pub log_max_size: u64,
    /// Must be a power of two.
    pub scrollback_size: usize,
    pub program: String,
    pub args: Vec<String>,
    pub initial_rows: u16,
    pub initial_cols: u16,
}

/// Why the daemon loop stopped.
#[derive(Debug, Clone, Copy, PartialEq, Eq)]
pub enum ShutdownReason {
    /// The child process exited on its own, with this code where it had one.
    ChildExited(Option<i32>),
    /// The daemon process itself was asked to stop. It cleans up its socket
    /// but does not kill the child: that is what a kill message is for.
    DaemonSignaled,
}

/// Something that a client wants done to the pty.
#[derive(Debug, Clone, PartialEq, Eq)]
pub enum PtyCommand {
    /// Input for the program.
    Push(Bytes),
    /// The window has this many rows and columns.
    Resize(u16, u16),
    /// A signal for the program's process group, by its number.
    Signal(i32),
}

/// A [`PtyCommand`] by its contents.
#[verifier::ext_equal]
pub enum CommandView {
    Push(Seq<u8>),
    Resize(u16, u16),
    Signal(i32),
}

impl View for PtyCommand {
    type V = CommandView;

    open spec fn view(&self) -> CommandView {
        match *self {
            PtyCommand::Push(data) => CommandView::Push(bytes_seq(data)),
            PtyCommand::Resize(rows, cols) => CommandView::Resize(rows, cols),
            PtyCommand::Signal(signal) => CommandView::Signal(signal),
        }
    }
}

/// The queue that a command waits in.
#[derive(Debug, Clone, Copy, PartialEq, Eq, Structural)]
pub enum Lane {
    /// Served before anything else.
    Control,
    /// Served when nothing else is to be done.
    Push,
}

impl PtyCommand {
    /// The lane that the command belongs to.
    pub fn lane(&self) -> (lane: Lane)
        ensures
            lane == (if self@ is Push { Lane::Push } else { Lane::Control }),
    {
        match self {
            PtyCommand::Push(_) => Lane::Push,
            _ => Lane::Control,
        }
    }
}

/// `rustix::process::Signal::from_raw`, and the number of the signal that it
/// gives: on Linux the signals are the numbers from 1 to 31, each its own.
#[verifier::external_body]
fn signal_from_raw(raw: i32) -> (signal: Option<i32>)
    ensures
        signal == (if 1 <= raw <= 31 { Some(raw) } else { None::<i32> }),
{
    rustix::process::Signal::from_raw(raw).map(|signal| signal as i32)
}

/// The signal that a client's byte asks for: itself where it is a signal, else
/// the one that asks for termination.
pub open spec fn signal_for(byte: u8) -> i32 {
    if 1 <= byte <= 31 {
        byte as i32
    } else {
        SIGTERM
    }
}

/// The command that a message turns into, if it does.
pub open spec fn command_of(m: MessageView) -> Option<CommandView> {
    match m {
        MessageView::Push(data) => Some(CommandView::Push(data)),
        MessageView::Winch { rows, cols } => Some(CommandView::Resize(rows, cols)),
        MessageView::Redraw { method, rows, cols } => if method == RedrawMethod::NoRedraw {
            None
        } else {
            Some(CommandView::Resize(rows, cols))
        },
        MessageView::Kill { signal } => Some(CommandView::Signal(signal_for(signal))),
        MessageView::Attach { .. } | MessageView::Detach => None,
    }
}

/// What came from a client.
#[derive(Debug, Clone, PartialEq, Eq)]
pub enum Incoming {
    /// A message.
    Received(Message),
    /// Bytes that are no frame.
    Malformed,
    /// The end of the connection.
    HungUp,
}

/// What came from the session's output.
#[derive(Debug, Clone, PartialEq, Eq)]
pub enum Outgoing {
    /// Output for the client.
    Data(Bytes),
    /// The client fell behind by so many chunks, which are lost to it.
    Lagged(u64),
    /// There will be no more output.
    Over,
}

/// What is to be done for a client. Where it fails, the client is disconnected.
#[derive(Debug, Clone, PartialEq, Eq)]
pub enum ClientAction {
    /// Nothing.
    Wait,
    /// Write the scrollback to the client.
    Replay(Vec<u8>),
    /// Write live output to the client.
    Forward(Bytes),
    /// Put a command on its lane.
    Submit(PtyCommand),
    /// End the connection.
    Disconnect,
}

/// A [`ClientAction`] by its contents.
#[verifier::ext_equal]
pub enum ActionView {
    Wait,
    Write(Seq<u8>),
    Submit(CommandView),
    Disconnect,
}

impl View for ClientAction {
    type V = ActionView;

    open spec fn view(&self) -> ActionView {
        match *self {
            ClientAction::Wait => ActionView::Wait,
            ClientAction::Replay(bytes) => ActionView::Write(bytes@),
            ClientAction::Forward(bytes) => ActionView::Write(bytes_seq(bytes)),
            ClientAction::Submit(command) => ActionView::Submit(command@),
            ClientAction::Disconnect => ActionView::Disconnect,
        }
    }
}

/// One client's connection. While it is attached it holds a receiver of the
/// session's output.
pub struct ClientSession {
    pub receiver: Option<broadcast::Receiver<Bytes>>,
}

/// What a message makes of a client: from where on it receives output, and
/// what is done. `pushed` is the output so far, `scrollback` how much is kept.
pub open spec fn client_step(
    from: Option<nat>,
    m: MessageView,
    pushed: Seq<Seq<u8>>,
    scrollback: nat,
) -> (Option<nat>, ActionView) {
    match m {
        MessageView::Attach { skip_ring } => (
            Some(pushed.len()),
            if skip_ring {
                ActionView::Wait
            } else {
                ActionView::Write(tail(concat(pushed), scrollback))
            },
        ),
        MessageView::Detach => (None, ActionView::Wait),
        _ => (
            from,
            match command_of(m) {
                Some(command) => ActionView::Submit(command),
                None => ActionView::Wait,
            },
        ),
    }
}

impl ClientSession {
    /// The position in the output of `fanout` from which on the client receives
    /// it, while it is attached.
    pub open spec fn from(&self, fanout: &Fanout) -> Option<nat> {
        match self.receiver {
            Some(rx) => fanout.subscribed_at(rx),
            None => None,
        }
    }

    /// A client that is not attached.
    pub fn new() -> (c: Self)
        ensures
            c.receiver is None,
    {
        ClientSession { receiver: None }
    }

    /// What is done on what came from the client.
    pub fn on_incoming(&mut self, incoming: Incoming, fanout: &Fanout) -> (action: ClientAction)
        requires
            fanout.wf(),
        ensures
            match incoming {
                Incoming::Received(m) => {
                    &&& (final(self).from(fanout), action@) == client_step(
                        old(self).from(fanout),
                        m@,
                        fanout.pushed(),
                        fanout.scrollback(),
                    )
                    &&& m@ is Detach ==> final(self).receiver is None
                    &&& !(m@ is Attach) && !(m@ is Detach) ==> final(self).receiver == old(
                        self,
                    ).receiver
                },
                _ => *final(self) == *old(self) && action@ is Disconnect,
            },
    {
        let message = match incoming {
            Incoming::Received(message) => message,
            _ => return ClientAction::Disconnect,
        };
        match message {
            Message::Attach { skip_ring } => {
                let (snapshot, rx) = fanout.attach();
                self.receiver = Some(rx);
                if skip_ring {
                    ClientAction::Wait
                } else {
                    ClientAction::Replay(snapshot)
                }
            },
            Message::Detach => {
                self.receiver = None;
                ClientAction::Wait
            },
            Message::Push(data) => ClientAction::Submit(PtyCommand::Push(data)),
            Message::Winch { rows, cols } => ClientAction::Submit(PtyCommand::Resize(rows, cols)),
            Message::Redraw { method, rows, cols } => {
                if method != RedrawMethod::NoRedraw {
                    ClientAction::Submit(PtyCommand::Resize(rows, cols))
                } else {
                    ClientAction::Wait
                }
            },
            Message::Kill { signal } => {
                let number: i32 = match signal_from_raw(signal as i32) {
                    Some(n) => n,
                    None => SIGTERM,
                };
                ClientAction::Submit(PtyCommand::Signal(number))
            },
        }
    }

    /// What is done on what came from the session's output. A client that fell
    /// behind is disconnected: it never misses a part of the output unnoticed.
    pub fn on_outgoing(&self, outgoing: Outgoing) -> (action: ClientAction)
        ensures
            action@ == (match outgoing {
                Outgoing::Data(data) => ActionView::Write(bytes_seq(data)),
                _ => ActionView::Disconnect,
            }),
    {
        match outgoing {
            Outgoing::Data(data) => ClientAction::Forward(data),
            _ => ClientAction::Disconnect,
        }
    }
}

/// Something that the daemon's loop can serve next.
#[derive(Debug, Clone, Copy, PartialEq, Eq, Structural)]
pub enum Source {
    /// A command of the control lane.
    Control,
    /// A request to stop.
    Signal,
    /// A client that connects.
    Connection,
    /// Output of the pty, or its end.
    Output,
    /// A command of the push lane.
    Push,
}

/// What is served next of what is ready: control commands, then requests to
/// stop, then new clients, then pty output, and pushes last.
pub open spec fn source_of(
    control: bool,
    signaled: bool,
    connecting: bool,
    output: bool,
    pushed: bool,
) -> Option<Source> {
    if control {
        Some(Source::Control)
    } else if signaled {
        Some(Source::Signal)
    } else if connecting {
        Some(Source::Connection)
    } else if output {
        Some(Source::Output)
    } else if pushed {
        Some(Source::Push)
    } else {
        None
    }
}

/// What the daemon's loop serves next of what is ready.
pub fn next_source(
    control: bool,
    signaled: bool,
    connecting: bool,
    output: bool,
    pushed: bool,
) -> (source: Option<Source>)
    ensures
        source == source_of(control, signaled, connecting, output, pushed),
{
    if control {
        Some(Source::Control)
    } else if signaled {
        Some(Source::Signal)
    } else if connecting {
        Some(Source::Connection)
    } else if output {
        Some(Source::Output)
    } else if pushed {
        Some(Source::Push)
    } else {
        None
    }
}

/// Something that happened to the daemon.
pub enum DaemonEvent<'a> {
    /// A client connected.
    Connected,
    /// Accepting a connection failed.
    AcceptFailed,
    /// A client sent a command.
    Command(PtyCommand),
    /// The pty put out these bytes; none at its end.
    Output(&'a [u8]),
    /// Reading from the pty failed.
    ReadFailed,
    /// The child was waited for: its exit code, where it has one.
    ChildExited(Option<i32>),
    /// The daemon was asked to stop.
    Signaled,
}

/// What the daemon does next.
#[derive(Debug, Clone, PartialEq, Eq)]
pub enum DaemonAction {
    /// Wait for the next event.
    Continue,
    /// Serve the client that connected.
    Serve,
    /// Do this to the pty, and go on whether or not it succeeds. Where there is
    /// a limit, give it up after so many milliseconds.
    Apply { command: PtyCommand, limit_ms: Option<u64> },
    /// Append this output to the log.
    Log(Bytes),
    /// Wait for the child to exit.
    AwaitChild,
    /// Stop.
    Stop(ShutdownReason),
}

/// A [`DaemonAction`] by its contents.
#[verifier::ext_equal]
pub enum DaemonActionView {
    Continue,
    Serve,
    Apply { command: CommandView, limit_ms: Option<u64> },
    Log(Seq<u8>),
    AwaitChild,
    Stop(ShutdownReason),
}

impl View for DaemonAction {
    type V = DaemonActionView;

    open spec fn view(&self) -> DaemonActionView {
        match *self {
            DaemonAction::Continue => DaemonActionView::Continue,
            DaemonAction::Serve => DaemonActionView::Serve,
            DaemonAction::Apply { command, limit_ms } => DaemonActionView::Apply {
                command: command@,
                limit_ms,
            },
            DaemonAction::Log(bytes) => DaemonActionView::Log(bytes_seq(bytes)),
            DaemonAction::AwaitChild => DaemonActionView::AwaitChild,
            DaemonAction::Stop(reason) => DaemonActionView::Stop(reason),
        }
    }
}

/// The output that an event brings, if it does.
pub open spec fn output_of(event: DaemonEvent) -> Option<Seq<u8>> {
    match event {
        DaemonEvent::Output(data) => if data@.len() > 0 {
            Some(data@)
        } else {
            None
        },
        _ => None,
    }
}

/// How long a command may block the daemon's loop: only a push can wait for
/// the program.
pub open spec fn limit_for(command: CommandView) -> Option<u64> {
    if command is Push {
        Some(PTY_WRITE_TIMEOUT_MS)
    } else {
        None
    }
}

/// What the daemon does on an event.
pub open spec fn daemon_step(event: DaemonEvent, logging: bool) -> DaemonActionView {
    match event {
        DaemonEvent::Connected => DaemonActionView::Serve,
        DaemonEvent::AcceptFailed => DaemonActionView::Continue,
        DaemonEvent::Command(command) => DaemonActionView::Apply {
            command: command@,
            limit_ms: limit_for(command@),
        },
        DaemonEvent::Output(data) => if data@.len() == 0 {
            DaemonActionView::AwaitChild
        } else if logging {
            DaemonActionView::Log(data@)
        } else {
            DaemonActionView::Continue
        },
        DaemonEvent::ReadFailed => DaemonActionView::AwaitChild,
        DaemonEvent::ChildExited(code) => DaemonActionView::Stop(ShutdownReason::ChildExited(code)),
        DaemonEvent::Signaled => DaemonActionView::Stop(ShutdownReason::DaemonSignaled),
    }
}

/// What the daemon does on an event. Output goes to the clients through
/// `fanout` before it goes to the log.
pub fn on_event(event: DaemonEvent<'_>, logging: bool, fanout: &mut Fanout) -> (action: DaemonAction)
    requires
        old(fanout).wf(),
    ensures
        action@ == daemon_step(event, logging),
        final(fanout).wf(),
        final(fanout).scrollback() == old(fanout).scrollback(),
        final(fanout).backlog() == old(fanout).backlog(),
        forall|rx: broadcast::Receiver<Bytes>|
            #[trigger] final(fanout).subscribed_at(rx) == old(fanout).subscribed_at(rx),
        final(fanout).pushed() == (match output_of(event) {
            Some(data) => old(fanout).pushed().push(data),
            None => old(fanout).pushed(),
        }),
{
    match event {
        DaemonEvent::Connected => DaemonAction::Serve,
        DaemonEvent::AcceptFailed => DaemonAction::Continue,
        DaemonEvent::Command(command) => {
            let limit_ms: Option<u64> = match command.lane() {
                Lane::Push => Some(PTY_WRITE_TIMEOUT_MS),
                Lane::Control => None,
            };
            DaemonAction::Apply { command, limit_ms }
        },
        DaemonEvent::Output(data) => {
            if data.len() == 0 {
                return DaemonAction::AwaitChild;
            }
            let chunk = Bytes::copy_from_slice(data);
            fanout.push(chunk.clone());
            if logging {
                DaemonAction::Log(chunk)
            } else {
                DaemonAction::Continue
            }
        },
        DaemonEvent::ReadFailed => DaemonAction::AwaitChild,
        DaemonEvent::ChildExited(code) => DaemonAction::Stop(ShutdownReason::ChildExited(code)),
        DaemonEvent::Signaled => DaemonAction::Stop(ShutdownReason::DaemonSignaled),
    }
}

/// The ancestry chain that the child of a daemon sees: the chain that the
/// daemon inherited, then its own session.
pub fn child_chain(inherited: Option<&str>, config: &DaemonConfig) -> (chain: String)
    ensures
        chain@ == extended(opt_view(inherited), config.socket_path@),
{
    extend_ancestry(inherited, config.socket_path.as_str())
}

/// The line that ends a session's log.
pub open spec fn end_marker_text(age_secs: nat) -> Seq<char> {
    "\r\n[hytch: session ended after "@ + age_text(age_secs) + "]\r\n"@
}

/// The line that ends the log of a session of this age.
pub fn end_marker(age_secs: u64) -> (marker: String)
    ensures
        marker@ == end_marker_text(age_secs as nat),
{
    let mut marker = String::new();
    marker.append("\r\n[hytch: session ended after ");
    marker.append(format_age(age_secs).as_str());
    marker.append("]\r\n");
    assert(marker@ =~= end_marker_text(age_secs as nat));
    marker
}

/// The exit code of a daemon: that of its child, where it had one.
pub fn exit_code(reason: ShutdownReason) -> (code: i32)
    ensures
        code == (match reason {
            ShutdownReason::ChildExited(Some(c)) => c,
            _ => 0,
        }),
{
    match reason {
        ShutdownReason::ChildExited(code) => match code {
            Some(c) => c,
            None => 0,
        },
        ShutdownReason::DaemonSignaled => 0,
    }
}

/// The commands that messages turn into, in order.
pub open spec fn commands_of(ms: Seq<MessageView>) -> Seq<CommandView>
    decreases ms.len(),
{
    if ms.len() == 0 {
        Seq::empty()
    } else {
        let rest = commands_of(ms.drop_last());
        match command_of(ms.last()) {
            Some(command) => rest.push(command),
            None => rest,
        }
    }
}

/// The input for the program that messages bring, in order.
pub open spec fn input_of(ms: Seq<MessageView>) -> Seq<u8>
    decreases ms.len(),
{
    if ms.len() == 0 {
        Seq::empty()
    } else {
        match ms.last() {
            MessageView::Push(data) => input_of(ms.drop_last()) + data,
            _ => input_of(ms.drop_last()),
        }
    }
}

/// The input for the program that commands bring, in order.
pub open spec fn written_by(commands: Seq<CommandView>) -> Seq<u8>
    decreases commands.len(),
{
    if commands.len() == 0 {
        Seq::empty()
    } else {
        match commands.last() {
            CommandView::Push(data) => written_by(commands.drop_last()) + data,
            _ => written_by(commands.drop_last()),
        }
    }
}

/// Input is handed on verbatim: the pushes among a client's messages turn into
/// commands to write exactly their bytes, in order.
pub proof fn law_input_is_handed_on_verbatim(ms: Seq<MessageView>)
    ensures
        written_by(commands_of(ms)) == input_of(ms),
    decreases ms.len(),
{
    if ms.len() > 0 {
        law_input_is_handed_on_verbatim(ms.drop_last());
        let rest = commands_of(ms.drop_last());
        match command_of(ms.last()) {
            Some(command) => {
                assert(rest.push(command).drop_last() =~= rest);
            },
            None => {},
        }
    }
}

/// What a client frames is what the daemon does: messages that are within the
/// daemon's limit turn into the same commands on the other side of the socket,
/// however the connection ends.
pub proof fn law_framed_messages_become_commands(
    ms: Seq<MessageView>,
    next: MessageView,
    arrived: int,
)
    requires
        forall|i: int| 0 <= i < ms.len() ==> fits(#[trigger] ms[i], DEFAULT_MAX_FRAME_LEN),
        fits(next, DEFAULT_MAX_FRAME_LEN),
        0 <= arrived < frame(next).len(),
    ensures
        commands_of(
            decoded_all(stream(ms) + frame(next).take(arrived), DEFAULT_MAX_FRAME_LEN).0,
        ) == commands_of(ms),
{
    law_stream_of_frames(ms, next, arrived, DEFAULT_MAX_FRAME_LEN);
}

/// The commands of the push lane, in order.
pub open spec fn push_lane(commands: Seq<CommandView>) -> Seq<CommandView>
    decreases commands.len(),
{
    if commands.len() == 0 {
        Seq::empty()
    } else if commands.last() is Push {
        push_lane(commands.drop_last()).push(commands.last())
    } else {
        push_lane(commands.drop_last())
    }
}

/// What is to be written to the program is settled by the push lane alone:
/// control commands that overtake it do not disturb it.
pub proof fn law_control_lane_does_not_disturb_input(commands: Seq<CommandView>)
    ensures
        written_by(push_lane(commands)) == written_by(commands),
    decreases commands.len(),
{
    if commands.len() > 0 {
        law_control_lane_does_not_disturb_input(commands.drop_last());
        let rest = push_lane(commands.drop_last());
        assert(rest.push(commands.last()).drop_last() =~= rest);
    }
}

/// Only what is ready is served, and something is if anything is. A push is
/// taken only where nothing else is ready, and output only where no control
/// command is.
pub proof fn law_pushes_are_served_last(
    control: bool,
    signaled: bool,
    connecting: bool,
    output: bool,
    pushed: bool,
)
    ensures
        ({
            let source = source_of(control, signaled, connecting, output, pushed);
            &&& source is None <==> !control && !signaled && !connecting && !output && !pushed
            &&& source == Some(Source::Push) <==> pushed && !control && !signaled && !connecting
                && !output
            &&& source == Some(Source::Output) <==> output && !control && !signaled && !connecting
            &&& source == Some(Source::Connection) <==> connecting && !control && !signaled
            &&& source == Some(Source::Signal) <==> signaled && !control
            &&& source == Some(Source::Control) <==> control
        }),
{
}

/// A kill is a command of the lane that is served before everything else, and
/// a push that is under way when it comes has a time limit.
pub proof fn law_kill_overtakes_pushes(
    byte: u8,
    signaled: bool,
    connecting: bool,
    output: bool,
    pushed: bool,
    other: CommandView,
)
    ensures
        command_of(MessageView::Kill { signal: byte }) matches Some(kill) && !(kill is Push)
            && limit_for(kill) is None,
        source_of(true, signaled, connecting, output, pushed) == Some(Source::Control),
        other is Push ==> limit_for(other) == Some(PTY_WRITE_TIMEOUT_MS),
{
}

/// A kill always asks for a signal that exists, and for the one that was named
/// where that exists.
pub proof fn law_kill_names_a_signal(byte: u8)
    ensures
        1 <= signal_for(byte) <= 31,
        1 <= byte <= 31 ==> signal_for(byte) == byte,
        command_of(MessageView::Kill { signal: byte }) == Some(
            CommandView::Signal(signal_for(byte)),
        ),
{
}

/// Only the end of the child or a signal to the daemon stops it; nothing that
/// a client sends does by itself.
pub proof fn law_clients_cannot_stop_the_daemon(event: DaemonEvent, logging: bool)
    ensures
        daemon_step(event, logging) is Stop ==> event is ChildExited || event is Signaled,
{
}

/// What the program printed: the bytes of the output events, in order.
pub open spec fn printed(events: Seq<DaemonEvent>) -> Seq<u8>
    decreases events.len(),
{
    if events.len() == 0 {
        Seq::empty()
    } else {
        let rest = printed(events.drop_last());
        match events.last() {
            DaemonEvent::Output(data) => rest + data@,
            _ => rest,
        }
    }
}

/// What the daemon hands to the log on the events, piece by piece.
pub open spec fn logged(events: Seq<DaemonEvent>, logging: bool) -> Seq<Seq<u8>>
    decreases events.len(),
{
    if events.len() == 0 {
        Seq::empty()
    } else {
        let rest = logged(events.drop_last(), logging);
        match daemon_step(events.last(), logging) {
            DaemonActionView::Log(bytes) => rest.push(bytes),
            _ => rest,
        }
    }
}

/// What the daemon hands to the clients on the events, piece by piece.
pub open spec fn fanned_out(events: Seq<DaemonEvent>) -> Seq<Seq<u8>>
    decreases events.len(),
{
    if events.len() == 0 {
        Seq::empty()
    } else {
        let rest = fanned_out(events.drop_last());
        match output_of(events.last()) {
            Some(bytes) => rest.push(bytes),
            None => rest,
        }
    }
}

/// The log and the clients get what the program printed, every byte of it, and
/// the same: over any run of the daemon the pieces that are handed to the log,
/// put together, are the printed bytes, and so are the pieces that are handed
/// to the clients. Without a log nothing is logged.
pub proof fn law_log_and_clients_get_what_was_printed(events: Seq<DaemonEvent>)
    ensures
        concat(logged(events, true)) == printed(events),
        concat(fanned_out(events)) == printed(events),
        logged(events, true) == fanned_out(events),
        logged(events, false).len() == 0,
    decreases events.len(),
{
    if events.len() > 0 {
        let init = events.drop_last();
        law_log_and_clients_get_what_was_printed(init);
        match events.last() {
            DaemonEvent::Output(data) => {
                lemma_concat_push(fanned_out(init), data@);
                assert(printed(init) + Seq::<u8>::empty() =~= printed(init));
                if data@.len() == 0 {
                    assert(printed(events) =~= printed(init));
                }
            },
            _ => {},
        }
    } else {
        assert(concat(logged(events, true)) =~= printed(events));
    }
}

/// The log file of a session holds the tail of what was there and of everything
/// that the program printed since, as much as its cap.
pub proof fn law_log_file_holds_what_was_printed(
    f: FileModel,
    l: LogView,
    events: Seq<DaemonEvent>,
)
    requires
        in_step(f, l),
        countable(f.content, l.max_size, logged(events, true)),
    ensures
        after_all(f, l, logged(events, true)).0.content == tail(
            f.content + printed(events),
            l.max_size as nat,
        ),
{
    law_log_and_clients_get_what_was_printed(events);
    law_log_is_the_tail_of_everything(f, l, logged(events, true));
}

/// On output, the clients get exactly those bytes as one more piece, and the
/// log, where there is one, gets the same.
pub proof fn law_output_goes_to_the_clients_and_the_log(
    data: &[u8],
    logging: bool,
    fanout: &mut Fanout,
    action: DaemonAction,
)
    requires
        call_ensures(on_event, (DaemonEvent::Output(data), logging, fanout), action),
        data@.len() > 0,
    ensures
        final(fanout).pushed() == old(fanout).pushed().push(data@),
        logging ==> (action matches DaemonAction::Log(chunk) && bytes_seq(chunk) == data@),
        !logging ==> action is Continue,
{
}

/// A command is applied as it is, and a push alone has a time limit.
pub proof fn law_commands_are_applied_as_they_are(
    given: PtyCommand,
    logging: bool,
    fanout: &mut Fanout,
    action: DaemonAction,
)
    requires
        call_ensures(on_event, (DaemonEvent::Command(given), logging, fanout), action),
    ensures
        final(fanout).pushed() == old(fanout).pushed(),
        action matches DaemonAction::Apply { command, limit_ms } && match given {
            PtyCommand::Push(data) => limit_ms == Some(250u64) && (command matches
                PtyCommand::Push(written) && bytes_seq(written) == bytes_seq(data)),
            PtyCommand::Resize(rows, cols) => limit_ms is None && command == PtyCommand::Resize(
                rows,
                cols,
            ),
            PtyCommand::Signal(number) => limit_ms is None && command == PtyCommand::Signal(number),
        },
{
}

/// The other events bring no output, and each has its answer: a client is
/// served, a failed accept is passed over, the end of the pty or of its reading
/// waits for the child, and only the end of the child or a signal to the daemon
/// stops it, with that reason.
pub proof fn law_other_events_have_their_answers(
    event: DaemonEvent,
    logging: bool,
    fanout: &mut Fanout,
    action: DaemonAction,
)
    requires
        call_ensures(on_event, (event, logging, fanout), action),
        !(event is Command),
        event matches DaemonEvent::Output(data) ==> data@.len() == 0,
    ensures
        final(fanout).pushed() == old(fanout).pushed(),
        action is Serve <==> event is Connected,
        action is Continue <==> event is AcceptFailed,
        action is AwaitChild <==> event is Output || event is ReadFailed,
        event matches DaemonEvent::ChildExited(code) ==> action == DaemonAction::Stop(
            ShutdownReason::ChildExited(code),
        ),
        event is Signaled ==> action == DaemonAction::Stop(ShutdownReason::DaemonSignaled),
{
}

/// A daemon exits with the code of its child, and with success where the child
/// had none or the daemon itself was asked to stop.
pub proof fn law_daemon_exits_like_its_child(
    event: DaemonEvent,
    logging: bool,
    fanout: &mut Fanout,
    reason: ShutdownReason,
    code: i32,
)
    requires
        call_ensures(on_event, (event, logging, fanout), DaemonAction::Stop(reason)),
        call_ensures(exit_code, (reason,), code),
    ensures
        event matches DaemonEvent::ChildExited(Some(c)) ==> code == c,
        event matches DaemonEvent::ChildExited(None) ==> code == 0,
        event is Signaled ==> code == 0,
        event is ChildExited || event is Signaled,
{
}

/// An attach subscribes the client to everything from now on. It writes the
/// scrollback, which is the end of everything that was printed, as much as is
/// kept; where the client has history on the screen already, it writes nothing.
pub proof fn law_attach_shows_the_scrollback_unless_it_is_skipped(
    client: &mut ClientSession,
    skip_ring: bool,
    fanout: &Fanout,
    action: ClientAction,
)
    requires
        call_ensures(
            ClientSession::on_incoming,
            (client, Incoming::Received(Message::Attach { skip_ring }), fanout),
            action,
        ),
    ensures
        final(client).from(fanout) == Some(fanout.pushed().len()),
        final(client).receiver is Some,
        skip_ring ==> action is Wait,
        !skip_ring ==> ({
            let all = concat(fanout.pushed());
            let shown = match action {
                ClientAction::Replay(bytes) => bytes@,
                ClientAction::Forward(bytes) => bytes_seq(bytes),
                _ => all.push(0),
            };
            &&& shown.is_suffix_of(all)
            &&& shown.len() == if all.len() <= fanout.scrollback() {
                all.len()
            } else {
                fanout.scrollback()
            }
        }),
{
    let all = concat(fanout.pushed());
    let shown = tail(all, fanout.scrollback());
    assert(shown =~= all.subrange(all.len() - shown.len(), all.len() as int));
}

/// A detach ends the client's output and nothing else.
pub proof fn law_detach_ends_the_output(
    client: &mut ClientSession,
    fanout: &Fanout,
    action: ClientAction,
)
    requires
        call_ensures(
            ClientSession::on_incoming,
            (client, Incoming::Received(Message::Detach), fanout),
            action,
        ),
    ensures
        final(client).receiver is None,
        action is Wait,
{
}

/// What a client asks for is what is put on a lane: its input byte for byte,
/// its window size, and the signal that it names.
pub proof fn law_requests_are_submitted_as_they_are(
    client: &mut ClientSession,
    m: Message,
    fanout: &Fanout,
    action: ClientAction,
)
    requires
        call_ensures(
            ClientSession::on_incoming,
            (client, Incoming::Received(m), fanout),
            action,
        ),
        !(m is Attach) && !(m is Detach),
    ensures
        final(client).receiver == old(client).receiver,
        match m {
            Message::Push(data) => action matches ClientAction::Submit(PtyCommand::Push(input))
                && bytes_seq(input) == bytes_seq(data),
            Message::Winch { rows, cols } => action == ClientAction::Submit(
                PtyCommand::Resize(rows, cols),
            ),
            Message::Redraw { method, rows, cols } => if method == RedrawMethod::NoRedraw {
                action is Wait
            } else {
                action == ClientAction::Submit(PtyCommand::Resize(rows, cols))
            },
            Message::Kill { signal } => action matches ClientAction::Submit(
                PtyCommand::Signal(number),
            ) && (1 <= signal <= 31 ==> number == signal) && (signal == 0 || signal > 31 ==> number
                == 15),
            _ => true,
        },
{
}

/// A client that sends what is no frame, or hangs up, is disconnected, and so
/// is one that fell behind; output goes to it as it is.
pub proof fn law_output_is_forwarded_or_the_client_disconnected(
    client: &ClientSession,
    outgoing: Outgoing,
    action: ClientAction,
    other: &mut ClientSession,
    incoming: Incoming,
    fanout: &Fanout,
    answer: ClientAction,
)
    requires
        call_ensures(ClientSession::on_outgoing, (client, outgoing), action),
        call_ensures(ClientSession::on_incoming, (other, incoming, fanout), answer),
        !(incoming is Received),
    ensures
        answer is Disconnect,
        match outgoing {
            Outgoing::Data(data) => match action {
                ClientAction::Replay(bytes) => bytes@ == bytes_seq(data),
                ClientAction::Forward(bytes) => bytes_seq(bytes) == bytes_seq(data),
                _ => false,
            },
            _ => action is Disconnect,
        },
{
}

/// The commands that a client's messages put on the lanes, in order.
pub open spec fn submitted(
    ms: Seq<MessageView>,
    pushed: Seq<Seq<u8>>,
    scrollback: nat,
) -> Seq<CommandView>
    decreases ms.len(),
{
    if ms.len() == 0 {
        Seq::empty()
    } else {
        let rest = submitted(ms.drop_last(), pushed, scrollback);
        match client_step(None, ms.last(), pushed, scrollback).1 {
            ActionView::Submit(command) => rest.push(command),
            _ => rest,
        }
    }
}

/// Whatever else a client sends in between, the commands that its messages put
/// on the lanes write exactly the input that they bring, in order.
pub proof fn law_input_is_submitted_verbatim(
    ms: Seq<MessageView>,
    pushed: Seq<Seq<u8>>,
    scrollback: nat,
)
    ensures
        submitted(ms, pushed, scrollback) == commands_of(ms),
        written_by(submitted(ms, pushed, scrollback)) == input_of(ms),
    decreases ms.len(),
{
    if ms.len() > 0 {
        law_input_is_submitted_verbatim(ms.drop_last(), pushed, scrollback);
    }
    law_input_is_handed_on_verbatim(ms);
}

/// The child of a daemon sees the chain that the daemon inherited, then the
/// daemon's own session: it is guarded against both, and a chain of nothing but
/// its own session is that path.
pub proof fn law_child_is_guarded(
    inherited: Option<&str>,
    config: &DaemonConfig,
    chain: String,
    target: Seq<char>,
)
    requires
        call_ensures(child_chain, (inherited, config), chain),
        config.socket_path@.len() > 0,
        !config.socket_path@.contains(':'),
    ensures
        ancestors(Some(chain@)).contains(target) <==> (target == config.socket_path@ || ancestors(
            opt_view(inherited),
        ).contains(target)),
        match inherited {
            Some(c) => if c@.len() > 0 {
                chain@ == c@ + seq![':'] + config.socket_path@
            } else {
                chain@ == config.socket_path@
            },
            None => chain@ == config.socket_path@,
        },
{
    law_extended_chain_guards(opt_view(inherited), config.socket_path@, target);
    reveal_strlit(":");
    assert(":"@ =~= seq![':']);
}

/// The line that ends a log tells the age in the words of [`format_age`].
pub proof fn law_end_marker_tells_the_age(age_secs: u64, age: String, marker: String)
    requires
        call_ensures(format_age, (age_secs,), age),
        call_ensures(end_marker, (age_secs,), marker),
    ensures
        marker@ == "\r\n[hytch: session ended after "@ + age@ + "]\r\n"@,
{
}

/// Input alone waits on the push lane, and the loop serves what stands first
/// among control commands, requests to stop, new clients, output and pushes.
pub proof fn law_loop_serves_the_first_that_is_ready(
    command: &PtyCommand,
    lane: Lane,
    ready: (bool, bool, bool, bool, bool),
    source: Option<Source>,
)
    requires
        call_ensures(PtyCommand::lane, (command,), lane),
        call_ensures(next_source, (ready.0, ready.1, ready.2, ready.3, ready.4), source),
    ensures
        *command is Push <==> lane is Push,
        match source {
            Some(Source::Control) => ready.0,
            Some(Source::Signal) => !ready.0 && ready.1,
            Some(Source::Connection) => !ready.0 && !ready.1 && ready.2,
            Some(Source::Output) => !ready.0 && !ready.1 && !ready.2 && ready.3,
            Some(Source::Push) => !ready.0 && !ready.1 && !ready.2 && !ready.3 && ready.4,
            None => !ready.0 && !ready.1 && !ready.2 && !ready.3 && !ready.4,
        },
{
}

/// A loop reads up to 4 KiB at once, and a client is let fall 1024 chunks behind.
pub proof fn law_limits_of_the_loop(fanout: Fanout, scrollback: usize)
    requires
        call_ensures(Fanout::new, (scrollback, BROADCAST_CAPACITY), fanout),
    ensures
        fanout.backlog() == 1024,
        fanout.scrollback() == scrollback,
        fanout.pushed().len() == 0,
        READ_SIZE == 4096,
        COMMAND_QUEUE == 256,
{
    assert(vstd::arithmetic::power2::is_pow2(1024)) by {
        reveal_with_fuel(vstd::arithmetic::power2::is_pow2, 12);
    }
    assert forall|n: int| 1024 < n < 2048 implies !vstd::arithmetic::power2::is_pow2(n) by {
        lemma_no_power_between(n, 1024);
    }
}

/// No power of two lies between a power of two and its double.
proof fn lemma_no_power_between(n: int, p: int)
    requires
        vstd::arithmetic::power2::is_pow2(p),
        p < n < 2 * p,
    ensures
        !vstd::arithmetic::power2::is_pow2(n),
    decreases p,
{
    reveal(vstd::arithmetic::power2::is_pow2);
    if p > 1 && n % 2 == 0 {
        lemma_no_power_between(n / 2, p / 2);
    }
}

/// A new client gets no output, whatever is printed.
pub proof fn law_new_client_is_not_attached(client: ClientSession, fanout: &Fanout)
    requires
        call_ensures(ClientSession::new, (), client),
    ensures
        client.receiver is None,
        client.from(fanout) is None,
{
}

/// No event changes how much the scrollback keeps, how far a client may fall
/// behind or where a client's output began, and nothing but output is pushed.
pub proof fn law_events_leave_the_clients_alone(
    event: DaemonEvent,
    logging: bool,
    fanout: &mut Fanout,
    action: DaemonAction,
    rx: broadcast::Receiver<Bytes>,
)
    requires
        call_ensures(on_event, (event, logging, fanout), action),
    ensures
        final(fanout).scrollback() == old(fanout).scrollback(),
        final(fanout).backlog() == old(fanout).backlog(),
        final(fanout).subscribed_at(rx) == old(fanout).subscribed_at(rx),
        !(event is Output) ==> final(fanout).pushed() == old(fanout).pushed(),
        event matches DaemonEvent::Output(data) ==> data@.len() == 0 ==> final(fanout).pushed()
            == old(fanout).pushed() && action is AwaitChild,
{
}

} // verus!
