//! The attach side: terminal input goes to the daemon as framed messages, the
//! daemon's output goes to the terminal untouched.
//!
//! [`AttachLoop`] decides what is done on each event; the caller owns the
//! terminal and the connection. The operating system's part of a suspend is
//! not done here either: the loop ends with [`AttachOutcome::Suspended`] after
//! it has told the daemon.

use crate::buffers::buf_seq;
use crate::codec::{
    decoded_all, fits, frame, law_stream_of_frames, stream, MessageCodec, DEFAULT_MAX_FRAME_LEN,
    HEADER_LEN,
};
use crate::daemon::{client_step, command_of, commands_of, input_of, ActionView, CommandView};
use crate::message::{Message, MessageView, RedrawMethod};
use crate::ring_buffer::{concat, tail};
use crate::session::{ancestors, ancestry_contains, opt_view};
use bytes::{Bytes, BytesMut};
use vstd::prelude::*;
use vstd::slice::slice_to_vec;
use vstd::utf8::encode_utf8;

verus! {

/// The most bytes that are read from the terminal or the daemon at once.
pub const ATTACH_READ_SIZE: usize = 4096;

/// The rows of a terminal that does not tell its size.
pub const DEFAULT_ROWS: u16 = 24;

/// The columns of a terminal that does not tell its size.
pub const DEFAULT_COLS: u16 = 80;

/// What is said of an attach to a session from within itself.
pub const SELF_ATTACH_TEXT: &'static str = "cannot attach to session from within itself";

/// Soft terminal reset before a log is replayed: DECSTR, SGR reset, exit from
/// the alternate screen, cursor on. Never a full reset, which would also wipe
/// the terminal's own scrollback.
///
/// The log may be a trimmed tail, and the state that its first bytes depend on
/// was set by bytes that are gone. From a known state such a log renders as
/// incomplete at worst, not as corrupted.
pub const PRE_REPLAY_RESET: &'static str = "\x1b[!p\x1b[0m\x1b[?1049l\x1b[?25h";

/// How a client attaches.
#[derive(Debug, Clone, Copy, PartialEq, Eq)]
pub struct AttachOptions {
    /// Byte that ends the attach and leaves the session alone. `None` disables
    /// detaching.
    pub detach_char: Option<u8>,
    /// Byte that requests a local suspend. `None` disables it.
    pub suspend_char: Option<u8>,
    pub redraw_method: RedrawMethod,
    pub rows: u16,
    pub cols: u16,
    /// Set when the on-disk log was replayed already, so that the daemon skips
    /// its own scrollback.
    pub skip_ring: bool,
}

/// How an attach ended.
#[derive(Debug, Clone, Copy, PartialEq, Eq, Structural)]
pub enum AttachOutcome {
    /// The user pressed the detach character.
    Detached,
    /// The user pressed the suspend character; the daemon has been told.
    Suspended,
    /// The local input ended. The session may well live on.
    InputClosed,
    /// The daemon closed the connection: the child exited, or the daemon went
    /// away.
    SessionEnded,
}

/// What a byte of input asks for, if it is special. A byte that is both the
/// suspend and the detach character suspends.
pub open spec fn special(b: u8, detach: Option<u8>, suspend: Option<u8>) -> Option<AttachOutcome> {
    if suspend == Some(b) {
        Some(AttachOutcome::Suspended)
    } else if detach == Some(b) {
        Some(AttachOutcome::Detached)
    } else {
        None
    }
}

/// The position of the first special byte, or the length where there is none.
pub open spec fn special_pos(s: Seq<u8>, detach: Option<u8>, suspend: Option<u8>) -> nat
    decreases s.len(),
{
    if s.len() == 0 || special(s[0], detach, suspend) is Some {
        0
    } else {
        1 + special_pos(s.drop_first(), detach, suspend)
    }
}

proof fn lemma_special_pos(s: Seq<u8>, detach: Option<u8>, suspend: Option<u8>)
    ensures
        special_pos(s, detach, suspend) <= s.len(),
        special_pos(s, detach, suspend) < s.len() ==> special(
            s[special_pos(s, detach, suspend) as int],
            detach,
            suspend,
        ) is Some,
        forall|j: int|
            0 <= j < special_pos(s, detach, suspend) ==> special(#[trigger] s[j], detach, suspend)
                is None,
    decreases s.len(),
{
    if s.len() > 0 && special(s[0], detach, suspend) is None {
        let t = s.drop_first();
        lemma_special_pos(t, detach, suspend);
        assert forall|j: int| 0 <= j < special_pos(s, detach, suspend) implies special(
            #[trigger] s[j],
            detach,
            suspend,
        ) is None by {
            if j > 0 {
                assert(s[j] == t[j - 1]);
            }
        }
    }
}

/// The earliest special character in `chunk` and what it asks for. Both
/// characters are looked for together, so that the one that comes first wins.
pub fn find_special_char(
    chunk: &[u8],
    detach_char: Option<u8>,
    suspend_char: Option<u8>,
) -> (r: Option<(usize, AttachOutcome)>)
    ensures
        ({
            let pos = special_pos(chunk@, detach_char, suspend_char);
            match r {
                Some((i, outcome)) => i == pos && i < chunk@.len() && special(
                    chunk@[i as int],
                    detach_char,
                    suspend_char,
                ) == Some(outcome),
                None => pos == chunk@.len(),
            }
        }),
{
    let mut i: usize = 0;
    proof {
        lemma_special_pos(chunk@, detach_char, suspend_char);
    }
    while i < chunk.len()
        invariant
            i <= chunk@.len(),
            i <= special_pos(chunk@, detach_char, suspend_char) <= chunk@.len(),
            special_pos(chunk@, detach_char, suspend_char) < chunk@.len() ==> special(
                chunk@[special_pos(chunk@, detach_char, suspend_char) as int],
                detach_char,
                suspend_char,
            ) is Some,
            forall|j: int|
                0 <= j < special_pos(chunk@, detach_char, suspend_char) ==> special(
                    #[trigger] chunk@[j],
                    detach_char,
                    suspend_char,
                ) is None,
        decreases chunk.len() - i,
    {
        let b: u8 = chunk[i];
        if is_char(suspend_char, b) {
            return Some((i, AttachOutcome::Suspended));
        }
        if is_char(detach_char, b) {
            return Some((i, AttachOutcome::Detached));
        }
        i += 1;
    }
    None
}

/// Whether `b` is the character `c`.
fn is_char(c: Option<u8>, b: u8) -> (r: bool)
    ensures
        r == (c == Some(b)),
{
    match c {
        Some(x) => x == b,
        None => false,
    }
}

/// The messages that open an attach.
pub open spec fn handshake_messages(opts: AttachOptions) -> Seq<MessageView> {
    seq![
        MessageView::Attach { skip_ring: opts.skip_ring },
        MessageView::Redraw { method: opts.redraw_method, rows: opts.rows, cols: opts.cols },
    ]
}

/// Something that happened to an attached client.
pub enum AttachEvent<'a> {
    /// These bytes were typed; none at the end of the input.
    Input(&'a [u8]),
    /// The daemon sent these bytes; none when it closed the connection.
    Output(&'a [u8]),
    /// The terminal has this many rows and columns now.
    Resized(u16, u16),
    /// No more changes of the window size will come.
    ResizesOver,
}

/// What is to be done, in this order.
pub struct AttachAction {
    /// Send these bytes to the daemon.
    pub send: BytesMut,
    /// Write the output to the terminal and flush it, so that it is on the
    /// screen before anything else is done.
    pub show: bool,
    /// Stop waiting for changes of the window size.
    pub stop_watching: bool,
    /// End the attach.
    pub outcome: Option<AttachOutcome>,
}

/// What is to be done, by the messages that are sent.
#[verifier::ext_equal]
pub struct AttachStep {
    pub messages: Seq<MessageView>,
    pub show: bool,
    pub stop_watching: bool,
    pub outcome: Option<AttachOutcome>,
}

/// Nothing is to be done.
pub open spec fn idle_step() -> AttachStep {
    AttachStep { messages: Seq::empty(), show: false, stop_watching: false, outcome: None }
}

/// What typed bytes lead to: what stands before the first special character
/// is pushed, and the character is obeyed.
pub open spec fn input_step(opts: AttachOptions, chunk: Seq<u8>) -> AttachStep {
    let pos = special_pos(chunk, opts.detach_char, opts.suspend_char) as int;
    let pushes = if pos > 0 {
        seq![MessageView::Push(chunk.take(pos))]
    } else {
        Seq::empty()
    };
    if chunk.len() == 0 {
        AttachStep { outcome: Some(AttachOutcome::InputClosed), ..idle_step() }
    } else if pos == chunk.len() {
        AttachStep { messages: pushes, ..idle_step() }
    } else {
        let outcome = special(chunk[pos], opts.detach_char, opts.suspend_char);
        AttachStep {
            messages: if outcome == Some(AttachOutcome::Suspended) {
                pushes.push(MessageView::Detach)
            } else {
                pushes
            },
            outcome,
            ..idle_step()
        }
    }
}

/// What an event leads to.
pub open spec fn attach_step(opts: AttachOptions, event: AttachEvent) -> AttachStep {
    match event {
        AttachEvent::Input(chunk) => input_step(opts, chunk@),
        AttachEvent::Output(chunk) => if chunk@.len() == 0 {
            AttachStep { outcome: Some(AttachOutcome::SessionEnded), ..idle_step() }
        } else {
            AttachStep { show: true, ..idle_step() }
        },
        AttachEvent::Resized(rows, cols) => AttachStep {
            messages: seq![MessageView::Winch { rows, cols }],
            ..idle_step()
        },
        AttachEvent::ResizesOver => AttachStep { stop_watching: true, ..idle_step() },
    }
}

/// One attach session.
pub struct AttachLoop {
    opts: AttachOptions,
    codec: MessageCodec,
}

impl AttachLoop {
    /// How the client attaches.
    pub closed spec fn options(&self) -> AttachOptions {
        self.opts
    }

    /// An attach that is about to start.
    pub fn new(opts: AttachOptions) -> (a: Self)
        ensures
            a.options() == opts,
    {
        AttachLoop { opts, codec: MessageCodec::default() }
    }

    /// The bytes that open the attach: an attach request, then a redraw request
    /// with the window size.
    pub fn handshake(&mut self) -> (send: BytesMut)
        ensures
            final(self).options() == old(self).options(),
            buf_seq(send) == stream(handshake_messages(old(self).options())),
    {
        let mut send = BytesMut::new();
        let _ = self.codec.encode(Message::Attach { skip_ring: self.opts.skip_ring }, &mut send);
        let _ = self.codec.encode(
            Message::Redraw {
                method: self.opts.redraw_method,
                rows: self.opts.rows,
                cols: self.opts.cols,
            },
            &mut send,
        );
        proof {
            let ms = handshake_messages(self.opts);
            lemma_stream_two(ms[0], ms[1]);
            assert(ms =~= seq![ms[0], ms[1]]);
        }
        send
    }

    /// What is to be done on an event.
    pub fn on_event(&mut self, event: AttachEvent<'_>) -> (action: AttachAction)
        requires
            event matches AttachEvent::Input(chunk) ==> chunk@.len() + 2 * HEADER_LEN
                <= isize::MAX,
        ensures
            final(self).options() == old(self).options(),
            ({
                let step = attach_step(old(self).options(), event);
                &&& buf_seq(action.send) == stream(step.messages)
                &&& action.show == step.show
                &&& action.stop_watching == step.stop_watching
                &&& action.outcome == step.outcome
            }),
    {
        let mut send = BytesMut::new();
        match event {
            AttachEvent::Input(chunk) => {
                let outcome = self.on_input(chunk, &mut send);
                AttachAction { send, show: false, stop_watching: false, outcome }
            },
            AttachEvent::Output(chunk) => {
                if chunk.len() == 0 {
                    let outcome = Some(AttachOutcome::SessionEnded);
                    AttachAction { send, show: false, stop_watching: false, outcome }
                } else {
                    AttachAction { send, show: true, stop_watching: false, outcome: None }
                }
            },
            AttachEvent::Resized(rows, cols) => {
                let _ = self.codec.encode(Message::Winch { rows, cols }, &mut send);
                proof {
                    lemma_stream_one(MessageView::Winch { rows, cols });
                }
                AttachAction { send, show: false, stop_watching: false, outcome: None }
            },
            AttachEvent::ResizesOver => {
                AttachAction { send, show: false, stop_watching: true, outcome: None }
            },
        }
    }

    /// Frames what typed bytes lead to, and says how the attach ends, if it does.
    fn on_input(&mut self, chunk: &[u8], send: &mut BytesMut) -> (outcome: Option<AttachOutcome>)
        requires
            chunk@.len() + 2 * HEADER_LEN <= isize::MAX,
            buf_seq(*old(send)) == Seq::<u8>::empty(),
        ensures
            final(self).options() == old(self).options(),
            buf_seq(*final(send)) == stream(input_step(old(self).options(), chunk@).messages),
            outcome == input_step(old(self).options(), chunk@).outcome,
    {
        let ghost step = input_step(self.opts, chunk@);
        if chunk.len() == 0 {
            return Some(AttachOutcome::InputClosed);
        }
        let found = find_special_char(chunk, self.opts.detach_char, self.opts.suspend_char);
        let pos: usize = match found {
            Some((pos, _)) => pos,
            None => chunk.len(),
        };
        if pos > 0 {
            let typed = chunk.split_at(pos).0;
            assert(typed@ =~= chunk@.take(pos as int));
            let _ = self.codec.encode(Message::Push(Bytes::copy_from_slice(typed)), send);
            proof {
                lemma_stream_one(MessageView::Push(chunk@.take(pos as int)));
            }
        }
        match found {
            Some((_, outcome)) => {
                if matches!(outcome, AttachOutcome::Suspended) {
                    let ghost before = buf_seq(*send);
                    let _ = self.codec.encode(Message::Detach, send);
                    proof {
                        if pos > 0 {
                            let push = MessageView::Push(chunk@.take(pos as int));
                            lemma_stream_two(push, MessageView::Detach);
                            assert(step.messages =~= seq![push, MessageView::Detach]);
                        } else {
                            lemma_stream_one(MessageView::Detach);
                            assert(step.messages =~= seq![MessageView::Detach]);
                            assert(before + frame(MessageView::Detach) =~= frame(
                                MessageView::Detach,
                            ));
                        }
                    }
                }
                Some(outcome)
            },
            None => None,
        }
    }
}

proof fn lemma_stream_one(m: MessageView)
    ensures
        stream(seq![m]) == frame(m),
        Seq::<u8>::empty() + frame(m) == frame(m),
{
    reveal_with_fuel(stream, 2);
    assert(seq![m].drop_first() =~= Seq::<MessageView>::empty());
    assert(stream(seq![m]) =~= frame(m));
    assert(Seq::<u8>::empty() + frame(m) =~= frame(m));
}

proof fn lemma_stream_two(a: MessageView, b: MessageView)
    ensures
        stream(seq![a, b]) == frame(a) + frame(b),
        Seq::<u8>::empty() + frame(a) == frame(a),
{
    lemma_stream_one(a);
    lemma_stream_one(b);
    assert(seq![a, b].drop_first() =~= seq![b]);
}

/// The messages that typed chunks lead to, up to the one that ends the attach.
pub open spec fn typed(opts: AttachOptions, chunks: Seq<Seq<u8>>) -> (
    Seq<MessageView>,
    Option<AttachOutcome>,
)
    decreases chunks.len(),
{
    if chunks.len() == 0 {
        (Seq::empty(), None)
    } else {
        let step = input_step(opts, chunks[0]);
        if step.outcome is Some {
            (step.messages, step.outcome)
        } else {
            let (rest, outcome) = typed(opts, chunks.drop_first());
            (step.messages + rest, outcome)
        }
    }
}

proof fn lemma_input_of_concat(a: Seq<MessageView>, b: Seq<MessageView>)
    ensures
        input_of(a + b) == input_of(a) + input_of(b),
    decreases b.len(),
{
    if b.len() == 0 {
        assert(a + b =~= a);
        assert(input_of(a) + input_of(b) =~= input_of(a));
    } else {
        lemma_input_of_concat(a, b.drop_last());
        assert((a + b).drop_last() =~= a + b.drop_last());
        assert(input_of(a + b) =~= input_of(a) + input_of(b));
    }
}

proof fn lemma_special_pos_concat(
    a: Seq<u8>,
    b: Seq<u8>,
    detach: Option<u8>,
    suspend: Option<u8>,
)
    ensures
        special_pos(a + b, detach, suspend) == if special_pos(a, detach, suspend) < a.len() {
            special_pos(a, detach, suspend)
        } else {
            a.len() + special_pos(b, detach, suspend)
        },
    decreases a.len(),
{
    lemma_special_pos(a, detach, suspend);
    if a.len() == 0 {
        assert(a + b =~= b);
    } else {
        assert((a + b).drop_first() =~= a.drop_first() + b);
        lemma_special_pos_concat(a.drop_first(), b, detach, suspend);
    }
}

proof fn lemma_input_step(opts: AttachOptions, chunk: Seq<u8>)
    requires
        chunk.len() > 0,
    ensures
        input_of(input_step(opts, chunk).messages) == chunk.take(
            special_pos(chunk, opts.detach_char, opts.suspend_char) as int,
        ),
{
    let pos = special_pos(chunk, opts.detach_char, opts.suspend_char) as int;
    lemma_special_pos(chunk, opts.detach_char, opts.suspend_char);
    reveal_with_fuel(input_of, 3);
    let ms = input_step(opts, chunk).messages;
    if pos > 0 {
        let push = MessageView::Push(chunk.take(pos));
        assert(seq![push].drop_last() =~= Seq::<MessageView>::empty());
        assert(input_of(seq![push]) =~= chunk.take(pos));
        assert(seq![push].push(MessageView::Detach).drop_last() =~= seq![push]);
    } else {
        let none = Seq::<MessageView>::empty();
        assert(none.push(MessageView::Detach).drop_last() =~= none);
        assert(input_of(ms) =~= chunk.take(pos));
    }
}

/// What is typed is forwarded verbatim up to the first special character and
/// nothing after it, however the input is cut into chunks; the attach ends
/// there, and only there.
pub proof fn law_input_is_forwarded_up_to_the_special_char(
    opts: AttachOptions,
    chunks: Seq<Seq<u8>>,
)
    requires
        forall|i: int| 0 <= i < chunks.len() ==> (#[trigger] chunks[i]).len() > 0,
    ensures
        ({
            let all = concat(chunks);
            let pos = special_pos(all, opts.detach_char, opts.suspend_char) as int;
            let (messages, outcome) = typed(opts, chunks);
            &&& input_of(messages) == all.take(pos)
            &&& outcome == if pos < all.len() {
                special(all[pos], opts.detach_char, opts.suspend_char)
            } else {
                None
            }
        }),
    decreases chunks.len(),
{
    let all = concat(chunks);
    let pos = special_pos(all, opts.detach_char, opts.suspend_char) as int;
    if chunks.len() == 0 {
        assert(all =~= Seq::<u8>::empty());
        assert(input_of(Seq::<MessageView>::empty()) =~= all.take(pos));
    } else {
        let first = chunks[0];
        let rest = chunks.drop_first();
        assert forall|i: int| 0 <= i < rest.len() implies (#[trigger] rest[i]).len() > 0 by {
            assert(rest[i] == chunks[i + 1]);
        }
        law_input_is_forwarded_up_to_the_special_char(opts, rest);
        lemma_input_step(opts, first);
        lemma_special_pos(first, opts.detach_char, opts.suspend_char);
        lemma_special_pos(concat(rest), opts.detach_char, opts.suspend_char);
        lemma_special_pos_concat(first, concat(rest), opts.detach_char, opts.suspend_char);
        assert(all == first + concat(rest));
        let step = input_step(opts, first);
        if step.outcome is Some {
            assert(first.take(pos) =~= all.take(pos));
        } else {
            lemma_input_of_concat(step.messages, typed(opts, rest).0);
            assert(first.take(first.len() as int) =~= first);
            assert(first + concat(rest).take(pos - first.len()) =~= all.take(pos));
        }
    }
}

/// Every message of a typed chunk is within what a daemon accepts, as long as
/// the chunk is.
pub proof fn law_typed_messages_fit(opts: AttachOptions, chunk: Seq<u8>, i: int, max: usize)
    requires
        chunk.len() <= max,
        chunk.len() <= u32::MAX,
        0 <= i < input_step(opts, chunk).messages.len(),
    ensures
        crate::codec::fits(input_step(opts, chunk).messages[i], max),
{
    lemma_special_pos(chunk, opts.detach_char, opts.suspend_char);
}

/// Refuses an attach to a session that this process runs in: directly, or
/// through the sessions in between.
pub fn self_attach_error(chain: Option<&str>, socket_path: &str) -> (r: Option<&'static str>)
    ensures
        r is Some == ancestors(opt_view(chain)).contains(socket_path@),
        r matches Some(text) ==> text@ == SELF_ATTACH_TEXT@,
{
    if ancestry_contains(chain, socket_path) {
        Some(SELF_ATTACH_TEXT)
    } else {
        None
    }
}

/// The rows and columns to work with: those that a terminal reports, and the
/// default where there is no terminal or it reports none.
pub fn terminal_size(is_tty: bool, reported: Option<(u16, u16)>) -> (size: (u16, u16))
    ensures
        size == (match reported {
            Some(s) => if is_tty {
                s
            } else {
                (DEFAULT_ROWS, DEFAULT_COLS)
            },
            None => (DEFAULT_ROWS, DEFAULT_COLS),
        }),
{
    match reported {
        Some(s) => if is_tty {
            s
        } else {
            (DEFAULT_ROWS, DEFAULT_COLS)
        },
        None => (DEFAULT_ROWS, DEFAULT_COLS),
    }
}

/// How the foreground attaches: with no suspend character, a redraw by window
/// change, and without the daemon's scrollback where the log was replayed.
pub fn foreground_options(
    detach_char: Option<u8>,
    replayed: bool,
    is_tty: bool,
    reported: Option<(u16, u16)>,
) -> (opts: AttachOptions)
    ensures
        opts.detach_char == detach_char,
        opts.suspend_char is None,
        opts.redraw_method == RedrawMethod::Winch,
        opts.skip_ring == replayed,
        reported matches Some(s) ==> is_tty ==> (opts.rows, opts.cols) == s,
        !is_tty || reported is None ==> opts.rows == DEFAULT_ROWS && opts.cols == DEFAULT_COLS,
{
    let (rows, cols): (u16, u16) = terminal_size(is_tty, reported);
    AttachOptions {
        detach_char,
        suspend_char: None,
        redraw_method: RedrawMethod::Winch,
        rows,
        cols,
        skip_ring: replayed,
    }
}

/// Whether an empty line sets the session apart from what was on the screen:
/// not if the log was replayed, nor if nothing is to be said.
pub fn wants_blank_line(quiet: bool, replayed: bool) -> (r: bool)
    ensures
        r == (!quiet && !replayed),
{
    !quiet && !replayed
}

/// What is written to the terminal for a log, if it could be read: a soft
/// reset, then the log as it is. A log that is missing or empty is not
/// replayed.
pub fn replay(log: Option<&[u8]>) -> (r: Option<Vec<u8>>)
    ensures
        match log {
            Some(bytes) => if bytes@.len() > 0 {
                r matches Some(out) && out@ == encode_utf8(PRE_REPLAY_RESET@) + bytes@
            } else {
                r is None
            },
            None => r is None,
        },
{
    match log {
        Some(bytes) => {
            if bytes.len() == 0 {
                return None;
            }
            let mut out = slice_to_vec(PRE_REPLAY_RESET.as_bytes());
            out.extend_from_slice(bytes);
            Some(out)
        },
        None => None,
    }
}

/// The handshake does what the options ask for, on the daemon's side of the
/// socket: the daemon decodes two messages and nothing is left over. The first
/// subscribes the client, and shows it the scrollback unless the options say to
/// skip it; the second resizes the pty to the options' window, unless no redraw
/// is wanted.
pub proof fn law_handshake_does_what_the_options_ask(
    opts: AttachOptions,
    attach: &mut AttachLoop,
    send: BytesMut,
    pushed: Seq<Seq<u8>>,
    scrollback: nat,
)
    requires
        call_ensures(AttachLoop::new, (opts,), *old(attach)),
        call_ensures(AttachLoop::handshake, (attach,), send),
    ensures
        ({
            let (ms, rest) = decoded_all(buf_seq(send), DEFAULT_MAX_FRAME_LEN);
            let (from, answer) = client_step(None, ms[0], pushed, scrollback);
            &&& rest.len() == 0
            &&& ms.len() == 2
            &&& from == Some(pushed.len())
            &&& answer is Wait <==> opts.skip_ring
            &&& !opts.skip_ring ==> answer == ActionView::Write(tail(concat(pushed), scrollback))
            &&& ms[0] == (MessageView::Attach { skip_ring: opts.skip_ring })
            &&& ms[1] == (MessageView::Redraw {
                method: opts.redraw_method,
                rows: opts.rows,
                cols: opts.cols,
            })
            &&& commands_of(ms) == if opts.redraw_method == RedrawMethod::NoRedraw {
                Seq::<CommandView>::empty()
            } else {
                seq![CommandView::Resize(opts.rows, opts.cols)]
            }
        }),
        final(attach).options() == opts,
{
    let ms = seq![
        MessageView::Attach { skip_ring: opts.skip_ring },
        MessageView::Redraw { method: opts.redraw_method, rows: opts.rows, cols: opts.cols },
    ];
    assert(handshake_messages(opts) =~= ms);
    lemma_daemon_decodes(ms);
    lemma_commands_of_two(ms[0], ms[1]);
    assert(ms =~= seq![ms[0], ms[1]]);
}

proof fn lemma_commands_of_two(a: MessageView, b: MessageView)
    requires
        command_of(a) is None,
    ensures
        commands_of(seq![a, b]) == (match command_of(b) {
            Some(c) => seq![c],
            None => Seq::empty(),
        }),
        commands_of(seq![a]) == Seq::<CommandView>::empty(),
{
    reveal_with_fuel(commands_of, 3);
    assert(seq![a, b].drop_last() =~= seq![a]);
    assert(seq![a].drop_last() =~= Seq::<MessageView>::empty());
    assert(commands_of(seq![a]) =~= Seq::<CommandView>::empty());
    match command_of(b) {
        Some(c) => {
            assert(commands_of(seq![a, b]) =~= seq![c]);
        },
        None => {},
    }
}

/// The daemon decodes the messages that were framed, and nothing is left over.
pub proof fn lemma_daemon_decodes(ms: Seq<MessageView>)
    requires
        forall|i: int| 0 <= i < ms.len() ==> fits(#[trigger] ms[i], DEFAULT_MAX_FRAME_LEN),
    ensures
        decoded_all(stream(ms), DEFAULT_MAX_FRAME_LEN) == (ms, Seq::<u8>::empty()),
{
    let next = MessageView::Detach;
    law_stream_of_frames(ms, next, 0, DEFAULT_MAX_FRAME_LEN);
    assert(frame(next).take(0) =~= Seq::<u8>::empty());
    assert(stream(ms) + frame(next).take(0) =~= stream(ms));
}

/// Whether a byte is neither the detach nor the suspend character.
pub open spec fn is_plain(b: u8, opts: AttachOptions) -> bool {
    opts.detach_char != Some(b) && opts.suspend_char != Some(b)
}

proof fn lemma_special_pos_is(chunk: Seq<u8>, opts: AttachOptions, pos: int)
    requires
        0 <= pos <= chunk.len(),
        forall|j: int| 0 <= j < pos ==> is_plain(#[trigger] chunk[j], opts),
        pos < chunk.len() ==> !is_plain(chunk[pos], opts),
    ensures
        special_pos(chunk, opts.detach_char, opts.suspend_char) == pos,
{
    lemma_special_pos(chunk, opts.detach_char, opts.suspend_char);
    let p = special_pos(chunk, opts.detach_char, opts.suspend_char) as int;
    if p < pos {
        assert(is_plain(chunk[p], opts));
    }
    if pos < p {
        assert(special(chunk[pos], opts.detach_char, opts.suspend_char) is None);
    }
}

/// What is typed, on the daemon's side of the socket. The bytes before the
/// first special character arrive as input, verbatim, and none after it. A
/// suspend character ends the attach as suspended, after the daemon is told to
/// stop sending; a detach character ends it as detached, and the daemon is told
/// nothing. Without a special character the attach goes on. Nothing is shown.
pub proof fn law_typed_bytes_arrive_up_to_the_special_char(
    attach: &mut AttachLoop,
    chunk: &[u8],
    pos: int,
    action: AttachAction,
)
    requires
        call_ensures(AttachLoop::on_event, (attach, AttachEvent::Input(chunk)), action),
        0 < chunk@.len() <= DEFAULT_MAX_FRAME_LEN,
        0 <= pos <= chunk@.len(),
        forall|j: int| 0 <= j < pos ==> is_plain(#[trigger] chunk@[j], old(attach).options()),
        pos < chunk@.len() ==> !is_plain(chunk@[pos], old(attach).options()),
    ensures
        ({
            let opts = old(attach).options();
            let (ms, rest) = decoded_all(buf_seq(action.send), DEFAULT_MAX_FRAME_LEN);
            let suspends = pos < chunk@.len() && opts.suspend_char == Some(chunk@[pos]);
            &&& rest.len() == 0
            &&& input_of(ms) == chunk@.take(pos)
            &&& ms.len() == (if pos > 0 { 1int } else { 0 }) + (if suspends { 1int } else { 0 })
            &&& suspends ==> ms.last() is Detach
            &&& pos > 0 ==> ms[0] == MessageView::Push(chunk@.take(pos))
            &&& action.outcome == if pos == chunk@.len() {
                None
            } else if suspends {
                Some(AttachOutcome::Suspended)
            } else {
                Some(AttachOutcome::Detached)
            }
        }),
        !action.show,
        !action.stop_watching,
        final(attach).options() == old(attach).options(),
{
    let opts = old(attach).options();
    lemma_special_pos_is(chunk@, opts, pos);
    lemma_input_step(opts, chunk@);
    let ms = input_step(opts, chunk@).messages;
    assert forall|i: int| 0 <= i < ms.len() implies fits(#[trigger] ms[i], DEFAULT_MAX_FRAME_LEN) by {
        law_typed_messages_fit(opts, chunk@, i, DEFAULT_MAX_FRAME_LEN);
    }
    lemma_daemon_decodes(ms);
}

/// The end of the input ends the attach, and the daemon is told nothing. The
/// end of the connection ends the session. Output is shown, all of it, and
/// nothing is sent for it.
pub proof fn law_ends_and_output(
    attach: &mut AttachLoop,
    event: AttachEvent,
    action: AttachAction,
)
    requires
        call_ensures(AttachLoop::on_event, (attach, event), action),
        event matches AttachEvent::Input(chunk) ==> chunk@.len() == 0,
        !(event is Resized),
    ensures
        buf_seq(action.send).len() == 0,
        action.outcome == Some(AttachOutcome::InputClosed) <==> event is Input,
        action.outcome == Some(AttachOutcome::SessionEnded) <==> (event matches AttachEvent::Output(
            chunk,
        ) && chunk@.len() == 0),
        action.outcome is Some ==> event is Input || event is Output,
        action.show <==> (event matches AttachEvent::Output(chunk) && chunk@.len() > 0),
        action.stop_watching <==> event is ResizesOver,
        final(attach).options() == old(attach).options(),
{
}

/// A change of the window size arrives at the daemon as one resize to exactly
/// that size, and the attach goes on.
pub proof fn law_resizes_are_passed_on(
    attach: &mut AttachLoop,
    rows: u16,
    cols: u16,
    action: AttachAction,
)
    requires
        call_ensures(AttachLoop::on_event, (attach, AttachEvent::Resized(rows, cols)), action),
    ensures
        ({
            let (ms, rest) = decoded_all(buf_seq(action.send), DEFAULT_MAX_FRAME_LEN);
            &&& rest.len() == 0
            &&& ms == seq![MessageView::Winch { rows, cols }]
            &&& commands_of(ms) == seq![CommandView::Resize(rows, cols)]
        }),
        action.outcome is None,
        !action.show,
        !action.stop_watching,
        final(attach).options() == old(attach).options(),
{
    let m = MessageView::Winch { rows, cols };
    let ms = seq![m];
    lemma_daemon_decodes(ms);
    reveal_with_fuel(commands_of, 2);
    assert(ms.drop_last() =~= Seq::<MessageView>::empty());
    assert(commands_of(ms) =~= seq![CommandView::Resize(rows, cols)]);
}

/// What is typed over a whole attach arrives up to the first special character
/// and no further, however it was cut into chunks.
pub proof fn law_typed_stream_arrives_up_to_the_special_char(
    opts: AttachOptions,
    chunks: Seq<Seq<u8>>,
    pos: int,
)
    requires
        forall|i: int| 0 <= i < chunks.len() ==> (#[trigger] chunks[i]).len() > 0,
        0 <= pos <= concat(chunks).len(),
        forall|j: int| 0 <= j < pos ==> is_plain(#[trigger] concat(chunks)[j], opts),
        pos < concat(chunks).len() ==> !is_plain(concat(chunks)[pos], opts),
    ensures
        input_of(typed(opts, chunks).0) == concat(chunks).take(pos),
        typed(opts, chunks).1 is None <==> pos == concat(chunks).len(),
        pos < concat(chunks).len() ==> (typed(opts, chunks).1 == Some(AttachOutcome::Suspended)
            <==> opts.suspend_char == Some(concat(chunks)[pos])),
{
    lemma_special_pos_is(concat(chunks), opts, pos);
    law_input_is_forwarded_up_to_the_special_char(opts, chunks);
}

/// The special character that is found is the first one, and none is found
/// only where there is none.
pub proof fn law_first_special_char_is_found(
    chunk: &[u8],
    detach: Option<u8>,
    suspend: Option<u8>,
    r: Option<(usize, AttachOutcome)>,
    j: int,
)
    requires
        call_ensures(find_special_char, (chunk, detach, suspend), r),
        0 <= j < chunk@.len(),
    ensures
        r is None ==> detach != Some(chunk@[j]) && suspend != Some(chunk@[j]),
        r matches Some((pos, outcome)) ==> {
            &&& pos < chunk@.len()
            &&& j < pos ==> detach != Some(chunk@[j]) && suspend != Some(chunk@[j])
            &&& outcome == AttachOutcome::Suspended <==> suspend == Some(chunk@[pos as int])
            &&& outcome == AttachOutcome::Detached <==> detach == Some(chunk@[pos as int])
                && suspend != detach
        },
{
    lemma_special_pos(chunk@, detach, suspend);
    assert(j < special_pos(chunk@, detach, suspend) ==> special(chunk@[j], detach, suspend) is None);
}

/// An attach is refused exactly if its target is among the sessions that this
/// process runs in, and says so.
pub proof fn law_self_attach_is_refused(
    chain: Option<&str>,
    socket_path: &str,
    r: Option<&'static str>,
    guarded: bool,
)
    requires
        call_ensures(self_attach_error, (chain, socket_path), r),
        call_ensures(ancestry_contains, (chain, socket_path), guarded),
    ensures
        r is Some <==> guarded,
        r is Some <==> ancestors(opt_view(chain)).contains(socket_path@),
        r matches Some(text) ==> text@ == "cannot attach to session from within itself"@,
{
}

/// The foreground attaches with what it was given, to the size that the
/// terminal reports; without a terminal, or a size, to 24 rows and 80 columns.
/// The daemon's scrollback is skipped exactly if the log was replayed, and a
/// blank line is wanted only where nothing was and something may be said.
pub proof fn law_foreground_attaches_as_it_was_told(
    detach_char: Option<u8>,
    replayed: bool,
    quiet: bool,
    is_tty: bool,
    reported: Option<(u16, u16)>,
    opts: AttachOptions,
    size: (u16, u16),
    blank: bool,
)
    requires
        call_ensures(foreground_options, (detach_char, replayed, is_tty, reported), opts),
        call_ensures(terminal_size, (is_tty, reported), size),
        call_ensures(wants_blank_line, (quiet, replayed), blank),
    ensures
        opts.detach_char == detach_char,
        opts.suspend_char is None,
        opts.skip_ring == replayed,
        opts.redraw_method == RedrawMethod::Winch,
        (opts.rows, opts.cols) == size,
        is_tty && reported is Some ==> size == reported->0,
        !is_tty || reported is None ==> size == (24u16, 80u16),
        blank <==> !quiet && !replayed,
{
}

/// A log is replayed whole, behind the soft reset; a missing or empty one is
/// not replayed at all.
pub proof fn law_replay_ends_with_the_whole_log(log: Option<&[u8]>, r: Option<Vec<u8>>)
    requires
        call_ensures(replay, (log,), r),
    ensures
        r is Some <==> (log matches Some(bytes) && bytes@.len() > 0),
        r matches Some(out) ==> log matches Some(bytes) && bytes@.is_suffix_of(out@) && out@.take(
            out@.len() - bytes@.len(),
        ) == encode_utf8("\x1b[!p\x1b[0m\x1b[?1049l\x1b[?25h"@),
{
    if r is Some {
        let out = r->0@;
        let bytes = log->0@;
        assert(out.take(out.len() - bytes.len()) =~= encode_utf8(PRE_REPLAY_RESET@));
        assert(bytes =~= out.subrange(out.len() - bytes.len(), out.len() as int));
    }
}

/// The reset before a replay is never a full reset (an escape and a `c`), which
/// would wipe the terminal's scrollback. What is read at once is 4096 bytes, so
/// that it fits in one frame.
pub proof fn law_replay_spares_the_scrollback(i: int)
    requires
        0 <= i < PRE_REPLAY_RESET@.len() - 1,
    ensures
        PRE_REPLAY_RESET@[i] == '\x1b' ==> PRE_REPLAY_RESET@[i + 1] == '[',
        ATTACH_READ_SIZE == 4096,
        ATTACH_READ_SIZE <= DEFAULT_MAX_FRAME_LEN,
{
    reveal_strlit("\x1b[!p\x1b[0m\x1b[?1049l\x1b[?25h");
}

} // verus!
