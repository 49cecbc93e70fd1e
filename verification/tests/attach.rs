use bytes::{Bytes, BytesMut};
use hytch::attach::{
    find_special_char, foreground_options, replay, self_attach_error, terminal_size,
    wants_blank_line, AttachEvent, AttachLoop, AttachOptions, AttachOutcome, PRE_REPLAY_RESET,
};
use hytch::{Message, MessageCodec, RedrawMethod};

fn opts(detach_char: Option<u8>, suspend_char: Option<u8>) -> AttachOptions {
    AttachOptions {
        detach_char,
        suspend_char,
        redraw_method: RedrawMethod::Winch,
        rows: 24,
        cols: 80,
        skip_ring: false,
    }
}

/// A daemon that decodes what it is sent.
struct Daemon {
    codec: MessageCodec,
    buf: BytesMut,
}

impl Daemon {
    fn new() -> Self {
        Daemon {
            codec: MessageCodec::default(),
            buf: BytesMut::new(),
        }
    }

    fn receive(&mut self, bytes: &BytesMut) -> Vec<Message> {
        self.buf.extend_from_slice(bytes);
        let mut messages = Vec::new();
        while let Some(message) = self.codec.decode(&mut self.buf).unwrap() {
            messages.push(message);
        }
        messages
    }
}

fn push(data: &'static [u8]) -> Message {
    Message::Push(Bytes::from_static(data))
}

fn attached(opts: AttachOptions) -> (AttachLoop, Daemon) {
    let mut attach = AttachLoop::new(opts);
    let mut daemon = Daemon::new();
    let hello = daemon.receive(&attach.handshake());
    assert_eq!(
        hello,
        vec![
            Message::Attach {
                skip_ring: opts.skip_ring
            },
            Message::Redraw {
                method: opts.redraw_method,
                rows: opts.rows,
                cols: opts.cols
            },
        ]
    );
    (attach, daemon)
}

#[test]
fn keystrokes_forwarded_and_daemon_output_written_verbatim() {
    let (mut attach, mut daemon) = attached(opts(Some(0x1c), None));
    let action = attach.on_event(AttachEvent::Input(b"hello"));
    assert_eq!(action.outcome, None);
    assert!(!action.show);
    assert_eq!(daemon.receive(&action.send), vec![push(b"hello")]);

    let action = attach.on_event(AttachEvent::Output(b"echo-back"));
    assert!(action.show);
    assert!(action.send.is_empty());
    assert_eq!(action.outcome, None);

    let action = attach.on_event(AttachEvent::Output(b""));
    assert!(!action.show);
    assert_eq!(action.outcome, Some(AttachOutcome::SessionEnded));
}

#[test]
fn every_output_chunk_is_to_be_shown_at_once() {
    let (mut attach, _) = attached(opts(Some(0x1c), None));
    for chunk in [&b"c"[..], b"d"] {
        assert!(attach.on_event(AttachEvent::Output(chunk)).show);
    }
}

#[test]
fn local_stdin_eof_reports_input_closed_not_session_ended() {
    let (mut attach, _) = attached(opts(Some(0x1c), None));
    let action = attach.on_event(AttachEvent::Input(b""));
    assert!(action.send.is_empty());
    assert_eq!(action.outcome, Some(AttachOutcome::InputClosed));
}

#[test]
fn detach_char_exits_locally_without_forwarding_anything_after_it() {
    let (mut attach, mut daemon) = attached(opts(Some(0x1c), None));
    let action = attach.on_event(AttachEvent::Input(b"ab\x1cc"));
    assert_eq!(
        daemon.receive(&action.send),
        vec![push(b"ab")],
        "only bytes before the detach char should be forwarded"
    );
    assert_eq!(action.outcome, Some(AttachOutcome::Detached));
}

#[test]
fn suspend_char_sends_detach_message_and_returns_suspended() {
    let (mut attach, mut daemon) = attached(opts(Some(0x1c), Some(0x1a)));
    let action = attach.on_event(AttachEvent::Input(b"x\x1a"));
    assert_eq!(
        daemon.receive(&action.send),
        vec![push(b"x"), Message::Detach]
    );
    assert_eq!(action.outcome, Some(AttachOutcome::Suspended));
}

#[test]
fn resize_event_sends_winch_to_daemon() {
    let (mut attach, mut daemon) = attached(opts(Some(0x1c), None));
    let action = attach.on_event(AttachEvent::Resized(50, 120));
    assert_eq!(
        daemon.receive(&action.send),
        vec![Message::Winch {
            rows: 50,
            cols: 120
        }]
    );
    assert_eq!(action.outcome, None);
    let action = attach.on_event(AttachEvent::Output(b""));
    assert_eq!(action.outcome, Some(AttachOutcome::SessionEnded));
}

#[test]
fn the_end_of_resize_events_only_stops_the_watch() {
    let (mut attach, _) = attached(opts(None, None));
    let action = attach.on_event(AttachEvent::ResizesOver);
    assert!(action.stop_watching);
    assert!(action.send.is_empty());
    assert!(!action.show);
    assert_eq!(action.outcome, None);
}

#[test]
fn a_special_char_alone_pushes_nothing() {
    let (mut attach, mut daemon) = attached(opts(Some(0x1c), Some(0x1a)));
    let action = attach.on_event(AttachEvent::Input(b"\x1cabc"));
    assert!(action.send.is_empty());
    assert_eq!(action.outcome, Some(AttachOutcome::Detached));
    let action = attach.on_event(AttachEvent::Input(b"\x1aabc"));
    assert_eq!(daemon.receive(&action.send), vec![Message::Detach]);
    assert_eq!(action.outcome, Some(AttachOutcome::Suspended));
}

#[test]
fn the_earliest_special_char_wins() {
    assert_eq!(
        find_special_char(b"ab\x1a\x1c", Some(0x1c), Some(0x1a)),
        Some((2, AttachOutcome::Suspended))
    );
    assert_eq!(
        find_special_char(b"ab\x1c\x1a", Some(0x1c), Some(0x1a)),
        Some((2, AttachOutcome::Detached))
    );
    assert_eq!(
        find_special_char(b"x", Some(b'x'), Some(b'x')),
        Some((0, AttachOutcome::Suspended))
    );
    assert_eq!(find_special_char(b"ab\x1c", None, None), None);
    assert_eq!(find_special_char(b"", Some(0x1c), None), None);
}

#[test]
fn input_is_forwarded_up_to_the_special_char_however_it_is_cut() {
    let typed = b"one two\x1cthree";
    for size in 1..=typed.len() {
        let (mut attach, mut daemon) = attached(opts(Some(0x1c), None));
        let mut forwarded = Vec::new();
        let mut outcome = None;
        for chunk in typed.chunks(size) {
            let action = attach.on_event(AttachEvent::Input(chunk));
            for message in daemon.receive(&action.send) {
                match message {
                    Message::Push(data) => forwarded.extend_from_slice(&data),
                    other => panic!("expected Push, got {other:?}"),
                }
            }
            outcome = action.outcome;
            if outcome.is_some() {
                break;
            }
        }
        assert_eq!(forwarded, b"one two");
        assert_eq!(outcome, Some(AttachOutcome::Detached));
    }
}

#[test]
fn self_attach_is_refused_directly_and_indirectly() {
    let text = "cannot attach to session from within itself";
    assert_eq!(self_attach_error(Some("/s/main"), "/s/main"), Some(text));
    assert_eq!(self_attach_error(Some("/s/a:/s/b"), "/s/a"), Some(text));
    assert_eq!(self_attach_error(Some("/s/a:/s/b"), "/s/c"), None);
    assert_eq!(self_attach_error(None, "/s/a"), None);
}

#[test]
fn terminal_size_falls_back() {
    assert_eq!(terminal_size(true, Some((50, 120))), (50, 120));
    assert_eq!(terminal_size(true, None), (24, 80));
    assert_eq!(terminal_size(false, Some((50, 120))), (24, 80));
}

#[test]
fn foreground_attaches_with_these_options() {
    assert_eq!(
        foreground_options(Some(28), true, true, Some((50, 120))),
        AttachOptions {
            detach_char: Some(28),
            suspend_char: None,
            redraw_method: RedrawMethod::Winch,
            rows: 50,
            cols: 120,
            skip_ring: true,
        }
    );
    let plain = foreground_options(None, false, false, Some((50, 120)));
    assert_eq!((plain.rows, plain.cols), (24, 80));
    assert!(!plain.skip_ring);
}

#[test]
fn blank_line_only_before_unreplayed_history() {
    assert!(wants_blank_line(false, false));
    assert!(!wants_blank_line(true, false));
    assert!(!wants_blank_line(false, true));
    assert!(!wants_blank_line(true, true));
}

#[test]
fn replay_is_preceded_by_a_soft_reset() {
    assert_eq!(
        replay(Some(b"history")),
        Some(b"\x1b[!p\x1b[0m\x1b[?1049l\x1b[?25hhistory".to_vec())
    );
    assert!(!PRE_REPLAY_RESET.contains("\x1bc"));
    assert_eq!(replay(Some(b"")), None);
    assert_eq!(replay(None), None);
}
