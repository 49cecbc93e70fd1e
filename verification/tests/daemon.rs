use bytes::{Bytes, BytesMut};
use hytch::daemon::{
    child_chain, end_marker, exit_code, next_source, on_event, ClientAction, ClientSession, DaemonAction,
    DaemonConfig, DaemonEvent, Incoming, Lane, Outgoing, PtyCommand, ShutdownReason, Source,
    BROADCAST_CAPACITY, PTY_WRITE_TIMEOUT_MS,
};
use hytch::fanout::Fanout;
use hytch::{Message, MessageCodec, RedrawMethod};
use std::collections::VecDeque;

fn fanout() -> Fanout {
    Fanout::new(4096, BROADCAST_CAPACITY)
}

fn config() -> DaemonConfig {
    DaemonConfig {
        socket_path: "/s/session.sock".to_string(),
        log_path: None,
        log_max_size: 1024 * 1024,
        scrollback_size: 4096,
        program: "cat".to_string(),
        args: vec![],
        initial_rows: 24,
        initial_cols: 80,
    }
}

fn send(client: &mut ClientSession, fanout: &Fanout, message: Message) -> ClientAction {
    client.on_incoming(Incoming::Received(message), fanout)
}

fn read_for(client: &mut ClientSession) -> Vec<u8> {
    let mut collected = Vec::new();
    loop {
        let received = match client.receiver.as_mut() {
            Some(rx) => rx.try_recv(),
            None => return collected,
        };
        match received {
            Ok(data) => match client.on_outgoing(Outgoing::Data(data)) {
                ClientAction::Forward(data) => collected.extend_from_slice(&data),
                other => panic!("expected output, got {other:?}"),
            },
            Err(_) => return collected,
        }
    }
}

#[test]
fn two_attached_clients_see_byte_identical_fanout() {
    let mut fanout = fanout();
    let mut a = ClientSession::new();
    let mut b = ClientSession::new();
    send(&mut a, &fanout, Message::Attach { skip_ring: false });
    send(&mut b, &fanout, Message::Attach { skip_ring: false });
    on_event(DaemonEvent::Output(b"ping\n"), false, &mut fanout);

    let (out_a, out_b) = (read_for(&mut a), read_for(&mut b));
    assert!(!out_a.is_empty(), "client A should have received output");
    assert_eq!(
        out_a, out_b,
        "both attached clients must see identical bytes"
    );
}

#[test]
fn reattaching_after_disconnect_replays_ring_buffer() {
    let mut fanout = fanout();
    {
        let mut a = ClientSession::new();
        send(&mut a, &fanout, Message::Attach { skip_ring: false });
        on_event(DaemonEvent::Output(b"marker\n"), false, &mut fanout);
    }
    let mut b = ClientSession::new();
    match send(&mut b, &fanout, Message::Attach { skip_ring: false }) {
        ClientAction::Replay(replay) => assert!(
            replay.windows(6).any(|w| w == b"marker"),
            "reattaching client should see 'marker' replayed from scrollback, got {replay:?}"
        ),
        other => panic!("expected a replay, got {other:?}"),
    }
    assert!(read_for(&mut b).is_empty());
}

#[test]
fn kill_message_is_applied_and_the_end_of_the_child_stops_the_daemon() {
    let mut fanout = fanout();
    let mut client = ClientSession::new();
    let action = send(&mut client, &fanout, Message::Kill { signal: 9 });
    assert_eq!(action, ClientAction::Submit(PtyCommand::Signal(9)));
    let action = on_event(
        DaemonEvent::Command(PtyCommand::Signal(9)),
        true,
        &mut fanout,
    );
    assert_eq!(
        action,
        DaemonAction::Apply {
            command: PtyCommand::Signal(9),
            limit_ms: None
        }
    );
    assert_eq!(
        on_event(DaemonEvent::Output(b""), true, &mut fanout),
        DaemonAction::AwaitChild
    );
    assert_eq!(
        on_event(DaemonEvent::ChildExited(None), true, &mut fanout),
        DaemonAction::Stop(ShutdownReason::ChildExited(None))
    );
}

#[test]
fn kill_stays_responsive_even_behind_a_stuck_push_backlog() {
    let mut fanout = fanout();
    let mut client = ClientSession::new();
    let mut control = VecDeque::new();
    let mut pushes = VecDeque::new();
    let mut messages: Vec<Message> = (0..8)
        .map(|_| Message::Push(Bytes::from(vec![b'x'; 60_000])))
        .collect();
    messages.push(Message::Kill { signal: 9 });
    for message in messages {
        match send(&mut client, &fanout, message) {
            ClientAction::Submit(command) => match command.lane() {
                Lane::Control => control.push_back(command),
                Lane::Push => pushes.push_back(command),
            },
            other => panic!("expected a command, got {other:?}"),
        }
    }

    let ready = next_source(!control.is_empty(), false, false, true, !pushes.is_empty());
    assert_eq!(ready, Some(Source::Control));
    let kill = control.pop_front().unwrap();
    assert_eq!(kill, PtyCommand::Signal(9));
    let action = on_event(DaemonEvent::Command(kill), false, &mut fanout);
    assert!(matches!(action, DaemonAction::Apply { limit_ms: None, .. }));

    let ready = next_source(!control.is_empty(), false, false, true, !pushes.is_empty());
    assert_eq!(ready, Some(Source::Output));
    let push = pushes.pop_front().unwrap();
    let action = on_event(DaemonEvent::Command(push), false, &mut fanout);
    assert!(matches!(
        action,
        DaemonAction::Apply {
            limit_ms: Some(PTY_WRITE_TIMEOUT_MS),
            ..
        }
    ));
}

#[test]
fn commands_have_their_lanes() {
    assert_eq!(PtyCommand::Push(Bytes::new()).lane(), Lane::Push);
    assert_eq!(PtyCommand::Signal(9).lane(), Lane::Control);
    assert_eq!(PtyCommand::Resize(24, 80).lane(), Lane::Control);
}

#[test]
fn sources_are_served_in_order() {
    let order = [
        Source::Control,
        Source::Signal,
        Source::Connection,
        Source::Output,
        Source::Push,
    ];
    for bits in 0u32..32 {
        let on = |i: u32| bits >> i & 1 == 1;
        let expected = (0u32..5).find(|&i| on(i)).map(|i| order[i as usize]);
        assert_eq!(next_source(on(0), on(1), on(2), on(3), on(4)), expected);
    }
}

#[test]
fn other_messages_leave_the_receiver_alone() {
    let mut fanout = fanout();
    let mut client = ClientSession::new();
    send(&mut client, &fanout, Message::Attach { skip_ring: true });
    on_event(DaemonEvent::Output(b"one"), false, &mut fanout);
    send(&mut client, &fanout, Message::Winch { rows: 1, cols: 2 });
    send(&mut client, &fanout, Message::Kill { signal: 9 });
    on_event(DaemonEvent::Output(b"two"), false, &mut fanout);
    assert_eq!(read_for(&mut client), b"onetwo");
}

#[test]
fn attach_can_skip_the_ring() {
    let mut fanout = fanout();
    on_event(DaemonEvent::Output(b"old"), false, &mut fanout);
    let mut client = ClientSession::new();
    let action = send(&mut client, &fanout, Message::Attach { skip_ring: true });
    assert_eq!(action, ClientAction::Wait);
    on_event(DaemonEvent::Output(b"new"), false, &mut fanout);
    assert_eq!(read_for(&mut client), b"new");
}

#[test]
fn detached_client_receives_nothing() {
    let mut fanout = fanout();
    let mut client = ClientSession::new();
    assert!(client.receiver.is_none());
    send(&mut client, &fanout, Message::Attach { skip_ring: true });
    assert!(client.receiver.is_some());
    let action = send(&mut client, &fanout, Message::Detach);
    assert_eq!(action, ClientAction::Wait);
    on_event(DaemonEvent::Output(b"new"), false, &mut fanout);
    assert!(client.receiver.is_none());
    assert!(read_for(&mut client).is_empty());
}

#[test]
fn messages_turn_into_commands() {
    let fanout = fanout();
    let mut client = ClientSession::new();
    let data = Bytes::from_static(b"ls\n");
    assert_eq!(
        send(&mut client, &fanout, Message::Push(data.clone())),
        ClientAction::Submit(PtyCommand::Push(data))
    );
    assert_eq!(
        send(&mut client, &fanout, Message::Winch { rows: 5, cols: 6 }),
        ClientAction::Submit(PtyCommand::Resize(5, 6))
    );
    for (method, resizes) in [
        (RedrawMethod::Unspecified, true),
        (RedrawMethod::NoRedraw, false),
        (RedrawMethod::CtrlL, true),
        (RedrawMethod::Winch, true),
    ] {
        let action = send(
            &mut client,
            &fanout,
            Message::Redraw {
                method,
                rows: 7,
                cols: 8,
            },
        );
        let expected = if resizes {
            ClientAction::Submit(PtyCommand::Resize(7, 8))
        } else {
            ClientAction::Wait
        };
        assert_eq!(action, expected);
    }
}

#[test]
fn unknown_signals_ask_for_termination() {
    let fanout = fanout();
    let mut client = ClientSession::new();
    for (byte, signal) in [
        (0u8, 15),
        (1, 1),
        (9, 9),
        (15, 15),
        (31, 31),
        (32, 15),
        (255, 15),
    ] {
        assert_eq!(
            send(&mut client, &fanout, Message::Kill { signal: byte }),
            ClientAction::Submit(PtyCommand::Signal(signal))
        );
    }
}

#[test]
fn broken_and_slow_clients_are_disconnected() {
    let fanout = fanout();
    let mut client = ClientSession::new();
    assert_eq!(
        client.on_incoming(Incoming::Malformed, &fanout),
        ClientAction::Disconnect
    );
    assert_eq!(
        client.on_incoming(Incoming::HungUp, &fanout),
        ClientAction::Disconnect
    );
    assert_eq!(
        client.on_outgoing(Outgoing::Lagged(7)),
        ClientAction::Disconnect
    );
    assert_eq!(client.on_outgoing(Outgoing::Over), ClientAction::Disconnect);
}

#[test]
fn output_goes_to_the_clients_and_then_to_the_log() {
    let mut fanout = fanout();
    let mut client = ClientSession::new();
    send(&mut client, &fanout, Message::Attach { skip_ring: true });
    assert_eq!(
        on_event(DaemonEvent::Output(b"out"), true, &mut fanout),
        DaemonAction::Log(Bytes::from_static(b"out"))
    );
    assert_eq!(read_for(&mut client), b"out");
    assert_eq!(
        on_event(DaemonEvent::Output(b"out"), false, &mut fanout),
        DaemonAction::Continue
    );
}

#[test]
fn the_other_events_of_the_loop() {
    let mut fanout = fanout();
    assert_eq!(
        on_event(DaemonEvent::Connected, false, &mut fanout),
        DaemonAction::Serve
    );
    assert_eq!(
        on_event(DaemonEvent::AcceptFailed, false, &mut fanout),
        DaemonAction::Continue
    );
    assert_eq!(
        on_event(DaemonEvent::ReadFailed, false, &mut fanout),
        DaemonAction::AwaitChild
    );
    assert_eq!(
        on_event(DaemonEvent::ChildExited(Some(3)), false, &mut fanout),
        DaemonAction::Stop(ShutdownReason::ChildExited(Some(3)))
    );
    assert_eq!(
        on_event(DaemonEvent::Signaled, false, &mut fanout),
        DaemonAction::Stop(ShutdownReason::DaemonSignaled)
    );
}

#[test]
fn framed_input_reaches_the_program_verbatim() {
    let fanout = fanout();
    let mut client = ClientSession::new();
    let mut codec = MessageCodec::default();
    let mut wire = BytesMut::new();
    for piece in [&b"ab"[..], b"", b"cde"] {
        codec
            .encode(Message::Push(Bytes::copy_from_slice(piece)), &mut wire)
            .unwrap();
        codec
            .encode(Message::Winch { rows: 1, cols: 2 }, &mut wire)
            .unwrap();
    }
    let mut written = Vec::new();
    while let Some(message) = codec.decode(&mut wire).unwrap() {
        if let ClientAction::Submit(PtyCommand::Push(data)) = send(&mut client, &fanout, message) {
            written.extend_from_slice(&data);
        }
    }
    assert_eq!(written, b"abcde");
}

#[test]
fn child_sees_the_whole_chain() {
    assert_eq!(child_chain(None, &config()), "/s/session.sock");
    assert_eq!(
        child_chain(Some("/s/outer"), &config()),
        "/s/outer:/s/session.sock"
    );
}

#[test]
fn end_marker_tells_the_age() {
    assert_eq!(
        end_marker(182),
        "\r\n[hytch: session ended after 3m 2s]\r\n"
    );
}

#[test]
fn daemon_exits_with_the_code_of_its_child() {
    assert_eq!(exit_code(ShutdownReason::ChildExited(Some(3))), 3);
    assert_eq!(exit_code(ShutdownReason::ChildExited(None)), 0);
    assert_eq!(exit_code(ShutdownReason::DaemonSignaled), 0);
}
