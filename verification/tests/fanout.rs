use bytes::Bytes;
use hytch::fanout::Fanout;
use tokio::sync::broadcast::error::TryRecvError;
use tokio::sync::broadcast::Receiver;

fn drain(rx: &mut Receiver<Bytes>) -> Vec<u8> {
    let mut received = Vec::new();
    while let Ok(chunk) = rx.try_recv() {
        received.extend_from_slice(&chunk);
    }
    received
}

#[test]
fn attach_snapshot_includes_everything_pushed_before_it() {
    let mut fanout = Fanout::new(64, 16);
    fanout.push(Bytes::from_static(b"A"));
    let (snapshot, _rx) = fanout.attach();
    assert_eq!(snapshot, b"A");
}

#[test]
fn attach_receiver_gets_everything_pushed_after_it() {
    let mut fanout = Fanout::new(64, 16);
    fanout.push(Bytes::from_static(b"A"));
    let (snapshot, mut rx) = fanout.attach();
    fanout.push(Bytes::from_static(b"B"));

    let live = rx.try_recv().unwrap();
    let mut combined = snapshot;
    combined.extend_from_slice(&live);
    assert_eq!(combined, b"AB");
}

#[test]
fn no_client_ever_sees_a_byte_twice_or_misses_one_in_between() {
    for attach_at in [0u8, 1, 5, 63, 64, 65, 200, 255] {
        let mut fanout = Fanout::new(64, 1024);
        for i in 0..attach_at {
            fanout.push(Bytes::from(vec![i]));
        }
        let (snapshot, mut rx) = fanout.attach();
        for i in attach_at..=255 {
            fanout.push(Bytes::from(vec![i]));
        }

        let mut combined = snapshot;
        combined.extend_from_slice(&drain(&mut rx));

        assert_eq!(
            combined.last().copied(),
            Some(255),
            "must end at the last byte pushed"
        );
        for pair in combined.windows(2) {
            assert_eq!(
                pair[1],
                pair[0].wrapping_add(1),
                "gap or duplicate somewhere in {combined:?}"
            );
        }
    }
}

#[test]
fn pushes_without_receivers_are_kept_in_the_scrollback() {
    let mut fanout = Fanout::new(4, 2);
    for chunk in [&b"ab"[..], b"cd", b"ef", b"g"] {
        fanout.push(Bytes::copy_from_slice(chunk));
    }
    let (snapshot, mut rx) = fanout.attach();
    assert_eq!(snapshot, b"defg");
    assert_eq!(rx.try_recv(), Err(TryRecvError::Empty));
}

#[test]
fn clients_see_identical_output_once_both_are_attached() {
    let mut fanout = Fanout::new(64, 16);
    let (_, mut early) = fanout.attach();
    fanout.push(Bytes::from_static(b"one "));
    let (snapshot, mut late) = fanout.attach();
    fanout.push(Bytes::from_static(b"two "));
    fanout.push(Bytes::from_static(b"three"));
    assert_eq!(drain(&mut early), b"one two three");
    let mut combined = snapshot;
    combined.extend_from_slice(&drain(&mut late));
    assert_eq!(combined, b"one two three");
}

#[test]
fn a_client_may_fall_the_rounded_capacity_behind() {
    for (capacity, backlog) in [(1usize, 1u64), (2, 2), (3, 4), (5, 8), (16, 16)] {
        let mut fanout = Fanout::new(64, capacity);
        let (_, mut in_time) = fanout.attach();
        for i in 0..backlog {
            fanout.push(Bytes::from(vec![i as u8]));
        }
        let expected: Vec<u8> = (0..backlog).map(|i| i as u8).collect();
        assert_eq!(drain(&mut in_time), expected);

        let (_, mut late) = fanout.attach();
        for i in 0..=backlog {
            fanout.push(Bytes::from(vec![i as u8]));
        }
        assert_eq!(late.try_recv(), Err(TryRecvError::Lagged(1)));
    }
}

#[test]
fn reading_goes_on_where_it_stopped() {
    let mut fanout = Fanout::new(64, 4);
    let (_, mut rx) = fanout.attach();
    let mut received = Vec::new();
    for round in 0u8..10 {
        for i in 0u8..4 {
            fanout.push(Bytes::from(vec![round * 4 + i]));
        }
        received.extend_from_slice(&drain(&mut rx));
    }
    assert_eq!(received, (0u8..40).collect::<Vec<u8>>());
}

#[test]
fn a_client_that_falls_behind_is_told() {
    let mut fanout = Fanout::new(64, 2);
    let (_, mut rx) = fanout.attach();
    for i in 0u8..5 {
        fanout.push(Bytes::from(vec![i]));
    }
    assert_eq!(rx.try_recv(), Err(TryRecvError::Lagged(3)));
}
