use bytelink::bytechannel::{ReadProgress, WriteProgress};
use bytelink::endpoint::{received, Endpoint, Wire};
use bytelink::errors::{IoErrorKind, ReadError, WriteError};
use bytelink::event::{ErrorType, Event};
use bytelink::outbox::Route;
use bytelink::packet::{write_frame, RawPacket, SendMode};
use bytelink::peer::PeerAddr;
use bytelink::session::{EventAction, Session, MAX_BACKPRESSURE};
use bytes::BytesMut;
use flume::{Receiver, Sender};

const PEER: PeerAddr = PeerAddr::V4 { ip4: 0, port: 324 };

fn frames(messages: &[(&[u8], u8, SendMode)]) -> BytesMut {
    let mut all = BytesMut::new();
    for (payload, channel_id, mode) in messages {
        let mut one = BytesMut::new();
        write_frame(&mut one, payload, *channel_id, *mode);
        all.unsplit(one);
    }
    all
}

fn direct(capacity: usize) -> (Session, Receiver<RawPacket>, Receiver<ErrorType>) {
    let (packets, packets_rx) = flume::bounded(capacity);
    let (errors, errors_rx) = flume::bounded(1);
    (
        Session::new(Route::Direct(packets), errors),
        packets_rx,
        errors_rx,
    )
}

fn payloads(packets: &Receiver<RawPacket>) -> Vec<Vec<u8>> {
    packets.try_iter().map(|p| p.payload.to_vec()).collect()
}

/// Sends a payload that the connection has room for.
fn send(endpoint: &mut Endpoint, payload: &[u8], channel_id: u8, mode: SendMode) {
    let (frame, copy) = endpoint.begin_send(payload, channel_id, mode);
    let outcome = match endpoint.send_step(copy) {
        WriteProgress::Finished(outcome) => outcome,
        WriteProgress::Wait(_) => panic!("no room"),
    };
    assert_eq!(endpoint.end_send(frame, outcome), Ok(()));
}

/// Takes out what waits to be sent.
fn outgoing(wire: &mut Wire) -> BytesMut {
    wire.packet_out_recv.read_sync().unwrap()
}

#[test]
fn test_udpstream_send_and_receive() {
    let (stream_tx, stream_rx): (Sender<(PeerAddr, RawPacket)>, _) = flume::unbounded();
    let (errors, _errors_rx) = flume::bounded(1);
    let (mut endpoint, mut wire) = Endpoint::new();
    let mut session = Session::new(Route::Addressed(PEER, stream_tx), errors);

    let payload: &[u8] = b"hello";
    send(&mut endpoint, payload, 1, SendMode::Reliable);
    session.forward_resynced(outgoing(&mut wire));

    let (addr, packet) = stream_rx.try_recv().unwrap();
    assert_eq!(addr, PEER);
    assert_eq!(packet.channel_id, 1);
    assert_eq!(packet.send_mode, SendMode::Reliable);
    assert_eq!(&packet.payload[..], payload);

    match session.handle_event(Event::Receive(payload.to_vec())) {
        EventAction::Deliver(bytes) => {
            assert_eq!(wire.packet_in_sender.write_sync(bytes), Ok(()));
        }
        other => panic!("unexpected action: {:?}", other),
    }
    let outcome = match endpoint.receive_step() {
        ReadProgress::Finished(outcome) => outcome,
        ReadProgress::Wait => panic!("nothing came"),
    };
    let got = received(outcome).unwrap();
    assert_eq!(&got[..], &payload[..]);
}

#[test]
fn several_messages_arrive_as_sent() {
    let (mut endpoint, mut wire) = Endpoint::new();
    let (mut session, packets, _errors) = direct(16);
    send(&mut endpoint, b"one", 1, SendMode::Reliable);
    send(&mut endpoint, b"", 2, SendMode::Unreliable);
    send(&mut endpoint, b"three", 3, SendMode::TimeSensitive);
    session.forward_leading(outgoing(&mut wire));
    let got: Vec<(usize, SendMode, Vec<u8>)> = packets
        .try_iter()
        .map(|p| (p.channel_id, p.send_mode, p.payload.to_vec()))
        .collect();
    assert_eq!(
        got,
        vec![
            (1, SendMode::Reliable, b"one".to_vec()),
            (2, SendMode::Unreliable, b"".to_vec()),
            (3, SendMode::TimeSensitive, b"three".to_vec()),
        ]
    );
    assert!(matches!(
        wire.packet_out_recv.read_step(),
        ReadProgress::Wait
    ));
}

#[test]
fn longest_message_that_fits_arrives_and_a_longer_one_waits() {
    let (mut endpoint, mut wire) = Endpoint::new();
    let (mut session, packets, _errors) = direct(16);
    send(&mut endpoint, &[6u8; 1018], 0, SendMode::Reliable);
    session.forward_leading(outgoing(&mut wire));
    assert_eq!(payloads(&packets), vec![vec![6u8; 1018]]);

    let (_, copy) = endpoint.begin_send(&[6u8; 1019], 0, SendMode::Reliable);
    match endpoint.send_step(copy) {
        WriteProgress::Wait(rest) => assert_eq!(&rest[..], &[6u8]),
        WriteProgress::Finished(_) => panic!("no wait"),
    }
    session.forward_leading(outgoing(&mut wire));
    assert!(payloads(&packets).is_empty());
}

#[test]
fn buffers_are_used_again() {
    let (mut endpoint, mut wire) = Endpoint::new();
    let (first, _) = endpoint.begin_send(b"longer than the next", 1, SendMode::Reliable);
    let (second, copy) = endpoint.begin_send(b"ab", 2, SendMode::Persistent);
    assert_eq!(second, copy);
    assert_eq!(&second[..], &[2, 2, 0, 0, 0, 2, b'a', b'b']);
    assert_eq!(endpoint.end_send(first, Ok(())), Ok(()));
    let (third, _) = endpoint.begin_send(b"c", 3, SendMode::Unreliable);
    assert_eq!(&third[..], &[3, 1, 0, 0, 0, 1, b'c']);
    assert_eq!(endpoint.end_send(third, Ok(())), Ok(()));
    wire.abandon();
}

#[test]
fn sender_is_told_what_failed() {
    let (mut endpoint, mut wire) = Endpoint::new();
    wire.abandon();
    let (frame, copy) = endpoint.begin_send(b"x", 0, SendMode::Reliable);
    let outcome = match endpoint.send_step(copy) {
        WriteProgress::Finished(outcome) => outcome,
        WriteProgress::Wait(_) => panic!("no wait is due"),
    };
    match endpoint.end_send(frame.clone(), outcome) {
        Err(WriteError::FailedToWrite(error)) => {
            assert_eq!(error.kind, IoErrorKind::ConnectionAborted);
            assert_eq!(error.message, "disconnected");
        }
        other => panic!("unexpected result: {:?}", other),
    }
    let full = Err(bytelink::bytechannel::WriteError::Full(BytesMut::new()));
    match endpoint.end_send(frame, full) {
        Err(WriteError::FailedToWrite(error)) => {
            assert_eq!(error.kind, IoErrorKind::StorageFull);
            assert_eq!(error.message, "full");
        }
        other => panic!("unexpected result: {:?}", other),
    }
}

#[test]
fn receiver_is_told_what_failed() {
    let (mut endpoint, mut wire) = Endpoint::new();
    assert!(matches!(endpoint.receive_step(), ReadProgress::Wait));
    wire.abandon();
    let outcome = match endpoint.receive_step() {
        ReadProgress::Finished(outcome) => outcome,
        ReadProgress::Wait => panic!("no wait is due"),
    };
    match received(outcome) {
        Err(ReadError::FailedToRead(error)) => {
            assert_eq!(error.kind, IoErrorKind::ConnectionAborted);
            assert_eq!(error.message, "disconnected");
        }
        other => panic!("unexpected result: {:?}", other),
    }
    assert_eq!(
        received(Err(bytelink::bytechannel::ReadError::Empty)),
        Err(ReadError::EmptyBuffer)
    );
}

#[test]
fn caller_that_is_gone_disconnects_both_ways() {
    let (mut endpoint, mut wire) = Endpoint::new();
    endpoint.abandon();
    assert!(matches!(
        endpoint.receive_step(),
        ReadProgress::Finished(Err(bytelink::bytechannel::ReadError::Disconnected))
    ));
    assert!(matches!(
        endpoint.send_step(BytesMut::from("x")),
        WriteProgress::Finished(Err(bytelink::bytechannel::WriteError::Disconnected(_)))
    ));
    assert!(wire.packet_in_sender.is_disconnected());
    assert!(wire.packet_out_recv.is_disconnected());
}

#[test]
fn side_that_is_dropped_disconnects_both_ways() {
    let (mut endpoint, wire) = Endpoint::new();
    drop(wire);
    assert!(matches!(
        endpoint.receive_step(),
        ReadProgress::Finished(Err(bytelink::bytechannel::ReadError::Disconnected))
    ));
    assert!(matches!(
        endpoint.send_step(BytesMut::from("x")),
        WriteProgress::Finished(Err(bytelink::bytechannel::WriteError::Disconnected(_)))
    ));
    let (endpoint, mut wire) = Endpoint::new();
    drop(endpoint);
    assert!(wire.packet_in_sender.is_disconnected());
    assert!(wire.packet_out_recv.is_disconnected());
}

#[test]
fn refused_packets_are_kept_and_tried_again() {
    let (mut session, packets, _errors) = direct(1);
    session.forward_leading(frames(&[
        (b"a", 0, SendMode::Reliable),
        (b"b", 0, SendMode::Reliable),
        (b"c", 0, SendMode::Persistent),
    ]));
    assert_eq!(payloads(&packets), vec![b"a".to_vec()]);
    session.retry_backlog();
    assert_eq!(payloads(&packets), vec![b"b".to_vec()]);
    session.retry_backlog();
    assert_eq!(payloads(&packets), vec![b"c".to_vec()]);
    session.retry_backlog();
    assert!(payloads(&packets).is_empty());
}

#[test]
fn packet_that_is_refused_again_goes_behind_the_others() {
    let (mut session, packets, _errors) = direct(1);
    session.forward_leading(frames(&[
        (b"a", 0, SendMode::Reliable),
        (b"b", 0, SendMode::Reliable),
        (b"c", 0, SendMode::Reliable),
        (b"d", 0, SendMode::Reliable),
    ]));
    session.retry_backlog();
    assert_eq!(payloads(&packets), vec![b"a".to_vec()]);
    session.retry_backlog();
    assert_eq!(payloads(&packets), vec![b"c".to_vec()]);
}

#[test]
fn every_message_leaves_once() {
    let (mut session, packets, _errors) = direct(2);
    let mut got: Vec<Vec<u8>> = Vec::new();
    for round in 0..5u8 {
        session.retry_backlog();
        session.forward_leading(frames(&[
            (&[round, 0], 0, SendMode::Reliable),
            (&[round, 1], 1, SendMode::Persistent),
            (&[round, 2], 2, SendMode::Reliable),
        ]));
        got.extend(payloads(&packets));
    }
    for _ in 0..8 {
        session.retry_backlog();
        got.extend(payloads(&packets));
    }
    session.finish();
    got.extend(payloads(&packets));
    got.sort();
    let mut sent: Vec<Vec<u8>> = Vec::new();
    for round in 0..5u8 {
        for number in 0..3u8 {
            sent.push(vec![round, number]);
        }
    }
    assert_eq!(got, sent);
}

#[test]
fn oldest_packets_are_given_up_past_the_limit() {
    let (mut session, packets, _errors) = direct(MAX_BACKPRESSURE + 10);
    for i in 0..(MAX_BACKPRESSURE + 2) {
        session.keep(Some(RawPacket {
            channel_id: i,
            send_mode: SendMode::Reliable,
            payload: vec![].into(),
        }));
    }
    session.keep(None);
    session.finish();
    let got: Vec<usize> = packets.try_iter().map(|p| p.channel_id).collect();
    assert_eq!(got.len(), 4096);
    assert_eq!(got[0], 2);
    assert_eq!(got[4095], 4097);
}

#[test]
fn packets_that_need_not_arrive_are_not_kept() {
    let (mut session, packets, _errors) = direct(4);
    drop(packets);
    session.hand_over(RawPacket {
        channel_id: 0,
        send_mode: SendMode::Unreliable,
        payload: vec![1].into(),
    });
    session.forward_resynced(frames(&[(b"x", 0, SendMode::TimeSensitive)]));
    session.finish();
}

#[test]
fn finishing_hands_over_what_was_kept() {
    let (mut session, packets, _errors) = direct(8);
    session.keep(Some(RawPacket {
        channel_id: 1,
        send_mode: SendMode::Reliable,
        payload: b"kept".to_vec().into(),
    }));
    session.finish();
    assert_eq!(payloads(&packets), vec![b"kept".to_vec()]);
    session.finish();
    assert!(payloads(&packets).is_empty());
}

#[test]
fn unknown_mode_ends_one_search_and_not_the_other() {
    let mut bytes = BytesMut::from(&[8u8, 77, 0, 0, 0, 0][..]);
    bytes.unsplit(frames(&[(b"b", 5, SendMode::Reliable)]));
    let (mut session, packets, _errors) = direct(8);
    session.forward_leading(bytes.clone());
    assert!(payloads(&packets).is_empty());
    session.forward_resynced(bytes);
    // Two bytes further stand the bytes 0, 0, 0, 0, 5, 3: a header that declares
    // more than there is.
    assert!(payloads(&packets).is_empty());

    let mut bytes = BytesMut::from(&[8u8, 77][..]);
    bytes.extend_from_slice(&[0, 0, 0, 0]);
    bytes.extend_from_slice(&[0, 1, 42]);
    let (mut session, packets, _errors) = direct(8);
    session.forward_resynced(bytes);
    assert_eq!(payloads(&packets), vec![vec![42u8]]);
}

#[test]
fn events_are_acted_on() {
    let (mut session, _packets, errors) = direct(8);
    assert!(matches!(
        session.handle_event(Event::Connect),
        EventAction::Continue
    ));
    assert!(matches!(
        session.handle_event(Event::Disconnect),
        EventAction::Close
    ));
    assert!(matches!(
        session.handle_event(Event::Receive(b"abc".to_vec())),
        EventAction::Deliver(bytes) if bytes == "abc"
    ));
    assert!(errors.try_recv().is_err());
    for (error, closes) in [
        (ErrorType::Timeout, false),
        (ErrorType::ServerFull, false),
        (ErrorType::Version, true),
        (ErrorType::Config, true),
    ] {
        let action = session.handle_event(Event::Error(error));
        assert_eq!(matches!(action, EventAction::Close), closes);
        assert_eq!(matches!(action, EventAction::Continue), !closes);
        assert_eq!(errors.try_recv(), Ok(error));
    }
}

#[test]
fn only_the_first_report_waits_to_be_read() {
    let (mut session, _packets, errors) = direct(8);
    session.handle_event(Event::Error(ErrorType::Timeout));
    session.handle_event(Event::Error(ErrorType::Config));
    assert_eq!(errors.try_recv(), Ok(ErrorType::Timeout));
    assert!(errors.try_recv().is_err());
}
