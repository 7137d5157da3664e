use bytelink::event::{ErrorType, Event};
use bytelink::peer::PeerAddr;
use bytelink::udpserver::{
    client_error, next_client, ready_client, Announcement, Router, ServerAction, ServerErrorType,
    ServerEvent, UdpServerError,
};
use flume::Receiver;

const LEFT: PeerAddr = PeerAddr::V4 {
    ip4: 0x7f00_0001,
    port: 1000,
};
const RIGHT: PeerAddr = PeerAddr::V4 {
    ip4: 0x7f00_0001,
    port: 1001,
};

/// A router of streams that are known by a letter, and what it announces.
fn router() -> (Router<char>, Receiver<Announcement<char>>) {
    let (new_clients, announced) = flume::unbounded();
    (Router::new(new_clients), announced)
}

#[test]
fn events_reach_their_own_stream() {
    let (mut router, announced) = router();
    let (left_tx, left) = flume::unbounded();
    let (right_tx, right) = flume::unbounded();
    assert_eq!(
        router.on_event(ServerEvent::Connect(LEFT)),
        ServerAction::Accept(LEFT)
    );
    assert!(router.accept(LEFT, left_tx, 'l'));
    assert!(router.accept(RIGHT, right_tx, 'r'));
    assert_eq!(router.opened(), 2);
    assert_eq!(announced.try_recv(), Ok((LEFT, Ok('l'))));
    assert_eq!(announced.try_recv(), Ok((RIGHT, Ok('r'))));

    assert_eq!(
        router.on_event(ServerEvent::Receive(RIGHT, b"data".to_vec())),
        ServerAction::Nothing
    );
    assert_eq!(right.try_recv(), Ok(Event::Receive(b"data".to_vec())));
    assert!(left.try_recv().is_err());

    assert_eq!(
        router.on_event(ServerEvent::Error(LEFT, ServerErrorType::Timeout)),
        ServerAction::Nothing
    );
    assert_eq!(
        announced.try_recv(),
        Ok((LEFT, Err(ServerErrorType::Timeout)))
    );
    assert_eq!(left.try_recv(), Ok(Event::Error(ErrorType::Timeout)));
    assert!(right.try_recv().is_err());
}

#[test]
fn disconnected_client_is_told_and_forgotten() {
    let (mut router, _announced) = router();
    let (left_tx, left) = flume::unbounded();
    let (right_tx, right) = flume::unbounded();
    router.accept(LEFT, left_tx, 'l');
    router.accept(RIGHT, right_tx, 'r');
    assert_eq!(
        router.on_event(ServerEvent::Disconnect(LEFT)),
        ServerAction::Nothing
    );
    assert_eq!(left.try_recv(), Ok(Event::Disconnect));
    router.on_event(ServerEvent::Receive(LEFT, vec![1]));
    assert!(left.try_recv().is_err());
    assert!(left.is_disconnected());
    router.on_event(ServerEvent::Receive(RIGHT, vec![2]));
    assert_eq!(right.try_recv(), Ok(Event::Receive(vec![2])));
}

#[test]
fn unknown_client_gets_nothing_and_its_failure_is_reported() {
    let (mut router, announced) = router();
    assert_eq!(
        router.on_event(ServerEvent::Disconnect(LEFT)),
        ServerAction::Nothing
    );
    assert_eq!(
        router.on_event(ServerEvent::Receive(LEFT, vec![1])),
        ServerAction::Nothing
    );
    assert_eq!(
        router.on_event(ServerEvent::Error(LEFT, ServerErrorType::ServerFull)),
        ServerAction::Nothing
    );
    assert_eq!(
        announced.try_recv(),
        Ok((LEFT, Err(ServerErrorType::ServerFull)))
    );
    assert!(announced.try_recv().is_err());
}

#[test]
fn stream_that_nobody_takes_is_forgotten() {
    let (mut router, announced) = router();
    let (events_tx, events) = flume::unbounded();
    drop(announced);
    assert!(!router.accept(LEFT, events_tx, 'l'));
    assert_eq!(router.opened(), 1);
    router.on_event(ServerEvent::Receive(LEFT, vec![1]));
    assert!(events.try_recv().is_err());
    assert!(events.is_disconnected());
}

#[test]
fn client_that_comes_again_gets_a_new_stream() {
    let (mut router, _announced) = router();
    let (old_tx, old) = flume::unbounded();
    let (new_tx, new) = flume::unbounded();
    assert!(router.accept(LEFT, old_tx, 'o'));
    assert!(router.accept(LEFT, new_tx, 'n'));
    router.on_event(ServerEvent::Receive(LEFT, vec![3]));
    assert!(old.try_recv().is_err());
    assert_eq!(new.try_recv(), Ok(Event::Receive(vec![3])));
}

#[test]
fn stream_gets_all_of_its_clients_events_in_order() {
    let (mut router, _announced) = router();
    let (left_tx, left) = flume::unbounded();
    let (right_tx, right) = flume::unbounded();
    router.accept(LEFT, left_tx, 'l');
    router.on_event(ServerEvent::Receive(LEFT, vec![1]));
    router.accept(RIGHT, right_tx, 'r');
    router.on_event(ServerEvent::Receive(RIGHT, vec![9]));
    router.on_event(ServerEvent::Error(LEFT, ServerErrorType::ServerFull));
    router.on_event(ServerEvent::Disconnect(RIGHT));
    router.on_event(ServerEvent::Receive(LEFT, vec![2]));
    router.on_event(ServerEvent::Disconnect(LEFT));
    router.on_event(ServerEvent::Receive(LEFT, vec![3]));
    let told: Vec<Event> = left.try_iter().collect();
    assert_eq!(
        told,
        vec![
            Event::Receive(vec![1]),
            Event::Error(ErrorType::ServerFull),
            Event::Receive(vec![2]),
            Event::Disconnect,
        ]
    );
    let told: Vec<Event> = right.try_iter().collect();
    assert_eq!(told, vec![Event::Receive(vec![9]), Event::Disconnect]);
}

#[test]
fn connects_and_failures_are_announced_once_in_order() {
    let (mut router, announced) = router();
    let (left_tx, _left) = flume::unbounded();
    let (right_tx, _right) = flume::unbounded();
    assert_eq!(
        router.on_event(ServerEvent::Connect(RIGHT)),
        ServerAction::Accept(RIGHT)
    );
    assert!(announced.try_recv().is_err());
    assert!(router.accept(RIGHT, right_tx, 'r'));
    router.on_event(ServerEvent::Receive(RIGHT, vec![1]));
    router.on_event(ServerEvent::Error(LEFT, ServerErrorType::Version));
    router.on_event(ServerEvent::Connect(LEFT));
    assert!(router.accept(LEFT, left_tx, 'l'));
    router.on_event(ServerEvent::Disconnect(RIGHT));
    let made: Vec<Announcement<char>> = announced.try_iter().collect();
    assert_eq!(
        made,
        vec![
            (RIGHT, Ok('r')),
            (LEFT, Err(ServerErrorType::Version)),
            (LEFT, Ok('l')),
        ]
    );
}

#[test]
fn failures_keep_their_kind() {
    assert_eq!(client_error(ServerErrorType::Timeout), ErrorType::Timeout);
    assert_eq!(client_error(ServerErrorType::Version), ErrorType::Version);
    assert_eq!(client_error(ServerErrorType::Config), ErrorType::Config);
    assert_eq!(
        client_error(ServerErrorType::ServerFull),
        ErrorType::ServerFull
    );
}

#[test]
fn waiting_caller_is_told_of_clients_and_failures() {
    assert_eq!(next_client(Some((LEFT, Ok(5u8)))), (LEFT, Ok(5u8)));
    assert_eq!(
        next_client::<u8>(Some((LEFT, Err(ServerErrorType::Version)))),
        (
            LEFT,
            Err(UdpServerError::UflowError(ServerErrorType::Version))
        )
    );
    assert_eq!(
        next_client::<u8>(None),
        (
            PeerAddr::V4 { ip4: 0, port: 0 },
            Err(UdpServerError::ChannelClosed)
        )
    );
}

#[test]
fn caller_that_does_not_wait_gets_a_client_or_nothing() {
    assert_eq!(ready_client(Some((LEFT, Ok(5u8)))), Some(5));
    assert_eq!(
        ready_client::<u8>(Some((LEFT, Err(ServerErrorType::Config)))),
        None
    );
    assert_eq!(ready_client::<u8>(None), None);
}
