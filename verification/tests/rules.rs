use bytelink::backoff::Backoff;
use bytelink::backpressurebuffer::BackpressureBuffer;
use bytelink::errors;
use bytelink::peer::PeerAddr;
use bytelink::tcp::{accepted, receive_buffer, received, sendable, sent, TcpServerError};
use bytelink::ReadError;

#[test]
fn sleeps_double_up_to_the_longest() {
    let mut backoff = Backoff::new();
    let mut sleeps: Vec<Option<u64>> = Vec::new();
    for _ in 0..6 {
        sleeps.push(backoff.end_round(false));
    }
    assert_eq!(
        sleeps,
        vec![
            Some(500),
            Some(1000),
            Some(2000),
            Some(4000),
            Some(5000),
            Some(5000)
        ]
    );
    assert_eq!(backoff.end_round(true), None);
    assert_eq!(backoff.end_round(false), Some(500));
}

#[test]
fn newest_are_kept() {
    let mut buffer: BackpressureBuffer<u32> = BackpressureBuffer::new(3);
    for value in 1..=5 {
        buffer.push(value);
    }
    assert_eq!(buffer.pop(), Some(3));
    buffer.push(6);
    assert_eq!(buffer.flush(), vec![4, 5, 6]);
    assert_eq!(buffer.pop(), None);
    assert_eq!(buffer.flush(), Vec::<u32>::new());
}

#[test]
fn bound_of_zero_works_as_one() {
    let mut buffer: BackpressureBuffer<u32> = BackpressureBuffer::new(0);
    buffer.push(1);
    buffer.push(2);
    assert_eq!(buffer.flush(), vec![2]);
}

#[test]
fn errors_in_words() {
    assert_eq!(
        errors::ReadError::<u8>::EmptyBuffer.message("no cause"),
        "read error: buffer is empty"
    );
    assert_eq!(
        errors::ReadError::FailedToRead(1u8).message("timed out"),
        "read error: failed to read: timed out"
    );
    assert_eq!(
        errors::WriteError::<u8>::EmptyBuffer.message("no cause"),
        "write error: buffer is empty"
    );
    assert_eq!(
        errors::WriteError::FailedToWrite(1u8).message("broken pipe"),
        "write error: failed to write: broken pipe"
    );
}

#[test]
fn tcp_receives_what_was_read() {
    let mut buf = receive_buffer();
    assert_eq!(buf.len(), 1024);
    assert!(buf.iter().all(|byte| *byte == 0));
    buf[..5].copy_from_slice(b"hello");
    let bytes = received::<String>(buf, Ok(5)).unwrap();
    assert_eq!(&bytes[..], b"hello");
    let whole = received::<String>(receive_buffer(), Ok(1024)).unwrap();
    assert_eq!(whole.len(), 1024);
    assert_eq!(
        received::<String>(receive_buffer(), Ok(0)),
        Err(errors::ReadError::EmptyBuffer)
    );
    assert_eq!(
        received(receive_buffer(), Err("reset")),
        Err(errors::ReadError::FailedToRead("reset"))
    );
}

#[test]
fn tcp_sends_something_or_nothing() {
    assert_eq!(sendable::<String>(b"x"), Ok(()));
    assert_eq!(
        sendable::<String>(b""),
        Err(errors::WriteError::EmptyBuffer)
    );
    assert_eq!(sent::<String>(Ok(())), Ok(()));
    assert_eq!(
        sent(Err("reset")),
        Err(errors::WriteError::FailedToWrite("reset"))
    );
}

#[test]
fn tcp_accepts_what_the_listener_gives() {
    assert_eq!(accepted::<u8, String>(Ok(3)), Ok(3));
    assert_eq!(
        accepted::<u8, &str>(Err("closed")),
        Err(TcpServerError::IoError("closed"))
    );
}

#[test]
fn keys_tell_addresses_apart() {
    let v4 = PeerAddr::V4 {
        ip4: 0x7f00_0001,
        port: 80,
    };
    let v6 = PeerAddr::V6 {
        ip6: 0x7f00_0001,
        port: 80,
        flowinfo: 0,
        scope_id: 0,
    };
    let scoped = PeerAddr::V6 {
        ip6: 0x7f00_0001,
        port: 80,
        flowinfo: 0,
        scope_id: 1,
    };
    assert_eq!(v4.key(), (4, 0x7f00_0001, 80, 0, 0));
    assert_eq!(v6.key(), (6, 0x7f00_0001, 80, 0, 0));
    assert_ne!(v4.key(), v6.key());
    assert_ne!(v6.key(), scoped.key());
    assert_eq!(
        PeerAddr::unspecified(),
        PeerAddr::V4 { ip4: 0, port: 0 }
    );
}

#[test]
fn read_errors_say_what_was_missing() {
    let error = ReadError::NotEnoughBytes {
        needed: 6,
        found: 2,
    };
    assert_eq!(
        format!("{:?}", error),
        "NotEnoughBytes { needed: 6, found: 2 }"
    );
    assert_eq!(format!("{:?}", ReadError::InvalidPacket), "InvalidPacket");
    assert_eq!(
        format!("{:?}", ReadError::PacketAheadOfTime),
        "PacketAheadOfTime"
    );
}
