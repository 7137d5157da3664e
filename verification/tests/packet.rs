use bytelink::packet::{
    decode_packet, decode_send_mode, encode_send_mode, next_frame, read_payload_size_header,
    write_frame, FrameStep, SendMode, MAX_PAYLOAD_SIZE,
};
use bytes::BytesMut;

fn framed(payload: &[u8], channel_id: u8, mode: SendMode) -> BytesMut {
    let mut buf = BytesMut::new();
    write_frame(&mut buf, payload, channel_id, mode);
    buf
}

#[test]
fn frame_has_a_header_of_six_bytes() {
    let buf = framed(b"hello", 1, SendMode::Reliable);
    assert_eq!(
        &buf[..],
        &[1, 3, 0, 0, 0, 5, b'h', b'e', b'l', b'l', b'o']
    );
}

#[test]
fn length_field_has_its_most_significant_byte_first() {
    let buf = framed(&[9u8; 0x0102], 0, SendMode::TimeSensitive);
    assert_eq!(&buf[..6], &[0, 0, 0, 0, 1, 2]);
    assert_eq!(read_payload_size_header(&buf), 0x0102);
    let header = BytesMut::from(&[0u8, 0, 0x12, 0x34, 0x56, 0x78][..]);
    assert_eq!(read_payload_size_header(&header), 0x1234_5678);
}

#[test]
fn writing_a_frame_leaves_nothing_of_the_buffer() {
    let mut buf = BytesMut::from("old content");
    write_frame(&mut buf, b"x", 2, SendMode::Unreliable);
    assert_eq!(&buf[..], &[2, 1, 0, 0, 0, 1, b'x']);
}

#[test]
fn send_modes_have_codes() {
    assert_eq!(encode_send_mode(SendMode::TimeSensitive), 0);
    assert_eq!(encode_send_mode(SendMode::Unreliable), 1);
    assert_eq!(encode_send_mode(SendMode::Persistent), 2);
    assert_eq!(encode_send_mode(SendMode::Reliable), 3);
    for mode in [
        SendMode::TimeSensitive,
        SendMode::Unreliable,
        SendMode::Persistent,
        SendMode::Reliable,
    ] {
        assert_eq!(decode_send_mode(encode_send_mode(mode)), Some(mode));
    }
    assert_eq!(decode_send_mode(4), None);
    assert_eq!(decode_send_mode(255), None);
}

#[test]
fn frame_gives_back_its_packet() {
    let mut buf = framed(b"hello", 200, SendMode::Persistent);
    buf.extend_from_slice(b"rest");
    let packet = decode_packet(&mut buf).unwrap();
    assert_eq!(packet.channel_id, 200);
    assert_eq!(packet.send_mode, SendMode::Persistent);
    assert_eq!(&packet.payload[..], b"hello");
    assert_eq!(&buf[..], b"rest");
    let copy = packet.clone();
    assert_eq!(&copy.payload[..], b"hello");
}

#[test]
fn empty_payload_is_a_packet() {
    let mut buf = framed(b"", 7, SendMode::Reliable);
    let packet = decode_packet(&mut buf).unwrap();
    assert_eq!(packet.channel_id, 7);
    assert!(packet.payload.is_empty());
    assert!(buf.is_empty());
}

#[test]
fn part_of_a_frame_is_left_alone() {
    let whole = framed(b"hello", 1, SendMode::Reliable);
    for count in 0..whole.len() {
        let mut part = BytesMut::from(&whole[..count]);
        assert!(decode_packet(&mut part).is_none());
        assert_eq!(&part[..], &whole[..count]);
    }
}

#[test]
fn longest_payload_is_taken_and_a_longer_one_is_not() {
    let payload = vec![5u8; MAX_PAYLOAD_SIZE];
    let mut buf = framed(&payload, 0, SendMode::Reliable);
    assert_eq!(decode_packet(&mut buf).unwrap().payload.len(), 16384);
    let payload = vec![5u8; MAX_PAYLOAD_SIZE + 1];
    let mut buf = framed(&payload, 0, SendMode::Reliable);
    let length = buf.len();
    assert!(decode_packet(&mut buf).is_none());
    assert_eq!(buf.len(), length);
}

#[test]
fn unknown_send_mode_costs_two_bytes() {
    let mut buf = BytesMut::from(&[1u8, 9, 0, 0, 0, 1, 42][..]);
    assert!(decode_packet(&mut buf).is_none());
    assert_eq!(&buf[..], &[0, 0, 0, 1, 42]);
    let mut buf = BytesMut::from(&[1u8, 9, 0, 0, 0, 1, 42][..]);
    assert!(matches!(next_frame(&mut buf), FrameStep::UnknownMode));
    assert_eq!(&buf[..], &[0, 0, 0, 1, 42]);
    assert!(matches!(next_frame(&mut buf), FrameStep::Nothing));
}

#[test]
fn frames_give_back_their_packets_in_order() {
    let mut buf = framed(b"one", 1, SendMode::Reliable);
    buf.unsplit(framed(b"", 2, SendMode::Unreliable));
    buf.unsplit(framed(b"three", 3, SendMode::TimeSensitive));
    let mut found: Vec<(usize, SendMode, Vec<u8>)> = Vec::new();
    while let FrameStep::Packet(packet) = next_frame(&mut buf) {
        found.push((packet.channel_id, packet.send_mode, packet.payload.to_vec()));
    }
    assert_eq!(
        found,
        vec![
            (1, SendMode::Reliable, b"one".to_vec()),
            (2, SendMode::Unreliable, b"".to_vec()),
            (3, SendMode::TimeSensitive, b"three".to_vec()),
        ]
    );
    assert!(buf.is_empty());
}
