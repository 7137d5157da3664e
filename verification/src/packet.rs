//! Packets and the frames that carry them through a byte channel.
//!
//! A frame is the packet's channel (one byte), its send mode (one byte), the
//! length of its payload (four bytes, the most significant first) and the
//! payload.

use crate::buffer;
use bytes::BytesMut;
use std::sync::Arc;
use vstd::prelude::*;

verus! {

/// The longest payload that is taken out of a frame.
pub const MAX_PAYLOAD_SIZE: usize = 16 * 1024;

/// The bytes of a frame that stand before its payload.
pub const HEADER_DATA_SIZE: usize = 6;

/// The bytes of a header that hold the length of the payload.
pub const PAYLOAD_DATA_SIZE: usize = 4;

/// How hard the transport tries to get a packet across.
#[derive(Clone, Copy, Debug, PartialEq, Eq, Structural)]
pub enum SendMode {
    /// Sent at once or not at all.
    TimeSensitive,
    /// Sent once.
    Unreliable,
    /// Sent again until it is received or skipped.
    Persistent,
    /// Sent again until it is received.
    Reliable,
}

/// A packet on its way to the transport.
#[derive(Clone, Debug)]
pub struct RawPacket {
    /// The channel of the transport that carries the packet.
    pub channel_id: usize,
    /// How hard the transport tries.
    pub send_mode: SendMode,
    /// What the packet says.
    pub payload: Arc<[u8]>,
}

/// A packet as contracts speak of it.
#[verifier::ext_equal]
pub struct Packet {
    pub channel_id: usize,
    pub send_mode: SendMode,
    pub payload: Seq<u8>,
}

impl View for RawPacket {
    type V = Packet;

    open spec fn view(&self) -> Packet {
        Packet {
            channel_id: self.channel_id,
            send_mode: self.send_mode,
            payload: (*self.payload)@,
        }
    }
}

/// The byte that stands for a send mode in a frame.
pub open spec fn mode_code(mode: SendMode) -> u8 {
    match mode {
        SendMode::TimeSensitive => 0,
        SendMode::Unreliable => 1,
        SendMode::Persistent => 2,
        SendMode::Reliable => 3,
    }
}

/// The send mode that a byte of a frame stands for, if any.
pub open spec fn mode_of_code(code: u8) -> Option<SendMode> {
    if code == 0 {
        Some(SendMode::TimeSensitive)
    } else if code == 1 {
        Some(SendMode::Unreliable)
    } else if code == 2 {
        Some(SendMode::Persistent)
    } else if code == 3 {
        Some(SendMode::Reliable)
    } else {
        None
    }
}

/// The frame of a payload. The length field has room for four bytes: of a longer
/// payload it holds the length modulo 2^32.
pub open spec fn frame(channel_id: u8, send_mode: SendMode, payload: Seq<u8>) -> Seq<u8> {
    seq![channel_id, mode_code(send_mode)] + buffer::be_bytes(
        (payload.len() % 0x1_0000_0000) as u32,
    ) + payload
}

/// The length that the header at the front of `bytes` declares.
pub open spec fn declared_size(bytes: Seq<u8>) -> int {
    bytes[2] * 0x100_0000 + bytes[3] * 0x1_0000 + bytes[4] * 0x100 + bytes[5]
}

/// Whether `bytes` start with a whole header and as much payload as it declares,
/// which is no more than a packet may carry.
pub open spec fn frame_ready(bytes: Seq<u8>) -> bool {
    &&& bytes.len() >= HEADER_DATA_SIZE
    &&& declared_size(bytes) <= MAX_PAYLOAD_SIZE
    &&& bytes.len() >= HEADER_DATA_SIZE + declared_size(bytes)
}

/// The packet in the frame at the front of `bytes`.
pub open spec fn framed_packet(bytes: Seq<u8>, send_mode: SendMode) -> Packet {
    Packet {
        channel_id: bytes[0] as usize,
        send_mode,
        payload: bytes.subrange(
            HEADER_DATA_SIZE as int,
            HEADER_DATA_SIZE + declared_size(bytes),
        ),
    }
}

/// What one look at the front of `bytes` finds.
#[verifier::ext_equal]
pub enum Front {
    /// A frame, with its packet and the bytes behind it.
    Frame(Packet, Seq<u8>),
    /// A frame whose send mode is unknown, with the bytes behind its first two.
    UnknownMode(Seq<u8>),
    /// No frame, or not all of one.
    Nothing,
}

/// What stands at the front of `bytes`.
pub open spec fn front(bytes: Seq<u8>) -> Front {
    if !frame_ready(bytes) {
        Front::Nothing
    } else {
        match mode_of_code(bytes[1]) {
            Some(send_mode) => Front::Frame(
                framed_packet(bytes, send_mode),
                bytes.skip(HEADER_DATA_SIZE + declared_size(bytes)),
            ),
            None => Front::UnknownMode(bytes.skip(2)),
        }
    }
}

/// The packets that are taken out of `bytes` one after the other, up to the first
/// place where no frame with a known send mode stands.
pub open spec fn leading_packets(bytes: Seq<u8>) -> Seq<Packet>
    decreases bytes.len(),
{
    match front(bytes) {
        Front::Frame(packet, rest) => seq![packet] + leading_packets(rest),
        _ => Seq::empty(),
    }
}

/// The packets that are taken out of `bytes` where a frame with an unknown send
/// mode does not end the search: it goes on two bytes further.
pub open spec fn resynced_packets(bytes: Seq<u8>) -> Seq<Packet>
    decreases bytes.len(),
{
    match front(bytes) {
        Front::Frame(packet, rest) => seq![packet] + resynced_packets(rest),
        Front::UnknownMode(rest) => resynced_packets(rest),
        Front::Nothing => Seq::empty(),
    }
}

/// What one look at the front of a buffer found.
#[derive(Debug)]
pub enum FrameStep {
    /// A packet, whose frame has left the buffer.
    Packet(RawPacket),
    /// A frame with an unknown send mode, whose first two bytes have left the
    /// buffer.
    UnknownMode,
    /// No frame, or not all of one. The buffer is as it was.
    Nothing,
}

/// The byte that stands for `mode` in a frame.
pub fn encode_send_mode(mode: SendMode) -> (code: u8)
    ensures
        code == mode_code(mode),
{
    match mode {
        SendMode::TimeSensitive => 0,
        SendMode::Unreliable => 1,
        SendMode::Persistent => 2,
        SendMode::Reliable => 3,
    }
}

/// The send mode that `code` stands for in a frame.
pub fn decode_send_mode(code: u8) -> (mode: Option<SendMode>)
    ensures
        mode == mode_of_code(code),
{
    match code {
        0 => Some(SendMode::TimeSensitive),
        1 => Some(SendMode::Unreliable),
        2 => Some(SendMode::Persistent),
        3 => Some(SendMode::Reliable),
        _ => None,
    }
}

/// The payload length that the header at the front of `bytes` declares.
pub fn read_payload_size_header(bytes: &BytesMut) -> (size: usize)
    requires
        buffer::content(*bytes).len() >= HEADER_DATA_SIZE,
    ensures
        size == declared_size(buffer::content(*bytes)),
{
    let header = buffer::as_slice(bytes);
    let size: u32 = header[2] as u32 * 0x100_0000 + header[3] as u32 * 0x1_0000 + header[4] as u32
        * 0x100 + header[5] as u32;
    size as usize
}

/// Makes `buf` hold the frame of `payload` and nothing else.
pub fn write_frame(buf: &mut BytesMut, payload: &[u8], channel_id: u8, send_mode: SendMode)
    requires
        HEADER_DATA_SIZE + payload@.len() <= isize::MAX,
    ensures
        buffer::content(*final(buf)) == frame(channel_id, send_mode, payload@),
{
    buf.clear();
    buf.reserve(HEADER_DATA_SIZE + payload.len());
    buffer::put_u8(buf, channel_id);
    buffer::put_u8(buf, encode_send_mode(send_mode));
    let length: u64 = payload.len() as u64;
    let field: u32 = #[verifier::truncate] (length as u32);
    assert(field == length % 0x1_0000_0000) by (bit_vector)
        requires
            field == length as u32,
    ;
    buffer::put_u32(buf, field);
    buffer::put_slice(buf, payload);
    assert(buffer::content(*buf) =~= frame(channel_id, send_mode, payload@));
}

/// Takes the frame at the front of `bytes` out of it, if there is one.
pub fn next_frame(bytes: &mut BytesMut) -> (step: FrameStep)
    ensures
        match front(buffer::content(*old(bytes))) {
            Front::Frame(packet, rest) => {
                &&& step matches FrameStep::Packet(found) && found@ == packet
                &&& buffer::content(*final(bytes)) == rest
            },
            Front::UnknownMode(rest) => {
                &&& step is UnknownMode
                &&& buffer::content(*final(bytes)) == rest
            },
            Front::Nothing => {
                &&& step is Nothing
                &&& *final(bytes) == *old(bytes)
            },
        },
{
    if bytes.len() < HEADER_DATA_SIZE {
        return FrameStep::Nothing;
    }
    let payload_size = read_payload_size_header(bytes);
    if payload_size > MAX_PAYLOAD_SIZE || bytes.len() < HEADER_DATA_SIZE + payload_size {
        return FrameStep::Nothing;
    }
    let ghost whole = buffer::content(*bytes);
    let channel_id = buffer::get_u8(bytes) as usize;
    let code = buffer::get_u8(bytes);
    assert(buffer::content(*bytes) =~= whole.skip(2));
    let send_mode = match decode_send_mode(code) {
        Some(send_mode) => send_mode,
        None => {
            return FrameStep::UnknownMode;
        },
    };
    buffer::advance(bytes, PAYLOAD_DATA_SIZE);
    let payload = bytes.split_to(payload_size);
    let payload = buffer::share(buffer::as_slice(&payload));
    proof {
        assert(buffer::content(*bytes) =~= whole.skip(HEADER_DATA_SIZE + payload_size));
        assert((*payload)@ =~= framed_packet(whole, send_mode).payload);
    }
    FrameStep::Packet(RawPacket { channel_id, send_mode, payload })
}

/// Takes the packet of the frame at the front of `bytes` out of it. Where the
/// frame's send mode is unknown there is no packet, and the frame's first two
/// bytes are gone.
pub fn decode_packet(bytes: &mut BytesMut) -> (packet: Option<RawPacket>)
    ensures
        match front(buffer::content(*old(bytes))) {
            Front::Frame(framed, rest) => {
                &&& packet matches Some(found) && found@ == framed
                &&& buffer::content(*final(bytes)) == rest
            },
            Front::UnknownMode(rest) => {
                &&& packet is None
                &&& buffer::content(*final(bytes)) == rest
            },
            Front::Nothing => {
                &&& packet is None
                &&& *final(bytes) == *old(bytes)
            },
        },
{
    match next_frame(bytes) {
        FrameStep::Packet(packet) => Some(packet),
        FrameStep::UnknownMode => None,
        FrameStep::Nothing => None,
    }
}

/// The byte that stands for a send mode stands for that mode alone.
pub proof fn law_mode_codes(mode: SendMode, code: u8)
    ensures
        mode_of_code(code) == Some(mode) <==> code == mode_code(mode),
{
}

/// The header of a frame declares the length of its payload.
proof fn lemma_frame_header(channel_id: u8, send_mode: SendMode, payload: Seq<u8>, rest: Seq<u8>)
    ensures
        frame(channel_id, send_mode, payload).len() == HEADER_DATA_SIZE + payload.len(),
        declared_size(frame(channel_id, send_mode, payload) + rest) == payload.len()
            % 0x1_0000_0000,
{
    let n = (payload.len() % 0x1_0000_0000) as u32;
    let bytes = frame(channel_id, send_mode, payload) + rest;
    let field = buffer::be_bytes(n);
    assert(bytes[2] == field[0] && bytes[3] == field[1] && bytes[4] == field[2] && bytes[5]
        == field[3]);
}

/// A frame gives back what it was made of, whatever bytes follow it, and leaves
/// those bytes.
pub proof fn law_frame_gives_back_its_packet(
    channel_id: u8,
    send_mode: SendMode,
    payload: Seq<u8>,
    rest: Seq<u8>,
)
    requires
        payload.len() <= MAX_PAYLOAD_SIZE,
    ensures
        front(frame(channel_id, send_mode, payload) + rest) == Front::Frame(
            Packet { channel_id: channel_id as usize, send_mode, payload },
            rest,
        ),
{
    let bytes = frame(channel_id, send_mode, payload) + rest;
    lemma_frame_header(channel_id, send_mode, payload, rest);
    assert(bytes.skip(HEADER_DATA_SIZE + payload.len()) =~= rest);
    assert(framed_packet(bytes, send_mode).payload =~= payload);
}

/// What is to be framed.
#[verifier::ext_equal]
pub struct Message {
    pub channel_id: u8,
    pub send_mode: SendMode,
    pub payload: Seq<u8>,
}

/// The frames of `messages`, one behind the other.
pub open spec fn frames(messages: Seq<Message>) -> Seq<u8>
    decreases messages.len(),
{
    if messages.len() == 0 {
        Seq::empty()
    } else {
        let first = messages[0];
        frame(first.channel_id, first.send_mode, first.payload) + frames(messages.skip(1))
    }
}

/// The packet that a message becomes.
pub open spec fn packet_of(message: Message) -> Packet {
    Packet {
        channel_id: message.channel_id as usize,
        send_mode: message.send_mode,
        payload: message.payload,
    }
}

/// Frames laid one behind the other give back all their packets, in order, with
/// either way of taking them out.
pub proof fn law_frames_give_back_their_packets(messages: Seq<Message>)
    requires
        forall|i: int|
            0 <= i < messages.len() ==> (#[trigger] messages[i]).payload.len() <= MAX_PAYLOAD_SIZE,
    ensures
        leading_packets(frames(messages)) == messages.map_values(|m: Message| packet_of(m)),
        resynced_packets(frames(messages)) == messages.map_values(|m: Message| packet_of(m)),
    decreases messages.len(),
{
    let packets = messages.map_values(|m: Message| packet_of(m));
    if messages.len() == 0 {
        assert(packets =~= Seq::<Packet>::empty());
    } else {
        let first = messages[0];
        let later = messages.skip(1);
        law_frames_give_back_their_packets(later);
        law_frame_gives_back_its_packet(
            first.channel_id,
            first.send_mode,
            first.payload,
            frames(later),
        );
        assert(seq![packet_of(first)] + later.map_values(|m: Message| packet_of(m)) =~= packets);
    }
}

/// No packet comes out of a frame that has not arrived whole, and its bytes stay.
pub proof fn law_part_of_a_frame_is_left_alone(
    channel_id: u8,
    send_mode: SendMode,
    payload: Seq<u8>,
    arrived: nat,
)
    requires
        payload.len() < 0x1_0000_0000,
        arrived < frame(channel_id, send_mode, payload).len(),
    ensures
        front(frame(channel_id, send_mode, payload).take(arrived as int)) == Front::Nothing,
{
    let whole = frame(channel_id, send_mode, payload);
    lemma_frame_header(channel_id, send_mode, payload, Seq::empty());
    assert(whole + Seq::<u8>::empty() =~= whole);
    assert(arrived >= HEADER_DATA_SIZE ==> declared_size(whole.take(arrived as int))
        == payload.len());
}

/// A payload that is too long for a packet never comes out of its frame, and
/// neither does anything that stands behind it.
pub proof fn law_long_payload_is_refused(
    channel_id: u8,
    send_mode: SendMode,
    payload: Seq<u8>,
    rest: Seq<u8>,
)
    requires
        MAX_PAYLOAD_SIZE < payload.len() < 0x1_0000_0000,
    ensures
        leading_packets(frame(channel_id, send_mode, payload) + rest) == Seq::<Packet>::empty(),
        resynced_packets(frame(channel_id, send_mode, payload) + rest) == Seq::<Packet>::empty(),
{
    lemma_frame_header(channel_id, send_mode, payload, rest);
}

/// Every packet that is taken out of a run of bytes names a channel of one byte
/// and carries no more than the longest payload.
pub proof fn law_packets_are_bounded(bytes: Seq<u8>, i: int)
    requires
        0 <= i < resynced_packets(bytes).len(),
    ensures
        resynced_packets(bytes)[i].payload.len() <= MAX_PAYLOAD_SIZE,
        resynced_packets(bytes)[i].channel_id < 256,
    decreases bytes.len(),
{
    match front(bytes) {
        Front::Frame(_, rest) => {
            if i > 0 {
                law_packets_are_bounded(rest, i - 1);
            }
        },
        Front::UnknownMode(rest) => {
            law_packets_are_bounded(rest, i);
        },
        Front::Nothing => {},
    }
}

/// Going on behind a frame with an unknown send mode adds packets and changes none
/// of those in front of it.
pub proof fn law_resync_only_adds(bytes: Seq<u8>)
    ensures
        leading_packets(bytes).is_prefix_of(resynced_packets(bytes)),
    decreases bytes.len(),
{
    if let Front::Frame(_, rest) = front(bytes) {
        law_resync_only_adds(rest);
    }
}

/// A frame is six bytes and the payload: the channel, the code of the send mode, the
/// length of the payload as a number of four bytes, the most significant first, and
/// then the payload, byte for byte.
pub proof fn law_frame_layout(channel_id: u8, send_mode: SendMode, payload: Seq<u8>, i: int)
    requires
        0 <= i < payload.len(),
    ensures
        ({
            let bytes = frame(channel_id, send_mode, payload);
            &&& bytes.len() == 6 + payload.len()
            &&& bytes[0] == channel_id
            &&& mode_of_code(bytes[1]) == Some(send_mode)
            &&& payload.len() < 0x1_0000_0000 ==> bytes[2] * 0x100_0000 + bytes[3] * 0x1_0000
                + bytes[4] * 0x100 + bytes[5] == payload.len()
            &&& bytes[6 + i] == payload[i]
        }),
{
    let bytes = frame(channel_id, send_mode, payload);
    let field = buffer::be_bytes((payload.len() % 0x1_0000_0000) as u32);
    assert(bytes[2] == field[0] && bytes[3] == field[1] && bytes[4] == field[2] && bytes[5]
        == field[3]);
}

/// A frame stands at the front of bytes exactly if there are at least six of them,
/// the four from the third on are the length, most significant first, of no more
/// than 16384 bytes, and at least so many follow. Its packet has the first byte as
/// its channel, the second as the code of its send mode, and those bytes as its
/// payload; what follows them is left. Where the code is none, the first two bytes
/// are passed over.
pub proof fn law_what_stands_at_the_front(bytes: Seq<u8>)
    ensures
        ({
            let size = bytes[2] * 0x100_0000 + bytes[3] * 0x1_0000 + bytes[4] * 0x100 + bytes[5];
            let whole = bytes.len() >= 6 && size <= 16384 && bytes.len() >= 6 + size;
            match front(bytes) {
                Front::Frame(packet, rest) => {
                    &&& whole
                    &&& bytes[1] <= 3
                    &&& packet.channel_id == bytes[0]
                    &&& mode_code(packet.send_mode) == bytes[1]
                    &&& packet.payload.len() == size
                    &&& forall|i: int| 0 <= i < size ==> packet.payload[i] == bytes[6 + i]
                    &&& rest.len() == bytes.len() - 6 - size
                    &&& forall|i: int| 0 <= i < rest.len() ==> rest[i] == bytes[6 + size + i]
                },
                Front::UnknownMode(rest) => {
                    &&& whole
                    &&& bytes[1] > 3
                    &&& rest.len() == bytes.len() - 2
                    &&& forall|i: int| 0 <= i < rest.len() ==> rest[i] == bytes[2 + i]
                },
                Front::Nothing => !whole,
            }
        }),
{
}

/// One frame in front of any bytes adds its packet in front of theirs, with either
/// way of taking packets out.
pub proof fn law_frame_in_front_adds_its_packet(
    channel_id: u8,
    send_mode: SendMode,
    payload: Seq<u8>,
    rest: Seq<u8>,
)
    requires
        payload.len() <= 16384,
    ensures
        ({
            let bytes = frame(channel_id, send_mode, payload) + rest;
            let packet = Packet { channel_id: channel_id as usize, send_mode, payload };
            &&& leading_packets(bytes) == seq![packet] + leading_packets(rest)
            &&& resynced_packets(bytes) == seq![packet] + resynced_packets(rest)
        }),
{
    law_frame_gives_back_its_packet(channel_id, send_mode, payload, rest);
}

/// Bytes at whose front no whole frame stands hold no packet. A frame with an
/// unknown send mode ends one way of taking packets out; the other goes on two bytes
/// further.
pub proof fn law_search_past_what_is_no_frame(bytes: Seq<u8>)
    ensures
        ({
            let size = bytes[2] * 0x100_0000 + bytes[3] * 0x1_0000 + bytes[4] * 0x100 + bytes[5];
            let whole = bytes.len() >= 6 && size <= 16384 && bytes.len() >= 6 + size;
            &&& !whole ==> leading_packets(bytes).len() == 0 && resynced_packets(bytes).len() == 0
            &&& whole && bytes[1] > 3 ==> leading_packets(bytes).len() == 0 && resynced_packets(
                bytes,
            ) == resynced_packets(bytes.subrange(2, bytes.len() as int))
        }),
{
    law_what_stands_at_the_front(bytes);
    if bytes.len() >= 2 {
        assert(bytes.skip(2) =~= bytes.subrange(2, bytes.len() as int));
    }
}

/// Contracts speak of a packet as it is: its channel, its mode and the very bytes of
/// its payload.
pub proof fn law_packet_is_its_parts(packet: RawPacket)
    ensures
        packet@.channel_id == packet.channel_id,
        packet@.send_mode == packet.send_mode,
        packet@.payload == (*packet.payload)@,
{
}

} // verus!
