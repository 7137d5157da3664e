//! The caller's side of a connection: it frames what is sent and passes on what is
//! received.

use crate::buffer;
use crate::bytechannel::{
    self, ByteMode, ByteReader, ByteWriter, ChannelState, EndOp, ReadProgress, ReadReply,
    WriteProgress, WriteReply,
};
use crate::errors::{IoError, IoErrorKind, ReadError, WriteError};
use crate::packet::{self, Message, Packet, SendMode, HEADER_DATA_SIZE};
use crate::shared::{SharedArray, Use};
use bytes::BytesMut;
use crossbeam::queue::SegQueue;
use tokio::sync::Notify;
use vstd::prelude::*;

verus! {

/// The most bytes that wait in either direction of a connection.
pub const MAX_CHANNEL_BOUND_SIZE: usize = 1024;

/// The room of the first buffer that frames are written to.
pub const BUFFER_START_CAPACITY: usize = 1024;

/// `crossbeam::queue::SegQueue`, a queue that grows as needed.
#[verifier::external_type_specification]
#[verifier::external_body]
#[verifier::reject_recursive_types(T)]
pub struct ExSegQueue<T>(SegQueue<T>);

/// What the buffers in a queue hold, in the order in which they come out.
pub uninterp spec fn queued(queue: SegQueue<BytesMut>) -> Seq<Seq<u8>>;

/// `SegQueue::new` makes an empty queue.
#[verifier::external_body]
fn new_queue() -> (queue: SegQueue<BytesMut>)
    ensures
        queued(queue) == Seq::<Seq<u8>>::empty(),
{
    SegQueue::new()
}

/// `SegQueue::push` adds a buffer at the back. The queue is borrowed alone, so no
/// other thread has a part in it.
#[verifier::external_body]
fn push_buffer(queue: &mut SegQueue<BytesMut>, buf: BytesMut)
    ensures
        queued(*final(queue)) == queued(*old(queue)).push(buffer::content(buf)),
{
    queue.push(buf)
}

/// `SegQueue::pop` takes out the buffer at the front. The queue is borrowed alone,
/// so no other thread has a part in it.
#[verifier::external_body]
fn pop_buffer(queue: &mut SegQueue<BytesMut>) -> (buf: Option<BytesMut>)
    ensures
        match buf {
            Some(front) => {
                &&& queued(*old(queue)).len() > 0
                &&& buffer::content(front) == queued(*old(queue))[0]
                &&& queued(*final(queue)) == queued(*old(queue)).skip(1)
            },
            None => {
                &&& queued(*old(queue)).len() == 0
                &&& queued(*final(queue)) == queued(*old(queue))
            },
        },
{
    queue.pop()
}

/// The failure of a connection that is gone.
pub open spec fn is_disconnected_error(error: IoError) -> bool {
    error.kind == IoErrorKind::ConnectionAborted && error.message@ == "disconnected"@
}

/// The failure of a connection that has no room.
pub open spec fn is_full_error(error: IoError) -> bool {
    error.kind == IoErrorKind::StorageFull && error.message@ == "full"@
}

/// The caller's side of a connection.
pub struct Endpoint {
    packets_in_recv: ByteReader,
    packets_out_send: ByteWriter,
    send_buf: SegQueue<BytesMut>,
}

/// The transport's side of a connection.
pub struct Wire {
    /// Where received bytes go.
    pub packet_in_sender: ByteWriter,
    /// Where the frames to be sent come from.
    pub packet_out_recv: ByteReader,
}

impl Endpoint {
    /// The end at which bytes are received.
    pub closed spec fn receiver(self) -> ByteReader {
        self.packets_in_recv
    }

    /// The end into which frames are sent.
    pub closed spec fn sender(self) -> ByteWriter {
        self.packets_out_send
    }

    /// The channel of received bytes.
    pub open spec fn incoming(self) -> SharedArray {
        self.receiver().channel()
    }

    /// The channel of frames to be sent.
    pub open spec fn outgoing(self) -> SharedArray {
        self.sender().channel()
    }

    /// What the buffers hold that wait to be used again.
    pub closed spec fn spare(self) -> Seq<Seq<u8>> {
        queued(self.send_buf)
    }

    /// The two sides of a new connection, joined by a channel in each direction.
    /// One empty buffer waits to be used.
    pub fn new() -> (sides: (Endpoint, Wire))
        ensures
            sides.0.incoming() == sides.1.packet_in_sender.channel(),
            sides.0.outgoing() == sides.1.packet_out_recv.channel(),
            sides.0.incoming().mode() == ByteMode::Restricted(MAX_CHANNEL_BOUND_SIZE),
            sides.0.outgoing().mode() == ByteMode::Restricted(MAX_CHANNEL_BOUND_SIZE),
            sides.0.spare() == seq![Seq::<u8>::empty()],
            sides.0.incoming().first() == bytechannel::new_state(),
            sides.0.outgoing().first() == bytechannel::new_state(),
            sides.0.incoming().first_ends() == 2,
            sides.0.outgoing().first_ends() == 2,
            !sides.0.receiver().closed(),
            !sides.0.sender().closed(),
            !sides.1.packet_in_sender.closed(),
            !sides.1.packet_out_recv.closed(),
            sides.0.receiver().woken() == Seq::<Notify>::empty(),
            sides.0.sender().woken() == Seq::<Notify>::empty(),
            sides.1.packet_in_sender.woken() == Seq::<Notify>::empty(),
            sides.1.packet_out_recv.woken() == Seq::<Notify>::empty(),
            sides.0.receiver().uses() == Seq::<Use>::empty(),
            sides.0.sender().uses() == Seq::<Use>::empty(),
            sides.1.packet_in_sender.uses() == Seq::<Use>::empty(),
            sides.1.packet_out_recv.uses() == Seq::<Use>::empty(),
    {
        let mut send_buf = new_queue();
        push_buffer(&mut send_buf, BytesMut::with_capacity(BUFFER_START_CAPACITY));
        assert(queued(send_buf) =~= seq![Seq::<u8>::empty()]);
        let (incoming_send, incoming_recv) = bytechannel::byte_channel(
            ByteMode::Restricted(MAX_CHANNEL_BOUND_SIZE),
        );
        let (outgoing_send, outgoing_recv) = bytechannel::byte_channel(
            ByteMode::Restricted(MAX_CHANNEL_BOUND_SIZE),
        );
        (
            Endpoint { packets_in_recv: incoming_recv, packets_out_send: outgoing_send, send_buf },
            Wire { packet_in_sender: incoming_send, packet_out_recv: outgoing_recv },
        )
    }

    /// Writes the frame of a payload that is to be sent into a buffer that is used
    /// again, or into a new one where none waits, and makes a copy of it to be sent.
    /// What the buffer held before leaves no trace. The frame and its copy are
    /// returned.
    pub fn begin_send(&mut self, bytes: &[u8], channel_id: u8, send_mode: SendMode) -> (frames: (
        BytesMut,
        BytesMut,
    ))
        requires
            HEADER_DATA_SIZE + bytes@.len() <= isize::MAX,
        ensures
            buffer::content(frames.0) == packet::frame(channel_id, send_mode, bytes@),
            buffer::content(frames.1) == packet::frame(channel_id, send_mode, bytes@),
            final(self).spare() == (if old(self).spare().len() > 0 {
                old(self).spare().skip(1)
            } else {
                old(self).spare()
            }),
            final(self).receiver() == old(self).receiver(),
            final(self).sender() == old(self).sender(),
    {
        let mut frame = match pop_buffer(&mut self.send_buf) {
            Some(frame) => frame,
            None => BytesMut::with_capacity(HEADER_DATA_SIZE + bytes.len()),
        };
        packet::write_frame(&mut frame, bytes, channel_id, send_mode);
        let copy = frame.clone();
        (frame, copy)
    }

    /// One step of sending a frame: the rest of it goes into the channel as far as
    /// there is room. Where this side has disconnected the channel it does not wait:
    /// it ends with that error.
    pub fn send_step(&mut self, data: BytesMut) -> (next: WriteProgress)
        ensures
            next matches WriteProgress::Finished(result) ==> !(bytechannel::written(
                result,
            ) is Full),
            final(self).outgoing() == old(self).outgoing(),
            final(self).sender().closed() == old(self).sender().closed(),
            if old(self).sender().closed() {
                &&& bytechannel::step_reply(next) == WriteReply::Disconnected(
                    buffer::content(data),
                )
                &&& final(self).sender().uses() == old(self).sender().uses()
            } else {
                bytechannel::did(
                    old(self).outgoing(),
                    old(self).sender().uses(),
                    final(self).sender().uses(),
                    EndOp::Write(buffer::content(data), bytechannel::step_reply(next)),
                )
            },
            final(self).sender().woken() == (if bytechannel::moved_bytes(
                buffer::content(data),
                bytechannel::step_reply(next),
            ) {
                old(self).sender().woken().push(old(self).outgoing().changes())
            } else {
                old(self).sender().woken()
            }),
            final(self).receiver() == old(self).receiver(),
            final(self).spare() == old(self).spare(),
    {
        self.packets_out_send.write_step(data)
    }

    /// Ends the sending of a frame: its buffer waits to be used again, and the
    /// caller is told what came of it.
    pub fn end_send(
        &mut self,
        frame: BytesMut,
        outcome: Result<(), bytechannel::WriteError>,
    ) -> (result: Result<(), WriteError<IoError>>)
        ensures
            match outcome {
                Ok(()) => result is Ok,
                Err(bytechannel::WriteError::Full(_)) => result matches Err(
                    WriteError::FailedToWrite(error),
                ) && is_full_error(error),
                Err(bytechannel::WriteError::Disconnected(_)) => result matches Err(
                    WriteError::FailedToWrite(error),
                ) && is_disconnected_error(error),
            },
            final(self).spare() == old(self).spare().push(buffer::content(frame)),
            final(self).receiver() == old(self).receiver(),
            final(self).sender() == old(self).sender(),
    {
        let result = match outcome {
            Ok(()) => Ok(()),
            Err(bytechannel::WriteError::Full(_)) => Err(
                WriteError::FailedToWrite(
                    IoError { kind: IoErrorKind::StorageFull, message: "full" },
                ),
            ),
            Err(bytechannel::WriteError::Disconnected(_)) => Err(
                WriteError::FailedToWrite(
                    IoError { kind: IoErrorKind::ConnectionAborted, message: "disconnected" },
                ),
            ),
        };
        push_buffer(&mut self.send_buf, frame);
        result
    }

    /// One step of receiving bytes. Where this side has disconnected the channel it
    /// does not wait: it ends with that error.
    pub fn receive_step(&mut self) -> (next: ReadProgress)
        ensures
            next matches ReadProgress::Finished(result) ==> !(bytechannel::read(result) is Empty),
            final(self).incoming() == old(self).incoming(),
            final(self).receiver().closed() == old(self).receiver().closed(),
            if old(self).receiver().closed() {
                &&& bytechannel::read_step_reply(next) is Disconnected
                &&& final(self).receiver().uses() == old(self).receiver().uses()
            } else {
                bytechannel::did(
                    old(self).incoming(),
                    old(self).receiver().uses(),
                    final(self).receiver().uses(),
                    EndOp::Read(bytechannel::read_step_reply(next)),
                )
            },
            final(self).receiver().woken() == (if bytechannel::read_step_reply(next) is Bytes {
                old(self).receiver().woken().push(old(self).incoming().changes())
            } else {
                old(self).receiver().woken()
            }),
            final(self).sender() == old(self).sender(),
            final(self).spare() == old(self).spare(),
    {
        self.packets_in_recv.read_step()
    }

    /// Where a task waits to send the rest of a frame.
    pub fn room(&self) -> (notify: &Notify)
        ensures
            *notify == self.outgoing().changes(),
    {
        self.packets_out_send.changes()
    }

    /// Where a task waits for bytes to come.
    pub fn arrivals(&self) -> (notify: &Notify)
        ensures
            *notify == self.incoming().changes(),
    {
        self.packets_in_recv.changes()
    }

    /// Disconnects both channels and wakes nobody, as dropping this side does.
    pub fn abandon(&mut self)
        ensures
            final(self).incoming() == old(self).incoming(),
            final(self).outgoing() == old(self).outgoing(),
            final(self).receiver().closed(),
            final(self).sender().closed(),
            bytechannel::did(
                old(self).incoming(),
                old(self).receiver().uses(),
                final(self).receiver().uses(),
                EndOp::Disconnect,
            ),
            bytechannel::did(
                old(self).outgoing(),
                old(self).sender().uses(),
                final(self).sender().uses(),
                EndOp::Disconnect,
            ),
            final(self).receiver().woken() == old(self).receiver().woken(),
            final(self).sender().woken() == old(self).sender().woken(),
            final(self).spare() == old(self).spare(),
    {
        self.packets_in_recv.abandon();
        self.packets_out_send.abandon();
    }
}

impl Wire {
    /// Disconnects both channels and wakes nobody, as dropping this side does.
    pub fn abandon(&mut self)
        ensures
            final(self).packet_in_sender.channel() == old(self).packet_in_sender.channel(),
            final(self).packet_out_recv.channel() == old(self).packet_out_recv.channel(),
            final(self).packet_in_sender.closed(),
            final(self).packet_out_recv.closed(),
            bytechannel::did(
                old(self).packet_in_sender.channel(),
                old(self).packet_in_sender.uses(),
                final(self).packet_in_sender.uses(),
                EndOp::Disconnect,
            ),
            bytechannel::did(
                old(self).packet_out_recv.channel(),
                old(self).packet_out_recv.uses(),
                final(self).packet_out_recv.uses(),
                EndOp::Disconnect,
            ),
            final(self).packet_in_sender.woken() == old(self).packet_in_sender.woken(),
            final(self).packet_out_recv.woken() == old(self).packet_out_recv.woken(),
    {
        self.packet_in_sender.abandon();
        self.packet_out_recv.abandon();
    }
}

/// What a caller that receives is told.
pub fn received(outcome: Result<BytesMut, bytechannel::ReadError>) -> (result: Result<
    BytesMut,
    ReadError<IoError>,
>)
    ensures
        match outcome {
            Ok(bytes) => result == Ok::<_, ReadError<IoError>>(bytes),
            Err(bytechannel::ReadError::Empty) => result == Err::<BytesMut, _>(
                ReadError::<IoError>::EmptyBuffer,
            ),
            Err(bytechannel::ReadError::Disconnected) => result matches Err(
                ReadError::FailedToRead(error),
            ) && is_disconnected_error(error),
        },
{
    match outcome {
        Ok(bytes) => Ok(bytes),
        Err(bytechannel::ReadError::Empty) => Err(ReadError::EmptyBuffer),
        Err(bytechannel::ReadError::Disconnected) => Err(
            ReadError::FailedToRead(
                IoError { kind: IoErrorKind::ConnectionAborted, message: "disconnected" },
            ),
        ),
    }
}

/// The channel after the frames of `messages` were written to it, one after the
/// other.
pub open spec fn after_sending(state: ChannelState, messages: Seq<Message>) -> ChannelState
    decreases messages.len(),
{
    if messages.len() == 0 {
        state
    } else {
        let first = messages[0];
        after_sending(
            bytechannel::after_write(
                ByteMode::Restricted(MAX_CHANNEL_BOUND_SIZE),
                state,
                packet::frame(first.channel_id, first.send_mode, first.payload),
            ),
            messages.skip(1),
        )
    }
}

/// Whether each of these writes is taken at once.
pub open spec fn all_taken(state: ChannelState, messages: Seq<Message>) -> bool
    decreases messages.len(),
{
    messages.len() > 0 ==> ({
        let first = messages[0];
        let mode = ByteMode::Restricted(MAX_CHANNEL_BOUND_SIZE);
        let frame = packet::frame(first.channel_id, first.send_mode, first.payload);
        &&& bytechannel::write_reply(mode, state, frame) == WriteReply::Done
        &&& all_taken(bytechannel::after_write(mode, state, frame), messages.skip(1))
    })
}

/// Frames that fit are taken at once and laid one behind the other.
proof fn lemma_sending(state: ChannelState, messages: Seq<Message>)
    requires
        !state.disconnected,
        state.bytes.len() + packet::frames(messages).len() <= MAX_CHANNEL_BOUND_SIZE,
    ensures
        all_taken(state, messages),
        after_sending(state, messages) == (ChannelState {
            bytes: state.bytes + packet::frames(messages),
            disconnected: false,
        }),
    decreases messages.len(),
{
    if messages.len() == 0 {
        assert(state.bytes + packet::frames(messages) =~= state.bytes);
    } else {
        let first = messages[0];
        let frame = packet::frame(first.channel_id, first.send_mode, first.payload);
        let next = bytechannel::after_write(
            ByteMode::Restricted(MAX_CHANNEL_BOUND_SIZE),
            state,
            frame,
        );
        assert(frame.take(frame.len() as int) =~= frame);
        lemma_sending(next, messages.skip(1));
        assert(next.bytes + packet::frames(messages.skip(1)) =~= state.bytes + packet::frames(
            messages,
        ));
    }
}

/// Every payload is part of the frames that carry it.
proof fn lemma_payload_in_frames(messages: Seq<Message>, i: int)
    requires
        0 <= i < messages.len(),
    ensures
        messages[i].payload.len() <= packet::frames(messages).len(),
    decreases messages.len(),
{
    if i > 0 {
        lemma_payload_in_frames(messages.skip(1), i - 1);
        assert(messages.skip(1)[i - 1] == messages[i]);
    }
}

/// Messages that are sent through an empty connection, and whose frames fit into
/// it together, are all taken at once, and the other side reads them as the same
/// packets in the same order and leaves the connection empty for the next.
pub proof fn law_messages_arrive_as_sent(messages: Seq<Message>)
    requires
        messages.len() > 0,
        packet::frames(messages).len() <= MAX_CHANNEL_BOUND_SIZE,
    ensures
        ({
            let empty = bytechannel::new_state();
            let packets = messages.map_values(|m: Message| packet::packet_of(m));
            &&& all_taken(empty, messages)
            &&& bytechannel::after_read(after_sending(empty, messages)) == empty
            &&& bytechannel::read_reply(after_sending(empty, messages)) matches ReadReply::Bytes(
                bytes,
            ) && packet::leading_packets(bytes) == packets && packet::resynced_packets(bytes)
                == packets
        }),
{
    let empty = bytechannel::new_state();
    lemma_sending(empty, messages);
    assert forall|i: int| 0 <= i < messages.len() implies (#[trigger] messages[i]).payload.len()
        <= packet::MAX_PAYLOAD_SIZE by {
        lemma_payload_in_frames(messages, i);
    }
    packet::law_frames_give_back_their_packets(messages);
    assert(empty.bytes + packet::frames(messages) =~= packet::frames(messages));
}

/// A message whose frame is longer than what a connection holds is read in parts,
/// and no packet comes out of the first.
pub proof fn law_first_part_of_a_long_message_holds_no_packet(message: Message)
    requires
        MAX_CHANNEL_BOUND_SIZE < HEADER_DATA_SIZE + message.payload.len(),
        message.payload.len() < 0x1_0000_0000,
    ensures
        ({
            let empty = bytechannel::new_state();
            let filled = after_sending(empty, seq![message]);
            &&& !all_taken(empty, seq![message])
            &&& bytechannel::read_reply(filled) matches ReadReply::Bytes(bytes)
                && packet::leading_packets(bytes) == Seq::<Packet>::empty()
                && packet::resynced_packets(bytes) == Seq::<Packet>::empty()
        }),
{
    let empty = bytechannel::new_state();
    let one = seq![message];
    let frame = packet::frame(message.channel_id, message.send_mode, message.payload);
    packet::law_part_of_a_frame_is_left_alone(
        message.channel_id,
        message.send_mode,
        message.payload,
        MAX_CHANNEL_BOUND_SIZE as nat,
    );
    let filled = after_sending(empty, one);
    assert(one.skip(1) =~= Seq::<Message>::empty());
    reveal_with_fuel(after_sending, 2);
    assert(filled.bytes =~= frame.take(MAX_CHANNEL_BOUND_SIZE as int));
}

} // verus!
