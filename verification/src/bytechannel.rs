//! A byte channel: a bounded or unbounded buffer with a writing and a reading
//! end, either of which may disconnect it or be dropped.
//!
//! [`ByteArray`] is the state of a channel, and its methods are the rules of
//! writing and reading. [`ByteWriter`] and [`ByteReader`] apply these rules to a
//! state that they share behind a lock, and wake the tasks that wait for it to
//! change.

use crate::buffer;
use crate::shared::{self, SharedArray, Use, UseLog, WakeLog};
use bytes::BytesMut;
use std::sync::Arc;
use tokio::sync::Notify;
use vstd::prelude::*;

verus! {

/// How much a channel holds.
#[derive(Clone, Copy, Debug, PartialEq, Eq, Structural)]
pub enum ByteMode {
    /// At most so many bytes.
    Restricted(usize),
    /// As much as memory allows.
    Unrestricted,
}

/// Why a write did not go through, with the bytes that were not taken.
#[derive(Clone, Debug, PartialEq, Eq)]
pub enum WriteError {
    /// The channel is disconnected; none of the bytes were taken.
    Disconnected(BytesMut),
    /// The channel had room for only part of the bytes.
    Full(BytesMut),
}

/// Why a read gave nothing.
#[derive(Clone, Debug, PartialEq, Eq)]
pub enum ReadError {
    /// The channel is disconnected.
    Disconnected,
    /// The channel holds nothing.
    Empty,
}

/// The state of a channel, as contracts speak of it.
#[verifier::ext_equal]
pub struct ChannelState {
    /// The bytes written and not yet read, in order.
    pub bytes: Seq<u8>,
    /// Whether either end has disconnected the channel.
    pub disconnected: bool,
}

/// The state of a new channel: connected, and holding nothing.
pub open spec fn new_state() -> ChannelState {
    ChannelState { bytes: Seq::empty(), disconnected: false }
}

/// What a write is answered, as contracts speak of it.
#[verifier::ext_equal]
pub enum WriteReply {
    /// All bytes were taken.
    Done,
    /// None were, and here they are.
    Disconnected(Seq<u8>),
    /// These were not.
    Full(Seq<u8>),
}

/// What a read is answered, as contracts speak of it.
#[verifier::ext_equal]
pub enum ReadReply {
    /// These bytes.
    Bytes(Seq<u8>),
    /// The channel is disconnected.
    Disconnected,
    /// The channel holds nothing.
    Empty,
}

/// A channel holds no more than its mode allows.
pub open spec fn within(mode: ByteMode, state: ChannelState) -> bool {
    mode matches ByteMode::Restricted(limit) ==> state.bytes.len() <= limit
}

/// How many bytes of `data` a write takes: none of them where the channel is
/// disconnected, otherwise as many as there is room for.
pub open spec fn taken(mode: ByteMode, state: ChannelState, data: Seq<u8>) -> nat {
    if state.disconnected {
        0
    } else {
        match mode {
            ByteMode::Unrestricted => data.len(),
            ByteMode::Restricted(limit) => if data.len() <= limit - state.bytes.len() {
                data.len()
            } else {
                (limit - state.bytes.len()) as nat
            },
        }
    }
}

/// The state after a write of `data`.
pub open spec fn after_write(mode: ByteMode, state: ChannelState, data: Seq<u8>) -> ChannelState {
    ChannelState { bytes: state.bytes + data.take(taken(mode, state, data) as int), ..state }
}

/// What a write of `data` is answered.
pub open spec fn write_reply(mode: ByteMode, state: ChannelState, data: Seq<u8>) -> WriteReply {
    if state.disconnected {
        WriteReply::Disconnected(data)
    } else if taken(mode, state, data) == data.len() {
        WriteReply::Done
    } else {
        WriteReply::Full(data.skip(taken(mode, state, data) as int))
    }
}

/// Whether what a write takes still fits into one buffer.
pub open spec fn write_fits(mode: ByteMode, state: ChannelState, data: Seq<u8>) -> bool {
    state.bytes.len() + taken(mode, state, data) <= isize::MAX
}

/// The state after a read: a read takes everything.
pub open spec fn after_read(state: ChannelState) -> ChannelState {
    if state.disconnected {
        state
    } else {
        ChannelState { bytes: Seq::empty(), ..state }
    }
}

/// What a read is answered. The bytes that a channel held when it was
/// disconnected are never read.
pub open spec fn read_reply(state: ChannelState) -> ReadReply {
    if state.disconnected {
        ReadReply::Disconnected
    } else if state.bytes.len() > 0 {
        ReadReply::Bytes(state.bytes)
    } else {
        ReadReply::Empty
    }
}

/// The state after a disconnection.
pub open spec fn after_disconnect(state: ChannelState) -> ChannelState {
    ChannelState { disconnected: true, ..state }
}

/// A write's result, as contracts speak of it.
pub open spec fn written(result: Result<(), WriteError>) -> WriteReply {
    match result {
        Ok(()) => WriteReply::Done,
        Err(WriteError::Disconnected(data)) => WriteReply::Disconnected(buffer::content(data)),
        Err(WriteError::Full(data)) => WriteReply::Full(buffer::content(data)),
    }
}

/// A read's result, as contracts speak of it.
pub open spec fn read(result: Result<BytesMut, ReadError>) -> ReadReply {
    match result {
        Ok(data) => ReadReply::Bytes(buffer::content(data)),
        Err(ReadError::Disconnected) => ReadReply::Disconnected,
        Err(ReadError::Empty) => ReadReply::Empty,
    }
}

impl WriteError {
    /// The error in words.
    pub fn message(&self) -> (text: &'static str)
        ensures
            text@ == (match self {
                WriteError::Disconnected(_) => "Byte Channel Disconnected!"@,
                WriteError::Full(_) => "Byte Channel is Full!"@,
            }),
    {
        match self {
            WriteError::Disconnected(_) => "Byte Channel Disconnected!",
            WriteError::Full(_) => "Byte Channel is Full!",
        }
    }
}

impl ReadError {
    /// The error in words.
    pub fn message(&self) -> (text: &'static str)
        ensures
            text@ == (match self {
                ReadError::Disconnected => "Byte Channel Disconnected!"@,
                ReadError::Empty => "Byte Channel is Empty!"@,
            }),
    {
        match self {
            ReadError::Disconnected => "Byte Channel Disconnected!",
            ReadError::Empty => "Byte Channel is Empty!",
        }
    }
}

/// The state of a channel.
#[derive(Debug)]
pub struct ByteArray {
    bytes: BytesMut,
    disconnected: bool,
    ends: usize,
}

impl View for ByteArray {
    type V = ChannelState;

    closed spec fn view(&self) -> ChannelState {
        ChannelState { bytes: buffer::content(self.bytes), disconnected: self.disconnected }
    }
}

/// The outcome of a write, and whether it changed what a reader finds, so that
/// those who wait for that are to be woken.
#[derive(Debug)]
pub struct Written {
    pub result: Result<(), WriteError>,
    pub wake: bool,
}

impl ByteArray {
    /// How many ends the channel was given.
    pub closed spec fn ends(self) -> nat {
        self.ends as nat
    }

    /// The state of a new channel: connected, holding nothing, and without ends.
    pub fn new() -> (array: ByteArray)
        ensures
            array@ == new_state(),
            array.ends() == 0,
    {
        ByteArray { bytes: BytesMut::new(), disconnected: false, ends: 0 }
    }

    /// Gives the channel one more end. There are never as many as a `usize` counts.
    pub fn add_end(&mut self)
        ensures
            final(self)@ == old(self)@,
            final(self).ends() == (if old(self).ends() < usize::MAX {
                old(self).ends() + 1
            } else {
                old(self).ends()
            }),
    {
        if self.ends < usize::MAX {
            self.ends = self.ends + 1;
        }
    }

    /// Whether an end was dropped, given how many are left.
    pub fn lost_end(&self, left: usize) -> (lost: bool)
        ensures
            lost == (left < self.ends()),
    {
        left < self.ends
    }

    /// Disconnects the channel if an end was dropped, given how many are left.
    pub fn settle(&mut self, left: usize)
        ensures
            final(self)@ == (if left < old(self).ends() {
                after_disconnect(old(self)@)
            } else {
                old(self)@
            }),
            final(self).ends() == old(self).ends(),
    {
        if self.lost_end(left) {
            self.disconnect();
        }
    }

    /// Takes out everything that the channel holds. A waiting task is to be woken
    /// where this succeeds.
    pub fn read(&mut self) -> (result: Result<BytesMut, ReadError>)
        ensures
            read(result) == read_reply(old(self)@),
            final(self)@ == after_read(old(self)@),
            final(self).ends() == old(self).ends(),
    {
        if self.disconnected {
            return Err(ReadError::Disconnected);
        }
        if !self.bytes.is_empty() {
            return Ok(self.bytes.split());
        }
        assert(self@.bytes =~= Seq::<u8>::empty());
        Err(ReadError::Empty)
    }

    /// Whether what a write of `data` takes still fits into one buffer.
    pub fn can_write(&self, mode: ByteMode, data: &BytesMut) -> (fits: bool)
        requires
            within(mode, self@),
        ensures
            fits == write_fits(mode, self@, buffer::content(*data)),
    {
        let held = self.bytes.len();
        if self.disconnected {
            return true;
        }
        let spare: usize = isize::MAX as usize - held;
        let count = data.len();
        match mode {
            ByteMode::Unrestricted => count <= spare,
            ByteMode::Restricted(limit) => {
                let available: usize = limit - held;
                if count <= available {
                    count <= spare
                } else {
                    available <= spare
                }
            },
        }
    }

    /// Appends as much of `data` as there is room for and hands back the rest.
    pub fn write(&mut self, mode: ByteMode, data: BytesMut) -> (written: Written)
        requires
            within(mode, old(self)@),
            write_fits(mode, old(self)@, buffer::content(data)),
        ensures
            self::written(written.result) == write_reply(mode, old(self)@, buffer::content(data)),
            written.wake == (taken(mode, old(self)@, buffer::content(data)) > 0),
            final(self)@ == after_write(mode, old(self)@, buffer::content(data)),
            within(mode, final(self)@),
            final(self).ends() == old(self).ends(),
    {
        let ghost whole = buffer::content(data);
        proof {
            assert(whole.take(0) =~= Seq::<u8>::empty());
            assert(whole.take(whole.len() as int) =~= whole);
            assert(self@.bytes + Seq::<u8>::empty() =~= self@.bytes);
        }
        if self.disconnected {
            return Written { result: Err(WriteError::Disconnected(data)), wake: false };
        }
        if data.is_empty() {
            return Written { result: Ok(()), wake: false };
        }
        match mode {
            ByteMode::Unrestricted => {
                self.bytes.unsplit(data);
                Written { result: Ok(()), wake: true }
            },
            ByteMode::Restricted(limit) => {
                let available: usize = limit - self.bytes.len();
                if available < data.len() {
                    let mut rest = data;
                    let mut wake = false;
                    if available > 0 {
                        let head = rest.split_to(available);
                        self.bytes.unsplit(head);
                        wake = true;
                    } else {
                        assert(whole.skip(0) =~= whole);
                    }
                    return Written { result: Err(WriteError::Full(rest)), wake };
                }
                self.bytes.unsplit(data);
                Written { result: Ok(()), wake: true }
            },
        }
    }

    /// Makes room for `additional` more bytes and hands out an empty buffer that
    /// has it.
    pub fn take_capacity(&mut self, additional_data: usize) -> (spare: BytesMut)
        requires
            old(self)@.bytes.len() + additional_data <= isize::MAX,
        ensures
            buffer::content(spare) == Seq::<u8>::empty(),
            final(self)@ == old(self)@,
            final(self).ends() == old(self).ends(),
    {
        self.bytes.reserve(additional_data);
        let len = self.bytes.len();
        let spare = self.bytes.split_off(len);
        assert(self@.bytes =~= old(self)@.bytes);
        assert(buffer::content(spare) =~= Seq::<u8>::empty());
        spare
    }

    /// How many bytes the channel holds.
    pub fn len(&self) -> (n: usize)
        ensures
            n == self@.bytes.len(),
            n <= isize::MAX,
    {
        self.bytes.len()
    }

    /// Whether either end has disconnected the channel.
    pub fn is_disconnected(&self) -> (disconnected: bool)
        ensures
            disconnected == self@.disconnected,
    {
        self.disconnected
    }

    /// Disconnects the channel.
    pub fn disconnect(&mut self)
        ensures
            final(self)@ == after_disconnect(old(self)@),
            final(self).ends() == old(self).ends(),
    {
        self.disconnected = true;
    }
}

/// What an end of a channel does with the shared state, and what it is answered.
pub enum EndOp {
    /// It writes these bytes.
    Write(Seq<u8>, WriteReply),
    /// It reads.
    Read(ReadReply),
    /// It disconnects the channel.
    Disconnect,
    /// It asks whether the channel is disconnected.
    Look(bool),
    /// It asks for a buffer with room for so many more bytes, and gets one or not.
    Reserve(nat, bool),
    /// It is cloned.
    Join,
}

/// Whether `used` is a use of the shared state of a channel of this mode by which an
/// end does `op`: the answer fits what was found, and what is left is what the rules
/// of the channel make of it. Where what a write would take does not fit into one
/// buffer any more, all of it is handed back.
pub open spec fn serves(mode: ByteMode, used: Use, op: EndOp) -> bool {
    let seen = shared::seen(used);
    &&& within(mode, used.found)
    &&& match op {
        EndOp::Write(data, reply) => if write_fits(mode, seen, data) {
            reply == write_reply(mode, seen, data) && used.left == after_write(mode, seen, data)
        } else {
            reply == WriteReply::Full(data) && used.left == seen
        },
        EndOp::Read(reply) => reply == read_reply(seen) && used.left == after_read(seen),
        EndOp::Disconnect => used.left == after_disconnect(seen),
        EndOp::Look(disconnected) => disconnected == seen.disconnected && used.left == seen,
        EndOp::Reserve(more, given) => given == (seen.bytes.len() + more <= isize::MAX)
            && used.left == seen,
        EndOp::Join => used.left == seen,
    }
    &&& used.ends_after == (if op is Join && used.ends < usize::MAX {
        used.ends + 1
    } else {
        used.ends
    })
}

/// Whether an end of `channel` whose log was `before` and is `after` has used the
/// shared state once since, doing `op`.
pub open spec fn did(channel: SharedArray, before: Seq<Use>, after: Seq<Use>, op: EndOp) -> bool {
    &&& after == before.push(after.last())
    &&& after.last().channel == channel
    &&& serves(channel.mode(), after.last(), op)
}

/// What a task that writes does next.
#[derive(Debug)]
pub enum WriteProgress {
    /// It is done, with this result.
    Finished(Result<(), WriteError>),
    /// It waits for the channel to change and then writes these bytes.
    Wait(BytesMut),
}

/// What a task that reads does next.
#[derive(Debug)]
pub enum ReadProgress {
    /// It is done, with this result.
    Finished(Result<BytesMut, ReadError>),
    /// It waits for the channel to change and then reads again.
    Wait,
}

/// The answer that a step of a write got.
pub open spec fn step_reply(next: WriteProgress) -> WriteReply {
    match next {
        WriteProgress::Finished(result) => written(result),
        WriteProgress::Wait(rest) => WriteReply::Full(buffer::content(rest)),
    }
}

/// The answer that a step of a read got.
pub open spec fn read_step_reply(next: ReadProgress) -> ReadReply {
    match next {
        ReadProgress::Finished(result) => read(result),
        ReadProgress::Wait => ReadReply::Empty,
    }
}

/// What a task that must get all its bytes across does after a write was
/// answered: where the channel was full, it waits and goes on with the rest.
pub fn write_progress(result: Result<(), WriteError>) -> (next: WriteProgress)
    ensures
        match result {
            Err(WriteError::Full(rest)) => next == WriteProgress::Wait(rest),
            _ => next == WriteProgress::Finished(result),
        },
{
    match result {
        Err(WriteError::Full(rest)) => WriteProgress::Wait(rest),
        finished => WriteProgress::Finished(finished),
    }
}

/// What a task that must get some bytes does after a read was answered: where the
/// channel was empty, it waits and reads again.
pub fn read_progress(result: Result<BytesMut, ReadError>) -> (next: ReadProgress)
    ensures
        match result {
            Err(ReadError::Empty) => next == ReadProgress::Wait,
            _ => next == ReadProgress::Finished(result),
        },
{
    match result {
        Err(ReadError::Empty) => ReadProgress::Wait,
        finished => ReadProgress::Finished(finished),
    }
}

/// Whether a write of `data` that was answered `reply` changed what a reader finds.
pub open spec fn moved_bytes(data: Seq<u8>, reply: WriteReply) -> bool {
    match reply {
        WriteReply::Done => data.len() > 0,
        WriteReply::Full(rest) => rest.len() < data.len(),
        WriteReply::Disconnected(_) => false,
    }
}

/// The writing end of a channel. A channel one of whose ends is dropped is
/// disconnected: whoever uses it next finds that an end is missing.
pub struct ByteWriter {
    shared: Arc<SharedArray>,
    closed: bool,
    wakes: WakeLog,
    uses: UseLog,
}

/// The reading end of a channel. A channel one of whose ends is dropped is
/// disconnected: whoever uses it next finds that an end is missing.
pub struct ByteReader {
    shared: Arc<SharedArray>,
    closed: bool,
    wakes: WakeLog,
    uses: UseLog,
}

/// A new channel of the given mode: its writing end and its reading end, which
/// share one state, at first connected and empty.
pub fn byte_channel(byte_mode: ByteMode) -> (ends: (ByteWriter, ByteReader))
    ensures
        ends.0.channel() == ends.1.channel(),
        ends.0.mode() == byte_mode,
        ends.1.mode() == byte_mode,
        ends.0.channel().first() == new_state(),
        ends.0.channel().first_ends() == 2,
        !ends.0.closed(),
        !ends.1.closed(),
        ends.0.woken() == Seq::<Notify>::empty(),
        ends.1.woken() == Seq::<Notify>::empty(),
        ends.0.uses() == Seq::<Use>::empty(),
        ends.1.uses() == Seq::<Use>::empty(),
{
    let mut array = ByteArray::new();
    array.add_end();
    array.add_end();
    let shared = Arc::new(SharedArray::new(byte_mode, array));
    (
        ByteWriter {
            shared: shared.clone(),
            closed: false,
            wakes: WakeLog::new(),
            uses: UseLog::new(),
        },
        ByteReader { shared, closed: false, wakes: WakeLog::new(), uses: UseLog::new() },
    )
}

impl ByteReader {
    /// The channel that this is an end of.
    pub closed spec fn channel(self) -> SharedArray {
        *self.shared
    }

    /// The mode of the channel.
    pub open spec fn mode(self) -> ByteMode {
        self.channel().mode()
    }

    /// Whether this end has disconnected the channel.
    pub closed spec fn closed(self) -> bool {
        self.closed
    }

    /// On what this end woke those who wait, in order.
    pub closed spec fn woken(self) -> Seq<Notify> {
        self.wakes@
    }

    /// The uses that this end made of the shared state, in order.
    pub closed spec fn uses(self) -> Seq<Use> {
        self.uses@
    }

    /// Takes out everything that the channel holds, without waiting. Those who wait
    /// are woken where there was anything. Where this end has disconnected the
    /// channel, it need not look.
    pub fn read_sync(&mut self) -> (result: Result<BytesMut, ReadError>)
        ensures
            final(self).channel() == old(self).channel(),
            final(self).closed() == old(self).closed(),
            if old(self).closed() {
                read(result) is Disconnected && final(self).uses() == old(self).uses()
            } else {
                did(
                    old(self).channel(),
                    old(self).uses(),
                    final(self).uses(),
                    EndOp::Read(read(result)),
                )
            },
            final(self).woken() == (if read(result) is Bytes {
                old(self).woken().push(old(self).channel().changes())
            } else {
                old(self).woken()
            }),
    {
        if self.closed {
            return Err(ReadError::Disconnected);
        }
        let (mut array, lease) = SharedArray::open(&self.shared);
        let result = array.read();
        lease.close(array, &mut self.uses);
        if result.is_ok() {
            self.wakes.notify_waiters(self.shared.notify());
        }
        result
    }

    /// One step of a read that waits for bytes. Where this end has disconnected the
    /// channel it does not wait: it ends with that error.
    pub fn read_step(&mut self) -> (next: ReadProgress)
        ensures
            final(self).channel() == old(self).channel(),
            final(self).closed() == old(self).closed(),
            next matches ReadProgress::Finished(result) ==> !(read(result) is Empty),
            if old(self).closed() {
                read_step_reply(next) is Disconnected && final(self).uses() == old(self).uses()
            } else {
                did(
                    old(self).channel(),
                    old(self).uses(),
                    final(self).uses(),
                    EndOp::Read(read_step_reply(next)),
                )
            },
            final(self).woken() == (if read_step_reply(next) is Bytes {
                old(self).woken().push(old(self).channel().changes())
            } else {
                old(self).woken()
            }),
    {
        read_progress(self.read_sync())
    }

    /// Whether the channel is disconnected: some end has disconnected it, or one is
    /// missing. An end that has disconnected the channel need not look.
    pub fn is_disconnected(&mut self) -> (disconnected: bool)
        ensures
            final(self).channel() == old(self).channel(),
            final(self).closed() == old(self).closed(),
            final(self).woken() == old(self).woken(),
            if old(self).closed() {
                disconnected && final(self).uses() == old(self).uses()
            } else {
                did(
                    old(self).channel(),
                    old(self).uses(),
                    final(self).uses(),
                    EndOp::Look(disconnected),
                )
            },
    {
        if self.closed {
            return true;
        }
        let (array, lease) = SharedArray::open(&self.shared);
        let disconnected = array.is_disconnected();
        lease.close(array, &mut self.uses);
        disconnected
    }

    /// Disconnects the channel and wakes those who wait on it.
    pub fn disconnect(&mut self)
        ensures
            final(self).closed(),
            final(self).channel() == old(self).channel(),
            did(old(self).channel(), old(self).uses(), final(self).uses(), EndOp::Disconnect),
            final(self).woken() == old(self).woken().push(old(self).channel().changes()),
    {
        self.abandon();
        self.wakes.notify_waiters(self.shared.notify());
    }

    /// Disconnects the channel and wakes nobody, as dropping this end does.
    pub fn abandon(&mut self)
        ensures
            final(self).closed(),
            final(self).channel() == old(self).channel(),
            did(old(self).channel(), old(self).uses(), final(self).uses(), EndOp::Disconnect),
            final(self).woken() == old(self).woken(),
    {
        let (mut array, lease) = SharedArray::open(&self.shared);
        array.disconnect();
        lease.close(array, &mut self.uses);
        self.closed = true;
    }

    /// Where a task waits for the channel to change.
    pub fn changes(&self) -> (notify: &Notify)
        ensures
            *notify == self.channel().changes(),
    {
        self.shared.notify()
    }
}

impl ByteWriter {
    /// The channel that this is an end of.
    pub closed spec fn channel(self) -> SharedArray {
        *self.shared
    }

    /// The mode of the channel.
    pub open spec fn mode(self) -> ByteMode {
        self.channel().mode()
    }

    /// Whether this end has disconnected the channel.
    pub closed spec fn closed(self) -> bool {
        self.closed
    }

    /// On what this end woke those who wait, in order.
    pub closed spec fn woken(self) -> Seq<Notify> {
        self.wakes@
    }

    /// The uses that this end made of the shared state, in order.
    pub closed spec fn uses(self) -> Seq<Use> {
        self.uses@
    }

    /// Makes room in the channel for `additional_data` more bytes and hands out an
    /// empty buffer that has it, unless one buffer cannot hold so many.
    pub fn take_capacity(&mut self, additional_data: usize) -> (spare: Option<BytesMut>)
        ensures
            final(self).channel() == old(self).channel(),
            final(self).closed() == old(self).closed(),
            final(self).woken() == old(self).woken(),
            did(
                old(self).channel(),
                old(self).uses(),
                final(self).uses(),
                EndOp::Reserve(additional_data as nat, spare is Some),
            ),
            spare matches Some(buf) ==> buffer::content(buf) == Seq::<u8>::empty(),
    {
        let (mut array, lease) = SharedArray::open(&self.shared);
        let spare = if additional_data <= isize::MAX as usize - array.len() {
            Some(array.take_capacity(additional_data))
        } else {
            None
        };
        lease.close(array, &mut self.uses);
        spare
    }

    /// Appends as much of `data` as there is room for, without waiting, and hands
    /// back the rest. Those who wait are woken where any of it was taken. Where this
    /// end has disconnected the channel, it need not look.
    pub fn write_sync(&mut self, data: BytesMut) -> (result: Result<(), WriteError>)
        ensures
            final(self).channel() == old(self).channel(),
            final(self).closed() == old(self).closed(),
            if old(self).closed() {
                &&& written(result) == WriteReply::Disconnected(buffer::content(data))
                &&& final(self).uses() == old(self).uses()
            } else {
                did(
                    old(self).channel(),
                    old(self).uses(),
                    final(self).uses(),
                    EndOp::Write(buffer::content(data), written(result)),
                )
            },
            final(self).woken() == (if moved_bytes(buffer::content(data), written(result)) {
                old(self).woken().push(old(self).channel().changes())
            } else {
                old(self).woken()
            }),
    {
        if self.closed {
            return Err(WriteError::Disconnected(data));
        }
        let mode = self.shared.byte_mode();
        let (mut array, lease) = SharedArray::open(&self.shared);
        if !array.can_write(mode, &data) {
            lease.close(array, &mut self.uses);
            return Err(WriteError::Full(data));
        }
        let outcome = array.write(mode, data);
        lease.close(array, &mut self.uses);
        if outcome.wake {
            self.wakes.notify_waiters(self.shared.notify());
        }
        outcome.result
    }

    /// One step of a write that waits for room. Where this end has disconnected the
    /// channel it does not wait: it ends with that error.
    pub fn write_step(&mut self, data: BytesMut) -> (next: WriteProgress)
        ensures
            final(self).channel() == old(self).channel(),
            final(self).closed() == old(self).closed(),
            next matches WriteProgress::Finished(result) ==> !(written(result) is Full),
            if old(self).closed() {
                &&& step_reply(next) == WriteReply::Disconnected(buffer::content(data))
                &&& final(self).uses() == old(self).uses()
            } else {
                did(
                    old(self).channel(),
                    old(self).uses(),
                    final(self).uses(),
                    EndOp::Write(buffer::content(data), step_reply(next)),
                )
            },
            final(self).woken() == (if moved_bytes(buffer::content(data), step_reply(next)) {
                old(self).woken().push(old(self).channel().changes())
            } else {
                old(self).woken()
            }),
    {
        write_progress(self.write_sync(data))
    }

    /// Whether the channel is disconnected: some end has disconnected it, or one is
    /// missing. An end that has disconnected the channel need not look.
    pub fn is_disconnected(&mut self) -> (disconnected: bool)
        ensures
            final(self).channel() == old(self).channel(),
            final(self).closed() == old(self).closed(),
            final(self).woken() == old(self).woken(),
            if old(self).closed() {
                disconnected && final(self).uses() == old(self).uses()
            } else {
                did(
                    old(self).channel(),
                    old(self).uses(),
                    final(self).uses(),
                    EndOp::Look(disconnected),
                )
            },
    {
        if self.closed {
            return true;
        }
        let (array, lease) = SharedArray::open(&self.shared);
        let disconnected = array.is_disconnected();
        lease.close(array, &mut self.uses);
        disconnected
    }

    /// Disconnects the channel and wakes those who wait on it.
    pub fn disconnect(&mut self)
        ensures
            final(self).closed(),
            final(self).channel() == old(self).channel(),
            did(old(self).channel(), old(self).uses(), final(self).uses(), EndOp::Disconnect),
            final(self).woken() == old(self).woken().push(old(self).channel().changes()),
    {
        self.abandon();
        self.wakes.notify_waiters(self.shared.notify());
    }

    /// Disconnects the channel and wakes nobody, as dropping this end does.
    pub fn abandon(&mut self)
        ensures
            final(self).closed(),
            final(self).channel() == old(self).channel(),
            did(old(self).channel(), old(self).uses(), final(self).uses(), EndOp::Disconnect),
            final(self).woken() == old(self).woken(),
    {
        let (mut array, lease) = SharedArray::open(&self.shared);
        array.disconnect();
        lease.close(array, &mut self.uses);
        self.closed = true;
    }

    /// Where a task waits for the channel to change.
    pub fn changes(&self) -> (notify: &Notify)
        ensures
            *notify == self.channel().changes(),
    {
        self.shared.notify()
    }
}

impl Clone for ByteReader {
    fn clone(&self) -> (copy: Self)
        ensures
            copy.channel() == self.channel(),
            copy.closed() == self.closed(),
            copy.woken() == Seq::<Notify>::empty(),
            did(self.channel(), Seq::<Use>::empty(), copy.uses(), EndOp::Join),
    {
        let mut uses = UseLog::new();
        let (mut array, lease) = SharedArray::open(&self.shared);
        let shared = self.shared.clone();
        array.add_end();
        lease.close(array, &mut uses);
        ByteReader { shared, closed: self.closed, wakes: WakeLog::new(), uses }
    }
}

impl Clone for ByteWriter {
    fn clone(&self) -> (copy: Self)
        ensures
            copy.channel() == self.channel(),
            copy.closed() == self.closed(),
            copy.woken() == Seq::<Notify>::empty(),
            did(self.channel(), Seq::<Use>::empty(), copy.uses(), EndOp::Join),
    {
        let mut uses = UseLog::new();
        let (mut array, lease) = SharedArray::open(&self.shared);
        let shared = self.shared.clone();
        array.add_end();
        lease.close(array, &mut uses);
        ByteWriter { shared, closed: self.closed, wakes: WakeLog::new(), uses }
    }
}

/// One use of a channel.
pub enum ChannelOp {
    Write(Seq<u8>),
    Read,
    Disconnect,
}

/// The state after one use.
pub open spec fn after(mode: ByteMode, state: ChannelState, op: ChannelOp) -> ChannelState {
    match op {
        ChannelOp::Write(data) => after_write(mode, state, data),
        ChannelOp::Read => after_read(state),
        ChannelOp::Disconnect => after_disconnect(state),
    }
}

/// The bytes that one use takes in.
pub open spec fn taken_in(mode: ByteMode, state: ChannelState, op: ChannelOp) -> Seq<u8> {
    match op {
        ChannelOp::Write(data) => data.take(taken(mode, state, data) as int),
        _ => Seq::empty(),
    }
}

/// The bytes that one use gives out.
pub open spec fn given_out(state: ChannelState, op: ChannelOp) -> Seq<u8> {
    match op {
        ChannelOp::Read => match read_reply(state) {
            ReadReply::Bytes(data) => data,
            _ => Seq::empty(),
        },
        _ => Seq::empty(),
    }
}

/// What comes of a sequence of uses: the state that it ends in, and all the bytes
/// taken in and given out on the way.
#[verifier::ext_equal]
pub struct ChannelRun {
    pub state: ChannelState,
    pub taken_in: Seq<u8>,
    pub given_out: Seq<u8>,
}

/// The run of `ops` from `state`.
pub open spec fn run(mode: ByteMode, state: ChannelState, ops: Seq<ChannelOp>) -> ChannelRun
    decreases ops.len(),
{
    if ops.len() == 0 {
        ChannelRun { state, taken_in: Seq::empty(), given_out: Seq::empty() }
    } else {
        let before = run(mode, state, ops.drop_last());
        ChannelRun {
            state: after(mode, before.state, ops.last()),
            taken_in: before.taken_in + taken_in(mode, before.state, ops.last()),
            given_out: before.given_out + given_out(before.state, ops.last()),
        }
    }
}

/// A channel loses no byte, adds none and keeps their order: what it held at first
/// and took in since is what it gave out and holds still, however writes, reads
/// and disconnections follow on each other.
pub proof fn law_bytes_come_out_as_they_went_in(
    mode: ByteMode,
    state: ChannelState,
    ops: Seq<ChannelOp>,
)
    ensures
        ({
            let end = run(mode, state, ops);
            state.bytes + end.taken_in == end.given_out + end.state.bytes
        }),
    decreases ops.len(),
{
    let end = run(mode, state, ops);
    if ops.len() > 0 {
        law_bytes_come_out_as_they_went_in(mode, state, ops.drop_last());
        let before = run(mode, state, ops.drop_last());
        match ops.last() {
            ChannelOp::Write(data) => {
                let head = data.take(taken(mode, before.state, data) as int);
                assert(state.bytes + end.taken_in =~= (state.bytes + before.taken_in) + head);
                assert(end.given_out + end.state.bytes =~= (before.given_out + before.state.bytes)
                    + head);
            },
            _ => {
                assert(state.bytes + end.taken_in =~= state.bytes + before.taken_in);
                assert(end.given_out + end.state.bytes =~= before.given_out + before.state.bytes);
            },
        }
    }
}

/// A channel never holds more than its mode allows.
pub proof fn law_limit_is_kept(mode: ByteMode, state: ChannelState, ops: Seq<ChannelOp>)
    requires
        within(mode, state),
    ensures
        within(mode, run(mode, state, ops).state),
    decreases ops.len(),
{
    if ops.len() > 0 {
        law_limit_is_kept(mode, state, ops.drop_last());
    }
}

/// A disconnected channel stays disconnected: it takes nothing in, gives nothing
/// out and holds what it held, and every write is handed back whole.
pub proof fn law_disconnection_is_final(
    mode: ByteMode,
    state: ChannelState,
    ops: Seq<ChannelOp>,
    data: Seq<u8>,
)
    requires
        state.disconnected,
    ensures
        ({
            let end = run(mode, state, ops);
            &&& end.state == state
            &&& end.taken_in == Seq::<u8>::empty()
            &&& end.given_out == Seq::<u8>::empty()
            &&& read_reply(end.state) == ReadReply::Disconnected
            &&& write_reply(mode, end.state, data) == WriteReply::Disconnected(data)
        }),
    decreases ops.len(),
{
    if ops.len() > 0 {
        law_disconnection_is_final(mode, state, ops.drop_last(), data);
        assert(run(mode, state, ops).state.bytes =~= state.bytes);
    }
}

/// A write and the rest that it hands back make up what was to be written.
pub proof fn law_write_hands_back_the_rest(mode: ByteMode, state: ChannelState, data: Seq<u8>)
    requires
        within(mode, state),
    ensures
        ({
            let moved = taken_in(mode, state, ChannelOp::Write(data));
            match write_reply(mode, state, data) {
                WriteReply::Done => moved == data,
                WriteReply::Disconnected(rest) => rest == data && moved == Seq::<u8>::empty(),
                WriteReply::Full(rest) => rest.len() > 0 && moved + rest == data,
            }
        }),
{
    let count = taken(mode, state, data) as int;
    assert(data.take(count) + data.skip(count) =~= data);
    assert(data.take(data.len() as int) =~= data);
}

/// The pieces in which `data` crosses a channel of the given limit where the
/// reader takes each before the writer goes on.
pub open spec fn pieces(limit: nat, data: Seq<u8>) -> Seq<Seq<u8>>
    decreases data.len(),
{
    if limit == 0 || data.len() == 0 {
        Seq::empty()
    } else if data.len() <= limit {
        seq![data]
    } else {
        seq![data.take(limit as int)] + pieces(limit, data.skip(limit as int))
    }
}

/// Through a channel that is smaller than what is to be written, a writer and a
/// reader that wait for each other get everything across: each write fills the
/// channel with the next piece, which the read then gives out, and the pieces make
/// up the whole.
pub proof fn law_waiting_ends_get_everything_across(limit: usize, data: Seq<u8>)
    requires
        limit > 0,
    ensures
        pieces(limit as nat, data).flatten() == data,
        data.len() > 0 ==> ({
            let mode = ByteMode::Restricted(limit);
            let empty = new_state();
            let filled = after_write(mode, empty, data);
            let pieces = pieces(limit as nat, data);
            &&& read_reply(filled) == ReadReply::Bytes(pieces[0])
            &&& after_read(filled) == empty
            &&& match write_reply(mode, empty, data) {
                WriteReply::Done => pieces.len() == 1,
                WriteReply::Full(rest) => self::pieces(limit as nat, rest) == pieces.skip(1),
                WriteReply::Disconnected(_) => false,
            }
        }),
    decreases data.len(),
{
    broadcast use vstd::seq_lib::group_seq_properties;

    let all = pieces(limit as nat, data);
    let empty = Seq::<u8>::empty();
    assert(data.take(data.len() as int) =~= data);
    assert(empty + data =~= data);
    if data.len() == 0 {
        assert(all.flatten() =~= data);
    } else if data.len() <= limit {
        assert(all.drop_first() =~= Seq::<Seq<u8>>::empty());
        reveal_with_fuel(Seq::flatten, 2);
        assert(all.flatten() =~= data);
    } else {
        let head = data.take(limit as int);
        let rest = data.skip(limit as int);
        law_waiting_ends_get_everything_across(limit, rest);
        assert(all.drop_first() =~= pieces(limit as nat, rest));
        assert(all.skip(1) =~= pieces(limit as nat, rest));
        assert(empty + head =~= head);
        assert(all.first() =~= head);
        assert(all.flatten() =~= head + rest);
        assert(head + rest =~= data);
    }
}

/// Whether `uses` are all the uses that the ends of `channel` made of the shared
/// state so far, in the order in which they held the lock, and `ops` what the ends
/// did by them: the first found what the channel was made with, and each of the
/// others what the one before it left.
pub open spec fn is_history(channel: SharedArray, uses: Seq<Use>, ops: Seq<EndOp>) -> bool {
    &&& uses.len() == ops.len()
    &&& uses.len() > 0 ==> uses[0].found == channel.first() && uses[0].ends == channel.first_ends()
    &&& forall|i: int|
        0 < i < uses.len() ==> (#[trigger] uses[i]).found == uses[i - 1].left && uses[i].ends
            == uses[i - 1].ends_after
    &&& forall|i: int|
        0 <= i < uses.len() ==> (#[trigger] uses[i]).channel == channel && serves(
            channel.mode(),
            uses[i],
            ops[i],
        )
}

/// What is behind the lock after these uses.
pub open spec fn left_by(channel: SharedArray, uses: Seq<Use>) -> ChannelState {
    if uses.len() == 0 {
        channel.first()
    } else {
        uses.last().left
    }
}

/// The bytes that writers were told were taken, in order.
pub open spec fn bytes_written(ops: Seq<EndOp>) -> Seq<u8>
    decreases ops.len(),
{
    if ops.len() == 0 {
        Seq::empty()
    } else {
        let before = bytes_written(ops.drop_last());
        match ops.last() {
            EndOp::Write(data, WriteReply::Done) => before + data,
            EndOp::Write(data, WriteReply::Full(rest)) => before + data.take(
                data.len() - rest.len(),
            ),
            _ => before,
        }
    }
}

/// The bytes that readers got, in order.
pub open spec fn bytes_read(ops: Seq<EndOp>) -> Seq<u8>
    decreases ops.len(),
{
    if ops.len() == 0 {
        Seq::empty()
    } else {
        let before = bytes_read(ops.drop_last());
        match ops.last() {
            EndOp::Read(ReadReply::Bytes(data)) => before + data,
            _ => before,
        }
    }
}

/// The part of a history without its last use is one.
proof fn lemma_history_before(channel: SharedArray, uses: Seq<Use>, ops: Seq<EndOp>)
    requires
        is_history(channel, uses, ops),
        uses.len() > 0,
    ensures
        is_history(channel, uses.drop_last(), ops.drop_last()),
        uses.last().found == left_by(channel, uses.drop_last()),
        serves(channel.mode(), uses.last(), ops.last()),
{
    let earlier = uses.drop_last();
    let n = uses.len() - 1;
    assert forall|i: int| 0 < i < earlier.len() implies (#[trigger] earlier[i]).found == earlier[i
        - 1].left && earlier[i].ends == earlier[i - 1].ends_after by {
        assert(earlier[i] == uses[i]);
    }
    assert forall|i: int| 0 <= i < earlier.len() implies (#[trigger] earlier[i]).channel == channel
        && serves(channel.mode(), earlier[i], ops.drop_last()[i]) by {
        assert(earlier[i] == uses[i]);
    }
    assert(uses[n].channel == channel);
}

/// What is read is what was written: over all that the ends of a channel do, the
/// bytes that readers got, followed by those that still wait, are the bytes that
/// writers were told were taken, in order.
pub proof fn law_what_is_read_was_written(channel: SharedArray, uses: Seq<Use>, ops: Seq<EndOp>)
    requires
        is_history(channel, uses, ops),
        channel.first() == new_state(),
    ensures
        bytes_written(ops) == bytes_read(ops) + left_by(channel, uses).bytes,
    decreases uses.len(),
{
    if uses.len() == 0 {
        assert(bytes_read(ops) + left_by(channel, uses).bytes =~= bytes_written(ops));
    } else {
        lemma_history_before(channel, uses, ops);
        law_what_is_read_was_written(channel, uses.drop_last(), ops.drop_last());
        let used = uses.last();
        let seen = shared::seen(used);
        let read_before = bytes_read(ops.drop_last());
        match ops.last() {
            EndOp::Write(data, _) => {
                let head = data.take(taken(channel.mode(), seen, data) as int);
                assert(data.take(data.len() as int) =~= data);
                assert(data.take(0) =~= Seq::<u8>::empty());
                assert(read_before + (seen.bytes + head) =~= (read_before + seen.bytes) + head);
                assert(seen.bytes + Seq::<u8>::empty() =~= seen.bytes);
            },
            EndOp::Read(_) => {
                assert((read_before + seen.bytes) + Seq::<u8>::empty() =~= read_before
                    + seen.bytes);
            },
            _ => {},
        }
        assert(bytes_written(ops) =~= bytes_read(ops) + left_by(channel, uses).bytes);
    }
}

/// Whether one of the first `n` uses disconnected the channel or found that an end
/// was missing.
pub open spec fn hung_up(uses: Seq<Use>, ops: Seq<EndOp>, n: int) -> bool {
    exists|k: int|
        0 <= k < n && (#[trigger] ops[k] is Disconnect || uses[k].counted < uses[k].ends)
}

/// What is behind the lock is disconnected exactly after one use disconnected the
/// channel or found an end missing, and it always fits into one buffer.
proof fn lemma_left_state(channel: SharedArray, uses: Seq<Use>, ops: Seq<EndOp>)
    requires
        is_history(channel, uses, ops),
        channel.first() == new_state(),
    ensures
        left_by(channel, uses).disconnected == hung_up(uses, ops, uses.len() as int),
        left_by(channel, uses).bytes.len() <= isize::MAX,
    decreases uses.len(),
{
    if uses.len() > 0 {
        lemma_history_before(channel, uses, ops);
        let earlier = uses.drop_last();
        let n = uses.len() - 1;
        lemma_left_state(channel, earlier, ops.drop_last());
        lemma_hung_up_before(uses, ops, n);
        assert(uses.take(n) =~= earlier && ops.take(n) =~= ops.drop_last());
        let before = hung_up(uses, ops, n);
        let now = ops[n] is Disconnect || uses[n].counted < uses[n].ends;
        if hung_up(uses, ops, n + 1) && !now {
            let k = choose|k: int|
                0 <= k < n + 1 && (#[trigger] ops[k] is Disconnect || uses[k].counted
                    < uses[k].ends);
            assert(k < n);
        }
        assert(hung_up(uses, ops, n + 1) == (before || now));
    }
}

/// Whether an end is told that its channel is disconnected.
pub open spec fn told_disconnected(op: EndOp) -> bool {
    match op {
        EndOp::Write(_, reply) => reply is Disconnected,
        EndOp::Read(reply) => reply is Disconnected,
        EndOp::Look(disconnected) => disconnected,
        _ => false,
    }
}

/// Whether what an end does is to write, to read or to ask whether the channel is
/// disconnected.
pub open spec fn asks(op: EndOp) -> bool {
    op is Write || op is Read || op is Look
}

/// Disconnecting a channel at any end, or dropping one, disconnects it for all of
/// them and for good: an end that writes, reads or asks is told that the channel is
/// disconnected exactly if, at some time up to then, an end disconnected it or one
/// was missing. Writers get back all that they wrote.
pub proof fn law_all_ends_are_told_of_disconnection(
    channel: SharedArray,
    uses: Seq<Use>,
    ops: Seq<EndOp>,
    j: int,
)
    requires
        is_history(channel, uses, ops),
        channel.first() == new_state(),
        0 <= j < ops.len(),
        asks(ops[j]),
    ensures
        told_disconnected(ops[j]) == (hung_up(uses, ops, j) || uses[j].counted < uses[j].ends),
        forall|i: int| 0 <= i < j && told_disconnected(#[trigger] ops[i]) ==> told_disconnected(
            ops[j],
        ),
        told_disconnected(ops[j]) ==> (ops[j] matches EndOp::Write(data, reply) ==> reply
            == WriteReply::Disconnected(data)),
    decreases j,
{
    let earlier = uses.take(j);
    let others = ops.take(j);
    lemma_history_upto(channel, uses, ops, j);
    lemma_left_state(channel, earlier, others);
    lemma_hung_up_before(uses, ops, j);
    assert(uses[j].found == left_by(channel, earlier)) by {
        if j > 0 {
            assert(earlier.last() == uses[j - 1]);
        }
    }
    assert(uses[j].channel == channel);
    assert forall|i: int| 0 <= i < j && told_disconnected(#[trigger] ops[i]) implies
        told_disconnected(ops[j]) by {
        law_all_ends_are_told_of_disconnection(channel, uses, ops, i);
        assert(hung_up(uses, ops, j));
    }
}

/// What the first uses did does not depend on those that follow.
proof fn lemma_hung_up_before(uses: Seq<Use>, ops: Seq<EndOp>, n: int)
    requires
        uses.len() == ops.len(),
        0 <= n <= ops.len(),
    ensures
        hung_up(uses.take(n), ops.take(n), n) == hung_up(uses, ops, n),
{
    let (earlier, others) = (uses.take(n), ops.take(n));
    if hung_up(earlier, others, n) {
        let k = choose|k: int|
            0 <= k < n && (#[trigger] others[k] is Disconnect || earlier[k].counted
                < earlier[k].ends);
        assert(ops[k] == others[k] && uses[k] == earlier[k]);
    }
    if hung_up(uses, ops, n) {
        let k = choose|k: int|
            0 <= k < n && (#[trigger] ops[k] is Disconnect || uses[k].counted < uses[k].ends);
        assert(ops[k] == others[k] && uses[k] == earlier[k]);
    }
}

/// The first uses of a history are one.
proof fn lemma_history_upto(channel: SharedArray, uses: Seq<Use>, ops: Seq<EndOp>, n: int)
    requires
        is_history(channel, uses, ops),
        0 <= n <= uses.len(),
    ensures
        is_history(channel, uses.take(n), ops.take(n)),
    decreases uses.len(),
{
    if n < uses.len() {
        lemma_history_before(channel, uses, ops);
        lemma_history_upto(channel, uses.drop_last(), ops.drop_last(), n);
        assert(uses.drop_last().take(n) =~= uses.take(n));
        assert(ops.drop_last().take(n) =~= ops.take(n));
    } else {
        assert(uses.take(n) =~= uses);
        assert(ops.take(n) =~= ops);
    }
}

/// A write takes exactly as many bytes as there is room for: all of them where a
/// channel that holds `n` of at most `limit` bytes has at least as much room, and
/// otherwise the first `limit - n`, which fill the channel; the others come back. A
/// disconnected channel, or one that misses an end, takes none and hands all of them
/// back. Only where the bytes would not fit into one buffer is none of them taken
/// although the channel has room.
pub proof fn law_write_takes_what_there_is_room_for(
    mode: ByteMode,
    used: Use,
    data: Seq<u8>,
    reply: WriteReply,
)
    requires
        serves(mode, used, EndOp::Write(data, reply)),
        used.found.bytes.len() <= isize::MAX,
    ensures
        ({
            let held = used.found.bytes;
            let room = match mode {
                ByteMode::Restricted(limit) => limit - held.len(),
                ByteMode::Unrestricted => data.len() as int,
            };
            let count = if data.len() <= room {
                data.len() as int
            } else {
                room
            };
            &&& room >= 0
            &&& if used.found.disconnected || used.counted < used.ends {
                &&& reply == WriteReply::Disconnected(data)
                &&& used.left.bytes == held
                &&& used.left.disconnected
            } else if held.len() + count > isize::MAX {
                &&& reply == WriteReply::Full(data)
                &&& used.left.bytes == held
                &&& !used.left.disconnected
            } else {
                &&& used.left.bytes == held + data.take(count)
                &&& !used.left.disconnected
                &&& if count == data.len() {
                    reply == WriteReply::Done
                } else {
                    reply == WriteReply::Full(data.skip(count))
                }
            }
        }),
{
    assert(data.take(0) =~= Seq::<u8>::empty());
    assert(used.found.bytes + Seq::<u8>::empty() =~= used.found.bytes);
}

/// A writer is told that the channel is full only where its write left it full.
pub proof fn law_full_means_full(limit: usize, used: Use, data: Seq<u8>, rest: Seq<u8>)
    requires
        serves(ByteMode::Restricted(limit), used, EndOp::Write(data, WriteReply::Full(rest))),
        limit <= isize::MAX,
    ensures
        used.left.bytes.len() == limit,
        rest.len() > 0,
        used.left.bytes + rest == used.found.bytes + data,
{
    law_write_takes_what_there_is_room_for(
        ByteMode::Restricted(limit),
        used,
        data,
        WriteReply::Full(rest),
    );
    assert(used.left.bytes + rest =~= used.found.bytes + data);
}

/// A read takes all the bytes that the channel holds, in order, and leaves none. A
/// disconnected channel, or one that misses an end, gives none and keeps them.
pub proof fn law_read_takes_everything(mode: ByteMode, used: Use, reply: ReadReply)
    requires
        serves(mode, used, EndOp::Read(reply)),
    ensures
        if used.found.disconnected || used.counted < used.ends {
            &&& reply == ReadReply::Disconnected
            &&& used.left.bytes == used.found.bytes
            &&& used.left.disconnected
        } else {
            &&& used.left.bytes.len() == 0
            &&& !used.left.disconnected
            &&& if used.found.bytes.len() == 0 {
                reply == ReadReply::Empty
            } else {
                reply == ReadReply::Bytes(used.found.bytes)
            }
        },
{
}

/// Whenever fewer ends are counted than the channel was given, the channel is
/// disconnected, whatever it holds and whatever is done: an end that writes, reads
/// or asks is told so, and no byte is taken or given.
pub proof fn law_missing_end_disconnects(mode: ByteMode, used: Use, op: EndOp)
    requires
        serves(mode, used, op),
        used.counted < used.ends,
        used.found.bytes.len() <= isize::MAX,
    ensures
        used.left.disconnected,
        used.left.bytes == used.found.bytes,
        op matches EndOp::Write(data, reply) ==> reply == WriteReply::Disconnected(data),
        op matches EndOp::Read(reply) ==> reply == ReadReply::Disconnected,
        op matches EndOp::Look(disconnected) ==> disconnected,
{
    if let EndOp::Write(data, reply) = op {
        law_write_takes_what_there_is_room_for(mode, used, data, reply);
    }
}

/// A channel is disconnected after a use exactly if it was before, the use was to
/// disconnect it, or an end was missing; an end that asks is told which. Neither
/// asking, nor disconnecting, nor making room, nor cloning an end touches the bytes.
pub proof fn law_what_uses_leave(mode: ByteMode, used: Use, op: EndOp)
    requires
        serves(mode, used, op),
    ensures
        used.left.disconnected == (used.found.disconnected || op is Disconnect || used.counted
            < used.ends),
        op matches EndOp::Look(disconnected) ==> disconnected == used.left.disconnected,
        !(op is Write || op is Read) ==> used.left.bytes == used.found.bytes,
        op matches EndOp::Reserve(more, given) ==> given == (used.found.bytes.len() + more
            <= isize::MAX),
        mode matches ByteMode::Restricted(limit) ==> used.found.bytes.len() <= limit
            && used.left.bytes.len() <= limit,
{
}

/// A channel is given one more end by each clone and by nothing else.
pub proof fn law_ends_are_counted(mode: ByteMode, used: Use, op: EndOp)
    requires
        serves(mode, used, op),
        used.ends < usize::MAX,
    ensures
        op is Join ==> used.ends_after == used.ends + 1,
        !(op is Join) ==> used.ends_after == used.ends,
{
}

/// Readers are woken by exactly those writes after which the channel holds more than
/// before.
pub proof fn law_writes_that_add_bytes_wake(
    mode: ByteMode,
    used: Use,
    data: Seq<u8>,
    reply: WriteReply,
)
    requires
        serves(mode, used, EndOp::Write(data, reply)),
        used.found.bytes.len() <= isize::MAX,
    ensures
        moved_bytes(data, reply) <==> used.left.bytes.len() > used.found.bytes.len(),
{
    law_write_takes_what_there_is_room_for(mode, used, data, reply);
}

/// A use is noted once, behind those before it, as one of the channel that was used.
pub proof fn law_uses_are_noted(
    channel: SharedArray,
    before: Seq<Use>,
    after: Seq<Use>,
    op: EndOp,
)
    requires
        did(channel, before, after, op),
    ensures
        after.len() == before.len() + 1,
        forall|i: int| 0 <= i < before.len() ==> after[i] == before[i],
        after[before.len() as int].channel == channel,
        serves(channel.mode(), after[before.len() as int], op),
{
}

/// The result of a write is the answer that it got: nothing, or an error with the
/// very bytes that were not taken.
pub proof fn law_results_of_writes_are_answers(result: Result<(), WriteError>, rest: Seq<u8>)
    ensures
        written(result) == WriteReply::Done <==> result is Ok,
        written(result) == WriteReply::Full(rest) <==> (result matches Err(WriteError::Full(data))
            && buffer::content(data) == rest),
        written(result) == WriteReply::Disconnected(rest) <==> (result matches Err(
            WriteError::Disconnected(data),
        ) && buffer::content(data) == rest),
        step_reply(WriteProgress::Finished(result)) == written(result),
        result matches Err(WriteError::Full(data)) ==> step_reply(WriteProgress::Wait(data))
            == written(result),
{
}

/// The result of a read is the answer that it got: the very bytes, or an error.
pub proof fn law_results_of_reads_are_answers(
    result: Result<BytesMut, ReadError>,
    bytes: Seq<u8>,
)
    ensures
        read(result) == ReadReply::Bytes(bytes) <==> (result matches Ok(data) && buffer::content(
            data,
        ) == bytes),
        read(result) == ReadReply::Empty <==> result == Err::<BytesMut, ReadError>(
            ReadError::Empty,
        ),
        read(result) == ReadReply::Disconnected <==> result == Err::<BytesMut, ReadError>(
            ReadError::Disconnected,
        ),
        read_step_reply(ReadProgress::Finished(result)) == read(result),
        read_step_reply(ReadProgress::Wait) == ReadReply::Empty,
{
}

} // verus!
