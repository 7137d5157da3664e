//! The state that the ends of a byte channel share behind a lock, and the record that
//! each end keeps of what it found there and what it left.
//!
//! An end gets at the state only by [`SharedArray::open`] and gives it back only by
//! [`Lease::close`], which notes the use. That the lock hands out what was last given
//! back is what a lock is for; the contracts say what each end made of what it got.

use crate::bytechannel::{self, ByteArray, ByteMode, ChannelState};
use std::sync::Arc;
use tokio::sync::Notify;
use vstd::prelude::*;
use vstd::rwlock::{RwLock, RwLockPredicate, WriteHandle};

verus! {

/// `tokio::sync::Notify`, on which tasks wait for a channel to change.
#[verifier::external_type_specification]
#[verifier::external_body]
pub struct ExNotify(Notify);

/// `Notify::new` makes one that nobody waits on. Nothing is claimed of it.
pub assume_specification[ Notify::new ]() -> (notify: Notify);

/// On which of these tasks were woken, in order. Only a call of `tokio` makes it
/// longer.
pub struct WakeLog {
    calls: Ghost<Seq<Notify>>,
}

impl View for WakeLog {
    type V = Seq<Notify>;

    closed spec fn view(&self) -> Seq<Notify> {
        self.calls@
    }
}

impl WakeLog {
    /// A log of nothing.
    pub(crate) fn new() -> (log: WakeLog)
        ensures
            log@ == Seq::<Notify>::empty(),
    {
        WakeLog { calls: Ghost(Seq::empty()) }
    }

    /// `Notify::notify_waiters` wakes the tasks that wait. Which tasks these are, the
    /// runtime knows; nothing is claimed of them. The log notes the call.
    #[verifier::external_body]
    pub(crate) fn notify_waiters(&mut self, notify: &Notify)
        ensures
            final(self)@ == old(self)@.push(*notify),
    {
        notify.notify_waiters()
    }
}

/// What the lock of a channel of this mode guards: a state within the mode.
pub struct Guarded {
    pub mode: ByteMode,
}

impl RwLockPredicate<ByteArray> for Guarded {
    open spec fn inv(self, array: ByteArray) -> bool {
        bytechannel::within(self.mode, array@)
    }
}

/// A state shared by the ends of a channel.
pub struct SharedArray {
    array: RwLock<ByteArray, Guarded>,
    notify: Notify,
    byte_mode: ByteMode,
    first: Ghost<ByteArray>,
}

/// One use of a shared state by an end of its channel.
pub struct Use {
    /// The state that was used.
    pub channel: SharedArray,
    /// What was found behind the lock.
    pub found: ChannelState,
    /// How many ends the channel had been given by then.
    pub ends: nat,
    /// How many of them were counted as left.
    pub counted: nat,
    /// What was left behind the lock.
    pub left: ChannelState,
    /// How many ends the channel had been given after it.
    pub ends_after: nat,
}

/// Whether an end was missing when a state was used.
pub open spec fn end_missing(used: Use) -> bool {
    used.counted < used.ends
}

/// The state that a use goes by: a channel that misses an end is disconnected.
pub open spec fn seen(used: Use) -> ChannelState {
    if end_missing(used) {
        bytechannel::after_disconnect(used.found)
    } else {
        used.found
    }
}

/// The uses that an end made of the state, in order. Only giving the state back
/// makes it longer.
pub struct UseLog {
    uses: Ghost<Seq<Use>>,
}

impl View for UseLog {
    type V = Seq<Use>;

    closed spec fn view(&self) -> Seq<Use> {
        self.uses@
    }
}

impl UseLog {
    /// A log of nothing.
    pub(crate) fn new() -> (log: UseLog)
        ensures
            log@ == Seq::<Use>::empty(),
    {
        UseLog { uses: Ghost(Seq::empty()) }
    }
}

/// `Arc::strong_count` counts the ends of a channel that are left: each of them
/// holds the shared state, and nothing else does. Other threads may drop ends at any
/// time, so nothing is claimed of the count.
#[verifier::external_body]
fn ends_left(shared: &Arc<SharedArray>) -> (left: usize) {
    Arc::strong_count(shared)
}

/// The right to a shared state that was taken from behind its lock.
pub struct Lease<'a> {
    handle: WriteHandle<'a, ByteArray, Guarded>,
    channel: Ghost<SharedArray>,
    found: Ghost<ByteArray>,
    counted: Ghost<nat>,
}

impl<'a> Lease<'a> {
    /// The shared state that was taken.
    pub closed spec fn channel(self) -> SharedArray {
        self.channel@
    }

    /// The use that is noted where `array` is given back.
    pub closed spec fn noted(self, array: ByteArray) -> Use {
        Use {
            channel: self.channel@,
            found: self.found@@,
            ends: self.found@.ends(),
            counted: self.counted@,
            left: array@,
            ends_after: array.ends(),
        }
    }

    #[verifier::type_invariant]
    closed spec fn wf(self) -> bool {
        self.handle.rwlock().pred() == (Guarded { mode: self.channel@.mode() })
    }

    /// Gives the state back as `array`, and notes the use.
    pub(crate) fn close(self, array: ByteArray, log: &mut UseLog)
        requires
            bytechannel::within(self.channel().mode(), array@),
        ensures
            final(log)@ == old(log)@.push(self.noted(array)),
    {
        proof {
            use_type_invariant(&self);
        }
        let ghost noted = self.noted(array);
        self.handle.release_write(array);
        log.uses = Ghost(log.uses@.push(noted));
    }
}

impl SharedArray {
    /// The mode of the channel.
    pub closed spec fn mode(self) -> ByteMode {
        self.byte_mode
    }

    /// Where tasks wait for the channel to change.
    pub closed spec fn changes(self) -> Notify {
        self.notify
    }

    /// The state that was put behind the lock when the channel was made.
    pub closed spec fn first(self) -> ChannelState {
        self.first@@
    }

    /// How many ends the channel was given when it was made.
    pub closed spec fn first_ends(self) -> nat {
        self.first@.ends()
    }

    #[verifier::type_invariant]
    closed spec fn wf(self) -> bool {
        self.array.pred() == (Guarded { mode: self.byte_mode })
    }

    /// A shared state of the given mode that starts as `array`.
    pub(crate) fn new(byte_mode: ByteMode, array: ByteArray) -> (shared: SharedArray)
        requires
            bytechannel::within(byte_mode, array@),
        ensures
            shared.mode() == byte_mode,
            shared.first() == array@,
            shared.first_ends() == array.ends(),
    {
        let ghost first = array;
        SharedArray {
            array: RwLock::new(array, Ghost(Guarded { mode: byte_mode })),
            notify: Notify::new(),
            byte_mode,
            first: Ghost(first),
        }
    }

    /// The mode of the channel.
    pub(crate) fn byte_mode(&self) -> (mode: ByteMode)
        ensures
            mode == self.mode(),
    {
        self.byte_mode
    }

    /// Where a task waits for the channel to change.
    pub(crate) fn notify(&self) -> (notify: &Notify)
        ensures
            *notify == self.changes(),
    {
        &self.notify
    }

    /// Takes the state from behind the lock, counts the ends that are left while
    /// nobody else has the state, and disconnects the channel if one is missing.
    pub(crate) fn open<'a>(shared: &'a Arc<SharedArray>) -> (opened: (ByteArray, Lease<'a>))
        ensures
            ({
                let (array, lease) = opened;
                let used = lease.noted(array);
                &&& lease.channel() == **shared
                &&& used.channel == **shared
                &&& bytechannel::within(shared.mode(), used.found)
                &&& array@ == seen(used)
                &&& array.ends() == used.ends
            }),
            forall|array: ByteArray| #[trigger]
                opened.1.noted(array) == (Use {
                    left: array@,
                    ends_after: array.ends(),
                    ..opened.1.noted(opened.0)
                }),
    {
        let inner: &'a SharedArray = &**shared;
        proof {
            use_type_invariant(inner);
        }
        let (mut array, handle) = inner.array.acquire_write();
        let counted = ends_left(shared);
        let lease = Lease {
            handle,
            channel: Ghost(*inner),
            found: Ghost(array),
            counted: Ghost(counted as nat),
        };
        array.settle(counted);
        (array, lease)
    }
}

} // verus!
