//! What a connection does with the packets that leave it and with the events that
//! the transport reports.

use crate::backpressurebuffer::{self, BackpressureBuffer};
use crate::buffer;
use crate::event::{ErrorType, Event};
use crate::outbox::{Attempt, Journal, Offer, Outbox, Outlet, Route};
use crate::packet::{self, FrameStep, Message, Packet, RawPacket, SendMode};
use bytes::BytesMut;
use vstd::prelude::*;

verus! {

/// The most packets that are kept for another attempt.
pub const MAX_BACKPRESSURE: usize = 4096;

/// Whether handing over a packet of this mode waits for room. A packet that must
/// arrive is not waited for: it is kept where it is refused.
pub open spec fn waits_for_room(mode: SendMode) -> bool {
    match mode {
        SendMode::Reliable | SendMode::Persistent => false,
        SendMode::TimeSensitive | SendMode::Unreliable => true,
    }
}

/// Packets as contracts speak of them.
pub open spec fn packets(raw: Seq<RawPacket>) -> Seq<Packet> {
    raw.map_values(|packet: RawPacket| packet@)
}

/// What is kept for another attempt after the attempts `tried`: the packets that
/// were refused without waiting, as far as the limit allows.
pub open spec fn kept_after(kept: Seq<Packet>, limit: nat, tried: Seq<Attempt>) -> Seq<Packet>
    decreases tried.len(),
{
    if tried.len() == 0 {
        kept
    } else {
        let before = kept_after(kept, limit, tried.drop_last());
        let last = tried.last();
        if last.waits || last.accepted {
            before
        } else {
            backpressurebuffer::pushed(before, limit, last.packet)
        }
    }
}

/// Whether `tried` are first attempts to hand over `packets`, one for each and in
/// order, by way of `route`, each waiting for room as its mode has it.
pub open spec fn first_attempts(
    tried: Seq<Attempt>,
    packets: Seq<Packet>,
    route: Route,
) -> bool {
    &&& tried.len() == packets.len()
    &&& forall|i: int|
        0 <= i < tried.len() ==> {
            &&& (#[trigger] tried[i]).packet == packets[i]
            &&& tried[i].route == route
            &&& tried[i].waits == waits_for_room(packets[i].send_mode)
        }
}

/// Whether `tried` are attempts to hand over the first of `packets`, in order and
/// by way of `route`, that do not wait and end with the first refusal.
pub open spec fn retries(
    tried: Seq<Attempt>,
    packets: Seq<Packet>,
    route: Route,
) -> bool {
    &&& tried.len() <= packets.len()
    &&& forall|i: int|
        0 <= i < tried.len() ==> {
            &&& (#[trigger] tried[i]).packet == packets[i]
            &&& tried[i].route == route
            &&& !tried[i].waits
            &&& (tried[i].accepted || i == tried.len() - 1)
        }
    &&& (tried.len() == packets.len() || (tried.len() > 0 && !tried.last().accepted))
}

/// What is kept after the retries `tried` of what was `kept`: a packet that is
/// refused again goes behind the others.
pub open spec fn kept_after_retries(kept: Seq<Packet>, tried: Seq<Attempt>) -> Seq<Packet> {
    if tried.len() > 0 && !tried.last().accepted {
        kept.skip(tried.len() as int).push(tried.last().packet)
    } else {
        kept.skip(tried.len() as int)
    }
}

/// Whether `tried` are attempts to hand over `packets`, one for each and in order,
/// by way of `route`, all of which wait for room.
pub open spec fn last_attempts(
    tried: Seq<Attempt>,
    packets: Seq<Packet>,
    route: Route,
) -> bool {
    &&& tried.len() == packets.len()
    &&& forall|i: int|
        0 <= i < tried.len() ==> {
            &&& (#[trigger] tried[i]).packet == packets[i]
            &&& tried[i].route == route
            &&& tried[i].waits
        }
}

/// What a connection does after an event.
#[derive(Debug)]
pub enum EventAction {
    /// It goes on.
    Continue,
    /// It ends.
    Close,
    /// It passes these bytes on to whoever receives.
    Deliver(BytesMut),
}

/// Whether a failure ends a connection for good.
pub open spec fn is_final(error: ErrorType) -> bool {
    error == ErrorType::Version || error == ErrorType::Config
}

/// Whether `action` is what a connection does after `event`.
pub open spec fn is_action(event: Event, action: EventAction) -> bool {
    match event {
        Event::Connect => action is Continue,
        Event::Disconnect => action is Close,
        Event::Receive(data) => action matches EventAction::Deliver(bytes) && buffer::content(bytes)
            == data@,
        Event::Error(error) => if is_final(error) {
            action is Close
        } else {
            action is Continue
        },
    }
}

/// A connection's outgoing packets and its reports of failures.
pub struct Session {
    outbox: Outbox,
    backlog: BackpressureBuffer<RawPacket>,
    errors: Outlet<ErrorType>,
    reports: Journal<ErrorType>,
}

impl Session {
    /// The attempts to hand packets over so far, in order.
    pub closed spec fn attempts(self) -> Seq<Attempt> {
        self.outbox.attempts()
    }

    /// The way that each packet takes.
    pub closed spec fn route(self) -> Route {
        self.outbox.route()
    }

    /// The packets kept for another attempt, oldest first.
    pub closed spec fn backlog(self) -> Seq<Packet> {
        packets(self.backlog@)
    }

    /// Where failures are reported.
    pub closed spec fn reports_to(self) -> flume::Sender<ErrorType> {
        self.errors.to()
    }

    /// The reports of failures so far, in order.
    pub closed spec fn reports(self) -> Seq<Offer<ErrorType>> {
        self.reports@
    }

    /// No more packets are kept than the limit allows.
    pub closed spec fn wf(self) -> bool {
        self.backlog.wf() && self.backlog.max_capacity() == MAX_BACKPRESSURE
    }

    /// A connection whose packets take `route` and whose failures go to `errors`.
    pub fn new(route: Route, errors: flume::Sender<ErrorType>) -> (session: Session)
        ensures
            session.wf(),
            session.attempts() == Seq::<Attempt>::empty(),
            session.backlog() == Seq::<Packet>::empty(),
            session.reports() == Seq::<Offer<ErrorType>>::empty(),
            session.route() == route,
            session.reports_to() == errors,
    {
        let session = Session {
            outbox: Outbox::new(route),
            backlog: BackpressureBuffer::new(MAX_BACKPRESSURE),
            errors: Outlet::new(0, errors),
            reports: Journal::new(),
        };
        assert(session.backlog() =~= Seq::<Packet>::empty());
        session
    }

    /// Keeps a packet that was refused, giving up the oldest one where the limit is
    /// reached.
    pub fn keep(&mut self, refused: Option<RawPacket>)
        requires
            old(self).wf(),
        ensures
            final(self).wf(),
            final(self).backlog() == (match refused {
                Some(packet) => backpressurebuffer::pushed(
                    old(self).backlog(),
                    MAX_BACKPRESSURE as nat,
                    packet@,
                ),
                None => old(self).backlog(),
            }),
            final(self).attempts() == old(self).attempts(),
            final(self).route() == old(self).route(),
            final(self).reports() == old(self).reports(),
            final(self).reports_to() == old(self).reports_to(),
    {
        if let Some(packet) = refused {
            let ghost before = self.backlog@;
            self.backlog.push(packet);
            proof {
                lemma_pushed_packets(before, MAX_BACKPRESSURE as nat, packet);
            }
        }
    }

    /// Hands over one packet, as its mode has it.
    pub fn hand_over(&mut self, packet: RawPacket)
        requires
            old(self).wf(),
        ensures
            final(self).wf(),
            ({
                let attempt = final(self).attempts().last();
                &&& final(self).attempts() == old(self).attempts().push(attempt)
                &&& first_attempts(seq![attempt], seq![packet@], old(self).route())
                &&& final(self).backlog() == kept_after(
                    old(self).backlog(),
                    MAX_BACKPRESSURE as nat,
                    seq![attempt],
                )
            }),
            final(self).route() == old(self).route(),
            final(self).reports() == old(self).reports(),
            final(self).reports_to() == old(self).reports_to(),
    {
        match packet.send_mode {
            SendMode::Reliable | SendMode::Persistent => {
                let refused = self.outbox.try_send(packet);
                self.keep(refused);
            },
            SendMode::TimeSensitive | SendMode::Unreliable => {
                let _refused = self.outbox.send(packet);
            },
        }
        proof {
            let attempt = self.attempts().last();
            assert(self.attempts() =~= old(self).attempts().push(attempt));
            assert(seq![attempt].drop_last() =~= Seq::<Attempt>::empty());
            reveal_with_fuel(kept_after, 2);
        }
    }

    /// Hands over, one after the other, the packets whose frames lead `bytes`. The
    /// first place where no frame with a known send mode stands ends it, and what
    /// is left of `bytes` is dropped.
    pub fn forward_leading(&mut self, bytes: BytesMut)
        requires
            old(self).wf(),
        ensures
            final(self).wf(),
            handed_over(
                *old(self),
                *final(self),
                packet::leading_packets(buffer::content(bytes)),
            ),
    {
        let ghost whole = buffer::content(bytes);
        let mut bytes = bytes;
        let ghost mut tried = Seq::<Attempt>::empty();
        let ghost mut done = Seq::<Packet>::empty();
        proof {
            assert(self.attempts() =~= old(self).attempts() + tried);
            assert(packet::leading_packets(whole) =~= done + packet::leading_packets(whole));
        }
        loop
            invariant_except_break
                packet::leading_packets(whole) == done + packet::leading_packets(
                    buffer::content(bytes),
                ),
            invariant
                self.wf(),
                self.route() == old(self).route(),
                self.reports() == old(self).reports(),
                self.reports_to() == old(self).reports_to(),
                self.attempts() == old(self).attempts() + tried,
                first_attempts(tried, done, old(self).route()),
                self.backlog() == kept_after(old(self).backlog(), MAX_BACKPRESSURE as nat, tried),
            ensures
                packet::leading_packets(whole) == done,
            decreases buffer::content(bytes).len(),
        {
            let ghost before = buffer::content(bytes);
            let found = packet::decode_packet(&mut bytes);
            match found {
                Some(packet) => {
                    let ghost packet_view = packet@;
                    self.hand_over(packet);
                    proof {
                        let attempt = self.attempts().last();
                        lemma_one_more(
                            old(self).backlog(),
                            old(self).route(),
                            tried,
                            attempt,
                            done,
                            packet_view,
                        );
                        assert(self.attempts() =~= old(self).attempts() + tried.push(attempt));
                        assert(done + packet::leading_packets(before) =~= done.push(packet_view)
                            + packet::leading_packets(buffer::content(bytes)));
                        tried = tried.push(attempt);
                        done = done.push(packet_view);
                    }
                },
                None => {
                    assert(packet::leading_packets(before) =~= Seq::<Packet>::empty());
                    assert(packet::leading_packets(whole) =~= done);
                    break;
                },
            }
        }
        proof {
            assert(self.attempts().skip(old(self).attempts().len() as int) =~= tried);
        }
    }

    /// Hands over, one after the other, the packets whose frames are found in
    /// `bytes`, going on two bytes further where a frame has an unknown send mode.
    /// What is left of `bytes` is dropped.
    pub fn forward_resynced(&mut self, bytes: BytesMut)
        requires
            old(self).wf(),
        ensures
            final(self).wf(),
            handed_over(
                *old(self),
                *final(self),
                packet::resynced_packets(buffer::content(bytes)),
            ),
    {
        let ghost whole = buffer::content(bytes);
        let mut bytes = bytes;
        let ghost mut tried = Seq::<Attempt>::empty();
        let ghost mut done = Seq::<Packet>::empty();
        proof {
            assert(self.attempts() =~= old(self).attempts() + tried);
            assert(packet::resynced_packets(whole) =~= done + packet::resynced_packets(whole));
        }
        while !bytes.is_empty()
            invariant
                packet::resynced_packets(whole) == done + packet::resynced_packets(
                    buffer::content(bytes),
                ),
                self.wf(),
                self.route() == old(self).route(),
                self.reports() == old(self).reports(),
                self.reports_to() == old(self).reports_to(),
                self.attempts() == old(self).attempts() + tried,
                first_attempts(tried, done, old(self).route()),
                self.backlog() == kept_after(old(self).backlog(), MAX_BACKPRESSURE as nat, tried),
            ensures
                packet::resynced_packets(buffer::content(bytes)) == Seq::<Packet>::empty(),
            decreases buffer::content(bytes).len(),
        {
            let ghost before = buffer::content(bytes);
            match packet::next_frame(&mut bytes) {
                FrameStep::Packet(packet) => {
                    let ghost packet_view = packet@;
                    self.hand_over(packet);
                    proof {
                        let attempt = self.attempts().last();
                        lemma_one_more(
                            old(self).backlog(),
                            old(self).route(),
                            tried,
                            attempt,
                            done,
                            packet_view,
                        );
                        assert(self.attempts() =~= old(self).attempts() + tried.push(attempt));
                        assert(done + packet::resynced_packets(before) =~= done.push(packet_view)
                            + packet::resynced_packets(buffer::content(bytes)));
                        tried = tried.push(attempt);
                        done = done.push(packet_view);
                    }
                },
                FrameStep::UnknownMode => {},
                FrameStep::Nothing => {
                    break;
                },
            }
        }
        proof {
            assert(packet::resynced_packets(whole) =~= done);
            assert(self.attempts().skip(old(self).attempts().len() as int) =~= tried);
        }
    }

    /// Tries again to hand over the packets that were kept, oldest first, until one
    /// is refused or none is left. The one that is refused goes behind the others.
    pub fn retry_backlog(&mut self)
        requires
            old(self).wf(),
        ensures
            final(self).wf(),
            retried(*old(self), *final(self)),
    {
        let ghost kept = self.backlog();
        let ghost mut tried = Seq::<Attempt>::empty();
        proof {
            assert(self.attempts() =~= old(self).attempts() + tried);
            assert(kept.skip(0) =~= kept);
        }
        loop
            invariant_except_break
                tried.len() <= kept.len(),
                self.backlog() == kept.skip(tried.len() as int),
                forall|i: int|
                    0 <= i < tried.len() ==> {
                        &&& (#[trigger] tried[i]).packet == kept[i]
                        &&& tried[i].route == old(self).route()
                        &&& !tried[i].waits
                        &&& tried[i].accepted
                    },
            invariant
                kept == old(self).backlog(),
                self.wf(),
                self.route() == old(self).route(),
                self.reports() == old(self).reports(),
                self.reports_to() == old(self).reports_to(),
                self.attempts() == old(self).attempts() + tried,
            ensures
                retries(tried, kept, old(self).route()),
                self.backlog() == kept_after_retries(kept, tried),
            decreases kept.len() - tried.len(),
        {
            let ghost raw = self.backlog@;
            assert(packets(raw) == kept.skip(tried.len() as int));
            assert(packets(raw).len() == raw.len());
            match self.backlog.pop() {
                Some(packet) => {
                    let ghost packet_view = packet@;
                    assert(packet_view == packets(raw)[0]);
                    assert(kept.skip(tried.len() as int)[0] == kept[tried.len() as int]);
                    assert(self.backlog() =~= kept.skip((tried.len() + 1) as int)) by {
                        assert(packets(raw.skip(1)) =~= packets(raw).skip(1));
                    }
                    let refused = self.outbox.try_send(packet);
                    proof {
                        let attempt = self.attempts().last();
                        assert(self.attempts() =~= old(self).attempts() + tried.push(attempt));
                        assert(attempt.packet == kept[tried.len() as int]);
                        tried = tried.push(attempt);
                    }
                    if refused.is_some() {
                        self.keep(refused);
                        break;
                    }
                },
                None => {
                    assert(packets(raw).len() == 0);
                    break;
                },
            }
        }
        proof {
            assert(self.attempts().skip(old(self).attempts().len() as int) =~= tried);
        }
    }

    /// Hands over what was kept, oldest first, waiting for room each time. Nothing
    /// is kept any more.
    pub fn finish(&mut self)
        requires
            old(self).wf(),
        ensures
            final(self).wf(),
            finished(*old(self), *final(self)),
    {
        let ghost kept = self.backlog();
        let ghost mut tried = Seq::<Attempt>::empty();
        proof {
            assert(self.attempts() =~= old(self).attempts() + tried);
            assert(kept.skip(0) =~= kept);
        }
        loop
            invariant
                kept == old(self).backlog(),
                self.wf(),
                self.route() == old(self).route(),
                self.reports() == old(self).reports(),
                self.reports_to() == old(self).reports_to(),
                self.attempts() == old(self).attempts() + tried,
                tried.len() <= kept.len(),
                self.backlog() == kept.skip(tried.len() as int),
                forall|i: int|
                    0 <= i < tried.len() ==> {
                        &&& (#[trigger] tried[i]).packet == kept[i]
                        &&& tried[i].route == old(self).route()
                        &&& tried[i].waits
                    },
            ensures
                tried.len() == kept.len(),
            decreases kept.len() - tried.len(),
        {
            let ghost raw = self.backlog@;
            match self.backlog.pop() {
                Some(packet) => {
                    assert(packet@ == packets(raw)[0]);
                    assert(self.backlog() =~= kept.skip((tried.len() + 1) as int)) by {
                        assert(packets(raw.skip(1)) =~= packets(raw).skip(1));
                    }
                    let _refused = self.outbox.send(packet);
                    proof {
                        let attempt = self.attempts().last();
                        assert(self.attempts() =~= old(self).attempts() + tried.push(attempt));
                        tried = tried.push(attempt);
                    }
                },
                None => {
                    assert(packets(raw).len() == 0);
                    break;
                },
            }
        }
        proof {
            assert(self.attempts().skip(old(self).attempts().len() as int) =~= tried);
            assert(self.backlog() =~= Seq::<Packet>::empty());
        }
    }

    /// Takes note of an event: a failure is reported, without waiting where there is
    /// no room for the report, and the action tells what to do next.
    pub fn handle_event(&mut self, event: Event) -> (action: EventAction)
        requires
            old(self).wf(),
        ensures
            final(self).wf(),
            is_action(event, action),
            final(self).reports_to() == old(self).reports_to(),
            match event {
                Event::Error(error) => {
                    let report = final(self).reports().last();
                    &&& final(self).reports() == old(self).reports().push(report)
                    &&& report.message == error
                    &&& report.to == old(self).reports_to()
                    &&& !report.waits
                },
                _ => final(self).reports() == old(self).reports(),
            },
            final(self).attempts() == old(self).attempts(),
            final(self).backlog() == old(self).backlog(),
            final(self).route() == old(self).route(),
    {
        match event {
            Event::Connect => EventAction::Continue,
            Event::Disconnect => EventAction::Close,
            Event::Receive(data) => EventAction::Deliver(buffer::from_slice(data.as_slice())),
            Event::Error(error) => {
                let _ = self.reports.try_send(&self.errors, error);
                assert(self.reports() =~= old(self).reports().push(self.reports().last()));
                if error == ErrorType::Version || error == ErrorType::Config {
                    EventAction::Close
                } else {
                    EventAction::Continue
                }
            },
        }
    }
}

/// Whether a connection in the state `before` that handed over `packets`, each for
/// the first time, is then in the state `after`.
pub open spec fn handed_over(before: Session, after: Session, packets: Seq<Packet>) -> bool {
    let tried = after.attempts().skip(before.attempts().len() as int);
    &&& after.attempts() == before.attempts() + tried
    &&& first_attempts(tried, packets, before.route())
    &&& after.backlog() == kept_after(before.backlog(), MAX_BACKPRESSURE as nat, tried)
    &&& after.route() == before.route()
    &&& after.reports() == before.reports()
    &&& after.reports_to() == before.reports_to()
}

/// Whether a connection in the state `before` that tried again what it had kept is
/// then in the state `after`.
pub open spec fn retried(before: Session, after: Session) -> bool {
    let tried = after.attempts().skip(before.attempts().len() as int);
    &&& after.attempts() == before.attempts() + tried
    &&& retries(tried, before.backlog(), before.route())
    &&& after.backlog() == kept_after_retries(before.backlog(), tried)
    &&& after.route() == before.route()
    &&& after.reports() == before.reports()
    &&& after.reports_to() == before.reports_to()
}

/// Whether a connection in the state `before` that handed over all that it had kept
/// is then in the state `after`.
pub open spec fn finished(before: Session, after: Session) -> bool {
    let tried = after.attempts().skip(before.attempts().len() as int);
    &&& after.attempts() == before.attempts() + tried
    &&& last_attempts(tried, before.backlog(), before.route())
    &&& after.backlog() == Seq::<Packet>::empty()
    &&& after.route() == before.route()
    &&& after.reports() == before.reports()
    &&& after.reports_to() == before.reports_to()
}

/// One more attempt, after those that were `tried`.
proof fn lemma_one_more(
    kept: Seq<Packet>,
    route: Route,
    tried: Seq<Attempt>,
    attempt: Attempt,
    done: Seq<Packet>,
    packet: Packet,
)
    requires
        first_attempts(tried, done, route),
        first_attempts(seq![attempt], seq![packet], route),
    ensures
        first_attempts(tried.push(attempt), done.push(packet), route),
        kept_after(kept, MAX_BACKPRESSURE as nat, tried.push(attempt)) == kept_after(
            kept_after(kept, MAX_BACKPRESSURE as nat, tried),
            MAX_BACKPRESSURE as nat,
            seq![attempt],
        ),
{
    let one = seq![attempt];
    assert(one[0] == attempt);
    assert(tried.push(attempt).drop_last() =~= tried);
    assert(one.drop_last() =~= Seq::<Attempt>::empty());
    reveal_with_fuel(kept_after, 2);
}

/// Keeping packets and speaking of them can be done in either order.
proof fn lemma_pushed_packets(held: Seq<RawPacket>, limit: nat, packet: RawPacket)
    ensures
        packets(backpressurebuffer::pushed(held, limit, packet)) == backpressurebuffer::pushed(
            packets(held),
            limit,
            packet@,
        ),
{
    assert(packets(backpressurebuffer::pushed(held, limit, packet))
        =~= backpressurebuffer::pushed(packets(held), limit, packet@));
}

/// The packets of those attempts that were refused without waiting, in order.
pub open spec fn refused_packets(tried: Seq<Attempt>) -> Seq<Packet>
    decreases tried.len(),
{
    if tried.len() == 0 {
        Seq::empty()
    } else {
        let before = refused_packets(tried.drop_last());
        if tried.last().waits || tried.last().accepted {
            before
        } else {
            before.push(tried.last().packet)
        }
    }
}

/// The packets that are kept are the newest of those that were kept before or
/// refused since, in order. Where the limit leaves room for all of them, none is
/// lost.
pub proof fn law_refused_packets_are_kept(kept: Seq<Packet>, limit: nat, tried: Seq<Attempt>)
    ensures
        kept_after(kept, limit, tried) == backpressurebuffer::pushed_all(
            kept,
            limit,
            refused_packets(tried),
        ),
        kept.len() + refused_packets(tried).len() <= limit ==> kept_after(kept, limit, tried)
            == kept + refused_packets(tried),
    decreases tried.len(),
{
    if tried.len() > 0 {
        law_refused_packets_are_kept(kept, limit, tried.drop_last());
        let before = refused_packets(tried.drop_last());
        if !(tried.last().waits || tried.last().accepted) {
            assert(before.push(tried.last().packet).drop_last() =~= before);
        }
    }
    if kept.len() + refused_packets(tried).len() <= limit {
        assert(kept_after(kept, limit, tried) =~= kept + refused_packets(tried));
    }
}

/// Only packets that must arrive are ever kept for another attempt.
pub proof fn law_only_packets_that_must_arrive_are_kept(
    tried: Seq<Attempt>,
    packets: Seq<Packet>,
    route: Route,
    i: int,
)
    requires
        first_attempts(tried, packets, route),
        0 <= i < refused_packets(tried).len(),
    ensures
        ({
            let mode = refused_packets(tried)[i].send_mode;
            mode == SendMode::Reliable || mode == SendMode::Persistent
        }),
    decreases tried.len(),
{
    let before = refused_packets(tried.drop_last());
    assert(tried.last().packet == packets[tried.len() - 1]);
    if i < before.len() {
        assert forall|j: int| 0 <= j < tried.drop_last().len() implies {
            &&& (#[trigger] tried.drop_last()[j]).packet == packets.drop_last()[j]
            &&& tried.drop_last()[j].route == route
            &&& tried.drop_last()[j].waits == waits_for_room(packets.drop_last()[j].send_mode)
        } by {
            assert(tried.drop_last()[j] == tried[j]);
        }
        law_only_packets_that_must_arrive_are_kept(
            tried.drop_last(),
            packets.drop_last(),
            route,
            i,
        );
    }
}

/// What is sent is what the transport is handed: the messages whose frames are read
/// together are tried one by one, in order, as they were sent.
pub proof fn law_sent_messages_are_handed_over(
    before: Session,
    after: Session,
    messages: Seq<Message>,
    i: int,
)
    requires
        forall|j: int|
            0 <= j < messages.len() ==> (#[trigger] messages[j]).payload.len()
                <= packet::MAX_PAYLOAD_SIZE,
        ({
            ||| handed_over(before, after, packet::leading_packets(packet::frames(messages)))
            ||| handed_over(before, after, packet::resynced_packets(packet::frames(messages)))
        }),
        0 <= i < messages.len(),
    ensures
        after.attempts().len() == before.attempts().len() + messages.len(),
        after.attempts()[before.attempts().len() + i].packet == packet::packet_of(messages[i]),
        after.attempts()[before.attempts().len() + i].route == before.route(),
{
    packet::law_frames_give_back_their_packets(messages);
    let tried = after.attempts().skip(before.attempts().len() as int);
    assert(after.attempts()[before.attempts().len() + i] == tried[i]);
}

/// Trying again loses no packet: what was kept is what was taken now, oldest first,
/// and what is kept still, in whatever order.
pub proof fn law_retries_lose_nothing(
    tried: Seq<Attempt>,
    kept: Seq<Packet>,
    route: Route,
)
    requires
        retries(tried, kept, route),
    ensures
        ({
            let count = if tried.len() > 0 && !tried.last().accepted {
                tried.len() - 1
            } else {
                tried.len() as int
            };
            &&& kept_after_retries(kept, tried).len() == kept.len() - count
            &&& kept.to_multiset() == kept.take(count).to_multiset().add(
                kept_after_retries(kept, tried).to_multiset(),
            )
        }),
{
    broadcast use vstd::seq_lib::group_to_multiset_ensures;

    let k = tried.len() as int;
    if tried.len() > 0 && !tried.last().accepted {
        let rest = kept.skip(k);
        assert(tried.last().packet == kept[k - 1]);
        assert(kept =~= kept.take(k - 1) + (seq![kept[k - 1]] + rest));
        vstd::seq_lib::lemma_multiset_commutative(kept.take(k - 1), seq![kept[k - 1]] + rest);
        vstd::seq_lib::lemma_multiset_commutative(seq![kept[k - 1]], rest);
        vstd::seq_lib::lemma_multiset_commutative(rest, seq![kept[k - 1]]);
        assert(rest.push(kept[k - 1]) =~= rest + seq![kept[k - 1]]);
        assert((seq![kept[k - 1]] + rest).to_multiset() =~= (rest + seq![kept[k
            - 1]]).to_multiset());
    } else {
        assert(kept =~= kept.take(k) + kept.skip(k));
        vstd::seq_lib::lemma_multiset_commutative(kept.take(k), kept.skip(k));
    }
}

/// One use of a connection.
pub enum SessionStep {
    /// The packets whose frames lead these bytes were handed over.
    Leading(Seq<u8>),
    /// The packets whose frames are found in these bytes were handed over.
    Resynced(Seq<u8>),
    /// What was kept was tried again.
    Retry,
    /// What was kept was handed over.
    Finish,
    /// An event was taken note of.
    Event,
}

/// Whether a connection in the state `before` is in the state `after` once it was
/// used so.
pub open spec fn takes(before: Session, step: SessionStep, after: Session) -> bool {
    match step {
        SessionStep::Leading(bytes) => handed_over(before, after, packet::leading_packets(bytes)),
        SessionStep::Resynced(bytes) => handed_over(
            before,
            after,
            packet::resynced_packets(bytes),
        ),
        SessionStep::Retry => retried(before, after),
        SessionStep::Finish => finished(before, after),
        SessionStep::Event => after.attempts() == before.attempts() && after.backlog()
            == before.backlog() && after.route() == before.route(),
    }
}

/// The packets that one use hands over for the first time.
pub open spec fn new_packets(step: SessionStep) -> Seq<Packet> {
    match step {
        SessionStep::Leading(bytes) => packet::leading_packets(bytes),
        SessionStep::Resynced(bytes) => packet::resynced_packets(bytes),
        _ => Seq::empty(),
    }
}

/// The packets that a sequence of uses hands over for the first time, in order.
pub open spec fn all_new_packets(steps: Seq<SessionStep>) -> Seq<Packet>
    decreases steps.len(),
{
    if steps.len() == 0 {
        Seq::empty()
    } else {
        all_new_packets(steps.drop_last()) + new_packets(steps.last())
    }
}

/// The packets of those attempts in which they were taken, in order.
pub open spec fn accepted_packets(tried: Seq<Attempt>) -> Seq<Packet>
    decreases tried.len(),
{
    if tried.len() == 0 {
        Seq::empty()
    } else {
        let before = accepted_packets(tried.drop_last());
        if tried.last().accepted {
            before.push(tried.last().packet)
        } else {
            before
        }
    }
}

/// Whether a connection is used in `steps`, one after the other, and is in the
/// `states` before, between and after them.
pub open spec fn is_run(states: Seq<Session>, steps: Seq<SessionStep>) -> bool {
    &&& states.len() == steps.len() + 1
    &&& forall|i: int|
        0 <= i < steps.len() ==> takes(states[i], #[trigger] steps[i], states[i + 1])
}

/// Whether there is room to keep what is refused of the packets that a use of a
/// connection in the state `before` hands over.
pub open spec fn has_room(before: Session, step: SessionStep, after: Session) -> bool {
    step is Leading || step is Resynced ==> before.backlog().len() + refused_packets(
        after.attempts().skip(before.attempts().len() as int),
    ).len() <= MAX_BACKPRESSURE
}

/// Whether no more packets than the limit ever have to be kept at once in a run.
pub open spec fn never_over_limit(states: Seq<Session>, steps: Seq<SessionStep>) -> bool {
    forall|i: int|
        0 <= i < steps.len() ==> has_room(states[i], #[trigger] steps[i], states[i + 1])
}

/// Whether every attempt that waited for room got it, as it does for as long as the
/// transport is there.
pub open spec fn waiting_succeeds(tried: Seq<Attempt>) -> bool {
    forall|i: int| 0 <= i < tried.len() && (#[trigger] tried[i]).waits ==> tried[i].accepted
}

/// What was taken in two runs of attempts was taken in the first and in the second.
proof fn lemma_accepted_of_both(left: Seq<Attempt>, right: Seq<Attempt>)
    ensures
        accepted_packets(left + right) == accepted_packets(left) + accepted_packets(right),
    decreases right.len(),
{
    if right.len() == 0 {
        assert(left + right =~= left);
    } else {
        lemma_accepted_of_both(left, right.drop_last());
        assert((left + right).drop_last() =~= left + right.drop_last());
    }
    assert(accepted_packets(left + right) =~= accepted_packets(left) + accepted_packets(right));
}

/// First attempts either succeed or leave a packet to be kept.
proof fn lemma_first_attempts(tried: Seq<Attempt>, packets: Seq<Packet>, route: Route)
    requires
        first_attempts(tried, packets, route),
        waiting_succeeds(tried),
    ensures
        packets.to_multiset() == accepted_packets(tried).to_multiset().add(
            refused_packets(tried).to_multiset(),
        ),
    decreases tried.len(),
{
    broadcast use vstd::seq_lib::group_to_multiset_ensures;

    if tried.len() == 0 {
        assert(packets =~= Seq::<Packet>::empty());
    } else {
        let earlier = tried.drop_last();
        let others = packets.drop_last();
        assert forall|i: int| 0 <= i < earlier.len() implies {
            &&& (#[trigger] earlier[i]).packet == others[i]
            &&& earlier[i].route == route
            &&& earlier[i].waits == waits_for_room(others[i].send_mode)
            &&& earlier[i].waits ==> earlier[i].accepted
        } by {
            assert(earlier[i] == tried[i]);
        }
        lemma_first_attempts(earlier, others, route);
        let last = tried[tried.len() - 1];
        assert(last.packet == packets.last());
        assert(packets =~= others.push(packets.last()));
    }
    assert(packets.to_multiset() =~= accepted_packets(tried).to_multiset().add(
        refused_packets(tried).to_multiset(),
    ));
}

/// Attempts that all succeed take their packets, in order.
proof fn lemma_all_accepted(tried: Seq<Attempt>, packets: Seq<Packet>)
    requires
        tried.len() == packets.len(),
        forall|i: int|
            0 <= i < tried.len() ==> (#[trigger] tried[i]).packet == packets[i]
                && tried[i].accepted,
    ensures
        accepted_packets(tried) == packets,
    decreases tried.len(),
{
    if tried.len() > 0 {
        let earlier = tried.drop_last();
        assert forall|i: int| 0 <= i < earlier.len() implies (#[trigger] earlier[i]).packet
            == packets.drop_last()[i] && earlier[i].accepted by {
            assert(earlier[i] == tried[i]);
        }
        lemma_all_accepted(earlier, packets.drop_last());
        assert(tried[tried.len() - 1].accepted);
    }
    assert(accepted_packets(tried) =~= packets);
}

/// One use loses no packet and doubles none.
proof fn lemma_step_loses_nothing(before: Session, step: SessionStep, after: Session)
    requires
        takes(before, step, after),
        has_room(before, step, after),
        waiting_succeeds(after.attempts().skip(before.attempts().len() as int)),
    ensures
        ({
            let tried = after.attempts().skip(before.attempts().len() as int);
            &&& after.attempts() == before.attempts() + tried
            &&& before.backlog().to_multiset().add(new_packets(step).to_multiset())
                == accepted_packets(tried).to_multiset().add(after.backlog().to_multiset())
        }),
{
    broadcast use vstd::seq_lib::group_to_multiset_ensures;

    let tried = after.attempts().skip(before.attempts().len() as int);
    let kept = before.backlog();
    match step {
        SessionStep::Leading(_) | SessionStep::Resynced(_) => {
            lemma_first_attempts(tried, new_packets(step), before.route());
            law_refused_packets_are_kept(kept, MAX_BACKPRESSURE as nat, tried);
            vstd::seq_lib::lemma_multiset_commutative(kept, refused_packets(tried));
        },
        SessionStep::Retry => {
            law_retries_lose_nothing(tried, kept, before.route());
            if tried.len() > 0 && !tried.last().accepted {
                let taken = tried.drop_last();
                assert forall|i: int| 0 <= i < taken.len() implies (#[trigger] taken[i]).packet
                    == kept.take(tried.len() - 1)[i] && taken[i].accepted by {
                    assert(taken[i] == tried[i]);
                }
                lemma_all_accepted(taken, kept.take(tried.len() - 1));
            } else {
                assert(tried.len() > 0 ==> tried[tried.len() - 1].accepted);
                lemma_all_accepted(tried, kept.take(tried.len() as int));
            }
        },
        SessionStep::Finish => {
            lemma_all_accepted(tried, kept);
        },
        SessionStep::Event => {
            assert(tried =~= Seq::<Attempt>::empty());
            assert(after.attempts() =~= before.attempts() + tried);
        },
    }
    assert(kept.to_multiset().add(new_packets(step).to_multiset()) =~= accepted_packets(
        tried,
    ).to_multiset().add(after.backlog().to_multiset()));
}

/// A connection loses no packet and doubles none: over any run of uses in which no
/// more packets than the limit have to be kept at once, for as long as the
/// transport is there, what was kept at first and all that was handed over since
/// is what was taken and what is kept still. Right after a finish nothing is kept,
/// so by then every packet has been taken once.
pub proof fn law_run_loses_nothing(states: Seq<Session>, steps: Seq<SessionStep>)
    requires
        is_run(states, steps),
        never_over_limit(states, steps),
        waiting_succeeds(states.last().attempts().skip(states[0].attempts().len() as int)),
    ensures
        ({
            let tried = states.last().attempts().skip(states[0].attempts().len() as int);
            &&& states.last().attempts() == states[0].attempts() + tried
            &&& states[0].backlog().to_multiset().add(all_new_packets(steps).to_multiset())
                == accepted_packets(tried).to_multiset().add(
                states.last().backlog().to_multiset(),
            )
            &&& steps.len() > 0 && steps.last() is Finish ==> states[0].backlog().to_multiset().add(
                all_new_packets(steps).to_multiset(),
            ) == accepted_packets(tried).to_multiset()
        }),
    decreases steps.len(),
{
    let first = states[0].attempts();
    let tried = states.last().attempts().skip(first.len() as int);
    if steps.len() == 0 {
        assert(states.last() == states[0]);
        assert(tried =~= Seq::<Attempt>::empty());
        assert(states.last().attempts() =~= first + tried);
        lemma_nothing_added(states[0].backlog());
    } else {
        let n = steps.len() - 1;
        let before = states[n];
        let after = states[n + 1];
        assert(takes(states[n], steps[n], states[n + 1]));
        let now = after.attempts().skip(before.attempts().len() as int);
        assert(after.attempts() =~= before.attempts() + now);
        lemma_attempts_only_grow(states, steps, n);
        let earlier = before.attempts().skip(first.len() as int);
        assert(tried =~= earlier + now);
        assert forall|i: int| 0 <= i < now.len() && (#[trigger] now[i]).waits implies
            now[i].accepted by {
            assert(now[i] == tried[earlier.len() + i]);
        }
        assert forall|i: int| 0 <= i < earlier.len() && (#[trigger] earlier[i]).waits implies
            earlier[i].accepted by {
            assert(earlier[i] == tried[i]);
        }
        let states_before = states.drop_last();
        let steps_before = steps.drop_last();
        assert(is_run(states_before, steps_before)) by {
            assert forall|i: int| 0 <= i < steps_before.len() implies takes(
                states_before[i],
                #[trigger] steps_before[i],
                states_before[i + 1],
            ) by {
                assert(steps_before[i] == steps[i]);
            }
        }
        assert(never_over_limit(states_before, steps_before)) by {
            assert forall|i: int| 0 <= i < steps_before.len() implies has_room(
                states_before[i],
                #[trigger] steps_before[i],
                states_before[i + 1],
            ) by {
                assert(steps_before[i] == steps[i]);
            }
        }
        assert(states_before.last() == before);
        law_run_loses_nothing(states_before, steps_before);
        assert(has_room(states[n], steps[n], states[n + 1]));
        lemma_step_loses_nothing(before, steps[n], after);
        lemma_accepted_of_both(earlier, now);
        lemma_join(
            states[0].backlog(),
            all_new_packets(steps_before),
            accepted_packets(earlier),
            before.backlog(),
            new_packets(steps[n]),
            accepted_packets(now),
            after.backlog(),
        );
        if steps.last() is Finish {
            lemma_nothing_added(accepted_packets(tried));
        }
    }
}

/// Two balances, of which the second begins with what the first ends with, make up
/// one.
proof fn lemma_join(
    first: Seq<Packet>,
    given: Seq<Packet>,
    taken: Seq<Packet>,
    kept: Seq<Packet>,
    given_now: Seq<Packet>,
    taken_now: Seq<Packet>,
    kept_now: Seq<Packet>,
)
    requires
        first.to_multiset().add(given.to_multiset()) == taken.to_multiset().add(
            kept.to_multiset(),
        ),
        kept.to_multiset().add(given_now.to_multiset()) == taken_now.to_multiset().add(
            kept_now.to_multiset(),
        ),
    ensures
        first.to_multiset().add((given + given_now).to_multiset()) == (taken
            + taken_now).to_multiset().add(kept_now.to_multiset()),
{
    vstd::seq_lib::lemma_multiset_commutative(given, given_now);
    vstd::seq_lib::lemma_multiset_commutative(taken, taken_now);
    let left = first.to_multiset().add((given + given_now).to_multiset());
    let middle = taken.to_multiset().add(kept.to_multiset()).add(given_now.to_multiset());
    let right = (taken + taken_now).to_multiset().add(kept_now.to_multiset());
    assert(left =~= first.to_multiset().add(given.to_multiset()).add(given_now.to_multiset()));
    assert(middle =~= taken.to_multiset().add(
        kept.to_multiset().add(given_now.to_multiset()),
    ));
    assert(right =~= taken.to_multiset().add(
        taken_now.to_multiset().add(kept_now.to_multiset()),
    ));
}

/// No packets more are no packets more.
proof fn lemma_nothing_added(packets: Seq<Packet>)
    ensures
        packets.to_multiset().add(Seq::<Packet>::empty().to_multiset()) == packets.to_multiset(),
        Seq::<Packet>::empty().to_multiset().add(packets.to_multiset()) == packets.to_multiset(),
{
    broadcast use vstd::seq_lib::group_to_multiset_ensures;

    assert(packets.to_multiset().add(Seq::<Packet>::empty().to_multiset())
        =~= packets.to_multiset());
    assert(Seq::<Packet>::empty().to_multiset().add(packets.to_multiset())
        =~= packets.to_multiset());
}

/// The attempts of a run only grow in number, and those at first stay.
proof fn lemma_attempts_only_grow(states: Seq<Session>, steps: Seq<SessionStep>, n: int)
    requires
        is_run(states, steps),
        0 <= n < states.len(),
    ensures
        states[n].attempts() == states[0].attempts() + states[n].attempts().skip(
            states[0].attempts().len() as int,
        ),
        states[n].attempts().len() >= states[0].attempts().len(),
    decreases n,
{
    let first = states[0].attempts();
    if n > 0 {
        lemma_attempts_only_grow(states, steps, n - 1);
        assert(takes(states[n - 1], steps[n - 1], states[n - 1 + 1]));
        let before = states[n - 1].attempts();
        let now = states[n].attempts().skip(before.len() as int);
        assert(states[n].attempts() =~= before + now);
        assert(states[n].attempts().skip(first.len() as int) =~= before.skip(first.len() as int)
            + now);
    }
    assert(states[n].attempts() =~= first + states[n].attempts().skip(first.len() as int));
}

/// All of several runs of messages, one run behind the other.
pub open spec fn all_messages(sent: Seq<Seq<Message>>) -> Seq<Message>
    decreases sent.len(),
{
    if sent.len() == 0 {
        Seq::empty()
    } else {
        all_messages(sent.drop_last()) + sent.last()
    }
}

/// Whether a use hands over these messages, in whole frames that are not too long,
/// or none where it hands over nothing new.
pub open spec fn carries(step: SessionStep, messages: Seq<Message>) -> bool {
    &&& forall|j: int|
        0 <= j < messages.len() ==> (#[trigger] messages[j]).payload.len()
            <= packet::MAX_PAYLOAD_SIZE
    &&& match step {
        SessionStep::Leading(bytes) => bytes == packet::frames(messages),
        SessionStep::Resynced(bytes) => bytes == packet::frames(messages),
        _ => messages.len() == 0,
    }
}

/// Every message that is sent leaves once: over a run of a connection that keeps
/// nothing at first and whose uses carry `sent`, under the conditions of
/// [`law_run_loses_nothing`], the packets that were taken and those that are kept
/// still are those of the messages, neither more nor fewer; once it has finished,
/// all of them were taken.
pub proof fn law_every_message_leaves_once(
    states: Seq<Session>,
    steps: Seq<SessionStep>,
    sent: Seq<Seq<Message>>,
)
    requires
        is_run(states, steps),
        never_over_limit(states, steps),
        waiting_succeeds(states.last().attempts().skip(states[0].attempts().len() as int)),
        states[0].backlog().len() == 0,
        sent.len() == steps.len(),
        forall|i: int| 0 <= i < steps.len() ==> carries(#[trigger] steps[i], sent[i]),
    ensures
        ({
            let tried = states.last().attempts().skip(states[0].attempts().len() as int);
            let packets = all_messages(sent).map_values(|m: Message| packet::packet_of(m));
            &&& packets.to_multiset() == accepted_packets(tried).to_multiset().add(
                states.last().backlog().to_multiset(),
            )
            &&& steps.len() > 0 && steps.last() is Finish ==> packets.to_multiset()
                == accepted_packets(tried).to_multiset()
        }),
{
    law_run_loses_nothing(states, steps);
    lemma_new_packets_are_messages(steps, sent);
    assert(states[0].backlog() =~= Seq::<Packet>::empty());
    lemma_nothing_added(all_new_packets(steps));
}

/// Uses that carry messages hand over their packets.
proof fn lemma_new_packets_are_messages(steps: Seq<SessionStep>, sent: Seq<Seq<Message>>)
    requires
        sent.len() == steps.len(),
        forall|i: int| 0 <= i < steps.len() ==> carries(#[trigger] steps[i], sent[i]),
    ensures
        all_new_packets(steps) == all_messages(sent).map_values(
            |m: Message| packet::packet_of(m),
        ),
    decreases steps.len(),
{
    let packets = all_messages(sent).map_values(|m: Message| packet::packet_of(m));
    if steps.len() > 0 {
        let n = steps.len() - 1;
        assert(carries(steps[n], sent[n]));
        assert forall|i: int| 0 <= i < n implies carries(
            #[trigger] steps.drop_last()[i],
            sent.drop_last()[i],
        ) by {
            assert(steps.drop_last()[i] == steps[i]);
        }
        lemma_new_packets_are_messages(steps.drop_last(), sent.drop_last());
        packet::law_frames_give_back_their_packets(sent[n]);
        let earlier = all_messages(sent.drop_last()).map_values(
            |m: Message| packet::packet_of(m),
        );
        let last = sent[n].map_values(|m: Message| packet::packet_of(m));
        assert(new_packets(steps[n]) =~= last);
        assert(packets =~= earlier + last);
    }
    assert(all_new_packets(steps) =~= packets);
}

/// The bytes of the packets that were received, one packet behind the other.
pub open spec fn bytes_received(events: Seq<Event>) -> Seq<u8>
    decreases events.len(),
{
    if events.len() == 0 {
        Seq::empty()
    } else {
        let before = bytes_received(events.drop_last());
        match events.last() {
            Event::Receive(data) => before + data@,
            _ => before,
        }
    }
}

/// The bytes that were passed on to whoever receives, in order.
pub open spec fn bytes_delivered(actions: Seq<EventAction>) -> Seq<u8>
    decreases actions.len(),
{
    if actions.len() == 0 {
        Seq::empty()
    } else {
        let before = bytes_delivered(actions.drop_last());
        match actions.last() {
            EventAction::Deliver(bytes) => before + buffer::content(bytes),
            _ => before,
        }
    }
}

/// What is received is delivered: each packet byte for byte and by itself, nothing
/// else, and over any sequence of events all that was received, in order.
pub proof fn law_received_packets_are_delivered(events: Seq<Event>, actions: Seq<EventAction>)
    requires
        events.len() == actions.len(),
        forall|i: int| 0 <= i < events.len() ==> is_action(#[trigger] events[i], actions[i]),
    ensures
        bytes_delivered(actions) == bytes_received(events),
        forall|i: int|
            0 <= i < events.len() ==> (#[trigger] events[i] matches Event::Receive(data) ==> (
            actions[i] matches EventAction::Deliver(bytes) && buffer::content(bytes).len()
                == data@.len() && buffer::content(bytes) == data@)),
        forall|i: int|
            0 <= i < events.len() && !(#[trigger] events[i] is Receive) ==> !(
            actions[i] is Deliver),
    decreases events.len(),
{
    if events.len() > 0 {
        let n = events.len() - 1;
        assert forall|i: int| 0 <= i < n implies is_action(
            #[trigger] events.drop_last()[i],
            actions.drop_last()[i],
        ) by {
            assert(events.drop_last()[i] == events[i]);
        }
        law_received_packets_are_delivered(events.drop_last(), actions.drop_last());
        assert(is_action(events[n], actions[n]));
    }
}

/// A connection ends exactly when it is closed by the other side or fails for good,
/// because the two sides differ in version or configuration.
pub proof fn law_what_ends_a_connection(event: Event, action: EventAction)
    requires
        is_action(event, action),
    ensures
        action is Close <==> (event is Disconnect || event == Event::Error(ErrorType::Version)
            || event == Event::Error(ErrorType::Config)),
        action is Deliver <==> event is Receive,
{
}

/// Packets that are handed over are tried once each, in order, after all that was
/// tried before; those that need not arrive wait for room, the others do not. Of
/// these, the ones that were refused are kept behind what was kept before, up to
/// 4096 packets, past which the oldest are given up.
pub proof fn law_handing_over(before: Session, after: Session, packets: Seq<Packet>)
    requires
        handed_over(before, after, packets),
        before.backlog().len() <= 4096,
    ensures
        ({
            let first = before.attempts().len();
            let tried = after.attempts().subrange(first as int, after.attempts().len() as int);
            let all = before.backlog() + refused_packets(tried);
            &&& after.attempts().len() == first + packets.len()
            &&& forall|i: int| 0 <= i < first ==> after.attempts()[i] == before.attempts()[i]
            &&& forall|i: int|
                0 <= i < packets.len() ==> {
                    &&& (#[trigger] tried[i]).packet == packets[i]
                    &&& tried[i].route == before.route()
                    &&& tried[i].waits == (packets[i].send_mode == SendMode::TimeSensitive
                        || packets[i].send_mode == SendMode::Unreliable)
                }
            &&& after.backlog() == (if all.len() <= 4096 {
                all
            } else {
                all.skip(all.len() - 4096)
            })
            &&& after.route() == before.route()
            &&& after.reports() == before.reports()
            &&& after.reports_to() == before.reports_to()
        }),
{
    let first = before.attempts().len();
    let tried = after.attempts().skip(first as int);
    assert(tried =~= after.attempts().subrange(first as int, after.attempts().len() as int));
    law_refused_packets_are_kept(before.backlog(), MAX_BACKPRESSURE as nat, tried);
    backpressurebuffer::law_pushes_keep_the_newest(
        before.backlog(),
        MAX_BACKPRESSURE as nat,
        refused_packets(tried),
    );
    assert forall|i: int| 0 <= i < first implies after.attempts()[i] == before.attempts()[i] by {
        assert((before.attempts() + tried)[i] == before.attempts()[i]);
    }
}

/// Trying again goes on until a packet is refused or none is left: where every new
/// attempt was accepted, all that was kept was tried and nothing is kept any more;
/// otherwise only the last attempt was refused, and its packet is kept behind those
/// that were not tried. The packets are tried in the order in which they were kept,
/// and without waiting.
pub proof fn law_retry_goes_on_until_refused(before: Session, after: Session)
    requires
        retried(before, after),
    ensures
        ({
            let first = before.attempts().len();
            let count = after.attempts().len() - first;
            let kept = before.backlog();
            &&& after.route() == before.route()
            &&& after.reports() == before.reports()
            &&& after.reports_to() == before.reports_to()
            &&& 0 <= count <= kept.len()
            &&& forall|i: int| 0 <= i < first ==> after.attempts()[i] == before.attempts()[i]
            &&& forall|i: int|
                0 <= i < count ==> {
                    let attempt = #[trigger] after.attempts()[first + i];
                    &&& attempt.packet == kept[i]
                    &&& attempt.route == before.route()
                    &&& !attempt.waits
                    &&& i < count - 1 ==> attempt.accepted
                }
            &&& if forall|i: int|
                0 <= i < count ==> (#[trigger] after.attempts()[first + i]).accepted {
                &&& count == kept.len()
                &&& after.backlog().len() == 0
            } else {
                &&& count > 0
                &&& !after.attempts().last().accepted
                &&& after.backlog() == kept.subrange(count, kept.len() as int).push(
                    kept[count - 1],
                )
            }
        }),
{
    let first = before.attempts().len();
    let tried = after.attempts().skip(first as int);
    let kept = before.backlog();
    let count = tried.len() as int;
    assert(after.attempts().len() == first + tried.len());
    assert forall|i: int| 0 <= i < first implies after.attempts()[i] == before.attempts()[i] by {
        assert((before.attempts() + tried)[i] == before.attempts()[i]);
    }
    assert forall|i: int| 0 <= i < count implies #[trigger] after.attempts()[first + i]
        == tried[i] by {}
    assert(kept.skip(count) =~= kept.subrange(count, kept.len() as int));
    if forall|i: int| 0 <= i < count ==> (#[trigger] after.attempts()[first + i]).accepted {
        if count > 0 {
            assert(after.attempts()[first + (count - 1)].accepted);
        }
    } else {
        let i = choose|i: int|
            0 <= i < count && !(#[trigger] after.attempts()[first + i]).accepted;
        assert(tried[i] == after.attempts()[first + i]);
        assert(after.attempts().last() == tried.last());
    }
}

/// A connection that ends tries every packet that it kept, once each, oldest first,
/// waiting for room, and keeps nothing.
pub proof fn law_finish_tries_everything(before: Session, after: Session)
    requires
        finished(before, after),
    ensures
        ({
            let first = before.attempts().len();
            &&& after.route() == before.route()
            &&& after.reports() == before.reports()
            &&& after.reports_to() == before.reports_to()
            &&& after.backlog().len() == 0
            &&& after.attempts().len() == first + before.backlog().len()
            &&& forall|i: int| 0 <= i < first ==> after.attempts()[i] == before.attempts()[i]
            &&& forall|i: int|
                0 <= i < before.backlog().len() ==> {
                    let attempt = #[trigger] after.attempts()[first + i];
                    &&& attempt.packet == before.backlog()[i]
                    &&& attempt.route == before.route()
                    &&& attempt.waits
                }
        }),
{
    let first = before.attempts().len();
    let tried = after.attempts().skip(first as int);
    assert forall|i: int| 0 <= i < first implies after.attempts()[i] == before.attempts()[i] by {
        assert((before.attempts() + tried)[i] == before.attempts()[i]);
    }
    assert forall|i: int| 0 <= i < tried.len() implies #[trigger] after.attempts()[first + i]
        == tried[i] by {}
}

/// Contracts speak of packets one for one and in order.
pub proof fn law_packets_are_spoken_of_one_for_one(raw: Seq<RawPacket>, i: int)
    requires
        0 <= i < raw.len(),
    ensures
        packets(raw).len() == raw.len(),
        packets(raw)[i].channel_id == raw[i].channel_id,
        packets(raw)[i].send_mode == raw[i].send_mode,
        packets(raw)[i].payload == (*raw[i].payload)@,
{
}

} // verus!
