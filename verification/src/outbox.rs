//! Where packets are handed to the thread that drives the transport.

use crate::packet::{Packet, RawPacket};
use crate::peer::PeerAddr;
use vstd::prelude::*;

verus! {

/// `flume::Sender`, the sending end of a channel between threads.
#[verifier::external_type_specification]
#[verifier::external_body]
#[verifier::reject_recursive_types(T)]
pub struct ExSender<T>(flume::Sender<T>);

/// The sending end of a channel, under a number by which it is told from others.
#[verifier::reject_recursive_types(M)]
pub struct Outlet<M> {
    number: u64,
    sender: flume::Sender<M>,
}

impl<M> Outlet<M> {
    /// The number of this outlet.
    pub closed spec fn number(self) -> u64 {
        self.number
    }

    /// The channel that this outlet leads into.
    pub closed spec fn to(self) -> flume::Sender<M> {
        self.sender
    }

    /// The outlet `sender`, under this number.
    pub fn new(number: u64, sender: flume::Sender<M>) -> (outlet: Outlet<M>)
        ensures
            outlet.number() == number,
            outlet.to() == sender,
    {
        Outlet { number, sender }
    }
}

/// One message that was handed to an outlet.
#[verifier::reject_recursive_types(M)]
pub struct Offer<M> {
    /// The number of the outlet.
    pub outlet: u64,
    /// The channel that the outlet leads into.
    pub to: flume::Sender<M>,
    /// The message.
    pub message: M,
    /// Whether the message waited for room.
    pub waits: bool,
    /// Whether it was taken.
    pub accepted: bool,
}

/// What was handed to outlets. Only a call of `flume` makes it longer.
#[verifier::reject_recursive_types(M)]
pub struct Journal<M> {
    offers: Ghost<Seq<Offer<M>>>,
}

impl<M> View for Journal<M> {
    type V = Seq<Offer<M>>;

    closed spec fn view(&self) -> Seq<Offer<M>> {
        self.offers@
    }
}

impl<M> Journal<M> {
    /// A journal of nothing.
    pub fn new() -> (journal: Journal<M>)
        ensures
            journal@ == Seq::<Offer<M>>::empty(),
    {
        Journal { offers: Ghost(Seq::empty()) }
    }

    /// `flume::Sender::try_send` hands `message` over if the channel has room and a
    /// receiver. Whether it has depends on the other threads. A message that is not
    /// handed over comes back as it was. The journal notes the call.
    #[verifier::external_body]
    pub(crate) fn try_send(&mut self, outlet: &Outlet<M>, message: M) -> (result: Result<(), M>)
        ensures
            result matches Err(back) ==> back == message,
            final(self)@ == old(self)@.push(
                (Offer {
                    outlet: outlet.number(),
                    to: outlet.to(),
                    message,
                    waits: false,
                    accepted: result is Ok,
                }),
            ),
    {
        outlet.sender.try_send(message).map_err(|error| error.into_inner())
    }

    /// `flume::Sender::send` hands `message` over if the channel has a receiver, once
    /// it has room: a full channel makes it wait for the other threads. A message that
    /// is not handed over comes back as it was. The journal notes the call.
    #[verifier::external_body]
    pub(crate) fn send(&mut self, outlet: &Outlet<M>, message: M) -> (result: Result<(), M>)
        ensures
            result matches Err(back) ==> back == message,
            final(self)@ == old(self)@.push(
                (Offer {
                    outlet: outlet.number(),
                    to: outlet.to(),
                    message,
                    waits: true,
                    accepted: result is Ok,
                }),
            ),
    {
        outlet.sender.send(message).map_err(|error| error.into_inner())
    }
}

/// How packets leave.
pub enum Route {
    /// To a transport with one peer.
    Direct(flume::Sender<RawPacket>),
    /// To a transport with many peers, each packet with the address that it is for.
    Addressed(PeerAddr, flume::Sender<(PeerAddr, RawPacket)>),
}

/// One attempt to hand a packet over.
#[verifier::ext_equal]
pub struct Attempt {
    /// The way that the packet was to take: into which channel, and with which
    /// address.
    pub route: Route,
    /// The packet.
    pub packet: Packet,
    /// Whether the attempt waited for room.
    pub waits: bool,
    /// Whether the packet was taken.
    pub accepted: bool,
}

/// A packet that was offered alone, as an attempt.
pub open spec fn direct_attempt(offer: Offer<RawPacket>) -> Attempt {
    Attempt {
        route: Route::Direct(offer.to),
        packet: offer.message@,
        waits: offer.waits,
        accepted: offer.accepted,
    }
}

/// A packet that was offered with an address, as an attempt.
pub open spec fn addressed_attempt(offer: Offer<(PeerAddr, RawPacket)>) -> Attempt {
    Attempt {
        route: Route::Addressed(offer.message.0, offer.to),
        packet: offer.message.1@,
        waits: offer.waits,
        accepted: offer.accepted,
    }
}

/// A route, and what was handed to it.
enum Line {
    Direct(Outlet<RawPacket>, Journal<RawPacket>),
    Addressed(PeerAddr, Outlet<(PeerAddr, RawPacket)>, Journal<(PeerAddr, RawPacket)>),
}

/// A route for packets, with the history of what was handed to it.
pub struct Outbox {
    line: Line,
}

impl Outbox {
    /// The attempts so far, in order.
    pub closed spec fn attempts(self) -> Seq<Attempt> {
        match self.line {
            Line::Direct(_, journal) => journal@.map_values(
                |offer: Offer<RawPacket>| direct_attempt(offer),
            ),
            Line::Addressed(_, _, journal) => journal@.map_values(
                |offer: Offer<(PeerAddr, RawPacket)>| addressed_attempt(offer),
            ),
        }
    }

    /// The way that each packet takes.
    pub closed spec fn route(self) -> Route {
        match self.line {
            Line::Direct(outlet, _) => Route::Direct(outlet.to()),
            Line::Addressed(peer, outlet, _) => Route::Addressed(peer, outlet.to()),
        }
    }

    /// An outbox for `route` to which nothing has been handed.
    pub fn new(route: Route) -> (outbox: Outbox)
        ensures
            outbox.attempts() == Seq::<Attempt>::empty(),
            outbox.route() == route,
    {
        let line = match route {
            Route::Direct(sender) => Line::Direct(Outlet::new(0, sender), Journal::new()),
            Route::Addressed(peer, sender) => Line::Addressed(
                peer,
                Outlet::new(0, sender),
                Journal::new(),
            ),
        };
        let outbox = Outbox { line };
        assert(outbox.attempts() =~= Seq::<Attempt>::empty());
        outbox
    }

    /// Hands `packet` over without waiting. A packet that is refused comes back.
    pub fn try_send(&mut self, packet: RawPacket) -> (refused: Option<RawPacket>)
        ensures
            final(self).route() == old(self).route(),
            final(self).attempts() == old(self).attempts().push(
                Attempt {
                    route: old(self).route(),
                    packet: packet@,
                    waits: false,
                    accepted: refused is None,
                },
            ),
            refused matches Some(back) ==> back@ == packet@,
    {
        let ghost packet_view = packet@;
        let refused = match &mut self.line {
            Line::Direct(outlet, journal) => match journal.try_send(outlet, packet) {
                Ok(()) => None,
                Err(back) => Some(back),
            },
            Line::Addressed(peer, outlet, journal) => match journal.try_send(
                outlet,
                (*peer, packet),
            ) {
                Ok(()) => None,
                Err(back) => Some(back.1),
            },
        };
        assert(self.attempts() =~= old(self).attempts().push(
            Attempt {
                route: old(self).route(),
                packet: packet_view,
                waits: false,
                accepted: refused is None,
            },
        ));
        refused
    }

    /// Hands `packet` over, waiting for room. A packet that is refused comes back.
    pub fn send(&mut self, packet: RawPacket) -> (refused: Option<RawPacket>)
        ensures
            final(self).route() == old(self).route(),
            final(self).attempts() == old(self).attempts().push(
                Attempt {
                    route: old(self).route(),
                    packet: packet@,
                    waits: true,
                    accepted: refused is None,
                },
            ),
            refused matches Some(back) ==> back@ == packet@,
    {
        let ghost packet_view = packet@;
        let refused = match &mut self.line {
            Line::Direct(outlet, journal) => match journal.send(outlet, packet) {
                Ok(()) => None,
                Err(back) => Some(back),
            },
            Line::Addressed(peer, outlet, journal) => match journal.send(outlet, (*peer, packet)) {
                Ok(()) => None,
                Err(back) => Some(back.1),
            },
        };
        assert(self.attempts() =~= old(self).attempts().push(
            Attempt {
                route: old(self).route(),
                packet: packet_view,
                waits: true,
                accepted: refused is None,
            },
        ));
        refused
    }
}

/// An attempt is the offer that was made: of the very packet, into the very channel,
/// with the very address, waiting or not, and taken or not.
pub proof fn law_attempts_are_offers(
    direct: Offer<RawPacket>,
    addressed: Offer<(PeerAddr, RawPacket)>,
)
    ensures
        direct_attempt(direct).route == Route::Direct(direct.to),
        direct_attempt(direct).packet == direct.message@,
        direct_attempt(direct).waits == direct.waits,
        direct_attempt(direct).accepted == direct.accepted,
        addressed_attempt(addressed).route == Route::Addressed(
            addressed.message.0,
            addressed.to,
        ),
        addressed_attempt(addressed).packet == addressed.message.1@,
        addressed_attempt(addressed).waits == addressed.waits,
        addressed_attempt(addressed).accepted == addressed.accepted,
{
}

} // verus!
