//! What a server does with the events of its many connections.

use crate::event::{ErrorType, Event};
use crate::outbox::{Journal, Offer, Outlet};
use crate::peer::{self, PeerAddr, PeerKey};
use dashmap::DashMap;
use vstd::prelude::*;

verus! {

/// The most packets that wait for a server to send them.
pub const MAX_PACKET_SIZE: usize = 16 * 1024;

/// Why a connection failed, as its server sees it.
#[derive(Clone, Copy, Debug, PartialEq, Eq, Structural)]
pub enum ServerErrorType {
    /// The other end did not answer in time.
    Timeout,
    /// The two ends speak different versions of the protocol.
    Version,
    /// The two ends are configured differently.
    Config,
    /// The server takes no more clients.
    ServerFull,
}

/// Why a caller that waits for a client got none.
#[derive(Clone, Copy, Debug, PartialEq, Eq, Structural)]
pub enum UdpServerError {
    /// The connection failed.
    UflowError(ServerErrorType),
    /// The server is gone.
    ChannelClosed,
}

/// What happened to one of a server's connections.
#[derive(Debug, PartialEq, Eq)]
pub enum ServerEvent {
    /// It is established.
    Connect(PeerAddr),
    /// It is closed.
    Disconnect(PeerAddr),
    /// A packet with these bytes has come.
    Receive(PeerAddr, Vec<u8>),
    /// It failed.
    Error(PeerAddr, ServerErrorType),
}

/// What a server is still to do after an event.
#[derive(Clone, Copy, Debug, PartialEq, Eq, Structural)]
pub enum ServerAction {
    /// Nothing.
    Nothing,
    /// Open a stream for the client and accept it.
    Accept(PeerAddr),
}

/// A failure as the client sees it.
pub open spec fn client_error_of(error: ServerErrorType) -> ErrorType {
    match error {
        ServerErrorType::Timeout => ErrorType::Timeout,
        ServerErrorType::Version => ErrorType::Version,
        ServerErrorType::Config => ErrorType::Config,
        ServerErrorType::ServerFull => ErrorType::ServerFull,
    }
}

/// What is announced to those who wait for clients: the address of a client, with
/// its stream or with why there is none.
pub type Announcement<S> = (PeerAddr, Result<S, ServerErrorType>);

/// The stream of a client: its number, and where its events go.
pub type StreamHandle = (u64, flume::Sender<Event>);

/// `dashmap::DashMap`, a table that threads may share.
#[verifier::external_type_specification]
#[verifier::external_body]
#[verifier::reject_recursive_types(K)]
#[verifier::reject_recursive_types(V)]
#[verifier::reject_recursive_types(S)]
pub struct ExDashMap<K, V, S>(DashMap<K, V, S>);

/// The number of the stream that a table holds under each key.
pub uninterp spec fn entries(table: DashMap<PeerKey, StreamHandle>) -> Map<PeerKey, u64>;

/// Where the events of the stream go that a table holds under each key. A sender is
/// known by its channel, so a clone of it is the same.
pub uninterp spec fn routes(table: DashMap<PeerKey, StreamHandle>) -> Map<
    PeerKey,
    flume::Sender<Event>,
>;

/// `DashMap::new` makes an empty table.
#[verifier::external_body]
fn new_table() -> (table: DashMap<PeerKey, StreamHandle>)
    ensures
        entries(table) == (Map::<PeerKey, u64>::empty()),
        routes(table) == (Map::<PeerKey, flume::Sender<Event>>::empty()),
{
    DashMap::new()
}

/// `DashMap::insert` puts a stream under a key and gives back the one that was
/// there. The table is borrowed alone, so no other thread has a part in it and no
/// reference into it is held.
#[verifier::external_body]
fn insert_stream(
    table: &mut DashMap<PeerKey, StreamHandle>,
    key: PeerKey,
    stream: StreamHandle,
) -> (previous: Option<StreamHandle>)
    ensures
        entries(*final(table)) == entries(*old(table)).insert(key, stream.0),
        routes(*final(table)) == routes(*old(table)).insert(key, stream.1),
        match previous {
            Some(found) => {
                &&& entries(*old(table)).contains_pair(key, found.0)
                &&& routes(*old(table)).contains_pair(key, found.1)
            },
            None => {
                &&& !entries(*old(table)).contains_key(key)
                &&& !routes(*old(table)).contains_key(key)
            },
        },
{
    table.insert(key, stream)
}

/// `DashMap::remove` takes out the stream under a key. The table is borrowed alone,
/// so no other thread has a part in it and no reference into it is held.
#[verifier::external_body]
fn remove_stream(table: &mut DashMap<PeerKey, StreamHandle>, key: PeerKey) -> (removed: Option<
    StreamHandle,
>)
    ensures
        entries(*final(table)) == entries(*old(table)).remove(key),
        routes(*final(table)) == routes(*old(table)).remove(key),
        match removed {
            Some(found) => {
                &&& entries(*old(table)).contains_pair(key, found.0)
                &&& routes(*old(table)).contains_pair(key, found.1)
            },
            None => {
                &&& !entries(*old(table)).contains_key(key)
                &&& !routes(*old(table)).contains_key(key)
            },
        },
{
    table.remove(&key).map(|entry| entry.1)
}

/// `DashMap::get` finds the stream under a key. The handle that comes out is a
/// clone, so that no reference into the table is held; the clone of a
/// `flume::Sender` leads into the same channel.
#[verifier::external_body]
fn find_stream(table: &DashMap<PeerKey, StreamHandle>, key: PeerKey) -> (found: Option<
    StreamHandle,
>)
    ensures
        match found {
            Some(stream) => {
                &&& entries(*table).contains_pair(key, stream.0)
                &&& routes(*table).contains_pair(key, stream.1)
            },
            None => {
                &&& !entries(*table).contains_key(key)
                &&& !routes(*table).contains_key(key)
            },
        },
{
    table.get(&key).map(|entry| entry.value().clone())
}

/// An event that was passed on to a stream.
pub struct Forwarded {
    /// The number of the stream.
    pub stream: u64,
    /// The channel that the event was put into.
    pub to: flume::Sender<Event>,
    /// The event.
    pub event: Event,
    /// Whether it waited for room.
    pub waits: bool,
}

/// An announcement that was made.
#[verifier::reject_recursive_types(S)]
pub struct Announced<S> {
    /// The channel that it was put into.
    pub to: flume::Sender<Announcement<S>>,
    /// What was announced.
    pub announcement: Announcement<S>,
    /// Whether it waited for room.
    pub waits: bool,
}

/// The state of a router, as contracts speak of it.
#[verifier::ext_equal]
#[verifier::reject_recursive_types(S)]
pub struct RouterState<S> {
    /// The number of the stream of each client.
    pub clients: Map<PeerKey, u64>,
    /// Where the events of each client go.
    pub routes: Map<PeerKey, flume::Sender<Event>>,
    /// How many streams were ever entered; the next one gets this number.
    pub opened: nat,
    /// The events passed on so far, in order.
    pub forwarded: Seq<Forwarded>,
    /// Where clients and failures are announced.
    pub announces_to: flume::Sender<Announcement<S>>,
    /// The announcements made so far, in order.
    pub announced: Seq<Announced<S>>,
}

/// The number of the stream of the client at `addr`.
pub open spec fn stream_of<S>(state: RouterState<S>, addr: PeerAddr) -> Option<u64> {
    if state.clients.contains_key(peer::key_of(addr)) {
        Some(state.clients[peer::key_of(addr)])
    } else {
        None
    }
}

/// Where the events of the client at `addr` go.
pub open spec fn route_of<S>(state: RouterState<S>, addr: PeerAddr) -> Option<
    flume::Sender<Event>,
> {
    if state.routes.contains_key(peer::key_of(addr)) {
        Some(state.routes[peer::key_of(addr)])
    } else {
        None
    }
}

/// Every stream has somewhere for its events to go, and a number of its own, below
/// that of the next.
pub open spec fn numbered<S>(state: RouterState<S>) -> bool {
    &&& state.clients.dom() == state.routes.dom()
    &&& forall|key: PeerKey| #[trigger]
        state.clients.contains_key(key) ==> state.clients[key] < state.opened
    &&& forall|left: PeerKey, right: PeerKey|
        #![trigger state.clients.contains_key(left), state.clients.contains_key(right)]
        state.clients.contains_key(left) && state.clients.contains_key(right)
            && state.clients[left] == state.clients[right] ==> left == right
}

/// The state after `event` was passed on to the stream of `addr`, if it has one.
pub open spec fn after_forward<S>(
    state: RouterState<S>,
    addr: PeerAddr,
    event: Event,
) -> RouterState<S> {
    match stream_of(state, addr) {
        Some(stream) => RouterState {
            forwarded: state.forwarded.push(
                Forwarded { stream, to: state.routes[peer::key_of(addr)], event, waits: true },
            ),
            ..state
        },
        None => state,
    }
}

/// The state after the client at `addr` was forgotten.
pub open spec fn after_removal<S>(state: RouterState<S>, addr: PeerAddr) -> RouterState<S> {
    RouterState {
        clients: state.clients.remove(peer::key_of(addr)),
        routes: state.routes.remove(peer::key_of(addr)),
        ..state
    }
}

/// The state after a new stream, whose events go to `events`, was entered for the
/// client at `addr`.
pub open spec fn after_enter<S>(
    state: RouterState<S>,
    addr: PeerAddr,
    events: flume::Sender<Event>,
) -> RouterState<S> {
    RouterState {
        clients: state.clients.insert(peer::key_of(addr), state.opened as u64),
        routes: state.routes.insert(peer::key_of(addr), events),
        opened: state.opened + 1,
        ..state
    }
}

/// The state after an announcement was made.
pub open spec fn after_announcement<S>(
    state: RouterState<S>,
    announcement: Announcement<S>,
) -> RouterState<S> {
    RouterState {
        announced: state.announced.push(
            Announced { to: state.announces_to, announcement, waits: true },
        ),
        ..state
    }
}

/// The state after a client was accepted: its stream is entered and announced, and
/// forgotten where nobody took it.
pub open spec fn after_accept<S>(
    state: RouterState<S>,
    addr: PeerAddr,
    events: flume::Sender<Event>,
    stream: S,
    taken: bool,
) -> RouterState<S> {
    let announced = after_announcement(after_enter(state, addr, events), (addr, Ok(stream)));
    if taken {
        announced
    } else {
        after_removal(announced, addr)
    }
}

/// The state after an event.
pub open spec fn after_event<S>(state: RouterState<S>, event: ServerEvent) -> RouterState<S> {
    match event {
        ServerEvent::Connect(_) => state,
        ServerEvent::Disconnect(addr) => after_removal(
            after_forward(state, addr, Event::Disconnect),
            addr,
        ),
        ServerEvent::Receive(addr, data) => after_forward(state, addr, Event::Receive(data)),
        ServerEvent::Error(addr, error) => after_announcement(
            after_forward(state, addr, Event::Error(client_error_of(error))),
            (addr, Err(error)),
        ),
    }
}

/// What is still to do after an event.
pub open spec fn action_after(event: ServerEvent) -> ServerAction {
    match event {
        ServerEvent::Connect(addr) => ServerAction::Accept(addr),
        _ => ServerAction::Nothing,
    }
}

/// The failure that a client is told of where its server saw `error`.
pub fn client_error(error: ServerErrorType) -> (seen: ErrorType)
    ensures
        seen == client_error_of(error),
{
    match error {
        ServerErrorType::Timeout => ErrorType::Timeout,
        ServerErrorType::Version => ErrorType::Version,
        ServerErrorType::Config => ErrorType::Config,
        ServerErrorType::ServerFull => ErrorType::ServerFull,
    }
}

/// Passes each event on to the stream of the client that it is about, and announces
/// clients and failures to those who wait for clients.
#[verifier::reject_recursive_types(S)]
pub struct Router<S> {
    clients: DashMap<PeerKey, StreamHandle>,
    opened: u64,
    journal: Journal<Event>,
    new_clients: Outlet<Announcement<S>>,
    announcements: Journal<Announcement<S>>,
}

impl<S> View for Router<S> {
    type V = RouterState<S>;

    closed spec fn view(&self) -> RouterState<S> {
        RouterState {
            clients: entries(self.clients),
            routes: routes(self.clients),
            opened: self.opened as nat,
            forwarded: self.journal@.map_values(
                |offer: Offer<Event>|
                    Forwarded {
                        stream: offer.outlet,
                        to: offer.to,
                        event: offer.message,
                        waits: offer.waits,
                    },
            ),
            announces_to: self.new_clients.to(),
            announced: self.announcements@.map_values(
                |offer: Offer<Announcement<S>>|
                    Announced { to: offer.to, announcement: offer.message, waits: offer.waits },
            ),
        }
    }
}

impl<S> Router<S> {
    /// Whether the last announcement was taken.
    pub closed spec fn last_taken(self) -> bool {
        self.announcements@.last().accepted
    }

    /// A router without clients, which announces to `new_clients`.
    pub fn new(new_clients: flume::Sender<Announcement<S>>) -> (router: Router<S>)
        ensures
            router@ == (RouterState {
                clients: Map::empty(),
                routes: Map::empty(),
                opened: 0,
                forwarded: Seq::empty(),
                announces_to: new_clients,
                announced: Seq::empty(),
            }),
    {
        let router = Router {
            clients: new_table(),
            opened: 0,
            journal: Journal::new(),
            new_clients: Outlet::new(0, new_clients),
            announcements: Journal::new(),
        };
        assert(router@.forwarded =~= Seq::<Forwarded>::empty());
        assert(router@.announced =~= Seq::<Announced<S>>::empty());
        router
    }

    /// How many streams were ever entered.
    pub fn opened(&self) -> (opened: u64)
        ensures
            opened == self@.opened,
    {
        self.opened
    }

    /// Makes an announcement and tells whether it was taken.
    fn announce(&mut self, addr: PeerAddr, outcome: Result<S, ServerErrorType>) -> (taken: bool)
        ensures
            final(self)@ == after_announcement(old(self)@, (addr, outcome)),
            taken == final(self).last_taken(),
    {
        let result = self.announcements.send(&self.new_clients, (addr, outcome));
        assert(self@.announced =~= after_announcement(old(self)@, (addr, outcome)).announced);
        result.is_ok()
    }

    /// Accepts a client: enters `stream`, whose events go to `events` from now on,
    /// under the next number, and announces it. A stream that nobody takes is
    /// forgotten. Whether it was taken is returned.
    pub fn accept(&mut self, addr: PeerAddr, events: flume::Sender<Event>, stream: S) -> (taken:
        bool)
        requires
            old(self)@.opened < u64::MAX,
        ensures
            final(self)@ == after_accept(old(self)@, addr, events, stream, taken),
            taken == final(self).last_taken(),
    {
        let number = self.opened;
        let _ = insert_stream(&mut self.clients, addr.key(), (number, events));
        self.opened = number + 1;
        assert(self@ =~= after_enter(old(self)@, addr, events));
        let taken = self.announce(addr, Ok(stream));
        if !taken {
            let _ = remove_stream(&mut self.clients, addr.key());
        }
        taken
    }

    /// Passes `event` on to the stream of the client at `addr`, if it has one, and
    /// tells whether it has.
    fn forward(&mut self, addr: PeerAddr, event: Event) -> (known: bool)
        ensures
            known == stream_of(old(self)@, addr) is Some,
            known == route_of(old(self)@, addr) is Some,
            final(self)@ == after_forward(old(self)@, addr, event),
    {
        match find_stream(&self.clients, addr.key()) {
            Some(stream) => {
                let outlet = Outlet::new(stream.0, stream.1);
                let _ = self.journal.send(&outlet, event);
                assert(self@.forwarded =~= after_forward(old(self)@, addr, event).forwarded);
                true
            },
            None => false,
        }
    }

    /// Passes an event on to the stream that it is about, forgets a client that is
    /// gone and announces a failure. The action tells what is still to do.
    pub fn on_event(&mut self, event: ServerEvent) -> (action: ServerAction)
        ensures
            action == action_after(event),
            final(self)@ == after_event(old(self)@, event),
    {
        match event {
            ServerEvent::Connect(addr) => ServerAction::Accept(addr),
            ServerEvent::Disconnect(addr) => {
                if self.forward(addr, Event::Disconnect) {
                    let _ = remove_stream(&mut self.clients, addr.key());
                }
                assert(self@.clients =~= old(self)@.clients.remove(peer::key_of(addr)));
                assert(self@.routes =~= old(self)@.routes.remove(peer::key_of(addr)));
                ServerAction::Nothing
            },
            ServerEvent::Receive(addr, data) => {
                self.forward(addr, Event::Receive(data));
                ServerAction::Nothing
            },
            ServerEvent::Error(addr, error) => {
                self.forward(addr, Event::Error(client_error(error)));
                self.announce(addr, Err(error));
                ServerAction::Nothing
            },
        }
    }
}

/// What a caller that waits for a client is told, given what was announced, or
/// nothing where the server is gone.
pub fn next_client<S>(announced: Option<(PeerAddr, Result<S, ServerErrorType>)>) -> (client: (
    PeerAddr,
    Result<S, UdpServerError>,
))
    ensures
        client == (match announced {
            Some((addr, Ok(stream))) => (addr, Ok(stream)),
            Some((addr, Err(error))) => (addr, Err(UdpServerError::UflowError(error))),
            None => (PeerAddr::V4 { ip4: 0, port: 0 }, Err(UdpServerError::ChannelClosed)),
        }),
{
    match announced {
        Some((addr, Ok(stream))) => (addr, Ok(stream)),
        Some((addr, Err(error))) => (addr, Err(UdpServerError::UflowError(error))),
        None => (PeerAddr::unspecified(), Err(UdpServerError::ChannelClosed)),
    }
}

/// The client that a caller gets who does not wait, given what has been announced
/// so far, if anything. A failure is no client.
pub fn ready_client<S>(announced: Option<(PeerAddr, Result<S, ServerErrorType>)>) -> (client:
    Option<S>)
    ensures
        client == (match announced {
            Some((_, Ok(stream))) => Some(stream),
            _ => None,
        }),
{
    match announced {
        Some((_, Ok(stream))) => Some(stream),
        _ => None,
    }
}

/// One use of a router.
pub enum RouterOp<S> {
    /// An event came.
    Event(ServerEvent),
    /// A client was accepted, with where its events go and its stream, which was
    /// taken or not.
    Accept(PeerAddr, flume::Sender<Event>, S, bool),
}

/// The address that a use is about.
pub open spec fn subject<S>(op: RouterOp<S>) -> PeerAddr {
    match op {
        RouterOp::Event(ServerEvent::Connect(addr)) => addr,
        RouterOp::Event(ServerEvent::Disconnect(addr)) => addr,
        RouterOp::Event(ServerEvent::Receive(addr, _)) => addr,
        RouterOp::Event(ServerEvent::Error(addr, _)) => addr,
        RouterOp::Accept(addr, _, _, _) => addr,
    }
}

/// What the client is told that an event is about, if anything.
pub open spec fn told(event: ServerEvent) -> Option<Event> {
    match event {
        ServerEvent::Connect(_) => None,
        ServerEvent::Disconnect(_) => Some(Event::Disconnect),
        ServerEvent::Receive(_, data) => Some(Event::Receive(data)),
        ServerEvent::Error(_, error) => Some(Event::Error(client_error_of(error))),
    }
}

/// The state after one use.
pub open spec fn after<S>(state: RouterState<S>, op: RouterOp<S>) -> RouterState<S> {
    match op {
        RouterOp::Event(event) => after_event(state, event),
        RouterOp::Accept(addr, events, stream, taken) => after_accept(
            state,
            addr,
            events,
            stream,
            taken,
        ),
    }
}

/// The state after a sequence of uses.
pub open spec fn after_all<S>(state: RouterState<S>, ops: Seq<RouterOp<S>>) -> RouterState<S>
    decreases ops.len(),
{
    if ops.len() == 0 {
        state
    } else {
        after(after_all(state, ops.drop_last()), ops.last())
    }
}

/// However events, new streams and lost ones follow on each other, every stream
/// keeps a number of its own, as long as there are numbers left.
pub proof fn law_streams_have_numbers_of_their_own<S>(state: RouterState<S>, ops: Seq<RouterOp<S>>)
    requires
        numbered(state),
        after_all(state, ops).opened <= u64::MAX,
    ensures
        numbered(after_all(state, ops)),
        after_all(state, ops).opened >= state.opened,
    decreases ops.len(),
{
    if ops.len() > 0 {
        law_streams_have_numbers_of_their_own(state, ops.drop_last());
        let end = after_all(state, ops);
        assert(end.clients.dom() =~= end.routes.dom());
    }
}

/// What one client does changes nothing for another: neither its stream nor where
/// its events go.
pub proof fn law_clients_do_not_affect_each_other<S>(
    state: RouterState<S>,
    op: RouterOp<S>,
    other: PeerAddr,
)
    requires
        other != subject(op),
    ensures
        stream_of(after(state, op), other) == stream_of(state, other),
        route_of(after(state, op), other) == route_of(state, other),
{
    peer::law_keys_tell_addresses_apart(other, subject(op));
}

/// Whether the events of any two clients go to different channels.
pub open spec fn apart<S>(state: RouterState<S>) -> bool {
    forall|left: PeerKey, right: PeerKey|
        #![trigger state.routes[left], state.routes[right]]
        state.routes.contains_key(left) && state.routes.contains_key(right) && left != right
            ==> state.routes[left] != state.routes[right]
}

/// The channels of clients stay apart, where each new stream gets one that no
/// client has.
pub proof fn law_channels_stay_apart<S>(state: RouterState<S>, op: RouterOp<S>)
    requires
        apart(state),
        op matches RouterOp::Accept(_, events, _, _) ==> !state.routes.contains_value(events),
    ensures
        apart(after(state, op)),
{
    let next = after(state, op);
    assert forall|left: PeerKey, right: PeerKey|
        #![trigger next.routes[left], next.routes[right]]
        next.routes.contains_key(left) && next.routes.contains_key(right) && left
            != right implies next.routes[left] != next.routes[right] by {
        let key = peer::key_of(subject(op));
        assert(left != key ==> state.routes.contains_key(left) && next.routes[left]
            == state.routes[left]);
        assert(right != key ==> state.routes.contains_key(right) && next.routes[right]
            == state.routes[right]);
    }
}

/// An event that is passed on is put, once, into the channel of the client that it
/// is about and into that of no other; one about an unknown client goes nowhere.
pub proof fn law_events_reach_their_own_stream<S>(
    state: RouterState<S>,
    event: ServerEvent,
    other: PeerAddr,
)
    requires
        numbered(state),
        !(event is Connect),
        other != subject(RouterOp::<S>::Event(event)),
    ensures
        ({
            let addr = subject(RouterOp::<S>::Event(event));
            let sent = after_event(state, event).forwarded;
            match route_of(state, addr) {
                Some(to) => {
                    &&& sent == state.forwarded.push(sent.last())
                    &&& sent.last().to == to
                    &&& stream_of(state, addr) == Some(sent.last().stream)
                    &&& told(event) == Some(sent.last().event)
                    &&& stream_of(state, other) != Some(sent.last().stream)
                    &&& apart(state) ==> route_of(state, other) != Some(to)
                },
                None => sent == state.forwarded,
            }
        }),
{
    let addr = subject(RouterOp::<S>::Event(event));
    peer::law_keys_tell_addresses_apart(other, addr);
    assert(state.clients.dom().contains(peer::key_of(addr)) == state.routes.dom().contains(
        peer::key_of(addr),
    ));
}

/// A client whose stream was taken is found, and its events go where its stream was
/// accepted with, until it disconnects; it is then unknown, as is one whose stream
/// was not taken.
pub proof fn law_clients_come_and_go<S>(
    state: RouterState<S>,
    addr: PeerAddr,
    events: flume::Sender<Event>,
    stream: S,
)
    requires
        state.opened < u64::MAX,
    ensures
        ({
            let taken = after_accept(state, addr, events, stream, true);
            let refused = after_accept(state, addr, events, stream, false);
            let gone = after_event(state, ServerEvent::Disconnect(addr));
            &&& stream_of(taken, addr) == Some(state.opened as u64)
            &&& route_of(taken, addr) == Some(events)
            &&& stream_of(refused, addr) is None
            &&& route_of(refused, addr) is None
            &&& stream_of(gone, addr) is None
            &&& route_of(gone, addr) is None
        }),
{
}

/// Whether a use ends or replaces the stream of the client at `addr`.
pub open spec fn ends_stream<S>(op: RouterOp<S>, addr: PeerAddr) -> bool {
    match op {
        RouterOp::Event(ServerEvent::Disconnect(left)) => left == addr,
        RouterOp::Event(_) => false,
        RouterOp::Accept(accepted, _, _, _) => accepted == addr,
    }
}

/// What the client at `addr` is told in a sequence of uses, in order.
pub open spec fn all_told<S>(ops: Seq<RouterOp<S>>, addr: PeerAddr) -> Seq<Event>
    decreases ops.len(),
{
    if ops.len() == 0 {
        Seq::empty()
    } else {
        let before = all_told(ops.drop_last(), addr);
        match ops.last() {
            RouterOp::Event(event) => if subject(ops.last()) == addr && told(event) is Some {
                before.push(told(event)->Some_0)
            } else {
                before
            },
            _ => before,
        }
    }
}

/// The events that were passed on to the stream of this number, in order.
pub open spec fn passed_to(forwarded: Seq<Forwarded>, stream: u64) -> Seq<Event>
    decreases forwarded.len(),
{
    if forwarded.len() == 0 {
        Seq::empty()
    } else {
        let before = passed_to(forwarded.drop_last(), stream);
        if forwarded.last().stream == stream {
            before.push(forwarded.last().event)
        } else {
            before
        }
    }
}

/// Whether all that was passed on to the stream of this number went into `to`.
pub open spec fn all_into(
    forwarded: Seq<Forwarded>,
    stream: u64,
    to: flume::Sender<Event>,
) -> bool {
    forall|i: int|
        0 <= i < forwarded.len() && (#[trigger] forwarded[i]).stream == stream ==> forwarded[i].to
            == to
}

/// For as long as a client has its stream, that stream is passed what happens to
/// the client and nothing else, unchanged and in order, all of it into the channel
/// that the stream was entered with, whatever happens to other clients meanwhile.
pub proof fn law_stream_gets_its_clients_events<S>(
    state: RouterState<S>,
    addr: PeerAddr,
    ops: Seq<RouterOp<S>>,
)
    requires
        numbered(state),
        stream_of(state, addr) is Some,
        after_all(state, ops).opened <= u64::MAX,
        forall|i: int| 0 <= i < ops.len() ==> !ends_stream(#[trigger] ops[i], addr),
    ensures
        ({
            let stream = stream_of(state, addr)->Some_0;
            let to = route_of(state, addr)->Some_0;
            let end = after_all(state, ops);
            &&& stream_of(end, addr) == Some(stream)
            &&& route_of(end, addr) == Some(to)
            &&& passed_to(end.forwarded, stream) == passed_to(state.forwarded, stream) + all_told(
                ops,
                addr,
            )
            &&& all_into(state.forwarded, stream, to) ==> all_into(end.forwarded, stream, to)
        }),
    decreases ops.len(),
{
    let key = peer::key_of(addr);
    assert(state.clients.dom().contains(key) == state.routes.dom().contains(key));
    let stream = stream_of(state, addr)->Some_0;
    let to = route_of(state, addr)->Some_0;
    if ops.len() == 0 {
        assert(passed_to(state.forwarded, stream) + all_told(ops, addr) =~= passed_to(
            state.forwarded,
            stream,
        ));
    } else {
        let earlier = ops.drop_last();
        let before = after_all(state, earlier);
        let end = after_all(state, ops);
        assert forall|i: int| 0 <= i < earlier.len() implies !ends_stream(
            #[trigger] earlier[i],
            addr,
        ) by {
            assert(earlier[i] == ops[i]);
        }
        assert(!ends_stream(ops[ops.len() - 1], addr));
        law_stream_gets_its_clients_events(state, addr, earlier);
        law_streams_have_numbers_of_their_own(state, earlier);
        let other = subject(ops.last());
        peer::law_keys_tell_addresses_apart(other, addr);
        assert(before.clients.contains_key(key));
        if before.clients.contains_key(peer::key_of(other)) {
            assert(other != addr ==> before.clients[peer::key_of(other)] != stream);
        }
        if end.forwarded.len() > before.forwarded.len() {
            assert(end.forwarded.drop_last() =~= before.forwarded);
        }
        assert(passed_to(end.forwarded, stream) =~= passed_to(state.forwarded, stream) + all_told(
            ops,
            addr,
        ));
    }
}

/// Nothing more is passed on to a stream once it is no client's: after its client
/// has disconnected, its stream was not taken or another one was entered in its
/// place.
pub proof fn law_forgotten_stream_gets_nothing<S>(
    state: RouterState<S>,
    stream: u64,
    ops: Seq<RouterOp<S>>,
)
    requires
        stream < state.opened,
        !state.clients.contains_value(stream),
        after_all(state, ops).opened <= u64::MAX,
    ensures
        !after_all(state, ops).clients.contains_value(stream),
        passed_to(after_all(state, ops).forwarded, stream) == passed_to(state.forwarded, stream),
        after_all(state, ops).opened >= state.opened,
    decreases ops.len(),
{
    if ops.len() > 0 {
        let earlier = ops.drop_last();
        law_forgotten_stream_gets_nothing(state, stream, earlier);
        let before = after_all(state, earlier);
        let end = after_all(state, ops);
        let other = peer::key_of(subject(ops.last()));
        if before.clients.contains_key(other) {
            assert(before.clients[other] != stream);
        }
        if end.forwarded.len() > before.forwarded.len() {
            assert(end.forwarded.drop_last() =~= before.forwarded);
        }
        assert forall|key: PeerKey| end.clients.contains_key(key) implies end.clients[key]
            != stream by {
            if before.clients.contains_key(key) {
                assert(before.clients[key] != stream);
            }
        }
    }
}

/// A client that disconnects is told so once, last of all that its stream is ever
/// passed.
pub proof fn law_disconnection_is_told_last<S>(
    state: RouterState<S>,
    addr: PeerAddr,
    ops: Seq<RouterOp<S>>,
)
    requires
        numbered(state),
        stream_of(state, addr) is Some,
        state.opened <= u64::MAX,
        after_all(after_event(state, ServerEvent::Disconnect(addr)), ops).opened <= u64::MAX,
    ensures
        ({
            let stream = stream_of(state, addr)->Some_0;
            let gone = after_event(state, ServerEvent::Disconnect(addr));
            passed_to(after_all(gone, ops).forwarded, stream) == passed_to(
                state.forwarded,
                stream,
            ).push(Event::Disconnect)
        }),
{
    let stream = stream_of(state, addr)->Some_0;
    let gone = after_event(state, ServerEvent::Disconnect(addr));
    assert(gone.forwarded.drop_last() =~= state.forwarded);
    assert forall|key: PeerKey| gone.clients.contains_key(key) implies gone.clients[key]
        != stream by {
        assert(state.clients.contains_key(key));
        assert(state.clients.contains_key(peer::key_of(addr)));
    }
    law_forgotten_stream_gets_nothing(gone, stream, ops);
}

/// What is announced in a sequence of uses, in order: each client that is accepted,
/// with its stream, and each failure.
pub open spec fn all_announced<S>(ops: Seq<RouterOp<S>>) -> Seq<Announcement<S>>
    decreases ops.len(),
{
    if ops.len() == 0 {
        Seq::empty()
    } else {
        let before = all_announced(ops.drop_last());
        match ops.last() {
            RouterOp::Accept(addr, _, stream, _) => before.push((addr, Ok(stream))),
            RouterOp::Event(ServerEvent::Error(addr, error)) => before.push((addr, Err(error))),
            _ => before,
        }
    }
}

/// Every client that is accepted and every failure is announced once, in order, into
/// the channel that the router was made with, and nothing else is.
pub proof fn law_announcements_are_made_once<S>(state: RouterState<S>, ops: Seq<RouterOp<S>>)
    ensures
        ({
            let end = after_all(state, ops);
            let made = end.announced.skip(state.announced.len() as int);
            &&& end.announces_to == state.announces_to
            &&& end.announced == state.announced + made
            &&& made.map_values(|a: Announced<S>| a.announcement) == all_announced(ops)
            &&& forall|i: int|
                0 <= i < made.len() ==> (#[trigger] made[i]).to == state.announces_to
                    && made[i].waits
        }),
    decreases ops.len(),
{
    let end = after_all(state, ops);
    let made = end.announced.skip(state.announced.len() as int);
    if ops.len() == 0 {
        assert(made =~= Seq::<Announced<S>>::empty());
    } else {
        law_announcements_are_made_once(state, ops.drop_last());
        let before = after_all(state, ops.drop_last());
        let earlier = before.announced.skip(state.announced.len() as int);
        if end.announced.len() > before.announced.len() {
            assert(made =~= earlier.push(end.announced.last()));
        } else {
            assert(end.announced == before.announced);
        }
    }
    assert(end.announced =~= state.announced + made);
    assert(made.map_values(|a: Announced<S>| a.announcement) =~= all_announced(ops));
}

/// Whether the router's answers are followed in a sequence of uses: where the answer
/// to an event is to accept a client, that client is accepted next, and no client is
/// accepted otherwise.
pub open spec fn all_accepted<S>(ops: Seq<RouterOp<S>>) -> bool
    decreases ops.len(),
{
    ops.len() > 0 ==> match ops.last() {
        RouterOp::Accept(addr, _, _, _) => {
            &&& ops.len() >= 2
            &&& ops[ops.len() - 2] matches RouterOp::Event(event) && action_after(event)
                == ServerAction::Accept(addr)
            &&& all_accepted(ops.take(ops.len() - 2))
        },
        RouterOp::Event(event) => {
            &&& action_after(event) == ServerAction::Nothing
            &&& all_accepted(ops.drop_last())
        },
    }
}

/// The clients that connect in a sequence of uses, in order.
pub open spec fn all_connected<S>(ops: Seq<RouterOp<S>>) -> Seq<PeerAddr>
    decreases ops.len(),
{
    if ops.len() == 0 {
        Seq::empty()
    } else {
        let before = all_connected(ops.drop_last());
        match ops.last() {
            RouterOp::Event(ServerEvent::Connect(addr)) => before.push(addr),
            _ => before,
        }
    }
}

/// The clients whose streams are announced, in order.
pub open spec fn announced_clients<S>(announcements: Seq<Announcement<S>>) -> Seq<PeerAddr>
    decreases announcements.len(),
{
    if announcements.len() == 0 {
        Seq::empty()
    } else {
        let before = announced_clients(announcements.drop_last());
        if announcements.last().1 is Ok {
            before.push(announcements.last().0)
        } else {
            before
        }
    }
}

/// Each client that connects is announced exactly once with its stream, in the order
/// of the events, where the router's answers are followed.
pub proof fn law_connects_are_announced_once<S>(state: RouterState<S>, ops: Seq<RouterOp<S>>)
    requires
        all_accepted(ops),
    ensures
        ({
            let made = after_all(state, ops).announced.skip(state.announced.len() as int);
            announced_clients(made.map_values(|a: Announced<S>| a.announcement)) == all_connected(
                ops,
            )
        }),
{
    law_announcements_are_made_once(state, ops);
    lemma_announced_clients(ops);
}

/// The clients that are announced are those that connected.
proof fn lemma_announced_clients<S>(ops: Seq<RouterOp<S>>)
    requires
        all_accepted(ops),
    ensures
        announced_clients(all_announced(ops)) == all_connected(ops),
    decreases ops.len(),
{
    if ops.len() == 0 {
        assert(all_announced(ops).len() == 0);
    } else {
        let all = all_announced(ops);
        let before = all_announced(ops.drop_last());
        match ops.last() {
            RouterOp::Accept(addr, _, _, _) => {
                let earlier = ops.take(ops.len() - 2);
                let connect = ops.drop_last();
                assert(connect.drop_last() =~= earlier);
                assert(connect.last() == ops[ops.len() - 2]);
                lemma_announced_clients(earlier);
                assert(before == all_announced(earlier));
                assert(all.drop_last() =~= before);
                assert(all_connected(connect) == all_connected(earlier).push(addr));
                assert(all_connected(ops) == all_connected(connect));
                assert(announced_clients(all) == announced_clients(before).push(addr));
            },
            RouterOp::Event(ServerEvent::Error(_, _)) => {
                lemma_announced_clients(ops.drop_last());
                assert(all.drop_last() =~= before);
            },
            _ => {
                lemma_announced_clients(ops.drop_last());
            },
        }
    }
}

/// Every client that connects is to be accepted, whatever its address, and no other
/// event asks for anything.
pub proof fn law_every_connect_is_answered_by_accept(event: ServerEvent, addr: PeerAddr)
    ensures
        action_after(event) == ServerAction::Accept(addr) <==> event == ServerEvent::Connect(addr),
        !(event is Connect) ==> action_after(event) == ServerAction::Nothing,
        event is Connect ==> action_after(event) != ServerAction::Nothing,
{
}

/// The clients that are accepted in a sequence of uses, in order.
pub open spec fn accepted_clients<S>(ops: Seq<RouterOp<S>>) -> Seq<PeerAddr>
    decreases ops.len(),
{
    if ops.len() == 0 {
        Seq::empty()
    } else {
        let before = accepted_clients(ops.drop_last());
        match ops.last() {
            RouterOp::Accept(addr, _, _, _) => before.push(addr),
            _ => before,
        }
    }
}

/// Where a router's answers are followed, the clients that are accepted are exactly
/// those that connected, in order.
pub proof fn law_accepted_are_those_that_connected<S>(ops: Seq<RouterOp<S>>)
    requires
        all_accepted(ops),
    ensures
        accepted_clients(ops) == all_connected(ops),
    decreases ops.len(),
{
    if ops.len() > 0 {
        match ops.last() {
            RouterOp::Accept(addr, _, _, _) => {
                let earlier = ops.take(ops.len() - 2);
                let asked = ops.drop_last();
                assert(asked.drop_last() =~= earlier);
                assert(asked.last() == ops[ops.len() - 2]);
                law_accepted_are_those_that_connected(earlier);
                assert(asked.last() == RouterOp::<S>::Event(ServerEvent::Connect(addr)));
                assert(all_connected(asked) == all_connected(earlier).push(addr));
                assert(accepted_clients(asked) == accepted_clients(earlier));
            },
            RouterOp::Event(_) => {
                law_accepted_are_those_that_connected(ops.drop_last());
            },
        }
    }
}

/// What an event leaves of a router: a received packet, a disconnection and a failure
/// are each put once into the channel of their own client, if it is known, the
/// packet byte for byte and the failure under the same name. Only a disconnection
/// makes a client unknown, and only that client. Only a failure is announced.
pub proof fn law_what_events_do<S>(state: RouterState<S>, event: ServerEvent)
    ensures
        ({
            let end = after_event(state, event);
            let told = |addr: PeerAddr, event: Event|
                if state.clients.contains_key(peer::key_of(addr)) {
                    &&& end.forwarded.len() == state.forwarded.len() + 1
                    &&& end.forwarded.drop_last() == state.forwarded
                    &&& end.forwarded.last().event == event
                    &&& end.forwarded.last().stream == state.clients[peer::key_of(addr)]
                    &&& end.forwarded.last().to == state.routes[peer::key_of(addr)]
                    &&& end.forwarded.last().waits
                } else {
                    end.forwarded == state.forwarded
                };
            &&& end.opened == state.opened
            &&& end.announces_to == state.announces_to
            &&& match event {
                ServerEvent::Connect(_) => end.forwarded == state.forwarded,
                ServerEvent::Disconnect(addr) => told(addr, Event::Disconnect),
                ServerEvent::Receive(addr, data) => told(addr, Event::Receive(data)),
                ServerEvent::Error(addr, ServerErrorType::Timeout) => told(
                    addr,
                    Event::Error(ErrorType::Timeout),
                ),
                ServerEvent::Error(addr, ServerErrorType::Version) => told(
                    addr,
                    Event::Error(ErrorType::Version),
                ),
                ServerEvent::Error(addr, ServerErrorType::Config) => told(
                    addr,
                    Event::Error(ErrorType::Config),
                ),
                ServerEvent::Error(addr, ServerErrorType::ServerFull) => told(
                    addr,
                    Event::Error(ErrorType::ServerFull),
                ),
            }
            &&& match event {
                ServerEvent::Disconnect(addr) => {
                    &&& !end.clients.contains_key(peer::key_of(addr))
                    &&& !end.routes.contains_key(peer::key_of(addr))
                    &&& end.clients == state.clients.remove(peer::key_of(addr))
                    &&& end.routes == state.routes.remove(peer::key_of(addr))
                },
                _ => end.clients == state.clients && end.routes == state.routes,
            }
            &&& match event {
                ServerEvent::Error(addr, error) => {
                    &&& end.announced.len() == state.announced.len() + 1
                    &&& end.announced.drop_last() == state.announced
                    &&& end.announced.last().announcement == (addr, Err::<S, _>(error))
                    &&& end.announced.last().to == state.announces_to
                    &&& end.announced.last().waits
                },
                _ => end.announced == state.announced,
            }
        }),
{
    let end = after_event(state, event);
    if end.forwarded.len() > state.forwarded.len() {
        assert(end.forwarded.drop_last() =~= state.forwarded);
    }
    if end.announced.len() > state.announced.len() {
        assert(end.announced.drop_last() =~= state.announced);
    }
}

/// What accepting a client leaves of a router: its stream is announced once, with its
/// address; where it was taken, the client's events go where they were said to, under
/// a new number, and where it was not, the client is unknown. No other client is
/// touched, and nothing is passed on.
pub proof fn law_what_accepting_does<S>(
    state: RouterState<S>,
    addr: PeerAddr,
    events: flume::Sender<Event>,
    stream: S,
    taken: bool,
    other: PeerAddr,
)
    requires
        state.opened < u64::MAX,
        other != addr,
    ensures
        ({
            let end = after_accept(state, addr, events, stream, taken);
            let (key, far) = (peer::key_of(addr), peer::key_of(other));
            &&& end.opened == state.opened + 1
            &&& end.forwarded == state.forwarded
            &&& end.announces_to == state.announces_to
            &&& end.announced.len() == state.announced.len() + 1
            &&& end.announced.drop_last() == state.announced
            &&& end.announced.last().announcement == (addr, Ok::<S, ServerErrorType>(stream))
            &&& end.announced.last().to == state.announces_to
            &&& end.announced.last().waits
            &&& end.clients.contains_key(key) == taken
            &&& end.routes.contains_key(key) == taken
            &&& taken ==> end.clients[key] == state.opened && end.routes[key] == events
            &&& end.clients.contains_key(far) == state.clients.contains_key(far)
            &&& end.routes.contains_key(far) == state.routes.contains_key(far)
            &&& state.clients.contains_key(far) ==> end.clients[far] == state.clients[far]
            &&& state.routes.contains_key(far) ==> end.routes[far] == state.routes[far]
        }),
{
    peer::law_keys_tell_addresses_apart(other, addr);
    let end = after_accept(state, addr, events, stream, taken);
    assert(end.announced.drop_last() =~= state.announced);
}

} // verus!
