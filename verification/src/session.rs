//! One client's connection session: the lifecycle
//! `Connecting -> Handshaking -> Active -> Closing -> Closed`, every decision
//! it makes along the way, and the registry updates each step performs. The
//! caller owns the transport: it writes the frames this module hands out,
//! feeds in what the stream yields, and runs the fair two-source wait over
//! the inbound stream and the session's outbox while the session is active.
use crate::messages;
use crate::registry::ChatServer;
use crate::registry::broadcast_effect;
use crate::registry::others;
use vstd::prelude::*;

verus! {

/// Where a session stands in its lifecycle.
pub enum SessionState {
    Connecting,
    Handshaking,
    Active,
    Closing,
    Closed,
}

/// One client's session: its connection identity, the display name chosen
/// during the handshake, and its lifecycle state.
pub struct Session {
    pub id: u64,
    pub name: Vec<u8>,
    pub state: SessionState,
}

/// What one of the two event sources of an active session yielded: the
/// session's own outbox handing over the next message to write, or the
/// inbound stream handing over a frame, failing, or ending cleanly.
pub enum ActiveEvent {
    OutboxMessage(Vec<u8>),
    InboundFrame(Vec<u8>),
    InboundError,
    StreamEnded,
}

/// What the caller must do after an active session handled one event: write
/// this payload out as one frame, nothing further (the broadcast is already
/// queued), or tear the session down.
pub enum ActiveAction {
    Forward(Vec<u8>),
    Broadcasted,
    Close,
}

/// A session's lifecycle as one abstract step: the prompt going out, the
/// name reply coming back, one active-phase event being handled, the stream
/// ending or failing, and the teardown.
pub enum LifecycleEvent {
    Prompted,
    Named,
    Relayed,
    Ended,
    TornDown,
}

/// The lifecycle transition relation the session methods follow; `None`
/// means the event cannot happen in that state.
pub open spec fn lifecycle_next(s: SessionState, e: LifecycleEvent) -> Option<SessionState> {
    match (s, e) {
        (SessionState::Connecting, LifecycleEvent::Prompted) => Some(SessionState::Handshaking),
        (SessionState::Handshaking, LifecycleEvent::Named) => Some(SessionState::Active),
        (SessionState::Active, LifecycleEvent::Relayed) => Some(SessionState::Active),
        (SessionState::Active, LifecycleEvent::Ended) => Some(SessionState::Closing),
        (SessionState::Closing, LifecycleEvent::TornDown) => Some(SessionState::Closed),
        _ => None,
    }
}

/// The step that broadcasts the session's join notification.
pub open spec fn emits_join(s: SessionState, e: LifecycleEvent) -> bool {
    s is Handshaking && e is Named
}

/// The step that broadcasts the session's leave notification.
pub open spec fn emits_leave(s: SessionState, e: LifecycleEvent) -> bool {
    s is Closing && e is TornDown
}

/// Runs a sequence of lifecycle events from a state; `None` when some event
/// is impossible where it occurs.
pub open spec fn run_from(s: SessionState, es: Seq<LifecycleEvent>) -> Option<SessionState>
    decreases es.len(),
{
    if es.len() == 0 {
        Some(s)
    } else {
        match lifecycle_next(s, es[0]) {
            Some(s2) => run_from(s2, es.drop_first()),
            None => None,
        }
    }
}

/// How many steps of a run broadcast the join notification.
pub open spec fn join_count(s: SessionState, es: Seq<LifecycleEvent>) -> nat
    decreases es.len(),
{
    if es.len() == 0 {
        0
    } else {
        match lifecycle_next(s, es[0]) {
            Some(s2) => (if emits_join(s, es[0]) {
                1nat
            } else {
                0nat
            }) + join_count(s2, es.drop_first()),
            None => 0,
        }
    }
}

/// How many steps of a run broadcast the leave notification.
pub open spec fn leave_count(s: SessionState, es: Seq<LifecycleEvent>) -> nat
    decreases es.len(),
{
    if es.len() == 0 {
        0
    } else {
        match lifecycle_next(s, es[0]) {
            Some(s2) => (if emits_leave(s, es[0]) {
                1nat
            } else {
                0nat
            }) + leave_count(s2, es.drop_first()),
            None => 0,
        }
    }
}

/// How far along its lifecycle a state is; transitions never go backwards.
pub open spec fn rank(s: SessionState) -> nat {
    match s {
        SessionState::Connecting => 0,
        SessionState::Handshaking => 1,
        SessionState::Active => 2,
        SessionState::Closing => 3,
        SessionState::Closed => 4,
    }
}

/// Law: over any run of lifecycle events, a session broadcasts its join
/// notification at most once and its leave notification at most once — once
/// the handshake is behind it, no step can announce the name joining again,
/// and once it is closed nothing announces it leaving again.
pub proof fn lemma_notifications_at_most_once(s: SessionState, es: Seq<LifecycleEvent>)
    ensures
        join_count(s, es) <= 1,
        rank(s) >= 2 ==> join_count(s, es) == 0,
        leave_count(s, es) <= 1,
        rank(s) >= 4 ==> leave_count(s, es) == 0,
    decreases es.len(),
{
    if es.len() > 0 {
        match lifecycle_next(s, es[0]) {
            Some(s2) => {
                lemma_notifications_at_most_once(s2, es.drop_first());
            },
            None => {},
        }
    }
}

/// Law: a session that lives its whole lifecycle — accepted, handshaken,
/// torn down — broadcasts its join notification exactly once and its leave
/// notification exactly once.
pub proof fn lemma_notifications_exactly_once(es: Seq<LifecycleEvent>)
    requires
        run_from(SessionState::Connecting, es) == Some(SessionState::Closed),
    ensures
        join_count(SessionState::Connecting, es) == 1,
        leave_count(SessionState::Connecting, es) == 1,
{
    lemma_join_exact(SessionState::Connecting, es);
    lemma_leave_exact(SessionState::Connecting, es);
}

/// In a run that ends closed, the join notification goes out exactly once if
/// the handshake is still ahead, and never again afterwards.
proof fn lemma_join_exact(s: SessionState, es: Seq<LifecycleEvent>)
    requires
        run_from(s, es) == Some(SessionState::Closed),
    ensures
        join_count(s, es) == if rank(s) <= 1 {
            1nat
        } else {
            0nat
        },
    decreases es.len(),
{
    if es.len() == 0 {
        assert(s is Closed);
    } else {
        match lifecycle_next(s, es[0]) {
            Some(s2) => {
                lemma_join_exact(s2, es.drop_first());
            },
            None => {},
        }
    }
}

/// In a run that ends closed, the leave notification goes out exactly once
/// if teardown is still ahead, and never again afterwards.
proof fn lemma_leave_exact(s: SessionState, es: Seq<LifecycleEvent>)
    requires
        run_from(s, es) == Some(SessionState::Closed),
    ensures
        leave_count(s, es) == if rank(s) <= 3 {
            1nat
        } else {
            0nat
        },
    decreases es.len(),
{
    if es.len() == 0 {
        assert(s is Closed);
    } else {
        match lifecycle_next(s, es[0]) {
            Some(s2) => {
                lemma_leave_exact(s2, es.drop_first());
            },
            None => {},
        }
    }
}

impl Session {
    /// A freshly accepted connection, not yet prompted for a name.
    pub fn new(id: u64) -> (s: Session)
        ensures
            s.id == id,
            s.name@ == Seq::<u8>::empty(),
            s.state is Connecting,
    {
        Session { id, name: Vec::new(), state: SessionState::Connecting }
    }

    /// Starts the handshake: yields the prompt payload the caller must send
    /// as one frame, and waits for the reply.
    pub fn start_handshake(&mut self) -> (prompt: Vec<u8>)
        requires
            old(self).state is Connecting,
        ensures
            final(self).state is Handshaking,
            final(self).id == old(self).id,
            final(self).name == old(self).name,
            prompt@ == messages::prompt_text(),
            lifecycle_next(old(self).state, LifecycleEvent::Prompted) == Some(final(self).state),
    {
        self.state = SessionState::Handshaking;
        messages::prompt_message()
    }

    /// Finishes the handshake with whatever the one blocking receive
    /// yielded: the chosen name, or nothing when the peer went away, which
    /// leniently becomes the empty name. Registers the session and queues
    /// the join notification to every peer registered before it; the new
    /// session's own outbox starts empty, so it never sees its own join.
    pub fn complete_handshake(&mut self, server: &mut ChatServer, reply: Option<Vec<u8>>)
        requires
            old(self).state is Handshaking,
            old(server).wf(),
            !old(server).registered(old(self).id),
        ensures
            final(self).state is Active,
            final(self).id == old(self).id,
            final(self).name@ == messages::name_of_reply(messages::reply_view(reply)),
            lifecycle_next(old(self).state, LifecycleEvent::Named) == Some(final(self).state),
            final(server).wf(),
            final(server).ids() == old(server).ids().push(old(self).id),
            final(server).registered(old(self).id),
            final(server).queue_of(old(self).id) == Seq::<Seq<u8>>::empty(),
            forall|other: u64|
                old(server).registered(other) ==> #[trigger] final(server).registered(other),
            forall|other: u64|
                old(server).registered(other) ==> #[trigger] final(server).queue_of(other) == old(
                    server,
                ).queue_of(other).push(
                    messages::join_text(messages::name_of_reply(messages::reply_view(reply))),
                ),
            forall|other: u64|
                #[trigger] final(server).registered(other) ==> other == old(self).id
                    || old(server).registered(other),
    {
        let ghost pre = *server;
        self.name = messages::name_from_reply(reply);
        server.register(self.id);
        let ghost mid = *server;
        let msg = messages::join_message(&self.name);
        server.broadcast(self.id, &msg);
        self.state = SessionState::Active;
        proof {
            assert(server.ids() == mid.ids());
            assert(mid.registered(self.id));
            assert(server.registered(self.id));
            assert(server.queue_of(self.id) == mid.queue_of(self.id));
            assert forall|other: u64| pre.registered(other) implies #[trigger] server.registered(
                other,
            ) by {
                assert(mid.registered(other));
            }
            assert forall|other: u64| pre.registered(other) implies #[trigger] server.queue_of(
                other,
            ) == pre.queue_of(other).push(
                messages::join_text(messages::name_of_reply(messages::reply_view(reply))),
            ) by {
                assert(mid.registered(other));
                assert(other != self.id);
                assert(server.queue_of(other) == mid.queue_of(other).push(msg@));
            }
            assert forall|other: u64| #[trigger] server.registered(other) implies other == self.id
                || pre.registered(other) by {
                assert(mid.registered(other));
            }
        }
    }

    /// Handles one ready event while active: an outbox message is forwarded
    /// verbatim for the caller to write as one frame; an inbound payload is
    /// wrapped as `"<name>: <payload>"` and queued to every other registered
    /// peer, never back to this session; a stream error or a clean end of
    /// stream moves the session to `Closing`, with nothing retried.
    pub fn handle_active_event(&mut self, server: &mut ChatServer, event: ActiveEvent) -> (action:
        ActiveAction)
        requires
            old(self).state is Active,
            old(server).wf(),
        ensures
            final(self).id == old(self).id,
            final(self).name == old(self).name,
            final(server).wf(),
            event matches ActiveEvent::OutboxMessage(m) ==> action == ActiveAction::Forward(m)
                && *final(self) == *old(self) && *final(server) == *old(server),
            event matches ActiveEvent::InboundFrame(p) ==> action is Broadcasted && *final(self)
                == *old(self) && broadcast_effect(
                *old(server),
                *final(server),
                old(self).id,
                messages::chat_text(old(self).name@, p@),
            ),
            event is InboundError || event is StreamEnded ==> action is Close
                && final(self).state is Closing && *final(server) == *old(server),
            event is OutboxMessage || event is InboundFrame ==> lifecycle_next(
                old(self).state,
                LifecycleEvent::Relayed,
            ) == Some(final(self).state),
            event is InboundError || event is StreamEnded ==> lifecycle_next(
                old(self).state,
                LifecycleEvent::Ended,
            ) == Some(final(self).state),
    {
        match event {
            ActiveEvent::OutboxMessage(m) => ActiveAction::Forward(m),
            ActiveEvent::InboundFrame(p) => {
                let msg = messages::chat_message(&self.name, &p);
                server.broadcast(self.id, &msg);
                ActiveAction::Broadcasted
            },
            ActiveEvent::InboundError => {
                self.state = SessionState::Closing;
                ActiveAction::Close
            },
            ActiveEvent::StreamEnded => {
                self.state = SessionState::Closing;
                ActiveAction::Close
            },
        }
    }

    /// Tears the session down: takes it out of the registry, then queues the
    /// leave notification to every remaining peer. A session being torn down
    /// is already unregistered, so it can never receive a broadcast queued
    /// from now on — its outbox is gone.
    pub fn finish(&mut self, server: &mut ChatServer)
        requires
            old(self).state is Closing,
            old(server).wf(),
        ensures
            final(self).state is Closed,
            final(self).id == old(self).id,
            final(self).name == old(self).name,
            lifecycle_next(old(self).state, LifecycleEvent::TornDown) == Some(final(self).state),
            final(server).wf(),
            !final(server).registered(old(self).id),
            final(server).ids() == others(old(server).ids(), old(self).id),
            forall|other: u64|
                other != old(self).id ==> (#[trigger] final(server).registered(other)
                    <==> old(server).registered(other)),
            forall|other: u64|
                other != old(self).id && old(server).registered(other)
                    ==> #[trigger] final(server).queue_of(other) == old(server).queue_of(
                    other,
                ).push(messages::leave_text(old(self).name@)),
    {
        let ghost pre = *server;
        server.unregister(self.id);
        let ghost mid = *server;
        let msg = messages::leave_message(&self.name);
        server.broadcast(self.id, &msg);
        self.state = SessionState::Closed;
        proof {
            assert(server.ids() == mid.ids());
            assert(!mid.registered(self.id));
            assert(!server.registered(self.id));
            assert forall|other: u64| other != self.id implies (
            #[trigger] server.registered(other) <==> pre.registered(other)) by {
                assert(server.registered(other) <==> mid.registered(other));
            }
            assert forall|other: u64| other != self.id && pre.registered(other) implies
                #[trigger] server.queue_of(other) == pre.queue_of(other).push(
                messages::leave_text(self.name@),
            ) by {
                assert(mid.registered(other));
                assert(mid.queue_of(other) == pre.queue_of(other));
                assert(server.queue_of(other) == mid.queue_of(other).push(msg@));
            }
        }
    }
}

} // verus!
