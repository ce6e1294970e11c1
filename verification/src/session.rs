//! The life of a session with the relay, step by step: what happened goes in,
//! what to do next comes out. The loop around the steps does the work.
use vstd::prelude::*;

use crate::proto::Peer;

verus! {

/// How long to wait, in seconds, when the relay cannot be reached.
pub const RETRY_SECS: u64 = 5;

/// How long to wait, in seconds, after a connection to the relay was lost.
pub const RECONNECT_SECS: u64 = 3;

/// Where a session is.
#[derive(Clone, Copy, Debug, PartialEq, Eq, Structural)]
pub enum Phase {
    /// Connecting to the relay.
    Dialing,
    /// Waiting before the next attempt; an interrupt ends the wait.
    Retrying,
    /// Connected.
    Online,
    /// Waiting after the connection was lost.
    Cooling,
    /// Over.
    Stopped,
}

/// A session: where it is, and the number of its next message to the relay.
#[derive(Clone, Copy, Debug, PartialEq, Eq, Structural)]
pub struct Session {
    pub phase: Phase,
    pub seq: u16,
}

/// What happens to a session.
pub enum Event {
    /// The relay accepted the handshake.
    RelayUp,
    /// The relay could not be reached.
    RelayDown,
    /// A wait is over.
    WaitOver,
    /// The peer was introduced to; this is the number of the next message.
    Introduced(u16),
    /// An action was carried out.
    Ready,
    /// The relay sent a frame.
    Frame(Vec<u8>),
    /// The relay asked for a sign of life.
    Ping(Vec<u8>),
    /// The relay sent something else.
    OtherMessage,
    /// The relay closed the connection.
    RelayClosed,
    /// The connection failed.
    RelayFailed,
    /// A connection has a frame for the peer.
    Outbound(Vec<u8>),
    /// A frame could not be sent.
    SendFailed,
    /// No connection will have frames any more.
    OutboundClosed,
    /// The user wants to stop.
    Interrupt,
}

/// What to do next.
pub enum Action {
    /// Connect to the relay and shake hands.
    Connect,
    /// Wait so many seconds, or until an interrupt.
    WaitOrStop { secs: u64 },
    /// Introduce oneself to the peer; the next message has this number.
    Introduce { seq: u16 },
    /// Wait for the next event.
    Listen,
    /// Act on a frame.
    Handle(Vec<u8>),
    /// Answer a sign of life.
    Pong(Vec<u8>),
    /// Send a frame.
    Send(Vec<u8>),
    /// Close the connection and wait so many seconds.
    CloseAndWait { secs: u64 },
    /// Close the connection and end.
    CloseAndStop,
    /// End.
    Stop,
}

/// Whether an event is the loss of the relay.
pub open spec fn loses_relay(event: Event) -> bool {
    event is RelayClosed || event is RelayFailed || event is SendFailed
}

impl Session {
    /// Where an event takes a session. One that its phase does not wait for takes
    /// it nowhere.
    pub open spec fn next_phase(self, event: Event) -> Phase {
        match self.phase {
            Phase::Dialing => if event is RelayUp {
                Phase::Online
            } else if event is RelayDown {
                Phase::Retrying
            } else {
                Phase::Dialing
            },
            Phase::Retrying => if event is WaitOver {
                Phase::Dialing
            } else if event is Interrupt {
                Phase::Stopped
            } else {
                Phase::Retrying
            },
            Phase::Online => if loses_relay(event) {
                Phase::Cooling
            } else if event is OutboundClosed || event is Interrupt {
                Phase::Stopped
            } else {
                Phase::Online
            },
            Phase::Cooling => if event is WaitOver {
                Phase::Dialing
            } else {
                Phase::Cooling
            },
            Phase::Stopped => Phase::Stopped,
        }
    }

    /// The number of the next message after an event: only an introduction uses
    /// numbers up.
    pub open spec fn next_seq(self, event: Event) -> u16 {
        if self.phase is Online && event is Introduced {
            event->Introduced_0
        } else {
            self.seq
        }
    }

    /// What to do after an event.
    pub open spec fn next_action(self, event: Event) -> Action {
        let next = self.next_phase(event);
        if next is Stopped {
            if self.phase is Online {
                Action::CloseAndStop
            } else {
                Action::Stop
            }
        } else if next != self.phase {
            match next {
                Phase::Dialing => Action::Connect,
                Phase::Retrying => Action::WaitOrStop { secs: RETRY_SECS },
                Phase::Online => Action::Introduce { seq: self.seq },
                _ => Action::CloseAndWait { secs: RECONNECT_SECS },
            }
        } else if self.phase is Online {
            match event {
                Event::Frame(frame) => Action::Handle(frame),
                Event::Ping(payload) => Action::Pong(payload),
                Event::Outbound(frame) => Action::Send(frame),
                _ => Action::Listen,
            }
        } else {
            Action::Listen
        }
    }

    /// What an event makes of a session, and what to do then.
    pub open spec fn spec_step(self, event: Event) -> (Session, Action) {
        (
            Session { phase: self.next_phase(event), seq: self.next_seq(event) },
            self.next_action(event),
        )
    }

    /// A session that starts, and the first thing to do.
    pub fn start() -> (started: (Session, Action))
        ensures
            started.0 == (Session { phase: Phase::Dialing, seq: 1 }),
            started.1 is Connect,
    {
        (Session { phase: Phase::Dialing, seq: 1 }, Action::Connect)
    }

    /// Takes an event.
    pub fn step(self, event: Event) -> (next: (Session, Action))
        ensures
            next == self.spec_step(event),
    {
        match (self.phase, event) {
            (Phase::Dialing, Event::RelayUp) => (
                Session { phase: Phase::Online, seq: self.seq },
                Action::Introduce { seq: self.seq },
            ),
            (Phase::Dialing, Event::RelayDown) => (
                Session { phase: Phase::Retrying, seq: self.seq },
                Action::WaitOrStop { secs: RETRY_SECS },
            ),
            (Phase::Retrying, Event::Interrupt) => (
                Session { phase: Phase::Stopped, seq: self.seq },
                Action::Stop,
            ),
            (Phase::Retrying, Event::WaitOver) | (Phase::Cooling, Event::WaitOver) => (
                Session { phase: Phase::Dialing, seq: self.seq },
                Action::Connect,
            ),
            (Phase::Online, Event::Introduced(seq)) => (
                Session { phase: Phase::Online, seq },
                Action::Listen,
            ),
            (Phase::Online, Event::Frame(frame)) => (self, Action::Handle(frame)),
            (Phase::Online, Event::Ping(payload)) => (self, Action::Pong(payload)),
            (Phase::Online, Event::Outbound(frame)) => (self, Action::Send(frame)),
            (Phase::Online, Event::RelayClosed) | (Phase::Online, Event::RelayFailed) | (
                Phase::Online,
                Event::SendFailed,
            ) => (
                Session { phase: Phase::Cooling, seq: self.seq },
                Action::CloseAndWait { secs: RECONNECT_SECS },
            ),
            (Phase::Online, Event::OutboundClosed) | (Phase::Online, Event::Interrupt) => (
                Session { phase: Phase::Stopped, seq: self.seq },
                Action::CloseAndStop,
            ),
            (Phase::Stopped, _) => (self, Action::Stop),
            (_, _) => (self, Action::Listen),
        }
    }
}

/// Only an interrupt, or the end of all connections, ends a session.
pub proof fn only_the_user_stops(session: Session, event: Event)
    requires
        session.phase != Phase::Stopped,
    ensures
        session.spec_step(event).0.phase == Phase::Stopped ==> event is Interrupt
            || event is OutboundClosed,
{
}

/// A session survives the loss of the relay: it waits and connects again, and
/// goes on counting its messages where it was.
pub proof fn session_survives_loss(session: Session, loss: Event)
    requires
        session.phase == Phase::Online,
        loses_relay(loss),
    ensures
        ({
            let (cooling, action) = session.spec_step(loss);
            let (dialing, again) = cooling.spec_step(Event::WaitOver);
            let (online, hello) = dialing.spec_step(Event::RelayUp);
            &&& action == (Action::CloseAndWait { secs: RECONNECT_SECS })
            &&& again is Connect
            &&& online == session
            &&& hello == (Action::Introduce { seq: session.seq })
        }),
{
}

/// Where a sequence of events takes a session.
pub open spec fn session_after(session: Session, events: Seq<Event>) -> Session
    decreases events.len(),
{
    if events.len() == 0 {
        session
    } else {
        session_after(session, events.drop_last()).spec_step(events.last()).0
    }
}

/// What a session does in a sequence of events: one action for each.
pub open spec fn session_actions(session: Session, events: Seq<Event>) -> Seq<Action>
    decreases events.len(),
{
    if events.len() == 0 {
        Seq::empty()
    } else {
        session_actions(session, events.drop_last()).push(
            session_after(session, events.drop_last()).spec_step(events.last()).1,
        )
    }
}

/// Whether an event is a frame to or from the peer, or a sign of life that the
/// relay asks for.
pub open spec fn is_traffic(event: Event) -> bool {
    event is Outbound || event is Frame || event is Ping
}

/// Whether traffic occurs only while a session is connected.
pub open spec fn traffic_is_online(session: Session, events: Seq<Event>) -> bool
    decreases events.len(),
{
    events.len() > 0 ==> {
        &&& traffic_is_online(session, events.drop_last())
        &&& is_traffic(events.last()) ==> session_after(session, events.drop_last()).phase
            == Phase::Online
    }
}

/// The frames that connections had for the peer, in their order.
pub open spec fn outbound_frames(events: Seq<Event>) -> Seq<Seq<u8>>
    decreases events.len(),
{
    if events.len() == 0 {
        Seq::empty()
    } else {
        let before = outbound_frames(events.drop_last());
        match events.last() {
            Event::Outbound(frame) => before.push(frame@),
            _ => before,
        }
    }
}

/// The frames that were handed to the relay, in their order.
pub open spec fn sent_frames(actions: Seq<Action>) -> Seq<Seq<u8>>
    decreases actions.len(),
{
    if actions.len() == 0 {
        Seq::empty()
    } else {
        let before = sent_frames(actions.drop_last());
        match actions.last() {
            Action::Send(frame) => before.push(frame@),
            _ => before,
        }
    }
}

/// The frames that the relay sent, in their order.
pub open spec fn inbound_frames(events: Seq<Event>) -> Seq<Seq<u8>>
    decreases events.len(),
{
    if events.len() == 0 {
        Seq::empty()
    } else {
        let before = inbound_frames(events.drop_last());
        match events.last() {
            Event::Frame(frame) => before.push(frame@),
            _ => before,
        }
    }
}

/// The frames that were acted on, in their order.
pub open spec fn handled_frames(actions: Seq<Action>) -> Seq<Seq<u8>>
    decreases actions.len(),
{
    if actions.len() == 0 {
        Seq::empty()
    } else {
        let before = handled_frames(actions.drop_last());
        match actions.last() {
            Action::Handle(frame) => before.push(frame@),
            _ => before,
        }
    }
}

/// The payloads with which the relay asked for signs of life, in their order.
pub open spec fn pings(events: Seq<Event>) -> Seq<Seq<u8>>
    decreases events.len(),
{
    if events.len() == 0 {
        Seq::empty()
    } else {
        let before = pings(events.drop_last());
        match events.last() {
            Event::Ping(payload) => before.push(payload@),
            _ => before,
        }
    }
}

/// The payloads of the answers, in their order.
pub open spec fn pongs(actions: Seq<Action>) -> Seq<Seq<u8>>
    decreases actions.len(),
{
    if actions.len() == 0 {
        Seq::empty()
    } else {
        let before = pongs(actions.drop_last());
        match actions.last() {
            Action::Pong(payload) => before.push(payload@),
            _ => before,
        }
    }
}

/// Over a whole run, however often the relay is lost and found again: each
/// outbound frame is handed to the relay once, unchanged and in order; each frame
/// of the relay is acted on once, and each of its signs of life answered with the
/// same payload, in order too.
pub proof fn traffic_is_passed_on(session: Session, events: Seq<Event>)
    requires
        traffic_is_online(session, events),
    ensures
        sent_frames(session_actions(session, events)) == outbound_frames(events),
        handled_frames(session_actions(session, events)) == inbound_frames(events),
        pongs(session_actions(session, events)) == pings(events),
    decreases events.len(),
{
    if events.len() > 0 {
        let front = events.drop_last();
        traffic_is_passed_on(session, front);
        assert(session_actions(session, events).drop_last() =~= session_actions(session, front));
    }
}

/// Whether an event is one that carrying out an action can lead to.
pub open spec fn answers(event: Event, action: Action) -> bool {
    match action {
        Action::Connect => event is RelayUp || event is RelayDown,
        Action::WaitOrStop { .. } => event is WaitOver || event is Interrupt,
        Action::Introduce { .. } => event is Introduced,
        Action::Listen => is_traffic(event) || event is OtherMessage || event is RelayClosed
            || event is RelayFailed || event is OutboundClosed || event is Interrupt,
        Action::Handle(_) | Action::Pong(_) => event is Ready,
        Action::Send(_) => event is Ready || event is SendFailed,
        Action::CloseAndWait { .. } => event is WaitOver,
        Action::CloseAndStop | Action::Stop => false,
    }
}

/// Whether a session is run as it asks to be, from its start: each event comes of
/// the action before it.
pub open spec fn runs(events: Seq<Event>) -> bool
    decreases events.len(),
{
    events.len() > 0 ==> {
        let front = events.drop_last();
        &&& runs(front)
        &&& answers(events.last(), asked(front))
    }
}

/// What a session that starts asks for after some events.
pub open spec fn asked(events: Seq<Event>) -> Action {
    if events.len() == 0 {
        Action::Connect
    } else {
        session_actions(Session { phase: Phase::Dialing, seq: 1 }, events).last()
    }
}

/// In every run of a session traffic occurs only while it is connected, so that
/// all of it is passed on; and what the session asks for fits where it is.
pub proof fn runs_pass_traffic_on(events: Seq<Event>)
    requires
        runs(events),
    ensures
        ({
            let start = Session { phase: Phase::Dialing, seq: 1 };
            let actions = session_actions(start, events);
            let phase = session_after(start, events).phase;
            &&& traffic_is_online(start, events)
            &&& sent_frames(actions) == outbound_frames(events)
            &&& handled_frames(actions) == inbound_frames(events)
            &&& pongs(actions) == pings(events)
            &&& match asked(events) {
                Action::Connect => phase == Phase::Dialing,
                Action::WaitOrStop { .. } => phase == Phase::Retrying,
                Action::CloseAndWait { .. } => phase == Phase::Cooling,
                Action::CloseAndStop | Action::Stop => phase == Phase::Stopped,
                _ => phase == Phase::Online,
            }
        }),
    decreases events.len(),
{
    let start = Session { phase: Phase::Dialing, seq: 1 };
    if events.len() > 0 {
        let front = events.drop_last();
        runs_pass_traffic_on(front);
        assert(answers(events.last(), asked(front)));
    }
    traffic_is_passed_on(start, events);
}

/// What happens to a gate that waits for an initiator.
pub enum GateEvent {
    /// The relay accepted the handshake.
    RelayUp,
    /// The relay could not be reached.
    RelayDown,
    /// A wait is over.
    WaitOver,
    /// The relay sent a frame.
    Frame(Vec<u8>),
    /// A frame introduced this initiator, which is accepted, or it did not.
    Decided(Option<Peer>),
    /// The relay asked for a sign of life.
    Ping(Vec<u8>),
    /// The relay sent something else, or an action was carried out.
    OtherMessage,
    /// The relay closed the connection.
    RelayClosed,
    /// The connection failed.
    RelayFailed,
    /// The user wants to stop.
    Interrupt,
}

/// What a waiting gate does next.
pub enum GateAction {
    /// Connect to the relay and shake hands.
    Connect,
    /// Wait so many seconds, or until an interrupt.
    WaitOrStop { secs: u64 },
    /// Wait for the next event.
    Listen,
    /// Find out whether a frame introduces an initiator, and decide on it.
    Inspect(Vec<u8>),
    /// Answer a sign of life.
    Pong(Vec<u8>),
    /// Drop the connection and wait so many seconds.
    Wait { secs: u64 },
    /// Close the connection and start a session with this initiator.
    CloseAndAccept(Peer),
    /// Close the connection and end.
    CloseAndStop,
    /// End.
    Stop,
}

/// Where an event takes a waiting gate. One that its phase does not wait for
/// takes it nowhere.
pub open spec fn gate_phase(phase: Phase, event: GateEvent) -> Phase {
    match phase {
        Phase::Dialing => if event is RelayUp {
            Phase::Online
        } else if event is RelayDown {
            Phase::Retrying
        } else {
            Phase::Dialing
        },
        Phase::Retrying => if event is WaitOver {
            Phase::Dialing
        } else if event is Interrupt {
            Phase::Stopped
        } else {
            Phase::Retrying
        },
        Phase::Online => if event is RelayClosed || event is RelayFailed {
            Phase::Cooling
        } else if event is Interrupt || event matches GateEvent::Decided(Some(_)) {
            Phase::Stopped
        } else {
            Phase::Online
        },
        Phase::Cooling => if event is WaitOver {
            Phase::Dialing
        } else {
            Phase::Cooling
        },
        Phase::Stopped => Phase::Stopped,
    }
}

/// What a waiting gate does after an event.
pub open spec fn gate_action(phase: Phase, event: GateEvent) -> GateAction {
    let next = gate_phase(phase, event);
    if next is Stopped {
        match (phase, event) {
            (Phase::Online, GateEvent::Decided(Some(peer))) => GateAction::CloseAndAccept(peer),
            (Phase::Online, _) => GateAction::CloseAndStop,
            (_, _) => GateAction::Stop,
        }
    } else if next != phase {
        match next {
            Phase::Dialing => GateAction::Connect,
            Phase::Retrying => GateAction::WaitOrStop { secs: RETRY_SECS },
            Phase::Online => GateAction::Listen,
            _ => GateAction::Wait { secs: RECONNECT_SECS },
        }
    } else if phase is Online {
        match event {
            GateEvent::Frame(frame) => GateAction::Inspect(frame),
            GateEvent::Ping(payload) => GateAction::Pong(payload),
            _ => GateAction::Listen,
        }
    } else {
        GateAction::Listen
    }
}

/// A gate that starts to wait, and the first thing to do.
pub fn gate_start() -> (started: (Phase, GateAction))
    ensures
        started.0 == Phase::Dialing,
        started.1 is Connect,
{
    (Phase::Dialing, GateAction::Connect)
}

/// Takes an event of a waiting gate.
pub fn gate_step(phase: Phase, event: GateEvent) -> (next: (Phase, GateAction))
    ensures
        next.0 == gate_phase(phase, event),
        next.1 == gate_action(phase, event),
{
    match (phase, event) {
        (Phase::Dialing, GateEvent::RelayUp) => (Phase::Online, GateAction::Listen),
        (Phase::Dialing, GateEvent::RelayDown) => (
            Phase::Retrying,
            GateAction::WaitOrStop { secs: RETRY_SECS },
        ),
        (Phase::Retrying, GateEvent::Interrupt) => (Phase::Stopped, GateAction::Stop),
        (Phase::Retrying, GateEvent::WaitOver) | (Phase::Cooling, GateEvent::WaitOver) => (
            Phase::Dialing,
            GateAction::Connect,
        ),
        (Phase::Online, GateEvent::Frame(frame)) => (Phase::Online, GateAction::Inspect(frame)),
        (Phase::Online, GateEvent::Decided(Some(peer))) => (
            Phase::Stopped,
            GateAction::CloseAndAccept(peer),
        ),
        (Phase::Online, GateEvent::Ping(payload)) => (Phase::Online, GateAction::Pong(payload)),
        (Phase::Online, GateEvent::RelayClosed) | (Phase::Online, GateEvent::RelayFailed) => (
            Phase::Cooling,
            GateAction::Wait { secs: RECONNECT_SECS },
        ),
        (Phase::Online, GateEvent::Interrupt) => (Phase::Stopped, GateAction::CloseAndStop),
        (Phase::Stopped, _) => (Phase::Stopped, GateAction::Stop),
        (_, _) => (phase, GateAction::Listen),
    }
}

/// A waiting gate survives the loss of the relay: it waits and connects again.
pub proof fn gate_survives_loss(loss: GateEvent)
    requires
        loss is RelayClosed || loss is RelayFailed,
    ensures
        gate_action(Phase::Online, loss) == (GateAction::Wait { secs: RECONNECT_SECS }),
        gate_phase(gate_phase(Phase::Online, loss), GateEvent::WaitOver) == Phase::Dialing,
        gate_action(gate_phase(Phase::Online, loss), GateEvent::WaitOver) is Connect,
{
}

/// A gate stops waiting only for an accepted initiator or at an interrupt, and
/// the initiator that it starts a session with is the accepted one.
pub proof fn gate_waits_for_acceptance(phase: Phase, event: GateEvent)
    requires
        phase != Phase::Stopped,
    ensures
        gate_phase(phase, event) == Phase::Stopped ==> event is Interrupt || event matches
            GateEvent::Decided(Some(_)),
        gate_action(phase, event) matches GateAction::CloseAndAccept(peer) ==> event
            == GateEvent::Decided(Some(peer)),
{
}

/// Where a sequence of events takes a gate that starts to wait.
pub open spec fn gate_after(events: Seq<GateEvent>) -> Phase
    decreases events.len(),
{
    if events.len() == 0 {
        Phase::Dialing
    } else {
        gate_phase(gate_after(events.drop_last()), events.last())
    }
}

/// What a gate that starts to wait asks for after some events.
pub open spec fn gate_asked(events: Seq<GateEvent>) -> GateAction {
    if events.len() == 0 {
        GateAction::Connect
    } else {
        gate_action(gate_after(events.drop_last()), events.last())
    }
}

/// Whether an event of a gate is one that carrying out an action can lead to.
pub open spec fn gate_answers(event: GateEvent, action: GateAction) -> bool {
    match action {
        GateAction::Connect => event is RelayUp || event is RelayDown,
        GateAction::WaitOrStop { .. } => event is WaitOver || event is Interrupt,
        GateAction::Listen => event is Frame || event is Ping || event is OtherMessage
            || event is RelayClosed || event is RelayFailed || event is Interrupt,
        GateAction::Inspect(_) => event is Decided,
        GateAction::Pong(_) => event is OtherMessage,
        GateAction::Wait { .. } => event is WaitOver,
        GateAction::CloseAndAccept(_) | GateAction::CloseAndStop | GateAction::Stop => false,
    }
}

/// Whether a gate is run as it asks to be, from its start.
pub open spec fn gate_runs(events: Seq<GateEvent>) -> bool
    decreases events.len(),
{
    events.len() > 0 ==> {
        let front = events.drop_last();
        &&& gate_runs(front)
        &&& gate_answers(events.last(), gate_asked(front))
    }
}

/// In every run of a waiting gate, however often the relay is lost and found
/// again: it asks to inspect each frame of the relay and answers each of its signs
/// of life, with the same bytes and at once; and an initiator is accepted only
/// when the inspection of the frame just before decided so.
pub proof fn gate_runs_pass_traffic_on(events: Seq<GateEvent>)
    requires
        gate_runs(events),
    ensures
        events.len() > 0 ==> {
            &&& events.last() matches GateEvent::Frame(frame) ==> gate_asked(events)
                == GateAction::Inspect(frame)
            &&& events.last() matches GateEvent::Ping(payload) ==> gate_asked(events)
                == GateAction::Pong(payload)
        },
        gate_asked(events) matches GateAction::Inspect(frame) ==> events.last()
            == GateEvent::Frame(frame),
        gate_asked(events) matches GateAction::Pong(payload) ==> events.last()
            == GateEvent::Ping(payload),
        gate_asked(events) matches GateAction::CloseAndAccept(peer) ==> events.len() > 1
            && events.last() == GateEvent::Decided(Some(peer)) && events[events.len()
            - 2] is Frame,
        match gate_asked(events) {
            GateAction::Connect => gate_after(events) == Phase::Dialing,
            GateAction::WaitOrStop { .. } => gate_after(events) == Phase::Retrying,
            GateAction::Wait { .. } => gate_after(events) == Phase::Cooling,
            GateAction::CloseAndAccept(_) | GateAction::CloseAndStop | GateAction::Stop =>
                gate_after(events) == Phase::Stopped,
            _ => gate_after(events) == Phase::Online,
        },
    decreases events.len(),
{
    if events.len() > 0 {
        let front = events.drop_last();
        gate_runs_pass_traffic_on(front);
        assert(gate_answers(events.last(), gate_asked(front)));
        if front.len() > 0 {
            assert(front.last() == events[events.len() - 2]);
        }
    }
}

/// A session that dials, whatever the number of its next message: with the relay
/// it goes online and introduces itself under that number; without, it waits five
/// seconds, which an interrupt may end, and then dials again. Nothing else moves
/// it.
pub proof fn a_dialing_session_waits_for_the_relay(seq: u16, event: Event)
    ensures
        ({
            let dialing = Session { phase: Phase::Dialing, seq };
            let retrying = Session { phase: Phase::Retrying, seq };
            let online = Session { phase: Phase::Online, seq };
            &&& dialing.spec_step(Event::RelayUp) == (online, Action::Introduce { seq })
            &&& dialing.spec_step(Event::RelayDown) == (retrying, Action::WaitOrStop { secs: 5 })
            &&& retrying.spec_step(Event::WaitOver) == (dialing, Action::Connect)
            &&& event !is RelayUp && event !is RelayDown ==> dialing.spec_step(event) == (
                dialing,
                Action::Listen,
            )
        }),
{
}

/// A session that waits for the relay to come back dials again when the wait is
/// over and ends at an interrupt; nothing else moves it.
pub proof fn a_retrying_session_waits_or_stops(seq: u16, event: Event)
    ensures
        ({
            let retrying = Session { phase: Phase::Retrying, seq };
            &&& retrying.spec_step(Event::WaitOver) == (
                Session { phase: Phase::Dialing, seq },
                Action::Connect,
            )
            &&& retrying.spec_step(Event::Interrupt) == (
                Session { phase: Phase::Stopped, seq },
                Action::Stop,
            )
            &&& event !is WaitOver && event !is Interrupt ==> retrying.spec_step(event) == (
                retrying,
                Action::Listen,
            )
        }),
{
}

/// A session that is online acts on each frame, answers each sign of life and sends
/// each frame for the peer, as it is; takes the number that an introduction left;
/// closes and waits three seconds when the relay is lost; closes and ends at an
/// interrupt or when no frame will come any more; and listens on otherwise.
pub proof fn an_online_session_passes_traffic_on(
    seq: u16,
    bytes: Vec<u8>,
    number: u16,
    event: Event,
)
    ensures
        ({
            let online = Session { phase: Phase::Online, seq };
            let lost = (
                Session { phase: Phase::Cooling, seq },
                Action::CloseAndWait { secs: 3 },
            );
            let ended = (Session { phase: Phase::Stopped, seq }, Action::CloseAndStop);
            &&& online.spec_step(Event::Frame(bytes)) == (online, Action::Handle(bytes))
            &&& online.spec_step(Event::Ping(bytes)) == (online, Action::Pong(bytes))
            &&& online.spec_step(Event::Outbound(bytes)) == (online, Action::Send(bytes))
            &&& online.spec_step(Event::Introduced(number)) == (
                Session { phase: Phase::Online, seq: number },
                Action::Listen,
            )
            &&& online.spec_step(Event::RelayClosed) == lost
            &&& online.spec_step(Event::RelayFailed) == lost
            &&& online.spec_step(Event::SendFailed) == lost
            &&& online.spec_step(Event::Interrupt) == ended
            &&& online.spec_step(Event::OutboundClosed) == ended
            &&& event is RelayUp || event is RelayDown || event is WaitOver || event is Ready
                || event is OtherMessage ==> online.spec_step(event) == (online, Action::Listen)
        }),
{
}

/// A session that lost the relay dials again when its wait is over, and only then;
/// one that ended stays so.
pub proof fn a_session_cools_or_stays_stopped(seq: u16, event: Event)
    ensures
        ({
            let cooling = Session { phase: Phase::Cooling, seq };
            let stopped = Session { phase: Phase::Stopped, seq };
            &&& cooling.spec_step(Event::WaitOver) == (
                Session { phase: Phase::Dialing, seq },
                Action::Connect,
            )
            &&& event !is WaitOver ==> cooling.spec_step(event) == (cooling, Action::Listen)
            &&& stopped.spec_step(event) == (stopped, Action::Stop)
        }),
{
}

/// A session comes online only with the relay, dials only when a wait is over, and
/// its number changes only by an introduction.
pub proof fn sessions_change_for_a_reason(session: Session, event: Event)
    ensures
        ({
            let next = session.spec_step(event).0;
            &&& next.phase == Phase::Online && session.phase != Phase::Online ==> session.phase
                == Phase::Dialing && event is RelayUp
            &&& next.phase == Phase::Dialing && session.phase != Phase::Dialing
                ==> event is WaitOver
            &&& next.seq != session.seq ==> session.phase == Phase::Online && event
                == Event::Introduced(next.seq)
        }),
{
}

/// Whenever an online gate learns that an initiator is accepted, whoever it is, it
/// stops waiting and asks to accept this initiator; when a frame brought none, it
/// goes on listening.
pub proof fn an_accepted_initiator_ends_the_wait(peer: Peer)
    ensures
        gate_phase(Phase::Online, GateEvent::Decided(Some(peer))) == Phase::Stopped,
        gate_action(Phase::Online, GateEvent::Decided(Some(peer))) == GateAction::CloseAndAccept(
            peer,
        ),
        gate_phase(Phase::Online, GateEvent::Decided(None)) == Phase::Online,
        gate_action(Phase::Online, GateEvent::Decided(None)) == GateAction::Listen,
{
}

/// A gate that dials goes online with the relay, and without waits five seconds,
/// which an interrupt may end, and dials again; nothing else moves it.
pub proof fn a_dialing_gate_waits_for_the_relay(event: GateEvent)
    ensures
        gate_phase(Phase::Dialing, GateEvent::RelayUp) == Phase::Online,
        gate_action(Phase::Dialing, GateEvent::RelayUp) == GateAction::Listen,
        gate_phase(Phase::Dialing, GateEvent::RelayDown) == Phase::Retrying,
        gate_action(Phase::Dialing, GateEvent::RelayDown) == (GateAction::WaitOrStop { secs: 5 }),
        event !is RelayUp && event !is RelayDown ==> gate_phase(Phase::Dialing, event)
            == Phase::Dialing && gate_action(Phase::Dialing, event) == GateAction::Listen,
        gate_phase(Phase::Retrying, GateEvent::WaitOver) == Phase::Dialing,
        gate_action(Phase::Retrying, GateEvent::WaitOver) == GateAction::Connect,
        gate_phase(Phase::Retrying, GateEvent::Interrupt) == Phase::Stopped,
        gate_action(Phase::Retrying, GateEvent::Interrupt) == GateAction::Stop,
        event !is WaitOver && event !is Interrupt ==> gate_phase(Phase::Retrying, event)
            == Phase::Retrying && gate_action(Phase::Retrying, event) == GateAction::Listen,
{
}

/// An online gate asks to inspect each frame and answers each sign of life, as it
/// is; waits three seconds when the relay is lost; closes and ends at an interrupt;
/// and listens on otherwise. After the wait it dials again, and once ended it stays
/// so.
pub proof fn an_online_gate_inspects_frames(bytes: Vec<u8>, event: GateEvent)
    ensures
        gate_phase(Phase::Online, GateEvent::Frame(bytes)) == Phase::Online,
        gate_action(Phase::Online, GateEvent::Frame(bytes)) == GateAction::Inspect(bytes),
        gate_phase(Phase::Online, GateEvent::Ping(bytes)) == Phase::Online,
        gate_action(Phase::Online, GateEvent::Ping(bytes)) == GateAction::Pong(bytes),
        event is RelayClosed || event is RelayFailed ==> gate_phase(Phase::Online, event)
            == Phase::Cooling && gate_action(Phase::Online, event) == (GateAction::Wait {
            secs: 3,
        }),
        gate_phase(Phase::Online, GateEvent::Interrupt) == Phase::Stopped,
        gate_action(Phase::Online, GateEvent::Interrupt) == GateAction::CloseAndStop,
        event is RelayUp || event is RelayDown || event is WaitOver || event is OtherMessage
            ==> gate_phase(Phase::Online, event) == Phase::Online && gate_action(
            Phase::Online,
            event,
        ) == GateAction::Listen,
        gate_phase(Phase::Cooling, GateEvent::WaitOver) == Phase::Dialing,
        gate_action(Phase::Cooling, GateEvent::WaitOver) == GateAction::Connect,
        event !is WaitOver ==> gate_phase(Phase::Cooling, event) == Phase::Cooling && gate_action(
            Phase::Cooling,
            event,
        ) == GateAction::Listen,
        gate_phase(Phase::Stopped, event) == Phase::Stopped,
        gate_action(Phase::Stopped, event) == GateAction::Stop,
{
}

} // verus!
