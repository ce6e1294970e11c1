use usbws::proto::{decode_qr, make_qr, Identity, Peer};
use usbws::session::{
    gate_start, gate_step, Action, Event, GateAction, GateEvent, Phase, Session,
};

fn peer() -> Peer {
    decode_qr(&make_qr(&Identity::from_seeds([1; 32], [2; 32]), "laptop")).ok().unwrap()
}

fn at(phase: Phase) -> Session {
    Session { phase, seq: 7 }
}

#[test]
fn starts_by_connecting() {
    let (session, action) = Session::start();
    assert_eq!(session, Session { phase: Phase::Dialing, seq: 1 });
    assert!(matches!(action, Action::Connect));
}

#[test]
fn unreachable_relay_is_tried_again() {
    let (session, action) = at(Phase::Dialing).step(Event::RelayDown);
    assert_eq!(session, at(Phase::Retrying));
    assert!(matches!(action, Action::WaitOrStop { secs: 5 }));
    let (session, action) = session.step(Event::WaitOver);
    assert_eq!(session, at(Phase::Dialing));
    assert!(matches!(action, Action::Connect));
    let (session, action) = at(Phase::Retrying).step(Event::Interrupt);
    assert_eq!(session.phase, Phase::Stopped);
    assert!(matches!(action, Action::Stop));
}

#[test]
fn introduces_itself_and_listens() {
    let (session, action) = at(Phase::Dialing).step(Event::RelayUp);
    assert_eq!(session, at(Phase::Online));
    assert!(matches!(action, Action::Introduce { seq: 7 }));
    let (session, action) = session.step(Event::Introduced(9));
    assert_eq!(session, Session { phase: Phase::Online, seq: 9 });
    assert!(matches!(action, Action::Listen));
}

#[test]
fn acts_on_messages() {
    let online = at(Phase::Online);
    let (session, action) = online.step(Event::Frame(vec![1]));
    assert_eq!(session, online);
    assert!(matches!(action, Action::Handle(frame) if frame == [1]));
    let (_, action) = online.step(Event::Ping(vec![2]));
    assert!(matches!(action, Action::Pong(payload) if payload == [2]));
    let (_, action) = online.step(Event::Outbound(vec![3]));
    assert!(matches!(action, Action::Send(frame) if frame == [3]));
    for event in [Event::OtherMessage, Event::Ready] {
        let (session, action) = online.step(event);
        assert_eq!(session, online);
        assert!(matches!(action, Action::Listen));
    }
}

#[test]
fn survives_the_loss_of_the_relay() {
    for event in [Event::RelayClosed, Event::RelayFailed, Event::SendFailed] {
        let (session, action) = at(Phase::Online).step(event);
        assert_eq!(session, at(Phase::Cooling));
        assert!(matches!(action, Action::CloseAndWait { secs: 3 }));
        let (session, action) = session.step(Event::WaitOver);
        assert_eq!(session, at(Phase::Dialing));
        assert!(matches!(action, Action::Connect));
    }
}

#[test]
fn stops_when_told() {
    for event in [Event::Interrupt, Event::OutboundClosed] {
        let (session, action) = at(Phase::Online).step(event);
        assert_eq!(session, at(Phase::Stopped));
        assert!(matches!(action, Action::CloseAndStop));
        let (session, action) = session.step(Event::RelayUp);
        assert_eq!(session, at(Phase::Stopped));
        assert!(matches!(action, Action::Stop));
    }
    // The wait after a loss is not cut short.
    let (session, _) = at(Phase::Cooling).step(Event::Interrupt);
    assert_eq!(session, at(Phase::Cooling));
}

#[test]
fn gate_waits_for_an_initiator() {
    assert!(matches!(
        gate_step(Phase::Dialing, GateEvent::RelayUp),
        (Phase::Online, GateAction::Listen)
    ));
    assert!(matches!(
        gate_step(Phase::Dialing, GateEvent::RelayDown),
        (Phase::Retrying, GateAction::WaitOrStop { secs: 5 })
    ));
    assert!(matches!(
        gate_step(Phase::Retrying, GateEvent::WaitOver),
        (Phase::Dialing, GateAction::Connect)
    ));
    assert!(matches!(
        gate_step(Phase::Retrying, GateEvent::Interrupt),
        (Phase::Stopped, GateAction::Stop)
    ));
    match gate_step(Phase::Online, GateEvent::Frame(vec![4])) {
        (Phase::Online, GateAction::Inspect(frame)) => assert_eq!(frame, [4]),
        _ => panic!("not inspected"),
    }
    assert!(matches!(
        gate_step(Phase::Online, GateEvent::Decided(None)),
        (Phase::Online, GateAction::Listen)
    ));
    match gate_step(Phase::Online, GateEvent::Decided(Some(peer()))) {
        (Phase::Stopped, GateAction::CloseAndAccept(accepted)) => {
            assert_eq!(accepted.x_pub, peer().x_pub);
            assert_eq!(accepted.nick, "laptop");
        }
        _ => panic!("not accepted"),
    }
    match gate_step(Phase::Online, GateEvent::Ping(vec![5])) {
        (Phase::Online, GateAction::Pong(payload)) => assert_eq!(payload, [5]),
        _ => panic!("not answered"),
    }
    for event in [GateEvent::RelayClosed, GateEvent::RelayFailed] {
        assert!(matches!(
            gate_step(Phase::Online, event),
            (Phase::Cooling, GateAction::Wait { secs: 3 })
        ));
    }
    assert!(matches!(
        gate_step(Phase::Cooling, GateEvent::WaitOver),
        (Phase::Dialing, GateAction::Connect)
    ));
    assert!(matches!(
        gate_step(Phase::Online, GateEvent::Interrupt),
        (Phase::Stopped, GateAction::CloseAndStop)
    ));
    assert!(matches!(
        gate_step(Phase::Online, GateEvent::OtherMessage),
        (Phase::Online, GateAction::Listen)
    ));
}

#[test]
fn gate_starts_by_connecting() {
    assert!(matches!(gate_start(), (Phase::Dialing, GateAction::Connect)));
}

#[test]
fn a_run_passes_all_traffic_on() {
    let (mut session, mut action) = Session::start();
    let (mut sent, mut handled, mut answered) = (vec![], vec![], vec![]);
    let events = [
        Event::RelayDown,
        Event::WaitOver,
        Event::RelayUp,
        Event::Introduced(3),
        Event::Outbound(vec![1]),
        Event::Ready,
        Event::Ping(vec![7]),
        Event::Ready,
        Event::Frame(vec![8]),
        Event::Ready,
        Event::Outbound(vec![2]),
        Event::SendFailed,
        Event::WaitOver,
        Event::RelayUp,
        Event::Introduced(5),
        Event::OtherMessage,
        Event::Outbound(vec![3]),
        Event::Ready,
        Event::Frame(vec![8]),
        Event::Ready,
        Event::RelayClosed,
        Event::WaitOver,
        Event::RelayUp,
        Event::Introduced(7),
        Event::Interrupt,
    ];
    assert!(matches!(action, Action::Connect));
    for event in events {
        (session, action) = session.step(event);
        match action {
            Action::Send(ref frame) => sent.push(frame.clone()),
            Action::Handle(ref frame) => handled.push(frame.clone()),
            Action::Pong(ref payload) => answered.push(payload.clone()),
            _ => {}
        }
    }
    assert_eq!(sent, [[1], [2], [3]]);
    assert_eq!(handled, [[8], [8]]);
    assert_eq!(answered, [[7]]);
    assert_eq!(session, Session { phase: Phase::Stopped, seq: 7 });
    assert!(matches!(action, Action::CloseAndStop));
}

#[test]
fn a_gate_inspects_every_frame() {
    let (mut phase, mut action) = gate_start();
    let (mut inspected, mut answered) = (vec![], vec![]);
    let events = [
        GateEvent::RelayUp,
        GateEvent::Frame(vec![1]),
        GateEvent::Decided(None),
        GateEvent::Ping(vec![2]),
        GateEvent::OtherMessage,
        GateEvent::RelayFailed,
        GateEvent::WaitOver,
        GateEvent::RelayUp,
        GateEvent::Frame(vec![3]),
        GateEvent::Decided(Some(peer())),
    ];
    assert!(matches!(action, GateAction::Connect));
    for event in events {
        (phase, action) = gate_step(phase, event);
        match action {
            GateAction::Inspect(ref frame) => inspected.push(frame.clone()),
            GateAction::Pong(ref payload) => answered.push(payload.clone()),
            _ => {}
        }
    }
    assert_eq!(inspected, [[1], [3]]);
    assert_eq!(answered, [[2]]);
    assert_eq!(phase, Phase::Stopped);
    assert!(matches!(action, GateAction::CloseAndAccept(accepted) if accepted.id == peer().id));
}
