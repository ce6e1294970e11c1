use usbws::gate::{introduced, introduction};
use usbws::proto::{
    build_server_bound, decode_qr, make_qr, pack_inner, route_packet, session_keys,
    unpack_inner, verify_and_decrypt, Identity, IntroError, Peer, CMD_INTRO_FROM,
    CMD_PEER_ONLINE, CMD_TCP_CLOSE, CMD_TCP_DATA, CMD_TCP_OPEN,
};
use usbws::tcp::{
    accept_step, build_ctx, close_command, data_command, delivery_failed, dispatch,
    handle_incoming, open_command, open_outbound, reader_step, route, writer_step, AcceptStep,
    Command, ConnTable, Ctx, Dispatch, Order, ReaderStep, WrMsg, WriterStep, CONN_QUEUE,
    OUT_QUEUE, READ_CHUNK,
};

fn identity(seed: u8) -> Identity {
    Identity::from_seeds([seed; 32], [seed; 32])
}

fn peer_of(me: &Identity) -> Peer {
    decode_qr(&make_qr(me, "nick")).ok().unwrap()
}

fn ends() -> (Ctx, Ctx, [u8; 32]) {
    let (a, b, relay) = (identity(1), identity(2), identity(3));
    let (home, _) = build_ctx(a.clone(), peer_of(&b), &relay.x_pub);
    let (gate, k_s2c) = build_ctx(b, peer_of(&a), &relay.x_pub);
    (home, gate, k_s2c)
}

fn send(home: &Ctx, k_s2c: &[u8; 32], command: &Command) -> Vec<u8> {
    let sent = home.send_peer(command.cmd, &command.body);
    route_packet(&home.me.id, k_s2c, &sent[8..])
}

fn is_ignored(order: Order) -> bool {
    matches!(order, Order::Ignore)
}

#[test]
fn queue_sizes() {
    assert_eq!((READ_CHUNK, OUT_QUEUE, CONN_QUEUE), (16 * 1024, 512, 256));
}

#[test]
fn context_holds_the_session_keys() {
    let (a, relay) = (identity(1), identity(3));
    let (ctx, k_s2c) = build_ctx(a.clone(), peer_of(&identity(2)), &relay.x_pub);
    let (c2s, s2c) = session_keys(&a, &relay.x_pub);
    assert_eq!(ctx.k_c2s, c2s);
    assert_eq!(k_s2c, s2c);
    assert_eq!(ctx.me.x_priv, a.x_priv);
    assert_eq!(ctx.peer.id, identity(2).id);
}

#[test]
fn commands_on_the_wire() {
    let open = open_command(7);
    assert_eq!((open.cmd, open.body), (CMD_TCP_OPEN, vec![7]));
    let data = data_command(7, b"abc");
    assert_eq!((data.cmd, data.body), (CMD_TCP_DATA, vec![7, b'a', b'b', b'c']));
    let close = close_command(7);
    assert_eq!((close.cmd, close.body), (CMD_TCP_CLOSE, vec![7]));
}

#[test]
fn sent_command_reaches_the_peer() {
    let (home, gate, k_s2c) = ends();
    let target = Some(String::from("127.0.0.1:3240"));
    match handle_incoming(&gate, &k_s2c, &send(&home, &k_s2c, &open_command(9)), &target) {
        Order::Dial { conn_id, target } => {
            assert_eq!((conn_id, target.as_str()), (9, "127.0.0.1:3240"))
        }
        _ => panic!("not dialed"),
    }
    match handle_incoming(&gate, &k_s2c, &send(&home, &k_s2c, &data_command(9, b"xyz")), &target) {
        Order::Deliver { conn_id, payload } => assert_eq!((conn_id, payload), (9, b"xyz".to_vec())),
        _ => panic!("not delivered"),
    }
    match handle_incoming(&gate, &k_s2c, &send(&home, &k_s2c, &close_command(9)), &target) {
        Order::HalfClose { conn_id } => assert_eq!(conn_id, 9),
        _ => panic!("not closed"),
    }
}

#[test]
fn frames_of_others_are_ignored() {
    let (home, gate, k_s2c) = ends();
    let frame = send(&home, &k_s2c, &open_command(9));
    let target = Some(String::from("h:1"));
    assert!(is_ignored(handle_incoming(&home, &k_s2c, &frame, &target)));
    assert!(is_ignored(handle_incoming(&gate, &[0u8; 32], &frame[..111], &target)));
    let own = route_packet(&[0u8; 8], &k_s2c, &frame[8..]);
    assert!(is_ignored(handle_incoming(&gate, &k_s2c, &own, &target)));
    let mut bad = frame.clone();
    bad[40] ^= 1;
    assert!(is_ignored(handle_incoming(&gate, &k_s2c, &bad, &target)));
}

#[test]
fn orders_that_ask_for_nothing() {
    let target = Some(String::from("h:1"));
    assert!(is_ignored(route(&[], &target)));
    assert!(is_ignored(route(&[0, 0], &target)));
    assert!(is_ignored(route(&pack_inner(0, CMD_TCP_OPEN, &[]), &target)));
    assert!(is_ignored(route(&pack_inner(0, CMD_TCP_DATA, &[5]), &target)));
    assert!(is_ignored(route(&pack_inner(0, CMD_TCP_CLOSE, &[]), &target)));
    assert!(is_ignored(route(&pack_inner(0, 0x30, &[5, 6]), &target)));
    assert!(is_ignored(route(&pack_inner(0, CMD_TCP_OPEN, &[5]), &None)));
    assert!(!is_ignored(route(&pack_inner(0, CMD_TCP_OPEN, &[5]), &target)));
}

#[test]
fn frame_carries_the_packed_command() {
    let (home, gate, _) = ends();
    let frame = home.send_peer(CMD_TCP_DATA, &[1, 2, 3]);
    let inner =
        verify_and_decrypt(&frame[8..], &gate.me.x_priv, &home.me.x_pub, &home.me.ed_pub).unwrap();
    assert_eq!(inner, [0, 0, CMD_TCP_DATA, 1, 2, 3]);
    assert_eq!(unpack_inner(&inner), Some((CMD_TCP_DATA, &[1u8, 2, 3][..])));
}

#[test]
fn ids_are_handed_out_in_turn() {
    let mut conns: ConnTable<u32> = ConnTable::new();
    let mut next = 254u8;
    for expected in [254u8, 255, 0, 1] {
        let id = conns.alloc_conn_id(&mut next).unwrap();
        assert_eq!(id, expected);
        assert_eq!(next, expected.wrapping_add(1));
        conns.register(id, u32::from(id));
    }
    conns.remove(255);
    // A free id behind the cursor is not used before the others.
    assert_eq!(conns.alloc_conn_id(&mut next), Some(2));
    next = 254;
    assert_eq!(conns.alloc_conn_id(&mut next), Some(255));
}

#[test]
fn ids_run_out_at_256() {
    let mut conns: ConnTable<()> = ConnTable::new();
    let mut next = 10u8;
    for _ in 0..256 {
        let id = conns.alloc_conn_id(&mut next).unwrap();
        assert!(conns.get(id).is_none());
        conns.register(id, ());
    }
    assert_eq!(conns.alloc_conn_id(&mut next), None);
    assert_eq!(next, 10);
    conns.remove(9);
    assert_eq!(conns.alloc_conn_id(&mut next), Some(9));
}

#[test]
fn dispatch_finds_the_writer() {
    let mut conns: ConnTable<&str> = ConnTable::new();
    conns.register(3, "three");
    conns.register(3, "newer");
    match dispatch(&conns, Order::Deliver { conn_id: 3, payload: vec![1] }) {
        Dispatch::Write { conn_id, writer, payload } => {
            assert_eq!((conn_id, *writer, payload), (3, "newer", vec![1]))
        }
        _ => panic!("not written"),
    }
    match dispatch(&conns, Order::HalfClose { conn_id: 3 }) {
        Dispatch::Shut { conn_id, writer } => assert_eq!((conn_id, *writer), (3, "newer")),
        _ => panic!("not shut"),
    }
    assert!(conns.get(3).is_some());
    assert!(matches!(
        dispatch(&conns, Order::Deliver { conn_id: 4, payload: vec![1] }),
        Dispatch::Nothing
    ));
    assert!(matches!(dispatch(&conns, Order::HalfClose { conn_id: 4 }), Dispatch::Nothing));
    assert!(matches!(dispatch(&conns, Order::Ignore), Dispatch::Nothing));
    match dispatch(&conns, Order::Dial { conn_id: 4, target: String::from("h:1") }) {
        Dispatch::Dial { conn_id, target } => assert_eq!((conn_id, target.as_str()), (4, "h:1")),
        _ => panic!("not dialed"),
    }
}

#[test]
fn a_gone_writer_closes_the_connection() {
    let mut conns: ConnTable<u8> = ConnTable::new();
    conns.register(5, 0);
    conns.register(6, 0);
    let command = delivery_failed(&mut conns, 5);
    assert_eq!((command.cmd, command.body), (CMD_TCP_CLOSE, vec![5]));
    assert!(conns.get(5).is_none());
    assert!(conns.get(6).is_some());
}

#[test]
fn failed_dial_closes_the_connection() {
    assert!(open_outbound(8, true).is_none());
    let command = open_outbound(8, false).unwrap();
    assert_eq!((command.cmd, command.body), (CMD_TCP_CLOSE, vec![8]));
}

#[test]
fn accepting() {
    let mut conns: ConnTable<()> = ConnTable::new();
    let mut next = 0u8;
    assert!(matches!(accept_step(&conns, &mut next, false), AcceptStep::Pause { millis: 200 }));
    assert_eq!(next, 0);
    match accept_step(&conns, &mut next, true) {
        AcceptStep::Open { conn_id, command } => {
            assert_eq!((conn_id, command.cmd, command.body), (0, CMD_TCP_OPEN, vec![0]))
        }
        _ => panic!("not opened"),
    }
    for id in 0..=255u8 {
        conns.register(id, ());
    }
    assert!(matches!(accept_step(&conns, &mut next, true), AcceptStep::Refuse));
}

#[test]
fn reading() {
    match reader_step(4, Some(b"ab")) {
        ReaderStep::Forward(c) => assert_eq!((c.cmd, c.body), (CMD_TCP_DATA, vec![4, b'a', b'b'])),
        _ => panic!("not forwarded"),
    }
    for end in [Some(&b""[..]), None] {
        match reader_step(4, end) {
            ReaderStep::Finish(c) => assert_eq!((c.cmd, c.body), (CMD_TCP_CLOSE, vec![4])),
            _ => panic!("not finished"),
        }
    }
}

#[test]
fn writing() {
    match writer_step(Some(WrMsg::Data(vec![1, 2]))) {
        WriterStep::Write(bytes) => assert_eq!(bytes, [1, 2]),
        _ => panic!("not written"),
    }
    assert!(matches!(writer_step(Some(WrMsg::Shutdown)), WriterStep::Finish));
    assert!(matches!(writer_step(None), WriterStep::Finish));
}

#[test]
fn streams_stay_apart() {
    let reads: [(u8, Option<&[u8]>); 6] = [
        (1, Some(b"he")),
        (2, Some(b"wor")),
        (1, Some(b"llo")),
        (1, None),
        (2, Some(b"ld")),
        (2, Some(b"")),
    ];
    let mut told: [Vec<u8>; 3] = [vec![], vec![], vec![]];
    let mut closed = vec![];
    for (id, read) in reads {
        let command = match reader_step(id, read) {
            ReaderStep::Forward(command) => command,
            ReaderStep::Finish(command) => command,
        };
        match route(&pack_inner(0, command.cmd, &command.body), &None) {
            Order::Deliver { conn_id, payload } => told[usize::from(conn_id)].extend(payload),
            Order::HalfClose { conn_id } => closed.push(conn_id),
            _ => panic!("not understood"),
        }
    }
    assert_eq!(told[1], b"hello");
    assert_eq!(told[2], b"world");
    assert_eq!(closed, [1, 2]);
}

#[test]
fn relay_introduces_an_initiator() {
    let (relay, gate, initiator) = (identity(3), identity(2), identity(1));
    let (_, k_s2c) = session_keys(&gate, &relay.x_pub);
    let mut body = initiator.x_pub.to_vec();
    body.extend_from_slice(&initiator.ed_pub);
    body.extend_from_slice(b"laptop");
    let frame_of =
        |inner: &[u8]| build_server_bound(&relay, &gate.x_pub, &k_s2c, inner);
    let read =
        |frame: &[u8]| introduction(frame, &k_s2c, &gate.x_priv, &relay.x_pub, &relay.ed_pub);
    let peer = read(&frame_of(&pack_inner(5, CMD_INTRO_FROM, &body))).unwrap().ok().unwrap();
    assert_eq!(peer.x_pub, initiator.x_pub);
    assert_eq!(peer.id, initiator.id);
    assert_eq!(peer.nick, "laptop");
    assert!(read(&frame_of(&pack_inner(5, CMD_PEER_ONLINE, &body))).is_none());
    assert!(read(&frame_of(&[0, 0])).is_none());
    assert_eq!(
        read(&frame_of(&pack_inner(5, CMD_INTRO_FROM, &body[..63]))).unwrap().err(),
        Some(IntroError::TooShort)
    );
    assert!(read(&[0u8; 200]).is_none());
    // Anyone else's introduction is none.
    let forged = build_server_bound(
        &initiator,
        &gate.x_pub,
        &k_s2c,
        &pack_inner(5, CMD_INTRO_FROM, &body),
    );
    assert!(read(&forged).is_none());
    assert!(introduced(&[0, 0]).is_none());
}

#[test]
fn half_open_connections_flow_on() {
    let mut conns: ConnTable<&str> = ConnTable::new();
    conns.register(1, "writer");
    // The local stream is over: the peer is told, and its bytes still arrive.
    match reader_step(1, Some(b"")) {
        ReaderStep::Finish(command) => assert_eq!(command.cmd, CMD_TCP_CLOSE),
        _ => panic!("not finished"),
    }
    let data = data_command(1, b"late");
    match dispatch(&conns, route(&pack_inner(0, data.cmd, &data.body), &None)) {
        Dispatch::Write { writer, payload, .. } => {
            assert_eq!((*writer, payload), ("writer", b"late".to_vec()))
        }
        _ => panic!("not written"),
    }
    // The peer's stream is over: local bytes still go out.
    let close = close_command(1);
    assert!(matches!(
        dispatch(&conns, route(&pack_inner(0, close.cmd, &close.body), &None)),
        Dispatch::Shut { conn_id: 1, .. }
    ));
    assert!(matches!(reader_step(1, Some(b"more")), ReaderStep::Forward(_)));
}

#[test]
fn orders_reach_their_writers() {
    let target = Some(String::from("h:1"));
    let mut conns: ConnTable<u8> = ConnTable::new();
    let mut written: [Vec<u8>; 3] = [vec![], vec![], vec![]];
    let commands = [
        data_command(1, b"early"),
        open_command(1),
        open_command(2),
        data_command(1, b"he"),
        data_command(2, b"wor"),
        data_command(1, b"llo"),
        close_command(1),
        data_command(1, b"late"),
        close_command(1),
        data_command(2, b"ld"),
    ];
    for command in commands {
        let order = route(&pack_inner(0, command.cmd, &command.body), &target);
        let (opened, message) = match dispatch(&conns, order) {
            Dispatch::Nothing => continue,
            Dispatch::Dial { conn_id, .. } => (Some(conn_id), None),
            Dispatch::Write { conn_id, writer, payload } => {
                assert_eq!(*writer, conn_id);
                (None, Some((conn_id, WrMsg::Data(payload))))
            }
            Dispatch::Shut { conn_id, writer } => {
                assert_eq!(*writer, conn_id);
                (None, Some((conn_id, WrMsg::Shutdown)))
            }
        };
        if let Some(conn_id) = opened {
            conns.register(conn_id, conn_id);
        }
        if let Some((conn_id, message)) = message {
            match writer_step(Some(message)) {
                WriterStep::Write(bytes) => written[usize::from(conn_id)].extend(bytes),
                WriterStep::Finish => conns.remove(conn_id),
            }
        }
    }
    assert_eq!(written[1], b"hello");
    assert_eq!(written[2], b"world");
    assert!(conns.get(1).is_none());
    assert!(conns.get(2).is_some());
}
