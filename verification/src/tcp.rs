//! The tunnel: several TCP connections over one peer link.
//!
//! A connection has an id of one byte. Between the peers go three commands:
//! open `[conn_id]`, data `[conn_id][bytes...]` and close `[conn_id]`. Close
//! ends one direction only; the other keeps flowing until it ends too.
use std::collections::HashMap;
use vstd::prelude::*;
use vstd::slice::{slice_subrange, slice_to_vec};

use crate::bytes::{append_bytes, zero_bytes};
use crate::crypto::{
    aead_opened, chacha20_keystream, ed25519_accepts, ed25519_public, x25519_of, x25519_public,
    AEAD_MAX,
};
use crate::entropy::drawn;
use crate::proto::{
    build_peer_frame, carries, client_to_server_key, decode_peer_frame, decoded_peer_frame,
    frames_open_by_header_and_packet, only_signed_packets_open, pack_inner, packed_inner, relayed_packet_decodes, routed_frame, routes_are_unmasked_headers,
    server_to_client_key, session_keys, unpack_inner, unpacked_inner, unpacking_undoes_packing,
    Identity, Peer, CMD_TCP_CLOSE, CMD_TCP_DATA, CMD_TCP_OPEN, HEADER_LEN, MIN_FRAME,
    NONCE_LEN, SIGNATURE_LEN,
};

verus! {

/// The most bytes that are read from a socket for one data command.
pub const READ_CHUNK: usize = 16384;

/// How many frames may wait for the relay.
pub const OUT_QUEUE: usize = 512;

/// How many messages may wait for one connection's socket.
pub const CONN_QUEUE: usize = 256;

// ------------------------------------------------------------------ context

/// What it takes to talk to the peer.
pub struct Ctx {
    pub me: Identity,
    pub peer: Peer,
    /// The key that masks the headers of frames to the relay.
    pub k_c2s: [u8; 32],
}

impl Ctx {
    /// Builds the frame that carries a command to the peer.
    pub fn send_peer(&self, cmd: u8, body: &[u8]) -> (frame: Vec<u8>)
        requires
            body@.len() + 3 <= AEAD_MAX,
        ensures
            carries(
                frame@,
                self.peer.id@,
                self.k_c2s@,
                &self.me,
                self.peer.x_pub@,
                packed_inner(0, cmd, body@),
            ),
            drawn(frame@.subrange(HEADER_LEN as int, HEADER_LEN + NONCE_LEN)),
    {
        let inner = pack_inner(0, cmd, body);
        build_peer_frame(&self.me, &self.peer.x_pub, &self.peer.id, &self.k_c2s, &inner)
    }
}

/// Builds the context of a session with a relay, and the key that masks the
/// headers of frames from it.
pub fn build_ctx(me: Identity, peer: Peer, server_x_pub: &[u8; 32]) -> (built: (Ctx, [u8; 32]))
    ensures
        built.0.me == me,
        built.0.peer == peer,
        built.0.k_c2s@ == client_to_server_key(x25519_of(me.x_priv@, server_x_pub@)),
        built.1@ == server_to_client_key(x25519_of(me.x_priv@, server_x_pub@)),
{
    let (k_c2s, k_s2c) = session_keys(&me, server_x_pub);
    (Ctx { me, peer, k_c2s }, k_s2c)
}

// ----------------------------------------------------------------- commands

/// A command for the peer.
pub struct Command {
    pub cmd: u8,
    pub body: Vec<u8>,
}

impl View for Command {
    type V = (u8, Seq<u8>);

    open spec fn view(&self) -> (u8, Seq<u8>) {
        (self.cmd, self.body@)
    }
}

/// Asks the peer to open its side of a connection.
pub open spec fn open_view(conn_id: u8) -> (u8, Seq<u8>) {
    (CMD_TCP_OPEN, seq![conn_id])
}

/// Gives the peer bytes of a connection.
pub open spec fn data_view(conn_id: u8, bytes: Seq<u8>) -> (u8, Seq<u8>) {
    (CMD_TCP_DATA, seq![conn_id] + bytes)
}

/// Tells the peer that this side has no more bytes for it.
pub open spec fn close_view(conn_id: u8) -> (u8, Seq<u8>) {
    (CMD_TCP_CLOSE, seq![conn_id])
}

/// The command that opens a connection.
pub fn open_command(conn_id: u8) -> (command: Command)
    ensures
        command@ == open_view(conn_id),
{
    let mut body: Vec<u8> = Vec::new();
    body.push(conn_id);
    assert(body@ =~= seq![conn_id]);
    Command { cmd: CMD_TCP_OPEN, body }
}

/// The command that carries bytes of a connection.
pub fn data_command(conn_id: u8, bytes: &[u8]) -> (command: Command)
    ensures
        command@ == data_view(conn_id, bytes@),
{
    let mut body: Vec<u8> = Vec::new();
    body.push(conn_id);
    assert(body@ =~= seq![conn_id]);
    append_bytes(&mut body, bytes);
    Command { cmd: CMD_TCP_DATA, body }
}

/// The command that closes one direction of a connection.
pub fn close_command(conn_id: u8) -> (command: Command)
    ensures
        command@ == close_view(conn_id),
{
    let mut body: Vec<u8> = Vec::new();
    body.push(conn_id);
    assert(body@ =~= seq![conn_id]);
    Command { cmd: CMD_TCP_CLOSE, body }
}

/// What a message of the peer asks for.
pub enum Order {
    /// Nothing.
    Ignore,
    /// Connect to the target, for this connection.
    Dial { conn_id: u8, target: String },
    /// Write these bytes to the connection's socket.
    Deliver { conn_id: u8, payload: Vec<u8> },
    /// Shut the write side of the connection's socket.
    HalfClose { conn_id: u8 },
}

/// What an order holds.
pub enum OrderView {
    Ignore,
    Dial { conn_id: u8, target: Seq<char> },
    Deliver { conn_id: u8, payload: Seq<u8> },
    HalfClose { conn_id: u8 },
}

impl View for Order {
    type V = OrderView;

    open spec fn view(&self) -> OrderView {
        match self {
            Order::Ignore => OrderView::Ignore,
            Order::Dial { conn_id, target } => OrderView::Dial {
                conn_id: *conn_id,
                target: target@,
            },
            Order::Deliver { conn_id, payload } => OrderView::Deliver {
                conn_id: *conn_id,
                payload: payload@,
            },
            Order::HalfClose { conn_id } => OrderView::HalfClose { conn_id: *conn_id },
        }
    }
}

/// The target, if there is one, that this end dials.
pub open spec fn target_view(target: Option<String>) -> Option<Seq<char>> {
    match target {
        Some(target) => Some(target@),
        None => None,
    }
}

/// The order that a message is. Only an end with a target opens connections; data
/// must hold bytes; every command names a connection.
pub open spec fn order_of(inner: Seq<u8>, target: Option<Seq<char>>) -> OrderView {
    match unpacked_inner(inner) {
        None => OrderView::Ignore,
        Some((cmd, body)) => if body.len() == 0 {
            OrderView::Ignore
        } else if cmd == CMD_TCP_OPEN {
            match target {
                Some(target) => OrderView::Dial { conn_id: body[0], target },
                None => OrderView::Ignore,
            }
        } else if cmd == CMD_TCP_DATA && body.len() > 1 {
            OrderView::Deliver { conn_id: body[0], payload: body.skip(1) }
        } else if cmd == CMD_TCP_CLOSE {
            OrderView::HalfClose { conn_id: body[0] }
        } else {
            OrderView::Ignore
        },
    }
}

/// Reads the order in a message of the peer.
pub fn route(inner: &[u8], dial_target: &Option<String>) -> (order: Order)
    ensures
        order@ == order_of(inner@, target_view(*dial_target)),
{
    let (cmd, body) = match unpack_inner(inner) {
        Some(parts) => parts,
        None => {
            return Order::Ignore;
        },
    };
    if body.len() == 0 {
        return Order::Ignore;
    }
    let conn_id = body[0];
    if cmd == CMD_TCP_OPEN {
        match dial_target {
            Some(target) => Order::Dial { conn_id, target: target.clone() },
            None => Order::Ignore,
        }
    } else if cmd == CMD_TCP_DATA {
        let payload = slice_subrange(body, 1, body.len());
        assert(payload@ =~= body@.skip(1));
        if payload.len() == 0 {
            return Order::Ignore;
        }
        Order::Deliver { conn_id, payload: slice_to_vec(payload) }
    } else if cmd == CMD_TCP_CLOSE {
        Order::HalfClose { conn_id }
    } else {
        Order::Ignore
    }
}

/// The order in a frame of the relay.
pub open spec fn incoming_order(
    frame: Seq<u8>,
    k_s2c: Seq<u8>,
    ctx: &Ctx,
    target: Option<Seq<char>>,
) -> OrderView {
    match decoded_peer_frame(frame, k_s2c, ctx.me.x_priv@, ctx.peer.x_pub@, ctx.peer.ed_pub@) {
        Some(inner) => order_of(inner, target),
        None => OrderView::Ignore,
    }
}

/// Opens a frame of the relay and reads the peer's order in it.
pub fn handle_incoming(
    ctx: &Ctx,
    k_s2c: &[u8; 32],
    frame: &[u8],
    dial_target: &Option<String>,
) -> (order: Order)
    ensures
        order@ == incoming_order(frame@, k_s2c@, ctx, target_view(*dial_target)),
{
    match decode_peer_frame(frame, k_s2c, &ctx.me.x_priv, &ctx.peer.x_pub, &ctx.peer.ed_pub) {
        Some(inner) => route(&inner, dial_target),
        None => Order::Ignore,
    }
}

/// Only what the peer signed is acted on.
pub proof fn only_the_peer_commands(
    frame: Seq<u8>,
    k_s2c: Seq<u8>,
    ctx: &Ctx,
    target: Option<Seq<char>>,
)
    ensures
        incoming_order(frame, k_s2c, ctx, target) != OrderView::Ignore ==> ed25519_accepts(
            ctx.peer.ed_pub@,
            frame.subrange(HEADER_LEN as int, frame.len() - SIGNATURE_LEN),
            frame.skip(frame.len() - SIGNATURE_LEN),
        ),
{
    let packet = frame.skip(HEADER_LEN as int);
    only_signed_packets_open(packet, ctx.me.x_priv@, ctx.peer.x_pub@, ctx.peer.ed_pub@);
    if frame.len() >= MIN_FRAME {
        assert(packet.take(packet.len() - SIGNATURE_LEN) =~= frame.subrange(
            HEADER_LEN as int,
            frame.len() - SIGNATURE_LEN,
        ));
        assert(packet.skip(packet.len() - SIGNATURE_LEN) =~= frame.skip(
            frame.len() - SIGNATURE_LEN,
        ));
    }
}

/// What each command of one end is to the other.
pub proof fn commands_are_understood(
    message_id: u16,
    conn_id: u8,
    bytes: Seq<u8>,
    target: Option<Seq<char>>,
)
    ensures
        order_of(
            packed_inner(message_id, open_view(conn_id).0, open_view(conn_id).1),
            target,
        ) == match target {
            Some(target) => OrderView::Dial { conn_id, target },
            None => OrderView::Ignore,
        },
        order_of(
            packed_inner(message_id, data_view(conn_id, bytes).0, data_view(conn_id, bytes).1),
            target,
        ) == if bytes.len() > 0 {
            OrderView::Deliver { conn_id, payload: bytes }
        } else {
            OrderView::Ignore
        },
        order_of(
            packed_inner(message_id, close_view(conn_id).0, close_view(conn_id).1),
            target,
        ) == (OrderView::HalfClose { conn_id }),
{
    unpacking_undoes_packing(message_id, open_view(conn_id).0, open_view(conn_id).1);
    unpacking_undoes_packing(message_id, data_view(conn_id, bytes).0, data_view(conn_id, bytes).1);
    unpacking_undoes_packing(message_id, close_view(conn_id).0, close_view(conn_id).1);
    assert(data_view(conn_id, bytes).1.skip(1) =~= bytes);
}

/// Whether two ends hold each other's public keys.
pub open spec fn know_each_other(a: &Ctx, b: &Ctx) -> bool {
    &&& a.peer.x_pub@ == x25519_public(b.me.x_priv@)
    &&& b.peer.x_pub@ == x25519_public(a.me.x_priv@)
    &&& b.peer.ed_pub@ == ed25519_public(a.me.ed@)
}

/// A command that one end sends, the other end acts on: whatever header the
/// relay puts in front of the packet, as long as it is not zero under the mask.
pub proof fn sent_command_arrives(
    sender: &Ctx,
    receiver: &Ctx,
    sent: Seq<u8>,
    cmd: u8,
    body: Seq<u8>,
    route: Seq<u8>,
    k_s2c: Seq<u8>,
    target: Option<Seq<char>>,
)
    requires
        route.len() == HEADER_LEN,
        route != zero_bytes(8),
    ensures
        know_each_other(sender, receiver) && carries(
            sent,
            sender.peer.id@,
            sender.k_c2s@,
            &sender.me,
            sender.peer.x_pub@,
            packed_inner(0, cmd, body),
        ) ==> incoming_order(
            routed_frame(route, k_s2c, sent.skip(HEADER_LEN as int)),
            k_s2c,
            receiver,
            target,
        ) == order_of(packed_inner(0, cmd, body), target),
{
    relayed_packet_decodes(
        sent,
        sender.peer.id@,
        sender.k_c2s@,
        &sender.me,
        receiver.me.x_priv@,
        packed_inner(0, cmd, body),
        route,
        k_s2c,
    );
}

// -------------------------------------------------------------- connections

/// The connections that have a writer: for each id, the handle of its queue.
pub struct ConnTable<S> {
    writers: HashMap<u8, S>,
}

impl<S> View for ConnTable<S> {
    type V = Map<u8, S>;

    closed spec fn view(&self) -> Map<u8, S> {
        self.writers@
    }
}

/// How many steps an id lies behind another, going round.
pub open spec fn steps_to(from: u8, id: u8) -> int {
    (id - from) % 256
}

/// Whether `id` is what an allocation that starts at `next` gives, and `after`
/// where the next one starts: the first id from `next` on, going round, that is
/// not taken; none when all are.
pub open spec fn allocation(taken: Set<u8>, next: u8, id: Option<u8>, after: u8) -> bool {
    match id {
        Some(id) => {
            &&& !taken.contains(id)
            &&& forall|other: u8|
                steps_to(next, other) < steps_to(next, id) ==> #[trigger] taken.contains(other)
            &&& after == (id + 1) % 256
        },
        None => {
            &&& forall|other: u8| #[trigger] taken.contains(other)
            &&& after == next
        },
    }
}

impl<S> ConnTable<S> {
    /// A table without connections.
    pub fn new() -> (table: Self)
        ensures
            table@ == Map::<u8, S>::empty(),
    {
        ConnTable { writers: HashMap::new() }
    }

    /// The writer of a connection.
    pub fn get(&self, conn_id: u8) -> (writer: Option<&S>)
        ensures
            match writer {
                Some(writer) => self@.contains_key(conn_id) && self@[conn_id] == *writer,
                None => !self@.contains_key(conn_id),
            },
    {
        broadcast use vstd::std_specs::hash::group_hash_axioms;

        self.writers.get(&conn_id)
    }

    /// Registers the writer of a connection, in place of one with the same id.
    pub fn register(&mut self, conn_id: u8, writer: S)
        ensures
            final(self)@ == old(self)@.insert(conn_id, writer),
    {
        broadcast use vstd::std_specs::hash::group_hash_axioms;

        self.writers.insert(conn_id, writer);
    }

    /// Forgets a connection, when its writer has ended; its id is free then.
    pub fn remove(&mut self, conn_id: u8)
        ensures
            final(self)@ == old(self)@.remove(conn_id),
    {
        broadcast use vstd::std_specs::hash::group_hash_axioms;

        self.writers.remove(&conn_id);
    }

    /// Allocates an id that no connection has, going round from `next`.
    pub fn alloc_conn_id(&self, next: &mut u8) -> (id: Option<u8>)
        ensures
            allocation(self@.dom(), *old(next), id, *final(next)),
    {
        broadcast use vstd::std_specs::hash::group_hash_axioms;

        let ghost start = *next;
        let mut tried: u16 = 0;
        while tried < 256
            invariant
                tried <= 256,
                start == *old(next),
                *next == (start + tried) % 256,
                forall|other: u8|
                    steps_to(start, other) < tried ==> #[trigger] self@.dom().contains(other),
            decreases 256 - tried,
        {
            let id = *next;
            *next = next.wrapping_add(1);
            assert(*next == (id + 1) % 256);
            assert(steps_to(start, id) == tried);
            if !self.writers.contains_key(&id) {
                return Some(id);
            }
            assert forall|other: u8| steps_to(start, other) < tried + 1 implies #[trigger]
                self@.dom().contains(other) by {
                if steps_to(start, other) == tried {
                    assert(other == id);
                }
            }
            tried = tried + 1;
        }
        None
    }
}

/// An id that was just handed out, and is free again, is handed out next only
/// when every other one is taken.
pub proof fn ids_go_round(
    taken: Set<u8>,
    next: u8,
    id: u8,
    after: u8,
    taken_then: Set<u8>,
    last: u8,
)
    requires
        allocation(taken, next, Some(id), after),
        allocation(taken_then, after, Some(id), last),
    ensures
        forall|other: u8| other != id ==> #[trigger] taken_then.contains(other),
{
    assert forall|other: u8| other != id implies #[trigger] taken_then.contains(other) by {
        assert(steps_to(after, id) == 255);
        assert(steps_to(after, other) < 255);
    }
}

/// An id that is registered is not handed out again: two ids that are registered
/// at the same time differ. An id is registered until its writer has ended; it is
/// free from then on, even while its reader still sends.
pub proof fn registered_ids_differ<S>(
    table: Map<u8, S>,
    next: u8,
    id: u8,
    after: u8,
    writer: S,
    second: u8,
    last: u8,
)
    requires
        allocation(table.dom(), next, Some(id), after),
        allocation(table.insert(id, writer).dom(), after, Some(second), last),
    ensures
        second != id,
        !table.contains_key(second),
{
}

// -------------------------------------------------------------------- steps

/// What is done with an order, with the writers of a table at hand.
pub enum Dispatch<'a, S> {
    /// Nothing; bytes of a connection without writer are dropped.
    Nothing,
    /// Connect to the target, for this connection.
    Dial { conn_id: u8, target: String },
    /// Hand the bytes to the connection's writer.
    Write { conn_id: u8, writer: &'a S, payload: Vec<u8> },
    /// Tell the connection's writer to shut the socket's write side.
    Shut { conn_id: u8, writer: &'a S },
}

/// Whether an order is dispatched as it should be.
pub open spec fn dispatched<S>(table: Map<u8, S>, order: OrderView, dispatch: Dispatch<S>) -> bool {
    match order {
        OrderView::Ignore => dispatch is Nothing,
        OrderView::Dial { conn_id, target } => dispatch matches Dispatch::Dial {
            conn_id: id,
            target: t,
        } && id == conn_id && t@ == target,
        OrderView::Deliver { conn_id, payload } => if table.contains_key(conn_id) {
            dispatch matches Dispatch::Write { conn_id: id, writer, payload: p } && id == conn_id
                && *writer == table[conn_id] && p@ == payload
        } else {
            dispatch is Nothing
        },
        OrderView::HalfClose { conn_id } => if table.contains_key(conn_id) {
            dispatch matches Dispatch::Shut { conn_id: id, writer } && id == conn_id && *writer
                == table[conn_id]
        } else {
            dispatch is Nothing
        },
    }
}

/// Finds the writer that an order is for. No order changes the table: a close
/// keeps the connection, whose other direction lives on.
pub fn dispatch<S>(conns: &ConnTable<S>, order: Order) -> (dispatch: Dispatch<'_, S>)
    ensures
        dispatched(conns@, order@, dispatch),
{
    match order {
        Order::Ignore => Dispatch::Nothing,
        Order::Dial { conn_id, target } => Dispatch::Dial { conn_id, target },
        Order::Deliver { conn_id, payload } => match conns.get(conn_id) {
            Some(writer) => Dispatch::Write { conn_id, writer, payload },
            None => Dispatch::Nothing,
        },
        Order::HalfClose { conn_id } => match conns.get(conn_id) {
            Some(writer) => Dispatch::Shut { conn_id, writer },
            None => Dispatch::Nothing,
        },
    }
}

/// When a writer is gone that bytes were for: forgets the connection, and gives
/// the command that stops the peer.
pub fn delivery_failed<S>(conns: &mut ConnTable<S>, conn_id: u8) -> (command: Command)
    ensures
        final(conns)@ == old(conns)@.remove(conn_id),
        command@ == close_view(conn_id),
{
    conns.remove(conn_id);
    close_command(conn_id)
}

/// When the target was dialed for a connection: nothing for the peer if that
/// worked, else the command that closes the connection.
pub fn open_outbound(conn_id: u8, dialed: bool) -> (command: Option<Command>)
    ensures
        match command {
            Some(command) => !dialed && command@ == close_view(conn_id),
            None => dialed,
        },
{
    if dialed {
        None
    } else {
        Some(close_command(conn_id))
    }
}

/// What the listening end does after waiting for a connection.
pub enum AcceptStep {
    /// Waiting failed: try again after so many milliseconds.
    Pause { millis: u64 },
    /// All ids are in use: drop the connection.
    Refuse,
    /// Send the command, then start the connection under this id.
    Open { conn_id: u8, command: Command },
}

/// Decides what the listening end does after waiting for a connection.
pub fn accept_step<S>(conns: &ConnTable<S>, next: &mut u8, accepted: bool) -> (step: AcceptStep)
    ensures
        match step {
            AcceptStep::Pause { millis } => !accepted && millis == 200 && *final(next) == *old(
                next,
            ),
            AcceptStep::Refuse => accepted && allocation(
                conns@.dom(),
                *old(next),
                None,
                *final(next),
            ),
            AcceptStep::Open { conn_id, command } => accepted && allocation(
                conns@.dom(),
                *old(next),
                Some(conn_id),
                *final(next),
            ) && command@ == open_view(conn_id),
        },
{
    if !accepted {
        return AcceptStep::Pause { millis: 200 };
    }
    match conns.alloc_conn_id(next) {
        Some(conn_id) => AcceptStep::Open { conn_id, command: open_command(conn_id) },
        None => AcceptStep::Refuse,
    }
}

/// The command for what was read from a connection's socket: data for bytes,
/// close for the end of the stream or an error.
pub open spec fn read_view(conn_id: u8, read: Option<Seq<u8>>) -> (u8, Seq<u8>) {
    match read {
        Some(bytes) => if bytes.len() > 0 {
            data_view(conn_id, bytes)
        } else {
            close_view(conn_id)
        },
        None => close_view(conn_id),
    }
}

/// What a connection's reader does.
pub enum ReaderStep {
    /// Send the command and read on.
    Forward(Command),
    /// Send the command and end.
    Finish(Command),
}

/// Decides what a reader does with what it read: `None` is an error, no bytes
/// are the end of the stream.
pub fn reader_step(conn_id: u8, read: Option<&[u8]>) -> (step: ReaderStep)
    ensures
        match step {
            ReaderStep::Forward(command) => {
                &&& read matches Some(bytes) && bytes@.len() > 0
                &&& command@ == read_view(conn_id, Some(read->0@))
            },
            ReaderStep::Finish(command) => {
                &&& read matches Some(bytes) ==> bytes@.len() == 0
                &&& command@ == close_view(conn_id)
            },
        },
{
    match read {
        Some(bytes) => {
            if bytes.len() > 0 {
                ReaderStep::Forward(data_command(conn_id, bytes))
            } else {
                ReaderStep::Finish(close_command(conn_id))
            }
        },
        None => ReaderStep::Finish(close_command(conn_id)),
    }
}

/// A message to a connection's writer.
pub enum WrMsg {
    /// Bytes for the socket.
    Data(Vec<u8>),
    /// Shut the socket's write side; the read side lives on.
    Shutdown,
}

/// What a connection's writer does.
pub enum WriterStep {
    /// Write the bytes to the socket; end if that fails.
    Write(Vec<u8>),
    /// Shut the socket's write side, forget the connection and end.
    Finish,
}

/// What a writer does with a message: it writes bytes, and ends when it is told
/// to shut or its queue ends.
pub open spec fn writer_action(message: Option<WrMsg>) -> WriterStep {
    match message {
        Some(WrMsg::Data(bytes)) => WriterStep::Write(bytes),
        _ => WriterStep::Finish,
    }
}

/// Decides what a writer does with a message; `None` is the end of its queue.
pub fn writer_step(message: Option<WrMsg>) -> (step: WriterStep)
    ensures
        step == writer_action(message),
{
    match message {
        Some(WrMsg::Data(bytes)) => WriterStep::Write(bytes),
        Some(WrMsg::Shutdown) => WriterStep::Finish,
        None => WriterStep::Finish,
    }
}

// -------------------------------------------------------------- multiplexing

/// One direction of a connection: the bytes so far, and whether more may come.
#[verifier::ext_equal]
pub struct Stream {
    pub bytes: Seq<u8>,
    pub open: bool,
}

/// What happens at the sockets of one end.
pub enum SocketEvent {
    /// A connection was accepted and got an id.
    Opened { conn_id: u8 },
    /// A connection's socket was read: bytes, none at the end, or an error.
    Read { conn_id: u8, bytes: Option<Seq<u8>> },
}

/// The command that an event sends to the other end.
pub open spec fn event_command(event: SocketEvent) -> (u8, Seq<u8>) {
    match event {
        SocketEvent::Opened { conn_id } => open_view(conn_id),
        SocketEvent::Read { conn_id, bytes } => read_view(conn_id, bytes),
    }
}

/// The commands for a sequence of events.
pub open spec fn event_commands(events: Seq<SocketEvent>) -> Seq<(u8, Seq<u8>)> {
    events.map_values(|event: SocketEvent| event_command(event))
}

/// What was read under an id since it was handed out last; a reader ends at the
/// end of its stream.
pub open spec fn stream_read(events: Seq<SocketEvent>, conn_id: u8, start: Stream) -> Stream
    decreases events.len(),
{
    if events.len() == 0 {
        start
    } else {
        let before = stream_read(events.drop_last(), conn_id, start);
        match events.last() {
            SocketEvent::Opened { conn_id: id } => if id == conn_id {
                Stream { bytes: Seq::empty(), open: true }
            } else {
                before
            },
            SocketEvent::Read { conn_id: id, bytes } => if id != conn_id || !before.open {
                before
            } else {
                match bytes {
                    Some(bytes) => if bytes.len() > 0 {
                        Stream { bytes: before.bytes + bytes, open: true }
                    } else {
                        Stream { bytes: before.bytes, open: false }
                    },
                    None => Stream { bytes: before.bytes, open: false },
                }
            },
        }
    }
}

/// What a sequence of commands tells an end to write under an id since it was
/// dialed for last; a writer ends when it is told to shut.
pub open spec fn stream_told(
    commands: Seq<(u8, Seq<u8>)>,
    target: Option<Seq<char>>,
    conn_id: u8,
    start: Stream,
) -> Stream
    decreases commands.len(),
{
    if commands.len() == 0 {
        start
    } else {
        let before = stream_told(commands.drop_last(), target, conn_id, start);
        match order_of(packed_inner(0, commands.last().0, commands.last().1), target) {
            OrderView::Ignore => before,
            OrderView::Dial { conn_id: id, target: _ } => if id == conn_id {
                Stream { bytes: Seq::empty(), open: true }
            } else {
                before
            },
            OrderView::Deliver { conn_id: id, payload } => if id == conn_id && before.open {
                Stream { bytes: before.bytes + payload, open: true }
            } else {
                before
            },
            OrderView::HalfClose { conn_id: id } => if id == conn_id {
                Stream { bytes: before.bytes, open: false }
            } else {
                before
            },
        }
    }
}

/// Whether no connection is accepted.
pub open spec fn only_reads(events: Seq<SocketEvent>) -> bool {
    forall|i: int| 0 <= i < events.len() ==> #[trigger] events[i] is Read
}

/// Ids that share the link do not mix: in whatever order the sockets of one end
/// are read, the other end is told to write under each id what was read under that
/// id, in its order and up to its end. What is read under an id counts from when
/// the id was handed out last, and an id may be handed out again once its writer
/// has ended. Only an end that dials is told of new connections.
pub proof fn streams_do_not_mix(
    events: Seq<SocketEvent>,
    target: Option<Seq<char>>,
    conn_id: u8,
    start: Stream,
)
    requires
        target is Some || only_reads(events),
    ensures
        stream_told(event_commands(events), target, conn_id, start) == stream_read(
            events,
            conn_id,
            start,
        ),
    decreases events.len(),
{
    let commands = event_commands(events);
    if events.len() > 0 {
        let front = events.drop_last();
        assert(commands.drop_last() =~= event_commands(front));
        assert(target is None ==> events[events.len() - 1] is Read);
        assert(target is None ==> only_reads(front));
        streams_do_not_mix(front, target, conn_id, start);
        match events.last() {
            SocketEvent::Opened { conn_id: id } => {
                commands_are_understood(0, id, Seq::empty(), target);
            },
            SocketEvent::Read { conn_id: id, bytes } => {
                commands_are_understood(
                    0,
                    id,
                    match bytes {
                        Some(bytes) => bytes,
                        None => Seq::empty(),
                    },
                    target,
                );
            },
        }
    }
}

/// What a writer's step makes of the stream that it writes.
pub open spec fn stream_written(before: Stream, step: WriterStep) -> Stream {
    match step {
        WriterStep::Write(bytes) => Stream { bytes: before.bytes + bytes@, open: before.open },
        WriterStep::Finish => Stream { bytes: before.bytes, open: false },
    }
}

/// Whether a table holds an id exactly while the stream is open that a sequence
/// of commands tells an end to write under it.
pub open spec fn table_follows<S>(
    table: Map<u8, S>,
    commands: Seq<(u8, Seq<u8>)>,
    target: Option<Seq<char>>,
    starts: Map<u8, Stream>,
) -> bool {
    forall|id: u8| #[trigger]
        table.contains_key(id) <==> stream_told(commands, target, id, starts[id]).open
}

/// What a dispatch makes of a table, once the target is dialed or the writer has
/// ended.
pub open spec fn table_then<S>(table: Map<u8, S>, dispatch: Dispatch<S>, dialed: S) -> Map<u8, S> {
    match dispatch {
        Dispatch::Dial { conn_id, .. } => table.insert(conn_id, dialed),
        Dispatch::Shut { conn_id, .. } => table.remove(conn_id),
        _ => table,
    }
}

/// Whether a dispatch takes the stream under an id from `before` to `after` by way
/// of the id's writer: bytes are handed to it, and it writes them behind the
/// stream; or it is told to shut, and the stream closes. A dial starts a new
/// stream. What is dispatched for another id, or not at all, changes nothing.
pub open spec fn stream_moves<S>(
    table: Map<u8, S>,
    dispatch: Dispatch<S>,
    id: u8,
    before: Stream,
    after: Stream,
) -> bool {
    match dispatch {
        Dispatch::Write { conn_id, writer, payload } if conn_id == id => {
            &&& table.contains_key(id) && *writer == table[id]
            &&& after == (Stream { bytes: before.bytes + payload@, open: true })
            &&& after == stream_written(before, writer_action(Some(WrMsg::Data(payload))))
        },
        Dispatch::Shut { conn_id, writer } if conn_id == id => {
            &&& table.contains_key(id) && *writer == table[id]
            &&& before.open && !after.open
            &&& after == stream_written(before, writer_action(Some(WrMsg::Shutdown)))
        },
        Dispatch::Dial { conn_id, .. } if conn_id == id => after == (Stream {
            bytes: Seq::empty(),
            open: true,
        }),
        _ => after == before,
    }
}

/// What a command tells an end to write reaches the socket it is for. Where the
/// table holds an id exactly while its stream is open, the stream under an id
/// grows by the bytes that its writer is handed, and closes where its writer is
/// told to shut; whatever is dispatched for one id changes the stream of no other.
/// And the table goes on to hold an id exactly while its stream is open.
pub proof fn orders_reach_their_writers<S>(
    table: Map<u8, S>,
    commands: Seq<(u8, Seq<u8>)>,
    command: (u8, Seq<u8>),
    target: Option<Seq<char>>,
    starts: Map<u8, Stream>,
    dispatch: Dispatch<S>,
    dialed: S,
)
    requires
        table_follows(table, commands, target, starts),
        dispatched(table, order_of(packed_inner(0, command.0, command.1), target), dispatch),
    ensures
        forall|id: u8|
            stream_moves(
                table,
                dispatch,
                id,
                stream_told(commands, target, id, starts[id]),
                #[trigger] stream_told(commands.push(command), target, id, starts[id]),
            ),
        table_follows(
            table_then(table, dispatch, dialed),
            commands.push(command),
            target,
            starts,
        ),
{
    let all = commands.push(command);
    assert(all.drop_last() =~= commands);
    assert(all.last() == command);
    assert forall|id: u8| #[trigger]
        table_then(table, dispatch, dialed).contains_key(id) <==> stream_told(
            all,
            target,
            id,
            starts[id],
        ).open by {
        assert(table.contains_key(id) <==> stream_told(commands, target, id, starts[id]).open);
    }
    assert forall|id: u8|
        stream_moves(
            table,
            dispatch,
            id,
            stream_told(commands, target, id, starts[id]),
            #[trigger] stream_told(all, target, id, starts[id]),
        ) by {
        assert(table.contains_key(id) <==> stream_told(commands, target, id, starts[id]).open);
    }
}

/// Something that happens at the sockets of one of two linked ends.
pub struct LinkEvent {
    /// Whether it happens at the listening end.
    pub at_home: bool,
    pub event: SocketEvent,
}

/// What happens at one of the ends.
pub open spec fn events_at(events: Seq<LinkEvent>, at_home: bool) -> Seq<SocketEvent>
    decreases events.len(),
{
    if events.len() == 0 {
        Seq::empty()
    } else {
        let before = events_at(events.drop_last(), at_home);
        if events.last().at_home == at_home {
            before.push(events.last().event)
        } else {
            before
        }
    }
}

/// A connection can be half open: when the stream that one end reads is over, or
/// breaks, that direction ends and the other keeps flowing.
pub proof fn half_close_keeps_other_direction(
    events: Seq<LinkEvent>,
    at_home: bool,
    conn_id: u8,
    ending: Option<Seq<u8>>,
    bytes: Seq<u8>,
    target: Option<Seq<char>>,
    start: Stream,
)
    requires
        ending matches Some(none) ==> none.len() == 0,
        bytes.len() > 0,
        target is Some || only_reads(events_at(events, !at_home)),
        stream_read(events_at(events, !at_home), conn_id, start).open,
    ensures
        ({
            let ended = events.push(
                LinkEvent { at_home, event: SocketEvent::Read { conn_id, bytes: ending } },
            );
            let more = ended.push(
                LinkEvent {
                    at_home: !at_home,
                    event: SocketEvent::Read { conn_id, bytes: Some(bytes) },
                },
            );
            &&& !stream_read(events_at(more, at_home), conn_id, start).open
            &&& stream_told(event_commands(events_at(more, !at_home)), target, conn_id, start) == (
            Stream {
                bytes: stream_read(events_at(events, !at_home), conn_id, start).bytes + bytes,
                open: true,
            })
        }),
{
    let end = SocketEvent::Read { conn_id, bytes: ending };
    let data = SocketEvent::Read { conn_id, bytes: Some(bytes) };
    let ended = events.push(LinkEvent { at_home, event: end });
    let more = ended.push(LinkEvent { at_home: !at_home, event: data });
    let here = events_at(events, at_home);
    let there = events_at(events, !at_home);
    assert(more.drop_last() =~= ended);
    assert(ended.drop_last() =~= events);
    reveal_with_fuel(events_at, 3);
    assert(events_at(more, at_home) == here.push(end));
    assert(events_at(more, !at_home) == there.push(data));
    assert(here.push(end).drop_last() =~= here);
    assert(there.push(data).drop_last() =~= there);
    streams_do_not_mix(there.push(data), target, conn_id, start);
}

// ---------------------------------------------------------------------- laws

/// The commands on the wire: a byte that tells them apart, then the connection's
/// id and, for data, the bytes.
pub proof fn commands_name_their_connection(conn_id: u8, bytes: Seq<u8>, command: Command)
    ensures
        open_view(conn_id) == (0x32u8, seq![conn_id]),
        data_view(conn_id, bytes) == (0x33u8, seq![conn_id] + bytes),
        close_view(conn_id) == (0x34u8, seq![conn_id]),
        command@ == (command.cmd, command.body@),
{
}

/// What was read makes a data command of all its bytes if there are any; the end
/// of the stream and an error make a close command.
pub proof fn reads_are_passed_on_whole(conn_id: u8, bytes: Seq<u8>)
    ensures
        bytes.len() > 0 ==> read_view(conn_id, Some(bytes)) == (0x33u8, seq![conn_id] + bytes),
        bytes.len() == 0 ==> read_view(conn_id, Some(bytes)) == (0x34u8, seq![conn_id]),
        read_view(conn_id, None) == (0x34u8, seq![conn_id]),
{
}

/// The order of a message by its bytes: the third one is the command, the fourth
/// the connection's id, and the others are the data. Only an end with a target
/// dials, and it dials that one. Without an id, or with data of no bytes, or with
/// any other command there is no order.
pub proof fn orders_are_read_from_the_bytes(inner: Seq<u8>, target: Option<Seq<char>>)
    ensures
        ({
            let order = order_of(inner, target);
            &&& inner.len() < 4 ==> order == OrderView::Ignore
            &&& inner.len() >= 4 && inner[2] == 0x32 ==> order == match target {
                Some(target) => OrderView::Dial { conn_id: inner[3], target },
                None => OrderView::Ignore,
            }
            &&& inner.len() == 4 && inner[2] == 0x33 ==> order == OrderView::Ignore
            &&& inner.len() > 4 && inner[2] == 0x33 ==> order == (OrderView::Deliver {
                conn_id: inner[3],
                payload: inner.skip(4),
            })
            &&& inner.len() >= 4 && inner[2] == 0x34 ==> order == (OrderView::HalfClose {
                conn_id: inner[3],
            })
            &&& inner.len() >= 4 && inner[2] != 0x32 && inner[2] != 0x33 && inner[2] != 0x34
                ==> order == OrderView::Ignore
        }),
{
    if inner.len() > 4 {
        assert(inner.skip(3).skip(1) =~= inner.skip(4));
    }
}

/// A frame gives the order of the message that it opens to by its header, the
/// peer's signature and the cipher; one that does not open gives none.
pub proof fn frames_give_the_order_they_hold(
    frame: Seq<u8>,
    k_s2c: Seq<u8>,
    ctx: &Ctx,
    target: Option<Seq<char>>,
    inner: Seq<u8>,
)
    ensures
        ({
            let opens = {
                &&& 112 <= frame.len() <= 0x3F_FFFF_FF80 + 112
                &&& ed25519_accepts(
                    ctx.peer.ed_pub@,
                    frame.subrange(8, frame.len() - 64),
                    frame.skip(frame.len() - 64),
                )
                &&& aead_opened(
                    x25519_of(ctx.me.x_priv@, ctx.peer.x_pub@),
                    frame.subrange(8, 32),
                    frame.subrange(32, frame.len() - 64),
                ) == Some(inner)
            };
            let zero = forall|i: int|
                0 <= i < 8 ==> #[trigger] frame[i] == chacha20_keystream(
                    k_s2c,
                    frame.subrange(8, 20),
                )[i];
            &&& opens && !zero ==> incoming_order(frame, k_s2c, ctx, target) == order_of(
                inner,
                target,
            )
            &&& zero && frame.len() >= 112 ==> incoming_order(frame, k_s2c, ctx, target)
                == OrderView::Ignore
            &&& decoded_peer_frame(
                frame,
                k_s2c,
                ctx.me.x_priv@,
                ctx.peer.x_pub@,
                ctx.peer.ed_pub@,
            ) is None ==> incoming_order(frame, k_s2c, ctx, target) == OrderView::Ignore
        }),
{
    frames_open_by_header_and_packet(
        frame,
        k_s2c,
        ctx.me.x_priv@,
        ctx.peer.x_pub@,
        ctx.peer.ed_pub@,
        inner,
    );
    if frame.len() >= 112 {
        routes_are_unmasked_headers(frame, k_s2c);
    }
}

/// What orders hold is what their fields hold, and so is a target.
pub proof fn orders_hold_their_fields(conn_id: u8, payload: Vec<u8>, target: String)
    ensures
        Order::Ignore@ == OrderView::Ignore,
        (Order::Dial { conn_id, target })@ == (OrderView::Dial { conn_id, target: target@ }),
        (Order::Deliver { conn_id, payload })@ == (OrderView::Deliver {
            conn_id,
            payload: payload@,
        }),
        (Order::HalfClose { conn_id })@ == (OrderView::HalfClose { conn_id }),
        target_view(Some(target)) == Some(target@),
        target_view(None) is None,
{
}

/// Going so many steps from one id, round at 256, leads to the other.
pub proof fn steps_lead_from_id_to_id(from: u8, id: u8)
    ensures
        0 <= steps_to(from, id) < 256,
        (from + steps_to(from, id)) % 256 == id,
{
}

/// An allocation takes the first free id: it is free, all that lie before it are
/// taken, and the next allocation starts behind it. There is none exactly when
/// every id is taken, and then the start stays. So an allocation has one outcome.
pub proof fn allocation_takes_the_first_free_id(
    taken: Set<u8>,
    next: u8,
    id: Option<u8>,
    after: u8,
    steps: int,
    other_id: Option<u8>,
    other_after: u8,
)
    requires
        allocation(taken, next, id, after),
        0 <= steps < 256,
    ensures
        id is None <==> forall|i: u8| #[trigger] taken.contains(i),
        id is None ==> after == next,
        id matches Some(i) ==> {
            &&& !taken.contains(i)
            &&& after == (if i == 255 { 0 } else { i + 1 })
            &&& (next + steps) % 256 == i ==> forall|k: int|
                0 <= k < steps ==> #[trigger] taken.contains(((next + k) % 256) as u8)
        },
        allocation(taken, next, other_id, other_after) ==> other_id == id && other_after == after,
{
    if let Some(i) = id {
        if (next + steps) % 256 == i {
            assert(steps_to(next, i) == steps);
            assert forall|k: int| 0 <= k < steps implies #[trigger] taken.contains(
                ((next + k) % 256) as u8,
            ) by {
                let before = ((next + k) % 256) as u8;
                assert(steps_to(next, before) == k);
            }
        }
        if allocation(taken, next, other_id, other_after) {
            if let Some(j) = other_id {
                assert(steps_to(next, i) == steps_to(next, j));
                steps_lead_from_id_to_id(next, i);
                steps_lead_from_id_to_id(next, j);
            } else {
                assert(taken.contains(i));
            }
        }
    } else if allocation(taken, next, other_id, other_after) {
        if let Some(j) = other_id {
            assert(taken.contains(j));
        }
    }
}

/// What is dispatched goes by the order and the table: bytes are written and a
/// writer is shut exactly where the order asks for it and the table has the
/// connection, and then by its writer; a dial is handed on. All else is nothing.
pub proof fn dispatch_goes_by_order_and_table<S>(
    table: Map<u8, S>,
    order: OrderView,
    dispatch: Dispatch<S>,
)
    requires
        dispatched(table, order, dispatch),
    ensures
        dispatch is Write <==> (order matches OrderView::Deliver { conn_id, .. }
            && table.contains_key(conn_id)),
        dispatch is Shut <==> (order matches OrderView::HalfClose { conn_id }
            && table.contains_key(conn_id)),
        dispatch is Dial <==> order is Dial,
        dispatch matches Dispatch::Write { conn_id, writer, payload } ==> order == (
        OrderView::Deliver { conn_id, payload: payload@ }) && *writer == table[conn_id],
        dispatch matches Dispatch::Shut { conn_id, writer } ==> order == (OrderView::HalfClose {
            conn_id,
        }) && *writer == table[conn_id],
        dispatch matches Dispatch::Dial { conn_id, target } ==> order == (OrderView::Dial {
            conn_id,
            target: target@,
        }),
{
}

/// A writer writes all bytes that it is handed, and ends when it is told to shut
/// or when its queue does.
pub proof fn writers_write_what_they_are_handed(bytes: Vec<u8>)
    ensures
        writer_action(Some(WrMsg::Data(bytes))) == WriterStep::Write(bytes),
        writer_action(Some(WrMsg::Shutdown)) == WriterStep::Finish,
        writer_action(None) == WriterStep::Finish,
{
}

} // verus!
