//! Protocol version 2: identities, sealed packets, routed frames and invites.
//!
//! A packet is `[nonce: 24][ciphertext][signature: 64]`, sealed by its sender
//! for one receiver. A frame puts in front of it a header of eight bytes, masked
//! with a keystream, that tells the relay where the packet goes; a header of
//! zeros means the relay itself.
use vstd::prelude::*;
use vstd::slice::slice_subrange;
use vstd::string::StringExecFns;
use vstd::utf8::{encode_utf8, decode_utf8, encode_utf8_decode_utf8, encode_utf8_valid_utf8, valid_utf8};

use crate::base64url::{
    base64url_decode, base64url_decoded, base64url_encode, base64url_encoded, base64url_fault,
    base64url_len, base64url_round_trip, base64url_symbol, sextet, Base64Error,
};
use crate::bytes::{
    all_zero, append_bytes, array_at, bytes_of, xor_bytes, xor_tells_bytes_apart,
    xor_undoes_itself, zero_bytes,
};
use crate::crypto::{
    aead_decrypt, aead_encrypt, aead_opened, aead_sealed, base_point, base_point_bytes, blake3_derive_key,
    blake3_derived, chacha20_apply, chacha20_keystream, ed25519_accepts, ed25519_check_key,
    ed25519_is_key, ed25519_public, ed25519_public_key, ed25519_sign, ed25519_signature,
    ed25519_verify, x25519, x25519_of, x25519_public, AEAD_MAX,
};
use crate::entropy::{drawn, fresh_nonce_24};
use crate::text::{
    chars_of, from_utf8_lossy, utf8_repaired, is_space, string_of, trim, trimmed, trimming_is_idempotent,
    utf8_lossy,
};

verus! {

/// The protocol version that a handshake announces.
pub const PROTOCOL_VERSION: u8 = 2;

/// What every invite starts with.
pub const QR_PREFIX: &'static str = "K0";

pub const CMD_HANDSHAKE_REQUEST: u8 = 0x01;

pub const CMD_HANDSHAKE_OK: u8 = 0x02;

/// Raw serial bytes, peer to peer.
pub const CMD_SERIAL_DATA: u8 = 0x30;

/// Asks the peer to open its side of a connection; body `[conn_id]`.
pub const CMD_TCP_OPEN: u8 = 0x32;

/// Bytes of a connection; body `[conn_id][bytes...]`.
pub const CMD_TCP_DATA: u8 = 0x33;

/// The sender's read side of a connection has ended; body `[conn_id]`.
pub const CMD_TCP_CLOSE: u8 = 0x34;

pub const CMD_SUBSCRIBE: u8 = 0x40;

/// The relay's word that the peer is online.
pub const CMD_PEER_ONLINE: u8 = 0x42;

pub const CMD_INTRODUCE: u8 = 0x46;

/// The relay's introduction of a sender; body `[x_pub: 32][ed_pub: 32][nick...]`.
pub const CMD_INTRO_FROM: u8 = 0x47;

/// The length of a packet's nonce.
pub const NONCE_LEN: usize = 24;

/// The length of a packet's signature.
pub const SIGNATURE_LEN: usize = 64;

/// The length of a frame's header.
pub const HEADER_LEN: usize = 8;

/// The length of a packet with an empty plaintext.
pub const MIN_PACKET: usize = 104;

/// The length of a frame around such a packet.
pub const MIN_FRAME: usize = 112;

/// The length of the longest packet that can be sealed.
pub const MAX_PACKET: u64 = AEAD_MAX + 104;

// ---------------------------------------------------------------- identities

/// A machine's own keys.
#[derive(Clone)]
pub struct Identity {
    /// The X25519 private key.
    pub x_priv: [u8; 32],
    /// The X25519 public key.
    pub x_pub: [u8; 32],
    /// The Ed25519 secret seed.
    pub ed: [u8; 32],
    /// The Ed25519 public key.
    pub ed_pub: [u8; 32],
    /// What the relay routes by: the first bytes of `x_pub`.
    pub id: [u8; 8],
}

/// A seed with the bits fixed that X25519 fixes in a private key.
pub open spec fn clamped(seed: Seq<u8>) -> Seq<u8> {
    seed.update(0, seed[0] & 248).update(31, (seed[31] & 127) | 64)
}

/// Fixing the bits a second time changes nothing.
pub proof fn clamping_is_idempotent(seed: Seq<u8>)
    requires
        seed.len() == 32,
    ensures
        clamped(clamped(seed)) == clamped(seed),
{
    let first = seed[0];
    let last = seed[31];
    assert((first & 248) & 248 == first & 248) by (bit_vector);
    assert((((last & 127) | 64) & 127) | 64 == (last & 127) | 64) by (bit_vector);
    assert(clamped(clamped(seed)) =~= clamped(seed));
}

impl Identity {
    /// The public parts belong to the private ones, and the id to the key.
    pub open spec fn wf(&self) -> bool {
        &&& self.x_pub@ == x25519_public(self.x_priv@)
        &&& self.ed_pub@ == ed25519_public(self.ed@)
        &&& ed25519_is_key(self.ed_pub@)
        &&& self.id@ == self.x_pub@.take(8)
    }

    /// The identity that two secret seeds make.
    pub fn from_seeds(x_seed: [u8; 32], ed_seed: [u8; 32]) -> (me: Self)
        ensures
            me.wf(),
            me.x_priv@ == clamped(x_seed@),
            me.ed@ == ed_seed@,
            me.x_pub@ == x25519_of(me.x_priv@, base_point_bytes()),
            me.ed_pub@ == ed25519_public(ed_seed@),
            me.id@ == me.x_pub@.take(8),
    {
        let mut x_priv = x_seed;
        x_priv[0] = x_priv[0] & 248;
        x_priv[31] = x_priv[31] & 127;
        x_priv[31] = x_priv[31] | 64;
        assert(x_priv@ =~= clamped(x_seed@));
        let x_pub = x25519(&x_priv, &base_point());
        let ed_pub = ed25519_public_key(&ed_seed);
        let id = array_at::<8>(&x_pub, 0);
        assert(id@ =~= x_pub@.take(8));
        Identity { x_priv, x_pub, ed: ed_seed, ed_pub, id }
    }
}

// ------------------------------------------------------------- session keys

/// The key that masks headers on the way from the client to the relay.
pub open spec fn client_to_server_key(shared: Seq<u8>) -> Seq<u8> {
    blake3_derived("ws.lleo.me v2 route c2s"@, shared)
}

/// The key that masks headers on the way from the relay to the client.
pub open spec fn server_to_client_key(shared: Seq<u8>) -> Seq<u8> {
    blake3_derived("ws.lleo.me v2 route s2c"@, shared)
}

/// Derives the two header keys of a session from its shared secret: client to
/// server first, then server to client.
pub fn derive_session(shared: &[u8; 32]) -> (keys: ([u8; 32], [u8; 32]))
    ensures
        keys.0@ == client_to_server_key(shared@),
        keys.1@ == server_to_client_key(shared@),
{
    let k_c2s = blake3_derive_key("ws.lleo.me v2 route c2s", shared);
    let k_s2c = blake3_derive_key("ws.lleo.me v2 route s2c", shared);
    (k_c2s, k_s2c)
}

/// The header keys of the session between `me` and a relay.
pub fn session_keys(me: &Identity, server_x_pub: &[u8; 32]) -> (keys: ([u8; 32], [u8; 32]))
    ensures
        ({
            let shared = x25519_of(me.x_priv@, server_x_pub@);
            &&& keys.0@ == client_to_server_key(shared)
            &&& keys.1@ == server_to_client_key(shared)
        }),
        // The relay, from its own private key, derives the same two keys.
        forall|server_x_priv: Seq<u8>|
            server_x_priv.len() == 32 && server_x_pub@ == x25519_public(
                server_x_priv,
            ) ==> {
                let shared = #[trigger] x25519_of(
                    server_x_priv,
                    x25519_public(me.x_priv@),
                );
                &&& keys.0@ == client_to_server_key(shared)
                &&& keys.1@ == server_to_client_key(shared)
            },
{
    let shared = x25519(&me.x_priv, server_x_pub);
    derive_session(&shared)
}

// ---------------------------------------------------------- inner messages

/// A message before it is sealed: its id, low byte first, a command, a body.
pub open spec fn packed_inner(message_id: u16, cmd: u8, body: Seq<u8>) -> Seq<u8> {
    seq![(message_id % 256) as u8, (message_id / 256) as u8, cmd] + body
}

/// The command and the body of a message.
pub open spec fn unpacked_inner(inner: Seq<u8>) -> Option<(u8, Seq<u8>)> {
    if inner.len() < 3 {
        None
    } else {
        Some((inner[2], inner.skip(3)))
    }
}

/// Unpacking a packed message gives its command and body back.
pub proof fn unpacking_undoes_packing(message_id: u16, cmd: u8, body: Seq<u8>)
    ensures
        unpacked_inner(packed_inner(message_id, cmd, body)) == Some((cmd, body)),
{
    assert(packed_inner(message_id, cmd, body).skip(3) =~= body);
}

/// Packs a message.
pub fn pack_inner(message_id: u16, cmd: u8, body: &[u8]) -> (inner: Vec<u8>)
    ensures
        inner@ == packed_inner(message_id, cmd, body@),
        inner@.len() == body@.len() + 3,
        inner@[0] + 256 * inner@[1] == message_id,
        inner@[2] == cmd,
        inner@.skip(3) == body@,
{
    let mut inner: Vec<u8> = Vec::new();
    inner.push((message_id % 256) as u8);
    inner.push((message_id / 256) as u8);
    inner.push(cmd);
    assert(inner@ =~= seq![(message_id % 256) as u8, (message_id / 256) as u8, cmd]);
    append_bytes(&mut inner, body);
    assert(inner@.skip(3) =~= body@);
    inner
}

/// Unpacks a message; one shorter than its fixed part is none.
pub fn unpack_inner(inner: &[u8]) -> (parts: Option<(u8, &[u8])>)
    ensures
        match parts {
            Some((cmd, body)) => unpacked_inner(inner@) == Some((cmd, body@)),
            None => unpacked_inner(inner@) is None,
        },
{
    if inner.len() < 3 {
        return None;
    }
    let body = slice_subrange(inner, 3, inner.len());
    assert(body@ =~= inner@.skip(3));
    Some((inner[2], body))
}

// ------------------------------------------------------------------ packets

/// The packet of a plaintext, sealed with a nonce for the owner of `their_x_pub`.
pub open spec fn sealed_packet(
    nonce: Seq<u8>,
    plain: Seq<u8>,
    my_x_priv: Seq<u8>,
    my_ed: Seq<u8>,
    their_x_pub: Seq<u8>,
) -> Seq<u8> {
    let shared = x25519_of(my_x_priv, their_x_pub);
    let signed = nonce + aead_sealed(shared, nonce, plain);
    signed + ed25519_signature(my_ed, signed)
}

/// The plaintext of a packet, if its sender signed and sealed it. What is shorter
/// or longer than any sealed packet opens to nothing.
pub open spec fn opened_packet(
    packet: Seq<u8>,
    my_x_priv: Seq<u8>,
    their_x_pub: Seq<u8>,
    their_ed_pub: Seq<u8>,
) -> Option<Seq<u8>> {
    if packet.len() < MIN_PACKET || packet.len() > MAX_PACKET {
        None
    } else {
        let signed = packet.take(packet.len() - SIGNATURE_LEN);
        let signature = packet.skip(packet.len() - SIGNATURE_LEN);
        if ed25519_accepts(their_ed_pub, signed, signature) {
            aead_opened(
                x25519_of(my_x_priv, their_x_pub),
                signed.take(NONCE_LEN as int),
                signed.skip(NONCE_LEN as int),
            )
        } else {
            None
        }
    }
}

/// Whether a packet ends in a good signature, under the public key of the seed
/// `ed`, of what stands before it.
pub open spec fn signed_by(packet: Seq<u8>, ed: Seq<u8>) -> bool {
    ed25519_accepts(
        ed25519_public(ed),
        packet.take(packet.len() - SIGNATURE_LEN),
        packet.skip(packet.len() - SIGNATURE_LEN),
    )
}

/// Whether a packet is made of its nonce, the ciphertext of `plain` under that
/// nonce and the secret of the two keys, and the signature of both.
pub open spec fn is_sealed(
    packet: Seq<u8>,
    plain: Seq<u8>,
    my_x_priv: Seq<u8>,
    my_ed: Seq<u8>,
    their_x_pub: Seq<u8>,
) -> bool {
    let cut = packet.len() - SIGNATURE_LEN;
    &&& packet.len() == plain.len() + MIN_PACKET
    &&& packet.subrange(NONCE_LEN as int, cut) == aead_sealed(
        x25519_of(my_x_priv, their_x_pub),
        packet.take(NONCE_LEN as int),
        plain,
    )
    &&& packet.skip(cut) == ed25519_signature(my_ed, packet.take(cut))
}

/// Whether every owner of the private key behind `their_x_pub` opens the packet
/// of the holder of `my_x_priv` and `my_ed`, and finds `plain` in it.
pub open spec fn opens_for_receiver(
    packet: Seq<u8>,
    plain: Seq<u8>,
    my_x_priv: Seq<u8>,
    my_ed: Seq<u8>,
    their_x_pub: Seq<u8>,
) -> bool {
    forall|their_x_priv: Seq<u8>|
        their_x_priv.len() == 32 && their_x_pub == x25519_public(their_x_priv)
            ==> #[trigger] opened_packet(
            packet,
            their_x_priv,
            x25519_public(my_x_priv),
            ed25519_public(my_ed),
        ) == Some(plain)
}

/// Only what the sender signed opens.
pub proof fn only_signed_packets_open(
    packet: Seq<u8>,
    my_x_priv: Seq<u8>,
    their_x_pub: Seq<u8>,
    their_ed_pub: Seq<u8>,
)
    ensures
        opened_packet(packet, my_x_priv, their_x_pub, their_ed_pub) is Some ==> ed25519_accepts(
            their_ed_pub,
            packet.take(packet.len() - SIGNATURE_LEN),
            packet.skip(packet.len() - SIGNATURE_LEN),
        ),
{
}

/// The parts of a packet.
pub struct PacketParts<'a> {
    /// What the signature is of: the nonce and the ciphertext.
    pub signed: &'a [u8],
    pub nonce: [u8; 24],
    pub sealed: &'a [u8],
    pub signature: [u8; 64],
}

/// Splits a packet; bytes too short for one have no parts.
pub fn packet_parts<'a>(packet: &'a [u8]) -> (parts: Option<PacketParts<'a>>)
    ensures
        parts is Some <==> packet@.len() >= MIN_PACKET,
        parts matches Some(p) ==> {
            &&& packet@ == p.nonce@ + p.sealed@ + p.signature@
            &&& p.signed@ == p.nonce@ + p.sealed@
        },
{
    if packet.len() < MIN_PACKET {
        return None;
    }
    let cut = packet.len() - SIGNATURE_LEN;
    let signed = slice_subrange(packet, 0, cut);
    let nonce = array_at::<24>(packet, 0);
    let sealed = slice_subrange(packet, NONCE_LEN, cut);
    let signature = array_at::<64>(packet, cut);
    assert(signed@ =~= nonce@ + sealed@);
    assert(packet@ =~= nonce@ + sealed@ + signature@);
    Some(PacketParts { signed, nonce, sealed, signature })
}

/// Seals a plaintext with a given nonce.
pub fn encrypt_and_sign_with(
    nonce: &[u8; 24],
    plain: &[u8],
    my_x_priv: &[u8; 32],
    my_ed: &[u8; 32],
    their_x_pub: &[u8; 32],
) -> (packet: Vec<u8>)
    requires
        plain@.len() <= AEAD_MAX,
    ensures
        packet@ == sealed_packet(nonce@, plain@, my_x_priv@, my_ed@, their_x_pub@),
        packet@.len() == plain@.len() + MIN_PACKET,
        packet@.take(NONCE_LEN as int) == nonce@,
        is_sealed(packet@, plain@, my_x_priv@, my_ed@, their_x_pub@),
        packet@.subrange(24, packet@.len() - 64) == aead_sealed(
            x25519_of(my_x_priv@, their_x_pub@),
            nonce@,
            plain@,
        ),
        signed_by(packet@, my_ed@),
        opens_for_receiver(packet@, plain@, my_x_priv@, my_ed@, their_x_pub@),
{
    let shared = x25519(my_x_priv, their_x_pub);
    let sealed = aead_encrypt(&shared, nonce, plain);
    let mut packet: Vec<u8> = Vec::new();
    append_bytes(&mut packet, nonce);
    append_bytes(&mut packet, &sealed);
    let ghost signed = packet@;
    assert(signed =~= nonce@ + sealed@);
    let signature = ed25519_sign(my_ed, &packet);
    append_bytes(&mut packet, &signature);
    proof {
        assert(packet@.take(packet@.len() - SIGNATURE_LEN) =~= signed);
        assert(packet@.skip(packet@.len() - SIGNATURE_LEN) =~= signature@);
        assert(signed.take(NONCE_LEN as int) =~= nonce@);
        assert(signed.skip(NONCE_LEN as int) =~= sealed@);
        assert(packet@.take(NONCE_LEN as int) =~= nonce@);
        assert(packet@.subrange(24, packet@.len() - 64) =~= sealed@);
        assert forall|their_x_priv: Seq<u8>|
            their_x_priv.len() == 32 && their_x_pub@ == x25519_public(
                their_x_priv,
            ) implies #[trigger] opened_packet(
            packet@,
            their_x_priv,
            x25519_public(my_x_priv@),
            ed25519_public(my_ed@),
        ) == Some(plain@) by {
            assert(x25519_of(
                their_x_priv,
                x25519_public(my_x_priv@),
            ) == shared@);
        }
    }
    packet
}

/// Seals a plaintext for the owner of `their_x_pub`, with a nonce that the
/// operating system drew at random.
pub fn encrypt_and_sign(
    plain: &[u8],
    my_x_priv: &[u8; 32],
    my_ed: &[u8; 32],
    their_x_pub: &[u8; 32],
) -> (packet: Vec<u8>)
    requires
        plain@.len() <= AEAD_MAX,
    ensures
        packet@ == sealed_packet(
            packet@.take(NONCE_LEN as int),
            plain@,
            my_x_priv@,
            my_ed@,
            their_x_pub@,
        ),
        drawn(packet@.take(NONCE_LEN as int)),
        packet@.len() == plain@.len() + MIN_PACKET,
        is_sealed(packet@, plain@, my_x_priv@, my_ed@, their_x_pub@),
        packet@.subrange(24, packet@.len() - 64) == aead_sealed(
            x25519_of(my_x_priv@, their_x_pub@),
            packet@.take(24),
            plain@,
        ),
        signed_by(packet@, my_ed@),
        opens_for_receiver(packet@, plain@, my_x_priv@, my_ed@, their_x_pub@),
{
    let nonce = fresh_nonce_24();
    encrypt_and_sign_with(&nonce, plain, my_x_priv, my_ed, their_x_pub)
}

/// Opens a packet: checks the sender's signature, then decrypts.
pub fn verify_and_decrypt(
    packet: &[u8],
    my_x_priv: &[u8; 32],
    their_x_pub: &[u8; 32],
    their_ed_pub: &[u8; 32],
) -> (plain: Option<Vec<u8>>)
    ensures
        bytes_of(plain) == opened_packet(
            packet@,
            my_x_priv@,
            their_x_pub@,
            their_ed_pub@,
        ),
        plain matches Some(p) ==> packet@.len() == p@.len() + MIN_PACKET,
{
    if packet.len() as u64 > MAX_PACKET {
        return None;
    }
    let parts = match packet_parts(packet) {
        Some(parts) => parts,
        None => {
            return None;
        },
    };
    proof {
        assert(packet@.take(packet@.len() - SIGNATURE_LEN) =~= parts.signed@);
        assert(packet@.skip(packet@.len() - SIGNATURE_LEN) =~= parts.signature@);
        assert(parts.signed@.take(NONCE_LEN as int) =~= parts.nonce@);
        assert(parts.signed@.skip(NONCE_LEN as int) =~= parts.sealed@);
    }
    if !ed25519_verify(their_ed_pub, parts.signed, &parts.signature) {
        return None;
    }
    let shared = x25519(my_x_priv, their_x_pub);
    aead_decrypt(&shared, &parts.nonce, parts.sealed)
}

// ------------------------------------------------------------------- frames

/// The bytes that mask the header of a frame whose packet has this nonce.
pub open spec fn header_mask(key: Seq<u8>, nonce: Seq<u8>) -> Seq<u8> {
    chacha20_keystream(key, nonce.take(12))
}

/// Masks a header, or takes the mask off again.
pub fn xor_header(key: &[u8; 32], nonce_24: &[u8; 24], h: &mut [u8; 8])
    ensures
        final(h)@ == xor_bytes(old(h)@, header_mask(key@, nonce_24@)),
        forall|i: int|
            0 <= i < 8 ==> #[trigger] final(h)@[i] == old(h)@[i] ^ chacha20_keystream(
                key@,
                nonce_24@.take(12),
            )[i],
{
    let nonce_12 = array_at::<12>(nonce_24, 0);
    assert(nonce_12@ =~= nonce_24@.take(12));
    chacha20_apply(key, &nonce_12, h);
}

/// Masking a header twice under one key and nonce gives the header back.
pub proof fn header_mask_undoes_itself(key: Seq<u8>, nonce: Seq<u8>, header: Seq<u8>)
    ensures
        xor_bytes(xor_bytes(header, header_mask(key, nonce)), header_mask(key, nonce)) == header,
{
    xor_undoes_itself(header, header_mask(key, nonce));
}

/// A packet behind the masked header that routes it.
pub open spec fn routed_frame(route: Seq<u8>, key: Seq<u8>, packet: Seq<u8>) -> Seq<u8> {
    xor_bytes(route, header_mask(key, packet.take(NONCE_LEN as int))) + packet
}

/// Where a frame goes: its header without the mask.
pub open spec fn frame_route(frame: Seq<u8>, key: Seq<u8>) -> Seq<u8> {
    xor_bytes(
        frame.take(HEADER_LEN as int),
        header_mask(key, frame.subrange(HEADER_LEN as int, HEADER_LEN + NONCE_LEN)),
    )
}

/// Who knows the key reads the route of a frame back, and finds its packet
/// behind the header.
pub proof fn route_is_read_back(route: Seq<u8>, key: Seq<u8>, packet: Seq<u8>)
    requires
        route.len() == HEADER_LEN,
        packet.len() >= NONCE_LEN,
    ensures
        frame_route(routed_frame(route, key, packet), key) == route,
        routed_frame(route, key, packet).skip(HEADER_LEN as int) == packet,
{
    let frame = routed_frame(route, key, packet);
    let mask = header_mask(key, packet.take(NONCE_LEN as int));
    assert(frame.take(HEADER_LEN as int) =~= xor_bytes(route, mask));
    assert(frame.subrange(HEADER_LEN as int, HEADER_LEN + NONCE_LEN) =~= packet.take(
        NONCE_LEN as int,
    ));
    assert(frame.skip(HEADER_LEN as int) =~= packet);
    xor_undoes_itself(route, mask);
}

/// Puts a masked header in front of a packet.
pub fn route_packet(route: &[u8; 8], key: &[u8; 32], packet: &[u8]) -> (frame: Vec<u8>)
    requires
        packet@.len() >= NONCE_LEN,
    ensures
        frame@ == routed_frame(route@, key@, packet@),
{
    let nonce_24 = array_at::<24>(packet, 0);
    assert(nonce_24@ =~= packet@.take(NONCE_LEN as int));
    let mut header: [u8; 8] = *route;
    xor_header(key, &nonce_24, &mut header);
    let mut frame: Vec<u8> = Vec::new();
    append_bytes(&mut frame, &header);
    append_bytes(&mut frame, packet);
    assert(frame@ =~= routed_frame(route@, key@, packet@));
    frame
}

/// The message of a handshake request.
pub open spec fn handshake_inner(ed_pub: Seq<u8>) -> Seq<u8> {
    packed_inner(0, CMD_HANDSHAKE_REQUEST, ed_pub.push(PROTOCOL_VERSION))
}

/// Builds the first frame of a session: the client's public key, in the clear,
/// and a packet for the relay with the client's signing key and the version.
pub fn build_handshake_request(me: &Identity, server_x_pub: &[u8; 32]) -> (frame: Vec<u8>)
    ensures
        frame@.len() == 32 + MIN_PACKET + 36,
        frame@.take(32) == me.x_pub@,
        drawn(frame@.subrange(32, 32 + NONCE_LEN)),
        frame@.skip(32) == sealed_packet(
            frame@.subrange(32, 32 + NONCE_LEN),
            handshake_inner(me.ed_pub@),
            me.x_priv@,
            me.ed@,
            server_x_pub@,
        ),
        signed_by(frame@.skip(32), me.ed@),
        is_sealed(
            frame@.skip(32),
            handshake_inner(me.ed_pub@),
            me.x_priv@,
            me.ed@,
            server_x_pub@,
        ),
        opens_for_receiver(
            frame@.skip(32),
            handshake_inner(me.ed_pub@),
            me.x_priv@,
            me.ed@,
            server_x_pub@,
        ),
{
    let mut body: Vec<u8> = Vec::new();
    append_bytes(&mut body, &me.ed_pub);
    body.push(PROTOCOL_VERSION);
    assert(body@ =~= me.ed_pub@.push(PROTOCOL_VERSION));
    let inner = pack_inner(0, CMD_HANDSHAKE_REQUEST, &body);
    let packet = encrypt_and_sign(&inner, &me.x_priv, &me.ed, server_x_pub);
    let mut frame: Vec<u8> = Vec::new();
    append_bytes(&mut frame, &me.x_pub);
    append_bytes(&mut frame, &packet);
    assert(frame@.take(32) =~= me.x_pub@);
    assert(frame@.skip(32) =~= packet@);
    assert(frame@.subrange(32, 32 + NONCE_LEN) =~= packet@.take(NONCE_LEN as int));
    frame
}

/// Whether a frame carries `inner`, sealed by `me` for the owner of
/// `their_x_pub`, along `route`.
pub open spec fn carries(
    frame: Seq<u8>,
    route: Seq<u8>,
    key: Seq<u8>,
    me: &Identity,
    their_x_pub: Seq<u8>,
    inner: Seq<u8>,
) -> bool {
    let packet = frame.skip(HEADER_LEN as int);
    &&& frame.len() == inner.len() + MIN_FRAME
    &&& packet == sealed_packet(
        packet.take(NONCE_LEN as int),
        inner,
        me.x_priv@,
        me.ed@,
        their_x_pub,
    )
    &&& frame == routed_frame(route, key, packet)
    &&& frame_route(frame, key) == route
    &&& signed_by(packet, me.ed@)
    &&& is_sealed(packet, inner, me.x_priv@, me.ed@, their_x_pub)
    &&& opens_for_receiver(packet, inner, me.x_priv@, me.ed@, their_x_pub)
}

/// Builds a frame that the relay routes to a peer.
pub fn build_peer_frame(
    me: &Identity,
    peer_x_pub: &[u8; 32],
    peer_id: &[u8; 8],
    k_c2s: &[u8; 32],
    inner: &[u8],
) -> (frame: Vec<u8>)
    requires
        inner@.len() <= AEAD_MAX,
    ensures
        carries(frame@, peer_id@, k_c2s@, me, peer_x_pub@, inner@),
        drawn(frame@.subrange(HEADER_LEN as int, HEADER_LEN + NONCE_LEN)),
{
    let packet = encrypt_and_sign(inner, &me.x_priv, &me.ed, peer_x_pub);
    proof {
        route_is_read_back(peer_id@, k_c2s@, packet@);
        assert(routed_frame(peer_id@, k_c2s@, packet@).subrange(
            HEADER_LEN as int,
            HEADER_LEN + NONCE_LEN,
        ) =~= packet@.take(NONCE_LEN as int));
    }
    route_packet(peer_id, k_c2s, &packet)
}

/// Builds a frame for the relay itself: its header is zero under the mask.
pub fn build_server_bound(
    me: &Identity,
    server_x_pub: &[u8; 32],
    k_c2s: &[u8; 32],
    inner: &[u8],
) -> (frame: Vec<u8>)
    requires
        inner@.len() <= AEAD_MAX,
    ensures
        carries(frame@, zero_bytes(8), k_c2s@, me, server_x_pub@, inner@),
        drawn(frame@.subrange(HEADER_LEN as int, HEADER_LEN + NONCE_LEN)),
{
    let packet = encrypt_and_sign(inner, &me.x_priv, &me.ed, server_x_pub);
    let route: [u8; 8] = [0u8;8];
    assert(route@ =~= zero_bytes(8));
    proof {
        route_is_read_back(route@, k_c2s@, packet@);
        assert(routed_frame(route@, k_c2s@, packet@).subrange(
            HEADER_LEN as int,
            HEADER_LEN + NONCE_LEN,
        ) =~= packet@.take(NONCE_LEN as int));
    }
    route_packet(&route, k_c2s, &packet)
}

/// The message of a frame that the relay itself sent.
pub open spec fn decoded_server_frame(
    frame: Seq<u8>,
    k_s2c: Seq<u8>,
    my_x_priv: Seq<u8>,
    server_x_pub: Seq<u8>,
    server_ed: Seq<u8>,
) -> Option<Seq<u8>> {
    if frame.len() < MIN_FRAME || frame_route(frame, k_s2c) != zero_bytes(8) {
        None
    } else {
        opened_packet(frame.skip(HEADER_LEN as int), my_x_priv, server_x_pub, server_ed)
    }
}

/// What one end builds for the relay, an end that holds the relay's keys reads:
/// a frame with a zero header opens to its message.
pub proof fn zero_routed_frame_decodes(
    frame: Seq<u8>,
    key: Seq<u8>,
    sender: &Identity,
    receiver_x_priv: Seq<u8>,
    inner: Seq<u8>,
)
    requires
        receiver_x_priv.len() == 32,
    ensures
        carries(frame, zero_bytes(8), key, sender, x25519_public(receiver_x_priv), inner)
            ==> decoded_server_frame(
            frame,
            key,
            receiver_x_priv,
            x25519_public(sender.x_priv@),
            ed25519_public(sender.ed@),
        ) == Some(inner),
{
}

/// Takes the mask off a frame's header.
fn unmasked_header(frame: &[u8], key: &[u8; 32]) -> (header: [u8; 8])
    requires
        frame@.len() >= MIN_FRAME,
    ensures
        header@ == frame_route(frame@, key@),
{
    let nonce_24 = array_at::<24>(frame, HEADER_LEN);
    let mut header = array_at::<8>(frame, 0);
    assert(header@ =~= frame@.take(HEADER_LEN as int));
    xor_header(key, &nonce_24, &mut header);
    header
}

/// Opens a frame that the relay itself sent; others give nothing.
pub fn decode_server_frame(
    frame: &[u8],
    k_s2c: &[u8; 32],
    my_x_priv: &[u8; 32],
    server_x_pub: &[u8; 32],
    server_ed: &[u8; 32],
) -> (inner: Option<Vec<u8>>)
    ensures
        bytes_of(inner) == decoded_server_frame(
            frame@,
            k_s2c@,
            my_x_priv@,
            server_x_pub@,
            server_ed@,
        ),
        inner matches Some(i) ==> frame@.len() == i@.len() + MIN_FRAME,
{
    if frame.len() < MIN_FRAME {
        return None;
    }
    let header = unmasked_header(frame, k_s2c);
    if !all_zero(&header) {
        return None;
    }
    let packet = slice_subrange(frame, HEADER_LEN, frame.len());
    assert(packet@ =~= frame@.skip(HEADER_LEN as int));
    verify_and_decrypt(packet, my_x_priv, server_x_pub, server_ed)
}

/// The message of a frame that came from a peer by way of the relay.
pub open spec fn decoded_peer_frame(
    frame: Seq<u8>,
    k_s2c: Seq<u8>,
    my_x_priv: Seq<u8>,
    peer_x_pub: Seq<u8>,
    peer_ed_pub: Seq<u8>,
) -> Option<Seq<u8>> {
    if frame.len() < MIN_FRAME || frame_route(frame, k_s2c) == zero_bytes(8) {
        None
    } else {
        opened_packet(frame.skip(HEADER_LEN as int), my_x_priv, peer_x_pub, peer_ed_pub)
    }
}

/// Opens a frame that came from a peer; frames of the relay itself give nothing.
pub fn decode_peer_frame(
    frame: &[u8],
    k_s2c: &[u8; 32],
    my_x_priv: &[u8; 32],
    peer_x_pub: &[u8; 32],
    peer_ed_pub: &[u8; 32],
) -> (inner: Option<Vec<u8>>)
    ensures
        bytes_of(inner) == decoded_peer_frame(
            frame@,
            k_s2c@,
            my_x_priv@,
            peer_x_pub@,
            peer_ed_pub@,
        ),
        inner matches Some(i) ==> frame@.len() == i@.len() + MIN_FRAME,
{
    if frame.len() < MIN_FRAME {
        return None;
    }
    let header = unmasked_header(frame, k_s2c);
    if all_zero(&header) {
        return None;
    }
    let packet = slice_subrange(frame, HEADER_LEN, frame.len());
    assert(packet@ =~= frame@.skip(HEADER_LEN as int));
    verify_and_decrypt(packet, my_x_priv, peer_x_pub, peer_ed_pub)
}

/// No frame is both the relay's own and a peer's.
pub proof fn server_and_peer_frames_differ(
    frame: Seq<u8>,
    k_s2c: Seq<u8>,
    my_x_priv: Seq<u8>,
    x_pub: Seq<u8>,
    ed_pub: Seq<u8>,
)
    ensures
        decoded_server_frame(frame, k_s2c, my_x_priv, x_pub, ed_pub) is None || decoded_peer_frame(
            frame,
            k_s2c,
            my_x_priv,
            x_pub,
            ed_pub,
        ) is None,
{
}

/// A packet that one end sealed for the other arrives: behind whatever header
/// the relay puts in front of it, as long as that is not zero under the mask,
/// it opens to the message that was sealed.
pub proof fn relayed_packet_decodes(
    sent: Seq<u8>,
    peer_id: Seq<u8>,
    k_c2s: Seq<u8>,
    sender: &Identity,
    receiver_x_priv: Seq<u8>,
    inner: Seq<u8>,
    route: Seq<u8>,
    k_s2c: Seq<u8>,
)
    requires
        receiver_x_priv.len() == 32,
        route.len() == HEADER_LEN,
        route != zero_bytes(8),
    ensures
        carries(sent, peer_id, k_c2s, sender, x25519_public(receiver_x_priv), inner)
            ==> decoded_peer_frame(
            routed_frame(route, k_s2c, sent.skip(HEADER_LEN as int)),
            k_s2c,
            receiver_x_priv,
            x25519_public(sender.x_priv@),
            ed25519_public(sender.ed@),
        ) == Some(inner),
{
    let packet = sent.skip(HEADER_LEN as int);
    if carries(sent, peer_id, k_c2s, sender, x25519_public(receiver_x_priv), inner) {
        route_is_read_back(route, k_s2c, packet);
        assert(opened_packet(
            packet,
            receiver_x_priv,
            x25519_public(sender.x_priv@),
            ed25519_public(sender.ed@),
        ) == Some(inner));
    }
}

// ------------------------------------------------------------------ invites

/// A peer's public keys.
pub struct Peer {
    /// The X25519 public key.
    pub x_pub: [u8; 32],
    /// The Ed25519 public key.
    pub ed_pub: [u8; 32],
    /// What the relay routes by: the first bytes of `x_pub`.
    pub id: [u8; 8],
    pub nick: String,
}

/// What a peer holds.
#[verifier::ext_equal]
pub struct PeerView {
    pub x_pub: Seq<u8>,
    pub ed_pub: Seq<u8>,
    pub id: Seq<u8>,
    pub nick: Seq<char>,
}

impl View for Peer {
    type V = PeerView;

    open spec fn view(&self) -> PeerView {
        PeerView {
            x_pub: self.x_pub@,
            ed_pub: self.ed_pub@,
            id: self.id@,
            nick: self.nick@,
        }
    }
}

/// Why an introduction names no peer.
#[derive(Clone, Copy, Debug, PartialEq, Eq, Structural)]
pub enum IntroError {
    /// It has no room for two keys.
    TooShort,
    /// Its second key is no Ed25519 public key.
    BadKey,
}

/// Why an invite names no peer.
#[derive(Clone, Copy, Debug, PartialEq, Eq, Structural)]
pub enum InviteError {
    /// It does not start with `QR_PREFIX`.
    BadPrefix,
    /// What follows the prefix is not base64.
    Base64(Base64Error),
    /// It has no room for two keys.
    TooShort,
    /// Its second key is no Ed25519 public key.
    BadKey,
}

/// What a decoder gives, as the model of its peer.
pub open spec fn peer_result<E>(peer: Result<Peer, E>) -> Result<PeerView, E> {
    match peer {
        Ok(peer) => Ok(peer@),
        Err(error) => Err(error),
    }
}

/// The peer of a body `[x_pub: 32][ed_pub: 32][nick...]`.
pub open spec fn decoded_intro(body: Seq<u8>) -> Result<PeerView, IntroError> {
    if body.len() < 64 {
        Err(IntroError::TooShort)
    } else if !ed25519_is_key(body.subrange(32, 64)) {
        Err(IntroError::BadKey)
    } else {
        Ok(
            PeerView {
                x_pub: body.take(32),
                ed_pub: body.subrange(32, 64),
                id: body.take(8),
                nick: utf8_lossy(body.skip(64)),
            },
        )
    }
}

/// The peer of an invite, that is of the prefix and the base64 of such a body,
/// with or without white space around it.
pub open spec fn decoded_invite(invite: Seq<char>) -> Result<PeerView, InviteError> {
    let inner = trimmed(invite);
    if inner.len() < 2 || inner[0] != 'K' || inner[1] != '0' {
        Err(InviteError::BadPrefix)
    } else {
        match base64url_decoded(inner.skip(2)) {
            None => Err(InviteError::Base64(base64url_fault(inner.skip(2)))),
            Some(body) => match decoded_intro(body) {
                Ok(peer) => Ok(peer),
                Err(IntroError::TooShort) => Err(InviteError::TooShort),
                Err(IntroError::BadKey) => Err(InviteError::BadKey),
            },
        }
    }
}

/// The invite of two keys and a nick.
pub open spec fn invite_text(x_pub: Seq<u8>, ed_pub: Seq<u8>, nick: Seq<char>) -> Seq<char> {
    seq!['K', '0'] + base64url_encoded(x_pub + ed_pub + encode_utf8(nick))
}

/// Decodes the body of an introduction.
pub fn decode_intro_from(body: &[u8]) -> (peer: Result<Peer, IntroError>)
    ensures
        peer_result(peer) == decoded_intro(body@),
{
    if body.len() < 64 {
        return Err(IntroError::TooShort);
    }
    let x_pub = array_at::<32>(body, 0);
    let ed_pub = array_at::<32>(body, 32);
    if !ed25519_check_key(&ed_pub) {
        return Err(IntroError::BadKey);
    }
    let id = array_at::<8>(&x_pub, 0);
    let rest = slice_subrange(body, 64, body.len());
    let nick = from_utf8_lossy(rest);
    let peer = Peer { x_pub, ed_pub, id, nick };
    proof {
        assert(rest@ =~= body@.skip(64));
        assert(x_pub@ =~= body@.take(32));
        assert(id@ =~= body@.take(8));
    }
    Ok(peer)
}

/// Decodes an invite.
pub fn decode_qr(qr: &str) -> (peer: Result<Peer, InviteError>)
    ensures
        peer_result(peer) == decoded_invite(qr@),
{
    let chars = chars_of(qr);
    let inner = trim(&chars);
    if inner.len() < 2 || inner[0] != 'K' || inner[1] != '0' {
        return Err(InviteError::BadPrefix);
    }
    let rest = slice_subrange(inner, 2, inner.len());
    assert(rest@ =~= inner@.skip(2));
    let symbols = string_of(rest);
    let body = match base64url_decode(symbols.as_str()) {
        Ok(body) => body,
        Err(fault) => {
            return Err(InviteError::Base64(fault));
        },
    };
    proof {
        base64url_round_trip(body@);
    }
    match decode_intro_from(&body) {
        Ok(peer) => Ok(peer),
        Err(IntroError::TooShort) => Err(InviteError::TooShort),
        Err(IntroError::BadKey) => Err(InviteError::BadKey),
    }
}

/// Who decodes the invite of two keys and a nick gets these back.
pub proof fn invite_round_trip(x_pub: Seq<u8>, ed_pub: Seq<u8>, nick: Seq<char>)
    requires
        x_pub.len() == 32,
        ed_pub.len() == 32,
    ensures
        ed25519_is_key(ed_pub) ==> decoded_invite(invite_text(x_pub, ed_pub, nick)) == Ok::<
            PeerView,
            InviteError,
        >(PeerView { x_pub, ed_pub, id: x_pub.take(8), nick }),
{
    let body = x_pub + ed_pub + encode_utf8(nick);
    let symbols = base64url_encoded(body);
    let text = invite_text(x_pub, ed_pub, nick);
    base64url_round_trip(body);
    assert(text.skip(2) =~= symbols);
    assert(text.last() == base64url_symbol(sextet(body, symbols.len() - 1)));
    assert(!is_space(text.last()));
    assert(!is_space(text[0]));
    assert(trimmed(text) == text);
    assert(body.take(32) =~= x_pub);
    assert(body.subrange(32, 64) =~= ed_pub);
    assert(body.take(8) =~= x_pub.take(8));
    assert(body.skip(64) =~= encode_utf8(nick));
    encode_utf8_valid_utf8(nick);
    encode_utf8_decode_utf8(nick);
}

/// An invite and an introduction with the same body name the same peer, or fail
/// alike.
pub proof fn invite_and_introduction_agree(body: Seq<u8>)
    ensures
        match decoded_intro(body) {
            Ok(peer) => decoded_invite(seq!['K', '0'] + base64url_encoded(body)) == Ok::<
                PeerView,
                InviteError,
            >(peer),
            Err(IntroError::TooShort) => decoded_invite(seq!['K', '0'] + base64url_encoded(body))
                == Err::<PeerView, InviteError>(InviteError::TooShort),
            Err(IntroError::BadKey) => decoded_invite(seq!['K', '0'] + base64url_encoded(body))
                == Err::<PeerView, InviteError>(InviteError::BadKey),
        },
{
    let symbols = base64url_encoded(body);
    let text = seq!['K', '0'] + symbols;
    base64url_round_trip(body);
    assert(text.skip(2) =~= symbols);
    if symbols.len() > 0 {
        assert(text.last() == base64url_symbol(sextet(body, symbols.len() - 1)));
    } else {
        assert(text.last() == '0');
    }
    assert(trimmed(text) == text);
}

/// White space around an invite does not matter.
pub proof fn invite_space_is_ignored(invite: Seq<char>)
    ensures
        decoded_invite(trimmed(invite)) == decoded_invite(invite),
{
    trimming_is_idempotent(invite);
}

/// Encodes the invite of `me`.
pub fn make_qr(me: &Identity, nick: &str) -> (invite: String)
    requires
        base64url_len(64 + encode_utf8(nick@).len()) <= isize::MAX,
    ensures
        invite@ == invite_text(me.x_pub@, me.ed_pub@, nick@),
        ed25519_is_key(me.ed_pub@) ==> decoded_invite(invite@) == Ok::<PeerView, InviteError>(
            PeerView { x_pub: me.x_pub@, ed_pub: me.ed_pub@, id: me.x_pub@.take(8), nick: nick@ },
        ),
{
    let mut body: Vec<u8> = Vec::new();
    append_bytes(&mut body, &me.x_pub);
    append_bytes(&mut body, &me.ed_pub);
    append_bytes(&mut body, nick.as_bytes());
    assert(body@ =~= me.x_pub@ + me.ed_pub@ + encode_utf8(nick@));
    let symbols = base64url_encode(&body);
    let mut invite = QR_PREFIX.to_owned();
    invite.append(symbols.as_str());
    proof {
        reveal_strlit("K0");
        assert(QR_PREFIX@ =~= seq!['K', '0']);
        invite_round_trip(me.x_pub@, me.ed_pub@, nick@);
    }
    invite
}

// ---------------------------------------------------------------------- laws

/// A private key differs from its seed in five bits: the lowest three are off, the
/// highest is off and the one below it is on. All others are the seed's.
pub proof fn clamping_fixes_five_bits(seed: Seq<u8>)
    requires
        seed.len() == 32,
    ensures
        clamped(seed).len() == 32,
        clamped(seed)[0] % 8 == 0,
        clamped(seed)[0] / 8 == seed[0] / 8,
        64 <= clamped(seed)[31] < 128,
        clamped(seed)[31] % 64 == seed[31] % 64,
        forall|i: int| 1 <= i < 31 ==> #[trigger] clamped(seed)[i] == seed[i],
{
    let first = seed[0];
    let last = seed[31];
    assert((first & 248) % 8 == 0) by (bit_vector);
    assert((first & 248) / 8 == first / 8) by (bit_vector);
    assert(64 <= ((last & 127) | 64) && ((last & 127) | 64) < 128) by (bit_vector);
    assert(((last & 127) | 64) % 64 == last % 64) by (bit_vector);
}

/// The parts of an identity belong together: the X25519 public key is the private
/// one times nine, the Ed25519 public key is the seed's, and the id is the first
/// eight bytes of the former.
pub proof fn identity_parts_belong_together(me: &Identity)
    ensures
        me.wf() <==> {
            &&& me.x_pub@ == x25519_of(me.x_priv@, seq![9u8] + Seq::new(31, |i: int| 0u8))
            &&& me.ed_pub@ == ed25519_public(me.ed@)
            &&& ed25519_is_key(me.ed_pub@)
            &&& forall|i: int| 0 <= i < 8 ==> #[trigger] me.id@[i] == me.x_pub@[i]
        },
{
    assert(base_point_bytes() =~= seq![9u8] + Seq::new(31, |i: int| 0u8));
    if forall|i: int| 0 <= i < 8 ==> #[trigger] me.id@[i] == me.x_pub@[i] {
        assert(me.id@ =~= me.x_pub@.take(8));
    }
    if me.id@ == me.x_pub@.take(8) {
        assert forall|i: int| 0 <= i < 8 implies #[trigger] me.id@[i] == me.x_pub@[i] by {
            assert(me.x_pub@.take(8)[i] == me.x_pub@[i]);
        }
    }
}

/// The two keys of a session are what BLAKE3 derives from its secret in the
/// contexts of the two directions.
pub proof fn session_keys_are_derived(shared: Seq<u8>)
    ensures
        client_to_server_key(shared) == blake3_derived("ws.lleo.me v2 route c2s"@, shared),
        server_to_client_key(shared) == blake3_derived("ws.lleo.me v2 route s2c"@, shared),
{
}

/// A packed message gives its number back, low byte first, its command and its
/// body; so messages that differ in any of them pack differently.
pub proof fn messages_are_read_back(message_id: u16, cmd: u8, body: Seq<u8>)
    ensures
        ({
            let inner = packed_inner(message_id, cmd, body);
            &&& inner.len() == body.len() + 3
            &&& inner[0] + 256 * inner[1] == message_id
            &&& inner[2] == cmd
            &&& inner.skip(3) == body
        }),
        forall|other_id: u16, other_cmd: u8, other_body: Seq<u8>|
            packed_inner(message_id, cmd, body) == #[trigger] packed_inner(
                other_id,
                other_cmd,
                other_body,
            ) ==> message_id == other_id && cmd == other_cmd && body == other_body,
{
    assert(packed_inner(message_id, cmd, body).skip(3) =~= body);
    assert forall|other_id: u16, other_cmd: u8, other_body: Seq<u8>|
        packed_inner(message_id, cmd, body) == #[trigger] packed_inner(
            other_id,
            other_cmd,
            other_body,
        ) implies message_id == other_id && cmd == other_cmd && body == other_body by {
        let inner = packed_inner(other_id, other_cmd, other_body);
        assert(inner.skip(3) =~= other_body);
        assert(inner[0] + 256 * inner[1] == other_id);
        assert(inner[0] + 256 * inner[1] == message_id);
        assert(inner[2] == other_cmd);
    }
}

/// Bytes are a message exactly when they are packed from one: every three or more
/// bytes are, and fewer are not.
pub proof fn packing_undoes_unpacking(inner: Seq<u8>)
    ensures
        unpacked_inner(inner) is Some <==> inner.len() >= 3,
        unpacked_inner(inner) matches Some((cmd, body)) ==> packed_inner(
            (inner[0] + 256 * inner[1]) as u16,
            cmd,
            body,
        ) == inner,
{
    if inner.len() >= 3 {
        let number = (inner[0] + 256 * inner[1]) as u16;
        assert(packed_inner(number, inner[2], inner.skip(3)) =~= inner);
    }
}

/// A packet, whatever its plaintext and however long, is the nonce, then the
/// XChaCha20-Poly1305 ciphertext of the plaintext under the X25519 secret of the
/// two keys and that nonce, then the Ed25519 signature of both.
pub proof fn packets_hold_the_ciphertext(
    nonce: Seq<u8>,
    plain: Seq<u8>,
    my_x_priv: Seq<u8>,
    my_ed: Seq<u8>,
    their_x_pub: Seq<u8>,
)
    requires
        nonce.len() == 24,
    ensures
        ({
            let packet = sealed_packet(nonce, plain, my_x_priv, my_ed, their_x_pub);
            let sealed = aead_sealed(x25519_of(my_x_priv, their_x_pub), nonce, plain);
            let cut = (24 + sealed.len()) as int;
            &&& packet.take(24) == nonce
            &&& packet.subrange(24, cut) == sealed
            &&& packet.skip(cut) == ed25519_signature(my_ed, packet.take(cut))
        }),
{
    let packet = sealed_packet(nonce, plain, my_x_priv, my_ed, their_x_pub);
    let sealed = aead_sealed(x25519_of(my_x_priv, their_x_pub), nonce, plain);
    let cut = (24 + sealed.len()) as int;
    assert(packet.take(24) =~= nonce);
    assert(packet.subrange(24, cut) =~= sealed);
    assert(packet.take(cut) =~= nonce + sealed);
    assert(packet.skip(cut) =~= ed25519_signature(my_ed, nonce + sealed));
}

/// What is said to be sealed has the cipher's bytes between the nonce and the
/// signature, and a signature of all before it.
pub proof fn sealed_bytes_are_the_ciphers(
    packet: Seq<u8>,
    plain: Seq<u8>,
    my_x_priv: Seq<u8>,
    my_ed: Seq<u8>,
    their_x_pub: Seq<u8>,
)
    ensures
        is_sealed(packet, plain, my_x_priv, my_ed, their_x_pub) <==> {
            &&& packet.len() == plain.len() + 104
            &&& packet.subrange(24, packet.len() - 64) == aead_sealed(
                x25519_of(my_x_priv, their_x_pub),
                packet.take(24),
                plain,
            )
            &&& packet.skip(packet.len() - 64) == ed25519_signature(
                my_ed,
                packet.take(packet.len() - 64),
            )
        },
        signed_by(packet, my_ed) <==> ed25519_accepts(
            ed25519_public(my_ed),
            packet.take(packet.len() - 64),
            packet.skip(packet.len() - 64),
        ),
{
}

/// A packet, however long, opens to a plaintext exactly when it can be a packet by
/// its length, its last 64 bytes are a good signature of the others, and the
/// cipher opens what stands between nonce and signature to that plaintext, under
/// the X25519 secret of the two keys and the nonce.
pub proof fn packets_open_by_signature_and_cipher(
    packet: Seq<u8>,
    my_x_priv: Seq<u8>,
    their_x_pub: Seq<u8>,
    their_ed_pub: Seq<u8>,
    plain: Seq<u8>,
)
    ensures
        opened_packet(packet, my_x_priv, their_x_pub, their_ed_pub) == Some(plain) <==> {
            &&& 24 + 16 + 64 <= packet.len() <= 0x3F_FFFF_FF80 + 24 + 16 + 64
            &&& ed25519_accepts(
                their_ed_pub,
                packet.take(packet.len() - 64),
                packet.skip(packet.len() - 64),
            )
            &&& aead_opened(
                x25519_of(my_x_priv, their_x_pub),
                packet.take(24),
                packet.subrange(24, packet.len() - 64),
            ) == Some(plain)
        },
{
    if packet.len() >= 104 {
        let signed = packet.take(packet.len() - 64);
        assert(signed.take(24) =~= packet.take(24));
        assert(signed.skip(24) =~= packet.subrange(24, packet.len() - 64));
    }
}

/// A packet opens for the one it is sealed for: what the cipher opens again opens
/// with the secret that the receiver has from its own private key and the sender's
/// public one.
pub proof fn receivers_open_packets(
    packet: Seq<u8>,
    plain: Seq<u8>,
    my_x_priv: Seq<u8>,
    my_ed: Seq<u8>,
    their_x_priv: Seq<u8>,
)
    requires
        their_x_priv.len() == 32,
    ensures
        opens_for_receiver(
            packet,
            plain,
            my_x_priv,
            my_ed,
            x25519_of(their_x_priv, base_point_bytes()),
        ) ==> {
            &&& packet.len() >= 104
            &&& ed25519_accepts(
                ed25519_public(my_ed),
                packet.take(packet.len() - 64),
                packet.skip(packet.len() - 64),
            )
            &&& aead_opened(
                x25519_of(their_x_priv, x25519_of(my_x_priv, base_point_bytes())),
                packet.take(24),
                packet.subrange(24, packet.len() - 64),
            ) == Some(plain)
        },
{
    packets_open_by_signature_and_cipher(
        packet,
        their_x_priv,
        x25519_public(my_x_priv),
        ed25519_public(my_ed),
        plain,
    );
    if opens_for_receiver(packet, plain, my_x_priv, my_ed, x25519_public(their_x_priv)) {
        assert(opened_packet(
            packet,
            their_x_priv,
            x25519_public(my_x_priv),
            ed25519_public(my_ed),
        ) == Some(plain));
    }
}

/// The nonce of a packet was drawn: a call for random bytes gave it, whole.
pub proof fn nonces_are_given(nonce: Seq<u8>)
    ensures
        drawn(nonce) ==> exists|given: [u8; 24]| #[trigger]
            call_ensures(fresh_nonce_24, (), given) && given@ == nonce,
{
}

/// A header is masked with the ChaCha20 keystream of the key and the first twelve
/// bytes of the nonce, byte by byte, whatever the bytes are; so two nonces that
/// start with the same twelve bytes mask alike.
pub proof fn headers_are_masked_with_the_keystream(
    key: Seq<u8>,
    nonce: Seq<u8>,
    other: Seq<u8>,
    header: Seq<u8>,
)
    ensures
        xor_bytes(header, header_mask(key, nonce)).len() == header.len(),
        forall|i: int|
            0 <= i < header.len() ==> #[trigger] xor_bytes(header, header_mask(key, nonce))[i]
                == header[i] ^ chacha20_keystream(key, nonce.take(12))[i],
        nonce.take(12) == other.take(12) ==> xor_bytes(header, header_mask(key, nonce))
            == xor_bytes(header, header_mask(key, other)),
{
}

/// A routed frame is eight bytes longer than its packet, which stands behind the
/// header unchanged. The header is the route, masked with the keystream of the
/// first twelve bytes of the packet.
pub proof fn frames_are_header_and_packet(route: Seq<u8>, key: Seq<u8>, packet: Seq<u8>)
    requires
        route.len() == 8,
        packet.len() >= 24,
    ensures
        ({
            let frame = routed_frame(route, key, packet);
            &&& frame.len() == 8 + packet.len()
            &&& forall|i: int| 0 <= i < packet.len() ==> frame[8 + i] == #[trigger] packet[i]
            &&& forall|i: int|
                0 <= i < 8 ==> #[trigger] frame[i] == route[i] ^ chacha20_keystream(
                    key,
                    packet.take(12),
                )[i]
        }),
{
    assert(packet.take(24).take(12) =~= packet.take(12));
}

/// The route of a frame is its first eight bytes without the mask, which is the
/// keystream of the twelve bytes behind them.
pub proof fn routes_are_unmasked_headers(frame: Seq<u8>, key: Seq<u8>)
    requires
        frame.len() >= 32,
    ensures
        frame_route(frame, key).len() == 8,
        forall|i: int|
            0 <= i < 8 ==> #[trigger] frame_route(frame, key)[i] == frame[i] ^ chacha20_keystream(
                key,
                frame.subrange(8, 20),
            )[i],
        frame_route(frame, key) == zero_bytes(8) <==> forall|i: int|
            0 <= i < 8 ==> #[trigger] frame[i] == chacha20_keystream(
                key,
                frame.subrange(8, 20),
            )[i],
{
    let stream = chacha20_keystream(key, frame.subrange(8, 20));
    let route = frame_route(frame, key);
    assert(frame.subrange(8, 32).take(12) =~= frame.subrange(8, 20));
    assert forall|i: int| 0 <= i < 8 implies #[trigger] route[i] == frame[i] ^ stream[i] by {
        assert(frame.take(8)[i] == frame[i]);
    }
    if route == zero_bytes(8) {
        assert forall|i: int| 0 <= i < 8 implies #[trigger] frame[i] == stream[i] by {
            assert(route[i] == zero_bytes(8)[i]);
            xor_tells_bytes_apart(frame[i], stream[i]);
        }
    }
    if forall|i: int| 0 <= i < 8 ==> #[trigger] frame[i] == stream[i] {
        assert forall|i: int| 0 <= i < 8 implies route[i] == zero_bytes(8)[i] by {
            xor_tells_bytes_apart(frame[i], stream[i]);
        }
        assert(route =~= zero_bytes(8));
    }
}

/// A handshake request is message zero, the request command, the signing key and
/// the protocol version.
pub proof fn handshakes_announce_key_and_version(ed_pub: Seq<u8>)
    requires
        ed_pub.len() == 32,
    ensures
        handshake_inner(ed_pub) == seq![0u8, 0u8, 1u8] + ed_pub + seq![2u8],
{
    assert(handshake_inner(ed_pub) =~= seq![0u8, 0u8, 1u8] + ed_pub + seq![2u8]);
}

/// What a frame that carries a message is, byte for byte: the route under the mask
/// of the nonce's first twelve bytes, the nonce, the ciphertext of the message
/// under the secret of the two keys, and a good signature of nonce and ciphertext.
pub proof fn carrying_frames_are_sealed_and_routed(
    frame: Seq<u8>,
    route: Seq<u8>,
    key: Seq<u8>,
    me: &Identity,
    their_x_pub: Seq<u8>,
    inner: Seq<u8>,
)
    requires
        route.len() == 8,
    ensures
        carries(frame, route, key, me, their_x_pub, inner) ==> {
            let cut = frame.len() - 64;
            &&& frame.len() == inner.len() + 112
            &&& forall|i: int|
                0 <= i < 8 ==> #[trigger] frame[i] == route[i] ^ chacha20_keystream(
                    key,
                    frame.subrange(8, 20),
                )[i]
            &&& frame.subrange(32, cut) == aead_sealed(
                x25519_of(me.x_priv@, their_x_pub),
                frame.subrange(8, 32),
                inner,
            )
            &&& frame.skip(cut) == ed25519_signature(me.ed@, frame.subrange(8, cut))
            &&& ed25519_accepts(
                ed25519_public(me.ed@),
                frame.subrange(8, cut),
                frame.skip(cut),
            )
        },
{
    if carries(frame, route, key, me, their_x_pub, inner) {
        let packet = frame.skip(8);
        let cut = frame.len() - 64;
        frames_are_header_and_packet(route, key, packet);
        sealed_bytes_are_the_ciphers(packet, inner, me.x_priv@, me.ed@, their_x_pub);
        assert(packet.take(12) =~= frame.subrange(8, 20));
        assert(packet.take(24) =~= frame.subrange(8, 32));
        assert(packet.subrange(24, packet.len() - 64) =~= frame.subrange(32, cut));
        assert(packet.take(packet.len() - 64) =~= frame.subrange(8, cut));
        assert(packet.skip(packet.len() - 64) =~= frame.skip(cut));
    }
}

/// A frame is the relay's own, and holds a message, exactly when its header is
/// zero under the mask and its packet opens to the message by signature and cipher.
/// It is a peer's exactly when its header is not zero, and its packet opens.
pub proof fn frames_open_by_header_and_packet(
    frame: Seq<u8>,
    key: Seq<u8>,
    my_x_priv: Seq<u8>,
    x_pub: Seq<u8>,
    ed_pub: Seq<u8>,
    inner: Seq<u8>,
)
    ensures
        ({
            let opens = {
                &&& 112 <= frame.len() <= 0x3F_FFFF_FF80 + 112
                &&& ed25519_accepts(
                    ed_pub,
                    frame.subrange(8, frame.len() - 64),
                    frame.skip(frame.len() - 64),
                )
                &&& aead_opened(
                    x25519_of(my_x_priv, x_pub),
                    frame.subrange(8, 32),
                    frame.subrange(32, frame.len() - 64),
                ) == Some(inner)
            };
            let zero = forall|i: int|
                0 <= i < 8 ==> #[trigger] frame[i] == chacha20_keystream(
                    key,
                    frame.subrange(8, 20),
                )[i];
            &&& decoded_server_frame(frame, key, my_x_priv, x_pub, ed_pub) == Some(inner)
                <==> opens && zero
            &&& decoded_peer_frame(frame, key, my_x_priv, x_pub, ed_pub) == Some(inner)
                <==> opens && !zero
        }),
{
    if frame.len() >= 112 {
        let packet = frame.skip(8);
        routes_are_unmasked_headers(frame, key);
        packets_open_by_signature_and_cipher(packet, my_x_priv, x_pub, ed_pub, inner);
        assert(packet.take(24) =~= frame.subrange(8, 32));
        assert(packet.subrange(24, packet.len() - 64) =~= frame.subrange(32, frame.len() - 64));
        assert(packet.take(packet.len() - 64) =~= frame.subrange(8, frame.len() - 64));
        assert(packet.skip(packet.len() - 64) =~= frame.skip(frame.len() - 64));
    }
}

/// What a peer holds is what its fields hold, and a decoder's result is its own.
pub proof fn peers_hold_their_fields(peer: Peer, error: IntroError, fault: InviteError)
    ensures
        peer@.x_pub == peer.x_pub@,
        peer@.ed_pub == peer.ed_pub@,
        peer@.id == peer.id@,
        peer@.nick == peer.nick@,
        peer_result(Ok::<Peer, IntroError>(peer)) == Ok::<PeerView, IntroError>(peer@),
        peer_result(Ok::<Peer, InviteError>(peer)) == Ok::<PeerView, InviteError>(peer@),
        peer_result(Err::<Peer, IntroError>(error)) == Err::<PeerView, IntroError>(error),
        peer_result(Err::<Peer, InviteError>(fault)) == Err::<PeerView, InviteError>(fault),
{
}

/// An introduction is two keys of 32 bytes and a nick. It fails exactly when there
/// is no room for the keys, or when the second is none; else the peer has these
/// keys, the first eight bytes of the first one as its id, and the nick that the
/// rest encodes.
pub proof fn introductions_name_their_peer(
    x_pub: Seq<u8>,
    ed_pub: Seq<u8>,
    nick: Seq<u8>,
    short: Seq<u8>,
)
    requires
        x_pub.len() == 32,
        ed_pub.len() == 32,
        short.len() < 64,
    ensures
        ({
            let decoded = decoded_intro(x_pub + ed_pub + nick);
            &&& ed25519_is_key(ed_pub) <==> decoded is Ok
            &&& decoded matches Ok(peer) ==> {
                &&& peer.x_pub == x_pub
                &&& peer.ed_pub == ed_pub
                &&& peer.id == x_pub.take(8)
                &&& valid_utf8(nick) ==> peer.nick == decode_utf8(nick)
                &&& !valid_utf8(nick) ==> peer.nick == utf8_repaired(nick)
            }
            &&& !ed25519_is_key(ed_pub) ==> decoded == Err::<PeerView, IntroError>(
                IntroError::BadKey,
            )
        }),
        decoded_intro(short) == Err::<PeerView, IntroError>(IntroError::TooShort),
{
    let body = x_pub + ed_pub + nick;
    assert(body.take(32) =~= x_pub);
    assert(body.subrange(32, 64) =~= ed_pub);
    assert(body.take(8) =~= x_pub.take(8));
    assert(body.skip(64) =~= nick);
}

/// An invite fails for its prefix exactly when, white space aside, it does not
/// start with `K0`; and for its base64 exactly when what follows encodes no bytes,
/// with the fault of that text. An invite that encodes bytes has the outcome of an
/// introduction of these bytes.
pub proof fn invites_are_prefixed_introductions(invite: Seq<char>, body: Seq<u8>)
    ensures
        ({
            let inner = trimmed(invite);
            let prefixed = inner.len() >= 2 && inner[0] == 'K' && inner[1] == '0';
            let decoded = decoded_invite(invite);
            &&& decoded == Err::<PeerView, InviteError>(InviteError::BadPrefix) <==> !prefixed
            &&& prefixed && (forall|data: Seq<u8>| #[trigger]
                base64url_encoded(data) != inner.skip(2)) <==> (decoded matches Err(
                InviteError::Base64(_),
            ))
            &&& decoded matches Err(InviteError::Base64(fault)) ==> fault == base64url_fault(
                inner.skip(2),
            )
            &&& prefixed && inner.skip(2) == base64url_encoded(body) ==> match decoded_intro(body) {
                Ok(peer) => decoded == Ok::<PeerView, InviteError>(peer),
                Err(IntroError::TooShort) => decoded == Err::<PeerView, InviteError>(
                    InviteError::TooShort,
                ),
                Err(IntroError::BadKey) => decoded == Err::<PeerView, InviteError>(
                    InviteError::BadKey,
                ),
            }
        }),
{
    let inner = trimmed(invite);
    if inner.skip(2) == base64url_encoded(body) {
        base64url_round_trip(body);
    }
}

/// The text of an invite: the prefix, then the base64 of both keys and the nick's
/// UTF-8.
pub proof fn invites_hold_keys_and_nick(x_pub: Seq<u8>, ed_pub: Seq<u8>, nick: Seq<char>)
    ensures
        ({
            let invite = invite_text(x_pub, ed_pub, nick);
            &&& invite.len() >= 2 && invite[0] == 'K' && invite[1] == '0'
            &&& invite.skip(2) == base64url_encoded(x_pub + ed_pub + encode_utf8(nick))
        }),
{
    assert(invite_text(x_pub, ed_pub, nick).skip(2) =~= base64url_encoded(
        x_pub + ed_pub + encode_utf8(nick),
    ));
}

} // verus!
