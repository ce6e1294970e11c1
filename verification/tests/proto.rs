use usbws::base64url::Base64Error;
use usbws::crypto::{base_point, AEAD_MAX};
use usbws::proto::{
    build_handshake_request, build_peer_frame, build_server_bound, decode_intro_from,
    decode_peer_frame, decode_qr, decode_server_frame, derive_session, encrypt_and_sign,
    encrypt_and_sign_with, make_qr, pack_inner, packet_parts, route_packet, session_keys,
    unpack_inner, verify_and_decrypt, xor_header, Identity, IntroError, InviteError,
    CMD_HANDSHAKE_OK, CMD_HANDSHAKE_REQUEST, CMD_INTRODUCE, CMD_INTRO_FROM, CMD_PEER_ONLINE,
    CMD_SERIAL_DATA, CMD_SUBSCRIBE, CMD_TCP_CLOSE, CMD_TCP_DATA, CMD_TCP_OPEN, MAX_PACKET,
    MIN_FRAME, MIN_PACKET, PROTOCOL_VERSION, QR_PREFIX,
};

use base64::Engine;
use chacha20poly1305::aead::Aead;
use chacha20poly1305::KeyInit;
use ed25519_dalek::{Signer, Verifier};

fn key(text: &str) -> [u8; 32] {
    hex::decode(text).unwrap().try_into().unwrap()
}

fn alice() -> Identity {
    Identity::from_seeds([7u8; 32], [8u8; 32])
}

fn bob() -> Identity {
    Identity::from_seeds([21u8; 32], [22u8; 32])
}

fn not_a_key() -> [u8; 32] {
    let mut bytes = [0u8; 32];
    for first in 0..=255u8 {
        bytes[0] = first;
        if ed25519_dalek::VerifyingKey::from_bytes(&bytes).is_err() {
            return bytes;
        }
    }
    unreachable!()
}

#[test]
fn wire_constants() {
    assert_eq!(PROTOCOL_VERSION, 2);
    assert_eq!(QR_PREFIX, "K0");
    assert_eq!(
        [
            CMD_HANDSHAKE_REQUEST,
            CMD_HANDSHAKE_OK,
            CMD_SERIAL_DATA,
            CMD_TCP_OPEN,
            CMD_TCP_DATA,
            CMD_TCP_CLOSE,
            CMD_SUBSCRIBE,
            CMD_PEER_ONLINE,
            CMD_INTRODUCE,
            CMD_INTRO_FROM,
        ],
        [0x01, 0x02, 0x30, 0x32, 0x33, 0x34, 0x40, 0x42, 0x46, 0x47]
    );
    assert_eq!(MIN_PACKET, 24 + 16 + 64);
    assert_eq!(MIN_FRAME, 8 + 24 + 16 + 64);
    assert_eq!(AEAD_MAX, ((1u64 << 32) - 2) * 64);
    assert_eq!(MAX_PACKET, AEAD_MAX + 104);
}

#[test]
fn base_point_is_nine() {
    assert_eq!(base_point(), x25519_dalek::X25519_BASEPOINT_BYTES);
}

#[test]
fn identity_from_published_vectors() {
    let me = Identity::from_seeds(
        key("5dab087e624a8a4b79e17f8b83800ee66f3bb1292618b6fd1c2f8b27ff88e0eb"),
        key("9d61b19deffd5a60ba844af492ec2cc44449c5697b326919703bac031cae7f60"),
    );
    assert_eq!(
        me.x_pub,
        key("de9edb7d7b7dc1b4d35b61c2ece435373f8343c85b78674dadfc7e146f882b4f")
    );
    assert_eq!(
        me.ed_pub,
        key("d75a980182b10ab7d54bfed3c964073a0ee172f3daa62325af021a68f707511a")
    );
    assert_eq!(me.id, [0xde, 0x9e, 0xdb, 0x7d, 0x7b, 0x7d, 0xc1, 0xb4]);
    assert_eq!(me.ed[0], 0x9d);
}

#[test]
fn private_keys_are_clamped() {
    let me = Identity::from_seeds([0xff; 32], [0; 32]);
    assert_eq!(me.x_priv[0], 0xf8);
    assert_eq!(me.x_priv[1..31], [0xff; 30]);
    assert_eq!(me.x_priv[31], 0x7f);
    let none = Identity::from_seeds([0; 32], [0; 32]);
    assert_eq!(none.x_priv[0], 0);
    assert_eq!(none.x_priv[31], 0x40);
    let again = Identity::from_seeds(me.x_priv, [0; 32]);
    assert_eq!(again.x_priv, me.x_priv);
}

#[test]
fn session_keys_are_derived_in_their_contexts() {
    let (c2s, s2c) = derive_session(&[5u8; 32]);
    assert_eq!(c2s, blake3::derive_key("ws.lleo.me v2 route c2s", &[5u8; 32]));
    assert_eq!(s2c, blake3::derive_key("ws.lleo.me v2 route s2c", &[5u8; 32]));
    assert_ne!(c2s, s2c);
}

#[test]
fn both_ends_derive_the_same_session_keys() {
    let (client, relay) = (alice(), bob());
    assert_eq!(
        session_keys(&client, &relay.x_pub),
        session_keys(&relay, &client.x_pub)
    );
    let shared = x25519_dalek::x25519(client.x_priv, relay.x_pub);
    assert_eq!(session_keys(&client, &relay.x_pub), derive_session(&shared));
}

#[test]
fn inner_messages() {
    let inner = pack_inner(0x1234, 0x33, &[9, 8, 7]);
    assert_eq!(inner, [0x34, 0x12, 0x33, 9, 8, 7]);
    assert_eq!(unpack_inner(&inner), Some((0x33, &[9u8, 8, 7][..])));
    assert_eq!(pack_inner(0, 0x40, &[]), [0, 0, 0x40]);
    assert_eq!(unpack_inner(&[0, 0, 0x40]), Some((0x40, &[][..])));
    assert_eq!(unpack_inner(&[0, 0]), None);
}

#[test]
fn packet_is_what_the_ciphers_make() {
    let (a, b) = (alice(), bob());
    let nonce = [3u8; 24];
    let packet = encrypt_and_sign_with(&nonce, b"hello", &a.x_priv, &a.ed, &b.x_pub);
    let shared = x25519_dalek::x25519(a.x_priv, b.x_pub);
    let sealed = chacha20poly1305::XChaCha20Poly1305::new((&shared).into())
        .encrypt((&nonce).into(), &b"hello"[..])
        .unwrap();
    let mut expected = nonce.to_vec();
    expected.extend_from_slice(&sealed);
    let signature = ed25519_dalek::SigningKey::from_bytes(&a.ed).sign(&expected);
    expected.extend_from_slice(&signature.to_bytes());
    assert_eq!(packet, expected);
    assert_eq!(packet.len(), 5 + MIN_PACKET);
}

#[test]
fn packets_are_signed_whoever_they_are_for() {
    let a = alice();
    let vk = ed25519_dalek::VerifyingKey::from_bytes(&a.ed_pub).unwrap();
    for receiver in [[0u8; 32], [0xff; 32]] {
        let packet = encrypt_and_sign(b"x", &a.x_priv, &a.ed, &receiver);
        let (signed, sig) = packet.split_at(packet.len() - 64);
        let sig = ed25519_dalek::Signature::from_bytes(sig.try_into().unwrap());
        assert!(vk.verify(signed, &sig).is_ok());
    }
}

#[test]
fn packet_splits_into_its_parts() {
    let bytes: Vec<u8> = (0..110u8).collect();
    let parts = packet_parts(&bytes).unwrap();
    assert_eq!(parts.nonce[..], bytes[..24]);
    assert_eq!(parts.sealed, &bytes[24..46]);
    assert_eq!(parts.signed, &bytes[..46]);
    assert_eq!(parts.signature[..], bytes[46..]);
    assert!(packet_parts(&bytes[..103]).is_none());
    assert!(packet_parts(&bytes[..104]).is_some());
}

#[test]
fn receiver_opens_what_the_sender_sealed() {
    let (a, b) = (alice(), bob());
    for plain in [&b""[..], b"x", b"some longer message that spans more than one block of 64 bytes"] {
        let packet = encrypt_and_sign(plain, &a.x_priv, &a.ed, &b.x_pub);
        assert_eq!(
            verify_and_decrypt(&packet, &b.x_priv, &a.x_pub, &a.ed_pub),
            Some(plain.to_vec())
        );
        let vk = ed25519_dalek::VerifyingKey::from_bytes(&a.ed_pub).unwrap();
        let (signed, sig) = packet.split_at(packet.len() - 64);
        let sig = ed25519_dalek::Signature::from_bytes(sig.try_into().unwrap());
        assert!(vk.verify(signed, &sig).is_ok());
    }
}

#[test]
fn nonces_are_fresh() {
    let (a, b) = (alice(), bob());
    let one = encrypt_and_sign(b"same", &a.x_priv, &a.ed, &b.x_pub);
    let two = encrypt_and_sign(b"same", &a.x_priv, &a.ed, &b.x_pub);
    assert_ne!(one[..24], two[..24]);
    assert_ne!(one[24..], two[24..]);
}

#[test]
fn tampered_or_foreign_packets_do_not_open() {
    let (a, b) = (alice(), bob());
    let packet = encrypt_and_sign(b"hello", &a.x_priv, &a.ed, &b.x_pub);
    for at in [0, 23, 24, 40, packet.len() - 64, packet.len() - 1] {
        let mut bad = packet.clone();
        bad[at] ^= 1;
        assert_eq!(verify_and_decrypt(&bad, &b.x_priv, &a.x_pub, &a.ed_pub), None);
    }
    assert_eq!(verify_and_decrypt(&packet[..103], &b.x_priv, &a.x_pub, &a.ed_pub), None);
    assert_eq!(verify_and_decrypt(&packet, &b.x_priv, &a.x_pub, &b.ed_pub), None);
    assert_eq!(verify_and_decrypt(&packet, &b.x_priv, &a.x_pub, &not_a_key()), None);
    // Signed by the right key, but sealed with another secret.
    assert_eq!(verify_and_decrypt(&packet, &a.x_priv, &a.x_pub, &a.ed_pub), None);
}

#[test]
fn header_mask_is_the_keystream() {
    let mut header = [0u8; 8];
    xor_header(&[0u8; 32], &[0u8; 24], &mut header);
    assert_eq!(header, [0x76, 0xb8, 0xe0, 0xad, 0xa0, 0xf1, 0x3d, 0x90]);
    xor_header(&[0u8; 32], &[0u8; 24], &mut header);
    assert_eq!(header, [0u8; 8]);
}

#[test]
fn header_mask_uses_half_of_the_nonce() {
    let mut nonce = [4u8; 24];
    let mut one = [1u8; 8];
    xor_header(&[9u8; 32], &nonce, &mut one);
    nonce[12..].fill(77);
    let mut two = [1u8; 8];
    xor_header(&[9u8; 32], &nonce, &mut two);
    assert_eq!(one, two);
    nonce[11] = 0;
    let mut three = [1u8; 8];
    xor_header(&[9u8; 32], &nonce, &mut three);
    assert_ne!(one, three);
}

#[test]
fn handshake_request_opens_at_the_relay() {
    let (me, relay) = (alice(), bob());
    let frame = build_handshake_request(&me, &relay.x_pub);
    assert_eq!(frame[..32], me.x_pub);
    let mut body = me.ed_pub.to_vec();
    body.push(2);
    assert_eq!(
        verify_and_decrypt(&frame[32..], &relay.x_priv, &me.x_pub, &me.ed_pub),
        Some(pack_inner(0, CMD_HANDSHAKE_REQUEST, &body))
    );
    assert_eq!(frame.len(), 32 + 36 + MIN_PACKET);
}

#[test]
fn peer_frame_is_routed_to_the_peer() {
    let (a, b) = (alice(), bob());
    let k_c2s = [11u8; 32];
    let frame = build_peer_frame(&a, &b.x_pub, &b.id, &k_c2s, b"inner");
    let mut header: [u8; 8] = frame[..8].try_into().unwrap();
    xor_header(&k_c2s, frame[8..32].try_into().unwrap(), &mut header);
    assert_eq!(header, b.id);
    assert_eq!(
        verify_and_decrypt(&frame[8..], &b.x_priv, &a.x_pub, &a.ed_pub),
        Some(b"inner".to_vec())
    );
}

#[test]
fn server_bound_frame_has_a_zero_header() {
    let (a, relay) = (alice(), bob());
    let k = [12u8; 32];
    let frame = build_server_bound(&a, &relay.x_pub, &k, b"inner");
    let mut header: [u8; 8] = frame[..8].try_into().unwrap();
    xor_header(&k, frame[8..32].try_into().unwrap(), &mut header);
    assert_eq!(header, [0u8; 8]);
    assert_eq!(
        decode_server_frame(&frame, &k, &relay.x_priv, &a.x_pub, &a.ed_pub),
        Some(b"inner".to_vec())
    );
    assert_eq!(decode_peer_frame(&frame, &k, &relay.x_priv, &a.x_pub, &a.ed_pub), None);
    assert_eq!(decode_server_frame(&frame, &[13u8; 32], &relay.x_priv, &a.x_pub, &a.ed_pub), None);
    assert_eq!(decode_server_frame(&frame[..111], &k, &relay.x_priv, &a.x_pub, &a.ed_pub), None);
}

#[test]
fn relayed_frame_is_a_peer_frame() {
    let (a, b) = (alice(), bob());
    let (k_c2s, k_s2c) = ([11u8; 32], [14u8; 32]);
    let sent = build_peer_frame(&a, &b.x_pub, &b.id, &k_c2s, b"inner");
    let relayed = route_packet(&a.id, &k_s2c, &sent[8..]);
    assert_eq!(
        decode_peer_frame(&relayed, &k_s2c, &b.x_priv, &a.x_pub, &a.ed_pub),
        Some(b"inner".to_vec())
    );
    assert_eq!(decode_server_frame(&relayed, &k_s2c, &b.x_priv, &a.x_pub, &a.ed_pub), None);
    assert_eq!(decode_peer_frame(&relayed[..111], &k_s2c, &b.x_priv, &a.x_pub, &a.ed_pub), None);
}

#[test]
fn invite_round_trip() {
    let me = alice();
    for nick in ["", "usbws", "Überraschung ☃"] {
        let invite = make_qr(&me, nick);
        assert!(invite.starts_with("K0"));
        for text in [invite.clone(), format!("  {invite}\r\n"), format!("\u{a0}{invite}\t")] {
            let peer = decode_qr(&text).ok().unwrap();
            assert_eq!(peer.x_pub, me.x_pub);
            assert_eq!(peer.ed_pub, me.ed_pub);
            assert_eq!(peer.id, me.id);
            assert_eq!(peer.nick, nick);
        }
    }
}

#[test]
fn invite_is_unpadded_url_safe_base64() {
    let me = alice();
    for nick in ["", "a", "ab", "abc", "????>>>>"] {
        let mut body = me.x_pub.to_vec();
        body.extend_from_slice(&me.ed_pub);
        body.extend_from_slice(nick.as_bytes());
        let expected = base64::engine::general_purpose::URL_SAFE_NO_PAD.encode(&body);
        assert_eq!(make_qr(&me, nick), format!("K0{expected}"));
    }
}

#[test]
fn bad_invites() {
    let me = alice();
    let error = |text: &str| decode_qr(text).err().unwrap();
    assert_eq!(error(""), InviteError::BadPrefix);
    assert_eq!(error("K"), InviteError::BadPrefix);
    assert_eq!(error("k0AAAA"), InviteError::BadPrefix);
    assert_eq!(error("K 0AAAA"), InviteError::BadPrefix);
    assert_eq!(error("K0A!AA"), InviteError::Base64(Base64Error::InvalidByte(1, b'!')));
    assert_eq!(error("K0A"), InviteError::Base64(Base64Error::InvalidLength(1)));
    assert_eq!(error("K0AB"), InviteError::Base64(Base64Error::InvalidLastSymbol(1, b'B')));
    assert_eq!(error("K0AA=="), InviteError::Base64(Base64Error::InvalidPadding));
    assert_eq!(error("K0"), InviteError::TooShort);
    assert_eq!(error("K0AAAA"), InviteError::TooShort);
    let bad = Identity { ed_pub: not_a_key(), ..me };
    assert_eq!(error(&make_qr(&bad, "")), InviteError::BadKey);
}

#[test]
fn introduction_names_the_same_peer_as_the_invite() {
    let me = alice();
    let mut body = me.x_pub.to_vec();
    body.extend_from_slice(&me.ed_pub);
    body.extend_from_slice(b"nick");
    let introduced = decode_intro_from(&body).ok().unwrap();
    let invited = decode_qr(&make_qr(&me, "nick")).ok().unwrap();
    assert_eq!(introduced.x_pub, invited.x_pub);
    assert_eq!(introduced.ed_pub, invited.ed_pub);
    assert_eq!(introduced.id, invited.id);
    assert_eq!(introduced.nick, invited.nick);
    assert_eq!(introduced.nick, "nick");
}

#[test]
fn bad_introductions() {
    let me = alice();
    let mut body = me.x_pub.to_vec();
    body.extend_from_slice(&not_a_key());
    assert_eq!(decode_intro_from(&body).err(), Some(IntroError::BadKey));
    assert_eq!(decode_intro_from(&body[..63]).err(), Some(IntroError::TooShort));
    assert_eq!(decode_intro_from(&[]).err(), Some(IntroError::TooShort));
}

#[test]
fn invalid_utf8_in_a_nick_is_replaced() {
    let me = alice();
    let mut body = me.x_pub.to_vec();
    body.extend_from_slice(&me.ed_pub);
    body.extend_from_slice(&[b'a', 0xff, b'b']);
    assert_eq!(decode_intro_from(&body).ok().unwrap().nick, "a\u{fffd}b");
}
