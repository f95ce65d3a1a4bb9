//! Tunnel cryptography, messages and packets.

use blake2::digest::{FixedOutput, KeyInit, Update};
use chacha20poly1305::aead::{Aead, Payload};
use linux_syscalls::net::wireguard::ip_packets::{
    build_udp_ipv4_packet, internet_checksum, parse_ipv4_packet_info, parse_ipv6_packet_info,
    parse_udp_ipv4_payload, trim_ipv4_packet, trim_ipv6_packet,
};
use linux_syscalls::net::wireguard::messages::{
    apply_mac1, build_data_packet, build_handshake_cookie, build_handshake_initiation,
    build_handshake_response, compute_mac1, constant_time_eq, encrypted_len, message_data_len,
    message_type, pad_data_plaintext, padded_data_len, parse_data_packet, parse_handshake_cookie,
    parse_handshake_initiation, parse_handshake_response, random_bytes, read_array, tai64n_at,
    time_before, validate_mac1, vec_to_array, HandshakeCookie, HandshakeInitiation,
    HandshakeResponse, WireguardMessageType,
};
use linux_syscalls::net::wireguard::noise::{
    aead_decrypt, aead_encrypt, blake2s_hash, consume_handshake_initiation_for_peer,
    consume_handshake_response, cookie_encryption_key, create_handshake_initiation,
    create_handshake_response, derive_keypair, hmac_blake2s, initial_handshake_state, is_zero_key,
    kdf, message_decrypt_and_hash, message_encrypt_and_hash, message_mac1_key, mix_hash, mix_key,
    mix_psk, public_key_from_private, random_private_key, x25519_shared_secret,
};
use linux_syscalls::net::wireguard::replay::NoiseReplayCounter;

fn hex(s: &str) -> Vec<u8> {
    (0..s.len() / 2).map(|i| u8::from_str_radix(&s[2 * i..2 * i + 2], 16).unwrap()).collect()
}

#[test]
fn digests_are_blake2s() {
    assert_eq!(
        blake2s_hash(b"a", b"bc").to_vec(),
        hex("508c5e8c327c14e2e1a72ba34eeb452f37458b209ed63a294d999b4c86675982")
    );
    assert_eq!(
        blake2s_hash(b"", b"").to_vec(),
        hex("69217a3079908094e11121d042354a7c1f55b6482ca1a51e1b250dfd1ed0eef9")
    );
}

#[test]
fn the_protocol_starts_from_its_name() {
    let state = initial_handshake_state(&[9; 32]);
    let chain = blake2s_hash(b"Noise_IKpsk2_25519_ChaChaPoly_BLAKE2s\0", b"");
    assert_eq!(state.chaining_key, chain);
    let named = blake2s_hash(&chain, b"WireGuard v1 zx2c4 Jason@zx2c4.com\0");
    assert_eq!(state.hash, blake2s_hash(&named, &[9; 32]));
    assert_ne!(state.hash, initial_handshake_state(&[8; 32]).hash);
}

#[test]
fn keyed_hashes_follow_their_definition() {
    let mut ipad = [0x36u8; 64];
    let mut opad = [0x5cu8; 64];
    for (i, k) in b"key".iter().enumerate() {
        ipad[i] ^= k;
        opad[i] ^= k;
    }
    let inner = blake2s_hash(&ipad, b"data");
    assert_eq!(hmac_blake2s(b"key", b"data"), blake2s_hash(&opad, &inner));
    let long = [7u8; 65];
    assert_eq!(hmac_blake2s(&long, b"data"), hmac_blake2s(&blake2s_hash(&long, b""), b"data"));
}

#[test]
fn keys_are_derived_in_a_chain() {
    let ck = [1u8; 32];
    let secret = hmac_blake2s(&ck, b"in");
    let one = hmac_blake2s(&secret, &[1]);
    let mut next = one.to_vec();
    next.push(2);
    let two = hmac_blake2s(&secret, &next);
    let mut last = two.to_vec();
    last.push(3);
    let three = hmac_blake2s(&secret, &last);
    assert_eq!(kdf(&ck, b"in", 1), (one, [0; 32], [0; 32]));
    assert_eq!(kdf(&ck, b"in", 3), (one, two, three));
    let mut chained = ck;
    assert_eq!(mix_key(&mut chained, b"in"), two);
    assert_eq!(chained, one);
    let mut hash = [5u8; 32];
    mix_hash(&mut hash, b"x");
    assert_eq!(hash, blake2s_hash(&[5; 32], b"x"));
    let mut chained = ck;
    let mut hash = [5u8; 32];
    let (a, b, c) = kdf(&ck, &[4; 32], 3);
    assert_eq!(mix_psk(&mut chained, &mut hash, &[4; 32]), c);
    assert_eq!((chained, hash), (a, blake2s_hash(&[5; 32], &b)));
}

#[test]
fn the_cipher_is_chacha20_poly1305() {
    let key = [3u8; 32];
    let sealed = aead_encrypt(b"hello", b"ad", 5, &key);
    let mut nonce = [0u8; 12];
    nonce[4..].copy_from_slice(&5u64.to_le_bytes());
    let cipher = <chacha20poly1305::ChaCha20Poly1305 as KeyInit>::new_from_slice(&key).unwrap();
    let want = cipher
        .encrypt(
            chacha20poly1305::Nonce::from_slice(&nonce),
            Payload { msg: &b"hello"[..], aad: &b"ad"[..] },
        )
        .unwrap();
    assert_eq!(sealed, want);
    assert_eq!(aead_decrypt(&sealed, b"ad", 5, &key), Some(b"hello".to_vec()));
    assert_eq!(aead_decrypt(&sealed, b"ad", 6, &key), None);
    assert_eq!(aead_decrypt(&sealed, b"", 5, &key), None);
    assert_eq!(aead_decrypt(&sealed[..15], b"ad", 5, &key), None);
    let mut mine = [1u8; 32];
    let mut theirs = [1u8; 32];
    let text = message_encrypt_and_hash(b"x", &key, &mut mine);
    assert_eq!(message_decrypt_and_hash(&text, &key, &mut theirs), Some(b"x".to_vec()));
    assert_eq!(mine, theirs);
}

#[test]
fn shared_secrets_agree() {
    let a = random_private_key([1; 32]).unwrap();
    let b = random_private_key([2; 32]).unwrap();
    let pa = public_key_from_private(a).unwrap();
    let pb = public_key_from_private(b).unwrap();
    assert_eq!(pa, x25519_dalek::x25519(a, x25519_dalek::X25519_BASEPOINT_BYTES));
    assert_eq!(x25519_shared_secret(a, pb), x25519_shared_secret(b, pa));
    assert_eq!(x25519_shared_secret(a, pb), Some(x25519_dalek::x25519(a, pb)));
    assert_eq!(x25519_shared_secret(a, [0; 32]), None);
    assert_eq!(public_key_from_private([0; 32]), None);
    assert!(is_zero_key(&[0; 32]) && !is_zero_key(&[1; 32]));
}

#[test]
fn labels_separate_the_keys() {
    let key = [6u8; 32];
    assert_eq!(message_mac1_key(&key), blake2s_hash(b"mac1----", &key));
    assert_eq!(cookie_encryption_key(&key), blake2s_hash(b"cookie--", &key));
}

fn initiation() -> HandshakeInitiation {
    HandshakeInitiation {
        sender_index: 0x0102_0304,
        unencrypted_ephemeral: [1; 32],
        encrypted_static: [2; 48],
        encrypted_timestamp: [3; 28],
        mac1: [4; 16],
        mac2: [5; 16],
    }
}

#[test]
fn messages_read_back() {
    let p = build_handshake_initiation(&initiation());
    assert_eq!((p.len(), p[0], p[4]), (148, 1, 4));
    assert!(message_type(&p) == Some(WireguardMessageType::HandshakeInitiation));
    let m = parse_handshake_initiation(&p).unwrap();
    assert_eq!(build_handshake_initiation(&m), p);
    assert!(parse_handshake_initiation(&p[..147]).is_none());
    let r = HandshakeResponse {
        sender_index: 1,
        receiver_index: 2,
        unencrypted_ephemeral: [1; 32],
        encrypted_nothing: [2; 16],
        mac1: [3; 16],
        mac2: [4; 16],
    };
    let p = build_handshake_response(&r);
    assert_eq!(p.len(), 92);
    assert_eq!(build_handshake_response(&parse_handshake_response(&p).unwrap()), p);
    let c = HandshakeCookie { receiver_index: 7, nonce: [1; 24], encrypted_cookie: [2; 32] };
    let p = build_handshake_cookie(&c);
    assert_eq!(p.len(), 64);
    assert_eq!(parse_handshake_cookie(&p).unwrap().receiver_index, 7);
    assert!(message_type(&[9, 0, 0, 0]).is_none());
}

#[test]
fn data_packets_read_back() {
    let p = build_data_packet(5, 6, &[7; 20]);
    assert_eq!(p[..16], [4, 0, 0, 0, 5, 0, 0, 0, 6, 0, 0, 0, 0, 0, 0, 0]);
    let d = parse_data_packet(&p).unwrap();
    assert_eq!((d.key_idx, d.counter, d.encrypted_payload), (5, 6, vec![7; 20]));
    assert!(parse_data_packet(&p[..31]).is_none());
    assert_eq!(pad_data_plaintext(&[1; 17]).len(), 32);
    assert_eq!((padded_data_len(16), padded_data_len(0)), (16, 0));
    assert_eq!((encrypted_len(16), message_data_len(16)), (32, 48));
    assert_eq!((message_data_len(0), message_data_len(1), message_data_len(17)), (32, 48, 64));
    assert_eq!((message_data_len(usize::MAX), message_data_len(usize::MAX - 15)), (usize::MAX, usize::MAX));
}

#[test]
fn macs_cover_the_message() {
    let key = [9u8; 32];
    let mut p = build_handshake_initiation(&initiation());
    assert!(!validate_mac1(&p, &key));
    let mac = apply_mac1(&mut p, &key).unwrap();
    assert_eq!(compute_mac1(&p, &key), Some(mac));
    assert!(validate_mac1(&p, &key));
    let mut m = blake2::Blake2sMac::<blake2::digest::consts::U16>::new_from_slice(&key).unwrap();
    Update::update(&mut m, &p[..116]);
    let want: [u8; 16] = m.finalize_fixed().into();
    assert_eq!(mac, want);
    p[10] ^= 1;
    assert!(!validate_mac1(&p, &key));
    assert!(constant_time_eq(b"ab", b"ab") && !constant_time_eq(b"ab", b"abc"));
    assert_eq!(apply_mac1(&mut vec![4; 10], &key), None);
}

#[test]
fn times_keep_their_order() {
    let a = tai64n_at(0, 0);
    assert_eq!(a, [0x40, 0, 0, 0, 0, 0, 0, 0x0a, 0, 0, 0, 0]);
    let b = tai64n_at(0, 5);
    let c = tai64n_at(1, 0);
    assert!(time_before(&a, &b) && time_before(&b, &c) && !time_before(&c, &a));
    assert!(!time_before(&a, &a));
}

#[test]
fn bytes_are_copied_by_place() {
    assert_eq!(read_array::<2>(&[1, 2, 3], 1), Some([2, 3]));
    assert_eq!(read_array::<2>(&[1, 2, 3], 2), None);
    assert_eq!(vec_to_array::<3>(&vec![1, 2, 3]), Some([1, 2, 3]));
    assert_eq!(vec_to_array::<2>(&vec![1, 2, 3]), None);
    let mut s = 1u64;
    let x = random_bytes(&mut s, 5);
    assert_ne!(random_bytes(&mut s, 5), x);
}

#[test]
fn no_packet_is_taken_twice() {
    let mut w = NoiseReplayCounter::new();
    assert!(w.validate(0) && !w.validate(0));
    assert!(w.validate(9000) && !w.validate(9000));
    assert!(!w.validate(1));
    assert!(w.validate(8999) && w.validate(8000) && !w.validate(8999));
    assert!(w.validate(900) && !w.validate(800));
    assert!(!w.validate(u64::MAX));
    let before = w;
    assert!(!w.validate(8999) && !w.validate(1) && !w.validate(u64::MAX));
    assert!(w.counter == before.counter && w.backtrack == before.backtrack);
}

#[test]
fn a_handshake_gives_both_sides_the_same_keys() {
    let (ia, ra) = ([11u8; 32], [22u8; 32]);
    let ip = public_key_from_private(ia).unwrap();
    let rp = public_key_from_private(ra).unwrap();
    let ss = x25519_shared_secret(ia, rp).unwrap();
    let now = tai64n_at(100, 0);
    let (msg, state) = create_handshake_initiation(ip, rp, ss, 77, [33; 32], now).unwrap();
    let seen =
        consume_handshake_initiation_for_peer(&msg, ra, rp, ip, ss, &tai64n_at(99, 0)).unwrap();
    assert_eq!((seen.remote_static, seen.remote_index, seen.timestamp), (ip, 77, now));
    assert_eq!(seen.state.hash, state.hash);
    assert!(consume_handshake_initiation_for_peer(&msg, ra, rp, ip, ss, &now).is_none());
    assert!(consume_handshake_initiation_for_peer(&msg, ra, rp, rp, ss, &[0; 12]).is_none());
    let (answer, theirs) = create_handshake_response(&seen, [5; 32], 88, [44; 32]).unwrap();
    assert!(consume_handshake_response(&answer, state, ia, [33; 32], [6; 32]).is_none());
    let done = consume_handshake_response(&answer, state, ia, [33; 32], [5; 32]).unwrap();
    assert_eq!(done.remote_index, 88);
    assert_eq!(done.state.chaining_key, theirs.chaining_key);
    let mut a = derive_keypair(&done.state.chaining_key, 88, true, 1);
    let b = derive_keypair(&theirs.chaining_key, 77, false, 1);
    assert_eq!(a.sending.key, b.receiving.key);
    assert_eq!(a.receiving.key, b.sending.key);
    assert_ne!(a.sending.key, a.receiving.key);
    assert_eq!((a.next_sending_counter(), a.next_sending_counter()), (Some(0), Some(1)));
    assert!(!a.needs_rekey());
    a.sending_counter = u64::MAX;
    assert!(a.needs_rekey());
    assert_eq!(a.next_sending_counter(), None);
}

#[test]
fn wrapped_messages_read_back() {
    let p = build_udp_ipv4_packet([10, 0, 0, 1], [10, 0, 0, 2], 1000, 2000, b"hello").unwrap();
    assert_eq!(p.len(), 33);
    assert_eq!(internet_checksum(&p[..20]), 0);
    let u = parse_udp_ipv4_payload(&p).unwrap();
    assert_eq!((u.src_port, u.dst_port, u.payload), (1000, 2000, b"hello".to_vec()));
    assert_eq!((u.info.src, u.info.dst, u.info.protocol), ([10, 0, 0, 1], [10, 0, 0, 2], 17));
    assert!(build_udp_ipv4_packet([0; 4], [0; 4], 1, 2, &vec![0; 65_508]).is_none());
    let mut longer = p.clone();
    longer.extend_from_slice(&[0; 6]);
    assert_eq!(trim_ipv4_packet(&longer), Some(p.clone()));
    assert_eq!(parse_ipv4_packet_info(&longer).unwrap().total_len, 33);
    assert!(parse_ipv4_packet_info(&p[..32]).is_none());
}

#[test]
fn checksums_follow_the_internet_rule() {
    assert_eq!(internet_checksum(&[0x00, 0x01, 0xf2, 0x03, 0xf4, 0xf5, 0xf6, 0xf7]), 0x220d);
    assert_eq!(internet_checksum(&[]), 0xffff);
    assert_eq!(internet_checksum(&[0x01]), 0xfeff);
}

#[test]
fn ipv6_packets_are_read() {
    let mut p = vec![0u8; 44];
    p[0] = 0x60;
    p[5] = 2;
    p[8] = 0xfe;
    p[39] = 1;
    let i = parse_ipv6_packet_info(&p).unwrap();
    assert_eq!((i.src[0], i.dst[15], i.total_len), (0xfe, 1, 42));
    assert_eq!(trim_ipv6_packet(&p).unwrap().len(), 42);
    assert!(parse_ipv6_packet_info(&p[..41]).is_none());
    p[0] = 0x40;
    assert!(parse_ipv6_packet_info(&p).is_none());
}
