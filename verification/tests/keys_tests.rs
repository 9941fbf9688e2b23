use ring::signature::{Ed25519KeyPair, KeyPair};
use roughtime_keys::keys::{
    midpoint, LongTermKey, OnlineKey, Timespec, MAX_ROOT_LENGTH, RADIUS_MICROS,
};
use roughtime_keys::message::RtMessage;
use roughtime_keys::sign::Verifier;
use roughtime_keys::tag::Tag;
use roughtime_keys::{CERTIFICATE_CONTEXT, SIGNED_RESPONSE_CONTEXT};

const LONG_TERM_SEED: [u8; 32] = [0x11; 32];
const ONLINE_SEED: [u8; 32] = [0x22; 32];

fn verifies(public_key: &[u8], context: &str, payload: &[u8], signature: &[u8]) -> bool {
    let mut verifier = Verifier::new(public_key);
    verifier.update(context.as_bytes());
    verifier.update(payload);
    verifier.verify(signature)
}

fn reference_public_key(seed: &[u8]) -> Vec<u8> {
    Ed25519KeyPair::from_seed_unchecked(seed).unwrap().public_key().as_ref().to_vec()
}

fn reference_signature(seed: &[u8], context: &str, payload: &[u8]) -> Vec<u8> {
    let mut signed = context.as_bytes().to_vec();
    signed.extend_from_slice(payload);
    Ed25519KeyPair::from_seed_unchecked(seed).unwrap().sign(&signed).as_ref().to_vec()
}

#[test]
fn contexts_are_the_protocol_strings() {
    assert_eq!(CERTIFICATE_CONTEXT.as_bytes(), b"RoughTime v1 delegation signature--\x00");
    assert_eq!(SIGNED_RESPONSE_CONTEXT.as_bytes(), b"RoughTime v1 response signature\x00");
    assert_eq!(CERTIFICATE_CONTEXT.len(), 36);
    assert_eq!(SIGNED_RESPONSE_CONTEXT.len(), 32);
    assert_ne!(CERTIFICATE_CONTEXT.as_bytes()[13], SIGNED_RESPONSE_CONTEXT.as_bytes()[13]);
}

#[test]
fn long_term_key_is_derived_from_the_seed_alone() {
    let first = LongTermKey::new(&LONG_TERM_SEED).unwrap();
    let second = LongTermKey::new(&LONG_TERM_SEED).unwrap();
    assert_eq!(first.public_key_bytes(), second.public_key_bytes());
    assert_eq!(first.public_key_bytes(), &reference_public_key(&LONG_TERM_SEED)[..]);
    let other = LongTermKey::new(&[0x12; 32]).unwrap();
    assert_ne!(first.public_key_bytes(), other.public_key_bytes());
}

#[test]
fn long_term_key_gives_the_same_certificate_again() {
    let online = OnlineKey::from_seed(&ONLINE_SEED).unwrap();
    let mut first = LongTermKey::new(&LONG_TERM_SEED).unwrap();
    let mut second = LongTermKey::new(&LONG_TERM_SEED).unwrap();
    let one = first.make_cert(&online).encode();
    let two = second.make_cert(&online).encode();
    let again = first.make_cert(&online).encode();
    assert_eq!(one, two);
    assert_eq!(one, again);
}

#[test]
fn long_term_key_rejects_a_seed_of_another_length() {
    assert!(LongTermKey::new(&[]).is_none());
    assert!(LongTermKey::new(&[1u8; 16]).is_none());
    assert!(LongTermKey::new(&[1u8; 31]).is_none());
    assert!(LongTermKey::new(&[1u8; 33]).is_none());
    assert!(OnlineKey::from_seed(&[1u8; 31]).is_none());
    assert!(OnlineKey::from_seed(&[1u8; 33]).is_none());
}

#[test]
fn online_key_is_fresh_each_time() {
    let first = OnlineKey::new().unwrap();
    let second = OnlineKey::new().unwrap();
    assert_eq!(first.public_key_bytes().len(), 32);
    assert_ne!(first.public_key_bytes(), second.public_key_bytes());
}

#[test]
fn declaration_holds_key_and_fixed_validity() {
    let online = OnlineKey::from_seed(&ONLINE_SEED).unwrap();
    let dele = online.make_dele();
    assert_eq!(dele.num_fields(), 3);
    assert_eq!(dele.get_field(Tag::PUBK), Some(&reference_public_key(&ONLINE_SEED)[..]));
    assert_eq!(dele.get_field(Tag::PUBK), Some(online.public_key_bytes()));
    assert_eq!(dele.get_field(Tag::MINT), Some(&[0u8; 8][..]));
    assert_eq!(dele.get_field(Tag::MAXT), Some(&[0xffu8; 8][..]));
}

#[test]
fn declaration_bytes_are_laid_out_exactly() {
    let online = OnlineKey::from_seed(&ONLINE_SEED).unwrap();
    let mut expected: Vec<u8> = vec![3, 0, 0, 0, 32, 0, 0, 0, 40, 0, 0, 0];
    expected.extend_from_slice(b"PUBKMINTMAXT");
    expected.extend_from_slice(&reference_public_key(&ONLINE_SEED));
    expected.extend_from_slice(&[0u8; 8]);
    expected.extend_from_slice(&[0xffu8; 8]);
    assert_eq!(online.make_dele().encode(), expected);
    assert_eq!(expected.len(), 72);
}

#[test]
fn validity_window_does_not_depend_on_the_online_key() {
    let mut long_term = LongTermKey::new(&LONG_TERM_SEED).unwrap();
    let mut keys = vec![
        OnlineKey::from_seed(&[0u8; 32]).unwrap(),
        OnlineKey::from_seed(&[0xffu8; 32]).unwrap(),
        OnlineKey::from_seed(&ONLINE_SEED).unwrap(),
    ];
    keys.push(OnlineKey::new().unwrap());
    for online in keys.iter() {
        let cert = long_term.make_cert(online);
        let dele = RtMessage::from_bytes(cert.get_field(Tag::DELE).unwrap()).unwrap();
        assert_eq!(dele.get_field(Tag::MINT), Some(&[0u8; 8][..]));
        assert_eq!(dele.get_field(Tag::MAXT), Some(&[0xffu8; 8][..]));
        assert_eq!(dele.get_field(Tag::PUBK), Some(online.public_key_bytes()));
    }
}

#[test]
fn certificate_is_signature_then_declaration() {
    let online = OnlineKey::from_seed(&ONLINE_SEED).unwrap();
    let mut long_term = LongTermKey::new(&LONG_TERM_SEED).unwrap();
    let cert = long_term.make_cert(&online);
    assert_eq!(cert.num_fields(), 2);
    let dele_bytes = online.make_dele().encode();
    assert_eq!(cert.get_field(Tag::DELE), Some(&dele_bytes[..]));
    let expected = reference_signature(&LONG_TERM_SEED, CERTIFICATE_CONTEXT, &dele_bytes);
    assert_eq!(cert.get_field(Tag::SIG), Some(&expected[..]));
    assert_eq!(expected.len(), 64);
}

#[test]
fn certificate_verifies_under_the_long_term_key() {
    let online = OnlineKey::from_seed(&ONLINE_SEED).unwrap();
    let mut long_term = LongTermKey::new(&LONG_TERM_SEED).unwrap();
    let cert = long_term.make_cert(&online);
    let signature = cert.get_field(Tag::SIG).unwrap();
    let dele = cert.get_field(Tag::DELE).unwrap();
    assert!(verifies(long_term.public_key_bytes(), CERTIFICATE_CONTEXT, dele, signature));
    assert!(!verifies(online.public_key_bytes(), CERTIFICATE_CONTEXT, dele, signature));
}

#[test]
fn certificate_signature_fails_under_the_response_context() {
    let online = OnlineKey::from_seed(&ONLINE_SEED).unwrap();
    let mut long_term = LongTermKey::new(&LONG_TERM_SEED).unwrap();
    let cert = long_term.make_cert(&online);
    let signature = cert.get_field(Tag::SIG).unwrap();
    let dele = cert.get_field(Tag::DELE).unwrap();
    assert!(!verifies(long_term.public_key_bytes(), SIGNED_RESPONSE_CONTEXT, dele, signature));
    assert!(!verifies(long_term.public_key_bytes(), "", dele, signature));
}

#[test]
fn response_signature_fails_under_the_certificate_context() {
    let mut online = OnlineKey::from_seed(&ONLINE_SEED).unwrap();
    let srep = online.make_srep(Timespec { sec: 5, nsec: 6 }, &[0x33; 64]);
    let signature = srep.get_field(Tag::SIG).unwrap();
    let inner = srep.get_field(Tag::SREP).unwrap();
    assert!(verifies(online.public_key_bytes(), SIGNED_RESPONSE_CONTEXT, inner, signature));
    assert!(!verifies(online.public_key_bytes(), CERTIFICATE_CONTEXT, inner, signature));
}

#[test]
fn same_payload_signed_under_both_contexts_gives_two_signatures() {
    let payload = [0x77u8; 40];
    let as_certificate = reference_signature(&ONLINE_SEED, CERTIFICATE_CONTEXT, &payload);
    let as_response = reference_signature(&ONLINE_SEED, SIGNED_RESPONSE_CONTEXT, &payload);
    assert_ne!(as_certificate, as_response);
    let key = reference_public_key(&ONLINE_SEED);
    assert!(verifies(&key, CERTIFICATE_CONTEXT, &payload, &as_certificate));
    assert!(verifies(&key, SIGNED_RESPONSE_CONTEXT, &payload, &as_response));
    assert!(!verifies(&key, SIGNED_RESPONSE_CONTEXT, &payload, &as_certificate));
    assert!(!verifies(&key, CERTIFICATE_CONTEXT, &payload, &as_response));
}

#[test]
fn flipping_any_bit_of_the_declaration_breaks_the_certificate() {
    let online = OnlineKey::from_seed(&ONLINE_SEED).unwrap();
    let mut long_term = LongTermKey::new(&LONG_TERM_SEED).unwrap();
    let cert = long_term.make_cert(&online);
    let signature = cert.get_field(Tag::SIG).unwrap().to_vec();
    let dele = cert.get_field(Tag::DELE).unwrap().to_vec();
    let key = long_term.public_key_bytes().to_vec();
    assert!(verifies(&key, CERTIFICATE_CONTEXT, &dele, &signature));
    for byte in 0..dele.len() {
        for bit in 0..8 {
            let mut tampered = dele.clone();
            tampered[byte] ^= 1 << bit;
            assert!(!verifies(&key, CERTIFICATE_CONTEXT, &tampered, &signature));
        }
    }
}

#[test]
fn midpoint_counts_microseconds() {
    assert_eq!(midpoint(Timespec { sec: 1, nsec: 500_000_000 }), Some(1_500_000));
    assert_eq!(midpoint(Timespec { sec: 0, nsec: 0 }), Some(0));
    assert_eq!(midpoint(Timespec { sec: 1_700_000_000, nsec: 123_456_789 }), Some(1_700_000_000_123_456));
}

#[test]
fn midpoint_drops_what_is_below_a_microsecond() {
    assert_eq!(midpoint(Timespec { sec: 0, nsec: 999 }), Some(0));
    assert_eq!(midpoint(Timespec { sec: 0, nsec: 1_000 }), Some(1));
    assert_eq!(midpoint(Timespec { sec: 0, nsec: 1_999 }), Some(1));
    assert_eq!(midpoint(Timespec { sec: 2, nsec: 999_999_999 }), Some(2_999_999));
}

#[test]
fn midpoint_has_no_value_outside_eight_unsigned_bytes() {
    assert_eq!(midpoint(Timespec { sec: -1, nsec: 0 }), None);
    assert_eq!(midpoint(Timespec { sec: 0, nsec: -1 }), None);
    assert_eq!(midpoint(Timespec { sec: i64::MAX, nsec: 0 }), None);
    assert_eq!(midpoint(Timespec { sec: 18_446_744_073_710, nsec: 0 }), None);
    assert_eq!(
        midpoint(Timespec { sec: 18_446_744_073_709, nsec: 551_615_999 }),
        Some(u64::MAX)
    );
    assert_eq!(midpoint(Timespec { sec: 18_446_744_073_709, nsec: 551_616_000 }), None);
}

#[test]
fn response_encodes_the_midpoint_little_endian() {
    let mut online = OnlineKey::from_seed(&ONLINE_SEED).unwrap();
    let srep = online.make_srep(Timespec { sec: 1, nsec: 500_000_000 }, &[0u8; 64]);
    let inner = RtMessage::from_bytes(srep.get_field(Tag::SREP).unwrap()).unwrap();
    assert_eq!(
        inner.get_field(Tag::MIDP),
        Some(&[0x60u8, 0xe3, 0x16, 0x00, 0x00, 0x00, 0x00, 0x00][..])
    );
    assert_eq!(inner.get_field(Tag::MIDP), Some(&1_500_000u64.to_le_bytes()[..]));
}

#[test]
fn response_truncates_the_midpoint() {
    let mut online = OnlineKey::from_seed(&ONLINE_SEED).unwrap();
    let srep = online.make_srep(Timespec { sec: 0, nsec: 999 }, &[0u8; 64]);
    let inner = RtMessage::from_bytes(srep.get_field(Tag::SREP).unwrap()).unwrap();
    assert_eq!(inner.get_field(Tag::MIDP), Some(&[0u8; 8][..]));
}

#[test]
fn response_encodes_a_large_midpoint() {
    let mut online = OnlineKey::from_seed(&ONLINE_SEED).unwrap();
    let now = Timespec { sec: 0x0102_0304_0506, nsec: 0 };
    let srep = online.make_srep(now, &[0u8; 64]);
    let inner = RtMessage::from_bytes(srep.get_field(Tag::SREP).unwrap()).unwrap();
    let expected = (0x0102_0304_0506u64 * 1_000_000).to_le_bytes();
    assert_eq!(inner.get_field(Tag::MIDP), Some(&expected[..]));
    assert_ne!(expected[4..8], [0u8; 4]);
}

#[test]
fn response_radius_is_one_second_whatever_the_input() {
    let mut online = OnlineKey::from_seed(&ONLINE_SEED).unwrap();
    let times = [
        Timespec { sec: 0, nsec: 0 },
        Timespec { sec: 1, nsec: 500_000_000 },
        Timespec { sec: 4_000_000_000, nsec: 999_999_999 },
    ];
    let roots: [&[u8]; 3] = [&[], &[0xab; 32], &[0xcd; 64]];
    for now in times.iter() {
        for root in roots.iter() {
            let srep = online.make_srep(*now, root);
            let inner = RtMessage::from_bytes(srep.get_field(Tag::SREP).unwrap()).unwrap();
            let radius = inner.get_field(Tag::RADI).unwrap();
            assert_eq!(radius, &[0x40u8, 0x42, 0x0f, 0x00][..]);
            assert_eq!(u32::from_le_bytes([radius[0], radius[1], radius[2], radius[3]]), 1_000_000);
            assert_eq!(inner.get_field(Tag::ROOT), Some(*root));
        }
    }
    assert_eq!(RADIUS_MICROS, 1_000_000);
}

#[test]
fn response_bytes_are_laid_out_exactly() {
    let mut online = OnlineKey::from_seed(&ONLINE_SEED).unwrap();
    let root = [0x5au8; 64];
    let srep = online.make_srep(Timespec { sec: 1, nsec: 500_000_000 }, &root);
    let mut inner: Vec<u8> = vec![3, 0, 0, 0, 4, 0, 0, 0, 12, 0, 0, 0];
    inner.extend_from_slice(b"RADIMIDPROOT");
    inner.extend_from_slice(&[0x40, 0x42, 0x0f, 0x00]);
    inner.extend_from_slice(&[0x60, 0xe3, 0x16, 0x00, 0x00, 0x00, 0x00, 0x00]);
    inner.extend_from_slice(&root);
    assert_eq!(srep.num_fields(), 2);
    assert_eq!(srep.get_field(Tag::SREP), Some(&inner[..]));
    let signature = reference_signature(&ONLINE_SEED, SIGNED_RESPONSE_CONTEXT, &inner);
    assert_eq!(srep.get_field(Tag::SIG), Some(&signature[..]));

    let mut outer: Vec<u8> = vec![2, 0, 0, 0, 64, 0, 0, 0];
    outer.extend_from_slice(b"SIG\x00SREP");
    outer.extend_from_slice(&signature);
    outer.extend_from_slice(&inner);
    assert_eq!(srep.encode(), outer);
}

#[test]
fn response_takes_the_root_as_it_comes() {
    let mut online = OnlineKey::from_seed(&ONLINE_SEED).unwrap();
    let now = Timespec { sec: 10, nsec: 0 };
    let empty = online.make_srep(now, &[]);
    assert_eq!(empty.get_field(Tag::SREP).unwrap().len(), 36);
    let odd = online.make_srep(now, &[1, 2, 3, 4, 5]);
    let inner = odd.get_field(Tag::SREP).unwrap();
    assert_eq!(inner.len(), 41);
    assert_eq!(&inner[36..], &[1, 2, 3, 4, 5]);
    assert!(verifies(
        online.public_key_bytes(),
        SIGNED_RESPONSE_CONTEXT,
        inner,
        odd.get_field(Tag::SIG).unwrap()
    ));
    assert!(MAX_ROOT_LENGTH >= 64);
}

#[test]
fn online_key_signs_many_responses() {
    let mut online = OnlineKey::from_seed(&ONLINE_SEED).unwrap();
    let first = online.make_srep(Timespec { sec: 1, nsec: 0 }, &[1u8; 64]).encode();
    let second = online.make_srep(Timespec { sec: 2, nsec: 0 }, &[1u8; 64]).encode();
    let again = online.make_srep(Timespec { sec: 1, nsec: 0 }, &[1u8; 64]).encode();
    assert_ne!(first, second);
    assert_eq!(first, again);
}

#[test]
fn certificate_round_trips_through_its_bytes() {
    let online = OnlineKey::from_seed(&ONLINE_SEED).unwrap();
    let mut long_term = LongTermKey::new(&LONG_TERM_SEED).unwrap();
    let cert = long_term.make_cert(&online);
    let bytes = cert.encode();
    assert_eq!(bytes.len(), 16 + 64 + 72);
    let decoded = RtMessage::from_bytes(&bytes).unwrap();
    assert_eq!(decoded.num_fields(), 2);
    assert_eq!(decoded.get_field(Tag::SIG), cert.get_field(Tag::SIG));
    assert_eq!(decoded.get_field(Tag::DELE), cert.get_field(Tag::DELE));
    assert_eq!(decoded.encode(), bytes);
}

#[test]
fn response_round_trips_through_its_bytes() {
    let mut online = OnlineKey::from_seed(&ONLINE_SEED).unwrap();
    let srep = online.make_srep(Timespec { sec: 1_600_000_000, nsec: 1 }, &[0x99; 64]);
    let bytes = srep.encode();
    assert_eq!(bytes.len(), 16 + 64 + 36 + 64);
    let decoded = RtMessage::from_bytes(&bytes).unwrap();
    assert_eq!(decoded.num_fields(), 2);
    assert_eq!(decoded.get_field(Tag::SIG), srep.get_field(Tag::SIG));
    assert_eq!(decoded.get_field(Tag::SREP), srep.get_field(Tag::SREP));
    let inner = RtMessage::from_bytes(decoded.get_field(Tag::SREP).unwrap()).unwrap();
    assert_eq!(inner.num_fields(), 3);
    assert_eq!(inner.get_field(Tag::ROOT), Some(&[0x99u8; 64][..]));
}
