//! What holds of keys, certificates and responses as a whole.

use crate::error::ErrorKind;
use crate::keys::{
    certificate_fields, delegation_fields, lemma_delegation_encodable, lemma_response_encodable,
    max_time_bytes, midpoint_fits, midpoint_micros, min_time_bytes, response_fields,
    signed_response_fields, LongTermKey, Timespec, MAX_ROOT_LENGTH, RADIUS_MICROS,
};
use crate::message::{
    ascending, decode_fields, encodable, encode_fields, field_value, lemma_encode_len,
    lemma_field_value_at, values_len, Fields,
};
use crate::roundtrip::{aligned, lemma_decode_encode};
use crate::sign::{PUBLIC_KEY_LENGTH, SIGNATURE_LENGTH};
use crate::tag::Tag;
use crate::wire::{
    le_u32, le_u64, lemma_le_u32_of_bytes, lemma_le_u64_of_bytes, u32_le_bytes, u64_le_bytes,
};
use crate::{
    certificate_context, signed_bytes, signed_response_context, CERTIFICATE_CONTEXT,
    SIGNED_RESPONSE_CONTEXT,
};
use vstd::prelude::*;
use vstd::string::{is_ascii, is_ascii_spec_bytes};

verus! {

/// Two long-term keys derived from the same seed have the same public key
/// and give the same certificate, byte for byte, for the same online key.
pub proof fn lemma_derivation_deterministic(
    first: &LongTermKey,
    second: &LongTermKey,
    online_public_key: Seq<u8>,
)
    requires
        first.seed() == second.seed(),
    ensures
        first.public_key() == second.public_key(),
        certificate_fields(first.seed(), online_public_key) == certificate_fields(
            second.seed(),
            online_public_key,
        ),
        encode_fields(certificate_fields(first.seed(), online_public_key)) == encode_fields(
            certificate_fields(second.seed(), online_public_key),
        ),
{
}

/// The bytes of the two contexts: 36 and 32 bytes of ASCII that end in a
/// zero byte. They differ in their fourteenth byte.
pub proof fn lemma_contexts()
    ensures
        certificate_context() == seq![
            0x52u8, 0x6fu8, 0x75u8, 0x67u8, 0x68u8, 0x54u8, 0x69u8, 0x6du8,
            0x65u8, 0x20u8, 0x76u8, 0x31u8, 0x20u8, 0x64u8, 0x65u8, 0x6cu8,
            0x65u8, 0x67u8, 0x61u8, 0x74u8, 0x69u8, 0x6fu8, 0x6eu8, 0x20u8,
            0x73u8, 0x69u8, 0x67u8, 0x6eu8, 0x61u8, 0x74u8, 0x75u8, 0x72u8,
            0x65u8, 0x2du8, 0x2du8, 0x00u8,
        ],
        signed_response_context() == seq![
            0x52u8, 0x6fu8, 0x75u8, 0x67u8, 0x68u8, 0x54u8, 0x69u8, 0x6du8,
            0x65u8, 0x20u8, 0x76u8, 0x31u8, 0x20u8, 0x72u8, 0x65u8, 0x73u8,
            0x70u8, 0x6fu8, 0x6eu8, 0x73u8, 0x65u8, 0x20u8, 0x73u8, 0x69u8,
            0x67u8, 0x6eu8, 0x61u8, 0x74u8, 0x75u8, 0x72u8, 0x65u8, 0x00u8,
        ],
        certificate_context().len() == 36,
        signed_response_context().len() == 32,
        certificate_context()[13] != signed_response_context()[13],
{
    reveal_strlit("RoughTime v1 delegation signature--\x00");
    reveal_strlit("RoughTime v1 response signature\x00");
    assert(is_ascii(CERTIFICATE_CONTEXT));
    assert(is_ascii(SIGNED_RESPONSE_CONTEXT));
    is_ascii_spec_bytes(CERTIFICATE_CONTEXT);
    is_ascii_spec_bytes(SIGNED_RESPONSE_CONTEXT);
    assert(certificate_context() =~= seq![
            0x52u8, 0x6fu8, 0x75u8, 0x67u8, 0x68u8, 0x54u8, 0x69u8, 0x6du8,
            0x65u8, 0x20u8, 0x76u8, 0x31u8, 0x20u8, 0x64u8, 0x65u8, 0x6cu8,
            0x65u8, 0x67u8, 0x61u8, 0x74u8, 0x69u8, 0x6fu8, 0x6eu8, 0x20u8,
            0x73u8, 0x69u8, 0x67u8, 0x6eu8, 0x61u8, 0x74u8, 0x75u8, 0x72u8,
            0x65u8, 0x2du8, 0x2du8, 0x00u8,
        ]);
    assert(signed_response_context() =~= seq![
            0x52u8, 0x6fu8, 0x75u8, 0x67u8, 0x68u8, 0x54u8, 0x69u8, 0x6du8,
            0x65u8, 0x20u8, 0x76u8, 0x31u8, 0x20u8, 0x72u8, 0x65u8, 0x73u8,
            0x70u8, 0x6fu8, 0x6eu8, 0x73u8, 0x65u8, 0x20u8, 0x73u8, 0x69u8,
            0x67u8, 0x6eu8, 0x61u8, 0x74u8, 0x75u8, 0x72u8, 0x65u8, 0x00u8,
        ]);
}

/// What is signed for a delegation is never what is signed for a response,
/// whatever the two payloads are: the bytes differ within the contexts.
pub proof fn lemma_signed_bytes_separate(delegation: Seq<u8>, response: Seq<u8>)
    ensures
        signed_bytes(certificate_context(), delegation) != signed_bytes(
            signed_response_context(),
            response,
        ),
{
    lemma_contexts();
    let a = signed_bytes(certificate_context(), delegation);
    let b = signed_bytes(signed_response_context(), response);
    assert(a[13] == certificate_context()[13]);
    assert(b[13] == signed_response_context()[13]);
}

/// A declaration is three ascending fields, it takes 72 bytes, and decoding
/// those bytes gives the declaration again.
pub proof fn lemma_delegation_round_trip(public_key: Seq<u8>)
    requires
        public_key.len() == PUBLIC_KEY_LENGTH,
    ensures
        ascending(delegation_fields(public_key)),
        encode_fields(delegation_fields(public_key)).len() == 72,
        decode_fields(encode_fields(delegation_fields(public_key))) == Ok::<Fields, ErrorKind>(
            delegation_fields(public_key),
        ),
{
    let f = delegation_fields(public_key);
    lemma_delegation_encodable(public_key);
    lemma_encode_len(f);
    assert(aligned(f));
    lemma_decode_encode(f);
}

/// Every declaration is valid from eight zero bytes to eight bytes of
/// `0xff`, whatever the online key.
pub proof fn lemma_fixed_validity_window(public_key: Seq<u8>)
    ensures
        field_value(delegation_fields(public_key), Tag::PUBK) == Some(public_key),
        field_value(delegation_fields(public_key), Tag::MINT) == Some(min_time_bytes()),
        field_value(delegation_fields(public_key), Tag::MAXT) == Some(max_time_bytes()),
        min_time_bytes().len() == 8,
        max_time_bytes().len() == 8,
        forall|i: int| 0 <= i < 8 ==> min_time_bytes()[i] == 0x00 && max_time_bytes()[i] == 0xff,
{
    let f = delegation_fields(public_key);
    lemma_field_value_at(f, 0);
    lemma_field_value_at(f, 1);
    lemma_field_value_at(f, 2);
}

/// Every certificate carries, under `DELE`, a declaration with that fixed
/// validity: decoding the field gives the declaration of the online key.
pub proof fn lemma_certificate_declaration(seed: Seq<u8>, online_public_key: Seq<u8>)
    requires
        online_public_key.len() == PUBLIC_KEY_LENGTH,
    ensures
        ascending(certificate_fields(seed, online_public_key)),
        field_value(certificate_fields(seed, online_public_key), Tag::DELE) matches Some(bytes)
            && decode_fields(bytes) == Ok::<Fields, ErrorKind>(
            delegation_fields(online_public_key),
        ),
{
    let f = certificate_fields(seed, online_public_key);
    lemma_field_value_at(f, 1);
    lemma_delegation_round_trip(online_public_key);
}

/// The signed fields of every response state a radius of 1,000,000
/// microseconds, whatever the time and the root.
pub proof fn lemma_radius_constant(now: Timespec, merkle_root: Seq<u8>)
    ensures
        field_value(response_fields(now, merkle_root), Tag::RADI) == Some(
            u32_le_bytes(RADIUS_MICROS),
        ),
        le_u32(u32_le_bytes(RADIUS_MICROS)) == 1_000_000,
        u32_le_bytes(RADIUS_MICROS) == seq![0x40u8, 0x42u8, 0x0fu8, 0x00u8],
{
    let f = response_fields(now, merkle_root);
    lemma_field_value_at(f, 0);
    lemma_le_u32_of_bytes(RADIUS_MICROS);
    assert(u32_le_bytes(RADIUS_MICROS) =~= seq![0x40u8, 0x42u8, 0x0fu8, 0x00u8]);
}

/// The signed fields of every response state the time as microseconds
/// since the epoch in eight little-endian bytes: a million for each second
/// and one for each full thousand nanoseconds.
pub proof fn lemma_midpoint_encoding(now: Timespec, merkle_root: Seq<u8>)
    requires
        midpoint_fits(now),
    ensures
        field_value(response_fields(now, merkle_root), Tag::MIDP) == Some(
            u64_le_bytes(midpoint_micros(now) as u64),
        ),
        u64_le_bytes(midpoint_micros(now) as u64).len() == 8,
        le_u64(u64_le_bytes(midpoint_micros(now) as u64)) == now.sec * 1_000_000 + now.nsec
            / 1_000,
{
    let f = response_fields(now, merkle_root);
    lemma_field_value_at(f, 1);
    lemma_le_u64_of_bytes(midpoint_micros(now) as u64);
}

/// The signed fields of a response are three ascending fields, and where
/// the root's length is a multiple of four, decoding their bytes gives them
/// again.
pub proof fn lemma_response_round_trip(now: Timespec, merkle_root: Seq<u8>)
    requires
        merkle_root.len() <= MAX_ROOT_LENGTH,
    ensures
        ascending(response_fields(now, merkle_root)),
        encode_fields(response_fields(now, merkle_root)).len() == 36 + merkle_root.len(),
        merkle_root.len() % 4 == 0 ==> decode_fields(
            encode_fields(response_fields(now, merkle_root)),
        ) == Ok::<Fields, ErrorKind>(response_fields(now, merkle_root)),
{
    let f = response_fields(now, merkle_root);
    lemma_response_encodable(now, merkle_root);
    lemma_encode_len(f);
    if merkle_root.len() % 4 == 0 {
        assert(aligned(f));
        lemma_decode_encode(f);
    }
}

/// A signature of 64 bytes in front of a payload makes a message that fits
/// the wire format, and where the payload's length is a multiple of four,
/// decoding the message's bytes gives the two fields again.
pub proof fn lemma_signed_round_trip(signature: Seq<u8>, tag: Tag, payload: Seq<u8>)
    requires
        signature.len() == SIGNATURE_LENGTH,
        Tag::SIG.precedes_spec(tag),
        payload.len() <= MAX_ROOT_LENGTH + 36,
    ensures
        ascending(seq![(Tag::SIG, signature), (tag, payload)]),
        encodable(seq![(Tag::SIG, signature), (tag, payload)]),
        payload.len() % 4 == 0 ==> decode_fields(
            encode_fields(seq![(Tag::SIG, signature), (tag, payload)]),
        ) == Ok::<Fields, ErrorKind>(seq![(Tag::SIG, signature), (tag, payload)]),
{
    let f = seq![(Tag::SIG, signature), (tag, payload)];
    reveal_with_fuel(values_len, 3);
    assert(values_len(f, 2) == 64 + payload.len());
    if payload.len() % 4 == 0 {
        assert(aligned(f));
        lemma_decode_encode(f);
    }
}

/// A certificate whose signature has 64 bytes decodes, from its own bytes,
/// to the same two fields.
pub proof fn lemma_certificate_round_trip(seed: Seq<u8>, online_public_key: Seq<u8>)
    requires
        online_public_key.len() == PUBLIC_KEY_LENGTH,
        certificate_fields(seed, online_public_key)[0].1.len() == SIGNATURE_LENGTH,
    ensures
        encodable(certificate_fields(seed, online_public_key)),
        decode_fields(encode_fields(certificate_fields(seed, online_public_key))) == Ok::<
            Fields,
            ErrorKind,
        >(certificate_fields(seed, online_public_key)),
{
    let f = certificate_fields(seed, online_public_key);
    lemma_delegation_round_trip(online_public_key);
    lemma_signed_round_trip(f[0].1, Tag::DELE, f[1].1);
    assert(f =~= seq![(Tag::SIG, f[0].1), (Tag::DELE, f[1].1)]);
}

/// A response whose signature has 64 bytes fits the wire format, and where
/// the root's length is a multiple of four it decodes, from its own bytes,
/// to the same two fields.
pub proof fn lemma_signed_response_round_trip(seed: Seq<u8>, now: Timespec, merkle_root: Seq<u8>)
    requires
        merkle_root.len() <= MAX_ROOT_LENGTH,
        signed_response_fields(seed, now, merkle_root)[0].1.len() == SIGNATURE_LENGTH,
    ensures
        encodable(signed_response_fields(seed, now, merkle_root)),
        merkle_root.len() % 4 == 0 ==> decode_fields(
            encode_fields(signed_response_fields(seed, now, merkle_root)),
        ) == Ok::<Fields, ErrorKind>(signed_response_fields(seed, now, merkle_root)),
{
    let f = signed_response_fields(seed, now, merkle_root);
    lemma_response_round_trip(now, merkle_root);
    lemma_signed_round_trip(f[0].1, Tag::SREP, f[1].1);
    assert(f =~= seq![(Tag::SIG, f[0].1), (Tag::SREP, f[1].1)]);
}

} // verus!
