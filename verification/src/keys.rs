//! The long-term identity key and the online key that it delegates to.

use crate::error::ErrorKind;
use crate::laws::{lemma_certificate_round_trip, lemma_signed_response_round_trip};
use crate::message::{decode_fields, encodable, encode_fields, values_len, Fields, RtMessage};
use crate::sign::{
    ed25519_public_key, ed25519_signature, Signer, PUBLIC_KEY_LENGTH, SEED_LENGTH,
    SIGNATURE_LENGTH,
};
use crate::tag::Tag;
use crate::wire::{encode_u32, encode_u64, u32_le_bytes, u64_le_bytes};
use crate::{
    certificate_context, signed_bytes, signed_response_context, CERTIFICATE_CONTEXT,
    SIGNED_RESPONSE_CONTEXT,
};
use vstd::prelude::*;

verus! {

/// The uncertainty that every response states: one second, in microseconds.
pub const RADIUS_MICROS: u32 = 1_000_000;

/// The longest Merkle root for which a response still fits the wire format.
pub const MAX_ROOT_LENGTH: usize = 0xffff_ff00;

/// A point in time: seconds since the epoch and nanoseconds within the
/// second.
#[derive(Clone, Copy, Debug, PartialEq, Eq, Structural)]
pub struct Timespec {
    pub sec: i64,
    pub nsec: i32,
}

/// The time in whole microseconds since the epoch. What is left of the
/// nanoseconds below a microsecond is dropped.
pub open spec fn midpoint_micros(now: Timespec) -> int {
    now.sec * 1_000_000 + now.nsec / 1_000
}

/// Whether the time can be written as an unsigned number of microseconds in
/// eight bytes.
pub open spec fn midpoint_fits(now: Timespec) -> bool {
    &&& now.sec >= 0
    &&& now.nsec >= 0
    &&& midpoint_micros(now) <= u64::MAX
}

/// The start of every delegation's validity: eight zero bytes.
pub open spec fn min_time_bytes() -> Seq<u8> {
    Seq::new(8, |i: int| 0x00u8)
}

/// The end of every delegation's validity: eight bytes of `0xff`.
pub open spec fn max_time_bytes() -> Seq<u8> {
    Seq::new(8, |i: int| 0xffu8)
}

/// The fields of the declaration that delegates to `public_key`.
pub open spec fn delegation_fields(public_key: Seq<u8>) -> Fields {
    seq![
        (Tag::PUBK, public_key),
        (Tag::MINT, min_time_bytes()),
        (Tag::MAXT, max_time_bytes()),
    ]
}

/// The fields that an online key signs in a response.
pub open spec fn response_fields(now: Timespec, merkle_root: Seq<u8>) -> Fields {
    seq![
        (Tag::RADI, u32_le_bytes(RADIUS_MICROS)),
        (Tag::MIDP, u64_le_bytes(midpoint_micros(now) as u64)),
        (Tag::ROOT, merkle_root),
    ]
}

/// The fields of the certificate by which the long-term key derived from
/// `seed` delegates to `online_public_key`: the signature over the context
/// and the declaration, then the declaration.
pub open spec fn certificate_fields(seed: Seq<u8>, online_public_key: Seq<u8>) -> Fields {
    let declaration = encode_fields(delegation_fields(online_public_key));
    seq![
        (Tag::SIG, ed25519_signature(seed, signed_bytes(certificate_context(), declaration))),
        (Tag::DELE, declaration),
    ]
}

/// The fields of the response that the online key derived from `seed` gives
/// for a time and a Merkle root: the signature over the context and the
/// signed fields, then the signed fields.
pub open spec fn signed_response_fields(
    seed: Seq<u8>,
    now: Timespec,
    merkle_root: Seq<u8>,
) -> Fields {
    let response = encode_fields(response_fields(now, merkle_root));
    seq![
        (Tag::SIG, ed25519_signature(seed, signed_bytes(signed_response_context(), response))),
        (Tag::SREP, response),
    ]
}

/// A declaration for a public key of 32 bytes fits the wire format.
pub proof fn lemma_delegation_encodable(public_key: Seq<u8>)
    requires
        public_key.len() == PUBLIC_KEY_LENGTH,
    ensures
        encodable(delegation_fields(public_key)),
        values_len(delegation_fields(public_key), 3) == 48,
{
    reveal_with_fuel(values_len, 4);
}

/// The signed fields of a response fit the wire format as long as the
/// Merkle root is no longer than `MAX_ROOT_LENGTH`.
pub proof fn lemma_response_encodable(now: Timespec, merkle_root: Seq<u8>)
    requires
        merkle_root.len() <= MAX_ROOT_LENGTH,
    ensures
        encodable(response_fields(now, merkle_root)),
        values_len(response_fields(now, merkle_root), 3) == 12 + merkle_root.len(),
{
    reveal_with_fuel(values_len, 4);
}

/// The time in whole microseconds since the epoch, where it can be written
/// as an unsigned number in eight bytes.
pub fn midpoint(now: Timespec) -> (res: Option<u64>)
    ensures
        res is Some <==> midpoint_fits(now),
        res matches Some(m) ==> m == midpoint_micros(now),
{
    if now.sec < 0 || now.nsec < 0 {
        return None;
    }
    let secs: u64 = now.sec as u64;
    let micros: u64 = (now.nsec as u64) / 1_000;
    if secs > (u64::MAX - micros) / 1_000_000 {
        return None;
    }
    Some(secs * 1_000_000 + micros)
}

/// The online key: short-lived, and the one that signs responses.
pub struct OnlineKey {
    signer: Signer,
}

impl OnlineKey {
    /// The invariant of the key.
    pub closed spec fn wf(&self) -> bool {
        self.signer.wf() && self.signer.pending() == Seq::<u8>::empty()
    }

    /// The seed from which the key pair was derived.
    pub closed spec fn seed(&self) -> Seq<u8> {
        self.signer.seed()
    }

    /// The public key.
    pub open spec fn public_key(&self) -> Seq<u8> {
        ed25519_public_key(self.seed())
    }

    /// The seed of a key has 32 bytes and its public key too.
    pub proof fn lemma_wf(&self)
        requires
            self.wf(),
        ensures
            self.seed().len() == SEED_LENGTH,
            self.public_key().len() == PUBLIC_KEY_LENGTH,
    {
        self.signer.lemma_wf();
    }

    /// A fresh random key; nothing where the system's random source fails.
    pub fn new() -> (res: Option<OnlineKey>)
        ensures
            res matches Some(key) ==> key.wf(),
    {
        match Signer::new() {
            Some(signer) => Some(OnlineKey { signer }),
            None => None,
        }
    }

    /// The key derived from `seed`, where the seed has 32 bytes; nothing for
    /// a seed of another length.
    pub fn from_seed(seed: &[u8]) -> (res: Option<OnlineKey>)
        ensures
            res is Some <==> seed@.len() == SEED_LENGTH,
            res matches Some(key) ==> key.wf() && key.seed() == seed@,
    {
        match Signer::from_seed(seed) {
            Some(signer) => Some(OnlineKey { signer }),
            None => None,
        }
    }

    /// The public key, 32 bytes.
    pub fn public_key_bytes(&self) -> (key: &[u8])
        requires
            self.wf(),
        ensures
            key@ == self.public_key(),
            key@.len() == PUBLIC_KEY_LENGTH,
    {
        self.signer.public_key_bytes()
    }

    /// The declaration that a long-term key signs to delegate to this key:
    /// the public key, valid from the start of time without end.
    pub fn make_dele(&self) -> (msg: RtMessage)
        requires
            self.wf(),
        ensures
            msg.wf(),
            msg@ == delegation_fields(self.public_key()),
            encodable(msg@),
    {
        let zeros: [u8; 8] = [0x00u8, 0x00u8, 0x00u8, 0x00u8, 0x00u8, 0x00u8, 0x00u8, 0x00u8];
        let max: [u8; 8] = [0xffu8, 0xffu8, 0xffu8, 0xffu8, 0xffu8, 0xffu8, 0xffu8, 0xffu8];
        proof {
            assert(zeros@ =~= min_time_bytes());
            assert(max@ =~= max_time_bytes());
        }
        let mut msg = RtMessage::new(3);
        let added = msg.add_field(Tag::PUBK, self.signer.public_key_bytes());
        assert(added is Ok);
        let added = msg.add_field(Tag::MINT, zeros.as_slice());
        assert(added is Ok);
        let added = msg.add_field(Tag::MAXT, max.as_slice());
        assert(added is Ok);
        proof {
            assert(msg@ =~= delegation_fields(self.public_key()));
            lemma_delegation_encodable(self.public_key());
        }
        msg
    }

    /// The response for a time and a Merkle root: the radius of one second,
    /// the time in microseconds and the root, encoded and signed by this key
    /// under the context of responses.
    pub fn make_srep(&mut self, now: Timespec, merkle_root: &[u8]) -> (msg: RtMessage)
        requires
            old(self).wf(),
            midpoint_fits(now),
            merkle_root@.len() <= MAX_ROOT_LENGTH,
        ensures
            final(self).wf(),
            final(self).seed() == old(self).seed(),
            msg.wf(),
            msg@ == signed_response_fields(old(self).seed(), now, merkle_root@),
            msg@[0].1.len() == SIGNATURE_LENGTH,
            encodable(msg@),
            merkle_root@.len() % 4 == 0 ==> decode_fields(encode_fields(msg@)) == Ok::<
                Fields,
                ErrorKind,
            >(msg@),
    {
        let radi = encode_u32(RADIUS_MICROS);
        let midp_time: u64 = (now.sec as u64) * 1_000_000 + (now.nsec as u64) / 1_000;
        let midp = encode_u64(midp_time);

        let mut srep_msg = RtMessage::new(3);
        let added = srep_msg.add_field(Tag::RADI, radi.as_slice());
        assert(added is Ok);
        let added = srep_msg.add_field(Tag::MIDP, midp.as_slice());
        assert(added is Ok);
        let added = srep_msg.add_field(Tag::ROOT, merkle_root);
        assert(added is Ok);
        proof {
            assert(srep_msg@ =~= response_fields(now, merkle_root@));
            lemma_response_encodable(now, merkle_root@);
        }
        let srep_bytes = srep_msg.encode();

        self.signer.update(SIGNED_RESPONSE_CONTEXT.as_bytes());
        self.signer.update(srep_bytes.as_slice());
        let srep_signature = self.signer.sign();

        let mut msg = RtMessage::new(2);
        let added = msg.add_field(Tag::SIG, srep_signature.as_slice());
        assert(added is Ok);
        let added = msg.add_field(Tag::SREP, srep_bytes.as_slice());
        assert(added is Ok);
        proof {
            assert(old(self).signer.pending() + signed_response_context() + srep_bytes@
                =~= signed_bytes(signed_response_context(), srep_bytes@));
            assert(msg@ =~= signed_response_fields(old(self).seed(), now, merkle_root@));
            lemma_signed_response_round_trip(old(self).seed(), now, merkle_root@);
        }
        msg
    }
}

/// The long-term key: the server's identity, which signs delegations and
/// nothing else.
pub struct LongTermKey {
    signer: Signer,
}

impl LongTermKey {
    /// The invariant of the key.
    pub closed spec fn wf(&self) -> bool {
        self.signer.wf() && self.signer.pending() == Seq::<u8>::empty()
    }

    /// The seed from which the key pair was derived.
    pub closed spec fn seed(&self) -> Seq<u8> {
        self.signer.seed()
    }

    /// The public key.
    pub open spec fn public_key(&self) -> Seq<u8> {
        ed25519_public_key(self.seed())
    }

    /// The key derived from `seed`, where the seed has 32 bytes; nothing for
    /// a seed of another length.
    pub fn new(seed: &[u8]) -> (res: Option<LongTermKey>)
        ensures
            res is Some <==> seed@.len() == SEED_LENGTH,
            res matches Some(key) ==> key.wf() && key.seed() == seed@,
    {
        match Signer::from_seed(seed) {
            Some(signer) => Some(LongTermKey { signer }),
            None => None,
        }
    }

    /// The public key, 32 bytes.
    pub fn public_key_bytes(&self) -> (key: &[u8])
        requires
            self.wf(),
        ensures
            key@ == self.public_key(),
            key@.len() == PUBLIC_KEY_LENGTH,
    {
        self.signer.public_key_bytes()
    }

    /// The certificate for an online key: its declaration, encoded, and the
    /// signature of this key over it under the context of delegations.
    pub fn make_cert(&mut self, online_key: &OnlineKey) -> (msg: RtMessage)
        requires
            old(self).wf(),
            online_key.wf(),
        ensures
            final(self).wf(),
            final(self).seed() == old(self).seed(),
            msg.wf(),
            msg@ == certificate_fields(old(self).seed(), online_key.public_key()),
            msg@[0].1.len() == SIGNATURE_LENGTH,
            encodable(msg@),
            decode_fields(encode_fields(msg@)) == Ok::<Fields, ErrorKind>(msg@),
    {
        let dele = online_key.make_dele();
        proof {
            online_key.lemma_wf();
            lemma_delegation_encodable(online_key.public_key());
        }
        let dele_bytes = dele.encode();

        self.signer.update(CERTIFICATE_CONTEXT.as_bytes());
        self.signer.update(dele_bytes.as_slice());
        let dele_signature = self.signer.sign();

        let mut msg = RtMessage::new(2);
        let added = msg.add_field(Tag::SIG, dele_signature.as_slice());
        assert(added is Ok);
        let added = msg.add_field(Tag::DELE, dele_bytes.as_slice());
        assert(added is Ok);
        proof {
            assert(old(self).signer.pending() + certificate_context() + dele_bytes@
                =~= signed_bytes(certificate_context(), dele_bytes@));
            assert(msg@ =~= certificate_fields(old(self).seed(), online_key.public_key()));
            lemma_certificate_round_trip(old(self).seed(), online_key.public_key());
        }
        msg
    }
}

} // verus!
