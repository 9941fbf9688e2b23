//! Ed25519 signing and verification with a streaming interface: the bytes
//! to sign are handed over piece by piece, then signed as one message.

use crate::wire::append_bytes;
use ring::rand::{SecureRandom, SystemRandom};
use ring::signature::{Ed25519KeyPair, KeyPair, UnparsedPublicKey, ED25519};
use vstd::prelude::*;
use vstd::slice::slice_to_vec;

verus! {

/// Length of the seed from which a key pair is derived.
pub const SEED_LENGTH: usize = 32;

/// Length of a public key.
pub const PUBLIC_KEY_LENGTH: usize = 32;

/// Length of a signature.
pub const SIGNATURE_LENGTH: usize = 64;

/// The public key of the Ed25519 key pair derived from `seed`.
pub uninterp spec fn ed25519_public_key(seed: Seq<u8>) -> Seq<u8>;

/// The Ed25519 signature of `msg` under the key pair derived from `seed`.
pub uninterp spec fn ed25519_signature(seed: Seq<u8>, msg: Seq<u8>) -> Seq<u8>;

/// Whether Ed25519 verification accepts `signature` for `msg` under
/// `public_key`.
pub uninterp spec fn ed25519_accepts(public_key: Seq<u8>, msg: Seq<u8>, signature: Seq<u8>) -> bool;

/// `ring::signature::Ed25519KeyPair::from_seed_unchecked`, then the pair's
/// `public_key`. The seed is accepted exactly when it has 32 bytes; the
/// public key depends on the seed alone and has 32 bytes.
#[verifier::external_body]
fn derive_public_key(seed: &[u8]) -> (res: Option<Vec<u8>>)
    ensures
        res is Some <==> seed@.len() == SEED_LENGTH,
        res matches Some(key) ==> key@ == ed25519_public_key(seed@) && key@.len()
            == PUBLIC_KEY_LENGTH,
{
    match Ed25519KeyPair::from_seed_unchecked(seed) {
        Ok(pair) => Some(pair.public_key().as_ref().to_vec()),
        Err(_) => None,
    }
}

/// `ring::signature::Ed25519KeyPair::sign` with the pair derived from
/// `seed`. Ed25519 signs without randomness: the 64 bytes depend on the seed
/// and the message alone. A seed that is not 32 bytes long has no key pair
/// and is left out.
#[verifier::external_body]
fn sign_with_seed(seed: &[u8], msg: &[u8]) -> (signature: Vec<u8>)
    requires
        seed@.len() == SEED_LENGTH,
    ensures
        signature@ == ed25519_signature(seed@, msg@),
        signature@.len() == SIGNATURE_LENGTH,
{
    match Ed25519KeyPair::from_seed_unchecked(seed) {
        Ok(pair) => pair.sign(msg).as_ref().to_vec(),
        Err(_) => Vec::new(),
    }
}

/// `ring::signature::UnparsedPublicKey::verify` with the `ED25519`
/// parameters: whether the signature is accepted depends on the three byte
/// strings alone.
#[verifier::external_body]
fn verify_with_key(public_key: &[u8], msg: &[u8], signature: &[u8]) -> (accepted: bool)
    ensures
        accepted == ed25519_accepts(public_key@, msg@, signature@),
{
    UnparsedPublicKey::new(&ED25519, public_key).verify(msg, signature).is_ok()
}

/// `ring::rand::SystemRandom::fill` on a buffer of 32 bytes: a fresh seed
/// from the system's random source, or nothing where that source fails.
#[verifier::external_body]
fn random_seed() -> (res: Option<Vec<u8>>)
    ensures
        res matches Some(seed) ==> seed@.len() == SEED_LENGTH,
{
    let mut seed = [0u8; 32];
    match SystemRandom::new().fill(&mut seed) {
        Ok(_) => Some(seed.to_vec()),
        Err(_) => None,
    }
}

/// Signs what it was handed with `update`, in one piece, when `sign` is
/// called.
pub struct Signer {
    seed: Vec<u8>,
    public_key: Vec<u8>,
    buf: Vec<u8>,
}

impl Signer {
    /// The invariant of a signer: a seed of the right length and the public
    /// key that belongs to it.
    pub closed spec fn wf(&self) -> bool {
        &&& self.seed@.len() == SEED_LENGTH
        &&& self.public_key@.len() == PUBLIC_KEY_LENGTH
        &&& self.public_key@ == ed25519_public_key(self.seed@)
    }

    /// The seed from which the key pair was derived.
    pub closed spec fn seed(&self) -> Seq<u8> {
        self.seed@
    }

    /// The bytes handed over since the last signature.
    pub closed spec fn pending(&self) -> Seq<u8> {
        self.buf@
    }

    /// The signer's seed has 32 bytes and its public key too.
    pub proof fn lemma_wf(&self)
        requires
            self.wf(),
        ensures
            self.seed().len() == SEED_LENGTH,
            ed25519_public_key(self.seed()).len() == PUBLIC_KEY_LENGTH,
    {
    }

    /// A signer with the key pair derived from `seed`, where the seed has 32
    /// bytes; nothing for a seed of another length.
    pub fn from_seed(seed: &[u8]) -> (res: Option<Signer>)
        ensures
            res is Some <==> seed@.len() == SEED_LENGTH,
            res matches Some(signer) ==> signer.wf() && signer.seed() == seed@
                && signer.pending() == Seq::<u8>::empty(),
    {
        match derive_public_key(seed) {
            Some(public_key) => Some(
                Signer { seed: slice_to_vec(seed), public_key, buf: Vec::with_capacity(256) },
            ),
            None => None,
        }
    }

    /// A signer with a fresh random key pair; nothing where the system's
    /// random source fails.
    pub fn new() -> (res: Option<Signer>)
        ensures
            res matches Some(signer) ==> signer.wf() && signer.pending() == Seq::<u8>::empty(),
    {
        match random_seed() {
            Some(seed) => Signer::from_seed(seed.as_slice()),
            None => None,
        }
    }

    /// Hands over more bytes of the message to sign.
    pub fn update(&mut self, data: &[u8])
        requires
            old(self).wf(),
        ensures
            final(self).wf(),
            final(self).seed() == old(self).seed(),
            final(self).pending() == old(self).pending() + data@,
    {
        append_bytes(&mut self.buf, data);
    }

    /// The signature of the bytes handed over since the last one. The signer
    /// then starts on a new message.
    pub fn sign(&mut self) -> (signature: Vec<u8>)
        requires
            old(self).wf(),
        ensures
            final(self).wf(),
            final(self).seed() == old(self).seed(),
            final(self).pending() == Seq::<u8>::empty(),
            signature@ == ed25519_signature(old(self).seed(), old(self).pending()),
            signature@.len() == SIGNATURE_LENGTH,
    {
        let signature = sign_with_seed(self.seed.as_slice(), self.buf.as_slice());
        self.buf.clear();
        signature
    }

    /// The public key, 32 bytes.
    pub fn public_key_bytes(&self) -> (key: &[u8])
        requires
            self.wf(),
        ensures
            key@ == ed25519_public_key(self.seed()),
            key@.len() == PUBLIC_KEY_LENGTH,
    {
        self.public_key.as_slice()
    }
}

/// Checks a signature over what it was handed with `update`.
pub struct Verifier {
    public_key: Vec<u8>,
    buf: Vec<u8>,
}

impl Verifier {
    /// The public key that signatures are checked against.
    pub closed spec fn public_key(&self) -> Seq<u8> {
        self.public_key@
    }

    /// The bytes handed over so far.
    pub closed spec fn pending(&self) -> Seq<u8> {
        self.buf@
    }

    /// A verifier for signatures under `public_key`.
    pub fn new(public_key: &[u8]) -> (verifier: Verifier)
        ensures
            verifier.public_key() == public_key@,
            verifier.pending() == Seq::<u8>::empty(),
    {
        Verifier { public_key: slice_to_vec(public_key), buf: Vec::with_capacity(256) }
    }

    /// Hands over more bytes of the signed message.
    pub fn update(&mut self, data: &[u8])
        ensures
            final(self).public_key() == old(self).public_key(),
            final(self).pending() == old(self).pending() + data@,
    {
        append_bytes(&mut self.buf, data);
    }

    /// Whether `expected_sig` is a signature of the bytes handed over.
    pub fn verify(&self, expected_sig: &[u8]) -> (accepted: bool)
        ensures
            accepted == ed25519_accepts(self.public_key(), self.pending(), expected_sig@),
    {
        verify_with_key(self.public_key.as_slice(), self.buf.as_slice(), expected_sig)
    }
}

} // verus!
