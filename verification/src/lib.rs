//! Trust delegation and time attestation for a Roughtime server.
//!
//! A long-term identity key signs a delegation for a short-lived online key,
//! and the online key signs the time attestations that clients receive. The
//! byte layout of every message, the order of its fields and the context that
//! is prepended to each signed payload are stated as contracts and proved.

use vstd::prelude::*;
use vstd::string::StringSliceAdditionalSpecFns;

pub mod error;
pub mod keys;
pub mod laws;
pub mod message;
pub mod roundtrip;
pub mod sign;
pub mod tag;
pub mod wire;

verus! {

/// Prefix of the bytes that a long-term key signs for a delegation.
pub const CERTIFICATE_CONTEXT: &'static str = "RoughTime v1 delegation signature--\x00";

/// Prefix of the bytes that an online key signs for a response.
pub const SIGNED_RESPONSE_CONTEXT: &'static str = "RoughTime v1 response signature\x00";

/// Smallest request, in bytes, that a server answers.
pub const MIN_REQUEST_LENGTH: usize = 1024;

/// The bytes of the context of delegation signatures.
pub open spec fn certificate_context() -> Seq<u8> {
    CERTIFICATE_CONTEXT.spec_bytes()
}

/// The bytes of the context of response signatures.
pub open spec fn signed_response_context() -> Seq<u8> {
    SIGNED_RESPONSE_CONTEXT.spec_bytes()
}

/// What a signature under `context` is made over: the context, then the
/// payload.
pub open spec fn signed_bytes(context: Seq<u8>, payload: Seq<u8>) -> Seq<u8> {
    context + payload
}

} // verus!
