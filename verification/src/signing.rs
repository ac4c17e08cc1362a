//! Signatures on filters and deltas.
//!
//! What is signed is the SHA-256 digest of the payload followed by the version
//! in eight bytes, the lowest first. The key that signatures are checked
//! against is built in.

use ed25519_dalek::{Signature, Signer, SigningKey, Verifier, VerifyingKey};
use sha2::{Digest, Sha256};
use vstd::prelude::*;

use crate::hexadecimal::{
    hex_bytes, hex_decode, hex_encode, hex_refusal, hex_text, is_hex, lemma_hex_round_trip,
};
use crate::little_endian::{le_bytes, push_le};
use crate::text::{decimal, decimal_text};

verus! {

/// The public key that updates are checked against, as its 32 bytes. It is
/// replaced by the real key when the product is built.
pub const EMBEDDED_PUBLIC_KEY: [u8; 32] = [
    0x00, 0x00, 0x00, 0x00, 0x00, 0x00, 0x00, 0x00,
    0x00, 0x00, 0x00, 0x00, 0x00, 0x00, 0x00, 0x00,
    0x00, 0x00, 0x00, 0x00, 0x00, 0x00, 0x00, 0x00,
    0x00, 0x00, 0x00, 0x00, 0x00, 0x00, 0x00, 0x00,
];

// ---------------------------------------------------------------------------
// Outside primitives
// ---------------------------------------------------------------------------

/// The SHA-256 digest of `data`, as `sha2::Sha256::digest` computes it.
pub uninterp spec fn sha256(data: Seq<u8>) -> Seq<u8>;

/// `sha2::Sha256::digest` returns the digest of the bytes it is given: 32 bytes
/// that depend on them alone.
#[verifier::external_body]
pub(crate) fn sha256_of(data: &[u8]) -> (r: [u8; 32])
    ensures
        r@ == sha256(data@),
{
    Sha256::digest(data).into()
}

/// What checking an Ed25519 signature of a message against a public key gives,
/// all three as bytes: acceptance, or the message of the error.
pub uninterp spec fn ed25519_check(
    key: Seq<u8>,
    message: Seq<u8>,
    signature: Seq<u8>,
) -> Result<(), Seq<char>>;

/// `ed25519_dalek::VerifyingKey::verify`, with the key and the signature decoded
/// from their bytes, accepts or refuses; which, and with what message, depends
/// on the key, the message and the signature alone. A key that cannot be
/// decoded is refused too.
#[verifier::external_body]
pub(crate) fn ed25519_verify(key: &[u8; 32], message: &[u8], signature: &[u8]) -> (r: Result<
    (),
    String,
>)
    requires
        signature@.len() == 64,
    ensures
        r is Ok <==> ed25519_check(key@, message@, signature@) is Ok,
        r matches Err(text) ==> text@ == ed25519_check(key@, message@, signature@)->Err_0,
{
    let key = VerifyingKey::from_bytes(key).map_err(|e| e.to_string())?;
    let signature = Signature::from_slice(signature).map_err(|e| e.to_string())?;
    key.verify(message, &signature).map_err(|e| e.to_string())
}

/// What decoding a public key from its bytes gives: acceptance, or the message
/// of the error.
pub uninterp spec fn ed25519_key_check(key: Seq<u8>) -> Result<(), Seq<char>>;

/// `ed25519_dalek::VerifyingKey::from_bytes` accepts or refuses the bytes of a
/// key; which, and with what message, depends on the bytes alone.
#[verifier::external_body]
pub(crate) fn ed25519_decode_key(key: &[u8; 32]) -> (r: Result<(), String>)
    ensures
        r is Ok <==> ed25519_key_check(key@) is Ok,
        r matches Err(text) ==> text@ == ed25519_key_check(key@)->Err_0,
{
    VerifyingKey::from_bytes(key).map(|_| ()).map_err(|e| e.to_string())
}

/// The public key that belongs to a secret key, both as bytes.
pub uninterp spec fn ed25519_public_key(secret: Seq<u8>) -> Seq<u8>;

/// `ed25519_dalek::SigningKey::verifying_key` derives the public key from the
/// secret one. It can be decoded from its bytes.
#[verifier::external_body]
pub(crate) fn ed25519_public_key_of(secret: &[u8; 32]) -> (r: [u8; 32])
    ensures
        r@ == ed25519_public_key(secret@),
        ed25519_key_check(r@) is Ok,
{
    SigningKey::from_bytes(secret).verifying_key().to_bytes()
}

/// The signature of a message under a secret key, all as bytes.
pub uninterp spec fn ed25519_signature(secret: Seq<u8>, message: Seq<u8>) -> Seq<u8>;

/// `ed25519_dalek::SigningKey::sign` signs deterministically, and the public key
/// of the same secret key accepts the signature for this message.
#[verifier::external_body]
pub(crate) fn ed25519_sign(secret: &[u8; 32], message: &[u8]) -> (r: [u8; 64])
    ensures
        r@ == ed25519_signature(secret@, message@),
        ed25519_check(ed25519_public_key(secret@), message@, r@) is Ok,
{
    SigningKey::from_bytes(secret).sign(message).to_bytes()
}

/// The public key that belongs to a secret key. It can be started with.
pub fn public_key_of(secret_key: &[u8; 32]) -> (r: [u8; 32])
    ensures
        r@ == ed25519_public_key(secret_key@),
        ed25519_key_check(r@) is Ok,
{
    ed25519_public_key_of(secret_key)
}

// ---------------------------------------------------------------------------
// Errors
// ---------------------------------------------------------------------------

/// Why a signed payload is refused.
#[derive(Debug)]
pub enum VerifyError {
    /// The digest that came with the payload is not the payload's.
    HashMismatch { expected: String, received: String },
    /// The signature cannot be read, or is not the signer's.
    BadSignature(String),
    /// The signature is not 64 bytes long.
    BadSignatureSize(usize),
    /// There is no payload.
    EmptyPayload,
}

/// The content of a [`VerifyError`].
pub enum VerifyFault {
    HashMismatch { expected: Seq<char>, received: Seq<char> },
    BadSignature(Seq<char>),
    BadSignatureSize(nat),
    EmptyPayload,
}

impl View for VerifyError {
    type V = VerifyFault;

    open spec fn view(&self) -> VerifyFault {
        match self {
            VerifyError::HashMismatch { expected, received } => VerifyFault::HashMismatch {
                expected: expected@,
                received: received@,
            },
            VerifyError::BadSignature(text) => VerifyFault::BadSignature(text@),
            VerifyError::BadSignatureSize(n) => VerifyFault::BadSignatureSize(*n as nat),
            VerifyError::EmptyPayload => VerifyFault::EmptyPayload,
        }
    }
}

impl VerifyFault {
    /// What is shown to the user.
    pub open spec fn text(self) -> Seq<char> {
        match self {
            VerifyFault::HashMismatch { expected, received } => "SHA256 لا يتطابق: متوقع="@
                + expected + " مستقبَل="@ + received,
            VerifyFault::BadSignature(text) => "توقيع Ed25519 غير صحيح: "@ + text,
            VerifyFault::BadSignatureSize(n) => "حجم التوقيع خاطئ: "@ + decimal(n) + " بايت"@,
            VerifyFault::EmptyPayload => "بيانات الـ payload فارغة"@,
        }
    }
}

impl VerifyError {
    /// What is shown to the user.
    pub fn message(&self) -> (r: String)
        ensures
            r@ == self@.text(),
    {
        match self {
            VerifyError::HashMismatch { expected, received } => {
                let mut out = String::from_str("SHA256 لا يتطابق: متوقع=");
                out.append(expected.as_str());
                out.append(" مستقبَل=");
                out.append(received.as_str());
                out
            },
            VerifyError::BadSignature(text) => {
                let mut out = String::from_str("توقيع Ed25519 غير صحيح: ");
                out.append(text.as_str());
                out
            },
            VerifyError::BadSignatureSize(n) => {
                let mut out = String::from_str("حجم التوقيع خاطئ: ");
                out.append(decimal_text(*n as u64).as_str());
                out.append(" بايت");
                out
            },
            VerifyError::EmptyPayload => String::from_str("بيانات الـ payload فارغة"),
        }
    }
}

// ---------------------------------------------------------------------------
// Signed payloads
// ---------------------------------------------------------------------------

/// A payload with its digest and signature, as it comes from the server.
#[derive(Debug)]
pub struct SignedPayload {
    /// The payload itself.
    pub payload_bytes: Vec<u8>,
    /// SHA-256 digest of the payload, in hexadecimal.
    pub sha256: String,
    /// Ed25519 signature, in hexadecimal.
    pub signature: String,
    /// The version that the payload leads to.
    pub version: u64,
}

/// The content of a [`SignedPayload`].
pub struct Payload {
    pub bytes: Seq<u8>,
    pub sha256: Seq<char>,
    pub signature: Seq<char>,
    pub version: u64,
}

impl View for SignedPayload {
    type V = Payload;

    open spec fn view(&self) -> Payload {
        Payload {
            bytes: self.payload_bytes@,
            sha256: self.sha256@,
            signature: self.signature@,
            version: self.version,
        }
    }
}

/// A signed change from one version to another.
#[derive(Debug)]
pub struct SignedDelta {
    pub inner: SignedPayload,
    pub from_version: u64,
    pub to_version: u64,
}

/// The content of a [`SignedDelta`].
pub struct Delta {
    pub inner: Payload,
    pub from_version: u64,
    pub to_version: u64,
}

impl View for SignedDelta {
    type V = Delta;

    open spec fn view(&self) -> Delta {
        Delta {
            inner: self.inner@,
            from_version: self.from_version,
            to_version: self.to_version,
        }
    }
}

/// What is signed for a payload with this digest and version.
pub open spec fn signed_message(digest: Seq<u8>, version: u64) -> Seq<u8> {
    digest + le_bytes(version as nat, 8)
}

/// What stands against a payload before its signature is checked, given the
/// digest of its bytes.
pub open spec fn payload_fault(p: Payload, digest: Seq<u8>) -> Option<VerifyFault> {
    if p.bytes.len() == 0 {
        Some(VerifyFault::EmptyPayload)
    } else if p.sha256 != hex_text(digest) {
        Some(VerifyFault::HashMismatch { expected: p.sha256, received: hex_text(digest) })
    } else if !is_hex(p.signature) {
        Some(VerifyFault::BadSignature(hex_refusal(p.signature)))
    } else if hex_bytes(p.signature).len() != 64 {
        Some(VerifyFault::BadSignatureSize(hex_bytes(p.signature).len()))
    } else {
        None
    }
}

/// What stands against a payload, given the digest of its bytes and what the
/// check of its signature gave.
pub open spec fn checked_fault(
    p: Payload,
    digest: Seq<u8>,
    check: Result<(), Seq<char>>,
) -> Option<VerifyFault> {
    match payload_fault(p, digest) {
        Some(fault) => Some(fault),
        None => match check {
            Ok(_) => None,
            Err(text) => Some(VerifyFault::BadSignature(text)),
        },
    }
}

/// What stands against a payload under a public key: `None` where its digest
/// is right and the key accepts its signature.
pub open spec fn verify_fault(p: Payload, key: Seq<u8>) -> Option<VerifyFault> {
    let digest = sha256(p.bytes);
    checked_fault(
        p,
        digest,
        ed25519_check(key, signed_message(digest, p.version), hex_bytes(p.signature)),
    )
}

/// The fault that a result reports, if any.
pub open spec fn fault_of<T>(r: Result<T, VerifyError>) -> Option<VerifyFault> {
    match r {
        Ok(_) => None,
        Err(e) => Some(e@),
    }
}

/// A message and the signature that is claimed for it.
#[derive(Debug)]
pub struct SignedMessage {
    pub message: Vec<u8>,
    pub signature: Vec<u8>,
}

/// Checks everything about a payload but the signature itself, given the digest
/// of its bytes, and returns what the signature is to be checked for.
pub fn check_payload(payload: &SignedPayload, digest: &[u8; 32]) -> (r: Result<
    SignedMessage,
    VerifyError,
>)
    ensures
        fault_of(r) == payload_fault(payload@, digest@),
        r matches Ok(m) ==> {
            &&& m.message@ == signed_message(digest@, payload.version)
            &&& m.signature@ == hex_bytes(payload.signature@)
            &&& m.signature@.len() == 64
        },
{
    if payload.payload_bytes.len() == 0 {
        return Err(VerifyError::EmptyPayload);
    }
    let computed_hash = hex_encode(digest.as_slice());
    if !(computed_hash == payload.sha256) {
        return Err(
            VerifyError::HashMismatch { expected: payload.sha256.clone(), received: computed_hash },
        );
    }
    let signature = match hex_decode(payload.signature.as_str()) {
        Ok(bytes) => bytes,
        Err(text) => {
            return Err(VerifyError::BadSignature(text));
        },
    };
    if signature.len() != 64 {
        return Err(VerifyError::BadSignatureSize(signature.len()));
    }
    proof {
        lemma_hex_round_trip(digest@);
    }
    let mut message = match hex_decode(payload.sha256.as_str()) {
        Ok(bytes) => bytes,
        Err(text) => {
            let mut reason = String::from_str("hex sha256: ");
            reason.append(text.as_str());
            return Err(VerifyError::BadSignature(reason));
        },
    };
    push_le(&mut message, payload.version, 8);
    Ok(SignedMessage { message, signature })
}

/// Turns the outcome of a signature check into the verdict on a payload.
pub fn signature_verdict(outcome: Result<(), String>) -> (r: Result<(), VerifyError>)
    ensures
        r is Ok <==> outcome is Ok,
        outcome matches Err(text) ==> fault_of(r) == Some(VerifyFault::BadSignature(text@)),
{
    match outcome {
        Ok(_) => Ok(()),
        Err(text) => Err(VerifyError::BadSignature(text)),
    }
}

/// Accepts a payload if and only if it is not empty, the digest that came with
/// it is its own, and the key accepts the signature of digest and version.
pub fn verify_payload(payload: &SignedPayload, public_key: &[u8; 32]) -> (r: Result<
    (),
    VerifyError,
>)
    ensures
        fault_of(r) == verify_fault(payload@, public_key@),
{
    let digest = sha256_of(payload.payload_bytes.as_slice());
    let signed = match check_payload(payload, &digest) {
        Ok(signed) => signed,
        Err(e) => {
            return Err(e);
        },
    };
    signature_verdict(
        ed25519_verify(public_key, signed.message.as_slice(), signed.signature.as_slice()),
    )
}

/// Accepts a delta if and only if its payload is accepted.
pub fn verify_delta(delta: &SignedDelta, public_key: &[u8; 32]) -> (r: Result<(), VerifyError>)
    ensures
        fault_of(r) == verify_fault(delta@.inner, public_key@),
{
    verify_payload(&delta.inner, public_key)
}

} // verus!
