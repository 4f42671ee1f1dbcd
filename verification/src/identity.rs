//! Ed25519 signing-key identity: key IDs, key files, and signatures.
//!
//! A key ID is the first 16 hex characters of the SHA-256 digest of the
//! public key. A key file holds the key ID, the public and secret keys in
//! hex, and an optional display name.

use ed25519_dalek::Signer;
use vstd::prelude::*;

use crate::cid::{sha256, sha256_digest};
use crate::types::{hex_decode, hex_decode_spec, hex_encode, hex_lower, HexError};

verus! {

/// The Ed25519 public key (RFC 8032) that belongs to the 32-byte secret key `secret`.
pub uninterp spec fn ed25519_public(secret: Seq<u8>) -> Seq<u8>;

/// The Ed25519 signature (RFC 8032) of `message` under the 32-byte secret key `secret`.
pub uninterp spec fn ed25519_signature(secret: Seq<u8>, message: Seq<u8>) -> Seq<u8>;

/// `ed25519_dalek::SigningKey::verifying_key` of the key that
/// `SigningKey::from_bytes` makes from `secret`, as its 32 bytes. The result
/// is a function of `secret` alone.
#[verifier::external_body]
pub(crate) fn ed25519_public_key(secret: &[u8; 32]) -> (pk: [u8; 32])
    ensures
        pk@ == ed25519_public(secret@),
{
    ed25519_dalek::SigningKey::from_bytes(secret).verifying_key().to_bytes()
}

/// `Signer::sign` of the key that `ed25519_dalek::SigningKey::from_bytes`
/// makes from `secret`, on `message`, as the 64 signature bytes. Ed25519
/// signing is deterministic: the result is a function of the two arguments.
#[verifier::external_body]
pub(crate) fn ed25519_sign(secret: &[u8; 32], message: &[u8]) -> (sig: [u8; 64])
    ensures
        sig@ == ed25519_signature(secret@, message@),
{
    ed25519_dalek::SigningKey::from_bytes(secret).sign(message).to_bytes()
}

/// Information about a signing key.
#[derive(Clone, Debug)]
pub struct KeyInfo {
    pub key_id: String,
    pub public_key_hex: String,
    pub display_name: Option<String>,
}

/// The key ID of public key bytes: the first 8 bytes of their SHA-256
/// digest in lower-case hex.
pub open spec fn key_id_of(public_key: Seq<u8>) -> Seq<char> {
    hex_lower(sha256_digest(public_key).take(8))
}

/// The key ID of a public key: the first 8 bytes of its SHA-256 digest, in
/// lower-case hex (16 characters).
pub fn compute_key_id(public_key: &[u8]) -> (id: String)
    ensures
        id@ == key_id_of(public_key@),
        id@.len() == 16,
{
    let digest = sha256(public_key);
    let mut head: Vec<u8> = Vec::new();
    let mut i: usize = 0;
    while i < 8
        invariant
            digest@.len() == 32,
            i <= 8,
            head@ == digest@.take(i as int),
        decreases 8 - i,
    {
        head.push(digest[i]);
        assert(head@ =~= digest@.take(i + 1));
        i = i + 1;
    }
    assert(sha256_digest(public_key@) == digest@);
    hex_encode(head.as_slice())
}

/// A stored key pair.
#[derive(Clone, Debug)]
pub struct KeyFile {
    pub key_id: String,
    /// Public key in hex.
    pub public_key: String,
    /// Secret key in hex.
    pub secret_key: String,
    pub display_name: Option<String>,
}

/// Why a key file's secret key is unusable.
#[derive(Clone, Copy, Debug, PartialEq, Eq)]
pub enum KeyError {
    /// The secret key is not hex.
    InvalidHex(HexError),
    /// The secret key does not decode to 32 bytes; the length it has.
    WrongLength(usize),
}

/// The secret key bytes that a key file's hex text gives, or why it gives none.
pub open spec fn secret_from_hex_spec(hex: Seq<u8>) -> Result<Seq<u8>, KeyError> {
    match hex_decode_spec(hex) {
        Ok(bytes) => if bytes.len() == 32 {
            Ok(bytes)
        } else {
            Err(KeyError::WrongLength(bytes.len() as usize))
        },
        Err(e) => Err(KeyError::InvalidHex(e)),
    }
}

impl KeyFile {
    /// The key file of the key pair with secret key `secret`.
    pub fn for_secret(secret: &[u8; 32], display_name: Option<String>) -> (f: KeyFile)
        ensures
            f.key_id@ == key_id_of(ed25519_public(secret@)),
            f.key_id@.len() == 16,
            f.public_key@ == hex_lower(ed25519_public(secret@)),
            f.secret_key@ == hex_lower(secret@),
            f.display_name == display_name,
    {
        let public = ed25519_public_key(secret);
        KeyFile {
            key_id: compute_key_id(public.as_slice()),
            public_key: hex_encode(public.as_slice()),
            secret_key: hex_encode(secret.as_slice()),
            display_name,
        }
    }

    /// The public information of the key file.
    pub fn info(&self) -> (i: KeyInfo)
        ensures
            i.key_id@ == self.key_id@,
            i.public_key_hex@ == self.public_key@,
            i.display_name == self.display_name,
    {
        KeyInfo {
            key_id: self.key_id.clone(),
            public_key_hex: self.public_key.clone(),
            display_name: match &self.display_name {
                Some(d) => Some(d.clone()),
                None => None,
            },
        }
    }

    /// The secret key bytes, if the stored secret key is 32 bytes of hex.
    pub fn secret_bytes(&self) -> (r: Result<[u8; 32], KeyError>)
        ensures
            match r {
                Ok(s) => secret_from_hex_spec(vstd::utf8::encode_utf8(self.secret_key@)) == Ok::<
                    Seq<u8>,
                    KeyError,
                >(s@),
                Err(e) => secret_from_hex_spec(vstd::utf8::encode_utf8(self.secret_key@)) == Err::<
                    Seq<u8>,
                    KeyError,
                >(e),
            },
    {
        let bytes = match hex_decode(self.secret_key.as_str()) {
            Ok(b) => b,
            Err(e) => {
                return Err(KeyError::InvalidHex(e));
            },
        };
        if bytes.len() != 32 {
            return Err(KeyError::WrongLength(bytes.len()));
        }
        let mut arr = [0u8; 32];
        let mut i: usize = 0;
        while i < 32
            invariant
                bytes@.len() == 32,
                0 <= i <= 32,
                forall|j: int| 0 <= j < i ==> #[trigger] arr@[j] == bytes@[j],
            decreases 32 - i,
        {
            arr[i] = bytes[i];
            i = i + 1;
        }
        assert(arr@ =~= bytes@);
        Ok(arr)
    }
}

/// Key information for the key pair with secret key `secret`.
pub fn key_info_for(secret: &[u8; 32], display_name: Option<String>) -> (info: KeyInfo)
    ensures
        info.key_id@ == key_id_of(ed25519_public(secret@)),
        info.key_id@.len() == 16,
        info.public_key_hex@ == hex_lower(ed25519_public(secret@)),
        info.display_name == display_name,
{
    let public = ed25519_public_key(secret);
    KeyInfo {
        key_id: compute_key_id(public.as_slice()),
        public_key_hex: hex_encode(public.as_slice()),
        display_name,
    }
}

/// The hex rendering of the signature of `message` under `secret`.
pub fn signature_hex(secret: &[u8; 32], message: &[u8]) -> (s: String)
    ensures
        s@ == hex_lower(ed25519_signature(secret@, message@)),
{
    let sig = ed25519_sign(secret, message);
    hex_encode(sig.as_slice())
}

} // verus!
