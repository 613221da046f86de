//! Identity and signing: the key types, signature checking over the
//! canonical transaction encoding, and the Base64 text form of an
//! identity. The cryptographic and Base64 primitives themselves are
//! trusted bindings to outside implementations; their results are named,
//! and everything built on them is verified against those names.

use vstd::prelude::*;
use base64ct::Encoding;
use crate::types::{AccountTransaction, Id, Signature, SignedAccountTransaction};
use crate::codec::{encode_transaction, spec_encode_trx};

verus! {

/// Whether `sig` is a valid Ed25519 signature of `msg` under the public
/// key bytes `pk` (strict verification; false when `pk` is not a valid
/// key). A function of its arguments alone.
pub uninterp spec fn ed25519_verify(pk: Seq<u8>, msg: Seq<u8>, sig: Seq<u8>) -> bool;

/// The Ed25519 signature of `msg` by the secret key bytes `sk`. Ed25519
/// signing is deterministic, so this is a function of its arguments alone.
pub uninterp spec fn ed25519_sign(sk: Seq<u8>, msg: Seq<u8>) -> Seq<u8>;

/// The public key derived from the secret key bytes `sk`.
pub uninterp spec fn ed25519_public_key(sk: Seq<u8>) -> Seq<u8>;

/// Whether 32 bytes name a well-formed Ed25519 public key (a
/// decompressable Edwards point).
pub uninterp spec fn is_ed25519_point(b: Seq<u8>) -> bool;

/// Relies on ed25519_dalek::VerifyingKey::{from_bytes, verify_strict} and
/// ed25519_dalek::Signature::from_bytes: strict verification of `sig` over
/// `msg` under the key bytes `pk`, false when `pk` is not a valid key.
/// Deterministic in its arguments.
#[verifier::external_body]
fn ed25519_verify_bytes(pk: &[u8; 32], msg: &[u8], sig: &[u8; 64]) -> (r: bool)
    ensures
        r == ed25519_verify(pk@, msg@, sig@),
{
    match ed25519_dalek::VerifyingKey::from_bytes(pk) {
        Ok(key) => {
            let signature = ed25519_dalek::Signature::from_bytes(sig);
            key.verify_strict(msg, &signature).is_ok()
        },
        Err(_) => false,
    }
}

/// Relies on ed25519_dalek::SigningKey::{from_bytes, sign}: Ed25519
/// signing is deterministic (RFC 8032), the signature is 64 bytes, and a
/// signature made with a key passes strict verification under that key's
/// public key.
#[verifier::external_body]
fn ed25519_sign_bytes(sk: &[u8; 32], msg: &[u8]) -> (r: [u8; 64])
    ensures
        r@ == ed25519_sign(sk@, msg@),
        ed25519_verify(ed25519_public_key(sk@), msg@, r@),
{
    let key = ed25519_dalek::SigningKey::from_bytes(sk);
    ed25519_dalek::Signer::sign(&key, msg).to_bytes()
}

/// Relies on ed25519_dalek::SigningKey::{from_bytes, verifying_key}: the
/// public key is derived from the secret key deterministically.
#[verifier::external_body]
fn ed25519_public_key_bytes(sk: &[u8; 32]) -> (r: [u8; 32])
    ensures
        r@ == ed25519_public_key(sk@),
{
    ed25519_dalek::SigningKey::from_bytes(sk).verifying_key().to_bytes()
}

/// Relies on ed25519_dalek::SigningKey::generate with rand::rngs::OsRng:
/// a fresh random secret key. Nothing is promised of its value.
#[verifier::external_body]
fn ed25519_generate() -> [u8; 32] {
    let mut csprng = rand::rngs::OsRng;
    ed25519_dalek::SigningKey::generate(&mut csprng).to_bytes()
}

/// Relies on ed25519_dalek::VerifyingKey::from_bytes: whether the bytes
/// decompress to a point is a function of the bytes alone.
#[verifier::external_body]
fn ed25519_point_check(b: &[u8; 32]) -> (r: bool)
    ensures
        r == is_ed25519_point(b@),
{
    ed25519_dalek::VerifyingKey::from_bytes(b).is_ok()
}

/// The Base64 text of a byte string (standard alphabet, padded).
pub uninterp spec fn base64_of(b: Seq<u8>) -> Seq<char>;

/// The bytes a Base64 text stands for, or `None` when the text is not a
/// canonical Base64 encoding.
pub uninterp spec fn base64_decoded(s: Seq<char>) -> Option<Seq<u8>>;

/// Relies on base64ct::Base64::encode_string: canonical padded Base64,
/// a function of the bytes alone, and decoding it yields the bytes back.
#[verifier::external_body]
fn base64_encode(b: &[u8]) -> (r: String)
    requires
        b@.len() <= usize::MAX / 4,
    ensures
        r@ == base64_of(b@),
        base64_decoded(r@) == Some(b@),
{
    base64ct::Base64::encode_string(b)
}

/// Relies on base64ct::Base64::decode_vec: strict canonical Base64
/// decoding, a function of the text alone; `None` exactly on text that is
/// not a canonical encoding.
#[verifier::external_body]
fn base64_decode(s: &str) -> (r: Option<Vec<u8>>)
    ensures
        match r {
            Some(v) => base64_decoded(s@) == Some(v@),
            None => base64_decoded(s@) is None,
        },
{
    base64ct::Base64::decode_vec(s).ok()
}

/// Why a text could not be read as an identity.
#[derive(Clone, Copy, Debug, PartialEq, Eq, Structural)]
pub enum IdError {
    /// The text is not canonical Base64.
    NotBase64,
    /// The decoded bytes are not 32 bytes long.
    WrongLength,
    /// The 32 bytes do not name a valid Ed25519 public key.
    NotAKey,
}

impl Id {
    /// The canonical text form of this identity: Base64 of the key bytes.
    pub fn to_base64(&self) -> (r: String)
        ensures
            r@ == base64_of(self@),
            base64_decoded(r@) == Some(self@),
    {
        base64_encode(self.0.as_slice())
    }

    /// Reads an identity back from its Base64 text form, requiring the
    /// decoded bytes to name a valid public key.
    pub fn from_base64(s: &str) -> (r: Result<Id, IdError>)
        ensures
            match r {
                Ok(id) => base64_decoded(s@) == Some(id@) && is_ed25519_point(id@),
                Err(IdError::NotBase64) => base64_decoded(s@) is None,
                Err(IdError::WrongLength) => base64_decoded(s@) matches Some(b) && b.len() != 32,
                Err(IdError::NotAKey) => base64_decoded(s@) matches Some(b) && b.len() == 32
                    && !is_ed25519_point(b),
            },
    {
        let bytes = match base64_decode(s) {
            Some(v) => v,
            None => {
                return Err(IdError::NotBase64);
            },
        };
        if bytes.len() != 32 {
            return Err(IdError::WrongLength);
        }
        let mut arr = [0u8; 32];
        let mut i: usize = 0;
        while i < 32
            invariant
                bytes@.len() == 32,
                0 <= i <= 32,
                forall|k: int| 0 <= k < i ==> arr@[k] == bytes@[k],
            decreases 32 - i,
        {
            arr[i] = bytes[i];
            i = i + 1;
        }
        proof {
            assert(arr@ =~= bytes@);
        }
        if !ed25519_point_check(&arr) {
            return Err(IdError::NotAKey);
        }
        Ok(Id(arr))
    }
}

impl core::str::FromStr for Id {
    type Err = IdError;

    /// Reads an identity from its canonical Base64 text form.
    fn from_str(s: &str) -> (r: Result<Id, IdError>) {
        Id::from_base64(s)
    }
}

/// A private Ed25519 signing key, held as its 32 secret bytes. Generated
/// locally per node and never transmitted.
#[derive(Clone, Copy)]
pub struct PrivateKey(pub [u8; 32]);

impl View for PrivateKey {
    type V = Seq<u8>;

    open spec fn view(&self) -> Seq<u8> {
        self.0@
    }
}

impl PrivateKey {
    /// Signs the canonical byte encoding of `trx`. When `trx.from` is this
    /// key's public key, the result verifies.
    pub fn sign(&self, trx: AccountTransaction) -> (r: SignedAccountTransaction)
        ensures
            r.trx == trx,
            r.signature@ == ed25519_sign(self@, spec_encode_trx(trx)),
            trx.from@ == ed25519_public_key(self@) ==> r.spec_verify(),
    {
        let bytes = encode_transaction(&trx);
        let signature = Signature(ed25519_sign_bytes(&self.0, bytes.as_slice()));
        SignedAccountTransaction { signature, trx }
    }

    /// The public key derived from this private key, as an identity.
    pub fn get_pk(&self) -> (r: Id)
        ensures
            r@ == ed25519_public_key(self@),
    {
        Id::from_bytes(ed25519_public_key_bytes(&self.0))
    }
}

/// A private signing key together with its derived public identity.
#[derive(Clone, Copy)]
pub struct KeyPair {
    pub public: Id,
    pub private: PrivateKey,
}

impl KeyPair {
    /// The public half really is the one derived from the private half.
    pub open spec fn wf(&self) -> bool {
        self.public@ == ed25519_public_key(self.private@)
    }
}

/// Generates a fresh key pair from the operating system's entropy source.
pub fn gen_keys() -> (r: KeyPair)
    ensures
        r.wf(),
{
    let sk = ed25519_generate();
    let private = PrivateKey(sk);
    let public = private.get_pk();
    KeyPair { public, private }
}

impl SignedAccountTransaction {
    /// Whether the signature is a valid Ed25519 signature of the
    /// transaction's canonical byte encoding under `trx.from` read as the
    /// verifying key. A transaction is admissible only if this holds.
    pub open spec fn spec_verify(&self) -> bool {
        ed25519_verify(self.trx.from@, spec_encode_trx(self.trx), self.signature@)
    }

    /// Recomputes the canonical encoding of `trx` and checks the signature
    /// against `trx.from`.
    pub fn verify(&self) -> (r: bool)
        ensures
            r == self.spec_verify(),
    {
        let bytes = encode_transaction(&self.trx);
        ed25519_verify_bytes(&self.trx.from.0, bytes.as_slice(), &self.signature.0)
    }
}

} // verus!
