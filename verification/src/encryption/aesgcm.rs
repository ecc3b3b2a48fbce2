//! A buffer sealed with AES-256-GCM under a fresh nonce.

use aes_gcm::aead::Aead;
use aes_gcm::AeadCore;
use aes_gcm::KeyInit;
use vstd::prelude::*;

verus! {

/// The error of the `aes_gcm` crate: it carries no detail.
#[verifier::external_type_specification]
#[verifier::external_body]
pub struct ExAeadError(aes_gcm::Error);

/// What `Aes256Gcm::encrypt` returns for a key of 32 bytes, a nonce of 12
/// bytes and a plaintext that it accepts: the ciphertext with its tag.
pub uninterp spec fn sealed_bytes(key: Seq<u8>, nonce: Seq<u8>, plaintext: Seq<u8>) -> Seq<u8>;

/// What `Aes256Gcm::decrypt` returns for a key of 32 bytes, a nonce of 12
/// bytes and a sealed buffer: the plaintext, or nothing where the buffer
/// does not carry the tag that belongs to it under that key and nonce.
pub uninterp spec fn opened_bytes(key: Seq<u8>, nonce: Seq<u8>, sealed: Seq<u8>) -> Option<
    Seq<u8>,
>;

/// The length of a key, in bytes.
pub const KEY_LEN: usize = 32;

/// The length of a nonce, in bytes.
pub const NONCE_LEN: usize = 12;

/// The length of the tag that follows the ciphertext, in bytes.
pub const TAG_LEN: usize = 16;

/// The longest plaintext that can be sealed, in bytes.
pub const MAX_PLAINTEXT_LEN: u64 = 0x10_0000_0000;

/// Calls `Aes256Gcm::encrypt` of the `aes_gcm` crate. That function refuses
/// a plaintext longer than `MAX_PLAINTEXT_LEN` and nothing else; what it
/// returns is as long as the plaintext and the tag together, and is a
/// function of key, nonce and plaintext, named `sealed_bytes`.
#[verifier::external_body]
fn seal(key: &[u8], nonce: &[u8], plaintext: &[u8]) -> (sealed: Result<Vec<u8>, aes_gcm::Error>)
    requires
        key@.len() == KEY_LEN,
        nonce@.len() == NONCE_LEN,
    ensures
        sealed is Ok <==> plaintext@.len() <= MAX_PLAINTEXT_LEN,
        sealed matches Ok(bytes) ==> bytes@ == sealed_bytes(key@, nonce@, plaintext@)
            && bytes@.len() == plaintext@.len() + TAG_LEN,
{
    let cipher = aes_gcm::Aes256Gcm::new(aes_gcm::Key::<aes_gcm::Aes256Gcm>::from_slice(key));
    cipher.encrypt(aes_gcm::aead::Nonce::<aes_gcm::Aes256Gcm>::from_slice(nonce), plaintext)
}

/// Calls `Aes256Gcm::decrypt` of the `aes_gcm` crate. What it returns is a
/// function of key, nonce and sealed buffer, named `opened_bytes`; a buffer
/// that `Aes256Gcm::encrypt` made under the same key and nonce is opened to
/// the plaintext it was made from.
#[verifier::external_body]
fn open(key: &[u8], nonce: &[u8], sealed: &[u8]) -> (opened: Result<Vec<u8>, aes_gcm::Error>)
    requires
        key@.len() == KEY_LEN,
        nonce@.len() == NONCE_LEN,
    ensures
        opened matches Ok(bytes) ==> opened_bytes(key@, nonce@, sealed@) == Some(bytes@),
        opened is Err ==> opened_bytes(key@, nonce@, sealed@) is None,
        opened matches Ok(bytes) ==> forall|plaintext: Seq<u8>|
            plaintext.len() <= MAX_PLAINTEXT_LEN && sealed@ == #[trigger] sealed_bytes(
                key@,
                nonce@,
                plaintext,
            ) ==> bytes@ == plaintext,
        opened is Err ==> forall|plaintext: Seq<u8>|
            plaintext.len() <= MAX_PLAINTEXT_LEN ==> sealed@ != #[trigger] sealed_bytes(
                key@,
                nonce@,
                plaintext,
            ),
{
    let cipher = aes_gcm::Aes256Gcm::new(aes_gcm::Key::<aes_gcm::Aes256Gcm>::from_slice(key));
    cipher.decrypt(aes_gcm::aead::Nonce::<aes_gcm::Aes256Gcm>::from_slice(nonce), sealed)
}

/// Calls `Aes256Gcm::generate_nonce` of the `aes_gcm` crate with the random
/// numbers of the operating system. Which bytes come is open; there are
/// twelve of them.
#[verifier::external_body]
fn fresh_nonce() -> (nonce: Vec<u8>)
    ensures
        nonce@.len() == NONCE_LEN,
{
    aes_gcm::Aes256Gcm::generate_nonce(&mut aes_gcm::aead::OsRng).to_vec()
}

/// A plaintext sealed under a key, together with the nonce it was sealed
/// with.
pub struct Secure {
    buf: Vec<u8>,
    nonce: Vec<u8>,
}

impl Secure {
    #[verifier::type_invariant]
    spec fn nonce_has_its_length(self) -> bool {
        self.nonce@.len() == NONCE_LEN
    }

    /// The sealed bytes: ciphertext and tag.
    pub closed spec fn sealed(&self) -> Seq<u8> {
        self.buf@
    }

    /// The nonce that the bytes were sealed with.
    pub closed spec fn nonce(&self) -> Seq<u8> {
        self.nonce@
    }

    /// Seals `plaintext` under `key` with a fresh random nonce.
    pub fn new(plaintext: &[u8], key: &[u8]) -> (secure: Self)
        requires
            key@.len() == KEY_LEN,
            plaintext@.len() <= MAX_PLAINTEXT_LEN,
        ensures
            secure.nonce().len() == NONCE_LEN,
            secure.sealed() == sealed_bytes(key@, secure.nonce(), plaintext@),
            secure.sealed().len() == plaintext@.len() + TAG_LEN,
    {
        Self::with_nonce(plaintext, key, fresh_nonce())
    }

    /// Seals `plaintext` under `key` with the nonce `nonce`.
    pub fn with_nonce(plaintext: &[u8], key: &[u8], nonce: Vec<u8>) -> (secure: Self)
        requires
            key@.len() == KEY_LEN,
            nonce@.len() == NONCE_LEN,
            plaintext@.len() <= MAX_PLAINTEXT_LEN,
        ensures
            secure.nonce() == nonce@,
            secure.sealed() == sealed_bytes(key@, nonce@, plaintext@),
            secure.sealed().len() == plaintext@.len() + TAG_LEN,
    {
        match seal(key, nonce.as_slice(), plaintext) {
            Ok(ciphertext) => Self { nonce, buf: ciphertext },
            Err(_) => vstd::pervasive::unreached(),
        }
    }

    /// Opens the sealed bytes with `key`: the plaintext where `key` is the
    /// key that they were sealed under, and nothing where the bytes do not
    /// carry the tag that belongs to them under `key`.
    pub fn read(&self, key: &[u8]) -> (plaintext: Option<Vec<u8>>)
        requires
            key@.len() == KEY_LEN,
        ensures
            plaintext matches Some(bytes) ==> opened_bytes(key@, self.nonce(), self.sealed())
                == Some(bytes@),
            plaintext is None ==> opened_bytes(key@, self.nonce(), self.sealed()) is None,
            forall|message: Seq<u8>|
                message.len() <= MAX_PLAINTEXT_LEN && self.sealed() == #[trigger] sealed_bytes(
                    key@,
                    self.nonce(),
                    message,
                ) ==> (plaintext matches Some(bytes) && bytes@ == message),
    {
        proof {
            use_type_invariant(self);
        }
        match open(key, self.nonce.as_slice(), self.buf.as_slice()) {
            Ok(plaintext) => Some(plaintext),
            Err(_) => None,
        }
    }
}

} // verus!
