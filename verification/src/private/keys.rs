//! The keys of a revision: the temporal key, which is derived from the root
//! secret of a node and its revision number, and the snapshot key, which is
//! derived from the temporal key and opens one revision only.

use crate::error::FsError;
use chacha20poly1305::aead::Aead;
use chacha20poly1305::KeyInit;
use rand::rngs::ThreadRng;
use rand::RngCore;
use vstd::bytes::{spec_u64_to_le_bytes, u64_to_le_bytes};
use vstd::prelude::*;
use vstd::slice::slice_subrange;

verus! {

/// The size of a key in bytes.
pub const KEY_BYTE_SIZE: usize = 32;

/// The size of the nonce that stands before a ciphertext.
pub const NONCE_SIZE: usize = 24;

/// The size of the tag that stands behind a ciphertext.
pub const AUTHENTICATION_TAG_SIZE: usize = 16;

/// The key that `blake3::derive_key` derives from a context string and key
/// material.
pub uninterp spec fn derived_key(context: Seq<char>, material: Seq<u8>) -> Seq<u8>;

/// What AES key wrap with padding makes of a cleartext under a key.
pub uninterp spec fn key_wrapped(key: Seq<u8>, cleartext: Seq<u8>) -> Seq<u8>;

/// What AES key unwrap with padding recovers from a ciphertext under a key;
/// nothing where the integrity check fails.
pub uninterp spec fn key_unwrapped(key: Seq<u8>, ciphertext: Seq<u8>) -> Option<Seq<u8>>;

/// The XChaCha20-Poly1305 ciphertext of a plaintext under a key and a nonce,
/// tag included.
pub uninterp spec fn sealed(key: Seq<u8>, nonce: Seq<u8>, plaintext: Seq<u8>) -> Seq<u8>;

/// What XChaCha20-Poly1305 recovers from a ciphertext under a key and a
/// nonce; nothing where the tag does not match.
pub uninterp spec fn opened(key: Seq<u8>, nonce: Seq<u8>, ciphertext: Seq<u8>) -> Option<
    Seq<u8>,
>;

/// The bytes of an optional byte vector.
pub open spec fn option_view(bytes: Option<Vec<u8>>) -> Option<Seq<u8>> {
    match bytes {
        Some(b) => Some(b@),
        None => None,
    }
}

/// `blake3::derive_key`: 32 bytes that depend on the context and the key
/// material alone.
#[verifier::external_body]
pub(crate) fn blake3_derive_key(context: &str, material: &[u8]) -> (key: [u8; 32])
    ensures
        key@ == derived_key(context@, material@),
{
    blake3::derive_key(context, material)
}

/// `KekAes256::wrap_with_padding_vec` under a key made with `From<[u8; 32]>`.
/// Claimed: it fails exactly on more than `u32::MAX` bytes; the result depends
/// on key and cleartext alone, and is the cleartext's length rounded up to
/// whole semiblocks of 8 bytes, and one semiblock more; and unwrapping the
/// result of wrapping at least one byte under the same key gives the
/// cleartext back.
#[verifier::external_body]
fn aes_key_wrap(key: &[u8; 32], cleartext: &[u8]) -> (wrapped: Option<Vec<u8>>)
    ensures
        wrapped is Some <==> cleartext@.len() <= u32::MAX,
        wrapped matches Some(w) ==> w@ == key_wrapped(key@, cleartext@),
        wrapped matches Some(w) ==> w@.len() == (cleartext@.len() + 7) / 8 * 8 + 8,
        wrapped matches Some(w) ==> cleartext@.len() >= 1 ==> key_unwrapped(key@, w@) == Some(
            cleartext@,
        ),
{
    aes_kw::KekAes256::from(*key).wrap_with_padding_vec(cleartext).ok()
}

/// `KekAes256::unwrap_with_padding_vec` under a key made with
/// `From<[u8; 32]>`. Ciphertexts under 16 bytes are left out: on some of 8
/// bytes the crate's length check underflows.
#[verifier::external_body]
fn aes_key_unwrap(key: &[u8; 32], ciphertext: &[u8]) -> (cleartext: Option<Vec<u8>>)
    requires
        ciphertext@.len() >= 16,
    ensures
        option_view(cleartext) == key_unwrapped(key@, ciphertext@),
{
    aes_kw::KekAes256::from(*key).unwrap_with_padding_vec(ciphertext).ok()
}

/// `XChaCha20Poly1305::encrypt` with no associated data, under a nonce made
/// with `XNonce::from_slice`, which panics on other lengths than 24: they are
/// left out. Claimed: it fails exactly on `u32::MAX` blocks of 64 bytes or
/// more; the result depends on key, nonce and plaintext alone and is 16 bytes
/// longer than the plaintext; and decrypting it under the same key and nonce
/// gives the plaintext back.
#[verifier::external_body]
fn xchacha_seal(key: &[u8; 32], nonce: &[u8], plaintext: &[u8]) -> (ciphertext: Option<Vec<u8>>)
    requires
        nonce@.len() == 24,
    ensures
        ciphertext is Some <==> plaintext@.len() / 64 < u32::MAX,
        ciphertext matches Some(c) ==> c@ == sealed(key@, nonce@, plaintext@),
        ciphertext matches Some(c) ==> c@.len() == plaintext@.len() + 16,
        ciphertext matches Some(c) ==> opened(key@, nonce@, c@) == Some(plaintext@),
{
    chacha20poly1305::XChaCha20Poly1305::new(key.into())
        .encrypt(chacha20poly1305::XNonce::from_slice(nonce), plaintext)
        .ok()
}

/// `XChaCha20Poly1305::decrypt` with no associated data, under a nonce made
/// with `XNonce::from_slice`, which panics on other lengths than 24: they are
/// left out. The plaintext, or nothing where the ciphertext does not carry the
/// tag of this key and nonce.
#[verifier::external_body]
fn xchacha_open(key: &[u8; 32], nonce: &[u8], ciphertext: &[u8]) -> (plaintext: Option<Vec<u8>>)
    requires
        nonce@.len() == 24,
    ensures
        option_view(plaintext) == opened(key@, nonce@, ciphertext@),
{
    chacha20poly1305::XChaCha20Poly1305::new(key.into())
        .decrypt(chacha20poly1305::XNonce::from_slice(nonce), ciphertext)
        .ok()
}

/// `RngCore::fill_bytes` on a fresh array of 32 bytes. Nothing is said of the
/// bytes.
#[verifier::external_body]
fn random_32(rng: &mut ThreadRng) -> (bytes: [u8; 32]) {
    let mut bytes = [0u8; 32];
    rng.fill_bytes(&mut bytes);
    bytes
}

/// `RngCore::fill_bytes` on a fresh array of 24 bytes. Nothing is said of the
/// bytes.
#[verifier::external_body]
fn random_24(rng: &mut ThreadRng) -> (bytes: [u8; 24]) {
    let mut bytes = [0u8; 24];
    rng.fill_bytes(&mut bytes);
    bytes
}

/// Appends `src` to `dst`.
pub fn append_bytes(dst: &mut Vec<u8>, src: &[u8])
    ensures
        final(dst)@ == old(dst)@ + src@,
{
    let mut i: usize = 0;
    while i < src.len()
        invariant
            i <= src.len(),
            dst@ == old(dst)@ + src@.take(i as int),
        decreases src.len() - i,
    {
        dst.push(src[i]);
        assert(src@.take(i + 1) =~= src@.take(i as int).push(src@[i as int]));
        i += 1;
    }
    assert(src@.take(i as int) =~= src@);
}

/// The domain separation string of temporal keys.
pub open spec fn temporal_key_dsi() -> Seq<char> {
    "wnfs/1.0/temporal key derivation from root secret"@
}

/// The domain separation string of snapshot keys.
pub open spec fn snapshot_key_dsi() -> Seq<char> {
    "wnfs/1.0/snapshot key derivation from temporal"@
}

/// The key of one revision of a node. Who holds it can unwrap the header of
/// the revision and derive its snapshot key.
#[derive(Debug, Clone, Copy)]
pub struct TemporalKey(pub [u8; 32]);

/// The key that opens the content of one revision, and nothing else.
#[derive(Debug, Clone, Copy)]
pub struct SnapshotKey(pub [u8; 32]);

impl View for TemporalKey {
    type V = Seq<u8>;

    open spec fn view(&self) -> Seq<u8> {
        self.0@
    }
}

impl View for SnapshotKey {
    type V = Seq<u8>;

    open spec fn view(&self) -> Seq<u8> {
        self.0@
    }
}

/// A fresh root secret: 32 bytes from `rng`.
pub fn random_secret(rng: &mut ThreadRng) -> (secret: [u8; 32]) {
    random_32(rng)
}

impl TemporalKey {
    /// The material that the temporal key of a revision is derived from: the
    /// root secret, then the revision number in little-endian order.
    pub open spec fn material(root_secret: Seq<u8>, revision: u64) -> Seq<u8> {
        root_secret + spec_u64_to_le_bytes(revision)
    }

    /// What `key_wrap_decrypt` makes of a ciphertext: nothing for one under
    /// 16 bytes, else what unwrapping recovers.
    pub open spec fn spec_key_wrap_decrypt(self, ciphertext: Seq<u8>) -> Option<Seq<u8>> {
        if ciphertext.len() < 16 {
            None
        } else {
            key_unwrapped(self@, ciphertext)
        }
    }

    /// The temporal key of revision `revision` of the node with the root
    /// secret `root_secret`. Another revision number gives a key that looks
    /// unrelated; who holds the root secret can compute the key of any
    /// revision.
    pub fn derive(root_secret: &[u8; 32], revision: u64) -> (key: TemporalKey)
        ensures
            key@ == derived_key(temporal_key_dsi(), Self::material(root_secret@, revision)),
    {
        let mut material = Vec::new();
        append_bytes(&mut material, root_secret.as_slice());
        let counter = u64_to_le_bytes(revision);
        append_bytes(&mut material, counter.as_slice());
        TemporalKey(
            blake3_derive_key(
                "wnfs/1.0/temporal key derivation from root secret",
                material.as_slice(),
            ),
        )
    }

    /// The snapshot key of the same revision. There is no way back from it to
    /// the temporal key.
    pub fn derive_snapshot_key(&self) -> (key: SnapshotKey)
        ensures
            key@ == derived_key(snapshot_key_dsi(), self@),
    {
        SnapshotKey(
            blake3_derive_key(
                "wnfs/1.0/snapshot key derivation from temporal",
                self.0.as_slice(),
            ),
        )
    }

    /// Wraps a header under the key. A cleartext that is empty or longer than
    /// `u32::MAX` bytes is refused.
    pub fn key_wrap_encrypt(&self, cleartext: &[u8]) -> (wrapped: Result<Vec<u8>, FsError>)
        ensures
            match wrapped {
                Ok(w) => {
                    &&& 1 <= cleartext@.len() <= u32::MAX
                    &&& w@ == key_wrapped(self@, cleartext@)
                    &&& self.spec_key_wrap_decrypt(w@) == Some(cleartext@)
                },
                Err(e) => e == FsError::MalformedRecord && !(1 <= cleartext@.len() <= u32::MAX),
            },
    {
        if cleartext.len() == 0 {
            return Err(FsError::MalformedRecord);
        }
        match aes_key_wrap(&self.0, cleartext) {
            Some(w) => Ok(w),
            None => Err(FsError::MalformedRecord),
        }
    }

    /// Unwraps a header. Any failure is a `DecryptionFailure`: a wrong key
    /// cannot be told from changed bytes.
    pub fn key_wrap_decrypt(&self, ciphertext: &[u8]) -> (cleartext: Result<Vec<u8>, FsError>)
        ensures
            match cleartext {
                Ok(c) => self.spec_key_wrap_decrypt(ciphertext@) == Some(c@),
                Err(e) => e == FsError::DecryptionFailure && self.spec_key_wrap_decrypt(
                    ciphertext@,
                ) is None,
            },
    {
        if ciphertext.len() < 16 {
            return Err(FsError::DecryptionFailure);
        }
        match aes_key_unwrap(&self.0, ciphertext) {
            Some(c) => Ok(c),
            None => Err(FsError::DecryptionFailure),
        }
    }
}

impl SnapshotKey {
    /// A fresh key: 32 bytes from `rng`.
    pub fn new(rng: &mut ThreadRng) -> (key: SnapshotKey) {
        SnapshotKey(random_32(rng))
    }

    /// The stored form of `data` under a nonce: the nonce, then the
    /// ciphertext with its tag.
    pub open spec fn spec_encrypt(self, nonce: Seq<u8>, data: Seq<u8>) -> Seq<u8> {
        nonce + sealed(self@, nonce, data)
    }

    /// What `decrypt` makes of stored bytes: nothing for fewer bytes than a
    /// nonce, else what opens under the nonce in front.
    pub open spec fn spec_decrypt(self, ciphertext: Seq<u8>) -> Option<Seq<u8>> {
        if ciphertext.len() < 24 {
            None
        } else {
            opened(
                self@,
                ciphertext.subrange(0, 24),
                ciphertext.subrange(24, ciphertext.len() as int),
            )
        }
    }

    /// Encrypts `data` under the given nonce of 24 bytes. The same key, nonce
    /// and data give the same bytes. Data of `u32::MAX` blocks of 64 bytes or
    /// more is refused.
    pub fn encrypt_under(&self, nonce: &[u8], data: &[u8]) -> (ciphertext: Result<Vec<u8>, FsError>)
        requires
            nonce@.len() == 24,
        ensures
            match ciphertext {
                Ok(c) => {
                    &&& data@.len() / 64 < u32::MAX
                    &&& c@ == self.spec_encrypt(nonce@, data@)
                    &&& c@.len() == data@.len() + 40
                    &&& self.spec_decrypt(c@) == Some(data@)
                },
                Err(e) => e == FsError::MalformedRecord && data@.len() / 64 >= u32::MAX,
            },
    {
        match xchacha_seal(&self.0, nonce, data) {
            Some(body) => {
                let mut ciphertext: Vec<u8> = Vec::new();
                append_bytes(&mut ciphertext, nonce);
                append_bytes(&mut ciphertext, body.as_slice());
                proof {
                    assert(ciphertext@.subrange(0, 24) =~= nonce@);
                    assert(ciphertext@.subrange(24, ciphertext@.len() as int) =~= body@);
                }
                Ok(ciphertext)
            },
            None => Err(FsError::MalformedRecord),
        }
    }

    /// Encrypts `data` under the given nonce.
    pub fn encrypt_with_nonce(&self, nonce: &[u8; 24], data: &[u8]) -> (ciphertext: Result<
        Vec<u8>,
        FsError,
    >)
        ensures
            match ciphertext {
                Ok(c) => {
                    &&& data@.len() / 64 < u32::MAX
                    &&& c@ == self.spec_encrypt(nonce@, data@)
                    &&& c@.len() == data@.len() + 40
                    &&& self.spec_decrypt(c@) == Some(data@)
                },
                Err(e) => e == FsError::MalformedRecord && data@.len() / 64 >= u32::MAX,
            },
    {
        self.encrypt_under(nonce.as_slice(), data)
    }

    /// Encrypts `data` under a nonce drawn from `rng`. Whatever the nonce,
    /// `decrypt` under the same key gives the data back.
    pub fn encrypt(&self, data: &[u8], rng: &mut ThreadRng) -> (ciphertext: Result<
        Vec<u8>,
        FsError,
    >)
        ensures
            match ciphertext {
                Ok(c) => {
                    &&& data@.len() / 64 < u32::MAX
                    &&& c@.len() == data@.len() + 40
                    &&& c@ == self.spec_encrypt(c@.subrange(0, 24), data@)
                    &&& self.spec_decrypt(c@) == Some(data@)
                },
                Err(e) => e == FsError::MalformedRecord && data@.len() / 64 >= u32::MAX,
            },
    {
        let nonce = random_24(rng);
        let ciphertext = self.encrypt_with_nonce(&nonce, data);
        proof {
            if ciphertext is Ok {
                assert(ciphertext->Ok_0@.subrange(0, 24) =~= nonce@);
            }
        }
        ciphertext
    }

    /// Decrypts stored bytes. Any failure is a `DecryptionFailure`: a wrong
    /// key cannot be told from changed bytes.
    pub fn decrypt(&self, ciphertext: &[u8]) -> (data: Result<Vec<u8>, FsError>)
        ensures
            match data {
                Ok(d) => self.spec_decrypt(ciphertext@) == Some(d@),
                Err(e) => e == FsError::DecryptionFailure && self.spec_decrypt(ciphertext@)
                    is None,
            },
    {
        if ciphertext.len() < 24 {
            return Err(FsError::DecryptionFailure);
        }
        let nonce = slice_subrange(ciphertext, 0, 24);
        let body = slice_subrange(ciphertext, 24, ciphertext.len());
        match xchacha_open(&self.0, nonce, body) {
            Some(d) => Ok(d),
            None => Err(FsError::DecryptionFailure),
        }
    }
}

} // verus!
