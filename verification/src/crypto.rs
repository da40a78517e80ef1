//! The authenticated encryption envelope around every stored object.
//!
//! A stored ciphertext is the 16-byte nonce followed by the sealed
//! message: AES-256-CTR of the payload with a 16-byte Poly1305-AES tag
//! appended, under a 64-byte key (32 bytes cipher key, 32 bytes MAC key).
//! The envelope overhead is the constant 32 bytes the pack format
//! accounts for.  Decryption is deterministic; encryption takes the
//! nonce from the caller, who draws it fresh for every message.

use aes256ctr_poly1305aes::aead::{Aead, KeyInit};
use vstd::prelude::*;

use crate::errors::RepoError;

verus! {

/// Bytes of the nonce ahead of the payload.
pub const NONCE_LEN: usize = 16;

/// Bytes of the authentication tag behind the payload.
pub const TAG_LEN: usize = 16;

/// The constant envelope overhead.
pub const ENVELOPE_OVERHEAD: usize = 32;

/// Bytes of a key.
pub const KEY_LEN: usize = 64;

/// What sealing returns: ciphertext and tag, a function of key, nonce
/// and message alone.
pub uninterp spec fn aead_seal(key: Seq<u8>, nonce: Seq<u8>, plain: Seq<u8>) -> Seq<u8>;

/// What opening returns: the payload when the tag verifies, nothing
/// otherwise; a function of key, nonce and sealed bytes alone.
pub uninterp spec fn aead_open(key: Seq<u8>, nonce: Seq<u8>, sealed: Seq<u8>) -> Option<Seq<u8>>;

/// Relies on Aes256CtrPoly1305Aes::encrypt: AES-256-CTR with a
/// Poly1305-AES tag appended, deterministic in key, nonce and message;
/// with empty associated data the cipher has no failure path, and
/// decrypting what was sealed gives the message back.
#[verifier::external_body]
fn aead_encrypt_raw(key: &[u8], nonce: &[u8], plain: &[u8]) -> (r: Vec<u8>)
    requires
        key@.len() == KEY_LEN,
        nonce@.len() == NONCE_LEN,
    ensures
        r@ == aead_seal(key@, nonce@, plain@),
        r@.len() == plain@.len() + TAG_LEN,
        aead_open(key@, nonce@, r@) == Some(plain@),
{
    let cipher = aes256ctr_poly1305aes::Aes256CtrPoly1305Aes::new(
        aes256ctr_poly1305aes::Key::from_slice(key),
    );
    match cipher.encrypt(aes256ctr_poly1305aes::Nonce::from_slice(nonce), plain) {
        Ok(v) => v,
        Err(_) => Vec::new(),
    }
}

/// Relies on Aes256CtrPoly1305Aes::decrypt: opening succeeds exactly
/// when the tag verifies, and is a function of key, nonce and bytes.
#[verifier::external_body]
fn aead_decrypt_raw(key: &[u8], nonce: &[u8], sealed: &[u8]) -> (r: Result<Vec<u8>, RepoError>)
    requires
        key@.len() == KEY_LEN,
        nonce@.len() == NONCE_LEN,
    ensures
        r is Ok <==> aead_open(key@, nonce@, sealed@) is Some,
        r is Ok ==> Some((r->Ok_0)@) == aead_open(key@, nonce@, sealed@),
        r is Err ==> r->Err_0 == RepoError::Auth,
{
    let cipher = aes256ctr_poly1305aes::Aes256CtrPoly1305Aes::new(
        aes256ctr_poly1305aes::Key::from_slice(key),
    );
    match cipher.decrypt(aes256ctr_poly1305aes::Nonce::from_slice(nonce), sealed) {
        Ok(v) => Ok(v),
        Err(_) => Err(RepoError::Auth),
    }
}

/// A symmetric key: 32 bytes for the cipher, 32 bytes for the MAC.
pub struct Key {
    bytes: Vec<u8>,
}

impl View for Key {
    type V = Seq<u8>;

    closed spec fn view(&self) -> Seq<u8> {
        self.bytes@
    }
}

impl Clone for Key {
    fn clone(&self) -> (r: Self)
        ensures
            r@ == self@,
    {
        Key { bytes: self.bytes.clone() }
    }
}

/// The ciphertext of a payload under a key and nonce.
pub open spec fn spec_encrypt(key: Key, nonce: Seq<u8>, plain: Seq<u8>) -> Seq<u8> {
    nonce + aead_seal(key@, nonce, plain)
}

/// The payload of a ciphertext under key bytes, when its tag verifies.
pub open spec fn spec_decrypt_bytes(key: Seq<u8>, data: Seq<u8>) -> Option<Seq<u8>> {
    if data.len() < ENVELOPE_OVERHEAD {
        None
    } else {
        aead_open(key, data.take(NONCE_LEN as int), data.skip(NONCE_LEN as int))
    }
}

/// The payload of a ciphertext, when its tag verifies.
pub open spec fn spec_decrypt(key: Key, data: Seq<u8>) -> Option<Seq<u8>> {
    spec_decrypt_bytes(key@, data)
}

impl Key {
    /// A well-formed key holds exactly 64 bytes.
    pub open spec fn wf(&self) -> bool {
        self@.len() == KEY_LEN
    }

    /// Build a key from its 64 bytes.
    pub fn from_bytes(bytes: Vec<u8>) -> (r: Key)
        requires
            bytes@.len() == KEY_LEN,
        ensures
            r@ == bytes@,
            r.wf(),
    {
        Key { bytes }
    }

    /// The key's bytes.
    pub fn bytes(&self) -> (r: &Vec<u8>)
        ensures
            r@ == self@,
    {
        &self.bytes
    }

    /// Encrypt a payload under a fresh nonce: the nonce, the masked
    /// payload and the tag, and decryptable back to the payload.
    pub fn encrypt(&self, nonce: &[u8], plain: &[u8]) -> (r: Vec<u8>)
        requires
            self.wf(),
            nonce@.len() == NONCE_LEN,
        ensures
            r@ == spec_encrypt(*self, nonce@, plain@),
            r@.len() == plain@.len() + ENVELOPE_OVERHEAD,
            spec_decrypt(*self, r@) == Some(plain@),
    {
        let sealed = aead_encrypt_raw(self.bytes.as_slice(), nonce, plain);
        let mut out: Vec<u8> = Vec::new();
        let mut i: usize = 0;
        while i < nonce.len()
            invariant
                i <= nonce@.len(),
                out@ == nonce@.take(i as int),
            decreases nonce@.len() - i,
        {
            out.push(nonce[i]);
            proof {
                assert(out@ =~= nonce@.take(i as int + 1));
            }
            i += 1;
        }
        proof {
            assert(nonce@.take(nonce@.len() as int) =~= nonce@);
        }
        let ghost sealedg = sealed@;
        let mut s = sealed;
        out.append(&mut s);
        proof {
            assert(out@ =~= nonce@ + sealedg);
            assert(out@.take(NONCE_LEN as int) =~= nonce@);
            assert(out@.skip(NONCE_LEN as int) =~= sealedg);
        }
        out
    }

    /// Decrypt a ciphertext, verifying its tag.
    pub fn decrypt(&self, data: &[u8]) -> (r: Result<Vec<u8>, RepoError>)
        requires
            self.wf(),
        ensures
            r is Ok <==> spec_decrypt(*self, data@) is Some,
            r matches Ok(p) ==> Some(p@) == spec_decrypt(*self, data@),
            r is Err ==> r == Err::<Vec<u8>, RepoError>(RepoError::Auth),
    {
        if data.len() < ENVELOPE_OVERHEAD {
            return Err(RepoError::Auth);
        }
        let mut nonce: Vec<u8> = Vec::new();
        let mut i: usize = 0;
        while i < NONCE_LEN
            invariant
                i <= NONCE_LEN,
                data@.len() >= ENVELOPE_OVERHEAD,
                nonce@ == data@.take(i as int),
            decreases NONCE_LEN - i,
        {
            nonce.push(data[i]);
            proof {
                assert(nonce@ =~= data@.take(i as int + 1));
            }
            i += 1;
        }
        let mut sealed: Vec<u8> = Vec::new();
        let mut j: usize = NONCE_LEN;
        while j < data.len()
            invariant
                NONCE_LEN <= j <= data@.len(),
                data@.len() >= ENVELOPE_OVERHEAD,
                sealed@ == data@.subrange(NONCE_LEN as int, j as int),
            decreases data@.len() - j,
        {
            sealed.push(data[j]);
            proof {
                assert(sealed@ =~= data@.subrange(NONCE_LEN as int, j as int + 1));
            }
            j += 1;
        }
        proof {
            assert(nonce@ =~= data@.take(NONCE_LEN as int));
            assert(sealed@ =~= data@.skip(NONCE_LEN as int));
        }
        aead_decrypt_raw(self.bytes.as_slice(), nonce.as_slice(), sealed.as_slice())
    }
}

} // verus!
