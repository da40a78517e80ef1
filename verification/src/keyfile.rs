//! The key envelope: the master key wrapped under a password-derived key.
//!
//! A key file carries the scrypt parameters, a salt, and the master key
//! encrypted under the key the password derives.  Unwrapping any stored
//! key file with the right password yields the repository's master key.

use vstd::prelude::*;

use crate::crypto::{
    spec_decrypt, spec_decrypt_bytes, spec_encrypt, Key, ENVELOPE_OVERHEAD, KEY_LEN, NONCE_LEN,
};
use crate::errors::RepoError;

verus! {

/// The default scrypt work factor exponent.
pub const KDF_LOG_N: u8 = 15;

/// The default scrypt block size.
pub const KDF_R: u32 = 8;

/// The default scrypt parallelism.
pub const KDF_P: u32 = 1;

/// What scrypt returns for a 64-byte output: a function of the password,
/// the salt and the cost parameters alone.
pub uninterp spec fn scrypt_of(
    password: Seq<u8>,
    salt: Seq<u8>,
    log_n: u8,
    blocksize: u32,
    parallelism: u32,
) -> Seq<u8>;

/// Relies on scrypt::scrypt with scrypt::Params::new: a pure function of
/// its inputs; parameters are rejected exactly by the constructor's
/// checks, and the moderate region promised below passes them on any
/// machine width.
#[verifier::external_body]
fn scrypt_derive(password: &[u8], salt: &[u8], log_n: u8, blocksize: u32, parallelism: u32) -> (r:
    Result<Vec<u8>, RepoError>)
    ensures
        r is Ok ==> (r->Ok_0)@ == scrypt_of(password@, salt@, log_n, blocksize, parallelism)
            && (r->Ok_0)@.len() == KEY_LEN,
        log_n <= 20 && 0 < blocksize <= 8 && 0 < parallelism <= 16 ==> r is Ok,
        r is Err ==> r->Err_0 == RepoError::Config,
{
    let params = match scrypt::Params::new(log_n, blocksize, parallelism) {
        Ok(p) => p,
        Err(_) => {
            return Err(RepoError::Config);
        },
    };
    let mut out = vec![0u8; 64];
    match scrypt::scrypt(password, salt, &params, &mut out) {
        Ok(()) => Ok(out),
        Err(_) => Err(RepoError::Config),
    }
}

/// A stored key file: KDF parameters, salt, and the wrapped master key.
pub struct KeyFile {
    pub log_n: u8,
    pub r: u32,
    pub p: u32,
    pub salt: Vec<u8>,
    /// The master key, encrypted under the password-derived key.
    pub data: Vec<u8>,
}

/// Derive the key-encryption key from a password and salt.
pub fn derive_kek(password: &[u8], salt: &[u8], log_n: u8, blocksize: u32, parallelism: u32) -> (r:
    Result<Key, RepoError>)
    ensures
        r matches Ok(k) ==> k@ == scrypt_of(password@, salt@, log_n, blocksize, parallelism)
            && k.wf(),
        log_n <= 20 && 0 < blocksize <= 8 && 0 < parallelism <= 16 ==> r is Ok,
        r is Err ==> r == Err::<Key, RepoError>(RepoError::Config),
{
    let bytes = scrypt_derive(password, salt, log_n, blocksize, parallelism)?;
    Ok(Key::from_bytes(bytes))
}

/// Wrap the master key under the password-derived key.
pub fn wrap_master(kek: &Key, master: &Key, nonce: &[u8]) -> (r: Vec<u8>)
    requires
        kek.wf(),
        master.wf(),
        nonce@.len() == NONCE_LEN,
    ensures
        r@ == spec_encrypt(*kek, nonce@, master@),
        r@.len() == KEY_LEN + ENVELOPE_OVERHEAD,
        spec_decrypt(*kek, r@) == Some(master@),
{
    kek.encrypt(nonce, master.bytes().as_slice())
}

/// Unwrap a key file's master key: it must decrypt under the derived
/// key and hold exactly a key's bytes.
pub fn unwrap_master(kek: &Key, data: &[u8]) -> (r: Result<Key, RepoError>)
    requires
        kek.wf(),
    ensures
        r is Ok <==> (spec_decrypt(*kek, data@) matches Some(m) && m.len() == KEY_LEN),
        r matches Ok(k) ==> Some(k@) == spec_decrypt(*kek, data@) && k.wf(),
        r is Err ==> r == Err::<Key, RepoError>(RepoError::Auth) || r == Err::<Key, RepoError>(
            RepoError::Format,
        ),
        (r is Err && spec_decrypt(*kek, data@) is Some) ==> r == Err::<Key, RepoError>(
            RepoError::Format,
        ),
{
    let plain = kek.decrypt(data)?;
    if plain.len() != KEY_LEN {
        return Err(RepoError::Format);
    }
    Ok(Key::from_bytes(plain))
}

/// Build a key file wrapping the master key.
pub fn make_key_file(
    kek: &Key,
    master: &Key,
    nonce: &[u8],
    salt: Vec<u8>,
    log_n: u8,
    blocksize: u32,
    parallelism: u32,
) -> (r: KeyFile)
    requires
        kek.wf(),
        master.wf(),
        nonce@.len() == NONCE_LEN,
    ensures
        r.log_n == log_n,
        r.r == blocksize,
        r.p == parallelism,
        r.salt@ == salt@,
        r.data@ == spec_encrypt(*kek, nonce@, master@),
        spec_decrypt(*kek, r.data@) == Some(master@),
{
    let data = wrap_master(kek, master, nonce);
    KeyFile { log_n, r: blocksize, p: parallelism, salt, data }
}

/// Open a key file with a password: derive the key-encryption key from
/// the file's parameters and salt, then unwrap the master key.
pub fn open_key_file(password: &[u8], kf: &KeyFile) -> (r: Result<Key, RepoError>)
    ensures
        r matches Ok(k) ==> k.wf() && Some(k@) == spec_decrypt_bytes(
            scrypt_of(password@, kf.salt@, kf.log_n, kf.r, kf.p),
            kf.data@,
        ),
        r is Err ==> r == Err::<Key, RepoError>(RepoError::Auth) || r == Err::<Key, RepoError>(
            RepoError::Format,
        ) || r == Err::<Key, RepoError>(RepoError::Config),
        ({
            let m = spec_decrypt_bytes(scrypt_of(password@, kf.salt@, kf.log_n, kf.r, kf.p), kf.data@);
            (kf.log_n <= 20 && 0 < kf.r <= 8 && 0 < kf.p <= 16 && (m matches Some(mm)
                && mm.len() == KEY_LEN)) ==> r is Ok
        }),
{
    let kek = derive_kek(password, kf.salt.as_slice(), kf.log_n, kf.r, kf.p)?;
    unwrap_master(&kek, kf.data.as_slice())
}

} // verus!
