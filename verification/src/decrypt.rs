//! The decrypting store: the object store composed with the envelope and
//! optional compression.

use vstd::prelude::*;

use crate::backend::{FileType, ReadBackend, WriteBackend};
use crate::compress::{zstd_compress, zstd_decode, zstd_decompress, zstd_encode};
use crate::crypto::{spec_decrypt, spec_encrypt, Key, NONCE_LEN};
use crate::digest::{hash, spec_hash};
use crate::errors::RepoError;
use crate::id::Id;

verus! {

/// A store that can both read and write repository files.
pub trait DecryptFullBackend: WriteBackend {

}

/// The payload bytes a repo file is framed into before encryption: a
/// compressed frame is marked by a leading two; a plain JSON document
/// starts with its own first byte.
pub open spec fn spec_frame(zstd_level: Option<i32>, data: Seq<u8>) -> Seq<u8> {
    match zstd_level {
        Some(level) => seq![2u8] + zstd_compress(level as int, data),
        None => data,
    }
}

/// The payload read back from a decrypted frame.
pub open spec fn spec_unframe(plain: Seq<u8>) -> Option<Seq<u8>> {
    if plain.len() == 0 {
        None
    } else if plain[0] == 123 || plain[0] == 91 {
        Some(plain)
    } else if plain[0] == 2 {
        zstd_decompress(plain.skip(1))
    } else {
        None
    }
}

/// An object store composed with a key and an optional compression level.
pub struct DecryptBackend<R> {
    pub backend: R,
    pub key: Key,
    pub zstd: Option<i32>,
}

/// Undo a repo file's compression frame: a plain JSON document (first
/// byte `{` or `[`) passes through, a leading two marks a zstd frame to
/// decode, and anything else is a format error.
pub fn unframe(plain: Vec<u8>) -> (r: Result<Vec<u8>, RepoError>)
    ensures
        r is Ok <==> spec_unframe(plain@) is Some,
        r matches Ok(v) ==> Some(v@) == spec_unframe(plain@),
        r is Err ==> r == Err::<Vec<u8>, RepoError>(RepoError::Format),
{
    let ghost plaing = plain@;
    if plain.len() == 0 {
        return Err(RepoError::Format);
    }
    let first = plain[0];
    if first == 123 || first == 91 {
        proof {
            assert(spec_unframe(plaing) == Some(plaing));
        }
        Ok(plain)
    } else if first == 2 {
        let mut rest: Vec<u8> = Vec::new();
        let mut i: usize = 1;
        while i < plain.len()
            invariant
                1 <= i <= plain@.len(),
                rest@ == plain@.subrange(1, i as int),
            decreases plain@.len() - i,
        {
            rest.push(plain[i]);
            proof {
                assert(rest@ =~= plain@.subrange(1, i as int + 1));
            }
            i += 1;
        }
        proof {
            assert(rest@ =~= plaing.skip(1));
        }
        match zstd_decode(rest.as_slice()) {
            Ok(out) => Ok(out),
            Err(_) => Err(RepoError::Format),
        }
    } else {
        Err(RepoError::Format)
    }
}

impl<R: WriteBackend> DecryptBackend<R> {
    /// Wrap a store with a key; compression starts disabled.
    pub fn new(backend: R, key: Key) -> (r: Self)
        ensures
            r.backend == backend,
            r.key == key,
            r.zstd is None,
    {
        DecryptBackend { backend, key, zstd: None }
    }

    /// Enable or disable compression for what is written next.
    pub fn set_zstd(&mut self, zstd: Option<i32>)
        ensures
            final(self).zstd == zstd,
            final(self).key == old(self).key,
    {
        self.zstd = zstd;
    }

    /// Read and decrypt a whole repo file, undoing its compression frame.
    /// Whatever bytes the transport hands back, the result is exactly
    /// their decryption and unframing: decryption by `Key::decrypt` and
    /// unframing by `unframe`, each with an exact contract; a transport
    /// failure or an oversized object surfaces as its own error.
    pub fn read_encrypted_full(&self, tpe: FileType, id: &Id) -> (r: Result<Vec<u8>, RepoError>)
        requires
            self.key.wf(),
        ensures
            r matches Ok(v) ==> exists|raw: Seq<u8>, plain: Seq<u8>|
                spec_decrypt(self.key, raw) == Some(plain) && spec_unframe(plain) == Some(v@),
    {
        let data = self.backend.read_full(tpe, id)?;
        if data.len() as u64 > u64::MAX - 64 {
            return Err(RepoError::Format);
        }
        let plain = self.key.decrypt(data.as_slice())?;
        let ghost rawg = data@;
        let ghost plaing = plain@;
        let out = unframe(plain)?;
        proof {
            assert(spec_decrypt(self.key, rawg) == Some(plaing) && spec_unframe(plaing) == Some(
                out@,
            ));
        }
        Ok(out)
    }

    /// Frame, encrypt and publish a repo file; its id is the hash of the
    /// ciphertext as stored.  The caller draws a fresh nonce.  A format
    /// error arises only for an over-large frame; compression and
    /// transport failures surface as input/output errors.
    pub fn hash_write_full(&self, tpe: FileType, data: &[u8], nonce: &[u8]) -> (r: Result<
        Id,
        RepoError,
    >)
        requires
            self.key.wf(),
            nonce@.len() == NONCE_LEN,
            data@.len() <= u64::MAX / 2,
        ensures
            r matches Ok(id) ==> id@ == spec_hash(
                spec_encrypt(self.key, nonce@, spec_frame(self.zstd, data@)),
            ) && id.wf(),
            r == Err::<Id, RepoError>(RepoError::Format) ==> spec_frame(self.zstd, data@).len()
                > u64::MAX - 64,
    {
        let framed: Vec<u8> = match self.zstd {
            Some(level) => {
                let mut out: Vec<u8> = Vec::new();
                out.push(2u8);
                let mut comp = zstd_encode(data, level)?;
                out.append(&mut comp);
                proof {
                    assert(out@ =~= seq![2u8] + zstd_compress(level as int, data@));
                }
                out
            },
            None => {
                let mut out: Vec<u8> = Vec::new();
                let mut i: usize = 0;
                while i < data.len()
                    invariant
                        i <= data@.len(),
                        out@ == data@.take(i as int),
                    decreases data@.len() - i,
                {
                    out.push(data[i]);
                    proof {
                        assert(out@ =~= data@.take(i as int + 1));
                    }
                    i += 1;
                }
                proof {
                    assert(out@ =~= data@);
                }
                out
            },
        };
        if framed.len() as u64 > u64::MAX - 64 {
            return Err(RepoError::Format);
        }
        let cipher = self.key.encrypt(nonce, framed.as_slice());
        let id = hash(cipher.as_slice());
        let id2 = id.clone();
        match self.backend.write_bytes(tpe, &id, tpe.is_cacheable(), cipher) {
            Ok(()) => Ok(id2),
            Err(_) => Err(RepoError::Io),
        }
    }

    /// Read and decrypt a byte range of a pack.
    pub fn read_encrypted_partial(&self, tpe: FileType, id: &Id, cacheable: bool, offset: u32,
        length: u32) -> (r: Result<Vec<u8>, RepoError>)
        requires
            self.key.wf(),
        ensures
            r matches Ok(v) ==> exists|raw: Seq<u8>| spec_decrypt(self.key, raw) == Some(v@),
    {
        let data = self.backend.read_partial(tpe, id, cacheable, offset, length)?;
        if data.len() as u64 > u64::MAX - 64 {
            return Err(RepoError::Format);
        }
        let plain = self.key.decrypt(data.as_slice())?;
        Ok(plain)
    }
}

} // verus!
