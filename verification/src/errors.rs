//! Error kinds surfaced by the repository engine.

use vstd::prelude::*;

verus! {

/// The error kinds a repository operation can surface.
#[derive(Clone, Copy, Debug, PartialEq, Eq, Structural)]
pub enum RepoError {
    /// Crypto authentication failed: wrong key or corrupted ciphertext.
    Auth,
    /// An id lookup matched nothing.
    NotFound,
    /// A short id prefix matched more than one id.
    Ambiguous,
    /// A transport (store) operation failed.
    Io,
    /// A binary or textual document could not be parsed.
    Format,
    /// A hash, size or header disagreed with the catalogued value.
    Integrity,
    /// An unsupported repository version or option combination.
    Config,
}

impl RepoError {
    /// A short stable name for the error kind.
    pub fn name(&self) -> (r: &'static str)
        ensures
            r@ == self.spec_name(),
    {
        match self {
            RepoError::Auth => "auth error",
            RepoError::NotFound => "not found",
            RepoError::Ambiguous => "ambiguous id",
            RepoError::Io => "io error",
            RepoError::Format => "format error",
            RepoError::Integrity => "integrity error",
            RepoError::Config => "config error",
        }
    }

    /// The name of each error kind.
    pub open spec fn spec_name(&self) -> Seq<char> {
        match self {
            RepoError::Auth => "auth error"@,
            RepoError::NotFound => "not found"@,
            RepoError::Ambiguous => "ambiguous id"@,
            RepoError::Io => "io error"@,
            RepoError::Format => "format error"@,
            RepoError::Integrity => "integrity error"@,
            RepoError::Config => "config error"@,
        }
    }
}

} // verus!
