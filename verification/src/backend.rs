//! The object-store interface: file kinds, the store traits, id lookup by
//! hex prefix, and the choice of transport.

use vstd::prelude::*;

use crate::errors::RepoError;
use crate::id::{hex_of_bytes, Id};
use crate::retention::starts_with_chars;

verus! {

/// The kinds of files a repository holds, each in its own directory.
#[derive(Clone, Copy, Debug, PartialEq, Eq, Structural)]
pub enum FileType {
    Config,
    Index,
    Key,
    Snapshot,
    Pack,
}

impl FileType {
    /// The directory name of this kind.
    pub fn name(&self) -> (r: &'static str)
        ensures
            r@ == self.spec_name(),
    {
        match self {
            FileType::Config => "config",
            FileType::Snapshot => "snapshots",
            FileType::Index => "index",
            FileType::Key => "keys",
            FileType::Pack => "data",
        }
    }

    /// The directory name of this kind.
    pub open spec fn spec_name(&self) -> Seq<char> {
        match self {
            FileType::Config => "config"@,
            FileType::Snapshot => "snapshots"@,
            FileType::Index => "index"@,
            FileType::Key => "keys"@,
            FileType::Pack => "data"@,
        }
    }

    /// Snapshot and index files may live in a local cache; config, key
    /// and pack files may not.
    pub fn is_cacheable(&self) -> (r: bool)
        ensures
            r == (self is Snapshot || self is Index),
    {
        match self {
            FileType::Config | FileType::Key | FileType::Pack => false,
            FileType::Snapshot | FileType::Index => true,
        }
    }
}

/// A typed repository file: it knows which kind it is stored under.
pub trait RepoFile {
    /// The kind this file is stored under.
    fn file_type(&self) -> FileType;
}

/// Reading from an object store.  The transports implementing this live
/// outside the library; nothing is assumed of what they return.
pub trait ReadBackend {
    /// List the ids and sizes of one kind.
    fn list_with_size(&self, tpe: FileType) -> Result<Vec<(Id, u32)>, RepoError>;

    /// Read a whole object.
    fn read_full(&self, tpe: FileType, id: &Id) -> Result<Vec<u8>, RepoError>;

    /// Read a byte range of an object.
    fn read_partial(&self, tpe: FileType, id: &Id, cacheable: bool, offset: u32, length: u32)
        -> Result<Vec<u8>, RepoError>;
}

/// Writing to an object store.
pub trait WriteBackend: ReadBackend {
    /// Initialize the backing namespace layout.
    fn create(&self) -> Result<(), RepoError>;

    /// Publish an object atomically.
    fn write_bytes(&self, tpe: FileType, id: &Id, cacheable: bool, buf: Vec<u8>) -> Result<
        (),
        RepoError,
    >;

    /// Remove an object.
    fn remove(&self, tpe: FileType, id: &Id, cacheable: bool) -> Result<(), RepoError>;
}

/// A source of files to back up, walked in depth-first name order.  The
/// walkers implementing this live outside the library.
pub trait ReadSource {
    /// The number of entries left.
    fn remaining(&self) -> u64;
}

/// A destination files are restored into.
pub trait WriteSource {
    /// Whether the destination accepts writes.
    fn writable(&self) -> bool;
}

/// Whether a hex prefix query matches an id.
pub open spec fn spec_prefix_matches(id: Seq<u8>, q: Seq<char>) -> bool {
    q.is_prefix_of(hex_of_bytes(id))
}

/// How many of the listed ids a query matches, looking at a prefix of
/// the listing.
pub open spec fn spec_match_count(list: Seq<Id>, i: int, q: Seq<char>) -> int
    decreases i,
{
    if i <= 0 {
        0
    } else {
        spec_match_count(list, i - 1, q) + if spec_prefix_matches(list[i - 1]@, q) {
            1int
        } else {
            0int
        }
    }
}

/// Resolve each hex prefix against a listing: a unique match yields the
/// id; no match is not found; two or more are ambiguous.
pub fn find_starts_with(list: &Vec<Id>, queries: &Vec<Vec<char>>) -> (r: Vec<
    Result<Id, RepoError>,
>)
    ensures
        r@.len() == queries@.len(),
        forall|i: int|
            0 <= i < queries@.len() ==> match #[trigger] r@[i] {
                Ok(id) => spec_match_count(list@, list@.len() as int, queries@[i]@) == 1
                    && spec_prefix_matches(id@, queries@[i]@) && (exists|j: int|
                    0 <= j < list@.len() && (#[trigger] list@[j])@ == id@),
                Err(e) => (e == RepoError::NotFound && spec_match_count(
                    list@,
                    list@.len() as int,
                    queries@[i]@,
                ) == 0) || (e == RepoError::Ambiguous && spec_match_count(
                    list@,
                    list@.len() as int,
                    queries@[i]@,
                ) >= 2),
            },
{
    let mut out: Vec<Result<Id, RepoError>> = Vec::new();
    let mut qi: usize = 0;
    while qi < queries.len()
        invariant
            qi <= queries@.len(),
            out@.len() == qi,
            forall|i: int|
                0 <= i < qi ==> match #[trigger] out@[i] {
                    Ok(id) => spec_match_count(list@, list@.len() as int, queries@[i]@) == 1
                        && spec_prefix_matches(id@, queries@[i]@) && (exists|j: int|
                        0 <= j < list@.len() && (#[trigger] list@[j])@ == id@),
                    Err(e) => (e == RepoError::NotFound && spec_match_count(
                        list@,
                        list@.len() as int,
                        queries@[i]@,
                    ) == 0) || (e == RepoError::Ambiguous && spec_match_count(
                        list@,
                        list@.len() as int,
                        queries@[i]@,
                    ) >= 2),
                },
        decreases queries@.len() - qi,
    {
        let q = &queries[qi];
        let mut count: usize = 0;
        let mut found: Option<Id> = None;
        let mut j: usize = 0;
        while j < list.len()
            invariant
                j <= list@.len(),
                count <= j,
                count as int == spec_match_count(list@, j as int, q@),
                count == 0 <==> found is None,
                found matches Some(id) ==> spec_prefix_matches(id@, q@) && (exists|x: int|
                    0 <= x < list@.len() && (#[trigger] list@[x])@ == id@),
            decreases list@.len() - j,
        {
            let hex = list[j].to_hex();
            if starts_with_chars(&hex, q) {
                proof {
                    assert(spec_prefix_matches(list@[j as int]@, q@));
                }
                if found.is_none() {
                    found = Some(list[j].clone());
                    proof {
                        assert(list@[j as int]@ == list@[j as int]@);
                    }
                }
                count = count + 1;
            }
            j += 1;
        }
        let res: Result<Id, RepoError> = if count == 0 {
            Err(RepoError::NotFound)
        } else if count == 1 {
            match found {
                Some(id) => Ok(id),
                None => Err(RepoError::NotFound),
            }
        } else {
            Err(RepoError::Ambiguous)
        };
        out.push(res);
        qi += 1;
    }
    out
}

/// The mathematical content of a transport choice.
#[verifier::ext_equal]
pub ghost enum SpecBackendChoice {
    Local(Seq<char>),
    Rest(Seq<char>),
    Rclone(Seq<char>),
}

/// The object-store transports, as a tagged choice over their locations.
pub enum ChooseBackend {
    /// A directory of the local filesystem.
    Local(Vec<char>),
    /// A REST endpoint.
    Rest(Vec<char>),
    /// An rclone remote spoken to over a pipe.
    Rclone(Vec<char>),
}

impl ChooseBackend {
    /// Choose a transport from a location string: an explicit scheme
    /// prefix picks it, and a bare path is local.
    pub fn from_url(url: &[char]) -> (r: ChooseBackend)
        ensures
            r@ == ChooseBackend::spec_from_url(url@),
    {
        let mut u: Vec<char> = Vec::new();
        let mut i: usize = 0;
        while i < url.len()
            invariant
                i <= url@.len(),
                u@ == url@.take(i as int),
            decreases url@.len() - i,
        {
            u.push(url[i]);
            proof {
                assert(u@ =~= url@.take(i as int + 1));
            }
            i += 1;
        }
        proof {
            assert(url@.take(url@.len() as int) =~= url@);
        }
        let rclone = prefix_chars(&u, &['r', 'c', 'l', 'o', 'n', 'e', ':']);
        let rest = prefix_chars(&u, &['r', 'e', 's', 't', ':']);
        let local = prefix_chars(&u, &['l', 'o', 'c', 'a', 'l', ':']);
        proof {
            reveal_strlit("rclone:");
            reveal_strlit("rest:");
            reveal_strlit("local:");
            assert(seq!['r', 'c', 'l', 'o', 'n', 'e', ':'] =~= "rclone:"@);
            assert(seq!['r', 'e', 's', 't', ':'] =~= "rest:"@);
            assert(seq!['l', 'o', 'c', 'a', 'l', ':'] =~= "local:"@);
        }
        if rclone {
            ChooseBackend::Rclone(chars_skip(&u, 7))
        } else if rest {
            ChooseBackend::Rest(chars_skip(&u, 5))
        } else if local {
            ChooseBackend::Local(chars_skip(&u, 6))
        } else {
            ChooseBackend::Local(u)
        }
    }

    /// The transport a location string denotes.
    pub open spec fn spec_from_url(url: Seq<char>) -> SpecBackendChoice {
        if "rclone:"@.is_prefix_of(url) {
            SpecBackendChoice::Rclone(url.skip(7))
        } else if "rest:"@.is_prefix_of(url) {
            SpecBackendChoice::Rest(url.skip(5))
        } else if "local:"@.is_prefix_of(url) {
            SpecBackendChoice::Local(url.skip(6))
        } else {
            SpecBackendChoice::Local(url)
        }
    }

    /// The location the transport points at.
    pub fn location(&self) -> (r: &Vec<char>)
        ensures
            r@ == self.spec_location(),
    {
        match self {
            ChooseBackend::Local(p) => p,
            ChooseBackend::Rest(p) => p,
            ChooseBackend::Rclone(p) => p,
        }
    }

    /// The location the transport points at.
    pub open spec fn spec_location(&self) -> Seq<char> {
        match self {
            ChooseBackend::Local(p) => p@,
            ChooseBackend::Rest(p) => p@,
            ChooseBackend::Rclone(p) => p@,
        }
    }
}

impl View for ChooseBackend {
    type V = SpecBackendChoice;

    open spec fn view(&self) -> SpecBackendChoice {
        match self {
            ChooseBackend::Local(p) => SpecBackendChoice::Local(p@),
            ChooseBackend::Rest(p) => SpecBackendChoice::Rest(p@),
            ChooseBackend::Rclone(p) => SpecBackendChoice::Rclone(p@),
        }
    }
}

/// Whether a character vector starts with a literal prefix.
fn prefix_chars(s: &Vec<char>, p: &[char]) -> (r: bool)
    ensures
        r == p@.is_prefix_of(s@),
{
    if p.len() > s.len() {
        return false;
    }
    let mut i: usize = 0;
    while i < p.len()
        invariant
            p@.len() <= s@.len(),
            i <= p@.len(),
            forall|j: int| 0 <= j < i ==> p@[j] == s@[j],
        decreases p@.len() - i,
    {
        if p[i] != s[i] {
            proof {
                assert(p@[i as int] != s@.subrange(0, p@.len() as int)[i as int]);
            }
            return false;
        }
        i += 1;
    }
    proof {
        assert(p@ =~= s@.subrange(0, p@.len() as int));
    }
    true
}

/// The characters after a prefix.
fn chars_skip(s: &Vec<char>, n: usize) -> (r: Vec<char>)
    requires
        n <= s@.len(),
    ensures
        r@ == s@.skip(n as int),
{
    let mut out: Vec<char> = Vec::new();
    let mut i: usize = n;
    while i < s.len()
        invariant
            n <= i <= s@.len(),
            out@ == s@.subrange(n as int, i as int),
        decreases s@.len() - i,
    {
        out.push(s[i]);
        proof {
            assert(out@ =~= s@.subrange(n as int, i as int + 1));
        }
        i += 1;
    }
    proof {
        assert(out@ =~= s@.skip(n as int));
    }
    out
}

} // verus!
