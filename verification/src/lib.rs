//! A deduplicating, content-addressed, encrypted backup repository engine.
//!
//! The engine stores snapshots of file trees in an append-mostly object
//! store.  Blobs (chunks of file content and serialized directory trees)
//! are grouped into immutable pack files, catalogued by index files, and
//! reclaimed by a prune sweep; a calendrical retention policy decides
//! which snapshots to keep.

pub mod archiver;
pub mod backend;
pub mod blob;
pub mod checks;
pub mod chunker;
pub mod compress;
pub mod configfile;
pub mod crypto;
pub mod decrypt;
pub mod digest;
pub mod errors;
pub mod id;
pub mod idmap;
pub mod indexfile;
pub mod json;
pub mod keyfile;
pub mod packer;
pub mod prune;
pub mod packfile;
pub mod retention;
pub mod snapshotfile;
pub mod time;
pub mod tree;
