//! Computation of persistent, content-derived identifiers (SWHIDs) for
//! source-code artifacts: file contents and directory trees.
//!
//! The crate covers three layers:
//! - canonical byte encoding of objects and their hashing into a 20-byte
//!   digest ([`hash`], [`content`]);
//! - the directory Merkle-tree builder with its deterministic entry order
//!   ([`directory`]);
//! - the core / extended / qualified identifier representations with their
//!   strict parse and format grammars ([`swhid`]).

pub mod bytes;
pub mod computer;
pub mod content;
pub mod decimal;
pub mod directory;
pub mod error;
pub mod extended;
pub mod hash;
pub mod hex;
pub mod qualified;
pub mod swhid;
pub mod text;
pub mod vcs;

pub use computer::SwhidComputer;
pub use content::Content;
pub use directory::{
    traverse_directory_recursively, Directory, DirectoryEntry, EntryType, FsChild, FsTree,
    Permissions, TreeObject,
};
pub use error::SwhidError;
pub use extended::{ExtendedObjectType, ExtendedSwhid};
pub use qualified::QualifiedSwhid;
pub use swhid::{ObjectType, Swhid};
