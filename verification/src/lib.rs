//! bitcache: a content-addressed store for binary artifacts ("bitstreams")
//! kept inside a version-controlled repository.
//!
//! A publish computes the md5 digest of a source file, copies the bitstream
//! into a fresh clone of the repository, records the digest in a JSON index
//! (`bitcache_metadata.json`), and commits and pushes the result. A get
//! clones the repository, looks the digest up in the index and copies the
//! matching artifact out.
//!
//! This crate holds the verified logic: the digest interface, the metadata
//! index and its JSON codec, the classification of the version-control
//! tool's results, and the decisions of the publish and get workflows.
//! Process invocation and file I/O live outside, in the thin binary that
//! drives these functions.

pub mod codec;
pub mod digest;
pub mod errs;
pub mod gateway;
pub mod index;
pub mod strutil;
pub mod workflow;

pub use errs::BitcacheError;
