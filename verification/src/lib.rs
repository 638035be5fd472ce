//! A verified core for a minimal content-addressed version-control client.
//!
//! The library covers the pure logic of the system: the packet-line codec
//! used by the smart transfer protocol, the packfile decoder with its
//! variable-length integers and delta instruction streams, the tree and
//! commit codecs, and an in-memory content-addressed object store.  Hashing
//! and compression are performed by outside crates behind small trusted
//! wrappers; all file and network traffic stays outside the library and
//! hands byte buffers in and out.

use vstd::prelude::*;

pub mod bytesutil;
pub mod client;
pub mod cloning;
pub mod commit;
pub mod delta;
pub mod hash;
pub mod object;
pub mod oid;
pub mod pack;
pub mod pkt;
pub mod repo;

pub mod tree;
pub mod varint;
pub mod zlib;

verus! {

/// The error taxonomy of the whole library.
///
/// `Protocol` marks malformed packet-line framing or an unexpected response
/// shape; `Format` marks corrupt or unsupported binary input (bad pack
/// signature, unknown object type, malformed varint); `Consistency` marks a
/// data-integrity violation such as a delta size mismatch; `NotFound` marks a
/// missing object or ref; `Io` stands for failures of the unverified
/// surroundings and is never produced by the library itself.
#[derive(Clone, Copy, Debug, PartialEq, Eq, Structural)]
pub enum GitError {
    Protocol,
    Format,
    Consistency,
    NotFound,
    Io,
}

} // verus!
