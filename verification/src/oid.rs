//! Object identifiers: 20 raw bytes with a 40-character lowercase hex
//! textual form.

use vstd::prelude::*;

use crate::bytesutil::{all_hex, copy_bytes, hex_decode, hex_encode, hex_of, unhex_of};
use crate::GitError;

verus! {

/// A 20-byte object identifier, the atomic key of the whole system.
#[derive(Debug)]
pub struct ObjectId {
    bytes: Vec<u8>,
}

impl View for ObjectId {
    type V = Seq<u8>;

    closed spec fn view(&self) -> Seq<u8> {
        self.bytes@
    }
}

impl ObjectId {
    /// Every identifier holds exactly 20 bytes.
    pub open spec fn wf(self) -> bool {
        self@.len() == 20
    }

    /// Wraps 20 raw bytes; rejects any other length.
    pub fn from_bytes(bytes: &Vec<u8>) -> (r: Result<ObjectId, GitError>)
        ensures
            match r {
                Ok(oid) => bytes@.len() == 20 && oid@ == bytes@ && oid.wf(),
                Err(e) => e == GitError::Format && bytes@.len() != 20,
            },
    {
        if bytes.len() != 20 {
            return Err(GitError::Format);
        }
        Ok(ObjectId { bytes: copy_bytes(bytes) })
    }

    /// The raw 20 bytes.
    pub fn as_bytes(&self) -> (r: &Vec<u8>)
        ensures
            r@ == self@,
    {
        &self.bytes
    }

    /// Parses the 40-character hex form; rejects any other length and any
    /// byte that is not a hex digit.
    pub fn from_hex(text: &Vec<u8>) -> (r: Result<ObjectId, GitError>)
        ensures
            match r {
                Ok(oid) => text@.len() == 40 && all_hex(text@) && oid@ == unhex_of(text@)
                    && oid.wf(),
                Err(e) => e == GitError::Format && (text@.len() != 40 || !all_hex(text@)),
            },
    {
        if text.len() != 40 {
            return Err(GitError::Format);
        }
        let bytes = hex_decode(text)?;
        Ok(ObjectId { bytes })
    }

    /// The 40-character lowercase hex form; it decodes back to exactly
    /// this identifier's bytes.
    pub fn to_hex(&self) -> (r: Vec<u8>)
        ensures
            r@ == hex_of(self@),
            all_hex(r@),
            unhex_of(r@) == self@,
    {
        proof {
            crate::bytesutil::lemma_unhex_of_hex(self@);
        }
        hex_encode(&self.bytes)
    }

    /// An independent copy of the identifier.
    pub fn dup(&self) -> (r: ObjectId)
        ensures
            r@ == self@,
    {
        ObjectId { bytes: copy_bytes(&self.bytes) }
    }

    /// Byte-wise equality.
    pub fn same_as(&self, other: &ObjectId) -> (r: bool)
        ensures
            r == (self@ == other@),
    {
        crate::bytesutil::bytes_eq(&self.bytes, &other.bytes)
    }
}

/// The textual form of an identifier, as advertised on the wire: 40
/// lowercase hex characters kept as bytes.
#[derive(Debug)]
pub struct Sha {
    text: Vec<u8>,
}

impl View for Sha {
    type V = Seq<u8>;

    closed spec fn view(&self) -> Seq<u8> {
        self.text@
    }
}

impl Sha {
    /// Wraps a 40-character textual id.
    pub fn new(text: Vec<u8>) -> (r: Sha)
        requires
            text@.len() == 40,
        ensures
            r@ == text@,
    {
        Sha { text }
    }

    /// Hex form of 20 raw bytes.
    pub fn from_bytes(bytes: &Vec<u8>) -> (r: Sha)
        requires
            bytes@.len() == 20,
        ensures
            r@ == hex_of(bytes@),
    {
        Sha { text: hex_encode(bytes) }
    }

    /// The 40 text bytes.
    pub fn as_bytes(&self) -> (r: &Vec<u8>)
        ensures
            r@ == self@,
    {
        &self.text
    }
}

} // verus!
