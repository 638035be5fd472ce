//! Typed objects and their loose encoding.
//!
//! A loose object is `"{type} {len}\0"` followed by the content; the
//! object's identity is the SHA-1 of exactly these bytes.

use vstd::prelude::*;

use crate::bytesutil::{copy_bytes, dec_of, push_all, starts_with, u64_to_dec};
use crate::GitError;

verus! {

/// The three structured object kinds the store understands.
#[derive(Clone, Copy, Debug, PartialEq, Eq, Structural)]
pub enum ObjectType {
    Blob,
    Tree,
    Commit,
}

/// The keyword of an object type, as it appears in a loose header.
pub open spec fn type_keyword(t: ObjectType) -> Seq<u8> {
    match t {
        ObjectType::Blob => seq![98u8, 108u8, 111u8, 98u8],  // "blob"
        ObjectType::Tree => seq![116u8, 114u8, 101u8, 101u8],  // "tree"
        ObjectType::Commit => seq![99u8, 111u8, 109u8, 109u8, 105u8, 116u8],  // "commit"
    }
}

/// The loose header `"{type} {len}\0"`.
pub open spec fn loose_header(t: ObjectType, len: nat) -> Seq<u8> {
    type_keyword(t) + seq![32u8] + dec_of(len) + seq![0u8]
}

/// The full loose encoding: header, then content.
pub open spec fn loose_encoding(t: ObjectType, content: Seq<u8>) -> Seq<u8> {
    loose_header(t, content.len()) + content
}

/// What parsing an uncompressed loose object yields: the type named by the
/// keyword the bytes start with, and everything after the first NUL.
pub open spec fn parse_loose_spec(s: Seq<u8>) -> Result<(ObjectType, Seq<u8>), GitError> {
    let content = match crate::bytesutil::find_byte(s, 0) {
        None => Seq::<u8>::empty(),
        Some(i) => s.skip(i + 1 as int),
    };
    if starts_with(s, type_keyword(ObjectType::Blob) + seq![32u8]) {
        Ok((ObjectType::Blob, content))
    } else if starts_with(s, type_keyword(ObjectType::Tree) + seq![32u8]) {
        Ok((ObjectType::Tree, content))
    } else if starts_with(s, type_keyword(ObjectType::Commit) + seq![32u8]) {
        Ok((ObjectType::Commit, content))
    } else {
        Err(GitError::Format)
    }
}

impl ObjectType {
    /// The keyword bytes of this type.
    pub fn keyword_bytes(&self) -> (r: Vec<u8>)
        ensures
            r@ == type_keyword(*self),
    {
        let mut r: Vec<u8> = Vec::new();
        match self {
            ObjectType::Blob => {
                r.push(98);
                r.push(108);
                r.push(111);
                r.push(98);
                proof {
                    assert(r@ =~= type_keyword(ObjectType::Blob));
                }
            },
            ObjectType::Tree => {
                r.push(116);
                r.push(114);
                r.push(101);
                r.push(101);
                proof {
                    assert(r@ =~= type_keyword(ObjectType::Tree));
                }
            },
            ObjectType::Commit => {
                r.push(99);
                r.push(111);
                r.push(109);
                r.push(109);
                r.push(105);
                r.push(116);
                proof {
                    assert(r@ =~= type_keyword(ObjectType::Commit));
                }
            },
        }
        r
    }

    /// Maps a keyword to its type; anything else is rejected.
    pub fn from_keyword(s: &Vec<u8>) -> (r: Result<ObjectType, GitError>)
        ensures
            match r {
                Ok(t) => s@ == type_keyword(t),
                Err(e) => e == GitError::Format && s@ != type_keyword(ObjectType::Blob) && s@
                    != type_keyword(ObjectType::Tree) && s@ != type_keyword(ObjectType::Commit),
            },
    {
        let blob = ObjectType::Blob.keyword_bytes();
        let tree = ObjectType::Tree.keyword_bytes();
        let commit = ObjectType::Commit.keyword_bytes();
        if crate::bytesutil::bytes_eq(s, &blob) {
            Ok(ObjectType::Blob)
        } else if crate::bytesutil::bytes_eq(s, &tree) {
            Ok(ObjectType::Tree)
        } else if crate::bytesutil::bytes_eq(s, &commit) {
            Ok(ObjectType::Commit)
        } else {
            Err(GitError::Format)
        }
    }
}

/// A typed byte payload: the unit the store addresses.
#[derive(Debug)]
pub struct Object {
    pub object_type: ObjectType,
    pub content: Vec<u8>,
}

impl Object {
    /// A blob holding `content`.
    pub fn blob(content: Vec<u8>) -> (r: Object)
        ensures
            r.object_type == ObjectType::Blob,
            r.content@ == content@,
    {
        Object { object_type: ObjectType::Blob, content }
    }

    /// A tree holding `content`.
    pub fn tree(content: Vec<u8>) -> (r: Object)
        ensures
            r.object_type == ObjectType::Tree,
            r.content@ == content@,
    {
        Object { object_type: ObjectType::Tree, content }
    }

    /// A commit holding `content`.
    pub fn commit(content: Vec<u8>) -> (r: Object)
        ensures
            r.object_type == ObjectType::Commit,
            r.content@ == content@,
    {
        Object { object_type: ObjectType::Commit, content }
    }

    /// An independent copy.
    pub fn dup(&self) -> (r: Object)
        ensures
            r.object_type == self.object_type,
            r.content@ == self.content@,
    {
        Object { object_type: self.object_type, content: copy_bytes(&self.content) }
    }

    /// The loose header of this object.
    pub fn header_bytes(&self) -> (r: Vec<u8>)
        requires
            self.content@.len() <= u64::MAX,
        ensures
            r@ == loose_header(self.object_type, self.content@.len()),
    {
        let mut r = self.object_type.keyword_bytes();
        r.push(32);
        let len_dec = u64_to_dec(self.content.len() as u64);
        push_all(&mut r, &len_dec);
        r.push(0);
        proof {
            assert(r@ =~= loose_header(self.object_type, self.content@.len()));
        }
        r
    }

    /// The full uncompressed loose encoding of this object.
    pub fn loose_plain(&self) -> (r: Vec<u8>)
        requires
            self.content@.len() <= u64::MAX,
        ensures
            r@ == loose_encoding(self.object_type, self.content@),
    {
        let mut r = self.header_bytes();
        push_all(&mut r, &self.content);
        r
    }

    /// Parses an uncompressed loose object back into type and content.
    pub fn parse_loose(bytes: &Vec<u8>) -> (r: Result<Object, GitError>)
        ensures
            match r {
                Ok(obj) => parse_loose_spec(bytes@) == Ok::<(ObjectType, Seq<u8>), GitError>(
                    (obj.object_type, obj.content@),
                ),
                Err(e) => parse_loose_spec(bytes@) == Err::<(ObjectType, Seq<u8>), GitError>(e),
            },
    {
        let mut blob_prefix = ObjectType::Blob.keyword_bytes();
        blob_prefix.push(32);
        let mut tree_prefix = ObjectType::Tree.keyword_bytes();
        tree_prefix.push(32);
        let mut commit_prefix = ObjectType::Commit.keyword_bytes();
        commit_prefix.push(32);
        proof {
            assert(blob_prefix@ =~= type_keyword(ObjectType::Blob) + seq![32u8]);
            assert(tree_prefix@ =~= type_keyword(ObjectType::Tree) + seq![32u8]);
            assert(commit_prefix@ =~= type_keyword(ObjectType::Commit) + seq![32u8]);
        }
        let object_type = if crate::bytesutil::bytes_start_with(bytes, &blob_prefix) {
            ObjectType::Blob
        } else if crate::bytesutil::bytes_start_with(bytes, &tree_prefix) {
            ObjectType::Tree
        } else if crate::bytesutil::bytes_start_with(bytes, &commit_prefix) {
            ObjectType::Commit
        } else {
            return Err(GitError::Format);
        };
        let len = bytes.len();
        proof {
            assert(bytes@.skip(0) =~= bytes@);
        }
        let content = match crate::bytesutil::find_byte_from(bytes, 0, 0) {
            Some(i) => crate::bytesutil::copy_range(bytes, i + 1, len),
            None => Vec::new(),
        };
        Ok(Object { object_type, content })
    }
}

} // verus!
