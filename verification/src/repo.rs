//! The content-addressed object store and the repository layout.
//!
//! The repository keeps its objects in memory, keyed by their derived
//! identifier; the unverified surroundings mirror stored objects to disk
//! using the loose encoding and paths computed here.

use vstd::prelude::*;

use crate::bytesutil::{copy_bytes, hex_of, push_all};
use crate::hash::{sha1_digest, sha1_of};
use crate::object::{loose_encoding, Object, ObjectType};
use crate::oid::ObjectId;
use crate::zlib::{deflate_of, inflate_of, zlib_compress, zlib_decompress_prefix};
use crate::GitError;

verus! {

/// The mathematical form of a stored object.
pub struct ObjectModel {
    pub typ: ObjectType,
    pub content: Seq<u8>,
}

/// The identifier an object earns from its type and content alone.
pub open spec fn object_id_of(t: ObjectType, content: Seq<u8>) -> Seq<u8> {
    sha1_of(loose_encoding(t, content))
}

/// The store as a map, later entries overriding earlier ones.
pub open spec fn store_map(entries: Seq<(ObjectId, Object)>) -> Map<Seq<u8>, ObjectModel>
    decreases entries.len(),
{
    if entries.len() == 0 {
        Map::empty()
    } else {
        store_map(entries.drop_last()).insert(
            entries.last().0@,
            ObjectModel { typ: entries.last().1.object_type, content: entries.last().1.content@ },
        )
    }
}

/// Search from the end, matching the override order of `store_map`.
pub open spec fn store_lookup(entries: Seq<(ObjectId, Object)>, id: Seq<u8>) -> Option<ObjectModel>
    decreases entries.len(),
{
    if entries.len() == 0 {
        None
    } else if entries.last().0@ == id {
        Some(
            ObjectModel { typ: entries.last().1.object_type, content: entries.last().1.content@ },
        )
    } else {
        store_lookup(entries.drop_last(), id)
    }
}

/// `store_lookup` decides membership and value of `store_map`.
pub proof fn lemma_store_lookup(entries: Seq<(ObjectId, Object)>, id: Seq<u8>)
    ensures
        store_map(entries).contains_key(id) == (store_lookup(entries, id) is Some),
        store_lookup(entries, id) matches Some(m) ==> store_map(entries)[id] == m,
    decreases entries.len(),
{
    if entries.len() > 0 {
        lemma_store_lookup(entries.drop_last(), id);
    }
}

/// `".git"`.
pub open spec fn dot_git() -> Seq<u8> {
    seq![46u8, 103u8, 105u8, 116u8]
}

/// `"objects"`.
pub open spec fn objects_name() -> Seq<u8> {
    seq![111u8, 98u8, 106u8, 101u8, 99u8, 116u8, 115u8]
}

/// `"refs"`.
pub open spec fn refs_name() -> Seq<u8> {
    seq![114u8, 101u8, 102u8, 115u8]
}

/// `"tags"`.
pub open spec fn tags_name() -> Seq<u8> {
    seq![116u8, 97u8, 103u8, 115u8]
}

/// A repository: its directory layout and its in-memory object store.
#[derive(Debug)]
pub struct GitRepo {
    path: Vec<u8>,
    git_dir: Vec<u8>,
    object_dir: Vec<u8>,
    refs_dir: Vec<u8>,
    tags_dir: Vec<u8>,
    objects: Vec<(ObjectId, Object)>,
}

impl GitRepo {
    /// The working-tree path the repository was opened on.
    pub closed spec fn path_spec(self) -> Seq<u8> {
        self.path@
    }

    /// Path of the repository's own directory.
    pub closed spec fn git_dir_spec(self) -> Seq<u8> {
        self.git_dir@
    }

    /// The store as a map from identifier bytes to typed content.
    pub closed spec fn store(self) -> Map<Seq<u8>, ObjectModel> {
        store_map(self.objects@)
    }

    /// The directory fields all derive from the working-tree path.
    pub closed spec fn wf(self) -> bool {
        &&& self.git_dir@ == self.path@ + seq![47u8] + dot_git()
        &&& self.object_dir@ == self.git_dir@ + seq![47u8] + objects_name()
        &&& self.refs_dir@ == self.git_dir@ + seq![47u8] + refs_name()
        &&& self.tags_dir@ == self.git_dir@ + seq![47u8] + tags_name()
    }

    /// Opens a repository rooted at `dir`, with an empty store.
    pub fn new(dir: Vec<u8>) -> (r: GitRepo)
        ensures
            r.path_spec() == dir@,
            r.wf(),
            r.store() == Map::<Seq<u8>, ObjectModel>::empty(),
    {
        let mut git_dir = copy_bytes(&dir);
        git_dir.push(47);
        git_dir.push(46);
        git_dir.push(103);
        git_dir.push(105);
        git_dir.push(116);
        proof {
            assert(git_dir@ =~= dir@ + seq![47u8] + dot_git());
        }
        let mut object_dir = copy_bytes(&git_dir);
        object_dir.push(47);
        object_dir.push(111);
        object_dir.push(98);
        object_dir.push(106);
        object_dir.push(101);
        object_dir.push(99);
        object_dir.push(116);
        object_dir.push(115);
        proof {
            assert(object_dir@ =~= git_dir@ + seq![47u8] + objects_name());
        }
        let mut refs_dir = copy_bytes(&git_dir);
        refs_dir.push(47);
        refs_dir.push(114);
        refs_dir.push(101);
        refs_dir.push(102);
        refs_dir.push(115);
        proof {
            assert(refs_dir@ =~= git_dir@ + seq![47u8] + refs_name());
        }
        let mut tags_dir = copy_bytes(&git_dir);
        tags_dir.push(47);
        tags_dir.push(116);
        tags_dir.push(97);
        tags_dir.push(103);
        tags_dir.push(115);
        proof {
            assert(tags_dir@ =~= git_dir@ + seq![47u8] + tags_name());
        }
        GitRepo { path: dir, git_dir, object_dir, refs_dir, tags_dir, objects: Vec::new() }
    }

    /// The repository's own directory, for the surroundings to create
    /// files under.
    pub fn git_dir_bytes(&self) -> (r: &Vec<u8>)
        ensures
            r@ == self.git_dir_spec(),
    {
        &self.git_dir
    }

    /// The working-tree path.
    pub fn path_bytes(&self) -> (r: &Vec<u8>)
        ensures
            r@ == self.path_spec(),
    {
        &self.path
    }

    /// The sharded path of an object: two hex characters name the
    /// directory, the remaining 38 the file.
    pub fn get_object_path(&self, oid: &ObjectId) -> (r: Vec<u8>)
        requires
            oid.wf(),
        ensures
            r@ == self.git_dir_spec() + seq![47u8] + objects_name() + seq![47u8] + hex_of(
                oid@,
            ).take(2) + seq![47u8] + hex_of(oid@).skip(2),
    {
        let hex = oid.to_hex();
        let mut r = copy_bytes(&self.git_dir);
        r.push(47);
        r.push(111);
        r.push(98);
        r.push(106);
        r.push(101);
        r.push(99);
        r.push(116);
        r.push(115);
        r.push(47);
        r.push(hex[0]);
        r.push(hex[1]);
        r.push(47);
        let tail = crate::bytesutil::copy_range(&hex, 2, hex.len());
        push_all(&mut r, &tail);
        proof {
            assert(r@ =~= self.git_dir_spec() + seq![47u8] + objects_name() + seq![47u8] + hex_of(
                oid@,
            ).take(2) + seq![47u8] + hex_of(oid@).skip(2));
        }
        r
    }

    /// Stores an object under its derived identifier.  Storing the same
    /// type and content again derives the same identifier and overwrites
    /// with identical bytes, so the operation is idempotent.
    pub fn store_object(&mut self, object: Object) -> (r: Result<ObjectId, GitError>)
        requires
            old(self).wf(),
            object.content@.len() <= u64::MAX,
        ensures
            final(self).wf(),
            final(self).path_spec() == old(self).path_spec(),
            final(self).git_dir_spec() == old(self).git_dir_spec(),
            match r {
                Ok(oid) => {
                    &&& oid.wf()
                    &&& oid@ == object_id_of(object.object_type, object.content@)
                    &&& final(self).store() == old(self).store().insert(
                        oid@,
                        ObjectModel { typ: object.object_type, content: object.content@ },
                    )
                },
                Err(_) => false,
            },
    {
        let loose = object.loose_plain();
        let digest = sha1_digest(&loose);
        let oid = match ObjectId::from_bytes(&digest) {
            Ok(oid) => oid,
            Err(_) => {
                proof {
                    assert(false);
                }
                return Err(GitError::Format);
            },
        };
        let stored = oid.dup();
        self.objects.push((stored, object));
        proof {
            assert(self.objects@.drop_last() =~= old(self).objects@);
        }
        Ok(oid)
    }

    /// Fetches the object stored under `oid`, or `NotFound`.
    pub fn get_object(&self, oid: &ObjectId) -> (r: Result<Object, GitError>)
        ensures
            match r {
                Ok(obj) => self.store().contains_key(oid@) && self.store()[oid@]
                    == (ObjectModel { typ: obj.object_type, content: obj.content@ }),
                Err(e) => e == GitError::NotFound && !self.store().contains_key(oid@),
            },
    {
        let mut i: usize = self.objects.len();
        proof {
            assert(self.objects@.take(self.objects@.len() as int) =~= self.objects@);
        }
        while i > 0
            invariant
                i <= self.objects@.len(),
                store_lookup(self.objects@, oid@) == store_lookup(
                    self.objects@.take(i as int),
                    oid@,
                ),
            decreases i,
        {
            i = i - 1;
            let entry = &self.objects[i];
            if entry.0.same_as(oid) {
                proof {
                    assert(self.objects@.take(i + 1).last() == self.objects@[i as int]);
                    lemma_store_lookup(self.objects@, oid@);
                }
                return Ok(entry.1.dup());
            }
            proof {
                assert(self.objects@.take(i + 1).last() == self.objects@[i as int]);
                assert(self.objects@.take(i + 1).drop_last() =~= self.objects@.take(i as int));
            }
        }
        proof {
            assert(self.objects@.take(0) =~= Seq::<(ObjectId, Object)>::empty());
            lemma_store_lookup(self.objects@, oid@);
        }
        Err(GitError::NotFound)
    }

    /// Builds the text of a new commit pointing at `tree` with one
    /// parent, and stores it under its derived identifier.
    pub fn commit_tree(
        &mut self,
        tree: &ObjectId,
        parent: &ObjectId,
        message: &Vec<u8>,
        timestamp: u64,
    ) -> (r: Result<ObjectId, GitError>)
        requires
            old(self).wf(),
        ensures
            final(self).wf(),
            final(self).path_spec() == old(self).path_spec(),
            final(self).git_dir_spec() == old(self).git_dir_spec(),
            match r {
                Ok(oid) => {
                    &&& oid.wf()
                    &&& oid@ == object_id_of(
                        ObjectType::Commit,
                        crate::commit::commit_text(tree@, parent@, timestamp as nat, message@),
                    )
                    &&& final(self).store() == old(self).store().insert(
                        oid@,
                        ObjectModel {
                            typ: ObjectType::Commit,
                            content: crate::commit::commit_text(
                                tree@,
                                parent@,
                                timestamp as nat,
                                message@,
                            ),
                        },
                    )
                },
                Err(_) => false,
            },
    {
        let content = crate::commit::encode_commit(tree, parent, timestamp, message);
        // a vector's length always fits the stored-size bound
        let _content_len = content.len();
        self.store_object(Object::commit(content))
    }

    /// The stored objects in insertion order, later entries overriding
    /// earlier ones — for the surroundings to persist.
    pub fn entries(&self) -> (r: &Vec<(ObjectId, Object)>)
        ensures
            store_map(r@) == self.store(),
    {
        &self.objects
    }

    /// True when an object is stored under `oid`.
    pub fn has_object(&self, oid: &ObjectId) -> (r: bool)
        ensures
            r == self.store().contains_key(oid@),
    {
        match self.get_object(oid) {
            Ok(_) => true,
            Err(_) => false,
        }
    }
}

/// The bytes the surroundings persist for an object: the loose encoding,
/// compressed.
pub fn loose_zipped(object: &Object) -> (r: Vec<u8>)
    requires
        object.content@.len() <= u64::MAX,
    ensures
        r@ == deflate_of(loose_encoding(object.object_type, object.content@)),
        inflate_of(r@) == Some(
            (loose_encoding(object.object_type, object.content@), r@.len() as nat),
        ),
{
    let loose = object.loose_plain();
    let r = zlib_compress(&loose);
    proof {
        assert(r@ + Seq::<u8>::empty() =~= r@);
    }
    r
}

/// Reads a persisted loose object back: decompresses the stream at the
/// front of `bytes` and parses type and content from the result.
pub fn read_loose(bytes: &Vec<u8>) -> (r: Result<Object, GitError>)
    ensures
        match r {
            Ok(obj) => inflate_of(bytes@) matches Some((plain, used))
                && crate::object::parse_loose_spec(plain) == Ok::<(ObjectType, Seq<u8>), GitError>(
                (obj.object_type, obj.content@),
            ),
            Err(e) => match inflate_of(bytes@) {
                None => e == GitError::Format,
                Some((plain, used)) => crate::object::parse_loose_spec(plain) == Err::<
                    (ObjectType, Seq<u8>),
                    GitError,
                >(e),
            },
        },
{
    proof {
        assert(bytes@.skip(0) =~= bytes@);
    }
    let (plain, _used) = zlib_decompress_prefix(bytes, 0)?;
    Object::parse_loose(&plain)
}

/// Content addressing: in any store, a stored object is found again under
/// the identifier derived from its type and content — and that identifier
/// depends on type and content alone, so storing equal objects twice
/// derives equal identifiers.
pub proof fn lemma_content_addressing(
    store: Map<Seq<u8>, ObjectModel>,
    t: ObjectType,
    content: Seq<u8>,
)
    ensures
        ({
            let id = object_id_of(t, content);
            let stored = store.insert(id, ObjectModel { typ: t, content });
            &&& stored.contains_key(id)
            &&& stored[id].typ == t
            &&& stored[id].content == content
        }),
{
}

} // verus!
