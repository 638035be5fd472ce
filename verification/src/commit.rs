//! The commit codec: the `tree` line read back from a stored commit, and
//! the full text written for a new one.

use vstd::prelude::*;

use crate::bytesutil::{
    all_hex, copy_range, dec_of, find_byte, find_byte_from, hex_of, push_all, starts_with,
    u64_to_dec, unhex_of,
};
use crate::oid::ObjectId;
use crate::GitError;

verus! {

/// `"tree "`.
pub open spec fn tree_line_prefix() -> Seq<u8> {
    seq![116u8, 114u8, 101u8, 101u8, 32u8]
}

/// `"parent "`.
pub open spec fn parent_line_prefix() -> Seq<u8> {
    seq![112u8, 97u8, 114u8, 101u8, 110u8, 116u8, 32u8]
}

/// The fixed author line opening.
pub open spec fn author_prefix() -> Seq<u8> {
    seq![97u8, 117u8, 116u8, 104u8, 111u8, 114u8, 32u8, 74u8, 111u8, 101u8, 32u8, 65u8, 117u8, 116u8, 104u8, 111u8, 114u8, 32u8, 60u8, 106u8, 111u8, 101u8, 46u8, 97u8, 117u8, 116u8, 104u8, 111u8, 114u8, 64u8, 101u8, 120u8, 97u8, 109u8, 112u8, 108u8, 101u8, 46u8, 99u8, 111u8, 109u8, 62u8, 32u8]
}

/// The fixed committer line opening.
pub open spec fn committer_prefix() -> Seq<u8> {
    seq![99u8, 111u8, 109u8, 109u8, 105u8, 116u8, 116u8, 101u8, 114u8, 32u8, 66u8, 111u8, 98u8, 32u8, 67u8, 111u8, 109u8, 109u8, 105u8, 116u8, 116u8, 101u8, 114u8, 32u8, 60u8, 98u8, 111u8, 98u8, 46u8, 99u8, 111u8, 109u8, 109u8, 105u8, 116u8, 116u8, 101u8, 114u8, 64u8, 101u8, 120u8, 97u8, 109u8, 112u8, 108u8, 101u8, 46u8, 99u8, 111u8, 109u8, 62u8, 32u8]
}

/// The fixed timezone suffix of author and committer lines.
pub open spec fn tz_suffix() -> Seq<u8> {
    seq![32u8, 43u8, 49u8, 48u8, 48u8, 48u8]
}

/// True on ASCII whitespace.
pub open spec fn is_ws(b: u8) -> bool {
    b == 32 || b == 9 || b == 10 || b == 13
}

/// `s` with leading whitespace removed.
pub open spec fn trim_front(s: Seq<u8>) -> Seq<u8>
    decreases s.len(),
{
    if s.len() > 0 && is_ws(s[0]) {
        trim_front(s.skip(1))
    } else {
        s
    }
}

/// `s` with trailing whitespace removed.
pub open spec fn trim_back(s: Seq<u8>) -> Seq<u8>
    decreases s.len(),
{
    if s.len() > 0 && is_ws(s[s.len() - 1]) {
        trim_back(s.drop_last())
    } else {
        s
    }
}

/// `s` with whitespace removed from both ends.
pub open spec fn trim_ws(s: Seq<u8>) -> Seq<u8> {
    trim_back(trim_front(s))
}

/// What parsing a commit's content yields: the id on its first line,
/// which must read `tree` followed by a 40-character hex id.
pub open spec fn commit_dec(s: Seq<u8>) -> Result<Seq<u8>, GitError> {
    let line = match find_byte(s, 10) {
        None => s,
        Some(i) => s.take(i as int),
    };
    if !starts_with(line, tree_line_prefix()) {
        Err(GitError::Format)
    } else {
        let id_text = trim_ws(line.skip(5));
        if id_text.len() == 40 && all_hex(id_text) {
            Ok(unhex_of(id_text))
        } else {
            Err(GitError::Format)
        }
    }
}

/// The `tree` line.
pub open spec fn tree_line(tree: Seq<u8>) -> Seq<u8> {
    tree_line_prefix() + hex_of(tree) + seq![10u8]
}

/// The `parent` line.
pub open spec fn parent_line(parent: Seq<u8>) -> Seq<u8> {
    parent_line_prefix() + hex_of(parent) + seq![10u8]
}

/// The fixed author line carrying the timestamp.
pub open spec fn author_line(timestamp: nat) -> Seq<u8> {
    author_prefix() + dec_of(timestamp) + tz_suffix() + seq![10u8]
}

/// The fixed committer line carrying the timestamp.
pub open spec fn committer_line(timestamp: nat) -> Seq<u8> {
    committer_prefix() + dec_of(timestamp) + tz_suffix() + seq![10u8]
}

/// The full text of a new commit: a `tree` line, a `parent` line, fixed
/// author and committer lines carrying the timestamp, a blank line, then
/// the message and a final newline.
pub open spec fn commit_text(tree: Seq<u8>, parent: Seq<u8>, timestamp: nat, msg: Seq<u8>) -> Seq<
    u8,
> {
    tree_line(tree) + parent_line(parent) + author_line(timestamp) + committer_line(timestamp)
        + seq![10u8] + msg + seq![10u8]
}

/// The bytes of `tree_line_prefix`.
fn tree_prefix_bytes() -> (r: Vec<u8>)
    ensures
        r@ == tree_line_prefix(),
{
    let mut r: Vec<u8> = Vec::new();
    r.push(116);
    r.push(114);
    r.push(101);
    r.push(101);
    r.push(32);
    proof {
        assert(r@ =~= tree_line_prefix());
    }
    r
}

/// The bytes of `parent_line_prefix`.
fn parent_prefix_bytes() -> (r: Vec<u8>)
    ensures
        r@ == parent_line_prefix(),
{
    let mut r: Vec<u8> = Vec::new();
    r.push(112);
    r.push(97);
    r.push(114);
    r.push(101);
    r.push(110);
    r.push(116);
    r.push(32);
    proof {
        assert(r@ =~= parent_line_prefix());
    }
    r
}

/// The bytes of `author_prefix`.
fn author_prefix_bytes() -> (r: Vec<u8>)
    ensures
        r@ == author_prefix(),
{
    let mut r: Vec<u8> = Vec::new();
    r.push(97);
    r.push(117);
    r.push(116);
    r.push(104);
    r.push(111);
    r.push(114);
    r.push(32);
    r.push(74);
    r.push(111);
    r.push(101);
    r.push(32);
    r.push(65);
    r.push(117);
    r.push(116);
    r.push(104);
    r.push(111);
    r.push(114);
    r.push(32);
    r.push(60);
    r.push(106);
    r.push(111);
    r.push(101);
    r.push(46);
    r.push(97);
    r.push(117);
    r.push(116);
    r.push(104);
    r.push(111);
    r.push(114);
    r.push(64);
    r.push(101);
    r.push(120);
    r.push(97);
    r.push(109);
    r.push(112);
    r.push(108);
    r.push(101);
    r.push(46);
    r.push(99);
    r.push(111);
    r.push(109);
    r.push(62);
    r.push(32);
    proof {
        assert(r@ =~= author_prefix());
    }
    r
}

/// The bytes of `committer_prefix`.
fn committer_prefix_bytes() -> (r: Vec<u8>)
    ensures
        r@ == committer_prefix(),
{
    let mut r: Vec<u8> = Vec::new();
    r.push(99);
    r.push(111);
    r.push(109);
    r.push(109);
    r.push(105);
    r.push(116);
    r.push(116);
    r.push(101);
    r.push(114);
    r.push(32);
    r.push(66);
    r.push(111);
    r.push(98);
    r.push(32);
    r.push(67);
    r.push(111);
    r.push(109);
    r.push(109);
    r.push(105);
    r.push(116);
    r.push(116);
    r.push(101);
    r.push(114);
    r.push(32);
    r.push(60);
    r.push(98);
    r.push(111);
    r.push(98);
    r.push(46);
    r.push(99);
    r.push(111);
    r.push(109);
    r.push(109);
    r.push(105);
    r.push(116);
    r.push(116);
    r.push(101);
    r.push(114);
    r.push(64);
    r.push(101);
    r.push(120);
    r.push(97);
    r.push(109);
    r.push(112);
    r.push(108);
    r.push(101);
    r.push(46);
    r.push(99);
    r.push(111);
    r.push(109);
    r.push(62);
    r.push(32);
    proof {
        assert(r@ =~= committer_prefix());
    }
    r
}

/// The bytes of `tz_suffix`.
fn tz_suffix_bytes() -> (r: Vec<u8>)
    ensures
        r@ == tz_suffix(),
{
    let mut r: Vec<u8> = Vec::new();
    r.push(32);
    r.push(43);
    r.push(49);
    r.push(48);
    r.push(48);
    r.push(48);
    proof {
        assert(r@ =~= tz_suffix());
    }
    r
}

/// A parsed commit: the tree it points at.
#[derive(Debug)]
pub struct Commit {
    pub tree: ObjectId,
}

/// Exec trim of both ends, matching `trim_ws`.
pub fn trim_ascii_ws(v: &Vec<u8>) -> (r: Vec<u8>)
    ensures
        r@ == trim_ws(v@),
{
    let mut a: usize = 0;
    proof {
        assert(v@.skip(0) =~= v@);
    }
    while a < v.len() && (v[a] == 32 || v[a] == 9 || v[a] == 10 || v[a] == 13)
        invariant
            a <= v@.len(),
            trim_front(v@) == trim_front(v@.skip(a as int)),
        decreases v@.len() - a,
    {
        proof {
            assert(v@.skip(a as int).skip(1) =~= v@.skip(a + 1));
        }
        a = a + 1;
    }
    proof {
        assert(trim_front(v@) == v@.skip(a as int));
    }
    let mut b: usize = v.len();
    proof {
        assert(v@.subrange(a as int, b as int) =~= v@.skip(a as int));
    }
    while b > a && (v[b - 1] == 32 || v[b - 1] == 9 || v[b - 1] == 10 || v[b - 1] == 13)
        invariant
            a <= b <= v@.len(),
            trim_back(trim_front(v@)) == trim_back(v@.subrange(a as int, b as int)),
        decreases b,
    {
        proof {
            assert(v@.subrange(a as int, b as int).drop_last() =~= v@.subrange(a as int, b - 1));
        }
        b = b - 1;
    }
    proof {
        assert(trim_back(v@.subrange(a as int, b as int)) == v@.subrange(a as int, b as int));
    }
    copy_range(v, a, b)
}

impl Commit {
    /// Parses the first line of a commit's content.
    pub fn parse(bytes: &Vec<u8>) -> (r: Result<Commit, GitError>)
        ensures
            match r {
                Ok(c) => commit_dec(bytes@) == Ok::<Seq<u8>, GitError>(c.tree@) && c.tree.wf(),
                Err(e) => commit_dec(bytes@) == Err::<Seq<u8>, GitError>(e),
            },
    {
        let line_end = match find_byte_from(bytes, 0, 10) {
            Some(i) => i,
            None => bytes.len(),
        };
        proof {
            assert(bytes@.skip(0) =~= bytes@);
        }
        let line = copy_range(bytes, 0, line_end);
        proof {
            assert(line@ =~= (match find_byte(bytes@, 10) {
                None => bytes@,
                Some(i) => bytes@.take(i as int),
            }));
        }
        let prefix = tree_prefix_bytes();
        if !crate::bytesutil::bytes_start_with(&line, &prefix) {
            return Err(GitError::Format);
        }
        let after = copy_range(&line, 5, line.len());
        proof {
            assert(after@ =~= line@.skip(5));
        }
        let id_text = trim_ascii_ws(&after);
        let tree = ObjectId::from_hex(&id_text)?;
        Ok(Commit { tree })
    }
}

impl crate::object::Object {
    /// Reads this object as a commit: its kind must say so and its first
    /// line must parse.
    pub fn as_commit(&self) -> (r: Option<Commit>)
        ensures
            match r {
                Some(c) => self.object_type == crate::object::ObjectType::Commit && commit_dec(
                    self.content@,
                ) == Ok::<Seq<u8>, GitError>(c.tree@) && c.tree.wf(),
                None => self.object_type != crate::object::ObjectType::Commit || commit_dec(
                    self.content@,
                ) is Err,
            },
    {
        if !matches!(self.object_type, crate::object::ObjectType::Commit) {
            return None;
        }
        match Commit::parse(&self.content) {
            Ok(c) => Some(c),
            Err(_) => None,
        }
    }
}

/// Writes the full text of a new commit.
#[verifier::rlimit(100)]
pub fn encode_commit(tree: &ObjectId, parent: &ObjectId, timestamp: u64, message: &Vec<u8>) -> (r:
    Vec<u8>)
    ensures
        r@ == commit_text(tree@, parent@, timestamp as nat, message@),
{
    let mut r: Vec<u8> = Vec::new();
    let tree_prefix = tree_prefix_bytes();
    push_all(&mut r, &tree_prefix);
    let tree_hex = tree.to_hex();
    push_all(&mut r, &tree_hex);
    r.push(10);
    let ghost s1 = tree_line(tree@);
    proof {
        assert(r@ =~= s1);
    }
    let parent_prefix = parent_prefix_bytes();
    push_all(&mut r, &parent_prefix);
    let parent_hex = parent.to_hex();
    push_all(&mut r, &parent_hex);
    r.push(10);
    let ghost s2 = s1 + parent_line(parent@);
    proof {
        assert(r@ =~= s2);
    }
    let author = author_prefix_bytes();
    push_all(&mut r, &author);
    let ts = u64_to_dec(timestamp);
    push_all(&mut r, &ts);
    let tz = tz_suffix_bytes();
    push_all(&mut r, &tz);
    r.push(10);
    let ghost s3 = s2 + author_line(timestamp as nat);
    proof {
        assert(r@ =~= s3);
    }
    let committer = committer_prefix_bytes();
    push_all(&mut r, &committer);
    push_all(&mut r, &ts);
    push_all(&mut r, &tz);
    r.push(10);
    let ghost s4 = s3 + committer_line(timestamp as nat);
    proof {
        assert(r@ =~= s4);
    }
    r.push(10);
    push_all(&mut r, message);
    r.push(10);
    proof {
        assert(r@ =~= s4 + seq![10u8] + message@ + seq![10u8]);
        assert(r@ =~= commit_text(tree@, parent@, timestamp as nat, message@));
    }
    r
}

} // verus!
