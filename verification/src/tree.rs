//! The tree codec: entries of `mode name\0<20-byte id>`, canonically
//! ordered, so that one directory content has exactly one encoding — the
//! ordering takes part in the object's hash.

use vstd::prelude::*;
use vstd::relations::{sorted_by, total_ordering};
use vstd::seq_lib::lemma_sorted_unique;

use crate::bytesutil::{
    bytes_eq, bytes_leq, copy_bytes, copy_range, find_byte, find_byte_from, lemma_lex_leq_antisymmetric,
    lemma_lex_leq_total, lemma_lex_leq_transitive, lex_leq, push_all,
};
use crate::object::ObjectType;
use crate::oid::ObjectId;
use crate::GitError;

verus! {

/// The mathematical form of a tree entry.
#[verifier::ext_equal]
pub struct TreeEntryModel {
    pub mode: Seq<u8>,
    pub typ: ObjectType,
    pub name: Seq<u8>,
    pub oid: Seq<u8>,
}

/// One entry of a tree: mode digits (without the leading `1` that marks a
/// blob on the wire), the entry kind, a path segment, and the child's id.
#[derive(Debug)]
pub struct TreeEntry {
    pub mode: Vec<u8>,
    pub object_type: ObjectType,
    pub name: Vec<u8>,
    pub sha1: ObjectId,
}

impl View for TreeEntry {
    type V = TreeEntryModel;

    open spec fn view(&self) -> TreeEntryModel {
        TreeEntryModel { mode: self.mode@, typ: self.object_type, name: self.name@, oid: self.sha1@ }
    }
}

impl TreeEntry {
    /// An independent copy.
    pub fn dup(&self) -> (r: TreeEntry)
        ensures
            r@ == self@,
    {
        TreeEntry {
            mode: copy_bytes(&self.mode),
            object_type: self.object_type,
            name: copy_bytes(&self.name),
            sha1: self.sha1.dup(),
        }
    }
}

/// The views of a run of entries.
pub open spec fn entry_views(es: Seq<TreeEntry>) -> Seq<TreeEntryModel> {
    es.map_values(|e: TreeEntry| e@)
}

/// The wire encoding of one entry; a blob's mode is written with a
/// leading `1`.
pub open spec fn entry_enc(e: TreeEntryModel) -> Seq<u8> {
    (if e.typ == ObjectType::Blob {
        seq![49u8]
    } else {
        Seq::<u8>::empty()
    }) + e.mode + seq![32u8] + e.name + seq![0u8] + e.oid
}

/// The wire encoding of a run of entries, in the given order.
pub open spec fn tree_enc(es: Seq<TreeEntryModel>) -> Seq<u8>
    decreases es.len(),
{
    if es.len() == 0 {
        Seq::empty()
    } else {
        entry_enc(es[0]) + tree_enc(es.skip(1))
    }
}

/// Rank of an entry kind, for the canonical order's last tiebreak.
pub open spec fn type_rank(t: ObjectType) -> nat {
    match t {
        ObjectType::Blob => 0nat,
        ObjectType::Tree => 1nat,
        ObjectType::Commit => 2nat,
    }
}

/// The canonical order: by name bytes first, ties broken by mode, id and
/// kind, so that the order is total and antisymmetric.
pub open spec fn entry_le(a: TreeEntryModel, b: TreeEntryModel) -> bool {
    if a.name != b.name {
        lex_leq(a.name, b.name)
    } else if a.mode != b.mode {
        lex_leq(a.mode, b.mode)
    } else if a.oid != b.oid {
        lex_leq(a.oid, b.oid)
    } else {
        type_rank(a.typ) <= type_rank(b.typ)
    }
}

/// The canonical order as a relation value.
pub open spec fn entry_order() -> spec_fn(TreeEntryModel, TreeEntryModel) -> bool {
    |a: TreeEntryModel, b: TreeEntryModel| entry_le(a, b)
}

/// `entry_le` chains.
proof fn lemma_entry_le_trans(a: TreeEntryModel, b: TreeEntryModel, c: TreeEntryModel)
    requires
        entry_le(a, b),
        entry_le(b, c),
    ensures
        entry_le(a, c),
{
    if a.name != b.name {
        if b.name != c.name {
            lemma_lex_leq_transitive(a.name, b.name, c.name);
            if a.name == c.name {
                lemma_lex_leq_antisymmetric(a.name, b.name);
            }
        } else {
            assert(a.name != c.name);
        }
    } else {
        if b.name != c.name {
            assert(a.name != c.name);
        } else {
            // names all equal: compare modes the same way
            if a.mode != b.mode {
                if b.mode != c.mode {
                    lemma_lex_leq_transitive(a.mode, b.mode, c.mode);
                    if a.mode == c.mode {
                        lemma_lex_leq_antisymmetric(a.mode, b.mode);
                    }
                } else {
                    assert(a.mode != c.mode);
                }
            } else {
                if b.mode != c.mode {
                    assert(a.mode != c.mode);
                } else {
                    // modes all equal: compare ids
                    if a.oid != b.oid {
                        if b.oid != c.oid {
                            lemma_lex_leq_transitive(a.oid, b.oid, c.oid);
                            if a.oid == c.oid {
                                lemma_lex_leq_antisymmetric(a.oid, b.oid);
                            }
                        } else {
                            assert(a.oid != c.oid);
                        }
                    } else {
                        if b.oid != c.oid {
                            assert(a.oid != c.oid);
                        }
                    }
                }
            }
        }
    }
}

/// Any two entries are ordered one way or the other.
proof fn lemma_entry_le_total(a: TreeEntryModel, b: TreeEntryModel)
    ensures
        entry_le(a, b) || entry_le(b, a),
{
    if a.name != b.name {
        lemma_lex_leq_total(a.name, b.name);
    } else if a.mode != b.mode {
        lemma_lex_leq_total(a.mode, b.mode);
    } else if a.oid != b.oid {
        lemma_lex_leq_total(a.oid, b.oid);
    }
}

/// The canonical order is a total ordering.
pub proof fn lemma_entry_order_total()
    ensures
        total_ordering(entry_order()),
{
    let le = entry_order();
    assert forall|a: TreeEntryModel| #[trigger] le(a, a) by {}
    assert forall|a: TreeEntryModel, b: TreeEntryModel| #[trigger] le(a, b) && #[trigger] le(
        b,
        a,
    ) implies a == b by {
        if a.name != b.name {
            lemma_lex_leq_antisymmetric(a.name, b.name);
        } else if a.mode != b.mode {
            lemma_lex_leq_antisymmetric(a.mode, b.mode);
        } else if a.oid != b.oid {
            lemma_lex_leq_antisymmetric(a.oid, b.oid);
        } else {
            assert(type_rank(a.typ) == type_rank(b.typ));
            assert(a.typ == b.typ);
            assert(a =~= b);
        }
    }
    assert forall|a: TreeEntryModel, b: TreeEntryModel, c: TreeEntryModel|
        #[trigger] le(a, b) && #[trigger] le(b, c) implies le(a, c) by {
        lemma_entry_le_trans(a, b, c);
    }
    assert forall|a: TreeEntryModel, b: TreeEntryModel| #[trigger] le(a, b) || #[trigger] le(
        b,
        a,
    ) by {
        if a.name != b.name {
            lemma_lex_leq_total(a.name, b.name);
        } else if a.mode != b.mode {
            lemma_lex_leq_total(a.mode, b.mode);
        } else if a.oid != b.oid {
            lemma_lex_leq_total(a.oid, b.oid);
        }
    }
}

/// Exec decision of the canonical order.
pub fn entry_le_exec(a: &TreeEntry, b: &TreeEntry) -> (r: bool)
    ensures
        r == entry_le(a@, b@),
{
    if !bytes_eq(&a.name, &b.name) {
        bytes_leq(&a.name, &b.name)
    } else if !bytes_eq(&a.mode, &b.mode) {
        bytes_leq(&a.mode, &b.mode)
    } else if !a.sha1.same_as(&b.sha1) {
        bytes_leq(a.sha1.as_bytes(), b.sha1.as_bytes())
    } else {
        rank_of(a.object_type) <= rank_of(b.object_type)
    }
}

/// Exec form of `type_rank`.
fn rank_of(t: ObjectType) -> (r: u8)
    ensures
        r == type_rank(t),
{
    match t {
        ObjectType::Blob => 0,
        ObjectType::Tree => 1,
        ObjectType::Commit => 2,
    }
}

/// Sorts entries into the canonical order: the result is exactly the
/// canonical sorting of the input.
pub fn sort_entries(entries: &Vec<TreeEntry>) -> (r: Vec<TreeEntry>)
    ensures
        entry_views(r@) == entry_views(entries@).sort_by(entry_order()),
{
    proof {
        lemma_entry_order_total();
        broadcast use vstd::seq_lib::group_to_multiset_ensures;

    }
    let mut out: Vec<TreeEntry> = Vec::new();
    let mut i: usize = 0;
    proof {
        assert(entry_views(out@) =~= Seq::<TreeEntryModel>::empty());
        assert(entry_views(entries@.take(0)) =~= Seq::<TreeEntryModel>::empty());
        assert(entry_views(out@).to_multiset() =~= entry_views(entries@.take(0)).to_multiset());
    }
    while i < entries.len()
        invariant
            i <= entries@.len(),
            sorted_by(entry_views(out@), entry_order()),
            entry_views(out@).to_multiset() == entry_views(entries@.take(i as int)).to_multiset(),
        decreases entries@.len() - i,
    {
        proof {
            lemma_entry_order_total();
            broadcast use vstd::seq_lib::group_to_multiset_ensures;

        }
        let e = entries[i].dup();
        let mut j: usize = 0;
        while j < out.len() && !entry_le_exec(&e, &out[j])
            invariant
                j <= out@.len(),
                forall|k: int| 0 <= k < j ==> !entry_le(e@, entry_views(out@)[k]),
            decreases out@.len() - j,
        {
            j = j + 1;
        }
        let ghost prev = out@;
        let ghost le = entry_order();
        out.insert(j, e);
        i = i + 1;
        proof {
            assert(entry_views(out@) =~= entry_views(prev).insert(j as int, e@));
            let nv = entry_views(out@);
            let pv = entry_views(prev);
            assert(nv.len() == pv.len() + 1);
            assert forall|k: int| 0 <= k < j implies nv[k] == pv[k] by {
                assert(nv[k] == pv.insert(j as int, e@)[k]);
            }
            assert(nv[j as int] == e@);
            assert forall|k: int| j < k < nv.len() implies nv[k] == pv[k - 1] by {
                assert(nv[k] == pv.insert(j as int, e@)[k]);
            }
            assert forall|x: int, y: int| 0 <= x < y < nv.len() implies #[trigger] le(
                nv[x],
                nv[y],
            ) by {
                if x < j && y < j {
                    assert(nv[x] == pv[x] && nv[y] == pv[y]);
                    assert(le(pv[x], pv[y]));
                } else if x < j && y == j {
                    assert(nv[x] == pv[x] && nv[y] == e@);
                    assert(!entry_le(e@, pv[x]));
                    lemma_entry_le_total(e@, pv[x]);
                    assert(le(pv[x], e@) == entry_le(pv[x], e@));
                } else if x < j && y > j {
                    assert(nv[x] == pv[x] && nv[y] == pv[y - 1]);
                    assert(le(pv[x], pv[y - 1]));
                } else if x == j && y > j {
                    assert(nv[x] == e@ && nv[y] == pv[y - 1]);
                    assert(entry_le(e@, pv[j as int]));
                    if y - 1 > j {
                        assert(le(pv[j as int], pv[y - 1]));
                        lemma_entry_le_trans(e@, pv[j as int], pv[y - 1]);
                    }
                    assert(le(e@, pv[y - 1]) == entry_le(e@, pv[y - 1]));
                } else {
                    assert(x > j && y > j);
                    assert(nv[x] == pv[x - 1] && nv[y] == pv[y - 1]);
                    assert(le(pv[x - 1], pv[y - 1]));
                }
            }
            assert(sorted_by(nv, entry_order()));
            broadcast use vstd::seq_lib::group_to_multiset_ensures;

            vstd::seq_lib::to_multiset_insert(pv, j as int, e@);
            assert(entry_views(entries@.take(i as int)) =~= entry_views(
                entries@.take(i - 1),
            ).push(entries@[i - 1]@));
            vstd::seq_lib::to_multiset_build(entry_views(entries@.take(i - 1)), entries@[i - 1]@);
        }
    }
    proof {
        lemma_entry_order_total();
        assert(entries@.take(entries@.len() as int) =~= entries@);
        entry_views(entries@).lemma_sort_by_ensures(entry_order());
        assert(entry_views(entries@).to_multiset() =~= entry_views(entries@).sort_by(
            entry_order(),
        ).to_multiset());
        lemma_sorted_unique(
            entry_views(out@),
            entry_views(entries@).sort_by(entry_order()),
            entry_order(),
        );
        assert(entry_views(out@) =~= entry_views(entries@).sort_by(entry_order()));
    }
    out
}

/// Encodes one entry for the wire.
pub fn encode_entry(e: &TreeEntry) -> (r: Vec<u8>)
    ensures
        r@ == entry_enc(e@),
{
    let mut r: Vec<u8> = Vec::new();
    match e.object_type {
        ObjectType::Blob => {
            r.push(49);
        },
        _ => {},
    }
    push_all(&mut r, &e.mode);
    r.push(32);
    push_all(&mut r, &e.name);
    r.push(0);
    push_all(&mut r, e.sha1.as_bytes());
    proof {
        assert(r@ =~= entry_enc(e@));
    }
    r
}

/// Encodes a run of entries in exactly the given order.
pub fn encode_entries(entries: &Vec<TreeEntry>) -> (r: Vec<u8>)
    ensures
        r@ == tree_enc(entry_views(entries@)),
{
    let mut r: Vec<u8> = Vec::new();
    let mut i: usize = 0;
    proof {
        assert(entry_views(entries@).skip(0) =~= entry_views(entries@));
        assert(r@ + tree_enc(entry_views(entries@)) =~= tree_enc(entry_views(entries@)));
    }
    while i < entries.len()
        invariant
            i <= entries@.len(),
            tree_enc(entry_views(entries@)) == r@ + tree_enc(
                entry_views(entries@).skip(i as int),
            ),
        decreases entries@.len() - i,
    {
        let piece = encode_entry(&entries[i]);
        push_all(&mut r, &piece);
        i = i + 1;
        proof {
            let vs = entry_views(entries@);
            assert(vs.skip(i - 1)[0] == vs[i - 1]);
            assert(vs.skip(i - 1).skip(1) =~= vs.skip(i as int));
            assert(tree_enc(vs.skip(i - 1)) == entry_enc(vs[i - 1]) + tree_enc(vs.skip(i as int)));
            assert(r@ + tree_enc(vs.skip(i as int)) =~= (r@ + tree_enc(vs.skip(i as int))));
        }
    }
    proof {
        assert(tree_enc(entry_views(entries@).skip(entries@.len() as int)) =~= Seq::<u8>::empty());
        assert(r@ + Seq::<u8>::empty() =~= r@);
    }
    r
}

/// Encodes a directory's entries canonically: sorted into the canonical
/// order, then written out.  Two entry lists holding the same entries
/// yield byte-identical output whatever order they arrive in.
pub fn encode_tree(entries: &Vec<TreeEntry>) -> (r: Vec<u8>)
    ensures
        r@ == tree_enc(entry_views(entries@).sort_by(entry_order())),
{
    let sorted = sort_entries(entries);
    encode_entries(&sorted)
}

/// Tree ordering determinism: two runs holding the same entries, in
/// whatever order, sort to the same run and encode to identical bytes.
pub proof fn lemma_tree_encoding_deterministic(a: Seq<TreeEntryModel>, b: Seq<TreeEntryModel>)
    requires
        a.to_multiset() == b.to_multiset(),
    ensures
        a.sort_by(entry_order()) == b.sort_by(entry_order()),
        tree_enc(a.sort_by(entry_order())) == tree_enc(b.sort_by(entry_order())),
{
    lemma_entry_order_total();
    a.lemma_sort_by_ensures(entry_order());
    b.lemma_sort_by_ensures(entry_order());
    assert(a.sort_by(entry_order()).to_multiset() =~= b.sort_by(entry_order()).to_multiset());
    lemma_sorted_unique(a.sort_by(entry_order()), b.sort_by(entry_order()), entry_order());
    assert(a.sort_by(entry_order()) =~= b.sort_by(entry_order()));
}

/// Decodes one entry at `pos`: mode up to a space (a leading `1` marking
/// a blob), name up to a NUL, then 20 raw id bytes.
pub open spec fn entry_dec(s: Seq<u8>, pos: nat) -> Result<(TreeEntryModel, nat), GitError> {
    match find_byte(s.skip(pos as int), 32) {
        None => Err(GitError::Format),
        Some(sp) => {
            let mode_full = s.subrange(pos as int, (pos + sp) as int);
            let name_start = pos + sp + 1;
            match find_byte(s.skip(name_start as int), 0) {
                None => Err(GitError::Format),
                Some(nz) => {
                    let name = s.subrange(name_start as int, (name_start + nz) as int);
                    let oid_start = name_start + nz + 1;
                    if s.len() < oid_start + 20 {
                        Err(GitError::Format)
                    } else {
                        let oid = s.subrange(oid_start as int, (oid_start + 20) as int);
                        if mode_full.len() > 0 && mode_full[0] == 49 {
                            Ok(
                                (
                                    TreeEntryModel {
                                        mode: mode_full.skip(1),
                                        typ: ObjectType::Blob,
                                        name,
                                        oid,
                                    },
                                    oid_start + 20,
                                ),
                            )
                        } else {
                            Ok(
                                (
                                    TreeEntryModel { mode: mode_full, typ: ObjectType::Tree, name, oid },
                                    oid_start + 20,
                                ),
                            )
                        }
                    }
                },
            }
        },
    }
}

/// Decodes entries from `pos` until the bytes run out.
pub open spec fn tree_dec(s: Seq<u8>, pos: nat) -> Result<Seq<TreeEntryModel>, GitError>
    decreases s.len() - pos,
{
    if pos >= s.len() {
        Ok(Seq::empty())
    } else {
        match entry_dec(s, pos) {
            Err(e) => Err(e),
            Ok((m, end)) => if end <= pos || end > s.len() {
                Err(GitError::Format)
            } else {
                match tree_dec(s, end) {
                    Err(e) => Err(e),
                    Ok(ms) => Ok(seq![m] + ms),
                }
            },
        }
    }
}

impl TreeEntry {
    /// Decodes one entry at `pos`, returning it with the position just
    /// past it.
    pub fn parse(buf: &Vec<u8>, pos: usize) -> (r: Result<(TreeEntry, usize), GitError>)
        requires
            pos <= buf@.len(),
        ensures
            match r {
                Ok((e, end)) => {
                    &&& entry_dec(buf@, pos as nat) == Ok::<(TreeEntryModel, nat), GitError>(
                        (e@, end as nat),
                    )
                    &&& pos < end <= buf@.len()
                },
                Err(e) => entry_dec(buf@, pos as nat) == Err::<(TreeEntryModel, nat), GitError>(e),
            },
    {
        let blen = buf.len();
        let sp = match find_byte_from(buf, pos, 32) {
            Some(sp) => sp,
            None => {
                return Err(GitError::Format);
            },
        };
        proof {
            assert(sp < blen);
        }
        let mode_full = copy_range(buf, pos, sp);
        let name_start = sp + 1;
        let nz = match find_byte_from(buf, name_start, 0) {
            Some(nz) => nz,
            None => {
                return Err(GitError::Format);
            },
        };
        proof {
            assert(nz < blen);
        }
        let name = copy_range(buf, name_start, nz);
        let oid_start = nz + 1;
        if buf.len() - oid_start < 20 {
            return Err(GitError::Format);
        }
        let oid_bytes = copy_range(buf, oid_start, oid_start + 20);
        let sha1 = match ObjectId::from_bytes(&oid_bytes) {
            Ok(oid) => oid,
            Err(_) => {
                proof {
                    assert(false);
                }
                return Err(GitError::Format);
            },
        };
        proof {
            assert(buf@.subrange(pos as int, sp as int) =~= buf@.skip(pos as int).subrange(
                0,
                (sp - pos) as int,
            ));
            assert(buf@.subrange(name_start as int, nz as int) =~= buf@.skip(
                name_start as int,
            ).subrange(0, (nz - name_start) as int));
        }
        if mode_full.len() > 0 && mode_full[0] == 49 {
            let mode = copy_range(&mode_full, 1, mode_full.len());
            proof {
                assert(mode@ =~= buf@.subrange(pos as int, sp as int).skip(1));
            }
            Ok(
                (
                    TreeEntry { mode, object_type: ObjectType::Blob, name, sha1 },
                    oid_start + 20,
                ),
            )
        } else {
            Ok(
                (
                    TreeEntry { mode: mode_full, object_type: ObjectType::Tree, name, sha1 },
                    oid_start + 20,
                ),
            )
        }
    }
}

/// An ordered run of tree entries.
#[derive(Debug)]
pub struct Tree {
    entries: Vec<TreeEntry>,
}

impl View for Tree {
    type V = Seq<TreeEntryModel>;

    closed spec fn view(&self) -> Seq<TreeEntryModel> {
        entry_views(self.entries@)
    }
}

impl Tree {
    /// Decodes a whole tree object's content.
    pub fn parse(bytes: &Vec<u8>) -> (r: Result<Tree, GitError>)
        ensures
            match r {
                Ok(t) => tree_dec(bytes@, 0) == Ok::<Seq<TreeEntryModel>, GitError>(t@),
                Err(e) => tree_dec(bytes@, 0) == Err::<Seq<TreeEntryModel>, GitError>(e),
            },
    {
        let mut entries: Vec<TreeEntry> = Vec::new();
        let mut pos: usize = 0;
        proof {
            assert(entry_views(entries@) =~= Seq::<TreeEntryModel>::empty());
        }
        loop
            invariant
                pos <= bytes@.len(),
                match tree_dec(bytes@, pos as nat) {
                    Err(e) => tree_dec(bytes@, 0) == Err::<Seq<TreeEntryModel>, GitError>(e),
                    Ok(ms) => tree_dec(bytes@, 0) == Ok::<Seq<TreeEntryModel>, GitError>(
                        entry_views(entries@) + ms,
                    ),
                },
            ensures
                tree_dec(bytes@, 0) == Ok::<Seq<TreeEntryModel>, GitError>(entry_views(entries@)),
            decreases bytes@.len() - pos,
        {
            if pos >= bytes.len() {
                proof {
                    assert(entry_views(entries@) + Seq::<TreeEntryModel>::empty() =~= entry_views(
                        entries@,
                    ));
                }
                break ;
            }
            let (entry, end) = match TreeEntry::parse(bytes, pos) {
                Ok(x) => x,
                Err(e) => {
                    return Err(e);
                },
            };
            let ghost prev = entries@;
            let ghost em = entry@;
            entries.push(entry);
            proof {
                assert(entry_views(entries@) =~= entry_views(prev) + seq![em]);
                if tree_dec(bytes@, end as nat) is Ok {
                    let ms = tree_dec(bytes@, end as nat)->Ok_0;
                    assert(entry_views(prev) + (seq![em] + ms) =~= entry_views(entries@) + ms);
                }
            }
            pos = end;
        }
        Ok(Tree { entries })
    }

    /// The entries, in decoded order.
    pub fn entries(&self) -> (r: &Vec<TreeEntry>)
        ensures
            entry_views(r@) == self@,
    {
        &self.entries
    }
}

impl crate::object::Object {
    /// Reads this object as a tree: its kind must say so and its content
    /// must parse.
    pub fn as_tree(&self) -> (r: Option<Tree>)
        ensures
            match r {
                Some(t) => self.object_type == ObjectType::Tree && tree_dec(self.content@, 0)
                    == Ok::<Seq<TreeEntryModel>, GitError>(t@),
                None => self.object_type != ObjectType::Tree || tree_dec(self.content@, 0) is Err,
            },
    {
        if !matches!(self.object_type, ObjectType::Tree) {
            return None;
        }
        match Tree::parse(&self.content) {
            Ok(t) => Some(t),
            Err(_) => None,
        }
    }
}

} // verus!
