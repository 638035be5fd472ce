//! The clone orchestration, as pure decisions: exploding a packfile into
//! the store, resolving ref deltas against already-stored bases, choosing
//! what to fetch, partitioning advertised refs, resolving the remote HEAD,
//! and planning the working-tree checkout.  The unverified surroundings
//! perform the two HTTP exchanges and the file writes these decisions
//! call for.

use vstd::prelude::*;

use crate::client::{is_peeled_name, is_tag_name, ref_views, Ref, RefModel};
use crate::delta::{apply_delta, apply_delta_spec};
use crate::object::{Object, ObjectType};
use crate::oid::ObjectId;
use crate::pack::{views_of, PackFile, PackObject, PackObjectModel, PackTypeModel};
use crate::repo::{object_id_of, GitRepo, ObjectModel};
use crate::GitError;

verus! {

/// The object type a direct pack entry stores as.
pub open spec fn direct_type(t: PackTypeModel) -> Option<ObjectType> {
    match t {
        PackTypeModel::Commit => Some(ObjectType::Commit),
        PackTypeModel::Tree => Some(ObjectType::Tree),
        PackTypeModel::Blob => Some(ObjectType::Blob),
        _ => None,
    }
}

/// True on a delta entry, of either kind.
pub open spec fn is_delta(o: PackObjectModel) -> bool {
    o.typ is OfsDelta || o.typ is RefDelta
}

/// Stores every direct object of the run, in order; tags and deltas pass
/// through untouched.
pub open spec fn store_direct(m: Map<Seq<u8>, ObjectModel>, objs: Seq<PackObjectModel>) -> Map<
    Seq<u8>,
    ObjectModel,
>
    decreases objs.len(),
{
    if objs.len() == 0 {
        m
    } else {
        let o = objs[0];
        let m2 = match direct_type(o.typ) {
            Some(t) => m.insert(object_id_of(t, o.data), ObjectModel { typ: t, content: o.data }),
            None => m,
        };
        store_direct(m2, objs.skip(1))
    }
}

/// The delta entries of the run, in order.
pub open spec fn deltas_of(objs: Seq<PackObjectModel>) -> Seq<PackObjectModel> {
    objs.filter(|o: PackObjectModel| is_delta(o))
}

/// Resolves queued deltas in order: each ref delta needs its base already
/// stored; the reconstruction inherits the base's type and is stored in
/// turn.  Offset deltas are left unresolved.
pub open spec fn resolve_deltas(m: Map<Seq<u8>, ObjectModel>, ds: Seq<PackObjectModel>) -> Result<
    Map<Seq<u8>, ObjectModel>,
    GitError,
>
    decreases ds.len(),
{
    if ds.len() == 0 {
        Ok(m)
    } else {
        let d = ds[0];
        match d.typ {
            PackTypeModel::RefDelta(base) => {
                if !m.contains_key(base) {
                    Err(GitError::NotFound)
                } else {
                    let bm = m[base];
                    match apply_delta_spec(bm.content, d.data) {
                        Err(e) => Err(e),
                        Ok(out) => resolve_deltas(
                            m.insert(object_id_of(bm.typ, out), ObjectModel { typ: bm.typ, content: out }),
                            ds.skip(1),
                        ),
                    }
                }
            },
            _ => resolve_deltas(m, ds.skip(1)),
        }
    }
}

/// What exploding a packfile into a store yields: direct objects stored
/// first, then deltas resolved in pack order.
pub open spec fn explode_spec(m: Map<Seq<u8>, ObjectModel>, objs: Seq<PackObjectModel>) -> Result<
    Map<Seq<u8>, ObjectModel>,
    GitError,
> {
    resolve_deltas(store_direct(m, objs), deltas_of(objs))
}

impl PackFile {
    /// Explodes this packfile into the repository's store: every
    /// non-delta object is stored at once (tag objects are skipped),
    /// every ref delta is then resolved against its — by then stored —
    /// base and the reconstruction stored.  On an error the objects
    /// stored so far remain.
    pub fn explode_into_repo(self, repo: &mut GitRepo) -> (r: Result<(), GitError>)
        requires
            old(repo).wf(),
        ensures
            final(repo).wf(),
            final(repo).path_spec() == old(repo).path_spec(),
            final(repo).git_dir_spec() == old(repo).git_dir_spec(),
            match r {
                Ok(()) => explode_spec(old(repo).store(), views_of(self.objects@)) == Ok::<
                    Map<Seq<u8>, ObjectModel>,
                    GitError,
                >(final(repo).store()),
                Err(e) => explode_spec(old(repo).store(), views_of(self.objects@)) == Err::<
                    Map<Seq<u8>, ObjectModel>,
                    GitError,
                >(e),
            },
    {
        broadcast use vstd::seq_lib::group_filter_ensures;

        let ghost all = views_of(self.objects@);
        let mut deltas: Vec<PackObject> = Vec::new();
        let objects = self.objects;
    let n = objects.len();
    let mut i: usize = 0;
    proof {
        assert(all.skip(0) =~= all);
        assert(views_of(deltas@) =~= Seq::<PackObjectModel>::empty());
        assert(all.take(0) =~= Seq::<PackObjectModel>::empty());
        assert(deltas_of(all.take(0)) =~= Seq::<PackObjectModel>::empty());
    }
    while i < n
        invariant
            i <= n == objects@.len(),
            repo.wf(),
            repo.path_spec() == old(repo).path_spec(),
            repo.git_dir_spec() == old(repo).git_dir_spec(),
            all == views_of(objects@),
            all == views_of(self.objects@),
            store_direct(repo.store(), all.skip(i as int)) == store_direct(
                old(repo).store(),
                all,
            ),
            views_of(deltas@) == deltas_of(all.take(i as int)),
        decreases n - i,
    {
        broadcast use vstd::seq_lib::group_filter_ensures;

        let entry = &objects[i];
        let ghost em = entry@;
        proof {
            assert(all.skip(i as int)[0] == all[i as int]);
            assert(all.skip(i as int).skip(1) =~= all.skip(i + 1));
            assert(all.take(i + 1) =~= all.take(i as int).push(all[i as int]));
        }
        match &entry.object_type {
            crate::pack::PackObjectType::ObjCommit => {
                let obj = Object::commit(crate::bytesutil::copy_bytes(&entry.data));
                let _ = store_checked(repo, obj);
            },
            crate::pack::PackObjectType::ObjTree => {
                let obj = Object::tree(crate::bytesutil::copy_bytes(&entry.data));
                let _ = store_checked(repo, obj);
            },
            crate::pack::PackObjectType::ObjBlob => {
                let obj = Object::blob(crate::bytesutil::copy_bytes(&entry.data));
                let _ = store_checked(repo, obj);
            },
            crate::pack::PackObjectType::ObjTag => {},
            crate::pack::PackObjectType::ObjOfsDelta(_) => {
                let d = PackObject {
                    object_type: dup_type(&entry.object_type),
                    data: crate::bytesutil::copy_bytes(&entry.data),
                };
                let ghost prev = deltas@;
                deltas.push(d);
                proof {
                    assert(views_of(deltas@) =~= views_of(prev) + seq![em]);
                    all.take(i as int).lemma_filter_push(
                        all[i as int],
                        |o: PackObjectModel| is_delta(o),
                    );
                    assert(views_of(deltas@) =~= deltas_of(all.take(i + 1)));
                }
            },
            crate::pack::PackObjectType::ObjRefDelta(_) => {
                let d = PackObject {
                    object_type: dup_type(&entry.object_type),
                    data: crate::bytesutil::copy_bytes(&entry.data),
                };
                let ghost prev = deltas@;
                deltas.push(d);
                proof {
                    assert(views_of(deltas@) =~= views_of(prev) + seq![em]);
                    all.take(i as int).lemma_filter_push(
                        all[i as int],
                        |o: PackObjectModel| is_delta(o),
                    );
                    assert(views_of(deltas@) =~= deltas_of(all.take(i + 1)));
                }
            },
        }
        proof {
            if !is_delta(em) {
                all.take(i as int).lemma_filter_push(
                    all[i as int],
                    |o: PackObjectModel| is_delta(o),
                );
                assert(views_of(deltas@) =~= deltas_of(all.take(i + 1)));
            }
        }
        i = i + 1;
    }
    proof {
        assert(all.take(n as int) =~= all);
        assert(all.skip(n as int).len() == 0);
    }
    // every direct object now sits in the store; resolve the queued deltas
    let ghost after_direct = repo.store();
    let dn = deltas.len();
    let mut j: usize = 0;
    proof {
        assert(views_of(deltas@).skip(0) =~= views_of(deltas@));
    }
    while j < dn
        invariant
            j <= dn == deltas@.len(),
            repo.wf(),
            repo.path_spec() == old(repo).path_spec(),
            repo.git_dir_spec() == old(repo).git_dir_spec(),
            after_direct == store_direct(old(repo).store(), all),
            all == views_of(objects@),
            all == views_of(self.objects@),
            views_of(deltas@) == deltas_of(all),
            resolve_deltas(repo.store(), views_of(deltas@).skip(j as int)) == resolve_deltas(
                after_direct,
                views_of(deltas@),
            ),
        decreases dn - j,
    {
        let entry = &deltas[j];
        let ghost dm = entry@;
        proof {
            assert(views_of(deltas@).skip(j as int)[0] == views_of(deltas@)[j as int]);
            assert(views_of(deltas@).skip(j as int).skip(1) =~= views_of(deltas@).skip(j + 1));
        }
        match &entry.object_type {
            crate::pack::PackObjectType::ObjRefDelta(base) => {
                let base_object = match repo.get_object(base) {
                    Ok(o) => o,
                    Err(e) => {
                        proof {
                            assert(resolve_deltas(
                                repo.store(),
                                views_of(deltas@).skip(j as int),
                            ) == Err::<Map<Seq<u8>, ObjectModel>, GitError>(e));
                        }
                        return Err(e);
                    },
                };
                let out = match apply_delta(&base_object.content, &entry.data) {
                    Ok(out) => out,
                    Err(e) => {
                        proof {
                            assert(resolve_deltas(
                                repo.store(),
                                views_of(deltas@).skip(j as int),
                            ) == Err::<Map<Seq<u8>, ObjectModel>, GitError>(e));
                        }
                        return Err(e);
                    },
                };
                let obj = Object { object_type: base_object.object_type, content: out };
                let _ = store_checked(repo, obj);
            },
            _ => {},
        }
        j = j + 1;
    }
        proof {
            assert(views_of(deltas@).skip(dn as int).len() == 0);
        }
        Ok(())
    }
}

/// An independent copy of a pack entry's tag.
fn dup_type(t: &crate::pack::PackObjectType) -> (r: crate::pack::PackObjectType)
    ensures
        r@ == t@,
{
    match t {
        crate::pack::PackObjectType::ObjCommit => crate::pack::PackObjectType::ObjCommit,
        crate::pack::PackObjectType::ObjTree => crate::pack::PackObjectType::ObjTree,
        crate::pack::PackObjectType::ObjBlob => crate::pack::PackObjectType::ObjBlob,
        crate::pack::PackObjectType::ObjTag => crate::pack::PackObjectType::ObjTag,
        crate::pack::PackObjectType::ObjOfsDelta(ofs) => crate::pack::PackObjectType::ObjOfsDelta(
            *ofs,
        ),
        crate::pack::PackObjectType::ObjRefDelta(oid) => crate::pack::PackObjectType::ObjRefDelta(
            oid.dup(),
        ),
    }
}

/// Stores an object, which in this crate cannot fail.
fn store_checked(repo: &mut GitRepo, obj: Object) -> (r: ObjectId)
    requires
        old(repo).wf(),
    ensures
        final(repo).wf(),
        final(repo).path_spec() == old(repo).path_spec(),
        final(repo).git_dir_spec() == old(repo).git_dir_spec(),
        r.wf(),
        r@ == object_id_of(obj.object_type, obj.content@),
        final(repo).store() == old(repo).store().insert(
            r@,
            ObjectModel { typ: obj.object_type, content: obj.content@ },
        ),
{
    // a vector's length always fits the stored-size bound
    let _content_len = obj.content.len();
    match repo.store_object(obj) {
        Ok(oid) => oid,
        Err(_) => {
            proof {
                assert(false);
            }
            vstd::pervasive::unreached()
        },
    }
}


/// `"HEAD"`.
pub open spec fn head_name() -> Seq<u8> {
    seq![72u8, 69u8, 65u8, 68u8]
}

/// `"ref: "`.
pub open spec fn symref_prefix() -> Seq<u8> {
    seq![114u8, 101u8, 102u8, 58u8, 32u8]
}

/// A usable tag ref: under the tag namespace and not a peeled entry.
pub open spec fn is_tag_ref(r: RefModel) -> bool {
    !is_peeled_name(r.name) && is_tag_name(r.name)
}

/// A branch ref: not a tag, not peeled, and not the symbolic HEAD.
pub open spec fn is_branch_ref(r: RefModel) -> bool {
    !is_peeled_name(r.name) && !is_tag_name(r.name) && r.name != head_name()
}

/// The tag refs of an advertisement, in order.
pub open spec fn tags_of_refs(rs: Seq<RefModel>) -> Seq<RefModel> {
    rs.filter(|r: RefModel| is_tag_ref(r))
}

/// The branch refs of an advertisement, in order.
pub open spec fn branches_of_refs(rs: Seq<RefModel>) -> Seq<RefModel> {
    rs.filter(|r: RefModel| is_branch_ref(r))
}

/// The bytes of `"HEAD"`.
pub fn head_name_bytes() -> (r: Vec<u8>)
    ensures
        r@ == head_name(),
{
    let mut r: Vec<u8> = Vec::new();
    r.push(72);
    r.push(69);
    r.push(65);
    r.push(68);
    proof {
        assert(r@ =~= head_name());
    }
    r
}

/// Picks the ref whose pack will be requested: the first advertised one.
pub fn select_want(refs: &Vec<Ref>) -> (r: Result<ObjectId, GitError>)
    ensures
        match r {
            Ok(oid) => refs@.len() > 0 && oid@ == refs@[0]@.oid,
            Err(e) => e == GitError::Protocol && refs@.len() == 0,
        },
{
    if refs.len() == 0 {
        return Err(GitError::Protocol);
    }
    Ok(refs[0].oid.dup())
}

/// Splits an advertisement into tags and branches, dropping peeled
/// entries and the symbolic HEAD.
pub fn partition_refs(refs: &Vec<Ref>) -> (r: (Vec<Ref>, Vec<Ref>))
    ensures
        ref_views(r.0@) == tags_of_refs(ref_views(refs@)),
        ref_views(r.1@) == branches_of_refs(ref_views(refs@)),
{
    let mut tags: Vec<Ref> = Vec::new();
    let mut branches: Vec<Ref> = Vec::new();
    let ghost all = ref_views(refs@);
    let mut i: usize = 0;
    proof {
        assert(ref_views(tags@) =~= Seq::<RefModel>::empty());
        assert(ref_views(branches@) =~= Seq::<RefModel>::empty());
        assert(all.take(0) =~= Seq::<RefModel>::empty());
        assert(tags_of_refs(all.take(0)) =~= Seq::<RefModel>::empty());
        assert(branches_of_refs(all.take(0)) =~= Seq::<RefModel>::empty());
    }
    while i < refs.len()
        invariant
            i <= refs@.len(),
            all == ref_views(refs@),
            ref_views(tags@) == tags_of_refs(all.take(i as int)),
            ref_views(branches@) == branches_of_refs(all.take(i as int)),
        decreases refs@.len() - i,
    {
        let r = &refs[i];
        let ghost rm = r@;
        proof {
            assert(all.take(i + 1) =~= all.take(i as int).push(all[i as int]));
            all.take(i as int).lemma_filter_push(all[i as int], |x: RefModel| is_tag_ref(x));
            all.take(i as int).lemma_filter_push(all[i as int], |x: RefModel| is_branch_ref(x));
        }
        let head = head_name_bytes();
        if !r.is_peeled_tag() {
            if r.is_tag() {
                let ghost prev = tags@;
                tags.push(r.dup());
                proof {
                    assert(ref_views(tags@) =~= ref_views(prev).push(rm));
                }
            } else if !crate::bytesutil::bytes_eq(&r.name, &head) {
                let ghost prev = branches@;
                branches.push(r.dup());
                proof {
                    assert(ref_views(branches@) =~= ref_views(prev).push(rm));
                }
            }
        }
        i = i + 1;
    }
    proof {
        assert(all.take(refs@.len() as int) =~= all);
    }
    (tags, branches)
}

/// Index of the first advertised ref literally named HEAD.
pub open spec fn first_head(rs: Seq<RefModel>) -> Option<int>
    decreases rs.len(),
{
    if rs.len() == 0 {
        None
    } else if rs[0].name == head_name() {
        Some(0int)
    } else {
        match first_head(rs.skip(1)) {
            None => None,
            Some(i) => Some(i + 1),
        }
    }
}

/// Index of the first ref that shares `oid` under another name.
pub open spec fn first_target(rs: Seq<RefModel>, oid: Seq<u8>) -> Option<int>
    decreases rs.len(),
{
    if rs.len() == 0 {
        None
    } else if rs[0].name != head_name() && rs[0].oid == oid {
        Some(0int)
    } else {
        match first_target(rs.skip(1), oid) {
            None => None,
            Some(i) => Some(i + 1),
        }
    }
}

/// The ref the remote HEAD aliases: an advertised ref named HEAD must
/// exist, and a differently-named ref must share its id.
pub open spec fn head_target_spec(rs: Seq<RefModel>) -> Result<RefModel, GitError> {
    match first_head(rs) {
        None => Err(GitError::NotFound),
        Some(i) => match first_target(rs, rs[i].oid) {
            None => Err(GitError::NotFound),
            Some(j) => Ok(rs[j]),
        },
    }
}

/// If `rs[i]` is the first HEAD, `first_head` returns `i`.
proof fn lemma_first_head_at(rs: Seq<RefModel>, i: int)
    requires
        0 <= i < rs.len(),
        rs[i].name == head_name(),
        forall|k: int| 0 <= k < i ==> rs[k].name != head_name(),
    ensures
        first_head(rs) == Some(i),
    decreases rs.len(),
{
    if i > 0 {
        lemma_first_head_at(rs.skip(1), i - 1);
    }
}

/// If no ref is named HEAD, `first_head` finds none.
proof fn lemma_first_head_none(rs: Seq<RefModel>)
    requires
        forall|k: int| 0 <= k < rs.len() ==> rs[k].name != head_name(),
    ensures
        first_head(rs) is None,
    decreases rs.len(),
{
    if rs.len() > 0 {
        lemma_first_head_none(rs.skip(1));
    }
}

/// If `rs[i]` is the first match, `first_target` returns `i`.
proof fn lemma_first_target_at(rs: Seq<RefModel>, oid: Seq<u8>, i: int)
    requires
        0 <= i < rs.len(),
        rs[i].name != head_name() && rs[i].oid == oid,
        forall|k: int| 0 <= k < i ==> !(rs[k].name != head_name() && rs[k].oid == oid),
    ensures
        first_target(rs, oid) == Some(i),
    decreases rs.len(),
{
    if i > 0 {
        lemma_first_target_at(rs.skip(1), oid, i - 1);
    }
}

/// If nothing else carries `oid`, `first_target` finds none.
proof fn lemma_first_target_none(rs: Seq<RefModel>, oid: Seq<u8>)
    requires
        forall|k: int| 0 <= k < rs.len() ==> !(rs[k].name != head_name() && rs[k].oid == oid),
    ensures
        first_target(rs, oid) is None,
    decreases rs.len(),
{
    if rs.len() > 0 {
        lemma_first_target_none(rs.skip(1), oid);
    }
}

/// Resolves the remote symbolic HEAD to the advertised ref it aliases.
pub fn find_head_target(refs: &Vec<Ref>) -> (r: Result<Ref, GitError>)
    ensures
        match r {
            Ok(t) => head_target_spec(ref_views(refs@)) == Ok::<RefModel, GitError>(t@),
            Err(e) => head_target_spec(ref_views(refs@)) == Err::<RefModel, GitError>(e),
        },
{
    let ghost all = ref_views(refs@);
    let head = head_name_bytes();
    let mut i: usize = 0;
    while i < refs.len()
        invariant
            i <= refs@.len(),
            all == ref_views(refs@),
            head@ == head_name(),
            forall|k: int| 0 <= k < i ==> all[k].name != head_name(),
        decreases refs@.len() - i,
    {
        if crate::bytesutil::bytes_eq(&refs[i].name, &head) {
            proof {
                lemma_first_head_at(all, i as int);
            }
            let ghost hoid = all[i as int].oid;
            let head_ref = refs[i].dup();
            let mut j: usize = 0;
            while j < refs.len()
                invariant
                    j <= refs@.len(),
                    all == ref_views(refs@),
                    head@ == head_name(),
                    first_head(all) == Some(i as int),
                    i < all.len(),
                    hoid == all[i as int].oid,
                    head_ref@.oid == hoid,
                    forall|k: int|
                        0 <= k < j ==> !(all[k].name != head_name() && all[k].oid == hoid),
                decreases refs@.len() - j,
            {
                if !crate::bytesutil::bytes_eq(&refs[j].name, &head) && refs[j].oid.same_as(
                    &head_ref.oid,
                ) {
                    proof {
                        lemma_first_target_at(all, hoid, j as int);
                    }
                    return Ok(refs[j].dup());
                }
                j = j + 1;
            }
            proof {
                lemma_first_target_none(all, hoid);
            }
            return Err(GitError::NotFound);
        }
        i = i + 1;
    }
    proof {
        lemma_first_head_none(all);
    }
    Err(GitError::NotFound)
}

/// The last `/`-separated segment of a ref name.
pub open spec fn last_segment(name: Seq<u8>) -> Seq<u8>
    decreases name.len(),
{
    match crate::bytesutil::find_byte(name, 47) {
        None => name,
        Some(i) => if i + 1 > name.len() {
            name
        } else {
            last_segment(name.skip(i + 1 as int))
        },
    }
}

/// Exec form of `last_segment`.
pub fn short_name(name: &Vec<u8>) -> (r: Vec<u8>)
    ensures
        r@ == last_segment(name@),
{
    proof {
        assert(name@.skip(0) =~= name@);
    }
    short_name_from(name, 0)
}

/// The last segment of `name` from `pos` on.
fn short_name_from(name: &Vec<u8>, pos: usize) -> (r: Vec<u8>)
    requires
        pos <= name@.len(),
    ensures
        r@ == last_segment(name@.skip(pos as int)),
    decreases name@.len() - pos,
{
    let nlen = name.len();
    match crate::bytesutil::find_byte_from(name, pos, 47) {
        None => crate::bytesutil::copy_range(name, pos, nlen),
        Some(i) => {
            let r = short_name_from(name, i + 1);
            proof {
                assert(name@.skip(pos as int).skip(i - pos + 1) =~= name@.skip(i + 1));
            }
            r
        },
    }
}

/// The one line a ref file holds: the hex id and a newline.
pub fn ref_file_content(oid: &ObjectId) -> (r: Vec<u8>)
    ensures
        r@ == crate::bytesutil::hex_of(oid@) + seq![10u8],
{
    let mut r = oid.to_hex();
    r.push(10);
    r
}

/// The one line a symbolic HEAD file holds: `ref: `, the name, a newline.
pub fn head_file_content(name: &Vec<u8>) -> (r: Vec<u8>)
    ensures
        r@ == symref_prefix() + name@ + seq![10u8],
{
    let mut r: Vec<u8> = Vec::new();
    r.push(114);
    r.push(101);
    r.push(102);
    r.push(58);
    r.push(32);
    crate::bytesutil::push_all(&mut r, name);
    r.push(10);
    proof {
        assert(r@ =~= symref_prefix() + name@ + seq![10u8]);
    }
    r
}


/// The mathematical form of one checkout step.
pub enum CheckoutItemModel {
    Dir(Seq<u8>),
    File(Seq<u8>, Seq<u8>),
}

/// One checkout step: create a directory, or write a file with the given
/// content.  Paths join the base path and entry names with `/`.
#[derive(Debug)]
pub enum CheckoutItem {
    Dir(Vec<u8>),
    File(Vec<u8>, Vec<u8>),
}

impl View for CheckoutItem {
    type V = CheckoutItemModel;

    open spec fn view(&self) -> CheckoutItemModel {
        match self {
            CheckoutItem::Dir(p) => CheckoutItemModel::Dir(p@),
            CheckoutItem::File(p, c) => CheckoutItemModel::File(p@, c@),
        }
    }
}

/// The views of a run of checkout steps.
pub open spec fn item_views(s: Seq<CheckoutItem>) -> Seq<CheckoutItemModel> {
    s.map_values(|x: CheckoutItem| x@)
}

/// The checkout steps for the tree stored under `id`, below `base`.  The
/// fuel bounds the directory nesting; a store whose tree objects formed a
/// cycle would otherwise never finish.
pub open spec fn checkout_tree_spec(
    store: Map<Seq<u8>, ObjectModel>,
    id: Seq<u8>,
    base: Seq<u8>,
    fuel: nat,
) -> Result<Seq<CheckoutItemModel>, GitError>
    decreases fuel, 0int, 0int,
{
    if fuel == 0 {
        Err(GitError::Consistency)
    } else if !store.contains_key(id) {
        Err(GitError::NotFound)
    } else if store[id].typ != ObjectType::Tree {
        Err(GitError::Format)
    } else {
        match crate::tree::tree_dec(store[id].content, 0) {
            Err(e) => Err(e),
            Ok(entries) => checkout_entries_spec(store, entries, base, (fuel - 1) as nat),
        }
    }
}

/// The checkout steps for a run of entries below `base`: a directory and
/// its recursive content for each tree entry, a file for each blob entry.
pub open spec fn checkout_entries_spec(
    store: Map<Seq<u8>, ObjectModel>,
    entries: Seq<crate::tree::TreeEntryModel>,
    base: Seq<u8>,
    fuel: nat,
) -> Result<Seq<CheckoutItemModel>, GitError>
    decreases fuel, entries.len(), 1int,
{
    if entries.len() == 0 {
        Ok(Seq::empty())
    } else {
        let e = entries[0];
        let path = base + seq![47u8] + e.name;
        if e.typ == ObjectType::Tree {
            match checkout_tree_spec(store, e.oid, path, fuel) {
                Err(err) => Err(err),
                Ok(sub) => match checkout_entries_spec(store, entries.skip(1), base, fuel) {
                    Err(err) => Err(err),
                    Ok(rest) => Ok(seq![CheckoutItemModel::Dir(path)] + sub + rest),
                },
            }
        } else {
            if !store.contains_key(e.oid) {
                Err(GitError::NotFound)
            } else {
                match checkout_entries_spec(store, entries.skip(1), base, fuel) {
                    Err(err) => Err(err),
                    Ok(rest) => Ok(
                        seq![CheckoutItemModel::File(path, store[e.oid].content)] + rest,
                    ),
                }
            }
        }
    }
}

/// The checkout steps for the commit stored under `id`: its tree, walked
/// below `base`.
pub open spec fn checkout_commit_spec(
    store: Map<Seq<u8>, ObjectModel>,
    id: Seq<u8>,
    base: Seq<u8>,
    fuel: nat,
) -> Result<Seq<CheckoutItemModel>, GitError> {
    if !store.contains_key(id) {
        Err(GitError::NotFound)
    } else if store[id].typ != ObjectType::Commit {
        Err(GitError::Format)
    } else {
        match crate::commit::commit_dec(store[id].content) {
            Err(e) => Err(e),
            Ok(tree_id) => checkout_tree_spec(store, tree_id, base, fuel),
        }
    }
}

/// Walks the tree stored under `oid`, collecting checkout steps.
pub fn checkout_tree(repo: &GitRepo, oid: &ObjectId, base: &Vec<u8>, fuel: u64) -> (r: Result<
    Vec<CheckoutItem>,
    GitError,
>)
    ensures
        match r {
            Ok(items) => checkout_tree_spec(repo.store(), oid@, base@, fuel as nat) == Ok::<
                Seq<CheckoutItemModel>,
                GitError,
            >(item_views(items@)),
            Err(e) => checkout_tree_spec(repo.store(), oid@, base@, fuel as nat) == Err::<
                Seq<CheckoutItemModel>,
                GitError,
            >(e),
        },
    decreases fuel, 0int, 0int,
{
    if fuel == 0 {
        return Err(GitError::Consistency);
    }
    let obj = match repo.get_object(oid) {
        Ok(o) => o,
        Err(e) => {
            return Err(e);
        },
    };
    if !matches!(obj.object_type, ObjectType::Tree) {
        return Err(GitError::Format);
    }
    let tree = match crate::tree::Tree::parse(&obj.content) {
        Ok(t) => t,
        Err(e) => {
            return Err(e);
        },
    };
    let es = tree.entries();
    proof {
        assert(crate::tree::entry_views(es@).skip(0) =~= crate::tree::entry_views(es@));
    }
    checkout_entries(repo, es, 0, base, fuel - 1)
}

/// Collects checkout steps for the entries from `idx` on.
fn checkout_entries(
    repo: &GitRepo,
    entries: &Vec<crate::tree::TreeEntry>,
    idx: usize,
    base: &Vec<u8>,
    fuel: u64,
) -> (r: Result<Vec<CheckoutItem>, GitError>)
    requires
        idx <= entries@.len(),
    ensures
        match r {
            Ok(items) => checkout_entries_spec(
                repo.store(),
                crate::tree::entry_views(entries@).skip(idx as int),
                base@,
                fuel as nat,
            ) == Ok::<Seq<CheckoutItemModel>, GitError>(item_views(items@)),
            Err(e) => checkout_entries_spec(
                repo.store(),
                crate::tree::entry_views(entries@).skip(idx as int),
                base@,
                fuel as nat,
            ) == Err::<Seq<CheckoutItemModel>, GitError>(e),
        },
    decreases fuel, entries@.len() - idx, 1int,
{
    let ghost vs = crate::tree::entry_views(entries@).skip(idx as int);
    if idx == entries.len() {
        let r: Vec<CheckoutItem> = Vec::new();
        proof {
            assert(item_views(r@) =~= Seq::<CheckoutItemModel>::empty());
        }
        return Ok(r);
    }
    let e = &entries[idx];
    proof {
        assert(vs[0] == crate::tree::entry_views(entries@)[idx as int]);
        assert(vs.skip(1) =~= crate::tree::entry_views(entries@).skip(idx + 1));
    }
    let mut path = crate::bytesutil::copy_bytes(base);
    path.push(47);
    crate::bytesutil::push_all(&mut path, &e.name);
    proof {
        assert(path@ =~= base@ + seq![47u8] + e.name@);
    }
    if matches!(e.object_type, ObjectType::Tree) {
        let sub = match checkout_tree(repo, &e.sha1, &path, fuel) {
            Ok(s) => s,
            Err(err) => {
                return Err(err);
            },
        };
        let rest = match checkout_entries(repo, entries, idx + 1, base, fuel) {
            Ok(rs) => rs,
            Err(err) => {
                return Err(err);
            },
        };
        let ghost sub_views = item_views(sub@);
        let ghost rest_views = item_views(rest@);
        let mut r: Vec<CheckoutItem> = Vec::new();
        r.push(CheckoutItem::Dir(path));
        let mut sub_mut = sub;
        let mut rest_mut = rest;
        r.append(&mut sub_mut);
        r.append(&mut rest_mut);
        proof {
            assert(item_views(r@) =~= seq![CheckoutItemModel::Dir(base@ + seq![47u8] + e.name@)]
                + sub_views + rest_views);
        }
        Ok(r)
    } else {
        let obj = match repo.get_object(&e.sha1) {
            Ok(o) => o,
            Err(err) => {
                return Err(err);
            },
        };
        let rest = match checkout_entries(repo, entries, idx + 1, base, fuel) {
            Ok(rs) => rs,
            Err(err) => {
                return Err(err);
            },
        };
        let ghost rest_views = item_views(rest@);
        let ghost pv = path@;
        let mut r: Vec<CheckoutItem> = Vec::new();
        r.push(CheckoutItem::File(path, obj.content));
        let mut rest_mut = rest;
        r.append(&mut rest_mut);
        proof {
            assert(item_views(r@) =~= seq![
                CheckoutItemModel::File(pv, repo.store()[e.sha1@].content),
            ] + rest_views);
        }
        Ok(r)
    }
}

/// Walks the commit stored under `oid`, collecting the steps that
/// materialize its tree below the repository's working path.
pub fn checkout_commit(repo: &GitRepo, oid: &ObjectId, fuel: u64) -> (r: Result<
    Vec<CheckoutItem>,
    GitError,
>)
    ensures
        match r {
            Ok(items) => checkout_commit_spec(repo.store(), oid@, repo.path_spec(), fuel as nat)
                == Ok::<Seq<CheckoutItemModel>, GitError>(item_views(items@)),
            Err(e) => checkout_commit_spec(repo.store(), oid@, repo.path_spec(), fuel as nat)
                == Err::<Seq<CheckoutItemModel>, GitError>(e),
        },
{
    let obj = match repo.get_object(oid) {
        Ok(o) => o,
        Err(e) => {
            return Err(e);
        },
    };
    if !matches!(obj.object_type, ObjectType::Commit) {
        return Err(GitError::Format);
    }
    let commit = match crate::commit::Commit::parse(&obj.content) {
        Ok(c) => c,
        Err(e) => {
            return Err(e);
        },
    };
    checkout_tree(repo, &commit.tree, repo.path_bytes(), fuel)
}


/// The store a fetched pack response builds from nothing: the side-band
/// channels demultiplexed, the packfile decoded, the objects exploded.
pub open spec fn clone_store_spec(body: Seq<u8>) -> Result<Map<Seq<u8>, ObjectModel>, GitError> {
    match crate::client::demux_dec(body, 0) {
        Err(e) => Err(e),
        Ok((pack_bytes, _progress)) => match crate::pack::pack_dec(pack_bytes) {
            Err(e) => Err(e),
            Ok(pm) => explode_spec(Map::empty(), pm.objects),
        },
    }
}

/// Everything a finished clone settles: the store, the refs partitioned
/// for writing, the ref the remote HEAD aliases, and the checkout steps.
pub open spec fn finish_clone_spec(
    dir: Seq<u8>,
    rs: Seq<RefModel>,
    body: Seq<u8>,
    fuel: nat,
) -> Result<
    (Map<Seq<u8>, ObjectModel>, Seq<RefModel>, Seq<RefModel>, RefModel, Seq<CheckoutItemModel>),
    GitError,
> {
    match clone_store_spec(body) {
        Err(e) => Err(e),
        Ok(store) => match head_target_spec(rs) {
            Err(e) => Err(e),
            Ok(ht) => match checkout_commit_spec(store, ht.oid, dir, fuel) {
                Err(e) => Err(e),
                Ok(items) => Ok((store, tags_of_refs(rs), branches_of_refs(rs), ht, items)),
            },
        },
    }
}

/// What a finished clone hands back for the surroundings to write out.
#[derive(Debug)]
pub struct CloneOutcome {
    pub repo: GitRepo,
    pub tags: Vec<Ref>,
    pub branches: Vec<Ref>,
    pub head_target: Ref,
    pub checkout: Vec<CheckoutItem>,
    pub progress: Vec<Vec<u8>>,
}

/// Turns a fetched pack response and the advertised refs into a complete
/// clone: a repository holding every object of the pack with its deltas
/// resolved, the tag and branch refs to write, the ref local HEAD will
/// point at, the checkout steps for its tree, and the progress lines the
/// remote sent along the way.
pub fn finish_clone(dir: Vec<u8>, refs: &Vec<Ref>, pack_body: &Vec<u8>, fuel: u64) -> (r: Result<
    CloneOutcome,
    GitError,
>)
    ensures
        match r {
            Ok(out) => {
                &&& out.repo.wf()
                &&& out.repo.path_spec() == dir@
                &&& finish_clone_spec(dir@, ref_views(refs@), pack_body@, fuel as nat) == Ok::<
                    (
                        Map<Seq<u8>, ObjectModel>,
                        Seq<RefModel>,
                        Seq<RefModel>,
                        RefModel,
                        Seq<CheckoutItemModel>,
                    ),
                    GitError,
                >(
                    (
                        out.repo.store(),
                        ref_views(out.tags@),
                        ref_views(out.branches@),
                        out.head_target@,
                        item_views(out.checkout@),
                    ),
                )
                &&& crate::client::demux_dec(pack_body@, 0) matches Ok((p, prog))
                    && crate::client::vec_views(out.progress@) == prog
            },
            Err(e) => finish_clone_spec(dir@, ref_views(refs@), pack_body@, fuel as nat) == Err::<
                (
                    Map<Seq<u8>, ObjectModel>,
                    Seq<RefModel>,
                    Seq<RefModel>,
                    RefModel,
                    Seq<CheckoutItemModel>,
                ),
                GitError,
            >(e),
        },
{
    let (pack_bytes, progress) = match crate::client::parse_pack_response(pack_body) {
        Ok(x) => x,
        Err(e) => {
            return Err(e);
        },
    };
    let pf = match PackFile::parse(&pack_bytes) {
        Ok(pf) => pf,
        Err(e) => {
            return Err(e);
        },
    };
    let mut repo = GitRepo::new(dir);
    match pf.explode_into_repo(&mut repo) {
        Ok(()) => {},
        Err(e) => {
            return Err(e);
        },
    }
    let (tags, branches) = partition_refs(refs);
    let head_target = match find_head_target(refs) {
        Ok(ht) => ht,
        Err(e) => {
            return Err(e);
        },
    };
    let checkout = match checkout_commit(&repo, &head_target.oid, fuel) {
        Ok(items) => items,
        Err(e) => {
            return Err(e);
        },
    };
    Ok(CloneOutcome { repo, tags, branches, head_target, checkout, progress })
}


/// The ref name a symbolic HEAD file aliases: the text after `ref: `,
/// trimmed.
pub fn parse_symref(content: &Vec<u8>) -> (r: Result<Vec<u8>, GitError>)
    ensures
        match r {
            Ok(name) => crate::bytesutil::starts_with(content@, symref_prefix()) && name@
                == crate::commit::trim_ws(content@.skip(5)),
            Err(e) => e == GitError::Format && !crate::bytesutil::starts_with(
                content@,
                symref_prefix(),
            ),
        },
{
    let mut prefix: Vec<u8> = Vec::new();
    prefix.push(114);
    prefix.push(101);
    prefix.push(102);
    prefix.push(58);
    prefix.push(32);
    proof {
        assert(prefix@ =~= symref_prefix());
    }
    if !crate::bytesutil::bytes_start_with(content, &prefix) {
        return Err(GitError::Format);
    }
    let rest = crate::bytesutil::copy_range(content, 5, content.len());
    proof {
        assert(rest@ =~= content@.skip(5));
    }
    Ok(crate::commit::trim_ascii_ws(&rest))
}

/// The identifier a ref file holds: its text, trimmed, read as 40 hex
/// characters.
pub fn parse_ref_file(content: &Vec<u8>) -> (r: Result<ObjectId, GitError>)
    ensures
        ({
            let text = crate::commit::trim_ws(content@);
            match r {
                Ok(oid) => text.len() == 40 && crate::bytesutil::all_hex(text) && oid@
                    == crate::bytesutil::unhex_of(text) && oid.wf(),
                Err(e) => e == GitError::Format && (text.len() != 40 || !crate::bytesutil::all_hex(
                    text,
                )),
            }
        }),
{
    let text = crate::commit::trim_ascii_ws(content);
    ObjectId::from_hex(&text)
}

} // verus!
