//! The packfile decoder: header, per-object type+size varints, optional
//! delta base references, and zlib-compressed payloads.

use vstd::prelude::*;

use crate::bytesutil::copy_range;
use crate::oid::ObjectId;
use crate::varint::{decode_type_size, read_var_int, tsdec, vdec};
use crate::zlib::{inflate_of, zlib_decompress_prefix};
use crate::GitError;

verus! {

/// The mathematical form of a pack object's tag.
pub enum PackTypeModel {
    Commit,
    Tree,
    Blob,
    Tag,
    OfsDelta(nat),
    RefDelta(Seq<u8>),
}

/// The mathematical form of a decoded pack object.
pub struct PackObjectModel {
    pub typ: PackTypeModel,
    pub data: Seq<u8>,
}

/// The mathematical form of a decoded packfile.
pub struct PackModel {
    pub version: nat,
    pub count: nat,
    pub objects: Seq<PackObjectModel>,
}

/// The tag of a pack object, with its delta base where one applies.
#[derive(Debug)]
pub enum PackObjectType {
    ObjCommit,
    ObjTree,
    ObjBlob,
    ObjTag,
    ObjOfsDelta(u64),
    ObjRefDelta(ObjectId),
}

impl View for PackObjectType {
    type V = PackTypeModel;

    open spec fn view(&self) -> PackTypeModel {
        match self {
            PackObjectType::ObjCommit => PackTypeModel::Commit,
            PackObjectType::ObjTree => PackTypeModel::Tree,
            PackObjectType::ObjBlob => PackTypeModel::Blob,
            PackObjectType::ObjTag => PackTypeModel::Tag,
            PackObjectType::ObjOfsDelta(ofs) => PackTypeModel::OfsDelta(*ofs as nat),
            PackObjectType::ObjRefDelta(oid) => PackTypeModel::RefDelta(oid@),
        }
    }
}

/// One entry of a packfile: its tag and its decompressed payload — final
/// bytes for a direct object, an instruction stream for a delta.
#[derive(Debug)]
pub struct PackObject {
    pub object_type: PackObjectType,
    pub data: Vec<u8>,
}

impl View for PackObject {
    type V = PackObjectModel;

    open spec fn view(&self) -> PackObjectModel {
        PackObjectModel { typ: self.object_type@, data: self.data@ }
    }
}

/// The packfile signature `"PACK"`.
pub open spec fn pack_sig() -> Seq<u8> {
    seq![80u8, 65u8, 67u8, 75u8]
}

/// Big-endian 32-bit value of the first four bytes of `s`.
pub open spec fn be32(s: Seq<u8>) -> nat
    recommends
        s.len() >= 4,
{
    (s[0] as nat) * 0x1000000 + (s[1] as nat) * 0x10000 + (s[2] as nat) * 0x100 + (s[3] as nat)
}

/// Decodes the 12-byte pack header at `pos`: version and object count.
/// Rejected are a missing signature and a version other than 2 or 3.
pub open spec fn header_dec(s: Seq<u8>, pos: nat) -> Result<(nat, nat), GitError> {
    if s.len() < pos + 12 {
        Err(GitError::Format)
    } else if s.subrange(pos as int, (pos + 4) as int) != pack_sig() {
        Err(GitError::Format)
    } else {
        let version = be32(s.subrange((pos + 4) as int, (pos + 8) as int));
        if version != 2 && version != 3 {
            Err(GitError::Format)
        } else {
            Ok((version, be32(s.subrange((pos + 8) as int, (pos + 12) as int))))
        }
    }
}

/// Decodes one pack object at `pos`: its model and the position just past
/// its compressed payload.
pub open spec fn obj_dec(s: Seq<u8>, pos: nat) -> Result<(PackObjectModel, nat), GitError> {
    match tsdec(s.skip(pos as int)) {
        None => Err(GitError::Format),
        Some((t, size, c)) => if size > u64::MAX {
            Err(GitError::Format)
        } else if t == 1 {
            payload_dec(PackTypeModel::Commit, s, pos + c)
        } else if t == 2 {
            payload_dec(PackTypeModel::Tree, s, pos + c)
        } else if t == 3 {
            payload_dec(PackTypeModel::Blob, s, pos + c)
        } else if t == 4 {
            payload_dec(PackTypeModel::Tag, s, pos + c)
        } else if t == 6 {
            match vdec(s.skip((pos + c) as int)) {
                None => Err(GitError::Format),
                Some((ofs, c2)) => if ofs > u64::MAX {
                    Err(GitError::Format)
                } else {
                    payload_dec(PackTypeModel::OfsDelta(ofs), s, pos + c + c2)
                },
            }
        } else if t == 7 {
            if s.len() < pos + c + 20 {
                Err(GitError::Format)
            } else {
                payload_dec(
                    PackTypeModel::RefDelta(s.subrange((pos + c) as int, (pos + c + 20) as int)),
                    s,
                    pos + c + 20,
                )
            }
        } else {
            Err(GitError::Format)
        },
    }
}

/// Decompresses the payload of a pack object starting at `pos`.
pub open spec fn payload_dec(t: PackTypeModel, s: Seq<u8>, pos: nat) -> Result<
    (PackObjectModel, nat),
    GitError,
> {
    match inflate_of(s.skip(pos as int)) {
        None => Err(GitError::Format),
        Some((data, used)) => if pos + used > s.len() {
            Err(GitError::Format)
        } else {
            Ok((PackObjectModel { typ: t, data }, pos + used))
        },
    }
}

/// Decodes `n` consecutive pack objects from `pos` on.
pub open spec fn objs_dec(s: Seq<u8>, pos: nat, n: nat) -> Result<
    (Seq<PackObjectModel>, nat),
    GitError,
>
    decreases n,
{
    if n == 0 {
        Ok((Seq::empty(), pos))
    } else {
        match obj_dec(s, pos) {
            Err(e) => Err(e),
            Ok((m, end)) => match objs_dec(s, end, (n - 1) as nat) {
                Err(e) => Err(e),
                Ok((ms, fin)) => Ok((seq![m] + ms, fin)),
            },
        }
    }
}

/// Decodes a whole packfile: header, then exactly as many objects as the
/// header announces.  Bytes after the last object are ignored.
pub open spec fn pack_dec(s: Seq<u8>) -> Result<PackModel, GitError> {
    match header_dec(s, 0) {
        Err(e) => Err(e),
        Ok((version, count)) => match objs_dec(s, 12, count) {
            Err(e) => Err(e),
            Ok((ms, _fin)) => Ok(PackModel { version, count, objects: ms }),
        },
    }
}

/// The decoded pack header.
#[derive(Debug)]
pub struct PackHeader {
    pub sig: Vec<u8>,
    pub version: u32,
    pub num_objects: u32,
}

impl PackHeader {
    /// Reads the signature, version and object count at `pos`.
    pub fn parse(buf: &Vec<u8>, pos: usize) -> (r: Result<(PackHeader, usize), GitError>)
        requires
            pos <= buf@.len(),
        ensures
            match r {
                Ok((h, end)) => {
                    &&& header_dec(buf@, pos as nat) == Ok::<(nat, nat), GitError>(
                        (h.version as nat, h.num_objects as nat),
                    )
                    &&& h.sig@ == pack_sig()
                    &&& end == pos + 12
                    &&& end <= buf@.len()
                },
                Err(e) => header_dec(buf@, pos as nat) == Err::<(nat, nat), GitError>(e),
            },
    {
        if buf.len() - pos < 12 {
            return Err(GitError::Format);
        }
        let sig = copy_range(buf, pos, pos + 4);
        let is_pack = sig.len() == 4 && sig[0] == 80 && sig[1] == 65 && sig[2] == 67 && sig[3]
            == 75;
        if !is_pack {
            proof {
                assert(buf@.subrange(pos as int, pos + 4) != pack_sig()) by {
                    if buf@.subrange(pos as int, pos + 4) == pack_sig() {
                        assert(sig@[0] == 80 && sig@[1] == 65 && sig@[2] == 67 && sig@[3] == 75);
                    }
                }
            }
            return Err(GitError::Format);
        }
        proof {
            assert(buf@.subrange(pos as int, pos + 4) =~= pack_sig());
        }
        let version: u32 = (buf[pos + 4] as u32) * 0x1000000 + (buf[pos + 5] as u32) * 0x10000 + (
        buf[pos + 6] as u32) * 0x100 + (buf[pos + 7] as u32);
        proof {
            assert(buf@.subrange(pos + 4, pos + 8)[0] == buf@[pos + 4]);
            assert(buf@.subrange(pos + 4, pos + 8)[1] == buf@[pos + 5]);
            assert(buf@.subrange(pos + 4, pos + 8)[2] == buf@[pos + 6]);
            assert(buf@.subrange(pos + 4, pos + 8)[3] == buf@[pos + 7]);
        }
        if version != 2 && version != 3 {
            return Err(GitError::Format);
        }
        let num_objects: u32 = (buf[pos + 8] as u32) * 0x1000000 + (buf[pos + 9] as u32) * 0x10000
            + (buf[pos + 10] as u32) * 0x100 + (buf[pos + 11] as u32);
        proof {
            assert(buf@.subrange(pos + 8, pos + 12)[0] == buf@[pos + 8]);
            assert(buf@.subrange(pos + 8, pos + 12)[1] == buf@[pos + 9]);
            assert(buf@.subrange(pos + 8, pos + 12)[2] == buf@[pos + 10]);
            assert(buf@.subrange(pos + 8, pos + 12)[3] == buf@[pos + 11]);
        }
        Ok((PackHeader { sig, version, num_objects }, pos + 12))
    }
}

impl PackObject {
    /// Decodes one pack object at `pos`: type+size varint, a delta base
    /// where the type calls for one, then the compressed payload.
    pub fn parse(buf: &Vec<u8>, pos: usize) -> (r: Result<(PackObject, usize), GitError>)
        requires
            pos <= buf@.len(),
        ensures
            match r {
                Ok((o, end)) => {
                    &&& obj_dec(buf@, pos as nat) == Ok::<(PackObjectModel, nat), GitError>(
                        (o@, end as nat),
                    )
                    &&& pos <= end <= buf@.len()
                },
                Err(e) => obj_dec(buf@, pos as nat) == Err::<(PackObjectModel, nat), GitError>(e),
            },
    {
        let (t, _size, tend) = match decode_type_size(buf, pos) {
            Ok(x) => x,
            Err(e) => {
                return Err(e);
            },
        };
        let (object_type, dpos): (PackObjectType, usize) = if t == 1 {
            (PackObjectType::ObjCommit, tend)
        } else if t == 2 {
            (PackObjectType::ObjTree, tend)
        } else if t == 3 {
            (PackObjectType::ObjBlob, tend)
        } else if t == 4 {
            (PackObjectType::ObjTag, tend)
        } else if t == 6 {
            let (ofs, oend) = match read_var_int(buf, tend) {
                Ok(x) => x,
                Err(e) => {
                    return Err(e);
                },
            };
            (PackObjectType::ObjOfsDelta(ofs), oend)
        } else if t == 7 {
            if buf.len() - tend < 20 {
                return Err(GitError::Format);
            }
            let base_bytes = copy_range(buf, tend, tend + 20);
            let oid = match ObjectId::from_bytes(&base_bytes) {
                Ok(oid) => oid,
                Err(_) => {
                    proof {
                        assert(false);
                    }
                    return Err(GitError::Format);
                },
            };
            (PackObjectType::ObjRefDelta(oid), tend + 20)
        } else {
            return Err(GitError::Format);
        };
        let (data, used) = match zlib_decompress_prefix(buf, dpos) {
            Ok(x) => x,
            Err(e) => {
                return Err(e);
            },
        };
        let blen = buf.len();
        proof {
            assert(dpos + used <= blen);
        }
        Ok((PackObject { object_type, data }, dpos + used))
    }
}

/// The views of a run of pack objects.
pub open spec fn views_of(objs: Seq<PackObject>) -> Seq<PackObjectModel> {
    objs.map_values(|o: PackObject| o@)
}

/// A decoded packfile: its header and its objects in order.
#[derive(Debug)]
pub struct PackFile {
    pub header: PackHeader,
    pub objects: Vec<PackObject>,
}

impl PackFile {
    /// Decodes a whole packfile buffer.
    pub fn parse(buf: &Vec<u8>) -> (r: Result<PackFile, GitError>)
        ensures
            match r {
                Ok(pf) => pack_dec(buf@) == Ok::<PackModel, GitError>(
                    PackModel {
                        version: pf.header.version as nat,
                        count: pf.header.num_objects as nat,
                        objects: views_of(pf.objects@),
                    },
                ) && pf.objects@.len() == pf.header.num_objects,
                Err(e) => pack_dec(buf@) == Err::<PackModel, GitError>(e),
            },
    {
        let (header, mut pos) = match PackHeader::parse(buf, 0) {
            Ok(x) => x,
            Err(e) => {
                return Err(e);
            },
        };
        let count = header.num_objects;
        let mut objects: Vec<PackObject> = Vec::new();
        let mut i: u32 = 0;
        proof {
            assert(views_of(objects@) =~= Seq::<PackObjectModel>::empty());
        }
        while i < count
            invariant
                i <= count,
                pos <= buf@.len(),
                objects@.len() == i,
                header_dec(buf@, 0) == Ok::<(nat, nat), GitError>(
                    (header.version as nat, count as nat),
                ),
                header.num_objects == count,
                header.sig@ == pack_sig(),
                match objs_dec(buf@, pos as nat, (count - i) as nat) {
                    Err(e) => objs_dec(buf@, 12, count as nat) == Err::<
                        (Seq<PackObjectModel>, nat),
                        GitError,
                    >(e),
                    Ok((ms, fin)) => objs_dec(buf@, 12, count as nat) == Ok::<
                        (Seq<PackObjectModel>, nat),
                        GitError,
                    >((views_of(objects@) + ms, fin)),
                },
            decreases count - i,
        {
            let (obj, end) = match PackObject::parse(buf, pos) {
                Ok(x) => x,
                Err(e) => {
                    return Err(e);
                },
            };
            let ghost prev = objects@;
            let ghost obj_model = obj@;
            objects.push(obj);
            i = i + 1;
            proof {
                assert(views_of(objects@) =~= views_of(prev) + seq![obj_model]);
                if objs_dec(buf@, end as nat, (count - i) as nat) is Ok {
                    let (ms, fin) = objs_dec(buf@, end as nat, (count - i) as nat)->Ok_0;
                    assert(views_of(prev) + (seq![obj_model] + ms) =~= views_of(objects@) + ms);
                }
            }
            pos = end;
        }
        proof {
            assert(views_of(objects@) + Seq::<PackObjectModel>::empty() =~= views_of(objects@));
        }
        Ok(PackFile { header, objects })
    }
}

} // verus!
