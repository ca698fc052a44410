//! Extended identifiers: the same 4-field grammar as the core form, over
//! the superset kind space that adds origins and raw extrinsic metadata.

use vstd::prelude::*;
use vstd::string::StringSliceAdditionalSpecFns;
use vstd::utf8::encode_utf8;

use crate::bytes::{lemma_split_field, lemma_split_whole, spec_split, split_bytes};
use crate::error::SwhidError;
use crate::hex::{
    hex_decode, hex_encode, lemma_hex_decode_encode, lemma_hex_encode_shape, spec_hex_decode,
    spec_hex_encode, spec_hex_ok,
};
use crate::swhid::{
    bytes20, matches_stop, spec_namespace, ObjectType, ParseStop, Swhid,
};
use crate::text::ascii_to_string;

verus! {

/// Extended object kinds: the five core kinds plus origins and raw
/// extrinsic metadata records.
#[derive(Debug, Clone, Copy, PartialEq, Eq, Hash, Structural)]
pub enum ExtendedObjectType {
    /// File contents, tag `cnt`.
    Content,
    /// Directory trees, tag `dir`.
    Directory,
    /// Revisions, tag `rev`.
    Revision,
    /// Releases, tag `rel`.
    Release,
    /// Snapshots, tag `snp`.
    Snapshot,
    /// Origins, tag `ori`.
    Origin,
    /// Raw extrinsic metadata, tag `emd`.
    RawExtrinsicMetadata,
}

/// The tag bytes of an extended kind.
pub open spec fn spec_ext_tag(t: ExtendedObjectType) -> Seq<u8> {
    match t {
        ExtendedObjectType::Content => seq![99u8, 110u8, 116u8],
        ExtendedObjectType::Directory => seq![100u8, 105u8, 114u8],
        ExtendedObjectType::Revision => seq![114u8, 101u8, 118u8],
        ExtendedObjectType::Release => seq![114u8, 101u8, 108u8],
        ExtendedObjectType::Snapshot => seq![115u8, 110u8, 112u8],
        ExtendedObjectType::Origin => seq![111u8, 114u8, 105u8],
        ExtendedObjectType::RawExtrinsicMetadata => seq![101u8, 109u8, 100u8],
    }
}

/// The extended kind denoted by a tag, if any.
pub open spec fn spec_ext_tag_of(b: Seq<u8>) -> Option<ExtendedObjectType> {
    if b == spec_ext_tag(ExtendedObjectType::Content) {
        Some(ExtendedObjectType::Content)
    } else if b == spec_ext_tag(ExtendedObjectType::Directory) {
        Some(ExtendedObjectType::Directory)
    } else if b == spec_ext_tag(ExtendedObjectType::Revision) {
        Some(ExtendedObjectType::Revision)
    } else if b == spec_ext_tag(ExtendedObjectType::Release) {
        Some(ExtendedObjectType::Release)
    } else if b == spec_ext_tag(ExtendedObjectType::Snapshot) {
        Some(ExtendedObjectType::Snapshot)
    } else if b == spec_ext_tag(ExtendedObjectType::Origin) {
        Some(ExtendedObjectType::Origin)
    } else if b == spec_ext_tag(ExtendedObjectType::RawExtrinsicMetadata) {
        Some(ExtendedObjectType::RawExtrinsicMetadata)
    } else {
        None
    }
}

/// The extended kind with the same meaning as a core kind.
pub open spec fn spec_extend_type(t: ObjectType) -> ExtendedObjectType {
    match t {
        ObjectType::Content => ExtendedObjectType::Content,
        ObjectType::Directory => ExtendedObjectType::Directory,
        ObjectType::Revision => ExtendedObjectType::Revision,
        ObjectType::Release => ExtendedObjectType::Release,
        ObjectType::Snapshot => ExtendedObjectType::Snapshot,
    }
}

/// Extended tag bytes never hold a colon, and look back up to the kind.
pub proof fn lemma_ext_tag_shape(t: ExtendedObjectType)
    ensures
        spec_ext_tag(t).len() == 3,
        forall|k: int| 0 <= k < spec_ext_tag(t).len() ==> #[trigger] spec_ext_tag(t)[k] != 58,
        spec_ext_tag_of(spec_ext_tag(t)) == Some(t),
{
    assert(spec_ext_tag_of(spec_ext_tag(t)) == Some(t)) by {
        let tags = seq![
            spec_ext_tag(ExtendedObjectType::Content),
            spec_ext_tag(ExtendedObjectType::Directory),
            spec_ext_tag(ExtendedObjectType::Revision),
            spec_ext_tag(ExtendedObjectType::Release),
            spec_ext_tag(ExtendedObjectType::Snapshot),
            spec_ext_tag(ExtendedObjectType::Origin),
            spec_ext_tag(ExtendedObjectType::RawExtrinsicMetadata),
        ];
        assert forall|a: int, b: int| 0 <= a < b < 7 implies tags[a] != tags[b] by {
            assert(tags[a][0] != tags[b][0] || tags[a][1] != tags[b][1] || tags[a][2]
                != tags[b][2]);
        }
    }
}

impl ExtendedObjectType {
    /// The three-letter tag of this kind.
    pub fn as_str(&self) -> (r: &'static str)
        ensures
            r.spec_bytes() == spec_ext_tag(*self),
    {
        match self {
            ExtendedObjectType::Origin => {
                proof {
                    reveal_strlit("ori");
                }
                let r = "ori";
                proof {
                    assert(r.is_ascii());
                    assert(r.spec_bytes() =~= spec_ext_tag(ExtendedObjectType::Origin));
                }
                r
            },
            ExtendedObjectType::RawExtrinsicMetadata => {
                proof {
                    reveal_strlit("emd");
                }
                let r = "emd";
                proof {
                    assert(r.is_ascii());
                    assert(r.spec_bytes() =~= spec_ext_tag(
                        ExtendedObjectType::RawExtrinsicMetadata,
                    ));
                }
                r
            },
            ExtendedObjectType::Content => {
                proof {
                    assert(spec_ext_tag(ExtendedObjectType::Content) =~= crate::swhid::spec_tag(
                        ObjectType::Content,
                    ));
                }
                ObjectType::Content.as_str()
            },
            ExtendedObjectType::Directory => {
                proof {
                    assert(spec_ext_tag(ExtendedObjectType::Directory) =~= crate::swhid::spec_tag(
                        ObjectType::Directory,
                    ));
                }
                ObjectType::Directory.as_str()
            },
            ExtendedObjectType::Revision => {
                proof {
                    assert(spec_ext_tag(ExtendedObjectType::Revision) =~= crate::swhid::spec_tag(
                        ObjectType::Revision,
                    ));
                }
                ObjectType::Revision.as_str()
            },
            ExtendedObjectType::Release => {
                proof {
                    assert(spec_ext_tag(ExtendedObjectType::Release) =~= crate::swhid::spec_tag(
                        ObjectType::Release,
                    ));
                }
                ObjectType::Release.as_str()
            },
            ExtendedObjectType::Snapshot => {
                proof {
                    assert(spec_ext_tag(ExtendedObjectType::Snapshot) =~= crate::swhid::spec_tag(
                        ObjectType::Snapshot,
                    ));
                }
                ObjectType::Snapshot.as_str()
            },
        }
    }

    /// Decodes a tag string into an extended kind; any other string is
    /// an object-type error.
    pub fn from_str(s: &str) -> (r: Result<Self, SwhidError>)
        ensures
            match r {
                Ok(t) => spec_ext_tag_of(s.spec_bytes()) == Some(t),
                Err(e) => spec_ext_tag_of(s.spec_bytes()) is None && e is InvalidObjectType,
            },
    {
        match ext_tag_lookup(s.as_bytes()) {
            Some(t) => Ok(t),
            None => Err(SwhidError::InvalidObjectType(s.to_owned())),
        }
    }
}

/// Decodes three tag bytes into an extended kind.
fn ext_tag_lookup(b: &[u8]) -> (r: Option<ExtendedObjectType>)
    ensures
        r == spec_ext_tag_of(b@),
{
    if b.len() != 3 {
        return None;
    }
    let r = if b[0] == 99 && b[1] == 110 && b[2] == 116 {
        // cnt
        Some(ExtendedObjectType::Content)
    } else if b[0] == 100 && b[1] == 105 && b[2] == 114 {
        // dir
        Some(ExtendedObjectType::Directory)
    } else if b[0] == 114 && b[1] == 101 && b[2] == 118 {
        // rev
        Some(ExtendedObjectType::Revision)
    } else if b[0] == 114 && b[1] == 101 && b[2] == 108 {
        // rel
        Some(ExtendedObjectType::Release)
    } else if b[0] == 115 && b[1] == 110 && b[2] == 112 {
        // snp
        Some(ExtendedObjectType::Snapshot)
    } else if b[0] == 111 && b[1] == 114 && b[2] == 105 {
        // ori
        Some(ExtendedObjectType::Origin)
    } else if b[0] == 101 && b[1] == 109 && b[2] == 100 {
        // emd
        Some(ExtendedObjectType::RawExtrinsicMetadata)
    } else {
        None
    };
    proof {
        if r is Some {
            assert(b@ =~= spec_ext_tag(r->0));
        }
    }
    r
}

/// The canonical rendering of an extended identifier.
pub open spec fn spec_format_ext(t: ExtendedObjectType, id: Seq<u8>) -> Seq<u8> {
    spec_namespace() + seq![58u8] + seq![49u8] + seq![58u8] + spec_ext_tag(t) + seq![58u8]
        + spec_hex_encode(id)
}

/// The outcome of parsing an extended identifier from bytes.
pub open spec fn spec_parse_ext(b: Seq<u8>) -> Result<(ExtendedObjectType, Seq<u8>), ParseStop> {
    let parts = spec_split(b, 58);
    if parts.len() != 4 {
        Err(ParseStop::FieldCount)
    } else if parts[0] != spec_namespace() {
        Err(ParseStop::Namespace)
    } else if parts[1] != seq![49u8] {
        Err(ParseStop::Version)
    } else if spec_ext_tag_of(parts[2]) is None {
        Err(ParseStop::ObjectKind)
    } else if !spec_hex_ok(parts[3]) {
        Err(ParseStop::HexEncoding)
    } else if spec_hex_decode(parts[3]).len() != 20 {
        Err(ParseStop::HexLength)
    } else {
        Ok((spec_ext_tag_of(parts[2])->0, spec_hex_decode(parts[3])))
    }
}

/// An extended identifier: an extended kind and a 20-byte digest.
#[derive(Debug, Clone, PartialEq, Eq, Hash)]
pub struct ExtendedSwhid {
    /// The object kind.
    pub object_type: ExtendedObjectType,
    /// The 20-byte digest.
    pub hash: [u8; 20],
}

impl ExtendedSwhid {
    /// Builds an extended identifier from a kind and a digest.
    pub fn new(object_type: ExtendedObjectType, hash: [u8; 20]) -> (r: Self)
        ensures
            r.object_type == object_type,
            r.hash == hash,
    {
        Self { object_type, hash }
    }

    /// The object kind.
    pub fn object_type(&self) -> (r: ExtendedObjectType)
        ensures
            r == self.object_type,
    {
        self.object_type
    }

    /// The 20-byte digest.
    pub fn object_id(&self) -> (r: &[u8; 20])
        ensures
            r == &self.hash,
    {
        &self.hash
    }

    /// The 20-byte digest (same value as [`Self::object_id`]).
    pub fn hash(&self) -> (r: &[u8; 20])
        ensures
            r == &self.hash,
    {
        &self.hash
    }

    /// The fixed namespace literal.
    pub fn namespace(&self) -> (r: &'static str)
        ensures
            r.spec_bytes() == spec_namespace(),
    {
        proof {
            reveal_strlit("swh");
        }
        let r = "swh";
        proof {
            assert(r.is_ascii());
            assert(r.spec_bytes() =~= spec_namespace());
        }
        r
    }

    /// The fixed scheme version.
    pub fn scheme_version(&self) -> (r: u32)
        ensures
            r == 1,
    {
        1
    }

    /// Canonical rendering: `swh:1:<tag>:<40 lowercase hex digits>`.
    pub fn to_string(&self) -> (r: String)
        ensures
            encode_utf8(r@) == spec_format_ext(self.object_type, self.hash@),
    {
        let mut out: Vec<u8> = Vec::new();
        // "swh:1:"
        out.push(115);
        out.push(119);
        out.push(104);
        out.push(58);
        out.push(49);
        out.push(58);
        match self.object_type {
            ExtendedObjectType::Content => {
                out.push(99);
                out.push(110);
                out.push(116);
            },
            ExtendedObjectType::Directory => {
                out.push(100);
                out.push(105);
                out.push(114);
            },
            ExtendedObjectType::Revision => {
                out.push(114);
                out.push(101);
                out.push(118);
            },
            ExtendedObjectType::Release => {
                out.push(114);
                out.push(101);
                out.push(108);
            },
            ExtendedObjectType::Snapshot => {
                out.push(115);
                out.push(110);
                out.push(112);
            },
            ExtendedObjectType::Origin => {
                out.push(111);
                out.push(114);
                out.push(105);
            },
            ExtendedObjectType::RawExtrinsicMetadata => {
                out.push(101);
                out.push(109);
                out.push(100);
            },
        }
        out.push(58);
        let mut enc = hex_encode(self.hash.as_slice());
        out.append(&mut enc);
        proof {
            assert(out@ =~= spec_format_ext(self.object_type, self.hash@));
            lemma_ext_tag_shape(self.object_type);
            lemma_hex_encode_shape(self.hash@);
            let f = spec_format_ext(self.object_type, self.hash@);
            assert forall|k: int| 0 <= k < out@.len() implies out@[k] < 128 by {
                let tl = spec_ext_tag(self.object_type).len() as int;
                if k >= 7 + tl {
                    assert(f[k] == spec_hex_encode(self.hash@)[k - 7 - tl]);
                    assert(crate::hex::is_lower_hex_digit(spec_hex_encode(self.hash@)[k - 7 - tl]));
                } else if k >= 6 && k < 6 + tl {
                    assert(f[k] == spec_ext_tag(self.object_type)[k - 6]);
                    assert(spec_ext_tag(self.object_type)[k - 6] < 128);
                }
            }
        }
        ascii_to_string(out)
    }

    /// Parses the 4-field grammar over the extended kind space.
    pub fn from_string(s: &str) -> (r: Result<Self, SwhidError>)
        ensures
            match r {
                Ok(sw) => spec_parse_ext(s.spec_bytes()) == Ok::<_, ParseStop>(
                    (sw.object_type, sw.hash@),
                ),
                Err(e) => spec_parse_ext(s.spec_bytes()) matches Err(k) && matches_stop(e, k),
            },
    {
        let b = s.as_bytes();
        let parts = split_bytes(b, 58);
        if parts.len() != 4 {
            return Err(SwhidError::InvalidFormat(s.to_owned()));
        }
        proof {
            assert(parts.deep_view()[0] == parts@[0]@);
            assert(parts.deep_view()[1] == parts@[1]@);
            assert(parts.deep_view()[2] == parts@[2]@);
            assert(parts.deep_view()[3] == parts@[3]@);
        }
        let p0: &Vec<u8> = &parts[0];
        if !(p0.len() == 3 && p0.as_slice()[0] == 115 && p0.as_slice()[1] == 119 && p0.as_slice()[2]
            == 104) {
            proof {
                if p0@ == spec_namespace() {
                    assert(p0@[0] == 115 && p0@[1] == 119 && p0@[2] == 104);
                }
            }
            return Err(SwhidError::InvalidNamespace(s.to_owned()));
        }
        proof {
            assert(p0@ =~= spec_namespace());
        }
        let p1: &Vec<u8> = &parts[1];
        if !(p1.len() == 1 && p1.as_slice()[0] == 49) {
            proof {
                if p1@ == seq![49u8] {
                    assert(p1@[0] == 49);
                }
            }
            return Err(SwhidError::InvalidVersion(s.to_owned()));
        }
        proof {
            assert(p1@ =~= seq![49u8]);
        }
        let t = match ext_tag_lookup(parts[2].as_slice()) {
            Some(t) => t,
            None => {
                return Err(SwhidError::InvalidObjectType(s.to_owned()));
            },
        };
        let id = match hex_decode(parts[3].as_slice()) {
            Some(v) => v,
            None => {
                return Err(SwhidError::InvalidHash(s.to_owned()));
            },
        };
        if id.len() != 20 {
            return Err(SwhidError::InvalidHashLength(id.len()));
        }
        Ok(ExtendedSwhid { object_type: t, hash: bytes20(&id) })
    }

    /// Converts back to a core identifier.  This is partial: origins and
    /// raw extrinsic metadata have no core form.
    pub fn to_core(&self) -> (r: Result<Swhid, SwhidError>)
        ensures
            match r {
                Ok(sw) => sw.hash == self.hash && spec_extend_type(sw.object_type)
                    == self.object_type,
                Err(e) => (self.object_type == ExtendedObjectType::Origin || self.object_type
                    == ExtendedObjectType::RawExtrinsicMetadata) && e is UnsupportedOperation,
            },
    {
        let t = match self.object_type {
            ExtendedObjectType::Content => ObjectType::Content,
            ExtendedObjectType::Directory => ObjectType::Directory,
            ExtendedObjectType::Revision => ObjectType::Revision,
            ExtendedObjectType::Release => ObjectType::Release,
            ExtendedObjectType::Snapshot => ObjectType::Snapshot,
            ExtendedObjectType::Origin => {
                return Err(
                    SwhidError::UnsupportedOperation(String::from_str("origin has no core form")),
                );
            },
            ExtendedObjectType::RawExtrinsicMetadata => {
                return Err(
                    SwhidError::UnsupportedOperation(
                        String::from_str("raw extrinsic metadata has no core form"),
                    ),
                );
            },
        };
        Ok(Swhid::new(t, self.hash))
    }
}

impl Swhid {
    /// Converts to the extended form.  This is total and lossless: the
    /// kind is carried over and the digest is unchanged.
    pub fn to_extended(&self) -> (r: ExtendedSwhid)
        ensures
            r.object_type == spec_extend_type(self.object_type),
            r.hash == self.hash,
    {
        let t = match self.object_type {
            ObjectType::Content => ExtendedObjectType::Content,
            ObjectType::Directory => ExtendedObjectType::Directory,
            ObjectType::Revision => ExtendedObjectType::Revision,
            ObjectType::Release => ExtendedObjectType::Release,
            ObjectType::Snapshot => ExtendedObjectType::Snapshot,
        };
        ExtendedSwhid::new(t, self.hash)
    }
}

/// The canonical extended fields split exactly back apart.
pub proof fn lemma_ext_format_fields(t: ExtendedObjectType, id: Seq<u8>)
    ensures
        spec_split(spec_format_ext(t, id), 58) =~~= seq![
            spec_namespace(),
            seq![49u8],
            spec_ext_tag(t),
            spec_hex_encode(id),
        ],
{
    let f = spec_format_ext(t, id);
    lemma_ext_tag_shape(t);
    lemma_hex_encode_shape(id);
    let tail2 = spec_ext_tag(t) + seq![58u8] + spec_hex_encode(id);
    let tail1 = seq![49u8] + seq![58u8] + tail2;
    assert(f =~= spec_namespace() + seq![58u8] + tail1);
    lemma_split_field(spec_namespace(), tail1, 58);
    assert(tail1 =~= seq![49u8] + seq![58u8] + tail2);
    lemma_split_field(seq![49u8], tail2, 58);
    assert(tail2 =~= spec_ext_tag(t) + seq![58u8] + spec_hex_encode(id));
    lemma_split_field(spec_ext_tag(t), spec_hex_encode(id), 58);
    assert(forall|k: int|
        0 <= k < spec_hex_encode(id).len() ==> crate::hex::is_lower_hex_digit(
            #[trigger] spec_hex_encode(id)[k],
        ));
    lemma_split_whole(spec_hex_encode(id), 58);
}

/// Round trip, value to string, for extended identifiers.
pub proof fn lemma_parse_format_ext(t: ExtendedObjectType, id: Seq<u8>)
    requires
        id.len() == 20,
    ensures
        spec_parse_ext(spec_format_ext(t, id)) == Ok::<_, ParseStop>((t, id)),
{
    lemma_ext_format_fields(t, id);
    lemma_ext_tag_shape(t);
    lemma_hex_decode_encode(id);
    let parts = spec_split(spec_format_ext(t, id), 58);
    assert(parts.len() == 4);
    assert(parts[0] == spec_namespace());
    assert(parts[1] == seq![49u8]);
    assert(parts[2] == spec_ext_tag(t));
    assert(parts[3] == spec_hex_encode(id));
}

/// Round trip, string to string, for extended identifiers in canonical
/// form.
pub proof fn lemma_format_parse_ext(b: Seq<u8>)
    requires
        exists|t: ExtendedObjectType, id: Seq<u8>|
            id.len() == 20 && b == #[trigger] spec_format_ext(t, id),
    ensures
        spec_parse_ext(b) is Ok,
        spec_format_ext(spec_parse_ext(b)->Ok_0.0, spec_parse_ext(b)->Ok_0.1) == b,
{
    let (t, id) = choose|t: ExtendedObjectType, id: Seq<u8>|
        id.len() == 20 && b == #[trigger] spec_format_ext(t, id);
    lemma_parse_format_ext(t, id);
}

/// Core-to-extended conversion is lossless: the extended rendering of a
/// converted identifier parses back to the converted value.
pub proof fn lemma_extend_lossless(t: ObjectType, id: Seq<u8>)
    requires
        id.len() == 20,
    ensures
        spec_parse_ext(spec_format_ext(spec_extend_type(t), id)) == Ok::<_, ParseStop>(
            (spec_extend_type(t), id),
        ),
{
    lemma_parse_format_ext(spec_extend_type(t), id);
}

} // verus!
