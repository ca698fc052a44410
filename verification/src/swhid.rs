//! Core identifiers: the 4-field `swh:1:<kind>:<40 hex digits>` grammar,
//! its strict parser, and its canonical formatter.

use vstd::prelude::*;
use vstd::string::StringSliceAdditionalSpecFns;
use vstd::utf8::encode_utf8;

use crate::bytes::{lemma_split_field, lemma_split_whole, spec_split, split_bytes};
use crate::error::SwhidError;
use crate::hex::{
    hex_decode, hex_encode, lemma_hex_decode_encode, lemma_hex_encode_shape, spec_hex_decode,
    spec_hex_encode, spec_hex_ok,
};
use crate::text::ascii_to_string;

verus! {

/// Core object kinds, each with a fixed three-letter tag.
#[derive(Debug, Clone, Copy, PartialEq, Eq, Hash, Structural)]
pub enum ObjectType {
    /// File contents, tag `cnt`.
    Content,
    /// Directory trees, tag `dir`.
    Directory,
    /// Revisions (commits), tag `rev`.
    Revision,
    /// Releases (tags), tag `rel`.
    Release,
    /// Snapshots of a whole repository, tag `snp`.
    Snapshot,
}

/// The bytes of the namespace literal `swh`.
pub open spec fn spec_namespace() -> Seq<u8> {
    seq![115u8, 119u8, 104u8]
}

/// The tag bytes of a core kind.
pub open spec fn spec_tag(t: ObjectType) -> Seq<u8> {
    match t {
        ObjectType::Content => seq![99u8, 110u8, 116u8],
        ObjectType::Directory => seq![100u8, 105u8, 114u8],
        ObjectType::Revision => seq![114u8, 101u8, 118u8],
        ObjectType::Release => seq![114u8, 101u8, 108u8],
        ObjectType::Snapshot => seq![115u8, 110u8, 112u8],
    }
}

/// The core kind denoted by a tag, if any.
pub open spec fn spec_tag_of(b: Seq<u8>) -> Option<ObjectType> {
    if b == spec_tag(ObjectType::Content) {
        Some(ObjectType::Content)
    } else if b == spec_tag(ObjectType::Directory) {
        Some(ObjectType::Directory)
    } else if b == spec_tag(ObjectType::Revision) {
        Some(ObjectType::Revision)
    } else if b == spec_tag(ObjectType::Release) {
        Some(ObjectType::Release)
    } else if b == spec_tag(ObjectType::Snapshot) {
        Some(ObjectType::Snapshot)
    } else {
        None
    }
}

/// Tag bytes never hold a colon, and looking a tag back up succeeds.
pub proof fn lemma_tag_shape(t: ObjectType)
    ensures
        spec_tag(t).len() == 3,
        forall|k: int| 0 <= k < spec_tag(t).len() ==> #[trigger] spec_tag(t)[k] != 58,
        spec_tag_of(spec_tag(t)) == Some(t),
{
    match t {
        ObjectType::Content => {
            assert(spec_tag(ObjectType::Content) != spec_tag(ObjectType::Directory));
        },
        ObjectType::Directory => {
            assert(spec_tag(ObjectType::Directory) != spec_tag(ObjectType::Content));
        },
        ObjectType::Revision => {
            assert(spec_tag(ObjectType::Revision) != spec_tag(ObjectType::Content));
            assert(spec_tag(ObjectType::Revision) != spec_tag(ObjectType::Directory));
        },
        ObjectType::Release => {
            assert(spec_tag(ObjectType::Release) != spec_tag(ObjectType::Content));
            assert(spec_tag(ObjectType::Release) != spec_tag(ObjectType::Directory));
            assert(spec_tag(ObjectType::Release) != spec_tag(ObjectType::Revision));
        },
        ObjectType::Snapshot => {
            assert(spec_tag(ObjectType::Snapshot) != spec_tag(ObjectType::Content));
            assert(spec_tag(ObjectType::Snapshot) != spec_tag(ObjectType::Directory));
            assert(spec_tag(ObjectType::Snapshot) != spec_tag(ObjectType::Revision));
            assert(spec_tag(ObjectType::Snapshot) != spec_tag(ObjectType::Release));
        },
    }
}

impl ObjectType {
    /// The three-letter tag of this kind.
    pub fn as_str(&self) -> (r: &'static str)
        ensures
            r.spec_bytes() == spec_tag(*self),
    {
        proof {
            reveal_strlit("cnt");
            reveal_strlit("dir");
            reveal_strlit("rev");
            reveal_strlit("rel");
            reveal_strlit("snp");
        }
        match self {
            ObjectType::Content => {
                let r = "cnt";
                proof {
                    assert(r.is_ascii());
                    assert(r.spec_bytes() =~= spec_tag(ObjectType::Content));
                }
                r
            },
            ObjectType::Directory => {
                let r = "dir";
                proof {
                    assert(r.is_ascii());
                    assert(r.spec_bytes() =~= spec_tag(ObjectType::Directory));
                }
                r
            },
            ObjectType::Revision => {
                let r = "rev";
                proof {
                    assert(r.is_ascii());
                    assert(r.spec_bytes() =~= spec_tag(ObjectType::Revision));
                }
                r
            },
            ObjectType::Release => {
                let r = "rel";
                proof {
                    assert(r.is_ascii());
                    assert(r.spec_bytes() =~= spec_tag(ObjectType::Release));
                }
                r
            },
            ObjectType::Snapshot => {
                let r = "snp";
                proof {
                    assert(r.is_ascii());
                    assert(r.spec_bytes() =~= spec_tag(ObjectType::Snapshot));
                }
                r
            },
        }
    }

    /// Decodes a tag string into a core kind; any other string is an
    /// object-type error.
    pub fn from_str(s: &str) -> (r: Result<Self, SwhidError>)
        ensures
            match r {
                Ok(t) => spec_tag_of(s.spec_bytes()) == Some(t),
                Err(e) => spec_tag_of(s.spec_bytes()) is None && e is InvalidObjectType,
            },
    {
        match tag_lookup(s.as_bytes()) {
            Some(t) => Ok(t),
            None => Err(SwhidError::InvalidObjectType(s.to_owned())),
        }
    }
}

/// Decodes three tag bytes into a core kind.
pub(crate) fn tag_lookup(b: &[u8]) -> (r: Option<ObjectType>)
    ensures
        r == spec_tag_of(b@),
{
    if b.len() != 3 {
        return None;
    }
    let r = if b[0] == 99 && b[1] == 110 && b[2] == 116 {
        // cnt
        Some(ObjectType::Content)
    } else if b[0] == 100 && b[1] == 105 && b[2] == 114 {
        // dir
        Some(ObjectType::Directory)
    } else if b[0] == 114 && b[1] == 101 && b[2] == 118 {
        // rev
        Some(ObjectType::Revision)
    } else if b[0] == 114 && b[1] == 101 && b[2] == 108 {
        // rel
        Some(ObjectType::Release)
    } else if b[0] == 115 && b[1] == 110 && b[2] == 112 {
        // snp
        Some(ObjectType::Snapshot)
    } else {
        None
    };
    proof {
        if b@[0] == 99 && b@[1] == 110 && b@[2] == 116 {
            assert(b@ =~= spec_tag(ObjectType::Content));
        } else if b@[0] == 100 && b@[1] == 105 && b@[2] == 114 {
            assert(b@ =~= spec_tag(ObjectType::Directory));
        } else if b@[0] == 114 && b@[1] == 101 && b@[2] == 118 {
            assert(b@ =~= spec_tag(ObjectType::Revision));
        } else if b@[0] == 114 && b@[1] == 101 && b@[2] == 108 {
            assert(b@ =~= spec_tag(ObjectType::Release));
        } else if b@[0] == 115 && b@[1] == 110 && b@[2] == 112 {
            assert(b@ =~= spec_tag(ObjectType::Snapshot));
        }
    }
    r
}

/// Why a parse stopped: each variant is one distinct error condition of
/// the identifier grammars.
#[derive(Debug, Clone, Copy, PartialEq, Eq, Structural)]
pub enum ParseStop {
    /// Wrong number of colon-separated fields.
    FieldCount,
    /// The namespace field is not `swh`.
    Namespace,
    /// The version field is not `1`.
    Version,
    /// The kind field is not a recognized tag.
    ObjectKind,
    /// The hash field is not well-formed hexadecimal.
    HexEncoding,
    /// The hash field decoded to a length other than 20 bytes.
    HexLength,
    /// A qualifier piece holds no `=`.
    PairFormat,
    /// A qualifier key is not recognized.
    UnknownKey,
    /// A `lines` or `bytes` value is not a well-formed range.
    RangeFormat,
    /// A `visit` or `anchor` value violates its kind constraint.
    KindConstraint,
    /// An `origin` value is not valid UTF-8.
    OriginEncoding,
}

/// Does the executable error carry the right variant for a parse stop?
pub open spec fn matches_stop(e: SwhidError, k: ParseStop) -> bool {
    match k {
        ParseStop::FieldCount => e is InvalidFormat,
        ParseStop::Namespace => e is InvalidNamespace,
        ParseStop::Version => e is InvalidVersion,
        ParseStop::ObjectKind => e is InvalidObjectType,
        ParseStop::HexEncoding => e is InvalidHash,
        ParseStop::HexLength => e is InvalidHashLength,
        ParseStop::PairFormat => e is InvalidFormat,
        ParseStop::UnknownKey => e is UnknownQualifier,
        ParseStop::RangeFormat => e is InvalidFormat,
        ParseStop::KindConstraint => e is InvalidQualifier,
        ParseStop::OriginEncoding => e is InvalidFormat,
    }
}

/// The canonical rendering of a core identifier with kind `t` and
/// 20-byte digest `id`: `swh:1:<tag>:<lowercase hex>`.
pub open spec fn spec_format_swhid(t: ObjectType, id: Seq<u8>) -> Seq<u8> {
    spec_namespace() + seq![58u8] + seq![49u8] + seq![58u8] + spec_tag(t) + seq![58u8]
        + spec_hex_encode(id)
}

/// The outcome of parsing a core identifier from bytes: the kind and
/// the 20 digest bytes, or the first error in field order.
pub open spec fn spec_parse_swhid(b: Seq<u8>) -> Result<(ObjectType, Seq<u8>), ParseStop> {
    let parts = spec_split(b, 58);
    if parts.len() != 4 {
        Err(ParseStop::FieldCount)
    } else if parts[0] != spec_namespace() {
        Err(ParseStop::Namespace)
    } else if parts[1] != seq![49u8] {
        Err(ParseStop::Version)
    } else if spec_tag_of(parts[2]) is None {
        Err(ParseStop::ObjectKind)
    } else if !spec_hex_ok(parts[3]) {
        Err(ParseStop::HexEncoding)
    } else if spec_hex_decode(parts[3]).len() != 20 {
        Err(ParseStop::HexLength)
    } else {
        Ok((spec_tag_of(parts[2])->0, spec_hex_decode(parts[3])))
    }
}

/// A core identifier: an object kind and a 20-byte digest.  Structural
/// equality on the pair; namespace and scheme version are fixed
/// constants, not comparison inputs.
#[derive(Debug, Clone, PartialEq, Eq, Hash)]
pub struct Swhid {
    /// The object kind.
    pub object_type: ObjectType,
    /// The 20-byte digest.
    pub hash: [u8; 20],
}

/// Copies a 20-byte vector into an array.
pub(crate) fn bytes20(v: &Vec<u8>) -> (r: [u8; 20])
    requires
        v@.len() == 20,
    ensures
        r@ == v@,
{
    let mut arr: [u8; 20] = [0u8; 20];
    let mut i: usize = 0;
    while i < 20
        invariant
            v@.len() == 20,
            0 <= i <= 20,
            arr@.len() == 20,
            forall|k: int| 0 <= k < i ==> arr@[k] == v@[k],
        decreases 20 - i,
    {
        arr[i] = v[i];
        i = i + 1;
    }
    proof {
        assert(arr@ =~= v@);
    }
    arr
}

impl Swhid {
    /// Builds an identifier from a kind and a digest.
    pub fn new(object_type: ObjectType, hash: [u8; 20]) -> (r: Self)
        ensures
            r.object_type == object_type,
            r.hash == hash,
    {
        Self { object_type, hash }
    }

    /// The object kind.
    pub fn object_type(&self) -> (r: ObjectType)
        ensures
            r == self.object_type,
    {
        self.object_type
    }

    /// The 20-byte digest.
    pub fn hash(&self) -> (r: &[u8; 20])
        ensures
            r == &self.hash,
    {
        &self.hash
    }

    /// The 20-byte digest (same value as [`Self::hash`]).
    pub fn object_id(&self) -> (r: &[u8; 20])
        ensures
            r == &self.hash,
    {
        &self.hash
    }

    /// The fixed namespace literal.
    pub fn namespace(&self) -> (r: &'static str)
        ensures
            r.spec_bytes() == spec_namespace(),
    {
        proof {
            reveal_strlit("swh");
        }
        let r = "swh";
        proof {
            assert(r.is_ascii());
            assert(r.spec_bytes() =~= spec_namespace());
        }
        r
    }

    /// The fixed scheme version.
    pub fn scheme_version(&self) -> (r: u32)
        ensures
            r == 1,
    {
        1
    }

    /// Canonical rendering: `swh:1:<tag>:<40 lowercase hex digits>`.
    pub fn to_string(&self) -> (r: String)
        ensures
            encode_utf8(r@) == spec_format_swhid(self.object_type, self.hash@),
    {
        let v = format_swhid_bytes(self.object_type, &self.hash);
        proof {
            lemma_format_ascii(self.object_type, self.hash@);
        }
        ascii_to_string(v)
    }

    /// Parses the 4-field core grammar.  Field errors are distinct and
    /// checked in order: field count, namespace, version, kind tag, hex
    /// well-formedness, decoded length.
    pub fn from_string(s: &str) -> (r: Result<Self, SwhidError>)
        ensures
            match r {
                Ok(sw) => spec_parse_swhid(s.spec_bytes()) == Ok::<_, ParseStop>(
                    (sw.object_type, sw.hash@),
                ),
                Err(e) => spec_parse_swhid(s.spec_bytes()) matches Err(k) && matches_stop(e, k),
            },
    {
        parse_swhid_bytes(s.as_bytes(), s)
    }
}

/// Canonical rendering of a core identifier as bytes.
pub(crate) fn format_swhid_bytes(t: ObjectType, id: &[u8; 20]) -> (r: Vec<u8>)
    ensures
        r@ == spec_format_swhid(t, id@),
{
    let mut out: Vec<u8> = Vec::new();
    // "swh:1:"
    out.push(115);
    out.push(119);
    out.push(104);
    out.push(58);
    out.push(49);
    out.push(58);
    match t {
        ObjectType::Content => {
            out.push(99);
            out.push(110);
            out.push(116);
        },
        ObjectType::Directory => {
            out.push(100);
            out.push(105);
            out.push(114);
        },
        ObjectType::Revision => {
            out.push(114);
            out.push(101);
            out.push(118);
        },
        ObjectType::Release => {
            out.push(114);
            out.push(101);
            out.push(108);
        },
        ObjectType::Snapshot => {
            out.push(115);
            out.push(110);
            out.push(112);
        },
    }
    out.push(58);
    let mut enc = hex_encode(id.as_slice());
    out.append(&mut enc);
    proof {
        assert(out@ =~= spec_format_swhid(t, id@));
    }
    out
}

/// Every byte of a canonical core rendering is ASCII, and none is a
/// `;` or `=` separator.
pub proof fn lemma_format_ascii(t: ObjectType, id: Seq<u8>)
    ensures
        forall|k: int|
            0 <= k < spec_format_swhid(t, id).len() ==> (#[trigger] spec_format_swhid(t, id)[k]
                < 128 && spec_format_swhid(t, id)[k] != 59 && spec_format_swhid(t, id)[k] != 61),
{
    lemma_hex_encode_shape(id);
    lemma_tag_shape(t);
    let f = spec_format_swhid(t, id);
    assert forall|k: int| 0 <= k < f.len() implies (f[k] < 128 && f[k] != 59 && f[k] != 61) by {
        if k >= 7 + spec_tag(t).len() {
            assert(f[k] == spec_hex_encode(id)[k - 7 - spec_tag(t).len()]);
            assert(crate::hex::is_lower_hex_digit(spec_hex_encode(id)[k - 7 - spec_tag(t).len()]));
        } else if k >= 6 && k < 6 + spec_tag(t).len() {
            assert(f[k] == spec_tag(t)[k - 6]);
            match t {
                ObjectType::Content => {},
                ObjectType::Directory => {},
                ObjectType::Revision => {},
                ObjectType::Release => {},
                ObjectType::Snapshot => {},
            }
        }
    }
}

/// Parses the core grammar from bytes; `src` supplies error payloads.
pub(crate) fn parse_swhid_bytes(b: &[u8], src: &str) -> (r: Result<Swhid, SwhidError>)
    ensures
        match r {
            Ok(sw) => spec_parse_swhid(b@) == Ok::<_, ParseStop>((sw.object_type, sw.hash@)),
            Err(e) => spec_parse_swhid(b@) matches Err(k) && matches_stop(e, k),
        },
{
    let parts = split_bytes(b, 58);
    let ghost sparts = spec_split(b@, 58);
    if parts.len() != 4 {
        return Err(SwhidError::InvalidFormat(src.to_owned()));
    }
    proof {
        assert(parts.deep_view()[0] == parts@[0]@);
        assert(parts.deep_view()[1] == parts@[1]@);
        assert(parts.deep_view()[2] == parts@[2]@);
        assert(parts.deep_view()[3] == parts@[3]@);
    }
    let p0: &Vec<u8> = &parts[0];
    if !(p0.len() == 3 && p0.as_slice()[0] == 115 && p0.as_slice()[1] == 119 && p0.as_slice()[2]
        == 104) {
        proof {
            if p0@ == spec_namespace() {
                assert(p0@[0] == 115 && p0@[1] == 119 && p0@[2] == 104);
            }
        }
        return Err(SwhidError::InvalidNamespace(src.to_owned()));
    }
    proof {
        assert(p0@ =~= spec_namespace());
    }
    let p1: &Vec<u8> = &parts[1];
    if !(p1.len() == 1 && p1.as_slice()[0] == 49) {
        proof {
            if p1@ == seq![49u8] {
                assert(p1@[0] == 49);
            }
        }
        return Err(SwhidError::InvalidVersion(src.to_owned()));
    }
    proof {
        assert(p1@ =~= seq![49u8]);
    }
    let t = match tag_lookup(parts[2].as_slice()) {
        Some(t) => t,
        None => {
            return Err(SwhidError::InvalidObjectType(src.to_owned()));
        },
    };
    let id = match hex_decode(parts[3].as_slice()) {
        Some(v) => v,
        None => {
            return Err(SwhidError::InvalidHash(src.to_owned()));
        },
    };
    if id.len() != 20 {
        return Err(SwhidError::InvalidHashLength(id.len()));
    }
    Ok(Swhid { object_type: t, hash: bytes20(&id) })
}

/// The canonical fields split exactly back into namespace, version,
/// tag, and hex digest.
pub proof fn lemma_format_fields(t: ObjectType, id: Seq<u8>)
    ensures
        spec_split(spec_format_swhid(t, id), 58) =~~= seq![
            spec_namespace(),
            seq![49u8],
            spec_tag(t),
            spec_hex_encode(id),
        ],
{
    let f = spec_format_swhid(t, id);
    lemma_tag_shape(t);
    lemma_hex_encode_shape(id);
    let tail2 = spec_tag(t) + seq![58u8] + spec_hex_encode(id);
    let tail1 = seq![49u8] + seq![58u8] + tail2;
    assert(f =~= spec_namespace() + seq![58u8] + tail1);
    lemma_split_field(spec_namespace(), tail1, 58);
    assert(tail1 =~= seq![49u8] + seq![58u8] + tail2);
    lemma_split_field(seq![49u8], tail2, 58);
    assert(tail2 =~= spec_tag(t) + seq![58u8] + spec_hex_encode(id));
    lemma_split_field(spec_tag(t), spec_hex_encode(id), 58);
    assert(forall|k: int|
        0 <= k < spec_hex_encode(id).len() ==> crate::hex::is_lower_hex_digit(
            #[trigger] spec_hex_encode(id)[k],
        ));
    lemma_split_whole(spec_hex_encode(id), 58);
}

/// Round trip, value to string: parsing the canonical rendering of any
/// kind and 20-byte digest yields exactly that kind and digest.
pub proof fn lemma_parse_format_swhid(t: ObjectType, id: Seq<u8>)
    requires
        id.len() == 20,
    ensures
        spec_parse_swhid(spec_format_swhid(t, id)) == Ok::<_, ParseStop>((t, id)),
{
    lemma_format_fields(t, id);
    lemma_tag_shape(t);
    lemma_hex_decode_encode(id);
    let parts = spec_split(spec_format_swhid(t, id), 58);
    assert(parts.len() == 4);
    assert(parts[0] == spec_namespace());
    assert(parts[1] == seq![49u8]);
    assert(parts[2] == spec_tag(t));
    assert(parts[3] == spec_hex_encode(id));
}

/// Round trip, string to string: a core identifier string in canonical
/// form parses, and formatting the parsed value gives the string back.
pub proof fn lemma_format_parse_swhid(b: Seq<u8>)
    requires
        exists|t: ObjectType, id: Seq<u8>| id.len() == 20 && b == #[trigger] spec_format_swhid(
            t,
            id,
        ),
    ensures
        spec_parse_swhid(b) is Ok,
        spec_format_swhid(spec_parse_swhid(b)->Ok_0.0, spec_parse_swhid(b)->Ok_0.1) == b,
{
    let (t, id) = choose|t: ObjectType, id: Seq<u8>|
        id.len() == 20 && b == #[trigger] spec_format_swhid(t, id);
    lemma_parse_format_swhid(t, id);
}

} // verus!
