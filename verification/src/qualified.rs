//! Qualified identifiers: a core identifier with optional context
//! qualifiers (`origin`, `visit`, `anchor`, `path`, `lines`, `bytes`),
//! their strict parse grammar, and the canonical fixed-order formatter.

use vstd::prelude::*;
use vstd::string::StringSliceAdditionalSpecFns;
use vstd::utf8::{encode_utf8, valid_utf8};

use crate::bytes::{
    lemma_split_once_join, push_all, spec_split, spec_split_once, split_bytes, split_once_bytes,
};
use crate::decimal::{
    lemma_dec_digits_shape, lemma_dec_value_digits, parse_u32, push_decimal, spec_dec_digits,
    spec_dec_ok, spec_dec_value,
};
use crate::error::SwhidError;
use crate::swhid::{
    format_swhid_bytes, lemma_format_ascii, lemma_parse_format_swhid, matches_stop,
    parse_swhid_bytes, spec_format_swhid, spec_parse_swhid, ObjectType, ParseStop, Swhid,
};
use crate::text::{lemma_ascii_valid_utf8, lossy_to_string, lossy_utf8, utf8_to_string};

verus! {

/// The bytes of the qualifier key `origin`.
pub open spec fn spec_key_origin() -> Seq<u8> {
    seq![111u8, 114u8, 105u8, 103u8, 105u8, 110u8]
}

/// The bytes of the qualifier key `visit`.
pub open spec fn spec_key_visit() -> Seq<u8> {
    seq![118u8, 105u8, 115u8, 105u8, 116u8]
}

/// The bytes of the qualifier key `anchor`.
pub open spec fn spec_key_anchor() -> Seq<u8> {
    seq![97u8, 110u8, 99u8, 104u8, 111u8, 114u8]
}

/// The bytes of the qualifier key `path`.
pub open spec fn spec_key_path() -> Seq<u8> {
    seq![112u8, 97u8, 116u8, 104u8]
}

/// The bytes of the qualifier key `lines`.
pub open spec fn spec_key_lines() -> Seq<u8> {
    seq![108u8, 105u8, 110u8, 101u8, 115u8]
}

/// The bytes of the qualifier key `bytes`.
pub open spec fn spec_key_bytes() -> Seq<u8> {
    seq![98u8, 121u8, 116u8, 101u8, 115u8]
}

/// The parsed contents of a qualified identifier: the core kind and
/// digest, plus each optional qualifier as plain values.  `origin` and
/// `path` are kept as the raw value bytes.
pub struct QualifierModel {
    /// The core object kind.
    pub kind: ObjectType,
    /// The core 20-byte digest.
    pub id: Seq<u8>,
    /// The `origin` value bytes, if present.
    pub origin: Option<Seq<u8>>,
    /// The `visit` core identifier, if present.
    pub visit: Option<(ObjectType, Seq<u8>)>,
    /// The `anchor` core identifier, if present.
    pub anchor: Option<(ObjectType, Seq<u8>)>,
    /// The `path` value bytes, if present.
    pub path: Option<Seq<u8>>,
    /// The `lines` range, if present.
    pub lines: Option<(u32, Option<u32>)>,
    /// The `bytes` range, if present.
    pub bytes: Option<(u32, Option<u32>)>,
}

/// The model of a bare core identifier: no qualifiers.
pub open spec fn spec_base_model(kind: ObjectType, id: Seq<u8>) -> QualifierModel {
    QualifierModel {
        kind,
        id,
        origin: None,
        visit: None,
        anchor: None,
        path: None,
        lines: None,
        bytes: None,
    }
}

/// The value of a `lines` or `bytes` range, if the bytes are a
/// well-formed `start` or `start-end` pair of decimal numbers.
pub open spec fn spec_parse_range(v: Seq<u8>) -> Option<(u32, Option<u32>)> {
    let ps = spec_split(v, 45);
    if ps.len() == 1 {
        match spec_u32_of(ps[0]) {
            Some(a) => Some((a, None)),
            None => None,
        }
    } else if ps.len() == 2 {
        match (spec_u32_of(ps[0]), spec_u32_of(ps[1])) {
            (Some(a), Some(b)) => Some((a, Some(b))),
            _ => None,
        }
    } else {
        None
    }
}

/// The `u32` denoted by a decimal digit string, if within range.
pub open spec fn spec_u32_of(s: Seq<u8>) -> Option<u32> {
    if spec_dec_ok(s) && spec_dec_value(s) <= u32::MAX {
        Some(spec_dec_value(s) as u32)
    } else {
        None
    }
}

/// Applies one `key=value` qualifier piece to a model.  A repeated key
/// overrides the earlier value (last write wins).
pub open spec fn spec_apply_piece(m: QualifierModel, piece: Seq<u8>) -> Result<
    QualifierModel,
    ParseStop,
> {
    match spec_split_once(piece, 61) {
        None => Err(ParseStop::PairFormat),
        Some((key, value)) => {
            if key == spec_key_origin() {
                if valid_utf8(value) {
                    Ok(QualifierModel { origin: Some(value), ..m })
                } else {
                    Err(ParseStop::OriginEncoding)
                }
            } else if key == spec_key_visit() {
                match spec_parse_swhid(value) {
                    Err(k) => Err(k),
                    Ok((t, id)) => if t == ObjectType::Snapshot {
                        Ok(QualifierModel { visit: Some((t, id)), ..m })
                    } else {
                        Err(ParseStop::KindConstraint)
                    },
                }
            } else if key == spec_key_anchor() {
                match spec_parse_swhid(value) {
                    Err(k) => Err(k),
                    Ok((t, id)) => if t != ObjectType::Content {
                        Ok(QualifierModel { anchor: Some((t, id)), ..m })
                    } else {
                        Err(ParseStop::KindConstraint)
                    },
                }
            } else if key == spec_key_path() {
                Ok(QualifierModel { path: Some(value), ..m })
            } else if key == spec_key_lines() {
                match spec_parse_range(value) {
                    Some(r) => Ok(QualifierModel { lines: Some(r), ..m }),
                    None => Err(ParseStop::RangeFormat),
                }
            } else if key == spec_key_bytes() {
                match spec_parse_range(value) {
                    Some(r) => Ok(QualifierModel { bytes: Some(r), ..m }),
                    None => Err(ParseStop::RangeFormat),
                }
            } else {
                Err(ParseStop::UnknownKey)
            }
        },
    }
}

/// Applies qualifier pieces left to right, stopping at the first error.
pub open spec fn spec_apply_all(m: Result<QualifierModel, ParseStop>, pieces: Seq<Seq<u8>>) -> Result<
    QualifierModel,
    ParseStop,
>
    decreases pieces.len(),
{
    if pieces.len() == 0 {
        m
    } else {
        match m {
            Err(k) => Err(k),
            Ok(mm) => spec_apply_all(spec_apply_piece(mm, pieces[0]), pieces.drop_first()),
        }
    }
}

/// An error result absorbs any further pieces.
pub proof fn lemma_apply_all_err(k: ParseStop, pieces: Seq<Seq<u8>>)
    ensures
        spec_apply_all(Err(k), pieces) == Err::<QualifierModel, ParseStop>(k),
    decreases pieces.len(),
{
    if pieces.len() != 0 {
        lemma_apply_all_err(k, pieces.drop_first());
    }
}

/// Folding over a concatenation folds over each part in turn.
pub proof fn lemma_apply_all_concat(
    m: Result<QualifierModel, ParseStop>,
    a: Seq<Seq<u8>>,
    b: Seq<Seq<u8>>,
)
    ensures
        spec_apply_all(m, a + b) == spec_apply_all(spec_apply_all(m, a), b),
    decreases a.len(),
{
    if a.len() == 0 {
        assert(a + b =~= b);
    } else {
        assert((a + b).drop_first() =~= a.drop_first() + b);
        assert((a + b)[0] == a[0]);
        match m {
            Err(k) => {
                lemma_apply_all_err(k, a + b);
                lemma_apply_all_err(k, a);
                lemma_apply_all_err(k, b);
            },
            Ok(mm) => {
                lemma_apply_all_concat(spec_apply_piece(mm, a[0]), a.drop_first(), b);
            },
        }
    }
}

/// The outcome of parsing a qualified identifier from bytes: the core
/// part before the first `;`, then each `key=value` piece in order.
pub open spec fn spec_parse_qualified(b: Seq<u8>) -> Result<QualifierModel, ParseStop> {
    let pieces = spec_split(b, 59);
    match spec_parse_swhid(pieces[0]) {
        Err(k) => Err(k),
        Ok((t, id)) => spec_apply_all(Ok(spec_base_model(t, id)), pieces.drop_first()),
    }
}

/// A qualified identifier: a core identifier plus optional context
/// qualifiers.  Canonical output serializes the qualifiers in the fixed
/// order origin, visit, anchor, path, lines, bytes.
#[derive(Debug, Clone, PartialEq, Eq)]
pub struct QualifiedSwhid {
    /// The core identifier.
    pub core: Swhid,
    /// Origin URL, stored verbatim and not validated.
    pub origin: Option<String>,
    /// Snapshot identifier of the visit.
    pub visit: Option<Swhid>,
    /// Anchor identifier: a directory, revision, release, or snapshot.
    pub anchor: Option<Swhid>,
    /// Path bytes, stored raw.
    pub path: Option<Vec<u8>>,
    /// Line range: start, and an optional inclusive end.
    pub lines: Option<(u32, Option<u32>)>,
    /// Byte range: start, and an optional inclusive end.
    pub bytes: Option<(u32, Option<u32>)>,
}

/// Does the executable value carry exactly the fields of a model?
pub open spec fn q_matches(q: QualifiedSwhid, m: QualifierModel) -> bool {
    &&& q.core.object_type == m.kind
    &&& q.core.hash@ == m.id
    &&& match (q.origin, m.origin) {
        (Some(s), Some(b)) => encode_utf8(s@) == b,
        (None, None) => true,
        _ => false,
    }
    &&& match (q.visit, m.visit) {
        (Some(v), Some(ti)) => v.object_type == ti.0 && v.hash@ == ti.1,
        (None, None) => true,
        _ => false,
    }
    &&& match (q.anchor, m.anchor) {
        (Some(v), Some(ti)) => v.object_type == ti.0 && v.hash@ == ti.1,
        (None, None) => true,
        _ => false,
    }
    &&& match (q.path, m.path) {
        (Some(p), Some(b)) => p@ == b,
        (None, None) => true,
        _ => false,
    }
    &&& q.lines == m.lines
    &&& q.bytes == m.bytes
}

/// The model carried by an executable value.
pub open spec fn q_model(q: QualifiedSwhid) -> QualifierModel {
    QualifierModel {
        kind: q.core.object_type,
        id: q.core.hash@,
        origin: match q.origin {
            Some(s) => Some(encode_utf8(s@)),
            None => None,
        },
        visit: match q.visit {
            Some(v) => Some((v.object_type, v.hash@)),
            None => None,
        },
        anchor: match q.anchor {
            Some(v) => Some((v.object_type, v.hash@)),
            None => None,
        },
        path: match q.path {
            Some(p) => Some(p@),
            None => None,
        },
        lines: q.lines,
        bytes: q.bytes,
    }
}

impl QualifiedSwhid {
    /// Wraps a core identifier with no qualifiers.
    pub fn new(core: Swhid) -> (r: Self)
        ensures
            r.core == core,
            r.origin is None,
            r.visit is None,
            r.anchor is None,
            r.path is None,
            r.lines is None,
            r.bytes is None,
    {
        Self { core, origin: None, visit: None, anchor: None, path: None, lines: None, bytes: None }
    }

    /// The core identifier.
    pub fn core_swhid(&self) -> (r: &Swhid)
        ensures
            r == &self.core,
    {
        &self.core
    }

    /// The core object kind.
    pub fn object_type(&self) -> (r: ObjectType)
        ensures
            r == self.core.object_type,
    {
        self.core.object_type()
    }

    /// The core 20-byte digest.
    pub fn hash(&self) -> (r: &[u8; 20])
        ensures
            r == &self.core.hash,
    {
        self.core.hash()
    }

    /// The core 20-byte digest (same value as [`Self::hash`]).
    pub fn object_id(&self) -> (r: &[u8; 20])
        ensures
            r == &self.core.hash,
    {
        self.core.hash()
    }

    /// The fixed namespace literal.
    pub fn namespace(&self) -> (r: &'static str)
        ensures
            r.spec_bytes() == crate::swhid::spec_namespace(),
    {
        self.core.namespace()
    }

    /// The fixed scheme version.
    pub fn scheme_version(&self) -> (r: u32)
        ensures
            r == 1,
    {
        1
    }

    /// Sets the `origin` qualifier; the value is stored verbatim.
    pub fn with_origin(self, origin: String) -> (r: Self)
        ensures
            r == (Self { origin: Some(origin), ..self }),
    {
        Self { origin: Some(origin), ..self }
    }

    /// Sets the `visit` qualifier.  Fails exactly when the supplied
    /// identifier is not a snapshot.
    pub fn with_visit(self, visit: Swhid) -> (r: Result<Self, SwhidError>)
        ensures
            match r {
                Ok(q) => visit.object_type == ObjectType::Snapshot && q == (Self {
                    visit: Some(visit),
                    ..self
                }),
                Err(e) => visit.object_type != ObjectType::Snapshot && e is InvalidQualifier,
            },
    {
        if let ObjectType::Snapshot = visit.object_type() {
            Ok(Self { visit: Some(visit), ..self })
        } else {
            Err(
                SwhidError::InvalidQualifier(
                    String::from_str("visit qualifier must be a snapshot identifier"),
                ),
            )
        }
    }

    /// Sets the `anchor` qualifier.  Fails exactly when the supplied
    /// identifier is a content identifier.
    pub fn with_anchor(self, anchor: Swhid) -> (r: Result<Self, SwhidError>)
        ensures
            match r {
                Ok(q) => anchor.object_type != ObjectType::Content && q == (Self {
                    anchor: Some(anchor),
                    ..self
                }),
                Err(e) => anchor.object_type == ObjectType::Content && e is InvalidQualifier,
            },
    {
        match anchor.object_type() {
            ObjectType::Directory | ObjectType::Revision | ObjectType::Release
                | ObjectType::Snapshot => Ok(Self { anchor: Some(anchor), ..self }),
            ObjectType::Content => Err(
                SwhidError::InvalidQualifier(
                    String::from_str(
                        "anchor qualifier must be a directory, revision, release, or snapshot identifier",
                    ),
                ),
            ),
        }
    }

    /// Sets the `path` qualifier; the bytes are stored raw.
    pub fn with_path(self, path: Vec<u8>) -> (r: Self)
        ensures
            r == (Self { path: Some(path), ..self }),
    {
        Self { path: Some(path), ..self }
    }

    /// Sets the `lines` qualifier.
    pub fn with_lines(self, start: u32, end: Option<u32>) -> (r: Self)
        ensures
            r == (Self { lines: Some((start, end)), ..self }),
    {
        Self { lines: Some((start, end)), ..self }
    }

    /// Sets the `bytes` qualifier.
    pub fn with_bytes(self, start: u32, end: Option<u32>) -> (r: Self)
        ensures
            r == (Self { bytes: Some((start, end)), ..self }),
    {
        Self { bytes: Some((start, end)), ..self }
    }

    /// The `origin` qualifier.
    pub fn origin(&self) -> (r: Option<&str>)
        ensures
            match r {
                Some(s) => self.origin matches Some(o) && s@ == o@,
                None => self.origin is None,
            },
    {
        match &self.origin {
            Some(s) => Some(s.as_str()),
            None => None,
        }
    }

    /// The `visit` qualifier.
    pub fn visit(&self) -> (r: Option<&Swhid>)
        ensures
            match r {
                Some(v) => self.visit == Some(*v),
                None => self.visit is None,
            },
    {
        match &self.visit {
            Some(v) => Some(v),
            None => None,
        }
    }

    /// The `anchor` qualifier.
    pub fn anchor(&self) -> (r: Option<&Swhid>)
        ensures
            match r {
                Some(v) => self.anchor == Some(*v),
                None => self.anchor is None,
            },
    {
        match &self.anchor {
            Some(v) => Some(v),
            None => None,
        }
    }

    /// The `path` qualifier.
    pub fn path(&self) -> (r: Option<&[u8]>)
        ensures
            match r {
                Some(p) => self.path matches Some(v) && p@ == v@,
                None => self.path is None,
            },
    {
        match &self.path {
            Some(p) => Some(p.as_slice()),
            None => None,
        }
    }

    /// The `lines` qualifier.
    pub fn lines(&self) -> (r: Option<(u32, Option<u32>)>)
        ensures
            r == self.lines,
    {
        self.lines
    }

    /// The `bytes` qualifier.
    pub fn bytes(&self) -> (r: Option<(u32, Option<u32>)>)
        ensures
            r == self.bytes,
    {
        self.bytes
    }

    /// Parses a qualified identifier: the core grammar up to the first
    /// `;`, then `key=value` qualifier pieces.  Unknown keys are errors;
    /// a repeated key overrides the earlier value.
    pub fn from_string(s: &str) -> (r: Result<Self, SwhidError>)
        ensures
            match r {
                Ok(q) => spec_parse_qualified(s.spec_bytes()) matches Ok(m) && q_matches(q, m),
                Err(e) => spec_parse_qualified(s.spec_bytes()) matches Err(k) && matches_stop(
                    e,
                    k,
                ),
            },
    {
        let b = s.as_bytes();
        let pieces = split_bytes(b, 59);
        let ghost spieces = spec_split(s.spec_bytes(), 59);
        proof {
            crate::bytes::lemma_split_len(s.spec_bytes(), 59);
            assert(pieces.deep_view()[0] == pieces@[0]@);
        }
        let inner = match parse_swhid_bytes(pieces[0].as_slice(), s) {
            Ok(c) => c,
            Err(e) => {
                return Err(e);
            },
        };
        let ghost base = spec_base_model(inner.object_type, inner.hash@);
        let mut q = QualifiedSwhid::new(inner);
        let ghost mut macc = base;
        let mut i: usize = 1;
        proof {
            assert(spieces.skip(1) =~= spieces.drop_first());
        }
        while i < pieces.len()
            invariant
                1 <= i <= pieces@.len(),
                pieces.deep_view() == spieces,
                spieces == spec_split(s.spec_bytes(), 59),
                spieces.len() >= 1,
                spec_parse_swhid(spieces[0]) == Ok::<_, ParseStop>((base.kind, base.id)),
                base == spec_base_model(base.kind, base.id),
                q_matches(q, macc),
                spec_apply_all(Ok(base), spieces.drop_first()) == spec_apply_all(
                    Ok(macc),
                    spieces.skip(i as int),
                ),
            decreases pieces@.len() - i,
        {
            proof {
                assert(pieces.deep_view()[i as int] == pieces@[i as int]@);
                assert(spieces.skip(i as int)[0] == spieces[i as int]);
                assert(spieces.skip(i as int).drop_first() =~= spieces.skip(i as int + 1));
            }
            let piece: &Vec<u8> = &pieces[i];
            q = match apply_qualifier(q, piece, s, Ghost(macc)) {
                Ok(q2) => {
                    proof {
                        macc = spec_apply_piece(macc, piece@)->Ok_0;
                    }
                    q2
                },
                Err(e) => {
                    proof {
                        let k0 = spec_apply_piece(macc, piece@)->Err_0;
                        lemma_apply_all_err(k0, spieces.skip(i as int + 1));
                    }
                    return Err(e);
                },
            };
            i = i + 1;
        }
        proof {
            assert(spieces.skip(i as int) =~= Seq::<Seq<u8>>::empty());
        }
        Ok(q)
    }
}


/// Applies one `key=value` qualifier piece to a value being built.
fn apply_qualifier(
    q: QualifiedSwhid,
    piece: &Vec<u8>,
    src: &str,
    Ghost(m): Ghost<QualifierModel>,
) -> (r: Result<QualifiedSwhid, SwhidError>)
    requires
        q_matches(q, m),
    ensures
        match r {
            Ok(q2) => spec_apply_piece(m, piece@) matches Ok(m2) && q_matches(q2, m2),
            Err(e) => spec_apply_piece(m, piece@) matches Err(k) && matches_stop(e, k),
        },
{
    let mut q = q;
    let (key, value) = match split_once_bytes(piece.as_slice(), 61) {
        Some(kv) => kv,
        None => {
            return Err(SwhidError::InvalidFormat(src.to_owned()));
        },
    };
    let k = key.as_slice();
    if k.len() == 6 && k[0] == 111 && k[1] == 114 && k[2] == 105 && k[3] == 103 && k[4] == 105
        && k[5] == 110 {
        // origin
        proof {
            assert(key@ =~= spec_key_origin());
        }
        match utf8_to_string(value) {
            Some(st) => {
                q.origin = Some(st);
                Ok(q)
            },
            None => Err(SwhidError::InvalidFormat(src.to_owned())),
        }
    } else if k.len() == 5 && k[0] == 118 && k[1] == 105 && k[2] == 115 && k[3] == 105 && k[4]
        == 116 {
        // visit
        proof {
            assert(key@ =~= spec_key_visit());
            assert(key@ != spec_key_origin());
        }
        let v = match parse_swhid_bytes(value.as_slice(), src) {
            Ok(v) => v,
            Err(e) => {
                return Err(e);
            },
        };
        if let ObjectType::Snapshot = v.object_type() {
            q.visit = Some(v);
            Ok(q)
        } else {
            Err(
                SwhidError::InvalidQualifier(
                    String::from_str("visit qualifier must be a snapshot identifier"),
                ),
            )
        }
    } else if k.len() == 6 && k[0] == 97 && k[1] == 110 && k[2] == 99 && k[3] == 104 && k[4] == 111
        && k[5] == 114 {
        // anchor
        proof {
            assert(key@ =~= spec_key_anchor());
            assert(key@ != spec_key_origin());
            assert(key@ != spec_key_visit());
        }
        let v = match parse_swhid_bytes(value.as_slice(), src) {
            Ok(v) => v,
            Err(e) => {
                return Err(e);
            },
        };
        match v.object_type() {
            ObjectType::Content => Err(
                SwhidError::InvalidQualifier(
                    String::from_str(
                        "anchor qualifier must be a directory, revision, release, or snapshot identifier",
                    ),
                ),
            ),
            _ => {
                q.anchor = Some(v);
                Ok(q)
            },
        }
    } else if k.len() == 4 && k[0] == 112 && k[1] == 97 && k[2] == 116 && k[3] == 104 {
        // path
        proof {
            assert(key@ =~= spec_key_path());
            assert(key@ != spec_key_origin());
            assert(key@ != spec_key_visit());
            assert(key@ != spec_key_anchor());
        }
        q.path = Some(value);
        Ok(q)
    } else if k.len() == 5 && k[0] == 108 && k[1] == 105 && k[2] == 110 && k[3] == 101 && k[4]
        == 115 {
        // lines
        proof {
            assert(key@ =~= spec_key_lines());
            assert(key@ != spec_key_origin());
            assert(key@ != spec_key_visit());
            assert(key@ != spec_key_anchor());
            assert(key@ != spec_key_path());
        }
        match parse_range(value.as_slice()) {
            Some(r) => {
                q.lines = Some(r);
                Ok(q)
            },
            None => Err(SwhidError::InvalidFormat(src.to_owned())),
        }
    } else if k.len() == 5 && k[0] == 98 && k[1] == 121 && k[2] == 116 && k[3] == 101 && k[4]
        == 115 {
        // bytes
        proof {
            assert(key@ =~= spec_key_bytes());
            assert(key@ != spec_key_origin());
            assert(key@ != spec_key_visit());
            assert(key@ != spec_key_anchor());
            assert(key@ != spec_key_path());
            assert(key@ != spec_key_lines());
        }
        match parse_range(value.as_slice()) {
            Some(r) => {
                q.bytes = Some(r);
                Ok(q)
            },
            None => Err(SwhidError::InvalidFormat(src.to_owned())),
        }
    } else {
        proof {
            assert(key@ != spec_key_origin());
            assert(key@ != spec_key_visit());
            assert(key@ != spec_key_anchor());
            assert(key@ != spec_key_path());
            assert(key@ != spec_key_lines());
            assert(key@ != spec_key_bytes());
        }
        Err(SwhidError::UnknownQualifier(src.to_owned()))
    }
}

/// Parses a `start` or `start-end` range of decimal numbers.
fn parse_range(v: &[u8]) -> (r: Option<(u32, Option<u32>)>)
    ensures
        r == spec_parse_range(v@),
{
    let ps = split_bytes(v, 45);
    proof {
        assert(ps.deep_view()[0] == ps@[0]@);
    }
    if ps.len() == 1 {
        match parse_u32(ps[0].as_slice()) {
            Some(a) => Some((a, None)),
            None => None,
        }
    } else if ps.len() == 2 {
        proof {
            assert(ps.deep_view()[1] == ps@[1]@);
        }
        let a = match parse_u32(ps[0].as_slice()) {
            Some(a) => a,
            None => {
                return None;
            },
        };
        let b = match parse_u32(ps[1].as_slice()) {
            Some(b) => b,
            None => {
                return None;
            },
        };
        Some((a, Some(b)))
    } else {
        None
    }
}

impl Swhid {
    /// Wraps this identifier as a qualified identifier with no
    /// qualifiers set.
    pub fn to_qualified(self) -> (r: QualifiedSwhid)
        ensures
            r.core == self,
            r.origin is None,
            r.visit is None,
            r.anchor is None,
            r.path is None,
            r.lines is None,
            r.bytes is None,
    {
        QualifiedSwhid::new(self)
    }
}

impl From<Swhid> for QualifiedSwhid {
    /// Wraps a core identifier with no qualifiers.
    fn from(swhid: Swhid) -> (r: Self) {
        Self::new(swhid)
    }
}

impl vstd::std_specs::convert::FromSpecImpl<Swhid> for QualifiedSwhid {
    open spec fn obeys_from_spec() -> bool {
        true
    }

    open spec fn from_spec(t: Swhid) -> Self {
        QualifiedSwhid {
            core: t,
            origin: None,
            visit: None,
            anchor: None,
            path: None,
            lines: None,
            bytes: None,
        }
    }
}

/// The rendered bytes of a `start` or `start-end` range.
pub open spec fn spec_range_bytes(a: u32, b: Option<u32>) -> Seq<u8> {
    spec_dec_digits(a as nat) + match b {
        Some(bb) => seq![45u8] + spec_dec_digits(bb as nat),
        None => Seq::<u8>::empty(),
    }
}

/// The `key=value` piece a qualifier contributes, if present.
pub open spec fn spec_piece_opt(key: Seq<u8>, value: Option<Seq<u8>>) -> Seq<Seq<u8>> {
    match value {
        Some(v) => seq![key + seq![61u8] + v],
        None => Seq::<Seq<u8>>::empty(),
    }
}


/// The `;`-prefixed rendering of a list of qualifier pieces.
pub open spec fn spec_tail_join(ps: Seq<Seq<u8>>) -> Seq<u8>
    decreases ps.len(),
{
    if ps.len() == 0 {
        Seq::<u8>::empty()
    } else {
        seq![59u8] + ps[0] + spec_tail_join(ps.drop_first())
    }
}

/// The piece list contributed by the `origin` qualifier.
pub open spec fn spec_chunk_origin(m: QualifierModel) -> Seq<Seq<u8>> {
    spec_piece_opt(spec_key_origin(), m.origin)
}

/// The piece list contributed by the `visit` qualifier.
pub open spec fn spec_chunk_visit(m: QualifierModel) -> Seq<Seq<u8>> {
    spec_piece_opt(
        spec_key_visit(),
        match m.visit {
            Some(ti) => Some(spec_format_swhid(ti.0, ti.1)),
            None => None,
        },
    )
}

/// The piece list contributed by the `anchor` qualifier.
pub open spec fn spec_chunk_anchor(m: QualifierModel) -> Seq<Seq<u8>> {
    spec_piece_opt(
        spec_key_anchor(),
        match m.anchor {
            Some(ti) => Some(spec_format_swhid(ti.0, ti.1)),
            None => None,
        },
    )
}

/// The piece list contributed by the `path` qualifier.
pub open spec fn spec_chunk_path(m: QualifierModel) -> Seq<Seq<u8>> {
    spec_piece_opt(
        spec_key_path(),
        match m.path {
            Some(p) => Some(lossy_utf8(p)),
            None => None,
        },
    )
}

/// The piece list contributed by the `lines` qualifier.
pub open spec fn spec_chunk_lines(m: QualifierModel) -> Seq<Seq<u8>> {
    spec_piece_opt(
        spec_key_lines(),
        match m.lines {
            Some(ab) => Some(spec_range_bytes(ab.0, ab.1)),
            None => None,
        },
    )
}

/// The piece list contributed by the `bytes` qualifier.
pub open spec fn spec_chunk_bytes(m: QualifierModel) -> Seq<Seq<u8>> {
    spec_piece_opt(
        spec_key_bytes(),
        match m.bytes {
            Some(ab) => Some(spec_range_bytes(ab.0, ab.1)),
            None => None,
        },
    )
}

/// The canonical rendering of a qualified identifier: the core
/// rendering, then one `;key=value` segment per present qualifier, in
/// the fixed order origin, visit, anchor, path, lines, bytes.
pub open spec fn spec_format_qualified(m: QualifierModel) -> Seq<u8> {
    spec_format_swhid(m.kind, m.id) + spec_tail_join(spec_chunk_origin(m)) + spec_tail_join(
        spec_chunk_visit(m),
    ) + spec_tail_join(spec_chunk_anchor(m)) + spec_tail_join(spec_chunk_path(m)) + spec_tail_join(
        spec_chunk_lines(m),
    ) + spec_tail_join(spec_chunk_bytes(m))
}

impl QualifiedSwhid {
    /// Canonical rendering: the core identifier, then each present
    /// qualifier as `;key=value` in the fixed order origin, visit,
    /// anchor, path, lines, bytes.  The path is rendered through lossy
    /// UTF-8 decoding; the stored bytes are not mutated.
    pub fn to_string(&self) -> (r: String)
        ensures
            encode_utf8(r@) == spec_format_qualified(q_model(*self)),
    {
        let ghost m = q_model(*self);
        let ghost cb = spec_format_swhid(m.kind, m.id);
        let ghost t1 = spec_tail_join(spec_chunk_origin(m));
        let ghost t2 = spec_tail_join(spec_chunk_visit(m));
        let ghost t3 = spec_tail_join(spec_chunk_anchor(m));
        let ghost t4 = spec_tail_join(spec_chunk_path(m));
        let ghost t5 = spec_tail_join(spec_chunk_lines(m));
        let ghost t6 = spec_tail_join(spec_chunk_bytes(m));
        let mut out: Vec<u8> = format_swhid_bytes(self.core.object_type, &self.core.hash);
        proof {
            lemma_format_ascii(self.core.object_type, self.core.hash@);
            lemma_ascii_valid_utf8(out@);
            assert(spec_tail_join(Seq::<Seq<u8>>::empty()) =~= Seq::<u8>::empty());
        }
        match &self.origin {
            Some(o) => {
                append_origin(&mut out, o, Ghost(m));
            },
            None => {
                proof {
                    assert(t1 =~= Seq::<u8>::empty());
                    assert(out@ =~= out@ + t1);
                }
            },
        }
        proof {
            assert(out@ =~= cb + t1);
        }
        match &self.visit {
            Some(v) => {
                append_visit(&mut out, v, Ghost(m));
            },
            None => {
                proof {
                    assert(t2 =~= Seq::<u8>::empty());
                    assert(out@ =~= out@ + t2);
                }
            },
        }
        proof {
            assert(out@ =~= cb + t1 + t2);
        }
        match &self.anchor {
            Some(v) => {
                append_anchor(&mut out, v, Ghost(m));
            },
            None => {
                proof {
                    assert(t3 =~= Seq::<u8>::empty());
                    assert(out@ =~= out@ + t3);
                }
            },
        }
        proof {
            assert(out@ =~= cb + t1 + t2 + t3);
        }
        match &self.path {
            Some(p) => {
                append_path(&mut out, p, Ghost(m));
            },
            None => {
                proof {
                    assert(t4 =~= Seq::<u8>::empty());
                    assert(out@ =~= out@ + t4);
                }
            },
        }
        proof {
            assert(out@ =~= cb + t1 + t2 + t3 + t4);
        }
        match self.lines {
            Some(ab) => {
                append_lines(&mut out, ab.0, ab.1, Ghost(m));
            },
            None => {
                proof {
                    assert(t5 =~= Seq::<u8>::empty());
                    assert(out@ =~= out@ + t5);
                }
            },
        }
        proof {
            assert(out@ =~= cb + t1 + t2 + t3 + t4 + t5);
        }
        match self.bytes {
            Some(ab) => {
                append_byte_range(&mut out, ab.0, ab.1, Ghost(m));
            },
            None => {
                proof {
                    assert(t6 =~= Seq::<u8>::empty());
                    assert(out@ =~= out@ + t6);
                }
            },
        }
        proof {
            assert(out@ =~= cb + t1 + t2 + t3 + t4 + t5 + t6);
            assert(out@ =~= spec_format_qualified(m));
        }
        let r = utf8_to_string(out);
        r.unwrap()
    }
}

/// Appends the `;origin=` segment.
fn append_origin(out: &mut Vec<u8>, o: &String, Ghost(m): Ghost<QualifierModel>)
    requires
        m.origin == Some(encode_utf8(o@)),
        valid_utf8(old(out)@),
    ensures
        final (out)@ == old(out)@ + spec_tail_join(spec_chunk_origin(m)),
        valid_utf8(final (out)@),
{
    let ghost prev = out@;
    out.push(59);
    push_all(out, slice_key_origin());
    out.push(61);
    push_all(out, o.as_str().as_bytes());
    proof {
        let piece = spec_key_origin() + seq![61u8] + encode_utf8(o@);
        let ps = spec_chunk_origin(m);
        assert(ps[0] == piece);
        assert(ps.drop_first() =~= Seq::<Seq<u8>>::empty());
        assert(spec_tail_join(Seq::<Seq<u8>>::empty()) =~= Seq::<u8>::empty());
        assert(spec_tail_join(ps) =~= seq![59u8] + piece);
        assert(out@ =~= prev + spec_tail_join(ps));
        vstd::utf8::encode_utf8_valid_utf8(o@);
        lemma_seg_valid(prev, spec_key_origin(), encode_utf8(o@));
        assert(prev + (seq![59u8] + spec_key_origin() + seq![61u8] + encode_utf8(o@)) =~= out@);
    }
}

/// Appends the `;visit=` segment.
fn append_visit(out: &mut Vec<u8>, v: &Swhid, Ghost(m): Ghost<QualifierModel>)
    requires
        m.visit == Some((v.object_type, v.hash@)),
        valid_utf8(old(out)@),
    ensures
        final (out)@ == old(out)@ + spec_tail_join(spec_chunk_visit(m)),
        valid_utf8(final (out)@),
{
    let ghost prev = out@;
    out.push(59);
    push_all(out, slice_key_visit());
    out.push(61);
    let enc = format_swhid_bytes(v.object_type, &v.hash);
    push_all(out, enc.as_slice());
    proof {
        lemma_format_ascii(v.object_type, v.hash@);
        let vb = spec_format_swhid(v.object_type, v.hash@);
        let piece = spec_key_visit() + seq![61u8] + vb;
        let ps = spec_chunk_visit(m);
        assert(ps[0] == piece);
        assert(ps.drop_first() =~= Seq::<Seq<u8>>::empty());
        assert(spec_tail_join(Seq::<Seq<u8>>::empty()) =~= Seq::<u8>::empty());
        assert(spec_tail_join(ps) =~= seq![59u8] + piece);
        assert(out@ =~= prev + spec_tail_join(ps));
        lemma_ascii_valid_utf8(vb);
        lemma_seg_valid(prev, spec_key_visit(), vb);
        assert(prev + (seq![59u8] + spec_key_visit() + seq![61u8] + vb) =~= out@);
    }
}

/// Appends the `;anchor=` segment.
fn append_anchor(out: &mut Vec<u8>, v: &Swhid, Ghost(m): Ghost<QualifierModel>)
    requires
        m.anchor == Some((v.object_type, v.hash@)),
        valid_utf8(old(out)@),
    ensures
        final (out)@ == old(out)@ + spec_tail_join(spec_chunk_anchor(m)),
        valid_utf8(final (out)@),
{
    let ghost prev = out@;
    out.push(59);
    push_all(out, slice_key_anchor());
    out.push(61);
    let enc = format_swhid_bytes(v.object_type, &v.hash);
    push_all(out, enc.as_slice());
    proof {
        lemma_format_ascii(v.object_type, v.hash@);
        let vb = spec_format_swhid(v.object_type, v.hash@);
        let piece = spec_key_anchor() + seq![61u8] + vb;
        let ps = spec_chunk_anchor(m);
        assert(ps[0] == piece);
        assert(ps.drop_first() =~= Seq::<Seq<u8>>::empty());
        assert(spec_tail_join(Seq::<Seq<u8>>::empty()) =~= Seq::<u8>::empty());
        assert(spec_tail_join(ps) =~= seq![59u8] + piece);
        assert(out@ =~= prev + spec_tail_join(ps));
        lemma_ascii_valid_utf8(vb);
        lemma_seg_valid(prev, spec_key_anchor(), vb);
        assert(prev + (seq![59u8] + spec_key_anchor() + seq![61u8] + vb) =~= out@);
    }
}

/// Appends the `;path=` segment, rendering the bytes through lossy
/// UTF-8 decoding.
fn append_path(out: &mut Vec<u8>, p: &Vec<u8>, Ghost(m): Ghost<QualifierModel>)
    requires
        m.path == Some(p@),
        valid_utf8(old(out)@),
    ensures
        final (out)@ == old(out)@ + spec_tail_join(spec_chunk_path(m)),
        valid_utf8(final (out)@),
{
    let ghost prev = out@;
    out.push(59);
    push_all(out, slice_key_path());
    out.push(61);
    let ls = lossy_to_string(p.as_slice());
    push_all(out, ls.as_str().as_bytes());
    proof {
        let vb = lossy_utf8(p@);
        let piece = spec_key_path() + seq![61u8] + vb;
        let ps = spec_chunk_path(m);
        assert(ps[0] == piece);
        assert(ps.drop_first() =~= Seq::<Seq<u8>>::empty());
        assert(spec_tail_join(Seq::<Seq<u8>>::empty()) =~= Seq::<u8>::empty());
        assert(spec_tail_join(ps) =~= seq![59u8] + piece);
        assert(out@ =~= prev + spec_tail_join(ps));
        vstd::utf8::encode_utf8_valid_utf8(ls@);
        lemma_seg_valid(prev, spec_key_path(), encode_utf8(ls@));
        assert(prev + (seq![59u8] + spec_key_path() + seq![61u8] + vb) =~= out@);
    }
}

/// Appends the `;lines=` segment.
fn append_lines(out: &mut Vec<u8>, a: u32, b: Option<u32>, Ghost(m): Ghost<QualifierModel>)
    requires
        m.lines == Some((a, b)),
        valid_utf8(old(out)@),
    ensures
        final (out)@ == old(out)@ + spec_tail_join(spec_chunk_lines(m)),
        valid_utf8(final (out)@),
{
    let ghost prev = out@;
    out.push(59);
    push_all(out, slice_key_lines());
    out.push(61);
    push_range(out, a, b);
    proof {
        let vb = spec_range_bytes(a, b);
        let piece = spec_key_lines() + seq![61u8] + vb;
        let ps = spec_chunk_lines(m);
        assert(ps[0] == piece);
        assert(ps.drop_first() =~= Seq::<Seq<u8>>::empty());
        assert(spec_tail_join(Seq::<Seq<u8>>::empty()) =~= Seq::<u8>::empty());
        assert(spec_tail_join(ps) =~= seq![59u8] + piece);
        assert(out@ =~= prev + spec_tail_join(ps));
        lemma_range_bytes_shape(a, b);
        lemma_ascii_valid_utf8(vb);
        lemma_seg_valid(prev, spec_key_lines(), vb);
        assert(prev + (seq![59u8] + spec_key_lines() + seq![61u8] + vb) =~= out@);
    }
}

/// Appends the `;bytes=` segment.
fn append_byte_range(out: &mut Vec<u8>, a: u32, b: Option<u32>, Ghost(m): Ghost<QualifierModel>)
    requires
        m.bytes == Some((a, b)),
        valid_utf8(old(out)@),
    ensures
        final (out)@ == old(out)@ + spec_tail_join(spec_chunk_bytes(m)),
        valid_utf8(final (out)@),
{
    let ghost prev = out@;
    out.push(59);
    push_all(out, slice_key_bytes());
    out.push(61);
    push_range(out, a, b);
    proof {
        let vb = spec_range_bytes(a, b);
        let piece = spec_key_bytes() + seq![61u8] + vb;
        let ps = spec_chunk_bytes(m);
        assert(ps[0] == piece);
        assert(ps.drop_first() =~= Seq::<Seq<u8>>::empty());
        assert(spec_tail_join(Seq::<Seq<u8>>::empty()) =~= Seq::<u8>::empty());
        assert(spec_tail_join(ps) =~= seq![59u8] + piece);
        assert(out@ =~= prev + spec_tail_join(ps));
        lemma_range_bytes_shape(a, b);
        lemma_ascii_valid_utf8(vb);
        lemma_seg_valid(prev, spec_key_bytes(), vb);
        assert(prev + (seq![59u8] + spec_key_bytes() + seq![61u8] + vb) =~= out@);
    }
}

/// The `origin` key bytes as a slice.
fn slice_key_origin() -> (r: &'static [u8])
    ensures
        r@ == spec_key_origin(),
{
    let r = "origin".as_bytes();
    proof {
        reveal_strlit("origin");
        assert("origin".is_ascii());
        assert(r@ =~= spec_key_origin());
    }
    r
}

/// The `visit` key bytes as a slice.
fn slice_key_visit() -> (r: &'static [u8])
    ensures
        r@ == spec_key_visit(),
{
    let r = "visit".as_bytes();
    proof {
        reveal_strlit("visit");
        assert("visit".is_ascii());
        assert(r@ =~= spec_key_visit());
    }
    r
}

/// The `anchor` key bytes as a slice.
fn slice_key_anchor() -> (r: &'static [u8])
    ensures
        r@ == spec_key_anchor(),
{
    let r = "anchor".as_bytes();
    proof {
        reveal_strlit("anchor");
        assert("anchor".is_ascii());
        assert(r@ =~= spec_key_anchor());
    }
    r
}

/// The `path` key bytes as a slice.
fn slice_key_path() -> (r: &'static [u8])
    ensures
        r@ == spec_key_path(),
{
    let r = "path".as_bytes();
    proof {
        reveal_strlit("path");
        assert("path".is_ascii());
        assert(r@ =~= spec_key_path());
    }
    r
}

/// The `lines` key bytes as a slice.
fn slice_key_lines() -> (r: &'static [u8])
    ensures
        r@ == spec_key_lines(),
{
    let r = "lines".as_bytes();
    proof {
        reveal_strlit("lines");
        assert("lines".is_ascii());
        assert(r@ =~= spec_key_lines());
    }
    r
}

/// The `bytes` key bytes as a slice.
fn slice_key_bytes() -> (r: &'static [u8])
    ensures
        r@ == spec_key_bytes(),
{
    let r = "bytes".as_bytes();
    proof {
        reveal_strlit("bytes");
        assert("bytes".is_ascii());
        assert(r@ =~= spec_key_bytes());
    }
    r
}

/// Appends the rendering of a numeric range.
fn push_range(out: &mut Vec<u8>, a: u32, b: Option<u32>)
    ensures
        final (out)@ == old(out)@ + spec_range_bytes(a, b),
{
    push_decimal(a as u64, out);
    match b {
        Some(bb) => {
            out.push(45);
            push_decimal(bb as u64, out);
            proof {
                assert(old(out)@ + spec_range_bytes(a, b) =~= ((old(out)@ + spec_dec_digits(
                    a as nat,
                )).push(45u8)) + spec_dec_digits(bb as nat));
            }
        },
        None => {
            proof {
                assert(old(out)@ + spec_range_bytes(a, b) =~= old(out)@ + spec_dec_digits(
                    a as nat,
                ));
            }
        },
    }
}

/// A rendered range holds only decimal digits and `-`.
proof fn lemma_range_bytes_shape(a: u32, b: Option<u32>)
    ensures
        forall|k: int|
            0 <= k < spec_range_bytes(a, b).len() ==> (#[trigger] spec_range_bytes(a, b)[k] < 128
                && spec_range_bytes(a, b)[k] != 59 && spec_range_bytes(a, b)[k] != 61),
{
    lemma_dec_digits_shape(a as nat);
    match b {
        Some(bb) => {
            lemma_dec_digits_shape(bb as nat);
        },
        None => {},
    }
}

/// Appending a `;key=value` segment to valid UTF-8 keeps it valid, when
/// the key is ASCII and the value is valid UTF-8.
proof fn lemma_seg_valid(pre: Seq<u8>, key: Seq<u8>, value: Seq<u8>)
    requires
        valid_utf8(pre),
        forall|k: int| 0 <= k < key.len() ==> key[k] < 128,
        valid_utf8(value),
    ensures
        valid_utf8(pre + (seq![59u8] + key + seq![61u8] + value)),
{
    let ascii = seq![59u8] + key + seq![61u8];
    assert(forall|k: int| 0 <= k < ascii.len() ==> ascii[k] < 128);
    lemma_ascii_valid_utf8(ascii);
    vstd::utf8::valid_utf8_concat(ascii, value);
    vstd::utf8::valid_utf8_concat(pre, ascii + value);
    assert(pre + (ascii + value) =~= pre + (seq![59u8] + key + seq![61u8] + value));
}

/// Tail-joining distributes over concatenation.
pub proof fn lemma_tail_join_concat(a: Seq<Seq<u8>>, b: Seq<Seq<u8>>)
    ensures
        spec_tail_join(a + b) =~= spec_tail_join(a) + spec_tail_join(b),
    decreases a.len(),
{
    if a.len() == 0 {
        assert(a + b =~= b);
        assert(spec_tail_join(a) =~= Seq::<u8>::empty());
    } else {
        assert((a + b).drop_first() =~= a.drop_first() + b);
        assert((a + b)[0] == a[0]);
        lemma_tail_join_concat(a.drop_first(), b);
    }
}


/// Splitting a separator-free head followed by `;`-joined
/// separator-free pieces gives back the head and the pieces.
pub proof fn lemma_split_head_tail(h: Seq<u8>, ps: Seq<Seq<u8>>)
    requires
        forall|k: int| 0 <= k < h.len() ==> h[k] != 59,
        forall|p: int, k: int|
            0 <= p < ps.len() && 0 <= k < ps[p].len() ==> #[trigger] ps[p][k] != 59,
    ensures
        spec_split(h + spec_tail_join(ps), 59) =~~= seq![h] + ps,
    decreases ps.len(),
{
    if ps.len() == 0 {
        assert(h + spec_tail_join(ps) =~= h);
        crate::bytes::lemma_split_whole(h, 59);
    } else {
        lemma_split_head_tail(ps[0], ps.drop_first());
        assert(h + spec_tail_join(ps) =~= h + seq![59u8] + (ps[0] + spec_tail_join(
            ps.drop_first(),
        )));
        crate::bytes::lemma_split_field(h, ps[0] + spec_tail_join(ps.drop_first()), 59);
        assert(seq![h] + (seq![ps[0]] + ps.drop_first()) =~~= seq![h] + ps);
    }
}


/// Has the byte string no `;` separator?
pub open spec fn semicolon_free(b: Seq<u8>) -> bool {
    forall|k: int| 0 <= k < b.len() ==> b[k] != 59
}

/// A model whose rendering is canonical: digests are 20 bytes, the
/// kind constraints hold, the origin is valid UTF-8, neither origin nor
/// path holds a `;`, and the path passes through lossy decoding
/// unchanged.
pub open spec fn spec_canonical_model(m: QualifierModel) -> bool {
    &&& m.id.len() == 20
    &&& match m.visit {
        Some(ti) => ti.0 == ObjectType::Snapshot && ti.1.len() == 20,
        None => true,
    }
    &&& match m.anchor {
        Some(ti) => ti.0 != ObjectType::Content && ti.1.len() == 20,
        None => true,
    }
    &&& match m.origin {
        Some(o) => valid_utf8(o) && semicolon_free(o),
        None => true,
    }
    &&& match m.path {
        Some(p) => lossy_utf8(p) == p && semicolon_free(p),
        None => true,
    }
}

/// A `key=value` piece holds no `;` when neither key nor value does.
proof fn lemma_piece_semicolon_free(key: Seq<u8>, value: Seq<u8>)
    requires
        semicolon_free(key),
        semicolon_free(value),
    ensures
        semicolon_free(key + seq![61u8] + value),
{
    let piece = key + seq![61u8] + value;
    assert forall|k: int| 0 <= k < piece.len() implies piece[k] != 59 by {
        if k < key.len() {
            assert(piece[k] == key[k]);
        } else if k == key.len() {
            assert(piece[k] == 61);
        } else {
            assert(piece[k] == value[k - key.len() - 1]);
        }
    }
}

/// The qualifier keys hold no separator bytes.
proof fn lemma_keys_shape()
    ensures
        semicolon_free(spec_key_origin()),
        semicolon_free(spec_key_visit()),
        semicolon_free(spec_key_anchor()),
        semicolon_free(spec_key_path()),
        semicolon_free(spec_key_lines()),
        semicolon_free(spec_key_bytes()),
        forall|k: int| 0 <= k < spec_key_origin().len() ==> #[trigger] spec_key_origin()[k] != 61,
        forall|k: int| 0 <= k < spec_key_visit().len() ==> #[trigger] spec_key_visit()[k] != 61,
        forall|k: int| 0 <= k < spec_key_anchor().len() ==> #[trigger] spec_key_anchor()[k] != 61,
        forall|k: int| 0 <= k < spec_key_path().len() ==> #[trigger] spec_key_path()[k] != 61,
        forall|k: int| 0 <= k < spec_key_lines().len() ==> #[trigger] spec_key_lines()[k] != 61,
        forall|k: int| 0 <= k < spec_key_bytes().len() ==> #[trigger] spec_key_bytes()[k] != 61,
{
}

/// Do all pieces of a list avoid the `;` separator?
pub open spec fn pieces_semicolon_free(ps: Seq<Seq<u8>>) -> bool {
    forall|p: int, k: int| 0 <= p < ps.len() && 0 <= k < ps[p].len() ==> #[trigger] ps[p][k] != 59
}

/// Separator-freeness is preserved by concatenation of piece lists.
proof fn lemma_pieces_free_concat(a: Seq<Seq<u8>>, b: Seq<Seq<u8>>)
    requires
        pieces_semicolon_free(a),
        pieces_semicolon_free(b),
    ensures
        pieces_semicolon_free(a + b),
{
    assert forall|p: int, k: int|
        0 <= p < (a + b).len() && 0 <= k < (a + b)[p].len() implies #[trigger] (a + b)[p][k]
        != 59 by {
        if p < a.len() {
            assert((a + b)[p] == a[p]);
        } else {
            assert((a + b)[p] == b[p - a.len()]);
        }
    }
}

/// Applying an `origin` piece sets the origin.
proof fn lemma_apply_origin(m: QualifierModel, o: Seq<u8>)
    requires
        valid_utf8(o),
    ensures
        spec_apply_piece(m, spec_key_origin() + seq![61u8] + o) == Ok::<_, ParseStop>(
            QualifierModel { origin: Some(o), ..m },
        ),
{
    lemma_keys_shape();
    lemma_split_once_join(spec_key_origin(), o, 61);
}

/// Applying a `visit` piece with a canonical snapshot value sets the
/// visit.
proof fn lemma_apply_visit(m: QualifierModel, t: ObjectType, id: Seq<u8>)
    requires
        t == ObjectType::Snapshot,
        id.len() == 20,
    ensures
        spec_apply_piece(
            m,
            spec_key_visit() + seq![61u8] + spec_format_swhid(t, id),
        ) == Ok::<_, ParseStop>(QualifierModel { visit: Some((t, id)), ..m }),
{
    lemma_keys_shape();
    lemma_split_once_join(spec_key_visit(), spec_format_swhid(t, id), 61);
    lemma_parse_format_swhid(t, id);
    assert(spec_key_visit() != spec_key_origin());
}

/// Applying an `anchor` piece with a canonical non-content value sets
/// the anchor.
proof fn lemma_apply_anchor(m: QualifierModel, t: ObjectType, id: Seq<u8>)
    requires
        t != ObjectType::Content,
        id.len() == 20,
    ensures
        spec_apply_piece(
            m,
            spec_key_anchor() + seq![61u8] + spec_format_swhid(t, id),
        ) == Ok::<_, ParseStop>(QualifierModel { anchor: Some((t, id)), ..m }),
{
    lemma_keys_shape();
    lemma_split_once_join(spec_key_anchor(), spec_format_swhid(t, id), 61);
    lemma_parse_format_swhid(t, id);
    assert(spec_key_anchor()[0] != spec_key_origin()[0]);
    assert(spec_key_anchor() != spec_key_origin());
    assert(spec_key_anchor() != spec_key_visit());
}

/// Applying a `path` piece sets the path.
proof fn lemma_apply_path(m: QualifierModel, p: Seq<u8>)
    ensures
        spec_apply_piece(m, spec_key_path() + seq![61u8] + p) == Ok::<_, ParseStop>(
            QualifierModel { path: Some(p), ..m },
        ),
{
    lemma_keys_shape();
    lemma_split_once_join(spec_key_path(), p, 61);
    assert(spec_key_path() != spec_key_origin());
    assert(spec_key_path() != spec_key_visit());
    assert(spec_key_path() != spec_key_anchor());
}

/// A rendered range parses back to its numbers.
proof fn lemma_range_roundtrip(a: u32, b: Option<u32>)
    ensures
        spec_parse_range(spec_range_bytes(a, b)) == Some((a, b)),
{
    lemma_dec_digits_shape(a as nat);
    lemma_dec_value_digits(a as nat);
    match b {
        None => {
            assert(spec_range_bytes(a, b) =~= spec_dec_digits(a as nat));
            crate::bytes::lemma_split_whole(spec_dec_digits(a as nat), 45);
        },
        Some(bb) => {
            lemma_dec_digits_shape(bb as nat);
            lemma_dec_value_digits(bb as nat);
            assert(spec_range_bytes(a, b) =~= spec_dec_digits(a as nat) + seq![45u8]
                + spec_dec_digits(bb as nat));
            crate::bytes::lemma_split_field(
                spec_dec_digits(a as nat),
                spec_dec_digits(bb as nat),
                45,
            );
            crate::bytes::lemma_split_whole(spec_dec_digits(bb as nat), 45);
        },
    }
}

/// Applying a `lines` piece with a rendered range sets the lines.
proof fn lemma_apply_lines(m: QualifierModel, a: u32, b: Option<u32>)
    ensures
        spec_apply_piece(
            m,
            spec_key_lines() + seq![61u8] + spec_range_bytes(a, b),
        ) == Ok::<_, ParseStop>(QualifierModel { lines: Some((a, b)), ..m }),
{
    lemma_keys_shape();
    lemma_split_once_join(spec_key_lines(), spec_range_bytes(a, b), 61);
    lemma_range_roundtrip(a, b);
    assert(spec_key_lines() != spec_key_origin());
    assert(spec_key_lines()[0] != spec_key_visit()[0]);
    assert(spec_key_lines() != spec_key_visit());
    assert(spec_key_lines() != spec_key_anchor());
    assert(spec_key_lines() != spec_key_path());
}

/// Applying a `bytes` piece with a rendered range sets the bytes.
proof fn lemma_apply_bytes(m: QualifierModel, a: u32, b: Option<u32>)
    ensures
        spec_apply_piece(
            m,
            spec_key_bytes() + seq![61u8] + spec_range_bytes(a, b),
        ) == Ok::<_, ParseStop>(QualifierModel { bytes: Some((a, b)), ..m }),
{
    lemma_keys_shape();
    lemma_split_once_join(spec_key_bytes(), spec_range_bytes(a, b), 61);
    lemma_range_roundtrip(a, b);
    assert(spec_key_bytes() != spec_key_origin());
    assert(spec_key_bytes()[0] != spec_key_visit()[0]);
    assert(spec_key_bytes() != spec_key_visit());
    assert(spec_key_bytes() != spec_key_anchor());
    assert(spec_key_bytes() != spec_key_path());
    assert(spec_key_bytes()[0] != spec_key_lines()[0]);
    assert(spec_key_bytes() != spec_key_lines());
}

/// Each chunk of a canonical model is free of `;`.
proof fn lemma_chunks_semicolon_free(m: QualifierModel)
    requires
        spec_canonical_model(m),
    ensures
        pieces_semicolon_free(spec_chunk_origin(m)),
        pieces_semicolon_free(spec_chunk_visit(m)),
        pieces_semicolon_free(spec_chunk_anchor(m)),
        pieces_semicolon_free(spec_chunk_path(m)),
        pieces_semicolon_free(spec_chunk_lines(m)),
        pieces_semicolon_free(spec_chunk_bytes(m)),
{
    lemma_keys_shape();
    match m.origin {
        Some(o) => {
            lemma_piece_semicolon_free(spec_key_origin(), o);
            assert(spec_chunk_origin(m)[0] == spec_key_origin() + seq![61u8] + o);
        },
        None => {},
    }
    match m.visit {
        Some(ti) => {
            lemma_format_ascii(ti.0, ti.1);
            lemma_piece_semicolon_free(spec_key_visit(), spec_format_swhid(ti.0, ti.1));
            assert(spec_chunk_visit(m)[0] == spec_key_visit() + seq![61u8] + spec_format_swhid(
                ti.0,
                ti.1,
            ));
        },
        None => {},
    }
    match m.anchor {
        Some(ti) => {
            lemma_format_ascii(ti.0, ti.1);
            lemma_piece_semicolon_free(spec_key_anchor(), spec_format_swhid(ti.0, ti.1));
            assert(spec_chunk_anchor(m)[0] == spec_key_anchor() + seq![61u8] + spec_format_swhid(
                ti.0,
                ti.1,
            ));
        },
        None => {},
    }
    match m.path {
        Some(p) => {
            lemma_piece_semicolon_free(spec_key_path(), lossy_utf8(p));
            assert(spec_chunk_path(m)[0] == spec_key_path() + seq![61u8] + lossy_utf8(p));
        },
        None => {},
    }
    match m.lines {
        Some(ab) => {
            lemma_range_bytes_shape(ab.0, ab.1);
            lemma_piece_semicolon_free(spec_key_lines(), spec_range_bytes(ab.0, ab.1));
            assert(spec_chunk_lines(m)[0] == spec_key_lines() + seq![61u8] + spec_range_bytes(
                ab.0,
                ab.1,
            ));
        },
        None => {},
    }
    match m.bytes {
        Some(ab) => {
            lemma_range_bytes_shape(ab.0, ab.1);
            lemma_piece_semicolon_free(spec_key_bytes(), spec_range_bytes(ab.0, ab.1));
            assert(spec_chunk_bytes(m)[0] == spec_key_bytes() + seq![61u8] + spec_range_bytes(
                ab.0,
                ab.1,
            ));
        },
        None => {},
    }
}

/// The nested chunk list of a model's qualifier pieces.
pub open spec fn spec_all_chunks(m: QualifierModel) -> Seq<Seq<u8>> {
    spec_chunk_origin(m) + (spec_chunk_visit(m) + (spec_chunk_anchor(m) + (spec_chunk_path(m) + (
    spec_chunk_lines(m) + spec_chunk_bytes(m)))))
}

/// The canonical rendering is the core part followed by the joined
/// qualifier pieces.
#[verifier::rlimit(100)]
proof fn lemma_format_as_tail(m: QualifierModel)
    ensures
        spec_format_qualified(m) =~= spec_format_swhid(m.kind, m.id) + spec_tail_join(
            spec_all_chunks(m),
        ),
{
    let c1 = spec_chunk_origin(m);
    let c2 = spec_chunk_visit(m);
    let c3 = spec_chunk_anchor(m);
    let c4 = spec_chunk_path(m);
    let c5 = spec_chunk_lines(m);
    let c6 = spec_chunk_bytes(m);
    lemma_tail_join_concat(c1, c2 + (c3 + (c4 + (c5 + c6))));
    lemma_tail_join_concat(c2, c3 + (c4 + (c5 + c6)));
    lemma_tail_join_concat(c3, c4 + (c5 + c6));
    lemma_tail_join_concat(c4, c5 + c6);
    lemma_tail_join_concat(c5, c6);
}

/// All qualifier pieces of a canonical model avoid the `;` separator.
proof fn lemma_all_chunks_free(m: QualifierModel)
    requires
        spec_canonical_model(m),
    ensures
        pieces_semicolon_free(spec_all_chunks(m)),
{
    let c1 = spec_chunk_origin(m);
    let c2 = spec_chunk_visit(m);
    let c3 = spec_chunk_anchor(m);
    let c4 = spec_chunk_path(m);
    let c5 = spec_chunk_lines(m);
    let c6 = spec_chunk_bytes(m);
    lemma_chunks_semicolon_free(m);
    lemma_pieces_free_concat(c5, c6);
    lemma_pieces_free_concat(c4, c5 + c6);
    lemma_pieces_free_concat(c3, c4 + (c5 + c6));
    lemma_pieces_free_concat(c2, c3 + (c4 + (c5 + c6)));
    lemma_pieces_free_concat(c1, c2 + (c3 + (c4 + (c5 + c6))));
}

/// Splitting a canonical rendering recovers the core part and the
/// qualifier pieces.
proof fn lemma_qualified_split(m: QualifierModel)
    requires
        spec_canonical_model(m),
    ensures
        spec_split(spec_format_qualified(m), 59) =~~= seq![spec_format_swhid(m.kind, m.id)]
            + spec_all_chunks(m),
{
    lemma_format_as_tail(m);
    lemma_format_ascii(m.kind, m.id);
    lemma_all_chunks_free(m);
    lemma_split_head_tail(spec_format_swhid(m.kind, m.id), spec_all_chunks(m));
}

/// Folding the qualifier pieces of a canonical model over its base
/// model rebuilds the model.
proof fn lemma_qualified_fold(m: QualifierModel)
    requires
        spec_canonical_model(m),
    ensures
        spec_apply_all(
            Ok(spec_base_model(m.kind, m.id)),
            spec_all_chunks(m),
        ) == Ok::<_, ParseStop>(m),
{
    let c1 = spec_chunk_origin(m);
    let c2 = spec_chunk_visit(m);
    let c3 = spec_chunk_anchor(m);
    let c4 = spec_chunk_path(m);
    let c5 = spec_chunk_lines(m);
    let c6 = spec_chunk_bytes(m);
    let m0 = spec_base_model(m.kind, m.id);
    let m1 = QualifierModel { origin: m.origin, ..m0 };
    let m2 = QualifierModel { visit: m.visit, ..m1 };
    let m3 = QualifierModel { anchor: m.anchor, ..m2 };
    let m4 = QualifierModel { path: m.path, ..m3 };
    let m5 = QualifierModel { lines: m.lines, ..m4 };
    let m6 = QualifierModel { bytes: m.bytes, ..m5 };
    assert(spec_apply_all(Ok(m0), c1) == Ok::<_, ParseStop>(m1)) by {
        match m.origin {
            Some(o) => {
                lemma_apply_origin(m0, o);
                assert(c1.drop_first() =~= Seq::<Seq<u8>>::empty());
                assert(spec_apply_all(spec_apply_piece(m0, c1[0]), Seq::<Seq<u8>>::empty())
                    == spec_apply_piece(m0, c1[0]));
            },
            None => {
                assert(c1 =~= Seq::<Seq<u8>>::empty());
            },
        }
    }
    assert(spec_apply_all(Ok(m1), c2) == Ok::<_, ParseStop>(m2)) by {
        match m.visit {
            Some(ti) => {
                lemma_apply_visit(m1, ti.0, ti.1);
                assert(ti == (ti.0, ti.1));
                assert(c2.drop_first() =~= Seq::<Seq<u8>>::empty());
                assert(spec_apply_all(spec_apply_piece(m1, c2[0]), Seq::<Seq<u8>>::empty())
                    == spec_apply_piece(m1, c2[0]));
            },
            None => {
                assert(c2 =~= Seq::<Seq<u8>>::empty());
            },
        }
    }
    assert(spec_apply_all(Ok(m2), c3) == Ok::<_, ParseStop>(m3)) by {
        match m.anchor {
            Some(ti) => {
                lemma_apply_anchor(m2, ti.0, ti.1);
                assert(ti == (ti.0, ti.1));
                assert(c3.drop_first() =~= Seq::<Seq<u8>>::empty());
                assert(spec_apply_all(spec_apply_piece(m2, c3[0]), Seq::<Seq<u8>>::empty())
                    == spec_apply_piece(m2, c3[0]));
            },
            None => {
                assert(c3 =~= Seq::<Seq<u8>>::empty());
            },
        }
    }
    assert(spec_apply_all(Ok(m3), c4) == Ok::<_, ParseStop>(m4)) by {
        match m.path {
            Some(p) => {
                lemma_apply_path(m3, lossy_utf8(p));
                assert(c4.drop_first() =~= Seq::<Seq<u8>>::empty());
                assert(spec_apply_all(spec_apply_piece(m3, c4[0]), Seq::<Seq<u8>>::empty())
                    == spec_apply_piece(m3, c4[0]));
            },
            None => {
                assert(c4 =~= Seq::<Seq<u8>>::empty());
            },
        }
    }
    assert(spec_apply_all(Ok(m4), c5) == Ok::<_, ParseStop>(m5)) by {
        match m.lines {
            Some(ab) => {
                lemma_apply_lines(m4, ab.0, ab.1);
                assert(ab == (ab.0, ab.1));
                assert(c5.drop_first() =~= Seq::<Seq<u8>>::empty());
                assert(spec_apply_all(spec_apply_piece(m4, c5[0]), Seq::<Seq<u8>>::empty())
                    == spec_apply_piece(m4, c5[0]));
            },
            None => {
                assert(c5 =~= Seq::<Seq<u8>>::empty());
            },
        }
    }
    assert(spec_apply_all(Ok(m5), c6) == Ok::<_, ParseStop>(m6)) by {
        match m.bytes {
            Some(ab) => {
                lemma_apply_bytes(m5, ab.0, ab.1);
                assert(ab == (ab.0, ab.1));
                assert(c6.drop_first() =~= Seq::<Seq<u8>>::empty());
                assert(spec_apply_all(spec_apply_piece(m5, c6[0]), Seq::<Seq<u8>>::empty())
                    == spec_apply_piece(m5, c6[0]));
            },
            None => {
                assert(c6 =~= Seq::<Seq<u8>>::empty());
            },
        }
    }
    lemma_apply_all_concat(Ok(m0), c1, c2 + (c3 + (c4 + (c5 + c6))));
    lemma_apply_all_concat(Ok(m1), c2, c3 + (c4 + (c5 + c6)));
    lemma_apply_all_concat(Ok(m2), c3, c4 + (c5 + c6));
    lemma_apply_all_concat(Ok(m3), c4, c5 + c6);
    lemma_apply_all_concat(Ok(m4), c5, c6);
    assert(m6 == m);
}

/// Round trip, value to string: parsing the canonical rendering of any
/// canonical model yields exactly that model.  A model is excluded only
/// when its rendering cannot be canonical: an origin or path value that
/// holds a `;`, an origin that is not valid UTF-8, or a path that lossy
/// decoding would alter.
pub proof fn lemma_parse_format_qualified(m: QualifierModel)
    requires
        spec_canonical_model(m),
    ensures
        spec_parse_qualified(spec_format_qualified(m)) == Ok::<_, ParseStop>(m),
{
    lemma_qualified_split(m);
    lemma_qualified_fold(m);
    let pieces = spec_split(spec_format_qualified(m), 59);
    assert(pieces[0] == spec_format_swhid(m.kind, m.id));
    lemma_parse_format_swhid(m.kind, m.id);
    assert(pieces.drop_first() =~= spec_all_chunks(m));
}

/// Round trip, string to string: a qualified identifier string in
/// canonical form parses, and formatting the parsed value gives the
/// string back.
pub proof fn lemma_format_parse_qualified(b: Seq<u8>)
    requires
        exists|m: QualifierModel| spec_canonical_model(m) && b == #[trigger] spec_format_qualified(
            m,
        ),
    ensures
        spec_parse_qualified(b) is Ok,
        spec_format_qualified(spec_parse_qualified(b)->Ok_0) == b,
{
    let m = choose|m: QualifierModel|
        spec_canonical_model(m) && b == #[trigger] spec_format_qualified(m);
    lemma_parse_format_qualified(m);
}

} // verus!
