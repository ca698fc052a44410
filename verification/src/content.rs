//! Content objects: a raw byte sequence digested in the canonical
//! `blob` layout.

use vstd::prelude::*;

use crate::hash::{hash_git_object, spec_object_digest};
use crate::swhid::{ObjectType, Swhid};

verus! {

/// The tag bytes of a content object: `blob`.
pub open spec fn spec_blob_tag() -> Seq<u8> {
    seq![98u8, 108u8, 111u8, 98u8]
}

/// The digest of raw content bytes: SHA-1 over `blob <len> NUL <data>`.
pub open spec fn spec_content_digest(data: Seq<u8>) -> Seq<u8> {
    spec_object_digest(spec_blob_tag(), data)
}

/// A content object: raw bytes with their digest computed on
/// construction.
#[derive(Debug, Clone)]
pub struct Content {
    data: Vec<u8>,
    hash: [u8; 20],
}

impl Content {
    /// The raw bytes.
    pub closed spec fn spec_data(&self) -> Seq<u8> {
        self.data@
    }

    /// The stored digest always matches the data.
    pub closed spec fn wf(&self) -> bool {
        self.hash@ == spec_content_digest(self.data@)
    }

    /// Builds a content object from raw bytes and computes its digest.
    pub fn from_data(data: Vec<u8>) -> (r: Content)
        ensures
            r.spec_data() == data@,
            r.wf(),
    {
        let tag: [u8; 4] = [98, 108, 111, 98];
        proof {
            assert(tag@ =~= spec_blob_tag());
        }
        let hash = hash_git_object(tag.as_slice(), data.as_slice());
        Content { data, hash }
    }

    /// The raw bytes.
    pub fn data(&self) -> (r: &[u8])
        ensures
            r@ == self.spec_data(),
    {
        self.data.as_slice()
    }

    /// The number of content bytes.
    pub fn len(&self) -> (r: usize)
        ensures
            r == self.spec_data().len(),
    {
        self.data.len()
    }

    /// The 20-byte content digest.
    pub fn sha1_git(&self) -> (r: &[u8; 20])
        requires
            self.wf(),
        ensures
            r@ == spec_content_digest(self.spec_data()),
    {
        &self.hash
    }

    /// The content identifier: kind `cnt` over the content digest.
    pub fn swhid(&self) -> (r: Swhid)
        requires
            self.wf(),
        ensures
            r.object_type == ObjectType::Content,
            r.hash@ == spec_content_digest(self.spec_data()),
    {
        Swhid::new(ObjectType::Content, self.hash)
    }
}

} // verus!
