//! Canonical object hashing: the `<tag> SP <decimal length> NUL
//! <payload>` byte layout, digested with SHA-1 into 20 bytes.

use vstd::prelude::*;

use crate::bytes::push_all;
use crate::decimal::{push_decimal, spec_dec_digits};

verus! {

/// The 20-byte SHA-1 digest of a byte string.  The digest is a function
/// of the bytes alone.
pub uninterp spec fn sha1_of(bytes: Seq<u8>) -> Seq<u8>;

/// Relies on `sha1::Sha1` through `Digest::digest`: the 20-byte SHA-1
/// digest of the input, a function of the input bytes alone.
#[verifier::external_body]
fn sha1_digest(data: &[u8]) -> (r: [u8; 20])
    ensures
        r@ == sha1_of(data@),
{
    let d = <sha1::Sha1 as sha1::Digest>::digest(data);
    let mut out = [0u8; 20];
    out.copy_from_slice(&d);
    out
}

/// The canonical byte layout that is hashed for an object: the tag, a
/// space, the decimal ASCII payload length, a NUL, then the payload.
pub open spec fn spec_git_object(tag: Seq<u8>, payload: Seq<u8>) -> Seq<u8> {
    tag + seq![32u8] + spec_dec_digits(payload.len()) + seq![0u8] + payload
}

/// Digest of the canonical layout for one object.
pub open spec fn spec_object_digest(tag: Seq<u8>, payload: Seq<u8>) -> Seq<u8> {
    sha1_of(spec_git_object(tag, payload))
}

/// Hashes one object in its canonical tag-length-NUL layout.
pub fn hash_git_object(tag: &[u8], payload: &[u8]) -> (r: [u8; 20])
    ensures
        r@ == spec_object_digest(tag@, payload@),
{
    let mut buf: Vec<u8> = Vec::new();
    push_all(&mut buf, tag);
    buf.push(32);
    push_decimal(payload.len() as u64, &mut buf);
    buf.push(0);
    push_all(&mut buf, payload);
    proof {
        assert(buf@ =~= spec_git_object(tag@, payload@));
    }
    sha1_digest(buf.as_slice())
}

} // verus!
