//! Canonical records for version-control objects: revisions (commits),
//! releases (tags), and snapshots, built from plain tuples and hashed
//! in the tag-length-NUL layout with a strict field order.

use vstd::prelude::*;

use crate::bytes::push_all;
use crate::hash::{hash_git_object, spec_object_digest};
use crate::swhid::{ObjectType, Swhid};

verus! {

/// One `parent <id>\n` line per parent, in order.
pub open spec fn spec_parent_lines(parents: Seq<Seq<u8>>) -> Seq<u8>
    decreases parents.len(),
{
    if parents.len() == 0 {
        Seq::<u8>::empty()
    } else {
        // "parent "
        seq![112u8, 97u8, 114u8, 101u8, 110u8, 116u8, 32u8] + parents[0] + seq![10u8]
            + spec_parent_lines(parents.drop_first())
    }
}

/// The canonical revision record: the tree line, the parent lines, the
/// author and committer lines, a blank line, then the message.
pub open spec fn spec_revision_payload(
    tree_id: Seq<u8>,
    parents: Seq<Seq<u8>>,
    author: Seq<u8>,
    committer: Seq<u8>,
    message: Seq<u8>,
) -> Seq<u8> {
    // "tree "
    seq![116u8, 114u8, 101u8, 101u8, 32u8] + tree_id + seq![10u8] + spec_parent_lines(parents)
    // "author "
     + seq![97u8, 117u8, 116u8, 104u8, 111u8, 114u8, 32u8] + author + seq![10u8]
    // "committer "
     + seq![99u8, 111u8, 109u8, 109u8, 105u8, 116u8, 116u8, 101u8, 114u8, 32u8] + committer + seq![
        10u8,
    ] + seq![10u8] + message
}

/// The canonical release record: the object line, the type line, the
/// tag line, the tagger line, a blank line, then the message.
pub open spec fn spec_release_payload(
    object_id: Seq<u8>,
    target_type: Seq<u8>,
    tag_name: Seq<u8>,
    tagger: Seq<u8>,
    message: Seq<u8>,
) -> Seq<u8> {
    // "object "
    seq![111u8, 98u8, 106u8, 101u8, 99u8, 116u8, 32u8] + object_id + seq![10u8]
    // "type "
     + seq![116u8, 121u8, 112u8, 101u8, 32u8] + target_type + seq![10u8]
    // "tag "
     + seq![116u8, 97u8, 103u8, 32u8] + tag_name + seq![10u8]
    // "tagger "
     + seq![116u8, 97u8, 103u8, 103u8, 101u8, 114u8, 32u8] + tagger + seq![10u8] + seq![10u8]
        + message
}

/// One `<name> <target>\n` line per reference, in order.
pub open spec fn spec_ref_lines(refs: Seq<(Seq<u8>, Seq<u8>)>) -> Seq<u8>
    decreases refs.len(),
{
    if refs.len() == 0 {
        Seq::<u8>::empty()
    } else {
        refs[0].0 + seq![32u8] + refs[0].1 + seq![10u8] + spec_ref_lines(refs.drop_first())
    }
}

/// Appending one parent appends one line.
proof fn lemma_parent_lines_snoc(parents: Seq<Seq<u8>>, i: int)
    requires
        0 <= i < parents.len(),
    ensures
        spec_parent_lines(parents.take(i + 1)) =~= spec_parent_lines(parents.take(i)) + seq![
            112u8, 97u8, 114u8, 101u8, 110u8, 116u8, 32u8,
        ] + parents[i] + seq![10u8],
    decreases i,
{
    if i == 0 {
        assert(parents.take(1)[0] == parents[0]);
        assert(parents.take(1).drop_first() =~= Seq::<Seq<u8>>::empty());
        assert(parents.take(0) =~= Seq::<Seq<u8>>::empty());
        assert(spec_parent_lines(Seq::<Seq<u8>>::empty()) =~= Seq::<u8>::empty());
    } else {
        lemma_parent_lines_snoc(parents.drop_first(), i - 1);
        assert(parents.drop_first().take(i) =~= parents.take(i + 1).drop_first());
        assert(parents.drop_first().take(i - 1) =~= parents.take(i).drop_first());
        assert(parents.drop_first()[i - 1] == parents[i]);
        assert(parents.take(i + 1)[0] == parents[0]);
        assert(parents.take(i)[0] == parents[0]);
    }
}

/// Appending one reference appends one line.
proof fn lemma_ref_lines_snoc(refs: Seq<(Seq<u8>, Seq<u8>)>, i: int)
    requires
        0 <= i < refs.len(),
    ensures
        spec_ref_lines(refs.take(i + 1)) =~= spec_ref_lines(refs.take(i)) + refs[i].0 + seq![32u8]
            + refs[i].1 + seq![10u8],
    decreases i,
{
    if i == 0 {
        assert(refs.take(1)[0] == refs[0]);
        assert(refs.take(1).drop_first() =~= Seq::<(Seq<u8>, Seq<u8>)>::empty());
        assert(refs.take(0) =~= Seq::<(Seq<u8>, Seq<u8>)>::empty());
        assert(spec_ref_lines(Seq::<(Seq<u8>, Seq<u8>)>::empty()) =~= Seq::<u8>::empty());
    } else {
        lemma_ref_lines_snoc(refs.drop_first(), i - 1);
        assert(refs.drop_first().take(i) =~= refs.take(i + 1).drop_first());
        assert(refs.drop_first().take(i - 1) =~= refs.take(i).drop_first());
        assert(refs.drop_first()[i - 1] == refs[i]);
        assert(refs.take(1)[0] == refs[0]);
        assert(refs.take(i + 1)[0] == refs[0]);
        assert(refs.take(i)[0] == refs[0]);
    }
}

/// The revision identifier for plain commit fields: the canonical
/// record hashed with the `commit` tag.
pub fn revision_swhid(
    tree_id: &[u8],
    parents: &Vec<Vec<u8>>,
    author: &[u8],
    committer: &[u8],
    message: &[u8],
) -> (r: Swhid)
    ensures
        r.object_type == ObjectType::Revision,
        r.hash@ == spec_object_digest(
            seq![99u8, 111u8, 109u8, 109u8, 105u8, 116u8],
            spec_revision_payload(
                tree_id@,
                parents.deep_view(),
                author@,
                committer@,
                message@,
            ),
        ),
{
    let mut buf: Vec<u8> = Vec::new();
    // "tree "
    buf.push(116);
    buf.push(114);
    buf.push(101);
    buf.push(101);
    buf.push(32);
    push_all(&mut buf, tree_id);
    buf.push(10);
    let ghost head = buf@;
    let mut i: usize = 0;
    proof {
        assert(parents.deep_view().take(0) =~= Seq::<Seq<u8>>::empty());
        assert(spec_parent_lines(Seq::<Seq<u8>>::empty()) =~= Seq::<u8>::empty());
        assert(buf@ =~= head + spec_parent_lines(parents.deep_view().take(0)));
    }
    while i < parents.len()
        invariant
            0 <= i <= parents@.len(),
            parents.deep_view().len() == parents@.len(),
            buf@ =~= head + spec_parent_lines(parents.deep_view().take(i as int)),
        decreases parents@.len() - i,
    {
        proof {
            lemma_parent_lines_snoc(parents.deep_view(), i as int);
            assert(parents.deep_view()[i as int] == parents@[i as int]@);
        }
        // "parent "
        buf.push(112);
        buf.push(97);
        buf.push(114);
        buf.push(101);
        buf.push(110);
        buf.push(116);
        buf.push(32);
        push_all(&mut buf, parents[i].as_slice());
        buf.push(10);
        proof {
            assert(buf@ =~= head + spec_parent_lines(parents.deep_view().take(i as int + 1)));
        }
        i = i + 1;
    }
    proof {
        assert(parents.deep_view().take(i as int) =~= parents.deep_view());
    }
    // "author "
    buf.push(97);
    buf.push(117);
    buf.push(116);
    buf.push(104);
    buf.push(111);
    buf.push(114);
    buf.push(32);
    push_all(&mut buf, author);
    buf.push(10);
    // "committer "
    buf.push(99);
    buf.push(111);
    buf.push(109);
    buf.push(109);
    buf.push(105);
    buf.push(116);
    buf.push(116);
    buf.push(101);
    buf.push(114);
    buf.push(32);
    push_all(&mut buf, committer);
    buf.push(10);
    buf.push(10);
    push_all(&mut buf, message);
    proof {
        assert(buf@ =~= spec_revision_payload(
            tree_id@,
            parents.deep_view(),
            author@,
            committer@,
            message@,
        ));
    }
    let tag: [u8; 6] = [99, 111, 109, 109, 105, 116];
    proof {
        assert(tag@ =~= seq![99u8, 111u8, 109u8, 109u8, 105u8, 116u8]);
    }
    let h = hash_git_object(tag.as_slice(), buf.as_slice());
    Swhid::new(ObjectType::Revision, h)
}

/// The release identifier for plain tag fields: the canonical record
/// hashed with the `tag` tag.
pub fn release_swhid(
    object_id: &[u8],
    target_type: &[u8],
    tag_name: &[u8],
    tagger: &[u8],
    message: &[u8],
) -> (r: Swhid)
    ensures
        r.object_type == ObjectType::Release,
        r.hash@ == spec_object_digest(
            seq![116u8, 97u8, 103u8],
            spec_release_payload(object_id@, target_type@, tag_name@, tagger@, message@),
        ),
{
    let mut buf: Vec<u8> = Vec::new();
    // "object "
    buf.push(111);
    buf.push(98);
    buf.push(106);
    buf.push(101);
    buf.push(99);
    buf.push(116);
    buf.push(32);
    push_all(&mut buf, object_id);
    buf.push(10);
    // "type "
    buf.push(116);
    buf.push(121);
    buf.push(112);
    buf.push(101);
    buf.push(32);
    push_all(&mut buf, target_type);
    buf.push(10);
    // "tag "
    buf.push(116);
    buf.push(97);
    buf.push(103);
    buf.push(32);
    push_all(&mut buf, tag_name);
    buf.push(10);
    // "tagger "
    buf.push(116);
    buf.push(97);
    buf.push(103);
    buf.push(103);
    buf.push(101);
    buf.push(114);
    buf.push(32);
    push_all(&mut buf, tagger);
    buf.push(10);
    buf.push(10);
    push_all(&mut buf, message);
    proof {
        assert(buf@ =~= spec_release_payload(
            object_id@,
            target_type@,
            tag_name@,
            tagger@,
            message@,
        ));
    }
    let tag: [u8; 3] = [116, 97, 103];
    proof {
        assert(tag@ =~= seq![116u8, 97u8, 103u8]);
    }
    let h = hash_git_object(tag.as_slice(), buf.as_slice());
    Swhid::new(ObjectType::Release, h)
}

/// The snapshot identifier for a list of references: one
/// `<name> <target>\n` line each, in the given order, hashed with the
/// `snapshot` tag.
pub fn snapshot_swhid(refs: &Vec<(Vec<u8>, Vec<u8>)>) -> (r: Swhid)
    ensures
        r.object_type == ObjectType::Snapshot,
        r.hash@ == spec_object_digest(
            seq![115u8, 110u8, 97u8, 112u8, 115u8, 104u8, 111u8, 116u8],
            spec_ref_lines(
                refs@.map_values(|p: (Vec<u8>, Vec<u8>)| (p.0@, p.1@)),
            ),
        ),
{
    let ghost rv = refs@.map_values(|p: (Vec<u8>, Vec<u8>)| (p.0@, p.1@));
    let mut buf: Vec<u8> = Vec::new();
    let mut i: usize = 0;
    proof {
        assert(rv.take(0) =~= Seq::<(Seq<u8>, Seq<u8>)>::empty());
        assert(spec_ref_lines(Seq::<(Seq<u8>, Seq<u8>)>::empty()) =~= Seq::<u8>::empty());
        assert(buf@ =~= spec_ref_lines(rv.take(0)));
    }
    while i < refs.len()
        invariant
            0 <= i <= refs@.len(),
            rv == refs@.map_values(|p: (Vec<u8>, Vec<u8>)| (p.0@, p.1@)),
            rv.len() == refs@.len(),
            buf@ =~= spec_ref_lines(rv.take(i as int)),
        decreases refs@.len() - i,
    {
        proof {
            lemma_ref_lines_snoc(rv, i as int);
            assert(rv[i as int] == (refs@[i as int].0@, refs@[i as int].1@));
        }
        push_all(&mut buf, refs[i].0.as_slice());
        buf.push(32);
        push_all(&mut buf, refs[i].1.as_slice());
        buf.push(10);
        proof {
            assert(buf@ =~= spec_ref_lines(rv.take(i as int + 1)));
        }
        i = i + 1;
    }
    proof {
        assert(rv.take(i as int) =~= rv);
    }
    // "snapshot"
    let tag: [u8; 8] = [115, 110, 97, 112, 115, 104, 111, 116];
    proof {
        assert(tag@ =~= seq![115u8, 110u8, 97u8, 112u8, 115u8, 104u8, 111u8, 116u8]);
    }
    let h = hash_git_object(tag.as_slice(), buf.as_slice());
    Swhid::new(ObjectType::Snapshot, h)
}

} // verus!
