//! The orchestrator: a plain configuration value with compute and
//! verify operations over content bytes and filesystem trees.

use vstd::prelude::*;
use vstd::string::StringSliceAdditionalSpecFns;

use crate::bytes::bytes_eq;
use crate::content::{spec_content_digest, Content};
use crate::directory::{tree_digest, FsTree};
use crate::error::SwhidError;
use crate::swhid::{
    matches_stop, spec_format_swhid, spec_parse_swhid, ObjectType, ParseStop, Swhid,
};

verus! {

/// Is a byte count within the configured maximum, when one is set?
pub open spec fn spec_within_limit(len: nat, max: Option<u64>) -> bool {
    match max {
        Some(m) => len <= m,
        None => true,
    }
}

/// Configuration for identifier computation: whether a symlinked root
/// is dereferenced, exact-match exclusion names for directories, and an
/// optional maximum content length.
pub struct SwhidComputer {
    follow_symlinks: bool,
    exclude_patterns: Vec<String>,
    max_content_length: Option<u64>,
}

impl SwhidComputer {
    /// Whether a symlinked root path is dereferenced.
    pub closed spec fn spec_follow_symlinks(&self) -> bool {
        self.follow_symlinks
    }

    /// The exclusion patterns as byte strings.
    pub closed spec fn spec_excludes(&self) -> Seq<Seq<u8>> {
        crate::directory::spec_patterns(self.exclude_patterns@)
    }

    /// The configured maximum content length.
    pub closed spec fn spec_max(&self) -> Option<u64> {
        self.max_content_length
    }

    /// The default configuration: follow symlinks, no exclusions, no
    /// content length limit.
    pub fn new() -> (r: Self)
        ensures
            r.spec_follow_symlinks(),
            r.spec_excludes() =~= Seq::<Seq<u8>>::empty(),
            r.spec_max() is None,
    {
        let r = Self { follow_symlinks: true, exclude_patterns: Vec::new(), max_content_length: None };
        proof {
            assert(r.spec_excludes() =~= Seq::<Seq<u8>>::empty());
        }
        r
    }

    /// Sets whether a symlinked root is dereferenced.
    pub fn with_follow_symlinks(self, follow: bool) -> (r: Self)
        ensures
            r.spec_follow_symlinks() == follow,
            r.spec_excludes() == self.spec_excludes(),
            r.spec_max() == self.spec_max(),
    {
        Self { follow_symlinks: follow, ..self }
    }

    /// Sets the exact-match exclusion names.
    pub fn with_exclude_patterns(self, patterns: Vec<String>) -> (r: Self)
        ensures
            r.spec_follow_symlinks() == self.spec_follow_symlinks(),
            r.spec_excludes() == crate::directory::spec_patterns(patterns@),
            r.spec_max() == self.spec_max(),
    {
        Self { exclude_patterns: patterns, ..self }
    }

    /// Sets the maximum content length.
    pub fn with_max_content_length(self, max: Option<u64>) -> (r: Self)
        ensures
            r.spec_follow_symlinks() == self.spec_follow_symlinks(),
            r.spec_excludes() == self.spec_excludes(),
            r.spec_max() == max,
    {
        Self { max_content_length: max, ..self }
    }

    /// Whether a symlinked root path is dereferenced.
    pub fn follow_symlinks(&self) -> (r: bool)
        ensures
            r == self.spec_follow_symlinks(),
    {
        self.follow_symlinks
    }

    /// The exclusion patterns.
    pub fn exclude_patterns(&self) -> (r: &Vec<String>)
        ensures
            crate::directory::spec_patterns(r@) == self.spec_excludes(),
    {
        &self.exclude_patterns
    }

    /// Computes the content identifier for raw bytes.  Content larger
    /// than the configured maximum is rejected, never silently hashed.
    pub fn compute_content_swhid(&self, content: &[u8]) -> (r: Result<Swhid, SwhidError>)
        ensures
            match r {
                Ok(sw) => spec_within_limit(content@.len(), self.spec_max()) && sw.object_type
                    == ObjectType::Content && sw.hash@ == spec_content_digest(content@),
                Err(e) => !spec_within_limit(content@.len(), self.spec_max())
                    && e is InvalidInput,
            },
    {
        if let Some(m) = self.max_content_length {
            if content.len() as u64 > m {
                return Err(
                    SwhidError::InvalidInput(
                        String::from_str("content exceeds the configured maximum length"),
                    ),
                );
            }
        }
        let mut data: Vec<u8> = Vec::new();
        crate::bytes::push_all(&mut data, content);
        proof {
            assert(data@ =~= content@);
        }
        let c = Content::from_data(data);
        Ok(c.swhid())
    }

    /// Computes the identifier of a tree node: a file or a symbolic
    /// link's target text as content (subject to the length limit), a
    /// directory through the Merkle-tree builder with this
    /// configuration's exclusion names.
    pub fn compute_tree_swhid(&self, tree: &FsTree) -> (r: Result<Swhid, SwhidError>)
        ensures
            match r {
                Ok(sw) => match *tree {
                    FsTree::File { data, .. } => spec_within_limit(data@.len(), self.spec_max())
                        && sw.object_type == ObjectType::Content && sw.hash@
                        == spec_content_digest(data@),
                    FsTree::Symlink { target } => spec_within_limit(target@.len(), self.spec_max())
                        && sw.object_type == ObjectType::Content && sw.hash@
                        == spec_content_digest(target@),
                    FsTree::Dir { .. } => sw.object_type == ObjectType::Directory && sw.hash@
                        == crate::directory::spec_tree_digest(*tree, self.spec_excludes()),
                },
                Err(e) => match *tree {
                    FsTree::File { data, .. } => !spec_within_limit(data@.len(), self.spec_max())
                        && e is InvalidInput,
                    FsTree::Symlink { target } => !spec_within_limit(
                        target@.len(),
                        self.spec_max(),
                    ) && e is InvalidInput,
                    FsTree::Dir { .. } => false,
                },
            },
    {
        match tree {
            FsTree::File { data, .. } => self.compute_content_swhid(data.as_slice()),
            FsTree::Symlink { target } => self.compute_content_swhid(target.as_slice()),
            FsTree::Dir { .. } => {
                let h = tree_digest(tree, &self.exclude_patterns);
                Ok(Swhid::new(ObjectType::Directory, h))
            },
        }
    }

    /// Verifies a computed tree against an expected identifier string.
    /// The string is parsed first: a malformed string is a parse error,
    /// surfaced distinctly, and nothing is recomputed.  Otherwise the
    /// computed identifier is compared structurally.
    pub fn verify_tree_swhid(&self, tree: &FsTree, expected: &str) -> (r: Result<
        bool,
        SwhidError,
    >)
        ensures
            match r {
                Ok(b) => {
                    &&& spec_parse_swhid(expected.spec_bytes()) matches Ok(ti)
                    &&& match *tree {
                        FsTree::File { data, .. } => spec_within_limit(
                            data@.len(),
                            self.spec_max(),
                        ) && b == (ti.0 == ObjectType::Content && ti.1 == spec_content_digest(
                            data@,
                        )),
                        FsTree::Symlink { target } => spec_within_limit(
                            target@.len(),
                            self.spec_max(),
                        ) && b == (ti.0 == ObjectType::Content && ti.1 == spec_content_digest(
                            target@,
                        )),
                        FsTree::Dir { .. } => b == (ti.0 == ObjectType::Directory && ti.1
                            == crate::directory::spec_tree_digest(*tree, self.spec_excludes())),
                    }
                },
                Err(e) => (spec_parse_swhid(expected.spec_bytes()) matches Err(k) && matches_stop(
                    e,
                    k,
                )) || (spec_parse_swhid(expected.spec_bytes()) is Ok && e is InvalidInput
                    && match *tree {
                    FsTree::File { data, .. } => !spec_within_limit(data@.len(), self.spec_max()),
                    FsTree::Symlink { target } => !spec_within_limit(
                        target@.len(),
                        self.spec_max(),
                    ),
                    FsTree::Dir { .. } => false,
                }),
            },
    {
        let parsed = match Swhid::from_string(expected) {
            Ok(p) => p,
            Err(e) => {
                return Err(e);
            },
        };
        let actual = match self.compute_tree_swhid(tree) {
            Ok(a) => a,
            Err(e) => {
                return Err(e);
            },
        };
        let same_type = match (actual.object_type(), parsed.object_type()) {
            (ObjectType::Content, ObjectType::Content) => true,
            (ObjectType::Directory, ObjectType::Directory) => true,
            (ObjectType::Revision, ObjectType::Revision) => true,
            (ObjectType::Release, ObjectType::Release) => true,
            (ObjectType::Snapshot, ObjectType::Snapshot) => true,
            _ => false,
        };
        Ok(same_type && bytes_eq(actual.hash().as_slice(), parsed.hash().as_slice()))
    }
}

/// Verification law: a computed identifier verifies against its own
/// canonical rendering, and the rendering of any other kind or digest
/// parses to a value that compares unequal, so verification is false
/// rather than an error for a well-formed but differing identifier.
pub proof fn lemma_verify_self(t: ObjectType, id: Seq<u8>)
    requires
        id.len() == 20,
    ensures
        spec_parse_swhid(spec_format_swhid(t, id)) == Ok::<_, ParseStop>((t, id)),
        forall|t2: ObjectType, id2: Seq<u8>|
            id2.len() == 20 && (t2 != t || id2 != id) ==> spec_parse_swhid(
                #[trigger] spec_format_swhid(t2, id2),
            ) != Ok::<_, ParseStop>((t, id)),
{
    crate::swhid::lemma_parse_format_swhid(t, id);
    assert forall|t2: ObjectType, id2: Seq<u8>|
        id2.len() == 20 && (t2 != t || id2 != id) implies spec_parse_swhid(
        #[trigger] spec_format_swhid(t2, id2),
    ) != Ok::<_, ParseStop>((t, id)) by {
        crate::swhid::lemma_parse_format_swhid(t2, id2);
    }
}

} // verus!
