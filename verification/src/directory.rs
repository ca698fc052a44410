//! Directory objects and the Merkle-tree builder: entry classification,
//! the byte-wise tree sort order (directories compare with a trailing
//! `/`), the canonical `tree` encoding, and the recursive bottom-up
//! digest of a filesystem tree handed over as plain values.

use vstd::multiset::Multiset;
use vstd::prelude::*;
use vstd::string::StringSliceAdditionalSpecFns;
use vstd::seq_lib::{group_to_multiset_ensures, lemma_multiset_commutative};

use crate::bytes::{
    bytes_eq, bytes_le, bytes_le_exec, lemma_bytes_le_total, lemma_bytes_le_trans, push_all,
};
use crate::content::{spec_content_digest, Content};
use crate::hash::{hash_git_object, spec_object_digest};
use crate::swhid::{ObjectType, Swhid};

verus! {

/// The kind of a directory entry.
#[derive(Debug, Clone, Copy, PartialEq, Eq, Structural)]
pub enum EntryType {
    /// A regular or executable file.
    File,
    /// A subdirectory.
    Directory,
    /// A symbolic link, hashed over its target text.
    Symlink,
}

/// The label of an entry kind.
pub open spec fn spec_entry_label(t: EntryType) -> Seq<u8> {
    match t {
        EntryType::File => seq![102u8, 105u8, 108u8, 101u8],
        EntryType::Directory => seq![100u8, 105u8, 114u8],
        EntryType::Symlink => seq![115u8, 121u8, 109u8, 108u8, 105u8, 110u8, 107u8],
    }
}

impl EntryType {
    /// A short label for the entry kind.
    pub fn as_str(&self) -> (r: &'static str)
        ensures
            r.spec_bytes() == spec_entry_label(*self),
    {
        match self {
            EntryType::File => {
                proof {
                    reveal_strlit("file");
                }
                let r = "file";
                proof {
                    assert(r.is_ascii());
                    assert(r.spec_bytes() =~= spec_entry_label(EntryType::File));
                }
                r
            },
            EntryType::Directory => {
                proof {
                    reveal_strlit("dir");
                }
                let r = "dir";
                proof {
                    assert(r.is_ascii());
                    assert(r.spec_bytes() =~= spec_entry_label(EntryType::Directory));
                }
                r
            },
            EntryType::Symlink => {
                proof {
                    reveal_strlit("symlink");
                }
                let r = "symlink";
                proof {
                    assert(r.is_ascii());
                    assert(r.spec_bytes() =~= spec_entry_label(EntryType::Symlink));
                }
                r
            },
        }
    }
}

/// Entry permissions, using the canonical per-kind literals.
#[derive(Debug, Clone, Copy, PartialEq, Eq, Structural)]
pub enum Permissions {
    /// A regular file: `100644`.
    File,
    /// An executable file: `100755`.
    Executable,
    /// A symbolic link: `120000`.
    Symlink,
    /// A directory: `40000`.
    Directory,
}

impl Permissions {
    /// Classifies POSIX mode bits: directories and symlinks by file
    /// type, files by whether any execute bit is set.
    pub fn from_mode(mode: u32) -> (r: Self)
        ensures
            r == spec_perm_from_mode(mode),
    {
        if mode & 0o170000 == 0o040000 {
            Permissions::Directory
        } else if mode & 0o170000 == 0o120000 {
            Permissions::Symlink
        } else if mode & 0o111 != 0 {
            Permissions::Executable
        } else {
            Permissions::File
        }
    }

    /// The numeric permission value.
    pub fn as_octal(&self) -> (r: u32)
        ensures
            r == spec_perm_octal(*self),
    {
        match self {
            Permissions::File => 0o100644,
            Permissions::Executable => 0o100755,
            Permissions::Symlink => 0o120000,
            Permissions::Directory => 0o040000,
        }
    }
}

/// The permission kind denoted by POSIX mode bits.
pub open spec fn spec_perm_from_mode(mode: u32) -> Permissions {
    if mode & 0o170000 == 0o040000 {
        Permissions::Directory
    } else if mode & 0o170000 == 0o120000 {
        Permissions::Symlink
    } else if mode & 0o111 != 0 {
        Permissions::Executable
    } else {
        Permissions::File
    }
}

/// The numeric value of a permission kind.
pub open spec fn spec_perm_octal(p: Permissions) -> u32 {
    match p {
        Permissions::File => 0o100644,
        Permissions::Executable => 0o100755,
        Permissions::Symlink => 0o120000,
        Permissions::Directory => 0o040000,
    }
}

/// The fixed permission literal emitted for a permission kind, in
/// decimal ASCII octal with no leading zero.
pub open spec fn spec_perm_bytes(p: Permissions) -> Seq<u8> {
    match p {
        Permissions::File => seq![49u8, 48u8, 48u8, 54u8, 52u8, 52u8],
        Permissions::Executable => seq![49u8, 48u8, 48u8, 55u8, 53u8, 53u8],
        Permissions::Symlink => seq![49u8, 50u8, 48u8, 48u8, 48u8, 48u8],
        Permissions::Directory => seq![52u8, 48u8, 48u8, 48u8, 48u8],
    }
}

/// One directory entry: a raw name, its kind and permissions, and the
/// 20-byte digest of the object it points at.
#[derive(Debug, Clone)]
pub struct DirectoryEntry {
    /// The raw entry name.
    pub name: Vec<u8>,
    /// The entry kind.
    pub entry_type: EntryType,
    /// The entry permissions.
    pub permissions: Permissions,
    /// The 20-byte digest of the target object.
    pub target: [u8; 20],
}

/// The mathematical view of one directory entry.
pub struct EntryModel {
    /// The raw entry name.
    pub name: Seq<u8>,
    /// The entry kind.
    pub kind: EntryType,
    /// The entry permissions.
    pub perm: Permissions,
    /// The digest of the target object.
    pub target: Seq<u8>,
}

/// The model of an executable entry.
pub open spec fn entry_model(e: DirectoryEntry) -> EntryModel {
    EntryModel { name: e.name@, kind: e.entry_type, perm: e.permissions, target: e.target@ }
}

/// The models of a sequence of executable entries.
pub open spec fn models(s: Seq<DirectoryEntry>) -> Seq<EntryModel> {
    s.map_values(|e: DirectoryEntry| entry_model(e))
}

impl DirectoryEntry {
    /// Builds an entry.
    pub fn new(name: Vec<u8>, entry_type: EntryType, permissions: Permissions, target: [u8; 20]) -> (r:
        Self)
        ensures
            entry_model(r) == (EntryModel {
                name: name@,
                kind: entry_type,
                perm: permissions,
                target: target@,
            }),
    {
        Self { name, entry_type, permissions, target }
    }
}

/// The tree sort key of an entry: its name, with a single `/` appended
/// only for directory entries.  Entries are ordered by byte-wise
/// comparison of this key, never locale-aware or case-insensitive.
pub open spec fn spec_sort_key(e: EntryModel) -> Seq<u8> {
    if e.kind == EntryType::Directory {
        e.name + seq![47u8]
    } else {
        e.name
    }
}

/// Are the entries ordered by the tree sort key?
pub open spec fn entries_sorted(s: Seq<EntryModel>) -> bool {
    forall|i: int, j: int|
        0 <= i < j < s.len() ==> bytes_le(
            spec_sort_key(#[trigger] s[i]),
            spec_sort_key(#[trigger] s[j]),
        )
}

/// Inserts an entry into a sorted sequence, before the first entry
/// whose key is not smaller.
pub open spec fn spec_insert_entry(e: EntryModel, s: Seq<EntryModel>) -> Seq<EntryModel>
    decreases s.len(),
{
    if s.len() == 0 {
        seq![e]
    } else if bytes_le(spec_sort_key(e), spec_sort_key(s[0])) {
        seq![e] + s
    } else {
        seq![s[0]] + spec_insert_entry(e, s.drop_first())
    }
}

/// Sorts entries by the tree sort key (insertion sort).
pub open spec fn spec_sort_entries(s: Seq<EntryModel>) -> Seq<EntryModel>
    decreases s.len(),
{
    if s.len() == 0 {
        s
    } else {
        spec_insert_entry(s[0], spec_sort_entries(s.drop_first()))
    }
}

/// Inserting into a sorted sequence keeps it sorted and adds exactly
/// the new entry.
pub proof fn lemma_insert_entry(e: EntryModel, s: Seq<EntryModel>)
    requires
        entries_sorted(s),
    ensures
        spec_insert_entry(e, s).len() == s.len() + 1,
        spec_insert_entry(e, s).to_multiset() =~= s.to_multiset().insert(e),
        entries_sorted(spec_insert_entry(e, s)),
        forall|k: int|
            0 <= k < spec_insert_entry(e, s).len() ==> (#[trigger] spec_insert_entry(e, s)[k] == e
                || s.contains(spec_insert_entry(e, s)[k])),
    decreases s.len(),
{
    broadcast use group_to_multiset_ensures;

    let r = spec_insert_entry(e, s);
    if s.len() == 0 {
        assert(seq![e] =~= Seq::<EntryModel>::empty().push(e));
        assert(r.to_multiset() =~= s.to_multiset().insert(e));
    } else if bytes_le(spec_sort_key(e), spec_sort_key(s[0])) {
        lemma_multiset_commutative(seq![e], s);
        assert(seq![e].to_multiset() =~= Multiset::<EntryModel>::empty().insert(e));
        assert(r.to_multiset() =~= s.to_multiset().insert(e));
        assert forall|i: int, j: int| 0 <= i < j < r.len() implies bytes_le(
            spec_sort_key(r[i]),
            spec_sort_key(r[j]),
        ) by {
            if i == 0 {
                assert(r[j] == s[j - 1]);
                if j > 1 {
                    assert(bytes_le(spec_sort_key(s[0]), spec_sort_key(s[j - 1])));
                    lemma_bytes_le_trans(
                        spec_sort_key(e),
                        spec_sort_key(s[0]),
                        spec_sort_key(s[j - 1]),
                    );
                }
            } else {
                assert(r[i] == s[i - 1] && r[j] == s[j - 1]);
            }
        }
        assert forall|k: int| 0 <= k < r.len() implies (#[trigger] r[k] == e || s.contains(
            r[k],
        )) by {
            if k > 0 {
                assert(r[k] == s[k - 1]);
            }
        }
    } else {
        let rest = s.drop_first();
        assert(entries_sorted(rest)) by {
            assert(forall|i: int, j: int|
                0 <= i < j < rest.len() ==> rest[i] == s[i + 1] && rest[j] == s[j + 1]);
        }
        lemma_insert_entry(e, rest);
        let ins = spec_insert_entry(e, rest);
        lemma_bytes_le_total(spec_sort_key(e), spec_sort_key(s[0]));
        assert(bytes_le(spec_sort_key(s[0]), spec_sort_key(e)));
        // Multiset bookkeeping.
        lemma_multiset_commutative(seq![s[0]], ins);
        lemma_multiset_commutative(seq![s[0]], rest);
        assert(seq![s[0]] + rest =~= s);
        assert(seq![s[0]].to_multiset() =~= Multiset::<EntryModel>::empty().insert(s[0]));
        assert(r.to_multiset() =~= s.to_multiset().insert(e));
        // Sortedness.
        assert forall|i: int, j: int| 0 <= i < j < r.len() implies bytes_le(
            spec_sort_key(r[i]),
            spec_sort_key(r[j]),
        ) by {
            if i == 0 {
                assert(r[j] == ins[j - 1]);
                assert(ins[j - 1] == e || rest.contains(ins[j - 1]));
                if ins[j - 1] == e {
                    assert(bytes_le(spec_sort_key(s[0]), spec_sort_key(e)));
                } else {
                    let w = choose|w: int| 0 <= w < rest.len() && rest[w] == ins[j - 1];
                    assert(s[w + 1] == rest[w]);
                    assert(bytes_le(spec_sort_key(s[0]), spec_sort_key(s[w + 1])));
                }
            } else {
                assert(r[i] == ins[i - 1] && r[j] == ins[j - 1]);
            }
        }
        assert forall|k: int| 0 <= k < r.len() implies (#[trigger] r[k] == e || s.contains(
            r[k],
        )) by {
            if k == 0 {
                assert(s.contains(s[0]));
            } else {
                assert(r[k] == ins[k - 1]);
                if ins[k - 1] != e {
                    let w = choose|w: int| 0 <= w < rest.len() && rest[w] == ins[k - 1];
                    assert(s[w + 1] == rest[w]);
                    assert(s.contains(s[w + 1]));
                }
            }
        }
    }
}

/// Sorting yields a sorted permutation.
pub proof fn lemma_sort_entries(s: Seq<EntryModel>)
    ensures
        spec_sort_entries(s).len() == s.len(),
        spec_sort_entries(s).to_multiset() =~= s.to_multiset(),
        entries_sorted(spec_sort_entries(s)),
    decreases s.len(),
{
    broadcast use group_to_multiset_ensures;

    if s.len() != 0 {
        lemma_sort_entries(s.drop_first());
        lemma_insert_entry(s[0], spec_sort_entries(s.drop_first()));
        assert(seq![s[0]] + s.drop_first() =~= s);
        lemma_multiset_commutative(seq![s[0]], s.drop_first());
        assert(seq![s[0]].to_multiset() =~= Multiset::<EntryModel>::empty().insert(s[0]));
    }
}

/// The canonical byte rendering of one entry: the permission literal, a
/// space, the raw name, a NUL, then the 20-byte target digest.
pub open spec fn spec_entry_bytes(e: EntryModel) -> Seq<u8> {
    spec_perm_bytes(e.perm) + seq![32u8] + e.name + seq![0u8] + e.target
}

/// The concatenated rendering of a sequence of entries, in order.
pub open spec fn spec_entries_bytes(s: Seq<EntryModel>) -> Seq<u8>
    decreases s.len(),
{
    if s.len() == 0 {
        Seq::<u8>::empty()
    } else {
        spec_entry_bytes(s[0]) + spec_entries_bytes(s.drop_first())
    }
}

/// The tag bytes of a directory object: `tree`.
pub open spec fn spec_tree_tag() -> Seq<u8> {
    seq![116u8, 114u8, 101u8, 101u8]
}

/// The digest of a directory with the given entries in the given
/// order: SHA-1 over `tree <len> NUL <entries>`.
pub open spec fn spec_dir_digest(s: Seq<EntryModel>) -> Seq<u8> {
    spec_object_digest(spec_tree_tag(), spec_entries_bytes(s))
}

/// Appending one entry appends its rendering.
proof fn lemma_entries_bytes_snoc(s: Seq<EntryModel>, e: EntryModel)
    ensures
        spec_entries_bytes(s.push(e)) =~= spec_entries_bytes(s) + spec_entry_bytes(e),
    decreases s.len(),
{
    if s.len() == 0 {
        assert(s.push(e)[0] == e);
        assert(s.push(e).drop_first() =~= Seq::<EntryModel>::empty());
        assert(spec_entries_bytes(Seq::<EntryModel>::empty()) =~= Seq::<u8>::empty());
    } else {
        lemma_entries_bytes_snoc(s.drop_first(), e);
        assert(s.push(e)[0] == s[0]);
        assert(s.push(e).drop_first() =~= s.drop_first().push(e));
    }
}

/// A directory object: an ordered entry list and a write-once memoized
/// digest.
#[derive(Debug, Clone)]
pub struct Directory {
    entries: Vec<DirectoryEntry>,
    hash: Option<[u8; 20]>,
    path: Option<Vec<u8>>,
}

impl Directory {
    /// The models of the entries, in order.
    pub closed spec fn spec_entries(&self) -> Seq<EntryModel> {
        models(self.entries@)
    }

    /// The memoized digest, if computed.
    pub closed spec fn spec_hash(&self) -> Option<Seq<u8>> {
        match self.hash {
            Some(h) => Some(h@),
            None => None,
        }
    }

    /// The associated path bytes, if any.
    pub closed spec fn spec_path(&self) -> Option<Seq<u8>> {
        match self.path {
            Some(p) => Some(p@),
            None => None,
        }
    }

    /// A well-formed directory: when the memo is set it equals the
    /// digest of the entries.
    pub closed spec fn wf(&self) -> bool {
        match self.hash {
            Some(h) => h@ == spec_dir_digest(models(self.entries@)),
            None => true,
        }
    }

    /// Builds a directory from entries, sorting them by the tree sort
    /// key.
    pub fn from_entries(entries: Vec<DirectoryEntry>) -> (r: Directory)
        ensures
            r.spec_entries() =~= spec_sort_entries(models(entries@)),
            entries_sorted(r.spec_entries()),
            r.spec_entries().to_multiset() =~= models(entries@).to_multiset(),
            r.spec_hash() is None,
            r.spec_path() is None,
            r.wf(),
    {
        let ghost om = models(entries@);
        let sorted = sort_entries(entries);
        proof {
            lemma_sort_entries(om);
        }
        Directory { entries: sorted, hash: None, path: None }
    }

    /// The entries, in sorted order.
    pub fn entries(&self) -> (r: &[DirectoryEntry])
        ensures
            models(r@) == self.spec_entries(),
    {
        self.entries.as_slice()
    }

    /// Sets the associated path bytes.
    pub fn set_path(&mut self, path: Vec<u8>)
        ensures
            final (self).spec_path() == Some(path@),
            final (self).spec_entries() == old(self).spec_entries(),
            final (self).spec_hash() == old(self).spec_hash(),
            old(self).wf() ==> final (self).wf(),
    {
        self.path = Some(path);
    }

    /// The associated path bytes, if any.
    pub fn path(&self) -> (r: Option<&[u8]>)
        ensures
            match r {
                Some(p) => self.spec_path() == Some(p@),
                None => self.spec_path() is None,
            },
    {
        match &self.path {
            Some(p) => Some(p.as_slice()),
            None => None,
        }
    }

    /// Computes the directory digest over the entries in their current
    /// order, memoizing it.  Recomputation returns the cached value, so
    /// the call is idempotent.
    pub fn compute_hash(&mut self) -> (r: [u8; 20])
        requires
            old(self).wf(),
        ensures
            r@ == spec_dir_digest(old(self).spec_entries()),
            final (self).wf(),
            final (self).spec_entries() == old(self).spec_entries(),
            final (self).spec_path() == old(self).spec_path(),
            final (self).spec_hash() == Some(r@),
    {
        if let Some(h) = self.hash {
            return h;
        }
        let mut payload: Vec<u8> = Vec::new();
        let mut i: usize = 0;
        proof {
            assert(self.entries@.take(0).map_values(|e: DirectoryEntry| entry_model(e))
                =~= Seq::<EntryModel>::empty());
            assert(spec_entries_bytes(Seq::<EntryModel>::empty()) =~= Seq::<u8>::empty());
        }
        while i < self.entries.len()
            invariant
                *self == *old(self),
                0 <= i <= self.entries@.len(),
                payload@ == spec_entries_bytes(models(self.entries@.take(i as int))),
            decreases self.entries@.len() - i,
        {
            let e = &self.entries[i];
            let ghost before = payload@;
            match e.permissions {
                Permissions::File => {
                    // "100644"
                    payload.push(49);
                    payload.push(48);
                    payload.push(48);
                    payload.push(54);
                    payload.push(52);
                    payload.push(52);
                },
                Permissions::Executable => {
                    // "100755"
                    payload.push(49);
                    payload.push(48);
                    payload.push(48);
                    payload.push(55);
                    payload.push(53);
                    payload.push(53);
                },
                Permissions::Symlink => {
                    // "120000"
                    payload.push(49);
                    payload.push(50);
                    payload.push(48);
                    payload.push(48);
                    payload.push(48);
                    payload.push(48);
                },
                Permissions::Directory => {
                    // "40000"
                    payload.push(52);
                    payload.push(48);
                    payload.push(48);
                    payload.push(48);
                    payload.push(48);
                },
            }
            payload.push(32);
            push_all(&mut payload, e.name.as_slice());
            payload.push(0);
            push_all(&mut payload, e.target.as_slice());
            proof {
                assert(payload@ =~= before + spec_entry_bytes(entry_model(self.entries@[i as int])));
                lemma_entries_bytes_snoc(
                    models(self.entries@.take(i as int)),
                    entry_model(self.entries@[i as int]),
                );
                assert(models(self.entries@.take(i as int)).push(
                    entry_model(self.entries@[i as int]),
                ) =~= models(self.entries@.take(i as int + 1)));
            }
            i = i + 1;
        }
        proof {
            assert(self.entries@.take(i as int) =~= self.entries@);
        }
        let tag: [u8; 4] = [116, 114, 101, 101];
        proof {
            assert(tag@ =~= spec_tree_tag());
        }
        let h = hash_git_object(tag.as_slice(), payload.as_slice());
        self.hash = Some(h);
        h
    }

    /// The directory identifier: kind `dir` over the directory digest.
    pub fn swhid(&mut self) -> (r: Swhid)
        requires
            old(self).wf(),
        ensures
            r.object_type == ObjectType::Directory,
            r.hash@ == spec_dir_digest(old(self).spec_entries()),
            final (self).wf(),
            final (self).spec_entries() == old(self).spec_entries(),
    {
        let hash = self.compute_hash();
        Swhid::new(ObjectType::Directory, hash)
    }
}

/// Sorts entries by the tree sort key (insertion sort, stable on the
/// model level: the result's models are exactly the sorted models).
fn sort_entries(entries: Vec<DirectoryEntry>) -> (r: Vec<DirectoryEntry>)
    ensures
        models(r@) =~= spec_sort_entries(models(entries@)),
    decreases entries@.len(),
{
    let ghost om = models(entries@);
    let mut es = entries;
    if es.len() == 0 {
        proof {
            assert(models(es@) =~= Seq::<EntryModel>::empty());
        }
        return es;
    }
    let first = es.remove(0);
    proof {
        assert(models(es@) =~= om.drop_first());
        assert(om[0] == entry_model(first));
    }
    let rest = sort_entries(es);
    let r = insert_entry(first, rest);
    r
}

/// The sort key of an entry as bytes.
fn entry_key(e: &DirectoryEntry) -> (r: Vec<u8>)
    ensures
        r@ == spec_sort_key(entry_model(*e)),
{
    let mut k: Vec<u8> = Vec::new();
    push_all(&mut k, e.name.as_slice());
    if let EntryType::Directory = e.entry_type {
        k.push(47);
        proof {
            assert(k@ =~= entry_model(*e).name + seq![47u8]);
        }
    } else {
        proof {
            assert(k@ =~= entry_model(*e).name);
        }
    }
    k
}

/// Inserts an entry into a sorted vector before the first entry whose
/// key is not smaller.
fn insert_entry(e: DirectoryEntry, sorted: Vec<DirectoryEntry>) -> (r: Vec<DirectoryEntry>)
    ensures
        models(r@) =~= spec_insert_entry(entry_model(e), models(sorted@)),
    decreases sorted@.len(),
{
    let ghost sm = models(sorted@);
    let mut es = sorted;
    if es.len() == 0 {
        let mut r: Vec<DirectoryEntry> = Vec::new();
        r.push(e);
        proof {
            assert(models(r@) =~= seq![entry_model(e)]);
        }
        return r;
    }
    let ke = entry_key(&e);
    let k0 = entry_key(&es[0]);
    if bytes_le_exec(ke.as_slice(), k0.as_slice()) {
        es.insert(0, e);
        proof {
            assert(models(es@) =~= seq![entry_model(e)] + sm);
        }
        return es;
    }
    let first = es.remove(0);
    proof {
        assert(models(es@) =~= sm.drop_first());
        assert(sm[0] == entry_model(first));
    }
    let rest = insert_entry(e, es);
    let mut r = rest;
    r.insert(0, first);
    proof {
        assert(models(r@) =~= seq![entry_model(first)] + spec_insert_entry(
            entry_model(e),
            sm.drop_first(),
        ));
    }
    r
}

/// One child of a directory node handed to the builder: a raw name and
/// the subtree behind it.
pub struct FsChild {
    /// The raw entry name.
    pub name: Vec<u8>,
    /// The node behind the name.
    pub node: FsTree,
}

/// A filesystem subtree as plain values: file bytes with an executable
/// flag, a symbolic link's target text, or a directory's children.
pub enum FsTree {
    /// A regular file's contents, with its execute permission.
    File {
        /// The file bytes.
        data: Vec<u8>,
        /// Whether an execute bit is set.
        executable: bool,
    },
    /// A symbolic link: the raw bytes of its target text.
    Symlink {
        /// The link target text.
        target: Vec<u8>,
    },
    /// A directory and its children, in any order.
    Dir {
        /// The children of the directory.
        children: Vec<FsChild>,
    },
}

/// The view of a pattern list: each pattern as its UTF-8 bytes.
pub open spec fn spec_patterns(ps: Seq<String>) -> Seq<Seq<u8>> {
    ps.map_values(|s: String| vstd::utf8::encode_utf8(s@))
}

/// Is a child kept by the walk?  Names starting with `.` are skipped;
/// a directory whose name exactly matches an exclusion pattern is
/// skipped; files are never pattern-excluded.
pub open spec fn spec_keep_child(c: FsChild, exclude: Seq<Seq<u8>>) -> bool {
    &&& !(c.name@.len() > 0 && c.name@[0] == 46)
    &&& !(c.node is Dir && exclude.contains(c.name@))
}

/// The entry kind of a node.
pub open spec fn spec_node_kind(t: FsTree) -> EntryType {
    match t {
        FsTree::File { .. } => EntryType::File,
        FsTree::Symlink { .. } => EntryType::Symlink,
        FsTree::Dir { .. } => EntryType::Directory,
    }
}

/// The permissions of a node.
pub open spec fn spec_node_perm(t: FsTree) -> Permissions {
    match t {
        FsTree::File { executable, .. } => if executable {
            Permissions::Executable
        } else {
            Permissions::File
        },
        FsTree::Symlink { .. } => Permissions::Symlink,
        FsTree::Dir { .. } => Permissions::Directory,
    }
}

/// The digest of a node: file and link contents hash as `blob` objects
/// (a link over its target text), a directory as a `tree` object over
/// its kept children, sorted by the tree sort key, with each child's
/// digest computed recursively.
pub open spec fn spec_tree_digest(t: FsTree, exclude: Seq<Seq<u8>>) -> Seq<u8>
    decreases t, 0int,
{
    match t {
        FsTree::File { data, .. } => spec_content_digest(data@),
        FsTree::Symlink { target } => spec_content_digest(target@),
        FsTree::Dir { children } => spec_dir_digest(
            spec_sort_entries(spec_child_models(children@, exclude)),
        ),
    }
}

/// The entry models of the kept children, in the given order.
pub open spec fn spec_child_models(cs: Seq<FsChild>, exclude: Seq<Seq<u8>>) -> Seq<EntryModel>
    decreases cs, 1int,
{
    if cs.len() == 0 {
        Seq::<EntryModel>::empty()
    } else {
        let rest = spec_child_models(cs.drop_first(), exclude);
        if spec_keep_child(cs[0], exclude) {
            seq![spec_child_entry(cs[0], exclude)] + rest
        } else {
            rest
        }
    }
}

/// The entry model of one kept child.
pub open spec fn spec_child_entry(c: FsChild, exclude: Seq<Seq<u8>>) -> EntryModel
    decreases c, 2int,
{
    EntryModel {
        name: c.name@,
        kind: spec_node_kind(c.node),
        perm: spec_node_perm(c.node),
        target: spec_tree_digest(c.node, exclude),
    }
}

/// Hashes raw bytes as a `blob` object.
fn blob_digest(data: &[u8]) -> (r: [u8; 20])
    ensures
        r@ == spec_content_digest(data@),
{
    let tag: [u8; 4] = [98, 108, 111, 98];
    proof {
        assert(tag@ =~= crate::content::spec_blob_tag());
    }
    hash_git_object(tag.as_slice(), data)
}

/// Does the name match one of the exclusion patterns exactly?
fn is_excluded(name: &[u8], patterns: &Vec<String>) -> (r: bool)
    ensures
        r == spec_patterns(patterns@).contains(name@),
{
    let mut i: usize = 0;
    while i < patterns.len()
        invariant
            0 <= i <= patterns@.len(),
            forall|k: int| 0 <= k < i ==> spec_patterns(patterns@)[k] != name@,
        decreases patterns@.len() - i,
    {
        if bytes_eq(patterns[i].as_str().as_bytes(), name) {
            proof {
                assert(spec_patterns(patterns@)[i as int] == name@);
            }
            return true;
        }
        i = i + 1;
    }
    proof {
        if spec_patterns(patterns@).contains(name@) {
            let w = choose|w: int|
                0 <= w < spec_patterns(patterns@).len() && spec_patterns(patterns@)[w] == name@;
            assert(spec_patterns(patterns@)[w] != name@);
        }
    }
    false
}

/// Appending one child appends its model when kept.
proof fn lemma_child_models_snoc(cs: Seq<FsChild>, i: int, exclude: Seq<Seq<u8>>)
    requires
        0 <= i < cs.len(),
    ensures
        spec_child_models(cs.take(i + 1), exclude) =~= spec_child_models(cs.take(i), exclude) + (
        if spec_keep_child(cs[i], exclude) {
            seq![spec_child_entry(cs[i], exclude)]
        } else {
            Seq::<EntryModel>::empty()
        }),
    decreases i,
{
    if i == 0 {
        assert(cs.take(1)[0] == cs[0]);
        assert(cs.take(1).drop_first() =~= Seq::<FsChild>::empty());
        assert(cs.take(0) =~= Seq::<FsChild>::empty());
        assert(spec_child_models(Seq::<FsChild>::empty(), exclude) =~= Seq::<EntryModel>::empty());
    } else {
        lemma_child_models_snoc(cs.drop_first(), i - 1, exclude);
        assert(cs.drop_first().take(i) =~= cs.take(i + 1).drop_first());
        assert(cs.drop_first().take(i - 1) =~= cs.take(i).drop_first());
        assert(cs.drop_first()[i - 1] == cs[i]);
        assert(cs.take(i + 1)[0] == cs[0]);
        assert(cs.take(i)[0] == cs[0]);
    }
}

/// Computes the digest of a node.
pub fn tree_digest(t: &FsTree, exclude_patterns: &Vec<String>) -> (r: [u8; 20])
    ensures
        r@ == spec_tree_digest(*t, spec_patterns(exclude_patterns@)),
    decreases *t, 0int,
{
    match t {
        FsTree::File { data, .. } => blob_digest(data.as_slice()),
        FsTree::Symlink { target } => blob_digest(target.as_slice()),
        FsTree::Dir { children } => {
            let entries = build_entries(children, exclude_patterns);
            let mut dir = Directory::from_entries(entries);
            dir.compute_hash()
        },
    }
}

/// Builds the sorted-ready entry list for the kept children, computing
/// each child's digest recursively.
fn build_entries(children: &Vec<FsChild>, exclude_patterns: &Vec<String>) -> (r: Vec<
    DirectoryEntry,
>)
    ensures
        models(r@) =~= spec_child_models(children@, spec_patterns(exclude_patterns@)),
    decreases children@, 1int,
{
    let ghost excl = spec_patterns(exclude_patterns@);
    let mut out: Vec<DirectoryEntry> = Vec::new();
    let mut i: usize = 0;
    proof {
        assert(children@.take(0) =~= Seq::<FsChild>::empty());
        assert(spec_child_models(Seq::<FsChild>::empty(), excl) =~= Seq::<EntryModel>::empty());
        assert(models(out@) =~= Seq::<EntryModel>::empty());
    }
    while i < children.len()
        invariant
            0 <= i <= children@.len(),
            excl == spec_patterns(exclude_patterns@),
            models(out@) =~= spec_child_models(children@.take(i as int), excl),
        decreases children@.len() - i,
    {
        let c = &children[i];
        proof {
            lemma_child_models_snoc(children@, i as int, excl);
        }
        let hidden = c.name.len() > 0 && c.name[0] == 46;
        let mut keep = !hidden;
        if keep {
            if let FsTree::Dir { .. } = &c.node {
                if is_excluded(c.name.as_slice(), exclude_patterns) {
                    keep = false;
                }
            }
        }
        proof {
            assert(keep == spec_keep_child(children@[i as int], excl));
        }
        if keep {
            let ghost before = models(out@);
            let name = clone_bytes(c.name.as_slice());
            let (entry_type, permissions, target): (EntryType, Permissions, [u8; 20]) = match &c
                .node {
                FsTree::File { data, executable } => {
                    let p = if *executable {
                        Permissions::Executable
                    } else {
                        Permissions::File
                    };
                    (EntryType::File, p, blob_digest(data.as_slice()))
                },
                FsTree::Symlink { target } => (
                    EntryType::Symlink,
                    Permissions::Symlink,
                    blob_digest(target.as_slice()),
                ),
                FsTree::Dir { .. } => {
                    proof {
                        assert(decreases_to!(children@, 1int => children@[i as int], 2int));
                    }
                    let d = tree_digest(&c.node, exclude_patterns);
                    (EntryType::Directory, Permissions::Directory, d)
                },
            };
            out.push(DirectoryEntry { name, entry_type, permissions, target });
            proof {
                assert(models(out@) =~= before.push(
                    spec_child_entry(children@[i as int], excl),
                ));
                assert(before.push(spec_child_entry(children@[i as int], excl)) =~= before + seq![
                    spec_child_entry(children@[i as int], excl),
                ]);
            }
        }
        i = i + 1;
    }
    proof {
        assert(children@.take(i as int) =~= children@);
    }
    out
}

/// Copies a byte slice into a fresh vector.
fn clone_bytes(v: &[u8]) -> (r: Vec<u8>)
    ensures
        r@ == v@,
{
    let mut out: Vec<u8> = Vec::new();
    push_all(&mut out, v);
    proof {
        assert(Seq::<u8>::empty() + v@ =~= v@);
    }
    out
}

impl Directory {
    /// Builds the directory object for a directory node: its kept
    /// children, classified, with recursively computed digests, sorted
    /// by the tree sort key.  The digest memo starts unset.
    pub fn from_tree(children: &Vec<FsChild>, exclude_patterns: &Vec<String>) -> (r: Directory)
        ensures
            r.spec_entries() =~= spec_sort_entries(
                spec_child_models(children@, spec_patterns(exclude_patterns@)),
            ),
            entries_sorted(r.spec_entries()),
            r.spec_hash() is None,
            r.wf(),
    {
        let entries = build_entries(children, exclude_patterns);
        Directory::from_entries(entries)
    }
}

/// Hashing a fixed tree is deterministic: the digest depends only on
/// the tree and the exclusion set, so two walks of equal trees agree at
/// every node.
pub proof fn lemma_tree_digest_deterministic(
    t1: FsTree,
    t2: FsTree,
    exclude: Seq<Seq<u8>>,
)
    requires
        t1 == t2,
    ensures
        spec_tree_digest(t1, exclude) == spec_tree_digest(t2, exclude),
{
}

/// Exclusion is name-only and type-sensitive: an excluded name
/// contributes no directory entry to a directory's listing, whatever
/// subtree stood behind it.
pub proof fn lemma_excluded_directory_absent(
    cs: Seq<FsChild>,
    exclude: Seq<Seq<u8>>,
    name: Seq<u8>,
)
    requires
        exclude.contains(name),
    ensures
        forall|i: int|
            0 <= i < spec_child_models(cs, exclude).len() ==> !((#[trigger] spec_child_models(
                cs,
                exclude,
            )[i]).kind == EntryType::Directory && spec_child_models(cs, exclude)[i].name == name),
    decreases cs.len(),
{
    if cs.len() != 0 {
        lemma_excluded_directory_absent(cs.drop_first(), exclude, name);
        let ms = spec_child_models(cs, exclude);
        let rest = spec_child_models(cs.drop_first(), exclude);
        assert forall|i: int| 0 <= i < ms.len() implies !((#[trigger] ms[i]).kind
            == EntryType::Directory && ms[i].name == name) by {
            if spec_keep_child(cs[0], exclude) {
                if i == 0 {
                    assert(ms[0] == spec_child_entry(cs[0], exclude));
                    if ms[0].kind == EntryType::Directory && ms[0].name == name {
                        assert(spec_node_kind(cs[0].node) == EntryType::Directory);
                        assert(cs[0].node is Dir);
                        assert(cs[0].name@ == name);
                        assert(!spec_keep_child(cs[0], exclude));
                    }
                } else {
                    assert(ms[i] == rest[i - 1]);
                }
            } else {
                assert(ms[i] == rest[i]);
            }
        }
    }
}

/// A kept child is never dropped: its entry stands in the listing.  In
/// particular a file whose name matches an exclusion pattern is
/// untouched, since only directories are pattern-excluded.
pub proof fn lemma_kept_child_present(cs: Seq<FsChild>, exclude: Seq<Seq<u8>>, w: int)
    requires
        0 <= w < cs.len(),
        spec_keep_child(cs[w], exclude),
    ensures
        exists|i: int|
            0 <= i < spec_child_models(cs, exclude).len() && #[trigger] spec_child_models(
                cs,
                exclude,
            )[i] == spec_child_entry(cs[w], exclude),
    decreases w,
{
    let ms = spec_child_models(cs, exclude);
    let rest = spec_child_models(cs.drop_first(), exclude);
    if w == 0 {
        assert(ms[0] == spec_child_entry(cs[0], exclude));
    } else {
        lemma_kept_child_present(cs.drop_first(), exclude, w - 1);
        assert(cs.drop_first()[w - 1] == cs[w]);
        let i = choose|i: int|
            0 <= i < rest.len() && #[trigger] rest[i] == spec_child_entry(
                cs.drop_first()[w - 1],
                exclude,
            );
        if spec_keep_child(cs[0], exclude) {
            assert(ms[i + 1] == rest[i]);
        } else {
            assert(ms[i] == rest[i]);
        }
    }
}


/// The height of a node: directories are one above their tallest kept
/// or unkept child.
pub open spec fn tree_height(t: FsTree) -> nat
    decreases t, 0int,
{
    match t {
        FsTree::File { .. } => 0,
        FsTree::Symlink { .. } => 0,
        FsTree::Dir { children } => 1 + children_height(children@),
    }
}

/// The height of the tallest node in a child list.
pub open spec fn children_height(cs: Seq<FsChild>) -> nat
    decreases cs, 1int,
{
    if cs.len() == 0 {
        0
    } else {
        let h0 = tree_height(cs[0].node);
        let hr = children_height(cs.drop_first());
        if h0 > hr {
            h0
        } else {
            hr
        }
    }
}

/// Every child is at most as tall as the list's height.
proof fn lemma_child_height(cs: Seq<FsChild>, w: int)
    requires
        0 <= w < cs.len(),
    ensures
        tree_height(cs[w].node) <= children_height(cs),
    decreases cs.len(),
{
    if w > 0 {
        lemma_child_height(cs.drop_first(), w - 1);
        assert(cs.drop_first()[w - 1] == cs[w]);
    }
}

/// One element of a recursive listing: the path, whether it is a
/// directory, and its digest.
pub struct FlatModel {
    /// The full path of the object.
    pub path: Seq<u8>,
    /// Whether the object is a directory.
    pub dir: bool,
    /// The 20-byte digest of the object.
    pub digest: Seq<u8>,
}

/// The first child with the given name, if any.
pub open spec fn spec_find_child(cs: Seq<FsChild>, name: Seq<u8>) -> Option<FsTree>
    decreases cs.len(),
{
    if cs.len() == 0 {
        None
    } else if cs[0].name@ == name {
        Some(cs[0].node)
    } else {
        spec_find_child(cs.drop_first(), name)
    }
}

/// A found node is the node of some child.
proof fn lemma_find_child_is_child(cs: Seq<FsChild>, name: Seq<u8>)
    requires
        spec_find_child(cs, name) is Some,
    ensures
        exists|w: int| 0 <= w < cs.len() && #[trigger] cs[w].node == spec_find_child(cs, name)->0,
    decreases cs.len(),
{
    if cs.len() > 0 && cs[0].name@ != name {
        lemma_find_child_is_child(cs.drop_first(), name);
        let w = choose|w: int|
            0 <= w < cs.drop_first().len() && #[trigger] cs.drop_first()[w].node == spec_find_child(
                cs.drop_first(),
                name,
            )->0;
        assert(cs[w + 1].node == spec_find_child(cs, name)->0);
    }
}

/// The flattened listing of a node: the object itself first, then, for
/// a directory, each sorted entry's object in order, parents strictly
/// before children.
pub open spec fn spec_flatten(prefix: Seq<u8>, t: FsTree, exclude: Seq<Seq<u8>>) -> Seq<FlatModel>
    decreases t, 0int, 0int,
{
    match t {
        FsTree::File { data, .. } => seq![
            FlatModel { path: prefix, dir: false, digest: spec_content_digest(data@) },
        ],
        FsTree::Symlink { target } => seq![
            FlatModel { path: prefix, dir: false, digest: spec_content_digest(target@) },
        ],
        FsTree::Dir { children } => {
            let names = spec_sort_entries(spec_child_models(children@, exclude)).map_values(
                |m: EntryModel| m.name,
            );
            seq![
                FlatModel { path: prefix, dir: true, digest: spec_tree_digest(t, exclude) },
            ] + spec_flatten_list(prefix, children@, names, exclude)
        },
    }
}

/// The flattened listing of the named entries of one directory, in
/// order: each name's child object, recursing into subdirectories.
pub open spec fn spec_flatten_list(
    prefix: Seq<u8>,
    cs: Seq<FsChild>,
    names: Seq<Seq<u8>>,
    exclude: Seq<Seq<u8>>,
) -> Seq<FlatModel>
    decreases cs, 1int, names.len(),
    when true
    via spec_flatten_list_decreases
{
    if names.len() == 0 {
        Seq::<FlatModel>::empty()
    } else {
        let rest = spec_flatten_list(prefix, cs, names.drop_first(), exclude);
        match spec_find_child(cs, names[0]) {
            None => rest,
            Some(node) => spec_flatten(prefix + seq![47u8] + names[0], node, exclude) + rest,
        }
    }
}

#[via_fn]
proof fn spec_flatten_list_decreases(
    prefix: Seq<u8>,
    cs: Seq<FsChild>,
    names: Seq<Seq<u8>>,
    exclude: Seq<Seq<u8>>,
) {
    if names.len() != 0 {
        match spec_find_child(cs, names[0]) {
            None => {},
            Some(node) => {
                lemma_find_child_is_child(cs, names[0]);
                let w = choose|w: int| 0 <= w < cs.len() && #[trigger] cs[w].node == node;
                assert(decreases_to!(cs => cs[w]));
                assert(decreases_to!(cs[w] => cs[w].node));
                assert(decreases_to!(cs, 1int, names.len() => node, 0int, 0int));
            },
        }
    }
}

/// Does an emitted item carry exactly the path and digest of a model?
pub open spec fn flat_matches(item: (Vec<u8>, TreeObject), fm: FlatModel) -> bool {
    &&& item.0@ == fm.path
    &&& match item.1 {
        TreeObject::Content(c) => !fm.dir && c.wf() && spec_content_digest(c.spec_data())
            == fm.digest,
        TreeObject::Directory(d) => fm.dir && d.wf() && d.spec_hash() == Some(fm.digest),
    }
}

/// Do the emitted items match the models, one for one and in order?
pub open spec fn flats_match(items: Seq<(Vec<u8>, TreeObject)>, fms: Seq<FlatModel>) -> bool {
    &&& items.len() == fms.len()
    &&& forall|i: int| 0 <= i < items.len() ==> flat_matches(#[trigger] items[i], fms[i])
}

/// An object in a recursive listing: either content or a directory.
#[derive(Debug)]
pub enum TreeObject {
    /// A content object.
    Content(Content),
    /// A directory object.
    Directory(Directory),
}

impl TreeObject {
    /// A well-formed object: its stored digest matches its data.
    pub open spec fn wf(&self) -> bool {
        match self {
            TreeObject::Content(c) => c.wf(),
            TreeObject::Directory(d) => d.wf(),
        }
    }

    /// The identifier of the object: a content identifier for content,
    /// a directory identifier for a directory.
    pub fn swhid(&mut self) -> (r: Swhid)
        requires
            old(self).wf(),
        ensures
            final (self).wf(),
            match *old(self) {
                TreeObject::Content(c) => r.object_type == ObjectType::Content && r.hash@
                    == spec_content_digest(c.spec_data()),
                TreeObject::Directory(d) => r.object_type == ObjectType::Directory && r.hash@
                    == spec_dir_digest(d.spec_entries()),
            },
    {
        match self {
            TreeObject::Content(c) => c.swhid(),
            TreeObject::Directory(d) => d.swhid(),
        }
    }
}

/// Finds the first child with the given name.
fn find_child<'a>(children: &'a Vec<FsChild>, name: &[u8]) -> (r: Option<&'a FsTree>)
    ensures
        match r {
            Some(x) => spec_find_child(children@, name@) == Some(*x),
            None => spec_find_child(children@, name@) is None,
        },
{
    let mut i: usize = 0;
    while i < children.len()
        invariant
            0 <= i <= children@.len(),
            forall|k: int| 0 <= k < i ==> (#[trigger] children@[k]).name@ != name@,
        decreases children@.len() - i,
    {
        if bytes_eq(children[i].name.as_slice(), name) {
            proof {
                lemma_find_child_at(children@, name@, i as int);
            }
            return Some(&children[i].node);
        }
        i = i + 1;
    }
    proof {
        lemma_find_child_none(children@, name@);
    }
    None
}

/// The first matching index decides the found child.
proof fn lemma_find_child_at(cs: Seq<FsChild>, name: Seq<u8>, i: int)
    requires
        0 <= i < cs.len(),
        cs[i].name@ == name,
        forall|k: int| 0 <= k < i ==> (#[trigger] cs[k]).name@ != name,
    ensures
        spec_find_child(cs, name) == Some(cs[i].node),
    decreases i,
{
    if i > 0 {
        assert(cs[0].name@ != name);
        lemma_find_child_at(cs.drop_first(), name, i - 1);
        assert(cs.drop_first()[i - 1] == cs[i]);
    }
}

/// Without a matching name nothing is found.
proof fn lemma_find_child_none(cs: Seq<FsChild>, name: Seq<u8>)
    requires
        forall|k: int| 0 <= k < cs.len() ==> (#[trigger] cs[k]).name@ != name,
    ensures
        spec_find_child(cs, name) is None,
    decreases cs.len(),
{
    if cs.len() > 0 {
        lemma_find_child_none(cs.drop_first(), name);
    }
}

/// The names of a directory's entries, in order.
fn entry_names(d: &Directory) -> (r: Vec<Vec<u8>>)
    ensures
        r.deep_view() =~= d.spec_entries().map_values(|m: EntryModel| m.name),
{
    let entries = d.entries();
    let mut out: Vec<Vec<u8>> = Vec::new();
    let mut i: usize = 0;
    while i < entries.len()
        invariant
            0 <= i <= entries@.len(),
            models(entries@) == d.spec_entries(),
            out.deep_view() =~~= models(entries@).map_values(|m: EntryModel| m.name).take(i as int),
        decreases entries@.len() - i,
    {
        let ghost before = out.deep_view();
        out.push(clone_bytes(entries[i].name.as_slice()));
        proof {
            assert(out.deep_view() =~~= before.push(entries@[i as int].name@));
        }
        i = i + 1;
    }
    proof {
        assert(models(entries@).map_values(|m: EntryModel| m.name).take(i as int) =~= models(
            entries@,
        ).map_values(|m: EntryModel| m.name));
    }
    out
}

/// Extending the name list extends the flattened listing.
proof fn lemma_flatten_list_snoc(
    prefix: Seq<u8>,
    cs: Seq<FsChild>,
    names: Seq<Seq<u8>>,
    i: int,
    exclude: Seq<Seq<u8>>,
)
    requires
        0 <= i < names.len(),
    ensures
        spec_flatten_list(prefix, cs, names.take(i + 1), exclude) =~= spec_flatten_list(
            prefix,
            cs,
            names.take(i),
            exclude,
        ) + (match spec_find_child(cs, names[i]) {
            None => Seq::<FlatModel>::empty(),
            Some(node) => spec_flatten(prefix + seq![47u8] + names[i], node, exclude),
        }),
    decreases i,
{
    if i == 0 {
        assert(names.take(1)[0] == names[0]);
        assert(names.take(1).drop_first() =~= Seq::<Seq<u8>>::empty());
        assert(names.take(0) =~= Seq::<Seq<u8>>::empty());
        assert(spec_flatten_list(prefix, cs, Seq::<Seq<u8>>::empty(), exclude)
            =~= Seq::<FlatModel>::empty());
    } else {
        lemma_flatten_list_snoc(prefix, cs, names.drop_first(), i - 1, exclude);
        assert(names.drop_first().take(i) =~= names.take(i + 1).drop_first());
        assert(names.drop_first().take(i - 1) =~= names.take(i).drop_first());
        assert(names.drop_first()[i - 1] == names[i]);
        assert(names.take(i + 1)[0] == names[0]);
        assert(names.take(i)[0] == names[0]);
    }
}

/// Walks one node, appending its flattened listing to `out`.
fn traverse_node(
    prefix: &[u8],
    t: &FsTree,
    exclude_patterns: &Vec<String>,
    out: &mut Vec<(Vec<u8>, TreeObject)>,
)
    ensures
        final (out)@.len() == old(out)@.len() + spec_flatten(
            prefix@,
            *t,
            spec_patterns(exclude_patterns@),
        ).len(),
        final (out)@.take(old(out)@.len() as int) =~= old(out)@,
        flats_match(
            final (out)@.skip(old(out)@.len() as int),
            spec_flatten(prefix@, *t, spec_patterns(exclude_patterns@)),
        ),
    decreases tree_height(*t),
{
    let ghost excl = spec_patterns(exclude_patterns@);
    let ghost base = out@.len() as int;
    match t {
        FsTree::File { data, .. } => {
            let c = Content::from_data(clone_bytes(data.as_slice()));
            out.push((clone_bytes(prefix), TreeObject::Content(c)));
        },
        FsTree::Symlink { target } => {
            let c = Content::from_data(clone_bytes(target.as_slice()));
            out.push((clone_bytes(prefix), TreeObject::Content(c)));
        },
        FsTree::Dir { children } => {
            let mut dir = Directory::from_tree(children, exclude_patterns);
            let h = dir.compute_hash();
            dir.set_path(clone_bytes(prefix));
            let names = entry_names(&dir);
            let ghost snames = spec_sort_entries(spec_child_models(children@, excl)).map_values(
                |m: EntryModel| m.name,
            );
            proof {
                assert(names.deep_view() =~~= snames);
            }
            out.push((clone_bytes(prefix), TreeObject::Directory(dir)));
            let ghost dirflat = seq![
                FlatModel { path: prefix@, dir: true, digest: spec_tree_digest(*t, excl) },
            ];
            proof {
                assert(flats_match(out@.skip(base), dirflat + spec_flatten_list(
                    prefix@,
                    children@,
                    snames.take(0),
                    excl,
                ))) by {
                    assert(snames.take(0) =~= Seq::<Seq<u8>>::empty());
                    assert(spec_flatten_list(prefix@, children@, Seq::<Seq<u8>>::empty(), excl)
                        =~= Seq::<FlatModel>::empty());
                    assert(out@.skip(base).len() == 1);
                }
            }
            let mut i: usize = 0;
            while i < names.len()
                invariant
                    0 <= i <= names@.len(),
                    excl == spec_patterns(exclude_patterns@),
                    *t == (FsTree::Dir { children: *children }),
                    names.deep_view() =~~= snames,
                    out@.len() >= base + 1,
                    out@.take(base) =~= old(out)@,
                    base == old(out)@.len(),
                    flats_match(out@.skip(base), dirflat + spec_flatten_list(
                        prefix@,
                        children@,
                        snames.take(i as int),
                        excl,
                    )),
                decreases names@.len() - i,
            {
                proof {
                    lemma_flatten_list_snoc(prefix@, children@, snames, i as int, excl);
                    assert(names.deep_view()[i as int] == names@[i as int]@);
                }
                let name = &names[i];
                let mut child_path = clone_bytes(prefix);
                child_path.push(47);
                push_all(&mut child_path, name.as_slice());
                proof {
                    assert(child_path@ =~= prefix@ + seq![47u8] + snames[i as int]);
                }
                match find_child(children, name.as_slice()) {
                    None => {
                        proof {
                            assert(snames.take(i as int + 1) =~= snames.take(i as int).push(
                                snames[i as int],
                            ));
                        }
                    },
                    Some(node) => {
                        proof {
                            lemma_find_child_is_child(children@, snames[i as int]);
                            let w = choose|w: int|
                                0 <= w < children@.len() && #[trigger] children@[w].node == *node;
                            lemma_child_height(children@, w);
                            assert(tree_height(*t) == 1 + children_height(children@));
                            assert(tree_height(*node) < tree_height(*t));
                        }
                        let ghost mid = out@;
                        traverse_node(child_path.as_slice(), node, exclude_patterns, out);
                        proof {
                            assert(out@.take(base) =~= mid.take(base));
                            assert(out@.skip(base).len() == mid.skip(base).len() + spec_flatten(
                                child_path@,
                                *node,
                                excl,
                            ).len());
                            assert(out@.skip(base) =~= mid.skip(base) + out@.skip(mid.len() as int));
                        }
                    },
                }
                i = i + 1;
            }
            proof {
                assert(snames.take(names@.len() as int) =~= snames);
            }
        },
    }
}

/// Recursively lists a tree: the directory object itself first, then
/// each sorted entry's object, with subdirectories expanded in place,
/// so a parent strictly precedes its children and sibling order is the
/// tree sort order.  The root path prefixes every emitted path.
pub fn traverse_directory_recursively(
    root_path: &[u8],
    tree: &FsTree,
    exclude_patterns: &Vec<String>,
) -> (r: Vec<(Vec<u8>, TreeObject)>)
    ensures
        flats_match(r@, spec_flatten(root_path@, *tree, spec_patterns(exclude_patterns@))),
{
    let mut out: Vec<(Vec<u8>, TreeObject)> = Vec::new();
    traverse_node(root_path, tree, exclude_patterns, &mut out);
    proof {
        assert(out@.skip(0) =~= out@);
    }
    out
}

} // verus!
