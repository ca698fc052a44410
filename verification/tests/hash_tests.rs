use swhid_core::hash::hash_git_object;
use swhid_core::vcs::{release_swhid, revision_swhid, snapshot_swhid};
use swhid_core::{
    traverse_directory_recursively, Content, Directory, DirectoryEntry, EntryType, FsChild,
    FsTree, ObjectType, Permissions, Swhid, SwhidComputer, TreeObject,
};

fn file(data: &[u8]) -> FsTree {
    FsTree::File { data: data.to_vec(), executable: false }
}

fn dir(children: Vec<FsChild>) -> FsTree {
    FsTree::Dir { children }
}

fn child(name: &[u8], node: FsTree) -> FsChild {
    FsChild { name: name.to_vec(), node }
}

#[test]
fn test_content_swhid_conformance() {
    // Test that content SWHID matches expected format
    let data = b"Hello, World!";
    let content = Content::from_data(data.to_vec());
    let swhid = content.swhid();

    assert_eq!(swhid.object_type(), ObjectType::Content);
    assert_eq!(swhid.hash().len(), 20);

    // Verify SWHID format
    let swhid_str = swhid.to_string();
    assert!(swhid_str.starts_with("swh:1:cnt:"));
    assert_eq!(swhid_str.len(), 50); // swh:1:cnt: + 40 hex chars
}

#[test]
fn test_content_known_vector() {
    // Known digest for "Hello, World!" content
    let content = Content::from_data(b"Hello, World!".to_vec());
    assert_eq!(
        hex::encode(content.sha1_git()),
        "b45ef6fec89518d314f546fd6c3025367b721684"
    );
}

#[test]
fn test_content_known_vector_empty() {
    // Known digest for empty content
    let content = Content::from_data(Vec::new());
    assert_eq!(
        hex::encode(content.sha1_git()),
        "e69de29bb2d1d6434b8b29ae775ad8c2e48c5391"
    );
}

#[test]
fn test_hash_git_object_blob_layout() {
    // The canonical blob layout hashed directly gives the same digest
    // as the content object.
    let h = hash_git_object(b"blob", b"Hello, World!");
    assert_eq!(hex::encode(h), "b45ef6fec89518d314f546fd6c3025367b721684");
}

#[test]
fn test_empty_directory_known_vector() {
    // Known digest of a directory with no entries.
    let mut d = Directory::from_entries(Vec::new());
    let h = d.compute_hash();
    assert_eq!(hex::encode(h), "4b825dc642cb6eb9a060e54bf8d69288fbee4904");
    let swhid = d.swhid();
    assert_eq!(swhid.object_type(), ObjectType::Directory);
}

#[test]
fn test_directory_entry_sort_order() {
    // Entries `a`(file), `b`(dir), `c`(file), `d`(dir): the sort key is
    // the raw name with a single `/` appended for directories, compared
    // byte-wise, so the keys `a`, `b/`, `c`, `d/` order as a, b, c, d.
    let entries = vec![
        DirectoryEntry::new(b"c".to_vec(), EntryType::File, Permissions::File, [3u8; 20]),
        DirectoryEntry::new(b"b".to_vec(), EntryType::Directory, Permissions::Directory, [2u8; 20]),
        DirectoryEntry::new(b"d".to_vec(), EntryType::Directory, Permissions::Directory, [4u8; 20]),
        DirectoryEntry::new(b"a".to_vec(), EntryType::File, Permissions::File, [1u8; 20]),
    ];
    let d = Directory::from_entries(entries);
    let names: Vec<&[u8]> = d.entries().iter().map(|e| e.name.as_slice()).collect();
    assert_eq!(names, vec![&b"a"[..], &b"b"[..], &b"c"[..], &b"d"[..]]);
}

#[test]
fn test_directory_sort_slash_decides() {
    // The appended `/` matters: a directory named `a` sorts after a
    // file named `a.` (0x2f < 0x2e is false: `/` is 0x2f, `.` is 0x2e),
    // while a file named `a0` sorts after the directory (0x30 > 0x2f).
    let entries = vec![
        DirectoryEntry::new(b"a0".to_vec(), EntryType::File, Permissions::File, [1u8; 20]),
        DirectoryEntry::new(b"a".to_vec(), EntryType::Directory, Permissions::Directory, [2u8; 20]),
        DirectoryEntry::new(b"a.".to_vec(), EntryType::File, Permissions::File, [3u8; 20]),
    ];
    let d = Directory::from_entries(entries);
    let names: Vec<&[u8]> = d.entries().iter().map(|e| e.name.as_slice()).collect();
    assert_eq!(names, vec![&b"a."[..], &b"a"[..], &b"a0"[..]]);
}

#[test]
fn test_directory_hash_memoized() {
    // Recomputation is idempotent and returns the cached value.
    let entries = vec![DirectoryEntry::new(
        b"file.txt".to_vec(),
        EntryType::File,
        Permissions::File,
        [9u8; 20],
    )];
    let mut d = Directory::from_entries(entries);
    let h1 = d.compute_hash();
    let h2 = d.compute_hash();
    assert_eq!(h1, h2);
}

#[test]
fn test_permissions_values() {
    assert_eq!(Permissions::File.as_octal(), 0o100644);
    assert_eq!(Permissions::Executable.as_octal(), 0o100755);
    assert_eq!(Permissions::Symlink.as_octal(), 0o120000);
    assert_eq!(Permissions::Directory.as_octal(), 0o040000);

    assert_eq!(Permissions::from_mode(0o040755), Permissions::Directory);
    assert_eq!(Permissions::from_mode(0o120777), Permissions::Symlink);
    assert_eq!(Permissions::from_mode(0o100755), Permissions::Executable);
    assert_eq!(Permissions::from_mode(0o100644), Permissions::File);
}

#[test]
fn test_entry_type_labels() {
    assert_eq!(EntryType::File.as_str(), "file");
    assert_eq!(EntryType::Directory.as_str(), "dir");
    assert_eq!(EntryType::Symlink.as_str(), "symlink");
}

#[test]
fn test_tree_digest_deterministic() {
    // Hashing the same directory tree twice yields identical digests.
    let make = || {
        dir(vec![
            child(b"z.txt", file(b"z content")),
            child(b"a.txt", file(b"a content")),
            child(b"sub", dir(vec![child(b"inner.txt", file(b"inner"))])),
        ])
    };
    let computer = SwhidComputer::new();
    let s1 = computer.compute_tree_swhid(&make()).unwrap();
    let s2 = computer.compute_tree_swhid(&make()).unwrap();
    assert_eq!(s1, s2);
    assert_eq!(s1.object_type(), ObjectType::Directory);
}

#[test]
fn test_tree_digest_merkle_composition() {
    // The digest of a parent computed from the tree equals the digest
    // computed from an explicit entry carrying the child's digest.
    let inner = dir(vec![child(b"file.txt", file(b"payload"))]);
    let computer = SwhidComputer::new();
    let inner_swhid = computer.compute_tree_swhid(&inner).unwrap();

    let parent = dir(vec![child(b"sub", inner)]);
    let parent_swhid = computer.compute_tree_swhid(&parent).unwrap();

    let mut explicit = Directory::from_entries(vec![DirectoryEntry::new(
        b"sub".to_vec(),
        EntryType::Directory,
        Permissions::Directory,
        *inner_swhid.hash(),
    )]);
    assert_eq!(explicit.compute_hash(), *parent_swhid.hash());
}

#[test]
fn test_symlink_hashed_over_target_text() {
    // A symlink entry is encoded over its target text, not the bytes at
    // the resolved target.
    let t1 = dir(vec![
        child(b"target.txt", file(b"target content")),
        child(b"link.txt", FsTree::Symlink { target: b"target.txt".to_vec() }),
    ]);
    let computer = SwhidComputer::new();
    let objects = traverse_directory_recursively(b"root", &t1, &Vec::new());
    // root dir + link.txt + target.txt
    assert_eq!(objects.len(), 3);
    let link_content = Content::from_data(b"target.txt".to_vec());
    let mut found = false;
    for (path, obj) in objects {
        if path == b"root/link.txt".to_vec() {
            if let TreeObject::Content(c) = obj {
                assert_eq!(c.sha1_git(), link_content.sha1_git());
                found = true;
            }
        }
    }
    assert!(found);
    let _ = computer;
}

#[test]
fn test_hidden_entries_skipped() {
    let t = dir(vec![
        child(b"visible.txt", file(b"visible")),
        child(b".hidden", file(b"hidden")),
    ]);
    let objects = traverse_directory_recursively(b"top", &t, &Vec::new());
    // Only the directory and the visible file.
    assert_eq!(objects.len(), 2);
    for (path, _) in &objects {
        assert!(!String::from_utf8_lossy(path).contains(".hidden"));
    }
}

#[test]
fn test_exclusion_removes_directory_keeps_file() {
    // Excluding directory name "exclude_dir" removes it and all its
    // descendants from a recursive listing, while a file literally
    // named "exclude_dir" is untouched.
    let t = dir(vec![
        child(b"keep.txt", file(b"keep")),
        child(b"exclude.txt", file(b"exclude")),
        child(b"exclude_dir", dir(vec![child(b"file.txt", file(b"excluded"))])),
        child(b"sub", dir(vec![child(b"exclude_dir", file(b"a file, not a directory"))])),
    ]);
    let exclude = vec!["exclude_dir".to_string()];
    let objects = traverse_directory_recursively(b"root", &t, &exclude);
    let paths: Vec<String> = objects
        .iter()
        .map(|(p, _)| String::from_utf8_lossy(p).to_string())
        .collect();
    // root, exclude.txt, keep.txt, sub, sub/exclude_dir
    assert_eq!(objects.len(), 5);
    assert!(paths.contains(&"root/keep.txt".to_string()));
    assert!(paths.contains(&"root/exclude.txt".to_string()));
    assert!(paths.contains(&"root/sub/exclude_dir".to_string()));
    assert!(!paths.contains(&"root/exclude_dir".to_string()));
    assert!(!paths.iter().any(|p| p.starts_with("root/exclude_dir")));
}

#[test]
fn test_exclusion_changes_parent_digest() {
    let t = dir(vec![
        child(b"keep.txt", file(b"keep")),
        child(b"gone", dir(vec![child(b"x.txt", file(b"x"))])),
    ]);
    let plain = SwhidComputer::new();
    let excluding = SwhidComputer::new().with_exclude_patterns(vec!["gone".to_string()]);
    let a = plain.compute_tree_swhid(&t).unwrap();
    let b = excluding.compute_tree_swhid(&t).unwrap();
    assert_ne!(a, b);

    // The excluding digest equals the digest of the tree without the
    // excluded directory.
    let t2 = dir(vec![child(b"keep.txt", file(b"keep"))]);
    let c = plain.compute_tree_swhid(&t2).unwrap();
    assert_eq!(b, c);
}

#[test]
fn test_traversal_parent_precedes_children() {
    let t = dir(vec![
        child(b"b", dir(vec![child(b"inner.txt", file(b"i"))])),
        child(b"a.txt", file(b"a")),
    ]);
    let objects = traverse_directory_recursively(b"top", &t, &Vec::new());
    let paths: Vec<String> = objects
        .iter()
        .map(|(p, _)| String::from_utf8_lossy(p).to_string())
        .collect();
    // Pre-order with the tree sort order: "a.txt" precedes "b/" under
    // byte comparison, and the subdirectory expands in place.
    assert_eq!(paths, vec!["top", "top/a.txt", "top/b", "top/b/inner.txt"]);
}

#[test]
fn test_traversal_objects_have_identifiers() {
    let t = dir(vec![
        child(b"file1.txt", file(b"content 1")),
        child(b"file2.txt", file(b"content 2")),
    ]);
    let objects = traverse_directory_recursively(b"r", &t, &Vec::new());
    assert_eq!(objects.len(), 3);
    assert!(matches!(objects[0].1, TreeObject::Directory(_)));
    for (_, mut obj) in objects {
        let swhid = obj.swhid();
        assert_eq!(swhid.hash().len(), 20);
    }
}

#[test]
fn test_computer_content_swhid() {
    let computer = SwhidComputer::new();
    let swhid = computer.compute_content_swhid(b"Hello, World!").unwrap();
    assert_eq!(swhid.object_type(), ObjectType::Content);
    assert_eq!(
        hex::encode(swhid.hash()),
        "b45ef6fec89518d314f546fd6c3025367b721684"
    );
}

#[test]
fn test_computer_content_size_limit() {
    // Content above the configured maximum is rejected.
    let computer = SwhidComputer::new().with_max_content_length(Some(500));
    let large = vec![b'a'; 1000];
    assert!(computer.compute_content_swhid(&large).is_err());
    assert!(computer.compute_tree_swhid(&file(&large)).is_err());

    // A symlink whose target text exceeds the maximum is rejected too.
    let long_target = FsTree::Symlink { target: vec![b'a'; 1000] };
    assert!(computer.compute_tree_swhid(&long_target).is_err());

    // Content within the limit hashes normally.
    let small = vec![b'a'; 100];
    let ok = computer.compute_tree_swhid(&file(&small)).unwrap();
    let expected = Content::from_data(small).swhid();
    assert_eq!(ok.hash(), expected.hash());
}

#[test]
fn test_verify_roundtrip() {
    // verify(p, computeString(p)) is true.
    let t = dir(vec![child(b"f.txt", file(b"data"))]);
    let computer = SwhidComputer::new();
    let computed = computer.compute_tree_swhid(&t).unwrap();
    let ok = computer.verify_tree_swhid(&t, &computed.to_string()).unwrap();
    assert!(ok);
}

#[test]
fn test_verify_mismatch_is_false() {
    // Verifying against a well-formed but differing identifier is
    // false, not an error.
    let t = dir(vec![child(b"f.txt", file(b"data"))]);
    let computer = SwhidComputer::new();
    let wrong = Swhid::new(ObjectType::Directory, [0u8; 20]);
    let r = computer.verify_tree_swhid(&t, &wrong.to_string()).unwrap();
    assert!(!r);
}

#[test]
fn test_verify_malformed_is_error() {
    // Verifying against a malformed string is a parse error, not false.
    let t = dir(vec![child(b"f.txt", file(b"data"))]);
    let computer = SwhidComputer::new();
    assert!(computer.verify_tree_swhid(&t, "invalid-swhid").is_err());
}

#[test]
fn test_revision_swhid_shape() {
    let parents = vec![b"1111111111111111111111111111111111111111".to_vec()];
    let r1 = revision_swhid(
        b"4b825dc642cb6eb9a060e54bf8d69288fbee4904",
        &parents,
        b"A U Thor <a@example.org> 1 +0000",
        b"A U Thor <a@example.org> 1 +0000",
        b"message",
    );
    assert_eq!(r1.object_type(), ObjectType::Revision);
    let r2 = revision_swhid(
        b"4b825dc642cb6eb9a060e54bf8d69288fbee4904",
        &parents,
        b"A U Thor <a@example.org> 1 +0000",
        b"A U Thor <a@example.org> 1 +0000",
        b"message",
    );
    assert_eq!(r1, r2);
    let r3 = revision_swhid(
        b"4b825dc642cb6eb9a060e54bf8d69288fbee4904",
        &parents,
        b"A U Thor <a@example.org> 1 +0000",
        b"A U Thor <a@example.org> 1 +0000",
        b"other message",
    );
    assert_ne!(r1, r3);
}

#[test]
fn test_release_swhid_shape() {
    let r = release_swhid(
        b"2222222222222222222222222222222222222222",
        b"commit",
        b"v1.0",
        b"A U Thor <a@example.org> 1 +0000",
        b"release message",
    );
    assert_eq!(r.object_type(), ObjectType::Release);
}

#[test]
fn test_snapshot_swhid_empty_matches_layout() {
    // A snapshot of no references hashes the empty canonical record.
    let refs: Vec<(Vec<u8>, Vec<u8>)> = Vec::new();
    let s = snapshot_swhid(&refs);
    assert_eq!(s.object_type(), ObjectType::Snapshot);
    assert_eq!(*s.hash(), hash_git_object(b"snapshot", b""));
}

#[test]
fn test_snapshot_swhid_ref_lines() {
    let refs = vec![(
        b"refs/heads/main".to_vec(),
        b"3333333333333333333333333333333333333333".to_vec(),
    )];
    let s = snapshot_swhid(&refs);
    let manual = hash_git_object(
        b"snapshot",
        b"refs/heads/main 3333333333333333333333333333333333333333\n",
    );
    assert_eq!(*s.hash(), manual);
}

#[test]
fn test_unicode_entry_names_kept_raw() {
    let name = "\u{6d4b}\u{8bd5}\u{6587}\u{4ef6}.txt";
    let t = dir(vec![child(name.as_bytes(), file(b"unicode content"))]);
    let computer = SwhidComputer::new();
    let swhid = computer.compute_tree_swhid(&t).unwrap();
    assert_eq!(swhid.object_type(), ObjectType::Directory);
    let objects = traverse_directory_recursively(b"r", &t, &Vec::new());
    assert_eq!(objects.len(), 2);
}

#[test]
fn test_byte_order_sorting_not_locale() {
    // 'a' (0x61) sorts before a two-byte UTF-8 name starting 0xC3.
    let entries = vec![
        DirectoryEntry::new(
            "\u{e1}.txt".as_bytes().to_vec(),
            EntryType::File,
            Permissions::File,
            [1u8; 20],
        ),
        DirectoryEntry::new(b"z.txt".to_vec(), EntryType::File, Permissions::File, [2u8; 20]),
        DirectoryEntry::new(b"a.txt".to_vec(), EntryType::File, Permissions::File, [3u8; 20]),
    ];
    let d = Directory::from_entries(entries);
    let names: Vec<&[u8]> = d.entries().iter().map(|e| e.name.as_slice()).collect();
    assert_eq!(names[0], b"a.txt");
    assert_eq!(names[1], b"z.txt");
    assert_eq!(names[2], "\u{e1}.txt".as_bytes());
}

#[test]
fn test_oversized_content_error_variant() {
    let computer = SwhidComputer::new().with_max_content_length(Some(4));
    assert!(matches!(
        computer.compute_content_swhid(b"12345"),
        Err(swhid_core::SwhidError::InvalidInput(_))
    ));
}
