use swhid_core::{ObjectType, QualifiedSwhid, Swhid, SwhidError};

#[test]
fn test_qualified_swhid_new() {
    let core = Swhid::new(ObjectType::Content, [0u8; 20]);
    let qualified = QualifiedSwhid::new(core.clone());

    assert_eq!(qualified.core_swhid(), &core);
    assert_eq!(qualified.origin(), None);
    assert_eq!(qualified.visit(), None);
    assert_eq!(qualified.anchor(), None);
    assert_eq!(qualified.path(), None);
    assert_eq!(qualified.lines(), None);
    assert_eq!(qualified.bytes(), None);
}

#[test]
fn test_qualified_swhid_with_origin() {
    let core = Swhid::new(ObjectType::Content, [0u8; 20]);
    let qualified = QualifiedSwhid::new(core)
        .with_origin("https://github.com/user/repo".to_string());

    assert_eq!(qualified.origin(), Some("https://github.com/user/repo"));
}

#[test]
fn test_qualified_swhid_with_visit() {
    let core = Swhid::new(ObjectType::Content, [0u8; 20]);
    let visit = Swhid::new(ObjectType::Snapshot, [1u8; 20]);

    let qualified = QualifiedSwhid::new(core)
        .with_visit(visit.clone()).unwrap();

    assert_eq!(qualified.visit(), Some(&visit));
}

#[test]
fn test_qualified_swhid_with_invalid_visit() {
    let core = Swhid::new(ObjectType::Content, [0u8; 20]);
    let invalid_visit = Swhid::new(ObjectType::Content, [1u8; 20]);

    let result = QualifiedSwhid::new(core)
        .with_visit(invalid_visit);

    assert!(result.is_err());
}

#[test]
fn test_qualified_swhid_with_anchor() {
    let core = Swhid::new(ObjectType::Content, [0u8; 20]);
    let anchor = Swhid::new(ObjectType::Directory, [1u8; 20]);

    let qualified = QualifiedSwhid::new(core)
        .with_anchor(anchor.clone()).unwrap();

    assert_eq!(qualified.anchor(), Some(&anchor));
}

#[test]
fn test_qualified_swhid_with_invalid_anchor() {
    let core = Swhid::new(ObjectType::Content, [0u8; 20]);
    let invalid_anchor = Swhid::new(ObjectType::Content, [1u8; 20]);

    let result = QualifiedSwhid::new(core)
        .with_anchor(invalid_anchor);

    assert!(result.is_err());
}

#[test]
fn test_qualified_swhid_with_path() {
    let core = Swhid::new(ObjectType::Content, [0u8; 20]);
    let path = b"/src/main.rs".to_vec();

    let qualified = QualifiedSwhid::new(core)
        .with_path(path.clone());

    assert_eq!(qualified.path(), Some(path.as_slice()));
}

#[test]
fn test_qualified_swhid_with_lines() {
    let core = Swhid::new(ObjectType::Content, [0u8; 20]);

    // Single line
    let qualified = QualifiedSwhid::new(core.clone())
        .with_lines(10, None);
    assert_eq!(qualified.lines(), Some((10, None)));

    // Line range
    let qualified = QualifiedSwhid::new(core)
        .with_lines(10, Some(20));
    assert_eq!(qualified.lines(), Some((10, Some(20))));
}

#[test]
fn test_qualified_swhid_with_bytes() {
    let core = Swhid::new(ObjectType::Content, [0u8; 20]);

    // Single byte
    let qualified = QualifiedSwhid::new(core.clone())
        .with_bytes(10, None);
    assert_eq!(qualified.bytes(), Some((10, None)));

    // Byte range
    let qualified = QualifiedSwhid::new(core)
        .with_bytes(10, Some(20));
    assert_eq!(qualified.bytes(), Some((10, Some(20))));
}

#[test]
fn test_qualified_swhid_display() {
    let core = Swhid::new(ObjectType::Content, [0u8; 20]);
    let qualified = QualifiedSwhid::new(core)
        .with_origin("https://github.com/user/repo".to_string())
        .with_path(b"/src/main.rs".to_vec())
        .with_lines(10, Some(20))
        .with_bytes(5, Some(10));

    let expected = "swh:1:cnt:0000000000000000000000000000000000000000;origin=https://github.com/user/repo;path=/src/main.rs;lines=10-20;bytes=5-10";
    assert_eq!(qualified.to_string(), expected);
}

#[test]
fn test_qualified_swhid_from_string() {
    let s = "swh:1:cnt:0000000000000000000000000000000000000000;origin=https://github.com/user/repo;path=/src/main.rs;lines=10-20;bytes=5-10";
    let qualified = QualifiedSwhid::from_string(s).unwrap();

    assert_eq!(qualified.origin(), Some("https://github.com/user/repo"));
    assert_eq!(qualified.path(), Some(b"/src/main.rs".as_slice()));
    assert_eq!(qualified.lines(), Some((10, Some(20))));
    assert_eq!(qualified.bytes(), Some((5, Some(10))));
}

#[test]
fn test_qualified_swhid_from_string_invalid() {
    // Invalid qualifier format
    assert!(QualifiedSwhid::from_string(
        "swh:1:cnt:0000000000000000000000000000000000000000;invalid"
    )
    .is_err());

    // Invalid lines format
    assert!(QualifiedSwhid::from_string(
        "swh:1:cnt:0000000000000000000000000000000000000000;lines=invalid"
    )
    .is_err());

    // Invalid bytes format
    assert!(QualifiedSwhid::from_string(
        "swh:1:cnt:0000000000000000000000000000000000000000;bytes=invalid"
    )
    .is_err());

    // Unknown qualifier
    assert!(QualifiedSwhid::from_string(
        "swh:1:cnt:0000000000000000000000000000000000000000;unknown=value"
    )
    .is_err());
}

#[test]
fn test_qualified_swhid_from_swhid() {
    let core = Swhid::new(ObjectType::Content, [0u8; 20]);
    let qualified: QualifiedSwhid = core.clone().into();

    assert_eq!(qualified.core_swhid(), &core);
    assert_eq!(qualified.object_type(), ObjectType::Content);
}

#[test]
fn test_qualified_swhid_conformance() {
    // Test that qualified SWHID matches expected format
    let core = Swhid::new(ObjectType::Content, [0u8; 20]);
    let qualified = QualifiedSwhid::new(core)
        .with_origin("https://github.com/user/repo".to_string())
        .with_path(b"/src/main.rs".to_vec())
        .with_lines(10, Some(20));

    // Verify core SWHID properties
    assert_eq!(qualified.object_type(), ObjectType::Content);
    assert_eq!(qualified.hash().len(), 20);

    // Verify qualifiers
    assert_eq!(qualified.origin(), Some("https://github.com/user/repo"));
    assert_eq!(qualified.path(), Some(b"/src/main.rs".as_slice()));
    assert_eq!(qualified.lines(), Some((10, Some(20))));

    // Verify string format
    let qualified_str = qualified.to_string();
    assert!(qualified_str.starts_with("swh:1:cnt:0000000000000000000000000000000000000000"));
    assert!(qualified_str.contains(";origin=https://github.com/user/repo"));
    assert!(qualified_str.contains(";path=/src/main.rs"));
    assert!(qualified_str.contains(";lines=10-20"));
}

#[test]
fn test_qualified_swhid_parsing() {
    // Test parsing a complex qualified SWHID
    let s = "swh:1:cnt:0000000000000000000000000000000000000000;origin=https://github.com/user/repo;path=/src/main.rs;lines=10-20";
    let qualified = QualifiedSwhid::from_string(s).unwrap();

    assert_eq!(qualified.object_type(), ObjectType::Content);
    assert_eq!(qualified.origin(), Some("https://github.com/user/repo"));
    assert_eq!(qualified.path(), Some(b"/src/main.rs".as_slice()));
    assert_eq!(qualified.lines(), Some((10, Some(20))));

    // Test parsing with single line
    let s = "swh:1:cnt:0000000000000000000000000000000000000000;lines=15";
    let qualified = QualifiedSwhid::from_string(s).unwrap();
    assert_eq!(qualified.lines(), Some((15, None)));
}

#[test]
fn test_qualified_swhid_validation() {
    let core = Swhid::new(ObjectType::Content, [0u8; 20]);

    // Test valid visit qualifier (snapshot)
    let visit = Swhid::new(ObjectType::Snapshot, [1u8; 20]);
    let qualified = QualifiedSwhid::new(core.clone())
        .with_visit(visit).unwrap();
    assert!(qualified.visit().is_some());

    // Test invalid visit qualifier (content)
    let invalid_visit = Swhid::new(ObjectType::Content, [1u8; 20]);
    let result = QualifiedSwhid::new(core.clone())
        .with_visit(invalid_visit);
    assert!(result.is_err());

    // Test valid anchor qualifier (directory)
    let anchor = Swhid::new(ObjectType::Directory, [2u8; 20]);
    let qualified = QualifiedSwhid::new(core.clone())
        .with_anchor(anchor).unwrap();
    assert!(qualified.anchor().is_some());

    // Test invalid anchor qualifier (content)
    let invalid_anchor = Swhid::new(ObjectType::Content, [2u8; 20]);
    let result = QualifiedSwhid::new(core)
        .with_anchor(invalid_anchor);
    assert!(result.is_err());
}

#[test]
fn test_qualified_swhid_creation() {
    let object_id = [0u8; 20];
    let swhid = QualifiedSwhid::new(Swhid::new(ObjectType::Content, object_id));

    assert_eq!(swhid.namespace(), "swh");
    assert_eq!(swhid.scheme_version(), 1);
    assert_eq!(swhid.object_type(), ObjectType::Content);
    assert_eq!(swhid.object_id(), &object_id);
    assert_eq!(swhid.origin(), None);
    assert_eq!(swhid.visit(), None);
    assert_eq!(swhid.anchor(), None);
    assert_eq!(swhid.path(), None);
    assert_eq!(swhid.lines(), None);
}

#[test]
fn test_qualified_swhid_builder_pattern() {
    let object_id = [0u8; 20];
    let origin_swhid = Swhid::new(ObjectType::Snapshot, [1u8; 20]);
    let anchor_swhid = Swhid::new(ObjectType::Revision, [2u8; 20]);

    let swhid = QualifiedSwhid::new(Swhid::new(ObjectType::Content, object_id))
        .with_origin("https://github.com/user/repo".to_string())
        .with_visit(origin_swhid.clone()).unwrap()
        .with_anchor(anchor_swhid.clone()).unwrap()
        .with_path(b"/path/to/file.txt".to_vec())
        .with_lines(10, Some(20));

    assert_eq!(swhid.origin(), Some("https://github.com/user/repo"));
    assert_eq!(swhid.visit(), Some(&origin_swhid));
    assert_eq!(swhid.anchor(), Some(&anchor_swhid));
    assert_eq!(swhid.path(), Some(b"/path/to/file.txt".as_slice()));
    assert_eq!(swhid.lines(), Some((10, Some(20))));
}

#[test]
fn test_qualified_swhid_from_string_basic() {
    let swhid_str = "swh:1:cnt:8ff44f081d43176474b267de5451f2c2e88089d0";
    let swhid = QualifiedSwhid::from_string(swhid_str).unwrap();

    assert_eq!(swhid.namespace(), "swh");
    assert_eq!(swhid.scheme_version(), 1);
    assert_eq!(swhid.object_type(), ObjectType::Content);
    assert_eq!(hex::encode(swhid.object_id()), "8ff44f081d43176474b267de5451f2c2e88089d0");
    assert_eq!(swhid.origin(), None);
    assert_eq!(swhid.visit(), None);
    assert_eq!(swhid.anchor(), None);
    assert_eq!(swhid.path(), None);
    assert_eq!(swhid.lines(), None);
}

#[test]
fn test_qualified_swhid_from_string_with_origin() {
    let swhid_str = "swh:1:cnt:8ff44f081d43176474b267de5451f2c2e88089d0;origin=https://github.com/user/repo";
    let swhid = QualifiedSwhid::from_string(swhid_str).unwrap();

    assert_eq!(swhid.origin(), Some("https://github.com/user/repo"));
}

#[test]
fn test_qualified_swhid_from_string_with_visit() {
    let visit_swhid = "swh:1:snp:1234567890abcdef1234567890abcdef12345678";
    let swhid_str = format!(
        "swh:1:cnt:8ff44f081d43176474b267de5451f2c2e88089d0;visit={}",
        visit_swhid
    );
    let swhid = QualifiedSwhid::from_string(&swhid_str).unwrap();

    assert_eq!(swhid.visit().unwrap().to_string(), visit_swhid);
}

#[test]
fn test_qualified_swhid_from_string_with_anchor() {
    let anchor_swhid = "swh:1:rev:1234567890abcdef1234567890abcdef12345678";
    let swhid_str = format!(
        "swh:1:cnt:8ff44f081d43176474b267de5451f2c2e88089d0;anchor={}",
        anchor_swhid
    );
    let swhid = QualifiedSwhid::from_string(&swhid_str).unwrap();

    assert_eq!(swhid.anchor().unwrap().to_string(), anchor_swhid);
}

#[test]
fn test_qualified_swhid_from_string_with_path() {
    let swhid_str = "swh:1:cnt:8ff44f081d43176474b267de5451f2c2e88089d0;path=/path/to/file.txt";
    let swhid = QualifiedSwhid::from_string(swhid_str).unwrap();

    assert_eq!(swhid.path(), Some(b"/path/to/file.txt".as_slice()));
}

#[test]
fn test_qualified_swhid_from_string_with_lines() {
    let swhid_str = "swh:1:cnt:8ff44f081d43176474b267de5451f2c2e88089d0;lines=10-20";
    let swhid = QualifiedSwhid::from_string(swhid_str).unwrap();

    assert_eq!(swhid.lines(), Some((10, Some(20))));
}

#[test]
fn test_qualified_swhid_from_string_with_single_line() {
    let swhid_str = "swh:1:cnt:8ff44f081d43176474b267de5451f2c2e88089d0;lines=10";
    let swhid = QualifiedSwhid::from_string(swhid_str).unwrap();

    assert_eq!(swhid.lines(), Some((10, None)));
}

#[test]
fn test_qualified_swhid_from_string_with_multiple_qualifiers() {
    let swhid_str = "swh:1:cnt:8ff44f081d43176474b267de5451f2c2e88089d0;origin=https://github.com/user/repo;path=/file.txt;lines=10-20";
    let swhid = QualifiedSwhid::from_string(swhid_str).unwrap();

    assert_eq!(swhid.origin(), Some("https://github.com/user/repo"));
    assert_eq!(swhid.path(), Some(b"/file.txt".as_slice()));
    assert_eq!(swhid.lines(), Some((10, Some(20))));
}

#[test]
fn test_qualified_swhid_display_basic() {
    let object_id = hex::decode("8ff44f081d43176474b267de5451f2c2e88089d0").unwrap();
    let mut object_id_array = [0u8; 20];
    object_id_array.copy_from_slice(&object_id);

    let swhid = QualifiedSwhid::new(Swhid::new(ObjectType::Content, object_id_array));
    let swhid_str = swhid.to_string();

    assert_eq!(swhid_str, "swh:1:cnt:8ff44f081d43176474b267de5451f2c2e88089d0");
}

#[test]
fn test_qualified_swhid_display_with_qualifiers() {
    let object_id = hex::decode("8ff44f081d43176474b267de5451f2c2e88089d0").unwrap();
    let mut object_id_array = [0u8; 20];
    object_id_array.copy_from_slice(&object_id);
    let origin_swhid = Swhid::new(ObjectType::Snapshot, [1u8; 20]);
    let anchor_swhid = Swhid::new(ObjectType::Revision, [2u8; 20]);

    let swhid = QualifiedSwhid::new(Swhid::new(ObjectType::Content, object_id_array))
        .with_origin("https://github.com/user/repo".to_string())
        .with_visit(origin_swhid).unwrap()
        .with_anchor(anchor_swhid).unwrap()
        .with_path(b"/path/to/file.txt".to_vec())
        .with_lines(10, Some(20));

    let swhid_str = swhid.to_string();

    // Should contain all qualifiers in the correct order
    assert!(swhid_str.contains(";origin=https://github.com/user/repo"));
    assert!(swhid_str.contains(";visit="));
    assert!(swhid_str.contains(";anchor="));
    assert!(swhid_str.contains(";path=/path/to/file.txt"));
    assert!(swhid_str.contains(";lines=10-20"));
}

#[test]
fn test_qualified_swhid_invalid_format() {
    assert!(QualifiedSwhid::from_string("").is_err());
    assert!(QualifiedSwhid::from_string("invalid").is_err());
    assert!(QualifiedSwhid::from_string("swh:1:cnt").is_err());
}

#[test]
fn test_qualified_swhid_invalid_qualifier_format() {
    let swhid_str = "swh:1:cnt:8ff44f081d43176474b267de5451f2c2e88089d0;invalid";
    assert!(QualifiedSwhid::from_string(swhid_str).is_err());

    let swhid_str = "swh:1:cnt:8ff44f081d43176474b267de5451f2c2e88089d0;origin";
    assert!(QualifiedSwhid::from_string(swhid_str).is_err());
}

#[test]
fn test_qualified_swhid_unknown_qualifier() {
    let swhid_str = "swh:1:cnt:8ff44f081d43176474b267de5451f2c2e88089d0;unknown=value";
    assert!(QualifiedSwhid::from_string(swhid_str).is_err());
}

#[test]
fn test_qualified_swhid_invalid_lines_format() {
    let swhid_str = "swh:1:cnt:8ff44f081d43176474b267de5451f2c2e88089d0;lines=invalid";
    assert!(QualifiedSwhid::from_string(swhid_str).is_err());

    let swhid_str = "swh:1:cnt:8ff44f081d43176474b267de5451f2c2e88089d0;lines=10-invalid";
    assert!(QualifiedSwhid::from_string(swhid_str).is_err());

    let swhid_str = "swh:1:cnt:8ff44f081d43176474b267de5451f2c2e88089d0;lines=10-20-30";
    assert!(QualifiedSwhid::from_string(swhid_str).is_err());
}

#[test]
fn test_core_to_qualified_conversion() {
    let object_id = [0u8; 20];
    let core_swhid = Swhid::new(ObjectType::Content, object_id);
    let qualified_swhid = core_swhid.clone().to_qualified();

    assert_eq!(qualified_swhid.namespace(), core_swhid.namespace());
    assert_eq!(qualified_swhid.scheme_version(), core_swhid.scheme_version());
    assert_eq!(qualified_swhid.object_type(), core_swhid.object_type());
    assert_eq!(qualified_swhid.object_id(), core_swhid.object_id());
    assert_eq!(qualified_swhid.origin(), None);
    assert_eq!(qualified_swhid.visit(), None);
    assert_eq!(qualified_swhid.anchor(), None);
    assert_eq!(qualified_swhid.path(), None);
    assert_eq!(qualified_swhid.lines(), None);
}

#[test]
fn test_qualified_round_trip_strings() {
    // Round trip: format(parse(s)) == s for canonical qualified strings.
    let samples = vec![
        "swh:1:cnt:8ff44f081d43176474b267de5451f2c2e88089d0",
        "swh:1:cnt:8ff44f081d43176474b267de5451f2c2e88089d0;origin=https://github.com/user/repo",
        "swh:1:cnt:8ff44f081d43176474b267de5451f2c2e88089d0;visit=swh:1:snp:1234567890abcdef1234567890abcdef12345678",
        "swh:1:cnt:8ff44f081d43176474b267de5451f2c2e88089d0;anchor=swh:1:rev:1234567890abcdef1234567890abcdef12345678",
        "swh:1:dir:0b6959356d30f1a4e9b7f6bca59b9a336464c03d;origin=https://example.org;visit=swh:1:snp:1234567890abcdef1234567890abcdef12345678;anchor=swh:1:dir:abcdefabcdefabcdefabcdefabcdefabcdefabcd;path=/a/b;lines=1-2;bytes=3-4",
        "swh:1:cnt:8ff44f081d43176474b267de5451f2c2e88089d0;lines=4294967295",
    ];
    for s in samples {
        assert_eq!(QualifiedSwhid::from_string(s).unwrap().to_string(), s);
    }
}

#[test]
fn test_qualified_lines_overflow_rejected() {
    // One past the largest 32-bit value is a malformed range.
    let s = "swh:1:cnt:8ff44f081d43176474b267de5451f2c2e88089d0;lines=4294967296";
    assert!(QualifiedSwhid::from_string(s).is_err());
}

#[test]
fn test_qualified_duplicate_key_overrides() {
    // A repeated key overrides the earlier value (last write wins).
    let s = "swh:1:cnt:8ff44f081d43176474b267de5451f2c2e88089d0;lines=1;lines=7";
    let q = QualifiedSwhid::from_string(s).unwrap();
    assert_eq!(q.lines(), Some((7, None)));
}

#[test]
fn test_qualified_origin_value_with_equals() {
    // A qualifier value may itself hold `=`: the pair splits on the
    // first `=` alone.
    let s = "swh:1:cnt:8ff44f081d43176474b267de5451f2c2e88089d0;origin=https://example.org/?q=1";
    let q = QualifiedSwhid::from_string(s).unwrap();
    assert_eq!(q.origin(), Some("https://example.org/?q=1"));
    assert_eq!(q.to_string(), s);
}

#[test]
fn test_qualified_non_ascii_path_round_trip() {
    let s = "swh:1:cnt:8ff44f081d43176474b267de5451f2c2e88089d0;path=/caf\u{e9}/naive.txt";
    let q = QualifiedSwhid::from_string(s).unwrap();
    assert_eq!(q.path(), Some("/caf\u{e9}/naive.txt".as_bytes()));
    assert_eq!(q.to_string(), s);
}

#[test]
fn test_qualifier_error_variants() {
    // Kind-constraint violations are qualifier errors.
    let base = "swh:1:cnt:8ff44f081d43176474b267de5451f2c2e88089d0";
    let s = format!("{};visit={}", base, "swh:1:dir:1234567890abcdef1234567890abcdef12345678");
    assert!(matches!(QualifiedSwhid::from_string(&s), Err(SwhidError::InvalidQualifier(_))));

    let s = format!("{};anchor={}", base, "swh:1:cnt:1234567890abcdef1234567890abcdef12345678");
    assert!(matches!(QualifiedSwhid::from_string(&s), Err(SwhidError::InvalidQualifier(_))));

    // Unknown keys are their own error.
    let s = format!("{};unknown=value", base);
    assert!(matches!(QualifiedSwhid::from_string(&s), Err(SwhidError::UnknownQualifier(_))));

    // A piece without `=` is a format error.
    let s = format!("{};origin", base);
    assert!(matches!(QualifiedSwhid::from_string(&s), Err(SwhidError::InvalidFormat(_))));

    // A malformed core inside a visit value keeps its own error kind.
    let s = format!("{};visit=swh:9:snp:1234567890abcdef1234567890abcdef12345678", base);
    assert!(matches!(QualifiedSwhid::from_string(&s), Err(SwhidError::InvalidVersion(_))));
}
