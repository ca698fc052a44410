use swhid_core::{ExtendedObjectType, ExtendedSwhid, ObjectType, Swhid, SwhidError};

#[test]
fn test_swhid_new() {
    let hash = [0u8; 20];
    let swhid = Swhid::new(ObjectType::Content, hash);

    assert_eq!(swhid.object_type(), ObjectType::Content);
    assert_eq!(swhid.hash(), &hash);
}

#[test]
fn test_swhid_display() {
    let hash = [0u8; 20];
    let swhid = Swhid::new(ObjectType::Directory, hash);

    assert_eq!(swhid.to_string(), "swh:1:dir:0000000000000000000000000000000000000000");
}

#[test]
fn test_swhid_from_string() {
    let swhid = Swhid::from_string("swh:1:cnt:0000000000000000000000000000000000000000").unwrap();

    assert_eq!(swhid.object_type(), ObjectType::Content);
    assert_eq!(swhid.hash(), &[0u8; 20]);
}

#[test]
fn test_swhid_from_string_invalid() {
    // Invalid format
    assert!(Swhid::from_string("invalid").is_err());

    // Invalid namespace
    assert!(Swhid::from_string("invalid:1:cnt:0000000000000000000000000000000000000000").is_err());

    // Invalid version
    assert!(Swhid::from_string("swh:2:cnt:0000000000000000000000000000000000000000").is_err());

    // Invalid object type
    assert!(Swhid::from_string("swh:1:invalid:0000000000000000000000000000000000000000").is_err());

    // Invalid hash length
    assert!(Swhid::from_string("swh:1:cnt:00000000000000000000000000000000000000").is_err());
}

#[test]
fn test_all_object_types() {
    // Test all core SWHID object types
    let hash = [0u8; 20];

    let content_swhid = Swhid::new(ObjectType::Content, hash);
    assert_eq!(content_swhid.to_string(), "swh:1:cnt:0000000000000000000000000000000000000000");

    let directory_swhid = Swhid::new(ObjectType::Directory, hash);
    assert_eq!(directory_swhid.to_string(), "swh:1:dir:0000000000000000000000000000000000000000");

    let revision_swhid = Swhid::new(ObjectType::Revision, hash);
    assert_eq!(revision_swhid.to_string(), "swh:1:rev:0000000000000000000000000000000000000000");

    let release_swhid = Swhid::new(ObjectType::Release, hash);
    assert_eq!(release_swhid.to_string(), "swh:1:rel:0000000000000000000000000000000000000000");

    let snapshot_swhid = Swhid::new(ObjectType::Snapshot, hash);
    assert_eq!(snapshot_swhid.to_string(), "swh:1:snp:0000000000000000000000000000000000000000");
}

#[test]
fn test_object_type_parsing() {
    // Test parsing all valid object types
    assert_eq!(ObjectType::from_str("cnt").unwrap(), ObjectType::Content);
    assert_eq!(ObjectType::from_str("dir").unwrap(), ObjectType::Directory);
    assert_eq!(ObjectType::from_str("rev").unwrap(), ObjectType::Revision);
    assert_eq!(ObjectType::from_str("rel").unwrap(), ObjectType::Release);
    assert_eq!(ObjectType::from_str("snp").unwrap(), ObjectType::Snapshot);

    // Test invalid object type
    assert!(ObjectType::from_str("invalid").is_err());
}

#[test]
fn test_swhid_parsing() {
    // Test valid SWHID parsing
    let valid_swhid = "swh:1:cnt:0000000000000000000000000000000000000000";
    let parsed = Swhid::from_string(valid_swhid).unwrap();
    assert_eq!(parsed.object_type(), ObjectType::Content);

    // Test invalid SWHID parsing
    assert!(Swhid::from_string("invalid").is_err());
    assert!(Swhid::from_string("swh:2:cnt:0000000000000000000000000000000000000000").is_err());
    assert!(Swhid::from_string("swh:1:invalid:0000000000000000000000000000000000000000").is_err());
    assert!(Swhid::from_string("swh:1:cnt:00000000000000000000000000000000000000").is_err());
}

#[test]
fn test_swhid_string_parsing() {
    let swhid_str = "swh:1:cnt:95d09f2b10159347eece71399a7e2cc70638e9a7";
    let swhid = Swhid::from_string(swhid_str).unwrap();

    assert_eq!(swhid.namespace(), "swh");
    assert_eq!(swhid.scheme_version(), 1);
    assert_eq!(swhid.object_type(), ObjectType::Content);
    assert_eq!(swhid.to_string(), swhid_str);
}

#[test]
fn test_swhid_string_parsing_invalid() {
    let invalid_swhids = vec![
        "invalid",
        "swh:2:cnt:95d09f2b10159347eece71399a7e2cc70638e9a7", // wrong version
        "swh:1:invalid:95d09f2b10159347eece71399a7e2cc70638e9a7", // wrong type
        "swh:1:cnt:invalid", // wrong hash
    ];

    for invalid in invalid_swhids {
        assert!(Swhid::from_string(invalid).is_err());
    }
}

#[test]
fn test_swhid_validation_invalid_formats() {
    // Test various invalid SWHID formats
    let invalid_swhids = vec![
        "swh:1:cnt",  // Missing hash
        "swh:1:",  // Missing object type and hash
        "swh:",  // Missing version, object type, and hash
        "swh:1:cnt:",  // Missing hash
        "foo:1:cnt:abc8bc9d7a6bcf6db04f476d29314f157507d505",  // Wrong namespace
        "swh:2:dir:def8bc9d7a6bcf6db04f476d29314f157507d505",  // Wrong version
        "swh:1:foo:fed8bc9d7a6bcf6db04f476d29314f157507d505",  // Invalid object type
        "swh:1:dir:0b6959356d30f1a4e9b7f6bca59b9a336464c03d;invalid;malformed",  // Invalid qualifiers
        "swh:1:snp:gh6959356d30f1a4e9b7f6bca59b9a336464c03d",  // Invalid hash characters
        "swh:1:snp:foo",  // Invalid hash format
        "swh :1:dir:0b6959356d30f1a4e9b7f6bca59b9a336464c03d",  // Whitespace in namespace
        "swh: 1:dir:0b6959356d30f1a4e9b7f6bca59b9a336464c03d",  // Whitespace in version
        "swh:1: dir:0b6959356d30f1a4e9b7f6bca59b9a336464c03d",  // Whitespace in object type
    ];

    for invalid_swhid in invalid_swhids {
        let result = Swhid::from_string(invalid_swhid);
        assert!(result.is_err(), "SWHID '{}' should be invalid", invalid_swhid);
    }
}

#[test]
fn test_swhid_validation_valid_formats() {
    // Test various valid SWHID formats
    let valid_swhids = vec![
        "swh:1:cnt:94a9ed024d3859793618152ea559a168bbcbb5e2",
        "swh:1:dir:0b6959356d30f1a4e9b7f6bca59b9a336464c03d",
        "swh:1:rev:0b6959356d30f1a4e9b7f6bca59b9a336464c03d",
        "swh:1:rel:0b6959356d30f1a4e9b7f6bca59b9a336464c03d",
        "swh:1:snp:0b6959356d30f1a4e9b7f6bca59b9a336464c03d",
    ];

    for valid_swhid in valid_swhids {
        let result = Swhid::from_string(valid_swhid);
        assert!(result.is_ok(), "SWHID '{}' should be valid", valid_swhid);
    }
}

#[test]
fn test_swhid_validation_hash_length() {
    // Test that SWHID validation requires exactly 20 bytes (40 hex chars)
    let short_hash = "swh:1:cnt:1234567890abcdef"; // 16 chars
    let long_hash = "swh:1:cnt:1234567890abcdef1234567890abcdef1234567890abcdef1234567890abcdef"; // 64 chars
    let invalid_chars = "swh:1:cnt:1234567890abcdef1234567890abcdef1234567890abcdef1234567890abcdeg"; // Invalid hex

    assert!(Swhid::from_string(short_hash).is_err());
    assert!(Swhid::from_string(long_hash).is_err());
    assert!(Swhid::from_string(invalid_chars).is_err());
}

#[test]
fn test_swhid_parse_error_kinds_distinct() {
    assert!(matches!(
        Swhid::from_string("swh:1:cnt"),
        Err(SwhidError::InvalidFormat(_))
    ));
    assert!(matches!(
        Swhid::from_string("foo:1:cnt:0000000000000000000000000000000000000000"),
        Err(SwhidError::InvalidNamespace(_))
    ));
    assert!(matches!(
        Swhid::from_string("swh:2:cnt:0000000000000000000000000000000000000000"),
        Err(SwhidError::InvalidVersion(_))
    ));
    assert!(matches!(
        Swhid::from_string("swh:1:foo:0000000000000000000000000000000000000000"),
        Err(SwhidError::InvalidObjectType(_))
    ));
    assert!(matches!(
        Swhid::from_string("swh:1:cnt:zz00000000000000000000000000000000000000"),
        Err(SwhidError::InvalidHash(_))
    ));
    assert!(matches!(
        Swhid::from_string("swh:1:cnt:0000"),
        Err(SwhidError::InvalidHashLength(2))
    ));
}

#[test]
fn test_swhid_uppercase_hex_not_canonical() {
    // Uppercase hex is accepted on parse but re-rendered lowercase.
    let swhid = Swhid::from_string("swh:1:cnt:ABCDEF0123456789abcdef0123456789abcdef01").unwrap();
    assert_eq!(swhid.to_string(), "swh:1:cnt:abcdef0123456789abcdef0123456789abcdef01");
}

#[test]
fn test_extended_object_type_creation() {
    assert_eq!(ExtendedObjectType::Content.as_str(), "cnt");
    assert_eq!(ExtendedObjectType::Directory.as_str(), "dir");
    assert_eq!(ExtendedObjectType::Revision.as_str(), "rev");
    assert_eq!(ExtendedObjectType::Release.as_str(), "rel");
    assert_eq!(ExtendedObjectType::Snapshot.as_str(), "snp");
    assert_eq!(ExtendedObjectType::Origin.as_str(), "ori");
    assert_eq!(ExtendedObjectType::RawExtrinsicMetadata.as_str(), "emd");
}

#[test]
fn test_extended_object_type_from_str() {
    assert_eq!(ExtendedObjectType::from_str("cnt").unwrap(), ExtendedObjectType::Content);
    assert_eq!(ExtendedObjectType::from_str("dir").unwrap(), ExtendedObjectType::Directory);
    assert_eq!(ExtendedObjectType::from_str("rev").unwrap(), ExtendedObjectType::Revision);
    assert_eq!(ExtendedObjectType::from_str("rel").unwrap(), ExtendedObjectType::Release);
    assert_eq!(ExtendedObjectType::from_str("snp").unwrap(), ExtendedObjectType::Snapshot);
    assert_eq!(ExtendedObjectType::from_str("ori").unwrap(), ExtendedObjectType::Origin);
    assert_eq!(
        ExtendedObjectType::from_str("emd").unwrap(),
        ExtendedObjectType::RawExtrinsicMetadata
    );

    assert!(ExtendedObjectType::from_str("invalid").is_err());
}

#[test]
fn test_extended_swhid_creation() {
    let object_id = [0u8; 20];
    let swhid = ExtendedSwhid::new(ExtendedObjectType::Content, object_id);

    assert_eq!(swhid.namespace(), "swh");
    assert_eq!(swhid.scheme_version(), 1);
    assert_eq!(swhid.object_type(), ExtendedObjectType::Content);
    assert_eq!(swhid.object_id(), &object_id);
}

#[test]
fn test_extended_swhid_from_string() {
    let swhid_str = "swh:1:cnt:8ff44f081d43176474b267de5451f2c2e88089d0";
    let swhid = ExtendedSwhid::from_string(swhid_str).unwrap();

    assert_eq!(swhid.namespace(), "swh");
    assert_eq!(swhid.scheme_version(), 1);
    assert_eq!(swhid.object_type(), ExtendedObjectType::Content);
    assert_eq!(hex::encode(swhid.object_id()), "8ff44f081d43176474b267de5451f2c2e88089d0");
}

#[test]
fn test_extended_swhid_from_string_with_origin() {
    let swhid_str = "swh:1:ori:8ff44f081d43176474b267de5451f2c2e88089d0";
    let swhid = ExtendedSwhid::from_string(swhid_str).unwrap();

    assert_eq!(swhid.object_type(), ExtendedObjectType::Origin);
}

#[test]
fn test_extended_swhid_from_string_with_emd() {
    let swhid_str = "swh:1:emd:8ff44f081d43176474b267de5451f2c2e88089d0";
    let swhid = ExtendedSwhid::from_string(swhid_str).unwrap();

    assert_eq!(swhid.object_type(), ExtendedObjectType::RawExtrinsicMetadata);
}

#[test]
fn test_extended_swhid_display() {
    let object_id = hex::decode("8ff44f081d43176474b267de5451f2c2e88089d0").unwrap();
    let mut object_id_array = [0u8; 20];
    object_id_array.copy_from_slice(&object_id);

    let swhid = ExtendedSwhid::new(ExtendedObjectType::Content, object_id_array);
    let swhid_str = swhid.to_string();

    assert_eq!(swhid_str, "swh:1:cnt:8ff44f081d43176474b267de5451f2c2e88089d0");
}

#[test]
fn test_extended_swhid_invalid_format() {
    assert!(ExtendedSwhid::from_string("invalid").is_err());
    assert!(ExtendedSwhid::from_string("swh:1:cnt").is_err());
    assert!(ExtendedSwhid::from_string("swh:1:cnt:invalid").is_err());
}

#[test]
fn test_extended_swhid_invalid_namespace() {
    assert!(
        ExtendedSwhid::from_string("invalid:1:cnt:8ff44f081d43176474b267de5451f2c2e88089d0")
            .is_err()
    );
}

#[test]
fn test_extended_swhid_invalid_version() {
    assert!(
        ExtendedSwhid::from_string("swh:2:cnt:8ff44f081d43176474b267de5451f2c2e88089d0").is_err()
    );
}

#[test]
fn test_extended_swhid_invalid_object_type() {
    assert!(
        ExtendedSwhid::from_string("swh:1:invalid:8ff44f081d43176474b267de5451f2c2e88089d0")
            .is_err()
    );
}

#[test]
fn test_extended_swhid_invalid_hash() {
    assert!(ExtendedSwhid::from_string("swh:1:cnt:invalid").is_err());
    assert!(ExtendedSwhid::from_string("swh:1:cnt:123").is_err()); // too short
}

#[test]
fn test_core_to_extended_conversion() {
    let object_id = [0u8; 20];
    let core_swhid = Swhid::new(ObjectType::Content, object_id);
    let extended_swhid = core_swhid.to_extended();

    assert_eq!(extended_swhid.namespace(), core_swhid.namespace());
    assert_eq!(extended_swhid.scheme_version(), core_swhid.scheme_version());
    assert_eq!(extended_swhid.object_type(), ExtendedObjectType::Content);
    assert_eq!(extended_swhid.object_id(), core_swhid.object_id());
}

#[test]
fn test_extended_to_core_partial() {
    let id = [7u8; 20];
    let rev = ExtendedSwhid::new(ExtendedObjectType::Revision, id);
    let core = rev.to_core().unwrap();
    assert_eq!(core.object_type(), ObjectType::Revision);
    assert_eq!(core.hash(), &id);

    assert!(ExtendedSwhid::new(ExtendedObjectType::Origin, id).to_core().is_err());
    assert!(ExtendedSwhid::new(ExtendedObjectType::RawExtrinsicMetadata, id).to_core().is_err());
}

#[test]
fn test_core_round_trip_strings() {
    // Round trip: format(parse(s)) == s for canonical strings.
    let samples = vec![
        "swh:1:cnt:94a9ed024d3859793618152ea559a168bbcbb5e2",
        "swh:1:dir:0b6959356d30f1a4e9b7f6bca59b9a336464c03d",
        "swh:1:rev:ffffffffffffffffffffffffffffffffffffffff",
        "swh:1:rel:0000000000000000000000000000000000000000",
        "swh:1:snp:0123456789abcdef0123456789abcdef01234567",
    ];
    for s in samples {
        assert_eq!(Swhid::from_string(s).unwrap().to_string(), s);
        assert_eq!(ExtendedSwhid::from_string(s).unwrap().to_string(), s);
    }
    let ext_samples = vec![
        "swh:1:ori:94a9ed024d3859793618152ea559a168bbcbb5e2",
        "swh:1:emd:0b6959356d30f1a4e9b7f6bca59b9a336464c03d",
    ];
    for s in ext_samples {
        assert_eq!(ExtendedSwhid::from_string(s).unwrap().to_string(), s);
    }
}
