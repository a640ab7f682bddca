use ferrodoc::{
    BlobId, BlobRange, Bytes, Compatibility, CoreError, ProtocolVersion, SchemaVersion,
    VersionRange, MAX_FRAME_LENGTH, PREAMBLE,
};

#[test]
fn distinguishes_si_and_iec_units() {
    assert_eq!("1 MB".parse::<Bytes>().unwrap().get(), 1_000_000);
    assert_eq!("1 MiB".parse::<Bytes>().unwrap().get(), 1_048_576);
    assert_eq!("1.5 KiB".parse::<Bytes>().unwrap().get(), 1_536);
}

#[test]
fn rejects_invalid_and_overflowing_quantities() {
    for input in ["NaN", "inf", "-1 MiB", "0.1 B", "1.0000000001 GiB"] {
        assert!(input.parse::<Bytes>().is_err(), "accepted {input}");
    }
    assert!(format!("{} GiB", u64::MAX).parse::<Bytes>().is_err());
    assert!(Bytes::new(u64::MAX).checked_add(Bytes::new(1)).is_err());
    assert!(Bytes::new(0).checked_sub(Bytes::new(1)).is_err());
}

#[test]
fn byte_display_round_trips() {
    for value in [0, 1, 1_000, Bytes::KIB, Bytes::MIB * 3, u64::MAX] {
        let bytes = Bytes::new(value);
        assert_eq!(bytes.to_string().parse::<Bytes>().unwrap(), bytes);
    }
}

#[test]
fn ranges_reject_empty_and_overflow() {
    assert!(BlobRange::new(0, 0).is_err());
    assert!(BlobRange::new(u64::MAX, 1).is_err());
    assert_eq!(BlobRange::new(5, 7).unwrap().end(), 12);
}

#[test]
fn blob_ids_cannot_encode_paths() {
    for input in ["../secret", "/etc/passwd", "dir/file", "dir\\file"] {
        assert!(BlobId::new(input).is_err());
    }
}

#[test]
fn schema_compatibility_is_explicit() {
    let reader = SchemaVersion::new(1, 2);
    assert_eq!(
        reader.compatibility_with(SchemaVersion::new(1, 1)),
        Compatibility::Compatible
    );
    assert_eq!(
        reader.compatibility_with(SchemaVersion::new(1, 3)),
        Compatibility::NewerMinor
    );
    assert_eq!(
        reader.compatibility_with(SchemaVersion::new(2, 0)),
        Compatibility::IncompatibleMajor
    );
}

#[test]
fn version_negotiation_selects_newest_overlap() {
    let host = VersionRange {
        minimum: ProtocolVersion(1),
        maximum: ProtocolVersion(3),
    };
    let engine = VersionRange {
        minimum: ProtocolVersion(2),
        maximum: ProtocolVersion(4),
    };
    assert_eq!(host.negotiate(engine), Some(ProtocolVersion(3)));
    assert_eq!(
        host.negotiate(VersionRange {
            minimum: ProtocolVersion(4),
            maximum: ProtocolVersion(5),
        }),
        None
    );
}

#[test]
fn protocol_has_fixed_bounds() {
    assert_eq!(&PREAMBLE, b"FERRODOC");
    assert_eq!(MAX_FRAME_LENGTH, 16_777_216);
}

#[test]
fn byte_text_uses_the_largest_exact_binary_unit() {
    assert_eq!(Bytes::new(3 * Bytes::MIB).to_string(), "3 MiB");
    assert_eq!(Bytes::new(1_000).to_string(), "1000 B");
    assert_eq!(Bytes::new(2 * Bytes::GIB).to_string(), "2 GiB");
    assert_eq!(Bytes::new(1_536).to_string(), "1536 B");
}

#[test]
fn quantity_errors_distinguish_overflow_from_malformed_text() {
    assert!(matches!(
        "99999999999 GiB".parse::<Bytes>(),
        Err(CoreError::ArithmeticOverflow { kind: "bytes" })
    ));
    assert!(matches!(
        "12 parsecs".parse::<Bytes>(),
        Err(CoreError::InvalidText { kind: "bytes", .. })
    ));
    assert_eq!("  7 GB ".parse::<Bytes>().unwrap().get(), 7_000_000_000);
    assert_eq!("2.5 MB".parse::<Bytes>().unwrap().get(), 2_500_000);
    assert_eq!("42".parse::<Bytes>().unwrap().get(), 42);
    assert!("+1 B".parse::<Bytes>().is_err());
    assert!("1.2.3 B".parse::<Bytes>().is_err());
    assert!(".5 KiB".parse::<Bytes>().is_err());
}

#[test]
fn checked_arithmetic_is_exact() {
    assert_eq!(
        Bytes::new(2).checked_mul(3).unwrap(),
        Bytes::new(6)
    );
    assert!(Bytes::new(u64::MAX).checked_mul(2).is_err());
    assert_eq!(Bytes::new(7).checked_sub(Bytes::new(2)).unwrap(), Bytes::new(5));
}

#[test]
fn blob_ids_accept_safe_tokens() {
    assert_eq!(BlobId::new("input-1.pdf").unwrap().as_str(), "input-1.pdf");
    assert!(BlobId::new("").is_err());
    assert!(BlobId::new(&"a".repeat(129)).is_err());
    assert!(BlobId::new(&"a".repeat(128)).is_ok());
    let range = BlobRange::new(3, 4).unwrap();
    assert_eq!((range.offset(), range.len(), range.is_empty()), (3, 4, false));
}
