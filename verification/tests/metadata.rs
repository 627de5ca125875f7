use aura_compression::metadata::{
    classify_intent_from_metadata, compute_metadata_signature,
    predict_compression_ratio_from_metadata, InvalidFormat, MetadataEntry, MetadataKind,
};
use aura_compression::ratio::Ratio;

fn as_float(ratio: Ratio) -> f64 {
    ratio.numerator as f64 / ratio.denominator as f64
}

#[test]
fn test_metadata_entry_serialization() {
    let entry = MetadataEntry::new(42, MetadataKind::Template, 7);
    let bytes = entry.to_bytes();
    let decoded = MetadataEntry::from_bytes(&bytes).unwrap();

    assert_eq!(entry, decoded);
}

#[test]
fn test_compute_metadata_signature() {
    let metadata = vec![
        MetadataEntry::new(0, MetadataKind::Template, 7),
        MetadataEntry::new(1, MetadataKind::Literal, 50),
    ];

    let sig1 = compute_metadata_signature(&metadata);
    let sig2 = compute_metadata_signature(&metadata);

    assert_eq!(sig1, sig2);

    let metadata_reversed = vec![
        MetadataEntry::new(1, MetadataKind::Literal, 50),
        MetadataEntry::new(0, MetadataKind::Template, 7),
    ];

    let sig3 = compute_metadata_signature(&metadata_reversed);
    assert_ne!(sig1, sig3);
}

#[test]
fn test_classify_intent() {
    let metadata = vec![MetadataEntry::new(0, MetadataKind::Template, 1)];
    assert_eq!(classify_intent_from_metadata(&metadata), "affirmative");

    let metadata = vec![MetadataEntry::new(0, MetadataKind::Template, 2)];
    assert_eq!(classify_intent_from_metadata(&metadata), "apology");

    let metadata = vec![MetadataEntry::new(0, MetadataKind::Literal, 100)];
    assert_eq!(classify_intent_from_metadata(&metadata), "custom");
}

#[test]
fn test_predict_compression_ratio() {
    let metadata = vec![MetadataEntry::new(0, MetadataKind::Template, 7)];
    let ratio = as_float(predict_compression_ratio_from_metadata(&metadata, 100));

    assert!(ratio > 1.0);
    assert!(ratio < 100.0);
}

#[test]
fn entry_bytes_are_big_endian() {
    let entry = MetadataEntry { token_index: 0x1234, kind: MetadataKind::Semantic, value: 0xABCD, flags: 9 };
    assert_eq!(entry.to_bytes(), [0x12, 0x34, 0x03, 0xAB, 0xCD, 0x09]);
    let decoded = MetadataEntry::from_bytes(&[0x12, 0x34, 0x03, 0xAB, 0xCD, 0x09]).unwrap();
    assert_eq!(decoded, entry);
}

#[test]
fn new_entry_has_zero_flags() {
    let entry = MetadataEntry::new(65535, MetadataKind::Fallback, 65535);
    assert_eq!(entry.flags, 0);
    assert_eq!(entry.to_bytes(), [0xFF, 0xFF, 0x04, 0xFF, 0xFF, 0x00]);
}

#[test]
fn every_kind_round_trips() {
    let kinds = [
        MetadataKind::Literal,
        MetadataKind::Template,
        MetadataKind::LZ77,
        MetadataKind::Semantic,
        MetadataKind::Fallback,
    ];
    for (byte, kind) in kinds.iter().enumerate() {
        assert_eq!(kind.to_byte(), byte as u8);
        assert_eq!(MetadataKind::from_byte(byte as u8), Some(*kind));
        let entry = MetadataEntry { token_index: 300, kind: *kind, value: 77, flags: 1 };
        assert_eq!(MetadataEntry::from_bytes(&entry.to_bytes()), Ok(entry));
    }
}

#[test]
fn from_bytes_rejects_wrong_length() {
    assert_eq!(MetadataEntry::from_bytes(&[]), Err(InvalidFormat::WrongLength(0)));
    assert_eq!(MetadataEntry::from_bytes(&[0, 0, 1, 0, 0]), Err(InvalidFormat::WrongLength(5)));
    assert_eq!(
        MetadataEntry::from_bytes(&[0, 0, 1, 0, 0, 0, 0]),
        Err(InvalidFormat::WrongLength(7))
    );
}

#[test]
fn from_bytes_rejects_unknown_kind() {
    assert_eq!(MetadataKind::from_byte(5), None);
    assert_eq!(MetadataKind::from_byte(0xFF), None);
    assert_eq!(
        MetadataEntry::from_bytes(&[0, 0, 5, 0, 0, 0]),
        Err(InvalidFormat::UnknownKind(5))
    );
    assert_eq!(
        MetadataEntry::from_bytes(&[0, 0, 0xFF, 0, 0, 0]),
        Err(InvalidFormat::UnknownKind(0xFF))
    );
}

#[test]
fn length_is_examined_before_kind() {
    assert_eq!(
        MetadataEntry::from_bytes(&[0, 0, 9, 0, 0, 0, 0]),
        Err(InvalidFormat::WrongLength(7))
    );
}

#[test]
fn signature_of_nothing_is_zero() {
    assert_eq!(compute_metadata_signature(&[]), 0);
}

#[test]
fn signature_exact_values() {
    let a = MetadataEntry::new(0, MetadataKind::Template, 7);
    let b = MetadataEntry::new(1, MetadataKind::Literal, 50);
    // a: (1 << 16) | 7, not rotated; b: 50 rotated left by one bit.
    assert_eq!(compute_metadata_signature(&[a]), 0x0001_0007);
    assert_eq!(compute_metadata_signature(&[a, b]), 0x0001_0007 ^ 100);
    // b: 50, not rotated; a: rotated left by one bit.
    assert_eq!(compute_metadata_signature(&[b, a]), 50 ^ 0x0002_000E);
}

#[test]
fn signature_ignores_token_index_and_flags() {
    let a = MetadataEntry { token_index: 1, kind: MetadataKind::LZ77, value: 9, flags: 0 };
    let b = MetadataEntry { token_index: 500, kind: MetadataKind::LZ77, value: 9, flags: 3 };
    assert_eq!(compute_metadata_signature(&[a]), compute_metadata_signature(&[b]));
}

#[test]
fn signature_rotation_wraps_after_32_entries() {
    let filler = MetadataEntry::new(0, MetadataKind::Literal, 0);
    let marked = MetadataEntry::new(0, MetadataKind::Fallback, 0x8001);
    let hash: u32 = (4 << 16) | 0x8001;
    let mut entries = vec![filler; 40];
    entries[31] = marked;
    assert_eq!(compute_metadata_signature(&entries), hash.rotate_left(31));
    let mut entries = vec![filler; 40];
    entries[32] = marked;
    assert_eq!(compute_metadata_signature(&entries), hash);
    let mut entries = vec![filler; 40];
    entries[35] = marked;
    assert_eq!(compute_metadata_signature(&entries), hash.rotate_left(3));
}

#[test]
fn signature_matches_rotate_and_xor() {
    let kinds = [
        MetadataKind::Literal,
        MetadataKind::Template,
        MetadataKind::LZ77,
        MetadataKind::Semantic,
        MetadataKind::Fallback,
    ];
    let mut entries = Vec::new();
    let mut expected: u32 = 0;
    for i in 0..100u32 {
        let kind = kinds[(i % 5) as usize];
        let value = (i * 7919 % 65536) as u16;
        entries.push(MetadataEntry::new(i as u16, kind, value));
        let hash = ((kind.to_byte() as u32) << 16) | value as u32;
        expected ^= hash.rotate_left(i % 32);
        assert_eq!(compute_metadata_signature(&entries), expected);
    }
}

#[test]
fn intent_of_nothing_is_unknown() {
    assert_eq!(classify_intent_from_metadata(&[]), "unknown");
}

#[test]
fn intent_table() {
    let label = |kind, value| classify_intent_from_metadata(&[MetadataEntry::new(0, kind, value)]);
    for value in [1, 3, 5, 7] {
        assert_eq!(label(MetadataKind::Template, value), "affirmative");
    }
    for value in [2, 4] {
        assert_eq!(label(MetadataKind::Template, value), "apology");
    }
    assert_eq!(label(MetadataKind::Template, 12), "thinking");
    for value in [10, 13] {
        assert_eq!(label(MetadataKind::Template, value), "question");
    }
    for value in [0, 6, 8, 9, 11, 14, 65535] {
        assert_eq!(label(MetadataKind::Template, value), "unknown");
    }
    assert_eq!(label(MetadataKind::Literal, 1), "custom");
    assert_eq!(label(MetadataKind::Fallback, 1), "complex");
    assert_eq!(label(MetadataKind::LZ77, 1), "unknown");
    assert_eq!(label(MetadataKind::Semantic, 1), "unknown");
}

#[test]
fn intent_looks_at_first_entry_only() {
    let entries = [
        MetadataEntry::new(0, MetadataKind::Literal, 1),
        MetadataEntry::new(1, MetadataKind::Template, 1),
    ];
    assert_eq!(classify_intent_from_metadata(&entries), "custom");
}

#[test]
fn ratio_without_entries_or_size_is_one() {
    let one = Ratio { numerator: 1, denominator: 1 };
    assert_eq!(predict_compression_ratio_from_metadata(&[], 100), one);
    let entries = [MetadataEntry::new(0, MetadataKind::Template, 7)];
    assert_eq!(predict_compression_ratio_from_metadata(&entries, 0), one);
}

#[test]
fn ratio_exact_values() {
    let template = MetadataEntry::new(0, MetadataKind::Template, 7);
    let lz77 = MetadataEntry::new(1, MetadataKind::LZ77, 30);
    let semantic = MetadataEntry::new(2, MetadataKind::Semantic, 30);
    let literal = MetadataEntry::new(3, MetadataKind::Literal, 50);
    // 16 + 6 + 4
    assert_eq!(
        predict_compression_ratio_from_metadata(&[template], 100),
        Ratio { numerator: 100, denominator: 26 }
    );
    // 16 + 4 * 6 + 4 + 5 + 8 + 50
    assert_eq!(
        predict_compression_ratio_from_metadata(&[template, lz77, semantic, literal], 1000),
        Ratio { numerator: 1000, denominator: 107 }
    );
}

#[test]
fn ratio_with_fallback_abandons_entry_costs() {
    let literal = MetadataEntry::new(0, MetadataKind::Literal, 5000);
    let fallback = MetadataEntry::new(1, MetadataKind::Fallback, 0);
    let template = MetadataEntry::new(2, MetadataKind::Template, 1);
    // 16 + 3 * 6 + floor(1100 / 1.1)
    assert_eq!(
        predict_compression_ratio_from_metadata(&[literal, fallback, template], 1100),
        Ratio { numerator: 1100, denominator: 16 + 18 + 1000 }
    );
    // floor(7 * 10 / 11) = 6
    assert_eq!(
        predict_compression_ratio_from_metadata(&[fallback], 7),
        Ratio { numerator: 7, denominator: 16 + 6 + 6 }
    );
}

#[test]
fn format_error_messages() {
    assert_eq!(
        InvalidFormat::WrongLength(7).message(),
        "Metadata entry must be 6 bytes, got 7"
    );
    assert_eq!(InvalidFormat::WrongLength(0).message(), "Metadata entry must be 6 bytes, got 0");
    assert_eq!(InvalidFormat::UnknownKind(255).message(), "Invalid metadata kind: 255");
}

#[test]
fn entry_as_text() {
    let entry = MetadataEntry::new(42, MetadataKind::Template, 7);
    assert_eq!(entry.to_text(), "MetadataEntry(token=42, kind=Template, value=7)");
    assert_eq!(entry.to_text(), format!("MetadataEntry(token={}, kind={:?}, value={})", 42, entry.kind, 7));
    let entry = MetadataEntry::new(0, MetadataKind::LZ77, 65535);
    assert_eq!(entry.to_text(), "MetadataEntry(token=0, kind=LZ77, value=65535)");
    for kind in [
        MetadataKind::Literal,
        MetadataKind::Template,
        MetadataKind::LZ77,
        MetadataKind::Semantic,
        MetadataKind::Fallback,
    ] {
        assert_eq!(kind.name(), format!("{:?}", kind));
    }
}
