use dend_tools::fvt::{decode, encode, FvtError, FvtKind, FvtRecord};

fn record(kind: FvtKind, text: &str) -> FvtRecord {
    FvtRecord {
        kind,
        u32_unknown0: 0x01020304,
        u32_unknown1: 7,
        u32_unknown2: 0xFFFF_FFFF,
        u8_unknown0: 9,
        u8_unknown1: 200,
        text: text.to_string(),
    }
}

#[test]
fn fvt_dend_layout() {
    let bytes = encode(&record(FvtKind::DenD, "ab")).unwrap();
    assert_eq!(bytes, b"DEND_FVT\x04\x03\x02\x01\x09\x02\xc8ab".to_vec());
    let back = decode(&bytes).unwrap();
    assert_eq!(back.kind, FvtKind::DenD);
    assert_eq!(back.u32_unknown0, 0x01020304);
    assert_eq!(back.u32_unknown1, 0);
    assert_eq!(back.u8_unknown0, 9);
    assert_eq!(back.u8_unknown1, 200);
    assert_eq!(back.text, "ab");
}

#[test]
fn fvt_d2_and_d3_round_trip() {
    for kind in [FvtKind::D2, FvtKind::D3] {
        let bytes = encode(&record(kind, "テスト")).unwrap();
        assert_eq!(bytes.len(), 6 + 12 + 3 + 6);
        assert_eq!(bytes[19], 6);
        let back = decode(&bytes).unwrap();
        assert_eq!(back.kind, kind);
        assert_eq!(back.u32_unknown1, 7);
        assert_eq!(back.u32_unknown2, 0xFFFF_FFFF);
        assert_eq!(back.text, "テスト");
    }
}

#[test]
fn fvt_unknown_selector() {
    assert_eq!(decode(b"DX_FVT\0\0\0\0").err(), Some(FvtError::UnknownKind));
}

#[test]
fn fvt_truncated_text() {
    let mut bytes = encode(&record(FvtKind::D3, "abc")).unwrap();
    bytes.pop();
    assert_eq!(decode(&bytes).err(), Some(FvtError::Truncated));
    assert_eq!(decode(b"D").err(), Some(FvtError::Truncated));
}

#[test]
fn fvt_text_too_long() {
    let long = "x".repeat(256);
    assert_eq!(encode(&record(FvtKind::D2, &long)).err(), Some(FvtError::TextTooLong));
}

#[test]
fn fvt_tags() {
    assert_eq!(FvtKind::from_tag("DEND_FVT"), Some(FvtKind::DenD));
    assert_eq!(FvtKind::from_tag("D2_FVT"), Some(FvtKind::D2));
    assert_eq!(FvtKind::from_tag("D3_FVT"), Some(FvtKind::D3));
    assert_eq!(FvtKind::from_tag("D4_FVT"), None);
}
