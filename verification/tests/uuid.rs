use bedrock_proto::uuid::UUID;
use std::str::FromStr;

#[test]
fn uuid_from_u128be() {
    let id = UUID::from_u128be(0x0123_4567_89AB_CDEF_0123_4567_89AB_CDEF);
    assert_eq!(id.as_u128(), 0x0123_4567_89AB_CDEF_0123_4567_89AB_CDEF);
    assert_eq!(id.to_string(), "01234567-89ab-cdef-0123-456789abcdef");
}

#[test]
fn uuid_from_u64_pair() {
    let id = UUID::from_u64_pair(0xA1A2_A3A4_B1B2_C1C2, 0xD1D2_D3D4_D5D6_D7D8);
    assert_eq!(id.as_u128(), 0xA1A2_A3A4_B1B2_C1C2_D1D2_D3D4_D5D6_D7D8);
    assert_eq!(id.to_string(), "a1a2a3a4-b1b2-c1c2-d1d2-d3d4d5d6d7d8");
    assert_eq!(UUID::from_u64_pair(0, 1).as_u128(), 1);
    assert_eq!(UUID::from_u64_pair(1, 0).as_u128(), 1 << 64);
    assert_eq!(UUID::from_u64_pair(u64::MAX, u64::MAX).as_u128(), u128::MAX);
    assert_eq!(
        id,
        UUID::from_uuid(uuid::Uuid::from_u64_pair(0xA1A2_A3A4_B1B2_C1C2, 0xD1D2_D3D4_D5D6_D7D8))
    );
}

#[test]
fn uuid_from_slice() {
    let bytes = [1u8, 2, 3, 4, 5, 6, 7, 8, 9, 10, 11, 12, 13, 14, 15, 16];
    let id = UUID::from_slice(&bytes).ok().unwrap();
    assert_eq!(id.as_u128(), 0x0102_0304_0506_0708_090A_0B0C_0D0E_0F10);
    assert_eq!(id.as_u128(), u128::from_be_bytes(bytes));
    assert!(UUID::from_slice(&bytes[..15]).is_err());
    assert!(UUID::from_slice(&[]).is_err());
    assert!(UUID::from_slice(&[0u8; 17]).is_err());
    match UUID::from_slice(&bytes[..3]) {
        Err(e) => assert!(format!("{}", e.0).contains("3")),
        Ok(_) => panic!("three bytes are no identifier"),
    }
}

#[test]
fn uuid_from_uuid() {
    let outside = uuid::Uuid::from_u128(42);
    assert_eq!(UUID::from_uuid(outside).as_u128(), 42);
    assert_eq!(UUID::from_uuid(outside), UUID::from_u128be(42));
    assert_ne!(UUID::from_uuid(outside), UUID::from_u128be(43));
}

#[test]
fn uuid_from_text() {
    let id = UUID::from_str("67e55044-10b1-426f-9247-bb680e5fe0c8").ok().unwrap();
    assert_eq!(id.as_u128(), 0x67e5504410b1426f9247bb680e5fe0c8);
    let id = UUID::parse_str("67E5504410B1426F9247BB680E5FE0C8").ok().unwrap();
    assert_eq!(id.to_string(), "67e55044-10b1-426f-9247-bb680e5fe0c8");
    assert!(UUID::from_str("not an identifier").is_err());
    assert!(UUID::parse_str("").is_err());
    let parsed: Result<UUID, _> = "00000000-0000-0000-0000-000000000001".parse();
    assert_eq!(parsed.ok().unwrap(), UUID::from_u128be(1));
}

#[test]
fn uuid_text_round_trip() {
    for v in [0u128, 1, u128::MAX, 0x0123_4567_89AB_CDEF_0123_4567_89AB_CDEF] {
        let id = UUID::from_u128be(v);
        let text = id.to_string();
        assert_eq!(text.len(), 36);
        assert_eq!(UUID::parse_str(&text).ok().unwrap(), id);
    }
}

#[test]
fn uuid_new_v4_is_version_four() {
    for _ in 0..32 {
        let id = UUID::new_v4().as_u128();
        assert_eq!((id >> 76) & 0xF, 4);
        assert_eq!((id >> 62) & 0x3, 2);
    }
    assert_ne!(UUID::new_v4(), UUID::new_v4());
}

#[test]
fn uuid_order_and_copy() {
    let low = UUID::from_u128be(5);
    let high = UUID::from_u64_pair(1, 0);
    let copy = low;
    assert_eq!(copy, low);
    assert!(low < high);
    assert_eq!(low.max(high), high);
    assert_eq!(
        uuid::Uuid::from_u128(5).cmp(&uuid::Uuid::from_u64_pair(1, 0)),
        low.cmp(&high)
    );
}

#[test]
fn uuid_text_is_hyphenated_lower_case() {
    let text = UUID::from_u128be(0xFEDC_BA98_7654_3210_0F1E_2D3C_4B5A_6978).to_string();
    assert_eq!(text, "fedcba98-7654-3210-0f1e-2d3c4b5a6978");
    let text = UUID::from_u128be(0).to_string();
    assert_eq!(text, "00000000-0000-0000-0000-000000000000");
    let text = UUID::from_u128be(u128::MAX).to_string();
    assert_eq!(text, "ffffffff-ffff-ffff-ffff-ffffffffffff");
    for (p, c) in text.chars().enumerate() {
        assert_eq!(c == '-', p == 8 || p == 13 || p == 18 || p == 23);
    }
}
