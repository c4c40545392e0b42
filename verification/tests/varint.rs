use bedrock_proto::error::ProtoCodecError;
use bedrock_proto::stream::{
    write_var_i32, write_var_i64, write_var_u32, write_var_u64, ByteReader,
};
use bedrock_proto::varint::{
    zigzag_decode_i32, zigzag_decode_i64, zigzag_encode_i32, zigzag_encode_i64, MAX_GROUPS_32,
    MAX_GROUPS_64,
};

fn var_u32(v: u32) -> Vec<u8> {
    let mut out = Vec::new();
    write_var_u32(&mut out, v);
    out
}

fn var_u64(v: u64) -> Vec<u8> {
    let mut out = Vec::new();
    write_var_u64(&mut out, v);
    out
}

#[test]
fn var_u32_exact_bytes() {
    assert_eq!(var_u32(0), vec![0x00]);
    assert_eq!(var_u32(1), vec![0x01]);
    assert_eq!(var_u32(127), vec![0x7F]);
    assert_eq!(var_u32(128), vec![0x80, 0x01]);
    assert_eq!(var_u32(300), vec![0xAC, 0x02]);
    assert_eq!(var_u32(16383), vec![0xFF, 0x7F]);
    assert_eq!(var_u32(16384), vec![0x80, 0x80, 0x01]);
    assert_eq!(var_u32(u32::MAX), vec![0xFF, 0xFF, 0xFF, 0xFF, 0x0F]);
}

#[test]
fn var_u32_three_hundred() {
    let out = var_u32(300);
    let mut reader = ByteReader::new(&out);
    assert_eq!(reader.read_var_u32(), Ok(300));
    assert!(reader.is_exhausted());
}

#[test]
fn var_u32_round_trips_and_is_minimal() {
    let mut samples: Vec<u32> = vec![0, 1, 127, 128, 255, 256, 16383, 16384, 2097151, 2097152];
    samples.extend_from_slice(&[268435455, 268435456, u32::MAX - 1, u32::MAX]);
    for shift in 0..32 {
        samples.push(1u32 << shift);
        samples.push((1u32 << shift).wrapping_sub(1));
    }
    for n in samples {
        let out = var_u32(n);
        let mut groups = 1;
        while groups < 5 && (n as u64) >= 1u64 << (7 * groups) {
            groups += 1;
        }
        assert_eq!(out.len(), groups, "length of {}", n);
        let mut reader = ByteReader::new(&out);
        assert_eq!(reader.read_var_u32(), Ok(n));
        assert_eq!(reader.position(), out.len());
    }
}

#[test]
fn var_u32_leaves_what_follows() {
    let mut out = var_u32(624485);
    assert_eq!(out, vec![0xE5, 0x8E, 0x26]);
    out.push(0x55);
    let mut reader = ByteReader::new(&out);
    assert_eq!(reader.read_var_u32(), Ok(624485));
    assert_eq!(reader.remaining_len(), 1);
    assert_eq!(reader.read_u8(), Ok(0x55));
}

#[test]
fn var_u64_round_trips() {
    assert_eq!(var_u64(u64::MAX).len(), MAX_GROUPS_64);
    assert_eq!(
        var_u64(u64::MAX),
        vec![0xFF, 0xFF, 0xFF, 0xFF, 0xFF, 0xFF, 0xFF, 0xFF, 0xFF, 0x01]
    );
    for n in [0u64, 1, 127, 128, u32::MAX as u64, u32::MAX as u64 + 1, 1 << 56, u64::MAX] {
        let out = var_u64(n);
        let mut reader = ByteReader::new(&out);
        assert_eq!(reader.read_var_u64(), Ok(n));
        assert!(reader.is_exhausted());
    }
}

#[test]
fn zigzag_exact_values() {
    assert_eq!(zigzag_encode_i32(0), 0);
    assert_eq!(zigzag_encode_i32(-1), 1);
    assert_eq!(zigzag_encode_i32(1), 2);
    assert_eq!(zigzag_encode_i32(-2), 3);
    assert_eq!(zigzag_encode_i32(2), 4);
    assert_eq!(zigzag_encode_i32(i32::MAX), u32::MAX - 1);
    assert_eq!(zigzag_encode_i32(i32::MIN), u32::MAX);
    assert_eq!(zigzag_decode_i32(0), 0);
    assert_eq!(zigzag_decode_i32(1), -1);
    assert_eq!(zigzag_decode_i32(2), 1);
    assert_eq!(zigzag_decode_i32(u32::MAX), i32::MIN);
    assert_eq!(zigzag_decode_i32(u32::MAX - 1), i32::MAX);
    assert_eq!(zigzag_encode_i64(i64::MIN), u64::MAX);
    assert_eq!(zigzag_encode_i64(i64::MAX), u64::MAX - 1);
    assert_eq!(zigzag_encode_i64(-3), 5);
    assert_eq!(zigzag_decode_i64(u64::MAX), i64::MIN);
    assert_eq!(zigzag_decode_i64(5), -3);
}

#[test]
fn var_i32_boundaries_round_trip() {
    for n in [i32::MIN, i32::MIN + 1, -65, -64, -1, 0, 1, 63, 64, i32::MAX - 1, i32::MAX] {
        let mut out = Vec::new();
        write_var_i32(&mut out, n);
        let mut reader = ByteReader::new(&out);
        assert_eq!(reader.read_var_i32(), Ok(n));
        assert!(reader.is_exhausted());
        assert_eq!(zigzag_decode_i32(zigzag_encode_i32(n)), n);
    }
}

#[test]
fn var_i32_small_negatives_stay_short() {
    let mut out = Vec::new();
    write_var_i32(&mut out, -1);
    assert_eq!(out, vec![0x01]);
    let mut out = Vec::new();
    write_var_i32(&mut out, -64);
    assert_eq!(out, vec![0x7F]);
    let mut out = Vec::new();
    write_var_i32(&mut out, 64);
    assert_eq!(out, vec![0x80, 0x01]);
}

#[test]
fn var_i64_boundaries_round_trip() {
    for n in [i64::MIN, -1, 0, 1, i32::MAX as i64 + 1, i64::MAX] {
        let mut out = Vec::new();
        write_var_i64(&mut out, n);
        let mut reader = ByteReader::new(&out);
        assert_eq!(reader.read_var_i64(), Ok(n));
        assert!(reader.is_exhausted());
    }
}

#[test]
fn var_u32_unterminated_is_truncated() {
    for len in 0..MAX_GROUPS_32 {
        let bytes = vec![0x80u8; len];
        let mut reader = ByteReader::new(&bytes);
        assert_eq!(reader.read_var_u32(), Err(ProtoCodecError::TruncatedInput));
        assert_eq!(reader.position(), 0);
        let mut reader = ByteReader::new(&bytes);
        assert_eq!(reader.read_var_i32(), Err(ProtoCodecError::TruncatedInput));
    }
}

#[test]
fn var_u64_unterminated_is_truncated() {
    for len in 0..MAX_GROUPS_64 {
        let bytes = vec![0xFFu8; len];
        let mut reader = ByteReader::new(&bytes);
        assert_eq!(reader.read_var_u64(), Err(ProtoCodecError::TruncatedInput));
        assert_eq!(reader.position(), 0);
    }
}

#[test]
fn var_u32_too_many_groups_is_overflow() {
    let bytes = [0x80u8, 0x80, 0x80, 0x80, 0x80];
    let mut reader = ByteReader::new(&bytes);
    assert_eq!(reader.read_var_u32(), Err(ProtoCodecError::Overflow));
    assert_eq!(reader.position(), 0);
    let bytes = [0x80u8, 0x80, 0x80, 0x80, 0x80, 0x01];
    let mut reader = ByteReader::new(&bytes);
    assert_eq!(reader.read_var_u32(), Err(ProtoCodecError::Overflow));
}

#[test]
fn var_u32_too_wide_value_is_overflow() {
    let bytes = [0xFFu8, 0xFF, 0xFF, 0xFF, 0x1F];
    let mut reader = ByteReader::new(&bytes);
    assert_eq!(reader.read_var_u32(), Err(ProtoCodecError::Overflow));
    let bytes = [0xFFu8, 0xFF, 0xFF, 0xFF, 0x0F];
    let mut reader = ByteReader::new(&bytes);
    assert_eq!(reader.read_var_u32(), Ok(u32::MAX));
}

#[test]
fn var_u64_overflow_cases() {
    let bytes = [0x80u8; 10];
    let mut reader = ByteReader::new(&bytes);
    assert_eq!(reader.read_var_u64(), Err(ProtoCodecError::Overflow));
    let bytes = [0xFFu8, 0xFF, 0xFF, 0xFF, 0xFF, 0xFF, 0xFF, 0xFF, 0xFF, 0x02];
    let mut reader = ByteReader::new(&bytes);
    assert_eq!(reader.read_var_u64(), Err(ProtoCodecError::Overflow));
}

#[test]
fn var_u32_accepts_padded_encoding() {
    let bytes = [0x80u8, 0x00];
    let mut reader = ByteReader::new(&bytes);
    assert_eq!(reader.read_var_u32(), Ok(0));
    assert!(reader.is_exhausted());
}
