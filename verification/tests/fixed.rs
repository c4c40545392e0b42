use bedrock_proto::error::ProtoCodecError;
use bedrock_proto::stream::{
    write_bytes, write_le_i32, write_le_i64, write_le_u16, write_le_u32, write_le_u64, write_u8,
    ByteReader,
};

#[test]
fn le_exact_bytes() {
    let mut out = Vec::new();
    write_le_u16(&mut out, 0x1234);
    assert_eq!(out, vec![0x34, 0x12]);
    let mut out = Vec::new();
    write_le_u32(&mut out, 0x1234_5678);
    assert_eq!(out, vec![0x78, 0x56, 0x34, 0x12]);
    let mut out = Vec::new();
    write_le_u64(&mut out, 0x0102_0304_0506_0708);
    assert_eq!(out, vec![0x08, 0x07, 0x06, 0x05, 0x04, 0x03, 0x02, 0x01]);
    let mut out = Vec::new();
    write_le_i32(&mut out, -2);
    assert_eq!(out, vec![0xFE, 0xFF, 0xFF, 0xFF]);
    let mut out = Vec::new();
    write_le_i32(&mut out, i32::MIN);
    assert_eq!(out, vec![0x00, 0x00, 0x00, 0x80]);
    let mut out = Vec::new();
    write_le_i64(&mut out, -1);
    assert_eq!(out, vec![0xFF; 8]);
}

#[test]
fn le_matches_std() {
    for v in [0u32, 1, 255, 256, 0xDEAD_BEEF, u32::MAX] {
        let mut out = Vec::new();
        write_le_u32(&mut out, v);
        assert_eq!(out, v.to_le_bytes().to_vec());
    }
    for v in [i32::MIN, -1, 0, 1, 1234567, i32::MAX] {
        let mut out = Vec::new();
        write_le_i32(&mut out, v);
        assert_eq!(out, v.to_le_bytes().to_vec());
    }
    for v in [i64::MIN, -1, 0, 1, i64::MAX] {
        let mut out = Vec::new();
        write_le_i64(&mut out, v);
        assert_eq!(out, v.to_le_bytes().to_vec());
    }
}

#[test]
fn le_round_trips() {
    let mut out = Vec::new();
    write_le_u16(&mut out, u16::MAX);
    write_le_u32(&mut out, 0xCAFE_F00D);
    write_le_u64(&mut out, u64::MAX - 5);
    write_le_i32(&mut out, i32::MIN);
    write_le_i32(&mut out, i32::MAX);
    write_le_i64(&mut out, i64::MIN);
    write_le_i64(&mut out, -77);
    let mut reader = ByteReader::new(&out);
    assert_eq!(reader.read_le_u16(), Ok(u16::MAX));
    assert_eq!(reader.read_le_u32(), Ok(0xCAFE_F00D));
    assert_eq!(reader.read_le_u64(), Ok(u64::MAX - 5));
    assert_eq!(reader.read_le_i32(), Ok(i32::MIN));
    assert_eq!(reader.read_le_i32(), Ok(i32::MAX));
    assert_eq!(reader.read_le_i64(), Ok(i64::MIN));
    assert_eq!(reader.read_le_i64(), Ok(-77));
    assert!(reader.is_exhausted());
}

#[test]
fn le_short_input_is_truncated() {
    let bytes = [1u8, 2, 3];
    let mut reader = ByteReader::new(&bytes);
    assert_eq!(reader.read_le_u32(), Err(ProtoCodecError::TruncatedInput));
    assert_eq!(reader.read_le_i32(), Err(ProtoCodecError::TruncatedInput));
    assert_eq!(reader.read_le_u64(), Err(ProtoCodecError::TruncatedInput));
    assert_eq!(reader.position(), 0);
    assert_eq!(reader.read_le_u16(), Ok(0x0201));
    assert_eq!(reader.position(), 2);
    assert_eq!(reader.read_le_u16(), Err(ProtoCodecError::TruncatedInput));
    assert_eq!(reader.position(), 2);
}

#[test]
fn reader_bytes_and_positions() {
    let mut out = Vec::new();
    write_u8(&mut out, 9);
    write_bytes(&mut out, &[1, 2, 3, 4]);
    assert_eq!(out, vec![9, 1, 2, 3, 4]);
    let mut reader = ByteReader::new(&out);
    assert_eq!(reader.position(), 0);
    assert_eq!(reader.remaining_len(), 5);
    assert!(!reader.is_exhausted());
    assert_eq!(reader.read_u8(), Ok(9));
    assert_eq!(reader.read_bytes(5), Err(ProtoCodecError::TruncatedInput));
    assert_eq!(reader.position(), 1);
    assert_eq!(reader.read_bytes(3), Ok(vec![1, 2, 3]));
    assert_eq!(reader.read_bytes(0), Ok(vec![]));
    assert_eq!(reader.read_bytes(1), Ok(vec![4]));
    assert!(reader.is_exhausted());
    assert_eq!(reader.read_u8(), Err(ProtoCodecError::TruncatedInput));
}
