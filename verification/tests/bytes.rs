use wasabi::bytes::{push_u16, push_u32, push_u64, push_u8, read_u32, read_u64};

#[test]
fn numbers_are_written_least_significant_byte_first() {
    let mut out = vec![0xAAu8];
    push_u8(&mut out, 0x12);
    push_u16(&mut out, 0x3456);
    push_u32(&mut out, 0x789a_bcde);
    push_u64(&mut out, 0x0102_0304_0506_0708);
    assert_eq!(
        out,
        vec![0xAA, 0x12, 0x56, 0x34, 0xde, 0xbc, 0x9a, 0x78, 0x08, 0x07, 0x06, 0x05, 0x04, 0x03, 0x02, 0x01]
    );
    let mut max = Vec::new();
    push_u64(&mut max, u64::MAX);
    push_u32(&mut max, u32::MAX);
    push_u16(&mut max, u16::MAX);
    assert_eq!(max, vec![0xffu8; 14]);
}

#[test]
fn numbers_are_read_as_they_were_written() {
    for value in [0u64, 1, 0xff, 0x100, 0x0102_0304_0506_0708, u64::MAX, 1 << 63] {
        let mut bytes = vec![0x55u8; 3];
        push_u64(&mut bytes, value);
        push_u32(&mut bytes, value as u32);
        assert_eq!(read_u64(&bytes, 3), value);
        assert_eq!(read_u32(&bytes, 11), value as u32);
        assert_eq!(&bytes[3..11], &value.to_le_bytes());
    }
    assert_eq!(read_u32(&[0x78, 0x56, 0x34, 0x12], 0), 0x1234_5678);
}
