use eventlog_rs::bytes::{read_bytes, read_u16, read_u32, read_u64, read_u8};

#[test]
fn little_endian_fields() {
    let data = [0x01, 0x02, 0x03, 0x04, 0x05, 0x06, 0x07, 0x08, 0x09];
    assert_eq!(read_u8(&data, 8), Some(0x09));
    assert_eq!(read_u16(&data, 0), Some(0x0201));
    assert_eq!(read_u16(&data, 7), Some(0x0908));
    assert_eq!(read_u32(&data, 1), Some(0x0504_0302));
    assert_eq!(read_u64(&data, 1), Some(0x0908_0706_0504_0302));
    assert_eq!(read_u64(&[0xFF; 8], 0), Some(u64::MAX));
}

#[test]
fn fields_beyond_the_buffer() {
    let data = [0x01, 0x02, 0x03, 0x04, 0x05, 0x06, 0x07, 0x08, 0x09];
    assert_eq!(read_u8(&data, 9), None);
    assert_eq!(read_u16(&data, 8), None);
    assert_eq!(read_u32(&data, 6), None);
    assert_eq!(read_u64(&data, 2), None);
    assert_eq!(read_u64(&data, usize::MAX), None);
    assert_eq!(read_u16(&[], 0), None);
}

#[test]
fn raw_fields() {
    let data = [1, 2, 3, 4, 5];
    assert_eq!(read_bytes(&data, 1, 3), Some(vec![2, 3, 4]));
    assert_eq!(read_bytes(&data, 5, 0), Some(vec![]));
    assert_eq!(read_bytes(&data, 0, 5), Some(vec![1, 2, 3, 4, 5]));
    assert_eq!(read_bytes(&data, 3, 3), None);
    assert_eq!(read_bytes(&data, 6, 0), None);
    assert_eq!(read_bytes(&data, 1, usize::MAX), None);
}
