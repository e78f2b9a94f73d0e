use wasm_core::codec::{read_u32, read_varu, read_varu1, read_varu32, read_varu7, read_vari32, read_vari64, read_vari7};
use wasm_core::error::CodecError;

fn reader(b: &[u8]) -> untrusted::Reader<'_> {
    untrusted::Reader::new(untrusted::Input::from(b))
}

#[test]
fn test_read_varu7() {
    let b = [0x7f];
    assert_eq!(read_varu7(&mut untrusted::Reader::new(untrusted::Input::from(&b))),
               Ok(0x7f));
}

#[test]
fn varu32_five_bytes_max() {
    let b = [0xff, 0xff, 0xff, 0xff, 0x0f];
    assert_eq!(read_varu32(&mut reader(&b)), Ok(0xffff_ffff));
}

#[test]
fn varu32_continuation_on_fifth_byte_is_bad() {
    let b = [0xff, 0xff, 0xff, 0xff, 0xff, 0x01];
    assert_eq!(read_varu32(&mut reader(&b)), Err(CodecError::BadVarInt));
}

#[test]
fn varu_all_continuation_is_bad() {
    let b = [0x80, 0x80, 0x80, 0x05];
    let mut rd = reader(&b);
    assert_eq!(read_varu(&mut rd, 3), Err(CodecError::BadVarInt));
    assert_eq!(rd.read_byte(), Ok(0x05));
}

#[test]
fn varu_truncated() {
    let b = [0x80, 0x80];
    assert_eq!(read_varu(&mut reader(&b), 5), Err(CodecError::Truncated));
    assert_eq!(read_varu(&mut reader(&[]), 5), Err(CodecError::Truncated));
}

#[test]
fn varu_two_in_a_row() {
    let b = [0xe5, 0x8e, 0x26, 0x05];
    let mut rd = reader(&b);
    assert_eq!(read_varu(&mut rd, 5), Ok(624485));
    assert_eq!(read_varu(&mut rd, 5), Ok(5));
    assert!(rd.at_end());
}

#[test]
fn varu64_ten_bytes() {
    let b = [0xff, 0xff, 0xff, 0xff, 0xff, 0xff, 0xff, 0xff, 0xff, 0x01];
    assert_eq!(read_varu(&mut reader(&b), 10), Ok(u64::MAX));
}

#[test]
fn varu1_values() {
    assert_eq!(read_varu1(&mut reader(&[0x01])), Ok(1));
    assert_eq!(read_varu1(&mut reader(&[0x02])), Err(CodecError::BadVarInt));
}

#[test]
fn vari7_sign_extends() {
    assert_eq!(read_vari7(&mut reader(&[0x7f])), Ok(-1));
    assert_eq!(read_vari7(&mut reader(&[0x40])), Ok(-64));
    assert_eq!(read_vari7(&mut reader(&[0x3f])), Ok(63));
    assert_eq!(read_vari7(&mut reader(&[0x70])), Ok(-16));
}

#[test]
fn vari32_sign_extends_from_last_group() {
    assert_eq!(read_vari32(&mut reader(&[0x7f])), Ok(-1));
    assert_eq!(read_vari32(&mut reader(&[0x80, 0x7f])), Ok(-128));
    assert_eq!(read_vari32(&mut reader(&[0xe5, 0x8e, 0x26])), Ok(624485));
    assert_eq!(read_vari32(&mut reader(&[0x80, 0x80, 0x80, 0x80, 0x78])), Ok(i32::MIN));
    assert_eq!(read_vari32(&mut reader(&[0xff, 0xff, 0xff, 0xff, 0x07])), Ok(i32::MAX));
}

#[test]
fn vari64_sign_extends() {
    assert_eq!(read_vari64(&mut reader(&[0x7f])), Ok(-1));
    assert_eq!(read_vari64(&mut reader(&[0xc0, 0xbb, 0x78])), Ok(-123456));
    let min = [0x80, 0x80, 0x80, 0x80, 0x80, 0x80, 0x80, 0x80, 0x80, 0x7f];
    assert_eq!(read_vari64(&mut reader(&min)), Ok(i64::MIN));
}

#[test]
fn u32_little_endian() {
    let b = [0x01, 0x02, 0x03, 0x04, 0x05];
    let mut rd = reader(&b);
    assert_eq!(read_u32(&mut rd), Ok(0x0403_0201));
    assert_eq!(read_u32(&mut rd), Err(CodecError::Truncated));
}
