use bmff_window::window::{Endianness, Input, InputError};

#[test]
fn create_spans_whole_store() {
    let data: Vec<u8> = vec![1, 2, 3, 4, 5];
    let input = Input::create(&data);
    assert_eq!(input.limit(), 5);
    assert_eq!(input.position(), 0);
}

#[test]
fn read_u32_both_byte_orders() {
    let data: Vec<u8> = vec![0x12, 0x34, 0x56, 0x78, 0x12, 0x34, 0x56, 0x78];
    let mut input = Input::create(&data);
    assert_eq!(input.read_u32(&Endianness::Big), Ok(0x1234_5678));
    assert_eq!(input.read_u32(&Endianness::Little), Ok(0x7856_3412));
    assert_eq!(input.position(), 8);
}

#[test]
fn read_u32_last_four_bytes() {
    let data: Vec<u8> = vec![0, 0, 0, 1];
    let mut input = Input::create(&data);
    assert_eq!(input.read_u32(&Endianness::Big), Ok(1));
    assert_eq!(input.position(), 4);
}

#[test]
fn read_u32_past_limit_is_end_of_data() {
    let data: Vec<u8> = vec![0, 0, 1];
    let mut input = Input::create(&data);
    assert_eq!(input.read_u32(&Endianness::Big), Err(InputError::EndOfData));
    assert_eq!(input.position(), 0);
}

#[test]
fn read_u64_both_byte_orders() {
    let data: Vec<u8> = vec![1, 2, 3, 4, 5, 6, 7, 8, 1, 2, 3, 4, 5, 6, 7, 8];
    let mut input = Input::create(&data);
    assert_eq!(input.read_u64(&Endianness::Big), Ok(0x0102_0304_0506_0708));
    assert_eq!(input.read_u64(&Endianness::Little), Ok(0x0807_0605_0403_0201));
    assert_eq!(input.read_u64(&Endianness::Big), Err(InputError::EndOfData));
}

#[test]
fn read_u64_short_window() {
    let data: Vec<u8> = vec![0xff; 7];
    let mut input = Input::create(&data);
    assert_eq!(input.read_u64(&Endianness::Little), Err(InputError::EndOfData));
    assert_eq!(input.position(), 0);
}

#[test]
fn read_string_reads_text() {
    let data: Vec<u8> = b"moovmvhd".to_vec();
    let mut input = Input::create(&data);
    assert_eq!(input.read_string(4), Ok(String::from("moov")));
    assert_eq!(input.read_string(4), Ok(String::from("mvhd")));
    assert_eq!(input.position(), 8);
    assert_eq!(input.read_string(1), Err(InputError::EndOfData));
}

#[test]
fn read_string_rejects_invalid_utf8() {
    let data: Vec<u8> = vec![0xff, 0xfe, 0x61, 0x62];
    let mut input = Input::create(&data);
    assert_eq!(input.read_string(4), Err(InputError::InvalidText));
    assert_eq!(input.position(), 0);
}

#[test]
fn read_string_multibyte_text() {
    let data: Vec<u8> = "é!".as_bytes().to_vec();
    let mut input = Input::create(&data);
    assert_eq!(input.read_string(3), Ok(String::from("é!")));
}

#[test]
fn seek_bounds() {
    let data: Vec<u8> = vec![10, 20, 30, 40, 50, 60];
    let mut input = Input::create(&data);
    assert_eq!(input.seek(6), Err(InputError::EndOfData));
    assert_eq!(input.seek(5), Ok(()));
    assert_eq!(input.position(), 5);
    assert_eq!(input.seek(0), Ok(()));
    assert_eq!(input.read_string(2), Ok(String::from("\u{a}\u{14}")));
    assert_eq!(input.position(), 2);
}

#[test]
fn seek_zero_then_read_from_start() {
    let data: Vec<u8> = vec![0, 0, 0, 7, 0, 0, 0, 9];
    let mut input = Input::create(&data);
    assert_eq!(input.read_u32(&Endianness::Big), Ok(7));
    assert_eq!(input.seek(0), Ok(()));
    assert_eq!(input.read_u32(&Endianness::Big), Ok(7));
}

#[test]
fn fast_forward_skips_bytes() {
    let data: Vec<u8> = vec![0, 1, 2, 3, 0, 0, 0, 5];
    let mut input = Input::create(&data);
    assert_eq!(input.ff(4), Ok(()));
    assert_eq!(input.read_u32(&Endianness::Big), Ok(5));
}

#[test]
fn fast_forward_to_limit_fails() {
    let data: Vec<u8> = vec![0; 8];
    let mut input = Input::create(&data);
    assert_eq!(input.ff(2), Ok(()));
    assert_eq!(input.ff(6), Err(InputError::EndOfData));
    assert_eq!(input.position(), 2);
    assert_eq!(input.ff(u64::MAX), Err(InputError::EndOfData));
    assert_eq!(input.ff(5), Ok(()));
    assert_eq!(input.position(), 7);
}

#[test]
fn section_reads_same_bytes_as_parent() {
    let data: Vec<u8> = b"xxabcdefgh".to_vec();
    let mut parent = Input::create(&data);
    assert_eq!(parent.seek(2), Ok(()));
    let mut child = parent.section(6);
    assert_eq!(child.limit(), 6);
    assert_eq!(child.position(), 0);
    assert_eq!(parent.position(), 2);
    let through_section = child.read_string(6);
    let direct = parent.read_string(6);
    assert_eq!(through_section, Ok(String::from("abcdef")));
    assert_eq!(through_section, direct);
    assert_eq!(child.read_u32(&Endianness::Big), Err(InputError::EndOfData));
}

#[test]
fn section_of_section_keeps_own_cursor() {
    let data: Vec<u8> = vec![0, 0, 0, 0, 0, 0, 0, 1, 0, 0, 0, 2, 0, 0, 0, 3];
    let mut root = Input::create(&data);
    assert_eq!(root.seek(4), Ok(()));
    let mut outer = root.section(12);
    assert_eq!(outer.ff(4), Ok(()));
    let mut inner = outer.section(8);
    assert_eq!(inner.read_u32(&Endianness::Big), Ok(2));
    assert_eq!(outer.read_u32(&Endianness::Big), Ok(2));
    assert_eq!(inner.read_u32(&Endianness::Big), Ok(3));
    assert_eq!(root.read_u32(&Endianness::Big), Ok(1));
}
