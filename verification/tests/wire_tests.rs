use yggdrasil_appearancelib::error::AppearanceError;
use yggdrasil_appearancelib::wire::{
    invalid_data, read_string, too_long_error, write_bytes, write_i32, write_string, write_u32,
    write_u8, ByteReader,
};

#[test]
fn test_read_string() {
    let data = vec![
        5, 0, 0, 0, // length = 5
        b'h', b'e', b'l', b'l', b'o',
    ];
    let mut cursor = ByteReader::new(&data);
    let result = read_string(&mut cursor).unwrap();
    assert_eq!(result, "hello");
}

#[test]
fn numbers_are_read_lowest_byte_first() {
    let data = vec![0x40, 0x42, 0x0f, 0x00, 0xc0, 0xbd, 0xf0, 0xff, 7];
    let mut reader = ByteReader::new(&data);
    assert_eq!(reader.remaining(), 9);
    assert_eq!(reader.read_u32(), Ok(1_000_000));
    assert_eq!(reader.read_i32(), Ok(-1_000_000));
    assert_eq!(reader.read_u8(), Ok(7));
    assert_eq!(reader.remaining(), 0);
    assert_eq!(reader.read_u8(), Err(AppearanceError::Truncated));
}

#[test]
fn a_number_that_is_cut_off_is_truncated_and_leaves_the_reader_in_place() {
    let data = vec![1, 2, 3];
    let mut reader = ByteReader::new(&data);
    assert_eq!(reader.read_u32(), Err(AppearanceError::Truncated));
    assert_eq!(reader.read_i32(), Err(AppearanceError::Truncated));
    assert_eq!(reader.remaining(), 3);
    assert_eq!(reader.read_u8(), Ok(1));
    assert_eq!(reader.read_bytes(3), Err(AppearanceError::Truncated));
    assert_eq!(reader.read_bytes(2), Ok(vec![2, 3]));
    assert_eq!(reader.read_bytes(0), Ok(vec![]));
}

#[test]
fn the_largest_and_smallest_numbers_are_read() {
    let data = vec![0xff, 0xff, 0xff, 0xff, 0x00, 0x00, 0x00, 0x80, 0xff, 0xff, 0xff, 0x7f];
    let mut reader = ByteReader::new(&data);
    assert_eq!(reader.read_u32(), Ok(u32::MAX));
    assert_eq!(reader.read_i32(), Ok(i32::MIN));
    assert_eq!(reader.read_i32(), Ok(i32::MAX));
}

#[test]
fn a_string_that_is_cut_off_is_truncated() {
    let data = vec![5, 0, 0, 0, b'h', b'e'];
    let mut reader = ByteReader::new(&data);
    assert_eq!(read_string(&mut reader), Err(AppearanceError::Truncated));
    assert_eq!(reader.remaining(), 6);
    let short = vec![5, 0];
    let mut reader = ByteReader::new(&short);
    assert_eq!(read_string(&mut reader), Err(AppearanceError::Truncated));
}

#[test]
fn a_string_that_is_not_utf8_is_refused() {
    let data = vec![2, 0, 0, 0, 0xff, 0xfe, 9];
    let mut reader = ByteReader::new(&data);
    assert_eq!(read_string(&mut reader), Err(AppearanceError::InvalidUtf8));
    assert_eq!(reader.remaining(), 7);
}

#[test]
fn strings_of_several_bytes_per_character_are_read() {
    let text = "açaí ✓";
    let mut data = Vec::new();
    assert_eq!(write_string(&mut data, text), Ok(()));
    assert_eq!(data.len(), 4 + text.len());
    assert_eq!(&data[..4], &[text.len() as u8, 0, 0, 0]);
    data.push(1);
    let mut reader = ByteReader::new(&data);
    assert_eq!(read_string(&mut reader), Ok(text.to_string()));
    assert_eq!(reader.remaining(), 1);
}

#[test]
fn the_empty_string_is_four_bytes() {
    let mut data = Vec::new();
    assert_eq!(write_string(&mut data, ""), Ok(()));
    assert_eq!(data, vec![0, 0, 0, 0]);
    let mut reader = ByteReader::new(&data);
    assert_eq!(read_string(&mut reader), Ok(String::new()));
}

#[test]
fn numbers_are_written_lowest_byte_first() {
    let mut data = vec![9];
    write_u32(&mut data, 1_000_000);
    write_i32(&mut data, -2);
    write_u8(&mut data, 200);
    write_bytes(&mut data, &[1, 2]);
    write_u32(&mut data, 0x0403_0201);
    assert_eq!(
        data,
        vec![9, 0x40, 0x42, 0x0f, 0x00, 0xfe, 0xff, 0xff, 0xff, 200, 1, 2, 1, 2, 3, 4]
    );
}

#[test]
fn what_is_written_is_read_back() {
    let mut data = Vec::new();
    for value in [0u32, 1, 255, 256, 65_535, 65_536, 16_777_216, u32::MAX] {
        write_u32(&mut data, value);
    }
    for value in [0i32, -1, 1, i32::MIN, i32::MAX, -65_536] {
        write_i32(&mut data, value);
    }
    let mut reader = ByteReader::new(&data);
    for value in [0u32, 1, 255, 256, 65_535, 65_536, 16_777_216, u32::MAX] {
        assert_eq!(reader.read_u32(), Ok(value));
    }
    for value in [0i32, -1, 1, i32::MIN, i32::MAX, -65_536] {
        assert_eq!(reader.read_i32(), Ok(value));
    }
    assert_eq!(reader.remaining(), 0);
}

#[test]
fn errors_carry_their_message() {
    assert_eq!(invalid_data("no"), AppearanceError::InvalidData("no".to_string()));
    assert_eq!(
        too_long_error(),
        AppearanceError::InvalidData("a text or a list is too long to be stored".to_string())
    );
}
