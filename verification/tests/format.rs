use pumpkinscript::binparser::{
    data, data_size, payload, word, word_or_internal_word, write_size_into_slice,
};
use pumpkinscript::error::ParseError;
use pumpkinscript::offset_by_size;

#[test]
fn size_fields() {
    for (size, field) in [
        (0, vec![0]),
        (120, vec![120]),
        (121, vec![121, 121]),
        (255, vec![121, 255]),
        (256, vec![122, 1, 0]),
        (65535, vec![122, 255, 255]),
        (65536, vec![123, 0, 1, 0, 0]),
        (0x01020304, vec![123, 1, 2, 3, 4]),
        (4294967295, vec![123, 255, 255, 255, 255]),
    ] {
        let mut slice = [9; 7];
        assert_eq!(write_size_into_slice(size, &mut slice), field.len());
        assert_eq!(&slice[..field.len()], &field[..]);
        assert!(slice[field.len()..].iter().all(|byte| *byte == 9));
        assert_eq!(offset_by_size(size), field.len());
        assert_eq!(data_size(&field), Ok(size));
    }
}

#[test]
fn the_largest_size_cannot_be_read_back() {
    assert_eq!(offset_by_size(4294967296), 5);
    assert_eq!(data_size(&[123, 0, 0, 0, 0]), Err(ParseError::UnknownErr));
}

#[test]
fn size_fields_are_for_their_sizes() {
    for field in [
        &[121, 120][..],
        &[122, 0, 255],
        &[123, 0, 0, 255, 255],
        &[124],
        &[127],
        &[128],
        &[255],
    ] {
        assert_eq!(data_size(field), Err(ParseError::UnknownErr));
    }
    for field in [&[][..], &[121], &[122, 1], &[123, 0, 1, 0]] {
        assert_eq!(data_size(field), Err(ParseError::Incomplete));
    }
}

#[test]
fn data_is_delimited() {
    assert_eq!(data(&[0, 1, 2]), Ok(&[0][..]));
    assert_eq!(data(&[2, 7, 8, 9]), Ok(&[2, 7, 8][..]));
    assert_eq!(data(&[2, 7]), Err(ParseError::Incomplete));
    assert_eq!(data(&[0x83, 0x44, 0x55, 0x50]), Err(ParseError::UnknownErr));
    let mut long = vec![121, 200];
    long.extend_from_slice(&[5; 200]);
    let item = long.clone();
    long.push(6);
    assert_eq!(data(&long), Ok(&item[..]));
    assert_eq!(payload(&item), &[5; 200][..]);
    assert_eq!(payload(&[0]), &[][..]);
}

#[test]
fn words_are_delimited() {
    assert_eq!(word(&[0x83, 0x44, 0x55, 0x50, 1]), Ok(&[0x83, 0x44, 0x55, 0x50][..]));
    assert_eq!(word(&[0x83, 0x44]), Err(ParseError::Incomplete));
    assert_eq!(word(&[]), Err(ParseError::Incomplete));
    assert_eq!(word(&[0x80, 0x81, 0x41]), Err(ParseError::UnknownErr));
    assert_eq!(word(&[3, 1, 2, 3]), Err(ParseError::UnknownErr));
    assert_eq!(word_or_internal_word(&[0x80, 0x81, 0x41, 7]), Ok(&[0x80, 0x81, 0x41][..]));
    assert_eq!(word_or_internal_word(&[0x81, 0x41, 7]), Ok(&[0x81, 0x41][..]));
    assert_eq!(word_or_internal_word(&[0x80]), Err(ParseError::Incomplete));
    assert_eq!(word_or_internal_word(&[0x80, 3]), Err(ParseError::UnknownErr));
}
