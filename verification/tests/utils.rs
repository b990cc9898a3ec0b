use egs_api::api::utils::{
    blob_to_num, decode_hex, do_vecs_match, read_fstring, read_le, read_le_64, read_le_64_signed,
    read_le_signed, write_fstring, HexError,
};

#[test]
fn vector_match() {
    let a = vec![0, 0, 0];
    let b = vec![0, 0, 0];
    assert_eq!(do_vecs_match(&a, &b), true);
}

#[test]
fn vector_not_match() {
    let a = vec![0, 0, 0];
    let b = vec![0, 0, 1];
    assert_eq!(do_vecs_match(&a, &b), false);
}

#[test]
fn vector_length_differs() {
    let a = vec![7u8, 8];
    let b = vec![7u8, 8, 9];
    assert_eq!(do_vecs_match(&a, &b), false);
    assert_eq!(do_vecs_match(&b, &a), false);
    let empty: Vec<u8> = Vec::new();
    assert_eq!(do_vecs_match(&empty, &empty), true);
}

#[test]
fn blob_to_num_test() {
    assert_eq!(blob_to_num("165045004000"), 273829)
}

#[test]
fn blob_to_num_empty() {
    assert_eq!(blob_to_num(""), 0);
}

#[test]
fn blob_to_num_trailing_zero_groups() {
    assert_eq!(blob_to_num("001"), 1);
    assert_eq!(blob_to_num("001000"), 1);
    assert_eq!(blob_to_num("165045004000000000"), 273829);
}

#[test]
fn blob_to_num_byte_positions() {
    assert_eq!(blob_to_num("000001"), 256);
    assert_eq!(blob_to_num("255255"), 65535);
    assert_eq!(blob_to_num("000000000000000000000000000000000000000000000128"), 1u128 << 127);
}

#[test]
fn blob_to_num_groups_beyond_128_bits_count_as_zero() {
    let mut text = String::new();
    for _ in 0..16 {
        text.push_str("255");
    }
    assert_eq!(blob_to_num(&text), u128::MAX);
    text.push_str("007");
    assert_eq!(blob_to_num(&text), u128::MAX);
}

#[test]
fn blob_to_num_groups_that_do_not_parse_count_as_zero() {
    assert_eq!(blob_to_num("abc001"), 256);
    assert_eq!(blob_to_num("256001"), 256);
    assert_eq!(blob_to_num("999"), 0);
    assert_eq!(blob_to_num("+12"), 12);
    assert_eq!(blob_to_num(" 12"), 0);
    assert_eq!(blob_to_num("1 2"), 0);
}

#[test]
fn read_le_test() {
    let mut position: usize = 0;
    let buffer = vec![1, 2, 3, 4];
    assert_eq!(read_le(&buffer, &mut position), 67305985);
    assert_eq!(position, 4)
}

#[test]
fn read_le_at_an_offset() {
    let mut position: usize = 2;
    let buffer = vec![9, 9, 0xff, 0xff, 0xff, 0xff];
    assert_eq!(read_le(&buffer, &mut position), u32::MAX);
    assert_eq!(position, 6)
}

#[test]
fn read_le_signed_test() {
    let mut position: usize = 0;
    let buffer = vec![237, 201, 255, 255];
    assert_eq!(read_le_signed(&buffer, &mut position), -13843);
    assert_eq!(position, 4)
}

#[test]
fn read_le_signed_extremes() {
    let mut position: usize = 0;
    assert_eq!(read_le_signed(&[0, 0, 0, 0x80], &mut position), i32::MIN);
    position = 0;
    assert_eq!(read_le_signed(&[0xff, 0xff, 0xff, 0x7f], &mut position), i32::MAX);
    position = 0;
    assert_eq!(read_le_signed(&[0xff, 0xff, 0xff, 0xff], &mut position), -1);
}

#[test]
fn read_le_64_test() {
    let mut position: usize = 0;
    let buffer = vec![0, 0, 5, 3, 0, 1, 2, 3];
    assert_eq!(read_le_64(&buffer, &mut position), 216736831629492224);
    assert_eq!(position, 8)
}

#[test]
fn read_le_64_signed_test() {
    let mut position: usize = 0;
    let buffer = vec![237, 201, 255, 255, 255, 255, 255, 255];
    assert_eq!(read_le_64_signed(&buffer, &mut position), -13843);
    assert_eq!(position, 8)
}

#[test]
fn read_le_64_signed_extremes() {
    let mut position: usize = 0;
    assert_eq!(read_le_64_signed(&[0, 0, 0, 0, 0, 0, 0, 0x80], &mut position), i64::MIN);
    position = 0;
    assert_eq!(
        read_le_64_signed(&[0xff, 0xff, 0xff, 0xff, 0xff, 0xff, 0xff, 0x7f], &mut position),
        i64::MAX
    );
}

#[test]
fn read_fstring_utf8() {
    let mut position: usize = 0;
    let buffer = vec![5, 0, 0, 0, 97, 98, 99, 100, 0];
    assert_eq!(
        read_fstring(&buffer, &mut position),
        Some("abcd".to_string())
    );
    assert_eq!(position, 9)
}

#[test]
fn read_fstring_utf16() {
    let mut position: usize = 0;
    let buffer = vec![251, 255, 255, 255, 97, 0, 98, 0, 99, 0, 100, 0, 0, 0];
    assert_eq!(
        read_fstring(&buffer, &mut position),
        Some("abcd".to_string())
    );
    assert_eq!(position, 14)
}

#[test]
fn read_fstring_utf16_beyond_latin() {
    let mut position: usize = 0;
    // U+20AC, then U+1F600 as a surrogate pair, then the closing NUL pair.
    let buffer = vec![252, 255, 255, 255, 0xac, 0x20, 0x3d, 0xd8, 0x00, 0xde, 0, 0];
    assert_eq!(
        read_fstring(&buffer, &mut position),
        Some("\u{20ac}\u{1f600}".to_string())
    );
    assert_eq!(position, 12)
}

#[test]
fn read_fstring_empty() {
    let mut position: usize = 0;
    let buffer = vec![0, 0, 0, 0, 65];
    assert_eq!(read_fstring(&buffer, &mut position), None);
    assert_eq!(position, 4)
}

#[test]
fn read_fstring_malformed_utf8() {
    let mut position: usize = 0;
    let buffer = vec![3, 0, 0, 0, 0xff, 0xfe, 0];
    assert_eq!(read_fstring(&buffer, &mut position), None);
    assert_eq!(position, 7)
}

#[test]
fn read_fstring_only_the_terminator() {
    let mut position: usize = 0;
    let buffer = vec![1, 0, 0, 0, 0];
    assert_eq!(read_fstring(&buffer, &mut position), Some(String::new()));
    assert_eq!(position, 5)
}

#[test]
fn write_fstring_empty() {
    assert_eq!(write_fstring(String::new()), vec![0, 0, 0, 0]);
}

#[test]
fn write_fstring_text() {
    assert_eq!(
        write_fstring("abcd".to_string()),
        vec![5, 0, 0, 0, 97, 98, 99, 100, 0]
    );
    assert_eq!(
        write_fstring("\u{20ac}".to_string()),
        vec![4, 0, 0, 0, 0xe2, 0x82, 0xac, 0]
    );
}

#[test]
fn write_fstring_is_read_back() {
    let texts = ["hello.txt", "dir/\u{e9}t\u{e9}.bin", "x"];
    for text in texts {
        let bytes = write_fstring(text.to_string());
        let mut position: usize = 0;
        assert_eq!(read_fstring(&bytes, &mut position), Some(text.to_string()));
        assert_eq!(position, bytes.len());
    }
}

#[test]
fn decode_hex_pairs() {
    assert_eq!(decode_hex("00ff10Ab"), Ok(vec![0, 255, 16, 171]));
    assert_eq!(decode_hex(""), Ok(vec![]));
    assert_eq!(decode_hex("+f"), Ok(vec![15]));
}

#[test]
fn decode_hex_errors() {
    assert_eq!(decode_hex("abc"), Err(HexError::OddLength));
    assert_eq!(decode_hex("zz"), Err(HexError::InvalidDigit));
    assert_eq!(decode_hex("0g"), Err(HexError::InvalidDigit));
    assert_eq!(decode_hex("f+"), Err(HexError::InvalidDigit));
}
