use egs_api::api::error::EpicAPIError;
use egs_api::api::table::{table_of, Table};
use egs_api::api::text::{push_padded, push_radix, radix_len, to_hex};
use egs_api::api::types::chunk::Chunk;
use std::io::Write;

fn chunk_header(version: u32, compressed: bool) -> Vec<u8> {
    let mut out = Vec::new();
    out.extend_from_slice(&0xB1FE_3AA2u32.to_le_bytes());
    out.extend_from_slice(&version.to_le_bytes());
    out.extend_from_slice(&66u32.to_le_bytes());
    out.extend_from_slice(&5u32.to_le_bytes());
    out.extend_from_slice(&[
        0xdd, 0xcc, 0xbb, 0xaa, 0x33, 0x22, 0x11, 0x00, 0x77, 0x66, 0x55, 0x44, 0xbb, 0xaa, 0x99,
        0x88,
    ]);
    out.extend_from_slice(&0x1122_3344_5566_7788u64.to_le_bytes());
    out.push(if compressed { 1 } else { 0 });
    if version >= 2 {
        out.extend((1u8..=20).collect::<Vec<u8>>());
        out.push(3);
    }
    if version >= 3 {
        out.extend_from_slice(&5u32.to_le_bytes());
    }
    out
}

#[test]
fn chunk_with_stored_data() {
    let mut bytes = chunk_header(3, false);
    bytes.extend_from_slice(b"hello");
    let chunk = Chunk::from_vec(bytes).expect("a chunk");
    assert_eq!(chunk.header_version, 3);
    assert_eq!(chunk.header_size, 66);
    assert_eq!(chunk.compressed_size, 5);
    assert_eq!(chunk.guid, "aabbccdd00112233445566778899aabb");
    assert_eq!(chunk.hash, 0x1122_3344_5566_7788);
    assert_eq!(chunk.compressed, false);
    assert_eq!(chunk.sha_hash, Some((1u8..=20).collect::<Vec<u8>>()));
    assert_eq!(chunk.hash_type, Some(3));
    assert_eq!(chunk.uncompressed_size, Some(5));
    assert_eq!(chunk.data, b"hello".to_vec());
}

#[test]
fn chunk_with_compressed_data() {
    let mut z = flate2::write::ZlibEncoder::new(Vec::new(), flate2::Compression::default());
    z.write_all(b"hello hello hello").unwrap();
    let packed = z.finish().unwrap();
    let mut bytes = chunk_header(2, true);
    bytes.extend_from_slice(&packed);
    let chunk = Chunk::from_vec(bytes.clone()).expect("a chunk");
    assert_eq!(chunk.compressed, true);
    assert_eq!(chunk.uncompressed_size, None);
    assert_eq!(chunk.hash_type, Some(3));
    assert_eq!(chunk.data, b"hello hello hello".to_vec());
    let at = bytes.len() - 3;
    bytes[at] ^= 0xff;
    assert_eq!(Chunk::from_vec(bytes), None);
}

#[test]
fn chunk_of_the_first_header_version() {
    let mut bytes = chunk_header(1, false);
    bytes.extend_from_slice(&[9, 8, 7]);
    let chunk = Chunk::from_vec(bytes).expect("a chunk");
    assert_eq!(chunk.sha_hash, None);
    assert_eq!(chunk.hash_type, None);
    assert_eq!(chunk.uncompressed_size, None);
    assert_eq!(chunk.data, vec![9, 8, 7]);
}

#[test]
fn chunk_that_is_none() {
    assert_eq!(Chunk::from_vec(Vec::new()), None);
    assert_eq!(Chunk::from_vec(vec![0; 100]), None);
    let bytes = chunk_header(3, false);
    assert_eq!(Chunk::from_vec(bytes[..65].to_vec()), None);
    assert_eq!(Chunk::from_vec(bytes[..40].to_vec()), None);
    assert!(Chunk::from_vec(bytes).is_some());
}

#[test]
fn table_keeps_the_order_of_first_insertion() {
    let mut table: Table<u32> = Table::new();
    assert_eq!(table.len(), 0);
    assert_eq!(table.get("a"), None);
    table.insert("b".to_string(), 1);
    table.insert("a".to_string(), 2);
    table.insert("b".to_string(), 3);
    assert_eq!(table.len(), 2);
    assert_eq!(table.key(0), "b");
    assert_eq!(table.key(1), "a");
    assert_eq!(*table.value(0), 3);
    assert_eq!(*table.value(1), 2);
    assert_eq!(table.get("b"), Some(&3));
    assert_eq!(table.find("a"), Some(1));
    assert_eq!(table.find("c"), None);
    assert!(table.contains_key("a"));
    assert!(!table.contains_key(""));
    let copy = table.clone();
    assert_eq!(copy, table);
    let built = table_of(
        vec!["b".to_string(), "a".to_string(), "b".to_string()],
        vec![1u32, 2, 3],
    );
    assert_eq!(built, table);
    assert_eq!(Table::<u32>::default().len(), 0);
}

#[test]
fn hexadecimal_text() {
    assert_eq!(to_hex(&[]), "");
    assert_eq!(to_hex(&[0x00, 0x0f, 0xa0, 0xff]), "000fa0ff");
}

#[test]
fn digits_in_a_base() {
    let mut text = String::from(">");
    push_radix(&mut text, 0, 10, false);
    push_radix(&mut text, 1234567890, 10, false);
    push_radix(&mut text, 0xdead_beef, 16, false);
    push_radix(&mut text, 0xdead_beef, 16, true);
    push_radix(&mut text, 5, 2, false);
    assert_eq!(text, ">01234567890deadbeefDEADBEEF101");
    assert_eq!(radix_len(0, 10, false), 1);
    assert_eq!(radix_len(9, 10, false), 1);
    assert_eq!(radix_len(10, 10, false), 2);
    assert_eq!(radix_len(u128::MAX, 16, true), 32);
    assert_eq!(radix_len(u128::MAX, 10, false), 39);
    let mut padded = String::new();
    push_padded(&mut padded, 7, 10, 2, false);
    push_padded(&mut padded, 123, 10, 2, false);
    push_padded(&mut padded, 0xab, 16, 4, true);
    push_padded(&mut padded, 0, 10, 0, false);
    assert_eq!(padded, "0712300AB0");
}

#[test]
fn error_texts() {
    assert_eq!(EpicAPIError::InvalidCredentials.description(), "Invalid Credentials");
    assert_eq!(EpicAPIError::Unknown.description(), "Unknown Error");
    assert_eq!(EpicAPIError::Server.description(), "Server Error");
    assert_eq!(EpicAPIError::APIError("x".to_string()).description(), "API Error");
    assert_eq!(EpicAPIError::InvalidParams.description(), "Invalid Input Parameters");
    assert_eq!(EpicAPIError::FabTimeout.description(), "Fab Timeout Error");
    assert_eq!(EpicAPIError::APIError("denied".to_string()).message(), "API Error: denied");
    assert_eq!(EpicAPIError::InvalidCredentials.message(), "Invalid Credentials");
    assert_eq!(EpicAPIError::Unknown.message(), "Unknown Error");
    assert_eq!(EpicAPIError::Server.message(), "Server Error");
    assert_eq!(EpicAPIError::InvalidParams.message(), "Invalid Input Parameters");
    assert_eq!(EpicAPIError::FabTimeout.message(), "Fab Timeout Error");
}
