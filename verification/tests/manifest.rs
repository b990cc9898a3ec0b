use egs_api::api::binary::{read_chunks, read_files};
use egs_api::api::payload::{open_envelope, read_payload, ManifestError};
use egs_api::api::table::Table;
use egs_api::api::types::download_manifest::{
    chunk_url, take_first_entry, DownloadManifest, FileChunkPart, FileManifestList,
};
use sha1::{Digest, Sha1};
use std::io::Write;

const GUID: &str = "aabbccdd00112233445566778899aabb";
const GUID_WIRE: [u8; 16] = [
    0xdd, 0xcc, 0xbb, 0xaa, 0x33, 0x22, 0x11, 0x00, 0x77, 0x66, 0x55, 0x44, 0xbb, 0xaa, 0x99, 0x88,
];

fn fstring(text: &str) -> Vec<u8> {
    let mut out = Vec::new();
    if text.is_empty() {
        out.extend_from_slice(&0u32.to_le_bytes());
    } else {
        out.extend_from_slice(&((text.len() + 1) as u32).to_le_bytes());
        out.extend_from_slice(text.as_bytes());
        out.push(0);
    }
    out
}

fn section(version: u8, fields: &[u8]) -> Vec<u8> {
    let mut out = Vec::new();
    out.extend_from_slice(&((fields.len() + 5) as u32).to_le_bytes());
    out.push(version);
    out.extend_from_slice(fields);
    out
}

fn meta_fields(version: u8, feature_level: u32) -> Vec<u8> {
    let mut out = Vec::new();
    out.extend_from_slice(&feature_level.to_le_bytes());
    out.push(0);
    out.extend_from_slice(&7u32.to_le_bytes());
    out.extend(fstring("HelloApp"));
    out.extend(fstring("1.0-old"));
    out.extend(fstring("bin/hello.exe"));
    out.extend(fstring("-run"));
    out.extend_from_slice(&2u32.to_le_bytes());
    out.extend(fstring("redist-a"));
    out.extend(fstring("redist-b"));
    out.extend(fstring("Redist"));
    out.extend(fstring("redist/setup.exe"));
    out.extend(fstring("/quiet"));
    if version >= 1 {
        out.extend(fstring("1.0-new"));
    }
    if version >= 2 {
        out.extend(fstring("uninstall.exe"));
        out.extend(fstring("/all"));
    }
    out
}

fn chunk_fields() -> Vec<u8> {
    let mut out = Vec::new();
    out.extend_from_slice(&1u32.to_le_bytes());
    out.extend_from_slice(&GUID_WIRE);
    out.extend_from_slice(&0x0123_4567_89ab_cdefu64.to_le_bytes());
    out.extend((1u8..=20).collect::<Vec<u8>>());
    out.push(7);
    out.extend_from_slice(&1_048_576u32.to_le_bytes());
    out.extend_from_slice(&1024i64.to_le_bytes());
    out
}

fn part(own_size: u32, offset: u32, size: u32, extra: &[u8]) -> Vec<u8> {
    let mut out = Vec::new();
    out.extend_from_slice(&own_size.to_le_bytes());
    out.extend_from_slice(&GUID_WIRE);
    out.extend_from_slice(&offset.to_le_bytes());
    out.extend_from_slice(&size.to_le_bytes());
    out.extend_from_slice(extra);
    out
}

fn file_fields(version: u8, parts: &[Vec<u8>], with_md5: bool) -> Vec<u8> {
    let mut out = Vec::new();
    out.extend_from_slice(&1u32.to_le_bytes());
    out.extend(fstring("hello.txt"));
    out.extend(fstring(""));
    out.extend((101u8..=120).collect::<Vec<u8>>());
    out.push(3);
    out.extend_from_slice(&1u32.to_le_bytes());
    out.extend(fstring("core"));
    out.extend_from_slice(&(parts.len() as u32).to_le_bytes());
    for p in parts {
        out.extend_from_slice(p);
    }
    if version >= 1 {
        if with_md5 {
            out.extend_from_slice(&1u32.to_le_bytes());
            out.extend((201u8..=216).collect::<Vec<u8>>());
        } else {
            out.extend_from_slice(&0u32.to_le_bytes());
        }
        out.extend(fstring("text/plain"));
    }
    if version >= 2 {
        out.extend((1u8..=32).collect::<Vec<u8>>());
    }
    out
}

fn custom_fields(pairs: &[(&str, &str)]) -> Vec<u8> {
    let mut out = Vec::new();
    out.extend_from_slice(&(pairs.len() as u32).to_le_bytes());
    for (key, _) in pairs {
        out.extend(fstring(key));
    }
    for (_, value) in pairs {
        out.extend(fstring(value));
    }
    out
}

fn payload(meta_version: u8, file_version: u8, parts: &[Vec<u8>], with_md5: bool) -> Vec<u8> {
    let mut out = Vec::new();
    out.extend(section(meta_version, &meta_fields(meta_version, 18)));
    out.extend(section(0, &chunk_fields()));
    out.extend(section(file_version, &file_fields(file_version, parts, with_md5)));
    out.extend(section(0, &custom_fields(&[("Origin", "test")])));
    out
}

fn envelope(payload: &[u8], compress: bool) -> Vec<u8> {
    let stored = if compress {
        let mut z = flate2::write::ZlibEncoder::new(Vec::new(), flate2::Compression::default());
        z.write_all(payload).unwrap();
        z.finish().unwrap()
    } else {
        payload.to_vec()
    };
    let mut out = Vec::new();
    out.extend_from_slice(&0x44BE_C00Cu32.to_le_bytes());
    out.extend_from_slice(&41u32.to_le_bytes());
    out.extend_from_slice(&(payload.len() as u32).to_le_bytes());
    out.extend_from_slice(&(stored.len() as u32).to_le_bytes());
    out.extend_from_slice(&Sha1::digest(payload));
    out.push(if compress { 1 } else { 0 });
    out.extend_from_slice(&18u32.to_le_bytes());
    out.extend_from_slice(&stored);
    out
}

fn sha1_hex(data: &[u8]) -> String {
    let mut text = String::new();
    for b in Sha1::digest(data) {
        text.push_str(&format!("{:02x}", b));
    }
    text
}

fn single_file_manifest() -> Vec<u8> {
    envelope(&payload(2, 2, &[part(28, 0, 4, &[])], true), true)
}

const FILE_HASH: &str = "65666768696a6b6c6d6e6f707172737475767778";
const CHUNK_SHA: &str = "0102030405060708090a0b0c0d0e0f1011121314";
const URL: &str =
    "https://cdn.example/build/ChunksV4/07/0123456789ABCDEF_AABBCCDD00112233445566778899AABB.chunk";

#[test]
fn parse_single_file_manifest() {
    let bytes = single_file_manifest();
    let manifest = DownloadManifest::parse(bytes.clone()).expect("a manifest");
    assert_eq!(manifest.manifest_file_version, 18);
    assert_eq!(manifest.b_is_file_data, false);
    assert_eq!(manifest.app_id, 7);
    assert_eq!(manifest.app_name_string, "HelloApp");
    assert_eq!(manifest.build_version_string, "1.0-new");
    assert_eq!(manifest.launch_exe_string, "bin/hello.exe");
    assert_eq!(manifest.launch_command, "-run");
    assert_eq!(
        manifest.prereq_ids,
        Some(vec!["redist-a".to_string(), "redist-b".to_string()])
    );
    assert_eq!(manifest.prereq_name, "Redist");
    assert_eq!(manifest.prereq_path, "redist/setup.exe");
    assert_eq!(manifest.prereq_args, "/quiet");
    assert_eq!(manifest.uninstall_action_path, Some("uninstall.exe".to_string()));
    assert_eq!(manifest.uninstall_action_args, Some("/all".to_string()));
    assert_eq!(manifest.chunk_hash_list.len(), 1);
    assert_eq!(manifest.chunk_hash_list.get(GUID), Some(&0x0123_4567_89ab_cdefu128));
    assert_eq!(
        manifest.chunk_sha_list.as_ref().unwrap().get(GUID),
        Some(&CHUNK_SHA.to_string())
    );
    assert_eq!(manifest.data_group_list.get(GUID), Some(&7u128));
    assert_eq!(manifest.chunk_filesize_list.get(GUID), Some(&1024u128));
    assert_eq!(manifest.file_manifest_list.len(), 1);
    let file = &manifest.file_manifest_list[0];
    assert_eq!(file.filename, "hello.txt");
    assert_eq!(file.file_hash, FILE_HASH);
    assert_eq!(
        file.file_chunk_parts,
        vec![FileChunkPart { guid: GUID.to_string(), link: None, offset: 0, size: 4 }]
    );
    assert_eq!(file.size(), 4);
    assert_eq!(manifest.custom_field("Origin"), Some("test".to_string()));
    assert_eq!(manifest.custom_field("Missing"), None);
    assert_eq!(manifest.custom_field("DownloadedManifestHash"), Some(sha1_hex(&bytes)));
    assert_eq!(manifest.total_download_size(), 1024);
    assert_eq!(manifest.total_size(), 4);
}

#[test]
fn files_of_single_file_manifest() {
    let mut manifest = DownloadManifest::parse(single_file_manifest()).unwrap();
    manifest.set_custom_field("SourceURL".to_string(), "https://cdn.example/build".to_string());
    let files = manifest.files();
    assert_eq!(files.len(), 1);
    let file = files.get("hello.txt").expect("hello.txt");
    assert_eq!(file.filename, "hello.txt");
    assert_eq!(file.file_hash, FILE_HASH);
    assert_eq!(file.size(), 4);
    assert_eq!(
        file.file_chunk_parts,
        vec![FileChunkPart {
            guid: GUID.to_string(),
            link: Some(URL.to_string()),
            offset: 0,
            size: 4
        }]
    );
}

#[test]
fn files_without_base_have_no_parts() {
    let manifest = DownloadManifest::parse(single_file_manifest()).unwrap();
    assert!(manifest.download_links().is_none());
    let files = manifest.files();
    assert_eq!(files.len(), 1);
    let file = files.get("hello.txt").unwrap();
    assert!(file.file_chunk_parts.is_empty());
    assert_eq!(file.size(), 0);
}

#[test]
fn base_url_falls_back_to_first_entry() {
    let mut manifest = DownloadManifest::parse(single_file_manifest()).unwrap();
    manifest.set_custom_field(
        "BaseUrl".to_string(),
        "https://cdn.example/build,https://other.example/x".to_string(),
    );
    let links = manifest.download_links().expect("links");
    assert_eq!(links.len(), 1);
    assert_eq!(links.get(GUID), Some(&URL.to_string()));
    manifest.set_custom_field("SourceURL".to_string(), "https://first.example/p".to_string());
    let links = manifest.download_links().expect("links");
    assert_eq!(
        links.get(GUID),
        Some(
            &"https://first.example/p/ChunksV4/07/0123456789ABCDEF_AABBCCDD00112233445566778899AABB.chunk"
                .to_string()
        )
    );
}

#[test]
fn chunk_without_data_group_has_no_link() {
    let mut manifest = DownloadManifest::parse(single_file_manifest()).unwrap();
    manifest.set_custom_field("SourceURL".to_string(), "https://cdn.example/build".to_string());
    manifest.data_group_list = Table::new();
    let links = manifest.download_links().expect("links");
    assert_eq!(links.len(), 0);
    assert!(manifest.files().get("hello.txt").unwrap().file_chunk_parts.is_empty());
}

#[test]
fn base_that_is_no_url_gives_no_links() {
    let mut manifest = DownloadManifest::parse(single_file_manifest()).unwrap();
    manifest.set_custom_field("SourceURL".to_string(), "not a url".to_string());
    let links = manifest.download_links().expect("links");
    assert_eq!(links.len(), 0);
}

#[test]
fn first_entry_of_list() {
    assert_eq!(take_first_entry("a,b,c"), "a");
    assert_eq!(take_first_entry("abc"), "abc");
    assert_eq!(take_first_entry(",x"), "");
    assert_eq!(take_first_entry(""), "");
    assert_eq!(take_first_entry("\u{e9}t\u{e9},x"), "\u{e9}t\u{e9}");
}

#[test]
fn chunk_url_scenario() {
    assert_eq!(
        chunk_url("https://cdn.example/build", 18, GUID, 0x0123_4567_89AB_CDEF, 7),
        URL
    );
}

#[test]
fn chunk_url_padding() {
    assert_eq!(
        chunk_url("b", 2, "0a", 0, 0),
        "b/Chunks/00/0000000000000000_0A.chunk"
    );
    assert_eq!(
        chunk_url("b", 3, "ff", u64::MAX as u128, 99),
        "b/ChunksV2/99/FFFFFFFFFFFFFFFF_FF.chunk"
    );
    assert_eq!(
        chunk_url("b", 6, "x", 1u128 << 64, 100),
        "b/ChunksV3/100/10000000000000000_X.chunk"
    );
    assert_eq!(
        chunk_url("b", 15, "", 0xabc, 255),
        "b/ChunksV4/255/0000000000000ABC_.chunk"
    );
}

#[test]
fn chunk_dir_by_feature_level() {
    assert_eq!(DownloadManifest::chunk_dir(0), "Chunks");
    assert_eq!(DownloadManifest::chunk_dir(2), "Chunks");
    assert_eq!(DownloadManifest::chunk_dir(3), "ChunksV2");
    assert_eq!(DownloadManifest::chunk_dir(5), "ChunksV2");
    assert_eq!(DownloadManifest::chunk_dir(6), "ChunksV3");
    assert_eq!(DownloadManifest::chunk_dir(14), "ChunksV3");
    assert_eq!(DownloadManifest::chunk_dir(15), "ChunksV4");
    assert_eq!(DownloadManifest::chunk_dir(18), "ChunksV4");
    assert_eq!(DownloadManifest::chunk_dir(u128::MAX), "ChunksV4");
}

#[test]
fn data_version_zero_manifest() {
    let bytes = envelope(&payload(0, 0, &[part(28, 0, 4, &[])], false), true);
    let manifest = DownloadManifest::parse(bytes).expect("a manifest");
    assert_eq!(manifest.build_version_string, "1.0-old");
    assert_eq!(manifest.uninstall_action_path, None);
    assert_eq!(manifest.uninstall_action_args, None);
    assert_eq!(manifest.file_manifest_list.len(), 1);
    assert_eq!(manifest.file_manifest_list[0].filename, "hello.txt");
    let data = payload(0, 0, &[part(28, 0, 4, &[])], false);
    let read = read_payload(&data).expect("sections");
    assert_eq!(read.files[0].hash_md5, Vec::<u8>::new());
    assert_eq!(read.files[0].hash_sha256, Vec::<u8>::new());
    assert_eq!(read.files[0].mime_type, "");
}

#[test]
fn data_version_one_manifest() {
    let bytes = envelope(&payload(1, 1, &[part(28, 0, 4, &[])], true), true);
    let manifest = DownloadManifest::parse(bytes).expect("a manifest");
    assert_eq!(manifest.build_version_string, "1.0-new");
    assert_eq!(manifest.uninstall_action_path, None);
    assert_eq!(manifest.uninstall_action_args, None);
}

#[test]
fn file_version_one_without_md5() {
    let fields = file_fields(1, &[part(28, 0, 4, &[])], false);
    let data = section(1, &fields);
    let mut position: usize = 0;
    let files = read_files(&data, &mut position).expect("files");
    assert_eq!(position, data.len());
    assert_eq!(files.len(), 1);
    assert_eq!(files[0].hash_md5.len(), 0);
    assert_eq!(files[0].mime_type, "text/plain");
    assert_eq!(files[0].hash_sha256.len(), 0);
    assert_eq!(files[0].flags, 3);
    assert_eq!(files[0].install_tags, vec!["core".to_string()]);
    assert_eq!(files[0].symlink_target, "");
    assert_eq!(files[0].file_size, 4);
}

#[test]
fn file_version_two_columns() {
    let fields = file_fields(2, &[part(28, 0, 4, &[]), part(28, 4, 6, &[])], true);
    let data = section(2, &fields);
    let mut position: usize = 0;
    let files = read_files(&data, &mut position).expect("files");
    assert_eq!(files[0].hash, (101u8..=120).collect::<Vec<u8>>());
    assert_eq!(files[0].hash_md5, (201u8..=216).collect::<Vec<u8>>());
    assert_eq!(files[0].hash_sha256, (1u8..=32).collect::<Vec<u8>>());
    assert_eq!(files[0].chunk_parts.len(), 2);
    assert_eq!(files[0].chunk_parts[0].file_offset, 0);
    assert_eq!(files[0].chunk_parts[1].file_offset, 4);
    assert_eq!(files[0].chunk_parts[1].offset, 4);
    assert_eq!(files[0].chunk_parts[1].size, 6);
    assert_eq!(files[0].file_size, 10);
}

#[test]
fn chunk_table_rows() {
    let data = section(0, &chunk_fields());
    let mut position: usize = 0;
    let chunks = read_chunks(&data, &mut position).expect("chunks");
    assert_eq!(position, data.len());
    assert_eq!(chunks.len(), 1);
    assert_eq!(chunks[0].guid, GUID);
    assert_eq!(chunks[0].hash, 0x0123_4567_89ab_cdef);
    assert_eq!(chunks[0].sha_hash, (1u8..=20).collect::<Vec<u8>>());
    assert_eq!(chunks[0].group_num, 7);
    assert_eq!(chunks[0].window_size, 1_048_576);
    assert_eq!(chunks[0].file_size, 1024);
}

#[test]
fn negative_chunk_size_counts_as_zero() {
    let mut fields = chunk_fields();
    let at = fields.len() - 8;
    fields[at..].copy_from_slice(&(-5i64).to_le_bytes());
    let mut data = Vec::new();
    data.extend(section(0, &meta_fields(0, 18)));
    data.extend(section(0, &fields));
    data.extend(section(0, &file_fields(0, &[], false)));
    data.extend(section(0, &custom_fields(&[])));
    let manifest = DownloadManifest::from_vec(envelope(&data, false)).expect("a manifest");
    assert_eq!(manifest.chunk_filesize_list.get(GUID), Some(&0u128));
    assert_eq!(manifest.total_download_size(), 0);
}

#[test]
fn stored_payload_is_read() {
    let bytes = envelope(&payload(2, 2, &[part(28, 0, 4, &[])], true), false);
    let manifest = DownloadManifest::parse(bytes).expect("a manifest");
    assert_eq!(manifest.app_name_string, "HelloApp");
}

#[test]
fn integrity_failure() {
    let mut bytes = single_file_manifest();
    let last = bytes.len() - 7;
    bytes[last] ^= 0x55;
    assert!(DownloadManifest::parse(bytes.clone()).is_none());
    assert!(DownloadManifest::from_vec(bytes.clone()).is_none());
    assert_eq!(DownloadManifest::decode(&bytes).err(), Some(ManifestError::IntegrityMismatch));
}

#[test]
fn every_flipped_payload_byte_is_noticed() {
    let good = single_file_manifest();
    for at in 41..good.len() {
        let mut bytes = good.clone();
        bytes[at] ^= 0x01;
        assert!(DownloadManifest::parse(bytes).is_none(), "byte {}", at);
    }
}

#[test]
fn wrong_digest_in_stored_payload() {
    let mut bytes = envelope(&payload(2, 2, &[part(28, 0, 4, &[])], true), false);
    bytes[16] ^= 0xff;
    assert_eq!(DownloadManifest::decode(&bytes).err(), Some(ManifestError::IntegrityMismatch));
    assert_eq!(open_envelope(&bytes).err(), Some(ManifestError::IntegrityMismatch));
}

#[test]
fn wrong_magic() {
    let mut bytes = single_file_manifest();
    bytes[0] = 0;
    assert_eq!(DownloadManifest::decode(&bytes).err(), Some(ManifestError::MagicMismatch));
    assert!(DownloadManifest::parse(bytes).is_none());
    assert_eq!(DownloadManifest::decode(&[]).err(), Some(ManifestError::MagicMismatch));
    assert_eq!(DownloadManifest::decode(&[0x0c, 0xc0]).err(), Some(ManifestError::MagicMismatch));
    assert!(DownloadManifest::parse(Vec::new()).is_none());
}

#[test]
fn truncated_header() {
    let bytes = single_file_manifest();
    assert_eq!(DownloadManifest::decode(&bytes[..40]).err(), Some(ManifestError::Truncated));
    assert_eq!(DownloadManifest::decode(&bytes[..4]).err(), Some(ManifestError::Truncated));
    assert!(DownloadManifest::parse(bytes[..40].to_vec()).is_none());
}

#[test]
fn truncated_sections() {
    let data = payload(2, 2, &[part(28, 0, 4, &[])], true);
    for cut in 0..data.len() {
        let bytes = envelope(&data[..cut], false);
        assert_eq!(
            DownloadManifest::decode(&bytes).err(),
            Some(ManifestError::Truncated),
            "cut at {}",
            cut
        );
    }
    assert!(DownloadManifest::decode(&envelope(&data, false)).is_ok());
}

#[test]
fn bytes_behind_the_last_section_are_ignored() {
    let mut data = payload(2, 2, &[part(28, 0, 4, &[])], true);
    data.extend_from_slice(&[1, 2, 3, 4, 5]);
    let manifest = DownloadManifest::from_vec(envelope(&data, true)).expect("a manifest");
    assert_eq!(manifest.custom_field("Origin"), Some("test".to_string()));
}

#[test]
fn section_end_is_where_its_size_says() {
    let mut data = Vec::new();
    let mut meta = meta_fields(2, 18);
    meta.extend_from_slice(&[0xee; 9]);
    data.extend(section(2, &meta));
    data.extend(section(0, &chunk_fields()));
    data.extend(section(2, &file_fields(2, &[part(28, 0, 4, &[])], true)));
    data.extend(section(0, &custom_fields(&[("Origin", "test")])));
    let manifest = DownloadManifest::from_vec(envelope(&data, true)).expect("a manifest");
    assert_eq!(manifest.uninstall_action_args, Some("/all".to_string()));
    assert_eq!(manifest.chunk_hash_list.len(), 1);
    assert_eq!(manifest.file_manifest_list.len(), 1);
}

#[test]
fn section_that_announces_more_than_the_buffer_holds() {
    let mut data = payload(2, 2, &[part(28, 0, 4, &[])], true);
    let size = u32::from_le_bytes([data[0], data[1], data[2], data[3]]);
    data[0..4].copy_from_slice(&(size + 100_000).to_le_bytes());
    assert_eq!(
        DownloadManifest::decode(&envelope(&data, true)).err(),
        Some(ManifestError::Truncated)
    );
}

#[test]
fn forward_compatible_chunk_part() {
    let parts = [part(32, 0, 4, &[9, 9, 9, 9]), part(28, 4, 5, &[])];
    let bytes = envelope(&payload(2, 2, &parts, true), true);
    let mut manifest = DownloadManifest::parse(bytes).expect("a manifest");
    manifest.set_custom_field("SourceURL".to_string(), "https://cdn.example/build".to_string());
    let files = manifest.files();
    let file = files.get("hello.txt").unwrap();
    assert_eq!(file.file_chunk_parts.len(), 2);
    assert_eq!(file.file_chunk_parts[0].offset, 0);
    assert_eq!(file.file_chunk_parts[0].size, 4);
    assert_eq!(file.file_chunk_parts[1].offset, 4);
    assert_eq!(file.file_chunk_parts[1].size, 5);
    assert_eq!(file.size(), 9);
    assert_eq!(manifest.total_size(), 9);
}

#[test]
fn empty_prerequisite_ids_are_left_out() {
    let mut meta = Vec::new();
    meta.extend_from_slice(&18u32.to_le_bytes());
    meta.push(1);
    meta.extend_from_slice(&7u32.to_le_bytes());
    for _ in 0..4 {
        meta.extend(fstring(""));
    }
    meta.extend_from_slice(&2u32.to_le_bytes());
    meta.extend(fstring(""));
    meta.extend(fstring(""));
    for _ in 0..3 {
        meta.extend(fstring(""));
    }
    let mut data = Vec::new();
    data.extend(section(0, &meta));
    let mut chunks = Vec::new();
    chunks.extend_from_slice(&0u32.to_le_bytes());
    data.extend(section(0, &chunks));
    data.extend(section(0, &0u32.to_le_bytes()));
    data.extend(section(0, &custom_fields(&[])));
    let manifest = DownloadManifest::from_vec(envelope(&data, true)).expect("a manifest");
    assert_eq!(manifest.prereq_ids, None);
    assert_eq!(manifest.b_is_file_data, true);
    assert_eq!(manifest.app_name_string, "");
    assert_eq!(manifest.file_manifest_list.len(), 0);
    assert_eq!(manifest.chunk_hash_list.len(), 0);
    assert_eq!(manifest.total_download_size(), 0);
    assert_eq!(manifest.total_size(), 0);
}

#[test]
fn later_custom_field_replaces_earlier() {
    let mut data = Vec::new();
    data.extend(section(0, &meta_fields(0, 18)));
    data.extend(section(0, &chunk_fields()));
    data.extend(section(0, &file_fields(0, &[], false)));
    data.extend(section(0, &custom_fields(&[("a", "1"), ("b", "2"), ("a", "3")])));
    let manifest = DownloadManifest::from_vec(envelope(&data, true)).expect("a manifest");
    let fields = manifest.custom_fields.as_ref().unwrap();
    assert_eq!(fields.len(), 2);
    assert_eq!(manifest.custom_field("a"), Some("3".to_string()));
    assert_eq!(manifest.custom_field("b"), Some("2".to_string()));
    assert_eq!(fields.key(0), "a");
    assert_eq!(fields.key(1), "b");
}

#[test]
fn set_custom_field_on_a_manifest_without_fields() {
    let mut manifest = DownloadManifest::parse(single_file_manifest()).unwrap();
    manifest.custom_fields = None;
    assert_eq!(manifest.custom_field("k"), None);
    manifest.set_custom_field("k".to_string(), "v".to_string());
    assert_eq!(manifest.custom_field("k"), Some("v".to_string()));
    manifest.set_custom_field("k".to_string(), "w".to_string());
    assert_eq!(manifest.custom_field("k"), Some("w".to_string()));
    assert_eq!(manifest.custom_fields.as_ref().unwrap().len(), 1);
}

#[test]
fn envelope_digest_is_that_of_the_payload() {
    let manifest = DownloadManifest::parse(single_file_manifest()).unwrap();
    let bytes = manifest.to_vec();
    assert_eq!(&bytes[0..4], &[0x0c, 0xc0, 0xbe, 0x44]);
    assert_eq!(&bytes[4..8], &41u32.to_le_bytes());
    assert_eq!(bytes[36], 1);
    assert_eq!(&bytes[37..41], &18u32.to_le_bytes());
    let data = open_envelope(&bytes).expect("a payload");
    assert_eq!(&bytes[8..12], &(data.len() as u32).to_le_bytes());
    assert_eq!(&bytes[12..16], &((bytes.len() - 41) as u32).to_le_bytes());
    assert_eq!(&bytes[16..36], Sha1::digest(&data).as_slice());
}

#[test]
fn written_manifest_is_read_back() {
    let first = DownloadManifest::parse(single_file_manifest()).unwrap();
    let bytes = first.to_vec();
    let second = DownloadManifest::from_vec(bytes.clone()).expect("a manifest");
    assert_eq!(second, first);
    let stamped = DownloadManifest::parse(bytes.clone()).expect("a manifest");
    assert_eq!(stamped.custom_field("DownloadedManifestHash"), Some(sha1_hex(&bytes)));
    assert_eq!(stamped.file_manifest_list, first.file_manifest_list);
    assert_eq!(stamped.chunk_hash_list, first.chunk_hash_list);
    assert_eq!(stamped.custom_field("Origin"), Some("test".to_string()));
}

#[test]
fn written_manifest_without_build_version() {
    let mut manifest = DownloadManifest::parse(single_file_manifest()).unwrap();
    manifest.build_version_string = String::new();
    manifest.uninstall_action_path = None;
    manifest.uninstall_action_args = None;
    manifest.prereq_ids = None;
    manifest.b_is_file_data = true;
    let read = DownloadManifest::from_vec(manifest.to_vec()).expect("a manifest");
    assert_eq!(read, manifest);
    let data = open_envelope(&manifest.to_vec()).unwrap();
    assert_eq!(data[4], 0);
    manifest.build_version_string = "2.0".to_string();
    let data = open_envelope(&manifest.to_vec()).unwrap();
    assert_eq!(data[4], 1);
    assert_eq!(DownloadManifest::from_vec(manifest.to_vec()), Some(manifest));
}

#[test]
fn written_values_that_do_not_fit_their_field() {
    let mut manifest = DownloadManifest::parse(single_file_manifest()).unwrap();
    manifest.manifest_file_version = 1u128 << 40;
    manifest.app_id = 1u128 << 40;
    manifest.chunk_hash_list.insert(GUID.to_string(), 1u128 << 64);
    manifest.data_group_list.insert(GUID.to_string(), 256);
    manifest.chunk_filesize_list.insert(GUID.to_string(), 1u128 << 63);
    manifest.chunk_sha_list.as_mut().unwrap().insert(GUID.to_string(), "xyz".to_string());
    manifest.file_manifest_list[0].file_hash = "00".to_string();
    manifest.file_manifest_list[0].file_chunk_parts[0].offset = 1u128 << 32;
    manifest.file_manifest_list[0].file_chunk_parts[0].guid = "no guid".to_string();
    let read = DownloadManifest::from_vec(manifest.to_vec()).expect("a manifest");
    assert_eq!(read.manifest_file_version, 18);
    assert_eq!(read.app_id, 0);
    assert_eq!(read.chunk_hash_list.get(GUID), Some(&0u128));
    assert_eq!(read.data_group_list.get(GUID), Some(&0u128));
    assert_eq!(read.chunk_filesize_list.get(GUID), Some(&0u128));
    assert_eq!(
        read.chunk_sha_list.as_ref().unwrap().get(GUID),
        Some(&"0".repeat(40))
    );
    assert_eq!(read.file_manifest_list[0].file_hash, "0".repeat(40));
    assert_eq!(read.file_manifest_list[0].file_chunk_parts[0].offset, 0);
    assert_eq!(read.file_manifest_list[0].file_chunk_parts[0].size, 4);
    assert_eq!(read.file_manifest_list[0].file_chunk_parts[0].guid, "0".repeat(32));
}

#[test]
fn file_size_is_the_sum_of_its_parts() {
    let file = FileManifestList {
        filename: "f".to_string(),
        file_hash: String::new(),
        file_chunk_parts: vec![
            FileChunkPart { guid: "a".to_string(), link: None, offset: 0, size: 10 },
            FileChunkPart { guid: "b".to_string(), link: None, offset: 5, size: 20 },
            FileChunkPart { guid: "a".to_string(), link: None, offset: 10, size: 12 },
        ],
    };
    assert_eq!(file.size(), 42);
}
