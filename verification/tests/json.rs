use egs_api::api::json::{find_member, Json};
use egs_api::api::json_codec::{parse_blob, parse_digest};
use egs_api::api::types::download_manifest::{DownloadManifest, FileChunkPart};
use egs_api::api::utils::{bigblob_to_num, blob_to_digest};
use num::bigint::ToBigUint;

const GUID: &str = "AABBCCDD00112233445566778899AABB";

fn blob(bytes: &[u8]) -> String {
    let mut text = String::new();
    for b in bytes {
        text.push_str(&format!("{:03}", b));
    }
    text
}

fn document(extra: &str) -> String {
    let file_hash = blob(&(101u8..=120).collect::<Vec<u8>>());
    let chunk_sha = blob(&(1u8..=20).collect::<Vec<u8>>());
    let hash = blob(&0x0123_4567_89ab_cdefu64.to_le_bytes());
    format!(
        r#"{{
  "ManifestFileVersion": "018000000000",
  "bIsFileData": false,
  "AppID": "007000000000",
  "AppNameString": "HelloApp",
  "BuildVersionString": "1.0-new",
  "LaunchExeString": "bin/hello.exe",
  "LaunchCommand": "-run",
  "PrereqIds": ["redist-a", "redist-b"],
  "PrereqName": "Redist",
  "PrereqPath": "redist/setup.exe",
  "PrereqArgs": "/quiet",
  "FileManifestList": [
    {{
      "Filename": "hello.txt",
      "FileHash": "{file_hash}",
      "FileChunkParts": [
        {{ "Guid": "{guid}", "Offset": "000000000000", "Size": "004000000000" }}
      ]
    }}
  ],
  "ChunkHashList": {{ "{guid}": "{hash}" }},
  "ChunkShaList": {{ "{guid}": "{chunk_sha}" }},
  "DataGroupList": {{ "{guid}": "007" }},
  "ChunkFilesizeList": {{ "{guid}": "000004000000000000000000" }}{extra}
}}"#,
        file_hash = file_hash,
        guid = GUID,
        hash = hash,
        chunk_sha = chunk_sha,
        extra = extra
    )
}

#[test]
fn json_manifest_is_read() {
    let text = document(r#", "CustomFields": { "Origin": "test" }, "Unknown": [1, 2.5, null]"#);
    let manifest = DownloadManifest::parse(text.clone().into_bytes()).expect("a manifest");
    assert_eq!(manifest.manifest_file_version, 18);
    assert_eq!(manifest.b_is_file_data, false);
    assert_eq!(manifest.app_id, 7);
    assert_eq!(manifest.app_name_string, "HelloApp");
    assert_eq!(manifest.build_version_string, "1.0-new");
    assert_eq!(manifest.launch_exe_string, "bin/hello.exe");
    assert_eq!(manifest.launch_command, "-run");
    assert_eq!(
        manifest.prereq_ids,
        Some(vec!["redist-a".to_string(), "redist-b".to_string()])
    );
    assert_eq!(manifest.uninstall_action_path, None);
    assert_eq!(manifest.uninstall_action_args, None);
    assert_eq!(manifest.chunk_hash_list.get(GUID), Some(&0x0123_4567_89ab_cdefu128));
    assert_eq!(
        manifest.chunk_sha_list.as_ref().unwrap().get(GUID),
        Some(&"0102030405060708090a0b0c0d0e0f1011121314".to_string())
    );
    assert_eq!(manifest.data_group_list.get(GUID), Some(&7u128));
    assert_eq!(manifest.chunk_filesize_list.get(GUID), Some(&1024u128));
    assert_eq!(manifest.file_manifest_list.len(), 1);
    assert_eq!(manifest.file_manifest_list[0].filename, "hello.txt");
    assert_eq!(
        manifest.file_manifest_list[0].file_hash,
        "65666768696a6b6c6d6e6f707172737475767778"
    );
    assert_eq!(
        manifest.file_manifest_list[0].file_chunk_parts,
        vec![FileChunkPart { guid: GUID.to_string(), link: None, offset: 0, size: 4 }]
    );
    assert_eq!(manifest.custom_field("Origin"), Some("test".to_string()));
    let stamp = manifest.custom_field("DownloadedManifestHash").expect("a stamp");
    assert_eq!(stamp.len(), 40);
    assert!(stamp.bytes().all(|b| b.is_ascii_digit() || (b'a'..=b'f').contains(&b)));
    assert_eq!(manifest.total_download_size(), 1024);
    assert_eq!(manifest.total_size(), 4);
}

#[test]
fn json_fallback_gives_the_same_files() {
    let mut manifest = DownloadManifest::parse(document("").into_bytes()).expect("a manifest");
    assert_eq!(manifest.custom_fields.as_ref().unwrap().len(), 1);
    manifest.set_custom_field("SourceURL".to_string(), "https://cdn.example/build".to_string());
    let files = manifest.files();
    assert_eq!(files.len(), 1);
    assert_eq!(files.key(0), "hello.txt");
    let file = files.get("hello.txt").unwrap();
    assert_eq!(file.size(), 4);
    assert_eq!(
        file.file_chunk_parts,
        vec![FileChunkPart {
            guid: GUID.to_string(),
            link: Some(
                "https://cdn.example/build/ChunksV4/07/0123456789ABCDEF_AABBCCDD00112233445566778899AABB.chunk"
                    .to_string()
            ),
            offset: 0,
            size: 4
        }]
    );
}

#[test]
fn binary_and_json_give_the_same_files() {
    let mut from_json = DownloadManifest::parse(document("").into_bytes()).expect("a manifest");
    let mut lower = DownloadManifest::from_json_slice(
        document("").replace(GUID, &GUID.to_lowercase()).as_bytes(),
    )
    .expect("a manifest");
    lower.uninstall_action_path = None;
    let mut from_binary =
        DownloadManifest::parse(lower.to_vec()).expect("a binary manifest");
    from_json.set_custom_field("SourceURL".to_string(), "https://cdn.example/b".to_string());
    from_binary.set_custom_field("SourceURL".to_string(), "https://cdn.example/b".to_string());
    let a = from_json.files();
    let b = from_binary.files();
    assert_eq!(a.len(), b.len());
    assert_eq!(a.key(0), b.key(0));
    let fa = a.get("hello.txt").unwrap();
    let fb = b.get("hello.txt").unwrap();
    assert_eq!(fa.file_hash, fb.file_hash);
    assert_eq!(fa.size(), fb.size());
    assert_eq!(fa.file_chunk_parts.len(), fb.file_chunk_parts.len());
    assert_eq!(fa.file_chunk_parts[0].offset, fb.file_chunk_parts[0].offset);
    assert_eq!(fa.file_chunk_parts[0].size, fb.file_chunk_parts[0].size);
    assert_eq!(fa.file_chunk_parts[0].link, fb.file_chunk_parts[0].link);
    assert_eq!(fa.file_chunk_parts[0].guid.to_lowercase(), fb.file_chunk_parts[0].guid);
}

#[test]
fn json_optional_members() {
    let text = document(
        r#", "UninstallActionPath": "u.exe", "UninstallActionArgs": null, "CustomFields": null"#,
    );
    let manifest = DownloadManifest::from_json_slice(text.as_bytes()).expect("a manifest");
    assert_eq!(manifest.uninstall_action_path, Some("u.exe".to_string()));
    assert_eq!(manifest.uninstall_action_args, None);
    assert_eq!(manifest.custom_fields.as_ref().unwrap().len(), 0);
    let text = document("").replace(r#""PrereqIds": ["redist-a", "redist-b"],"#, "");
    let manifest = DownloadManifest::from_json_slice(text.as_bytes()).expect("a manifest");
    assert_eq!(manifest.prereq_ids, None);
    let text = document("").replace(r#"["redist-a", "redist-b"]"#, r#"["a", 5, null, "b"]"#);
    let manifest = DownloadManifest::from_json_slice(text.as_bytes()).expect("a manifest");
    assert_eq!(manifest.prereq_ids, Some(vec!["a".to_string(), "b".to_string()]));
}

#[test]
fn json_part_with_link() {
    let text = document("").replace(
        r#""Offset": "000000000000","#,
        r#""Offset": "000000000000", "Link": "HTTPS://CDN.example/a/../b","#,
    );
    let manifest = DownloadManifest::from_json_slice(text.as_bytes()).expect("a manifest");
    assert_eq!(
        manifest.file_manifest_list[0].file_chunk_parts[0].link,
        Some("https://cdn.example/b".to_string())
    );
    let text = document("").replace(
        r#""Offset": "000000000000","#,
        r#""Offset": "000000000000", "Link": "no url","#,
    );
    assert!(DownloadManifest::from_json_slice(text.as_bytes()).is_none());
}

#[test]
fn malformed_json_manifests() {
    assert!(DownloadManifest::parse(b"{}".to_vec()).is_none());
    assert!(DownloadManifest::parse(b"[]".to_vec()).is_none());
    assert!(DownloadManifest::parse(b"not json".to_vec()).is_none());
    assert!(DownloadManifest::parse(document("").as_bytes()[..50].to_vec()).is_none());
    let missing = document("").replace(r#""AppNameString": "HelloApp","#, "");
    assert!(DownloadManifest::parse(missing.into_bytes()).is_none());
    let wrong_shape = document("").replace(r#""bIsFileData": false"#, r#""bIsFileData": "no""#);
    assert!(DownloadManifest::parse(wrong_shape.into_bytes()).is_none());
    let number = document("").replace(r#""AppID": "007000000000""#, r#""AppID": 7"#);
    assert!(DownloadManifest::parse(number.into_bytes()).is_none());
    let short_blob = document("").replace(r#""AppID": "007000000000""#, r#""AppID": "0070""#);
    assert!(DownloadManifest::parse(short_blob.into_bytes()).is_none());
    let bad_map = document("").replace(r#": "007" }"#, r#": 7 }"#);
    assert!(DownloadManifest::parse(bad_map.into_bytes()).is_none());
    let bad_sha = document("").replace("001002003004", "0010020030");
    assert!(DownloadManifest::parse(bad_sha.into_bytes()).is_none());
}

#[test]
fn duplicate_names_in_a_map_of_numbers_are_refused() {
    let members = vec![
        ("a".to_string(), Json::Text("001".to_string())),
        ("b".to_string(), Json::Text("002".to_string())),
        ("a".to_string(), Json::Text("003".to_string())),
    ];
    let maps = ["ChunkHashList", "DataGroupList", "ChunkFilesizeList"];
    for broken in maps {
        let mut top: Vec<(String, Json)> = Vec::new();
        for name in ["ManifestFileVersion", "AppID"] {
            top.push((name.to_string(), Json::Text("018".to_string())));
        }
        top.push(("bIsFileData".to_string(), Json::Bool(true)));
        for name in [
            "AppNameString",
            "BuildVersionString",
            "LaunchExeString",
            "LaunchCommand",
            "PrereqName",
            "PrereqPath",
            "PrereqArgs",
        ] {
            top.push((name.to_string(), Json::Text(name.to_string())));
        }
        top.push(("FileManifestList".to_string(), Json::Array(Vec::new())));
        for name in maps {
            let unique = vec![
                ("a".to_string(), Json::Text("001".to_string())),
                ("b".to_string(), Json::Text("002".to_string())),
            ];
            top.push((name.to_string(), Json::Object(unique)));
        }
        let good = Json::Object(top);
        let manifest = DownloadManifest::from_json(&good).expect("a manifest");
        assert_eq!(manifest.chunk_hash_list.get("b"), Some(&2u128));
        assert_eq!(manifest.b_is_file_data, true);
        assert_eq!(manifest.chunk_sha_list, None);
        let mut top = match good {
            Json::Object(top) => top,
            _ => unreachable!(),
        };
        for entry in top.iter_mut() {
            if entry.0 == broken {
                let mut twice = Vec::new();
                for (name, value) in &members {
                    let copy = match value {
                        Json::Text(s) => Json::Text(s.clone()),
                        _ => Json::Null,
                    };
                    twice.push((name.clone(), copy));
                }
                entry.1 = Json::Object(twice);
            }
        }
        assert!(DownloadManifest::from_json(&Json::Object(top)).is_none(), "{}", broken);
    }
}

#[test]
fn first_member_with_a_name_is_found() {
    let members = vec![
        ("a".to_string(), Json::Bool(true)),
        ("b".to_string(), Json::Null),
        ("a".to_string(), Json::Bool(false)),
    ];
    assert!(matches!(find_member(&members, "a"), Some(Json::Bool(true))));
    assert!(matches!(find_member(&members, "b"), Some(Json::Null)));
    assert!(find_member(&members, "c").is_none());
}

#[test]
fn blob_to_bignum_test() {
    assert_eq!(
        bigblob_to_num("165045004000"),
        ToBigUint::to_biguint(&273829).unwrap()
    )
}

#[test]
fn bigblob_beyond_128_bits() {
    let mut text = String::new();
    for _ in 0..16 {
        text.push_str("000");
    }
    text.push_str("001");
    let expected = ToBigUint::to_biguint(&1u8).unwrap() << 128usize;
    assert_eq!(bigblob_to_num(&text), expected);
    assert_eq!(bigblob_to_num(""), ToBigUint::to_biguint(&0u8).unwrap());
    assert_eq!(bigblob_to_num("abc002"), ToBigUint::to_biguint(&512u32).unwrap());
}

#[test]
fn blob_digest_text() {
    assert_eq!(blob_to_digest(""), "0".repeat(40));
    assert_eq!(blob_to_digest("001"), format!("01{}", "0".repeat(38)));
    assert_eq!(blob_to_digest("001000"), format!("01{}", "0".repeat(38)));
    assert_eq!(
        blob_to_digest(&blob(&(101u8..=120).collect::<Vec<u8>>())),
        "65666768696a6b6c6d6e6f707172737475767778"
    );
    let long = blob(&(1u8..=22).collect::<Vec<u8>>());
    assert_eq!(
        blob_to_digest(&long),
        "0102030405060708090a0b0c0d0e0f10111213141516"
    );
    assert_eq!(parse_digest("0010"), None);
    assert_eq!(parse_digest("255"), Some(format!("ff{}", "0".repeat(38))));
}

#[test]
fn blob_numbers() {
    assert_eq!(parse_blob("165045004000"), Some(273829));
    assert_eq!(parse_blob(""), Some(0));
    assert_eq!(parse_blob("16"), None);
    assert_eq!(parse_blob("\u{e9}1"), Some(0));
}
