use egs_api::api::table::Table;
use egs_api::api::types::download_manifest::{
    DownloadManifest, FileChunkPart, FileManifestList,
};
use egs_api::api::utils::{blob_to_num, read_fstring, write_fstring};

struct Rng(u64);

impl Rng {
    fn next(&mut self) -> u64 {
        self.0 ^= self.0 << 13;
        self.0 ^= self.0 >> 7;
        self.0 ^= self.0 << 17;
        self.0
    }

    fn below(&mut self, bound: u64) -> u64 {
        self.next() % bound
    }

    fn text(&mut self, least: u64) -> String {
        let alphabet: Vec<char> = "abcXYZ019 /._-\u{e9}\u{20ac}\u{1f600}".chars().collect();
        let length = least + self.below(12);
        (0..length).map(|_| alphabet[self.below(alphabet.len() as u64) as usize]).collect()
    }

    fn hex(&mut self, digits: usize) -> String {
        (0..digits)
            .map(|_| char::from_digit(self.below(16) as u32, 16).unwrap())
            .collect()
    }
}

fn manifest(rng: &mut Rng) -> DownloadManifest {
    let mut chunk_hash_list = Table::new();
    let mut chunk_sha_list = Table::new();
    let mut data_group_list = Table::new();
    let mut chunk_filesize_list = Table::new();
    let mut guids: Vec<String> = Vec::new();
    for _ in 0..rng.below(6) {
        let guid = rng.hex(32);
        if guids.contains(&guid) {
            continue;
        }
        chunk_hash_list.insert(guid.clone(), rng.next() as u128);
        chunk_sha_list.insert(guid.clone(), rng.hex(40));
        data_group_list.insert(guid.clone(), rng.below(256) as u128);
        chunk_filesize_list.insert(guid.clone(), (rng.next() >> 1) as u128);
        guids.push(guid);
    }
    let mut file_manifest_list = Vec::new();
    for _ in 0..rng.below(5) {
        let mut parts = Vec::new();
        for _ in 0..rng.below(4) {
            let guid = if guids.is_empty() || rng.below(4) == 0 {
                rng.hex(32)
            } else {
                guids[rng.below(guids.len() as u64) as usize].clone()
            };
            parts.push(FileChunkPart {
                guid,
                link: None,
                offset: rng.next() as u32 as u128,
                size: rng.next() as u32 as u128,
            });
        }
        file_manifest_list.push(FileManifestList {
            filename: rng.text(0),
            file_hash: rng.hex(40),
            file_chunk_parts: parts,
        });
    }
    let mut custom = Table::new();
    for _ in 0..rng.below(5) {
        custom.insert(rng.text(0), rng.text(0));
    }
    let uninstall = rng.below(2) == 0;
    let ids: Vec<String> = (0..rng.below(4)).map(|_| rng.text(1)).collect();
    DownloadManifest {
        manifest_file_version: rng.next() as u32 as u128,
        b_is_file_data: rng.below(2) == 0,
        app_id: rng.next() as u32 as u128,
        app_name_string: rng.text(0),
        build_version_string: rng.text(0),
        uninstall_action_path: if uninstall { Some(rng.text(0)) } else { None },
        uninstall_action_args: if uninstall { Some(rng.text(0)) } else { None },
        launch_exe_string: rng.text(0),
        launch_command: rng.text(0),
        prereq_ids: if ids.is_empty() { None } else { Some(ids) },
        prereq_name: rng.text(0),
        prereq_path: rng.text(0),
        prereq_args: rng.text(0),
        file_manifest_list,
        chunk_hash_list,
        chunk_sha_list: Some(chunk_sha_list),
        data_group_list,
        chunk_filesize_list,
        custom_fields: Some(custom),
    }
}

#[test]
fn manifests_are_read_back_as_they_were_written() {
    let mut rng = Rng(0x9e37_79b9_7f4a_7c15);
    for round in 0..200 {
        let written = manifest(&mut rng);
        let bytes = written.to_vec();
        let read = DownloadManifest::from_vec(bytes.clone());
        assert_eq!(read.as_ref(), Some(&written), "round {}", round);
        let again = read.unwrap().to_vec();
        assert_eq!(again, bytes, "round {}", round);
        let parsed = DownloadManifest::parse(bytes).expect("a manifest");
        assert_eq!(parsed.file_manifest_list, written.file_manifest_list);
        assert_eq!(parsed.chunk_hash_list, written.chunk_hash_list);
        assert_eq!(parsed.chunk_sha_list, written.chunk_sha_list);
        assert_eq!(parsed.data_group_list, written.data_group_list);
        assert_eq!(parsed.chunk_filesize_list, written.chunk_filesize_list);
        assert_eq!(
            parsed.custom_fields.as_ref().unwrap().len(),
            written.custom_fields.as_ref().unwrap().len() + 1
        );
    }
}

#[test]
fn links_cover_the_chunks_with_a_data_group() {
    let mut rng = Rng(0x1234_5678_9abc_def1);
    for _ in 0..100 {
        let mut m = manifest(&mut rng);
        m.set_custom_field("SourceURL".to_string(), "https://cdn.example/b".to_string());
        let links = m.download_links().expect("links");
        assert_eq!(links.len(), m.chunk_hash_list.len());
        for i in 0..m.chunk_hash_list.len() {
            assert!(links.contains_key(m.chunk_hash_list.key(i)));
        }
        let files = m.files();
        for file in &m.file_manifest_list {
            let seen = files.get(&file.filename).expect("the file");
            for part in &seen.file_chunk_parts {
                assert!(m.chunk_hash_list.contains_key(&part.guid));
                assert_eq!(part.link.as_ref(), links.get(&part.guid));
            }
        }
        let mut total: u128 = 0;
        for i in 0..files.len() {
            total += files.value(i).size();
        }
        assert!(total <= m.total_size());
    }
}

#[test]
fn strings_are_read_back_as_they_were_written() {
    let mut rng = Rng(42);
    for _ in 0..500 {
        let text = rng.text(0);
        let bytes = write_fstring(text.clone());
        let mut position: usize = 0;
        let read = read_fstring(&bytes, &mut position);
        assert_eq!(position, bytes.len());
        if text.is_empty() {
            assert_eq!(read, None);
        } else {
            assert_eq!(read, Some(text));
        }
    }
}

#[test]
fn blobs_spell_their_numbers() {
    let mut rng = Rng(7);
    for _ in 0..500 {
        let number = ((rng.next() as u128) << 64) | rng.next() as u128;
        let short = rng.below(17) as usize;
        let bytes = &number.to_le_bytes()[..short];
        let mut text = String::new();
        let mut expected: u128 = 0;
        for (at, byte) in bytes.iter().enumerate() {
            text.push_str(&format!("{:03}", byte));
            expected |= (*byte as u128) << (8 * at);
        }
        assert_eq!(blob_to_num(&text), expected);
        text.push_str("000");
        assert_eq!(blob_to_num(&text), expected);
    }
}
