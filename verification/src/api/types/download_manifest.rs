//! The download manifest: what it holds, how it is read from its binary
//! form, and the chunk addresses and file view derived from it.

use crate::api::binary::{
    chunk_rows, file_rows, lemma_files_at_shape, part_rows, table_parts, views_of,
    BinaryChunkInfo, BinaryChunkPart, BinaryFileManifest, ChunkRow, FileRow, PartRow,
};
use crate::api::payload::{
    envelope_payload, open_envelope, option_view, payload_rows, read_payload, ManifestError,
    ManifestMeta, Payload, PayloadRows,
};
use crate::api::foreign::{parse_url, upper, uppercase, url_normal_form};
use crate::api::table::{
    assoc_fold, assoc_get, assoc_put, keys_of, lemma_fold_len, lemma_fold_values, lemma_map_put,
    lemma_put_keys,
    lemma_text_fold, lemma_text_get, lemma_text_put, map_entries, table_of, text_entries, Table,
};
use crate::api::text::{hex_text, push_padded, radix_text, to_hex, zero_padded};
use vstd::prelude::*;
use vstd::string::{StrSliceExecFns, StringExecFns};

verus! {

/// A run of bytes of one chunk that is a run of bytes of a file.
#[derive(Default, Debug, Clone, PartialEq)]
pub struct FileChunkPart {
    /// GUID of the chunk, thirty-two hexadecimal digits.
    pub guid: String,
    /// Address of the chunk, where it was derived.
    pub link: Option<String>,
    /// Where the part starts inside the chunk.
    pub offset: u128,
    /// Length of the part.
    pub size: u128,
}

/// What a chunk part holds.
pub struct PartModel {
    pub guid: Seq<char>,
    pub link: Option<Seq<char>>,
    pub offset: u128,
    pub size: u128,
}

impl View for FileChunkPart {
    type V = PartModel;

    open spec fn view(&self) -> PartModel {
        PartModel {
            guid: self.guid@,
            link: option_view(self.link),
            offset: self.offset,
            size: self.size,
        }
    }
}

/// What a sequence of chunk parts holds.
pub open spec fn part_models(parts: Seq<FileChunkPart>) -> Seq<PartModel> {
    parts.map_values(|p: FileChunkPart| p@)
}

/// Sum of the sizes of a sequence of chunk parts.
pub open spec fn parts_size(parts: Seq<PartModel>) -> nat
    decreases parts.len(),
{
    if parts.len() == 0 {
        0
    } else {
        parts_size(parts.drop_last()) + parts.last().size as nat
    }
}

/// A file of a build: its name, its SHA-1 and the chunk parts that make
/// it up, in the order in which they follow one another in the file.
#[derive(Default, Debug, Clone, PartialEq)]
pub struct FileManifestList {
    /// Path of the file, with forward slashes.
    pub filename: String,
    /// SHA-1 of the file as forty hexadecimal digits.
    pub file_hash: String,
    /// The parts of the file.
    pub file_chunk_parts: Vec<FileChunkPart>,
}

/// What a file record holds.
pub struct FileModel {
    pub filename: Seq<char>,
    pub file_hash: Seq<char>,
    pub parts: Seq<PartModel>,
}

impl View for FileManifestList {
    type V = FileModel;

    open spec fn view(&self) -> FileModel {
        FileModel {
            filename: self.filename@,
            file_hash: self.file_hash@,
            parts: part_models(self.file_chunk_parts@),
        }
    }
}

/// What a sequence of file records holds.
pub open spec fn file_models(files: Seq<FileManifestList>) -> Seq<FileModel> {
    files.map_values(|f: FileManifestList| f@)
}

impl FileManifestList {
    /// Size of the file: the sum of the sizes of its parts.
    pub fn size(&self) -> (total: u128)
        requires
            parts_size(self@.parts) <= u128::MAX,
        ensures
            total == parts_size(self@.parts),
    {
        let mut total: u128 = 0;
        let mut i: usize = 0;
        let ghost parts = self@.parts;
        assert(parts.take(0) =~= Seq::<PartModel>::empty());
        while i < self.file_chunk_parts.len()
            invariant
                i <= self.file_chunk_parts@.len(),
                parts == part_models(self.file_chunk_parts@),
                total == parts_size(parts.take(i as int)),
                parts_size(parts) <= u128::MAX,
            decreases self.file_chunk_parts@.len() - i,
        {
            proof {
                lemma_parts_size_grows(parts, (i + 1) as int);
                assert(parts.take(i + 1).drop_last() =~= parts.take(i as int));
            }
            total = total + self.file_chunk_parts[i].size;
            i = i + 1;
        }
        assert(parts.take(i as int) =~= parts);
        total
    }
}

/// The sizes of the first parts of a file add up to no more than those
/// of all its parts.
pub proof fn lemma_parts_size_grows(parts: Seq<PartModel>, count: int)
    requires
        0 <= count <= parts.len(),
    ensures
        parts_size(parts.take(count)) <= parts_size(parts),
    decreases parts.len() - count,
{
    if count < parts.len() {
        lemma_parts_size_grows(parts, count + 1);
        assert(parts.take(count + 1).drop_last() =~= parts.take(count));
    } else {
        assert(parts.take(count) =~= parts);
    }
}

/// A download manifest: what a build is named, how it is launched, its
/// files, the chunks that the files are made of, and free-form fields.
#[derive(Default, Debug, Clone, PartialEq)]
pub struct DownloadManifest {
    /// Feature level of the manifest.
    pub manifest_file_version: u128,
    /// Whether the chunks are whole files.
    pub b_is_file_data: bool,
    /// Numeric id of the application.
    pub app_id: u128,
    /// Name of the application.
    pub app_name_string: String,
    /// Version of the build.
    pub build_version_string: String,
    /// Path of the uninstall action.
    pub uninstall_action_path: Option<String>,
    /// Arguments of the uninstall action.
    pub uninstall_action_args: Option<String>,
    /// Executable to launch.
    pub launch_exe_string: String,
    /// Arguments of the launch.
    pub launch_command: String,
    /// Ids of the prerequisites, where there are any.
    pub prereq_ids: Option<Vec<String>>,
    /// Name of the prerequisite installer.
    pub prereq_name: String,
    /// Path of the prerequisite installer.
    pub prereq_path: String,
    /// Arguments of the prerequisite installer.
    pub prereq_args: String,
    /// The files of the build, in manifest order.
    pub file_manifest_list: Vec<FileManifestList>,
    /// Rolling hash of each chunk, by GUID.
    pub chunk_hash_list: Table<u128>,
    /// SHA-1 of each chunk as hexadecimal text, by GUID.
    pub chunk_sha_list: Option<Table<String>>,
    /// Data group of each chunk, by GUID.
    pub data_group_list: Table<u128>,
    /// Stored size of each chunk, by GUID.
    pub chunk_filesize_list: Table<u128>,
    /// Free-form fields.
    pub custom_fields: Option<Table<String>>,
}

/// What a download manifest holds.
pub struct ManifestModel {
    pub manifest_file_version: u128,
    pub b_is_file_data: bool,
    pub app_id: u128,
    pub app_name_string: Seq<char>,
    pub build_version_string: Seq<char>,
    pub uninstall_action_path: Option<Seq<char>>,
    pub uninstall_action_args: Option<Seq<char>>,
    pub launch_exe_string: Seq<char>,
    pub launch_command: Seq<char>,
    pub prereq_ids: Option<Seq<Seq<char>>>,
    pub prereq_name: Seq<char>,
    pub prereq_path: Seq<char>,
    pub prereq_args: Seq<char>,
    pub files: Seq<FileModel>,
    pub chunk_hashes: Seq<(Seq<char>, u128)>,
    pub chunk_shas: Option<Seq<(Seq<char>, Seq<char>)>>,
    pub data_groups: Seq<(Seq<char>, u128)>,
    pub chunk_sizes: Seq<(Seq<char>, u128)>,
    pub custom_fields: Option<Seq<(Seq<char>, Seq<char>)>>,
}

/// The text pairs of an optional table of strings.
pub open spec fn option_entries(table: Option<Table<String>>) -> Option<
    Seq<(Seq<char>, Seq<char>)>,
> {
    match table {
        Some(t) => Some(text_entries(t.entries())),
        None => None,
    }
}

impl View for DownloadManifest {
    type V = ManifestModel;

    open spec fn view(&self) -> ManifestModel {
        ManifestModel {
            manifest_file_version: self.manifest_file_version,
            b_is_file_data: self.b_is_file_data,
            app_id: self.app_id,
            app_name_string: self.app_name_string@,
            build_version_string: self.build_version_string@,
            uninstall_action_path: option_view(self.uninstall_action_path),
            uninstall_action_args: option_view(self.uninstall_action_args),
            launch_exe_string: self.launch_exe_string@,
            launch_command: self.launch_command@,
            prereq_ids: match self.prereq_ids {
                Some(ids) => Some(views_of(ids@)),
                None => None,
            },
            prereq_name: self.prereq_name@,
            prereq_path: self.prereq_path@,
            prereq_args: self.prereq_args@,
            files: file_models(self.file_manifest_list@),
            chunk_hashes: self.chunk_hash_list.entries(),
            chunk_shas: option_entries(self.chunk_sha_list),
            data_groups: self.data_group_list.entries(),
            chunk_sizes: self.chunk_filesize_list.entries(),
            custom_fields: option_entries(self.custom_fields),
        }
    }
}

/// The chunk part that a stored part becomes: it has no address yet.
pub open spec fn part_of_row(row: PartRow) -> PartModel {
    PartModel { guid: row.guid, link: None, offset: row.offset, size: row.size }
}

/// The file record that a row of the file table becomes: the SHA-1 is
/// rendered as forty lower-case hexadecimal digits.
pub open spec fn file_of_row(row: FileRow) -> FileModel {
    FileModel {
        filename: row.filename,
        file_hash: hex_text(row.hash, false),
        parts: row.chunk_parts.map_values(|p: PartRow| part_of_row(p)),
    }
}

/// The parts of a file record have the sizes of the stored parts that
/// they were made of, so that the size of the file record is the file size
/// that the file table gives, the sum of the sizes of its parts.
pub proof fn lemma_size_of_row(parts: Seq<PartRow>)
    ensures
        parts_size(parts.map_values(|p: PartRow| part_of_row(p))) == crate::api::binary::rows_size(
            parts,
        ),
    decreases parts.len(),
{
    let made = parts.map_values(|p: PartRow| part_of_row(p));
    if parts.len() > 0 {
        lemma_size_of_row(parts.drop_last());
        assert(made.drop_last() =~= parts.drop_last().map_values(|p: PartRow| part_of_row(p)));
    }
}

/// The stored size of a chunk as the manifest keeps it: a negative size
/// counts as zero.
pub open spec fn stored_size(file_size: i64) -> u128 {
    if file_size < 0 {
        0
    } else {
        file_size as u128
    }
}

/// The manifest that the sections of a payload make up. The four chunk
/// maps take their rows in table order, a later row with the GUID of an
/// earlier one replacing its value; the custom fields likewise.
pub open spec fn manifest_of(rows: PayloadRows) -> ManifestModel {
    let guids = rows.chunks.map_values(|c: ChunkRow| c.guid);
    ManifestModel {
        manifest_file_version: rows.meta.feature_level as u128,
        b_is_file_data: rows.meta.is_file_data,
        app_id: rows.meta.app_id as u128,
        app_name_string: rows.meta.app_name,
        build_version_string: rows.meta.build_version,
        uninstall_action_path: rows.meta.uninstall_action_path,
        uninstall_action_args: rows.meta.uninstall_action_args,
        launch_exe_string: rows.meta.launch_exe,
        launch_command: rows.meta.launch_command,
        prereq_ids: if rows.meta.prereq_ids.len() == 0 {
            None
        } else {
            Some(rows.meta.prereq_ids)
        },
        prereq_name: rows.meta.prereq_name,
        prereq_path: rows.meta.prereq_path,
        prereq_args: rows.meta.prereq_args,
        files: rows.files.map_values(|f: FileRow| file_of_row(f)),
        chunk_hashes: assoc_fold(
            guids,
            rows.chunks.map_values(|c: ChunkRow| c.hash as u128),
            rows.chunks.len(),
        ),
        chunk_shas: Some(
            assoc_fold(
                guids,
                rows.chunks.map_values(|c: ChunkRow| hex_text(c.sha_hash, false)),
                rows.chunks.len(),
            ),
        ),
        data_groups: assoc_fold(
            guids,
            rows.chunks.map_values(|c: ChunkRow| c.group_num as u128),
            rows.chunks.len(),
        ),
        chunk_sizes: assoc_fold(
            guids,
            rows.chunks.map_values(|c: ChunkRow| stored_size(c.file_size)),
            rows.chunks.len(),
        ),
        custom_fields: Some(
            assoc_fold(rows.custom_keys, rows.custom_values, rows.custom_keys.len()),
        ),
    }
}

/// Whether a character is a decimal digit or a letter from `a` to `f`.
pub open spec fn is_lower_hex(c: char) -> bool {
    ('0' <= c && c <= '9') || ('a' <= c && c <= 'f')
}

/// Whether a text is `count` lower-case hexadecimal digits.
pub open spec fn is_hex_text(text: Seq<char>, count: nat) -> bool {
    text.len() == count && forall|i: int| 0 <= i < text.len() ==> is_lower_hex(#[trigger] text[i])
}

/// Whether the chunks of a manifest are as a binary manifest has them:
/// every SHA-1 is forty lower-case hexadecimal digits, and every rolling
/// hash fits in 64 bits.
pub open spec fn binary_chunks(m: ManifestModel) -> bool {
    &&& m.chunk_shas is Some
    &&& forall|i: int|
        0 <= i < m.chunk_shas.unwrap().len() ==> is_hex_text(
            (#[trigger] m.chunk_shas.unwrap()[i]).1,
            40,
        )
    &&& forall|i: int| 0 <= i < m.chunk_hashes.len() ==> (#[trigger] m.chunk_hashes[i]).1 <= u64::MAX
}

/// Whether the sizes of a manifest are as a binary manifest has them:
/// there are at most 2 to the power of 32 less one files, parts of a file
/// and chunks, no part is larger than that, and no chunk is larger than 63
/// bits can say.
pub open spec fn binary_sizes(m: ManifestModel) -> bool {
    &&& m.files.len() <= u32::MAX
    &&& forall|i: int|
        0 <= i < m.files.len() ==> (#[trigger] m.files[i]).parts.len() <= u32::MAX
    &&& forall|i: int, j: int|
        0 <= i < m.files.len() && 0 <= j < m.files[i].parts.len() ==> (
        #[trigger] m.files[i].parts[j]).size <= u32::MAX
    &&& m.chunk_sizes.len() <= u32::MAX
    &&& forall|i: int|
        0 <= i < m.chunk_sizes.len() ==> (#[trigger] m.chunk_sizes[i]).1 <= 0x7fff_ffff_ffff_ffff
}

/// The sizes of parts that are none larger than 32 bits can say add up to
/// at most that for every part.
pub proof fn lemma_parts_size_bound(parts: Seq<PartModel>)
    requires
        forall|j: int| 0 <= j < parts.len() ==> (#[trigger] parts[j]).size <= u32::MAX,
    ensures
        parts_size(parts) <= parts.len() * 0xffff_ffff,
    decreases parts.len(),
{
    if parts.len() > 0 {
        let front = parts.drop_last();
        assert forall|j: int| 0 <= j < front.len() implies (#[trigger] front[j]).size
            <= u32::MAX by {
            assert(front[j] == parts[j]);
        }
        lemma_parts_size_bound(front);
        assert(parts.last() == parts[parts.len() - 1]);
    }
}

/// The sizes of files of at most `bound` bytes each add up to at most
/// that for every file.
pub proof fn lemma_files_size_bound(files: Seq<FileModel>, bound: nat)
    requires
        forall|i: int| 0 <= i < files.len() ==> parts_size((#[trigger] files[i]).parts) <= bound,
    ensures
        files_size(files) <= files.len() * bound,
    decreases files.len(),
{
    if files.len() > 0 {
        let front = files.drop_last();
        assert forall|i: int| 0 <= i < front.len() implies parts_size(
            (#[trigger] front[i]).parts,
        ) <= bound by {
            assert(front[i] == files[i]);
        }
        lemma_files_size_bound(front, bound);
        assert(files.last() == files[files.len() - 1]);
        assert(files.len() * bound == front.len() * bound + bound) by (nonlinear_arith)
            requires
                files.len() == front.len() + 1,
        ;
    }
}

/// Values of at most `bound` each add up to at most that for every value.
pub proof fn lemma_values_sum_bound(entries: Seq<(Seq<char>, u128)>, bound: nat)
    requires
        forall|i: int| 0 <= i < entries.len() ==> (#[trigger] entries[i]).1 <= bound,
    ensures
        values_sum(entries) <= entries.len() * bound,
    decreases entries.len(),
{
    if entries.len() > 0 {
        let front = entries.drop_last();
        assert forall|i: int| 0 <= i < front.len() implies (#[trigger] front[i]).1 <= bound by {
            assert(front[i] == entries[i]);
        }
        lemma_values_sum_bound(front, bound);
        assert(entries.last() == entries[entries.len() - 1]);
        assert(entries.len() * bound == front.len() * bound + bound) by (nonlinear_arith)
            requires
                entries.len() == front.len() + 1,
        ;
    }
}

/// The sizes of a manifest that are as a binary manifest has them add up
/// within 128 bits, for the files and for the chunks.
pub proof fn lemma_binary_sizes_fit(m: ManifestModel)
    requires
        binary_sizes(m),
    ensures
        files_size(m.files) <= u128::MAX,
        values_sum(m.chunk_sizes) <= u128::MAX,
        forall|i: int| 0 <= i < m.files.len() ==> parts_size((#[trigger] m.files[i]).parts)
            <= u128::MAX,
{
    let per_file: nat = 0xffff_ffff * 0xffff_ffff;
    assert forall|i: int| 0 <= i < m.files.len() implies parts_size((#[trigger] m.files[i]).parts)
        <= per_file by {
        let parts = m.files[i].parts;
        assert forall|j: int| 0 <= j < parts.len() implies (#[trigger] parts[j]).size
            <= u32::MAX by {
            assert(m.files[i].parts[j].size <= u32::MAX);
        }
        lemma_parts_size_bound(parts);
        assert(parts.len() * 0xffff_ffff <= 0xffff_ffff * 0xffff_ffff) by (nonlinear_arith)
            requires
                parts.len() <= 0xffff_ffff,
        ;
    }
    lemma_files_size_bound(m.files, per_file);
    assert(m.files.len() * per_file <= 0xffff_ffff * per_file) by (nonlinear_arith)
        requires
            m.files.len() <= 0xffff_ffff,
    ;
    lemma_values_sum_bound(m.chunk_sizes, 0x7fff_ffff_ffff_ffff);
    assert(m.chunk_sizes.len() * 0x7fff_ffff_ffff_ffff <= 0xffff_ffff * 0x7fff_ffff_ffff_ffff)
        by (nonlinear_arith)
        requires
            m.chunk_sizes.len() <= 0xffff_ffff,
    ;
}

/// A manifest that was read from a payload has sizes as a binary manifest
/// has them.
pub proof fn lemma_payload_sizes(bytes: Seq<u8>)
    requires
        payload_rows(bytes) is Some,
    ensures
        binary_sizes(manifest_of(payload_rows(bytes).unwrap())),
{
    let rows = payload_rows(bytes).unwrap();
    let m = manifest_of(rows);
    let (_, next1) = crate::api::payload::meta_at(bytes, 0).unwrap();
    let (chunks, next2) = crate::api::binary::chunks_at(bytes, next1).unwrap();
    lemma_files_at_shape(bytes, next2);
    assert forall|i: int| 0 <= i < m.files.len() implies (#[trigger] m.files[i]).parts.len()
        <= u32::MAX by {
        assert(table_parts(rows.files[i].chunk_parts));
    }
    assert forall|i: int, j: int|
        0 <= i < m.files.len() && 0 <= j < m.files[i].parts.len() implies (
    #[trigger] m.files[i].parts[j]).size <= u32::MAX by {
        assert(table_parts(rows.files[i].chunk_parts));
        assert(m.files[i].parts[j] == part_of_row(rows.files[i].chunk_parts[j]));
    }
    let guids = rows.chunks.map_values(|c: ChunkRow| c.guid);
    let sizes = rows.chunks.map_values(|c: ChunkRow| stored_size(c.file_size));
    let count = rows.chunks.len();
    lemma_fold_len(guids, sizes, count);
    assert forall|i: int| 0 <= i < m.chunk_sizes.len() implies (#[trigger] m.chunk_sizes[i]).1
        <= 0x7fff_ffff_ffff_ffff by {
        lemma_fold_values(guids, sizes, count, i);
    }
}

/// Bytes in lower-case hexadecimal are two such digits for every byte.
pub proof fn lemma_hex_text_shape(bytes: Seq<u8>)
    ensures
        is_hex_text(hex_text(bytes, false), 2 * bytes.len()),
{
    let text = hex_text(bytes, false);
    assert forall|i: int| 0 <= i < text.len() implies is_lower_hex(#[trigger] text[i]) by {
        let byte = bytes[i / 2] as int;
        let value = if i % 2 == 0 {
            byte / 16
        } else {
            byte % 16
        };
        assert(0 <= value < 16);
        assert(text[i] == crate::api::text::digit_char(value, false));
    }
}

/// A manifest that was read from a payload has chunks as a binary
/// manifest has them.
pub proof fn lemma_payload_chunks(bytes: Seq<u8>)
    requires
        payload_rows(bytes) is Some,
    ensures
        binary_chunks(manifest_of(payload_rows(bytes).unwrap())),
{
    let rows = payload_rows(bytes).unwrap();
    let m = manifest_of(rows);
    let guids = rows.chunks.map_values(|c: ChunkRow| c.guid);
    let shas = rows.chunks.map_values(|c: ChunkRow| hex_text(c.sha_hash, false));
    let hashes = rows.chunks.map_values(|c: ChunkRow| c.hash as u128);
    let count = rows.chunks.len();
    let (_, next1) = crate::api::payload::meta_at(bytes, 0).unwrap();
    assert(crate::api::binary::chunks_at(bytes, next1) is Some);
    assert forall|i: int| 0 <= i < m.chunk_shas.unwrap().len() implies is_hex_text(
        (#[trigger] m.chunk_shas.unwrap()[i]).1,
        40,
    ) by {
        lemma_fold_values(guids, shas, count, i);
        let j = choose|j: int| 0 <= j < count && m.chunk_shas.unwrap()[i].1 == shas[j];
        assert(rows.chunks[j].sha_hash.len() == 20);
        lemma_hex_text_shape(rows.chunks[j].sha_hash);
    }
    assert forall|i: int| 0 <= i < m.chunk_hashes.len() implies (#[trigger] m.chunk_hashes[i]).1
        <= u64::MAX by {
        lemma_fold_values(guids, hashes, count, i);
    }
}

/// The manifest that a buffer holds in binary form: the payload of its
/// envelope, read section by section.
pub open spec fn binary_manifest(bytes: Seq<u8>) -> Result<ManifestModel, ManifestError> {
    match envelope_payload(bytes) {
        Ok(payload) => match payload_rows(payload) {
            Some(rows) => Ok(manifest_of(rows)),
            None => Err(ManifestError::Truncated),
        },
        Err(e) => Err(e),
    }
}

/// Turns stored parts into chunk parts without addresses.
pub fn convert_parts(parts: &Vec<BinaryChunkPart>) -> (converted: Vec<FileChunkPart>)
    ensures
        part_models(converted@) == part_rows(parts@).map_values(|p: PartRow| part_of_row(p)),
{
    let mut converted: Vec<FileChunkPart> = Vec::new();
    let mut i: usize = 0;
    while i < parts.len()
        invariant
            i <= parts@.len(),
            part_models(converted@) == part_rows(parts@).take(i as int).map_values(
                |p: PartRow| part_of_row(p),
            ),
        decreases parts@.len() - i,
    {
        let part: &BinaryChunkPart = &parts[i];
        let ghost before = part_models(converted@);
        let made = FileChunkPart {
            guid: part.guid.clone(),
            link: None,
            offset: part.offset,
            size: part.size,
        };
        converted.push(made);
        i = i + 1;
        assert(part_models(converted@) =~= before.push(made@));
        assert(part_models(converted@) =~= part_rows(parts@).take(i as int).map_values(
            |p: PartRow| part_of_row(p),
        ));
    }
    assert(part_rows(parts@).take(i as int) =~= part_rows(parts@));
    converted
}

/// Turns the rows of a file table into file records.
pub fn convert_files(files: &Vec<BinaryFileManifest>) -> (converted: Vec<FileManifestList>)
    ensures
        file_models(converted@) == file_rows(files@).map_values(|f: FileRow| file_of_row(f)),
{
    let mut converted: Vec<FileManifestList> = Vec::new();
    let mut i: usize = 0;
    while i < files.len()
        invariant
            i <= files@.len(),
            file_models(converted@) == file_rows(files@).take(i as int).map_values(
                |f: FileRow| file_of_row(f),
            ),
        decreases files@.len() - i,
    {
        let file: &BinaryFileManifest = &files[i];
        let ghost before = file_models(converted@);
        let made = FileManifestList {
            filename: file.filename.clone(),
            file_hash: to_hex(file.hash.as_slice()),
            file_chunk_parts: convert_parts(&file.chunk_parts),
        };
        converted.push(made);
        i = i + 1;
        assert(made@ == file_of_row(file@));
        assert(file_models(converted@) =~= before.push(made@));
        assert(file_models(converted@) =~= file_rows(files@).take(i as int).map_values(
            |f: FileRow| file_of_row(f),
        ));
    }
    assert(file_rows(files@).take(i as int) =~= file_rows(files@));
    converted
}

/// Appends a string to a column of strings.
pub fn push_text(column: &mut Vec<String>, text: String)
    ensures
        views_of(final(column)@) == views_of(old(column)@).push(text@),
{
    column.push(text);
    assert(views_of(column@) =~= views_of(old(column)@).push(text@));
}

/// The four chunk maps of a manifest.
pub struct ChunkTables {
    pub hashes: Table<u128>,
    pub shas: Table<String>,
    pub groups: Table<u128>,
    pub sizes: Table<u128>,
}

/// Builds the four chunk maps from the rows of a chunk table.
pub fn chunk_tables(chunks: &Vec<BinaryChunkInfo>) -> (tables: ChunkTables)
    ensures
        ({
            let rows = chunk_rows(chunks@);
            let guids = rows.map_values(|c: ChunkRow| c.guid);
            &&& tables.hashes.entries() == assoc_fold(
                guids,
                rows.map_values(|c: ChunkRow| c.hash as u128),
                rows.len(),
            )
            &&& text_entries(tables.shas.entries()) == assoc_fold(
                guids,
                rows.map_values(|c: ChunkRow| hex_text(c.sha_hash, false)),
                rows.len(),
            )
            &&& tables.groups.entries() == assoc_fold(
                guids,
                rows.map_values(|c: ChunkRow| c.group_num as u128),
                rows.len(),
            )
            &&& tables.sizes.entries() == assoc_fold(
                guids,
                rows.map_values(|c: ChunkRow| stored_size(c.file_size)),
                rows.len(),
            )
        }),
{
    let ghost rows = chunk_rows(chunks@);
    let ghost guids = rows.map_values(|c: ChunkRow| c.guid);
    let mut keys1: Vec<String> = Vec::new();
    let mut keys2: Vec<String> = Vec::new();
    let mut keys3: Vec<String> = Vec::new();
    let mut keys4: Vec<String> = Vec::new();
    let mut hashes: Vec<u128> = Vec::new();
    let mut shas: Vec<String> = Vec::new();
    let mut groups: Vec<u128> = Vec::new();
    let mut sizes: Vec<u128> = Vec::new();
    let mut i: usize = 0;
    while i < chunks.len()
        invariant
            i <= chunks@.len(),
            rows == chunk_rows(chunks@),
            guids == rows.map_values(|c: ChunkRow| c.guid),
            views_of(keys1@) == guids.take(i as int),
            views_of(keys2@) == guids.take(i as int),
            views_of(keys3@) == guids.take(i as int),
            views_of(keys4@) == guids.take(i as int),
            hashes@ == rows.map_values(|c: ChunkRow| c.hash as u128).take(i as int),
            views_of(shas@) == rows.map_values(|c: ChunkRow| hex_text(c.sha_hash, false)).take(
                i as int,
            ),
            groups@ == rows.map_values(|c: ChunkRow| c.group_num as u128).take(i as int),
            sizes@ == rows.map_values(|c: ChunkRow| stored_size(c.file_size)).take(i as int),
        decreases chunks@.len() - i,
    {
        let chunk: &BinaryChunkInfo = &chunks[i];
        assert(rows[i as int] == chunk@);
        assert(guids[i as int] == chunk.guid@);
        assert(guids.take(i + 1) =~= guids.take(i as int).push(chunk.guid@));
        push_text(&mut keys1, chunk.guid.clone());
        push_text(&mut keys2, chunk.guid.clone());
        push_text(&mut keys3, chunk.guid.clone());
        push_text(&mut keys4, chunk.guid.clone());
        hashes.push(chunk.hash as u128);
        push_text(&mut shas, to_hex(chunk.sha_hash.as_slice()));
        groups.push(chunk.group_num as u128);
        sizes.push(
            if chunk.file_size < 0 {
                0
            } else {
                chunk.file_size as u128
            },
        );
        i = i + 1;
        assert(views_of(keys1@) =~= guids.take(i as int));
        assert(views_of(keys2@) =~= guids.take(i as int));
        assert(views_of(keys3@) =~= guids.take(i as int));
        assert(views_of(keys4@) =~= guids.take(i as int));
        assert(hashes@ =~= rows.map_values(|c: ChunkRow| c.hash as u128).take(i as int));
        assert(views_of(shas@) =~= rows.map_values(
            |c: ChunkRow| hex_text(c.sha_hash, false),
        ).take(i as int));
        assert(groups@ =~= rows.map_values(|c: ChunkRow| c.group_num as u128).take(i as int));
        assert(sizes@ =~= rows.map_values(|c: ChunkRow| stored_size(c.file_size)).take(i as int));
    }
    proof {
        assert(guids.take(i as int) =~= guids);
        assert(hashes@ =~= rows.map_values(|c: ChunkRow| c.hash as u128));
        assert(views_of(shas@) =~= rows.map_values(|c: ChunkRow| hex_text(c.sha_hash, false)));
        assert(groups@ =~= rows.map_values(|c: ChunkRow| c.group_num as u128));
        assert(sizes@ =~= rows.map_values(|c: ChunkRow| stored_size(c.file_size)));
        lemma_text_fold(guids, shas@, rows.len());
    }
    ChunkTables {
        hashes: table_of(keys1, hashes),
        shas: table_of(keys2, shas),
        groups: table_of(keys3, groups),
        sizes: table_of(keys4, sizes),
    }
}

impl DownloadManifest {
    /// Puts the sections of a payload together as a manifest.
    pub fn from_payload(payload: Payload) -> (manifest: DownloadManifest)
        requires
            payload.custom_keys@.len() == payload.custom_values@.len(),
        ensures
            manifest@ == manifest_of(payload@),
    {
        let ghost rows = payload@;
        let Payload { meta, chunks, files, custom_keys, custom_values } = payload;
        let tables: ChunkTables = chunk_tables(&chunks);
        let file_manifest_list: Vec<FileManifestList> = convert_files(&files);
        proof {
            lemma_text_fold(views_of(custom_keys@), custom_values@, custom_keys@.len());
        }
        let custom: Table<String> = table_of(custom_keys, custom_values);
        let ManifestMeta {
            feature_level,
            is_file_data,
            app_id,
            app_name,
            build_version,
            launch_exe,
            launch_command,
            prereq_ids,
            prereq_name,
            prereq_path,
            prereq_args,
            uninstall_action_path,
            uninstall_action_args,
        } = meta;
        let ids: Option<Vec<String>> = if prereq_ids.len() == 0 {
            None
        } else {
            Some(prereq_ids)
        };
        let ChunkTables { hashes, shas, groups, sizes } = tables;
        DownloadManifest {
            manifest_file_version: feature_level as u128,
            b_is_file_data: is_file_data,
            app_id: app_id as u128,
            app_name_string: app_name,
            build_version_string: build_version,
            uninstall_action_path,
            uninstall_action_args,
            launch_exe_string: launch_exe,
            launch_command,
            prereq_ids: ids,
            prereq_name,
            prereq_path,
            prereq_args,
            file_manifest_list,
            chunk_hash_list: hashes,
            chunk_sha_list: Some(shas),
            data_group_list: groups,
            chunk_filesize_list: sizes,
            custom_fields: Some(custom),
        }
    }

    /// Reads a manifest from its binary form, and says why where it
    /// cannot.
    pub fn decode(buffer: &[u8]) -> (value: Result<DownloadManifest, ManifestError>)
        ensures
            match value {
                Ok(manifest) => binary_manifest(buffer@) == Ok::<ManifestModel, ManifestError>(
                    manifest@,
                ) && binary_chunks(manifest@) && binary_sizes(manifest@),
                Err(e) => binary_manifest(buffer@) == Err::<ManifestModel, ManifestError>(e),
            },
    {
        let data: Vec<u8> = match open_envelope(buffer) {
            Ok(data) => data,
            Err(e) => {
                return Err(e);
            },
        };
        proof {
            if payload_rows(data@) is Some {
                lemma_payload_chunks(data@);
                lemma_payload_sizes(data@);
            }
        }
        match read_payload(data.as_slice()) {
            Some(payload) => Ok(DownloadManifest::from_payload(payload)),
            None => Err(ManifestError::Truncated),
        }
    }

    /// Reads a manifest from its binary form.
    pub fn from_vec(buffer: Vec<u8>) -> (value: Option<DownloadManifest>)
        ensures
            match value {
                Some(manifest) => binary_manifest(buffer@) == Ok::<ManifestModel, ManifestError>(
                    manifest@,
                ) && binary_chunks(manifest@) && binary_sizes(manifest@),
                None => binary_manifest(buffer@) is Err,
            },
    {
        match DownloadManifest::decode(buffer.as_slice()) {
            Ok(manifest) => Some(manifest),
            Err(_) => None,
        }
    }
}

/// The custom field of a manifest with the given key, where it has one.
pub open spec fn custom_value(m: ManifestModel, key: Seq<char>) -> Option<Seq<char>> {
    match m.custom_fields {
        Some(fields) => assoc_get(fields, key),
        None => None,
    }
}

/// A manifest after `value` was stored as the custom field `key`.
pub open spec fn with_custom(m: ManifestModel, key: Seq<char>, value: Seq<char>) -> ManifestModel {
    ManifestModel {
        custom_fields: Some(
            assoc_put(
                match m.custom_fields {
                    Some(fields) => fields,
                    None => Seq::empty(),
                },
                key,
                value,
            ),
        ),
        ..m
    }
}

/// A manifest after a value was stored as the custom field `key`, where
/// there is a value.
pub open spec fn with_optional(m: ManifestModel, key: Seq<char>, value: Option<Seq<char>>)
    -> ManifestModel {
    match value {
        Some(text) => with_custom(m, key, text),
        None => m,
    }
}

/// The name of the directory that holds the chunks of a manifest of the
/// given feature level.
pub open spec fn chunk_dir_text(version: u128) -> Seq<char> {
    if version >= 15 {
        "ChunksV4"@
    } else if version >= 6 {
        "ChunksV3"@
    } else if version >= 3 {
        "ChunksV2"@
    } else {
        "Chunks"@
    }
}

/// Index of the first comma of a text at or behind `from`; the length of
/// the text where there is none.
pub open spec fn comma_at(text: Seq<char>, from: int) -> int
    decreases text.len() - from,
{
    if from < 0 || from >= text.len() {
        text.len() as int
    } else if text[from] == ',' {
        from
    } else {
        comma_at(text, from + 1)
    }
}

/// The first entry of a comma-separated list: what stands before the
/// first comma.
pub open spec fn first_entry(text: Seq<char>) -> Seq<char> {
    text.take(comma_at(text, 0))
}

/// Computes the first entry of a comma-separated list.
pub fn take_first_entry(text: &str) -> (entry: String)
    ensures
        entry@ == first_entry(text@),
{
    let total: usize = text.unicode_len();
    let mut i: usize = 0;
    while i < total && text.get_char(i) != ','
        invariant
            i <= total,
            total == text@.len(),
            comma_at(text@, 0) == comma_at(text@, i as int),
        decreases total - i,
    {
        i = i + 1;
    }
    text.substring_char(0, i).to_owned()
}

/// The base address of the chunks of a manifest: its custom field
/// `SourceURL`, or else the first entry of its custom field `BaseUrl`.
pub open spec fn base_url(m: ManifestModel) -> Option<Seq<char>> {
    match custom_value(m, "SourceURL"@) {
        Some(url) => Some(url),
        None => match custom_value(m, "BaseUrl"@) {
            Some(urls) => Some(first_entry(urls)),
            None => None,
        },
    }
}

/// The address of a chunk below a base address, as text: the directory of
/// the feature level, the data group in at least two decimal digits, the
/// rolling hash in at least sixteen upper-case hexadecimal digits, and the
/// GUID in upper case.
pub open spec fn chunk_path(
    base: Seq<char>,
    version: u128,
    guid: Seq<char>,
    hash: u128,
    group: u128,
) -> Seq<char> {
    base + "/"@ + chunk_dir_text(version) + "/"@ + zero_padded(
        radix_text(group as nat, 10, false),
        2,
    ) + "/"@ + zero_padded(radix_text(hash as nat, 16, true), 16) + "_"@ + uppercase(guid)
        + ".chunk"@
}

/// The addresses of the first `count` chunks of the rolling hash map, by
/// GUID. A chunk without a data group has no address, nor has one whose
/// address does not parse as a URL.
pub open spec fn links_upto(m: ManifestModel, base: Seq<char>, count: nat) -> Seq<
    (Seq<char>, Seq<char>),
>
    decreases count,
{
    if count == 0 {
        Seq::empty()
    } else {
        let earlier = links_upto(m, base, (count - 1) as nat);
        let chunk = m.chunk_hashes[count - 1];
        match assoc_get(m.data_groups, chunk.0) {
            Some(group) => match url_normal_form(
                chunk_path(base, m.manifest_file_version, chunk.0, chunk.1, group),
            ) {
                Some(url) => assoc_put(earlier, chunk.0, url),
                None => earlier,
            },
            None => earlier,
        }
    }
}

/// The address of every chunk of a manifest, by GUID; `None` where the
/// manifest has no base address.
pub open spec fn links_of(m: ManifestModel) -> Option<Seq<(Seq<char>, Seq<char>)>> {
    match base_url(m) {
        Some(base) => Some(links_upto(m, base, m.chunk_hashes.len())),
        None => None,
    }
}

/// The parts of a file that have an address, each with its address, in
/// file order.
pub open spec fn linked_parts(parts: Seq<PartModel>, links: Seq<(Seq<char>, Seq<char>)>) -> Seq<
    PartModel,
>
    decreases parts.len(),
{
    if parts.len() == 0 {
        Seq::empty()
    } else {
        let earlier = linked_parts(parts.drop_last(), links);
        match assoc_get(links, parts.last().guid) {
            Some(url) => earlier.push(PartModel { link: Some(url), ..parts.last() }),
            None => earlier,
        }
    }
}

/// A file with the parts that have an address.
pub open spec fn linked_file(file: FileModel, links: Seq<(Seq<char>, Seq<char>)>) -> FileModel {
    FileModel { parts: linked_parts(file.parts, links), ..file }
}

/// The first `count` files by name, each with the parts that have an
/// address; of two files with one name the later one stays.
pub open spec fn files_upto(
    files: Seq<FileModel>,
    links: Seq<(Seq<char>, Seq<char>)>,
    count: nat,
) -> Seq<(Seq<char>, FileModel)>
    decreases count,
{
    if count == 0 {
        Seq::empty()
    } else {
        assoc_put(
            files_upto(files, links, (count - 1) as nat),
            files[count - 1].filename,
            linked_file(files[count - 1], links),
        )
    }
}

/// The addresses of a manifest, none where it has no base address.
pub open spec fn links_or_none(m: ManifestModel) -> Seq<(Seq<char>, Seq<char>)> {
    match links_of(m) {
        Some(links) => links,
        None => Seq::empty(),
    }
}

/// The files of a manifest by name, each with the parts whose chunk has
/// an address.
pub open spec fn file_view(m: ManifestModel) -> Seq<(Seq<char>, FileModel)> {
    files_upto(m.files, links_or_none(m), m.files.len())
}

/// Sum of the values of a sequence of pairs.
pub open spec fn values_sum(entries: Seq<(Seq<char>, u128)>) -> nat
    decreases entries.len(),
{
    if entries.len() == 0 {
        0
    } else {
        values_sum(entries.drop_last()) + entries.last().1 as nat
    }
}

/// Sum of the sizes of a sequence of files.
pub open spec fn files_size(files: Seq<FileModel>) -> nat
    decreases files.len(),
{
    if files.len() == 0 {
        0
    } else {
        files_size(files.drop_last()) + parts_size(files.last().parts)
    }
}

/// The address of a chunk below a base address.
pub fn chunk_url(base: &str, version: u128, guid: &str, hash: u128, group: u128) -> (url: String)
    ensures
        url@ == chunk_path(base@, version, guid@, hash, group),
{
    let mut url: String = base.to_owned();
    url.append("/");
    url.append(DownloadManifest::chunk_dir(version));
    url.append("/");
    push_padded(&mut url, group, 10, 2, false);
    url.append("/");
    push_padded(&mut url, hash, 16, 16, true);
    url.append("_");
    let raised: String = upper(guid);
    url.append(raised.as_str());
    url.append(".chunk");
    url
}

/// The parts of a file that have an address, each with its address.
pub fn link_parts(parts: &Vec<FileChunkPart>, links: &Table<String>) -> (linked: Vec<
    FileChunkPart,
>)
    ensures
        part_models(linked@) == linked_parts(part_models(parts@), text_entries(links.entries())),
{
    let ghost rows = part_models(parts@);
    let ghost urls = text_entries(links.entries());
    let mut linked: Vec<FileChunkPart> = Vec::new();
    let mut i: usize = 0;
    assert(rows.take(0) =~= Seq::<PartModel>::empty());
    assert(part_models(linked@) =~= Seq::<PartModel>::empty());
    while i < parts.len()
        invariant
            i <= parts@.len(),
            rows == part_models(parts@),
            urls == text_entries(links.entries()),
            part_models(linked@) == linked_parts(rows.take(i as int), urls),
        decreases parts@.len() - i,
    {
        let part: &FileChunkPart = &parts[i];
        let ghost before = part_models(linked@);
        proof {
            assert(rows.take(i + 1).drop_last() =~= rows.take(i as int));
            assert(rows.take(i + 1).last() == part@);
            lemma_text_get(links.entries(), part.guid@);
        }
        match links.get(part.guid.as_str()) {
            Some(url) => {
                let made = FileChunkPart {
                    guid: part.guid.clone(),
                    link: Some(url.clone()),
                    offset: part.offset,
                    size: part.size,
                };
                linked.push(made);
                assert(part_models(linked@) =~= before.push(made@));
            },
            None => {},
        }
        i = i + 1;
    }
    assert(rows.take(i as int) =~= rows);
    linked
}

impl DownloadManifest {
    /// The name of the directory that holds the chunks of a manifest of
    /// the given feature level.
    pub fn chunk_dir(version: u128) -> (dir: &'static str)
        ensures
            dir@ == chunk_dir_text(version),
    {
        if version >= 15 {
            "ChunksV4"
        } else if version >= 6 {
            "ChunksV3"
        } else if version >= 3 {
            "ChunksV2"
        } else {
            "Chunks"
        }
    }

    /// Stores a custom field.
    pub fn set_custom_field(&mut self, key: String, value: String)
        ensures
            final(self)@ == with_custom(old(self)@, key@, value@),
    {
        let mut held: Option<Table<String>> = None;
        core::mem::swap(&mut held, &mut self.custom_fields);
        let mut fields: Table<String> = match held {
            Some(fields) => fields,
            None => Table::new(),
        };
        let ghost before = fields.entries();
        proof {
            lemma_text_put(before, key@, value);
            assert(text_entries(Seq::<(Seq<char>, String)>::empty()) =~= Seq::<
                (Seq<char>, Seq<char>),
            >::empty());
            if old(self).custom_fields is None {
                assert(before =~= Seq::<(Seq<char>, String)>::empty());
            }
        }
        fields.insert(key, value);
        self.custom_fields = Some(fields);
    }

    /// Records where a manifest came from, as custom fields: the base
    /// addresses, what was asked for as far as it is known, and the source
    /// address.
    pub fn stamp_provenance(
        &mut self,
        base_urls: String,
        item_id: Option<String>,
        label: Option<String>,
        namespace: Option<String>,
        app: Option<String>,
        source_url: String,
    )
        ensures
            final(self)@ == with_custom(
                with_optional(
                    with_optional(
                        with_optional(
                            with_optional(
                                with_custom(old(self)@, "BaseUrl"@, base_urls@),
                                "CatalogItemId"@,
                                option_view(item_id),
                            ),
                            "BuildLabel"@,
                            option_view(label),
                        ),
                        "CatalogNamespace"@,
                        option_view(namespace),
                    ),
                    "CatalogAssetName"@,
                    option_view(app),
                ),
                "SourceURL"@,
                source_url@,
            ),
    {
        self.set_custom_field("BaseUrl".to_owned(), base_urls);
        self.set_optional_field("CatalogItemId", item_id);
        self.set_optional_field("BuildLabel", label);
        self.set_optional_field("CatalogNamespace", namespace);
        self.set_optional_field("CatalogAssetName", app);
        self.set_custom_field("SourceURL".to_owned(), source_url);
    }

    /// Stores a custom field where there is a value for it.
    pub fn set_optional_field(&mut self, key: &str, value: Option<String>)
        ensures
            final(self)@ == with_optional(old(self)@, key@, option_view(value)),
    {
        match value {
            Some(text) => self.set_custom_field(key.to_owned(), text),
            None => {},
        }
    }

    /// The custom field with the given key, where the manifest has one.
    pub fn custom_field(&self, key: &str) -> (value: Option<String>)
        ensures
            option_view(value) == custom_value(self@, key@),
    {
        match &self.custom_fields {
            Some(fields) => {
                proof {
                    lemma_text_get(fields.entries(), key@);
                }
                match fields.get(key) {
                    Some(value) => Some(value.clone()),
                    None => None,
                }
            },
            None => None,
        }
    }

    /// The address of every chunk, by GUID; `None` where the manifest has
    /// no base address.
    pub fn download_links(&self) -> (links: Option<Table<String>>)
        ensures
            option_entries(links) == links_of(self@),
    {
        let ghost m = self@;
        let base: String = match self.custom_field("SourceURL") {
            Some(url) => url,
            None => match self.custom_field("BaseUrl") {
                Some(urls) => take_first_entry(urls.as_str()),
                None => {
                    return None;
                },
            },
        };
        let table: &Table<u128> = &self.chunk_hash_list;
        let count: usize = table.len();
        let mut result: Table<String> = Table::new();
        let mut i: usize = 0;
        assert(text_entries(result.entries()) =~= links_upto(m, base@, 0));
        while i < count
            invariant
                i <= count,
                m == self@,
                count == table.keys().len(),
                count == table.values().len(),
                table.entries() == m.chunk_hashes,
                text_entries(result.entries()) == links_upto(m, base@, i as nat),
            decreases count - i,
        {
            let guid: &String = table.key(i);
            let hash: u128 = *table.value(i);
            match self.data_group_list.get(guid.as_str()) {
                Some(group) => {
                    let text: String = chunk_url(
                        base.as_str(),
                        self.manifest_file_version,
                        guid.as_str(),
                        hash,
                        *group,
                    );
                    match parse_url(text.as_str()) {
                        Some(url) => {
                            proof {
                                lemma_text_put(result.entries(), guid@, url);
                            }
                            result.insert(guid.clone(), url);
                        },
                        None => {},
                    }
                },
                None => {},
            }
            i = i + 1;
        }
        Some(result)
    }

    /// The files of the manifest by name, each with the parts whose chunk
    /// has an address.
    pub fn files(&self) -> (result: Table<FileManifestList>)
        ensures
            map_entries(result.entries(), |f: FileManifestList| f@) == file_view(self@),
    {
        let ghost m = self@;
        let links: Table<String> = match self.download_links() {
            Some(links) => links,
            None => Table::new(),
        };
        let ghost urls = text_entries(links.entries());
        assert(urls =~= links_or_none(m));
        let list: &Vec<FileManifestList> = &self.file_manifest_list;
        let mut result: Table<FileManifestList> = Table::new();
        let mut i: usize = 0;
        assert(map_entries(result.entries(), |f: FileManifestList| f@) =~= files_upto(
            m.files,
            urls,
            0,
        ));
        while i < list.len()
            invariant
                i <= list@.len(),
                m.files == file_models(list@),
                urls == text_entries(links.entries()),
                map_entries(result.entries(), |f: FileManifestList| f@) == files_upto(
                    m.files,
                    urls,
                    i as nat,
                ),
            decreases list@.len() - i,
        {
            let file: &FileManifestList = &list[i];
            let made = FileManifestList {
                filename: file.filename.clone(),
                file_hash: file.file_hash.clone(),
                file_chunk_parts: link_parts(&file.file_chunk_parts, &links),
            };
            proof {
                lemma_map_put(
                    result.entries(),
                    |f: FileManifestList| f@,
                    file.filename@,
                    made,
                );
                assert(made@ == linked_file(file@, urls));
            }
            result.insert(file.filename.clone(), made);
            i = i + 1;
        }
        result
    }

    /// Sum of the stored sizes of all chunks.
    pub fn total_download_size(&self) -> (total: u128)
        requires
            values_sum(self@.chunk_sizes) <= u128::MAX,
        ensures
            total == values_sum(self@.chunk_sizes),
    {
        let table: &Table<u128> = &self.chunk_filesize_list;
        let ghost rows = table.entries();
        let count: usize = table.len();
        let mut total: u128 = 0;
        let mut i: usize = 0;
        assert(rows.take(0) =~= Seq::<(Seq<char>, u128)>::empty());
        while i < count
            invariant
                i <= count,
                count == table.keys().len(),
                count == table.values().len(),
                rows == table.entries(),
                total == values_sum(rows.take(i as int)),
                values_sum(rows) <= u128::MAX,
            decreases count - i,
        {
            proof {
                lemma_values_sum_grows(rows, (i + 1) as int);
                assert(rows.take(i + 1).drop_last() =~= rows.take(i as int));
            }
            total = total + *table.value(i);
            i = i + 1;
        }
        assert(rows.take(i as int) =~= rows);
        total
    }

    /// Sum of the sizes of all files.
    pub fn total_size(&self) -> (total: u128)
        requires
            files_size(self@.files) <= u128::MAX,
        ensures
            total == files_size(self@.files),
    {
        let list: &Vec<FileManifestList> = &self.file_manifest_list;
        let ghost rows = self@.files;
        let mut total: u128 = 0;
        let mut i: usize = 0;
        assert(rows.take(0) =~= Seq::<FileModel>::empty());
        while i < list.len()
            invariant
                i <= list@.len(),
                rows == file_models(list@),
                total == files_size(rows.take(i as int)),
                files_size(rows) <= u128::MAX,
            decreases list@.len() - i,
        {
            proof {
                lemma_files_size_grows(rows, (i + 1) as int);
                assert(rows.take(i + 1).drop_last() =~= rows.take(i as int));
            }
            total = total + list[i].size();
            i = i + 1;
        }
        assert(rows.take(i as int) =~= rows);
        total
    }
}

/// Whether every one of the first `count` chunks of the rolling hash map
/// has a data group and an address that parses as a URL.
pub open spec fn addressable(m: ManifestModel, base: Seq<char>, count: nat) -> bool {
    forall|i: int|
        0 <= i < count ==> match assoc_get(m.data_groups, (#[trigger] m.chunk_hashes[i]).0) {
            Some(group) => url_normal_form(
                chunk_path(base, m.manifest_file_version, m.chunk_hashes[i].0, m.chunk_hashes[i].1, group),
            ) is Some,
            None => false,
        }
}

/// The GUIDs that have an address among the first `count` chunks are the
/// GUIDs of those chunks, where every one of them has a data group and an
/// address that parses.
pub proof fn lemma_links_upto_keys(m: ManifestModel, base: Seq<char>, count: nat, guid: Seq<char>)
    requires
        count <= m.chunk_hashes.len(),
        addressable(m, base, count),
    ensures
        keys_of(links_upto(m, base, count)).contains(guid) <==> keys_of(
            m.chunk_hashes.take(count as int),
        ).contains(guid),
    decreases count,
{
    let taken = keys_of(m.chunk_hashes.take(count as int));
    if count == 0 {
        assert(keys_of(links_upto(m, base, 0)) =~= Seq::<Seq<char>>::empty());
        assert(taken =~= Seq::<Seq<char>>::empty());
    } else {
        let last = (count - 1) as nat;
        let chunk = m.chunk_hashes[last as int];
        let earlier = links_upto(m, base, last);
        lemma_links_upto_keys(m, base, last, guid);
        let group = assoc_get(m.data_groups, chunk.0).unwrap();
        let url = url_normal_form(
            chunk_path(base, m.manifest_file_version, chunk.0, chunk.1, group),
        ).unwrap();
        lemma_put_keys(earlier, chunk.0, url, guid);
        let before = keys_of(m.chunk_hashes.take(last as int));
        assert(taken =~= before.push(chunk.0));
        if before.contains(guid) {
            let at = before.index_of(guid);
            assert(taken[at] == guid);
        }
        if guid == chunk.0 {
            assert(taken[last as int] == guid);
        }
        if taken.contains(guid) {
            let at = taken.index_of(guid);
            if at < last {
                assert(before[at] == guid);
            }
        }
    }
}

/// Where a manifest has a base address and every chunk of its rolling hash
/// map has a data group and an address that parses as a URL, a GUID has an
/// address exactly if it is in the rolling hash map.
pub proof fn lemma_link_iff_chunk(m: ManifestModel, guid: Seq<char>)
    requires
        base_url(m) is Some,
        addressable(m, base_url(m).unwrap(), m.chunk_hashes.len()),
    ensures
        assoc_get(links_of(m).unwrap(), guid) is Some <==> assoc_get(m.chunk_hashes, guid)
            is Some,
{
    lemma_links_upto_keys(m, base_url(m).unwrap(), m.chunk_hashes.len(), guid);
    assert(m.chunk_hashes.take(m.chunk_hashes.len() as int) =~= m.chunk_hashes);
}

/// The file view keeps of every file exactly the parts whose chunk has an
/// address, in their order: a part is kept with its address where its GUID
/// has one, and left out where it has none.
pub proof fn lemma_linked_parts_step(
    parts: Seq<PartModel>,
    links: Seq<(Seq<char>, Seq<char>)>,
    part: PartModel,
)
    ensures
        linked_parts(parts.push(part), links) == match assoc_get(links, part.guid) {
            Some(url) => linked_parts(parts, links).push(PartModel { link: Some(url), ..part }),
            None => linked_parts(parts, links),
        },
{
    assert(parts.push(part).drop_last() =~= parts);
}

/// Where a manifest has a base address and every chunk of its rolling hash
/// map has a data group and an address that parses as a URL, the file view
/// keeps a chunk part exactly if its GUID is in the rolling hash map.
pub proof fn lemma_part_kept_iff_chunk(m: ManifestModel, parts: Seq<PartModel>, part: PartModel)
    requires
        base_url(m) is Some,
        addressable(m, base_url(m).unwrap(), m.chunk_hashes.len()),
    ensures
        linked_parts(parts.push(part), links_or_none(m)).len() == linked_parts(
            parts,
            links_or_none(m),
        ).len() + if assoc_get(m.chunk_hashes, part.guid) is Some {
            1int
        } else {
            0int
        },
{
    lemma_link_iff_chunk(m, part.guid);
    lemma_linked_parts_step(parts, links_or_none(m), part);
}

/// The values of the first pairs add up to no more than those of all.
pub proof fn lemma_values_sum_grows(entries: Seq<(Seq<char>, u128)>, count: int)
    requires
        0 <= count <= entries.len(),
    ensures
        values_sum(entries.take(count)) <= values_sum(entries),
    decreases entries.len() - count,
{
    if count < entries.len() {
        lemma_values_sum_grows(entries, count + 1);
        assert(entries.take(count + 1).drop_last() =~= entries.take(count));
    } else {
        assert(entries.take(count) =~= entries);
    }
}

/// The sizes of the first files add up to no more than those of all.
pub proof fn lemma_files_size_grows(files: Seq<FileModel>, count: int)
    requires
        0 <= count <= files.len(),
    ensures
        files_size(files.take(count)) <= files_size(files),
    decreases files.len() - count,
{
    if count < files.len() {
        lemma_files_size_grows(files, count + 1);
        assert(files.take(count + 1).drop_last() =~= files.take(count));
    } else {
        assert(files.take(count) =~= files);
    }
}

} // verus!
