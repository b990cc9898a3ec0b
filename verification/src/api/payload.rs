//! The envelope of a binary manifest and the sections of its payload, put
//! together: metadata, chunk table, file table and custom fields.

use crate::api::binary::{
    check_room, chunk_rows, chunks_at, enter_section, file_rows, files_at, has_room, read_chunks,
    read_files, section_end, take_at, take_texts, take_u32, texts_at, views_of,
    BinaryChunkInfo, BinaryFileManifest, ChunkRow, FileRow,
};
use crate::api::foreign::{inflate, sha1_digest, sha1_of, zlib_inflated};
use crate::api::utils::{do_vecs_match, le_u32, read_le};
use vstd::prelude::*;
use vstd::slice::{slice_subrange, slice_to_vec};

verus! {

/// Why a buffer could not be read as a manifest.
#[derive(Debug, Clone, Copy, PartialEq, Eq)]
pub enum ManifestError {
    /// The buffer does not start with the magic number of a binary
    /// manifest.
    MagicMismatch,
    /// The SHA-1 in the header is not that of the payload, or the payload
    /// cannot be decompressed.
    IntegrityMismatch,
    /// The header, a section or one of its fields reaches past the end of
    /// the buffer.
    Truncated,
    /// The buffer is not a JSON manifest either.
    MalformedJson,
}

/// The metadata section of a manifest.
#[derive(Debug, Clone, PartialEq)]
pub struct ManifestMeta {
    pub feature_level: u32,
    pub is_file_data: bool,
    pub app_id: u32,
    pub app_name: String,
    pub build_version: String,
    pub launch_exe: String,
    pub launch_command: String,
    pub prereq_ids: Vec<String>,
    pub prereq_name: String,
    pub prereq_path: String,
    pub prereq_args: String,
    pub uninstall_action_path: Option<String>,
    pub uninstall_action_args: Option<String>,
}

/// What a metadata section holds.
pub struct MetaRow {
    pub feature_level: u32,
    pub is_file_data: bool,
    pub app_id: u32,
    pub app_name: Seq<char>,
    pub build_version: Seq<char>,
    pub launch_exe: Seq<char>,
    pub launch_command: Seq<char>,
    pub prereq_ids: Seq<Seq<char>>,
    pub prereq_name: Seq<char>,
    pub prereq_path: Seq<char>,
    pub prereq_args: Seq<char>,
    pub uninstall_action_path: Option<Seq<char>>,
    pub uninstall_action_args: Option<Seq<char>>,
}

/// The text of an optional string.
pub open spec fn option_view(text: Option<String>) -> Option<Seq<char>> {
    match text {
        Some(s) => Some(s@),
        None => None,
    }
}

impl View for ManifestMeta {
    type V = MetaRow;

    open spec fn view(&self) -> MetaRow {
        MetaRow {
            feature_level: self.feature_level,
            is_file_data: self.is_file_data,
            app_id: self.app_id,
            app_name: self.app_name@,
            build_version: self.build_version@,
            launch_exe: self.launch_exe@,
            launch_command: self.launch_command@,
            prereq_ids: views_of(self.prereq_ids@),
            prereq_name: self.prereq_name@,
            prereq_path: self.prereq_path@,
            prereq_args: self.prereq_args@,
            uninstall_action_path: option_view(self.uninstall_action_path),
            uninstall_action_args: option_view(self.uninstall_action_args),
        }
    }
}

/// Number of strings that close a metadata section of the given version:
/// from version 1 on a build version that replaces the earlier one, from
/// version 2 on the path and the arguments of the uninstall action.
pub open spec fn meta_tail(version: u8) -> nat {
    if version >= 2 {
        3
    } else if version >= 1 {
        1
    } else {
        0
    }
}

/// The metadata section that starts at `at`, and the position behind it.
/// Its fields, in order: feature level, file-data flag, application id;
/// application name, build version, launch executable and launch command;
/// a count and as many prerequisite ids, of which those without text are
/// left out; prerequisite name, path and arguments; then what the version
/// adds.
pub open spec fn meta_at(bytes: Seq<u8>, at: int) -> Option<(MetaRow, int)> {
    match section_end(bytes, at) {
        Some(end) => if has_room(bytes, at + 5, 9) {
            let version = bytes[at + 4];
            match texts_at(bytes, at + 14, 4, false) {
                Some((head, next1)) => if has_room(bytes, next1, 4) {
                    match texts_at(bytes, next1 + 4, le_u32(bytes, next1) as nat, true) {
                        Some((ids, next2)) => match texts_at(bytes, next2, 3, false) {
                            Some((prereq, next3)) => match texts_at(
                                bytes,
                                next3,
                                meta_tail(version),
                                false,
                            ) {
                                Some((tail, _)) => Some(
                                    (
                                        MetaRow {
                                            feature_level: le_u32(bytes, at + 5) as u32,
                                            is_file_data: bytes[at + 9] != 0,
                                            app_id: le_u32(bytes, at + 10) as u32,
                                            app_name: head[0],
                                            build_version: if version >= 1 {
                                                tail[0]
                                            } else {
                                                head[1]
                                            },
                                            launch_exe: head[2],
                                            launch_command: head[3],
                                            prereq_ids: ids,
                                            prereq_name: prereq[0],
                                            prereq_path: prereq[1],
                                            prereq_args: prereq[2],
                                            uninstall_action_path: if version >= 2 {
                                                Some(tail[1])
                                            } else {
                                                None
                                            },
                                            uninstall_action_args: if version >= 2 {
                                                Some(tail[2])
                                            } else {
                                                None
                                            },
                                        },
                                        end,
                                    ),
                                ),
                                None => None,
                            },
                            None => None,
                        },
                        None => None,
                    }
                } else {
                    None
                },
                None => None,
            }
        } else {
            None
        },
        None => None,
    }
}

/// Reads the metadata section and moves the cursor behind it.
pub fn read_meta(buffer: &[u8], position: &mut usize) -> (value: Option<ManifestMeta>)
    ensures
        match value {
            Some(meta) => meta_at(buffer@, *old(position) as int) == Some(
                (meta@, *final(position) as int),
            ),
            None => meta_at(buffer@, *old(position) as int) is None && *final(position) == *old(position),
        },
{
    let start: usize = *position;
    let (version, end) = match enter_section(buffer, position) {
        Some(entered) => entered,
        None => {
            return None;
        },
    };
    if !check_room(buffer, *position, 9) {
        *position = start;
        return None;
    }
    let feature_level: u32 = read_le(buffer, position);
    let is_file_data: bool = buffer[*position] != 0;
    *position = *position + 1;
    let app_id: u32 = read_le(buffer, position);
    let mut head: Vec<String> = match take_texts(buffer, position, 4, false) {
        Some(head) => head,
        None => {
            *position = start;
            return None;
        },
    };
    let count: u32 = match take_u32(buffer, position) {
        Some(count) => count,
        None => {
            *position = start;
            return None;
        },
    };
    let prereq_ids: Vec<String> = match take_texts(buffer, position, count, true) {
        Some(ids) => ids,
        None => {
            *position = start;
            return None;
        },
    };
    let mut prereq: Vec<String> = match take_texts(buffer, position, 3, false) {
        Some(prereq) => prereq,
        None => {
            *position = start;
            return None;
        },
    };
    let extra: u32 = if version >= 2 {
        3
    } else if version >= 1 {
        1
    } else {
        0
    };
    let mut tail: Vec<String> = match take_texts(buffer, position, extra, false) {
        Some(tail) => tail,
        None => {
            *position = start;
            return None;
        },
    };
    let ghost head_model = views_of(head@);
    let ghost prereq_model = views_of(prereq@);
    let ghost tail_model = views_of(tail@);
    let app_name: String = take_at(&mut head, 0, String::new());
    let first_version: String = take_at(&mut head, 1, String::new());
    let launch_exe: String = take_at(&mut head, 2, String::new());
    let launch_command: String = take_at(&mut head, 3, String::new());
    let prereq_name: String = take_at(&mut prereq, 0, String::new());
    let prereq_path: String = take_at(&mut prereq, 1, String::new());
    let prereq_args: String = take_at(&mut prereq, 2, String::new());
    let build_version: String = if version >= 1 {
        take_at(&mut tail, 0, String::new())
    } else {
        first_version
    };
    let uninstall_action_path: Option<String> = if version >= 2 {
        Some(take_at(&mut tail, 1, String::new()))
    } else {
        None
    };
    let uninstall_action_args: Option<String> = if version >= 2 {
        Some(take_at(&mut tail, 2, String::new()))
    } else {
        None
    };
    *position = end;
    Some(
        ManifestMeta {
            feature_level,
            is_file_data,
            app_id,
            app_name,
            build_version,
            launch_exe,
            launch_command,
            prereq_ids,
            prereq_name,
            prereq_path,
            prereq_args,
            uninstall_action_path,
            uninstall_action_args,
        },
    )
}

/// The custom field section that starts at `at`: its keys, its values and
/// the position behind it. The section holds a count, as many keys and as
/// many values; key and value pair up by position.
pub open spec fn custom_at(bytes: Seq<u8>, at: int) -> Option<
    (Seq<Seq<char>>, Seq<Seq<char>>, int),
> {
    match section_end(bytes, at) {
        Some(end) => if has_room(bytes, at + 5, 4) {
            let count = le_u32(bytes, at + 5) as nat;
            match texts_at(bytes, at + 9, count, false) {
                Some((keys, next1)) => match texts_at(bytes, next1, count, false) {
                    Some((values, _)) => Some((keys, values, end)),
                    None => None,
                },
                None => None,
            }
        } else {
            None
        },
        None => None,
    }
}

/// Reads the custom field section and moves the cursor behind it.
pub fn read_custom(buffer: &[u8], position: &mut usize) -> (value: Option<
    (Vec<String>, Vec<String>),
>)
    ensures
        match value {
            Some((keys, values)) => custom_at(buffer@, *old(position) as int) == Some(
                (views_of(keys@), views_of(values@), *final(position) as int),
            ) && keys@.len() == values@.len(),
            None => custom_at(buffer@, *old(position) as int) is None && *final(position) == *old(position),
        },
{
    let start: usize = *position;
    let (_version, end) = match enter_section(buffer, position) {
        Some(entered) => entered,
        None => {
            return None;
        },
    };
    let count: u32 = match take_u32(buffer, position) {
        Some(count) => count,
        None => {
            *position = start;
            return None;
        },
    };
    let keys: Vec<String> = match take_texts(buffer, position, count, false) {
        Some(keys) => keys,
        None => {
            *position = start;
            return None;
        },
    };
    let values: Vec<String> = match take_texts(buffer, position, count, false) {
        Some(values) => values,
        None => {
            *position = start;
            return None;
        },
    };
    *position = end;
    Some((keys, values))
}

/// The four sections of a payload as they were read.
#[derive(Debug, Clone, PartialEq)]
pub struct Payload {
    pub meta: ManifestMeta,
    pub chunks: Vec<BinaryChunkInfo>,
    pub files: Vec<BinaryFileManifest>,
    pub custom_keys: Vec<String>,
    pub custom_values: Vec<String>,
}

/// What the four sections of a payload hold.
pub struct PayloadRows {
    pub meta: MetaRow,
    pub chunks: Seq<ChunkRow>,
    pub files: Seq<FileRow>,
    pub custom_keys: Seq<Seq<char>>,
    pub custom_values: Seq<Seq<char>>,
}

impl View for Payload {
    type V = PayloadRows;

    open spec fn view(&self) -> PayloadRows {
        PayloadRows {
            meta: self.meta@,
            chunks: chunk_rows(self.chunks@),
            files: file_rows(self.files@),
            custom_keys: views_of(self.custom_keys@),
            custom_values: views_of(self.custom_values@),
        }
    }
}

/// The sections of a payload: metadata, chunk table, file table and custom
/// fields, each starting where the one before it ends. What follows the
/// last section is not read. `None` where a section is cut short.
pub open spec fn payload_rows(bytes: Seq<u8>) -> Option<PayloadRows> {
    match meta_at(bytes, 0) {
        Some((meta, next1)) => match chunks_at(bytes, next1) {
            Some((chunks, next2)) => match files_at(bytes, next2) {
                Some((files, next3)) => match custom_at(bytes, next3) {
                    Some((custom_keys, custom_values, _)) => Some(
                        PayloadRows { meta, chunks, files, custom_keys, custom_values },
                    ),
                    None => None,
                },
                None => None,
            },
            None => None,
        },
        None => None,
    }
}

/// Reads the four sections of a payload.
pub fn read_payload(buffer: &[u8]) -> (value: Option<Payload>)
    ensures
        match value {
            Some(payload) => payload_rows(buffer@) == Some(payload@) && payload.custom_keys@.len()
                == payload.custom_values@.len(),
            None => payload_rows(buffer@) is None,
        },
{
    let mut position: usize = 0;
    let meta: ManifestMeta = match read_meta(buffer, &mut position) {
        Some(meta) => meta,
        None => {
            return None;
        },
    };
    let chunks: Vec<BinaryChunkInfo> = match read_chunks(buffer, &mut position) {
        Some(chunks) => chunks,
        None => {
            return None;
        },
    };
    let files: Vec<BinaryFileManifest> = match read_files(buffer, &mut position) {
        Some(files) => files,
        None => {
            return None;
        },
    };
    let (custom_keys, custom_values) = match read_custom(buffer, &mut position) {
        Some(custom) => custom,
        None => {
            return None;
        },
    };
    Some(Payload { meta, chunks, files, custom_keys, custom_values })
}

/// The magic number that opens a binary manifest.
pub const MANIFEST_MAGIC: u32 = 0x44BE_C00C;

/// Length of the header of a binary manifest.
pub const HEADER_SIZE: usize = 41;

/// The payload that the envelope in `bytes` carries. The header is 41
/// bytes: magic number, header size, the two payload sizes, the SHA-1 of the
/// payload, a flag that is not zero where the payload is a zlib stream, and
/// a version. The payload is everything behind the header, decompressed
/// where the flag says so; its SHA-1 has to be the one in the header.
pub open spec fn envelope_payload(bytes: Seq<u8>) -> Result<Seq<u8>, ManifestError> {
    if !has_room(bytes, 0, 4) || le_u32(bytes, 0) != MANIFEST_MAGIC {
        Err(ManifestError::MagicMismatch)
    } else if !has_room(bytes, 0, 41) {
        Err(ManifestError::Truncated)
    } else {
        let body = bytes.subrange(41, bytes.len() as int);
        let payload = if bytes[36] != 0 {
            zlib_inflated(body)
        } else {
            Some(body)
        };
        match payload {
            Some(data) => if sha1_digest(data) == bytes.subrange(16, 36) {
                Ok(data)
            } else {
                Err(ManifestError::IntegrityMismatch)
            },
            None => Err(ManifestError::IntegrityMismatch),
        }
    }
}

/// Opens the envelope of a binary manifest and checks the payload against
/// the digest in the header.
pub fn open_envelope(buffer: &[u8]) -> (value: Result<Vec<u8>, ManifestError>)
    ensures
        match value {
            Ok(data) => envelope_payload(buffer@) == Ok::<Seq<u8>, ManifestError>(data@),
            Err(e) => envelope_payload(buffer@) == Err::<Seq<u8>, ManifestError>(e),
        },
{
    let total: usize = buffer.len();
    let mut position: usize = 0;
    let magic: u32 = match take_u32(buffer, &mut position) {
        Some(magic) => magic,
        None => {
            return Err(ManifestError::MagicMismatch);
        },
    };
    if magic != MANIFEST_MAGIC {
        return Err(ManifestError::MagicMismatch);
    }
    if !check_room(buffer, 0, 41) {
        return Err(ManifestError::Truncated);
    }
    let stored: u8 = buffer[36];
    let body: &[u8] = slice_subrange(buffer, 41, total);
    let payload: Option<Vec<u8>> = if stored != 0 {
        inflate(body)
    } else {
        Some(slice_to_vec(body))
    };
    match payload {
        Some(data) => {
            let digest: Vec<u8> = sha1_of(data.as_slice());
            let expected: &[u8] = slice_subrange(buffer, 16, 36);
            if do_vecs_match(expected, digest.as_slice()) {
                assert(expected@ =~= digest@);
                Ok(data)
            } else {
                Err(ManifestError::IntegrityMismatch)
            }
        },
        None => Err(ManifestError::IntegrityMismatch),
    }
}

} // verus!
