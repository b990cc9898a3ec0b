//! The binary form of a manifest: what its bytes are, and the writer that
//! produces them.

use crate::api::foreign::{
    deflate, inflate, sha1_digest, sha1_of, zlib_deflated, zlib_inflated,
};
use crate::api::inverse::{lemma_envelope_round_trip, lemma_payload_round_trip, writable};
use crate::api::payload::{envelope_payload, ManifestError, MANIFEST_MAGIC};
use crate::api::table::{assoc_get, lemma_text_get, text_entries, Table};
use crate::api::types::download_manifest::{
    binary_manifest, file_models, part_models, DownloadManifest, FileChunkPart,
    FileManifestList, FileModel, ManifestModel, PartModel,
};
use crate::api::utils::{
    decode_hex, do_vecs_match, fstring_bytes, hex_pair, hex_value, put_bytes, put_u32, put_u64, read_hex_digit,
    u32_bytes, u64_bytes, write_fstring,
};
use vstd::prelude::*;
use vstd::string::StringSliceAdditionalSpecFns;
use vstd::utf8::encode_utf8;

verus! {

/// The low 32 bits of a count.
pub open spec fn low32(count: int) -> u32 {
    (count % 0x1_0000_0000) as u32
}

/// `value` where it fits in 32 bits, `fallback` where it does not.
pub open spec fn narrowed32(value: u128, fallback: u32) -> u32 {
    if value <= u32::MAX {
        value as u32
    } else {
        fallback
    }
}

/// `value` where it is at most `limit`, zero where it is more.
pub open spec fn capped(value: u128, limit: u64) -> u64 {
    if value <= limit {
        value as u64
    } else {
        0
    }
}

/// The bytes of all cells of a column, one item after another.
pub open spec fn concat_map<T>(items: Seq<T>, cell: spec_fn(T) -> Seq<u8>) -> Seq<u8>
    decreases items.len(),
{
    if items.len() == 0 {
        Seq::empty()
    } else {
        concat_map(items.drop_last(), cell) + cell(items.last())
    }
}

/// The cells of the first `count + 1` items are those of the first `count`
/// and the cell of the item with index `count`.
pub proof fn lemma_concat_map_next<T>(items: Seq<T>, cell: spec_fn(T) -> Seq<u8>, count: int)
    requires
        0 <= count < items.len(),
    ensures
        concat_map(items.take(count + 1), cell) == concat_map(items.take(count), cell) + cell(
            items[count],
        ),
{
    assert(items.take(count + 1).drop_last() =~= items.take(count));
}

/// A section: its size, which counts the size field itself, its version
/// and its fields.
pub open spec fn section_bytes(version: u8, fields: Seq<u8>) -> Seq<u8> {
    u32_bytes(low32(fields.len() as int + 5)) + seq![version] + fields
}

/// Appends a section with the given version and fields.
pub fn put_section(out: &mut Vec<u8>, version: u8, fields: &Vec<u8>)
    ensures
        final(out)@ == old(out)@ + section_bytes(version, fields@),
{
    let size: u128 = fields.len() as u128 + 5;
    put_u32(out, (size % 0x1_0000_0000) as u32);
    out.push(version);
    put_bytes(out, fields.as_slice());
    assert(out@ =~= old(out)@ + section_bytes(version, fields@));
}

/// Appends a text as a length-prefixed string.
pub fn put_text(out: &mut Vec<u8>, text: &str)
    ensures
        final(out)@ == old(out)@ + fstring_bytes(text@),
{
    let bytes: Vec<u8> = write_fstring(text.to_owned());
    put_bytes(out, bytes.as_slice());
}

/// The text of an optional text: the empty one where there is none.
pub open spec fn option_text(text: Option<Seq<char>>) -> Seq<char> {
    match text {
        Some(s) => s,
        None => Seq::empty(),
    }
}

/// The version of the metadata section that a manifest is written with: 2
/// where it has an uninstall action, else 1 where it has a build version,
/// else 0.
pub open spec fn meta_version(m: ManifestModel) -> u8 {
    if m.uninstall_action_path is Some || m.uninstall_action_args is Some {
        2
    } else if m.build_version_string.len() > 0 {
        1
    } else {
        0
    }
}

/// The prerequisite ids of a metadata section: their count and each as a
/// string.
pub open spec fn ids_bytes(ids: Option<Seq<Seq<char>>>) -> Seq<u8> {
    match ids {
        Some(texts) => u32_bytes(low32(texts.len() as int)) + concat_map(
            texts,
            |t: Seq<char>| fstring_bytes(t),
        ),
        None => u32_bytes(0),
    }
}

/// What the version adds at the end of a metadata section.
pub open spec fn meta_tail_bytes(m: ManifestModel) -> Seq<u8> {
    if meta_version(m) >= 2 {
        fstring_bytes(m.build_version_string) + fstring_bytes(
            option_text(m.uninstall_action_path),
        ) + fstring_bytes(option_text(m.uninstall_action_args))
    } else if meta_version(m) >= 1 {
        fstring_bytes(m.build_version_string)
    } else {
        Seq::empty()
    }
}

/// The fields that open a metadata section: feature level, file-data
/// flag, application id, application name, build version, launch executable
/// and launch command. A feature level beyond 32 bits is written as 18, an
/// application id beyond 32 bits as 0.
pub open spec fn meta_head_bytes(m: ManifestModel) -> Seq<u8> {
    u32_bytes(narrowed32(m.manifest_file_version, 18)) + seq![
        if m.b_is_file_data {
            1u8
        } else {
            0u8
        },
    ] + u32_bytes(narrowed32(m.app_id, 0)) + fstring_bytes(m.app_name_string) + fstring_bytes(
        m.build_version_string,
    ) + fstring_bytes(m.launch_exe_string) + fstring_bytes(m.launch_command)
}

/// Name, path and arguments of the prerequisite installer.
pub open spec fn prereq_bytes(m: ManifestModel) -> Seq<u8> {
    fstring_bytes(m.prereq_name) + fstring_bytes(m.prereq_path) + fstring_bytes(m.prereq_args)
}

/// The fields of the metadata section of a manifest.
#[verifier::opaque]
pub open spec fn meta_fields(m: ManifestModel) -> Seq<u8> {
    meta_head_bytes(m) + ids_bytes(m.prereq_ids) + prereq_bytes(m) + meta_tail_bytes(m)
}

/// Whether a text is thirty-two hexadecimal digits.
pub open spec fn is_guid(guid: Seq<char>) -> bool {
    let bytes = encode_utf8(guid);
    bytes.len() == 32 && forall|i: int| 0 <= i < 32 ==> hex_value(#[trigger] bytes[i]) is Some
}

/// The sixteen bytes that a GUID is written as: four words, least
/// significant byte first, each word being eight of the digits read as a
/// number. A text that is no GUID is written as sixteen zero bytes.
pub open spec fn guid_wire(guid: Seq<char>) -> Seq<u8> {
    let bytes = encode_utf8(guid);
    if is_guid(guid) {
        Seq::new(
            16,
            |i: int|
                {
                    let j = 4 * (i / 4) + 3 - i % 4;
                    (16 * hex_value(bytes[2 * j]).unwrap() + hex_value(
                        bytes[2 * j + 1],
                    ).unwrap()) as u8
                },
        )
    } else {
        Seq::new(16, |i: int| 0u8)
    }
}

/// Encodes a GUID as its sixteen bytes.
pub fn guid_to_wire(guid: &str) -> (wire: Vec<u8>)
    ensures
        wire@ == guid_wire(guid@),
{
    let bytes: &[u8] = guid.as_bytes();
    let mut wire: Vec<u8> = Vec::new();
    let mut valid: bool = bytes.len() == 32;
    if valid {
        let mut k: usize = 0;
        while k < 32
            invariant
                k <= 32,
                bytes@.len() == 32,
                valid == forall|i: int| 0 <= i < k ==> hex_value(#[trigger] bytes@[i]) is Some,
            decreases 32 - k,
        {
            if read_hex_digit(bytes[k]).is_none() {
                valid = false;
            }
            k = k + 1;
        }
    }
    let mut i: usize = 0;
    while i < 16
        invariant
            i <= 16,
            bytes@ == encode_utf8(guid@),
            valid == is_guid(guid@),
            wire@ == guid_wire(guid@).take(i as int),
        decreases 16 - i,
    {
        if valid {
            let j: usize = 4 * (i / 4) + 3 - i % 4;
            let high: u8 = read_hex_digit(bytes[2 * j]).unwrap();
            let low: u8 = read_hex_digit(bytes[2 * j + 1]).unwrap();
            wire.push(16 * high + low);
        } else {
            wire.push(0);
        }
        i = i + 1;
        assert(wire@ =~= guid_wire(guid@).take(i as int));
    }
    assert(guid_wire(guid@).take(16) =~= guid_wire(guid@));
    wire
}

/// Whether a text is forty characters that read as twenty bytes, pair by
/// pair.
pub open spec fn is_digest(text: Seq<char>) -> bool {
    let bytes = encode_utf8(text);
    bytes.len() == 40 && forall|i: int|
        0 <= i < 20 ==> hex_pair(#[trigger] bytes[2 * i], bytes[2 * i + 1]) is Some
}

/// The twenty bytes that a SHA-1 in hexadecimal text is written as; twenty
/// zero bytes where there is no text or it does not read as twenty bytes.
pub open spec fn digest_wire(text: Option<Seq<char>>) -> Seq<u8> {
    match text {
        Some(t) => if is_digest(t) {
            let bytes = encode_utf8(t);
            Seq::new(20, |i: int| hex_pair(bytes[2 * i], bytes[2 * i + 1]).unwrap() as u8)
        } else {
            Seq::new(20, |i: int| 0u8)
        },
        None => Seq::new(20, |i: int| 0u8),
    }
}

/// Twenty zero bytes.
pub fn zero_digest() -> (wire: Vec<u8>)
    ensures
        wire@ == Seq::new(20, |i: int| 0u8),
{
    let mut wire: Vec<u8> = Vec::new();
    let mut i: usize = 0;
    while i < 20
        invariant
            i <= 20,
            wire@ == Seq::new(i as nat, |i: int| 0u8),
        decreases 20 - i,
    {
        wire.push(0);
        i = i + 1;
        assert(wire@ =~= Seq::new(i as nat, |i: int| 0u8));
    }
    wire
}

/// Encodes a SHA-1 in hexadecimal text as its twenty bytes.
pub fn digest_to_wire(text: Option<&String>) -> (wire: Vec<u8>)
    ensures
        wire@ == digest_wire(
            match text {
                Some(s) => Some(s@),
                None => None,
            },
        ),
{
    match text {
        Some(s) => match decode_hex(s.as_str()) {
            Ok(bytes) => {
                if bytes.len() == 20 {
                    proof {
                        let raw = encode_utf8(s@);
                        assert(is_digest(s@)) by {
                            assert forall|i: int| 0 <= i < 20 implies hex_pair(
                                #[trigger] raw[2 * i],
                                raw[2 * i + 1],
                            ) is Some by {
                                assert(hex_pair(raw[2 * i], raw[2 * i + 1]) == Some(
                                    bytes@[i] as int,
                                ));
                            }
                        }
                        assert forall|i: int| 0 <= i < 20 implies bytes@[i] == digest_wire(
                            Some(s@),
                        )[i] by {
                            assert(hex_pair(raw[2 * i], raw[2 * i + 1]) == Some(bytes@[i] as int));
                        }
                        assert(bytes@ =~= digest_wire(Some(s@)));
                    }
                    bytes
                } else {
                    zero_digest()
                }
            },
            Err(_) => {
                proof {
                    let raw = encode_utf8(s@);
                    if is_digest(s@) {
                        let i = choose|i: int|
                            0 <= i < raw.len() / 2 && hex_pair(#[trigger] raw[2 * i], raw[2 * i + 1])
                                is None;
                        assert(hex_pair(raw[2 * i], raw[2 * i + 1]) is Some);
                    }
                }
                zero_digest()
            },
        },
        None => zero_digest(),
    }
}

/// Computes `value` where it fits in 32 bits and `fallback` where it does
/// not.
pub fn narrow32(value: u128, fallback: u32) -> (narrow: u32)
    ensures
        narrow == narrowed32(value, fallback),
{
    if value <= 0xffff_ffff {
        value as u32
    } else {
        fallback
    }
}

/// Computes `value` where it is at most `limit` and zero where it is more.
pub fn cap(value: u128, limit: u64) -> (kept: u64)
    ensures
        kept == capped(value, limit),
{
    if value <= limit as u128 {
        value as u64
    } else {
        0
    }
}

/// Appends the fields that open a metadata section.
pub fn put_meta_head(out: &mut Vec<u8>, manifest: &DownloadManifest)
    ensures
        final(out)@ == old(out)@ + meta_head_bytes(manifest@),
{
    let ghost m = manifest@;
    put_u32(out, narrow32(manifest.manifest_file_version, 18));
    let flag: u8 = if manifest.b_is_file_data {
        1
    } else {
        0
    };
    out.push(flag);
    put_u32(out, narrow32(manifest.app_id, 0));
    let ghost numbers = out@;
    assert(numbers =~= old(out)@ + (u32_bytes(narrowed32(m.manifest_file_version, 18)) + seq![flag]
        + u32_bytes(narrowed32(m.app_id, 0))));
    put_text(out, manifest.app_name_string.as_str());
    put_text(out, manifest.build_version_string.as_str());
    put_text(out, manifest.launch_exe_string.as_str());
    put_text(out, manifest.launch_command.as_str());
    assert(out@ =~= old(out)@ + meta_head_bytes(m));
}

/// Appends the prerequisite ids: their count and each as a string.
pub fn put_ids(out: &mut Vec<u8>, prereq_ids: &Option<Vec<String>>)
    ensures
        final(out)@ == old(out)@ + ids_bytes(
            match *prereq_ids {
                Some(ids) => Some(crate::api::binary::views_of(ids@)),
                None => None,
            },
        ),
{
    match prereq_ids {
        Some(ids) => {
            put_u32(out, (ids.len() as u128 % 0x1_0000_0000) as u32);
            let ghost texts = crate::api::binary::views_of(ids@);
            let ghost start = out@;
            assert(texts.take(0) =~= Seq::<Seq<char>>::empty());
            let mut i: usize = 0;
            while i < ids.len()
                invariant
                    i <= ids@.len(),
                    texts == crate::api::binary::views_of(ids@),
                    out@ == start + concat_map(
                        texts.take(i as int),
                        |t: Seq<char>| fstring_bytes(t),
                    ),
                decreases ids@.len() - i,
            {
                proof {
                    lemma_concat_map_next(texts, |t: Seq<char>| fstring_bytes(t), i as int);
                }
                put_text(out, ids[i].as_str());
                i = i + 1;
            }
            assert(texts.take(i as int) =~= texts);
            assert(out@ =~= old(out)@ + ids_bytes(Some(texts)));
        },
        None => {
            put_u32(out, 0);
        },
    }
}

/// Appends what the version adds at the end of a metadata section.
pub fn put_meta_tail(out: &mut Vec<u8>, manifest: &DownloadManifest)
    ensures
        final(out)@ == old(out)@ + meta_tail_bytes(manifest@),
{
    let ghost m = manifest@;
    let has_uninstall: bool = manifest.uninstall_action_path.is_some()
        || manifest.uninstall_action_args.is_some();
    if has_uninstall || !manifest.build_version_string.as_str().is_empty() {
        put_text(out, manifest.build_version_string.as_str());
    }
    if has_uninstall {
        proof {
            reveal_strlit("");
            assert(""@ =~= Seq::<char>::empty());
        }
        match &manifest.uninstall_action_path {
            Some(path) => put_text(out, path.as_str()),
            None => put_text(out, ""),
        }
        match &manifest.uninstall_action_args {
            Some(args) => put_text(out, args.as_str()),
            None => put_text(out, ""),
        }
    }
    assert(out@ =~= old(out)@ + meta_tail_bytes(m));
}

/// Writes the fields of the metadata section.
pub fn write_meta_fields(manifest: &DownloadManifest) -> (fields: Vec<u8>)
    ensures
        fields@ == meta_fields(manifest@),
{
    reveal(meta_fields);
    let ghost m = manifest@;
    let mut out: Vec<u8> = Vec::new();
    put_meta_head(&mut out, manifest);
    put_ids(&mut out, &manifest.prereq_ids);
    put_text(&mut out, manifest.prereq_name.as_str());
    put_text(&mut out, manifest.prereq_path.as_str());
    put_text(&mut out, manifest.prereq_args.as_str());
    assert(out@ =~= meta_head_bytes(m) + ids_bytes(m.prereq_ids) + prereq_bytes(m));
    put_meta_tail(&mut out, manifest);
    out
}

/// The stored size of the chunk with the given GUID, zero where the
/// manifest has none.
pub open spec fn size_of(m: ManifestModel, guid: Seq<char>) -> u128 {
    match assoc_get(m.chunk_sizes, guid) {
        Some(size) => size,
        None => 0,
    }
}

/// The data group of the chunk with the given GUID as one byte: zero
/// where the manifest has none or it is beyond 255.
pub open spec fn group_of(m: ManifestModel, guid: Seq<char>) -> u8 {
    match assoc_get(m.data_groups, guid) {
        Some(group) => capped(group, 255) as u8,
        None => 0,
    }
}

/// The SHA-1 text of the chunk with the given GUID, where the manifest has
/// one.
pub open spec fn sha_of(m: ManifestModel, guid: Seq<char>) -> Option<Seq<char>> {
    match m.chunk_shas {
        Some(shas) => assoc_get(shas, guid),
        None => None,
    }
}

/// The fields of the chunk section of a manifest: the number of chunks,
/// then column by column, each in the order of the rolling hash map, the
/// GUIDs, the rolling hashes, the SHA-1 digests, the data groups, the window
/// sizes and the stored sizes. What does not fit its field is written as
/// zero. The window size repeats the stored size.
#[verifier::opaque]
pub open spec fn chunk_fields(m: ManifestModel) -> Seq<u8> {
    let rows = m.chunk_hashes;
    u32_bytes(low32(rows.len() as int)) + concat_map(
        rows,
        |x: (Seq<char>, u128)| guid_wire(x.0),
    ) + concat_map(rows, |x: (Seq<char>, u128)| u64_bytes(capped(x.1, u64::MAX))) + concat_map(
        rows,
        |x: (Seq<char>, u128)| digest_wire(sha_of(m, x.0)),
    ) + concat_map(rows, |x: (Seq<char>, u128)| seq![group_of(m, x.0)]) + concat_map(
        rows,
        |x: (Seq<char>, u128)| u32_bytes(narrowed32(size_of(m, x.0), 0)),
    ) + concat_map(
        rows,
        |x: (Seq<char>, u128)| u64_bytes(capped(size_of(m, x.0), 0x7fff_ffff_ffff_ffff)),
    )
}

/// Writes the fields of the chunk section.
pub fn write_chunk_fields(manifest: &DownloadManifest) -> (fields: Vec<u8>)
    ensures
        fields@ == chunk_fields(manifest@),
{
    reveal(chunk_fields);
    let ghost m = manifest@;
    let ghost rows = m.chunk_hashes;
    let table: &Table<u128> = &manifest.chunk_hash_list;
    let count: usize = table.len();
    let mut out: Vec<u8> = Vec::new();
    put_u32(&mut out, (count as u128 % 0x1_0000_0000) as u32);
    let ghost mut start = out@;
    let mut i: usize = 0;
    while i < count
        invariant
            i <= count,
            count == rows.len(),
            count == table.keys().len(),
            count == table.values().len(),
            rows == table.entries(),
            out@ == start + concat_map(rows.take(i as int), |x: (Seq<char>, u128)| guid_wire(x.0)),
        decreases count - i,
    {
        proof {
            lemma_concat_map_next(rows, |x: (Seq<char>, u128)| guid_wire(x.0), i as int);
        }
        let wire: Vec<u8> = guid_to_wire(table.key(i).as_str());
        put_bytes(&mut out, wire.as_slice());
        i = i + 1;
    }
    proof {
        assert(rows.take(i as int) =~= rows);
        start = out@;
    }
    i = 0;
    while i < count
        invariant
            i <= count,
            count == rows.len(),
            count == table.keys().len(),
            count == table.values().len(),
            rows == table.entries(),
            out@ == start + concat_map(
                rows.take(i as int),
                |x: (Seq<char>, u128)| u64_bytes(capped(x.1, u64::MAX)),
            ),
        decreases count - i,
    {
        proof {
            lemma_concat_map_next(
                rows,
                |x: (Seq<char>, u128)| u64_bytes(capped(x.1, u64::MAX)),
                i as int,
            );
        }
        put_u64(&mut out, cap(*table.value(i), u64::MAX));
        i = i + 1;
    }
    proof {
        assert(rows.take(i as int) =~= rows);
        start = out@;
    }
    i = 0;
    while i < count
        invariant
            i <= count,
            count == rows.len(),
            count == table.keys().len(),
            count == table.values().len(),
            rows == table.entries(),
            m == manifest@,
            out@ == start + concat_map(
                rows.take(i as int),
                |x: (Seq<char>, u128)| digest_wire(sha_of(m, x.0)),
            ),
        decreases count - i,
    {
        proof {
            lemma_concat_map_next(
                rows,
                |x: (Seq<char>, u128)| digest_wire(sha_of(m, x.0)),
                i as int,
            );
        }
        let sha: Option<&String> = match &manifest.chunk_sha_list {
            Some(shas) => {
                proof {
                    lemma_text_get(shas.entries(), rows[i as int].0);
                }
                shas.get(table.key(i).as_str())
            },
            None => None,
        };
        let wire: Vec<u8> = digest_to_wire(sha);
        put_bytes(&mut out, wire.as_slice());
        i = i + 1;
    }
    proof {
        assert(rows.take(i as int) =~= rows);
        start = out@;
    }
    i = 0;
    while i < count
        invariant
            i <= count,
            count == rows.len(),
            count == table.keys().len(),
            count == table.values().len(),
            rows == table.entries(),
            m == manifest@,
            out@ == start + concat_map(
                rows.take(i as int),
                |x: (Seq<char>, u128)| seq![group_of(m, x.0)],
            ),
        decreases count - i,
    {
        proof {
            lemma_concat_map_next(rows, |x: (Seq<char>, u128)| seq![group_of(m, x.0)], i as int);
        }
        let group: u8 = match manifest.data_group_list.get(table.key(i).as_str()) {
            Some(group) => cap(*group, 255) as u8,
            None => 0,
        };
        let ghost before = out@;
        out.push(group);
        assert(out@ =~= before + seq![group]);
        i = i + 1;
    }
    proof {
        assert(rows.take(i as int) =~= rows);
        start = out@;
    }
    i = 0;
    while i < count
        invariant
            i <= count,
            count == rows.len(),
            count == table.keys().len(),
            count == table.values().len(),
            rows == table.entries(),
            m == manifest@,
            out@ == start + concat_map(
                rows.take(i as int),
                |x: (Seq<char>, u128)| u32_bytes(narrowed32(size_of(m, x.0), 0)),
            ),
        decreases count - i,
    {
        proof {
            lemma_concat_map_next(
                rows,
                |x: (Seq<char>, u128)| u32_bytes(narrowed32(size_of(m, x.0), 0)),
                i as int,
            );
        }
        let size: u128 = match manifest.chunk_filesize_list.get(table.key(i).as_str()) {
            Some(size) => *size,
            None => 0,
        };
        put_u32(&mut out, narrow32(size, 0));
        i = i + 1;
    }
    proof {
        assert(rows.take(i as int) =~= rows);
        start = out@;
    }
    i = 0;
    while i < count
        invariant
            i <= count,
            count == rows.len(),
            count == table.keys().len(),
            count == table.values().len(),
            rows == table.entries(),
            m == manifest@,
            out@ == start + concat_map(
                rows.take(i as int),
                |x: (Seq<char>, u128)| u64_bytes(capped(size_of(m, x.0), 0x7fff_ffff_ffff_ffff)),
            ),
        decreases count - i,
    {
        proof {
            lemma_concat_map_next(
                rows,
                |x: (Seq<char>, u128)| u64_bytes(capped(size_of(m, x.0), 0x7fff_ffff_ffff_ffff)),
                i as int,
            );
        }
        let size: u128 = match manifest.chunk_filesize_list.get(table.key(i).as_str()) {
            Some(size) => *size,
            None => 0,
        };
        put_u64(&mut out, cap(size, 0x7fff_ffff_ffff_ffff));
        i = i + 1;
    }
    proof {
        assert(rows.take(i as int) =~= rows);
        assert(out@ =~= chunk_fields(m));
    }
    out
}

/// A chunk part as the file table stores it: its own size, which is 28,
/// the GUID, the offset and the size. An offset or size beyond 32 bits is
/// written as zero.
pub open spec fn part_wire(part: PartModel) -> Seq<u8> {
    u32_bytes(28) + guid_wire(part.guid) + u32_bytes(narrowed32(part.offset, 0)) + u32_bytes(
        narrowed32(part.size, 0),
    )
}

/// The chunk parts of one file: their count and each part.
pub open spec fn parts_wire(file: FileModel) -> Seq<u8> {
    u32_bytes(low32(file.parts.len() as int)) + concat_map(
        file.parts,
        |p: PartModel| part_wire(p),
    )
}

/// The fields of the file section of a manifest: the number of files, then
/// column by column the file names, an empty link target for each file, the
/// SHA-1 digests, a zero flag byte for each file, an empty list of install
/// tags for each file, and the chunk parts.
#[verifier::opaque]
pub open spec fn file_fields(m: ManifestModel) -> Seq<u8> {
    let rows = m.files;
    u32_bytes(low32(rows.len() as int)) + concat_map(
        rows,
        |f: FileModel| fstring_bytes(f.filename),
    ) + concat_map(rows, |f: FileModel| u32_bytes(0)) + concat_map(
        rows,
        |f: FileModel| digest_wire(Some(f.file_hash)),
    ) + concat_map(rows, |f: FileModel| seq![0u8]) + concat_map(
        rows,
        |f: FileModel| u32_bytes(0),
    ) + concat_map(rows, |f: FileModel| parts_wire(f))
}

/// Appends the chunk parts of one file.
pub fn put_parts(out: &mut Vec<u8>, file: &FileManifestList)
    ensures
        final(out)@ == old(out)@ + parts_wire(file@),
{
    let parts: &Vec<FileChunkPart> = &file.file_chunk_parts;
    let ghost rows = file@.parts;
    put_u32(out, (parts.len() as u128 % 0x1_0000_0000) as u32);
    let ghost start = out@;
    assert(rows.take(0) =~= Seq::<PartModel>::empty());
    let mut i: usize = 0;
    while i < parts.len()
        invariant
            i <= parts@.len(),
            rows == part_models(parts@),
            out@ == start + concat_map(rows.take(i as int), |p: PartModel| part_wire(p)),
        decreases parts@.len() - i,
    {
        proof {
            lemma_concat_map_next(rows, |p: PartModel| part_wire(p), i as int);
        }
        let part: &FileChunkPart = &parts[i];
        let ghost before = out@;
        put_u32(out, 28);
        let wire: Vec<u8> = guid_to_wire(part.guid.as_str());
        put_bytes(out, wire.as_slice());
        put_u32(out, narrow32(part.offset, 0));
        put_u32(out, narrow32(part.size, 0));
        assert(out@ =~= before + part_wire(part@));
        i = i + 1;
    }
    assert(rows.take(i as int) =~= rows);
    assert(out@ =~= old(out)@ + parts_wire(file@));
}

/// Writes the fields of the file section.
pub fn write_file_fields(manifest: &DownloadManifest) -> (fields: Vec<u8>)
    ensures
        fields@ == file_fields(manifest@),
{
    reveal(file_fields);
    let ghost m = manifest@;
    let ghost rows = m.files;
    let files: &Vec<FileManifestList> = &manifest.file_manifest_list;
    let count: usize = files.len();
    let mut out: Vec<u8> = Vec::new();
    put_u32(&mut out, (count as u128 % 0x1_0000_0000) as u32);
    let ghost mut start = out@;
    let mut i: usize = 0;
    while i < count
        invariant
            i <= count,
            count == files@.len(),
            rows == file_models(files@),
            out@ == start + concat_map(rows.take(i as int), |f: FileModel| fstring_bytes(f.filename)),
        decreases count - i,
    {
        proof {
            lemma_concat_map_next(rows, |f: FileModel| fstring_bytes(f.filename), i as int);
        }
        put_text(&mut out, files[i].filename.as_str());
        i = i + 1;
    }
    proof {
        assert(rows.take(i as int) =~= rows);
        start = out@;
    }
    i = 0;
    while i < count
        invariant
            i <= count,
            count == files@.len(),
            rows == file_models(files@),
            out@ == start + concat_map(rows.take(i as int), |f: FileModel| u32_bytes(0)),
        decreases count - i,
    {
        proof {
            lemma_concat_map_next(rows, |f: FileModel| u32_bytes(0), i as int);
        }
        put_u32(&mut out, 0);
        i = i + 1;
    }
    proof {
        assert(rows.take(i as int) =~= rows);
        start = out@;
    }
    i = 0;
    while i < count
        invariant
            i <= count,
            count == files@.len(),
            rows == file_models(files@),
            out@ == start + concat_map(
                rows.take(i as int),
                |f: FileModel| digest_wire(Some(f.file_hash)),
            ),
        decreases count - i,
    {
        proof {
            lemma_concat_map_next(rows, |f: FileModel| digest_wire(Some(f.file_hash)), i as int);
        }
        let wire: Vec<u8> = digest_to_wire(Some(&files[i].file_hash));
        put_bytes(&mut out, wire.as_slice());
        i = i + 1;
    }
    proof {
        assert(rows.take(i as int) =~= rows);
        start = out@;
    }
    i = 0;
    while i < count
        invariant
            i <= count,
            count == files@.len(),
            rows == file_models(files@),
            out@ == start + concat_map(rows.take(i as int), |f: FileModel| seq![0u8]),
        decreases count - i,
    {
        proof {
            lemma_concat_map_next(rows, |f: FileModel| seq![0u8], i as int);
        }
        let ghost before = out@;
        out.push(0);
        assert(out@ =~= before + seq![0u8]);
        i = i + 1;
    }
    proof {
        assert(rows.take(i as int) =~= rows);
        start = out@;
    }
    i = 0;
    while i < count
        invariant
            i <= count,
            count == files@.len(),
            rows == file_models(files@),
            out@ == start + concat_map(rows.take(i as int), |f: FileModel| u32_bytes(0)),
        decreases count - i,
    {
        proof {
            lemma_concat_map_next(rows, |f: FileModel| u32_bytes(0), i as int);
        }
        put_u32(&mut out, 0);
        i = i + 1;
    }
    proof {
        assert(rows.take(i as int) =~= rows);
        start = out@;
    }
    i = 0;
    while i < count
        invariant
            i <= count,
            count == files@.len(),
            rows == file_models(files@),
            out@ == start + concat_map(rows.take(i as int), |f: FileModel| parts_wire(f)),
        decreases count - i,
    {
        proof {
            lemma_concat_map_next(rows, |f: FileModel| parts_wire(f), i as int);
        }
        put_parts(&mut out, &files[i]);
        i = i + 1;
    }
    proof {
        assert(rows.take(i as int) =~= rows);
        assert(out@ =~= file_fields(m));
    }
    out
}

/// The fields of the custom field section of a manifest: the number of
/// fields, all keys and then all values. A manifest without custom fields is
/// written as one with none.
#[verifier::opaque]
pub open spec fn custom_bytes(m: ManifestModel) -> Seq<u8> {
    match m.custom_fields {
        Some(rows) => u32_bytes(low32(rows.len() as int)) + concat_map(
            rows,
            |x: (Seq<char>, Seq<char>)| fstring_bytes(x.0),
        ) + concat_map(rows, |x: (Seq<char>, Seq<char>)| fstring_bytes(x.1)),
        None => u32_bytes(0),
    }
}

/// Writes the fields of the custom field section.
pub fn write_custom_fields(manifest: &DownloadManifest) -> (fields: Vec<u8>)
    ensures
        fields@ == custom_bytes(manifest@),
{
    reveal(custom_bytes);
    let ghost m = manifest@;
    let mut out: Vec<u8> = Vec::new();
    match &manifest.custom_fields {
        Some(table) => {
            let ghost rows = text_entries(table.entries());
            let count: usize = table.len();
            put_u32(&mut out, (count as u128 % 0x1_0000_0000) as u32);
            let ghost mut start = out@;
            let mut i: usize = 0;
            while i < count
                invariant
                    i <= count,
                    count == rows.len(),
                    count == table.keys().len(),
                    count == table.values().len(),
                    rows == text_entries(table.entries()),
                    out@ == start + concat_map(
                        rows.take(i as int),
                        |x: (Seq<char>, Seq<char>)| fstring_bytes(x.0),
                    ),
                decreases count - i,
            {
                proof {
                    lemma_concat_map_next(
                        rows,
                        |x: (Seq<char>, Seq<char>)| fstring_bytes(x.0),
                        i as int,
                    );
                }
                put_text(&mut out, table.key(i).as_str());
                i = i + 1;
            }
            proof {
                assert(rows.take(i as int) =~= rows);
                start = out@;
            }
            i = 0;
            while i < count
                invariant
                    i <= count,
                    count == rows.len(),
                    count == table.keys().len(),
                    count == table.values().len(),
                    rows == text_entries(table.entries()),
                    out@ == start + concat_map(
                        rows.take(i as int),
                        |x: (Seq<char>, Seq<char>)| fstring_bytes(x.1),
                    ),
                decreases count - i,
            {
                proof {
                    lemma_concat_map_next(
                        rows,
                        |x: (Seq<char>, Seq<char>)| fstring_bytes(x.1),
                        i as int,
                    );
                }
                put_text(&mut out, table.value(i).as_str());
                i = i + 1;
            }
            proof {
                assert(rows.take(i as int) =~= rows);
                assert(out@ =~= custom_bytes(m));
            }
        },
        None => {
            put_u32(&mut out, 0);
        },
    }
    out
}

/// The payload of a manifest: its four sections. The metadata section has
/// the version that the manifest calls for, the others version 0.
pub open spec fn payload_bytes(m: ManifestModel) -> Seq<u8> {
    section_bytes(meta_version(m), meta_fields(m)) + section_bytes(0, chunk_fields(m))
        + section_bytes(0, file_fields(m)) + section_bytes(0, custom_bytes(m))
}

/// Writes the payload of a manifest.
pub fn write_payload(manifest: &DownloadManifest) -> (payload: Vec<u8>)
    ensures
        payload@ == payload_bytes(manifest@),
{
    let mut out: Vec<u8> = Vec::new();
    let version: u8 = if manifest.uninstall_action_path.is_some()
        || manifest.uninstall_action_args.is_some() {
        2
    } else if !manifest.build_version_string.as_str().is_empty() {
        1
    } else {
        0
    };
    let meta: Vec<u8> = write_meta_fields(manifest);
    put_section(&mut out, version, &meta);
    let chunks: Vec<u8> = write_chunk_fields(manifest);
    put_section(&mut out, 0, &chunks);
    let files: Vec<u8> = write_file_fields(manifest);
    put_section(&mut out, 0, &files);
    let custom: Vec<u8> = write_custom_fields(manifest);
    put_section(&mut out, 0, &custom);
    assert(out@ =~= payload_bytes(manifest@));
    out
}

/// The header of the envelope of a payload that is stored in `stored`
/// bytes: magic number, header size, size of the payload, size as stored,
/// SHA-1 of the payload, the stored-as flag and the version 18.
pub open spec fn header_bytes(payload: Seq<u8>, stored: int, flag: u8) -> Seq<u8> {
    u32_bytes(MANIFEST_MAGIC) + u32_bytes(41) + u32_bytes(low32(payload.len() as int)) + u32_bytes(
        low32(stored),
    ) + sha1_digest(payload) + seq![flag] + u32_bytes(18)
}

/// The zlib stream that a payload is stored as: the one that the encoder
/// produces, where it produces one that the decoder reads the payload back
/// from.
pub open spec fn packed_payload(payload: Seq<u8>) -> Option<Seq<u8>> {
    match zlib_deflated(payload) {
        Some(stream) => if zlib_inflated(stream) == Some(payload) {
            Some(stream)
        } else {
            None
        },
        None => None,
    }
}

/// A payload in its envelope: the header and the payload as a zlib
/// stream, or as it is where there is no such stream.
pub open spec fn envelope_bytes(payload: Seq<u8>) -> Seq<u8> {
    match packed_payload(payload) {
        Some(stream) => header_bytes(payload, stream.len() as int, 1) + stream,
        None => header_bytes(payload, payload.len() as int, 0) + payload,
    }
}

/// Compresses a payload and makes sure that it can be had back.
pub fn pack_payload(payload: &Vec<u8>) -> (stream: Option<Vec<u8>>)
    ensures
        match stream {
            Some(packed) => packed_payload(payload@) == Some(packed@),
            None => packed_payload(payload@) is None,
        },
{
    match deflate(payload.as_slice()) {
        Some(packed) => match inflate(packed.as_slice()) {
            Some(back) => {
                if do_vecs_match(back.as_slice(), payload.as_slice()) {
                    assert(back@ =~= payload@);
                    Some(packed)
                } else {
                    None
                }
            },
            None => None,
        },
        None => None,
    }
}

/// Puts a payload in its envelope.
pub fn seal_envelope(payload: &Vec<u8>) -> (bytes: Vec<u8>)
    ensures
        bytes@ == envelope_bytes(payload@),
        bytes@.len() >= 41,
        bytes@.subrange(16, 36) == sha1_digest(payload@),
        envelope_payload(bytes@) == Ok::<Seq<u8>, ManifestError>(payload@),
{
    let digest: Vec<u8> = sha1_of(payload.as_slice());
    let stream: Option<Vec<u8>> = pack_payload(payload);
    proof {
        lemma_envelope_digest(payload@);
        lemma_envelope_round_trip(payload@);
    }
    let mut out: Vec<u8> = Vec::new();
    put_u32(&mut out, MANIFEST_MAGIC);
    put_u32(&mut out, 41);
    put_u32(&mut out, (payload.len() as u128 % 0x1_0000_0000) as u32);
    match stream {
        Some(packed) => {
            put_u32(&mut out, (packed.len() as u128 % 0x1_0000_0000) as u32);
            put_bytes(&mut out, digest.as_slice());
            out.push(1);
            put_u32(&mut out, 18);
            assert(out@ =~= header_bytes(payload@, packed@.len() as int, 1));
            put_bytes(&mut out, packed.as_slice());
        },
        None => {
            put_u32(&mut out, (payload.len() as u128 % 0x1_0000_0000) as u32);
            put_bytes(&mut out, digest.as_slice());
            out.push(0);
            put_u32(&mut out, 18);
            assert(out@ =~= header_bytes(payload@, payload@.len() as int, 0));
            put_bytes(&mut out, payload.as_slice());
        },
    }
    out
}

/// The binary form of a manifest.
pub open spec fn manifest_bytes(m: ManifestModel) -> Seq<u8> {
    envelope_bytes(payload_bytes(m))
}

impl DownloadManifest {
    /// Writes the manifest in its binary form. The header holds the
    /// SHA-1 of the payload; and a manifest that is within what the format
    /// can hold is read back from the bytes as it is.
    pub fn to_vec(&self) -> (bytes: Vec<u8>)
        ensures
            bytes@ == manifest_bytes(self@),
            bytes@.len() >= 41,
            bytes@.subrange(16, 36) == sha1_digest(payload_bytes(self@)),
            envelope_payload(bytes@) == Ok::<Seq<u8>, ManifestError>(payload_bytes(self@)),
            writable(self@) ==> binary_manifest(bytes@) == Ok::<ManifestModel, ManifestError>(
                self@,
            ),
    {
        let payload: Vec<u8> = write_payload(self);
        proof {
            if writable(self@) {
                lemma_payload_round_trip(self@);
            }
        }
        seal_envelope(&payload)
    }
}

/// The header of an envelope holds, at offset 16, the SHA-1 of the
/// payload that the envelope carries.
pub proof fn lemma_envelope_digest(payload: Seq<u8>)
    requires
        sha1_digest(payload).len() == 20,
    ensures
        envelope_bytes(payload).len() >= 41,
        envelope_bytes(payload).subrange(16, 36) == sha1_digest(payload),
{
    let digest = sha1_digest(payload);
    let bytes = envelope_bytes(payload);
    assert forall|i: int| 0 <= i < 20 implies #[trigger] bytes[16 + i] == digest[i] by {
        match packed_payload(payload) {
            Some(stream) => {
                assert(bytes == header_bytes(payload, stream.len() as int, 1) + stream);
            },
            None => {
                assert(bytes == header_bytes(payload, payload.len() as int, 0) + payload);
            },
        }
    }
    assert(bytes.subrange(16, 36) =~= digest);
}

} // verus!
