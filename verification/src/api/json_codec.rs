//! The JSON form of a manifest: an object with the field names of the
//! store, in which numbers and digests are blobs.

use crate::api::binary::views_of;
use crate::api::foreign::{
    json_document, json_tree, parse_url, read_json, sha1_digest, sha1_of, url_normal_form,
};
use crate::api::payload::ManifestError;
use crate::api::text::{hex_text, to_hex};
use crate::api::json::{find_member, member, Json};
use crate::api::table::{
    assoc_put, keys_of, lemma_text_put, text_entries, Table,
};
use crate::api::types::download_manifest::{
    binary_chunks, binary_manifest, binary_sizes, file_models, option_entries, part_models,
    with_custom, DownloadManifest,
    FileChunkPart, FileManifestList, FileModel, ManifestModel, PartModel,
};
use crate::api::utils::{blob_digest_text, blob_to_digest, blob_to_num, blob_value};
use vstd::prelude::*;
use vstd::string::StringSliceAdditionalSpecFns;
use vstd::utf8::encode_utf8;

verus! {

/// The number that a blob spells, in 128 bits; `None` where the length of
/// the text is no multiple of three.
pub open spec fn blob_number(text: Seq<char>) -> Option<u128> {
    let bytes = encode_utf8(text);
    if bytes.len() % 3 == 0 {
        Some(blob_value(bytes, bytes.len() / 3, 16) as u128)
    } else {
        None
    }
}

/// The digest that a blob spells, as hexadecimal text; `None` where the
/// length of the text is no multiple of three.
pub open spec fn blob_digest(text: Seq<char>) -> Option<Seq<char>> {
    let bytes = encode_utf8(text);
    if bytes.len() % 3 == 0 {
        Some(blob_digest_text(bytes))
    } else {
        None
    }
}

/// Decodes a blob as a number.
pub fn parse_blob(text: &str) -> (number: Option<u128>)
    ensures
        number == blob_number(text@),
{
    let bytes: &[u8] = text.as_bytes();
    if bytes.len() % 3 == 0 {
        proof {
            vstd::arithmetic::power2::lemma2_to64();
            crate::api::utils::lemma_blob_fits(text.spec_bytes(), text.spec_bytes().len() / 3);
        }
        Some(blob_to_num(text))
    } else {
        None
    }
}

/// Decodes a blob as a digest.
pub fn parse_digest(text: &str) -> (digest: Option<String>)
    ensures
        match digest {
            Some(s) => blob_digest(text@) == Some(s@),
            None => blob_digest(text@) is None,
        },
{
    let bytes: &[u8] = text.as_bytes();
    if bytes.len() % 3 == 0 {
        Some(blob_to_digest(text))
    } else {
        None
    }
}

/// The text of the member with the given name, where it is a string.
pub open spec fn text_member(members: Seq<(String, Json)>, name: Seq<char>) -> Option<Seq<char>> {
    match member(members, name) {
        Some(Json::Text(s)) => Some(s@),
        _ => None,
    }
}

/// The text of the member with the given name where it is a string,
/// nothing where there is no such member or it is null; `None` where it is
/// anything else.
pub open spec fn optional_text_member(members: Seq<(String, Json)>, name: Seq<char>) -> Option<
    Option<Seq<char>>,
> {
    match member(members, name) {
        Some(Json::Text(s)) => Some(Some(s@)),
        Some(Json::Null) => Some(None),
        Some(_) => None,
        None => Some(None),
    }
}

/// The member with the given name, where it is a boolean.
pub open spec fn flag_member(members: Seq<(String, Json)>, name: Seq<char>) -> Option<bool> {
    match member(members, name) {
        Some(Json::Bool(flag)) => Some(flag),
        _ => None,
    }
}

/// The number that the member with the given name spells, where it is a
/// string that is a blob.
pub open spec fn blob_member(members: Seq<(String, Json)>, name: Seq<char>) -> Option<u128> {
    match text_member(members, name) {
        Some(text) => blob_number(text),
        None => None,
    }
}

/// Reads a member that has to be a string.
pub fn get_text(members: &Vec<(String, Json)>, name: &str) -> (text: Option<String>)
    ensures
        match text {
            Some(s) => text_member(members@, name@) == Some(s@),
            None => text_member(members@, name@) is None,
        },
{
    match find_member(members, name) {
        Some(Json::Text(s)) => Some(s.clone()),
        _ => None,
    }
}

/// Reads a member that is a string, null or missing.
pub fn get_optional_text(members: &Vec<(String, Json)>, name: &str) -> (text: Option<
    Option<String>,
>)
    ensures
        match text {
            Some(Some(s)) => optional_text_member(members@, name@) == Some(Some(s@)),
            Some(None) => optional_text_member(members@, name@) == Some(None::<Seq<char>>),
            None => optional_text_member(members@, name@) is None,
        },
{
    match find_member(members, name) {
        Some(Json::Text(s)) => Some(Some(s.clone())),
        Some(Json::Null) => Some(None),
        Some(_) => None,
        None => Some(None),
    }
}

/// Reads a member that has to be a boolean.
pub fn get_flag(members: &Vec<(String, Json)>, name: &str) -> (flag: Option<bool>)
    ensures
        flag == flag_member(members@, name@),
{
    match find_member(members, name) {
        Some(Json::Bool(flag)) => Some(*flag),
        _ => None,
    }
}

/// Reads a member that has to be a blob.
pub fn get_blob(members: &Vec<(String, Json)>, name: &str) -> (number: Option<u128>)
    ensures
        number == blob_member(members@, name@),
{
    match find_member(members, name) {
        Some(Json::Text(s)) => parse_blob(s.as_str()),
        _ => None,
    }
}

/// The first `count` members of an object as a map of numbers: every
/// member has to be a blob, and no name may occur twice.
pub open spec fn blob_entries(members: Seq<(String, Json)>, count: nat) -> Option<
    Seq<(Seq<char>, u128)>,
>
    decreases count,
{
    if count == 0 {
        Some(Seq::empty())
    } else {
        match blob_entries(members, (count - 1) as nat) {
            Some(earlier) => match members[count - 1].1 {
                Json::Text(s) => match blob_number(s@) {
                    Some(number) => if keys_of(earlier).contains(members[count - 1].0@) {
                        None
                    } else {
                        Some(earlier.push((members[count - 1].0@, number)))
                    },
                    None => None,
                },
                _ => None,
            },
            None => None,
        }
    }
}

/// The member with the given name as a map of numbers.
pub open spec fn blob_map_member(members: Seq<(String, Json)>, name: Seq<char>) -> Option<
    Seq<(Seq<char>, u128)>,
> {
    match member(members, name) {
        Some(Json::Object(items)) => blob_entries(items@, items@.len()),
        _ => None,
    }
}

/// Once a member cannot be taken into a map of numbers, no longer run of
/// members can.
pub proof fn lemma_blob_entries_fail(members: Seq<(String, Json)>, done: nat, count: nat)
    requires
        done < count,
        blob_entries(members, (done + 1) as nat) is None,
    ensures
        blob_entries(members, count) is None,
    decreases count - done,
{
    if done + 1 < count {
        lemma_blob_entries_fail(members, done + 1, count);
    }
}

/// Reads a member that has to be a map of blobs.
pub fn get_blob_map(members: &Vec<(String, Json)>, name: &str) -> (map: Option<Table<u128>>)
    ensures
        match map {
            Some(table) => blob_map_member(members@, name@) == Some(table.entries()),
            None => blob_map_member(members@, name@) is None,
        },
{
    let items: &Vec<(String, Json)> = match find_member(members, name) {
        Some(Json::Object(items)) => items,
        _ => {
            return None;
        },
    };
    let mut table: Table<u128> = Table::new();
    let mut i: usize = 0;
    assert(table.entries() =~= Seq::<(Seq<char>, u128)>::empty());
    while i < items.len()
        invariant
            i <= items@.len(),
            member(members@, name@) == Some(Json::Object(*items)),
            blob_entries(items@, i as nat) == Some(table.entries()),
        decreases items@.len() - i,
    {
        let number: Option<u128> = match &items[i].1 {
            Json::Text(s) => parse_blob(s.as_str()),
            _ => None,
        };
        assert(keys_of(table.entries()) =~= table.keys());
        match number {
            Some(number) => {
                if table.contains_key(items[i].0.as_str()) {
                    proof {
                        lemma_blob_entries_fail(items@, i as nat, items@.len());
                    }
                    return None;
                }
                table.insert(items[i].0.clone(), number);
            },
            None => {
                proof {
                    lemma_blob_entries_fail(items@, i as nat, items@.len());
                }
                return None;
            },
        }
        i = i + 1;
    }
    Some(table)
}

/// What a string of a map of texts stands for: a digest where `digest`
/// holds, else itself.
pub open spec fn map_text(text: Seq<char>, digest: bool) -> Option<Seq<char>> {
    if digest {
        blob_digest(text)
    } else {
        Some(text)
    }
}

/// The first `count` members of an object as a map of texts: every member
/// has to be a string; of two members with one name the later one stays.
pub open spec fn text_map_entries(members: Seq<(String, Json)>, count: nat, digest: bool) -> Option<
    Seq<(Seq<char>, Seq<char>)>,
>
    decreases count,
{
    if count == 0 {
        Some(Seq::empty())
    } else {
        match text_map_entries(members, (count - 1) as nat, digest) {
            Some(earlier) => match members[count - 1].1 {
                Json::Text(s) => match map_text(s@, digest) {
                    Some(text) => Some(assoc_put(earlier, members[count - 1].0@, text)),
                    None => None,
                },
                _ => None,
            },
            None => None,
        }
    }
}

/// The member with the given name as a map of texts: nothing where there
/// is no such member or it is null; `None` where it is no object of
/// strings.
pub open spec fn text_map_member(members: Seq<(String, Json)>, name: Seq<char>, digest: bool)
    -> Option<Option<Seq<(Seq<char>, Seq<char>)>>> {
    match member(members, name) {
        Some(Json::Object(items)) => match text_map_entries(items@, items@.len(), digest) {
            Some(entries) => Some(Some(entries)),
            None => None,
        },
        Some(Json::Null) => Some(None),
        Some(_) => None,
        None => Some(None),
    }
}

/// Once a member cannot be taken into a map of texts, no longer run of
/// members can.
pub proof fn lemma_text_map_fail(members: Seq<(String, Json)>, done: nat, count: nat, digest: bool)
    requires
        done < count,
        text_map_entries(members, (done + 1) as nat, digest) is None,
    ensures
        text_map_entries(members, count, digest) is None,
    decreases count - done,
{
    if done + 1 < count {
        lemma_text_map_fail(members, done + 1, count, digest);
    }
}

/// Reads a member that is a map of strings, null or missing.
pub fn get_text_map(members: &Vec<(String, Json)>, name: &str, digest: bool) -> (map: Option<
    Option<Table<String>>,
>)
    ensures
        match map {
            Some(table) => text_map_member(members@, name@, digest) == Some(option_entries(table)),
            None => text_map_member(members@, name@, digest) is None,
        },
{
    let items: &Vec<(String, Json)> = match find_member(members, name) {
        Some(Json::Object(items)) => items,
        Some(Json::Null) => {
            return Some(None);
        },
        Some(_) => {
            return None;
        },
        None => {
            return Some(None);
        },
    };
    let mut table: Table<String> = Table::new();
    let mut i: usize = 0;
    assert(text_entries(table.entries()) =~= Seq::<(Seq<char>, Seq<char>)>::empty());
    while i < items.len()
        invariant
            i <= items@.len(),
            member(members@, name@) == Some(Json::Object(*items)),
            text_map_entries(items@, i as nat, digest) == Some(text_entries(table.entries())),
        decreases items@.len() - i,
    {
        let text: Option<String> = match &items[i].1 {
            Json::Text(s) => if digest {
                parse_digest(s.as_str())
            } else {
                Some(s.clone())
            },
            _ => None,
        };
        match text {
            Some(text) => {
                proof {
                    lemma_text_put(table.entries(), items@[i as int].0@, text);
                }
                table.insert(items[i].0.clone(), text);
            },
            None => {
                proof {
                    lemma_text_map_fail(items@, i as nat, items@.len(), digest);
                }
                return None;
            },
        }
        i = i + 1;
    }
    Some(Some(table))
}

/// The address of a chunk part in JSON: nothing where the member `Link` is
/// missing or null, the URL that it parses to where it is a string; `None`
/// where it is anything else or does not parse.
pub open spec fn link_member(members: Seq<(String, Json)>) -> Option<Option<Seq<char>>> {
    match optional_text_member(members, "Link"@) {
        Some(Some(text)) => match url_normal_form(text) {
            Some(url) => Some(Some(url)),
            None => None,
        },
        Some(None) => Some(None),
        None => None,
    }
}

/// The chunk part that a JSON value stands for: an object with a GUID, an
/// offset and a size, the latter two as blobs, and maybe an address.
pub open spec fn json_part(value: Json) -> Option<PartModel> {
    match value {
        Json::Object(members) => if text_member(members@, "Guid"@) is Some && link_member(
            members@,
        ) is Some && blob_member(members@, "Offset"@) is Some && blob_member(members@, "Size"@)
            is Some {
            Some(
                PartModel {
                    guid: text_member(members@, "Guid"@).unwrap(),
                    link: link_member(members@).unwrap(),
                    offset: blob_member(members@, "Offset"@).unwrap(),
                    size: blob_member(members@, "Size"@).unwrap(),
                },
            )
        } else {
            None
        },
        _ => None,
    }
}

/// The chunk parts that the first `count` items of an array stand for.
pub open spec fn json_parts(items: Seq<Json>, count: nat) -> Option<Seq<PartModel>>
    decreases count,
{
    if count == 0 {
        Some(Seq::empty())
    } else {
        match json_parts(items, (count - 1) as nat) {
            Some(earlier) => match json_part(items[count - 1]) {
                Some(part) => Some(earlier.push(part)),
                None => None,
            },
            None => None,
        }
    }
}

/// Once an item is no chunk part, no longer run of items stands for chunk
/// parts.
pub proof fn lemma_json_parts_fail(items: Seq<Json>, done: nat, count: nat)
    requires
        done < count,
        json_parts(items, (done + 1) as nat) is None,
    ensures
        json_parts(items, count) is None,
    decreases count - done,
{
    if done + 1 < count {
        lemma_json_parts_fail(items, done + 1, count);
    }
}

/// Reads a chunk part.
pub fn read_json_part(value: &Json) -> (part: Option<FileChunkPart>)
    ensures
        match part {
            Some(p) => json_part(*value) == Some(p@),
            None => json_part(*value) is None,
        },
{
    let members: &Vec<(String, Json)> = match value {
        Json::Object(members) => members,
        _ => {
            return None;
        },
    };
    let guid: String = match get_text(members, "Guid") {
        Some(guid) => guid,
        None => {
            return None;
        },
    };
    let link: Option<String> = match get_optional_text(members, "Link") {
        Some(Some(text)) => match parse_url(text.as_str()) {
            Some(url) => Some(url),
            None => {
                return None;
            },
        },
        Some(None) => None,
        None => {
            return None;
        },
    };
    let offset: u128 = match get_blob(members, "Offset") {
        Some(offset) => offset,
        None => {
            return None;
        },
    };
    let size: u128 = match get_blob(members, "Size") {
        Some(size) => size,
        None => {
            return None;
        },
    };
    Some(FileChunkPart { guid, link, offset, size })
}

/// Reads an array of chunk parts.
pub fn read_json_parts(items: &Vec<Json>) -> (parts: Option<Vec<FileChunkPart>>)
    ensures
        match parts {
            Some(list) => json_parts(items@, items@.len()) == Some(part_models(list@)),
            None => json_parts(items@, items@.len()) is None,
        },
{
    let mut parts: Vec<FileChunkPart> = Vec::new();
    let mut i: usize = 0;
    assert(part_models(parts@) =~= Seq::<PartModel>::empty());
    while i < items.len()
        invariant
            i <= items@.len(),
            json_parts(items@, i as nat) == Some(part_models(parts@)),
        decreases items@.len() - i,
    {
        let ghost before = part_models(parts@);
        match read_json_part(&items[i]) {
            Some(part) => {
                parts.push(part);
                assert(part_models(parts@) =~= before.push(part@));
            },
            None => {
                proof {
                    lemma_json_parts_fail(items@, i as nat, items@.len());
                }
                return None;
            },
        }
        i = i + 1;
    }
    Some(parts)
}

/// The digest of a file in JSON: the member `FileHash`, a blob.
pub open spec fn hash_member(members: Seq<(String, Json)>) -> Option<Seq<char>> {
    match text_member(members, "FileHash"@) {
        Some(text) => blob_digest(text),
        None => None,
    }
}

/// The chunk parts of a file in JSON: the member `FileChunkParts`, an
/// array.
pub open spec fn parts_member(members: Seq<(String, Json)>) -> Option<Seq<PartModel>> {
    match member(members, "FileChunkParts"@) {
        Some(Json::Array(items)) => json_parts(items@, items@.len()),
        _ => None,
    }
}

/// The file that a JSON value stands for: an object with a name, a digest
/// and chunk parts.
pub open spec fn json_file(value: Json) -> Option<FileModel> {
    match value {
        Json::Object(members) => if text_member(members@, "Filename"@) is Some && hash_member(
            members@,
        ) is Some && parts_member(members@) is Some {
            Some(
                FileModel {
                    filename: text_member(members@, "Filename"@).unwrap(),
                    file_hash: hash_member(members@).unwrap(),
                    parts: parts_member(members@).unwrap(),
                },
            )
        } else {
            None
        },
        _ => None,
    }
}

/// The files that the first `count` items of an array stand for.
pub open spec fn json_files(items: Seq<Json>, count: nat) -> Option<Seq<FileModel>>
    decreases count,
{
    if count == 0 {
        Some(Seq::empty())
    } else {
        match json_files(items, (count - 1) as nat) {
            Some(earlier) => match json_file(items[count - 1]) {
                Some(file) => Some(earlier.push(file)),
                None => None,
            },
            None => None,
        }
    }
}

/// Once an item is no file, no longer run of items stands for files.
pub proof fn lemma_json_files_fail(items: Seq<Json>, done: nat, count: nat)
    requires
        done < count,
        json_files(items, (done + 1) as nat) is None,
    ensures
        json_files(items, count) is None,
    decreases count - done,
{
    if done + 1 < count {
        lemma_json_files_fail(items, done + 1, count);
    }
}

/// Reads a file.
pub fn read_json_file(value: &Json) -> (file: Option<FileManifestList>)
    ensures
        match file {
            Some(f) => json_file(*value) == Some(f@),
            None => json_file(*value) is None,
        },
{
    let members: &Vec<(String, Json)> = match value {
        Json::Object(members) => members,
        _ => {
            return None;
        },
    };
    let filename: String = match get_text(members, "Filename") {
        Some(name) => name,
        None => {
            return None;
        },
    };
    let file_hash: String = match get_text(members, "FileHash") {
        Some(blob) => match parse_digest(blob.as_str()) {
            Some(hash) => hash,
            None => {
                return None;
            },
        },
        None => {
            return None;
        },
    };
    let file_chunk_parts: Vec<FileChunkPart> = match find_member(members, "FileChunkParts") {
        Some(Json::Array(items)) => match read_json_parts(items) {
            Some(parts) => parts,
            None => {
                return None;
            },
        },
        _ => {
            return None;
        },
    };
    Some(FileManifestList { filename, file_hash, file_chunk_parts })
}

/// The files of a manifest in JSON: the member `FileManifestList`, an
/// array.
pub open spec fn files_member(members: Seq<(String, Json)>) -> Option<Seq<FileModel>> {
    match member(members, "FileManifestList"@) {
        Some(Json::Array(items)) => json_files(items@, items@.len()),
        _ => None,
    }
}

/// Reads the files of a manifest.
pub fn get_files(members: &Vec<(String, Json)>) -> (files: Option<Vec<FileManifestList>>)
    ensures
        match files {
            Some(list) => files_member(members@) == Some(file_models(list@)),
            None => files_member(members@) is None,
        },
{
    let items: &Vec<Json> = match find_member(members, "FileManifestList") {
        Some(Json::Array(items)) => items,
        _ => {
            return None;
        },
    };
    let mut files: Vec<FileManifestList> = Vec::new();
    let mut i: usize = 0;
    assert(file_models(files@) =~= Seq::<FileModel>::empty());
    while i < items.len()
        invariant
            i <= items@.len(),
            member(members@, "FileManifestList"@) == Some(Json::Array(*items)),
            json_files(items@, i as nat) == Some(file_models(files@)),
        decreases items@.len() - i,
    {
        let ghost before = file_models(files@);
        match read_json_file(&items[i]) {
            Some(file) => {
                files.push(file);
                assert(file_models(files@) =~= before.push(file@));
            },
            None => {
                proof {
                    lemma_json_files_fail(items@, i as nat, items@.len());
                }
                return None;
            },
        }
        i = i + 1;
    }
    Some(files)
}

/// The texts among the first `count` items of an array; items that are no
/// strings are left out.
pub open spec fn json_texts(items: Seq<Json>, count: nat) -> Seq<Seq<char>>
    decreases count,
{
    if count == 0 {
        Seq::empty()
    } else {
        match items[count - 1] {
            Json::Text(s) => json_texts(items, (count - 1) as nat).push(s@),
            _ => json_texts(items, (count - 1) as nat),
        }
    }
}

/// The prerequisite ids of a manifest in JSON: the strings of the array
/// `PrereqIds`, nothing where there is no such member or it is null; `None`
/// where it is anything else.
pub open spec fn ids_member(members: Seq<(String, Json)>) -> Option<Option<Seq<Seq<char>>>> {
    match member(members, "PrereqIds"@) {
        Some(Json::Array(items)) => Some(Some(json_texts(items@, items@.len()))),
        Some(Json::Null) => Some(None),
        Some(_) => None,
        None => Some(None),
    }
}

/// Reads the prerequisite ids of a manifest.
pub fn get_ids(members: &Vec<(String, Json)>) -> (ids: Option<Option<Vec<String>>>)
    ensures
        match ids {
            Some(Some(list)) => ids_member(members@) == Some(Some(views_of(list@))),
            Some(None) => ids_member(members@) == Some(None::<Seq<Seq<char>>>),
            None => ids_member(members@) is None,
        },
{
    let items: &Vec<Json> = match find_member(members, "PrereqIds") {
        Some(Json::Array(items)) => items,
        Some(Json::Null) => {
            return Some(None);
        },
        Some(_) => {
            return None;
        },
        None => {
            return Some(None);
        },
    };
    let mut ids: Vec<String> = Vec::new();
    let mut i: usize = 0;
    assert(views_of(ids@) =~= Seq::<Seq<char>>::empty());
    while i < items.len()
        invariant
            i <= items@.len(),
            json_texts(items@, i as nat) == views_of(ids@),
        decreases items@.len() - i,
    {
        let ghost before = views_of(ids@);
        match &items[i] {
            Json::Text(s) => {
                ids.push(s.clone());
                assert(views_of(ids@) =~= before.push(s@));
            },
            _ => {},
        }
        i = i + 1;
    }
    Some(Some(ids))
}

/// Whether an object has every member that a manifest needs, each of the
/// right shape.
pub open spec fn json_complete(members: Seq<(String, Json)>) -> bool {
    &&& blob_member(members, "ManifestFileVersion"@) is Some
    &&& flag_member(members, "bIsFileData"@) is Some
    &&& blob_member(members, "AppID"@) is Some
    &&& text_member(members, "AppNameString"@) is Some
    &&& text_member(members, "BuildVersionString"@) is Some
    &&& optional_text_member(members, "UninstallActionPath"@) is Some
    &&& optional_text_member(members, "UninstallActionArgs"@) is Some
    &&& text_member(members, "LaunchExeString"@) is Some
    &&& text_member(members, "LaunchCommand"@) is Some
    &&& ids_member(members) is Some
    &&& text_member(members, "PrereqName"@) is Some
    &&& text_member(members, "PrereqPath"@) is Some
    &&& text_member(members, "PrereqArgs"@) is Some
    &&& files_member(members) is Some
    &&& blob_map_member(members, "ChunkHashList"@) is Some
    &&& text_map_member(members, "ChunkShaList"@, true) is Some
    &&& blob_map_member(members, "DataGroupList"@) is Some
    &&& blob_map_member(members, "ChunkFilesizeList"@) is Some
    &&& text_map_member(members, "CustomFields"@, false) is Some
}

/// The manifest that the members of a complete object make up. Numbers and
/// digests are blobs; a manifest without custom fields has an empty map of
/// them.
pub open spec fn json_model(members: Seq<(String, Json)>) -> ManifestModel {
    ManifestModel {
        manifest_file_version: blob_member(members, "ManifestFileVersion"@).unwrap(),
        b_is_file_data: flag_member(members, "bIsFileData"@).unwrap(),
        app_id: blob_member(members, "AppID"@).unwrap(),
        app_name_string: text_member(members, "AppNameString"@).unwrap(),
        build_version_string: text_member(members, "BuildVersionString"@).unwrap(),
        uninstall_action_path: optional_text_member(members, "UninstallActionPath"@).unwrap(),
        uninstall_action_args: optional_text_member(members, "UninstallActionArgs"@).unwrap(),
        launch_exe_string: text_member(members, "LaunchExeString"@).unwrap(),
        launch_command: text_member(members, "LaunchCommand"@).unwrap(),
        prereq_ids: ids_member(members).unwrap(),
        prereq_name: text_member(members, "PrereqName"@).unwrap(),
        prereq_path: text_member(members, "PrereqPath"@).unwrap(),
        prereq_args: text_member(members, "PrereqArgs"@).unwrap(),
        files: files_member(members).unwrap(),
        chunk_hashes: blob_map_member(members, "ChunkHashList"@).unwrap(),
        chunk_shas: text_map_member(members, "ChunkShaList"@, true).unwrap(),
        data_groups: blob_map_member(members, "DataGroupList"@).unwrap(),
        chunk_sizes: blob_map_member(members, "ChunkFilesizeList"@).unwrap(),
        custom_fields: match text_map_member(members, "CustomFields"@, false).unwrap() {
            Some(fields) => Some(fields),
            None => Some(Seq::empty()),
        },
    }
}

/// The manifest that a JSON document stands for; `None` where the
/// document is no object or lacks what a manifest needs.
pub open spec fn json_manifest_of(document: Json) -> Option<ManifestModel> {
    match document {
        Json::Object(members) => if json_complete(members@) {
            Some(json_model(members@))
        } else {
            None
        },
        _ => None,
    }
}

/// The manifest that a buffer holds in JSON form.
pub open spec fn json_manifest(bytes: Seq<u8>) -> Option<ManifestModel> {
    match json_document(bytes) {
        Some(document) => json_manifest_of(document),
        None => None,
    }
}

/// The number and text members of a manifest in JSON.
pub struct JsonScalars {
    pub manifest_file_version: u128,
    pub b_is_file_data: bool,
    pub app_id: u128,
    pub app_name_string: String,
    pub build_version_string: String,
    pub uninstall_action_path: Option<String>,
    pub uninstall_action_args: Option<String>,
    pub launch_exe_string: String,
    pub launch_command: String,
    pub prereq_name: String,
    pub prereq_path: String,
    pub prereq_args: String,
}

/// Whether an object has the number and text members of a manifest.
pub open spec fn scalars_complete(members: Seq<(String, Json)>) -> bool {
    &&& blob_member(members, "ManifestFileVersion"@) is Some
    &&& flag_member(members, "bIsFileData"@) is Some
    &&& blob_member(members, "AppID"@) is Some
    &&& text_member(members, "AppNameString"@) is Some
    &&& text_member(members, "BuildVersionString"@) is Some
    &&& optional_text_member(members, "UninstallActionPath"@) is Some
    &&& optional_text_member(members, "UninstallActionArgs"@) is Some
    &&& text_member(members, "LaunchExeString"@) is Some
    &&& text_member(members, "LaunchCommand"@) is Some
    &&& text_member(members, "PrereqName"@) is Some
    &&& text_member(members, "PrereqPath"@) is Some
    &&& text_member(members, "PrereqArgs"@) is Some
}

impl JsonScalars {
    /// Whether the members read are those of the object.
    pub open spec fn matches(&self, members: Seq<(String, Json)>) -> bool {
        &&& scalars_complete(members)
        &&& blob_member(members, "ManifestFileVersion"@) == Some(self.manifest_file_version)
        &&& flag_member(members, "bIsFileData"@) == Some(self.b_is_file_data)
        &&& blob_member(members, "AppID"@) == Some(self.app_id)
        &&& text_member(members, "AppNameString"@) == Some(self.app_name_string@)
        &&& text_member(members, "BuildVersionString"@) == Some(self.build_version_string@)
        &&& optional_text_member(members, "UninstallActionPath"@) == Some(
            crate::api::payload::option_view(self.uninstall_action_path),
        )
        &&& optional_text_member(members, "UninstallActionArgs"@) == Some(
            crate::api::payload::option_view(self.uninstall_action_args),
        )
        &&& text_member(members, "LaunchExeString"@) == Some(self.launch_exe_string@)
        &&& text_member(members, "LaunchCommand"@) == Some(self.launch_command@)
        &&& text_member(members, "PrereqName"@) == Some(self.prereq_name@)
        &&& text_member(members, "PrereqPath"@) == Some(self.prereq_path@)
        &&& text_member(members, "PrereqArgs"@) == Some(self.prereq_args@)
    }
}

/// Reads the number and text members of a manifest.
pub fn get_scalars(members: &Vec<(String, Json)>) -> (scalars: Option<JsonScalars>)
    ensures
        match scalars {
            Some(read) => read.matches(members@),
            None => !scalars_complete(members@),
        },
{
    let manifest_file_version: u128 = match get_blob(members, "ManifestFileVersion") {
        Some(v) => v,
        None => {
            return None;
        },
    };
    let b_is_file_data: bool = match get_flag(members, "bIsFileData") {
        Some(v) => v,
        None => {
            return None;
        },
    };
    let app_id: u128 = match get_blob(members, "AppID") {
        Some(v) => v,
        None => {
            return None;
        },
    };
    let app_name_string: String = match get_text(members, "AppNameString") {
        Some(v) => v,
        None => {
            return None;
        },
    };
    let build_version_string: String = match get_text(members, "BuildVersionString") {
        Some(v) => v,
        None => {
            return None;
        },
    };
    let uninstall_action_path: Option<String> = match get_optional_text(
        members,
        "UninstallActionPath",
    ) {
        Some(v) => v,
        None => {
            return None;
        },
    };
    let uninstall_action_args: Option<String> = match get_optional_text(
        members,
        "UninstallActionArgs",
    ) {
        Some(v) => v,
        None => {
            return None;
        },
    };
    let launch_exe_string: String = match get_text(members, "LaunchExeString") {
        Some(v) => v,
        None => {
            return None;
        },
    };
    let launch_command: String = match get_text(members, "LaunchCommand") {
        Some(v) => v,
        None => {
            return None;
        },
    };
    let prereq_name: String = match get_text(members, "PrereqName") {
        Some(v) => v,
        None => {
            return None;
        },
    };
    let prereq_path: String = match get_text(members, "PrereqPath") {
        Some(v) => v,
        None => {
            return None;
        },
    };
    let prereq_args: String = match get_text(members, "PrereqArgs") {
        Some(v) => v,
        None => {
            return None;
        },
    };
    Some(
        JsonScalars {
            manifest_file_version,
            b_is_file_data,
            app_id,
            app_name_string,
            build_version_string,
            uninstall_action_path,
            uninstall_action_args,
            launch_exe_string,
            launch_command,
            prereq_name,
            prereq_path,
            prereq_args,
        },
    )
}

impl DownloadManifest {
    /// Reads a manifest from a JSON document.
    pub fn from_json(document: &Json) -> (value: Option<DownloadManifest>)
        ensures
            match value {
                Some(manifest) => json_manifest_of(*document) == Some(manifest@),
                None => json_manifest_of(*document) is None,
            },
    {
        let members: &Vec<(String, Json)> = match document {
            Json::Object(members) => members,
            _ => {
                return None;
            },
        };
        let scalars: JsonScalars = match get_scalars(members) {
            Some(scalars) => scalars,
            None => {
                return None;
            },
        };
        let prereq_ids: Option<Vec<String>> = match get_ids(members) {
            Some(ids) => ids,
            None => {
                return None;
            },
        };
        let file_manifest_list: Vec<FileManifestList> = match get_files(members) {
            Some(files) => files,
            None => {
                return None;
            },
        };
        let chunk_hash_list: Table<u128> = match get_blob_map(members, "ChunkHashList") {
            Some(map) => map,
            None => {
                return None;
            },
        };
        let chunk_sha_list: Option<Table<String>> = match get_text_map(
            members,
            "ChunkShaList",
            true,
        ) {
            Some(map) => map,
            None => {
                return None;
            },
        };
        let data_group_list: Table<u128> = match get_blob_map(members, "DataGroupList") {
            Some(map) => map,
            None => {
                return None;
            },
        };
        let chunk_filesize_list: Table<u128> = match get_blob_map(members, "ChunkFilesizeList") {
            Some(map) => map,
            None => {
                return None;
            },
        };
        let custom_fields: Table<String> = match get_text_map(members, "CustomFields", false) {
            Some(Some(map)) => map,
            Some(None) => {
                let empty: Table<String> = Table::new();
                assert(text_entries(empty.entries()) =~= Seq::<(Seq<char>, Seq<char>)>::empty());
                empty
            },
            None => {
                return None;
            },
        };
        let JsonScalars {
            manifest_file_version,
            b_is_file_data,
            app_id,
            app_name_string,
            build_version_string,
            uninstall_action_path,
            uninstall_action_args,
            launch_exe_string,
            launch_command,
            prereq_name,
            prereq_path,
            prereq_args,
        } = scalars;
        Some(
            DownloadManifest {
                manifest_file_version,
                b_is_file_data,
                app_id,
                app_name_string,
                build_version_string,
                uninstall_action_path,
                uninstall_action_args,
                launch_exe_string,
                launch_command,
                prereq_ids,
                prereq_name,
                prereq_path,
                prereq_args,
                file_manifest_list,
                chunk_hash_list,
                chunk_sha_list,
                data_group_list,
                chunk_filesize_list,
                custom_fields: Some(custom_fields),
            },
        )
    }

    /// Reads a manifest from a buffer that holds it in JSON form.
    pub fn from_json_slice(data: &[u8]) -> (value: Option<DownloadManifest>)
        ensures
            match value {
                Some(manifest) => json_manifest(data@) == Some(manifest@),
                None => json_manifest(data@) is None,
            },
    {
        match read_json(data) {
            Some(parsed) => {
                let document: Json = json_tree(&parsed);
                DownloadManifest::from_json(&document)
            },
            None => None,
        }
    }

    /// Reads a manifest from a buffer, in binary form or in JSON, stamps
    /// it with the SHA-1 of the buffer, and says why where it cannot. A
    /// buffer that does not start with the magic number of a binary manifest
    /// is taken for JSON; a binary manifest that is damaged or cut short is
    /// not.
    pub fn try_parse(data: &[u8]) -> (value: Result<DownloadManifest, ManifestError>)
        ensures
            match value {
                Ok(manifest) => parse_outcome(data@) == Ok::<ManifestModel, ManifestError>(
                    manifest@,
                ) && (binary_manifest(data@) is Ok ==> binary_chunks(manifest@) && binary_sizes(
                    manifest@,
                )),
                Err(e) => parse_outcome(data@) == Err::<ManifestModel, ManifestError>(e),
            },
    {
        let read: Result<DownloadManifest, ManifestError> = match DownloadManifest::decode(data) {
            Ok(manifest) => Ok(manifest),
            Err(ManifestError::MagicMismatch) => match DownloadManifest::from_json_slice(data) {
                Some(manifest) => Ok(manifest),
                None => Err(ManifestError::MalformedJson),
            },
            Err(e) => Err(e),
        };
        match read {
            Ok(manifest) => {
                let mut manifest = manifest;
                let digest: Vec<u8> = sha1_of(data);
                manifest.set_custom_field(
                    "DownloadedManifestHash".to_owned(),
                    to_hex(digest.as_slice()),
                );
                Ok(manifest)
            },
            Err(e) => Err(e),
        }
    }

    /// Reads a manifest from a buffer, in binary form or in JSON, and
    /// stamps it with the SHA-1 of the buffer.
    pub fn parse(data: Vec<u8>) -> (value: Option<DownloadManifest>)
        ensures
            match value {
                Some(manifest) => parsed_manifest(data@) == Some(manifest@) && (binary_manifest(
                    data@,
                ) is Ok ==> binary_chunks(manifest@) && binary_sizes(manifest@)),
                None => parsed_manifest(data@) is None,
            },
    {
        match DownloadManifest::try_parse(data.as_slice()) {
            Ok(manifest) => Some(manifest),
            Err(_) => None,
        }
    }
}

/// A manifest with the SHA-1 of the buffer that it was read from, in
/// lower-case hexadecimal digits, as its custom field
/// `DownloadedManifestHash`.
pub open spec fn stamped(m: ManifestModel, bytes: Seq<u8>) -> ManifestModel {
    with_custom(m, "DownloadedManifestHash"@, hex_text(sha1_digest(bytes), false))
}

/// What reading a buffer as a manifest comes to: the stamped binary
/// manifest where the buffer holds one; the stamped JSON manifest where the
/// buffer does not start with the magic number of a binary manifest and is
/// the JSON form of a manifest; else the reason why there is none.
pub open spec fn parse_outcome(bytes: Seq<u8>) -> Result<ManifestModel, ManifestError> {
    match binary_manifest(bytes) {
        Ok(manifest) => Ok(stamped(manifest, bytes)),
        Err(ManifestError::MagicMismatch) => match json_manifest(bytes) {
            Some(manifest) => Ok(stamped(manifest, bytes)),
            None => Err(ManifestError::MalformedJson),
        },
        Err(e) => Err(e),
    }
}

/// The manifest that a buffer holds, stamped; `None` where it holds none.
pub open spec fn parsed_manifest(bytes: Seq<u8>) -> Option<ManifestModel> {
    match parse_outcome(bytes) {
        Ok(manifest) => Some(manifest),
        Err(_) => None,
    }
}

/// A buffer that holds a manifest in binary form is parsed as that
/// manifest with its stamp: what is written of a manifest that the format
/// can hold is parsed as the manifest but for the stamp, which is that of
/// the bytes.
pub proof fn lemma_parse_binary(bytes: Seq<u8>, m: ManifestModel)
    requires
        binary_manifest(bytes) == Ok::<ManifestModel, ManifestError>(m),
    ensures
        parsed_manifest(bytes) == Some(stamped(m, bytes)),
{
}

} // verus!
