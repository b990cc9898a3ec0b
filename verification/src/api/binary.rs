//! Readers for the sections of a binary manifest payload. Every reader
//! checks that what it reads lies inside the buffer and reports the lack of
//! bytes instead of reading past the end.

use crate::api::text::{hex_text, to_hex};
use crate::api::utils::{
    fstring_extent, fstring_fits, fstring_text, le_u32, le_u64, read_fstring,
    read_le, read_le_64, read_le_64_signed, read_le_signed, signed64,
};
use vstd::prelude::*;
use vstd::slice::{slice_subrange, slice_to_vec};

verus! {

/// Whether `width` bytes starting at `at` lie inside `bytes`.
pub open spec fn has_room(bytes: Seq<u8>, at: int, width: int) -> bool {
    0 <= at && 0 <= width && at + width <= bytes.len()
}

/// Tests whether `width` bytes starting at `position` lie inside `buffer`.
pub fn check_room(buffer: &[u8], position: usize, width: u64) -> (fits: bool)
    ensures
        fits == has_room(buffer@, position as int, width as int),
{
    let total: u128 = buffer.len() as u128;
    (position as u128) + (width as u128) <= total
}

/// Reads an unsigned 32-bit integer, where there are four bytes.
pub fn take_u32(buffer: &[u8], position: &mut usize) -> (value: Option<u32>)
    ensures
        match value {
            Some(v) => has_room(buffer@, *old(position) as int, 4) && *final(position) == *old(position) + 4 && v as int == le_u32(buffer@, *old(position) as int),
            None => !has_room(buffer@, *old(position) as int, 4) && *final(position) == *old(position),
        },
{
    if check_room(buffer, *position, 4) {
        Some(read_le(buffer, position))
    } else {
        None
    }
}

/// Copies `width` bytes, where there are as many.
pub fn take_bytes(buffer: &[u8], position: &mut usize, width: usize) -> (value: Option<Vec<u8>>)
    ensures
        match value {
            Some(v) => has_room(buffer@, *old(position) as int, width as int) && *final(position)
                == *old(position) + width && v@ == buffer@.subrange(
                *old(position) as int,
                *old(position) + width,
            ),
            None => !has_room(buffer@, *old(position) as int, width as int) && *final(position)
                == *old(position),
        },
{
    if check_room(buffer, *position, width as u64) {
        let start: usize = *position;
        let total: usize = buffer.len();
        *position = start + width;
        Some(slice_to_vec(slice_subrange(buffer, start, start + width)))
    } else {
        None
    }
}

/// The text of the string at `at`, or the empty text where it has none.
pub open spec fn text_at(bytes: Seq<u8>, at: int) -> Seq<char> {
    match fstring_text(bytes, at) {
        Some(text) => text,
        None => Seq::empty(),
    }
}

/// Reads a length-prefixed string, where it lies inside the buffer. The
/// inner value is absent for a string without text.
pub fn take_fstring(buffer: &[u8], position: &mut usize) -> (value: Option<Option<String>>)
    ensures
        match value {
            Some(text) => {
                &&& fstring_fits(buffer@, *old(position) as int)
                &&& *final(position) == *old(position) + fstring_extent(
                    buffer@,
                    *old(position) as int,
                )
                &&& match text {
                    Some(s) => fstring_text(buffer@, *old(position) as int) == Some(s@),
                    None => fstring_text(buffer@, *old(position) as int) is None,
                }
            },
            None => !fstring_fits(buffer@, *old(position) as int) && *final(position) == *old(position),
        },
{
    if !check_room(buffer, *position, 4) {
        return None;
    }
    let mut peek: usize = *position;
    let length: i32 = read_le_signed(buffer, &mut peek);
    let body: u64 = if length > 0 {
        length as u64
    } else if length < 0 {
        (-(length as i64)) as u64 * 2
    } else {
        0
    };
    if !check_room(buffer, *position, body + 4) {
        return None;
    }
    Some(read_fstring(buffer, position))
}

/// The texts of a sequence of strings.
pub open spec fn views_of(texts: Seq<String>) -> Seq<Seq<char>> {
    texts.map_values(|s: String| s@)
}

/// Reads `count` strings one after another, starting at `at`: the texts and
/// the position behind the last of them, or `None` where one of them does
/// not lie inside `bytes`. A string without text counts as the empty text,
/// or is left out where `skip_absent` holds.
pub open spec fn texts_at(bytes: Seq<u8>, at: int, count: nat, skip_absent: bool) -> Option<
    (Seq<Seq<char>>, int),
>
    decreases count,
{
    if count == 0 {
        Some((Seq::empty(), at))
    } else {
        match texts_at(bytes, at, (count - 1) as nat, skip_absent) {
            Some((texts, next)) => if fstring_fits(bytes, next) {
                let end = next + fstring_extent(bytes, next);
                if skip_absent && fstring_text(bytes, next) is None {
                    Some((texts, end))
                } else {
                    Some((texts.push(text_at(bytes, next)), end))
                }
            } else {
                None
            },
            None => None,
        }
    }
}

/// Reads `count` strings one after another.
pub fn take_texts(buffer: &[u8], position: &mut usize, count: u32, skip_absent: bool) -> (value:
    Option<Vec<String>>)
    ensures
        match value {
            Some(texts) => texts_at(buffer@, *old(position) as int, count as nat, skip_absent)
                == Some((views_of(texts@), *final(position) as int)) && (!skip_absent
                ==> texts@.len() == count),
            None => texts_at(buffer@, *old(position) as int, count as nat, skip_absent) is None
                && *final(position) == *old(position),
        },
{
    let start: usize = *position;
    let mut texts: Vec<String> = Vec::new();
    let mut done: u32 = 0;
    assert(views_of(texts@) =~= Seq::<Seq<char>>::empty());
    while done < count
        invariant
            done <= count,
            start == *old(position),
            !skip_absent ==> texts@.len() == done,
            texts_at(buffer@, start as int, done as nat, skip_absent) == Some(
                (views_of(texts@), *position as int),
            ),
        decreases count - done,
    {
        let ghost before = views_of(texts@);
        match take_fstring(buffer, position) {
            Some(text) => {
                match text {
                    Some(s) => {
                        texts.push(s);
                        assert(views_of(texts@) =~= before.push(s@));
                    },
                    None => {
                        if !skip_absent {
                            texts.push(String::new());
                            assert(views_of(texts@) =~= before.push(Seq::<char>::empty()));
                        }
                    },
                }
            },
            None => {
                proof {
                    lemma_texts_fail(buffer@, start as int, done as nat, count as nat, skip_absent);
                }
                *position = start;
                return None;
            },
        }
        done = done + 1;
    }
    Some(texts)
}

/// Once a string of a run does not fit, no longer run of strings from the
/// same start can be read.
pub proof fn lemma_texts_fail(bytes: Seq<u8>, at: int, done: nat, count: nat, skip_absent: bool)
    requires
        done < count,
        match texts_at(bytes, at, done, skip_absent) {
            Some((texts, next)) => !fstring_fits(bytes, next),
            None => true,
        },
    ensures
        texts_at(bytes, at, count, skip_absent) is None,
    decreases count - done,
{
    if done + 1 < count {
        assert(texts_at(bytes, at, done + 1, skip_absent) is None);
        lemma_texts_fail(bytes, at, done + 1, count, skip_absent);
    }
}

/// The sixteen bytes of a GUID in the order in which they are printed: the
/// GUID is four little-endian words, and each word is printed as a number,
/// most significant byte first.
pub open spec fn guid_bytes(bytes: Seq<u8>, at: int) -> Seq<u8> {
    Seq::new(16, |i: int| bytes[at + 4 * (i / 4) + 3 - i % 4])
}

/// The text of the GUID whose sixteen bytes start at `at`: thirty-two
/// lower-case hexadecimal digits.
pub open spec fn guid_text(bytes: Seq<u8>, at: int) -> Seq<char> {
    hex_text(guid_bytes(bytes, at), false)
}

/// Renders the GUID whose sixteen bytes start at `at`.
pub fn read_guid(buffer: &[u8], at: usize) -> (guid: String)
    requires
        has_room(buffer@, at as int, 16),
    ensures
        guid@ == guid_text(buffer@, at as int),
{
    let total: usize = buffer.len();
    let mut printed: Vec<u8> = Vec::new();
    let mut i: usize = 0;
    while i < 16
        invariant
            i <= 16,
            at + 16 <= buffer@.len(),
            buffer@.len() <= usize::MAX,
            printed@ == guid_bytes(buffer@, at as int).take(i as int),
        decreases 16 - i,
    {
        printed.push(buffer[at + 4 * (i / 4) + 3 - i % 4]);
        i = i + 1;
        assert(printed@ =~= guid_bytes(buffer@, at as int).take(i as int));
    }
    assert(guid_bytes(buffer@, at as int).take(16) =~= guid_bytes(buffer@, at as int));
    to_hex(printed.as_slice())
}

/// The position behind the section that starts at `at`, as its size field
/// announces it; `None` where the size and version fields, or the announced
/// end, lie outside `bytes`.
pub open spec fn section_end(bytes: Seq<u8>, at: int) -> Option<int> {
    if has_room(bytes, at, 5) && at + le_u32(bytes, at) <= bytes.len() {
        Some(at + le_u32(bytes, at))
    } else {
        None
    }
}

/// Reads the size and version fields of a section: the version and the
/// position at which the section ends. The cursor is left behind the
/// version byte.
pub fn enter_section(buffer: &[u8], position: &mut usize) -> (entered: Option<(u8, usize)>)
    ensures
        match entered {
            Some((version, end)) => {
                &&& section_end(buffer@, *old(position) as int) == Some(end as int)
                &&& version == buffer@[*old(position) + 4]
                &&& *final(position) == *old(position) + 5
            },
            None => section_end(buffer@, *old(position) as int) is None && *final(position)
                == *old(position),
        },
{
    let start: usize = *position;
    if !check_room(buffer, start, 5) {
        return None;
    }
    let mut peek: usize = start;
    let size: u32 = read_le(buffer, &mut peek);
    if !check_room(buffer, start, size as u64) {
        return None;
    }
    let total: usize = buffer.len();
    let version: u8 = buffer[start + 4];
    *position = start + 5;
    Some((version, start + size as usize))
}

/// One row of the chunk table.
#[derive(Debug, Clone, PartialEq)]
pub struct BinaryChunkInfo {
    /// The GUID as text.
    pub guid: String,
    /// Rolling hash.
    pub hash: u64,
    /// SHA-1 of the chunk, twenty bytes.
    pub sha_hash: Vec<u8>,
    /// Data group, which names the directory of the chunk.
    pub group_num: u8,
    /// Size of the chunk once unpacked.
    pub window_size: u32,
    /// Size of the chunk as stored.
    pub file_size: i64,
}

/// What a row of the chunk table holds.
pub struct ChunkRow {
    pub guid: Seq<char>,
    pub hash: u64,
    pub sha_hash: Seq<u8>,
    pub group_num: u8,
    pub window_size: u32,
    pub file_size: i64,
}

impl View for BinaryChunkInfo {
    type V = ChunkRow;

    open spec fn view(&self) -> ChunkRow {
        ChunkRow {
            guid: self.guid@,
            hash: self.hash,
            sha_hash: self.sha_hash@,
            group_num: self.group_num,
            window_size: self.window_size,
            file_size: self.file_size,
        }
    }
}

/// Row `index` of a chunk table of `count` rows whose columns start at
/// `base`: all GUIDs, then all rolling hashes, all SHA-1 digests, all data
/// groups, all window sizes and all file sizes.
pub open spec fn chunk_row(bytes: Seq<u8>, base: int, count: int, index: int) -> ChunkRow {
    ChunkRow {
        guid: guid_text(bytes, base + 16 * index),
        hash: le_u64(bytes, base + 16 * count + 8 * index) as u64,
        sha_hash: bytes.subrange(
            base + 24 * count + 20 * index,
            base + 24 * count + 20 * index + 20,
        ),
        group_num: bytes[base + 44 * count + index],
        window_size: le_u32(bytes, base + 45 * count + 4 * index) as u32,
        file_size: signed64(le_u64(bytes, base + 49 * count + 8 * index)) as i64,
    }
}

/// The chunk section that starts at `at`: its rows and the position behind
/// it. `None` where the section or one of its columns does not lie inside
/// `bytes`.
pub open spec fn chunks_at(bytes: Seq<u8>, at: int) -> Option<(Seq<ChunkRow>, int)> {
    match section_end(bytes, at) {
        Some(end) => if has_room(bytes, at + 5, 4) && has_room(
            bytes,
            at + 9,
            57 * le_u32(bytes, at + 5),
        ) {
            let count = le_u32(bytes, at + 5);
            Some((Seq::new(count as nat, |i: int| chunk_row(bytes, at + 9, count, i)), end))
        } else {
            None
        },
        None => None,
    }
}

/// The rows of a sequence of chunk records.
pub open spec fn chunk_rows(chunks: Seq<BinaryChunkInfo>) -> Seq<ChunkRow> {
    chunks.map_values(|c: BinaryChunkInfo| c@)
}

/// Reads the chunk section and moves the cursor behind it.
pub fn read_chunks(buffer: &[u8], position: &mut usize) -> (value: Option<Vec<BinaryChunkInfo>>)
    ensures
        match value {
            Some(chunks) => chunks_at(buffer@, *old(position) as int) == Some(
                (chunk_rows(chunks@), *final(position) as int),
            ),
            None => chunks_at(buffer@, *old(position) as int) is None && *final(position) == *old(position),
        },
{
    let start: usize = *position;
    let total: usize = buffer.len();
    let (_version, end) = match enter_section(buffer, position) {
        Some(entered) => entered,
        None => {
            return None;
        },
    };
    let count: u32 = match take_u32(buffer, position) {
        Some(count) => count,
        None => {
            *position = start;
            return None;
        },
    };
    let base: usize = *position;
    if !check_room(buffer, base, 57 * (count as u64)) {
        *position = start;
        return None;
    }
    let n: usize = count as usize;
    let mut chunks: Vec<BinaryChunkInfo> = Vec::new();
    let mut i: usize = 0;
    while i < n
        invariant
            i <= n,
            n == count,
            base + 57 * n <= buffer@.len(),
            buffer@.len() <= usize::MAX,
            chunk_rows(chunks@) == Seq::new(
                i as nat,
                |j: int| chunk_row(buffer@, base as int, n as int, j),
            ),
        decreases n - i,
    {
        let guid: String = read_guid(buffer, base + 16 * i);
        let mut cursor: usize = base + 16 * n + 8 * i;
        let hash: u64 = read_le_64(buffer, &mut cursor);
        let sha_at: usize = base + 24 * n + 20 * i;
        let sha_hash: Vec<u8> = slice_to_vec(slice_subrange(buffer, sha_at, sha_at + 20));
        let group_num: u8 = buffer[base + 44 * n + i];
        cursor = base + 45 * n + 4 * i;
        let window_size: u32 = read_le(buffer, &mut cursor);
        cursor = base + 49 * n + 8 * i;
        let file_size: i64 = read_le_64_signed(buffer, &mut cursor);
        let ghost before = chunk_rows(chunks@);
        let chunk = BinaryChunkInfo { guid, hash, sha_hash, group_num, window_size, file_size };
        chunks.push(chunk);
        i = i + 1;
        assert(chunk_rows(chunks@) =~= before.push(chunk@));
        assert(chunk_rows(chunks@) =~= Seq::new(
            i as nat,
            |j: int| chunk_row(buffer@, base as int, n as int, j),
        ));
    }
    *position = end;
    Some(chunks)
}

/// The install tags of `files` files, read one file after another starting
/// at `at`: for each file a count and as many strings.
pub open spec fn tag_lists_at(bytes: Seq<u8>, at: int, files: nat) -> Option<
    (Seq<Seq<Seq<char>>>, int),
>
    decreases files,
{
    if files == 0 {
        Some((Seq::empty(), at))
    } else {
        match tag_lists_at(bytes, at, (files - 1) as nat) {
            Some((lists, next)) => if has_room(bytes, next, 4) {
                match texts_at(bytes, next + 4, le_u32(bytes, next) as nat, false) {
                    Some((tags, end)) => Some((lists.push(tags), end)),
                    None => None,
                }
            } else {
                None
            },
            None => None,
        }
    }
}

/// The texts of each list of a sequence of lists of strings.
pub open spec fn list_views_of(lists: Seq<Vec<String>>) -> Seq<Seq<Seq<char>>> {
    lists.map_values(|list: Vec<String>| views_of(list@))
}

/// Once the tags of one file cannot be read, those of no longer run of
/// files can.
pub proof fn lemma_tag_lists_fail(bytes: Seq<u8>, at: int, done: nat, files: nat)
    requires
        done < files,
        tag_lists_at(bytes, at, (done + 1) as nat) is None,
    ensures
        tag_lists_at(bytes, at, files) is None,
    decreases files - done,
{
    if done + 1 < files {
        lemma_tag_lists_fail(bytes, at, done + 1, files);
    }
}

/// Reads the install tags of `files` files.
pub fn take_tag_lists(buffer: &[u8], position: &mut usize, files: u32) -> (value: Option<
    Vec<Vec<String>>,
>)
    ensures
        match value {
            Some(lists) => tag_lists_at(buffer@, *old(position) as int, files as nat) == Some(
                (list_views_of(lists@), *final(position) as int),
            ) && lists@.len() == files,
            None => tag_lists_at(buffer@, *old(position) as int, files as nat) is None && *final(position) == *old(position),
        },
{
    let start: usize = *position;
    let mut lists: Vec<Vec<String>> = Vec::new();
    let mut done: u32 = 0;
    assert(list_views_of(lists@) =~= Seq::<Seq<Seq<char>>>::empty());
    while done < files
        invariant
            done <= files,
            start == *old(position),
            lists@.len() == done,
            tag_lists_at(buffer@, start as int, done as nat) == Some(
                (list_views_of(lists@), *position as int),
            ),
        decreases files - done,
    {
        let ghost before = list_views_of(lists@);
        let count: u32 = match take_u32(buffer, position) {
            Some(count) => count,
            None => {
                proof {
                    lemma_tag_lists_fail(buffer@, start as int, done as nat, files as nat);
                }
                *position = start;
                return None;
            },
        };
        let tags: Vec<String> = match take_texts(buffer, position, count, false) {
            Some(tags) => tags,
            None => {
                proof {
                    lemma_tag_lists_fail(buffer@, start as int, done as nat, files as nat);
                }
                *position = start;
                return None;
            },
        };
        lists.push(tags);
        assert(list_views_of(lists@) =~= before.push(views_of(tags@)));
        done = done + 1;
    }
    Some(lists)
}

/// One chunk part as the file table stores it.
#[derive(Debug, Clone, PartialEq)]
pub struct BinaryChunkPart {
    /// GUID of the chunk, as text.
    pub guid: String,
    /// Where the part starts inside the chunk.
    pub offset: u128,
    /// Length of the part.
    pub size: u128,
    /// Where the part starts inside the file.
    pub file_offset: u128,
}

/// What a stored chunk part holds.
pub struct PartRow {
    pub guid: Seq<char>,
    pub offset: u128,
    pub size: u128,
    pub file_offset: u128,
}

impl View for BinaryChunkPart {
    type V = PartRow;

    open spec fn view(&self) -> PartRow {
        PartRow {
            guid: self.guid@,
            offset: self.offset,
            size: self.size,
            file_offset: self.file_offset,
        }
    }
}

/// Sum of the sizes of a sequence of stored parts.
pub open spec fn rows_size(parts: Seq<PartRow>) -> nat
    decreases parts.len(),
{
    if parts.len() == 0 {
        0
    } else {
        rows_size(parts.drop_last()) + parts.last().size as nat
    }
}

/// `count` chunk parts read one after another, starting at `at`. A part is
/// its own size, a GUID, an offset and a size; the next part starts where
/// the size of this one says, which skips what a later format may add. A
/// part starts in the file where the parts before it end.
pub open spec fn parts_at(bytes: Seq<u8>, at: int, count: nat) -> Option<(Seq<PartRow>, int)>
    decreases count,
{
    if count == 0 {
        Some((Seq::empty(), at))
    } else {
        match parts_at(bytes, at, (count - 1) as nat) {
            Some((parts, next)) => if has_room(bytes, next, 28) && next + le_u32(bytes, next)
                <= bytes.len() {
                let part = PartRow {
                    guid: guid_text(bytes, next + 4),
                    offset: le_u32(bytes, next + 20) as u128,
                    size: le_u32(bytes, next + 24) as u128,
                    file_offset: rows_size(parts) as u128,
                };
                Some((parts.push(part), next + le_u32(bytes, next)))
            } else {
                None
            },
            None => None,
        }
    }
}

/// Whether the last of the parts ends where their sizes add up to, below
/// two to the power of 64.
pub open spec fn sized(parts: Seq<PartRow>) -> bool {
    parts.len() > 0 ==> rows_size(parts) == parts.last().file_offset + parts.last().size
        && rows_size(parts) <= u64::MAX
}

/// Whether stored parts are as a file table has them: at most 2 to the
/// power of 32 less one of them, none larger than that.
pub open spec fn table_parts(parts: Seq<PartRow>) -> bool {
    &&& parts.len() <= u32::MAX
    &&& forall|i: int| 0 <= i < parts.len() ==> (#[trigger] parts[i]).size <= u32::MAX
}

/// Parts that are read from a file table are as many as were asked for,
/// and none is larger than 32 bits can say.
pub proof fn lemma_parts_at_shape(bytes: Seq<u8>, at: int, count: nat)
    requires
        parts_at(bytes, at, count) is Some,
    ensures
        parts_at(bytes, at, count).unwrap().0.len() == count,
        forall|i: int|
            0 <= i < count ==> (#[trigger] parts_at(bytes, at, count).unwrap().0[i]).size
                <= u32::MAX,
    decreases count,
{
    if count > 0 {
        lemma_parts_at_shape(bytes, at, (count - 1) as nat);
    }
}

/// Lists of parts that are read from a file table are as many as there
/// are files, and each is as a file table has it.
pub proof fn lemma_part_lists_shape(bytes: Seq<u8>, at: int, files: nat)
    requires
        part_lists_at(bytes, at, files) is Some,
    ensures
        part_lists_at(bytes, at, files).unwrap().0.len() == files,
        forall|i: int|
            0 <= i < files ==> table_parts(#[trigger] part_lists_at(bytes, at, files).unwrap().0[i]),
    decreases files,
{
    if files > 0 {
        let last = (files - 1) as nat;
        lemma_part_lists_shape(bytes, at, last);
        let (lists, next) = part_lists_at(bytes, at, last).unwrap();
        let count = le_u32(bytes, next) as nat;
        lemma_parts_at_shape(bytes, next + 4, count);
    }
}

/// The rows of a sequence of stored parts.
pub open spec fn part_rows(parts: Seq<BinaryChunkPart>) -> Seq<PartRow> {
    parts.map_values(|p: BinaryChunkPart| p@)
}

/// Once one part cannot be read, no longer run of parts can.
pub proof fn lemma_parts_fail(bytes: Seq<u8>, at: int, done: nat, count: nat)
    requires
        done < count,
        parts_at(bytes, at, (done + 1) as nat) is None,
    ensures
        parts_at(bytes, at, count) is None,
    decreases count - done,
{
    if done + 1 < count {
        lemma_parts_fail(bytes, at, done + 1, count);
    }
}

/// Reads `count` chunk parts.
pub fn take_parts(buffer: &[u8], position: &mut usize, count: u32) -> (value: Option<
    Vec<BinaryChunkPart>,
>)
    ensures
        match value {
            Some(parts) => parts_at(buffer@, *old(position) as int, count as nat) == Some(
                (part_rows(parts@), *final(position) as int),
            ) && sized(part_rows(parts@)),
            None => parts_at(buffer@, *old(position) as int, count as nat) is None && *final(position) == *old(position),
        },
{
    let start: usize = *position;
    let total: usize = buffer.len();
    let mut parts: Vec<BinaryChunkPart> = Vec::new();
    let mut done: u32 = 0;
    let mut offset: u128 = 0;
    assert(part_rows(parts@) =~= Seq::<PartRow>::empty());
    while done < count
        invariant
            done <= count,
            start == *old(position),
            total == buffer@.len(),
            offset == rows_size(part_rows(parts@)),
            offset <= done * 0xffff_ffff,
            sized(part_rows(parts@)),
            parts_at(buffer@, start as int, done as nat) == Some(
                (part_rows(parts@), *position as int),
            ),
        decreases count - done,
    {
        let at: usize = *position;
        let ghost before = part_rows(parts@);
        if !check_room(buffer, at, 28) {
            proof {
                lemma_parts_fail(buffer@, start as int, done as nat, count as nat);
            }
            *position = start;
            return None;
        }
        let mut cursor: usize = at;
        let own_size: u32 = read_le(buffer, &mut cursor);
        if !check_room(buffer, at, own_size as u64) {
            proof {
                lemma_parts_fail(buffer@, start as int, done as nat, count as nat);
            }
            *position = start;
            return None;
        }
        let guid: String = read_guid(buffer, at + 4);
        cursor = at + 20;
        let part_offset: u32 = read_le(buffer, &mut cursor);
        let size: u32 = read_le(buffer, &mut cursor);
        let part = BinaryChunkPart {
            guid,
            offset: part_offset as u128,
            size: size as u128,
            file_offset: offset,
        };
        parts.push(part);
        proof {
            assert(part_rows(parts@) =~= before.push(part@));
            assert(part_rows(parts@).drop_last() =~= before);
        }
        offset = offset + size as u128;
        *position = at + own_size as usize;
        done = done + 1;
    }
    Some(parts)
}

/// The chunk parts of `files` files, read one file after another starting
/// at `at`: for each file a count and as many parts.
pub open spec fn part_lists_at(bytes: Seq<u8>, at: int, files: nat) -> Option<
    (Seq<Seq<PartRow>>, int),
>
    decreases files,
{
    if files == 0 {
        Some((Seq::empty(), at))
    } else {
        match part_lists_at(bytes, at, (files - 1) as nat) {
            Some((lists, next)) => if has_room(bytes, next, 4) {
                match parts_at(bytes, next + 4, le_u32(bytes, next) as nat) {
                    Some((parts, end)) => Some((lists.push(parts), end)),
                    None => None,
                }
            } else {
                None
            },
            None => None,
        }
    }
}

/// The rows of each list of a sequence of lists of stored parts.
pub open spec fn part_list_rows(lists: Seq<Vec<BinaryChunkPart>>) -> Seq<Seq<PartRow>> {
    lists.map_values(|list: Vec<BinaryChunkPart>| part_rows(list@))
}

/// Once the parts of one file cannot be read, those of no longer run of
/// files can.
pub proof fn lemma_part_lists_fail(bytes: Seq<u8>, at: int, done: nat, files: nat)
    requires
        done < files,
        part_lists_at(bytes, at, (done + 1) as nat) is None,
    ensures
        part_lists_at(bytes, at, files) is None,
    decreases files - done,
{
    if done + 1 < files {
        lemma_part_lists_fail(bytes, at, done + 1, files);
    }
}

/// Reads the chunk parts of `files` files.
pub fn take_part_lists(buffer: &[u8], position: &mut usize, files: u32) -> (value: Option<
    Vec<Vec<BinaryChunkPart>>,
>)
    ensures
        match value {
            Some(lists) => {
                &&& part_lists_at(buffer@, *old(position) as int, files as nat) == Some(
                    (part_list_rows(lists@), *final(position) as int),
                )
                &&& lists@.len() == files
                &&& forall|i: int| 0 <= i < lists@.len() ==> sized(#[trigger] part_rows(lists@[i]@))
            },
            None => part_lists_at(buffer@, *old(position) as int, files as nat) is None && *final(position) == *old(position),
        },
{
    let start: usize = *position;
    let mut lists: Vec<Vec<BinaryChunkPart>> = Vec::new();
    let mut done: u32 = 0;
    assert(part_list_rows(lists@) =~= Seq::<Seq<PartRow>>::empty());
    while done < files
        invariant
            done <= files,
            start == *old(position),
            lists@.len() == done,
            forall|i: int| 0 <= i < lists@.len() ==> sized(#[trigger] part_rows(lists@[i]@)),
            part_lists_at(buffer@, start as int, done as nat) == Some(
                (part_list_rows(lists@), *position as int),
            ),
        decreases files - done,
    {
        let ghost before = part_list_rows(lists@);
        let count: u32 = match take_u32(buffer, position) {
            Some(count) => count,
            None => {
                proof {
                    lemma_part_lists_fail(buffer@, start as int, done as nat, files as nat);
                }
                *position = start;
                return None;
            },
        };
        let parts: Vec<BinaryChunkPart> = match take_parts(buffer, position, count) {
            Some(parts) => parts,
            None => {
                proof {
                    lemma_part_lists_fail(buffer@, start as int, done as nat, files as nat);
                }
                *position = start;
                return None;
            },
        };
        lists.push(parts);
        assert(part_list_rows(lists@) =~= before.push(part_rows(parts@)));
        done = done + 1;
    }
    Some(lists)
}

/// The MD5 digests of `files` files, read one file after another starting
/// at `at`: for each file a 32-bit flag and, where the flag is not zero,
/// sixteen bytes. A file without a digest has the empty one.
pub open spec fn md5s_at(bytes: Seq<u8>, at: int, files: nat) -> Option<(Seq<Seq<u8>>, int)>
    decreases files,
{
    if files == 0 {
        Some((Seq::empty(), at))
    } else {
        match md5s_at(bytes, at, (files - 1) as nat) {
            Some((digests, next)) => if has_room(bytes, next, 4) {
                if le_u32(bytes, next) != 0 {
                    if has_room(bytes, next + 4, 16) {
                        Some((digests.push(bytes.subrange(next + 4, next + 20)), next + 20))
                    } else {
                        None
                    }
                } else {
                    Some((digests.push(Seq::empty()), next + 4))
                }
            } else {
                None
            },
            None => None,
        }
    }
}

/// The contents of a sequence of byte vectors.
pub open spec fn byte_views_of(items: Seq<Vec<u8>>) -> Seq<Seq<u8>> {
    items.map_values(|item: Vec<u8>| item@)
}

/// Once the digest of one file cannot be read, those of no longer run of
/// files can.
pub proof fn lemma_md5s_fail(bytes: Seq<u8>, at: int, done: nat, files: nat)
    requires
        done < files,
        md5s_at(bytes, at, (done + 1) as nat) is None,
    ensures
        md5s_at(bytes, at, files) is None,
    decreases files - done,
{
    if done + 1 < files {
        lemma_md5s_fail(bytes, at, done + 1, files);
    }
}

/// Reads the MD5 digests of `files` files.
pub fn take_md5s(buffer: &[u8], position: &mut usize, files: u32) -> (value: Option<Vec<Vec<u8>>>)
    ensures
        match value {
            Some(digests) => md5s_at(buffer@, *old(position) as int, files as nat) == Some(
                (byte_views_of(digests@), *final(position) as int),
            ) && digests@.len() == files,
            None => md5s_at(buffer@, *old(position) as int, files as nat) is None && *final(position) == *old(position),
        },
{
    let start: usize = *position;
    let mut digests: Vec<Vec<u8>> = Vec::new();
    let mut done: u32 = 0;
    assert(byte_views_of(digests@) =~= Seq::<Seq<u8>>::empty());
    while done < files
        invariant
            done <= files,
            start == *old(position),
            digests@.len() == done,
            md5s_at(buffer@, start as int, done as nat) == Some(
                (byte_views_of(digests@), *position as int),
            ),
        decreases files - done,
    {
        let ghost before = byte_views_of(digests@);
        let flag: u32 = match take_u32(buffer, position) {
            Some(flag) => flag,
            None => {
                proof {
                    lemma_md5s_fail(buffer@, start as int, done as nat, files as nat);
                }
                *position = start;
                return None;
            },
        };
        let digest: Vec<u8> = if flag != 0 {
            match take_bytes(buffer, position, 16) {
                Some(digest) => digest,
                None => {
                    proof {
                        lemma_md5s_fail(buffer@, start as int, done as nat, files as nat);
                    }
                    *position = start;
                    return None;
                },
            }
        } else {
            Vec::new()
        };
        digests.push(digest);
        assert(byte_views_of(digests@) =~= before.push(digest@));
        done = done + 1;
    }
    Some(digests)
}

/// Takes the item at `index` out of a vector and leaves `filler` there.
pub fn take_at<T>(items: &mut Vec<T>, index: usize, filler: T) -> (item: T)
    requires
        index < old(items)@.len(),
    ensures
        item == old(items)@[index as int],
        final(items)@ == old(items)@.update(index as int, filler),
{
    let mut held = filler;
    core::mem::swap(&mut held, &mut items[index]);
    held
}

/// One row of the file table.
#[derive(Debug, Clone, PartialEq)]
pub struct BinaryFileManifest {
    /// Path of the file, with forward slashes.
    pub filename: String,
    /// Target of the link where the file is a symbolic link.
    pub symlink_target: String,
    /// SHA-1 of the file, twenty bytes.
    pub hash: Vec<u8>,
    /// MD5 of the file, sixteen bytes, or empty.
    pub hash_md5: Vec<u8>,
    /// SHA-256 of the file, thirty-two bytes, or empty.
    pub hash_sha256: Vec<u8>,
    /// MIME type.
    pub mime_type: String,
    /// Flag bits.
    pub flags: u8,
    /// Install tags.
    pub install_tags: Vec<String>,
    /// The parts that make up the file, in file order.
    pub chunk_parts: Vec<BinaryChunkPart>,
    /// Size of the file: the sum of the sizes of its parts.
    pub file_size: u128,
}

/// What a row of the file table holds.
pub struct FileRow {
    pub filename: Seq<char>,
    pub symlink_target: Seq<char>,
    pub hash: Seq<u8>,
    pub hash_md5: Seq<u8>,
    pub hash_sha256: Seq<u8>,
    pub mime_type: Seq<char>,
    pub flags: u8,
    pub install_tags: Seq<Seq<char>>,
    pub chunk_parts: Seq<PartRow>,
    pub file_size: u128,
}

impl View for BinaryFileManifest {
    type V = FileRow;

    open spec fn view(&self) -> FileRow {
        FileRow {
            filename: self.filename@,
            symlink_target: self.symlink_target@,
            hash: self.hash@,
            hash_md5: self.hash_md5@,
            hash_sha256: self.hash_sha256@,
            mime_type: self.mime_type@,
            flags: self.flags,
            install_tags: views_of(self.install_tags@),
            chunk_parts: part_rows(self.chunk_parts@),
            file_size: self.file_size,
        }
    }
}

/// The rows of a sequence of file records.
pub open spec fn file_rows(files: Seq<BinaryFileManifest>) -> Seq<FileRow> {
    files.map_values(|f: BinaryFileManifest| f@)
}

/// The columns of a file table, as they follow one another in a section.
pub struct FileColumns {
    pub names: Seq<Seq<char>>,
    pub links: Seq<Seq<char>>,
    /// Where the SHA-1 digests start; the flag bytes follow them.
    pub hashes: int,
    pub tags: Seq<Seq<Seq<char>>>,
    pub parts: Seq<Seq<PartRow>>,
    pub md5s: Seq<Seq<u8>>,
    pub mimes: Seq<Seq<char>>,
    /// Where the SHA-256 digests start, where the table has them.
    pub sha256s: Option<int>,
}

/// Row `index` of a file table of `count` rows with the given columns.
pub open spec fn file_row(bytes: Seq<u8>, columns: FileColumns, count: int, index: int) -> FileRow {
    FileRow {
        filename: columns.names[index],
        symlink_target: columns.links[index],
        hash: bytes.subrange(columns.hashes + 20 * index, columns.hashes + 20 * index + 20),
        hash_md5: columns.md5s[index],
        hash_sha256: match columns.sha256s {
            Some(at) => bytes.subrange(at + 32 * index, at + 32 * index + 32),
            None => Seq::empty(),
        },
        mime_type: columns.mimes[index],
        flags: bytes[columns.hashes + 20 * count + index],
        install_tags: columns.tags[index],
        chunk_parts: columns.parts[index],
        file_size: rows_size(columns.parts[index]) as u128,
    }
}

/// The columns of a table without MD5 digests and MIME types, as version 0
/// of the file section has it.
pub open spec fn plain_columns(count: nat) -> (Seq<Seq<u8>>, Seq<Seq<char>>) {
    (Seq::new(count, |i: int| Seq::<u8>::empty()), Seq::new(count, |i: int| Seq::<char>::empty()))
}

/// The columns of the file table of `count` rows and the given version
/// that starts at `at`, and the position behind the last column: file
/// names, link targets, SHA-1 digests, flag bytes, install tags and chunk
/// parts; from version 1 on MD5 digests and MIME types; from version 2 on
/// SHA-256 digests.
pub open spec fn file_columns_at(bytes: Seq<u8>, at: int, count: nat, version: u8) -> Option<
    (FileColumns, int),
> {
    match texts_at(bytes, at, count, false) {
        Some((names, next1)) => match texts_at(bytes, next1, count, false) {
            Some((links, next2)) => if has_room(bytes, next2, 21 * count as int) {
                match tag_lists_at(bytes, next2 + 21 * count, count) {
                    Some((tags, next4)) => match part_lists_at(bytes, next4, count) {
                        Some((parts, next5)) => match extra_columns_at(bytes, next5, count, version) {
                            Some((md5s, mimes, sha256s, next8)) => Some(
                                (
                                    FileColumns {
                                        names,
                                        links,
                                        hashes: next2,
                                        tags,
                                        parts,
                                        md5s,
                                        mimes,
                                        sha256s,
                                    },
                                    next8,
                                ),
                            ),
                            None => None,
                        },
                        None => None,
                    },
                    None => None,
                }
            } else {
                None
            },
            None => None,
        },
        None => None,
    }
}

/// The columns that later versions of the file section add, starting at
/// `at`: MD5 digests, MIME types, the start of the SHA-256 digests, and the
/// position behind them.
pub open spec fn extra_columns_at(bytes: Seq<u8>, at: int, count: nat, version: u8) -> Option<
    (Seq<Seq<u8>>, Seq<Seq<char>>, Option<int>, int),
> {
    if version >= 1 {
        match md5s_at(bytes, at, count) {
            Some((md5s, next6)) => match texts_at(bytes, next6, count, false) {
                Some((mimes, next7)) => if version >= 2 {
                    if has_room(bytes, next7, 32 * count as int) {
                        Some((md5s, mimes, Some(next7), next7 + 32 * count))
                    } else {
                        None
                    }
                } else {
                    Some((md5s, mimes, None, next7))
                },
                None => None,
            },
            None => None,
        }
    } else {
        Some((plain_columns(count).0, plain_columns(count).1, None, at))
    }
}

/// The file section that starts at `at`: its rows and the position behind
/// it. `None` where the section or one of its columns does not lie inside
/// `bytes`.
pub open spec fn files_at(bytes: Seq<u8>, at: int) -> Option<(Seq<FileRow>, int)> {
    match section_end(bytes, at) {
        Some(end) => if has_room(bytes, at + 5, 4) {
            let count = le_u32(bytes, at + 5);
            match file_columns_at(bytes, at + 9, count as nat, bytes[at + 4]) {
                Some((columns, _)) => Some(
                    (Seq::new(count as nat, |i: int| file_row(bytes, columns, count, i)), end),
                ),
                None => None,
            }
        } else {
            None
        },
        None => None,
    }
}

/// The rows that are read from a file section are at most 2 to the power
/// of 32 less one, and the parts of each are as a file table has them.
pub proof fn lemma_files_at_shape(bytes: Seq<u8>, at: int)
    requires
        files_at(bytes, at) is Some,
    ensures
        files_at(bytes, at).unwrap().0.len() <= u32::MAX,
        forall|i: int|
            0 <= i < files_at(bytes, at).unwrap().0.len() ==> table_parts(
                (#[trigger] files_at(bytes, at).unwrap().0[i]).chunk_parts,
            ),
{
    let count = le_u32(bytes, at + 5) as nat;
    let version = bytes[at + 4];
    let (names, next1) = texts_at(bytes, at + 9, count, false).unwrap();
    let (links, next2) = texts_at(bytes, next1, count, false).unwrap();
    let (tags, next4) = tag_lists_at(bytes, next2 + 21 * count, count).unwrap();
    lemma_part_lists_shape(bytes, next4, count);
}

/// The columns of a file table as they were read.
pub struct FileColumnData {
    pub names: Vec<String>,
    pub links: Vec<String>,
    pub hashes: usize,
    pub tags: Vec<Vec<String>>,
    pub parts: Vec<Vec<BinaryChunkPart>>,
    pub md5s: Vec<Vec<u8>>,
    pub mimes: Vec<String>,
    pub sha256s: Option<usize>,
}

impl View for FileColumnData {
    type V = FileColumns;

    open spec fn view(&self) -> FileColumns {
        FileColumns {
            names: views_of(self.names@),
            links: views_of(self.links@),
            hashes: self.hashes as int,
            tags: list_views_of(self.tags@),
            parts: part_list_rows(self.parts@),
            md5s: byte_views_of(self.md5s@),
            mimes: views_of(self.mimes@),
            sha256s: match self.sha256s {
                Some(at) => Some(at as int),
                None => None,
            },
        }
    }
}

impl FileColumnData {
    /// Whether every column has `count` rows inside `bytes`, and the parts
    /// of every file add up.
    pub open spec fn complete(&self, bytes: Seq<u8>, count: int) -> bool {
        &&& self.names@.len() == count
        &&& self.links@.len() == count
        &&& self.tags@.len() == count
        &&& self.parts@.len() == count
        &&& self.md5s@.len() == count
        &&& self.mimes@.len() == count
        &&& has_room(bytes, self.hashes as int, 21 * count)
        &&& match self.sha256s {
            Some(at) => has_room(bytes, at as int, 32 * count),
            None => true,
        }
        &&& forall|i: int| 0 <= i < count ==> sized(#[trigger] part_rows(self.parts@[i]@))
    }
}

/// Reads the columns that later versions of the file section add.
pub fn take_extra_columns(buffer: &[u8], position: &mut usize, count: u32, version: u8) -> (value:
    Option<(Vec<Vec<u8>>, Vec<String>, Option<usize>)>)
    ensures
        match value {
            Some((md5s, mimes, sha256s)) => {
                &&& extra_columns_at(buffer@, *old(position) as int, count as nat, version)
                    == Some(
                    (
                        byte_views_of(md5s@),
                        views_of(mimes@),
                        match sha256s {
                            Some(at) => Some(at as int),
                            None => None,
                        },
                        *final(position) as int,
                    ),
                )
                &&& md5s@.len() == count
                &&& mimes@.len() == count
                &&& match sha256s {
                    Some(at) => has_room(buffer@, at as int, 32 * count),
                    None => true,
                }
            },
            None => extra_columns_at(buffer@, *old(position) as int, count as nat, version)
                is None && *final(position) == *old(position),
        },
{
    let start: usize = *position;
    let total: usize = buffer.len();
    if version >= 1 {
        let md5s: Vec<Vec<u8>> = match take_md5s(buffer, position, count) {
            Some(md5s) => md5s,
            None => {
                return None;
            },
        };
        let mimes: Vec<String> = match take_texts(buffer, position, count, false) {
            Some(mimes) => mimes,
            None => {
                *position = start;
                return None;
            },
        };
        if version >= 2 {
            let at: usize = *position;
            if !check_room(buffer, at, 32 * (count as u64)) {
                *position = start;
                return None;
            }
            *position = at + 32 * (count as usize);
            Some((md5s, mimes, Some(at)))
        } else {
            Some((md5s, mimes, None))
        }
    } else {
        let mut md5s: Vec<Vec<u8>> = Vec::new();
        let mut mimes: Vec<String> = Vec::new();
        let mut i: u32 = 0;
        while i < count
            invariant
                i <= count,
                md5s@.len() == i,
                mimes@.len() == i,
                forall|j: int| 0 <= j < i ==> (#[trigger] md5s@[j])@ == Seq::<u8>::empty(),
                forall|j: int| 0 <= j < i ==> (#[trigger] mimes@[j])@ == Seq::<char>::empty(),
            decreases count - i,
        {
            md5s.push(Vec::new());
            mimes.push(String::new());
            i = i + 1;
        }
        assert(byte_views_of(md5s@) =~= plain_columns(count as nat).0);
        assert(views_of(mimes@) =~= plain_columns(count as nat).1);
        Some((md5s, mimes, None))
    }
}

/// Reads the columns of a file table of `count` rows.
pub fn take_file_columns(buffer: &[u8], position: &mut usize, count: u32, version: u8) -> (value:
    Option<FileColumnData>)
    ensures
        match value {
            Some(columns) => {
                &&& file_columns_at(buffer@, *old(position) as int, count as nat, version)
                    == Some((columns@, *final(position) as int))
                &&& columns.complete(buffer@, count as int)
            },
            None => file_columns_at(buffer@, *old(position) as int, count as nat, version)
                is None && *final(position) == *old(position),
        },
{
    let start: usize = *position;
    let total: usize = buffer.len();
    let names: Vec<String> = match take_texts(buffer, position, count, false) {
        Some(names) => names,
        None => {
            return None;
        },
    };
    let links: Vec<String> = match take_texts(buffer, position, count, false) {
        Some(links) => links,
        None => {
            *position = start;
            return None;
        },
    };
    let hashes: usize = *position;
    if !check_room(buffer, hashes, 21 * (count as u64)) {
        *position = start;
        return None;
    }
    *position = hashes + 21 * (count as usize);
    let tags: Vec<Vec<String>> = match take_tag_lists(buffer, position, count) {
        Some(tags) => tags,
        None => {
            *position = start;
            return None;
        },
    };
    let parts: Vec<Vec<BinaryChunkPart>> = match take_part_lists(buffer, position, count) {
        Some(parts) => parts,
        None => {
            *position = start;
            return None;
        },
    };
    let (md5s, mimes, sha256s) = match take_extra_columns(buffer, position, count, version) {
        Some(extra) => extra,
        None => {
            *position = start;
            return None;
        },
    };
    Some(FileColumnData { names, links, hashes, tags, parts, md5s, mimes, sha256s })
}

/// Puts the columns of a file table together row by row.
pub fn zip_files(buffer: &[u8], columns: FileColumnData, count: u32) -> (files: Vec<
    BinaryFileManifest,
>)
    requires
        columns.complete(buffer@, count as int),
    ensures
        file_rows(files@) == Seq::new(
            count as nat,
            |i: int| file_row(buffer@, columns@, count as int, i),
        ),
{
    let ghost model = columns@;
    let total: usize = buffer.len();
    let FileColumnData {
        mut names,
        mut links,
        hashes,
        mut tags,
        mut parts,
        mut md5s,
        mut mimes,
        sha256s,
    } = columns;
    let n: usize = count as usize;
    let mut files: Vec<BinaryFileManifest> = Vec::new();
    let mut i: usize = 0;
    assert(file_rows(files@) =~= Seq::<FileRow>::empty());
    while i < n
        invariant
            i <= n,
            n == count,
            total == buffer@.len(),
            names@.len() == n,
            links@.len() == n,
            tags@.len() == n,
            parts@.len() == n,
            md5s@.len() == n,
            mimes@.len() == n,
            has_room(buffer@, hashes as int, 21 * n),
            match sha256s {
                Some(at) => has_room(buffer@, at as int, 32 * n) && model.sha256s == Some(
                    at as int,
                ),
                None => model.sha256s is None,
            },
            model.hashes == hashes,
            forall|j: int| i <= j < n ==> (#[trigger] names@[j])@ == model.names[j],
            forall|j: int| i <= j < n ==> (#[trigger] links@[j])@ == model.links[j],
            forall|j: int| i <= j < n ==> views_of((#[trigger] tags@[j])@) == model.tags[j],
            forall|j: int| i <= j < n ==> part_rows((#[trigger] parts@[j])@) == model.parts[j],
            forall|j: int| i <= j < n ==> (#[trigger] md5s@[j])@ == model.md5s[j],
            forall|j: int| i <= j < n ==> (#[trigger] mimes@[j])@ == model.mimes[j],
            forall|j: int| 0 <= j < n ==> sized(#[trigger] model.parts[j]),
            file_rows(files@) == Seq::new(
                i as nat,
                |j: int| file_row(buffer@, model, n as int, j),
            ),
        decreases n - i,
    {
        let filename: String = take_at(&mut names, i, String::new());
        let symlink_target: String = take_at(&mut links, i, String::new());
        let install_tags: Vec<String> = take_at(&mut tags, i, Vec::new());
        let chunk_parts: Vec<BinaryChunkPart> = take_at(&mut parts, i, Vec::new());
        let hash_md5: Vec<u8> = take_at(&mut md5s, i, Vec::new());
        let mime_type: String = take_at(&mut mimes, i, String::new());
        let hash_at: usize = hashes + 20 * i;
        let hash: Vec<u8> = slice_to_vec(slice_subrange(buffer, hash_at, hash_at + 20));
        let flags: u8 = buffer[hashes + 20 * n + i];
        let hash_sha256: Vec<u8> = match sha256s {
            Some(at) => slice_to_vec(slice_subrange(buffer, at + 32 * i, at + 32 * i + 32)),
            None => Vec::new(),
        };
        assert(part_rows(chunk_parts@) == model.parts[i as int]);
        let file_size: u128 = if chunk_parts.len() == 0 {
            assert(part_rows(chunk_parts@) =~= Seq::<PartRow>::empty());
            0
        } else {
            let last: &BinaryChunkPart = &chunk_parts[chunk_parts.len() - 1];
            assert(part_rows(chunk_parts@).last() == last@);
            last.file_offset + last.size
        };
        let ghost before = file_rows(files@);
        let file = BinaryFileManifest {
            filename,
            symlink_target,
            hash,
            hash_md5,
            hash_sha256,
            mime_type,
            flags,
            install_tags,
            chunk_parts,
            file_size,
        };
        files.push(file);
        i = i + 1;
        assert(file@ == file_row(buffer@, model, n as int, i - 1));
        assert(file_rows(files@) =~= before.push(file@));
        assert(file_rows(files@) =~= Seq::new(
            i as nat,
            |j: int| file_row(buffer@, model, n as int, j),
        ));
    }
    files
}

/// Reads the file section and moves the cursor behind it.
pub fn read_files(buffer: &[u8], position: &mut usize) -> (value: Option<Vec<BinaryFileManifest>>)
    ensures
        match value {
            Some(files) => files_at(buffer@, *old(position) as int) == Some(
                (file_rows(files@), *final(position) as int),
            ),
            None => files_at(buffer@, *old(position) as int) is None && *final(position) == *old(position),
        },
{
    let start: usize = *position;
    let (version, end) = match enter_section(buffer, position) {
        Some(entered) => entered,
        None => {
            return None;
        },
    };
    let count: u32 = match take_u32(buffer, position) {
        Some(count) => count,
        None => {
            *position = start;
            return None;
        },
    };
    let columns: FileColumnData = match take_file_columns(buffer, position, count, version) {
        Some(columns) => columns,
        None => {
            *position = start;
            return None;
        },
    };
    let files = zip_files(buffer, columns, count);
    *position = end;
    Some(files)
}

} // verus!
