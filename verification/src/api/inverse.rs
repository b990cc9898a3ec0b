//! The reader undoes the writer: what is written as a binary manifest is
//! read back as it was, where nothing of it is beyond what the format can
//! hold.

use crate::api::binary::{
    chunk_row, chunks_at, extra_columns_at, file_columns_at, file_row, files_at, guid_bytes,
    guid_text, has_room, part_lists_at, parts_at, plain_columns, rows_size, section_end,
    tag_lists_at, text_at, texts_at, ChunkRow, FileColumns, FileRow, PartRow,
};
use crate::api::payload::{
    custom_at, envelope_payload, meta_at, meta_tail, payload_rows, ManifestError, MetaRow,
    PayloadRows, MANIFEST_MAGIC,
};
use crate::api::foreign::sha1_digest;
use crate::api::table::{
    assoc_fold, keys_of, lemma_fold_zip, lemma_get_at, zipped,
};
use crate::api::types::download_manifest::{
    file_of_row, is_hex_text, is_lower_hex, manifest_of, part_of_row,
    stored_size, FileModel, ManifestModel, PartModel,
};
use crate::api::text::{digit_char, hex_text};
use crate::api::utils::{
    fstring_bytes, fstring_extent, fstring_fits, fstring_length, fstring_text, hex_pair,
    hex_value, le_u32, le_u64, u32_bytes, u64_bytes,
};
use crate::api::writer::{
    capped, chunk_fields, concat_map, custom_bytes, digest_wire, envelope_bytes, file_fields,
    group_of, guid_wire, header_bytes, ids_bytes, is_digest, is_guid, low32, meta_fields, meta_head_bytes, meta_tail_bytes, meta_version, narrowed32, option_text,
    packed_payload, part_wire, parts_wire, payload_bytes, prereq_bytes, section_bytes, sha_of,
    size_of,
};
use vstd::prelude::*;
use vstd::utf8::{
    decode_utf8, encode_utf8, encode_utf8_decode_utf8, encode_utf8_valid_utf8, is_ascii_chars,
    is_ascii_chars_encode_utf8, };

verus! {

/// Whether `piece` stands in `bytes` at the position `at`.
#[verifier::opaque]
pub open spec fn holds(bytes: Seq<u8>, at: int, piece: Seq<u8>) -> bool {
    &&& 0 <= at
    &&& at + piece.len() <= bytes.len()
    &&& bytes.subrange(at, at + piece.len()) == piece
}

/// Two pieces stand one behind the other exactly if their concatenation
/// stands where the first one does.
pub proof fn lemma_holds_split(bytes: Seq<u8>, at: int, first: Seq<u8>, second: Seq<u8>)
    ensures
        holds(bytes, at, first + second) <==> (holds(bytes, at, first) && holds(
            bytes,
            at + first.len(),
            second,
        )),
{
    reveal(holds);
    let whole = first + second;
    if holds(bytes, at, whole) {
        assert(bytes.subrange(at, at + first.len()) =~= first) by {
            assert forall|i: int| 0 <= i < first.len() implies bytes[at + i] == first[i] by {
                assert(bytes.subrange(at, at + whole.len())[i] == whole[i]);
            }
        }
        assert(bytes.subrange(at + first.len(), at + first.len() + second.len()) =~= second) by {
            assert forall|i: int| 0 <= i < second.len() implies bytes[at + first.len() + i]
                == second[i] by {
                assert(bytes.subrange(at, at + whole.len())[first.len() + i] == whole[first.len()
                    + i]);
            }
        }
    }
    if holds(bytes, at, first) && holds(bytes, at + first.len(), second) {
        assert(bytes.subrange(at, at + whole.len()) =~= whole) by {
            assert forall|i: int| 0 <= i < whole.len() implies bytes[at + i] == whole[i] by {
                if i < first.len() {
                    assert(bytes.subrange(at, at + first.len())[i] == first[i]);
                } else {
                    assert(bytes.subrange(at + first.len(), at + first.len() + second.len())[i
                        - first.len()] == second[i - first.len()]);
                }
            }
        }
    }
}

/// There is room in a buffer for a piece that stands in it.
pub proof fn lemma_holds_room(bytes: Seq<u8>, at: int, piece: Seq<u8>)
    requires
        holds(bytes, at, piece),
    ensures
        has_room(bytes, at, piece.len() as int),
{
    reveal(holds);
}

/// A byte of a piece that stands in a buffer is the byte of the buffer at
/// its place.
pub proof fn lemma_holds_byte(bytes: Seq<u8>, at: int, piece: Seq<u8>, index: int)
    requires
        holds(bytes, at, piece),
        0 <= index < piece.len(),
    ensures
        bytes[at + index] == piece[index],
{
    reveal(holds);
    assert(bytes.subrange(at, at + piece.len())[index] == piece[index]);
}

/// A part of a piece that stands in a buffer stands there too.
pub proof fn lemma_holds_part(bytes: Seq<u8>, at: int, piece: Seq<u8>, from: int, to: int)
    requires
        holds(bytes, at, piece),
        0 <= from <= to <= piece.len(),
    ensures
        holds(bytes, at + from, piece.subrange(from, to)),
{
    reveal(holds);
    let part = piece.subrange(from, to);
    assert(bytes.subrange(at + from, at + to) =~= part) by {
        assert forall|i: int| 0 <= i < to - from implies bytes.subrange(at + from, at + to)[i]
            == #[trigger] part[i] by {
            lemma_holds_byte(bytes, at, piece, from + i);
        }
    }
}

/// A 32-bit number that was written is read back.
pub proof fn lemma_holds_u32(bytes: Seq<u8>, at: int, value: u32)
    requires
        holds(bytes, at, u32_bytes(value)),
    ensures
        has_room(bytes, at, 4),
        le_u32(bytes, at) == value,
{
    reveal(holds);
    let piece = u32_bytes(value);
    lemma_holds_byte(bytes, at, piece, 0);
    lemma_holds_byte(bytes, at, piece, 1);
    lemma_holds_byte(bytes, at, piece, 2);
    lemma_holds_byte(bytes, at, piece, 3);
}

/// A 64-bit number that was written is read back.
pub proof fn lemma_holds_u64(bytes: Seq<u8>, at: int, value: u64)
    requires
        holds(bytes, at, u64_bytes(value)),
    ensures
        has_room(bytes, at, 8),
        le_u64(bytes, at) == value,
{
    reveal(holds);
    let low = u32_bytes((value % 0x1_0000_0000) as u32);
    let high = u32_bytes((value / 0x1_0000_0000) as u32);
    lemma_holds_split(bytes, at, low, high);
    lemma_holds_u32(bytes, at, (value % 0x1_0000_0000) as u32);
    lemma_holds_u32(bytes, at + 4, (value / 0x1_0000_0000) as u32);
}

/// Whether a text is short enough for the length field of a string.
pub open spec fn short_text(text: Seq<char>) -> bool {
    encode_utf8(text).len() < 0x7fff_ffff
}

/// A text that is not empty has bytes.
pub proof fn lemma_text_has_bytes(text: Seq<char>)
    requires
        text.len() > 0,
    ensures
        encode_utf8(text).len() > 0,
{
    encode_utf8_decode_utf8(text);
    if encode_utf8(text).len() == 0 {
        assert(encode_utf8(text) =~= Seq::<u8>::empty());
        assert(decode_utf8(Seq::<u8>::empty()) =~= Seq::<char>::empty());
    }
}

/// A string that was written is read back: it lies inside the buffer,
/// takes the bytes that were written, and has the text that was written.
pub proof fn lemma_holds_fstring(bytes: Seq<u8>, at: int, text: Seq<char>)
    requires
        holds(bytes, at, fstring_bytes(text)),
        short_text(text),
    ensures
        fstring_fits(bytes, at),
        fstring_extent(bytes, at) == fstring_bytes(text).len(),
        text_at(bytes, at) == text,
        text.len() > 0 ==> fstring_text(bytes, at) == Some(text),
        text.len() == 0 ==> fstring_text(bytes, at) is None,
{
    reveal(holds);
    if text.len() == 0 {
        lemma_holds_u32(bytes, at, 0);
        assert(text =~= Seq::<char>::empty());
    } else {
        lemma_text_has_bytes(text);
        let body = encode_utf8(text);
        let length = ((body.len() + 1) % 0x1_0000_0000) as u32;
        assert(length == body.len() + 1);
        let head = u32_bytes(length);
        lemma_holds_split(bytes, at, head + body, seq![0u8]);
        lemma_holds_split(bytes, at, head, body);
        lemma_holds_u32(bytes, at, length);
        assert(fstring_length(bytes, at) == body.len() + 1);
        assert(bytes.subrange(at + 4, at + 4 + (body.len() + 1) - 1) =~= body);
        encode_utf8_valid_utf8(text);
        encode_utf8_decode_utf8(text);
    }
}

/// Whether every text of a sequence is short enough for a string.
pub open spec fn short_texts(texts: Seq<Seq<char>>) -> bool {
    forall|i: int| 0 <= i < texts.len() ==> short_text(#[trigger] texts[i])
}

/// Whether no text of a sequence is empty.
pub open spec fn no_empty_text(texts: Seq<Seq<char>>) -> bool {
    forall|i: int| 0 <= i < texts.len() ==> (#[trigger] texts[i]).len() > 0
}

/// Strings that were written one behind the other are read back.
pub proof fn lemma_holds_texts(bytes: Seq<u8>, at: int, texts: Seq<Seq<char>>, skip_absent: bool)
    requires
        holds(bytes, at, concat_map(texts, |t: Seq<char>| fstring_bytes(t))),
        short_texts(texts),
        skip_absent ==> no_empty_text(texts),
    ensures
        texts_at(bytes, at, texts.len(), skip_absent) == Some(
            (texts, at + concat_map(texts, |t: Seq<char>| fstring_bytes(t)).len()),
        ),
    decreases texts.len(),
{
    reveal(holds);
    let cell = |t: Seq<char>| fstring_bytes(t);
    if texts.len() == 0 {
        assert(texts =~= Seq::<Seq<char>>::empty());
    } else {
        let front = texts.drop_last();
        let last = texts.last();
        lemma_holds_split(bytes, at, concat_map(front, cell), cell(last));
        assert(short_texts(front)) by {
            assert forall|i: int| 0 <= i < front.len() implies short_text(#[trigger] front[i]) by {
                assert(front[i] == texts[i]);
            }
        }
        if skip_absent {
            assert(no_empty_text(front)) by {
                assert forall|i: int| 0 <= i < front.len() implies (#[trigger] front[i]).len()
                    > 0 by {
                    assert(front[i] == texts[i]);
                }
            }
            assert(texts[texts.len() - 1].len() > 0);
        }
        lemma_holds_texts(bytes, at, front, skip_absent);
        let next = at + concat_map(front, cell).len();
        assert(short_text(texts[texts.len() - 1]));
        lemma_holds_fstring(bytes, next, last);
        assert(front.push(last) =~= texts);
    }
}

/// A section that was written is entered at its start and ends where its
/// bytes end; its version and its fields stand behind its size.
pub proof fn lemma_holds_section(bytes: Seq<u8>, at: int, version: u8, fields: Seq<u8>)
    requires
        holds(bytes, at, section_bytes(version, fields)),
        fields.len() + 5 <= u32::MAX,
    ensures
        section_end(bytes, at) == Some(at + 5 + fields.len()),
        bytes[at + 4] == version,
        holds(bytes, at + 5, fields),
{
    reveal(holds);
    let size = u32_bytes(low32(fields.len() as int + 5));
    lemma_holds_split(bytes, at, size + seq![version], fields);
    lemma_holds_split(bytes, at, size, seq![version]);
    lemma_holds_u32(bytes, at, low32(fields.len() as int + 5));
    lemma_holds_byte(bytes, at + 4, seq![version], 0);
}

/// A column of cells of one width is as long as its cells together, and
/// each cell stands in it at the multiple of the width that its index
/// gives.
pub proof fn lemma_column<T>(items: Seq<T>, cell: spec_fn(T) -> Seq<u8>, width: nat)
    requires
        forall|i: int| 0 <= i < items.len() ==> (#[trigger] cell(items[i])).len() == width,
    ensures
        concat_map(items, cell).len() == width * items.len(),
        forall|i: int|
            0 <= i < items.len() ==> holds(
                concat_map(items, cell),
                width * i,
                #[trigger] cell(items[i]),
            ),
    decreases items.len(),
{
    reveal(holds);
    let column = concat_map(items, cell);
    if items.len() == 0 {
        assert(width * items.len() == 0) by (nonlinear_arith)
            requires
                items.len() == 0,
        ;
    } else {
        let front = items.drop_last();
        let last = items.last();
        assert forall|i: int| 0 <= i < front.len() implies (#[trigger] cell(front[i])).len()
            == width by {
            assert(front[i] == items[i]);
        }
        lemma_column(front, cell, width);
        let head = concat_map(front, cell);
        assert(width * items.len() == width * front.len() + width) by (nonlinear_arith)
            requires
                items.len() == front.len() + 1,
        ;
        assert(cell(items[items.len() - 1]).len() == width);
        assert forall|i: int| 0 <= i < items.len() implies holds(
            column,
            width * i,
            #[trigger] cell(items[i]),
        ) by {
            assert(0 <= width * i && width * i + width <= width * items.len())
                by (nonlinear_arith)
                requires
                    0 <= i < items.len(),
            ;
            if i < front.len() {
                assert(front[i] == items[i]);
                assert(holds(head, width * i, cell(items[i])));
                assert(width * i + width <= width * front.len()) by (nonlinear_arith)
                    requires
                        0 <= i < front.len(),
                ;
                assert(column.subrange(width * i, width * i + width) =~= head.subrange(
                    width * i,
                    width * i + width,
                ));
            } else {
                assert(column.subrange(width * i, width * i + width) =~= cell(last));
            }
        }
    }
}

/// A cell of a column that stands in a buffer stands there at the
/// multiple of the width that its index gives.
pub proof fn lemma_holds_cell<T>(
    bytes: Seq<u8>,
    at: int,
    items: Seq<T>,
    cell: spec_fn(T) -> Seq<u8>,
    width: nat,
    index: int,
)
    requires
        holds(bytes, at, concat_map(items, cell)),
        forall|i: int| 0 <= i < items.len() ==> (#[trigger] cell(items[i])).len() == width,
        0 <= index < items.len(),
    ensures
        concat_map(items, cell).len() == width * items.len(),
        holds(bytes, at + width * index, cell(items[index])),
{
    reveal(holds);
    lemma_column(items, cell, width);
    let column = concat_map(items, cell);
    assert(holds(column, width * index, cell(items[index])));
    assert(0 <= width * index && width * index + width <= width * items.len())
        by (nonlinear_arith)
        requires
            0 <= index < items.len(),
    ;
    lemma_holds_part(bytes, at, column, width * index, width * index + width);
}

/// The bytes of a text of lower-case hexadecimal digits are its
/// characters, and each is the digit of its value.
pub proof fn lemma_hex_bytes(text: Seq<char>, count: nat)
    requires
        is_hex_text(text, count),
    ensures
        encode_utf8(text).len() == count,
        forall|i: int|
            0 <= i < count ==> hex_value(#[trigger] encode_utf8(text)[i]) is Some && digit_char(
                hex_value(encode_utf8(text)[i]).unwrap(),
                false,
            ) == text[i],
{
    assert(is_ascii_chars(text));
    is_ascii_chars_encode_utf8(text);
    let bytes = encode_utf8(text);
    assert forall|i: int| 0 <= i < count implies hex_value(#[trigger] bytes[i]) is Some
        && digit_char(hex_value(bytes[i]).unwrap(), false) == text[i] by {
        assert(is_lower_hex(text[i]));
        assert(bytes[i] == text[i] as u8);
    }
}

/// The GUID that is read from the bytes that a lower-case GUID was
/// written as is that GUID.
pub proof fn lemma_holds_guid(bytes: Seq<u8>, at: int, guid: Seq<char>)
    requires
        holds(bytes, at, guid_wire(guid)),
        is_hex_text(guid, 32),
    ensures
        guid_text(bytes, at) == guid,
{
    reveal(holds);
    lemma_hex_bytes(guid, 32);
    let raw = encode_utf8(guid);
    assert(is_guid(guid));
    let wire = guid_wire(guid);
    let printed = guid_bytes(bytes, at);
    assert forall|k: int| 0 <= k < 16 implies #[trigger] printed[k] == (16 * hex_value(
        raw[2 * k],
    ).unwrap() + hex_value(raw[2 * k + 1]).unwrap()) as u8 by {
        let i = 4 * (k / 4) + 3 - k % 4;
        lemma_holds_byte(bytes, at, wire, i);
        assert(4 * (i / 4) + 3 - i % 4 == k);
    }
    let text = hex_text(printed, false);
    assert forall|i: int| 0 <= i < 32 implies #[trigger] text[i] == guid[i] by {
        let k = i / 2;
        let high = hex_value(raw[2 * k]).unwrap();
        let low = hex_value(raw[2 * k + 1]).unwrap();
        assert(0 <= high < 16 && 0 <= low < 16);
        assert(printed[k] == (16 * high + low) as u8);
        assert((16 * high + low) / 16 == high);
        assert((16 * high + low) % 16 == low);
        if i % 2 == 0 {
            assert(i == 2 * k);
        } else {
            assert(i == 2 * k + 1);
        }
    }
    assert(text =~= guid);
}

/// The hexadecimal text of the bytes that a digest in lower-case
/// hexadecimal text was written as is that text.
pub proof fn lemma_digest_text(text: Seq<char>)
    requires
        is_hex_text(text, 40),
    ensures
        digest_wire(Some(text)).len() == 20,
        hex_text(digest_wire(Some(text)), false) == text,
{
    lemma_hex_bytes(text, 40);
    let raw = encode_utf8(text);
    assert(is_digest(text)) by {
        assert forall|i: int| 0 <= i < 20 implies hex_pair(#[trigger] raw[2 * i], raw[2 * i + 1])
            is Some by {
            assert(hex_value(raw[2 * i]) is Some);
            assert(hex_value(raw[2 * i + 1]) is Some);
        }
    }
    let wire = digest_wire(Some(text));
    let back = hex_text(wire, false);
    assert forall|i: int| 0 <= i < 40 implies #[trigger] back[i] == text[i] by {
        let k = i / 2;
        assert(hex_value(raw[2 * k]) is Some);
        assert(hex_value(raw[2 * k + 1]) is Some);
        let high = hex_value(raw[2 * k]).unwrap();
        let low = hex_value(raw[2 * k + 1]).unwrap();
        assert(0 <= high < 16 && 0 <= low < 16);
        assert(hex_pair(raw[2 * k], raw[2 * k + 1]) == Some(16 * high + low));
        assert(wire[k] == (16 * high + low) as u8);
        assert((16 * high + low) / 16 == high);
        assert((16 * high + low) % 16 == low);
        if i % 2 == 0 {
            assert(i == 2 * k);
        } else {
            assert(i == 2 * k + 1);
        }
    }
    assert(back =~= text);
}

/// The row of the chunk table that a manifest is written with at the
/// given index.
pub open spec fn written_chunk(m: ManifestModel, index: int) -> ChunkRow {
    let guid = m.chunk_hashes[index].0;
    ChunkRow {
        guid,
        hash: capped(m.chunk_hashes[index].1, u64::MAX),
        sha_hash: digest_wire(sha_of(m, guid)),
        group_num: group_of(m, guid),
        window_size: narrowed32(size_of(m, guid), 0),
        file_size: capped(size_of(m, guid), 0x7fff_ffff_ffff_ffff) as i64,
    }
}

/// The chunk table that a manifest is written with.
pub open spec fn written_chunks(m: ManifestModel) -> Seq<ChunkRow> {
    Seq::new(m.chunk_hashes.len(), |i: int| written_chunk(m, i))
}

/// Whether the chunk section of a manifest fits the format: its size fits
/// in 32 bits and every GUID is thirty-two lower-case hexadecimal digits.
#[verifier::opaque]
pub open spec fn chunks_fit(m: ManifestModel) -> bool {
    &&& 57 * m.chunk_hashes.len() + 9 <= u32::MAX
    &&& forall|i: int|
        0 <= i < m.chunk_hashes.len() ==> is_hex_text((#[trigger] m.chunk_hashes[i]).0, 32)
}

/// A chunk section that fits the format has a size of 32 bits.
pub proof fn lemma_chunks_fit(m: ManifestModel)
    requires
        chunks_fit(m),
    ensures
        57 * m.chunk_hashes.len() + 9 <= u32::MAX,
{
    reveal(chunks_fit);
}

/// The chunk section takes 57 bytes for every chunk, and four for their
/// number.
pub proof fn lemma_chunk_fields_len(m: ManifestModel)
    ensures
        chunk_fields(m).len() == 4 + 57 * m.chunk_hashes.len(),
{
    reveal(chunk_fields);
    let rows = m.chunk_hashes;
    lemma_column(rows, |x: (Seq<char>, u128)| guid_wire(x.0), 16);
    lemma_column(rows, |x: (Seq<char>, u128)| u64_bytes(capped(x.1, u64::MAX)), 8);
    lemma_column(rows, |x: (Seq<char>, u128)| digest_wire(sha_of(m, x.0)), 20);
    lemma_column(rows, |x: (Seq<char>, u128)| seq![group_of(m, x.0)], 1);
    lemma_column(rows, |x: (Seq<char>, u128)| u32_bytes(narrowed32(size_of(m, x.0), 0)), 4);
    lemma_column(
        rows,
        |x: (Seq<char>, u128)| u64_bytes(capped(size_of(m, x.0), 0x7fff_ffff_ffff_ffff)),
        8,
    );
}

/// Whether the six columns of the chunk table of a manifest stand in a
/// buffer one behind the other, starting at `base`.
#[verifier::opaque]
pub open spec fn chunk_columns_hold(bytes: Seq<u8>, base: int, m: ManifestModel) -> bool {
    let rows = m.chunk_hashes;
    let n = rows.len() as int;
    &&& holds(bytes, base, concat_map(rows, |x: (Seq<char>, u128)| guid_wire(x.0)))
    &&& holds(
        bytes,
        base + 16 * n,
        concat_map(rows, |x: (Seq<char>, u128)| u64_bytes(capped(x.1, u64::MAX))),
    )
    &&& holds(
        bytes,
        base + 24 * n,
        concat_map(rows, |x: (Seq<char>, u128)| digest_wire(sha_of(m, x.0))),
    )
    &&& holds(
        bytes,
        base + 44 * n,
        concat_map(rows, |x: (Seq<char>, u128)| seq![group_of(m, x.0)]),
    )
    &&& holds(
        bytes,
        base + 45 * n,
        concat_map(rows, |x: (Seq<char>, u128)| u32_bytes(narrowed32(size_of(m, x.0), 0))),
    )
    &&& holds(
        bytes,
        base + 49 * n,
        concat_map(
            rows,
            |x: (Seq<char>, u128)| u64_bytes(capped(size_of(m, x.0), 0x7fff_ffff_ffff_ffff)),
        ),
    )
}

/// Where the fields of the chunk section stand in a buffer, the number of
/// chunks stands first and the columns behind it.
pub proof fn lemma_chunk_columns(bytes: Seq<u8>, at: int, m: ManifestModel)
    requires
        holds(bytes, at, chunk_fields(m)),
    ensures
        holds(bytes, at, u32_bytes(low32(m.chunk_hashes.len() as int))),
        chunk_columns_hold(bytes, at + 4, m),
{
    reveal(chunk_fields);
    reveal(holds);
    reveal(chunk_columns_hold);
    let rows = m.chunk_hashes;
    let n = rows.len() as int;
    let count = u32_bytes(low32(n));
    let guids = concat_map(rows, |x: (Seq<char>, u128)| guid_wire(x.0));
    let hashes = concat_map(rows, |x: (Seq<char>, u128)| u64_bytes(capped(x.1, u64::MAX)));
    let shas = concat_map(rows, |x: (Seq<char>, u128)| digest_wire(sha_of(m, x.0)));
    let groups = concat_map(rows, |x: (Seq<char>, u128)| seq![group_of(m, x.0)]);
    let windows = concat_map(
        rows,
        |x: (Seq<char>, u128)| u32_bytes(narrowed32(size_of(m, x.0), 0)),
    );
    let sizes = concat_map(
        rows,
        |x: (Seq<char>, u128)| u64_bytes(capped(size_of(m, x.0), 0x7fff_ffff_ffff_ffff)),
    );
    lemma_column(rows, |x: (Seq<char>, u128)| guid_wire(x.0), 16);
    lemma_column(rows, |x: (Seq<char>, u128)| u64_bytes(capped(x.1, u64::MAX)), 8);
    lemma_column(rows, |x: (Seq<char>, u128)| digest_wire(sha_of(m, x.0)), 20);
    lemma_column(rows, |x: (Seq<char>, u128)| seq![group_of(m, x.0)], 1);
    lemma_column(rows, |x: (Seq<char>, u128)| u32_bytes(narrowed32(size_of(m, x.0), 0)), 4);
    assert(chunk_fields(m) == count + guids + hashes + shas + groups + windows + sizes);
    lemma_holds_split(bytes, at, count + guids + hashes + shas + groups + windows, sizes);
    lemma_holds_split(bytes, at, count + guids + hashes + shas + groups, windows);
    lemma_holds_split(bytes, at, count + guids + hashes + shas, groups);
    lemma_holds_split(bytes, at, count + guids + hashes, shas);
    lemma_holds_split(bytes, at, count + guids, hashes);
    lemma_holds_split(bytes, at, count, guids);
}

/// A row of the chunk table is read back from its columns.
pub proof fn lemma_chunk_row(bytes: Seq<u8>, base: int, m: ManifestModel, index: int)
    requires
        chunk_columns_hold(bytes, base, m),
        chunks_fit(m),
        0 <= index < m.chunk_hashes.len(),
    ensures
        chunk_row(bytes, base, m.chunk_hashes.len() as int, index) == written_chunk(m, index),
{
    reveal(holds);
    reveal(chunk_columns_hold);
    reveal(chunks_fit);
    let rows = m.chunk_hashes;
    let n = rows.len() as int;
    let guid = rows[index].0;
    lemma_holds_cell(bytes, base, rows, |x: (Seq<char>, u128)| guid_wire(x.0), 16, index);
    lemma_holds_guid(bytes, base + 16 * index, guid);
    lemma_holds_cell(
        bytes,
        base + 16 * n,
        rows,
        |x: (Seq<char>, u128)| u64_bytes(capped(x.1, u64::MAX)),
        8,
        index,
    );
    lemma_holds_u64(bytes, base + 16 * n + 8 * index, capped(rows[index].1, u64::MAX));
    lemma_holds_cell(
        bytes,
        base + 24 * n,
        rows,
        |x: (Seq<char>, u128)| digest_wire(sha_of(m, x.0)),
        20,
        index,
    );
    lemma_holds_cell(
        bytes,
        base + 44 * n,
        rows,
        |x: (Seq<char>, u128)| seq![group_of(m, x.0)],
        1,
        index,
    );
    lemma_holds_byte(bytes, base + 44 * n + index, seq![group_of(m, guid)], 0);
    lemma_holds_cell(
        bytes,
        base + 45 * n,
        rows,
        |x: (Seq<char>, u128)| u32_bytes(narrowed32(size_of(m, x.0), 0)),
        4,
        index,
    );
    lemma_holds_u32(bytes, base + 45 * n + 4 * index, narrowed32(size_of(m, guid), 0));
    lemma_holds_cell(
        bytes,
        base + 49 * n,
        rows,
        |x: (Seq<char>, u128)| u64_bytes(capped(size_of(m, x.0), 0x7fff_ffff_ffff_ffff)),
        8,
        index,
    );
    lemma_holds_u64(
        bytes,
        base + 49 * n + 8 * index,
        capped(size_of(m, guid), 0x7fff_ffff_ffff_ffff),
    );
}

/// The chunk section that a manifest is written with is read back row by
/// row.
#[verifier::rlimit(60)]
#[verifier::spinoff_prover]
pub proof fn lemma_holds_chunks(bytes: Seq<u8>, at: int, m: ManifestModel)
    requires
        holds(bytes, at, section_bytes(0, chunk_fields(m))),
        chunks_fit(m),
    ensures
        chunks_at(bytes, at) == Some((written_chunks(m), at + 9 + 57 * m.chunk_hashes.len())),
{
    let n = m.chunk_hashes.len() as int;
    lemma_chunk_fields_len(m);
    lemma_chunks_fit(m);
    lemma_holds_section(bytes, at, 0, chunk_fields(m));
    lemma_holds_room(bytes, at + 5, chunk_fields(m));
    lemma_chunk_columns(bytes, at + 5, m);
    lemma_holds_u32(bytes, at + 5, low32(n));
    let base = at + 9;
    assert(section_end(bytes, at) == Some(at + 9 + 57 * n));
    assert(le_u32(bytes, at + 5) == n);
    assert(has_room(bytes, at + 5, 4));
    assert(has_room(bytes, base, 57 * n));
    let read = Seq::new(n as nat, |i: int| chunk_row(bytes, base, n, i));
    assert forall|i: int| 0 <= i < n implies #[trigger] read[i] == written_chunk(m, i) by {
        lemma_chunk_row(bytes, base, m, i);
    }
    assert(read =~= written_chunks(m));
}

/// The cells of a column of changed items are the cells of the items
/// under the cell that changes first.
pub proof fn lemma_concat_mapped<T, U>(
    items: Seq<T>,
    change: spec_fn(T) -> U,
    cell: spec_fn(U) -> Seq<u8>,
    both: spec_fn(T) -> Seq<u8>,
)
    requires
        forall|x: T| #[trigger] both(x) == cell(change(x)),
    ensures
        concat_map(items, both) == concat_map(items.map_values(change), cell),
    decreases items.len(),
{
    if items.len() > 0 {
        lemma_concat_mapped(items.drop_last(), change, cell, both);
        assert(items.map_values(change).drop_last() =~= items.drop_last().map_values(change));
    }
}

/// The cells of items and one more are the cells of the items and the
/// cell of the one.
pub proof fn lemma_concat_push<T>(items: Seq<T>, cell: spec_fn(T) -> Seq<u8>, item: T)
    ensures
        concat_map(items.push(item), cell) == concat_map(items, cell) + cell(item),
{
    assert(items.push(item).drop_last() =~= items);
}

/// Whether the custom fields of a manifest fit the format: there are
/// some, maybe none, every key and value is short enough for a string, and
/// the size of the section fits in 32 bits.
#[verifier::opaque]
pub open spec fn custom_fits(m: ManifestModel) -> bool {
    &&& m.custom_fields is Some
    &&& custom_bytes(m).len() + 5 <= u32::MAX
    &&& m.custom_fields.unwrap().len() <= u32::MAX
    &&& forall|i: int|
        0 <= i < m.custom_fields.unwrap().len() ==> short_text(
            (#[trigger] m.custom_fields.unwrap()[i]).0,
        ) && short_text(m.custom_fields.unwrap()[i].1)
}

/// What the fitting of the custom fields says.
pub proof fn lemma_custom_fits(m: ManifestModel)
    requires
        custom_fits(m),
    ensures
        m.custom_fields is Some,
        custom_bytes(m).len() + 5 <= u32::MAX,
        m.custom_fields.unwrap().len() <= u32::MAX,
        forall|i: int|
            0 <= i < m.custom_fields.unwrap().len() ==> short_text(
                (#[trigger] m.custom_fields.unwrap()[i]).0,
            ),
        forall|i: int|
            0 <= i < m.custom_fields.unwrap().len() ==> short_text(
                (#[trigger] m.custom_fields.unwrap()[i]).1,
            ),
{
    reveal(custom_fits);
}

/// The keys of pairs of texts that were written as a column of strings
/// are read back.
pub proof fn lemma_holds_keys(bytes: Seq<u8>, at: int, rows: Seq<(Seq<char>, Seq<char>)>)
    requires
        holds(bytes, at, concat_map(rows, |x: (Seq<char>, Seq<char>)| fstring_bytes(x.0))),
        forall|i: int| 0 <= i < rows.len() ==> short_text((#[trigger] rows[i]).0),
    ensures
        texts_at(bytes, at, rows.len(), false) == Some(
            (
                rows.map_values(|x: (Seq<char>, Seq<char>)| x.0),
                at + concat_map(rows, |x: (Seq<char>, Seq<char>)| fstring_bytes(x.0)).len(),
            ),
        ),
{
    reveal(holds);
    let keys = rows.map_values(|x: (Seq<char>, Seq<char>)| x.0);
    lemma_concat_mapped(
        rows,
        |x: (Seq<char>, Seq<char>)| x.0,
        |t: Seq<char>| fstring_bytes(t),
        |x: (Seq<char>, Seq<char>)| fstring_bytes(x.0),
    );
    assert(short_texts(keys)) by {
        assert forall|i: int| 0 <= i < keys.len() implies short_text(#[trigger] keys[i]) by {
            assert(keys[i] == rows[i].0);
        }
    }
    lemma_holds_texts(bytes, at, keys, false);
}

/// The values of pairs of texts that were written as a column of strings
/// are read back.
pub proof fn lemma_holds_values(bytes: Seq<u8>, at: int, rows: Seq<(Seq<char>, Seq<char>)>)
    requires
        holds(bytes, at, concat_map(rows, |x: (Seq<char>, Seq<char>)| fstring_bytes(x.1))),
        forall|i: int| 0 <= i < rows.len() ==> short_text((#[trigger] rows[i]).1),
    ensures
        texts_at(bytes, at, rows.len(), false) == Some(
            (
                rows.map_values(|x: (Seq<char>, Seq<char>)| x.1),
                at + concat_map(rows, |x: (Seq<char>, Seq<char>)| fstring_bytes(x.1)).len(),
            ),
        ),
{
    reveal(holds);
    let values = rows.map_values(|x: (Seq<char>, Seq<char>)| x.1);
    lemma_concat_mapped(
        rows,
        |x: (Seq<char>, Seq<char>)| x.1,
        |t: Seq<char>| fstring_bytes(t),
        |x: (Seq<char>, Seq<char>)| fstring_bytes(x.1),
    );
    assert(short_texts(values)) by {
        assert forall|i: int| 0 <= i < values.len() implies short_text(#[trigger] values[i]) by {
            assert(values[i] == rows[i].1);
        }
    }
    lemma_holds_texts(bytes, at, values, false);
}

/// The custom field section that a manifest is written with is read back:
/// its keys and its values, in their order.
#[verifier::rlimit(60)]
#[verifier::spinoff_prover]
pub proof fn lemma_holds_custom(bytes: Seq<u8>, at: int, m: ManifestModel)
    requires
        holds(bytes, at, section_bytes(0, custom_bytes(m))),
        custom_fits(m),
    ensures
        custom_at(bytes, at) == Some(
            (
                m.custom_fields.unwrap().map_values(|x: (Seq<char>, Seq<char>)| x.0),
                m.custom_fields.unwrap().map_values(|x: (Seq<char>, Seq<char>)| x.1),
                at + 5 + custom_bytes(m).len(),
            ),
        ),
{
    reveal(custom_bytes);
    lemma_custom_fits(m);
    let rows = m.custom_fields.unwrap();
    let n = rows.len() as int;
    let key_column = concat_map(rows, |x: (Seq<char>, Seq<char>)| fstring_bytes(x.0));
    let value_column = concat_map(rows, |x: (Seq<char>, Seq<char>)| fstring_bytes(x.1));
    let count = u32_bytes(low32(n));
    assert(custom_bytes(m) == count + key_column + value_column);
    lemma_holds_section(bytes, at, 0, custom_bytes(m));
    lemma_holds_split(bytes, at + 5, count + key_column, value_column);
    lemma_holds_split(bytes, at + 5, count, key_column);
    lemma_holds_u32(bytes, at + 5, low32(n));
    assert(le_u32(bytes, at + 5) == n);
    lemma_holds_keys(bytes, at + 9, rows);
    lemma_holds_values(bytes, at + 9 + key_column.len(), rows);
    assert(section_end(bytes, at) == Some(at + 5 + custom_bytes(m).len()));
    assert(has_room(bytes, at + 5, 4));
}

/// Whether the metadata of a manifest fits the format: feature level and
/// application id fit in 32 bits; every text is short enough for a string;
/// where there are prerequisite ids, there is at least one and none is
/// empty; the uninstall action has a path and arguments or neither; and the
/// size of the section fits in 32 bits.
#[verifier::opaque]
pub open spec fn meta_fits(m: ManifestModel) -> bool {
    &&& m.manifest_file_version <= u32::MAX
    &&& m.app_id <= u32::MAX
    &&& short_text(m.app_name_string)
    &&& short_text(m.build_version_string)
    &&& short_text(m.launch_exe_string)
    &&& short_text(m.launch_command)
    &&& short_text(m.prereq_name)
    &&& short_text(m.prereq_path)
    &&& short_text(m.prereq_args)
    &&& short_text(option_text(m.uninstall_action_path))
    &&& short_text(option_text(m.uninstall_action_args))
    &&& (m.uninstall_action_path is Some <==> m.uninstall_action_args is Some)
    &&& ids_fit(m.prereq_ids)
    &&& meta_fields(m).len() + 5 <= u32::MAX
}

/// The metadata that a manifest is written with.
pub open spec fn written_meta(m: ManifestModel) -> MetaRow {
    MetaRow {
        feature_level: m.manifest_file_version as u32,
        is_file_data: m.b_is_file_data,
        app_id: m.app_id as u32,
        app_name: m.app_name_string,
        build_version: m.build_version_string,
        launch_exe: m.launch_exe_string,
        launch_command: m.launch_command,
        prereq_ids: ids_or_none(m.prereq_ids),
        prereq_name: m.prereq_name,
        prereq_path: m.prereq_path,
        prereq_args: m.prereq_args,
        uninstall_action_path: m.uninstall_action_path,
        uninstall_action_args: m.uninstall_action_args,
    }
}

/// The four strings at the start of the metadata are read back.
pub proof fn lemma_holds_meta_head(bytes: Seq<u8>, at: int, m: ManifestModel)
    requires
        holds(bytes, at, meta_head_bytes(m)),
        meta_fits(m),
    ensures
        has_room(bytes, at, 9),
        le_u32(bytes, at) == m.manifest_file_version,
        bytes[at + 4] != 0 <==> m.b_is_file_data,
        le_u32(bytes, at + 5) == m.app_id,
        texts_at(bytes, at + 9, 4, false) == Some(
            (
                seq![
                    m.app_name_string,
                    m.build_version_string,
                    m.launch_exe_string,
                    m.launch_command,
                ],
                at + meta_head_bytes(m).len(),
            ),
        ),
{
    reveal(holds);
    reveal(meta_fits);
    let level = u32_bytes(narrowed32(m.manifest_file_version, 18));
    let flag = seq![
        if m.b_is_file_data {
            1u8
        } else {
            0u8
        },
    ];
    let app = u32_bytes(narrowed32(m.app_id, 0));
    let cell = |t: Seq<char>| fstring_bytes(t);
    let texts = seq![
        m.app_name_string,
        m.build_version_string,
        m.launch_exe_string,
        m.launch_command,
    ];
    let empty = Seq::<Seq<char>>::empty();
    lemma_concat_push(empty, cell, m.app_name_string);
    lemma_concat_push(empty.push(m.app_name_string), cell, m.build_version_string);
    lemma_concat_push(
        empty.push(m.app_name_string).push(m.build_version_string),
        cell,
        m.launch_exe_string,
    );
    lemma_concat_push(
        empty.push(m.app_name_string).push(m.build_version_string).push(m.launch_exe_string),
        cell,
        m.launch_command,
    );
    assert(texts =~= empty.push(m.app_name_string).push(m.build_version_string).push(
        m.launch_exe_string,
    ).push(m.launch_command));
    let column = concat_map(texts, cell);
    assert(column =~= fstring_bytes(m.app_name_string) + fstring_bytes(m.build_version_string)
        + fstring_bytes(m.launch_exe_string) + fstring_bytes(m.launch_command));
    assert(meta_head_bytes(m) =~= level + flag + app + column);
    lemma_holds_split(bytes, at, level + flag + app, column);
    lemma_holds_split(bytes, at, level + flag, app);
    lemma_holds_split(bytes, at, level, flag);
    lemma_holds_u32(bytes, at, narrowed32(m.manifest_file_version, 18));
    lemma_holds_byte(bytes, at + 4, flag, 0);
    lemma_holds_u32(bytes, at + 5, narrowed32(m.app_id, 0));
    lemma_holds_texts(bytes, at + 9, texts, false);
}

/// Whether prerequisite ids fit the format: where there are any, there is
/// at least one, none is empty and each is short enough for a string.
pub open spec fn ids_fit(ids: Option<Seq<Seq<char>>>) -> bool {
    match ids {
        Some(texts) => 0 < texts.len() <= u32::MAX && short_texts(texts) && no_empty_text(texts),
        None => true,
    }
}

/// The prerequisite ids that a manifest is read with, none being an empty
/// list.
pub open spec fn ids_or_none(ids: Option<Seq<Seq<char>>>) -> Seq<Seq<char>> {
    match ids {
        Some(texts) => texts,
        None => Seq::empty(),
    }
}

/// The prerequisite ids that were written are read back.
pub proof fn lemma_holds_ids(bytes: Seq<u8>, at: int, ids: Option<Seq<Seq<char>>>)
    requires
        holds(bytes, at, ids_bytes(ids)),
        ids_fit(ids),
    ensures
        has_room(bytes, at, 4),
        le_u32(bytes, at) == ids_or_none(ids).len(),
        texts_at(bytes, at + 4, ids_or_none(ids).len(), true) == Some(
            (ids_or_none(ids), at + ids_bytes(ids).len()),
        ),
{
    reveal(holds);
    match ids {
        Some(texts) => {
            let column = concat_map(texts, |t: Seq<char>| fstring_bytes(t));
            let count = u32_bytes(low32(texts.len() as int));
            assert(ids_bytes(ids) == count + column);
            lemma_holds_split(bytes, at, count, column);
            lemma_holds_u32(bytes, at, low32(texts.len() as int));
            lemma_holds_texts(bytes, at + 4, texts, true);
        },
        None => {
            lemma_holds_u32(bytes, at, 0);
            assert(ids_bytes(ids).len() == 4);
        },
    }
}

/// The three strings of the prerequisite installer are read back.
pub proof fn lemma_holds_prereq(bytes: Seq<u8>, at: int, m: ManifestModel)
    requires
        holds(bytes, at, prereq_bytes(m)),
        meta_fits(m),
    ensures
        texts_at(bytes, at, 3, false) == Some(
            (seq![m.prereq_name, m.prereq_path, m.prereq_args], at + prereq_bytes(m).len()),
        ),
{
    reveal(holds);
    reveal(meta_fits);
    let cell = |t: Seq<char>| fstring_bytes(t);
    let texts = seq![m.prereq_name, m.prereq_path, m.prereq_args];
    let empty = Seq::<Seq<char>>::empty();
    lemma_concat_push(empty, cell, m.prereq_name);
    lemma_concat_push(empty.push(m.prereq_name), cell, m.prereq_path);
    lemma_concat_push(empty.push(m.prereq_name).push(m.prereq_path), cell, m.prereq_args);
    assert(texts =~= empty.push(m.prereq_name).push(m.prereq_path).push(m.prereq_args));
    assert(concat_map(texts, cell) =~= prereq_bytes(m));
    lemma_holds_texts(bytes, at, texts, false);
}

/// The strings that the version adds to the metadata.
pub open spec fn written_tail(m: ManifestModel) -> Seq<Seq<char>> {
    if meta_version(m) >= 2 {
        seq![
            m.build_version_string,
            option_text(m.uninstall_action_path),
            option_text(m.uninstall_action_args),
        ]
    } else if meta_version(m) >= 1 {
        seq![m.build_version_string]
    } else {
        Seq::empty()
    }
}

/// The strings that the version adds to the metadata are read back.
pub proof fn lemma_holds_meta_tail(bytes: Seq<u8>, at: int, m: ManifestModel)
    requires
        holds(bytes, at, meta_tail_bytes(m)),
        meta_fits(m),
    ensures
        texts_at(bytes, at, meta_tail(meta_version(m)), false) == Some(
            (written_tail(m), at + meta_tail_bytes(m).len()),
        ),
        written_tail(m).len() == meta_tail(meta_version(m)),
{
    reveal(holds);
    reveal(meta_fits);
    let cell = |t: Seq<char>| fstring_bytes(t);
    let texts = written_tail(m);
    let empty = Seq::<Seq<char>>::empty();
    if meta_version(m) >= 2 {
        let path = option_text(m.uninstall_action_path);
        let args = option_text(m.uninstall_action_args);
        lemma_concat_push(empty, cell, m.build_version_string);
        lemma_concat_push(empty.push(m.build_version_string), cell, path);
        lemma_concat_push(empty.push(m.build_version_string).push(path), cell, args);
        assert(texts =~= empty.push(m.build_version_string).push(path).push(args));
        assert(concat_map(texts, cell) =~= meta_tail_bytes(m));
    } else if meta_version(m) >= 1 {
        lemma_concat_push(empty, cell, m.build_version_string);
        assert(texts =~= empty.push(m.build_version_string));
        assert(concat_map(texts, cell) =~= meta_tail_bytes(m));
    } else {
        assert(texts =~= empty);
        assert(concat_map(texts, cell) =~= meta_tail_bytes(m));
    }
    lemma_holds_texts(bytes, at, texts, false);
}

/// What the fitting of the metadata says of its prerequisite ids, its
/// uninstall action and its size.
pub proof fn lemma_meta_fits(m: ManifestModel)
    requires
        meta_fits(m),
    ensures
        ids_fit(m.prereq_ids),
        meta_fields(m).len() + 5 <= u32::MAX,
        m.uninstall_action_path is Some <==> m.uninstall_action_args is Some,
        m.manifest_file_version <= u32::MAX,
        m.app_id <= u32::MAX,
{
    reveal(meta_fits);
}

/// The metadata that is read from strings that were read in their four
/// runs.
pub open spec fn meta_of_runs(
    bytes: Seq<u8>,
    at: int,
    head: Seq<Seq<char>>,
    ids: Seq<Seq<char>>,
    prereq: Seq<Seq<char>>,
    tail: Seq<Seq<char>>,
) -> MetaRow {
    let version = bytes[at + 4];
    MetaRow {
        feature_level: le_u32(bytes, at + 5) as u32,
        is_file_data: bytes[at + 9] != 0,
        app_id: le_u32(bytes, at + 10) as u32,
        app_name: head[0],
        build_version: if version >= 1 {
            tail[0]
        } else {
            head[1]
        },
        launch_exe: head[2],
        launch_command: head[3],
        prereq_ids: ids,
        prereq_name: prereq[0],
        prereq_path: prereq[1],
        prereq_args: prereq[2],
        uninstall_action_path: if version >= 2 {
            Some(tail[1])
        } else {
            None
        },
        uninstall_action_args: if version >= 2 {
            Some(tail[2])
        } else {
            None
        },
    }
}

/// A metadata section whose four runs of strings are read one behind the
/// other is read as the metadata of those runs.
pub proof fn lemma_meta_runs(
    bytes: Seq<u8>,
    at: int,
    end: int,
    head: Seq<Seq<char>>,
    next1: int,
    ids: Seq<Seq<char>>,
    next2: int,
    prereq: Seq<Seq<char>>,
    next3: int,
    tail: Seq<Seq<char>>,
    next4: int,
)
    requires
        section_end(bytes, at) == Some(end),
        has_room(bytes, at + 5, 9),
        texts_at(bytes, at + 14, 4, false) == Some((head, next1)),
        has_room(bytes, next1, 4),
        texts_at(bytes, next1 + 4, le_u32(bytes, next1) as nat, true) == Some((ids, next2)),
        texts_at(bytes, next2, 3, false) == Some((prereq, next3)),
        texts_at(bytes, next3, meta_tail(bytes[at + 4]), false) == Some((tail, next4)),
    ensures
        meta_at(bytes, at) == Some((meta_of_runs(bytes, at, head, ids, prereq, tail), end)),
{
}

/// The metadata of the runs of strings that a manifest is written with is
/// the metadata that it is written with.
pub proof fn lemma_runs_are_written(bytes: Seq<u8>, at: int, m: ManifestModel)
    requires
        bytes[at + 4] == meta_version(m),
        le_u32(bytes, at + 5) == m.manifest_file_version,
        bytes[at + 9] != 0 <==> m.b_is_file_data,
        le_u32(bytes, at + 10) == m.app_id,
        m.uninstall_action_path is Some <==> m.uninstall_action_args is Some,
    ensures
        meta_of_runs(
            bytes,
            at,
            seq![
                m.app_name_string,
                m.build_version_string,
                m.launch_exe_string,
                m.launch_command,
            ],
            ids_or_none(m.prereq_ids),
            seq![m.prereq_name, m.prereq_path, m.prereq_args],
            written_tail(m),
        ) == written_meta(m),
{
    if meta_version(m) == 0 {
        assert(m.build_version_string =~= Seq::<char>::empty());
    }
}

/// The metadata section that a manifest is written with is read back.
#[verifier::rlimit(60)]
#[verifier::spinoff_prover]
pub proof fn lemma_holds_meta(bytes: Seq<u8>, at: int, m: ManifestModel)
    requires
        holds(bytes, at, section_bytes(meta_version(m), meta_fields(m))),
        meta_fits(m),
    ensures
        meta_at(bytes, at) == Some((written_meta(m), at + 5 + meta_fields(m).len())),
{
    reveal(meta_fields);
    let head = meta_head_bytes(m);
    let ids = ids_bytes(m.prereq_ids);
    let prereq = prereq_bytes(m);
    let tail = meta_tail_bytes(m);
    lemma_meta_fits(m);
    lemma_holds_section(bytes, at, meta_version(m), meta_fields(m));
    assert(meta_fields(m) == head + ids + prereq + tail);
    lemma_holds_split(bytes, at + 5, head + ids + prereq, tail);
    lemma_holds_split(bytes, at + 5, head + ids, prereq);
    lemma_holds_split(bytes, at + 5, head, ids);
    lemma_holds_meta_head(bytes, at + 5, m);
    let next1 = at + 5 + head.len();
    lemma_holds_ids(bytes, next1, m.prereq_ids);
    let next2 = next1 + ids.len();
    lemma_holds_prereq(bytes, next2, m);
    let next3 = next2 + prereq.len();
    lemma_holds_meta_tail(bytes, next3, m);
    let next4 = next3 + tail.len();
    lemma_meta_runs(
        bytes,
        at,
        at + 5 + meta_fields(m).len(),
        seq![
            m.app_name_string,
            m.build_version_string,
            m.launch_exe_string,
            m.launch_command,
        ],
        next1,
        ids_or_none(m.prereq_ids),
        next2,
        seq![m.prereq_name, m.prereq_path, m.prereq_args],
        next3,
        written_tail(m),
        next4,
    );
    lemma_runs_are_written(bytes, at, m);
}

/// Whether a chunk part fits the format: its GUID is thirty-two
/// lower-case hexadecimal digits, its offset and size fit in 32 bits, and
/// it has no address.
pub open spec fn part_fits(part: PartModel) -> bool {
    &&& is_hex_text(part.guid, 32)
    &&& part.offset <= u32::MAX
    &&& part.size <= u32::MAX
    &&& part.link is None
}

/// Whether every chunk part of a sequence fits the format.
pub open spec fn parts_fit(parts: Seq<PartModel>) -> bool {
    forall|i: int| 0 <= i < parts.len() ==> part_fits(#[trigger] parts[i])
}

/// A chunk part that was written takes 28 bytes and is read back.
pub proof fn lemma_holds_part_wire(bytes: Seq<u8>, at: int, part: PartModel)
    requires
        holds(bytes, at, part_wire(part)),
        part_fits(part),
    ensures
        part_wire(part).len() == 28,
        has_room(bytes, at, 28),
        le_u32(bytes, at) == 28,
        guid_text(bytes, at + 4) == part.guid,
        le_u32(bytes, at + 20) == part.offset,
        le_u32(bytes, at + 24) == part.size,
{
    let own = u32_bytes(28);
    let guid = guid_wire(part.guid);
    let offset = u32_bytes(narrowed32(part.offset, 0));
    let size = u32_bytes(narrowed32(part.size, 0));
    assert(part_wire(part) == own + guid + offset + size);
    lemma_holds_room(bytes, at, part_wire(part));
    lemma_holds_split(bytes, at, own + guid + offset, size);
    lemma_holds_split(bytes, at, own + guid, offset);
    lemma_holds_split(bytes, at, own, guid);
    lemma_holds_u32(bytes, at, 28);
    lemma_holds_guid(bytes, at + 4, part.guid);
    lemma_holds_u32(bytes, at + 20, narrowed32(part.offset, 0));
    lemma_holds_u32(bytes, at + 24, narrowed32(part.size, 0));
}

/// Chunk parts that were written one behind the other are read back, but
/// for where each starts in the file, which is worked out anew.
pub proof fn lemma_holds_parts(bytes: Seq<u8>, at: int, parts: Seq<PartModel>)
    requires
        holds(bytes, at, concat_map(parts, |p: PartModel| part_wire(p))),
        parts_fit(parts),
    ensures
        concat_map(parts, |p: PartModel| part_wire(p)).len() == 28 * parts.len(),
        parts_at(bytes, at, parts.len()) is Some,
        parts_at(bytes, at, parts.len()).unwrap().1 == at + 28 * parts.len(),
        parts_at(bytes, at, parts.len()).unwrap().0.map_values(|p: PartRow| part_of_row(p))
            == parts,
    decreases parts.len(),
{
    let cell = |p: PartModel| part_wire(p);
    if parts.len() == 0 {
        assert(parts_at(bytes, at, 0).unwrap().0.map_values(|p: PartRow| part_of_row(p)) =~= parts);
    } else {
        let front = parts.drop_last();
        let last = parts.last();
        assert(parts_fit(front)) by {
            assert forall|i: int| 0 <= i < front.len() implies part_fits(#[trigger] front[i]) by {
                assert(front[i] == parts[i]);
            }
        }
        assert(part_fits(parts[parts.len() - 1]));
        lemma_holds_split(bytes, at, concat_map(front, cell), cell(last));
        lemma_holds_parts(bytes, at, front);
        let next = at + 28 * front.len();
        lemma_holds_part_wire(bytes, next, last);
        let earlier = parts_at(bytes, at, front.len()).unwrap().0;
        let row = PartRow {
            guid: guid_text(bytes, next + 4),
            offset: le_u32(bytes, next + 20) as u128,
            size: le_u32(bytes, next + 24) as u128,
            file_offset: rows_size(earlier) as u128,
        };
        assert(parts_at(bytes, at, parts.len()) == Some((earlier.push(row), next + 28)));
        assert(part_of_row(row) == last);
        assert(earlier.push(row).map_values(|p: PartRow| part_of_row(p)) =~= earlier.map_values(
            |p: PartRow| part_of_row(p),
        ).push(last));
        assert(front.push(last) =~= parts);
    }
}

/// Whether a file fits the format: its name is short enough for a string,
/// its digest is forty lower-case hexadecimal digits, and it has at most
/// 2 to the power of 32 less one parts, which all fit.
pub open spec fn file_fits(file: FileModel) -> bool {
    &&& short_text(file.filename)
    &&& is_hex_text(file.file_hash, 40)
    &&& file.parts.len() <= u32::MAX
    &&& parts_fit(file.parts)
}

/// Whether every file of a sequence fits the format.
pub open spec fn files_fit(files: Seq<FileModel>) -> bool {
    forall|i: int| 0 <= i < files.len() ==> file_fits(#[trigger] files[i])
}

/// Whether lists of stored parts are the parts of files, one list for each
/// file.
pub open spec fn lists_match(lists: Seq<Seq<PartRow>>, files: Seq<FileModel>) -> bool {
    &&& lists.len() == files.len()
    &&& forall|i: int|
        0 <= i < files.len() ==> (#[trigger] lists[i]).map_values(|p: PartRow| part_of_row(p))
            == files[i].parts
}

/// The chunk parts of files that were written one file behind the other
/// are read back.
#[verifier::rlimit(60)]
#[verifier::spinoff_prover]
pub proof fn lemma_holds_part_lists(bytes: Seq<u8>, at: int, files: Seq<FileModel>)
    requires
        holds(bytes, at, concat_map(files, |f: FileModel| parts_wire(f))),
        files_fit(files),
    ensures
        part_lists_at(bytes, at, files.len()) is Some,
        part_lists_at(bytes, at, files.len()).unwrap().1 == at + concat_map(
            files,
            |f: FileModel| parts_wire(f),
        ).len(),
        lists_match(part_lists_at(bytes, at, files.len()).unwrap().0, files),
    decreases files.len(),
{
    let cell = |f: FileModel| parts_wire(f);
    if files.len() > 0 {
        let front = files.drop_last();
        let last = files.last();
        assert(files_fit(front)) by {
            assert forall|i: int| 0 <= i < front.len() implies file_fits(#[trigger] front[i]) by {
                assert(front[i] == files[i]);
            }
        }
        assert(file_fits(files[files.len() - 1]));
        lemma_holds_split(bytes, at, concat_map(front, cell), cell(last));
        lemma_holds_part_lists(bytes, at, front);
        let next = at + concat_map(front, cell).len();
        let count = u32_bytes(low32(last.parts.len() as int));
        let column = concat_map(last.parts, |p: PartModel| part_wire(p));
        assert(parts_wire(last) == count + column);
        lemma_holds_split(bytes, next, count, column);
        lemma_holds_u32(bytes, next, low32(last.parts.len() as int));
        lemma_holds_parts(bytes, next + 4, last.parts);
        let earlier = part_lists_at(bytes, at, front.len()).unwrap().0;
        let rows = parts_at(bytes, next + 4, last.parts.len()).unwrap().0;
        assert(part_lists_at(bytes, at, files.len()).unwrap().0 == earlier.push(rows));
        assert forall|i: int| 0 <= i < files.len() implies (#[trigger] earlier.push(
            rows,
        )[i]).map_values(|p: PartRow| part_of_row(p)) == files[i].parts by {
            if i < front.len() {
                assert(front[i] == files[i]);
                assert(earlier.push(rows)[i] == earlier[i]);
            }
        }
    }
}

/// Empty lists of install tags that were written for files are read
/// back.
pub proof fn lemma_holds_no_tags(bytes: Seq<u8>, at: int, files: Seq<FileModel>)
    requires
        holds(bytes, at, concat_map(files, |f: FileModel| u32_bytes(0))),
    ensures
        concat_map(files, |f: FileModel| u32_bytes(0)).len() == 4 * files.len(),
        tag_lists_at(bytes, at, files.len()) == Some(
            (
                Seq::new(files.len(), |i: int| Seq::<Seq<char>>::empty()),
                at + 4 * files.len(),
            ),
        ),
    decreases files.len(),
{
    let cell = |f: FileModel| u32_bytes(0);
    if files.len() == 0 {
        assert(Seq::new(files.len(), |i: int| Seq::<Seq<char>>::empty()) =~= Seq::<
            Seq<Seq<char>>,
        >::empty());
    } else {
        let front = files.drop_last();
        lemma_holds_split(bytes, at, concat_map(front, cell), cell(files.last()));
        lemma_holds_no_tags(bytes, at, front);
        let next = at + 4 * front.len();
        lemma_holds_u32(bytes, next, 0);
        assert(Seq::new(front.len(), |i: int| Seq::<Seq<char>>::empty()).push(
            Seq::<Seq<char>>::empty(),
        ) =~= Seq::new(files.len(), |i: int| Seq::<Seq<char>>::empty()));
    }
}

/// The names of files that were written as a column of strings are read
/// back.
pub proof fn lemma_holds_names(bytes: Seq<u8>, at: int, files: Seq<FileModel>)
    requires
        holds(bytes, at, concat_map(files, |f: FileModel| fstring_bytes(f.filename))),
        files_fit(files),
    ensures
        texts_at(bytes, at, files.len(), false) == Some(
            (
                files.map_values(|f: FileModel| f.filename),
                at + concat_map(files, |f: FileModel| fstring_bytes(f.filename)).len(),
            ),
        ),
{
    let names = files.map_values(|f: FileModel| f.filename);
    lemma_concat_mapped(
        files,
        |f: FileModel| f.filename,
        |t: Seq<char>| fstring_bytes(t),
        |f: FileModel| fstring_bytes(f.filename),
    );
    assert(short_texts(names)) by {
        assert forall|i: int| 0 <= i < names.len() implies short_text(#[trigger] names[i]) by {
            assert(file_fits(files[i]));
        }
    }
    lemma_holds_texts(bytes, at, names, false);
}

/// The empty link targets that were written for files are read back.
pub proof fn lemma_holds_no_links(bytes: Seq<u8>, at: int, files: Seq<FileModel>)
    requires
        holds(bytes, at, concat_map(files, |f: FileModel| u32_bytes(0))),
    ensures
        texts_at(bytes, at, files.len(), false) == Some(
            (
                files.map_values(|f: FileModel| Seq::<char>::empty()),
                at + concat_map(files, |f: FileModel| u32_bytes(0)).len(),
            ),
        ),
{
    let links = files.map_values(|f: FileModel| Seq::<char>::empty());
    assert(fstring_bytes(Seq::<char>::empty()) == u32_bytes(0));
    lemma_concat_mapped(
        files,
        |f: FileModel| Seq::<char>::empty(),
        |t: Seq<char>| fstring_bytes(t),
        |f: FileModel| u32_bytes(0),
    );
    assert(short_texts(links)) by {
        assert forall|i: int| 0 <= i < links.len() implies short_text(#[trigger] links[i]) by {
            assert(links[i] =~= Seq::<char>::empty());
            assert(encode_utf8(Seq::<char>::empty()) =~= Seq::<u8>::empty());
        }
    }
    lemma_holds_texts(bytes, at, links, false);
}

/// Whether the six columns of the file table of files stand in a buffer
/// one behind the other, starting at `at`: names, empty link targets,
/// digests, flag bytes, empty lists of install tags, and chunk parts.
#[verifier::opaque]
pub open spec fn file_columns_hold(bytes: Seq<u8>, at: int, files: Seq<FileModel>) -> bool {
    let n = files.len() as int;
    let next1 = at + concat_map(files, |f: FileModel| fstring_bytes(f.filename)).len();
    let next2 = next1 + 4 * n;
    &&& holds(bytes, at, concat_map(files, |f: FileModel| fstring_bytes(f.filename)))
    &&& holds(bytes, next1, concat_map(files, |f: FileModel| u32_bytes(0)))
    &&& holds(bytes, next2, concat_map(files, |f: FileModel| digest_wire(Some(f.file_hash))))
    &&& holds(bytes, next2 + 20 * n, concat_map(files, |f: FileModel| seq![0u8]))
    &&& holds(bytes, next2 + 21 * n, concat_map(files, |f: FileModel| u32_bytes(0)))
    &&& holds(bytes, next2 + 25 * n, concat_map(files, |f: FileModel| parts_wire(f)))
}

/// Where the six columns of a file table end.
pub open spec fn file_columns_end(at: int, files: Seq<FileModel>) -> int {
    at + concat_map(files, |f: FileModel| fstring_bytes(f.filename)).len() + 29 * files.len()
        + concat_map(files, |f: FileModel| parts_wire(f)).len()
}

/// Whether the columns that were read are those that files were written
/// with: the names and the parts of the files, and the digests where the
/// columns say.
#[verifier::opaque]
pub open spec fn columns_match(bytes: Seq<u8>, columns: FileColumns, files: Seq<FileModel>) -> bool {
    &&& columns.names == files.map_values(|f: FileModel| f.filename)
    &&& lists_match(columns.parts, files)
    &&& holds(
        bytes,
        columns.hashes,
        concat_map(files, |f: FileModel| digest_wire(Some(f.file_hash))),
    )
}

/// The columns of the file table that were written are read back.
#[verifier::rlimit(60)]
#[verifier::spinoff_prover]
pub proof fn lemma_holds_file_columns(bytes: Seq<u8>, at: int, files: Seq<FileModel>)
    requires
        file_columns_hold(bytes, at, files),
        files_fit(files),
    ensures
        file_columns_at(bytes, at, files.len(), 0) is Some,
        file_columns_at(bytes, at, files.len(), 0).unwrap().1 == file_columns_end(at, files),
        columns_match(bytes, file_columns_at(bytes, at, files.len(), 0).unwrap().0, files),
{
    reveal(columns_match);
    reveal(file_columns_hold);
    let n = files.len() as int;
    let names = concat_map(files, |f: FileModel| fstring_bytes(f.filename));
    let links = concat_map(files, |f: FileModel| u32_bytes(0));
    let digests = concat_map(files, |f: FileModel| digest_wire(Some(f.file_hash)));
    let flags = concat_map(files, |f: FileModel| seq![0u8]);
    let parts = concat_map(files, |f: FileModel| parts_wire(f));
    lemma_column(files, |f: FileModel| u32_bytes(0), 4);
    lemma_column(files, |f: FileModel| digest_wire(Some(f.file_hash)), 20);
    lemma_column(files, |f: FileModel| seq![0u8], 1);
    lemma_holds_names(bytes, at, files);
    let next1 = at + names.len();
    lemma_holds_no_links(bytes, next1, files);
    let next2 = next1 + 4 * n;
    lemma_holds_room(bytes, next2, digests);
    lemma_holds_room(bytes, next2 + 20 * n, flags);
    assert(has_room(bytes, next2, 21 * n));
    let next3 = next2 + 21 * n;
    lemma_holds_no_tags(bytes, next3, files);
    let next4 = next3 + 4 * n;
    lemma_holds_part_lists(bytes, next4, files);
    let next5 = next4 + parts.len();
    assert(extra_columns_at(bytes, next5, files.len(), 0) == Some(
        (plain_columns(files.len()).0, plain_columns(files.len()).1, None::<int>, next5),
    ));
}

/// Where the fields of the file section stand in a buffer, the number of
/// files stands first and the columns behind it.
pub proof fn lemma_file_columns(bytes: Seq<u8>, at: int, m: ManifestModel)
    requires
        holds(bytes, at, file_fields(m)),
    ensures
        holds(bytes, at, u32_bytes(low32(m.files.len() as int))),
        file_columns_hold(bytes, at + 4, m.files),
        file_fields(m).len() == file_columns_end(at + 4, m.files) - at,
{
    reveal(file_fields);
    reveal(file_columns_hold);
    let files = m.files;
    let count = u32_bytes(low32(files.len() as int));
    let names = concat_map(files, |f: FileModel| fstring_bytes(f.filename));
    let links = concat_map(files, |f: FileModel| u32_bytes(0));
    let digests = concat_map(files, |f: FileModel| digest_wire(Some(f.file_hash)));
    let flags = concat_map(files, |f: FileModel| seq![0u8]);
    let tags = concat_map(files, |f: FileModel| u32_bytes(0));
    let parts = concat_map(files, |f: FileModel| parts_wire(f));
    lemma_column(files, |f: FileModel| u32_bytes(0), 4);
    lemma_column(files, |f: FileModel| digest_wire(Some(f.file_hash)), 20);
    lemma_column(files, |f: FileModel| seq![0u8], 1);
    assert(file_fields(m) == count + names + links + digests + flags + tags + parts);
    lemma_holds_split(bytes, at, count + names + links + digests + flags + tags, parts);
    lemma_holds_split(bytes, at, count + names + links + digests + flags, tags);
    lemma_holds_split(bytes, at, count + names + links + digests, flags);
    lemma_holds_split(bytes, at, count + names + links, digests);
    lemma_holds_split(bytes, at, count + names, links);
    lemma_holds_split(bytes, at, count, names);
}

/// A row of the file table is read back from its columns as the file that
/// was written.
pub proof fn lemma_file_row(
    bytes: Seq<u8>,
    columns: FileColumns,
    files: Seq<FileModel>,
    index: int,
)
    requires
        columns_match(bytes, columns, files),
        files_fit(files),
        0 <= index < files.len(),
    ensures
        file_of_row(file_row(bytes, columns, files.len() as int, index)) == files[index],
{
    reveal(columns_match);
    reveal(holds);
    let file = files[index];
    assert(file_fits(file));
    lemma_holds_cell(
        bytes,
        columns.hashes,
        files,
        |f: FileModel| digest_wire(Some(f.file_hash)),
        20,
        index,
    );
    lemma_digest_text(file.file_hash);
    let row = file_row(bytes, columns, files.len() as int, index);
    assert(row.hash == digest_wire(Some(file.file_hash)));
    assert(row.filename == file.filename);
    assert(row.chunk_parts.map_values(|p: PartRow| part_of_row(p)) == file.parts);
}

/// Whether the file section of a manifest fits the format: every file
/// fits, and the size of the section fits in 32 bits.
#[verifier::opaque]
pub open spec fn file_section_fits(m: ManifestModel) -> bool {
    &&& files_fit(m.files)
    &&& m.files.len() <= u32::MAX
    &&& file_fields(m).len() + 5 <= u32::MAX
}

/// What the fitting of the file section says.
pub proof fn lemma_file_section_fits(m: ManifestModel)
    requires
        file_section_fits(m),
    ensures
        files_fit(m.files),
        m.files.len() <= u32::MAX,
        file_fields(m).len() + 5 <= u32::MAX,
{
    reveal(file_section_fits);
}

/// A file section whose columns are read is read as the rows of those
/// columns.
pub proof fn lemma_files_of_columns(
    bytes: Seq<u8>,
    at: int,
    end: int,
    count: nat,
    columns: FileColumns,
    last: int,
)
    requires
        section_end(bytes, at) == Some(end),
        has_room(bytes, at + 5, 4),
        le_u32(bytes, at + 5) == count,
        bytes[at + 4] == 0,
        file_columns_at(bytes, at + 9, count, 0) == Some((columns, last)),
    ensures
        files_at(bytes, at) == Some(
            (Seq::new(count, |i: int| file_row(bytes, columns, count as int, i)), end),
        ),
{
}

/// The columns that are read from the file section that a manifest is
/// written with.
pub open spec fn read_columns(bytes: Seq<u8>, at: int, m: ManifestModel) -> FileColumns {
    file_columns_at(bytes, at + 9, m.files.len(), 0).unwrap().0
}

/// The rows of a file table of as many rows as there are files.
pub open spec fn rows_of_columns(bytes: Seq<u8>, columns: FileColumns, files: Seq<FileModel>)
    -> Seq<FileRow> {
    Seq::new(files.len(), |i: int| file_row(bytes, columns, files.len() as int, i))
}

/// The file section that a manifest is written with is read as the rows
/// of columns that are those of the files.
#[verifier::rlimit(60)]
#[verifier::spinoff_prover]
pub proof fn lemma_holds_file_section(bytes: Seq<u8>, at: int, m: ManifestModel)
    requires
        holds(bytes, at, section_bytes(0, file_fields(m))),
        file_section_fits(m),
    ensures
        files_at(bytes, at) == Some(
            (
                rows_of_columns(bytes, read_columns(bytes, at, m), m.files),
                at + 5 + file_fields(m).len(),
            ),
        ),
        columns_match(bytes, read_columns(bytes, at, m), m.files),
{
    lemma_file_section_fits(m);
    let files = m.files;
    let n = files.len();
    lemma_holds_section(bytes, at, 0, file_fields(m));
    lemma_file_columns(bytes, at + 5, m);
    lemma_holds_u32(bytes, at + 5, low32(n as int));
    lemma_holds_file_columns(bytes, at + 9, files);
    let columns = file_columns_at(bytes, at + 9, n, 0).unwrap().0;
    let last = file_columns_at(bytes, at + 9, n, 0).unwrap().1;
    lemma_files_of_columns(bytes, at, at + 5 + file_fields(m).len(), n, columns, last);
}

/// The rows of columns that are those of files stand for those files.
pub proof fn lemma_rows_are_files(bytes: Seq<u8>, columns: FileColumns, files: Seq<FileModel>)
    requires
        columns_match(bytes, columns, files),
        files_fit(files),
    ensures
        rows_of_columns(bytes, columns, files).map_values(|f: FileRow| file_of_row(f)) == files,
{
    let rows = rows_of_columns(bytes, columns, files);
    assert forall|i: int| 0 <= i < files.len() implies file_of_row(#[trigger] rows[i])
        == files[i] by {
        lemma_file_row(bytes, columns, files, i);
    }
    assert(rows.map_values(|f: FileRow| file_of_row(f)) =~= files);
}

/// The file section that a manifest is written with is read back.
pub proof fn lemma_holds_files(bytes: Seq<u8>, at: int, m: ManifestModel)
    requires
        holds(bytes, at, section_bytes(0, file_fields(m))),
        file_section_fits(m),
    ensures
        files_at(bytes, at) is Some,
        files_at(bytes, at).unwrap().1 == at + 5 + file_fields(m).len(),
        files_at(bytes, at).unwrap().0.map_values(|f: FileRow| file_of_row(f)) == m.files,
{
    lemma_file_section_fits(m);
    lemma_holds_file_section(bytes, at, m);
    lemma_rows_are_files(bytes, read_columns(bytes, at, m), m.files);
}

/// Whether the chunk maps of a manifest are what a chunk table can hold:
/// no GUID occurs twice; the four maps have the same GUIDs in the same
/// order; every rolling hash fits in 64 bits, every SHA-1 is forty
/// lower-case hexadecimal digits, every data group is at most 255 and every
/// stored size fits in 63 bits.
#[verifier::opaque]
pub open spec fn tables_fit(m: ManifestModel) -> bool {
    let guids = keys_of(m.chunk_hashes);
    &&& guids.no_duplicates()
    &&& m.chunk_shas is Some
    &&& keys_of(m.chunk_shas.unwrap()) == guids
    &&& keys_of(m.data_groups) == guids
    &&& keys_of(m.chunk_sizes) == guids
    &&& forall|i: int| 0 <= i < guids.len() ==> (#[trigger] m.chunk_hashes[i]).1 <= u64::MAX
    &&& forall|i: int|
        0 <= i < guids.len() ==> is_hex_text((#[trigger] m.chunk_shas.unwrap()[i]).1, 40)
    &&& forall|i: int| 0 <= i < guids.len() ==> (#[trigger] m.data_groups[i]).1 <= 255
    &&& forall|i: int|
        0 <= i < guids.len() ==> (#[trigger] m.chunk_sizes[i]).1 <= 0x7fff_ffff_ffff_ffff
}

/// The four chunk maps that are built from the chunk table that a manifest
/// is written with are the chunk maps of the manifest.
#[verifier::rlimit(60)]
#[verifier::spinoff_prover]
pub proof fn lemma_written_tables(m: ManifestModel)
    requires
        tables_fit(m),
    ensures
        ({
            let rows = written_chunks(m);
            let guids = rows.map_values(|c: ChunkRow| c.guid);
            &&& assoc_fold(guids, rows.map_values(|c: ChunkRow| c.hash as u128), rows.len())
                == m.chunk_hashes
            &&& Some(
                assoc_fold(
                    guids,
                    rows.map_values(|c: ChunkRow| hex_text(c.sha_hash, false)),
                    rows.len(),
                ),
            ) == m.chunk_shas
            &&& assoc_fold(guids, rows.map_values(|c: ChunkRow| c.group_num as u128), rows.len())
                == m.data_groups
            &&& assoc_fold(
                guids,
                rows.map_values(|c: ChunkRow| stored_size(c.file_size)),
                rows.len(),
            ) == m.chunk_sizes
        }),
{
    reveal(tables_fit);
    let rows = written_chunks(m);
    let n = rows.len();
    let guids = rows.map_values(|c: ChunkRow| c.guid);
    let hashes = rows.map_values(|c: ChunkRow| c.hash as u128);
    let shas = rows.map_values(|c: ChunkRow| hex_text(c.sha_hash, false));
    let groups = rows.map_values(|c: ChunkRow| c.group_num as u128);
    let sizes = rows.map_values(|c: ChunkRow| stored_size(c.file_size));
    assert(guids =~= keys_of(m.chunk_hashes));
    lemma_fold_zip(guids, hashes, n);
    lemma_fold_zip(guids, shas, n);
    lemma_fold_zip(guids, groups, n);
    lemma_fold_zip(guids, sizes, n);
    let sha_map = m.chunk_shas.unwrap();
    assert(sha_map.len() == n) by {
        assert(keys_of(sha_map).len() == guids.len());
    }
    assert(m.data_groups.len() == n) by {
        assert(keys_of(m.data_groups).len() == guids.len());
    }
    assert(m.chunk_sizes.len() == n) by {
        assert(keys_of(m.chunk_sizes).len() == guids.len());
    }
    assert forall|i: int| 0 <= i < n implies #[trigger] zipped(guids, hashes, n)[i]
        == m.chunk_hashes[i] by {
        assert(guids[i] == keys_of(m.chunk_hashes)[i]);
    }
    assert(zipped(guids, hashes, n) =~= m.chunk_hashes);
    assert forall|i: int| 0 <= i < n implies #[trigger] zipped(guids, shas, n)[i]
        == sha_map[i] by {
        let guid = m.chunk_hashes[i].0;
        assert(keys_of(sha_map)[i] == guids[i]);
        assert(sha_map[i].0 == guid);
        lemma_get_at(sha_map, i);
        lemma_digest_text(sha_map[i].1);
    }
    assert(zipped(guids, shas, n) =~= sha_map);
    assert forall|i: int| 0 <= i < n implies #[trigger] zipped(guids, groups, n)[i]
        == m.data_groups[i] by {
        let guid = m.chunk_hashes[i].0;
        assert(keys_of(m.data_groups)[i] == guids[i]);
        assert(m.data_groups[i].0 == guid);
        lemma_get_at(m.data_groups, i);
    }
    assert(zipped(guids, groups, n) =~= m.data_groups);
    assert forall|i: int| 0 <= i < n implies #[trigger] zipped(guids, sizes, n)[i]
        == m.chunk_sizes[i] by {
        let guid = m.chunk_hashes[i].0;
        assert(keys_of(m.chunk_sizes)[i] == guids[i]);
        assert(m.chunk_sizes[i].0 == guid);
        lemma_get_at(m.chunk_sizes, i);
    }
    assert(zipped(guids, sizes, n) =~= m.chunk_sizes);
}

/// The custom fields that are built from the keys and values that a
/// manifest is written with are the custom fields of the manifest, where
/// no key occurs twice.
pub proof fn lemma_written_custom(rows: Seq<(Seq<char>, Seq<char>)>)
    requires
        keys_of(rows).no_duplicates(),
    ensures
        assoc_fold(
            rows.map_values(|x: (Seq<char>, Seq<char>)| x.0),
            rows.map_values(|x: (Seq<char>, Seq<char>)| x.1),
            rows.len(),
        ) == rows,
{
    let keys = rows.map_values(|x: (Seq<char>, Seq<char>)| x.0);
    let values = rows.map_values(|x: (Seq<char>, Seq<char>)| x.1);
    assert(keys =~= keys_of(rows));
    lemma_fold_zip(keys, values, rows.len());
    assert(zipped(keys, values, rows.len()) =~= rows);
}

/// Whether a manifest is written without loss: every part of it is within
/// what the binary format can hold.
pub open spec fn writable(m: ManifestModel) -> bool {
    &&& meta_fits(m)
    &&& chunks_fit(m)
    &&& tables_fit(m)
    &&& file_section_fits(m)
    &&& custom_fits(m)
    &&& keys_of(m.custom_fields.unwrap()).no_duplicates()
}

/// The sections that are read from the payload that a manifest is written
/// as.
pub open spec fn written_rows(m: ManifestModel) -> PayloadRows {
    payload_rows(payload_bytes(m)).unwrap()
}

/// Four pieces stand in their concatenation one behind the other.
pub proof fn lemma_four_pieces(a: Seq<u8>, b: Seq<u8>, c: Seq<u8>, d: Seq<u8>)
    ensures
        holds(a + b + c + d, 0, a),
        holds(a + b + c + d, a.len() as int, b),
        holds(a + b + c + d, (a.len() + b.len()) as int, c),
        holds(a + b + c + d, (a.len() + b.len() + c.len()) as int, d),
{
    let bytes = a + b + c + d;
    assert(holds(bytes, 0, bytes)) by {
        reveal(holds);
        assert(bytes.subrange(0, bytes.len() as int) =~= bytes);
    }
    lemma_holds_split(bytes, 0, a + b + c, d);
    lemma_holds_split(bytes, 0, a + b, c);
    lemma_holds_split(bytes, 0, a, b);
}

/// The four sections of the payload that a manifest is written as stand
/// in it one behind the other.
pub proof fn lemma_section_places(m: ManifestModel)
    ensures
        ({
            let bytes = payload_bytes(m);
            let s1 = section_bytes(meta_version(m), meta_fields(m));
            let s2 = section_bytes(0, chunk_fields(m));
            let s3 = section_bytes(0, file_fields(m));
            let s4 = section_bytes(0, custom_bytes(m));
            &&& holds(bytes, 0, s1)
            &&& holds(bytes, s1.len() as int, s2)
            &&& holds(bytes, (s1.len() + s2.len()) as int, s3)
            &&& holds(bytes, (s1.len() + s2.len() + s3.len()) as int, s4)
        }),
{
    let s1 = section_bytes(meta_version(m), meta_fields(m));
    let s2 = section_bytes(0, chunk_fields(m));
    let s3 = section_bytes(0, file_fields(m));
    let s4 = section_bytes(0, custom_bytes(m));
    lemma_four_pieces(s1, s2, s3, s4);
}

/// A payload whose four sections are read one behind the other is read as
/// those sections.
pub proof fn lemma_payload_of_sections(
    bytes: Seq<u8>,
    meta: MetaRow,
    next1: int,
    chunks: Seq<ChunkRow>,
    next2: int,
    files: Seq<FileRow>,
    next3: int,
    keys: Seq<Seq<char>>,
    values: Seq<Seq<char>>,
    next4: int,
)
    requires
        meta_at(bytes, 0) == Some((meta, next1)),
        chunks_at(bytes, next1) == Some((chunks, next2)),
        files_at(bytes, next2) == Some((files, next3)),
        custom_at(bytes, next3) == Some((keys, values, next4)),
    ensures
        payload_rows(bytes) == Some(
            PayloadRows { meta, chunks, files, custom_keys: keys, custom_values: values },
        ),
{
}

/// Where the chunk section starts in the payload that a manifest is
/// written as.
pub open spec fn chunks_place(m: ManifestModel) -> int {
    meta_fields(m).len() as int + 5
}

/// Where the file section starts in the payload that a manifest is
/// written as.
pub open spec fn files_place(m: ManifestModel) -> int {
    chunks_place(m) + chunk_fields(m).len() + 5
}

/// Where the custom field section starts in the payload that a manifest
/// is written as.
pub open spec fn custom_place(m: ManifestModel) -> int {
    files_place(m) + file_fields(m).len() + 5
}

/// A section is five bytes longer than its fields.
pub proof fn lemma_section_len(version: u8, fields: Seq<u8>)
    ensures
        section_bytes(version, fields).len() == fields.len() + 5,
{
}

/// The sections of the payload that a manifest is written as stand at
/// their places.
pub proof fn lemma_sections_stand(m: ManifestModel)
    ensures
        holds(payload_bytes(m), 0, section_bytes(meta_version(m), meta_fields(m))),
        holds(payload_bytes(m), chunks_place(m), section_bytes(0, chunk_fields(m))),
        holds(payload_bytes(m), files_place(m), section_bytes(0, file_fields(m))),
        holds(payload_bytes(m), custom_place(m), section_bytes(0, custom_bytes(m))),
{
    lemma_section_places(m);
    lemma_section_len(meta_version(m), meta_fields(m));
    lemma_section_len(0, chunk_fields(m));
    lemma_section_len(0, file_fields(m));
}

/// The metadata section of a written payload is read back.
pub proof fn lemma_written_meta(m: ManifestModel)
    requires
        meta_fits(m),
    ensures
        meta_at(payload_bytes(m), 0) == Some((written_meta(m), chunks_place(m))),
{
    lemma_sections_stand(m);
    lemma_holds_meta(payload_bytes(m), 0, m);
}

/// The chunk section of a written payload is read back.
pub proof fn lemma_written_chunks(m: ManifestModel)
    requires
        chunks_fit(m),
    ensures
        chunks_at(payload_bytes(m), chunks_place(m)) == Some((written_chunks(m), files_place(m))),
{
    lemma_sections_stand(m);
    lemma_chunk_fields_len(m);
    lemma_holds_chunks(payload_bytes(m), chunks_place(m), m);
}

/// The file section of a written payload is read back.
pub proof fn lemma_written_files(m: ManifestModel)
    requires
        file_section_fits(m),
    ensures
        files_at(payload_bytes(m), files_place(m)) is Some,
        files_at(payload_bytes(m), files_place(m)).unwrap().1 == custom_place(m),
        files_at(payload_bytes(m), files_place(m)).unwrap().0.map_values(
            |f: FileRow| file_of_row(f),
        ) == m.files,
{
    lemma_sections_stand(m);
    lemma_holds_files(payload_bytes(m), files_place(m), m);
}

/// The custom field section of a written payload is read back.
pub proof fn lemma_written_fields(m: ManifestModel)
    requires
        custom_fits(m),
    ensures
        custom_at(payload_bytes(m), custom_place(m)) == Some(
            (
                m.custom_fields.unwrap().map_values(|x: (Seq<char>, Seq<char>)| x.0),
                m.custom_fields.unwrap().map_values(|x: (Seq<char>, Seq<char>)| x.1),
                custom_place(m) + 5 + custom_bytes(m).len(),
            ),
        ),
{
    lemma_sections_stand(m);
    lemma_holds_custom(payload_bytes(m), custom_place(m), m);
}

/// The payload that a manifest is written as is read back section by
/// section.
pub proof fn lemma_written_sections(m: ManifestModel)
    requires
        writable(m),
    ensures
        payload_rows(payload_bytes(m)) is Some,
        written_rows(m).meta == written_meta(m),
        written_rows(m).chunks == written_chunks(m),
        written_rows(m).files.map_values(|f: FileRow| file_of_row(f)) == m.files,
        written_rows(m).custom_keys == m.custom_fields.unwrap().map_values(
            |x: (Seq<char>, Seq<char>)| x.0,
        ),
        written_rows(m).custom_values == m.custom_fields.unwrap().map_values(
            |x: (Seq<char>, Seq<char>)| x.1,
        ),
{
    let bytes = payload_bytes(m);
    lemma_written_meta(m);
    lemma_written_chunks(m);
    lemma_written_files(m);
    lemma_written_fields(m);
    lemma_payload_of_sections(
        bytes,
        written_meta(m),
        chunks_place(m),
        written_chunks(m),
        files_place(m),
        files_at(bytes, files_place(m)).unwrap().0,
        custom_place(m),
        m.custom_fields.unwrap().map_values(|x: (Seq<char>, Seq<char>)| x.0),
        m.custom_fields.unwrap().map_values(|x: (Seq<char>, Seq<char>)| x.1),
        custom_place(m) + 5 + custom_bytes(m).len(),
    );
}

/// What is read from the payload that a manifest is written as is the
/// manifest, where it is written without loss.
#[verifier::rlimit(60)]
#[verifier::spinoff_prover]
pub proof fn lemma_payload_round_trip(m: ManifestModel)
    requires
        writable(m),
    ensures
        payload_rows(payload_bytes(m)) is Some,
        manifest_of(payload_rows(payload_bytes(m)).unwrap()) == m,
{
    lemma_written_sections(m);
    lemma_written_tables(m);
    lemma_written_custom(m.custom_fields.unwrap());
    lemma_meta_fits(m);
    lemma_custom_fits(m);
    let rows = written_rows(m);
    let read = manifest_of(rows);
    assert(read.prereq_ids == m.prereq_ids) by {
        match m.prereq_ids {
            Some(ids) => {},
            None => {},
        }
    }
    assert(read.custom_fields == m.custom_fields);
    assert(read.chunk_hashes == m.chunk_hashes);
    assert(read.chunk_shas == m.chunk_shas);
    assert(read.data_groups == m.data_groups);
    assert(read.chunk_sizes == m.chunk_sizes);
    assert(read.files == m.files);
}

/// The payload of an envelope that was written is read back.
pub proof fn lemma_envelope_round_trip(payload: Seq<u8>)
    requires
        sha1_digest(payload).len() == 20,
    ensures
        envelope_payload(envelope_bytes(payload)) == Ok::<Seq<u8>, ManifestError>(payload),
{
    let bytes = envelope_bytes(payload);
    let (stored, flag) = match packed_payload(payload) {
        Some(stream) => (stream, 1u8),
        None => (payload, 0u8),
    };
    let header = header_bytes(payload, stored.len() as int, flag);
    assert(bytes == header + stored);
    assert(header.len() == 41);
    let magic = u32_bytes(MANIFEST_MAGIC);
    assert(holds(bytes, 0, magic)) by {
        reveal(holds);
        assert(bytes.subrange(0, 4) =~= magic);
    }
    lemma_holds_u32(bytes, 0, MANIFEST_MAGIC);
    crate::api::writer::lemma_envelope_digest(payload);
    assert(bytes[36] == flag);
    assert(bytes.subrange(41, bytes.len() as int) =~= stored);
}

} // verus!
