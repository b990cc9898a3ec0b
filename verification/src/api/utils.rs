//! Primitive readers and writers of the binary manifest format.

use crate::api::foreign::{
    big_add, big_bytes, big_from, big_shl, big_value, le_digits, utf16_lossy, utf16_text, utf8_text,
};
use crate::api::text::{hex_text, to_hex};
use vstd::arithmetic::power2::{lemma2_to64, lemma_pow2_adds, lemma_pow2_pos, pow2};
use vstd::prelude::*;
use vstd::slice::slice_subrange;
use vstd::std_specs::cmp::PartialEqSpec;
use vstd::string::StringSliceAdditionalSpecFns;
use vstd::utf8::{decode_utf8, encode_utf8, valid_utf8};

verus! {

/// Value of the four bytes of `bytes` starting at `at`, least significant
/// byte first.
pub open spec fn le_u32(bytes: Seq<u8>, at: int) -> int {
    bytes[at] as int + bytes[at + 1] as int * 0x100 + bytes[at + 2] as int * 0x1_0000 + bytes[at
        + 3] as int * 0x100_0000
}

/// Value of the eight bytes of `bytes` starting at `at`, least significant
/// byte first.
pub open spec fn le_u64(bytes: Seq<u8>, at: int) -> int {
    le_u32(bytes, at) + le_u32(bytes, at + 4) * 0x1_0000_0000
}

/// Two's complement reading of a 32-bit pattern.
pub open spec fn signed32(pattern: int) -> int {
    if pattern >= 0x8000_0000 {
        pattern - 0x1_0000_0000
    } else {
        pattern
    }
}

/// Two's complement reading of a 64-bit pattern.
pub open spec fn signed64(pattern: int) -> int {
    if pattern >= 0x8000_0000_0000_0000 {
        pattern - 0x1_0000_0000_0000_0000
    } else {
        pattern
    }
}

/// Reads an unsigned 32-bit little-endian integer and advances the cursor
/// by four bytes.
pub fn read_le(buffer: &[u8], position: &mut usize) -> (value: u32)
    requires
        *old(position) + 4 <= buffer@.len(),
    ensures
        *final(position) == *old(position) + 4,
        value as int == le_u32(buffer@, *old(position) as int),
{
    let at: usize = *position;
    let b0: u32 = buffer[at] as u32;
    let b1: u32 = buffer[at + 1] as u32;
    let b2: u32 = buffer[at + 2] as u32;
    let b3: u32 = buffer[at + 3] as u32;
    *position = at + 4;
    b0 + b1 * 0x100 + b2 * 0x1_0000 + b3 * 0x100_0000
}

/// Reads a signed 32-bit little-endian integer and advances the cursor by
/// four bytes.
pub fn read_le_signed(buffer: &[u8], position: &mut usize) -> (value: i32)
    requires
        *old(position) + 4 <= buffer@.len(),
    ensures
        *final(position) == *old(position) + 4,
        value as int == signed32(le_u32(buffer@, *old(position) as int)),
{
    let pattern: u32 = read_le(buffer, position);
    if pattern >= 0x8000_0000 {
        let low: u32 = pattern - 0x8000_0000;
        (low as i32) + i32::MIN
    } else {
        pattern as i32
    }
}

/// Reads an unsigned 64-bit little-endian integer and advances the cursor
/// by eight bytes.
pub fn read_le_64(buffer: &[u8], position: &mut usize) -> (value: u64)
    requires
        *old(position) + 8 <= buffer@.len(),
    ensures
        *final(position) == *old(position) + 8,
        value as int == le_u64(buffer@, *old(position) as int),
{
    let low: u32 = read_le(buffer, position);
    let high: u32 = read_le(buffer, position);
    (low as u64) + (high as u64) * 0x1_0000_0000
}

/// Reads a signed 64-bit little-endian integer and advances the cursor by
/// eight bytes.
pub fn read_le_64_signed(buffer: &[u8], position: &mut usize) -> (value: i64)
    requires
        *old(position) + 8 <= buffer@.len(),
    ensures
        *final(position) == *old(position) + 8,
        value as int == signed64(le_u64(buffer@, *old(position) as int)),
{
    let pattern: u64 = read_le_64(buffer, position);
    if pattern >= 0x8000_0000_0000_0000 {
        let low: u64 = pattern - 0x8000_0000_0000_0000;
        (low as i64) + i64::MIN
    } else {
        pattern as i64
    }
}

/// The signed length field of the string that starts at `at`.
pub open spec fn fstring_length(bytes: Seq<u8>, at: int) -> int {
    signed32(le_u32(bytes, at))
}

/// Number of bytes that the string starting at `at` takes, its length field
/// included.
pub open spec fn fstring_extent(bytes: Seq<u8>, at: int) -> int {
    let length = fstring_length(bytes, at);
    if length > 0 {
        4 + length
    } else if length < 0 {
        4 - 2 * length
    } else {
        4
    }
}

/// Whether the string starting at `at` lies wholly inside `bytes`.
pub open spec fn fstring_fits(bytes: Seq<u8>, at: int) -> bool {
    &&& 0 <= at
    &&& at + 4 <= bytes.len()
    &&& at + fstring_extent(bytes, at) <= bytes.len()
}

/// The 16-bit code units that `bytes` hold, low byte first; an odd last
/// byte is left out.
pub open spec fn utf16_units(bytes: Seq<u8>) -> Seq<u16> {
    Seq::new(
        (bytes.len() / 2) as nat,
        |i: int| (bytes[2 * i] as int + 0x100 * bytes[2 * i + 1] as int) as u16,
    )
}

/// The text of the string starting at `at`. A positive length announces
/// UTF-8 bytes closed by one NUL, a negative one UTF-16 code units closed by
/// a NUL pair; the closing NUL is not part of the text. There is no text
/// where the length is zero or the UTF-8 is malformed.
pub open spec fn fstring_text(bytes: Seq<u8>, at: int) -> Option<Seq<char>> {
    let length = fstring_length(bytes, at);
    if length > 0 {
        let body = bytes.subrange(at + 4, at + 4 + length - 1);
        if valid_utf8(body) {
            Some(decode_utf8(body))
        } else {
            None
        }
    } else if length < 0 {
        Some(utf16_lossy(utf16_units(bytes.subrange(at + 4, at + 4 - 2 * length - 2))))
    } else {
        None
    }
}

/// Reads a length-prefixed string and advances the cursor past it.
pub fn read_fstring(buffer: &[u8], position: &mut usize) -> (text: Option<String>)
    requires
        fstring_fits(buffer@, *old(position) as int),
    ensures
        *final(position) == *old(position) + fstring_extent(buffer@, *old(position) as int),
        match text {
            Some(s) => fstring_text(buffer@, *old(position) as int) == Some(s@),
            None => fstring_text(buffer@, *old(position) as int) is None,
        },
{
    let ghost at = *position as int;
    let length: i32 = read_le_signed(buffer, position);
    let start: usize = *position;
    let total: usize = buffer.len();
    if length > 0 {
        let size: usize = length as usize;
        *position = start + size;
        let body = slice_subrange(buffer, start, start + size - 1);
        let text = utf8_text(body);
        proof {
            if text is Some {
                vstd::utf8::encode_utf8_decode_utf8(text.unwrap()@);
            }
        }
        text
    } else if length < 0 {
        let wide: u64 = (-(length as i64)) as u64 * 2;
        assert(start + wide <= total);
        let size: usize = wide as usize;
        *position = start + size;
        let body = slice_subrange(buffer, start, start + size - 2);
        let mut units: Vec<u16> = Vec::new();
        let mut i: usize = 0;
        while i + 1 < body.len()
            invariant
                i % 2 == 0,
                i <= body@.len(),
                units@ == utf16_units(body@.take(i as int)),
            decreases body@.len() - i,
        {
            let low: u16 = body[i] as u16;
            let high: u16 = body[i + 1] as u16;
            units.push(low + high * 0x100);
            i = i + 2;
            assert(units@ =~= utf16_units(body@.take(i as int)));
        }
        assert(utf16_units(body@.take(i as int)) =~= utf16_units(body@));
        Some(utf16_text(units.as_slice()))
    } else {
        None
    }
}

/// The four bytes of `value`, least significant first.
pub open spec fn u32_bytes(value: u32) -> Seq<u8> {
    seq![
        (value % 0x100) as u8,
        (value / 0x100 % 0x100) as u8,
        (value / 0x1_0000 % 0x100) as u8,
        (value / 0x100_0000) as u8,
    ]
}

/// The eight bytes of `value`, least significant first.
pub open spec fn u64_bytes(value: u64) -> Seq<u8> {
    u32_bytes((value % 0x1_0000_0000) as u32) + u32_bytes((value / 0x1_0000_0000) as u32)
}

/// Appends the little-endian bytes of `value`.
pub fn put_u32(out: &mut Vec<u8>, value: u32)
    ensures
        final(out)@ == old(out)@ + u32_bytes(value),
{
    out.push((value % 0x100) as u8);
    out.push((value / 0x100 % 0x100) as u8);
    out.push((value / 0x1_0000 % 0x100) as u8);
    out.push((value / 0x100_0000) as u8);
    assert(out@ =~= old(out)@ + u32_bytes(value));
}

/// Appends the little-endian bytes of `value`.
pub fn put_u64(out: &mut Vec<u8>, value: u64)
    ensures
        final(out)@ == old(out)@ + u64_bytes(value),
{
    put_u32(out, (value % 0x1_0000_0000) as u32);
    put_u32(out, (value / 0x1_0000_0000) as u32);
    assert(out@ =~= old(out)@ + u64_bytes(value));
}

/// Appends a copy of `bytes`.
pub fn put_bytes(out: &mut Vec<u8>, bytes: &[u8])
    ensures
        final(out)@ == old(out)@ + bytes@,
{
    let mut i: usize = 0;
    while i < bytes.len()
        invariant
            i <= bytes@.len(),
            out@ == old(out)@ + bytes@.take(i as int),
        decreases bytes@.len() - i,
    {
        out.push(bytes[i]);
        i = i + 1;
        assert(out@ =~= old(out)@ + bytes@.take(i as int));
    }
    assert(bytes@.take(i as int) =~= bytes@);
}

/// The encoding of a text as a length-prefixed string: four zero bytes for
/// the empty text; otherwise the length of what follows, the UTF-8 bytes of
/// the text and one NUL. The length field keeps the low 32 bits.
pub open spec fn fstring_bytes(text: Seq<char>) -> Seq<u8> {
    if text.len() == 0 {
        u32_bytes(0)
    } else {
        u32_bytes(((encode_utf8(text).len() + 1) % 0x1_0000_0000) as u32) + encode_utf8(text)
            + seq![0u8]
    }
}

/// Encodes a text as a length-prefixed string.
pub fn write_fstring(string: String) -> (bytes: Vec<u8>)
    ensures
        bytes@ == fstring_bytes(string@),
{
    let mut meta: Vec<u8> = Vec::new();
    let text: &str = string.as_str();
    if !text.is_empty() {
        let raw: &[u8] = text.as_bytes();
        let length: u128 = raw.len() as u128;
        put_u32(&mut meta, ((length + 1) % 0x1_0000_0000) as u32);
        put_bytes(&mut meta, raw);
        meta.push(0);
        assert(meta@ =~= fstring_bytes(string@));
    } else {
        put_u32(&mut meta, 0);
        assert(meta@ =~= fstring_bytes(string@));
    }
    meta
}

/// Whether `byte` is an ASCII decimal digit.
pub open spec fn is_digit(byte: u8) -> bool {
    48 <= byte <= 57
}

/// The number that a group of three characters stands for: three decimal
/// digits that read as at most 255, or a plus sign and two decimal digits.
/// Any other group stands for zero.
pub open spec fn group_value(b0: u8, b1: u8, b2: u8) -> int {
    if is_digit(b1) && is_digit(b2) {
        let low = (b1 - 48) * 10 + (b2 - 48);
        if is_digit(b0) {
            if (b0 - 48) * 100 + low <= 255 {
                (b0 - 48) * 100 + low
            } else {
                0
            }
        } else if b0 == 43 {
            low
        } else {
            0
        }
    } else {
        0
    }
}

/// The number that the group with index `group` of a blob stands for.
pub open spec fn blob_byte(bytes: Seq<u8>, group: int) -> int {
    group_value(bytes[3 * group], bytes[3 * group + 1], bytes[3 * group + 2])
}

/// The little-endian base-256 integer that the first `groups` groups of a
/// blob spell. The group with index `i` is the byte at position `i`; groups
/// at position `limit` and beyond are shifted out and count as zero.
pub open spec fn blob_value(bytes: Seq<u8>, groups: nat, limit: nat) -> nat
    decreases groups,
{
    if groups == 0 {
        0
    } else {
        let rest = blob_value(bytes, (groups - 1) as nat, limit);
        if groups - 1 < limit {
            rest + (blob_byte(bytes, groups - 1) * pow2((8 * (groups - 1)) as nat)) as nat
        } else {
            rest
        }
    }
}

/// Computes the number that one group of a blob stands for.
pub fn read_group(b0: u8, b1: u8, b2: u8) -> (value: u8)
    ensures
        value as int == group_value(b0, b1, b2),
{
    if 48 <= b1 && b1 <= 57 && 48 <= b2 && b2 <= 57 {
        let low: u16 = (b1 - 48) as u16 * 10 + (b2 - 48) as u16;
        if 48 <= b0 && b0 <= 57 {
            let whole: u16 = (b0 - 48) as u16 * 100 + low;
            if whole <= 255 {
                whole as u8
            } else {
                0
            }
        } else if b0 == 43 {
            low as u8
        } else {
            0
        }
    } else {
        0
    }
}

/// A blob below `limit` groups spells a number below 256 to the power of
/// the number of its groups.
pub proof fn lemma_blob_bound(bytes: Seq<u8>, groups: nat, limit: nat)
    ensures
        blob_value(bytes, groups, limit) < pow2((8 * groups) as nat),
    decreases groups,
{
    lemma2_to64();
    if groups > 0 {
        let last = (groups - 1) as nat;
        lemma_blob_bound(bytes, last, limit);
        lemma_pow2_adds(8, (8 * last) as nat);
        lemma_pow2_pos((8 * last) as nat);
        let weight = pow2((8 * last) as nat);
        let digit = blob_byte(bytes, last as int);
        assert(0 <= digit <= 255);
        assert(digit * weight <= 255 * weight) by (nonlinear_arith)
            requires
                0 <= digit <= 255,
                weight > 0,
        ;
        assert(pow2((8 * groups) as nat) == 256 * weight);
    }
}

/// A blob cut off at sixteen groups spells a number of 128 bits.
pub proof fn lemma_blob_fits(bytes: Seq<u8>, groups: nat)
    ensures
        blob_value(bytes, groups, 16) <= u128::MAX,
    decreases groups,
{
    if groups <= 16 {
        lemma_blob_bound(bytes, groups, 16);
        lemma_pow2_adds((8 * groups) as nat, (128 - 8 * groups) as nat);
        lemma_pow2_pos((128 - 8 * groups) as nat);
        lemma_pow2_adds(64, 64);
        lemma2_to64();
        let low = pow2((8 * groups) as nat);
        let slack = pow2((128 - 8 * groups) as nat);
        assert(low <= low * slack) by (nonlinear_arith)
            requires
                low >= 0,
                slack >= 1,
        ;
    } else {
        lemma_blob_fits(bytes, (groups - 1) as nat);
    }
}

/// Decodes a blob, a string of three-character decimal groups, as a
/// little-endian base-256 integer of 128 bits.
pub fn blob_to_num(text: &str) -> (value: u128)
    requires
        text.spec_bytes().len() % 3 == 0,
    ensures
        value == blob_value(text.spec_bytes(), text.spec_bytes().len() / 3, 16),
{
    let bytes: &[u8] = text.as_bytes();
    let groups: usize = bytes.len() / 3;
    let mut num: u128 = 0;
    let mut weight: u128 = 1;
    let mut group: usize = 0;
    proof {
        lemma2_to64();
    }
    while group < groups
        invariant
            bytes@ == text.spec_bytes(),
            groups == bytes@.len() / 3,
            bytes@.len() % 3 == 0,
            bytes@.len() <= usize::MAX,
            group <= groups,
            num == blob_value(bytes@, group as nat, 16),
            group < 16 ==> weight == pow2((8 * group) as nat),
        decreases groups - group,
    {
        let digit: u8 = read_group(bytes[3 * group], bytes[3 * group + 1], bytes[3 * group + 2]);
        if group < 16 {
            proof {
                lemma_blob_bound(bytes@, group as nat, 16);
                lemma_blob_bound(bytes@, (group + 1) as nat, 16);
                lemma_pow2_adds(8, (8 * group) as nat);
                lemma_pow2_adds(64, 64);
                lemma_pow2_adds((8 * (group + 1)) as nat, (128 - 8 * (group + 1)) as nat);
                lemma_pow2_pos((128 - 8 * (group + 1)) as nat);
                lemma2_to64();
                let next = pow2((8 * (group + 1)) as nat);
                let slack = pow2((128 - 8 * (group + 1)) as nat);
                assert(next <= next * slack) by (nonlinear_arith)
                    requires
                        next >= 0,
                        slack >= 1,
                ;
                assert(next <= 0x1_0000_0000_0000_0000_0000_0000_0000_0000);
                assert(digit * weight <= 255 * weight) by (nonlinear_arith)
                    requires
                        0 <= digit <= 255,
                        weight >= 0,
                ;
            }
            num = num + (digit as u128) * weight;
            if group < 15 {
                proof {
                    lemma_pow2_adds((8 * (group + 2)) as nat, (128 - 8 * (group + 2)) as nat);
                    lemma_pow2_pos((128 - 8 * (group + 2)) as nat);
                    lemma_pow2_adds(8, (8 * (group + 1)) as nat);
                    let after = pow2((8 * (group + 2)) as nat);
                    let slack = pow2((128 - 8 * (group + 2)) as nat);
                    assert(after <= after * slack) by (nonlinear_arith)
                        requires
                            after >= 0,
                            slack >= 1,
                    ;
                }
                weight = weight * 256;
            }
        }
        group = group + 1;
    }
    num
}

/// Decodes a blob as a little-endian base-256 integer of any size.
pub fn bigblob_to_num(text: &str) -> (number: num::BigUint)
    requires
        text.spec_bytes().len() % 3 == 0,
    ensures
        big_value(number) == blob_value(
            text.spec_bytes(),
            text.spec_bytes().len() / 3,
            text.spec_bytes().len() / 3,
        ),
{
    let bytes: &[u8] = text.as_bytes();
    let groups: usize = bytes.len() / 3;
    let mut number: num::BigUint = big_from(0);
    let mut group: usize = 0;
    while group < groups
        invariant
            bytes@ == text.spec_bytes(),
            groups == bytes@.len() / 3,
            bytes@.len() % 3 == 0,
            bytes@.len() <= usize::MAX,
            group <= groups,
            big_value(number) == blob_value(bytes@, group as nat, groups as nat),
        decreases groups - group,
    {
        let digit: u8 = read_group(bytes[3 * group], bytes[3 * group + 1], bytes[3 * group + 2]);
        let shifted: num::BigUint = big_shl(big_from(digit), 8 * (group as u128));
        big_add(&mut number, shifted);
        group = group + 1;
    }
    number
}

/// `bytes` with zero bytes behind them until they are `width` long.
pub open spec fn zero_filled(bytes: Seq<u8>, width: nat) -> Seq<u8> {
    if bytes.len() >= width {
        bytes
    } else {
        bytes + Seq::new((width - bytes.len()) as nat, |i: int| 0u8)
    }
}

/// The hexadecimal text of the digest that a blob spells: the bytes of
/// its number, least significant first, filled up to twenty bytes, in lower
/// case.
pub open spec fn blob_digest_text(bytes: Seq<u8>) -> Seq<char> {
    hex_text(
        zero_filled(le_digits(blob_value(bytes, bytes.len() / 3, bytes.len() / 3)), 20),
        false,
    )
}

/// Decodes a blob that spells a digest and renders it as hexadecimal text.
pub fn blob_to_digest(text: &str) -> (digest: String)
    requires
        text.spec_bytes().len() % 3 == 0,
    ensures
        digest@ == blob_digest_text(text.spec_bytes()),
{
    let number: num::BigUint = bigblob_to_num(text);
    let mut bytes: Vec<u8> = big_bytes(&number);
    let ghost digits = bytes@;
    while bytes.len() < 20
        invariant
            digits.len() <= bytes@.len() <= 20 || bytes@ == digits,
            bytes@ == digits + Seq::new((bytes@.len() - digits.len()) as nat, |i: int| 0u8),
        decreases 20 - bytes@.len(),
    {
        let ghost before = bytes@;
        bytes.push(0);
        assert(bytes@ =~= digits + Seq::new((bytes@.len() - digits.len()) as nat, |i: int| 0u8));
    }
    assert(bytes@ =~= zero_filled(digits, 20));
    to_hex(bytes.as_slice())
}

/// Appending a group of zeros to a blob does not change the number that
/// it spells.
pub proof fn lemma_blob_trailing_zeros(bytes: Seq<u8>, limit: nat)
    requires
        bytes.len() % 3 == 0,
    ensures
        blob_value(bytes + seq![48u8, 48u8, 48u8], (bytes.len() / 3 + 1) as nat, limit)
            == blob_value(bytes, bytes.len() / 3, limit),
{
    let longer = bytes + seq![48u8, 48u8, 48u8];
    let groups = bytes.len() / 3;
    lemma_blob_prefix(bytes, longer, groups, limit);
    assert(blob_byte(longer, groups as int) == 0);
    assert(0 * pow2((8 * groups) as nat) == 0);
}

/// Where a blob is cut off behind all of its groups, it does not matter
/// how far behind: no group is shifted out.
pub proof fn lemma_blob_uncut(bytes: Seq<u8>, groups: nat, first: nat, second: nat)
    requires
        groups <= first,
        groups <= second,
    ensures
        blob_value(bytes, groups, first) == blob_value(bytes, groups, second),
    decreases groups,
{
    if groups > 0 {
        lemma_blob_uncut(bytes, (groups - 1) as nat, first, second);
    }
}

/// Appending a group of zeros to a blob does not change the number of any
/// size that it spells.
pub proof fn lemma_bigblob_trailing_zeros(bytes: Seq<u8>)
    requires
        bytes.len() % 3 == 0,
    ensures
        blob_value(
            bytes + seq![48u8, 48u8, 48u8],
            (bytes.len() / 3 + 1) as nat,
            (bytes.len() / 3 + 1) as nat,
        ) == blob_value(bytes, bytes.len() / 3, bytes.len() / 3),
{
    let groups = bytes.len() / 3;
    lemma_blob_trailing_zeros(bytes, (groups + 1) as nat);
    lemma_blob_uncut(bytes, groups, (groups + 1) as nat, groups);
}

/// Two blobs that agree on their first `groups` groups spell the same
/// number there.
pub proof fn lemma_blob_prefix(first: Seq<u8>, second: Seq<u8>, groups: nat, limit: nat)
    requires
        3 * groups <= first.len(),
        3 * groups <= second.len(),
        forall|i: int| 0 <= i < 3 * groups ==> first[i] == second[i],
    ensures
        blob_value(first, groups, limit) == blob_value(second, groups, limit),
    decreases groups,
{
    if groups > 0 {
        lemma_blob_prefix(first, second, (groups - 1) as nat, limit);
    }
}

/// Why a text could not be read as hexadecimal bytes.
#[derive(Debug, Clone, Copy, PartialEq, Eq)]
pub enum HexError {
    /// The text has an odd number of bytes.
    OddLength,
    /// A pair of characters is not the hexadecimal form of a byte.
    InvalidDigit,
}

/// The value of a hexadecimal digit, in either case.
pub open spec fn hex_value(byte: u8) -> Option<int> {
    if 48 <= byte <= 57 {
        Some(byte - 48)
    } else if 97 <= byte <= 102 {
        Some(byte - 87)
    } else if 65 <= byte <= 70 {
        Some(byte - 55)
    } else {
        None
    }
}

/// The byte that a pair of characters stands for: two hexadecimal digits,
/// or a plus sign and one hexadecimal digit.
pub open spec fn hex_pair(b0: u8, b1: u8) -> Option<int> {
    match hex_value(b1) {
        Some(low) => match hex_value(b0) {
            Some(high) => Some(16 * high + low),
            None => if b0 == 43 {
                Some(low)
            } else {
                None
            },
        },
        None => None,
    }
}

/// Computes the value of a hexadecimal digit.
pub fn read_hex_digit(byte: u8) -> (value: Option<u8>)
    ensures
        match value {
            Some(v) => hex_value(byte) == Some(v as int),
            None => hex_value(byte) is None,
        },
{
    if 48 <= byte && byte <= 57 {
        Some(byte - 48)
    } else if 97 <= byte && byte <= 102 {
        Some(byte - 87)
    } else if 65 <= byte && byte <= 70 {
        Some(byte - 55)
    } else {
        None
    }
}

/// Reads a text of hexadecimal pairs as bytes.
pub fn decode_hex(s: &str) -> (decoded: Result<Vec<u8>, HexError>)
    ensures
        match decoded {
            Ok(bytes) => {
                &&& s.spec_bytes().len() == 2 * bytes@.len()
                &&& forall|i: int|
                    0 <= i < bytes@.len() ==> hex_pair(
                        #[trigger] s.spec_bytes()[2 * i],
                        s.spec_bytes()[2 * i + 1],
                    ) == Some(bytes@[i] as int)
            },
            Err(HexError::OddLength) => s.spec_bytes().len() % 2 == 1,
            Err(HexError::InvalidDigit) => {
                &&& s.spec_bytes().len() % 2 == 0
                &&& exists|i: int|
                    0 <= i < s.spec_bytes().len() / 2 && hex_pair(
                        #[trigger] s.spec_bytes()[2 * i],
                        s.spec_bytes()[2 * i + 1],
                    ) is None
            },
        },
{
    let text: &[u8] = s.as_bytes();
    if text.len() % 2 != 0 {
        return Err(HexError::OddLength);
    }
    let mut bytes: Vec<u8> = Vec::new();
    let mut i: usize = 0;
    while i < text.len() / 2
        invariant
            text@ == s.spec_bytes(),
            text@.len() % 2 == 0,
            text@.len() <= usize::MAX,
            i <= text@.len() / 2,
            bytes@.len() == i,
            forall|j: int|
                0 <= j < i ==> hex_pair(#[trigger] text@[2 * j], text@[2 * j + 1]) == Some(
                    bytes@[j] as int,
                ),
        decreases text@.len() / 2 - i,
    {
        let b0: u8 = text[2 * i];
        let low: Option<u8> = read_hex_digit(text[2 * i + 1]);
        let high: Option<u8> = read_hex_digit(b0);
        let byte: u8 = match low {
            Some(l) => match high {
                Some(h) => 16 * h + l,
                None => {
                    if b0 == 43 {
                        l
                    } else {
                        assert(hex_pair(text@[2 * i], text@[2 * i + 1]) is None);
                        return Err(HexError::InvalidDigit);
                    }
                },
            },
            None => {
                assert(hex_pair(text@[2 * i], text@[2 * i + 1]) is None);
                return Err(HexError::InvalidDigit);
            },
        };
        bytes.push(byte);
        i = i + 1;
    }
    Ok(bytes)
}

/// Whether two slices hold equal elements at every index and have the same
/// length.
pub fn do_vecs_match<T: PartialEq>(a: &[T], b: &[T]) -> (same: bool)
    ensures
        T::obeys_eq_spec() ==> same == (a@.len() == b@.len() && forall|i: int|
            0 <= i < a@.len() ==> (#[trigger] a@[i]).eq_spec(&b@[i])),
{
    if a.len() != b.len() {
        return false;
    }
    let mut i: usize = 0;
    while i < a.len()
        invariant
            a@.len() == b@.len(),
            i <= a@.len(),
            T::obeys_eq_spec() ==> forall|j: int| 0 <= j < i ==> (#[trigger] a@[j]).eq_spec(&b@[j]),
        decreases a@.len() - i,
    {
        if !(a[i] == b[i]) {
            return false;
        }
        i = i + 1;
    }
    true
}

} // verus!
