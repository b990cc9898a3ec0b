//! The calls this library makes into other crates and into parts of the
//! standard library that the verifier has no description of. Each contract
//! in this file is taken on trust from the documentation of the function
//! that is called.

use crate::api::json::Json;
use sha1::Digest;
use std::io::Read;
use std::io::Write;
use vstd::arithmetic::power2::pow2;
use vstd::prelude::*;

verus! {

/// The SHA-1 digest of a byte string.
pub uninterp spec fn sha1_digest(data: Seq<u8>) -> Seq<u8>;

/// What a zlib stream decompresses to; `None` where the decoder reports an
/// error.
pub uninterp spec fn zlib_inflated(stream: Seq<u8>) -> Option<Seq<u8>>;

/// The zlib stream that the encoder produces for `data` at its default
/// level; `None` where the encoder reports an error.
pub uninterp spec fn zlib_deflated(data: Seq<u8>) -> Option<Seq<u8>>;

/// The text that lossy UTF-16 decoding gives for a sequence of code units.
pub uninterp spec fn utf16_lossy(units: Seq<u16>) -> Seq<char>;

/// The upper-case form of a text under the Unicode case mapping.
pub uninterp spec fn uppercase(text: Seq<char>) -> Seq<char>;

/// The serialization of the URL that `text` parses to; `None` where it does
/// not parse.
pub uninterp spec fn url_normal_form(text: Seq<char>) -> Option<Seq<char>>;

/// Calls `sha1::Sha1::digest`. Claimed: the result is the SHA-1 digest of
/// `data`, which has twenty bytes.
#[verifier::external_body]
pub(crate) fn sha1_of(data: &[u8]) -> (digest: Vec<u8>)
    ensures
        digest@ == sha1_digest(data@),
        digest@.len() == 20,
{
    sha1::Sha1::digest(data).to_vec()
}

/// Reads a `flate2::read::ZlibDecoder` over `stream` to its end. Claimed:
/// the outcome depends on `stream` alone.
#[verifier::external_body]
pub(crate) fn inflate(stream: &[u8]) -> (data: Option<Vec<u8>>)
    ensures
        match data {
            Some(bytes) => zlib_inflated(stream@) == Some(bytes@),
            None => zlib_inflated(stream@) is None,
        },
{
    let mut bytes: Vec<u8> = Vec::new();
    match flate2::read::ZlibDecoder::new(stream).read_to_end(&mut bytes) {
        Ok(_) => Some(bytes),
        Err(_) => None,
    }
}

/// Writes `data` through a `flate2::write::ZlibEncoder` at the default
/// compression level and finishes it. Claimed: the outcome depends on `data`
/// alone.
#[verifier::external_body]
pub(crate) fn deflate(data: &[u8]) -> (stream: Option<Vec<u8>>)
    ensures
        match stream {
            Some(bytes) => zlib_deflated(data@) == Some(bytes@),
            None => zlib_deflated(data@) is None,
        },
{
    let mut encoder = flate2::write::ZlibEncoder::new(Vec::new(), flate2::Compression::default());
    match encoder.write_all(data) {
        Ok(_) => encoder.finish().ok(),
        Err(_) => None,
    }
}

/// Calls `std::str::from_utf8`. Claimed: it succeeds exactly on well-formed
/// UTF-8, and the text it gives is encoded by the bytes it was given.
#[verifier::external_body]
pub(crate) fn utf8_text(bytes: &[u8]) -> (text: Option<String>)
    ensures
        match text {
            Some(s) => vstd::utf8::valid_utf8(bytes@) && vstd::utf8::encode_utf8(s@) == bytes@,
            None => !vstd::utf8::valid_utf8(bytes@),
        },
{
    match std::str::from_utf8(bytes) {
        Ok(s) => Some(s.to_string()),
        Err(_) => None,
    }
}

/// Calls `String::from_utf16_lossy`. Claimed: the outcome depends on the
/// code units alone.
#[verifier::external_body]
pub(crate) fn utf16_text(units: &[u16]) -> (text: String)
    ensures
        text@ == utf16_lossy(units@),
{
    String::from_utf16_lossy(units)
}

/// Calls `str::to_uppercase`. Claimed: the outcome depends on the text
/// alone.
#[verifier::external_body]
pub(crate) fn upper(text: &str) -> (raised: String)
    ensures
        raised@ == uppercase(text@),
{
    text.to_uppercase()
}

/// Calls `url::Url::parse` and takes the serialization of the URL it
/// returns. Claimed: the outcome depends on the text alone.
#[verifier::external_body]
pub(crate) fn parse_url(text: &str) -> (normal: Option<String>)
    ensures
        match normal {
            Some(s) => url_normal_form(text@) == Some(s@),
            None => url_normal_form(text@) is None,
        },
{
    match url::Url::parse(text) {
        Ok(parsed) => Some(String::from(parsed)),
        Err(_) => None,
    }
}

/// The path segments of the URL that `text` parses to; `None` where it does
/// not parse or the URL cannot be a base.
pub uninterp spec fn url_segments(text: Seq<char>) -> Option<Seq<Seq<char>>>;

/// The serialization of the URL that `text` parses to, once it was given
/// `path` as its path and lost its query and its fragment; `None` where
/// `text` does not parse.
pub uninterp spec fn url_at_path(text: Seq<char>, path: Seq<char>) -> Option<Seq<char>>;

/// Calls `url::Url::parse` and `url::Url::path_segments`, and copies the
/// segments. Claimed: the outcome depends on the text alone.
#[verifier::external_body]
pub(crate) fn path_segments(text: &str) -> (segments: Option<Vec<String>>)
    ensures
        match segments {
            Some(list) => url_segments(text@) == Some(list@.map_values(|s: String| s@)),
            None => url_segments(text@) is None,
        },
{
    match url::Url::parse(text) {
        Ok(parsed) => parsed.path_segments().map(|parts| parts.map(String::from).collect()),
        Err(_) => None,
    }
}

/// Calls `url::Url::parse`, then `set_path` with `path`, `set_query` and
/// `set_fragment` with nothing, and takes the serialization of the URL.
/// Claimed: the outcome depends on the two texts alone.
#[verifier::external_body]
pub(crate) fn with_path(text: &str, path: &str) -> (url: Option<String>)
    ensures
        match url {
            Some(s) => url_at_path(text@, path@) == Some(s@),
            None => url_at_path(text@, path@) is None,
        },
{
    match url::Url::parse(text) {
        Ok(mut parsed) => {
            parsed.set_path(path);
            parsed.set_query(None);
            parsed.set_fragment(None);
            Some(String::from(parsed))
        },
        Err(_) => None,
    }
}

/// A parsed JSON value of `serde_json`.
#[verifier::external_type_specification]
#[verifier::external_body]
pub struct ExJsonValue(serde_json::Value);

/// What a parsed JSON value holds, as plain data.
pub uninterp spec fn json_shape(value: serde_json::Value) -> Json;

/// The JSON document that a byte string is; `None` where it is none.
pub uninterp spec fn json_document(bytes: Seq<u8>) -> Option<Json>;

/// Calls `serde_json::from_slice` for a `serde_json::Value`. Claimed: the
/// outcome depends on the bytes alone.
#[verifier::external_body]
pub(crate) fn read_json(data: &[u8]) -> (value: Option<serde_json::Value>)
    ensures
        match value {
            Some(parsed) => json_document(data@) == Some(json_shape(parsed)),
            None => json_document(data@) is None,
        },
{
    match serde_json::from_slice::<serde_json::Value>(data) {
        Ok(parsed) => Some(parsed),
        Err(_) => None,
    }
}

/// Copies a `serde_json::Value` into plain data, variant by variant: a
/// number as the text that `to_string` gives for it, the items of an array
/// and the members of an object in the order of their iterators.
#[verifier::external_body]
pub(crate) fn json_tree(value: &serde_json::Value) -> (tree: Json)
    ensures
        tree == json_shape(*value),
{
    match value {
        serde_json::Value::Null => Json::Null,
        serde_json::Value::Bool(flag) => Json::Bool(*flag),
        serde_json::Value::Number(number) => Json::Number(number.to_string()),
        serde_json::Value::String(text) => Json::Text(text.clone()),
        serde_json::Value::Array(items) => Json::Array(items.iter().map(json_tree).collect()),
        serde_json::Value::Object(members) => Json::Object(
            members.iter().map(|(name, item)| (name.clone(), json_tree(item))).collect(),
        ),
    }
}

/// An unsigned integer of any size, `num::BigUint`.
#[verifier::external_type_specification]
#[verifier::external_body]
pub struct ExBigUint(num::BigUint);

/// The number that a big integer holds.
pub uninterp spec fn big_value(number: num::BigUint) -> nat;

/// Calls `num::BigUint::from` on a byte. Claimed: the result holds the
/// value of the byte.
#[verifier::external_body]
pub(crate) fn big_from(byte: u8) -> (number: num::BigUint)
    ensures
        big_value(number) == byte,
{
    num::BigUint::from(byte)
}

/// Shifts a `num::BigUint` left with `<<`. Claimed: the result holds the
/// value times two to the power of the shift. The shift is kept to what a
/// text of the largest size calls for, which the digits of the result have
/// room for.
#[verifier::external_body]
pub(crate) fn big_shl(number: num::BigUint, shift: u128) -> (shifted: num::BigUint)
    requires
        shift <= 8 * (usize::MAX / 3),
    ensures
        big_value(shifted) == big_value(number) * pow2(shift as nat),
{
    number << shift
}

/// Adds a `num::BigUint` to another with `+=`. Claimed: the sum of the
/// two values is left in the first.
#[verifier::external_body]
pub(crate) fn big_add(total: &mut num::BigUint, number: num::BigUint)
    ensures
        big_value(*final(total)) == big_value(*old(total)) + big_value(number),
{
    *total += number;
}

/// The bytes of a number in base 256, least significant first, without
/// zeros at the end; zero is one zero byte.
pub open spec fn le_digits(value: nat) -> Seq<u8>
    decreases value,
{
    if value < 256 {
        seq![value as u8]
    } else {
        seq![(value % 256) as u8] + le_digits(value / 256)
    }
}

/// Calls `num::BigUint::to_bytes_le`. Claimed: the result is the value in
/// base 256, least significant byte first, without zero bytes at the end,
/// and one zero byte for zero.
#[verifier::external_body]
pub(crate) fn big_bytes(number: &num::BigUint) -> (bytes: Vec<u8>)
    ensures
        bytes@ == le_digits(big_value(*number)),
{
    number.to_bytes_le()
}

} // verus!
