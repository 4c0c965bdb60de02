//! Reading single values out of JSON text.
//!
//! A value is named by a pointer: `/a/b` is the member `b` of the member `a`.

use crate::text::{hex_fixed, text_of};
use vstd::prelude::*;

verus! {

/// Whether a byte string is JSON.
pub uninterp spec fn is_json(data: Seq<u8>) -> bool;

/// The text at a pointer; none if the data is not JSON, or there is no value,
/// or it is no text.
pub uninterp spec fn json_text_at(data: Seq<u8>, pointer: Seq<char>) -> Option<Seq<char>>;

/// The number at a pointer, as the bits of the double nearest to it.
pub uninterp spec fn json_double_at(data: Seq<u8>, pointer: Seq<char>) -> Option<u64>;

/// The number at a pointer, if it is an integer of 64 bits.
pub uninterp spec fn json_integer_at(data: Seq<u8>, pointer: Seq<char>) -> Option<i64>;

/// Whether the value at a pointer is `null`; none if there is no value.
pub uninterp spec fn json_null_at(data: Seq<u8>, pointer: Seq<char>) -> Option<bool>;

/// The length of the array at a pointer.
pub uninterp spec fn json_array_at(data: Seq<u8>, pointer: Seq<char>) -> Option<nat>;

/// The value at a pointer, written as JSON.
pub uninterp spec fn json_value_at(data: Seq<u8>, pointer: Seq<char>) -> Option<Seq<char>>;

// ── Texts in JSON ──

/// A character inside a JSON text.
pub open spec fn json_char(c: char) -> Seq<char> {
    if c == '"' {
        seq!['\\', '"']
    } else if c == '\\' {
        seq!['\\', '\\']
    } else if c == '\u{8}' {
        seq!['\\', 'b']
    } else if c == '\t' {
        seq!['\\', 't']
    } else if c == '\n' {
        seq!['\\', 'n']
    } else if c == '\u{c}' {
        seq!['\\', 'f']
    } else if c == '\r' {
        seq!['\\', 'r']
    } else if (c as u32) < 0x20 {
        seq!['\\', 'u'] + hex_fixed(c as nat, 4)
    } else {
        seq![c]
    }
}

/// What stands between the quotation marks of a JSON text.
pub open spec fn json_chars(s: Seq<char>) -> Seq<char>
    decreases s.len(),
{
    if s.len() == 0 {
        Seq::empty()
    } else {
        json_char(s[0]) + json_chars(s.drop_first())
    }
}

/// A text, written as JSON.
pub open spec fn json_quoted(s: Seq<char>) -> Seq<char> {
    seq!['"'] + json_chars(s) + seq!['"']
}

/// `Value::to_string` on a text: between quotation marks the characters of the
/// text, with quotation marks, backslashes and control characters escaped.
#[verifier::external_body]
pub(crate) fn json_quote(s: &str) -> (r: String)
    ensures
        r@ == json_quoted(s@),
{
    serde_json::Value::from(s).to_string()
}

// ── Values ──

/// `Value::pointer` and `Value::to_string` on what `serde_json::from_slice`
/// gives. Only named.
#[verifier::external_body]
pub(crate) fn json_value(data: &[u8], pointer: &str) -> (r: Option<String>)
    ensures
        text_of(r) == json_value_at(data@, pointer@),
{
    let value: serde_json::Value = serde_json::from_slice(data).ok()?;
    value.pointer(pointer).map(|v| v.to_string())
}

/// `serde_json::from_slice` into a `Value`: whether it succeeds. Only named.
#[verifier::external_body]
pub(crate) fn check_json(data: &[u8]) -> (r: bool)
    ensures
        r == is_json(data@),
{
    serde_json::from_slice::<serde_json::Value>(data).is_ok()
}

/// `Value::pointer` and `Value::as_str` on what `serde_json::from_slice` gives.
/// Only named.
#[verifier::external_body]
pub(crate) fn json_text(data: &[u8], pointer: &str) -> (r: Option<String>)
    ensures
        text_of(r) == json_text_at(data@, pointer@),
{
    let value: serde_json::Value = serde_json::from_slice(data).ok()?;
    value.pointer(pointer)?.as_str().map(|s| s.to_string())
}

/// `Value::pointer` and `Value::as_f64` on what `serde_json::from_slice` gives,
/// as bits. Only named.
#[verifier::external_body]
pub(crate) fn json_double(data: &[u8], pointer: &str) -> (r: Option<u64>)
    ensures
        r == json_double_at(data@, pointer@),
{
    let value: serde_json::Value = serde_json::from_slice(data).ok()?;
    value.pointer(pointer)?.as_f64().map(|d| d.to_bits())
}

/// `Value::pointer` and `Value::as_i64` on what `serde_json::from_slice` gives.
/// Only named.
#[verifier::external_body]
pub(crate) fn json_integer(data: &[u8], pointer: &str) -> (r: Option<i64>)
    ensures
        r == json_integer_at(data@, pointer@),
{
    let value: serde_json::Value = serde_json::from_slice(data).ok()?;
    value.pointer(pointer)?.as_i64()
}

/// `Value::pointer` and `Value::is_null` on what `serde_json::from_slice`
/// gives. Only named.
#[verifier::external_body]
pub(crate) fn json_null(data: &[u8], pointer: &str) -> (r: Option<bool>)
    ensures
        r == json_null_at(data@, pointer@),
{
    let value: serde_json::Value = serde_json::from_slice(data).ok()?;
    value.pointer(pointer).map(|v| v.is_null())
}

/// `Value::pointer` and `Value::as_array` on what `serde_json::from_slice`
/// gives: how many elements there are. Only named.
#[verifier::external_body]
pub(crate) fn json_array(data: &[u8], pointer: &str) -> (r: Option<usize>)
    ensures
        match r {
            Some(n) => json_array_at(data@, pointer@) == Some(n as nat),
            None => json_array_at(data@, pointer@) is None,
        },
{
    let value: serde_json::Value = serde_json::from_slice(data).ok()?;
    value.pointer(pointer)?.as_array().map(|a| a.len())
}

} // verus!
