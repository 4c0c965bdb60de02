//! Byte strings as hexadecimal text.

use crate::text::hex_digit;
use vstd::prelude::*;

verus! {

/// Two lower case digits per byte.
pub open spec fn hex_text(b: Seq<u8>) -> Seq<char> {
    Seq::new(
        2 * b.len(),
        |i: int|
            if i % 2 == 0 {
                hex_digit((b[i / 2] / 16) as nat)
            } else {
                hex_digit((b[i / 2] % 16) as nat)
            },
    )
}

/// Whether `c` is a hexadecimal digit, in either case.
pub open spec fn is_hex_digit(c: char) -> bool {
    let n = c as u32;
    48 <= n <= 57 || 65 <= n <= 70 || 97 <= n <= 102
}

/// The value of a hexadecimal digit.
pub open spec fn hex_value(c: char) -> nat {
    let n = c as u32;
    if n <= 57 {
        (n - 48) as nat
    } else if n <= 70 {
        (n - 55) as nat
    } else {
        (n - 87) as nat
    }
}

/// The bytes that a hexadecimal text stands for: an even number of digits.
pub open spec fn hex_bytes(s: Seq<char>) -> Option<Seq<u8>> {
    if s.len() % 2 == 0 && (forall|i: int| 0 <= i < s.len() ==> is_hex_digit(#[trigger] s[i])) {
        Some(
            Seq::new(
                s.len() / 2,
                |i: int| (hex_value(s[2 * i]) * 16 + hex_value(s[2 * i + 1])) as u8,
            ),
        )
    } else {
        None
    }
}

/// How `hex::decode` describes what is wrong with this text.
pub uninterp spec fn hex_error_text(s: Seq<char>) -> Seq<char>;

/// `hex::encode`: two lower case digits per byte.
#[verifier::external_body]
pub(crate) fn hex_encode(b: &[u8]) -> (r: String)
    ensures
        r@ == hex_text(b@),
{
    hex::encode(b)
}

/// `hex::decode`: takes an even number of digits, in either case, and nothing
/// else. The wording of its error is only named.
#[verifier::external_body]
pub(crate) fn hex_decode(s: &str) -> (r: Result<Vec<u8>, String>)
    ensures
        match hex_bytes(s@) {
            Some(b) => r matches Ok(v) && v@ == b,
            None => r matches Err(e) && e@ == hex_error_text(s@),
        },
{
    hex::decode(s).map_err(|e| e.to_string())
}

/// What was written in hexadecimal reads back.
pub proof fn law_hex_reads_back(b: Seq<u8>)
    ensures
        hex_bytes(hex_text(b)) == Some(b),
{
    let s = hex_text(b);
    assert forall|i: int| 0 <= i < s.len() implies is_hex_digit(#[trigger] s[i]) by {}
    assert forall|i: int| 0 <= i < b.len() implies (hex_value(s[2 * i]) * 16 + hex_value(
        s[2 * i + 1],
    )) as u8 == #[trigger] b[i] by {
        assert((2 * i) / 2 == i && (2 * i) % 2 == 0);
        assert((2 * i + 1) / 2 == i && (2 * i + 1) % 2 == 1);
    }
    assert(hex_bytes(s)->Some_0 =~= b);
}

} // verus!
