//! Standard Base64, with padding.

use vstd::prelude::*;

verus! {

/// The digit of value `v`.
#[verifier::opaque]
pub open spec fn digit64(v: nat) -> char {
    if v < 26 {
        (65 + v) as char
    } else if v < 52 {
        (71 + v) as char
    } else if v < 62 {
        (v - 4) as char
    } else if v == 62 {
        '+'
    } else {
        '/'
    }
}

/// The value of a digit.
#[verifier::opaque]
pub open spec fn value64(c: char) -> nat {
    let n = c as u32;
    if 65 <= n <= 90 {
        (n - 65) as nat
    } else if 97 <= n <= 122 {
        (n - 71) as nat
    } else if 48 <= n <= 57 {
        (n + 4) as nat
    } else if c == '+' {
        62
    } else {
        63
    }
}

/// Three bytes as four digits: the 24 bits, six at a time.
pub open spec fn quad(a: u8, b: u8, c: u8) -> Seq<char> {
    seq![
        digit64((a / 4) as nat),
        digit64(((a % 4) * 16 + b / 16) as nat),
        digit64(((b % 16) * 4 + c / 64) as nat),
        digit64((c % 64) as nat),
    ]
}

/// The Base64 text of `s`.
pub open spec fn base64(s: Seq<u8>) -> Seq<char>
    decreases s.len(),
{
    if s.len() == 0 {
        Seq::empty()
    } else if s.len() == 1 {
        quad(s[0], 0, 0).take(2) + seq!['=', '=']
    } else if s.len() == 2 {
        quad(s[0], s[1], 0).take(3) + seq!['=']
    } else {
        quad(s[0], s[1], s[2]) + base64(s.skip(3))
    }
}

/// The 24 bits of four digits, as three bytes.
pub open spec fn triple(t: Seq<char>) -> Seq<u8> {
    let n = ((value64(t[0]) * 64 + value64(t[1])) * 64 + value64(t[2])) * 64 + value64(t[3]);
    seq![(n / 65536) as u8, (n / 256 % 256) as u8, (n % 256) as u8]
}

/// The bytes that a Base64 text stands for.
pub open spec fn decode64(t: Seq<char>) -> Seq<u8>
    decreases t.len(),
{
    if t.len() < 4 {
        Seq::empty()
    } else if t[2] == '=' {
        triple(seq![t[0], t[1], 'A', 'A']).take(1)
    } else if t[3] == '=' {
        triple(seq![t[0], t[1], t[2], 'A']).take(2)
    } else {
        triple(t.take(4)) + decode64(t.skip(4))
    }
}

proof fn lemma_digit_value(v: nat)
    requires
        v < 64,
    ensures
        value64(digit64(v)) == v,
        digit64(v) != '=',
{
    reveal(digit64);
    reveal(value64);
}

proof fn lemma_sextets(a: int, b: int, c: int)
    requires
        0 <= a < 256,
        0 <= b < 256,
        0 <= c < 256,
    ensures
        ({
            let n = (((a / 4) * 64 + (a % 4) * 16 + b / 16) * 64 + (b % 16) * 4 + c / 64) * 64 + c
                % 64;
            n / 65536 == a && n / 256 % 256 == b && n % 256 == c
        }),
{
    let n = (((a / 4) * 64 + (a % 4) * 16 + b / 16) * 64 + (b % 16) * 4 + c / 64) * 64 + c % 64;
    assert(n == a * 65536 + b * 256 + c);
    assert(n / 65536 == a);
    assert(n / 256 == a * 256 + b);
}

pub proof fn lemma_quad(a: u8, b: u8, c: u8)
    ensures
        triple(quad(a, b, c)) == seq![a, b, c],
{
    let p = (a / 4) as nat;
    let q = ((a % 4) * 16 + b / 16) as nat;
    let r = ((b % 16) * 4 + c / 64) as nat;
    let s = (c % 64) as nat;
    assert(p < 64 && q < 64 && r < 64 && s < 64);
    lemma_digit_value(p);
    lemma_digit_value(q);
    lemma_digit_value(r);
    lemma_digit_value(s);
    lemma_sextets(a as int, b as int, c as int);
    assert(triple(quad(a, b, c)) =~= seq![a, b, c]);
}

/// What was encoded decodes to itself, and the text has four characters for
/// every three bytes, the last group padded.
pub proof fn law_base64_decodes(s: Seq<u8>)
    ensures
        decode64(base64(s)) == s,
        base64(s).len() == (s.len() + 2) / 3 * 4,
    decreases s.len(),
{
    let t = base64(s);
    if s.len() == 0 {
        assert(decode64(t) =~= s);
    } else if s.len() == 1 {
        lemma_quad(s[0], 0, 0);
        assert(digit64(0) == 'A') by {
            reveal(digit64);
        }
        assert(seq![t[0], t[1], 'A', 'A'] =~= quad(s[0], 0, 0));
        assert(decode64(t) =~= s);
    } else if s.len() == 2 {
        lemma_quad(s[0], s[1], 0);
        lemma_digit_value(((s[1] % 16) * 4) as nat);
        assert(digit64(0) == 'A') by {
            reveal(digit64);
        }
        assert(seq![t[0], t[1], t[2], 'A'] =~= quad(s[0], s[1], 0));
        assert(decode64(t) =~= s);
    } else {
        law_base64_decodes(s.skip(3));
        lemma_quad(s[0], s[1], s[2]);
        lemma_digit_value(((s[1] % 16) * 4 + s[2] / 64) as nat);
        lemma_digit_value((s[2] % 64) as nat);
        assert(t.take(4) =~= quad(s[0], s[1], s[2]));
        assert(t.skip(4) =~= base64(s.skip(3)));
        assert(seq![s[0], s[1], s[2]] + s.skip(3) =~= s);
    }
}

fn digit(v: u8) -> (r: char)
    requires
        v < 64,
    ensures
        r == digit64(v as nat),
{
    reveal(digit64);
    if v < 26 {
        (65 + v) as char
    } else if v < 52 {
        (71 + v) as char
    } else if v < 62 {
        (v - 4) as char
    } else if v == 62 {
        '+'
    } else {
        '/'
    }
}

/// The Base64 text of `bytes`.
pub fn base64_encode(bytes: &[u8]) -> (r: String)
    ensures
        r@ == base64(bytes@),
{
    let mut out = String::new();
    let mut i: usize = 0;
    let n: usize = bytes.len();
    assert(out@ + base64(bytes@.skip(0)) =~= base64(bytes@)) by {
        assert(bytes@.skip(0) =~= bytes@);
    }
    while n - i >= 3
        invariant
            i <= n == bytes@.len(),
            out@ + base64(bytes@.skip(i as int)) == base64(bytes@),
        decreases n - i,
    {
        let a = bytes[i];
        let b = bytes[i + 1];
        let c = bytes[i + 2];
        let ghost before = out@;
        out.push(digit(a / 4));
        out.push(digit((a % 4) * 16 + b / 16));
        out.push(digit((b % 16) * 4 + c / 64));
        out.push(digit(c % 64));
        proof {
            let rest = bytes@.skip(i as int);
            assert(rest.skip(3) =~= bytes@.skip(i + 3));
            assert(out@ =~= before + quad(a, b, c));
            assert(before + (quad(a, b, c) + base64(rest.skip(3))) =~= out@ + base64(
                bytes@.skip(i + 3),
            ));
        }
        i = i + 3;
    }
    let ghost before = out@;
    let ghost rest = bytes@.skip(i as int);
    if n - i == 1 {
        let a = bytes[i];
        out.push(digit(a / 4));
        out.push(digit((a % 4) * 16));
        out.push('=');
        out.push('=');
        assert(out@ =~= before + base64(rest));
    } else if n - i == 2 {
        let a = bytes[i];
        let b = bytes[i + 1];
        out.push(digit(a / 4));
        out.push(digit((a % 4) * 16 + b / 16));
        out.push(digit((b % 16) * 4));
        out.push('=');
        assert(out@ =~= before + base64(rest));
    } else {
        assert(out@ =~= before + base64(rest));
    }
    out
}

/// Whether `c` is the digit of value `v`: the capitals, the small letters, the
/// decimal digits, a plus sign and a slash, in this order.
pub open spec fn has_value(c: char, v: int) -> bool {
    ||| 'A' <= c <= 'Z' && v == c as u32 - 'A' as u32
    ||| 'a' <= c <= 'z' && v == 26 + (c as u32 - 'a' as u32)
    ||| '0' <= c <= '9' && v == 52 + (c as u32 - '0' as u32)
    ||| c == '+' && v == 62
    ||| c == '/' && v == 63
}

/// Three bytes are written as four digits of the alphabet, which have the same
/// value as the three bytes read as one number.
pub proof fn law_digits(a: u8, b: u8, c: u8)
    ensures
        ({
            let n = (a as int * 256 + b as int) * 256 + c as int;
            let q = quad(a, b, c);
            &&& q.len() == 4
            &&& has_value(q[0], n / 262144)
            &&& has_value(q[1], n / 4096 % 64)
            &&& has_value(q[2], n / 64 % 64)
            &&& has_value(q[3], n % 64)
        }),
{
    let n = (a as int * 256 + b as int) * 256 + c as int;
    lemma_value((a / 4) as nat);
    lemma_value(((a % 4) * 16 + b / 16) as nat);
    lemma_value(((b % 16) * 4 + c / 64) as nat);
    lemma_value((c % 64) as nat);
    lemma_first_digits(a as int, b as int, c as int);
    lemma_last_digits(a as int, b as int, c as int);
}

proof fn lemma_value(v: nat)
    requires
        v < 64,
    ensures
        has_value(digit64(v), v as int),
{
    reveal(digit64);
}

proof fn lemma_first_digits(a: int, b: int, c: int)
    requires
        0 <= a < 256,
        0 <= b < 256,
        0 <= c < 256,
    ensures
        ((a * 256 + b) * 256 + c) / 262144 == a / 4,
        ((a * 256 + b) * 256 + c) / 4096 % 64 == (a % 4) * 16 + b / 16,
{
    let n = (a * 256 + b) * 256 + c;
    assert(n / 4096 == a * 16 + b / 16);
    assert((a * 16 + b / 16) % 64 == (a % 4) * 16 + b / 16);
}

proof fn lemma_last_digits(a: int, b: int, c: int)
    requires
        0 <= a < 256,
        0 <= b < 256,
        0 <= c < 256,
    ensures
        ((a * 256 + b) * 256 + c) / 64 % 64 == (b % 16) * 4 + c / 64,
        ((a * 256 + b) * 256 + c) % 64 == c % 64,
{
    let n = (a * 256 + b) * 256 + c;
    assert(n / 64 == a * 1024 + b * 4 + c / 64);
    assert((a * 1024 + b * 4 + c / 64) % 64 == (b % 16) * 4 + c / 64);
}

/// Whole groups of three bytes are written one behind the other; one or two
/// bytes that are left over are filled up with `=`.
pub proof fn law_groups(a: u8, b: u8, c: u8, rest: Seq<u8>)
    ensures
        base64(seq![a, b, c] + rest) == quad(a, b, c) + base64(rest),
        base64(seq![a, b]) == quad(a, b, 0).take(3) + seq!['='],
        base64(seq![a]) == quad(a, 0, 0).take(2) + seq!['=', '='],
        base64(Seq::empty()) == Seq::<char>::empty(),
{
    let s = seq![a, b, c] + rest;
    assert(s.skip(3) =~= rest);
}

} // verus!
