//! Certificates as text.

use crate::ledger::base64::{base64, digit64, quad, triple, value64};
use crate::text::{
    all_lines, begins_with, chars_of, join, join_strings, lacks, law_lines, lemma_texts_push,
    split_lines, starts_with, text_of, texts,
};
use vstd::prelude::*;

verus! {

// ── Base64 ──

/// Whether a character is a Base64 digit.
pub open spec fn is_digit64(c: char) -> bool {
    let n = c as u32;
    65 <= n <= 90 || 97 <= n <= 122 || 48 <= n <= 57 || c == '+' || c == '/'
}

/// Whether a character stands between the digits and means nothing.
pub open spec fn is_filler(c: char) -> bool {
    c == '=' || c == '\n' || c == '\r'
}

/// The digits of a text; none if there is anything else in it.
pub open spec fn digits_in(t: Seq<char>) -> Option<Seq<char>>
    decreases t.len(),
{
    if t.len() == 0 {
        Some(Seq::empty())
    } else {
        match digits_in(t.drop_last()) {
            None => None,
            Some(front) => if is_filler(t.last()) {
                Some(front)
            } else if is_digit64(t.last()) {
                Some(front.push(t.last()))
            } else {
                None
            },
        }
    }
}

/// The bytes that digits stand for: three for every four digits, one for two
/// that are left, two for three that are left.
pub open spec fn bytes_of(d: Seq<char>) -> Seq<u8>
    decreases d.len(),
{
    if d.len() < 2 {
        Seq::empty()
    } else if d.len() == 2 {
        triple(seq![d[0], d[1], 'A', 'A']).take(1)
    } else if d.len() == 3 {
        triple(seq![d[0], d[1], d[2], 'A']).take(2)
    } else {
        triple(d.take(4)) + bytes_of(d.skip(4))
    }
}

/// The bytes that a Base64 text stands for; none if it is not one.
pub open spec fn decoded(t: Seq<char>) -> Option<Seq<u8>> {
    match digits_in(t) {
        Some(d) => Some(bytes_of(d)),
        None => None,
    }
}

proof fn lemma_digits_of_digits(t: Seq<char>, d: Seq<char>)
    requires
        forall|i: int| 0 <= i < d.len() ==> is_digit64(#[trigger] d[i]),
        digits_in(t) is Some,
    ensures
        digits_in(t + d) == Some(digits_in(t)->Some_0 + d),
    decreases d.len(),
{
    let front = digits_in(t)->Some_0;
    if d.len() == 0 {
        assert(t + d =~= t);
        assert(front + d =~= front);
    } else {
        lemma_digits_of_digits(t, d.drop_last());
        assert((t + d).drop_last() =~= t + d.drop_last());
        assert((t + d).last() == d.last());
        assert(is_digit64(d[d.len() - 1]));
        assert((front + d.drop_last()).push(d.last()) =~= front + d);
    }
}

proof fn lemma_digit_is_digit(v: nat)
    requires
        v < 64,
    ensures
        is_digit64(digit64(v)),
        !is_filler(digit64(v)),
{
    reveal(digit64);
}

/// The digits of a Base64 text: all but the padding.
spec fn unpadded(s: Seq<u8>) -> Seq<char>
    decreases s.len(),
{
    if s.len() == 0 {
        Seq::empty()
    } else if s.len() == 1 {
        quad(s[0], 0, 0).take(2)
    } else if s.len() == 2 {
        quad(s[0], s[1], 0).take(3)
    } else {
        quad(s[0], s[1], s[2]) + unpadded(s.skip(3))
    }
}

proof fn lemma_unpadded(s: Seq<u8>)
    ensures
        forall|i: int| 0 <= i < unpadded(s).len() ==> is_digit64(#[trigger] unpadded(s)[i]),
        base64(s) == unpadded(s) || base64(s) == unpadded(s) + seq!['='] || base64(s) == unpadded(
            s,
        ) + seq!['=', '='],
        bytes_of(unpadded(s)) == s,
    decreases s.len(),
{
    let d = unpadded(s);
    if s.len() == 0 {
        assert(bytes_of(d) =~= s);
    } else {
        let a = s[0];
        let b = if s.len() > 1 {
            s[1]
        } else {
            0
        };
        let c = if s.len() > 2 {
            s[2]
        } else {
            0
        };
        let q = quad(a, b, c);
        lemma_digit_is_digit((a / 4) as nat);
        lemma_digit_is_digit(((a % 4) * 16 + b / 16) as nat);
        lemma_digit_is_digit(((b % 16) * 4 + c / 64) as nat);
        lemma_digit_is_digit((c % 64) as nat);
        crate::ledger::base64::lemma_quad(a, b, c);
        assert(digit64(0) == 'A') by {
            reveal(digit64);
        }
        if s.len() == 1 {
            assert(seq![d[0], d[1], 'A', 'A'] =~= q);
            assert(bytes_of(d) =~= s);
        } else if s.len() == 2 {
            assert(seq![d[0], d[1], d[2], 'A'] =~= q);
            assert(bytes_of(d) =~= s);
        } else {
            let rest = s.skip(3);
            lemma_unpadded(rest);
            let e = unpadded(rest);
            assert(d.take(4) =~= q);
            assert(d.skip(4) =~= e);
            assert(seq![a, b, c] + rest =~= s);
            assert(bytes_of(d) =~= s);
            assert forall|i: int| 0 <= i < d.len() implies is_digit64(#[trigger] d[i]) by {
                if i >= 4 {
                    assert(d[i] == e[i - 4]);
                }
            }
            if base64(rest) == e + seq!['='] {
                assert(base64(s) =~= d + seq!['=']);
            } else if base64(rest) == e + seq!['=', '='] {
                assert(base64(s) =~= d + seq!['=', '=']);
            } else {
                assert(base64(s) =~= d);
            }
        }
    }
}

/// What was written in Base64 is read back.
pub proof fn law_base64_reads_back(s: Seq<u8>)
    ensures
        decoded(base64(s)) == Some(s),
{
    lemma_unpadded(s);
    let d = unpadded(s);
    let none = Seq::<char>::empty();
    lemma_digits_of_digits(none, d);
    assert(none + d =~= d);
    assert(digits_in(none) == Some(none));
    assert(digits_in(d) == Some(d));
    let one = d + seq!['='];
    assert(one.drop_last() =~= d);
    assert(one.last() == '=');
    assert(digits_in(one) == Some(d));
    let two = d + seq!['=', '='];
    assert(two.drop_last() =~= one);
    assert(two.last() == '=');
    assert(digits_in(two) == Some(d));
}

fn digit_value(c: char) -> (r: Option<u8>)
    ensures
        match r {
            Some(v) => is_digit64(c) && v == value64(c) && v < 64,
            None => !is_digit64(c),
        },
{
    reveal(value64);
    let n = c as u32;
    if 65 <= n && n <= 90 {
        Some((n - 65) as u8)
    } else if 97 <= n && n <= 122 {
        Some((n - 71) as u8)
    } else if 48 <= n && n <= 57 {
        Some((n + 4) as u8)
    } else if c == '+' {
        Some(62)
    } else if c == '/' {
        Some(63)
    } else {
        None
    }
}

proof fn lemma_value_of_a()
    ensures
        value64('A') == 0,
{
    reveal(value64);
}

/// The three bytes that four values of six bits make up.
pub open spec fn three(a: nat, b: nat, c: nat, d: nat) -> Seq<u8> {
    let n = ((a * 64 + b) * 64 + c) * 64 + d;
    seq![(n / 65536) as u8, (n / 256 % 256) as u8, (n % 256) as u8]
}

/// Appends the first `n` of the three bytes that four values make up.
fn push_three(out: &mut Vec<u8>, a: u8, b: u8, c: u8, d: u8, n: usize)
    requires
        a < 64 && b < 64 && c < 64 && d < 64,
        1 <= n <= 3,
    ensures
        final(out)@ == old(out)@ + three(a as nat, b as nat, c as nat, d as nat).take(n as int),
{
    let ghost start = out@;
    let all: u32 = ((a as u32 * 64 + b as u32) * 64 + c as u32) * 64 + d as u32;
    out.push((all / 65536) as u8);
    if n > 1 {
        out.push((all / 256 % 256) as u8);
    }
    if n > 2 {
        out.push((all % 256) as u8);
    }
    assert(out@ =~= start + three(a as nat, b as nat, c as nat, d as nat).take(n as int));
}

/// The bytes that a Base64 text stands for.
pub fn base64_decode(input: &str) -> (r: Option<Vec<u8>>)
    ensures
        match r {
            Some(v) => decoded(input@) == Some(v@),
            None => decoded(input@) is None,
        },
{
    let chars = chars_of(input);
    let mut digits: Vec<char> = Vec::new();
    let mut values: Vec<u8> = Vec::new();
    let mut i: usize = 0;
    assert(input@.take(0) =~= Seq::empty());
    while i < chars.len()
        invariant
            i <= chars@.len(),
            chars@ == input@,
            digits_in(input@.take(i as int)) == Some(digits@),
            values@.len() == digits@.len(),
            forall|k: int|
                0 <= k < values@.len() ==> (#[trigger] values@[k]) < 64 && values@[k] == value64(
                    digits@[k],
                ),
        decreases chars@.len() - i,
    {
        let c = chars[i];
        let ghost front = input@.take(i + 1);
        assert(front.drop_last() =~= input@.take(i as int));
        if c == '=' || c == '\n' || c == '\r' {
            i = i + 1;
        } else {
            match digit_value(c) {
                Some(v) => {
                    digits.push(c);
                    values.push(v);
                    i = i + 1;
                },
                None => {
                    assert(digits_in(front) is None);
                    proof {
                        lemma_stays_none(input@, i + 1);
                    }
                    return None;
                },
            }
        }
    }
    assert(input@.take(i as int) =~= input@);
    let mut out: Vec<u8> = Vec::new();
    let n: usize = values.len();
    let mut k: usize = 0;
    assert(digits@.skip(0) =~= digits@);
    assert(out@ + bytes_of(digits@) =~= bytes_of(digits@));
    proof {
        lemma_value_of_a();
    }
    while n - k >= 4
        invariant
            k <= n == values@.len(),
            values@.len() == digits@.len(),
            forall|j: int|
                0 <= j < values@.len() ==> (#[trigger] values@[j]) < 64 && values@[j] == value64(
                    digits@[j],
                ),
            out@ + bytes_of(digits@.skip(k as int)) == bytes_of(digits@),
        decreases n - k,
    {
        let ghost rest = digits@.skip(k as int);
        let ghost before = out@;
        push_three(&mut out, values[k], values[k + 1], values[k + 2], values[k + 3], 3);
        proof {
            assert(rest.skip(4) =~= digits@.skip(k + 4));
            assert(triple(rest.take(4)).take(3) =~= triple(rest.take(4)));
            assert(before + (triple(rest.take(4)) + bytes_of(rest.skip(4))) =~= out@ + bytes_of(
                digits@.skip(k + 4),
            ));
        }
        k = k + 4;
    }
    let ghost rest = digits@.skip(k as int);
    let ghost before = out@;
    if n - k == 3 {
        push_three(&mut out, values[k], values[k + 1], values[k + 2], 0, 2);
        assert(out@ =~= before + bytes_of(rest));
    } else if n - k == 2 {
        push_three(&mut out, values[k], values[k + 1], 0, 0, 1);
        assert(out@ =~= before + bytes_of(rest));
    } else {
        assert(out@ + Seq::<u8>::empty() =~= out@);
    }
    Some(out)
}

proof fn lemma_stays_none(t: Seq<char>, i: int)
    requires
        0 <= i <= t.len(),
        digits_in(t.take(i)) is None,
    ensures
        digits_in(t) is None,
    decreases t.len() - i,
{
    if i < t.len() {
        assert(t.take(i + 1).drop_last() =~= t.take(i));
        lemma_stays_none(t, i + 1);
    } else {
        assert(t.take(i) =~= t);
    }
}

// ── PEM ──

/// The lines that do not begin with dashes.
pub open spec fn undashed(lines: Seq<Seq<char>>) -> Seq<Seq<char>>
    decreases lines.len(),
{
    if lines.len() == 0 {
        Seq::empty()
    } else if begins_with(lines.last(), "-----"@) {
        undashed(lines.drop_last())
    } else {
        undashed(lines.drop_last()).push(lines.last())
    }
}

/// The bytes in a PEM text.
pub open spec fn pem_content(pem: Seq<char>) -> Option<Seq<u8>> {
    decoded(join(undashed(all_lines(pem)), ""@))
}

/// The bytes in a PEM text.
pub fn pem_bytes(pem: &str) -> (r: Option<Vec<u8>>)
    ensures
        match r {
            Some(v) => pem_content(pem@) == Some(v@),
            None => pem_content(pem@) is None,
        },
{
    let lines = split_lines(pem);
    let ghost all = texts(lines@);
    let mut kept: Vec<String> = Vec::new();
    let mut i: usize = 0;
    assert(texts(kept@) =~= undashed(all.take(0)));
    while i < lines.len()
        invariant
            i <= lines@.len(),
            all == texts(lines@),
            texts(kept@) == undashed(all.take(i as int)),
        decreases lines@.len() - i,
    {
        assert(all.take(i + 1).drop_last() =~= all.take(i as int));
        assert(all[i as int] == lines@[i as int]@);
        if !starts_with(lines[i].as_str(), "-----") {
            let line = lines[i].clone();
            proof {
                lemma_texts_push(kept@, line);
            }
            kept.push(line);
        }
        i = i + 1;
    }
    assert(all.take(i as int) =~= all);
    base64_decode(join_strings(&kept, "").as_str())
}

// ── How long a certificate is valid ──

/// When a certificate expires, as text.
pub uninterp spec fn expiry_in(der: Seq<u8>) -> Option<Seq<char>>;

/// `x509_parser::parse_x509_certificate`, and how the end of the validity of
/// the certificate is displayed. Only named.
#[verifier::external_body]
fn not_after(der: &[u8]) -> (r: Option<String>)
    ensures
        text_of(r) == expiry_in(der@),
{
    let (_, cert) = x509_parser::parse_x509_certificate(der).ok()?;
    Some(format!("{}", cert.validity().not_after))
}

/// When the certificate in a PEM text expires.
pub fn ca_expiry(pem: &str) -> (r: Option<String>)
    ensures
        text_of(r) == match pem_content(pem@) {
            Some(der) => expiry_in(der),
            None => None,
        },
{
    match pem_bytes(pem) {
        Some(der) => not_after(&der),
        None => None,
    }
}

proof fn lemma_base64_chars(s: Seq<u8>)
    ensures
        forall|i: int|
            0 <= i < base64(s).len() ==> is_digit64(#[trigger] base64(s)[i]) || base64(s)[i]
                == '=',
    decreases s.len(),
{
    let b = base64(s);
    if s.len() == 1 {
        lemma_quad_chars(s[0], 0, 0);
    } else if s.len() == 2 {
        lemma_quad_chars(s[0], s[1], 0);
    } else if s.len() > 2 {
        let q = quad(s[0], s[1], s[2]);
        let rest = base64(s.skip(3));
        lemma_quad_chars(s[0], s[1], s[2]);
        lemma_base64_chars(s.skip(3));
        assert forall|i: int| 0 <= i < b.len() implies is_digit64(#[trigger] b[i]) || b[i]
            == '=' by {
            if i < 4 {
                assert(b[i] == q[i]);
            } else {
                assert(b[i] == rest[i - 4]);
            }
        }
    }
}

proof fn lemma_quad_chars(a: u8, b: u8, c: u8)
    ensures
        quad(a, b, c).len() == 4,
        is_digit64(quad(a, b, c)[0]),
        is_digit64(quad(a, b, c)[1]),
        is_digit64(quad(a, b, c)[2]),
        is_digit64(quad(a, b, c)[3]),
{
    reveal(digit64);
}

/// What stands between two lines of dashes is read as it was written: the
/// content of a PEM text with one line of Base64 in it is what the Base64
/// stands for, whatever the lines of dashes say.
pub proof fn law_pem_reads_back(head: Seq<char>, s: Seq<u8>, foot: Seq<char>)
    requires
        begins_with(head, "-----"@),
        begins_with(foot, "-----"@),
        lacks(head, '\n'),
        head.last() != '\r',
        lacks(foot, '\n'),
    ensures
        pem_content(head + "\n"@ + (base64(s) + "\n"@ + foot)) == Some(s),
{
    reveal_strlit("-----");
    reveal_strlit("");
    let b = base64(s);
    lemma_base64_chars(s);
    assert(lacks(b, '\n') && (b.len() > 0 ==> b[b.len() - 1] != '\r' && b[0] != '-'));
    let pem = head + "\n"@ + (b + "\n"@ + foot);
    law_lines(head, b + "\n"@ + foot);
    law_lines(b, foot);
    law_lines(foot, foot);
    let lines = seq![head, b, foot];
    assert(all_lines(pem) =~= lines);
    if begins_with(b, "-----"@) {
        assert(b.subrange(0, 5)[0] == '-');
    }
    reveal_with_fuel(undashed, 4);
    assert(lines.drop_last() =~= seq![head, b]);
    assert(lines.drop_last().drop_last() =~= seq![head]);
    assert(lines.drop_last().drop_last().drop_last() =~= Seq::empty());
    assert(undashed(lines) =~= seq![b]);
    law_base64_reads_back(s);
}

} // verus!
