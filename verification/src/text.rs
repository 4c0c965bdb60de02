//! Text as sequences of characters: the few operations that the rest of the
//! crate needs, each with the sequence that it gives.

use vstd::prelude::*;
use vstd::string::*;
use vstd::utf8::{decode_utf8, encode_utf8, valid_utf8};

verus! {

/// `String::push` appends one character.
pub assume_specification[ String::push ](s: &mut String, c: char)
    ensures
        final(s)@ == old(s)@.push(c),
;

/// The characters of Unicode's `White_Space` property.
pub open spec fn is_white_space(c: char) -> bool {
    let n = c as u32;
    ||| 0x09 <= n <= 0x0d
    ||| n == 0x20
    ||| n == 0x85
    ||| n == 0xa0
    ||| n == 0x1680
    ||| 0x2000 <= n <= 0x200a
    ||| n == 0x2028
    ||| n == 0x2029
    ||| n == 0x202f
    ||| n == 0x205f
    ||| n == 0x3000
}

/// `char::is_whitespace` tells whether the character has the `White_Space`
/// property.
pub assume_specification[ char::is_whitespace ](c: char) -> (r: bool)
    ensures
        r == is_white_space(c),
;

/// How `String::from_utf8` describes what is wrong with these bytes.
pub uninterp spec fn utf8_error_text(bytes: Seq<u8>) -> Seq<char>;

/// `String::from_utf8`: succeeds on exactly the byte strings that are valid
/// UTF-8 and gives the characters that they encode. The wording of its error
/// is only named.
#[verifier::external_body]
pub(crate) fn utf8_string(bytes: Vec<u8>) -> (r: Result<String, String>)
    ensures
        r is Ok <==> valid_utf8(bytes@),
        r matches Ok(s) ==> s@ == decode_utf8(bytes@),
        r matches Err(e) ==> e@ == utf8_error_text(bytes@),
{
    String::from_utf8(bytes).map_err(|e| e.to_string())
}

/// The text of a byte string that is not UTF-8, with replacement characters
/// in it.
pub uninterp spec fn lossy_text(bytes: Seq<u8>) -> Seq<char>;

/// The text of a byte string: as it is if it is UTF-8.
pub open spec fn text_in(bytes: Seq<u8>) -> Seq<char> {
    if valid_utf8(bytes) {
        decode_utf8(bytes)
    } else {
        lossy_text(bytes)
    }
}

/// `String::from_utf8_lossy`: valid UTF-8 is decoded as it is. What stands for
/// anything else is only named.
#[verifier::external_body]
pub(crate) fn lossy_string(bytes: &[u8]) -> (r: String)
    ensures
        valid_utf8(bytes@) ==> r@ == decode_utf8(bytes@),
        !valid_utf8(bytes@) ==> r@ == lossy_text(bytes@),
{
    String::from_utf8_lossy(bytes).to_string()
}

/// How parsing a `u32` describes what is wrong with this text.
pub uninterp spec fn u32_error_text(s: Seq<char>) -> Seq<char>;

/// `str::parse::<u32>`: takes an optional `+` and decimal digits whose value
/// fits. The wording of its error is only named.
#[verifier::external_body]
pub(crate) fn parse_u32(s: &str) -> (r: Result<u32, String>)
    ensures
        match number(s@, u32::MAX as nat) {
            Some(n) => r matches Ok(v) && v == n,
            None => r matches Err(e) && e@ == u32_error_text(s@),
        },
{
    s.parse::<u32>().map_err(|e| e.to_string())
}

/// A text as its `Debug` form shows it: quoted and escaped.
pub uninterp spec fn quoted_text(s: Seq<char>) -> Seq<char>;

/// The `Debug` form of a `str`. Only named.
#[verifier::external_body]
pub(crate) fn quoted(s: &str) -> (r: String)
    ensures
        r@ == quoted_text(s@),
{
    format!("{:?}", s)
}

/// A text in capitals, by the rules of Unicode.
pub uninterp spec fn upper_text(s: Seq<char>) -> Seq<char>;

/// `str::to_uppercase`. Only named.
#[verifier::external_body]
pub(crate) fn uppercase(s: &str) -> (r: String)
    ensures
        r@ == upper_text(s@),
{
    s.to_uppercase()
}

// ── Views ──

/// What each of the strings holds.
pub open spec fn texts(v: Seq<String>) -> Seq<Seq<char>> {
    Seq::new(v.len(), |i: int| v[i]@)
}

/// What an optional string holds.
pub open spec fn text_of(s: Option<String>) -> Option<Seq<char>> {
    match s {
        Some(t) => Some(t@),
        None => None,
    }
}

/// What an optional string slice holds.
pub open spec fn slice_text_of(s: Option<&str>) -> Option<Seq<char>> {
    match s {
        Some(t) => Some(t@),
        None => None,
    }
}

/// A result whose error is a text.
pub open spec fn outcome<T>(r: Result<T, String>) -> Result<T, Seq<char>> {
    match r {
        Ok(v) => Ok(v),
        Err(e) => Err(e@),
    }
}

/// A result that is a text either way.
pub open spec fn text_outcome(r: Result<String, String>) -> Result<Seq<char>, Seq<char>> {
    match r {
        Ok(v) => Ok(v@),
        Err(e) => Err(e@),
    }
}

/// A result that is a byte string, or a text if it failed.
pub open spec fn bytes_outcome(r: Result<Vec<u8>, String>) -> Result<Seq<u8>, Seq<char>> {
    match r {
        Ok(v) => Ok(v@),
        Err(e) => Err(e@),
    }
}

pub proof fn lemma_texts_push(v: Seq<String>, s: String)
    ensures
        texts(v.push(s)) == texts(v).push(s@),
{
    assert(texts(v.push(s)) =~= texts(v).push(s@));
}

// ── ASCII ──

/// An ASCII capital as its small letter; any other character as it is.
pub open spec fn lower_char(c: char) -> char {
    if 65 <= c as u32 <= 90 {
        (c as u32 + 32) as char
    } else {
        c
    }
}

/// `s` with its ASCII capitals as small letters.
pub open spec fn ascii_lower(s: Seq<char>) -> Seq<char> {
    Seq::new(s.len(), |i: int| lower_char(s[i]))
}

// ── Numbers ──

/// The character of the decimal digit `d`.
pub open spec fn digit(d: nat) -> char {
    (48 + d) as char
}

/// `n` in decimal, without leading zeros.
pub open spec fn decimal(n: nat) -> Seq<char>
    decreases n,
{
    if n < 10 {
        seq![digit(n)]
    } else {
        decimal(n / 10).push(digit(n % 10))
    }
}

/// The character of the hexadecimal digit `d`, in lower case.
pub open spec fn hex_digit(d: nat) -> char {
    if d < 10 {
        (48 + d) as char
    } else {
        (87 + d) as char
    }
}

/// `n` in hexadecimal, in lower case, without leading zeros.
pub open spec fn hexadecimal(n: nat) -> Seq<char>
    decreases n,
{
    if n < 16 {
        seq![hex_digit(n)]
    } else {
        hexadecimal(n / 16).push(hex_digit(n % 16))
    }
}

/// The `width` last hexadecimal digits of `n`, in lower case.
pub open spec fn hex_fixed(n: nat, width: nat) -> Seq<char>
    decreases width,
{
    if width == 0 {
        Seq::empty()
    } else {
        hex_fixed(n / 16, (width - 1) as nat).push(hex_digit(n % 16))
    }
}

/// Whether `c` is one of the ten decimal digits.
pub open spec fn is_digit(c: char) -> bool {
    48 <= c as u32 <= 57
}

/// The number that the decimal digits `s` write.
pub open spec fn decimal_value(s: Seq<char>) -> nat
    decreases s.len(),
{
    if s.len() == 0 {
        0
    } else {
        decimal_value(s.drop_last()) * 10 + (s.last() as u32 - 48) as nat
    }
}

/// `s` without one leading `+`.
pub open spec fn without_plus(s: Seq<char>) -> Seq<char> {
    if s.len() > 0 && s[0] == '+' {
        s.drop_first()
    } else {
        s
    }
}

/// The number that `s` writes: an optional `+`, then one or more decimal
/// digits, and not more than `max`.
pub open spec fn number(s: Seq<char>, max: nat) -> Option<nat> {
    let d = without_plus(s);
    if d.len() > 0 && (forall|i: int| 0 <= i < d.len() ==> is_digit(#[trigger] d[i]))
        && decimal_value(d) <= max {
        Some(decimal_value(d))
    } else {
        None
    }
}

pub proof fn lemma_decimal_value_prefix(s: Seq<char>, i: int)
    requires
        0 <= i <= s.len(),
        forall|k: int| 0 <= k < s.len() ==> is_digit(#[trigger] s[k]),
    ensures
        decimal_value(s.take(i)) <= decimal_value(s),
    decreases s.len() - i,
{
    if i < s.len() {
        lemma_decimal_value_prefix(s, i + 1);
        assert(s.take(i + 1).drop_last() =~= s.take(i));
        assert(is_digit(s[i]));
    } else {
        assert(s.take(i) =~= s);
    }
}

/// `n` in decimal reads back as `n`.
pub proof fn law_decimal_reads_back(n: nat)
    ensures
        decimal(n).len() > 0,
        forall|k: int| 0 <= k < decimal(n).len() ==> is_digit(#[trigger] decimal(n)[k]),
        decimal_value(decimal(n)) == n,
    decreases n,
{
    if n < 10 {
        reveal_with_fuel(decimal_value, 2);
        assert(decimal(n).drop_last() =~= Seq::empty());
    } else {
        law_decimal_reads_back(n / 10);
        assert(decimal(n).drop_last() =~= decimal(n / 10));
    }
}

// ── Searching and cutting ──

/// Where `c` first stands in `s`, or the length of `s` if it does not.
pub open spec fn find_char(s: Seq<char>, c: char) -> int
    decreases s.len(),
{
    if s.len() == 0 {
        0
    } else if s[0] == c {
        0
    } else {
        1 + find_char(s.drop_first(), c)
    }
}

/// Where `c` last stands in `s`, or -1 if it does not.
pub open spec fn rfind_char(s: Seq<char>, c: char) -> int
    decreases s.len(),
{
    if s.len() == 0 {
        -1
    } else if s.last() == c {
        s.len() - 1
    } else {
        rfind_char(s.drop_last(), c)
    }
}

/// Whether `needle` stands at position `i` of `hay`.
pub open spec fn stands_at(hay: Seq<char>, needle: Seq<char>, i: int) -> bool {
    0 <= i && i + needle.len() <= hay.len() && hay.subrange(i, i + needle.len()) == needle
}

/// Whether `needle` stands anywhere in `hay`.
pub open spec fn contains_text(hay: Seq<char>, needle: Seq<char>) -> bool {
    exists|i: int| stands_at(hay, needle, i)
}

/// Whether `s` begins with `p`.
pub open spec fn begins_with(s: Seq<char>, p: Seq<char>) -> bool {
    stands_at(s, p, 0)
}

/// `s` without its leading white space.
pub open spec fn trim_start(s: Seq<char>) -> Seq<char>
    decreases s.len(),
{
    if s.len() > 0 && is_white_space(s[0]) {
        trim_start(s.drop_first())
    } else {
        s
    }
}

/// `s` without its trailing white space.
pub open spec fn trim_end(s: Seq<char>) -> Seq<char>
    decreases s.len(),
{
    if s.len() > 0 && is_white_space(s.last()) {
        trim_end(s.drop_last())
    } else {
        s
    }
}

/// `s` without the white space at both ends.
pub open spec fn trim(s: Seq<char>) -> Seq<char> {
    trim_end(trim_start(s))
}

/// The pieces of `s` between the occurrences of `sep`: always one more than
/// there are separators.
pub open spec fn split_on(s: Seq<char>, sep: char) -> Seq<Seq<char>>
    decreases s.len(),
{
    if s.len() == 0 {
        seq![Seq::empty()]
    } else {
        let before = split_on(s.drop_last(), sep);
        if s.last() == sep {
            before.push(Seq::empty())
        } else {
            before.drop_last().push(before.last().push(s.last()))
        }
    }
}

/// The pieces of `s` between characters of white space.
pub open spec fn split_on_space(s: Seq<char>) -> Seq<Seq<char>>
    decreases s.len(),
{
    if s.len() == 0 {
        seq![Seq::empty()]
    } else {
        let before = split_on_space(s.drop_last());
        if is_white_space(s.last()) {
            before.push(Seq::empty())
        } else {
            before.drop_last().push(before.last().push(s.last()))
        }
    }
}

/// The words of `s`: what stands between white space.
pub open spec fn words(s: Seq<char>) -> Seq<Seq<char>> {
    non_empty(split_on_space(s))
}

/// Where `needle` first stands in `hay` from `i` on, or -1.
pub open spec fn find_text(hay: Seq<char>, needle: Seq<char>, i: int) -> int
    decreases hay.len() + 1 - i,
{
    if i < 0 || i + needle.len() > hay.len() {
        -1
    } else if stands_at(hay, needle, i) {
        i
    } else {
        find_text(hay, needle, i + 1)
    }
}

/// What stands behind the first `sep`, up to the next one if there is one.
pub open spec fn after_first(s: Seq<char>, sep: Seq<char>) -> Option<Seq<char>> {
    let i = find_text(s, sep, 0);
    if i < 0 {
        None
    } else {
        let from = i + sep.len();
        let j = find_text(s, sep, from);
        Some(
            s.subrange(
                from,
                if j < 0 {
                    s.len() as int
                } else {
                    j
                },
            ),
        )
    }
}

/// The pieces that are not empty.
pub open spec fn non_empty(parts: Seq<Seq<char>>) -> Seq<Seq<char>>
    decreases parts.len(),
{
    if parts.len() == 0 {
        Seq::empty()
    } else if parts.last().len() == 0 {
        non_empty(parts.drop_last())
    } else {
        non_empty(parts.drop_last()).push(parts.last())
    }
}

/// The pieces, one after the other, with `sep` between them.
pub open spec fn join(parts: Seq<Seq<char>>, sep: Seq<char>) -> Seq<char>
    decreases parts.len(),
{
    if parts.len() == 0 {
        Seq::empty()
    } else if parts.len() == 1 {
        parts[0]
    } else {
        join(parts.drop_last(), sep) + sep + parts.last()
    }
}

/// A line without the carriage return before its line feed.
pub open spec fn without_cr(s: Seq<char>) -> Seq<char> {
    if s.len() > 0 && s.last() == '\r' {
        s.drop_last()
    } else {
        s
    }
}

/// The lines of `s`: cut at each line feed, with the carriage return before a
/// line feed left out. What follows the last line feed counts as a line, empty
/// or not.
pub open spec fn all_lines(s: Seq<char>) -> Seq<Seq<char>> {
    let parts = split_on(s, '\n');
    Seq::new(
        parts.len(),
        |i: int|
            if i + 1 < parts.len() {
                without_cr(parts[i])
            } else {
                parts[i]
            },
    )
}

/// The lines of `s` that hold something.
pub open spec fn full_lines(s: Seq<char>) -> Seq<Seq<char>> {
    non_empty(all_lines(s))
}

pub proof fn lemma_split_on_len(s: Seq<char>, sep: char)
    ensures
        split_on(s, sep).len() >= 1,
    decreases s.len(),
{
    if s.len() > 0 {
        lemma_split_on_len(s.drop_last(), sep);
    }
}

pub proof fn lemma_find_char(s: Seq<char>, c: char)
    ensures
        0 <= find_char(s, c) <= s.len(),
        find_char(s, c) < s.len() ==> s[find_char(s, c)] == c,
        forall|k: int| 0 <= k < find_char(s, c) ==> s[k] != c,
    decreases s.len(),
{
    if s.len() > 0 && s[0] != c {
        lemma_find_char(s.drop_first(), c);
        let n = find_char(s.drop_first(), c);
        assert forall|k: int| 0 <= k < n + 1 implies s[k] != c by {
            if k > 0 {
                assert(s[k] == s.drop_first()[k - 1]);
            }
        }
    }
}

pub proof fn lemma_find_char_unique(s: Seq<char>, c: char, i: int)
    requires
        0 <= i <= s.len(),
        i < s.len() ==> s[i] == c,
        forall|k: int| 0 <= k < i ==> s[k] != c,
    ensures
        find_char(s, c) == i,
{
    lemma_find_char(s, c);
}

pub proof fn lemma_rfind_char(s: Seq<char>, c: char)
    ensures
        -1 <= rfind_char(s, c) < s.len(),
        rfind_char(s, c) >= 0 ==> s[rfind_char(s, c)] == c,
        forall|k: int| rfind_char(s, c) < k < s.len() ==> s[k] != c,
    decreases s.len(),
{
    if s.len() > 0 && s.last() != c {
        lemma_rfind_char(s.drop_last(), c);
        assert forall|k: int| rfind_char(s, c) < k < s.len() implies s[k] != c by {
            if k < s.len() - 1 {
                assert(s[k] == s.drop_last()[k]);
            }
        }
    }
}

// ── What searching and cutting give ──

/// Whether `c` stands nowhere in `s`.
pub open spec fn lacks(s: Seq<char>, c: char) -> bool {
    forall|i: int| 0 <= i < s.len() ==> #[trigger] s[i] != c
}

/// Whether no white space stands in `s`.
pub open spec fn lacks_space(s: Seq<char>) -> bool {
    forall|i: int| 0 <= i < s.len() ==> !is_white_space(#[trigger] s[i])
}

/// The first `c` of `a`, `c`, `b` is the one between them if `a` has none, and
/// the last is the one between them if `b` has none.
pub proof fn law_first_and_last(a: Seq<char>, c: char, b: Seq<char>)
    ensures
        lacks(a, c) ==> find_char(a + seq![c] + b, c) == a.len(),
        lacks(b, c) ==> rfind_char(a + seq![c] + b, c) == a.len(),
        lacks(a, c) ==> find_char(a, c) == a.len() && rfind_char(a, c) == -1,
{
    let s = a + seq![c] + b;
    assert(s[a.len() as int] == c);
    if lacks(a, c) {
        assert forall|k: int| 0 <= k < a.len() implies s[k] != c by {
            assert(s[k] == a[k]);
        }
        lemma_find_char_unique(s, c, a.len() as int);
        lemma_find_char_unique(a, c, a.len() as int);
        lemma_rfind_char(a, c);
    }
    if lacks(b, c) {
        lemma_rfind_char(s, c);
        let r = rfind_char(s, c);
        if r > a.len() {
            assert(s[r] == b[r - a.len() - 1]);
        }
    }
}

/// Cutting at `sep` cuts what stands before a separator and what stands behind
/// it, and nothing else; a text without a separator stays whole.
pub proof fn law_split_at_separator(a: Seq<char>, sep: char, b: Seq<char>)
    ensures
        split_on(a + seq![sep] + b, sep) == split_on(a, sep) + split_on(b, sep),
        lacks(a, sep) ==> split_on(a, sep) == seq![a],
    decreases b.len(),
{
    let s = a + seq![sep] + b;
    if b.len() == 0 {
        assert(s.drop_last() =~= a);
        assert(split_on(s, sep) =~= split_on(a, sep) + split_on(b, sep));
    } else {
        law_split_at_separator(a, sep, b.drop_last());
        assert(s.drop_last() =~= a + seq![sep] + b.drop_last());
        lemma_split_on_len(b.drop_last(), sep);
        let x = split_on(a, sep);
        let y = split_on(b.drop_last(), sep);
        assert((x + y).last() == y.last());
        assert((x + y).drop_last() =~= x + y.drop_last());
        assert(split_on(s, sep) =~= x + split_on(b, sep));
    }
    lemma_split_alone(a, sep);
}

proof fn lemma_split_alone(a: Seq<char>, sep: char)
    ensures
        lacks(a, sep) ==> split_on(a, sep) == seq![a],
    decreases a.len(),
{
    if a.len() > 0 && lacks(a, sep) {
        let b = a.drop_last();
        assert forall|i: int| 0 <= i < b.len() implies #[trigger] b[i] != sep by {
            assert(b[i] == a[i]);
        }
        lemma_split_alone(b, sep);
        assert(a[a.len() - 1] != sep);
        assert(b.push(a.last()) =~= a);
        assert(split_on(a, sep) =~= seq![a]);
    } else if a.len() == 0 {
        assert(a =~= Seq::empty());
    }
}

proof fn lemma_split_space(a: Seq<char>, c: char, b: Seq<char>)
    requires
        is_white_space(c),
    ensures
        split_on_space(a + seq![c] + b) == split_on_space(a) + split_on_space(b),
        split_on_space(b).len() >= 1,
    decreases b.len(),
{
    let s = a + seq![c] + b;
    if b.len() == 0 {
        assert(s.drop_last() =~= a);
        assert(split_on_space(s) =~= split_on_space(a) + split_on_space(b));
    } else {
        lemma_split_space(a, c, b.drop_last());
        assert(s.drop_last() =~= a + seq![c] + b.drop_last());
        let x = split_on_space(a);
        let y = split_on_space(b.drop_last());
        assert((x + y).last() == y.last());
        assert((x + y).drop_last() =~= x + y.drop_last());
        assert(split_on_space(s) =~= x + split_on_space(b));
    }
}

proof fn lemma_split_space_alone(a: Seq<char>)
    ensures
        lacks_space(a) ==> split_on_space(a) == seq![a],
    decreases a.len(),
{
    if a.len() > 0 && lacks_space(a) {
        let b = a.drop_last();
        assert forall|i: int| 0 <= i < b.len() implies !is_white_space(#[trigger] b[i]) by {
            assert(b[i] == a[i]);
        }
        lemma_split_space_alone(b);
        assert(!is_white_space(a[a.len() - 1]));
        assert(b.push(a.last()) =~= a);
        assert(split_on_space(a) =~= seq![a]);
    } else if a.len() == 0 {
        assert(a =~= Seq::empty());
    }
}

/// Leaving out what is empty can be done piece by piece.
pub proof fn lemma_non_empty_joins(a: Seq<Seq<char>>, b: Seq<Seq<char>>)
    ensures
        non_empty(a + b) == non_empty(a) + non_empty(b),
    decreases b.len(),
{
    if b.len() == 0 {
        assert(a + b =~= a);
        assert(non_empty(a) + non_empty(b) =~= non_empty(a));
    } else {
        lemma_non_empty_joins(a, b.drop_last());
        assert((a + b).drop_last() =~= a + b.drop_last());
        assert(non_empty(a + b) =~= non_empty(a) + non_empty(b));
    }
}

/// White space parts words, whatever it is and however much: the words of what
/// stands before it come first, those of what stands behind it follow. A text
/// without white space is one word, and no text is none.
pub proof fn law_words(a: Seq<char>, c: char, b: Seq<char>)
    ensures
        is_white_space(c) ==> words(a + seq![c] + b) == words(a) + words(b),
        lacks_space(a) && a.len() > 0 ==> words(a) == seq![a],
        words(Seq::empty()) == Seq::<Seq<char>>::empty(),
{
    if is_white_space(c) {
        lemma_split_space(a, c, b);
        lemma_non_empty_joins(split_on_space(a), split_on_space(b));
    }
    if lacks_space(a) && a.len() > 0 {
        lemma_split_space_alone(a);
        reveal_with_fuel(non_empty, 2);
        assert(seq![a].drop_last() =~= Seq::empty());
        assert(words(a) =~= seq![a]);
    }
    reveal_with_fuel(non_empty, 2);
    let none = seq![Seq::<char>::empty()];
    assert(none.drop_last() =~= Seq::empty());
    assert(split_on_space(Seq::empty()) =~= none);
}

/// Trimming takes white space off both ends, one character at a time, and
/// leaves a text alone that neither begins nor ends with any.
pub proof fn law_trim(s: Seq<char>, c: char)
    ensures
        is_white_space(c) ==> trim(seq![c] + s) == trim(s) && trim(s.push(c)) == trim(s),
        s.len() > 0 && !is_white_space(s[0]) && !is_white_space(s.last()) ==> trim(s) == s,
        trim(Seq::empty()) == Seq::<char>::empty(),
{
    if is_white_space(c) {
        assert((seq![c] + s).drop_first() =~= s);
        lemma_trim_push(s, c);
    }
}

proof fn lemma_trim_push(s: Seq<char>, c: char)
    requires
        is_white_space(c),
    ensures
        trim(s.push(c)) == trim(s),
    decreases s.len(),
{
    let t = s.push(c);
    if s.len() == 0 {
        assert(t.drop_first() =~= s);
        assert(trim_start(t) == trim_start(s));
    } else if is_white_space(s[0]) {
        assert(t.drop_first() =~= s.drop_first().push(c));
        lemma_trim_push(s.drop_first(), c);
    } else {
        assert(trim_start(t) == t);
        assert(t.drop_last() =~= s);
    }
}

/// The words of a text are those of what is left of it after trimming.
pub proof fn law_trim_keeps_words(s: Seq<char>)
    ensures
        words(trim(s)) == words(s),
{
    lemma_words_after_start(s);
    lemma_words_after_end(trim_start(s));
}

proof fn lemma_words_after_start(s: Seq<char>)
    ensures
        words(trim_start(s)) == words(s),
    decreases s.len(),
{
    if s.len() > 0 && is_white_space(s[0]) {
        lemma_words_after_start(s.drop_first());
        law_words(Seq::empty(), s[0], s.drop_first());
        assert(s =~= Seq::<char>::empty() + seq![s[0]] + s.drop_first());
        assert(Seq::<Seq<char>>::empty() + words(s.drop_first()) =~= words(s.drop_first()));
    }
}

proof fn lemma_words_after_end(s: Seq<char>)
    ensures
        words(trim_end(s)) == words(s),
    decreases s.len(),
{
    if s.len() > 0 && is_white_space(s.last()) {
        lemma_words_after_end(s.drop_last());
        law_words(s.drop_last(), s.last(), Seq::empty());
        assert(s =~= s.drop_last() + seq![s.last()] + Seq::<char>::empty());
        assert(words(s.drop_last()) + Seq::<Seq<char>>::empty() =~= words(s.drop_last()));
    }
}

/// A number written in decimal is read as that number if it is not too large,
/// with a `+` before it too; what holds anything but digits behind that is no
/// number.
pub proof fn law_numbers_are_read(n: nat, max: nat, s: Seq<char>, i: int)
    ensures
        n <= max ==> number(decimal(n), max) == Some(n),
        n <= max ==> number("+"@ + decimal(n), max) == Some(n),
        n > max ==> number(decimal(n), max) is None,
        0 < i < s.len() && !is_digit(s[i]) ==> number(s, max) is None,
        s.len() == 0 ==> number(s, max) is None,
        s.len() > 0 && !is_digit(s[0]) && s[0] != '+' ==> number(s, max) is None,
{
    reveal_strlit("+");
    law_decimal_reads_back(n);
    let d = decimal(n);
    assert(is_digit(d[0]));
    let p = "+"@ + d;
    assert(p[0] == '+');
    assert(p.drop_first() =~= d);
    if 0 < i < s.len() && !is_digit(s[i]) {
        let w = without_plus(s);
        if s[0] == '+' {
            assert(w[i - 1] == s[i]);
        } else {
            assert(w[i] == s[i]);
        }
    }
    if s.len() > 0 && !is_digit(s[0]) && s[0] != '+' {
        assert(without_plus(s)[0] == s[0]);
    }
}

/// What stands behind the first `sep`: everything, if there is no other.
pub proof fn law_after_first(a: Seq<char>, sep: Seq<char>, b: Seq<char>)
    requires
        sep.len() > 0,
        forall|i: int| 0 <= i < a.len() ==> !stands_at(a + sep + b, sep, i),
        !contains_text(b, sep),
    ensures
        after_first(a + sep + b, sep) == Some(b),
{
    let s = a + sep + b;
    assert(s.subrange(a.len() as int, (a.len() + sep.len()) as int) =~= sep);
    assert(stands_at(s, sep, a.len() as int));
    lemma_find_text_skips(s, sep, 0, a.len() as int);
    let from = a.len() + sep.len();
    assert forall|i: int| from <= i implies !stands_at(s, sep, i) by {
        if stands_at(s, sep, i) {
            assert(b.subrange(i - from, i - from + sep.len()) =~= s.subrange(i, i + sep.len()));
            assert(stands_at(b, sep, i - from));
        }
    }
    lemma_find_text_none(s, sep, from as int);
    assert(s.subrange(from as int, s.len() as int) =~= b);
}

proof fn lemma_find_text_skips(s: Seq<char>, sep: Seq<char>, i: int, k: int)
    requires
        0 <= i <= k,
        stands_at(s, sep, k),
        forall|j: int| i <= j < k ==> !stands_at(s, sep, j),
    ensures
        find_text(s, sep, i) == k,
    decreases k - i,
{
    if i < k {
        lemma_find_text_skips(s, sep, i + 1, k);
    }
}

proof fn lemma_find_text_none(s: Seq<char>, sep: Seq<char>, i: int)
    requires
        0 <= i,
        forall|j: int| i <= j ==> !stands_at(s, sep, j),
    ensures
        find_text(s, sep, i) == -1,
    decreases s.len() + 1 - i,
{
    if i + sep.len() <= s.len() {
        lemma_find_text_none(s, sep, i + 1);
    }
}

/// Pieces without the separator are got back by cutting what they were joined
/// to.
pub proof fn law_split_undoes_join(parts: Seq<Seq<char>>, sep: char)
    requires
        parts.len() > 0,
        forall|i: int| 0 <= i < parts.len() ==> lacks(#[trigger] parts[i], sep),
    ensures
        split_on(join(parts, seq![sep]), sep) == parts,
    decreases parts.len(),
{
    if parts.len() == 1 {
        lemma_split_alone(parts[0], sep);
        assert(lacks(parts[0], sep));
        assert(parts =~= seq![parts[0]]);
    } else {
        let less = parts.drop_last();
        assert forall|i: int| 0 <= i < less.len() implies lacks(#[trigger] less[i], sep) by {
            assert(less[i] == parts[i]);
        }
        law_split_undoes_join(less, sep);
        law_split_at_separator(join(less, seq![sep]), sep, parts.last());
        assert(lacks(parts[parts.len() - 1], sep));
        lemma_split_alone(parts.last(), sep);
        assert(less + seq![parts.last()] =~= parts);
    }
}

/// The pieces of a text, joined by the separator, are the text, and none of
/// them holds the separator.
pub proof fn law_join_undoes_split(s: Seq<char>, sep: char)
    ensures
        join(split_on(s, sep), seq![sep]) == s,
        forall|i: int| 0 <= i < split_on(s, sep).len() ==> lacks(#[trigger] split_on(s, sep)[i], sep),
    decreases s.len(),
{
    let parts = split_on(s, sep);
    lemma_split_on_len(s, sep);
    if s.len() == 0 {
        assert(s =~= Seq::empty());
    } else {
        let before = split_on(s.drop_last(), sep);
        law_join_undoes_split(s.drop_last(), sep);
        lemma_split_on_len(s.drop_last(), sep);
        assert(s.drop_last().push(s.last()) =~= s);
        if s.last() == sep {
            assert(parts.drop_last() =~= before);
            assert(join(parts, seq![sep]) =~= s);
            assert forall|i: int| 0 <= i < parts.len() implies lacks(#[trigger] parts[i], sep) by {
                if i < before.len() {
                    assert(parts[i] == before[i]);
                }
            }
        } else {
            let last = before.last().push(s.last());
            assert(parts.drop_last() =~= before.drop_last());
            assert(parts.last() == last);
            if before.len() == 1 {
                assert(join(parts, seq![sep]) =~= s);
            } else {
                assert(join(before, seq![sep]) == join(before.drop_last(), seq![sep]) + seq![sep]
                    + before.last());
                assert(join(parts, seq![sep]) =~= s);
            }
            assert forall|i: int| 0 <= i < parts.len() implies lacks(#[trigger] parts[i], sep) by {
                if i < before.len() - 1 {
                    assert(parts[i] == before[i]);
                } else {
                    let b = before[before.len() - 1];
                    assert(lacks(b, sep));
                    assert forall|j: int| 0 <= j < last.len() implies #[trigger] last[j] != sep by {
                        if j < b.len() {
                            assert(last[j] == b[j]);
                        }
                    }
                }
            }
        }
    }
}

/// The number that the lower case hexadecimal digits `s` write.
pub open spec fn hexadecimal_value(s: Seq<char>) -> nat
    decreases s.len(),
{
    if s.len() == 0 {
        0
    } else {
        let c = s.last() as u32;
        hexadecimal_value(s.drop_last()) * 16 + (if c <= 57 {
            c - 48
        } else {
            c - 97 + 10
        }) as nat
    }
}

/// Whether `c` is a hexadecimal digit in lower case.
pub open spec fn is_lower_hex(c: char) -> bool {
    '0' <= c <= '9' || 'a' <= c <= 'f'
}

/// `n` in hexadecimal reads back as `n`: lower case digits, without a leading
/// zero if there is more than one.
pub proof fn law_hexadecimal_reads_back(n: nat)
    ensures
        hexadecimal(n).len() > 0,
        hexadecimal(n).len() > 1 ==> hexadecimal(n)[0] != '0',
        n > 0 ==> hexadecimal(n)[0] != '0',
        forall|k: int| 0 <= k < hexadecimal(n).len() ==> is_lower_hex(#[trigger] hexadecimal(n)[k]),
        hexadecimal_value(hexadecimal(n)) == n,
        lacks(hexadecimal(n), ':'),
    decreases n,
{
    if n < 16 {
        reveal_with_fuel(hexadecimal_value, 2);
        assert(hexadecimal(n).drop_last() =~= Seq::empty());
    } else {
        law_hexadecimal_reads_back(n / 16);
        assert(hexadecimal(n).drop_last() =~= hexadecimal(n / 16));
        assert(hexadecimal(n)[0] == hexadecimal(n / 16)[0]);
    }
    assert forall|k: int| 0 <= k < hexadecimal(n).len() implies #[trigger] hexadecimal(n)[k]
        != ':' by {
        assert(is_lower_hex(hexadecimal(n)[k]));
    }
}

/// Sixteen to the power of `n`.
pub open spec fn pow16(n: nat) -> nat
    decreases n,
{
    if n == 0 {
        1
    } else {
        16 * pow16((n - 1) as nat)
    }
}

/// A number in a fixed number of hexadecimal digits has that many, and reads
/// back as the number if it fits.
pub proof fn law_hex_fixed_reads_back(n: nat, width: nat)
    ensures
        hex_fixed(n, width).len() == width,
        forall|k: int| 0 <= k < width ==> is_lower_hex(#[trigger] hex_fixed(n, width)[k]),
        n < pow16(width) ==> hexadecimal_value(hex_fixed(n, width)) == n,
    decreases width,
{
    if width > 0 {
        law_hex_fixed_reads_back(n / 16, (width - 1) as nat);
        assert(hex_fixed(n, width).drop_last() =~= hex_fixed(n / 16, (width - 1) as nat));
        let p = pow16((width - 1) as nat);
        assert(n < 16 * p ==> n / 16 < p) by (nonlinear_arith);
    }
}

/// `n` in decimal has no leading zero if there is more than one digit.
pub proof fn law_decimal_is_short(n: nat)
    ensures
        n > 0 ==> decimal(n)[0] != '0',
        n == 0 ==> decimal(n) == seq!['0'],
        decimal(n).len() > 0,
    decreases n,
{
    if n >= 10 {
        law_decimal_is_short(n / 10);
        assert(decimal(n)[0] == decimal(n / 10)[0]);
    } else if n > 0 {
        assert(decimal(n)[0] == digit(n));
    }
}

proof fn lemma_lower(c: char)
    ensures
        c < 'A' || c > 'Z' ==> lower_char(c) == c,
{
}

/// In lower case, the capitals from `A` to `Z` become the small letters in the
/// same place of the alphabet, and nothing else changes.
pub proof fn law_lower_case(s: Seq<char>, i: int)
    requires
        0 <= i < s.len(),
    ensures
        ascii_lower(s).len() == s.len(),
        'A' <= s[i] <= 'Z' ==> ascii_lower(s)[i] as u32 - 'a' as u32 == s[i] as u32 - 'A' as u32,
        s[i] < 'A' || s[i] > 'Z' ==> ascii_lower(s)[i] == s[i],
        ascii_lower(ascii_lower(s)) == ascii_lower(s),
{
    lemma_lower(s[i]);
    assert(ascii_lower(ascii_lower(s)) =~= ascii_lower(s));
}

// ── Between strings and characters ──

/// The characters of `s`.
pub fn chars_of(s: &str) -> (r: Vec<char>)
    ensures
        r@ == s@,
{
    let mut v: Vec<char> = Vec::new();
    for c in it: s.chars()
        invariant
            v@.len() == it.index(),
            it.seq() == s@,
            forall|i: int| 0 <= i < v@.len() ==> v@[i] == it.seq()[i],
    {
        v.push(c);
    }
    v
}

/// The string of the characters `v[from..to]`.
pub fn string_of(v: &[char], from: usize, to: usize) -> (r: String)
    requires
        from <= to <= v@.len(),
    ensures
        r@ == v@.subrange(from as int, to as int),
{
    let mut s = String::new();
    let mut i: usize = from;
    while i < to
        invariant
            from <= i <= to <= v@.len(),
            s@ == v@.subrange(from as int, i as int),
        decreases to - i,
    {
        s.push(v[i]);
        i = i + 1;
        assert(s@ =~= v@.subrange(from as int, i as int));
    }
    s
}

/// Whether two texts are the same.
pub fn same_text(a: &str, b: &str) -> (r: bool)
    ensures
        r == (a@ == b@),
{
    a.to_owned() == b.to_owned()
}

/// Whether `list` holds `s`.
pub fn list_contains(list: &Vec<String>, s: &str) -> (r: bool)
    ensures
        r == texts(list@).contains(s@),
{
    let mut i: usize = 0;
    while i < list.len()
        invariant
            i <= list@.len(),
            forall|k: int| 0 <= k < i ==> texts(list@)[k] != s@,
        decreases list@.len() - i,
    {
        if same_text(list[i].as_str(), s) {
            assert(texts(list@)[i as int] == s@);
            return true;
        }
        i = i + 1;
    }
    false
}

// ── Building ──

/// Appends `n` in decimal.
pub fn push_decimal(out: &mut String, n: u64)
    ensures
        final(out)@ == old(out)@ + decimal(n as nat),
    decreases n,
{
    let ghost start = out@;
    if n >= 10 {
        push_decimal(out, n / 10);
    }
    out.push((48u8 + (n % 10) as u8) as char);
    assert(out@ =~= start + decimal(n as nat));
}

/// The character of a hexadecimal digit.
pub fn hex_digit_char(d: u8) -> (r: char)
    requires
        d < 16,
    ensures
        r == hex_digit(d as nat),
{
    if d < 10 {
        (48u8 + d) as char
    } else {
        (87u8 + d) as char
    }
}

/// Appends `n` in hexadecimal, without leading zeros.
pub fn push_hex(out: &mut String, n: u64)
    ensures
        final(out)@ == old(out)@ + hexadecimal(n as nat),
    decreases n,
{
    let ghost start = out@;
    if n >= 16 {
        push_hex(out, n / 16);
    }
    out.push(hex_digit_char((n % 16) as u8));
    assert(out@ =~= start + hexadecimal(n as nat));
}

/// Appends the last `width` hexadecimal digits of `n`.
pub fn push_hex_fixed(out: &mut String, n: u64, width: usize)
    ensures
        final(out)@ == old(out)@ + hex_fixed(n as nat, width as nat),
    decreases width,
{
    let ghost start = out@;
    if width > 0 {
        push_hex_fixed(out, n / 16, width - 1);
        out.push(hex_digit_char((n % 16) as u8));
        assert(out@ =~= start + hex_fixed(n as nat, width as nat));
    } else {
        assert(out@ =~= start + hex_fixed(n as nat, 0));
    }
}

/// `a`, then `b`.
pub fn concat2(a: &str, b: &str) -> (r: String)
    ensures
        r@ == a@ + b@,
{
    let mut out = a.to_owned();
    out.append(b);
    out
}

/// `a`, then `b`, then `c`.
pub fn concat3(a: &str, b: &str, c: &str) -> (r: String)
    ensures
        r@ == a@ + b@ + c@,
{
    let mut out = a.to_owned();
    out.append(b);
    out.append(c);
    out
}

/// `a`, then `n` in decimal, then `b`.
pub fn with_number(a: &str, n: u64, b: &str) -> (r: String)
    ensures
        r@ == a@ + decimal(n as nat) + b@,
{
    let mut out = a.to_owned();
    push_decimal(&mut out, n);
    out.append(b);
    out
}

/// `a`, then `n` in decimal.
pub fn number_after(a: &str, n: u64) -> (r: String)
    ensures
        r@ == a@ + decimal(n as nat),
{
    let mut out = a.to_owned();
    push_decimal(&mut out, n);
    out
}

/// `a`, `n` in decimal, `b`, then `m` in decimal.
pub fn numbers_after(a: &str, n: u64, b: &str, m: u64) -> (r: String)
    ensures
        r@ == a@ + decimal(n as nat) + b@ + decimal(m as nat),
{
    let mut out = a.to_owned();
    push_decimal(&mut out, n);
    out.append(b);
    push_decimal(&mut out, m);
    out
}

/// `a`, `n` in decimal, `b`, `m` in decimal, then `c`.
pub fn with_numbers(a: &str, n: u64, b: &str, m: u64, c: &str) -> (r: String)
    ensures
        r@ == a@ + decimal(n as nat) + b@ + decimal(m as nat) + c@,
{
    let mut out = a.to_owned();
    push_decimal(&mut out, n);
    out.append(b);
    push_decimal(&mut out, m);
    out.append(c);
    out
}

/// `a`, then the last `width` hexadecimal digits of `n`.
pub fn hex_after(a: &str, n: u64, width: usize) -> (r: String)
    ensures
        r@ == a@ + hex_fixed(n as nat, width as nat),
{
    let mut out = a.to_owned();
    push_hex_fixed(&mut out, n, width);
    out
}

/// `a`, then the last `width` hexadecimal digits of `n`, then `b`.
pub fn with_hex(a: &str, n: u64, width: usize, b: &str) -> (r: String)
    ensures
        r@ == a@ + hex_fixed(n as nat, width as nat) + b@,
{
    let mut out = a.to_owned();
    push_hex_fixed(&mut out, n, width);
    out.append(b);
    out
}

/// The pieces with `sep` between them.
pub fn join_strings(parts: &Vec<String>, sep: &str) -> (r: String)
    ensures
        r@ == join(texts(parts@), sep@),
{
    let mut out = String::new();
    let mut i: usize = 0;
    let ghost t = texts(parts@);
    while i < parts.len()
        invariant
            i <= parts@.len(),
            t == texts(parts@),
            out@ == join(t.take(i as int), sep@),
        decreases parts@.len() - i,
    {
        if i > 0 {
            out.append(sep);
        }
        out.append(parts[i].as_str());
        proof {
            assert(t.take(i + 1).drop_last() =~= t.take(i as int));
            if i == 0 {
                assert(out@ =~= t[0]);
            }
        }
        i = i + 1;
    }
    assert(t.take(i as int) =~= t);
    out
}

// ── Looking at strings ──

/// Whether `needle` stands at `i` in `hay`.
fn matches_at(hay: &[char], needle: &[char], i: usize) -> (r: bool)
    requires
        i + needle@.len() <= hay@.len(),
    ensures
        r == stands_at(hay@, needle@, i as int),
{
    let n: usize = hay.len();
    let mut k: usize = 0;
    while k < needle.len()
        invariant
            k <= needle@.len(),
            i + needle@.len() <= hay@.len() == n,
            forall|j: int| 0 <= j < k ==> hay@[i + j] == needle@[j],
        decreases needle@.len() - k,
    {
        if hay[i + k] != needle[k] {
            assert(hay@.subrange(i as int, i + needle@.len())[k as int] != needle@[k as int]);
            return false;
        }
        k = k + 1;
    }
    assert(hay@.subrange(i as int, i + needle@.len()) =~= needle@);
    true
}

/// Whether `s` begins with `p`.
pub fn starts_with(s: &str, p: &str) -> (r: bool)
    ensures
        r == begins_with(s@, p@),
{
    let hay = chars_of(s);
    let needle = chars_of(p);
    if needle.len() > hay.len() {
        return false;
    }
    matches_at(&hay, &needle, 0)
}

/// What follows `p` at the start of `s`, if `s` begins with it.
pub fn strip_prefix(s: &str, p: &str) -> (r: Option<String>)
    ensures
        r is Some <==> begins_with(s@, p@),
        r matches Some(t) ==> t@ == s@.skip(p@.len() as int),
{
    let hay = chars_of(s);
    let needle = chars_of(p);
    if needle.len() > hay.len() || !matches_at(&hay, &needle, 0) {
        return None;
    }
    let t = string_of(&hay, needle.len(), hay.len());
    assert(t@ =~= s@.skip(p@.len() as int));
    Some(t)
}

/// Whether `needle` stands anywhere in `hay`.
pub fn contains(hay: &str, needle: &str) -> (r: bool)
    ensures
        r == contains_text(hay@, needle@),
{
    let h = chars_of(hay);
    let n = chars_of(needle);
    if n.len() > h.len() {
        return false;
    }
    let last: usize = h.len() - n.len();
    let mut i: usize = 0;
    while i <= last
        invariant
            h@ == hay@,
            n@ == needle@,
            last == h@.len() - n@.len(),
            i <= last + 1,
            forall|k: int| 0 <= k < i ==> !stands_at(hay@, needle@, k),
        decreases last + 1 - i,
    {
        if matches_at(&h, &n, i) {
            return true;
        }
        if i == last {
            assert forall|k: int| !stands_at(hay@, needle@, k) by {
                if 0 <= k <= last {
                    assert(k < i || k == i);
                }
            }
            return false;
        }
        i = i + 1;
    }
    false
}

/// Where `c` first stands.
pub fn find(s: &[char], c: char) -> (r: Option<usize>)
    ensures
        r matches Some(i) ==> i == find_char(s@, c) && i < s@.len(),
        r is None ==> find_char(s@, c) == s@.len(),
{
    let mut i: usize = 0;
    while i < s.len()
        invariant
            i <= s@.len(),
            forall|k: int| 0 <= k < i ==> s@[k] != c,
        decreases s@.len() - i,
    {
        if s[i] == c {
            proof {
                lemma_find_char_unique(s@, c, i as int);
            }
            return Some(i);
        }
        i = i + 1;
    }
    proof {
        lemma_find_char_unique(s@, c, i as int);
    }
    None
}

/// Where `c` last stands.
pub fn rfind(s: &[char], c: char) -> (r: Option<usize>)
    ensures
        r matches Some(i) ==> i == rfind_char(s@, c) && i < s@.len(),
        r is None ==> rfind_char(s@, c) == -1,
{
    let mut i: usize = s.len();
    while i > 0
        invariant
            i <= s@.len(),
            forall|k: int| i <= k < s@.len() ==> s@[k] != c,
        decreases i,
    {
        i = i - 1;
        if s[i] == c {
            proof {
                lemma_rfind_char(s@, c);
            }
            return Some(i);
        }
    }
    proof {
        lemma_rfind_char(s@, c);
    }
    None
}

/// `s` without the white space at both ends.
pub fn trimmed(s: &str) -> (r: String)
    ensures
        r@ == trim(s@),
{
    let v = chars_of(s);
    let mut from: usize = 0;
    assert(s@.skip(0) =~= s@);
    while from < v.len() && v[from].is_whitespace()
        invariant
            v@ == s@,
            from <= v@.len(),
            trim_start(s@.skip(from as int)) == trim_start(s@),
        decreases v@.len() - from,
    {
        assert(s@.skip(from as int).drop_first() =~= s@.skip(from + 1));
        from = from + 1;
    }
    let ghost t = s@.skip(from as int);
    assert(trim_start(t) == t);
    let mut to: usize = v.len();
    assert(t =~= s@.subrange(from as int, to as int));
    while to > from && v[to - 1].is_whitespace()
        invariant
            v@ == s@,
            from <= to <= v@.len(),
            trim_end(s@.subrange(from as int, to as int)) == trim_end(t),
        decreases to - from,
    {
        assert(s@.subrange(from as int, to as int).drop_last() =~= s@.subrange(
            from as int,
            to - 1,
        ));
        to = to - 1;
    }
    string_of(&v, from, to)
}

/// The pieces of `s` between the occurrences of `sep`.
pub fn split(s: &str, sep: char) -> (r: Vec<String>)
    ensures
        texts(r@) == split_on(s@, sep),
{
    let v = chars_of(s);
    let mut parts: Vec<String> = Vec::new();
    let mut from: usize = 0;
    let mut i: usize = 0;
    proof {
        assert(s@.subrange(0, 0) =~= Seq::<char>::empty());
        assert(texts(parts@).push(s@.subrange(0, 0)) =~= split_on(s@.take(0), sep));
    }
    while i < v.len()
        invariant
            v@ == s@,
            from <= i <= v@.len(),
            split_on(s@.take(i as int), sep) == texts(parts@).push(
                s@.subrange(from as int, i as int),
            ),
        decreases v@.len() - i,
    {
        let ghost before = texts(parts@);
        let ghost cur = s@.subrange(from as int, i as int);
        assert(s@.take(i + 1).drop_last() =~= s@.take(i as int));
        assert(before.push(cur).drop_last() =~= before);
        if v[i] == sep {
            let piece = string_of(&v, from, i);
            proof {
                lemma_texts_push(parts@, piece);
            }
            parts.push(piece);
            from = i + 1;
            assert(s@.subrange(from as int, i + 1) =~= Seq::<char>::empty());
        } else {
            assert(s@.subrange(from as int, i + 1) =~= cur.push(s@[i as int]));
        }
        i = i + 1;
    }
    let last = string_of(&v, from, v.len());
    proof {
        lemma_texts_push(parts@, last);
    }
    parts.push(last);
    assert(s@.take(v@.len() as int) =~= s@);
    parts
}

/// The words of `s`.
pub fn split_words(s: &str) -> (r: Vec<String>)
    ensures
        texts(r@) == words(s@),
{
    let v = chars_of(s);
    let mut parts: Vec<String> = Vec::new();
    let mut from: usize = 0;
    let mut i: usize = 0;
    proof {
        assert(s@.subrange(0, 0) =~= Seq::<char>::empty());
        assert(texts(parts@).push(s@.subrange(0, 0)) =~= split_on_space(s@.take(0)));
    }
    while i < v.len()
        invariant
            v@ == s@,
            from <= i <= v@.len(),
            split_on_space(s@.take(i as int)) == texts(parts@).push(
                s@.subrange(from as int, i as int),
            ),
        decreases v@.len() - i,
    {
        let ghost before = texts(parts@);
        let ghost cur = s@.subrange(from as int, i as int);
        assert(s@.take(i + 1).drop_last() =~= s@.take(i as int));
        assert(before.push(cur).drop_last() =~= before);
        if v[i].is_whitespace() {
            let piece = string_of(&v, from, i);
            proof {
                lemma_texts_push(parts@, piece);
            }
            parts.push(piece);
            from = i + 1;
            assert(s@.subrange(from as int, i + 1) =~= Seq::<char>::empty());
        } else {
            assert(s@.subrange(from as int, i + 1) =~= cur.push(s@[i as int]));
        }
        i = i + 1;
    }
    let last = string_of(&v, from, v.len());
    proof {
        lemma_texts_push(parts@, last);
    }
    parts.push(last);
    assert(s@.take(v@.len() as int) =~= s@);
    keep_non_empty(parts)
}

fn find_from(hay: &[char], needle: &[char], start: usize) -> (r: Option<usize>)
    ensures
        match r {
            Some(i) => i == find_text(hay@, needle@, start as int) && stands_at(
                hay@,
                needle@,
                i as int,
            ) && start <= i,
            None => find_text(hay@, needle@, start as int) == -1,
        },
{
    let mut i: usize = start;
    while i <= hay.len() && needle.len() <= hay.len() - i
        invariant
            start <= i,
            find_text(hay@, needle@, start as int) == find_text(hay@, needle@, i as int),
        decreases hay@.len() + 1 - i,
    {
        if matches_at(hay, needle, i) {
            return Some(i);
        }
        if i == hay.len() {
            assert(find_text(hay@, needle@, i + 1) == -1);
            return None;
        }
        i = i + 1;
    }
    None
}

/// What stands behind the first `sep`, up to the next one if there is one.
pub fn between(s: &str, sep: &str) -> (r: Option<String>)
    ensures
        text_of(r) == after_first(s@, sep@),
{
    let hay = chars_of(s);
    let needle = chars_of(sep);
    let n: usize = hay.len();
    match find_from(&hay, &needle, 0) {
        None => None,
        Some(i) => {
            let from: usize = i + needle.len();
            let to = match find_from(&hay, &needle, from) {
                Some(j) => j,
                None => n,
            };
            Some(string_of(&hay, from, to))
        },
    }
}

/// Whether two texts are the same but for the case of ASCII letters.
pub fn same_but_for_case(a: &str, b: &str) -> (r: bool)
    ensures
        r == (ascii_lower(a@) == ascii_lower(b@)),
{
    let x = chars_of(a);
    let y = chars_of(b);
    if x.len() != y.len() {
        assert(ascii_lower(a@).len() != ascii_lower(b@).len());
        return false;
    }
    let mut i: usize = 0;
    while i < x.len()
        invariant
            x@ == a@,
            y@ == b@,
            i <= x@.len() == y@.len(),
            forall|k: int| 0 <= k < i ==> lower_char(x@[k]) == lower_char(y@[k]),
        decreases x@.len() - i,
    {
        if to_lower(x[i]) != to_lower(y[i]) {
            assert(ascii_lower(a@)[i as int] != ascii_lower(b@)[i as int]);
            return false;
        }
        i = i + 1;
    }
    assert(ascii_lower(a@) =~= ascii_lower(b@));
    true
}

fn to_lower(c: char) -> (r: char)
    ensures
        r == lower_char(c),
{
    let n = c as u32;
    if 65 <= n && n <= 90 {
        (n as u8 + 32) as char
    } else {
        c
    }
}

/// Whether `s` begins with `p`, but for the case of ASCII letters in `s`.
pub fn starts_with_but_for_case(s: &str, p: &str) -> (r: bool)
    ensures
        r == begins_with(ascii_lower(s@), p@),
{
    let v = chars_of(s);
    let mut lower: Vec<char> = Vec::new();
    let mut i: usize = 0;
    while i < v.len()
        invariant
            v@ == s@,
            i <= v@.len(),
            lower@ == ascii_lower(s@).take(i as int),
        decreases v@.len() - i,
    {
        lower.push(to_lower(v[i]));
        i = i + 1;
        assert(lower@ =~= ascii_lower(s@).take(i as int));
    }
    assert(lower@ =~= ascii_lower(s@));
    let needle = chars_of(p);
    if needle.len() > lower.len() {
        return false;
    }
    matches_at(&lower, &needle, 0)
}

/// How many bytes a text takes.
pub fn byte_len(s: &str) -> (r: usize)
    ensures
        r == encode_utf8(s@).len(),
{
    s.as_bytes().len()
}

/// The strings that are not empty.
pub fn keep_non_empty(parts: Vec<String>) -> (r: Vec<String>)
    ensures
        texts(r@) == non_empty(texts(parts@)),
{
    let mut out: Vec<String> = Vec::new();
    let mut i: usize = 0;
    let ghost t = texts(parts@);
    assert(texts(out@) =~= non_empty(t.take(0)));
    while i < parts.len()
        invariant
            i <= parts@.len(),
            t == texts(parts@),
            texts(out@) == non_empty(t.take(i as int)),
        decreases parts@.len() - i,
    {
        assert(t.take(i + 1).drop_last() =~= t.take(i as int));
        if !parts[i].as_str().is_empty() {
            let p = parts[i].clone();
            proof {
                lemma_texts_push(out@, p);
            }
            out.push(p);
        }
        i = i + 1;
    }
    assert(t.take(i as int) =~= t);
    out
}

/// The lines of `s`.
pub fn split_lines(s: &str) -> (r: Vec<String>)
    ensures
        texts(r@) == all_lines(s@),
{
    let parts = split(s, '\n');
    let mut out: Vec<String> = Vec::new();
    let ghost t = texts(parts@);
    let ghost want = all_lines(s@);
    let mut i: usize = 0;
    assert(texts(out@) =~= want.take(0));
    while i < parts.len()
        invariant
            i <= parts@.len(),
            t == texts(parts@),
            t == split_on(s@, '\n'),
            want == all_lines(s@),
            texts(out@) == want.take(i as int),
        decreases parts@.len() - i,
    {
        let v = chars_of(parts[i].as_str());
        let mut end: usize = v.len();
        if parts.len() - i > 1 && end > 0 && v[end - 1] == '\r' {
            end = end - 1;
        }
        let line = string_of(&v, 0, end);
        assert(t[i as int] == v@);
        assert(line@ =~= want[i as int]);
        proof {
            lemma_texts_push(out@, line);
            assert(want.take(i + 1) =~= want.take(i as int).push(want[i as int]));
        }
        out.push(line);
        i = i + 1;
    }
    assert(want.take(i as int) =~= want);
    out
}

/// The lines of `s` that hold something.
pub fn lines_with_text(s: &str) -> (r: Vec<String>)
    ensures
        texts(r@) == full_lines(s@),
{
    keep_non_empty(split_lines(s))
}

/// The number that `s` writes, if it is one and not above `max`.
pub fn parse_number(s: &str, max: u64) -> (r: Option<u64>)
    ensures
        r matches Some(n) ==> number(s@, max as nat) == Some(n as nat),
        r is None ==> number(s@, max as nat) is None,
{
    let v = chars_of(s);
    let mut from: usize = 0;
    if v.len() > 0 && v[0] == '+' {
        from = 1;
    }
    let ghost d = without_plus(s@);
    assert(d =~= s@.skip(from as int));
    if from >= v.len() {
        return None;
    }
    let mut n: u64 = 0;
    let mut i: usize = from;
    assert(d.take(0) =~= Seq::empty());
    while i < v.len()
        invariant
            v@ == s@,
            from <= i <= v@.len(),
            d == s@.skip(from as int),
            d == without_plus(s@),
            forall|k: int| 0 <= k < i - from ==> is_digit(#[trigger] d[k]),
            n == decimal_value(d.take(i - from)),
            n <= max,
        decreases v@.len() - i,
    {
        let c = v[i] as u32;
        assert(d[i - from] == v@[i as int]);
        if c < 48 || c > 57 {
            assert(!is_digit(d[i - from]));
            return None;
        }
        let next: u128 = n as u128 * 10 + (c - 48) as u128;
        proof {
            assert(d.take(i - from + 1).drop_last() =~= d.take(i - from));
            if next > max as u128 {
                if forall|k: int| 0 <= k < d.len() ==> is_digit(#[trigger] d[k]) {
                    lemma_decimal_value_prefix(d, i - from + 1);
                }
            }
        }
        if next > max as u128 {
            return None;
        }
        n = next as u64;
        i = i + 1;
    }
    assert(d.take(i - from) =~= d);
    Some(n)
}

/// The lines of a text: what stands before the first line feed, without a
/// carriage return at its end, and then the lines of what stands behind it.
pub proof fn law_lines(a: Seq<char>, b: Seq<char>)
    requires
        lacks(a, '\n'),
    ensures
        all_lines(a + "\n"@ + b) == seq![without_cr(a)] + all_lines(b),
        all_lines(a) == seq![a],
        without_cr(a).len() > 0 ==> full_lines(a + "\n"@ + b) == seq![without_cr(a)] + full_lines(b),
        without_cr(a).len() == 0 ==> full_lines(a + "\n"@ + b) == full_lines(b),
        a.len() > 0 ==> full_lines(a) == seq![a],
{
    reveal_strlit("\n");
    assert("\n"@ =~= seq!['\n']);
    law_split_at_separator(a, '\n', b);
    lemma_split_on_len(b, '\n');
    let s = a + "\n"@ + b;
    let first = seq![without_cr(a)];
    assert(all_lines(s) =~= first + all_lines(b));
    assert(all_lines(a) =~= seq![a]);
    lemma_non_empty_joins(first, all_lines(b));
    reveal_with_fuel(non_empty, 2);
    assert(first.drop_last() =~= Seq::empty());
    assert(seq![a].drop_last() =~= Seq::empty());
    if without_cr(a).len() > 0 {
        assert(non_empty(first) =~= first);
    } else {
        assert(non_empty(first) =~= Seq::empty());
        assert(Seq::<Seq<char>>::empty() + full_lines(b) =~= full_lines(b));
    }
    if a.len() > 0 {
        assert(non_empty(seq![a]) =~= seq![a]);
    }
}

} // verus!
