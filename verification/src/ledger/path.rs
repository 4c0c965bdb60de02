//! Derivation paths written as text, such as `m/44'/14159'/0'`.

use crate::text::{
    chars_of, concat3, decimal, is_digit, join, lacks, law_decimal_reads_back,
    law_numbers_are_read, law_split_undoes_join, keep_non_empty, non_empty, number, parse_u32, quoted, quoted_text,
    split, split_on, string_of, texts, u32_error_text,
};
use vstd::prelude::*;

verus! {

/// The bit that marks a hardened component.
pub const HARDENED: u32 = 0x8000_0000;

/// `n` with the hardened bit set.
pub open spec fn hardened(n: u32) -> u32 {
    if n < 0x8000_0000 {
        (n + 0x8000_0000) as u32
    } else {
        n
    }
}

/// `n` with the hardened bit set.
pub fn harden(n: u32) -> (r: u32)
    ensures
        r == hardened(n),
{
    assert(0x8000_0000u32 | n == if n < 0x8000_0000u32 {
        (n + 0x8000_0000u32) as u32
    } else {
        n
    }) by (bit_vector);
    HARDENED | n
}

/// `s` without the `m/` that it begins with, however often.
pub open spec fn without_root(s: Seq<char>) -> Seq<char>
    decreases s.len(),
{
    if s.len() >= 2 && s[0] == 'm' && s[1] == '/' {
        without_root(s.skip(2))
    } else {
        s
    }
}

/// `s` without the slashes that it begins with.
pub open spec fn without_slashes(s: Seq<char>) -> Seq<char>
    decreases s.len(),
{
    if s.len() > 0 && s[0] == '/' {
        without_slashes(s.drop_first())
    } else {
        s
    }
}

/// `s` without the apostrophes that it ends with.
pub open spec fn without_marks(s: Seq<char>) -> Seq<char>
    decreases s.len(),
{
    if s.len() > 0 && s.last() == '\'' {
        without_marks(s.drop_last())
    } else {
        s
    }
}

/// One component: a number, hardened if an apostrophe follows.
pub open spec fn component(p: Seq<char>) -> Result<u32, Seq<char>> {
    match number(without_marks(p), u32::MAX as nat) {
        Some(n) => if p.last() == '\'' {
            Ok(hardened(n as u32))
        } else {
            Ok(n as u32)
        },
        None => Err(
            "path component "@ + quoted_text(p) + ": "@ + u32_error_text(without_marks(p)),
        ),
    }
}

/// The first `n` components, or the first error among them.
pub open spec fn components(parts: Seq<Seq<char>>, n: nat) -> Result<Seq<u32>, Seq<char>>
    decreases n,
{
    if n == 0 {
        Ok(Seq::empty())
    } else {
        match components(parts, (n - 1) as nat) {
            Err(e) => Err(e),
            Ok(v) => match component(parts[n - 1]) {
                Err(e) => Err(e),
                Ok(w) => Ok(v.push(w)),
            },
        }
    }
}

/// The components that a path is made of, as texts.
pub open spec fn path_parts(path: Seq<char>) -> Seq<Seq<char>> {
    non_empty(split_on(without_slashes(without_root(path)), '/'))
}

/// The path that a text writes.
pub open spec fn path_in(path: Seq<char>) -> Result<Seq<u32>, Seq<char>> {
    components(path_parts(path), path_parts(path).len())
}

/// What a parsed path holds.
pub open spec fn path_outcome(r: Result<Vec<u32>, String>) -> Result<Seq<u32>, Seq<char>> {
    match r {
        Ok(v) => Ok(v@),
        Err(e) => Err(e@),
    }
}

proof fn lemma_components_error(parts: Seq<Seq<char>>, i: nat, n: nat)
    requires
        i <= n,
        components(parts, i) is Err,
    ensures
        components(parts, n) == components(parts, i),
    decreases n,
{
    if i < n {
        lemma_components_error(parts, i, (n - 1) as nat);
    }
}

fn parse_component(p: &String) -> (r: Result<u32, String>)
    requires
        p@.len() > 0,
    ensures
        match component(p@) {
            Ok(w) => r matches Ok(v) && v == w,
            Err(e) => r matches Err(t) && t@ == e,
        },
{
    let v = chars_of(p.as_str());
    let mut end: usize = v.len();
    assert(v@.take(end as int) =~= v@);
    while end > 0 && v[end - 1] == '\''
        invariant
            end <= v@.len(),
            without_marks(v@.take(end as int)) == without_marks(v@),
        decreases end,
    {
        assert(v@.take(end as int).drop_last() =~= v@.take(end - 1));
        end = end - 1;
    }
    let digits = string_of(&v, 0, end);
    assert(digits@ =~= v@.take(end as int));
    match parse_u32(digits.as_str()) {
        Ok(n) => if v[v.len() - 1] == '\'' {
            Ok(harden(n))
        } else {
            Ok(n)
        },
        Err(e) => {
            let mut text = concat3("path component ", quoted(p.as_str()).as_str(), ": ");
            text.append(e.as_str());
            Err(text)
        },
    }
}

/// Parses a derivation path.
pub fn parse_path(path: &str) -> (r: Result<Vec<u32>, String>)
    ensures
        path_outcome(r) == path_in(path@),
{
    let v = chars_of(path);
    let mut from: usize = 0;
    assert(v@.skip(0) =~= v@);
    while v.len() - from >= 2 && v[from] == 'm' && v[from + 1] == '/'
        invariant
            from <= v@.len(),
            without_root(v@.skip(from as int)) == without_root(v@),
        decreases v@.len() - from,
    {
        assert(v@.skip(from as int).skip(2) =~= v@.skip(from + 2));
        from = from + 2;
    }
    let ghost root = v@.skip(from as int);
    assert(without_root(path@) == root);
    while from < v.len() && v[from] == '/'
        invariant
            from <= v@.len(),
            without_slashes(v@.skip(from as int)) == without_slashes(root),
        decreases v@.len() - from,
    {
        assert(v@.skip(from as int).drop_first() =~= v@.skip(from + 1));
        from = from + 1;
    }
    let trimmed = string_of(&v, from, v.len());
    assert(trimmed@ =~= v@.skip(from as int));
    let parts = keep_non_empty(split(trimmed.as_str(), '/'));
    let ghost t = path_parts(path@);
    assert(texts(parts@) == t);
    let mut out: Vec<u32> = Vec::new();
    let mut i: usize = 0;
    proof {
        lemma_non_empty(split_on(trimmed@, '/'));
        assert(out@ =~= Seq::empty());
    }
    while i < parts.len()
        invariant
            i <= parts@.len(),
            t == path_parts(path@),
            texts(parts@) == t,
            forall|k: int| 0 <= k < t.len() ==> (#[trigger] t[k]).len() > 0,
            components(t, i as nat) == Ok::<Seq<u32>, Seq<char>>(out@),
        decreases parts@.len() - i,
    {
        assert(t[i as int] == parts@[i as int]@);
        match parse_component(&parts[i]) {
            Ok(w) => {
                out.push(w);
            },
            Err(e) => {
                proof {
                    lemma_components_error(t, (i + 1) as nat, t.len());
                }
                return Err(e);
            },
        }
        i = i + 1;
    }
    Ok(out)
}

proof fn lemma_non_empty(parts: Seq<Seq<char>>)
    ensures
        forall|k: int|
            0 <= k < non_empty(parts).len() ==> (#[trigger] non_empty(parts)[k]).len() > 0,
    decreases parts.len(),
{
    if parts.len() > 0 {
        let front = non_empty(parts.drop_last());
        lemma_non_empty(parts.drop_last());
        assert forall|k: int| 0 <= k < non_empty(parts).len() implies (#[trigger] non_empty(
            parts,
        )[k]).len() > 0 by {
            if k < front.len() {
                assert(non_empty(parts)[k] == front[k]);
            }
        }
    }
}

// ── What holds of it ──

/// A component as it is written: a number, and an apostrophe if it is hardened.
pub open spec fn written(n: nat, hard: bool) -> Seq<char> {
    if hard {
        decimal(n).push('\'')
    } else {
        decimal(n)
    }
}

/// The words of a path as they are written, one behind the other.
pub open spec fn written_parts(words: Seq<(nat, bool)>) -> Seq<Seq<char>> {
    Seq::new(words.len(), |i: int| written(words[i].0, words[i].1))
}

proof fn lemma_written(n: nat, hard: bool)
    requires
        n < 0x8000_0000,
    ensures
        written(n, hard).len() > 0,
        lacks(written(n, hard), '/'),
        is_digit(written(n, hard)[0]),
        component(written(n, hard)) == Ok::<u32, Seq<char>>(
            (if hard {
                n + 0x8000_0000
            } else {
                n
            }) as u32,
        ),
{
    let d = decimal(n);
    let w = written(n, hard);
    law_decimal_reads_back(n);
    law_numbers_are_read(n, u32::MAX as nat, d, 0);
    assert(is_digit(d[d.len() - 1]));
    assert(without_marks(d) == d);
    if hard {
        assert(w.drop_last() =~= d);
        assert(w[0] == d[0]);
    }
    assert(is_digit(d[0]));
    assert forall|i: int| 0 <= i < w.len() implies #[trigger] w[i] != '/' by {
        if i < d.len() {
            assert(w[i] == d[i]);
            assert(is_digit(d[i]));
        }
    }
}

/// A path is read as it was written: `m/`, then the components with slashes
/// between them, each hardened if an apostrophe stands behind it.
pub proof fn law_path_reads_back(words: Seq<(nat, bool)>, path: Seq<u32>)
    requires
        words.len() > 0,
        path.len() == words.len(),
        forall|i: int|
            0 <= i < words.len() ==> (#[trigger] words[i]).0 < 0x8000_0000 && path[i] == words[i].0
                + (if words[i].1 {
                0x8000_0000int
            } else {
                0int
            }),
    ensures
        path_in("m/"@ + join(written_parts(words), "/"@)) == Ok::<Seq<u32>, Seq<char>>(path),
        path_in(join(written_parts(words), "/"@)) == Ok::<Seq<u32>, Seq<char>>(path),
{
    reveal_strlit("m/");
    reveal_strlit("/");
    assert("/"@ =~= seq!['/']);
    let parts = written_parts(words);
    let body = join(parts, "/"@);
    let text = "m/"@ + body;
    assert forall|i: int| 0 <= i < parts.len() implies {
        &&& lacks(#[trigger] parts[i], '/')
        &&& parts[i].len() > 0
        &&& is_digit(parts[i][0])
        &&& component(parts[i]) == Ok::<u32, Seq<char>>(path[i])
    } by {
        lemma_written(words[i].0, words[i].1);
    }
    law_split_undoes_join(parts, '/');
    lemma_join_starts(parts, "/"@);
    assert(body[0] == parts[0][0]);
    assert(without_root(body) == body && without_slashes(body) == body);
    assert(text.skip(2) =~= body);
    lemma_all_full(parts);
    lemma_components(parts, path, parts.len());
    assert(path.take(path.len() as int) =~= path);
}

proof fn lemma_join_starts(parts: Seq<Seq<char>>, sep: Seq<char>)
    requires
        parts.len() > 0,
        parts[0].len() > 0,
    ensures
        join(parts, sep).len() >= parts[0].len(),
        join(parts, sep)[0] == parts[0][0],
    decreases parts.len(),
{
    if parts.len() > 1 {
        lemma_join_starts(parts.drop_last(), sep);
    }
}

proof fn lemma_all_full(parts: Seq<Seq<char>>)
    requires
        forall|i: int| 0 <= i < parts.len() ==> (#[trigger] parts[i]).len() > 0,
    ensures
        non_empty(parts) == parts,
    decreases parts.len(),
{
    if parts.len() > 0 {
        let less = parts.drop_last();
        assert forall|i: int| 0 <= i < less.len() implies (#[trigger] less[i]).len() > 0 by {
            assert(less[i] == parts[i]);
        }
        lemma_all_full(less);
        assert(parts[parts.len() - 1].len() > 0);
        assert(less.push(parts.last()) =~= parts);
    } else {
        assert(parts =~= Seq::empty());
    }
}

proof fn lemma_components(parts: Seq<Seq<char>>, path: Seq<u32>, n: nat)
    requires
        n <= parts.len() == path.len(),
        forall|i: int|
            0 <= i < parts.len() ==> component(#[trigger] parts[i]) == Ok::<u32, Seq<char>>(
                path[i],
            ),
    ensures
        components(parts, n) == Ok::<Seq<u32>, Seq<char>>(path.take(n as int)),
    decreases n,
{
    if n > 0 {
        lemma_components(parts, path, (n - 1) as nat);
        assert(component(parts[n - 1]) == Ok::<u32, Seq<char>>(path[n - 1]));
        assert(path.take(n as int) =~= path.take(n - 1).push(path[n - 1]));
    } else {
        assert(path.take(0) =~= Seq::empty());
    }
}

/// Hardening sets the highest bit of a word and leaves the others; it is done
/// once at most.
pub proof fn law_hardened(n: u32)
    ensures
        n < 0x8000_0000 ==> hardened(n) == n + 0x8000_0000,
        hardened(hardened(n)) == hardened(n),
        hardened(n) % 0x8000_0000 == n % 0x8000_0000,
{
}

} // verus!
