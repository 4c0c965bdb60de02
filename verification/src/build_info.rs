//! What is fixed when the wallet is built: its network, and the versions it
//! tells the user.

use crate::json::{check_json, is_json, json_text, json_text_at};
use crate::text::{
    all_lines, contains, contains_text, lacks, law_split_at_separator, lemma_split_on_len, split,
    split_lines, split_on, text_of, texts, trim,
    trimmed, utf8_string,
};
use vstd::prelude::*;
use vstd::utf8::{decode_utf8, valid_utf8};

verus! {

/// The network that a configuration names; the test network if it names none,
/// and nothing if it cannot be read.
pub open spec fn named_network(readable: bool, network: Option<Seq<char>>) -> Option<Seq<char>> {
    if !readable {
        None
    } else {
        match network {
            Some(n) => Some(n),
            None => Some("testnet"@),
        }
    }
}

/// The network to build for, by what was read of the configuration.
pub fn network_or_default(readable: bool, network: Option<String>) -> (r: Option<String>)
    ensures
        text_of(r) == named_network(readable, text_of(network)),
{
    if !readable {
        None
    } else {
        match network {
            Some(n) => Some(n),
            None => Some("testnet".to_owned()),
        }
    }
}

/// The network to build for.
pub fn build_network(conf: &[u8]) -> (r: Option<String>)
    ensures
        text_of(r) == named_network(is_json(conf@), json_text_at(conf@, "/network"@)),
{
    network_or_default(check_json(conf), json_text(conf, "/network"))
}

/// The version of the wallet, by what `git` printed; empty if that is no text.
pub fn wallet_hash(output: Option<Vec<u8>>) -> (r: String)
    ensures
        r@ == match output {
            Some(o) => if valid_utf8(o@) {
                trim(decode_utf8(o@))
            } else {
                ""@
            },
            None => ""@,
        },
{
    match output {
        Some(o) => match utf8_string(o) {
            Ok(t) => trimmed(t.as_str()),
            Err(_) => "".to_owned(),
        },
        None => "".to_owned(),
    }
}

/// The first line that holds a text.
pub open spec fn first_holding(lines: Seq<Seq<char>>, needle: Seq<char>) -> Option<Seq<char>>
    decreases lines.len(),
{
    if lines.len() == 0 {
        None
    } else if contains_text(lines[0], needle) {
        Some(lines[0])
    } else {
        first_holding(lines.drop_first(), needle)
    }
}

/// What stands behind the first quotation mark of a line, up to the next.
pub open spec fn quoted_in(line: Option<Seq<char>>) -> Option<Seq<char>> {
    match line {
        Some(l) => if split_on(l, '"').len() > 1 {
            Some(split_on(l, '"')[1])
        } else {
            None
        },
        None => None,
    }
}

/// The version of the node, by a file of its source that names it.
pub open spec fn node_version(file: Option<Seq<char>>) -> Seq<char> {
    let found = match file {
        Some(t) => quoted_in(first_holding(all_lines(t), "_buildHash"@)),
        None => None,
    };
    match found {
        Some(v) => v,
        None => "unknown"@,
    }
}

/// The version of the node that the wallet is bundled with.
#[verifier::loop_isolation(false)]
pub fn bundled_hash(file: Option<&str>) -> (r: String)
    ensures
        r@ == node_version(crate::text::slice_text_of(file)),
{
    let text = match file {
        Some(t) => t,
        None => return "unknown".to_owned(),
    };
    let lines = split_lines(text);
    let ghost all = texts(lines@);
    let mut i: usize = 0;
    assert(all.skip(0) =~= all);
    while i < lines.len()
        invariant
            i <= lines@.len(),
            first_holding(all.skip(i as int), "_buildHash"@) == first_holding(all, "_buildHash"@),
        decreases lines@.len() - i,
    {
        assert(all.skip(i as int).drop_first() =~= all.skip(i + 1));
        assert(all.skip(i as int)[0] == lines@[i as int]@);
        if contains(lines[i].as_str(), "_buildHash") {
            let parts = split(lines[i].as_str(), '"');
            assert(texts(parts@).len() == parts@.len());
            if parts.len() > 1 {
                assert(texts(parts@)[1] == parts@[1]@);
                return parts[1].clone();
            }
            return "unknown".to_owned();
        }
        i = i + 1;
    }
    assert(all.skip(i as int) =~= Seq::empty());
    "unknown".to_owned()
}

/// The version of the node is what stands between the first two quotation marks
/// of the first line that speaks of it.
pub proof fn law_version_is_quoted(
    lines: Seq<Seq<char>>,
    i: int,
    a: Seq<char>,
    version: Seq<char>,
    b: Seq<char>,
)
    requires
        0 <= i < lines.len(),
        lines[i] == a + "\""@ + version + "\""@ + b,
        lacks(a, '"'),
        lacks(version, '"'),
        contains_text(lines[i], "_buildHash"@),
        forall|k: int| 0 <= k < i ==> !contains_text(#[trigger] lines[k], "_buildHash"@),
    ensures
        quoted_in(first_holding(lines, "_buildHash"@)) == Some(version),
    decreases i,
{
    if i == 0 {
        reveal_strlit("\"");
        let rest = version + seq!['"'] + b;
        law_split_at_separator(a, '"', rest);
        law_split_at_separator(version, '"', b);
        assert(lines[0] =~= a + seq!['"'] + rest);
        assert(split_on(lines[0], '"') =~= seq![a, version] + split_on(b, '"'));
        lemma_split_on_len(b, '"');
    } else {
        let less = lines.drop_first();
        assert(less[i - 1] == lines[i]);
        assert forall|k: int| 0 <= k < i - 1 implies !contains_text(
            #[trigger] less[k],
            "_buildHash"@,
        ) by {
            assert(less[k] == lines[k + 1]);
        }
        law_version_is_quoted(less, i - 1, a, version, b);
        assert(!contains_text(lines[0], "_buildHash"@));
    }
}

/// Where nothing speaks of the version it is not known; a configuration that
/// names no network means the test network.
pub proof fn law_defaults(network: Seq<char>)
    ensures
        node_version(None) == "unknown"@,
        named_network(true, None) == Some("testnet"@),
        named_network(true, Some(network)) == Some(network),
        named_network(false, Some(network)) is None,
{
}

} // verus!
