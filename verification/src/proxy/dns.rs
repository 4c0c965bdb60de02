//! Name resolution: the queries that are sent to the node's DNS server and
//! what is made of its replies.

use crate::ledger::reader::{all_encoded, lemma_all_encoded_front};
use crate::text::{
    concat2, decimal, hexadecimal, is_digit, join, join_strings, keep_non_empty, lacks,
    law_decimal_reads_back, law_hexadecimal_reads_back, law_split_at_separator,
    law_split_undoes_join, lemma_non_empty_joins, lossy_string, non_empty, number_after,
    push_decimal, push_hex, split, split_on, text_in, text_of, texts,
};
use crate::wire::{
    be, be_value, copy_range, le, lemma_be_value_bound, lemma_pow256_values, push_all, push_be,
    push_le, read_be,
};
use vstd::prelude::*;
use vstd::utf8::{
    encode_utf8, encode_utf8_decode_utf8, encode_utf8_valid_utf8, is_ascii_chars_encode_utf8,
};

verus! {

pub const TYPE_A: u16 = 1;

pub const TYPE_CNAME: u16 = 5;

pub const TYPE_TXT: u16 = 16;

pub const TYPE_AAAA: u16 = 28;

pub const TYPE_TLSA: u16 = 52;

/// Records of every type.
pub const TYPE_ANY: u16 = 255;

pub const RCODE_NOERROR: u8 = 0;

pub const RCODE_NXDOMAIN: u8 = 3;

/// How many compression pointers a name may go through, and one more.
pub const MAX_JUMPS: u8 = 10;

/// The node's DNS server on this machine.
pub struct DnsServer {
    pub port: u16,
}

/// The client, pointed at another port.
pub open spec fn pointed_at(server: DnsServer, port: u16) -> DnsServer {
    DnsServer { port, ..server }
}

/// What a name resolves to.
#[derive(Debug, Clone)]
pub struct ResolvedName {
    pub ipv4: Option<String>,
    pub ipv6: Option<String>,
    pub cname: Option<String>,
    pub tlsa: Vec<TlsaRecord>,
}

/// A TLSA record.
#[derive(Debug, Clone)]
pub struct TlsaRecord {
    pub usage: u8,
    pub selector: u8,
    pub matching_type: u8,
    pub cert_data: Vec<u8>,
}

/// Result of a name resolution attempt.
#[derive(Debug)]
pub enum ResolveResult {
    /// The name resolved to at least one address.
    Found(ResolvedName),
    /// The name does not exist.
    NotFound,
    /// The name exists but has no records at all.
    NoRecords,
    /// The name has records but no address.
    NoWebsite,
    /// The server was not reachable.
    DnsError,
}

/// What to do next to resolve a name: send this query, or be done.
pub enum Lookup<R> {
    /// Send the query there.
    Ask { to: String, query: Vec<u8> },
    Done(R),
}

pub struct Tlsa {
    pub usage: u8,
    pub selector: u8,
    pub matching_type: u8,
    pub cert_data: Seq<u8>,
}

impl View for TlsaRecord {
    type V = Tlsa;

    open spec fn view(&self) -> Tlsa {
        Tlsa {
            usage: self.usage,
            selector: self.selector,
            matching_type: self.matching_type,
            cert_data: self.cert_data@,
        }
    }
}

pub open spec fn tlsa_views(v: Seq<TlsaRecord>) -> Seq<Tlsa> {
    Seq::new(v.len(), |i: int| v[i]@)
}

pub struct Resolved {
    pub ipv4: Option<Seq<char>>,
    pub ipv6: Option<Seq<char>>,
    pub cname: Option<Seq<char>>,
    pub tlsa: Seq<Tlsa>,
}

impl View for ResolvedName {
    type V = Resolved;

    open spec fn view(&self) -> Resolved {
        Resolved {
            ipv4: text_of(self.ipv4),
            ipv6: text_of(self.ipv6),
            cname: text_of(self.cname),
            tlsa: tlsa_views(self.tlsa@),
        }
    }
}

pub enum Resolution {
    Found(Resolved),
    NotFound,
    NoRecords,
    NoWebsite,
    DnsError,
}

impl View for ResolveResult {
    type V = Resolution;

    open spec fn view(&self) -> Resolution {
        match self {
            ResolveResult::Found(r) => Resolution::Found(r@),
            ResolveResult::NotFound => Resolution::NotFound,
            ResolveResult::NoRecords => Resolution::NoRecords,
            ResolveResult::NoWebsite => Resolution::NoWebsite,
            ResolveResult::DnsError => Resolution::DnsError,
        }
    }
}

pub enum LookupView<R> {
    Ask { to: Seq<char>, query: Seq<u8> },
    Done(R),
}

// ── Queries ──

/// A label with its length in front, in one byte.
pub open spec fn encode_label(label: Seq<char>) -> Seq<u8> {
    le(encode_utf8(label).len(), 1) + encode_utf8(label)
}

/// The labels of a name.
pub open spec fn labels_of(name: Seq<char>) -> Seq<Seq<char>> {
    non_empty(split_on(name, '.'))
}

/// The header of a query: an id, recursion desired, and one question.
pub open spec fn query_header() -> Seq<u8> {
    seq![0xABu8, 0xCD, 0x01, 0x00, 0, 1, 0, 0, 0, 0, 0, 0]
}

/// The query for the records of one type of a name.
pub open spec fn query(name: Seq<char>, qtype: u16) -> Seq<u8> {
    query_header() + all_encoded(|l: Seq<char>| encode_label(l), labels_of(name)) + seq![0u8] + be(
        qtype as nat,
        2,
    ) + seq![0u8, 1u8]
}

/// The query for the records of one type of a name.
pub fn build_query(name: &str, qtype: u16) -> (r: Vec<u8>)
    ensures
        r@ == query(name@, qtype),
{
    let mut buf: Vec<u8> = Vec::new();
    buf.push(0xAB);
    buf.push(0xCD);
    buf.push(0x01);
    buf.push(0x00);
    push_be(&mut buf, 1, 2);
    push_be(&mut buf, 0, 2);
    push_be(&mut buf, 0, 2);
    push_be(&mut buf, 0, 2);
    proof {
        reveal_with_fuel(be, 3);
        assert(buf@ =~= query_header());
    }
    let labels = keep_non_empty(split(name, '.'));
    let ghost t = labels_of(name@);
    let ghost write = |l: Seq<char>| encode_label(l);
    let mut i: usize = 0;
    assert(buf@ =~= query_header() + all_encoded(write, t.take(0)));
    while i < labels.len()
        invariant
            i <= labels@.len(),
            texts(labels@) == t,
            write == |l: Seq<char>| encode_label(l),
            buf@ == query_header() + all_encoded(write, t.take(i as int)),
        decreases labels@.len() - i,
    {
        let bytes = labels[i].as_str().as_bytes();
        push_le(&mut buf, bytes.len() as u64, 1);
        push_all(&mut buf, bytes);
        proof {
            assert(t[i as int] == labels@[i as int]@);
            assert(t.take(i + 1).drop_last() =~= t.take(i as int));
            assert(buf@ =~= query_header() + all_encoded(write, t.take(i + 1)));
        }
        i = i + 1;
    }
    assert(t.take(i as int) =~= t);
    buf.push(0);
    push_be(&mut buf, qtype as u64, 2);
    buf.push(0);
    buf.push(1);
    assert(buf@ =~= query(name@, qtype));
    buf
}

// ── Names in a reply ──

/// Where a compression pointer leads.
pub open spec fn pointer(high: u8, low: u8) -> int {
    (high - 0xC0) * 256 + low
}

/// The labels of the name at `pos`, and where it ends: behind its root label,
/// or behind the first compression pointer. At most `jumps` pointers may be
/// met, the last of them in vain.
pub open spec fn labels_at(data: Seq<u8>, pos: int, jumps: nat) -> Option<(Seq<Seq<u8>>, int)>
    decreases jumps, data.len() - pos,
{
    if pos < 0 || pos >= data.len() || jumps == 0 {
        None
    } else if data[pos] == 0 {
        Some((Seq::empty(), pos + 1))
    } else if data[pos] >= 0xC0 {
        if pos + 1 >= data.len() {
            None
        } else {
            match labels_at(data, pointer(data[pos], data[pos + 1]), (jumps - 1) as nat) {
                None => None,
                Some((labels, _)) => Some((labels, pos + 2)),
            }
        }
    } else {
        let end = pos + 1 + data[pos];
        if end > data.len() {
            None
        } else {
            match labels_at(data, end, jumps) {
                None => None,
                Some((labels, e)) => Some((seq![data.subrange(pos + 1, end)] + labels, e)),
            }
        }
    }
}

/// The name that labels make: with dots between them.
pub open spec fn name_text(labels: Seq<Seq<u8>>) -> Seq<char> {
    join(Seq::new(labels.len(), |i: int| text_in(labels[i])), "."@)
}

/// The name at `pos`.
pub open spec fn name_at(data: Seq<u8>, pos: int) -> Option<Seq<char>> {
    match labels_at(data, pos, MAX_JUMPS as nat) {
        None => None,
        Some((labels, _)) => Some(name_text(labels)),
    }
}

/// Where the name at `pos` ends. One that cannot be read is taken to be empty.
pub open spec fn behind_name(data: Seq<u8>, pos: int) -> int {
    match labels_at(data, pos, MAX_JUMPS as nat) {
        None => pos,
        Some((_, e)) => e,
    }
}

proof fn lemma_name_end(data: Seq<u8>, pos: int, jumps: nat)
    ensures
        labels_at(data, pos, jumps) matches Some((_, e)) ==> pos < e <= data.len(),
    decreases jumps, data.len() - pos,
{
    if 0 <= pos < data.len() && jumps > 0 && data[pos] != 0 {
        if data[pos] < 0xC0 && pos + 1 + data[pos] <= data.len() {
            lemma_name_end(data, pos + 1 + data[pos], jumps);
        }
    }
}

/// What a name is, given the labels before `pos` and where a pointer was
/// followed first.
spec fn resumed(
    data: Seq<u8>,
    before: Seq<Seq<u8>>,
    pos: int,
    jumps: nat,
    jumped: Option<usize>,
) -> Option<(Seq<Seq<u8>>, int)> {
    match labels_at(data, pos, jumps) {
        None => None,
        Some((labels, e)) => Some(
            (
                before + labels,
                match jumped {
                    Some(t) => t as int,
                    None => e,
                },
            ),
        ),
    }
}

/// Reads the name at `*offset` and moves behind it. If there is none, the
/// offset stays.
pub fn parse_name(data: &[u8], offset: &mut usize) -> (r: Option<String>)
    ensures
        text_of(r) == name_at(data@, *old(offset) as int),
        *final(offset) == behind_name(data@, *old(offset) as int),
{
    let start: usize = *offset;
    let mut labels: Vec<String> = Vec::new();
    let ghost mut raw: Seq<Seq<u8>> = Seq::empty();
    let mut pos: usize = start;
    let mut jumped: Option<usize> = None;
    let mut jumps: u8 = MAX_JUMPS;
    proof {
        assert(texts(labels@) =~= Seq::new(raw.len(), |i: int| text_in(raw[i])));
        if let Some((l, e)) = labels_at(data@, pos as int, jumps as nat) {
            assert(raw + l =~= l);
        }
    }
    while pos < data.len() && jumps > 0 && data[pos] != 0
        invariant
            *offset == start,
            jumps <= MAX_JUMPS,
            texts(labels@) == Seq::new(raw.len(), |i: int| text_in(raw[i])),
            labels_at(data@, start as int, MAX_JUMPS as nat) == resumed(
                data@,
                raw,
                pos as int,
                jumps as nat,
                jumped,
            ),
        decreases jumps, data@.len() - pos,
    {
        let n = data[pos];
        let left: usize = data.len() - pos - 1;
        if n >= 0xC0 {
            if left < 1 {
                return None;
            }
            let target: usize = (n - 0xC0) as usize * 256 + data[pos + 1] as usize;
            if jumped.is_none() {
                jumped = Some(pos + 2);
            }
            pos = target;
            jumps = jumps - 1;
        } else {
            if n as usize > left {
                return None;
            }
            let end: usize = pos + 1 + n as usize;
            let bytes = copy_range(data, pos + 1, end);
            let label = lossy_string(&bytes);
            let ghost before = raw;
            let ghost was = labels@;
            proof {
                raw = raw.push(bytes@);
                if let Some((l, e)) = labels_at(data@, end as int, jumps as nat) {
                    assert(before + (seq![bytes@] + l) =~= raw + l);
                }
            }
            labels.push(label);
            proof {
                crate::text::lemma_texts_push(was, label);
                assert(texts(labels@) =~= Seq::new(raw.len(), |i: int| text_in(raw[i])));
            }
            pos = end;
        }
    }
    if pos >= data.len() || jumps == 0 {
        return None;
    }
    proof {
        assert(raw + Seq::<Seq<u8>>::empty() =~= raw);
    }
    match jumped {
        Some(t) => {
            *offset = t;
        },
        None => {
            *offset = pos + 1;
        },
    }
    Some(join_strings(&labels, "."))
}

// ── Records ──

/// The data of the records of type `t` among `n` records from `pos` on. A
/// record that does not fit ends the list.
pub open spec fn records_at(data: Seq<u8>, pos: int, n: nat, t: u16) -> Seq<Seq<u8>>
    decreases n,
{
    if n == 0 || pos >= data.len() {
        Seq::empty()
    } else {
        let p = behind_name(data, pos);
        let start = p + 10;
        let end = start + be_value(data.subrange(p + 8, p + 10));
        if start > data.len() || end > data.len() {
            Seq::empty()
        } else {
            let rest = records_at(data, end, (n - 1) as nat, t);
            if be_value(data.subrange(p, p + 2)) == t {
                seq![data.subrange(start, end)] + rest
            } else {
                rest
            }
        }
    }
}

/// The data of the answers of type `t` in a reply. The header counts the
/// answers; a question stands between them.
pub open spec fn answers(data: Seq<u8>, t: u16) -> Seq<Seq<u8>> {
    if data.len() < 12 {
        Seq::empty()
    } else {
        records_at(data, behind_name(data, 12) + 4, be_value(data.subrange(6, 8)), t)
    }
}

pub open spec fn byte_views(v: Seq<Vec<u8>>) -> Seq<Seq<u8>> {
    Seq::new(v.len(), |i: int| v[i]@)
}

/// The data of the answers of one type.
pub fn parse_answers(data: &[u8], expected_type: u16) -> (r: Vec<Vec<u8>>)
    ensures
        byte_views(r@) == answers(data@, expected_type),
{
    let mut results: Vec<Vec<u8>> = Vec::new();
    if data.len() < 12 {
        assert(byte_views(results@) =~= Seq::empty());
        return results;
    }
    let ancount = read_be(&copy_range(data, 6, 8));
    let mut offset: usize = 12;
    let _ = parse_name(data, &mut offset);
    proof {
        lemma_name_end(data@, 12, MAX_JUMPS as nat);
        assert(byte_views(results@) =~= Seq::empty());
    }
    let ghost total = answers(data@, expected_type);
    if offset >= data.len() || data.len() - offset < 4 {
        return results;
    }
    offset = offset + 4;
    let mut left: u64 = ancount;
    proof {
        assert(byte_views(results@) + records_at(data@, offset as int, left as nat, expected_type)
            =~= total);
    }
    while left > 0 && offset < data.len()
        invariant
            offset <= data@.len(),
            total == answers(data@, expected_type),
            byte_views(results@) + records_at(data@, offset as int, left as nat, expected_type)
                == total,
        decreases left,
    {
        let ghost from = offset as int;
        let _ = parse_name(data, &mut offset);
        proof {
            lemma_name_end(data@, from, MAX_JUMPS as nat);
        }
        let ghost p = offset as int;
        if data.len() - offset < 10 {
            assert(byte_views(results@) + Seq::<Seq<u8>>::empty() =~= byte_views(results@));
            return results;
        }
        let rtype = read_be(&copy_range(data, offset, offset + 2));
        let rdlength = read_be(&copy_range(data, offset + 8, offset + 10));
        proof {
            lemma_be_value_bound(data@.subrange(p + 8, p + 10));
            lemma_pow256_values();
        }
        offset = offset + 10;
        if rdlength as usize > data.len() - offset {
            assert(byte_views(results@) + Seq::<Seq<u8>>::empty() =~= byte_views(results@));
            return results;
        }
        let end: usize = offset + rdlength as usize;
        let ghost rest = records_at(data@, end as int, (left - 1) as nat, expected_type);
        if rtype == expected_type as u64 {
            let rdata = copy_range(data, offset, end);
            let ghost before = results@;
            results.push(rdata);
            proof {
                assert(byte_views(results@) =~= byte_views(before).push(rdata@));
                assert(byte_views(before) + (seq![rdata@] + rest) =~= byte_views(results@) + rest);
            }
        }
        offset = end;
        left = left - 1;
    }
    proof {
        assert(byte_views(results@) + Seq::<Seq<u8>>::empty() =~= byte_views(results@));
    }
    results
}

/// The low four bits of byte 3.
pub open spec fn rcode(reply: Seq<u8>) -> u8 {
    if reply.len() < 4 {
        0
    } else {
        reply[3] % 16
    }
}

/// The response code of a reply.
pub fn dns_rcode(reply: &[u8]) -> (r: u8)
    ensures
        r == rcode(reply@),
{
    if reply.len() < 4 {
        0
    } else {
        reply[3] % 16
    }
}

/// An address record: four numbers with dots between them.
pub open spec fn ipv4_in(rdata: Seq<u8>) -> Option<Seq<char>> {
    if rdata.len() < 4 {
        None
    } else {
        Some(
            decimal(rdata[0] as nat) + "."@ + decimal(rdata[1] as nat) + "."@ + decimal(
                rdata[2] as nat,
            ) + "."@ + decimal(rdata[3] as nat),
        )
    }
}

/// An IPv6 address record: eight groups with colons between them, none left
/// out.
pub open spec fn ipv6_in(rdata: Seq<u8>) -> Option<Seq<char>> {
    if rdata.len() < 16 {
        None
    } else {
        Some(
            join(
                Seq::new(8, |i: int| hexadecimal(be_value(rdata.subrange(2 * i, 2 * i + 2)))),
                ":"@,
            ),
        )
    }
}

pub open spec fn tlsa_in(rdata: Seq<u8>) -> Option<Tlsa> {
    if rdata.len() < 4 {
        None
    } else {
        Some(
            Tlsa {
                usage: rdata[0],
                selector: rdata[1],
                matching_type: rdata[2],
                cert_data: rdata.skip(3),
            },
        )
    }
}

/// The name in a CNAME record, without the dot at its end.
pub open spec fn cname_in(rdata: Seq<u8>) -> Option<Seq<char>> {
    match name_at(rdata, 0) {
        None => None,
        Some(t) => if t.len() > 0 && t.last() == '.' {
            Some(t.drop_last())
        } else {
            Some(t)
        },
    }
}

pub fn parse_a(rdata: &[u8]) -> (r: Option<String>)
    ensures
        text_of(r) == ipv4_in(rdata@),
{
    if rdata.len() < 4 {
        return None;
    }
    let mut out = String::new();
    push_decimal(&mut out, rdata[0] as u64);
    out.append(".");
    push_decimal(&mut out, rdata[1] as u64);
    out.append(".");
    push_decimal(&mut out, rdata[2] as u64);
    out.append(".");
    push_decimal(&mut out, rdata[3] as u64);
    assert(out@ =~= ipv4_in(rdata@)->Some_0);
    Some(out)
}

pub fn parse_aaaa(rdata: &[u8]) -> (r: Option<String>)
    ensures
        text_of(r) == ipv6_in(rdata@),
{
    if rdata.len() < 16 {
        return None;
    }
    let mut groups: Vec<String> = Vec::new();
    let ghost want = Seq::new(
        8,
        |i: int| hexadecimal(be_value(rdata@.subrange(2 * i, 2 * i + 2))),
    );
    let mut i: usize = 0;
    assert(texts(groups@) =~= want.take(0));
    while i < 8
        invariant
            i <= 8,
            rdata@.len() >= 16,
            want == Seq::new(
                8,
                |i: int| hexadecimal(be_value(rdata@.subrange(2 * i, 2 * i + 2))),
            ),
            texts(groups@) == want.take(i as int),
        decreases 8 - i,
    {
        let n = read_be(&copy_range(rdata, 2 * i, 2 * i + 2));
        let mut group = String::new();
        push_hex(&mut group, n);
        proof {
            assert(group@ =~= want[i as int]);
            crate::text::lemma_texts_push(groups@, group);
            assert(want.take(i + 1) =~= want.take(i as int).push(want[i as int]));
        }
        groups.push(group);
        i = i + 1;
    }
    assert(want.take(8) =~= want);
    Some(join_strings(&groups, ":"))
}

pub fn parse_tlsa(rdata: &[u8]) -> (r: Option<TlsaRecord>)
    ensures
        match tlsa_in(rdata@) {
            None => r is None,
            Some(t) => r matches Some(v) && v@ == t,
        },
{
    if rdata.len() < 4 {
        return None;
    }
    let cert_data = copy_range(rdata, 3, rdata.len());
    assert(cert_data@ =~= rdata@.skip(3));
    Some(
        TlsaRecord {
            usage: rdata[0],
            selector: rdata[1],
            matching_type: rdata[2],
            cert_data,
        },
    )
}

pub fn parse_cname(rdata: &[u8]) -> (r: Option<String>)
    ensures
        text_of(r) == cname_in(rdata@),
{
    let mut offset: usize = 0;
    match parse_name(rdata, &mut offset) {
        None => None,
        Some(t) => {
            let v = crate::text::chars_of(t.as_str());
            if v.len() > 0 && v[v.len() - 1] == '.' {
                let cut = crate::text::string_of(&v, 0, v.len() - 1);
                assert(cut@ =~= t@.drop_last());
                Some(cut)
            } else {
                Some(t)
            }
        },
    }
}

// ── What is written is read ──

/// The encoded labels of a name, each as its bytes.
pub open spec fn label_bytes(labels: Seq<Seq<char>>) -> Seq<Seq<u8>> {
    Seq::new(labels.len(), |i: int| encode_utf8(labels[i]))
}

/// A label that is not taken for a root label or a compression pointer.
pub open spec fn is_label(label: Seq<char>) -> bool {
    1 <= encode_utf8(label).len() < 0xC0
}

proof fn lemma_labels_read(before: Seq<u8>, labels: Seq<Seq<char>>, after: Seq<u8>, jumps: nat)
    requires
        jumps > 0,
        forall|i: int| 0 <= i < labels.len() ==> is_label(#[trigger] labels[i]),
    ensures
        ({
            let body = all_encoded(|l: Seq<char>| encode_label(l), labels);
            labels_at(before + body + seq![0u8] + after, before.len() as int, jumps) == Some(
                (label_bytes(labels), (before.len() + body.len() + 1) as int),
            )
        }),
    decreases labels.len(),
{
    let write = |l: Seq<char>| encode_label(l);
    let body = all_encoded(write, labels);
    let data = before + body + seq![0u8] + after;
    let pos = before.len() as int;
    if labels.len() == 0 {
        assert(data[pos] == 0);
        assert(label_bytes(labels) =~= Seq::empty());
    } else {
        let first = encode_utf8(labels[0]);
        let rest = labels.drop_first();
        let tail = all_encoded(write, rest);
        lemma_all_encoded_front(write, labels);
        assert(is_label(labels[0]));
        reveal_with_fuel(le, 2);
        assert(encode_label(labels[0])[0] == first.len() as u8);
        let next = before + encode_label(labels[0]);
        assert(data =~= next + tail + seq![0u8] + after);
        assert(data[pos] == first.len());
        assert(data.subrange(pos + 1, pos + 1 + first.len()) =~= first);
        assert forall|i: int| 0 <= i < rest.len() implies is_label(#[trigger] rest[i]) by {
            assert(rest[i] == labels[i + 1]);
        }
        lemma_labels_read(next, rest, after, jumps);
        assert(label_bytes(labels) =~= seq![first] + label_bytes(rest));
    }
}

/// The name in a query reads back as the labels that it was asked with.
pub proof fn law_query_name_reads_back(name: Seq<char>, qtype: u16)
    requires
        forall|i: int| 0 <= i < labels_of(name).len() ==> is_label(#[trigger] labels_of(name)[i]),
    ensures
        labels_at(query(name, qtype), 12, MAX_JUMPS as nat) == Some(
            (label_bytes(labels_of(name)), query(name, qtype).len() - 4),
        ),
{
    let tail = be(qtype as nat, 2) + seq![0u8, 1u8];
    let body = all_encoded(|l: Seq<char>| encode_label(l), labels_of(name));
    crate::wire::lemma_be_len(qtype as nat, 2);
    lemma_labels_read(query_header(), labels_of(name), tail, MAX_JUMPS as nat);
    assert(query(name, qtype) =~= query_header() + body + seq![0u8] + tail);
}

/// A record of a reply.
pub struct Record {
    pub rtype: u16,
    pub ttl: nat,
    pub rdata: Seq<u8>,
}

/// A record for the name in the question, to which it points back.
pub open spec fn encode_record(r: Record) -> Seq<u8> {
    seq![0xC0u8, 12u8] + be(r.rtype as nat, 2) + seq![0u8, 1u8] + be(r.ttl, 4) + be(
        r.rdata.len(),
        2,
    ) + r.rdata
}

/// A reply to a question: its header counts one question and the records.
pub open spec fn reply(
    name: Seq<char>,
    qtype: u16,
    records: Seq<Record>,
    after: Seq<u8>,
) -> Seq<u8> {
    seq![0xABu8, 0xCD, 0x81, 0x80, 0, 1] + be(records.len(), 2) + seq![0u8, 0, 0, 0]
        + all_encoded(|l: Seq<char>| encode_label(l), labels_of(name)) + seq![0u8] + be(
        qtype as nat,
        2,
    ) + seq![0u8, 1u8] + all_encoded(|r: Record| encode_record(r), records) + after
}

/// The data of the records of type `t`.
pub open spec fn of_type(records: Seq<Record>, t: u16) -> Seq<Seq<u8>>
    decreases records.len(),
{
    if records.len() == 0 {
        Seq::empty()
    } else {
        let rest = of_type(records.drop_first(), t);
        if records[0].rtype == t {
            seq![records[0].rdata] + rest
        } else {
            rest
        }
    }
}

proof fn lemma_record_fields(before: Seq<u8>, r: Record, after: Seq<u8>)
    requires
        r.rdata.len() <= 0xffff,
    ensures
        ({
            let data = before + encode_record(r) + after;
            let p = before.len() as int;
            &&& data[p] == 0xC0 && data[p + 1] == 12
            &&& encode_record(r).len() == 12 + r.rdata.len()
            &&& be_value(data.subrange(p + 2, p + 4)) == r.rtype
            &&& be_value(data.subrange(p + 10, p + 12)) == r.rdata.len()
            &&& data.subrange(p + 12, p + 12 + r.rdata.len()) == r.rdata
        }),
{
    let data = before + encode_record(r) + after;
    let p = before.len() as int;
    lemma_pow256_values();
    crate::wire::law_be_read_write(r.rtype as nat, 2);
    crate::wire::law_be_read_write(r.rdata.len(), 2);
    crate::wire::lemma_be_len(r.ttl, 4);
    let e = encode_record(r);
    assert(e.subrange(2, 4) =~= be(r.rtype as nat, 2));
    assert(e.subrange(10, 12) =~= be(r.rdata.len(), 2));
    assert(e.skip(12) =~= r.rdata);
    assert(data.subrange(p + 2, p + 4) =~= e.subrange(2, 4));
    assert(data.subrange(p + 10, p + 12) =~= e.subrange(10, 12));
    assert(data.subrange(p + 12, p + 12 + r.rdata.len()) =~= e.skip(12));
}

proof fn lemma_records_read(before: Seq<u8>, records: Seq<Record>, after: Seq<u8>, t: u16)
    requires
        forall|i: int| 0 <= i < records.len() ==> (#[trigger] records[i]).rdata.len() <= 0xffff,
        labels_at(
            before + all_encoded(|r: Record| encode_record(r), records) + after,
            12,
            (MAX_JUMPS - 1) as nat,
        ) is Some,
    ensures
        records_at(
            before + all_encoded(|r: Record| encode_record(r), records) + after,
            before.len() as int,
            records.len(),
            t,
        ) == of_type(records, t),
    decreases records.len(),
{
    let write = |r: Record| encode_record(r);
    let data = before + all_encoded(write, records) + after;
    let pos = before.len() as int;
    if records.len() > 0 {
        let r = records[0];
        let rest = records.drop_first();
        let tail = all_encoded(write, rest);
        let next = before + encode_record(r);
        lemma_all_encoded_front(write, records);
        assert(data =~= before + encode_record(r) + (tail + after));
        assert(data =~= next + tail + after);
        lemma_record_fields(before, r, tail + after);
        assert(pointer(0xC0, 12) == 12);
        assert(behind_name(data, pos) == pos + 2);
        assert forall|i: int| 0 <= i < rest.len() implies (#[trigger] rest[i]).rdata.len()
            <= 0xffff by {
            assert(rest[i] == records[i + 1]);
        }
        lemma_records_read(next, rest, after, t);
    }
}

/// In a reply whose header counts its answers, all records of the type that
/// was asked for are found, in their order.
pub proof fn law_answers_are_found(
    name: Seq<char>,
    qtype: u16,
    records: Seq<Record>,
    after: Seq<u8>,
    t: u16,
)
    requires
        forall|i: int| 0 <= i < labels_of(name).len() ==> is_label(#[trigger] labels_of(name)[i]),
        records.len() <= 0xffff,
        forall|i: int| 0 <= i < records.len() ==> (#[trigger] records[i]).rdata.len() <= 0xffff,
    ensures
        answers(reply(name, qtype, records, after), t) == of_type(records, t),
{
    let data = reply(name, qtype, records, after);
    let header = seq![0xABu8, 0xCD, 0x81, 0x80, 0, 1] + be(records.len(), 2) + seq![0u8, 0, 0, 0];
    let labels = labels_of(name);
    let body = all_encoded(|l: Seq<char>| encode_label(l), labels);
    let tail = be(qtype as nat, 2) + seq![0u8, 1u8];
    let recs = all_encoded(|r: Record| encode_record(r), records);
    lemma_pow256_values();
    crate::wire::law_be_read_write(records.len(), 2);
    crate::wire::lemma_be_len(qtype as nat, 2);
    assert(header.len() == 12);
    assert(header.subrange(6, 8) =~= be(records.len(), 2));
    assert(data =~= header + body + seq![0u8] + (tail + recs + after));
    assert(data.subrange(6, 8) =~= header.subrange(6, 8));
    lemma_labels_read(header, labels, tail + recs + after, MAX_JUMPS as nat);
    lemma_labels_read(header, labels, tail + recs + after, (MAX_JUMPS - 1) as nat);
    let before = header + body + seq![0u8] + tail;
    assert(data =~= before + recs + after);
    lemma_records_read(before, records, after, t);
    assert(behind_name(data, 12) + 4 == before.len());
}

// ── Resolving ──

/// The first name in the CNAME answers that can be read.
pub open spec fn first_cname(rdatas: Seq<Seq<u8>>) -> Option<Seq<char>>
    decreases rdatas.len(),
{
    if rdatas.len() == 0 {
        None
    } else if cname_in(rdatas[0]) is Some {
        cname_in(rdatas[0])
    } else {
        first_cname(rdatas.drop_first())
    }
}

/// The first address in the A answers that can be read.
pub open spec fn first_ipv4(rdatas: Seq<Seq<u8>>) -> Option<Seq<char>>
    decreases rdatas.len(),
{
    if rdatas.len() == 0 {
        None
    } else if ipv4_in(rdatas[0]) is Some {
        ipv4_in(rdatas[0])
    } else {
        first_ipv4(rdatas.drop_first())
    }
}

/// The first address in the AAAA answers that can be read.
pub open spec fn first_ipv6(rdatas: Seq<Seq<u8>>) -> Option<Seq<char>>
    decreases rdatas.len(),
{
    if rdatas.len() == 0 {
        None
    } else if ipv6_in(rdatas[0]) is Some {
        ipv6_in(rdatas[0])
    } else {
        first_ipv6(rdatas.drop_first())
    }
}

/// The TLSA records that can be read.
pub open spec fn tlsa_records(rdatas: Seq<Seq<u8>>) -> Seq<Tlsa>
    decreases rdatas.len(),
{
    if rdatas.len() == 0 {
        Seq::empty()
    } else {
        let before = tlsa_records(rdatas.drop_last());
        match tlsa_in(rdatas.last()) {
            Some(t) => before.push(t),
            None => before,
        }
    }
}

/// The answers of a type in a reply, if there was one.
pub open spec fn answers_in(reply: Option<Seq<u8>>, t: u16) -> Seq<Seq<u8>> {
    match reply {
        Some(data) => answers(data, t),
        None => Seq::empty(),
    }
}

/// The name that carries the TLSA records for port 443.
pub open spec fn tlsa_name(name: Seq<char>) -> Seq<char> {
    "_443._tcp."@ + name
}

/// What is found of a name in the replies to the first three queries: its
/// CNAME, A and AAAA records.
pub open spec fn addresses(replies: Seq<Option<Seq<u8>>>) -> Resolved {
    Resolved {
        cname: first_cname(answers_in(replies[0], TYPE_CNAME)),
        ipv4: first_ipv4(answers_in(replies[1], TYPE_A)),
        ipv6: first_ipv6(answers_in(replies[2], TYPE_AAAA)),
        tlsa: Seq::empty(),
    }
}

/// Whether there is an address.
pub open spec fn browsable(r: Resolved) -> bool {
    r.ipv4 is Some || r.ipv6 is Some
}

/// How many answers a reply counts, if there was one.
pub open spec fn answer_count(reply: Option<Seq<u8>>) -> nat {
    match reply {
        Some(data) => if data.len() < 12 {
            0
        } else {
            be_value(data.subrange(6, 8))
        },
        None => 0,
    }
}

/// Where the server on a port of this machine is.
pub open spec fn server_at(port: u16) -> Seq<char> {
    "127.0.0.1:"@ + decimal(port as nat)
}

/// A query to the server on a port.
pub open spec fn ask(port: u16, query: Seq<u8>) -> LookupView<Resolution> {
    LookupView::Ask { to: server_at(port), query }
}

/// How a name without an address is told from one without any records: by its
/// CNAME record, else by its TLSA and TXT records, else by those of any type.
pub open spec fn without_address(
    port: u16,
    name: Seq<char>,
    replies: Seq<Option<Seq<u8>>>,
) -> LookupView<Resolution> {
    if addresses(replies).cname is Some {
        LookupView::Done(Resolution::NoWebsite)
    } else if replies.len() == 3 {
        ask(port, query(name, TYPE_TLSA))
    } else if rcode(replies[0]->Some_0) != RCODE_NOERROR {
        LookupView::Done(Resolution::NoRecords)
    } else if answers_in(replies[3], TYPE_TLSA).len() > 0 {
        LookupView::Done(Resolution::NoWebsite)
    } else if replies.len() == 4 {
        ask(port, query(name, TYPE_TXT))
    } else if answers_in(replies[4], TYPE_TXT).len() > 0 {
        LookupView::Done(Resolution::NoWebsite)
    } else if replies.len() == 5 {
        ask(port, query(name, TYPE_ANY))
    } else if answer_count(replies[5]) > 0 {
        LookupView::Done(Resolution::NoWebsite)
    } else {
        LookupView::Done(Resolution::NoRecords)
    }
}

/// How a name is resolved. First its CNAME record is asked for, which also
/// tells whether the name exists; then its A and AAAA records, which the
/// server finds through the CNAME record too. If there is no address, it
/// remains to be seen whether the name has any records. Else its TLSA records
/// are asked for, first those for port 443. `replies` are those to the queries
/// so far; `None` stands for one that was not answered. All go to `port`.
pub open spec fn resolution(
    port: u16,
    name: Seq<char>,
    replies: Seq<Option<Seq<u8>>>,
) -> LookupView<Resolution> {
    let found = addresses(replies);
    if replies.len() == 0 {
        ask(port, query(name, TYPE_CNAME))
    } else if replies[0] is None {
        LookupView::Done(Resolution::DnsError)
    } else if rcode(replies[0]->Some_0) == RCODE_NXDOMAIN {
        LookupView::Done(Resolution::NotFound)
    } else if replies.len() == 1 {
        ask(port, query(name, TYPE_A))
    } else if replies.len() == 2 {
        ask(port, query(name, TYPE_AAAA))
    } else if !browsable(found) {
        without_address(port, name, replies)
    } else if replies.len() == 3 {
        ask(port, query(tlsa_name(name), TYPE_TLSA))
    } else {
        let tlsa = tlsa_records(answers_in(replies[3], TYPE_TLSA));
        if tlsa.len() > 0 {
            LookupView::Done(Resolution::Found(Resolved { tlsa, ..found }))
        } else if replies.len() == 4 {
            ask(port, query(name, TYPE_TLSA))
        } else {
            LookupView::Done(
                Resolution::Found(
                    Resolved { tlsa: tlsa_records(answers_in(replies[4], TYPE_TLSA)), ..found },
                ),
            )
        }
    }
}

/// Every query goes to the port of this machine that was set last, whatever is
/// asked and whatever was answered: where `earlier` was set, and `port` after
/// it, nothing is left of `earlier`.
pub proof fn law_queries_go_to_the_port_set_last(
    server: DnsServer,
    earlier: u16,
    port: u16,
    name: Seq<char>,
    replies: Seq<Option<Seq<u8>>>,
)
    ensures
        pointed_at(pointed_at(server, earlier), port) == pointed_at(server, port),
        resolution(
            pointed_at(pointed_at(server, earlier), port).port,
            name,
            replies,
        ) matches LookupView::Ask { to, .. } ==> to == server_at(port),
{
}

/// Resolving a name takes at most six queries.
pub proof fn law_resolution_ends(
    port: u16,
    name: Seq<char>,
    replies: Seq<Option<Seq<u8>>>,
)
    requires
        replies.len() >= 6,
    ensures
        resolution(port, name, replies) is Done,
{
}

/// What was found has an address.
pub proof fn law_found_is_browsable(
    port: u16,
    name: Seq<char>,
    replies: Seq<Option<Seq<u8>>>,
)
    ensures
        resolution(port, name, replies) matches LookupView::Done(Resolution::Found(r)) ==> {
            r.ipv4 is Some || r.ipv6 is Some
        },
{
}

/// A name is said to have no records only where no reply to a question about
/// it brought one; one that exists and has a TLSA or TXT record, another name
/// or a record of any other type, but no address, has no website.
pub proof fn law_no_records_means_none(
    port: u16,
    name: Seq<char>,
    replies: Seq<Option<Seq<u8>>>,
)
    requires
        replies.len() >= 6,
        replies[0] is Some,
        rcode(replies[0]->Some_0) == RCODE_NOERROR,
        !browsable(addresses(replies)),
    ensures
        resolution(port, name, replies) == LookupView::Done(
            if addresses(replies).cname is Some || answers_in(replies[3], TYPE_TLSA).len() > 0
                || answers_in(replies[4], TYPE_TXT).len() > 0 || answer_count(replies[5]) > 0 {
                Resolution::NoWebsite
            } else {
                Resolution::NoRecords
            },
        ),
{
}

pub open spec fn reply_views(v: Seq<Option<Vec<u8>>>) -> Seq<Option<Seq<u8>>> {
    Seq::new(
        v.len(),
        |i: int|
            match v[i] {
                Some(d) => Some(d@),
                None => None,
            },
    )
}

pub open spec fn lookup_view(l: Lookup<ResolveResult>) -> LookupView<Resolution> {
    match l {
        Lookup::Ask { to, query } => LookupView::Ask { to: to@, query: query@ },
        Lookup::Done(r) => LookupView::Done(r@),
    }
}

fn pick_cname(rdatas: &Vec<Vec<u8>>) -> (r: Option<String>)
    ensures
        text_of(r) == first_cname(byte_views(rdatas@)),
{
    let ghost all = byte_views(rdatas@);
    let mut i: usize = 0;
    assert(all.skip(0) =~= all);
    while i < rdatas.len()
        invariant
            i <= rdatas@.len(),
            all == byte_views(rdatas@),
            first_cname(all) == first_cname(all.skip(i as int)),
        decreases rdatas@.len() - i,
    {
        assert(all.skip(i as int).drop_first() =~= all.skip(i + 1));
        assert(all[i as int] == rdatas@[i as int]@);
        match parse_cname(&rdatas[i]) {
            Some(t) => return Some(t),
            None => {},
        }
        i = i + 1;
    }
    None
}

fn pick_ipv4(rdatas: &Vec<Vec<u8>>) -> (r: Option<String>)
    ensures
        text_of(r) == first_ipv4(byte_views(rdatas@)),
{
    let ghost all = byte_views(rdatas@);
    let mut i: usize = 0;
    assert(all.skip(0) =~= all);
    while i < rdatas.len()
        invariant
            i <= rdatas@.len(),
            all == byte_views(rdatas@),
            first_ipv4(all) == first_ipv4(all.skip(i as int)),
        decreases rdatas@.len() - i,
    {
        assert(all.skip(i as int).drop_first() =~= all.skip(i + 1));
        assert(all[i as int] == rdatas@[i as int]@);
        match parse_a(&rdatas[i]) {
            Some(t) => return Some(t),
            None => {},
        }
        i = i + 1;
    }
    None
}

fn pick_ipv6(rdatas: &Vec<Vec<u8>>) -> (r: Option<String>)
    ensures
        text_of(r) == first_ipv6(byte_views(rdatas@)),
{
    let ghost all = byte_views(rdatas@);
    let mut i: usize = 0;
    assert(all.skip(0) =~= all);
    while i < rdatas.len()
        invariant
            i <= rdatas@.len(),
            all == byte_views(rdatas@),
            first_ipv6(all) == first_ipv6(all.skip(i as int)),
        decreases rdatas@.len() - i,
    {
        assert(all.skip(i as int).drop_first() =~= all.skip(i + 1));
        assert(all[i as int] == rdatas@[i as int]@);
        match parse_aaaa(&rdatas[i]) {
            Some(t) => return Some(t),
            None => {},
        }
        i = i + 1;
    }
    None
}

fn collect_tlsa(rdatas: &Vec<Vec<u8>>) -> (r: Vec<TlsaRecord>)
    ensures
        tlsa_views(r@) == tlsa_records(byte_views(rdatas@)),
{
    let ghost all = byte_views(rdatas@);
    let mut out: Vec<TlsaRecord> = Vec::new();
    let mut i: usize = 0;
    assert(tlsa_views(out@) =~= tlsa_records(all.take(0)));
    while i < rdatas.len()
        invariant
            i <= rdatas@.len(),
            all == byte_views(rdatas@),
            tlsa_views(out@) == tlsa_records(all.take(i as int)),
        decreases rdatas@.len() - i,
    {
        assert(all.take(i + 1).drop_last() =~= all.take(i as int));
        assert(all[i as int] == rdatas@[i as int]@);
        match parse_tlsa(&rdatas[i]) {
            Some(t) => {
                let ghost before = out@;
                out.push(t);
                assert(tlsa_views(out@) =~= tlsa_views(before).push(t@));
            },
            None => {},
        }
        i = i + 1;
    }
    assert(all.take(i as int) =~= all);
    out
}

fn reply_answers(reply: &Option<Vec<u8>>, t: u16) -> (r: Vec<Vec<u8>>)
    ensures
        byte_views(r@) == answers_in(
            match *reply {
                Some(d) => Some(d@),
                None => None,
            },
            t,
        ),
{
    match reply {
        Some(d) => parse_answers(d, t),
        None => {
            let r: Vec<Vec<u8>> = Vec::new();
            assert(byte_views(r@) =~= Seq::empty());
            r
        },
    }
}

fn has_answers(reply: &Option<Vec<u8>>) -> (r: bool)
    ensures
        r == (answer_count(
            match *reply {
                Some(d) => Some(d@),
                None => None,
            },
        ) > 0),
{
    match reply {
        Some(d) => if d.len() < 12 {
            false
        } else {
            read_be(&copy_range(d, 6, 8)) > 0
        },
        None => false,
    }
}

fn question(server: &DnsServer, name: &str, qtype: u16) -> (r: Lookup<ResolveResult>)
    ensures
        lookup_view(r) == ask(server.port, query(name@, qtype)),
{
    Lookup::Ask { to: server_address(server), query: build_query(name, qtype) }
}

/// Resolves a Fistbump name, given the replies to the queries so far: says
/// which query to send next, or what came of it.
pub fn resolve_full(server: &DnsServer, name: &str, replies: &Vec<Option<Vec<u8>>>) -> (r: Lookup<
    ResolveResult,
>)
    ensures
        lookup_view(r) == resolution(server.port, name@, reply_views(replies@)),
{
    let ghost seen = reply_views(replies@);
    if replies.len() == 0 {
        return question(server, name, TYPE_CNAME);
    }
    let code = match &replies[0] {
        None => return Lookup::Done(ResolveResult::DnsError),
        Some(d) => dns_rcode(d),
    };
    if code == RCODE_NXDOMAIN {
        return Lookup::Done(ResolveResult::NotFound);
    }
    if replies.len() == 1 {
        return question(server, name, TYPE_A);
    }
    if replies.len() == 2 {
        return question(server, name, TYPE_AAAA);
    }
    let cname = pick_cname(&reply_answers(&replies[0], TYPE_CNAME));
    let ipv4 = pick_ipv4(&reply_answers(&replies[1], TYPE_A));
    let ipv6 = pick_ipv6(&reply_answers(&replies[2], TYPE_AAAA));
    if ipv4.is_none() && ipv6.is_none() {
        if cname.is_some() {
            return Lookup::Done(ResolveResult::NoWebsite);
        }
        if replies.len() == 3 {
            return question(server, name, TYPE_TLSA);
        }
        if code != RCODE_NOERROR {
            return Lookup::Done(ResolveResult::NoRecords);
        }
        if reply_answers(&replies[3], TYPE_TLSA).len() > 0 {
            return Lookup::Done(ResolveResult::NoWebsite);
        }
        if replies.len() == 4 {
            return question(server, name, TYPE_TXT);
        }
        if reply_answers(&replies[4], TYPE_TXT).len() > 0 {
            return Lookup::Done(ResolveResult::NoWebsite);
        }
        if replies.len() == 5 {
            return question(server, name, TYPE_ANY);
        }
        if has_answers(&replies[5]) {
            return Lookup::Done(ResolveResult::NoWebsite);
        }
        return Lookup::Done(ResolveResult::NoRecords);
    }
    if replies.len() == 3 {
        let full = concat2("_443._tcp.", name);
        return question(server, full.as_str(), TYPE_TLSA);
    }
    let tlsa = collect_tlsa(&reply_answers(&replies[3], TYPE_TLSA));
    if tlsa.len() > 0 {
        return Lookup::Done(ResolveResult::Found(ResolvedName { ipv4, ipv6, cname, tlsa }));
    }
    if replies.len() == 4 {
        return question(server, name, TYPE_TLSA);
    }
    let own = collect_tlsa(&reply_answers(&replies[4], TYPE_TLSA));
    Lookup::Done(ResolveResult::Found(ResolvedName { ipv4, ipv6, cname, tlsa: own }))
}

/// The same, but with nothing said of why a name was not found.
pub fn resolve(server: &DnsServer, name: &str, replies: &Vec<Option<Vec<u8>>>) -> (r: Lookup<
    Option<ResolvedName>,
>)
    ensures
        match resolution(server.port, name@, reply_views(replies@)) {
            LookupView::Ask { to, query } => r matches Lookup::Ask { to: t, query: q } && t@ == to
                && q@ == query,
            LookupView::Done(Resolution::Found(n)) => r matches Lookup::Done(Some(v)) && v@ == n,
            LookupView::Done(_) => r matches Lookup::Done(None),
        },
{
    match resolve_full(server, name, replies) {
        Lookup::Ask { to, query } => Lookup::Ask { to, query },
        Lookup::Done(ResolveResult::Found(n)) => Lookup::Done(Some(n)),
        Lookup::Done(_) => Lookup::Done(None),
    }
}

/// Points the client at the server of the active network.
pub fn set_port(server: &mut DnsServer, port: u16)
    ensures
        *final(server) == pointed_at(*old(server), port),
{
    server.port = port;
}

/// Where the server listens.
pub fn server_address(server: &DnsServer) -> (r: String)
    ensures
        r@ == server_at(server.port),
{
    number_after("127.0.0.1:", server.port as u64)
}

// ── What holds of it ──

/// What a query asks for: the labels of the name, and the number of the type,
/// as the bytes of the query give them.
pub open spec fn is_query_for(data: Seq<u8>, labels: Seq<Seq<char>>, qtype: nat) -> bool {
    &&& data.len() >= 17
    &&& labels_at(data, 12, 10) == Some((label_bytes(labels), data.len() - 4))
    &&& data[data.len() - 4] as nat * 256 + data[data.len() - 3] as nat == qtype
    &&& data[data.len() - 2] == 0 && data[data.len() - 1] == 1
}

/// Whether the next thing to do is to ask for these labels and this type.
pub open spec fn asks_for(
    next: LookupView<Resolution>,
    labels: Seq<Seq<char>>,
    qtype: nat,
) -> bool {
    next matches LookupView::Ask { query, .. } && is_query_for(query, labels, qtype)
}

pub open spec fn are_labels(labels: Seq<Seq<char>>) -> bool {
    forall|i: int| 0 <= i < labels.len() ==> is_label(#[trigger] labels[i])
}

proof fn lemma_query(name: Seq<char>, qtype: u16)
    requires
        are_labels(labels_of(name)),
    ensures
        is_query_for(query(name, qtype), labels_of(name), qtype as nat),
{
    law_query_name_reads_back(name, qtype);
    let q = query(name, qtype);
    reveal_with_fuel(be, 3);
    lemma_pow256_values();
    crate::wire::lemma_be_len(qtype as nat, 2);
    crate::wire::law_be_read_write(qtype as nat, 2);
    let b = be(qtype as nat, 2);
    assert(q.subrange(q.len() - 4, q.len() as int) =~= b + seq![0u8, 1u8]);
    let t = q.subrange(q.len() - 4, q.len() as int);
    assert(t[0] == b[0] && t[1] == b[1] && t[2] == 0 && t[3] == 1);
    reveal_with_fuel(be_value, 3);
    assert(b.drop_last().drop_last() =~= Seq::empty());
    assert(be_value(b) == b[0] as nat * 256 + b[1] as nat);
}

/// The labels of the name that carries the TLSA records for port 443 are the
/// port, the protocol, and those of the name itself.
pub proof fn law_tlsa_labels(name: Seq<char>)
    ensures
        labels_of(tlsa_name(name)) == seq!["_443"@, "_tcp"@] + labels_of(name),
        is_label("_443"@),
        is_label("_tcp"@),
        are_labels(labels_of(name)) ==> are_labels(labels_of(tlsa_name(name))),
{
    reveal_strlit("_443._tcp.");
    reveal_strlit("_443");
    reveal_strlit("_tcp");
    let rest = "_tcp"@ + seq!['.'] + name;
    assert(tlsa_name(name) =~= "_443"@ + seq!['.'] + rest);
    law_split_at_separator("_443"@, '.', rest);
    law_split_at_separator("_tcp"@, '.', name);
    let two = seq!["_443"@, "_tcp"@];
    assert(split_on(tlsa_name(name), '.') =~= two + split_on(name, '.'));
    lemma_non_empty_joins(two, split_on(name, '.'));
    reveal_with_fuel(non_empty, 3);
    assert(two.drop_last() =~= seq!["_443"@]);
    assert(two.drop_last().drop_last() =~= Seq::empty());
    assert(non_empty(two) =~= two);
    is_ascii_chars_encode_utf8("_443"@);
    is_ascii_chars_encode_utf8("_tcp"@);
    if are_labels(labels_of(name)) {
        let all = labels_of(tlsa_name(name));
        assert forall|i: int| 0 <= i < all.len() implies is_label(#[trigger] all[i]) by {
            if i >= 2 {
                assert(all[i] == labels_of(name)[i - 2]);
            }
        }
    }
}

/// What is asked for, one query after the other: the CNAME, A and AAAA records
/// of the name; if that gave an address, the TLSA records for port 443, and if
/// there are none those of the name itself; else its TLSA and TXT records and
/// those of any type.
pub proof fn law_what_is_asked(port: u16, name: Seq<char>, replies: Seq<Option<Seq<u8>>>)
    requires
        are_labels(labels_of(name)),
        replies.len() > 0 ==> replies[0] is Some && rcode(replies[0]->Some_0) == 0,
    ensures
        replies.len() == 0 ==> asks_for(resolution(port, name, replies), labels_of(name), 5),
        replies.len() == 1 ==> asks_for(resolution(port, name, replies), labels_of(name), 1),
        replies.len() == 2 ==> asks_for(resolution(port, name, replies), labels_of(name), 28),
        replies.len() == 3 && browsable(addresses(replies)) ==> asks_for(
            resolution(port, name, replies),
            seq!["_443"@, "_tcp"@] + labels_of(name),
            52,
        ),
        replies.len() == 4 && browsable(addresses(replies)) && tlsa_records(
            answers_in(replies[3], 52),
        ).len() == 0 ==> asks_for(resolution(port, name, replies), labels_of(name), 52),
        replies.len() == 3 && !browsable(addresses(replies)) && addresses(replies).cname is None
            ==> asks_for(resolution(port, name, replies), labels_of(name), 52),
        replies.len() == 4 && !browsable(addresses(replies)) && addresses(replies).cname is None
            && answers_in(replies[3], 52).len() == 0 ==> asks_for(
            resolution(port, name, replies),
            labels_of(name),
            16,
        ),
        replies.len() == 5 && !browsable(addresses(replies)) && addresses(replies).cname is None
            && answers_in(replies[3], 52).len() == 0 && answers_in(replies[4], 16).len() == 0
            ==> asks_for(resolution(port, name, replies), labels_of(name), 255),
{
    law_tlsa_labels(name);
    lemma_query(name, 5);
    lemma_query(name, 1);
    lemma_query(name, 28);
    lemma_query(name, 52);
    lemma_query(name, 16);
    lemma_query(name, 255);
    lemma_query(tlsa_name(name), 52);
}

/// A server that does not know the name ends the search at once; so does one
/// that cannot be reached.
pub proof fn law_unknown_names_end(port: u16, name: Seq<char>, replies: Seq<Option<Seq<u8>>>)
    requires
        replies.len() > 0,
    ensures
        replies[0] is None ==> resolution(port, name, replies) == LookupView::<Resolution>::Done(
            Resolution::DnsError,
        ),
        replies[0] matches Some(d) && d.len() >= 4 && d[3] % 16 == 3 ==> resolution(
            port,
            name,
            replies,
        ) == LookupView::<Resolution>::Done(Resolution::NotFound),
        resolution(port, name, replies) == LookupView::<Resolution>::Done(Resolution::NotFound)
            ==> replies[0] is Some && replies[0]->Some_0[3] % 16 == 3,
{
}

/// What comes of resolving a name against a server that answers each query by
/// `serve`, from the replies so far on.
pub open spec fn resolved_by(
    port: u16,
    name: Seq<char>,
    serve: spec_fn(Seq<u8>) -> Option<Seq<u8>>,
    replies: Seq<Option<Seq<u8>>>,
) -> Resolution
    decreases 6 - replies.len(),
{
    match resolution(port, name, replies) {
        LookupView::Done(r) => r,
        LookupView::Ask { query, .. } => if replies.len() >= 6 {
            Resolution::DnsError
        } else {
            resolved_by(port, name, serve, replies.push(serve(query)))
        },
    }
}

/// A server that answers from a zone: for the labels and the type of a query,
/// the records that the zone has there, and nothing else.
pub open spec fn serves(
    serve: spec_fn(Seq<u8>) -> Option<Seq<u8>>,
    zone: spec_fn(Seq<Seq<char>>, nat) -> Seq<Record>,
) -> bool {
    forall|name: Seq<char>, t: u16| #[trigger]
        serve(query(name, t)) == Some(
            reply(name, t, zone(labels_of(name), t as nat), Seq::empty()),
        )
}

/// Records of one type, each of which fits into a reply.
pub open spec fn are_records(records: Seq<Record>, t: nat, least: nat) -> bool {
    records.len() <= 0xffff && forall|i: int|
        0 <= i < records.len() ==> {
            &&& (#[trigger] records[i]).rtype == t
            &&& least <= records[i].rdata.len() <= 0xffff
        }
}

proof fn lemma_answers(name: Seq<char>, qtype: u16, records: Seq<Record>, least: nat)
    requires
        are_labels(labels_of(name)),
        are_records(records, qtype as nat, least),
    ensures
        ({
            let r = reply(name, qtype, records, Seq::empty());
            &&& answers(r, qtype).len() == records.len()
            &&& forall|i: int| 0 <= i < records.len() ==> #[trigger] answers(r, qtype)[i]
                == records[i].rdata
            &&& rcode(r) == 0
        }),
{
    law_answers_are_found(name, qtype, records, Seq::empty(), qtype);
    lemma_all_of_type(records, qtype);
    crate::wire::lemma_be_len(records.len(), 2);
    assert(reply(name, qtype, records, Seq::empty())[3] == 0x80);
}

proof fn lemma_all_of_type(records: Seq<Record>, t: u16)
    requires
        forall|i: int| 0 <= i < records.len() ==> (#[trigger] records[i]).rtype == t,
    ensures
        of_type(records, t).len() == records.len(),
        forall|i: int| 0 <= i < records.len() ==> #[trigger] of_type(records, t)[i]
            == records[i].rdata,
    decreases records.len(),
{
    if records.len() > 0 {
        let rest = records.drop_first();
        assert forall|i: int| 0 <= i < rest.len() implies (#[trigger] rest[i]).rtype == t by {
            assert(rest[i] == records[i + 1]);
        }
        lemma_all_of_type(rest, t);
        assert(records[0].rtype == t);
        assert forall|i: int| 0 <= i < records.len() implies #[trigger] of_type(records, t)[i]
            == records[i].rdata by {
            if i > 0 {
                assert(of_type(records, t)[i] == of_type(rest, t)[i - 1]);
                assert(rest[i - 1] == records[i]);
            }
        }
    }
}

proof fn lemma_tlsa_records(rdatas: Seq<Seq<u8>>)
    requires
        forall|i: int| 0 <= i < rdatas.len() ==> (#[trigger] rdatas[i]).len() >= 4,
    ensures
        tlsa_records(rdatas).len() == rdatas.len(),
        forall|i: int|
            0 <= i < rdatas.len() ==> {
                let t = #[trigger] tlsa_records(rdatas)[i];
                seq![t.usage, t.selector, t.matching_type] + t.cert_data == rdatas[i]
            },
    decreases rdatas.len(),
{
    if rdatas.len() > 0 {
        let less = rdatas.drop_last();
        assert forall|i: int| 0 <= i < less.len() implies (#[trigger] less[i]).len() >= 4 by {
            assert(less[i] == rdatas[i]);
        }
        lemma_tlsa_records(less);
        let r = rdatas[rdatas.len() - 1];
        assert(seq![r[0], r[1], r[2]] + r.skip(3) =~= r);
        assert forall|i: int| 0 <= i < rdatas.len() implies {
            let t = #[trigger] tlsa_records(rdatas)[i];
            seq![t.usage, t.selector, t.matching_type] + t.cert_data == rdatas[i]
        } by {
            if i < less.len() {
                assert(tlsa_records(rdatas)[i] == tlsa_records(less)[i]);
                assert(less[i] == rdatas[i]);
            }
        }
    }
}

/// A site found in the zone of a server: the address is the first one under
/// the name, and the TLSA records are those at `_443._tcp` under it, each with
/// its usage, selector, matching type and data, in their order.
pub open spec fn is_site(
    r: Resolution,
    addresses: Seq<Record>,
    tlsa: Seq<Record>,
) -> bool {
    &&& r matches Resolution::Found(found)
    &&& found.ipv4 matches Some(ip)
    &&& split_on(ip, '.') == Seq::new(4, |k: int| decimal(addresses[0].rdata[k] as nat))
    &&& found.ipv6 is None
    &&& found.cname is None
    &&& found.tlsa.len() == tlsa.len()
    &&& forall|i: int|
        0 <= i < tlsa.len() ==> {
            let t = #[trigger] found.tlsa[i];
            seq![t.usage, t.selector, t.matching_type] + t.cert_data == tlsa[i].rdata
        }
}

/// Against a server that holds the address of a name, and TLSA records for it
/// only at `_443._tcp` under the name, the name is found with just these
/// records.
#[verifier::spinoff_prover]
#[verifier::rlimit(40)]
pub proof fn law_site_is_found(
    port: u16,
    name: Seq<char>,
    serve: spec_fn(Seq<u8>) -> Option<Seq<u8>>,
    zone: spec_fn(Seq<Seq<char>>, nat) -> Seq<Record>,
    addresses: Seq<Record>,
    tlsa: Seq<Record>,
)
    requires
        are_labels(labels_of(name)),
        serves(serve, zone),
        forall|labels: Seq<Seq<char>>, t: nat| #[trigger]
            zone(labels, t) == if labels == labels_of(name) && t == 1 {
                addresses
            } else if labels == seq!["_443"@, "_tcp"@] + labels_of(name) && t == 52 {
                tlsa
            } else {
                Seq::empty()
            },
        addresses.len() > 0,
        are_records(addresses, 1, 4),
        are_records(tlsa, 52, 4),
    ensures
        is_site(resolved_by(port, name, serve, Seq::empty()), addresses, tlsa),
{
    let none = Seq::<Record>::empty();
    let labels = labels_of(name);
    law_tlsa_labels(name);
    assert(labels_of(tlsa_name(name)).len() == labels.len() + 2);
    lemma_answers(name, 5, none, 0);
    lemma_answers(name, 1, addresses, 4);
    lemma_answers(name, 28, none, 0);
    lemma_answers(tlsa_name(name), 52, tlsa, 4);
    lemma_answers(name, 52, none, 0);
    let r0 = Some(reply(name, 5, none, Seq::empty()));
    let r1 = Some(reply(name, 1, addresses, Seq::empty()));
    let r2 = Some(reply(name, 28, none, Seq::empty()));
    let r3 = Some(reply(tlsa_name(name), 52, tlsa, Seq::empty()));
    let r4 = Some(reply(name, 52, none, Seq::empty()));
    assert(serve(query(name, 5)) == r0);
    assert(serve(query(name, 1)) == r1);
    assert(serve(query(name, 28)) == r2);
    assert(serve(query(tlsa_name(name), 52)) == r3);
    assert(serve(query(name, 52)) == r4);
    let s0 = Seq::<Option<Seq<u8>>>::empty();
    let s1 = s0.push(r0);
    let s2 = s1.push(r1);
    let s3 = s2.push(r2);
    let s4 = s3.push(r3);
    let s5 = s4.push(r4);
    let first = answers(r1->Some_0, 1)[0];
    assert(first == addresses[0].rdata);
    lemma_ipv4(first);
    lemma_tlsa_records(answers(r3->Some_0, 52));
    assert(resolved_by(port, name, serve, s0) == resolved_by(port, name, serve, s1));
    assert(resolved_by(port, name, serve, s1) == resolved_by(port, name, serve, s2));
    assert(resolved_by(port, name, serve, s2) == resolved_by(port, name, serve, s3));
    assert(resolved_by(port, name, serve, s3) == resolved_by(port, name, serve, s4));
    let found = resolved_by(port, name, serve, s4);
    if tlsa.len() == 0 {
        assert(found == resolved_by(port, name, serve, s5));
        lemma_tlsa_records(answers(r4->Some_0, 52));
    }
    assert forall|i: int| 0 <= i < tlsa.len() implies {
        let t = #[trigger] found->Found_0.tlsa[i];
        seq![t.usage, t.selector, t.matching_type] + t.cert_data == tlsa[i].rdata
    } by {
        assert(answers(r3->Some_0, 52)[i] == tlsa[i].rdata);
    }
}

proof fn lemma_ipv4(rdata: Seq<u8>)
    requires
        rdata.len() >= 4,
    ensures
        ipv4_in(rdata) matches Some(t) && split_on(t, '.') == Seq::new(
            4,
            |k: int| decimal(rdata[k] as nat),
        ),
{
    reveal_strlit(".");
    let a = decimal(rdata[0] as nat);
    let b = decimal(rdata[1] as nat);
    let c = decimal(rdata[2] as nat);
    let d = decimal(rdata[3] as nat);
    lemma_no_dots(rdata[0] as nat);
    lemma_no_dots(rdata[1] as nat);
    lemma_no_dots(rdata[2] as nat);
    lemma_no_dots(rdata[3] as nat);
    let cd = c + seq!['.'] + d;
    let bcd = b + seq!['.'] + cd;
    law_split_at_separator(a, '.', bcd);
    law_split_at_separator(b, '.', cd);
    law_split_at_separator(c, '.', d);
    law_split_at_separator(d, '.', d);
    assert(ipv4_in(rdata)->Some_0 =~= a + seq!['.'] + bcd);
    assert(split_on(ipv4_in(rdata)->Some_0, '.') =~= Seq::new(
        4,
        |k: int| decimal(rdata[k] as nat),
    ));
}

proof fn lemma_no_dots(n: nat)
    ensures
        lacks(decimal(n), '.'),
{
    law_decimal_reads_back(n);
    assert forall|i: int| 0 <= i < decimal(n).len() implies #[trigger] decimal(n)[i] != '.' by {
        assert(is_digit(decimal(n)[i]));
    }
}

/// An address in numbers is its four bytes in decimal with dots between them,
/// and an IPv6 address its eight groups in hexadecimal with colons between
/// them; the groups are read with the high byte first.
pub proof fn law_addresses_are_spelled(rdata: Seq<u8>)
    ensures
        rdata.len() >= 4 ==> (ipv4_in(rdata) matches Some(t) && split_on(t, '.') == Seq::new(
            4,
            |k: int| decimal(rdata[k] as nat),
        )),
        rdata.len() < 4 ==> ipv4_in(rdata) is None,
        rdata.len() >= 16 ==> (ipv6_in(rdata) matches Some(t) && split_on(t, ':') == Seq::new(
            8,
            |k: int| hexadecimal((rdata[2 * k] as int * 256 + rdata[2 * k + 1] as int) as nat),
        )),
        rdata.len() < 16 ==> ipv6_in(rdata) is None,
{
    if rdata.len() >= 4 {
        lemma_ipv4(rdata);
    }
    if rdata.len() >= 16 {
        let groups = Seq::new(8, |i: int| hexadecimal(be_value(rdata.subrange(2 * i, 2 * i + 2))));
        let want = Seq::new(
            8,
            |k: int| hexadecimal((rdata[2 * k] as int * 256 + rdata[2 * k + 1] as int) as nat),
        );
        assert forall|k: int| 0 <= k < 8 implies #[trigger] groups[k] == want[k] by {
            let two = rdata.subrange(2 * k, 2 * k + 2);
            reveal_with_fuel(be_value, 3);
            assert(two.drop_last().drop_last() =~= Seq::empty());
            assert(two.last() == rdata[2 * k + 1] && two.drop_last().last() == rdata[2 * k]);
            assert(be_value(two) == rdata[2 * k] as int * 256 + rdata[2 * k + 1] as int);
        }
        assert(groups =~= want);
        assert forall|k: int| 0 <= k < groups.len() implies lacks(#[trigger] groups[k], ':') by {
            law_hexadecimal_reads_back(be_value(rdata.subrange(2 * k, 2 * k + 2)));
        }
        reveal_strlit(":");
        assert(":"@ =~= seq![':']);
        law_split_undoes_join(groups, ':');
    }
}

/// Where an answer can be read and none before it can, it is the one that is
/// taken: so it is with names, addresses and IPv6 addresses.
pub proof fn law_first_answer_is_taken(rdatas: Seq<Seq<u8>>, i: int)
    requires
        0 <= i < rdatas.len(),
    ensures
        cname_in(rdatas[i]) is Some && (forall|k: int|
            0 <= k < i ==> cname_in(#[trigger] rdatas[k]) is None) ==> first_cname(rdatas)
            == cname_in(rdatas[i]),
        ipv4_in(rdatas[i]) is Some && (forall|k: int|
            0 <= k < i ==> ipv4_in(#[trigger] rdatas[k]) is None) ==> first_ipv4(rdatas)
            == ipv4_in(rdatas[i]),
        ipv6_in(rdatas[i]) is Some && (forall|k: int|
            0 <= k < i ==> ipv6_in(#[trigger] rdatas[k]) is None) ==> first_ipv6(rdatas)
            == ipv6_in(rdatas[i]),
    decreases i,
{
    if i > 0 {
        let less = rdatas.drop_first();
        assert forall|k: int| 0 <= k < less.len() implies #[trigger] less[k] == rdatas[k + 1] by {
        }
        assert(less[i - 1] == rdatas[i]);
        assert(forall|k: int| 0 <= k < i - 1 ==> #[trigger] less[k] == rdatas[k + 1]);
        law_first_answer_is_taken(less, i - 1);
        assert(rdatas[0] == rdatas[0]);
    }
}

/// A name whose compression pointer leads back to itself is no name.
pub proof fn law_pointer_to_itself(data: Seq<u8>, pos: int, jumps: nat)
    requires
        0 <= pos < data.len() - 1,
        data[pos] >= 0xC0,
        (data[pos] as int - 0xC0) * 256 + data[pos + 1] as int == pos,
    ensures
        labels_at(data, pos, jumps) is None,
    decreases jumps,
{
    if jumps > 0 {
        law_pointer_to_itself(data, pos, (jumps - 1) as nat);
    }
}

/// The name in a CNAME record is its labels with dots between them, whatever
/// follows it in the record.
pub proof fn law_cname_is_read(labels: Seq<Seq<char>>, after: Seq<u8>)
    requires
        labels.len() > 0,
        are_labels(labels),
        forall|i: int| 0 <= i < labels.len() ==> lacks(#[trigger] labels[i], '.'),
    ensures
        cname_in(
            all_encoded(|l: Seq<char>| encode_label(l), labels) + seq![0u8] + after,
        ) == Some(join(labels, "."@)),
{
    let body = all_encoded(|l: Seq<char>| encode_label(l), labels);
    let data = body + seq![0u8] + after;
    let none = Seq::<u8>::empty();
    lemma_labels_read(none, labels, after, 10);
    assert(none + body + seq![0u8] + after =~= data);
    let raw = label_bytes(labels);
    let texts = Seq::new(raw.len(), |i: int| text_in(raw[i]));
    assert forall|i: int| 0 <= i < labels.len() implies #[trigger] texts[i] == labels[i] by {
        encode_utf8_valid_utf8(labels[i]);
        encode_utf8_decode_utf8(labels[i]);
    }
    assert(texts =~= labels);
    let t = join(labels, "."@);
    lemma_join_ends(labels, "."@);
    let last = labels[labels.len() - 1];
    assert(lacks(last, '.') && is_label(last));
    lemma_label_not_empty(last);
    assert(last[last.len() - 1] != '.');
}

proof fn lemma_label_not_empty(label: Seq<char>)
    requires
        is_label(label),
    ensures
        label.len() > 0,
{
    if label.len() == 0 {
        is_ascii_chars_encode_utf8(label);
    }
}

proof fn lemma_join_ends(parts: Seq<Seq<char>>, sep: Seq<char>)
    requires
        parts.len() > 0,
    ensures
        join(parts, sep).len() >= parts.last().len(),
        parts.last().len() > 0 ==> join(parts, sep).last() == parts.last().last(),
{
}

/// A query begins with its id, asks for recursion, and has one question and no
/// answers.
pub proof fn law_query_header(name: Seq<char>, qtype: u16)
    ensures
        query(name, qtype).len() >= 12,
        query(name, qtype).take(12) == seq![0xABu8, 0xCD, 1, 0, 0, 1, 0, 0, 0, 0, 0, 0],
{
    assert(query(name, qtype).take(12) =~= seq![0xABu8, 0xCD, 1, 0, 0, 1, 0, 0, 0, 0, 0, 0]);
}

} // verus!
