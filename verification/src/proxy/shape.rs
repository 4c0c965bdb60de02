//! What a certificate that was read holds that has to be in order before it
//! can be signed again.

use crate::text::{chars_of, text_of};
use rcgen::{CertificateParams, DnType, DnValue, GeneralSubtree, SanType};
use vstd::prelude::*;

verus! {

/// The first and the last second that a calendar of four digits for the year
/// has, counted from 1970.
pub const FIRST_SECOND: i64 = -62167219200;

pub const LAST_SECOND: i64 = 253402300799;

/// The first second of 1950 and of 2050: the years between are written with two
/// digits.
pub const SHORT_YEARS: i64 = -631152000;

pub const SHORT_YEARS_END: i64 = 2524608000;

/// A part of a name.
pub struct Attribute {
    /// Its object identifier, number by number, if it is not one of the usual
    /// parts.
    pub oid: Option<Vec<u64>>,
    /// Its text, if that is a `PrintableString`.
    pub printable: Option<String>,
}

pub struct AttributeView {
    pub oid: Option<Seq<u64>>,
    pub printable: Option<Seq<char>>,
}

pub open spec fn oid_view(o: Option<Vec<u64>>) -> Option<Seq<u64>> {
    match o {
        Some(v) => Some(v@),
        None => None,
    }
}

impl View for Attribute {
    type V = AttributeView;

    open spec fn view(&self) -> AttributeView {
        AttributeView { oid: oid_view(self.oid), printable: text_of(self.printable) }
    }
}

pub open spec fn attribute_views(v: Seq<Attribute>) -> Seq<AttributeView> {
    Seq::new(v.len(), |i: int| v[i]@)
}

/// A time: in seconds from 1970, and the year that it has where it was written
/// down, which need not be the year in Greenwich.
#[derive(Clone, Copy, PartialEq, Eq, Structural)]
pub struct Moment {
    pub secs: i64,
    pub year: i32,
}

/// Whom a certificate is for, and when it is valid.
pub struct Subject {
    pub names: Vec<Attribute>,
    pub not_before: Moment,
    pub not_after: Moment,
}

pub struct SubjectView {
    pub names: Seq<AttributeView>,
    pub not_before: Moment,
    pub not_after: Moment,
}

impl View for Subject {
    type V = SubjectView;

    open spec fn view(&self) -> SubjectView {
        SubjectView {
            names: attribute_views(self.names@),
            not_before: self.not_before,
            not_after: self.not_after,
        }
    }
}

/// A name that a certificate is limited to or kept from.
pub enum Limit {
    /// A mail address.
    Mail(String),
    /// A host name.
    Host(String),
    /// A name in parts.
    Directory(Vec<Attribute>),
    /// Addresses in numbers.
    Address,
}

pub enum LimitView {
    Mail(Seq<char>),
    Host(Seq<char>),
    Directory(Seq<AttributeView>),
    Address,
}

impl View for Limit {
    type V = LimitView;

    open spec fn view(&self) -> LimitView {
        match self {
            Limit::Mail(t) => LimitView::Mail(t@),
            Limit::Host(t) => LimitView::Host(t@),
            Limit::Directory(v) => LimitView::Directory(attribute_views(v@)),
            Limit::Address => LimitView::Address,
        }
    }
}

pub open spec fn limit_views(v: Seq<Limit>) -> Seq<LimitView> {
    Seq::new(v.len(), |i: int| v[i]@)
}

pub open spec fn subject_view(s: Option<Subject>) -> Option<SubjectView> {
    match s {
        Some(x) => Some(x@),
        None => None,
    }
}

pub open spec fn oid_views(v: Seq<Option<Vec<u64>>>) -> Seq<Option<Seq<u64>>> {
    Seq::new(v.len(), |i: int| oid_view(v[i]))
}

pub open spec fn optional_oids(v: Option<Vec<Option<Vec<u64>>>>) -> Option<Seq<Option<Seq<u64>>>> {
    match v {
        Some(x) => Some(oid_views(x@)),
        None => None,
    }
}

pub open spec fn optional_limits(v: Option<Vec<Limit>>) -> Option<Seq<LimitView>> {
    match v {
        Some(x) => Some(limit_views(x@)),
        None => None,
    }
}

// ── What is read ──

/// Whom the certificate in a PEM text is for and when it is valid, if there is
/// one.
pub uninterp spec fn subject_of(pem: Seq<char>) -> Option<SubjectView>;

/// `rcgen::CertificateParams::from_ca_cert_pem`, and the name and the times
/// that it found. Only named.
#[verifier::external_body]
fn read_subject(pem: &str) -> (r: Option<Subject>)
    ensures
        subject_view(r) == subject_of(pem@),
{
    let p = CertificateParams::from_ca_cert_pem(pem).ok()?;
    let names = p.distinguished_name.iter().map(|(kind, value)| Attribute {
        oid: match kind {
            DnType::CustomDnType(o) => Some(o.clone()),
            _ => None,
        },
        printable: match value {
            DnValue::PrintableString(t) => Some(t.to_string()),
            _ => None,
        },
    }).collect();
    let not_before = Moment { secs: p.not_before.unix_timestamp(), year: p.not_before.year() };
    let not_after = Moment { secs: p.not_after.unix_timestamp(), year: p.not_after.year() };
    Some(Subject { names, not_before, not_after })
}

/// For each of the alternative names of the certificate in a PEM text its
/// object identifier, if it is of a kind that has one; none if there is no
/// certificate.
pub uninterp spec fn alt_oids_of(pem: Seq<char>) -> Option<Seq<Option<Seq<u64>>>>;

/// `rcgen::CertificateParams::from_ca_cert_pem`, and the object identifiers of
/// the alternative names that it found. Only named.
#[verifier::external_body]
fn read_alt_oids(pem: &str) -> (r: Option<Vec<Option<Vec<u64>>>>)
    ensures
        optional_oids(r) == alt_oids_of(pem@),
{
    let p = CertificateParams::from_ca_cert_pem(pem).ok()?;
    Some(p.subject_alt_names.iter().map(|n| match n {
        SanType::OtherName((oid, _)) => Some(oid.clone()),
        _ => None,
    }).collect())
}

/// The names that the certificate in a PEM text is limited to or kept from;
/// none if it has no such list.
pub uninterp spec fn limits_of(pem: Seq<char>) -> Option<Seq<LimitView>>;

/// `rcgen::CertificateParams::from_ca_cert_pem`, and the names in the
/// constraints that it found. Only named.
#[verifier::external_body]
fn read_limits(pem: &str) -> (r: Option<Vec<Limit>>)
    ensures
        optional_limits(r) == limits_of(pem@),
{
    let all = CertificateParams::from_ca_cert_pem(pem).ok()?.name_constraints?;
    let trees = all.permitted_subtrees.iter().chain(all.excluded_subtrees.iter());
    Some(trees.map(|tree| match tree {
        GeneralSubtree::Rfc822Name(t) => Limit::Mail(t.clone()),
        GeneralSubtree::DnsName(t) => Limit::Host(t.clone()),
        GeneralSubtree::DirectoryName(name) => Limit::Directory(
            name.iter().map(|(kind, value)| Attribute {
                oid: match kind { DnType::CustomDnType(o) => Some(o.clone()), _ => None },
                printable: match value {
                    DnValue::PrintableString(t) => Some(t.to_string()),
                    _ => None,
                },
            }).collect()),
        _ => Limit::Address,
    }).collect())
}

// ── What has to be in order ──

/// Whether an object identifier can be written: its first two numbers are there
/// and share one, as the encoding wants it.
pub open spec fn is_oid(o: Seq<u64>) -> bool {
    &&& o.len() >= 2
    &&& o[0] < 3
    &&& o[1] < 18446744073709551535
    &&& o[0] < 2 ==> o[1] < 40
}

pub open spec fn oid_ok(o: Option<Seq<u64>>) -> bool {
    o matches Some(oid) ==> is_oid(oid)
}

/// Whether a part of a name can be written: a `PrintableString` with a question
/// mark in it can be read, but not written.
pub open spec fn is_writable(a: AttributeView) -> bool {
    oid_ok(a.oid) && (a.printable matches Some(t) ==> !t.contains('?'))
}

pub open spec fn all_writable(v: Seq<AttributeView>) -> bool {
    forall|i: int| 0 <= i < v.len() ==> is_writable(#[trigger] v[i])
}

pub open spec fn is_ascii_text(s: Seq<char>) -> bool {
    forall|i: int| 0 <= i < s.len() ==> (#[trigger] s[i] as u32) < 128
}

/// Whether a time can be written: with four digits for the year, or with two
/// where the year that it was read with has two, and then it has to be such a
/// year in Greenwich too.
pub open spec fn moment_ok(m: Moment) -> bool {
    &&& FIRST_SECOND <= m.secs <= LAST_SECOND
    &&& 1950 <= m.year < 2050 ==> SHORT_YEARS <= m.secs < SHORT_YEARS_END
}

pub open spec fn subject_ok(s: SubjectView) -> bool {
    all_writable(s.names) && moment_ok(s.not_before) && moment_ok(s.not_after)
}

pub open spec fn limit_ok(l: LimitView) -> bool {
    match l {
        LimitView::Mail(t) => is_ascii_text(t),
        LimitView::Host(t) => is_ascii_text(t),
        LimitView::Directory(v) => all_writable(v),
        LimitView::Address => true,
    }
}

pub open spec fn limits_ok(v: Seq<LimitView>) -> bool {
    forall|i: int| 0 <= i < v.len() ==> limit_ok(#[trigger] v[i])
}

pub open spec fn alt_oids_ok(v: Seq<Option<Seq<u64>>>) -> bool {
    forall|i: int| 0 <= i < v.len() ==> oid_ok(#[trigger] v[i])
}

/// Whether all that is there of a certificate can be written again.
pub open spec fn shape_ok(
    subject: Option<SubjectView>,
    alt_oids: Option<Seq<Option<Seq<u64>>>>,
    limits: Option<Seq<LimitView>>,
) -> bool {
    &&& (subject matches Some(s) ==> subject_ok(s))
    &&& (alt_oids matches Some(v) ==> alt_oids_ok(v))
    &&& (limits matches Some(v) ==> limits_ok(v))
}

/// Whether the certificate in a PEM text can be written again, if there is one.
pub open spec fn can_be_signed(pem: Seq<char>) -> bool {
    shape_ok(subject_of(pem), alt_oids_of(pem), limits_of(pem))
}

fn oid_is_fine(o: &Option<Vec<u64>>) -> (r: bool)
    ensures
        r == oid_ok(oid_view(*o)),
{
    match o {
        Some(v) => v.len() >= 2 && v[0] < 3 && v[1] < 18446744073709551535 && (v[0] >= 2 || v[1]
            < 40),
        None => true,
    }
}

fn has_question_mark(s: &str) -> (r: bool)
    ensures
        r == s@.contains('?'),
{
    let v = chars_of(s);
    let mut i: usize = 0;
    while i < v.len()
        invariant
            i <= v@.len(),
            v@ == s@,
            forall|k: int| 0 <= k < i ==> v@[k] != '?',
        decreases v@.len() - i,
    {
        if v[i] == '?' {
            assert(s@[i as int] == '?');
            return true;
        }
        i = i + 1;
    }
    false
}

fn text_is_fine(t: &Option<String>) -> (r: bool)
    ensures
        r == (text_of(*t) matches Some(x) ==> !x.contains('?')),
{
    match t {
        Some(x) => !has_question_mark(x.as_str()),
        None => true,
    }
}

fn moment_is_fine(m: Moment) -> (r: bool)
    ensures
        r == moment_ok(m),
{
    FIRST_SECOND <= m.secs && m.secs <= LAST_SECOND && (m.year < 1950 || m.year >= 2050 || (
    SHORT_YEARS <= m.secs && m.secs < SHORT_YEARS_END))
}

fn names_are_fine(v: &Vec<Attribute>) -> (r: bool)
    ensures
        r == all_writable(attribute_views(v@)),
{
    let ghost all = attribute_views(v@);
    let mut i: usize = 0;
    while i < v.len()
        invariant
            i <= v@.len(),
            all == attribute_views(v@),
            forall|k: int| 0 <= k < i ==> is_writable(#[trigger] all[k]),
        decreases v@.len() - i,
    {
        assert(all[i as int] == v@[i as int]@);
        if !oid_is_fine(&v[i].oid) || !text_is_fine(&v[i].printable) {
            assert(!is_writable(all[i as int]));
            return false;
        }
        i = i + 1;
    }
    true
}

/// Whether a text is ASCII.
pub fn is_ascii(s: &str) -> (r: bool)
    ensures
        r == is_ascii_text(s@),
{
    let v = chars_of(s);
    let mut i: usize = 0;
    while i < v.len()
        invariant
            i <= v@.len(),
            v@ == s@,
            forall|k: int| 0 <= k < i ==> (#[trigger] v@[k] as u32) < 128,
        decreases v@.len() - i,
    {
        if v[i] as u32 >= 128 {
            assert(!((s@[i as int] as u32) < 128));
            return false;
        }
        i = i + 1;
    }
    true
}

fn oids_are_fine(v: &Vec<Option<Vec<u64>>>) -> (r: bool)
    ensures
        r == alt_oids_ok(oid_views(v@)),
{
    let ghost all = oid_views(v@);
    let mut i: usize = 0;
    while i < v.len()
        invariant
            i <= v@.len(),
            all == oid_views(v@),
            forall|k: int| 0 <= k < i ==> oid_ok(#[trigger] all[k]),
        decreases v@.len() - i,
    {
        assert(all[i as int] == oid_view(v@[i as int]));
        if !oid_is_fine(&v[i]) {
            assert(!oid_ok(all[i as int]));
            return false;
        }
        i = i + 1;
    }
    true
}

fn limits_are_fine(v: &Vec<Limit>) -> (r: bool)
    ensures
        r == limits_ok(limit_views(v@)),
{
    let ghost all = limit_views(v@);
    let mut i: usize = 0;
    while i < v.len()
        invariant
            i <= v@.len(),
            all == limit_views(v@),
            forall|k: int| 0 <= k < i ==> limit_ok(#[trigger] all[k]),
        decreases v@.len() - i,
    {
        assert(all[i as int] == v@[i as int]@);
        let fine = match &v[i] {
            Limit::Mail(t) => is_ascii(t.as_str()),
            Limit::Host(t) => is_ascii(t.as_str()),
            Limit::Directory(names) => names_are_fine(names),
            Limit::Address => true,
        };
        if !fine {
            assert(!limit_ok(all[i as int]));
            return false;
        }
        i = i + 1;
    }
    true
}

/// Whether all that is there of a certificate can be written again.
pub fn shape_is_fine(
    subject: &Option<Subject>,
    alt_oids: &Option<Vec<Option<Vec<u64>>>>,
    limits: &Option<Vec<Limit>>,
) -> (r: bool)
    ensures
        r == shape_ok(subject_view(*subject), optional_oids(*alt_oids), optional_limits(*limits)),
{
    let subject_fine = match subject {
        Some(s) => names_are_fine(&s.names) && moment_is_fine(s.not_before) && moment_is_fine(
            s.not_after,
        ),
        None => true,
    };
    let oids_fine = match alt_oids {
        Some(v) => oids_are_fine(v),
        None => true,
    };
    let limits_fine = match limits {
        Some(v) => limits_are_fine(v),
        None => true,
    };
    subject_fine && oids_fine && limits_fine
}

/// Whether the certificate in a PEM text can be written again, if there is one.
pub fn is_signable(pem: &str) -> (r: bool)
    ensures
        r == can_be_signed(pem@),
{
    shape_is_fine(&read_subject(pem), &read_alt_oids(pem), &read_limits(pem))
}

// ── What holds of it ──

/// Which moments a certificate can be written with: those from the year 0 to
/// 9999, and where the year is written with two digits, those from 1950 to 2049.
pub proof fn law_moments(secs: i64, year: i32)
    ensures
        ({
            let ok = moment_ok(Moment { secs, year });
            &&& secs < -62167219200 || secs > 253402300799 ==> !ok
            &&& 1950 <= year <= 2049 && (secs < -631152000 || secs >= 2524608000) ==> !ok
            &&& -631152000 <= secs < 2524608000 ==> ok
            &&& (year < 1950 || year > 2049) && -62167219200 <= secs <= 253402300799 ==> ok
        }),
{
}

/// An object identifier has at least two numbers, of which the first is at most
/// 2, and the second below 40 under the first two of these.
pub proof fn law_identifiers(a: u64, b: u64, rest: Seq<u64>)
    ensures
        a <= 1 && b < 40 ==> is_oid(seq![a, b] + rest),
        a <= 1 && b >= 40 ==> !is_oid(seq![a, b] + rest),
        a == 2 && b < 1000 ==> is_oid(seq![a, b] + rest),
        a > 2 ==> !is_oid(seq![a, b] + rest),
        !is_oid(seq![a]),
        !is_oid(Seq::empty()),
{
    let s = seq![a, b] + rest;
    assert(s[0] == a && s[1] == b);
}

/// One thing that cannot be written is enough, wherever it stands: a printable
/// text with a question mark or an identifier that is none among the names, a
/// moment, an identifier among the other names, or a limit that is not ASCII.
pub proof fn law_one_fault_is_enough(pem: Seq<char>, i: int)
    ensures
        subject_of(pem) matches Some(s) ==> {
            &&& !moment_ok(s.not_before) || !moment_ok(s.not_after) ==> !can_be_signed(pem)
            &&& 0 <= i < s.names.len() && (s.names[i].printable matches Some(t) && t.contains('?'))
                ==> !can_be_signed(pem)
            &&& 0 <= i < s.names.len() && (s.names[i].oid matches Some(o) && !is_oid(o))
                ==> !can_be_signed(pem)
        },
        alt_oids_of(pem) matches Some(v) ==> (0 <= i < v.len() && (v[i] matches Some(o)
            && !is_oid(o)) ==> !can_be_signed(pem)),
        limits_of(pem) matches Some(v) ==> {
            &&& 0 <= i < v.len() && (v[i] matches LimitView::Host(t) && !is_ascii_text(t))
                ==> !can_be_signed(pem)
            &&& 0 <= i < v.len() && (v[i] matches LimitView::Mail(t) && !is_ascii_text(t))
                ==> !can_be_signed(pem)
        },
        subject_of(pem) is None && alt_oids_of(pem) is None && limits_of(pem) is None
            ==> can_be_signed(pem),
{
}

/// A text is ASCII if none of its characters lies beyond 127.
pub proof fn law_ascii(a: Seq<char>, c: char, b: Seq<char>)
    ensures
        c as u32 > 127 ==> !is_ascii_text(a + seq![c] + b),
        c as u32 <= 127 && is_ascii_text(a) && is_ascii_text(b) ==> is_ascii_text(
            a + seq![c] + b,
        ),
        is_ascii_text(Seq::empty()),
{
    let s = a + seq![c] + b;
    assert(s[a.len() as int] == c);
    if c as u32 <= 127 && is_ascii_text(a) && is_ascii_text(b) {
        assert forall|i: int| 0 <= i < s.len() implies (#[trigger] s[i] as u32) < 128 by {
            if i < a.len() {
                assert(s[i] == a[i]);
            } else if i > a.len() {
                assert(s[i] == b[i - a.len() - 1]);
            }
        }
    }
}

} // verus!
