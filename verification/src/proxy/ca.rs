//! The certificates of the proxy: what is in them, and when the root
//! certificate is made anew.

use crate::proxy::shape::{
    can_be_signed, is_ascii, is_ascii_text, is_signable, FIRST_SECOND, LAST_SECOND,
};
use vstd::prelude::*;

verus! {

/// The name of the root certificate.
pub const CA_NAME: &'static str = "Fistbump Local CA";

pub const CA_ORGANIZATION: &'static str = "Fistbump";

/// A day, in seconds.
pub const DAY: i64 = 86400;

/// How long the root certificate is valid, in seconds.
pub const CA_SECS: i64 = 315360000;

/// How long a certificate for a name is valid, in seconds.
pub const LEAF_SECS: i64 = 604800;

/// What a key may be used for.
#[derive(Clone, Copy, PartialEq, Eq, Structural)]
pub enum Usage {
    CertSign,
    CrlSign,
    DigitalSignature,
}

/// Whom a key may stand for.
#[derive(Clone, Copy, PartialEq, Eq, Structural)]
pub enum Purpose {
    ServerAuth,
}

/// What stands in a certificate. Times are seconds from 1970.
pub struct Profile {
    pub common_name: String,
    pub organization: Option<String>,
    /// The name that browsers check, if it can be one.
    pub alt_name: Option<String>,
    pub is_ca: bool,
    pub usages: Vec<Usage>,
    pub purposes: Vec<Purpose>,
    pub not_before: i64,
    pub not_after: i64,
}

#[verifier::ext_equal]
pub struct ProfileView {
    pub common_name: Seq<char>,
    pub organization: Option<Seq<char>>,
    pub alt_name: Option<Seq<char>>,
    pub is_ca: bool,
    pub usages: Seq<Usage>,
    pub purposes: Seq<Purpose>,
    pub not_before: int,
    pub not_after: int,
}

impl View for Profile {
    type V = ProfileView;

    open spec fn view(&self) -> ProfileView {
        ProfileView {
            common_name: self.common_name@,
            organization: crate::text::text_of(self.organization),
            alt_name: crate::text::text_of(self.alt_name),
            is_ca: self.is_ca,
            usages: self.usages@,
            purposes: self.purposes@,
            not_before: self.not_before as int,
            not_after: self.not_after as int,
        }
    }
}

/// The root certificate: it signs others, for ten years, from yesterday on.
pub open spec fn root_profile(now: int) -> ProfileView {
    ProfileView {
        common_name: CA_NAME@,
        organization: Some(CA_ORGANIZATION@),
        alt_name: None,
        is_ca: true,
        usages: seq![Usage::CertSign, Usage::CrlSign],
        purposes: Seq::empty(),
        not_before: now - DAY,
        not_after: now + CA_SECS,
    }
}

/// The certificate for a name: it serves browsers for a week, from yesterday
/// on. Only an ASCII name can stand where browsers look.
pub open spec fn leaf_profile(host: Seq<char>, now: int) -> ProfileView {
    ProfileView {
        common_name: host,
        organization: None,
        alt_name: if is_ascii_text(host) {
            Some(host)
        } else {
            None
        },
        is_ca: false,
        usages: seq![Usage::DigitalSignature],
        purposes: seq![Purpose::ServerAuth],
        not_before: now - DAY,
        not_after: now + LEAF_SECS,
    }
}

/// What stands in the root certificate.
pub fn ca_profile(now: i64) -> (r: Profile)
    requires
        FIRST_SECOND + DAY <= now <= LAST_SECOND - CA_SECS,
    ensures
        r@ == root_profile(now as int),
{
    let mut usages: Vec<Usage> = Vec::new();
    usages.push(Usage::CertSign);
    usages.push(Usage::CrlSign);
    assert(usages@ =~= seq![Usage::CertSign, Usage::CrlSign]);
    Profile {
        common_name: CA_NAME.to_owned(),
        organization: Some(CA_ORGANIZATION.to_owned()),
        alt_name: None,
        is_ca: true,
        usages,
        purposes: Vec::new(),
        not_before: now - DAY,
        not_after: now + CA_SECS,
    }
}

/// What stands in the certificate for a name.
pub fn mint_profile(host: &str, now: i64) -> (r: Profile)
    requires
        FIRST_SECOND + DAY <= now <= LAST_SECOND - LEAF_SECS,
    ensures
        r@ == leaf_profile(host@, now as int),
{
    let mut usages: Vec<Usage> = Vec::new();
    usages.push(Usage::DigitalSignature);
    assert(usages@ =~= seq![Usage::DigitalSignature]);
    let mut purposes: Vec<Purpose> = Vec::new();
    purposes.push(Purpose::ServerAuth);
    assert(purposes@ =~= seq![Purpose::ServerAuth]);
    Profile {
        common_name: host.to_owned(),
        organization: None,
        alt_name: if is_ascii(host) {
            Some(host.to_owned())
        } else {
            None
        },
        is_ca: false,
        usages,
        purposes,
        not_before: now - DAY,
        not_after: now + LEAF_SECS,
    }
}

/// A certificate is valid when it is made, and none for a name can sign others
/// or outlives a root certificate that is made at the same time.
pub proof fn law_certificates_are_sound(host: Seq<char>, now: int)
    ensures
        root_profile(now).not_before < now < root_profile(now).not_after,
        leaf_profile(host, now).not_before < now < leaf_profile(host, now).not_after,
        leaf_profile(host, now).not_after < root_profile(now).not_after,
        !leaf_profile(host, now).is_ca,
        !leaf_profile(host, now).usages.contains(Usage::CertSign),
{
    assert(leaf_profile(host, now).usages[0] == Usage::DigitalSignature);
}

// ── Signing ──

/// A signed certificate of `rcgen`, which is only carried on.
#[verifier::external_type_specification]
#[verifier::external_body]
pub struct ExCertificate(rcgen::Certificate);

/// A key of `rcgen`, which is only carried on.
#[verifier::external_type_specification]
#[verifier::external_body]
pub struct ExKeyPair(rcgen::KeyPair);

/// What `rcgen` writes into a certificate, which is only carried on.
#[verifier::external_type_specification]
#[verifier::external_body]
pub struct ExCertificateParams(rcgen::CertificateParams);

/// Whether a profile can be written down: its times have four digits for the
/// year, and the name that browsers check is ASCII.
pub open spec fn can_be_written(p: ProfileView) -> bool {
    &&& FIRST_SECOND <= p.not_before <= LAST_SECOND
    &&& FIRST_SECOND <= p.not_after <= LAST_SECOND
    &&& (p.alt_name matches Some(name) ==> is_ascii_text(name))
}

/// The fields of `rcgen::CertificateParams` that say who a certificate is for
/// and when it is valid; the others as `CertificateParams::default` has them.
/// The value is only carried on, and nothing is stated of it.
#[verifier::external_body]
fn params_for(p: &Profile) -> (r: rcgen::CertificateParams)
    requires
        can_be_written(p@),
{
    let mut out = rcgen::CertificateParams::default();
    let mut name = rcgen::DistinguishedName::new();
    name.push(rcgen::DnType::CommonName, p.common_name.as_str());
    p.organization.iter().for_each(|o| name.push(rcgen::DnType::OrganizationName, o.as_str()));
    out.distinguished_name = name;
    out.subject_alt_names = p.alt_name.iter()
        .map(|n| rcgen::SanType::DnsName(n.as_str().try_into().unwrap()))
        .collect();
    out.not_before = time::OffsetDateTime::from_unix_timestamp(p.not_before).unwrap();
    out.not_after = time::OffsetDateTime::from_unix_timestamp(p.not_after).unwrap();
    out
}

/// The fields of `rcgen::CertificateParams` that say what a certificate may be
/// used for. The value is only carried on, and nothing is stated of it.
#[verifier::external_body]
fn params_with_usages(params: rcgen::CertificateParams, p: &Profile) -> (r:
    rcgen::CertificateParams) {
    let mut out = params;
    out.is_ca = match p.is_ca {
        true => rcgen::IsCa::Ca(rcgen::BasicConstraints::Unconstrained),
        false => rcgen::IsCa::NoCa,
    };
    out.key_usages = p.usages.iter().map(|u| match u {
        Usage::CertSign => rcgen::KeyUsagePurpose::KeyCertSign,
        Usage::CrlSign => rcgen::KeyUsagePurpose::CrlSign,
        Usage::DigitalSignature => rcgen::KeyUsagePurpose::DigitalSignature,
    }).collect();
    out.extended_key_usages = p.purposes.iter().map(|u| match u {
        Purpose::ServerAuth => rcgen::ExtendedKeyUsagePurpose::ServerAuth,
    }).collect();
    out
}

/// `rcgen::KeyPair::generate_for` with `PKCS_ECDSA_P256_SHA256`. The key is
/// random, and whether there is one is up to the system.
#[verifier::external_body]
fn new_key() -> (r: Result<rcgen::KeyPair, String>) {
    rcgen::KeyPair::generate_for(&rcgen::PKCS_ECDSA_P256_SHA256).map_err(|e| e.to_string())
}

/// Whether `params` are those of the profile.
pub closed spec fn are_params_of(params: rcgen::CertificateParams, p: Profile) -> bool {
    exists|half: rcgen::CertificateParams|
        #![trigger call_ensures(params_for, (&p,), half)]
        {
            &&& can_be_written(p@)
            &&& call_ensures(params_for, (&p,), half)
            &&& call_ensures(params_with_usages, (half, &p), params)
        }
}

fn params_of(p: &Profile) -> (r: rcgen::CertificateParams)
    requires
        can_be_written(p@),
    ensures
        are_params_of(r, *p),
{
    let half = params_for(p);
    params_with_usages(half, p)
}

/// Whether `new_key` can have given the key.
pub closed spec fn is_new_key(key: rcgen::KeyPair) -> bool {
    call_ensures(new_key, (), Ok(key))
}

/// Whether there being no key can have been reported as `e`.
pub closed spec fn is_key_error(e: String) -> bool {
    call_ensures(new_key, (), Err(e))
}

/// `rcgen::KeyPair::from_pem`. Nothing is stated of the key.
#[verifier::external_body]
fn read_key(pem: &str) -> (r: Result<rcgen::KeyPair, String>) {
    rcgen::KeyPair::from_pem(pem).map_err(|e| e.to_string())
}

/// `rcgen::CertificateParams::from_ca_cert_pem`. The value is only carried on,
/// and nothing is stated of it.
#[verifier::external_body]
fn read_params(pem: &str) -> (r: Result<rcgen::CertificateParams, String>) {
    rcgen::CertificateParams::from_ca_cert_pem(pem).map_err(|e| e.to_string())
}

/// Whether `r` can come of reading a key.
pub closed spec fn is_key_in(pem: Seq<char>, r: Result<rcgen::KeyPair, String>) -> bool {
    exists|s: &str| s@ == pem && #[trigger] call_ensures(read_key, (s,), r)
}

/// Whether `r` can come of reading the parameters of a certificate.
pub closed spec fn are_params_in(
    pem: Seq<char>,
    r: Result<rcgen::CertificateParams, String>,
) -> bool {
    exists|s: &str| s@ == pem && #[trigger] call_ensures(read_params, (s,), r)
}

/// Whether parameters are those of a profile, or were read from a certificate
/// that can be written again.
pub closed spec fn can_be_written_out(params: rcgen::CertificateParams) -> bool {
    ||| exists|p: Profile| #[trigger] are_params_of(params, p)
    ||| exists|pem: Seq<char>| #[trigger] are_params_in(pem, Ok(params)) && can_be_signed(pem)
}

/// `rcgen::CertificateParams::self_signed`, for parameters that can be written.
/// The signature is random: two calls give two certificates.
#[verifier::external_body]
fn sign_self(params: rcgen::CertificateParams, key: &rcgen::KeyPair) -> (r: Result<
    rcgen::Certificate,
    String,
>)
    requires
        can_be_written_out(params),
{
    params.self_signed(key).map_err(|e| e.to_string())
}

/// `rcgen::CertificateParams::signed_by`, for parameters of a profile. The
/// signature is random: two calls give two certificates.
#[verifier::external_body]
fn sign_by(
    params: rcgen::CertificateParams,
    key: &rcgen::KeyPair,
    ca_cert: &rcgen::Certificate,
    ca_key: &rcgen::KeyPair,
) -> (r: Result<rcgen::Certificate, String>)
    requires
        exists|p: Profile| #[trigger] are_params_of(params, p),
{
    params.signed_by(key, ca_cert, ca_key).map_err(|e| e.to_string())
}

/// `rcgen::Certificate::pem`.
#[verifier::external_body]
fn cert_pem(cert: &rcgen::Certificate) -> (r: String) {
    cert.pem()
}

/// `rcgen::Certificate::der`.
#[verifier::external_body]
fn cert_der(cert: &rcgen::Certificate) -> (r: Vec<u8>) {
    cert.der().to_vec()
}

/// `rcgen::KeyPair::serialize_pem`, for a key that was made here: one that is
/// kept elsewhere cannot be written down.
#[verifier::external_body]
fn key_pem(key: &rcgen::KeyPair) -> (r: String)
    requires
        is_new_key(*key),
{
    key.serialize_pem()
}

/// `rcgen::KeyPair::serialize_der`, for a key that was made here: one that is
/// kept elsewhere cannot be written down.
#[verifier::external_body]
fn key_der(key: &rcgen::KeyPair) -> (r: Vec<u8>)
    requires
        is_new_key(*key),
{
    key.serialize_der()
}

/// Whether `cert` is a certificate of the profile for the key, signed with
/// that key, or there being none is reported so.
pub closed spec fn is_self_signed(
    p: Profile,
    key: rcgen::KeyPair,
    cert: Result<rcgen::Certificate, String>,
) -> bool {
    exists|params: rcgen::CertificateParams|
        #[trigger] are_params_of(params, p) && call_ensures(sign_self, (params, &key), cert)
}

/// Whether `cert` is the certificate that was read, signed again with the key,
/// or there being none is reported so.
pub closed spec fn is_signed_again(
    pem: Seq<char>,
    key: rcgen::KeyPair,
    cert: Result<rcgen::Certificate, String>,
) -> bool {
    exists|params: rcgen::CertificateParams|
        #[trigger] are_params_in(pem, Ok(params)) && call_ensures(sign_self, (params, &key), cert)
}

/// Whether `cert` is a certificate of the profile for the key, signed with the
/// root certificate and its key, or there being none is reported so.
pub closed spec fn is_signed_by(
    p: Profile,
    key: rcgen::KeyPair,
    ca: CertAuthority,
    cert: Result<rcgen::Certificate, String>,
) -> bool {
    exists|params: rcgen::CertificateParams|
        #[trigger] are_params_of(params, p) && call_ensures(
            sign_by,
            (params, &key, &ca.ca_cert, &ca.ca_key),
            cert,
        )
}

/// Whether `text` is the certificate in PEM.
pub closed spec fn is_cert_pem(cert: rcgen::Certificate, text: String) -> bool {
    call_ensures(cert_pem, (&cert,), text)
}

/// Whether `bytes` are the certificate in DER.
pub closed spec fn is_cert_der(cert: rcgen::Certificate, bytes: Vec<u8>) -> bool {
    call_ensures(cert_der, (&cert,), bytes)
}

/// Whether `text` is the key in PEM.
pub closed spec fn is_key_pem(key: rcgen::KeyPair, text: String) -> bool {
    call_ensures(key_pem, (&key,), text)
}

/// Whether `bytes` are the key in DER.
pub closed spec fn is_key_der(key: rcgen::KeyPair, bytes: Vec<u8>) -> bool {
    call_ensures(key_der, (&key,), bytes)
}

// ── The authority ──

/// The root certificate, its key, and the file that it is in.
pub struct CertAuthority {
    pub ca_cert: rcgen::Certificate,
    pub ca_key: rcgen::KeyPair,
    pub cert_path: String,
}

/// A new root certificate, and its files.
pub struct NewAuthority {
    pub authority: CertAuthority,
    pub cert_pem: String,
    pub key_pem: String,
}

/// A chain of certificates in DER, and the key of the first in DER.
pub struct Minted {
    pub chain: Vec<Vec<u8>>,
    pub key: Vec<u8>,
}

/// Whether `r` can come of making a root certificate: a new key with a
/// certificate of the profile that it signs itself, and both as text.
pub open spec fn was_created(
    p: Profile,
    cert_path: Seq<char>,
    r: Result<NewAuthority, String>,
) -> bool {
    match r {
        Ok(new) => {
            &&& is_new_key(new.authority.ca_key)
            &&& is_self_signed(p, new.authority.ca_key, Ok(new.authority.ca_cert))
            &&& is_cert_pem(new.authority.ca_cert, new.cert_pem)
            &&& is_key_pem(new.authority.ca_key, new.key_pem)
            &&& new.authority.cert_path@ == cert_path
        },
        Err(e) => is_key_error(e) || exists|key: rcgen::KeyPair| #[trigger]
            is_new_key(key) && is_self_signed(p, key, Err(e)),
    }
}

/// What is said of a certificate that cannot be written again.
pub const NOT_SIGNABLE: &'static str = "the certificate cannot be signed again";

/// Whether `r` can come of loading a root certificate and its key from PEM: the
/// key that was read, and the certificate that was read, signed again with it.
/// The key is read first.
pub open spec fn was_loaded(
    cert_pem: Seq<char>,
    key_pem: Seq<char>,
    cert_path: Seq<char>,
    r: Result<CertAuthority, String>,
) -> bool {
    match r {
        Ok(ca) => {
            &&& is_key_in(key_pem, Ok(ca.ca_key))
            &&& can_be_signed(cert_pem)
            &&& is_signed_again(cert_pem, ca.ca_key, Ok(ca.ca_cert))
            &&& ca.cert_path@ == cert_path
        },
        Err(e) => is_key_in(key_pem, Err(e)) || exists|key: rcgen::KeyPair|
            {
                &&& #[trigger] is_key_in(key_pem, Ok(key))
                &&& are_params_in(cert_pem, Err(e)) || if can_be_signed(cert_pem) {
                    is_signed_again(cert_pem, key, Err(e))
                } else {
                    e@ == NOT_SIGNABLE@
                }
            },
    }
}

/// Whether `r` can come of making a certificate of the profile: a new key, and
/// a certificate for it that the root certificate signs and follows.
pub open spec fn was_minted(ca: CertAuthority, p: Profile, r: Result<Minted, String>) -> bool {
    match r {
        Ok(m) => exists|key: rcgen::KeyPair, cert: rcgen::Certificate|
            {
                &&& #[trigger] is_new_key(key)
                &&& is_signed_by(p, key, ca, Ok(cert))
                &&& m.chain@.len() == 2
                &&& #[trigger] is_cert_der(cert, m.chain@[0])
                &&& is_cert_der(ca.ca_cert, m.chain@[1])
                &&& is_key_der(key, m.key)
            },
        Err(e) => is_key_error(e) || exists|key: rcgen::KeyPair| #[trigger]
            is_new_key(key) && is_signed_by(p, key, ca, Err(e)),
    }
}

impl CertAuthority {
    /// Makes a root certificate. Its key is new, so that no two are the same;
    /// there being no key, or no signature, are the only errors.
    pub fn create(cert_path: String, now: i64) -> (r: Result<NewAuthority, String>)
        requires
            FIRST_SECOND + DAY <= now <= LAST_SECOND - CA_SECS,
        ensures
            exists|p: Profile|
                p@ == root_profile(now as int) && #[trigger] was_created(p, cert_path@, r),
    {
        let profile = ca_profile(now);
        let params = params_of(&profile);
        let ca_key = match new_key() {
            Ok(key) => key,
            Err(e) => {
                let r: Result<NewAuthority, String> = Err(e);
                assert(was_created(profile, cert_path@, r));
                return r;
            },
        };
        assert(is_new_key(ca_key));
        assert(are_params_of(params, profile));
        let ca_cert = match sign_self(params, &ca_key) {
            Ok(cert) => cert,
            Err(e) => {
                assert(is_self_signed(profile, ca_key, Err(e)));
                let r: Result<NewAuthority, String> = Err(e);
                assert(was_created(profile, cert_path@, r));
                return r;
            },
        };
        assert(is_self_signed(profile, ca_key, Ok(ca_cert)));
        let cert_pem = cert_pem(&ca_cert);
        let key_pem = key_pem(&ca_key);
        let authority = CertAuthority { ca_cert, ca_key, cert_path };
        let r: Result<NewAuthority, String> = Ok(NewAuthority { authority, cert_pem, key_pem });
        assert(was_created(profile, cert_path@, r));
        r
    }

    /// Loads a root certificate and its key from the text of their files.
    pub fn load_existing(cert_pem: &str, key_pem: &str, cert_path: String) -> (r: Result<
        CertAuthority,
        String,
    >)
        ensures
            was_loaded(cert_pem@, key_pem@, cert_path@, r),
    {
        let ca_key = match read_key(key_pem) {
            Ok(key) => key,
            Err(e) => {
                assert(is_key_in(key_pem@, Err(e)));
                return Err(e);
            },
        };
        assert(is_key_in(key_pem@, Ok(ca_key)));
        let params = match read_params(cert_pem) {
            Ok(p) => p,
            Err(e) => {
                assert(are_params_in(cert_pem@, Err(e)));
                return Err(e);
            },
        };
        assert(are_params_in(cert_pem@, Ok(params)));
        if !is_signable(cert_pem) {
            return Err(NOT_SIGNABLE.to_owned());
        }
        match sign_self(params, &ca_key) {
            Ok(ca_cert) => {
                assert(is_signed_again(cert_pem@, ca_key, Ok(ca_cert)));
                Ok(CertAuthority { ca_cert, ca_key, cert_path })
            },
            Err(e) => {
                assert(is_signed_again(cert_pem@, ca_key, Err(e)));
                Err(e)
            },
        }
    }

    /// Makes a certificate for a name. Its key is new, so that no two are the
    /// same; there being no key, or no signature, are the only errors.
    pub fn mint_cert(&self, hostname: &str, now: i64) -> (r: Result<Minted, String>)
        requires
            FIRST_SECOND + DAY <= now <= LAST_SECOND - LEAF_SECS,
        ensures
            exists|p: Profile|
                p@ == leaf_profile(hostname@, now as int) && #[trigger] was_minted(*self, p, r),
    {
        let profile = mint_profile(hostname, now);
        let params = params_of(&profile);
        let key = match new_key() {
            Ok(key) => key,
            Err(e) => {
                let r: Result<Minted, String> = Err(e);
                assert(was_minted(*self, profile, r));
                return r;
            },
        };
        assert(is_new_key(key));
        assert(are_params_of(params, profile));
        let cert = match sign_by(params, &key, &self.ca_cert, &self.ca_key) {
            Ok(cert) => cert,
            Err(e) => {
                assert(is_signed_by(profile, key, *self, Err(e)));
                let r: Result<Minted, String> = Err(e);
                assert(was_minted(*self, profile, r));
                return r;
            },
        };
        assert(is_signed_by(profile, key, *self, Ok(cert)));
        let first = cert_der(&cert);
        let second = cert_der(&self.ca_cert);
        let mut chain: Vec<Vec<u8>> = Vec::new();
        chain.push(first);
        chain.push(second);
        let r: Result<Minted, String> = Ok(Minted { chain, key: key_der(&key) });
        assert(is_cert_der(cert, r->Ok_0.chain@[0]));
        assert(was_minted(*self, profile, r));
        r
    }
}

// ── The files ──

/// What is known of the files of the root certificate.
#[derive(Clone, Copy, PartialEq, Eq, Structural)]
pub enum CaEvent {
    /// Whether the certificate and its key are there.
    Looked { cert: bool, key: bool },
    /// Whether they could be read.
    Loaded(bool),
}

/// What to do about them.
#[derive(Clone, Copy, PartialEq, Eq, Structural)]
pub enum CaAct {
    Load,
    /// Take what was read.
    Keep,
    /// Make a new root certificate.
    Create,
    /// Remove the files, which nothing can be read from, and make a new root
    /// certificate.
    Replace,
}

impl CertAuthority {
    /// What to do about the files of the root certificate: keep what is good, and
    /// make anew what is not.
    pub fn load_or_create(event: CaEvent) -> (r: CaAct)
        ensures
            r == match event {
                CaEvent::Looked { cert, key } => if cert && key {
                    CaAct::Load
                } else {
                    CaAct::Create
                },
                CaEvent::Loaded(fine) => if fine {
                    CaAct::Keep
                } else {
                    CaAct::Replace
                },
            },
    {
        match event {
            CaEvent::Looked { cert, key } => if cert && key {
                CaAct::Load
            } else {
                CaAct::Create
            },
            CaEvent::Loaded(fine) => if fine {
                CaAct::Keep
            } else {
                CaAct::Replace
            },
        }
    }
}

/// The root certificate is the wallet's own, may sign others and nothing else,
/// and is valid from the day before for ten years; a certificate for a host is
/// for that host, may not sign, serves a server, and is valid for a week.
pub proof fn law_what_certificates_say(host: Seq<char>, now: int)
    ensures
        ({
            let r = root_profile(now);
            &&& r.common_name == "Fistbump Local CA"@ && r.organization == Some("Fistbump"@)
            &&& r.alt_name is None && r.is_ca
            &&& r.usages.contains(Usage::CertSign) && r.usages.contains(Usage::CrlSign)
            &&& !r.usages.contains(Usage::DigitalSignature) && r.purposes.len() == 0
            &&& r.not_before == now - 24 * 60 * 60
            &&& r.not_after == now + 3650 * 24 * 60 * 60
        }),
        ({
            let l = leaf_profile(host, now);
            &&& l.common_name == host && l.organization is None && !l.is_ca
            &&& is_ascii_text(host) ==> l.alt_name == Some(host)
            &&& !is_ascii_text(host) ==> l.alt_name is None
            &&& l.usages == seq![Usage::DigitalSignature]
            &&& l.purposes == seq![Purpose::ServerAuth]
            &&& l.not_before == now - 24 * 60 * 60
            &&& l.not_after == now + 7 * 24 * 60 * 60
        }),
{
    let r = root_profile(now);
    assert(r.usages[0] == Usage::CertSign && r.usages[1] == Usage::CrlSign);
}

} // verus!
