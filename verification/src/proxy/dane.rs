//! Certificates checked against TLSA records.

use crate::hashes::{sha256, sha256_digest, sha512, sha512_digest};
use crate::proxy::dns::{tlsa_views, Tlsa, TlsaRecord};
use crate::wire::bytes_equal;
use vstd::prelude::*;
use x509_parser::prelude::FromDer;

verus! {

/// The encoded public key of a certificate, if it is one.
pub uninterp spec fn public_key_in(cert_der: Seq<u8>) -> Option<Seq<u8>>;

/// `X509Certificate::from_der`, and the raw bytes of the public key that it
/// found. Both depend on the bytes alone. Only named.
#[verifier::external_body]
pub(crate) fn public_key_info(cert_der: &[u8]) -> (r: Option<Vec<u8>>)
    ensures
        match r {
            Some(k) => public_key_in(cert_der@) == Some(k@),
            None => public_key_in(cert_der@) is None,
        },
{
    match x509_parser::certificate::X509Certificate::from_der(cert_der) {
        Ok((_, cert)) => Some(cert.public_key().raw.to_vec()),
        Err(_) => None,
    }
}

/// What of a certificate a record speaks of: all of it, or its public key.
pub open spec fn selected(selector: u8, cert: Seq<u8>, key: Option<Seq<u8>>) -> Option<Seq<u8>> {
    if selector == 0 {
        Some(cert)
    } else if selector == 1 {
        key
    } else {
        None
    }
}

/// Whether a record's data stands for `data`: it is the data itself, or one of
/// its hashes.
pub open spec fn stands_for(
    matching_type: u8,
    cert_data: Seq<u8>,
    data: Seq<u8>,
    hash256: Seq<u8>,
    hash512: Seq<u8>,
) -> bool {
    if matching_type == 0 {
        cert_data == data
    } else if matching_type == 1 {
        cert_data == hash256
    } else if matching_type == 2 {
        cert_data == hash512
    } else {
        false
    }
}

/// Whether a record vouches for a certificate. Only usage 3 is supported: the
/// record alone vouches for the server's own certificate.
pub open spec fn vouches(tlsa: Tlsa, cert: Seq<u8>) -> bool {
    &&& tlsa.usage == 3
    &&& selected(tlsa.selector, cert, public_key_in(cert)) matches Some(data) && stands_for(
        tlsa.matching_type,
        tlsa.cert_data,
        data,
        sha256_digest(data),
        sha512_digest(data),
    )
}

/// Whether one of the records vouches for a certificate.
pub open spec fn vouched(records: Seq<Tlsa>, cert: Seq<u8>) -> bool {
    exists|i: int| 0 <= i < records.len() && vouches(#[trigger] records[i], cert)
}

/// Without records nothing is valid.
pub proof fn law_no_records_no_validity(cert: Seq<u8>)
    ensures
        !vouched(Seq::empty(), cert),
{
}

/// More records never make a valid certificate invalid.
pub proof fn law_more_records_keep_validity(a: Seq<Tlsa>, b: Seq<Tlsa>, cert: Seq<u8>)
    requires
        vouched(a, cert),
    ensures
        vouched(a + b, cert),
        vouched(b + a, cert),
{
    let i = choose|i: int| 0 <= i < a.len() && vouches(#[trigger] a[i], cert);
    assert((a + b)[i] == a[i]);
    assert((b + a)[b.len() + i] == a[i]);
}

/// Whether a record's data stands for `data`, given the hashes of `data`.
pub fn association_matches(
    tlsa: &TlsaRecord,
    data: &[u8],
    hash256: &[u8],
    hash512: &[u8],
) -> (r: bool)
    ensures
        r == stands_for(tlsa.matching_type, tlsa.cert_data@, data@, hash256@, hash512@),
{
    if tlsa.matching_type == 0 {
        bytes_equal(&tlsa.cert_data, data)
    } else if tlsa.matching_type == 1 {
        bytes_equal(&tlsa.cert_data, hash256)
    } else if tlsa.matching_type == 2 {
        bytes_equal(&tlsa.cert_data, hash512)
    } else {
        false
    }
}

/// Whether a record vouches for a certificate.
pub fn matches_tlsa(cert_der: &[u8], tlsa: &TlsaRecord) -> (r: bool)
    ensures
        r == vouches(tlsa@, cert_der@),
{
    if tlsa.usage != 3 {
        return false;
    }
    if tlsa.selector == 0 {
        association_matches(tlsa, cert_der, &sha256(cert_der), &sha512(cert_der))
    } else if tlsa.selector == 1 {
        match public_key_info(cert_der) {
            Some(key) => association_matches(tlsa, &key, &sha256(&key), &sha512(&key)),
            None => false,
        }
    } else {
        false
    }
}

/// Whether any of the records vouches for the certificate. Without records
/// none does, and the caller decides whether to go on all the same.
pub fn validate(cert_der: &[u8], tlsa_records: &[TlsaRecord]) -> (r: bool)
    ensures
        r == vouched(tlsa_views(tlsa_records@), cert_der@),
{
    let ghost all = tlsa_views(tlsa_records@);
    let mut i: usize = 0;
    while i < tlsa_records.len()
        invariant
            i <= tlsa_records@.len(),
            all == tlsa_views(tlsa_records@),
            forall|k: int| 0 <= k < i ==> !vouches(#[trigger] all[k], cert_der@),
        decreases tlsa_records@.len() - i,
    {
        assert(all[i as int] == tlsa_records@[i as int]@);
        if matches_tlsa(cert_der, &tlsa_records[i]) {
            return true;
        }
        i = i + 1;
    }
    false
}

/// What each kind of record vouches for: the certificate or its public key, as
/// it is or by one of two hashes, and only where the record alone is to decide.
pub proof fn law_what_records_vouch_for(
    usage: u8,
    selector: u8,
    matching_type: u8,
    cert_data: Seq<u8>,
    cert: Seq<u8>,
)
    ensures
        ({
            let t = Tlsa { usage, selector, matching_type, cert_data };
            let key = public_key_in(cert);
            &&& usage == 3 && selector == 0 && matching_type == 0 ==> vouches(t, cert) == (cert_data
                == cert)
            &&& usage == 3 && selector == 0 && matching_type == 1 ==> vouches(t, cert) == (cert_data
                == sha256_digest(cert))
            &&& usage == 3 && selector == 0 && matching_type == 2 ==> vouches(t, cert) == (cert_data
                == sha512_digest(cert))
            &&& usage == 3 && selector == 1 && matching_type == 0 ==> vouches(t, cert) == (key
                == Some(cert_data))
            &&& usage == 3 && selector == 1 && matching_type == 1 ==> vouches(t, cert) == (key
                is Some && cert_data == sha256_digest(key->Some_0))
            &&& usage == 3 && selector == 1 && matching_type == 2 ==> vouches(t, cert) == (key
                is Some && cert_data == sha512_digest(key->Some_0))
            &&& usage != 3 || selector > 1 || matching_type > 2 ==> !vouches(t, cert)
        }),
{
}

/// One record that vouches is enough, wherever it stands among the others, and
/// records none of which vouches are as good as none.
pub proof fn law_one_record_is_enough(records: Seq<Tlsa>, i: int, cert: Seq<u8>)
    ensures
        0 <= i < records.len() && vouches(records[i], cert) ==> vouched(records, cert),
        (forall|k: int| 0 <= k < records.len() ==> !vouches(#[trigger] records[k], cert))
            ==> !vouched(records, cert),
{
}

} // verus!
