//! Key canonicalization and per-certificate field extraction. Decode
//! failures inside a certificate degrade to absent fields; an
//! unsupported key algorithm, or an elliptic-curve key without
//! obtainable parameters, yields no record at all.
use vstd::prelude::*;
use vstd::slice::{slice_subrange, slice_to_vec};
use vstd::string::StringSliceAdditionalSpecFns;
use x509_parser::certificate::X509Certificate;
use x509_parser::extensions::AuthorityKeyIdentifier;
use x509_parser::prelude::FromDer;
use x509_parser::public_key::PublicKey;
use crate::bytes::{ascii_upper, bytes_eq, spec_upper};
use crate::oids::{get_oid_description, spec_oid_name};
use crate::pkup::spec_pkup_of;
use crate::records::{
    seq_view, CertificateMeta, CertificateRecord, ExtV, KeyRaw, KeyV, MetaV, PrivateKeyUsagePeriod,
    RawExtension, RecordV,
};

verus! {

/// What x509_parser makes of the given DER bytes as a certificate:
/// `None` when they do not decode, otherwise the plain metadata
/// fields.
pub uninterp spec fn cert_meta_of(der: Seq<u8>) -> Option<MetaV>;

/// What x509_parser makes of the given DER bytes' subject public key:
/// `None` when the bytes do not decode as a certificate, otherwise the
/// classified key material.
pub uninterp spec fn cert_key_of(der: Seq<u8>) -> Option<KeyV>;

/// What x509_parser makes of the given bytes as an
/// authority-key-identifier extension value: the key-identifier
/// sub-field, or `None` when decoding fails or the sub-field is
/// absent.
pub uninterp spec fn aki_key_id_of(value: Seq<u8>) -> Option<Seq<u8>>;

/// Relies on x509_parser's `X509Certificate::from_der` and its
/// accessors (`issuer().iter_country()`, `as_str`, `validity()`
/// timestamps, `signature_algorithm`, `extensions()`): decodes the DER
/// certificate and hands its plain metadata back; `None` when the
/// bytes are not an X.509 certificate. A missing or non-text first
/// country attribute comes back as `None`.
#[verifier::external_body]
pub(crate) fn decode_cert_meta(der: &Vec<u8>) -> (r: Option<CertificateMeta>)
    ensures
        match r {
            Some(m) => cert_meta_of(der@) == Some(m@),
            None => cert_meta_of(der@) is None,
        },
{
    let cert = match X509Certificate::from_der(der.as_slice()) {
        Ok((_, c)) => c,
        Err(_) => return None,
    };
    let country = cert.issuer().iter_country().next().and_then(|a| a.as_str().ok());
    let meta = Some(CertificateMeta {
        country: country.map(|s| s.as_bytes().to_vec()),
        not_before: cert.validity().not_before.timestamp(),
        not_after: cert.validity().not_after.timestamp(),
        sig_alg_oid: cert.signature_algorithm.algorithm.to_id_string().into_bytes(),
        extensions: cert.extensions().iter().map(|e| RawExtension { oid: e.oid.to_id_string().into_bytes(), value: e.value.to_vec() }).collect(),
    });
    meta
}

/// Relies on x509_parser's `X509Certificate::from_der` and
/// `public_key().parsed()`: classifies the subject public key, handing
/// back the raw RSA modulus and exponent, or the EC point and raw
/// curve-parameter bytes, with the reported key size in bits; `None`
/// when the bytes are not an X.509 certificate.
#[verifier::external_body]
pub(crate) fn decode_cert_key(der: &Vec<u8>) -> (r: Option<KeyRaw>)
    ensures
        match r {
            Some(k) => cert_key_of(der@) == Some(k@),
            None => cert_key_of(der@) is None,
        },
{
    let cert = match X509Certificate::from_der(der.as_slice()) {
        Ok((_, c)) => c,
        Err(_) => return None,
    };
    Some(match cert.public_key().parsed() {
        Ok(PublicKey::RSA(k)) => KeyRaw::Rsa { modulus: k.modulus.to_vec(), exponent: k.exponent.to_vec(), key_size: k.key_size() },
        Ok(PublicKey::EC(k)) => KeyRaw::Ec {
            point: k.data().to_vec(),
            params: cert.public_key().algorithm.parameters.as_ref().map(|p| p.as_bytes().to_vec()),
            key_size: k.key_size(),
        },
        _ => KeyRaw::Unsupported,
    })
}

/// Relies on x509_parser's `AuthorityKeyIdentifier::from_der`: decodes
/// the extension value and keeps the key-identifier sub-field; `None`
/// when decoding fails or the sub-field is absent.
#[verifier::external_body]
fn decode_aki(value: &Vec<u8>) -> (r: Option<Vec<u8>>)
    ensures
        match r {
            Some(v) => aki_key_id_of(value@) == Some(v@),
            None => aki_key_id_of(value@) is None,
        },
{
    match AuthorityKeyIdentifier::from_der(value.as_slice()) {
        Ok((_, aki)) => aki.key_identifier.map(|ki| ki.0.to_vec()),
        Err(_) => None,
    }
}

/// The bytes with their leading zero bytes removed.
pub open spec fn spec_strip_zeros(s: Seq<u8>) -> Seq<u8>
    decreases s.len(),
{
    if s.len() > 0 && s[0] == 0 {
        spec_strip_zeros(s.skip(1))
    } else {
        s
    }
}

/// Where the first `i` bytes are zero and byte `i` (if any) is not,
/// stripping leading zeros is dropping the first `i` bytes.
pub proof fn lemma_strip_zeros_at(s: Seq<u8>, i: int)
    requires
        0 <= i <= s.len(),
        forall|k: int| 0 <= k < i ==> s[k] == 0,
        i < s.len() ==> s[i] != 0,
    ensures
        spec_strip_zeros(s) == s.skip(i),
    decreases i,
{
    if i == 0 {
        assert(s.skip(0) =~= s);
    } else {
        assert(s[0] == 0);
        lemma_strip_zeros_at(s.skip(1), i - 1);
        assert(s.skip(1).skip(i - 1) =~= s.skip(i));
    }
}

/// The canonical form of a classified key: for RSA the modulus without
/// leading zero padding, the exponent unmodified; for an
/// elliptic-curve key with obtainable parameters and a non-empty
/// stored point, the point without its one-byte prefix and the raw
/// curve-identifier bytes. Everything else yields no key.
pub open spec fn spec_normalize_key(k: KeyV) -> Option<(Seq<u8>, Seq<u8>, usize)> {
    match k {
        KeyV::Rsa { modulus, exponent, key_size } => Some(
            (spec_strip_zeros(modulus), exponent, key_size),
        ),
        KeyV::Ec { point, params, key_size } => match params {
            Some(ps) => if point.len() >= 1 {
                Some((point.skip(1), ps, key_size))
            } else {
                None
            },
            None => None,
        },
        KeyV::Unsupported => None,
    }
}

/// Canonicalizes a classified public key into its (key bytes,
/// parameter bytes, key size) form; `None` for a key that is to be
/// skipped entirely.
pub fn normalize_key(key: &KeyRaw) -> (r: Option<(Vec<u8>, Vec<u8>, usize)>)
    ensures
        match r {
            Some(t) => spec_normalize_key(key@) == Some((t.0@, t.1@, t.2)),
            None => spec_normalize_key(key@) is None,
        },
{
    match key {
        KeyRaw::Rsa { modulus, exponent, key_size } => {
            let mut i: usize = 0;
            while i < modulus.len() && modulus[i] == 0
                invariant
                    i <= modulus.len(),
                    forall|k: int| 0 <= k < i ==> modulus@[k] == 0,
                decreases modulus.len() - i,
            {
                i += 1;
            }
            let stripped = slice_to_vec(slice_subrange(modulus.as_slice(), i, modulus.len()));
            proof {
                lemma_strip_zeros_at(modulus@, i as int);
            }
            Some((stripped, slice_to_vec(exponent.as_slice()), *key_size))
        },
        KeyRaw::Ec { point, params, key_size } => match params {
            Some(ps) => {
                if point.len() >= 1 {
                    let stripped = slice_to_vec(slice_subrange(point.as_slice(), 1, point.len()));
                    assert(point@.subrange(1, point@.len() as int) =~= point@.skip(1));
                    Some((stripped, slice_to_vec(ps.as_slice()), *key_size))
                } else {
                    None
                }
            },
            None => None,
        },
        KeyRaw::Unsupported => None,
    }
}

/// The value of the first extension carrying the given object
/// identifier, if any.
pub open spec fn spec_find_ext(exts: Seq<ExtV>, oid: Seq<u8>) -> Option<Seq<u8>>
    decreases exts.len(),
{
    if exts.len() == 0 {
        None
    } else if exts[0].oid == oid {
        Some(exts[0].value)
    } else {
        spec_find_ext(exts.skip(1), oid)
    }
}

/// Finds the first extension carrying the given object identifier.
fn find_extension<'a>(exts: &'a Vec<RawExtension>, oid: &[u8]) -> (r: Option<&'a Vec<u8>>)
    ensures
        match r {
            Some(v) => spec_find_ext(seq_view(exts@), oid@) == Some(v@),
            None => spec_find_ext(seq_view(exts@), oid@) is None,
        },
{
    let ghost evs = seq_view(exts@);
    let mut i: usize = 0;
    assert(evs.skip(0) =~= evs);
    while i < exts.len()
        invariant
            i <= exts.len(),
            evs == seq_view(exts@),
            spec_find_ext(evs, oid@) == spec_find_ext(evs.skip(i as int), oid@),
        decreases exts.len() - i,
    {
        assert(evs.skip(i as int)[0] == evs[i as int]);
        if bytes_eq(exts[i].oid.as_slice(), oid) {
            return Some(&exts[i].value);
        }
        assert(evs.skip(i as int).skip(1) =~= evs.skip(i + 1));
        i += 1;
    }
    assert(evs.skip(exts@.len() as int).len() == 0);
    None
}

/// The issuing country as the record carries it: the first country
/// attribute of the issuer, or `Unknown` when absent or non-text,
/// ASCII upper-cased.
pub open spec fn spec_country(country: Option<Seq<u8>>) -> Seq<u8> {
    match country {
        Some(c) => spec_upper(c),
        None => spec_upper("Unknown".spec_bytes()),
    }
}

/// The record extracted from one certificate's metadata and classified
/// key: `None` exactly when the key canonicalizes to nothing. Absent
/// or undecodable extensions leave their fields absent and are never
/// an error.
pub open spec fn spec_extract(meta: MetaV, key: KeyV) -> Option<RecordV> {
    match spec_normalize_key(key) {
        None => None,
        Some(norm) => Some(
            RecordV {
                public_key: norm.0,
                signature_algorithm: spec_oid_name(meta.sig_alg_oid),
                parameters: norm.1,
                issuing_country: spec_country(meta.country),
                not_before: meta.not_before,
                not_after: meta.not_after,
                key_size_bits: norm.2,
                authority_key_identifier: match spec_find_ext(
                    meta.extensions,
                    "2.5.29.35".spec_bytes(),
                ) {
                    Some(v) => aki_key_id_of(v),
                    None => None,
                },
                private_key_usage_period: match spec_find_ext(
                    meta.extensions,
                    "2.5.29.16".spec_bytes(),
                ) {
                    Some(v) => spec_pkup_of(v),
                    None => None,
                },
            },
        ),
    }
}

/// Resolves one certificate's fields into a masterlist record: `None`
/// exactly when the key is unsupported or, for an elliptic-curve key,
/// its parameters cannot be obtained.
pub fn extract_record(meta: &CertificateMeta, key: &KeyRaw) -> (r: Option<CertificateRecord>)
    ensures
        match r {
            Some(rec) => spec_extract(meta@, key@) == Some(rec@),
            None => spec_extract(meta@, key@) is None,
        },
{
    let norm = match normalize_key(key) {
        Some(n) => n,
        None => {
            return None;
        },
    };
    let issuing_country = match &meta.country {
        Some(c) => ascii_upper(c.as_slice()),
        None => ascii_upper("Unknown".as_bytes()),
    };
    let authority_key_identifier = match find_extension(&meta.extensions, "2.5.29.35".as_bytes()) {
        Some(v) => decode_aki(v),
        None => None,
    };
    let private_key_usage_period = match find_extension(&meta.extensions, "2.5.29.16".as_bytes()) {
        Some(v) => PrivateKeyUsagePeriod::from_der(v.as_slice()),
        None => None,
    };
    Some(
        CertificateRecord {
            public_key: norm.0,
            signature_algorithm: get_oid_description(meta.sig_alg_oid.as_slice()),
            parameters: norm.1,
            issuing_country,
            not_before: meta.not_before,
            not_after: meta.not_after,
            key_size_bits: norm.2,
            authority_key_identifier,
            private_key_usage_period,
        },
    )
}

} // verus!
