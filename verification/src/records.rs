//! The data model: the fields read out of one decoded certificate, the
//! classified public key, and the record that the masterlist keeps.
use vstd::prelude::*;

verus! {

/// The two optional timestamps of a private-key-usage-period
/// extension, as epoch seconds.
#[derive(Clone, Copy, Debug, PartialEq, Eq)]
pub struct PrivateKeyUsagePeriod {
    pub not_before: Option<i64>,
    pub not_after: Option<i64>,
}

/// One extension of a certificate: its object identifier in dotted
/// decimal and its raw value bytes.
#[derive(Clone, Debug)]
pub struct RawExtension {
    pub oid: Vec<u8>,
    pub value: Vec<u8>,
}

/// View of a `RawExtension`.
pub ghost struct ExtV {
    pub oid: Seq<u8>,
    pub value: Seq<u8>,
}

impl View for RawExtension {
    type V = ExtV;

    open spec fn view(&self) -> ExtV {
        ExtV { oid: self.oid@, value: self.value@ }
    }
}

/// The plain fields of one decoded certificate that the extractor
/// reads: first country attribute of the issuer (if any, as bytes),
/// validity bounds as epoch seconds, the signature-algorithm object
/// identifier in dotted decimal, and the extension list.
#[derive(Clone, Debug)]
pub struct CertificateMeta {
    pub country: Option<Vec<u8>>,
    pub not_before: i64,
    pub not_after: i64,
    pub sig_alg_oid: Vec<u8>,
    pub extensions: Vec<RawExtension>,
}

/// View of a `CertificateMeta`.
pub ghost struct MetaV {
    pub country: Option<Seq<u8>>,
    pub not_before: i64,
    pub not_after: i64,
    pub sig_alg_oid: Seq<u8>,
    pub extensions: Seq<ExtV>,
}

impl View for CertificateMeta {
    type V = MetaV;

    open spec fn view(&self) -> MetaV {
        MetaV {
            country: match self.country {
                Some(ref c) => Some(c@),
                None => None,
            },
            not_before: self.not_before,
            not_after: self.not_after,
            sig_alg_oid: self.sig_alg_oid@,
            extensions: seq_view(self.extensions@),
        }
    }
}

/// A certificate's public key, classified by algorithm family. The
/// byte strings are exactly as the certificate carries them; the key
/// size is the bit length the decoder reports.
#[derive(Clone, Debug)]
pub enum KeyRaw {
    Rsa { modulus: Vec<u8>, exponent: Vec<u8>, key_size: usize },
    Ec { point: Vec<u8>, params: Option<Vec<u8>>, key_size: usize },
    Unsupported,
}

/// View of a `KeyRaw`.
pub ghost enum KeyV {
    Rsa { modulus: Seq<u8>, exponent: Seq<u8>, key_size: usize },
    Ec { point: Seq<u8>, params: Option<Seq<u8>>, key_size: usize },
    Unsupported,
}

impl View for KeyRaw {
    type V = KeyV;

    open spec fn view(&self) -> KeyV {
        match self {
            KeyRaw::Rsa { modulus, exponent, key_size } => KeyV::Rsa {
                modulus: modulus@,
                exponent: exponent@,
                key_size: *key_size,
            },
            KeyRaw::Ec { point, params, key_size } => KeyV::Ec {
                point: point@,
                params: match params {
                    Some(p) => Some(p@),
                    None => None,
                },
                key_size: *key_size,
            },
            KeyRaw::Unsupported => KeyV::Unsupported,
        }
    }
}

/// One masterlist entry: the canonical public key (the deduplication
/// identity), the signature-algorithm name, the canonical parameter
/// bytes, the uppercase issuing country, the validity bounds, the key
/// size in bits, and the two optional extensions.
#[derive(Clone, Debug, PartialEq, Eq)]
pub struct CertificateRecord {
    pub public_key: Vec<u8>,
    pub signature_algorithm: Vec<u8>,
    pub parameters: Vec<u8>,
    pub issuing_country: Vec<u8>,
    pub not_before: i64,
    pub not_after: i64,
    pub key_size_bits: usize,
    pub authority_key_identifier: Option<Vec<u8>>,
    pub private_key_usage_period: Option<PrivateKeyUsagePeriod>,
}

/// View of a `CertificateRecord`.
pub ghost struct RecordV {
    pub public_key: Seq<u8>,
    pub signature_algorithm: Seq<u8>,
    pub parameters: Seq<u8>,
    pub issuing_country: Seq<u8>,
    pub not_before: i64,
    pub not_after: i64,
    pub key_size_bits: usize,
    pub authority_key_identifier: Option<Seq<u8>>,
    pub private_key_usage_period: Option<PrivateKeyUsagePeriod>,
}

impl View for CertificateRecord {
    type V = RecordV;

    open spec fn view(&self) -> RecordV {
        RecordV {
            public_key: self.public_key@,
            signature_algorithm: self.signature_algorithm@,
            parameters: self.parameters@,
            issuing_country: self.issuing_country@,
            not_before: self.not_before,
            not_after: self.not_after,
            key_size_bits: self.key_size_bits,
            authority_key_identifier: match self.authority_key_identifier {
                Some(ref v) => Some(v@),
                None => None,
            },
            private_key_usage_period: self.private_key_usage_period,
        }
    }
}

/// The sequence of views of a sequence of viewable values.
pub open spec fn seq_view<T: View>(s: Seq<T>) -> Seq<T::V> {
    s.map_values(|t: T| t@)
}

/// Pushing a value and then viewing is viewing and then pushing.
pub proof fn lemma_seq_view_push<T: View>(s: Seq<T>, t: T)
    ensures
        seq_view(s.push(t)) =~= seq_view(s).push(t@),
{
}

/// Inserting a value and then viewing is viewing and then inserting.
pub proof fn lemma_seq_view_insert<T: View>(s: Seq<T>, i: int, t: T)
    requires
        0 <= i <= s.len(),
    ensures
        seq_view(s.insert(i, t)) =~= seq_view(s).insert(i, t@),
{
}

} // verus!
