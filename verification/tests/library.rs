//! Unit tests of the byte utilities, the OID table, key
//! canonicalization, field extraction, deduplication and ordering.
use masterlist_interpreter::bytes::{ascii_upper, bytes_eq, bytes_le, to_hex};
use masterlist_interpreter::oids::get_oid_description;
use masterlist_interpreter::extract::{extract_record, normalize_key};
use masterlist_interpreter::pipeline::{MasterlistError, Session};
use masterlist_interpreter::records::{
    CertificateMeta, CertificateRecord, KeyRaw, PrivateKeyUsagePeriod, RawExtension,
};
use masterlist_interpreter::sort::sort_records;

fn meta(country: Option<&str>, extensions: Vec<RawExtension>) -> CertificateMeta {
    CertificateMeta {
        country: country.map(|c| c.as_bytes().to_vec()),
        not_before: 1000,
        not_after: 2000,
        sig_alg_oid: b"1.2.840.113549.1.1.11".to_vec(),
        extensions,
    }
}

fn rsa_key(modulus: &[u8]) -> KeyRaw {
    KeyRaw::Rsa { modulus: modulus.to_vec(), exponent: vec![1, 0, 1], key_size: 2048 }
}

fn record(country: &str, key: &[u8], sig: &str) -> CertificateRecord {
    CertificateRecord {
        public_key: key.to_vec(),
        signature_algorithm: sig.as_bytes().to_vec(),
        parameters: vec![1, 0, 1],
        issuing_country: country.as_bytes().to_vec(),
        not_before: 10,
        not_after: 20,
        key_size_bits: 2048,
        authority_key_identifier: None,
        private_key_usage_period: None,
    }
}

#[test]
fn bytes_eq_basic() {
    assert!(bytes_eq(b"abc", b"abc"));
    assert!(!bytes_eq(b"abc", b"abd"));
    assert!(!bytes_eq(b"abc", b"ab"));
    assert!(bytes_eq(b"", b""));
}

#[test]
fn bytes_le_orderings() {
    assert!(bytes_le(&b"".to_vec(), &b"a".to_vec()));
    assert!(bytes_le(&b"a".to_vec(), &b"a".to_vec()));
    assert!(bytes_le(&b"ab".to_vec(), &b"b".to_vec()));
    assert!(!bytes_le(&b"b".to_vec(), &b"ab".to_vec()));
    assert!(bytes_le(&b"ab".to_vec(), &b"abc".to_vec()));
    assert!(!bytes_le(&b"abc".to_vec(), &b"ab".to_vec()));
}

#[test]
fn ascii_upper_cases() {
    assert_eq!(ascii_upper(b"Unknown"), b"UNKNOWN".to_vec());
    assert_eq!(ascii_upper(b"de"), b"DE".to_vec());
    assert_eq!(ascii_upper(b"A1-z"), b"A1-Z".to_vec());
    assert_eq!(ascii_upper(b""), b"".to_vec());
}

#[test]
fn hex_rendering() {
    assert_eq!(to_hex(&[0x00, 0x1f, 0xab]), b"001fab".to_vec());
    assert_eq!(to_hex(&[]), b"".to_vec());
    assert_eq!(to_hex(&[0xff]), b"ff".to_vec());
}

#[test]
fn oid_table_known_entries() {
    let cases: Vec<(&str, &str)> = vec![
        ("1.2.840.113549.1.1.5", "sha1-with-rsa-signature"),
        ("1.2.840.113549.1.1.11", "sha256WithRSAEncryption"),
        ("1.2.840.113549.1.1.12", "sha384WithRSAEncryption"),
        ("1.2.840.113549.1.1.13", "sha512WithRSAEncryption"),
        ("1.2.840.113549.1.1.10", "rsassa-pss"),
        ("1.2.840.10045.4.1", "ecdsa-with-SHA1"),
        ("1.2.840.10045.4.3.2", "ecdsa-with-SHA256"),
        ("1.2.840.10045.4.3.3", "ecdsa-with-SHA384"),
        ("1.2.840.10045.4.3.4", "ecdsa-with-SHA512"),
    ];
    for (oid, name) in cases {
        assert_eq!(get_oid_description(oid.as_bytes()), name.as_bytes().to_vec());
    }
}

#[test]
fn oid_table_passthrough() {
    assert_eq!(get_oid_description(b"1.2.3.4"), b"1.2.3.4".to_vec());
    assert_eq!(get_oid_description(b""), b"".to_vec());
}

#[test]
fn rsa_modulus_padding_stripped() {
    let with_pad = rsa_key(&[0x00, 0x00, 0x80, 0x01]);
    let without_pad = rsa_key(&[0x80, 0x01]);
    let a = normalize_key(&with_pad).unwrap();
    let b = normalize_key(&without_pad).unwrap();
    assert_eq!(a.0, vec![0x80, 0x01]);
    assert_eq!(a.0, b.0);
    assert_eq!(a.1, vec![1, 0, 1]);
    assert_eq!(a.2, 2048);
}

#[test]
fn rsa_all_zero_modulus_strips_to_empty() {
    let k = rsa_key(&[0x00, 0x00]);
    let n = normalize_key(&k).unwrap();
    assert_eq!(n.0, Vec::<u8>::new());
}

#[test]
fn ec_point_prefix_stripped() {
    let k = KeyRaw::Ec {
        point: vec![0x04, 0x09, 0x0a],
        params: Some(vec![0x06, 0x07]),
        key_size: 256,
    };
    let n = normalize_key(&k).unwrap();
    assert_eq!(n.0, vec![0x09, 0x0a]);
    assert_eq!(n.1, vec![0x06, 0x07]);
    assert_eq!(n.2, 256);
}

#[test]
fn ec_without_params_yields_nothing() {
    let k = KeyRaw::Ec { point: vec![0x04, 0x09], params: None, key_size: 256 };
    assert!(normalize_key(&k).is_none());
    let m = meta(Some("de"), vec![]);
    assert!(extract_record(&m, &k).is_none());
}

#[test]
fn unsupported_key_yields_nothing() {
    assert!(normalize_key(&KeyRaw::Unsupported).is_none());
    let m = meta(Some("de"), vec![]);
    assert!(extract_record(&m, &KeyRaw::Unsupported).is_none());
}

#[test]
fn extract_missing_extensions_are_absent_fields() {
    let m = meta(Some("de"), vec![]);
    let r = extract_record(&m, &rsa_key(&[0x80, 0x01])).unwrap();
    assert!(r.authority_key_identifier.is_none());
    assert!(r.private_key_usage_period.is_none());
    assert_eq!(r.issuing_country, b"DE".to_vec());
    assert_eq!(r.signature_algorithm, b"sha256WithRSAEncryption".to_vec());
    assert_eq!(r.not_before, 1000);
    assert_eq!(r.not_after, 2000);
}

#[test]
fn extract_missing_country_is_unknown() {
    let m = meta(None, vec![]);
    let r = extract_record(&m, &rsa_key(&[0x80, 0x01])).unwrap();
    assert_eq!(r.issuing_country, b"UNKNOWN".to_vec());
}

#[test]
fn extract_authority_key_identifier() {
    let key_id: Vec<u8> = (0u8..20u8).collect();
    // SEQUENCE { [0] IMPLICIT KeyIdentifier }
    let mut aki_value: Vec<u8> = vec![0x30, 0x16, 0x80, 0x14];
    aki_value.extend_from_slice(&key_id);
    let exts = vec![RawExtension { oid: b"2.5.29.35".to_vec(), value: aki_value }];
    let m = meta(Some("de"), exts);
    let r = extract_record(&m, &rsa_key(&[0x80, 0x01])).unwrap();
    assert_eq!(r.authority_key_identifier, Some(key_id));
}

#[test]
fn extract_malformed_authority_key_identifier_is_absent() {
    let exts = vec![RawExtension { oid: b"2.5.29.35".to_vec(), value: vec![0xff, 0x00] }];
    let m = meta(Some("de"), exts);
    let r = extract_record(&m, &rsa_key(&[0x80, 0x01])).unwrap();
    assert!(r.authority_key_identifier.is_none());
}

#[test]
fn pkup_both_bounds() {
    // SEQUENCE { [0] "20220101000000Z", [1] "20230101000000Z" }
    let mut v: Vec<u8> = vec![0x30, 0x22, 0x80, 0x0f];
    v.extend_from_slice(b"20220101000000Z");
    v.push(0x81);
    v.push(0x0f);
    v.extend_from_slice(b"20230101000000Z");
    let p = PrivateKeyUsagePeriod::from_der(&v).unwrap();
    assert_eq!(p.not_before, Some(1640995200));
    assert_eq!(p.not_after, Some(1672531200));
}

#[test]
fn pkup_single_bound_and_ignored_tag() {
    // SEQUENCE { [1] "20230101000000Z", [7] arbitrary }
    let mut v: Vec<u8> = vec![0x30, 0x15, 0x81, 0x0f];
    v.extend_from_slice(b"20230101000000Z");
    v.push(0x87);
    v.push(0x02);
    v.extend_from_slice(&[0xaa, 0xbb]);
    let p = PrivateKeyUsagePeriod::from_der(&v).unwrap();
    assert_eq!(p.not_before, None);
    assert_eq!(p.not_after, Some(1672531200));
}

#[test]
fn pkup_undecodable_child_degrades_to_absent() {
    // SEQUENCE { [0] "not a timestamp!" }
    let mut v: Vec<u8> = vec![0x30, 0x12, 0x80, 0x10];
    v.extend_from_slice(b"not a timestamp!");
    let p = PrivateKeyUsagePeriod::from_der(&v).unwrap();
    assert_eq!(p.not_before, None);
    assert_eq!(p.not_after, None);
}

#[test]
fn pkup_malformed_outer_is_none() {
    assert!(PrivateKeyUsagePeriod::from_der(&[0xff, 0x01, 0x02]).is_none());
    assert!(PrivateKeyUsagePeriod::from_der(&[]).is_none());
}

#[test]
fn pkup_through_extract() {
    let mut v: Vec<u8> = vec![0x30, 0x11, 0x80, 0x0f];
    v.extend_from_slice(b"20220101000000Z");
    let exts = vec![RawExtension { oid: b"2.5.29.16".to_vec(), value: v }];
    let m = meta(Some("de"), exts);
    let r = extract_record(&m, &rsa_key(&[0x80, 0x01])).unwrap();
    let p = r.private_key_usage_period.unwrap();
    assert_eq!(p.not_before, Some(1640995200));
    assert_eq!(p.not_after, None);
}

#[test]
fn session_deduplicates_by_key() {
    let mut s = Session::new();
    assert!(s.add_record(record("DE", b"k1", "first")));
    assert!(!s.add_record(record("FR", b"k1", "second")));
    assert!(s.add_record(record("FR", b"k2", "third")));
    let out = s.finalize();
    assert_eq!(out.len(), 2);
    // the first-seen record for k1 survives
    let k1: Vec<&CertificateRecord> =
        out.iter().filter(|r| r.public_key == b"k1".to_vec()).collect();
    assert_eq!(k1.len(), 1);
    assert_eq!(k1[0].signature_algorithm, b"first".to_vec());
}

#[test]
fn sort_orders_by_country_bytes() {
    let v = vec![
        record("FR", b"a", "x"),
        record("DE", b"b", "x"),
        record("AT", b"c", "x"),
    ];
    let out = sort_records(v);
    let countries: Vec<Vec<u8>> = out.iter().map(|r| r.issuing_country.clone()).collect();
    assert_eq!(countries, vec![b"AT".to_vec(), b"DE".to_vec(), b"FR".to_vec()]);
}

#[test]
fn sort_is_stable_for_equal_countries() {
    let v = vec![
        record("DE", b"k1", "first"),
        record("AT", b"k2", "x"),
        record("DE", b"k3", "second"),
        record("DE", b"k4", "third"),
    ];
    let out = sort_records(v);
    assert_eq!(out[0].public_key, b"k2".to_vec());
    assert_eq!(out[1].signature_algorithm, b"first".to_vec());
    assert_eq!(out[2].signature_algorithm, b"second".to_vec());
    assert_eq!(out[3].signature_algorithm, b"third".to_vec());
}

#[test]
fn error_message_wording() {
    assert_eq!(MasterlistError::NoValidCertificates.message(), "No valid certificates found");
}
