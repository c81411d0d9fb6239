//! The fixed table from signature-algorithm object identifiers to
//! their names; an identifier outside the table passes through
//! verbatim in dotted-decimal form.
use vstd::prelude::*;
use vstd::slice::slice_to_vec;
use vstd::string::StringSliceAdditionalSpecFns;
use crate::bytes::bytes_eq;

verus! {

/// The name of a signature algorithm, looked up by its dotted-decimal
/// object identifier; an unrecognized identifier is returned verbatim.
pub open spec fn spec_oid_name(oid: Seq<u8>) -> Seq<u8> {
    if oid == "1.2.840.113549.1.1.5".spec_bytes() {
        "sha1-with-rsa-signature".spec_bytes()
    } else if oid == "1.2.840.113549.1.1.11".spec_bytes() {
        "sha256WithRSAEncryption".spec_bytes()
    } else if oid == "1.2.840.113549.1.1.12".spec_bytes() {
        "sha384WithRSAEncryption".spec_bytes()
    } else if oid == "1.2.840.113549.1.1.13".spec_bytes() {
        "sha512WithRSAEncryption".spec_bytes()
    } else if oid == "1.2.840.113549.1.1.10".spec_bytes() {
        "rsassa-pss".spec_bytes()
    } else if oid == "1.2.840.10045.4.1".spec_bytes() {
        "ecdsa-with-SHA1".spec_bytes()
    } else if oid == "1.2.840.10045.4.3.2".spec_bytes() {
        "ecdsa-with-SHA256".spec_bytes()
    } else if oid == "1.2.840.10045.4.3.3".spec_bytes() {
        "ecdsa-with-SHA384".spec_bytes()
    } else if oid == "1.2.840.10045.4.3.4".spec_bytes() {
        "ecdsa-with-SHA512".spec_bytes()
    } else {
        oid
    }
}

/// Looks a signature-algorithm object identifier up in the fixed
/// table; an unrecognized identifier passes through verbatim.
pub fn get_oid_description(oid: &[u8]) -> (r: Vec<u8>)
    ensures
        r@ == spec_oid_name(oid@),
{
    if bytes_eq(oid, "1.2.840.113549.1.1.5".as_bytes()) {
        slice_to_vec("sha1-with-rsa-signature".as_bytes())
    } else if bytes_eq(oid, "1.2.840.113549.1.1.11".as_bytes()) {
        slice_to_vec("sha256WithRSAEncryption".as_bytes())
    } else if bytes_eq(oid, "1.2.840.113549.1.1.12".as_bytes()) {
        slice_to_vec("sha384WithRSAEncryption".as_bytes())
    } else if bytes_eq(oid, "1.2.840.113549.1.1.13".as_bytes()) {
        slice_to_vec("sha512WithRSAEncryption".as_bytes())
    } else if bytes_eq(oid, "1.2.840.113549.1.1.10".as_bytes()) {
        slice_to_vec("rsassa-pss".as_bytes())
    } else if bytes_eq(oid, "1.2.840.10045.4.1".as_bytes()) {
        slice_to_vec("ecdsa-with-SHA1".as_bytes())
    } else if bytes_eq(oid, "1.2.840.10045.4.3.2".as_bytes()) {
        slice_to_vec("ecdsa-with-SHA256".as_bytes())
    } else if bytes_eq(oid, "1.2.840.10045.4.3.3".as_bytes()) {
        slice_to_vec("ecdsa-with-SHA384".as_bytes())
    } else if bytes_eq(oid, "1.2.840.10045.4.3.4".as_bytes()) {
        slice_to_vec("ecdsa-with-SHA512".as_bytes())
    } else {
        slice_to_vec(oid)
    }
}

} // verus!
