//! Decoding of the private-key-usage-period extension: an ASN.1
//! SEQUENCE whose children tagged context-number 0 and 1 carry
//! implicit GeneralizedTime values for the two bounds. Undecodable
//! children degrade to absence; an outer value that is not a
//! well-formed SEQUENCE makes the whole extension absent.
use vstd::prelude::*;
use x509_parser::asn1_rs::GeneralizedTime;
use x509_parser::der_parser::ber::BerObjectContent;
use x509_parser::der_parser::der::parse_der_sequence;
use crate::records::{seq_view, PrivateKeyUsagePeriod};

verus! {

/// One child of a decoded ASN.1 SEQUENCE: its tag number and, for a
/// child the decoder leaves uninterpreted, its raw content bytes.
pub struct RawChild {
    pub tag: u32,
    pub data: Option<Vec<u8>>,
}

/// View of a `RawChild`.
pub ghost struct ChildV {
    pub tag: u32,
    pub data: Option<Seq<u8>>,
}

impl View for RawChild {
    type V = ChildV;

    open spec fn view(&self) -> ChildV {
        ChildV {
            tag: self.tag,
            data: match self.data {
                Some(ref d) => Some(d@),
                None => None,
            },
        }
    }
}

/// What DER decoding makes of the given bytes as a SEQUENCE: `None`
/// when they are not one, otherwise the tag number and uninterpreted
/// content bytes of each child, in order.
pub uninterp spec fn der_children_of(input: Seq<u8>) -> Option<Seq<ChildV>>;

/// What GeneralizedTime decoding plus epoch conversion makes of the
/// given bytes: `None` when either step fails.
pub uninterp spec fn gtime_epoch_of(bytes: Seq<u8>) -> Option<i64>;

/// Relies on der_parser's `parse_der_sequence` (through x509_parser's
/// re-export): decodes the bytes as a DER SEQUENCE and hands back each
/// child's tag number, with the raw content bytes of the children the
/// decoder leaves uninterpreted.
#[verifier::external_body]
fn der_sequence_children(input: &[u8]) -> (r: Option<Vec<RawChild>>)
    ensures
        match r {
            Some(cs) => der_children_of(input@) == Some(seq_view(cs@)),
            None => der_children_of(input@) is None,
        },
{
    match parse_der_sequence(input) {
        Ok((_, obj)) => Some(
            obj.ref_iter()
                .map(|c| RawChild {
                    tag: c.tag().0,
                    data: match &c.content {
                        BerObjectContent::Unknown(any) => Some(any.data.to_vec()),
                        _ => None,
                    },
                })
                .collect(),
        ),
        Err(_) => None,
    }
}

/// Relies on asn1_rs's `GeneralizedTime::from_bytes` and
/// `utc_datetime` (through x509_parser's re-export): decodes the bytes
/// as a GeneralizedTime and converts it to epoch seconds, `None` when
/// either step fails.
#[verifier::external_body]
fn decode_generalized_time(bytes: &Vec<u8>) -> (r: Option<i64>)
    ensures
        r == gtime_epoch_of(bytes@),
{
    match GeneralizedTime::from_bytes(bytes.as_slice()) {
        Ok(t) => match t.utc_datetime() {
            Ok(dt) => Some(dt.unix_timestamp()),
            Err(_) => None,
        },
        Err(_) => None,
    }
}

/// How one SEQUENCE child updates the two bounds: a child tagged 0
/// whose content decodes as a timestamp sets `not_before`, one tagged
/// 1 sets `not_after`; every other child, and every child that fails
/// to decode, leaves the bounds unchanged.
pub open spec fn spec_pkup_step(prev: PrivateKeyUsagePeriod, c: ChildV) -> PrivateKeyUsagePeriod {
    if c.tag == 0 {
        match c.data {
            Some(d) => match gtime_epoch_of(d) {
                Some(t) => PrivateKeyUsagePeriod { not_before: Some(t), not_after: prev.not_after },
                None => prev,
            },
            None => prev,
        }
    } else if c.tag == 1 {
        match c.data {
            Some(d) => match gtime_epoch_of(d) {
                Some(t) => PrivateKeyUsagePeriod { not_before: prev.not_before, not_after: Some(t) },
                None => prev,
            },
            None => prev,
        }
    } else {
        prev
    }
}

/// The two bounds after all children of the SEQUENCE are visited in
/// order, starting from both absent.
pub open spec fn spec_pkup_fold(cs: Seq<ChildV>) -> PrivateKeyUsagePeriod
    decreases cs.len(),
{
    if cs.len() == 0 {
        PrivateKeyUsagePeriod { not_before: None, not_after: None }
    } else {
        spec_pkup_step(spec_pkup_fold(cs.drop_last()), cs.last())
    }
}

/// What decoding the extension value makes of the given bytes: `None`
/// exactly when they are not a well-formed SEQUENCE.
pub open spec fn spec_pkup_of(input: Seq<u8>) -> Option<PrivateKeyUsagePeriod> {
    match der_children_of(input) {
        Some(cs) => Some(spec_pkup_fold(cs)),
        None => None,
    }
}

impl PrivateKeyUsagePeriod {
    /// Decodes the raw value bytes of a private-key-usage-period
    /// extension. `None` exactly when the outer bytes are not a
    /// well-formed SEQUENCE; a present-but-undecodable child is
    /// treated as absent for its field, never as an error.
    pub fn from_der(input: &[u8]) -> (r: Option<PrivateKeyUsagePeriod>)
        ensures
            r == spec_pkup_of(input@),
    {
        let children = match der_sequence_children(input) {
            Some(c) => c,
            None => {
                return None;
            },
        };
        let ghost cvs = seq_view(children@);
        let mut acc = PrivateKeyUsagePeriod { not_before: None, not_after: None };
        let mut i: usize = 0;
        assert(cvs.take(0) =~= Seq::<ChildV>::empty());
        while i < children.len()
            invariant
                i <= children.len(),
                cvs == seq_view(children@),
                der_children_of(input@) == Some(cvs),
                acc == spec_pkup_fold(cvs.take(i as int)),
            decreases children.len() - i,
        {
            let c = &children[i];
            assert(cvs[i as int] == children@[i as int]@);
            if c.tag == 0 {
                if let Some(d) = &c.data {
                    if let Some(t) = decode_generalized_time(d) {
                        acc = PrivateKeyUsagePeriod { not_before: Some(t), not_after: acc.not_after };
                    }
                }
            } else if c.tag == 1 {
                if let Some(d) = &c.data {
                    if let Some(t) = decode_generalized_time(d) {
                        acc = PrivateKeyUsagePeriod { not_before: acc.not_before, not_after: Some(t) };
                    }
                }
            }
            proof {
                assert(cvs.take(i + 1).drop_last() =~= cvs.take(i as int));
                assert(cvs.take(i + 1).last() == cvs[i as int]);
            }
            i += 1;
        }
        assert(cvs.take(children@.len() as int) =~= cvs);
        Some(acc)
    }
}

} // verus!
