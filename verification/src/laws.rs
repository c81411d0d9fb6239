//! The laws the library states of itself: determinism of a whole run,
//! key uniqueness through deduplication, and the canonicalization
//! equalities for RSA and elliptic-curve keys. The ordering laws
//! stand beside the sort itself.
use vstd::prelude::*;
use vstd::string::StringSliceAdditionalSpecFns;
use crate::extract::{spec_extract, spec_find_ext, spec_normalize_key, spec_strip_zeros};
use crate::pipeline::{spec_dedup_add, spec_file_records, spec_ingest};
use crate::records::{ExtV, KeyV, MetaV, RecordV};
use crate::sort::{
    has_key, lemma_sort_sorted, lemma_sort_unique, sorted_by_country, spec_stable_sort,
    unique_keys,
};

verus! {

/// RSA canonicalization: a modulus carrying any number of leading
/// zero bytes canonicalizes exactly as the modulus without them.
pub proof fn lemma_rsa_canonical(
    pad: Seq<u8>,
    m: Seq<u8>,
    e: Seq<u8>,
    ks: usize,
)
    requires
        forall|i: int| 0 <= i < pad.len() ==> pad[i] == 0,
    ensures
        spec_normalize_key(KeyV::Rsa { modulus: pad + m, exponent: e, key_size: ks })
            == spec_normalize_key(KeyV::Rsa { modulus: m, exponent: e, key_size: ks }),
{
    lemma_strip_zeros_pad(pad, m);
}

proof fn lemma_strip_zeros_pad(pad: Seq<u8>, m: Seq<u8>)
    requires
        forall|i: int| 0 <= i < pad.len() ==> pad[i] == 0,
    ensures
        spec_strip_zeros(pad + m) == spec_strip_zeros(m),
    decreases pad.len(),
{
    if pad.len() == 0 {
        assert(pad + m =~= m);
    } else {
        assert((pad + m)[0] == 0);
        assert((pad + m).skip(1) =~= pad.skip(1) + m);
        lemma_strip_zeros_pad(pad.skip(1), m);
    }
}

/// Elliptic-curve canonicalization: a stored point carrying the
/// one-byte uncompressed prefix canonicalizes to the bytes behind it.
pub proof fn lemma_ec_canonical(x: Seq<u8>, ps: Seq<u8>, ks: usize)
    ensures
        spec_normalize_key(KeyV::Ec { point: seq![4u8] + x, params: Some(ps), key_size: ks })
            == Some((x, ps, ks)),
{
    assert((seq![4u8] + x).len() >= 1);
    assert((seq![4u8] + x).skip(1) =~= x);
}

proof fn lemma_find_ext_absent(exts: Seq<ExtV>, oid: Seq<u8>)
    requires
        forall|i: int| 0 <= i < exts.len() ==> exts[i].oid != oid,
    ensures
        spec_find_ext(exts, oid) is None,
    decreases exts.len(),
{
    if exts.len() > 0 {
        assert(exts[0].oid != oid);
        assert forall|i: int| 0 <= i < exts.skip(1).len() implies exts.skip(1)[i].oid != oid by {
            assert(exts.skip(1)[i] == exts[i + 1]);
        }
        lemma_find_ext_absent(exts.skip(1), oid);
    }
}

/// Extension absence tolerance: with no authority-key-identifier and
/// no private-key-usage-period extension present, both record fields
/// are absent, and whether a record is produced at all depends on the
/// key alone — absence is never an error.
pub proof fn lemma_extension_absence(meta: MetaV, key: KeyV)
    requires
        forall|i: int|
            0 <= i < meta.extensions.len() ==> meta.extensions[i].oid
                != "2.5.29.35".spec_bytes(),
        forall|i: int|
            0 <= i < meta.extensions.len() ==> meta.extensions[i].oid
                != "2.5.29.16".spec_bytes(),
    ensures
        spec_extract(meta, key) is Some <==> spec_normalize_key(key) is Some,
        spec_extract(meta, key) matches Some(r) ==> r.authority_key_identifier is None
            && r.private_key_usage_period is None,
{
    lemma_find_ext_absent(meta.extensions, "2.5.29.35".spec_bytes());
    lemma_find_ext_absent(meta.extensions, "2.5.29.16".spec_bytes());
}

/// Deduplicated addition keeps keys unique.
pub proof fn lemma_dedup_add_unique(s: Seq<RecordV>, r: RecordV)
    requires
        unique_keys(s),
    ensures
        unique_keys(spec_dedup_add(s, r)),
{
    if !has_key(s, r.public_key) {
        let out = s.push(r);
        assert forall|i: int, j: int| 0 <= i < j < out.len() implies out[i].public_key
            != out[j].public_key by {
            if j == s.len() {
                assert(out[i] == s[i]);
                if s[i].public_key == r.public_key {
                    assert(has_key(s, r.public_key));
                }
            }
        }
    }
}

/// Ingesting any batch into deduplicated records keeps keys unique:
/// of any two certificates with equal canonical public keys, exactly
/// the first encountered is kept.
pub proof fn lemma_ingest_unique(s: Seq<RecordV>, rs: Seq<RecordV>)
    requires
        unique_keys(s),
    ensures
        unique_keys(spec_ingest(s, rs)),
    decreases rs.len(),
{
    if rs.len() > 0 {
        lemma_ingest_unique(s, rs.drop_last());
        lemma_dedup_add_unique(spec_ingest(s, rs.drop_last()), rs.last());
    }
}

/// The records a whole run accumulates from its containers, in order,
/// each container's records deduplicated against everything before.
pub open spec fn spec_batch_records(files: Seq<Seq<u8>>) -> Seq<RecordV>
    decreases files.len(),
{
    if files.len() == 0 {
        Seq::empty()
    } else {
        spec_ingest(spec_batch_records(files.drop_last()), spec_file_records(files.last()))
    }
}

/// The output of a whole run: the accumulated records, stable-sorted
/// by issuing country.
pub open spec fn spec_run(files: Seq<Seq<u8>>) -> Seq<RecordV> {
    spec_stable_sort(spec_batch_records(files))
}

/// Idempotence: a run is a function of its input bytes alone, so
/// repeated runs on unchanged input produce identical records.
pub proof fn lemma_run_deterministic(a: Seq<Seq<u8>>, b: Seq<Seq<u8>>)
    requires
        a == b,
    ensures
        spec_run(a) == spec_run(b),
{
}

/// A whole run's records carry pairwise distinct canonical keys.
pub proof fn lemma_run_unique(files: Seq<Seq<u8>>)
    ensures
        unique_keys(spec_run(files)),
    decreases files.len(),
{
    lemma_batch_unique(files);
    lemma_sort_unique(spec_batch_records(files));
}

proof fn lemma_batch_unique(files: Seq<Seq<u8>>)
    ensures
        unique_keys(spec_batch_records(files)),
    decreases files.len(),
{
    if files.len() > 0 {
        lemma_batch_unique(files.drop_last());
        lemma_ingest_unique(
            spec_batch_records(files.drop_last()),
            spec_file_records(files.last()),
        );
    }
}

/// A whole run's records stand in non-decreasing country order.
pub proof fn lemma_run_sorted(files: Seq<Seq<u8>>)
    ensures
        sorted_by_country(spec_run(files)),
{
    lemma_sort_sorted(spec_batch_records(files));
}

} // verus!
