//! The batch pipeline: scanning a container's PEM blocks (stopping at
//! the first block that fails to parse), extracting a record per
//! certificate, deduplicating by canonical public key across the run,
//! and handing the accumulated records to the output ordering.
use vstd::prelude::*;
use vstd::slice::slice_subrange;
use std::io::Cursor;
use x509_parser::pem::Pem;
use crate::extract::{cert_key_of, cert_meta_of, decode_cert_key, decode_cert_meta, extract_record, spec_extract};
use crate::bytes::bytes_eq;
use crate::records::{lemma_seq_view_push, seq_view, CertificateRecord, RecordV};
use crate::sort::{has_key, sort_records, sorted_by_country, spec_stable_sort};

verus! {

/// The one recoverable error a certificate container can raise: it
/// yielded no certificate at all.
#[derive(Clone, Copy, Debug, PartialEq, Eq, Structural)]
pub enum MasterlistError {
    NoValidCertificates,
}

impl MasterlistError {
    /// The wording under which the error is reported.
    pub fn message(&self) -> (r: &'static str)
        ensures
            r@ == "No valid certificates found"@,
    {
        "No valid certificates found"
    }
}

/// What PEM scanning makes of the given bytes: `None` when no further
/// block parses, otherwise the first block's decoded contents and the
/// number of bytes consumed up to its end.
pub uninterp spec fn pem_block_of(data: Seq<u8>) -> Option<(Seq<u8>, usize)>;

/// Relies on x509_parser's `Pem::read`: reads the next PEM block from
/// the front of the bytes, handing back the base64-decoded contents
/// and how many bytes were consumed; `None` when no block parses.
#[verifier::external_body]
fn read_pem_block(data: &[u8]) -> (r: Option<(Vec<u8>, usize)>)
    ensures
        match r {
            Some(p) => pem_block_of(data@) == Some((p.0@, p.1)),
            None => pem_block_of(data@) is None,
        },
{
    match Pem::read(Cursor::new(data)) {
        Ok((pem, n)) => Some((pem.contents, n)),
        Err(_) => None,
    }
}

/// The records one decoded PEM block contributes: one record when the
/// bytes decode as a certificate whose key canonicalizes, none
/// otherwise.
pub open spec fn spec_block_records(der: Seq<u8>) -> Seq<RecordV> {
    match cert_meta_of(der) {
        None => Seq::empty(),
        Some(meta) => match cert_key_of(der) {
            None => Seq::empty(),
            Some(key) => match spec_extract(meta, key) {
                None => Seq::empty(),
                Some(rec) => seq![rec],
            },
        },
    }
}

/// The records of a whole container: PEM blocks are taken from the
/// front, each contributing its records, until no further block
/// parses. A block that reports consuming nothing, or more than
/// remains, ends the scan.
pub open spec fn spec_file_records(d: Seq<u8>) -> Seq<RecordV>
    decreases d.len(),
{
    match pem_block_of(d) {
        None => Seq::empty(),
        Some(block) => if 1 <= block.1 <= d.len() {
            spec_block_records(block.0) + spec_file_records(d.skip(block.1 as int))
        } else {
            Seq::empty()
        },
    }
}

/// Parses every certificate of one PEM container, in order, stopping
/// at the first block that fails to parse; `Err` exactly when nothing
/// was extracted.
pub fn parse_certificates(data: &[u8]) -> (r: Result<Vec<CertificateRecord>, MasterlistError>)
    ensures
        match r {
            Ok(v) => seq_view(v@) == spec_file_records(data@) && v@.len() > 0,
            Err(e) => spec_file_records(data@).len() == 0 && e
                == MasterlistError::NoValidCertificates,
        },
{
    let mut results: Vec<CertificateRecord> = Vec::new();
    let mut off: usize = 0;
    proof {
        assert(data@.skip(0) =~= data@);
        assert(seq_view(results@) + spec_file_records(data@) =~= spec_file_records(data@));
    }
    loop
        invariant
            off <= data@.len(),
            spec_file_records(data@) == seq_view(results@) + spec_file_records(
                data@.skip(off as int),
            ),
        ensures
            spec_file_records(data@) == seq_view(results@),
        decreases data@.len() - off,
    {
        let rest = slice_subrange(data, off, data.len());
        assert(rest@ =~= data@.skip(off as int));
        match read_pem_block(rest) {
            None => {
                assert(seq_view(results@) + spec_file_records(data@.skip(off as int))
                    =~= seq_view(results@));
                break;
            },
            Some(block) => {
                let (contents, n) = block;
                if n < 1 || n > rest.len() {
                    assert(seq_view(results@) + spec_file_records(data@.skip(off as int))
                        =~= seq_view(results@));
                    break;
                }
                let ghost before = seq_view(results@);
                if let Some(meta) = decode_cert_meta(&contents) {
                    if let Some(key) = decode_cert_key(&contents) {
                        if let Some(rec) = extract_record(&meta, &key) {
                            proof {
                                lemma_seq_view_push(results@, rec);
                            }
                            results.push(rec);
                            assert(seq_view(results@) =~= before + spec_block_records(
                                contents@,
                            ));
                        }
                    }
                }
                proof {
                    assert(seq_view(results@) =~= before + spec_block_records(contents@));
                    assert(data@.skip(off as int).skip(n as int) =~= data@.skip(off + n));
                    assert(spec_file_records(data@.skip(off as int)) == spec_block_records(
                        contents@,
                    ) + spec_file_records(data@.skip(off + n)));
                    assert(seq_view(results@) + spec_file_records(data@.skip(off + n)) =~= (before
                        + spec_block_records(contents@)) + spec_file_records(
                        data@.skip(off + n),
                    ));
                    assert(before + (spec_block_records(contents@) + spec_file_records(
                        data@.skip(off + n),
                    )) =~= (before + spec_block_records(contents@)) + spec_file_records(
                        data@.skip(off + n),
                    ));
                }
                off = off + n;
            },
        }
    }
    proof {
        assert(spec_file_records(data@) =~= seq_view(results@));
    }
    if results.len() == 0 {
        Err(MasterlistError::NoValidCertificates)
    } else {
        Ok(results)
    }
}

/// Adding a record to deduplicated records: discarded when its key is
/// already present, appended otherwise.
pub open spec fn spec_dedup_add(s: Seq<RecordV>, r: RecordV) -> Seq<RecordV> {
    if has_key(s, r.public_key) {
        s
    } else {
        s.push(r)
    }
}

/// Adding a batch of records in order, each deduplicated against
/// everything before it.
pub open spec fn spec_ingest(s: Seq<RecordV>, rs: Seq<RecordV>) -> Seq<RecordV>
    decreases rs.len(),
{
    if rs.len() == 0 {
        s
    } else {
        spec_dedup_add(spec_ingest(s, rs.drop_last()), rs.last())
    }
}

/// One run's accumulator: the records kept so far, in first-seen
/// order, deduplicated by canonical public key.
pub struct Session {
    records: Vec<CertificateRecord>,
}

impl Session {
    /// The records accumulated so far, in order.
    pub closed spec fn recs(self) -> Seq<RecordV> {
        seq_view(self.records@)
    }

    /// An empty accumulator.
    pub fn new() -> (s: Session)
        ensures
            s.recs() =~= Seq::<RecordV>::empty(),
    {
        Session { records: Vec::new() }
    }

    /// Keeps the record unless its canonical public key was already
    /// seen; first-seen precedence.
    pub fn add_record(&mut self, rec: CertificateRecord) -> (added: bool)
        ensures
            final(self).recs() == spec_dedup_add(old(self).recs(), rec@),
            added == !has_key(old(self).recs(), rec@.public_key),
    {
        let ghost rv = seq_view(self.records@);
        let mut i: usize = 0;
        while i < self.records.len()
            invariant
                i <= self.records@.len(),
                self.records@ == old(self).records@,
                rv == seq_view(self.records@),
                forall|k: int| 0 <= k < i ==> rv[k].public_key != rec@.public_key,
            decreases self.records@.len() - i,
        {
            assert(rv[i as int] == self.records@[i as int]@);
            if bytes_eq(self.records[i].public_key.as_slice(), rec.public_key.as_slice()) {
                assert(has_key(rv, rec@.public_key));
                return false;
            }
            i += 1;
        }
        proof {
            if has_key(rv, rec@.public_key) {
                let w = choose|w: int| 0 <= w < rv.len() && rv[w].public_key == rec@.public_key;
                assert(rv[w].public_key != rec@.public_key);
            }
            lemma_seq_view_push(self.records@, rec);
        }
        self.records.push(rec);
        true
    }

    /// Feeds one container's certificates into the accumulator, in
    /// order, deduplicating against the whole run; `Err` exactly when
    /// the container yields nothing, in which case the accumulator is
    /// unchanged.
    pub fn process_certificate_file(&mut self, data: &[u8]) -> (r: Result<
        (),
        MasterlistError,
    >)
        ensures
            final(self).recs() == spec_ingest(old(self).recs(), spec_file_records(data@)),
            r is Ok <==> spec_file_records(data@).len() > 0,
            r matches Err(e) ==> e == MasterlistError::NoValidCertificates,
    {
        let mut certs = match parse_certificates(data) {
            Ok(c) => c,
            Err(e) => {
                return Err(e);
            },
        };
        let ghost all = seq_view(certs@);
        let ghost start = self.recs();
        let mut i: usize = 0;
        proof {
            assert(seq_view(certs@) =~= all.skip(0));
            assert(all.take(0) =~= Seq::<RecordV>::empty());
        }
        let total: usize = certs.len();
        while certs.len() > 0
            invariant
                total == all.len(),
                i + certs@.len() == all.len(),
                seq_view(certs@) =~= all.skip(i as int),
                self.recs() == spec_ingest(start, all.take(i as int)),
                start == old(self).recs(),
            decreases certs@.len(),
        {
            let ghost old_certs = certs@;
            let rec = certs.remove(0);
            proof {
                assert(rec@ == seq_view(old_certs)[0]);
                assert(rec@ == all[i as int]);
                assert forall|k: int| 0 <= k < certs@.len() implies seq_view(certs@)[k]
                    == all.skip(i + 1)[k] by {
                    assert(certs@[k] == old_certs[k + 1]);
                    assert(seq_view(old_certs)[k + 1] == old_certs[k + 1]@);
                    assert(seq_view(old_certs)[k + 1] == all.skip(i as int)[k + 1]);
                }
                assert(seq_view(certs@) =~= all.skip(i + 1));
                assert(all.take(i + 1).drop_last() =~= all.take(i as int));
                assert(all.take(i + 1).last() == all[i as int]);
            }
            self.add_record(rec);
            i = i + 1;
        }
        proof {
            assert(all.take(i as int) =~= all);
        }
        Ok(())
    }

    /// Closes the run: the accumulated records, stable-sorted
    /// ascending by uppercase issuing country under byte-wise
    /// comparison.
    pub fn finalize(self) -> (r: Vec<CertificateRecord>)
        ensures
            seq_view(r@) == spec_stable_sort(self.recs()),
            sorted_by_country(seq_view(r@)),
    {
        let Session { records } = self;
        sort_records(records)
    }
}

} // verus!
