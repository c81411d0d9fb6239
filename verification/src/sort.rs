//! The output assembler's ordering: a stable sort of the accumulated
//! records, ascending by issuing country under byte-wise comparison.
//! The sort is specified exactly as repeated ordered insertion, and
//! the laws proved of it say that the output is sorted, that records
//! of each country keep their first-seen order, and that key
//! uniqueness survives it.
use vstd::prelude::*;
use crate::bytes::{bytes_le, lemma_lex_le_refl, lemma_lex_le_total, lemma_lex_le_trans, lex_le};
use crate::records::{lemma_seq_view_insert, seq_view, CertificateRecord, RecordV};

verus! {

/// Records sharing a canonical public key never both appear.
pub open spec fn unique_keys(s: Seq<RecordV>) -> bool {
    forall|i: int, j: int|
        0 <= i < j < s.len() ==> s[i].public_key != s[j].public_key
}

/// Some record carries the given canonical public key.
pub open spec fn has_key(s: Seq<RecordV>, k: Seq<u8>) -> bool {
    exists|i: int| 0 <= i < s.len() && s[i].public_key == k
}

/// The records stand in non-decreasing order of issuing country.
pub open spec fn sorted_by_country(s: Seq<RecordV>) -> bool {
    forall|i: int, j: int|
        0 <= i <= j < s.len() ==> lex_le(s[i].issuing_country, s[j].issuing_country)
}

/// Keeps the records of one country.
pub open spec fn by_country(c: Seq<u8>) -> spec_fn(RecordV) -> bool {
    |r: RecordV| r.issuing_country == c
}

/// The record inserted after every record whose country does not
/// exceed its own, and before all the rest.
pub open spec fn spec_insert_sorted(s: Seq<RecordV>, x: RecordV) -> Seq<RecordV>
    decreases s.len(),
{
    if s.len() == 0 {
        seq![x]
    } else if lex_le(s.last().issuing_country, x.issuing_country) {
        s.push(x)
    } else {
        spec_insert_sorted(s.drop_last(), x).push(s.last())
    }
}

/// The records after the stable sort: each in turn inserted behind its
/// country's last previously placed record.
pub open spec fn spec_stable_sort(s: Seq<RecordV>) -> Seq<RecordV>
    decreases s.len(),
{
    if s.len() == 0 {
        Seq::empty()
    } else {
        spec_insert_sorted(spec_stable_sort(s.drop_last()), s.last())
    }
}

proof fn lemma_insert_sorted_len(s: Seq<RecordV>, x: RecordV)
    ensures
        spec_insert_sorted(s, x).len() == s.len() + 1,
    decreases s.len(),
{
    if s.len() > 0 && !lex_le(s.last().issuing_country, x.issuing_country) {
        lemma_insert_sorted_len(s.drop_last(), x);
    }
}

/// Where everything from position `j` on has a strictly greater
/// country and position `j - 1` (if any) does not, ordered insertion
/// is insertion at `j`.
proof fn lemma_insert_sorted_at(s: Seq<RecordV>, x: RecordV, j: int)
    requires
        0 <= j <= s.len(),
        forall|k: int| j <= k < s.len() ==> !lex_le(s[k].issuing_country, x.issuing_country),
        j > 0 ==> lex_le(s[j - 1].issuing_country, x.issuing_country),
    ensures
        spec_insert_sorted(s, x) == s.insert(j, x),
    decreases s.len(),
{
    if s.len() == 0 {
        assert(spec_insert_sorted(s, x) =~= s.insert(0, x));
    } else if j == s.len() {
        assert(lex_le(s.last().issuing_country, x.issuing_country));
        assert(s.push(x) =~= s.insert(j, x));
    } else {
        assert(!lex_le(s.last().issuing_country, x.issuing_country));
        lemma_insert_sorted_at(s.drop_last(), x, j);
        assert(spec_insert_sorted(s.drop_last(), x).push(s.last()) =~= s.drop_last().insert(
            j,
            x,
        ).push(s.last()));
        assert(s.drop_last().insert(j, x).push(s.last()) =~= s.insert(j, x));
    }
}

/// Ordered insertion keeps the order.
proof fn lemma_insert_sorted_keeps_sorted(s: Seq<RecordV>, x: RecordV)
    requires
        sorted_by_country(s),
    ensures
        sorted_by_country(spec_insert_sorted(s, x)),
    decreases s.len(),
{
    lemma_lex_le_refl(x.issuing_country);
    if s.len() == 0 {
    } else if lex_le(s.last().issuing_country, x.issuing_country) {
        let r = s.push(x);
        assert forall|i: int, j: int| 0 <= i <= j < r.len() implies lex_le(
            r[i].issuing_country,
            r[j].issuing_country,
        ) by {
            if j == s.len() && i < j {
                lemma_lex_le_trans(
                    r[i].issuing_country,
                    s.last().issuing_country,
                    x.issuing_country,
                );
            }
        }
    } else {
        assert(sorted_by_country(s.drop_last()));
        lemma_insert_sorted_keeps_sorted(s.drop_last(), x);
        lemma_insert_sorted_len(s.drop_last(), x);
        let r0 = spec_insert_sorted(s.drop_last(), x);
        let r = r0.push(s.last());
        lemma_lex_le_total(x.issuing_country, s.last().issuing_country);
        assert forall|i: int, j: int| 0 <= i <= j < r.len() implies lex_le(
            r[i].issuing_country,
            r[j].issuing_country,
        ) by {
            if j == r0.len() && i < j {
                lemma_insert_sorted_member(s.drop_last(), x, i);
                if r0[i] == x {
                    assert(lex_le(x.issuing_country, s.last().issuing_country));
                } else {
                    let m = choose|m: int|
                        0 <= m < s.drop_last().len() && s.drop_last()[m] == r0[i];
                    assert(lex_le(s[m].issuing_country, s.last().issuing_country));
                }
            }
        }
    }
}

/// Every record of the inserted sequence is the new record or one of
/// the old ones.
proof fn lemma_insert_sorted_member(s: Seq<RecordV>, x: RecordV, i: int)
    requires
        0 <= i < spec_insert_sorted(s, x).len(),
    ensures
        spec_insert_sorted(s, x)[i] == x || exists|m: int|
            0 <= m < s.len() && s[m] == spec_insert_sorted(s, x)[i],
    decreases s.len(),
{
    lemma_insert_sorted_len(s, x);
    if s.len() == 0 {
    } else if lex_le(s.last().issuing_country, x.issuing_country) {
    } else {
        let r0 = spec_insert_sorted(s.drop_last(), x);
        lemma_insert_sorted_len(s.drop_last(), x);
        if i < r0.len() {
            lemma_insert_sorted_member(s.drop_last(), x, i);
            if r0[i] != x {
                let m = choose|m: int| 0 <= m < s.drop_last().len() && s.drop_last()[m] == r0[i];
                assert(s[m] == spec_insert_sorted(s, x)[i]);
            }
        } else {
            assert(spec_insert_sorted(s, x)[i] == s.last());
            assert(s[s.len() - 1] == s.last());
        }
    }
}

/// Ordered insertion adds exactly the new record's key.
proof fn lemma_insert_sorted_has_key(s: Seq<RecordV>, x: RecordV, k: Seq<u8>)
    ensures
        has_key(spec_insert_sorted(s, x), k) == (has_key(s, k) || x.public_key == k),
    decreases s.len(),
{
    lemma_insert_sorted_len(s, x);
    let r = spec_insert_sorted(s, x);
    if s.len() == 0 {
        assert(r[0] == x);
        assert(has_key(r, k) == (has_key(s, k) || x.public_key == k));
    } else if lex_le(s.last().issuing_country, x.issuing_country) {
        assert(r[s.len() as int] == x);
        assert forall|i: int| 0 <= i < s.len() implies r[i] == s[i] by {}
        if has_key(s, k) {
            let i = choose|i: int| 0 <= i < s.len() && s[i].public_key == k;
            assert(r[i].public_key == k);
        }
        if has_key(r, k) && x.public_key != k {
            let i = choose|i: int| 0 <= i < r.len() && r[i].public_key == k;
            assert(i < s.len());
            assert(s[i].public_key == k);
        }
    } else {
        let r0 = spec_insert_sorted(s.drop_last(), x);
        lemma_insert_sorted_len(s.drop_last(), x);
        lemma_insert_sorted_has_key(s.drop_last(), x, k);
        assert(r == r0.push(s.last()));
        assert(has_key(r, k) == (has_key(r0, k) || s.last().public_key == k)) by {
            if has_key(r0, k) {
                let i = choose|i: int| 0 <= i < r0.len() && r0[i].public_key == k;
                assert(r[i].public_key == k);
            }
            if s.last().public_key == k {
                assert(r[r.len() - 1].public_key == k);
            }
            if has_key(r, k) {
                let i = choose|i: int| 0 <= i < r.len() && r[i].public_key == k;
                if i < r0.len() {
                    assert(r0[i].public_key == k);
                }
            }
        }
        assert(has_key(s, k) == (has_key(s.drop_last(), k) || s.last().public_key == k)) by {
            if has_key(s.drop_last(), k) {
                let i = choose|i: int| 0 <= i < s.drop_last().len() && s.drop_last()[i].public_key
                    == k;
                assert(s[i].public_key == k);
            }
            if s.last().public_key == k {
                assert(s[s.len() - 1].public_key == k);
            }
            if has_key(s, k) {
                let i = choose|i: int| 0 <= i < s.len() && s[i].public_key == k;
                if i < s.len() - 1 {
                    assert(s.drop_last()[i].public_key == k);
                }
            }
        }
    }
}

/// Ordered insertion of a fresh key keeps keys unique.
proof fn lemma_insert_sorted_unique(s: Seq<RecordV>, x: RecordV)
    requires
        unique_keys(s),
        !has_key(s, x.public_key),
    ensures
        unique_keys(spec_insert_sorted(s, x)),
    decreases s.len(),
{
    lemma_insert_sorted_len(s, x);
    let r = spec_insert_sorted(s, x);
    if s.len() == 0 {
    } else if lex_le(s.last().issuing_country, x.issuing_country) {
        assert forall|i: int, j: int| 0 <= i < j < r.len() implies r[i].public_key
            != r[j].public_key by {
            if j == s.len() {
                assert(r[i] == s[i]);
                assert(!(s[i].public_key == x.public_key));
            }
        }
    } else {
        let r0 = spec_insert_sorted(s.drop_last(), x);
        lemma_insert_sorted_len(s.drop_last(), x);
        assert(unique_keys(s.drop_last()));
        assert(!has_key(s.drop_last(), x.public_key)) by {
            if has_key(s.drop_last(), x.public_key) {
                let i = choose|i: int| 0 <= i < s.drop_last().len() && s.drop_last()[i].public_key
                    == x.public_key;
                assert(s[i].public_key == x.public_key);
            }
        }
        lemma_insert_sorted_unique(s.drop_last(), x);
        lemma_insert_sorted_has_key(s.drop_last(), x, s.last().public_key);
        assert(!has_key(s.drop_last(), s.last().public_key)) by {
            if has_key(s.drop_last(), s.last().public_key) {
                let i = choose|i: int| 0 <= i < s.drop_last().len() && s.drop_last()[i].public_key
                    == s.last().public_key;
                assert(s[i].public_key == s[s.len() - 1].public_key);
            }
        }
        assert(x.public_key != s.last().public_key) by {
            assert(s[s.len() - 1].public_key == s.last().public_key);
        }
        assert forall|i: int, j: int| 0 <= i < j < r.len() implies r[i].public_key
            != r[j].public_key by {
            if j == r0.len() {
                if r0[i].public_key == s.last().public_key {
                    assert(has_key(r0, s.last().public_key));
                }
            }
        }
    }
}

/// Ordered insertion appends to the inserted record's own country and
/// leaves every other country's records untouched.
proof fn lemma_insert_sorted_filter(s: Seq<RecordV>, x: RecordV, c: Seq<u8>)
    ensures
        spec_insert_sorted(s, x).filter(by_country(c)) == if x.issuing_country == c {
            s.filter(by_country(c)).push(x)
        } else {
            s.filter(by_country(c))
        },
    decreases s.len(),
{
    broadcast use Seq::lemma_filter_push;

    let p = by_country(c);
    if s.len() == 0 {
        assert(seq![x] =~= Seq::<RecordV>::empty().push(x));
        assert(Seq::<RecordV>::empty().filter(p) =~= Seq::<RecordV>::empty());
        assert(s =~= Seq::<RecordV>::empty());
    } else if lex_le(s.last().issuing_country, x.issuing_country) {
        assert(spec_insert_sorted(s, x) == s.push(x));
    } else {
        lemma_insert_sorted_filter(s.drop_last(), x, c);
        lemma_lex_le_refl(x.issuing_country);
        assert(s.last().issuing_country != x.issuing_country);
        assert(s =~= s.drop_last().push(s.last()));
        if x.issuing_country == c {
            assert(s.last().issuing_country != c);
            assert(s.filter(p) == s.drop_last().filter(p));
            assert(spec_insert_sorted(s, x).filter(p) == spec_insert_sorted(s.drop_last(), x)
                .filter(p));
        }
    }
}

/// The sorted output is non-decreasing by issuing country.
pub proof fn lemma_sort_sorted(s: Seq<RecordV>)
    ensures
        sorted_by_country(spec_stable_sort(s)),
    decreases s.len(),
{
    if s.len() > 0 {
        lemma_sort_sorted(s.drop_last());
        lemma_insert_sorted_keeps_sorted(spec_stable_sort(s.drop_last()), s.last());
    }
}

/// Stability: for every country, the sorted output carries exactly the
/// input's records of that country, in their input order.
pub proof fn lemma_sort_stable(s: Seq<RecordV>, c: Seq<u8>)
    ensures
        spec_stable_sort(s).filter(by_country(c)) == s.filter(by_country(c)),
    decreases s.len(),
{
    broadcast use Seq::lemma_filter_push;

    let p = by_country(c);
    if s.len() == 0 {
        assert(spec_stable_sort(s) =~= s);
    } else {
        lemma_sort_stable(s.drop_last(), c);
        lemma_insert_sorted_filter(spec_stable_sort(s.drop_last()), s.last(), c);
        assert(s =~= s.drop_last().push(s.last()));
    }
}

/// The sorted output carries exactly the input's keys.
pub proof fn lemma_sort_has_key(s: Seq<RecordV>, k: Seq<u8>)
    ensures
        has_key(spec_stable_sort(s), k) == has_key(s, k),
    decreases s.len(),
{
    if s.len() > 0 {
        lemma_sort_has_key(s.drop_last(), k);
        lemma_insert_sorted_has_key(spec_stable_sort(s.drop_last()), s.last(), k);
        assert(has_key(s, k) == (has_key(s.drop_last(), k) || s.last().public_key == k)) by {
            if has_key(s.drop_last(), k) {
                let i = choose|i: int| 0 <= i < s.drop_last().len() && s.drop_last()[i].public_key
                    == k;
                assert(s[i].public_key == k);
            }
            if s.last().public_key == k {
                assert(s[s.len() - 1].public_key == k);
            }
            if has_key(s, k) {
                let i = choose|i: int| 0 <= i < s.len() && s[i].public_key == k;
                if i < s.len() - 1 {
                    assert(s.drop_last()[i].public_key == k);
                }
            }
        }
    }
}

/// Key uniqueness survives the sort.
pub proof fn lemma_sort_unique(s: Seq<RecordV>)
    requires
        unique_keys(s),
    ensures
        unique_keys(spec_stable_sort(s)),
    decreases s.len(),
{
    if s.len() > 0 {
        assert(unique_keys(s.drop_last()));
        lemma_sort_unique(s.drop_last());
        lemma_sort_has_key(s.drop_last(), s.last().public_key);
        assert(!has_key(s.drop_last(), s.last().public_key)) by {
            if has_key(s.drop_last(), s.last().public_key) {
                let i = choose|i: int| 0 <= i < s.drop_last().len() && s.drop_last()[i].public_key
                    == s.last().public_key;
                assert(s[i].public_key == s[s.len() - 1].public_key);
            }
        }
        lemma_insert_sorted_unique(spec_stable_sort(s.drop_last()), s.last());
    }
}

/// Stable-sorts records ascending by issuing country under byte-wise
/// comparison; ties keep their accumulation order.
pub fn sort_records(v: Vec<CertificateRecord>) -> (r: Vec<CertificateRecord>)
    ensures
        seq_view(r@) == spec_stable_sort(seq_view(v@)),
        sorted_by_country(seq_view(r@)),
{
    let ghost orig = seq_view(v@);
    let mut src = v;
    let total: usize = src.len();
    let mut out: Vec<CertificateRecord> = Vec::new();
    let mut done: usize = 0;
    proof {
        assert(seq_view(src@) =~= orig.skip(0));
        assert(orig.take(0) =~= Seq::<RecordV>::empty());
    }
    while src.len() > 0
        invariant
            total == orig.len(),
            done + src@.len() == orig.len(),
            seq_view(src@) =~= orig.skip(done as int),
            seq_view(out@) == spec_stable_sort(orig.take(done as int)),
            sorted_by_country(seq_view(out@)),
        decreases src@.len(),
    {
        let ghost old_src = src@;
        let x = src.remove(0);
        proof {
            assert(x@ == seq_view(old_src)[0]);
            assert(x@ == orig[done as int]);
            assert forall|k: int| 0 <= k < src@.len() implies seq_view(src@)[k] == orig.skip(
                done + 1,
            )[k] by {
                assert(src@[k] == old_src[k + 1]);
                assert(seq_view(old_src)[k + 1] == old_src[k + 1]@);
                assert(seq_view(old_src)[k + 1] == orig.skip(done as int)[k + 1]);
            }
            assert(seq_view(src@) =~= orig.skip(done + 1));
        }
        let ghost outv = seq_view(out@);
        let mut j: usize = out.len();
        while j > 0 && !bytes_le(&out[j - 1].issuing_country, &x.issuing_country)
            invariant
                j <= out@.len(),
                outv == seq_view(out@),
                forall|k: int|
                    j <= k < outv.len() ==> !lex_le(
                        outv[k].issuing_country,
                        x@.issuing_country,
                    ),
            decreases j,
        {
            assert(outv[j - 1] == out@[j - 1]@);
            j -= 1;
        }
        proof {
            if j > 0 {
                assert(lex_le(outv[j - 1].issuing_country, x@.issuing_country));
            }
            lemma_insert_sorted_at(outv, x@, j as int);
            lemma_insert_sorted_keeps_sorted(outv, x@);
            lemma_seq_view_insert(out@, j as int, x);
            assert(orig.take(done + 1).drop_last() =~= orig.take(done as int));
            assert(orig.take(done + 1).last() == orig[done as int]);
        }
        out.insert(j, x);
        done += 1;
    }
    proof {
        assert(orig.take(done as int) =~= orig);
    }
    out
}

} // verus!
