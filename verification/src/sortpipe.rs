//! Timestamp sort pipeline: pair every record with its caller-supplied
//! timestamp key, order the pairs by key with the offset as the explicit
//! tie-break, then rewrite the records in that order by random access on the
//! source. The tie-break makes the order total, so the outcome does not depend
//! on how the parallel sort schedules its work.

use vstd::prelude::*;

use rayon::slice::ParallelSliceMut;

use crate::filter::CopyError;
use crate::record::{views_of, Log, Record, RecordView};

verus! {

/// The sort key of one record: its timestamp key, then its offset.
pub open spec fn key_le(a: (u64, u64), b: (u64, u64)) -> bool {
    a.0 < b.0 || (a.0 == b.0 && a.1 <= b.1)
}

/// The keys of a run of records, one per record in read order.
pub open spec fn keys_of(rs: Seq<RecordView>, tks: Seq<u64>) -> Seq<(u64, u64)> {
    Seq::new(rs.len(), |i: int| (tks[i], rs[i].offset))
}

/// Whether some record of the run starts at `off`.
pub open spec fn has_offset(rs: Seq<RecordView>, off: u64) -> bool {
    exists|j: int| 0 <= j < rs.len() && rs[j].offset == off
}

/// The position of the record starting at `off`.
pub open spec fn index_of_offset(rs: Seq<RecordView>, off: u64) -> int {
    choose|j: int| 0 <= j < rs.len() && rs[j].offset == off
}

/// The sort key a record of the run carries: the timestamp key supplied for
/// its position, then its offset.
pub open spec fn sort_key_in(rs: Seq<RecordView>, tks: Seq<u64>, rec: RecordView) -> (u64, u64) {
    (tks[index_of_offset(rs, rec.offset)], rec.offset)
}

/// Stability law: between two distinct records carrying equal timestamp keys,
/// the sort order is ascending offset order — which is their read order, read
/// order being offset order.
pub proof fn lemma_ties_break_by_offset(a: (u64, u64), b: (u64, u64))
    requires
        key_le(a, b),
        a.0 == b.0,
        a.1 != b.1,
    ensures
        a.1 < b.1,
{
}

/// Relies on rayon's slice::par_sort_unstable: reorders the pairs in place
/// into ascending lexicographic order, the total order that std documents for
/// pairs of unsigned integers.
#[verifier::external_body]
fn par_sort_keys(keys: &mut Vec<(u64, u64)>)
    ensures
        final(keys)@.len() == old(keys)@.len(),
        final(keys)@.to_multiset() == old(keys)@.to_multiset(),
        vstd::relations::sorted_by(final(keys)@, |a: (u64, u64), b: (u64, u64)| key_le(a, b)),
{
    keys.par_sort_unstable();
}

/// Two runs with the same elements still have the same elements after both are
/// mapped with one function.
pub proof fn lemma_map_values_multiset<A, B>(s1: Seq<A>, s2: Seq<A>, f: spec_fn(A) -> B)
    requires
        s1.to_multiset() == s2.to_multiset(),
    ensures
        s1.map_values(f).to_multiset() == s2.map_values(f).to_multiset(),
    decreases s1.len(),
{
    broadcast use vstd::seq_lib::group_to_multiset_ensures;
    broadcast use vstd::multiset::group_multiset_axioms;

    if s1.len() == 0 {
        assert(s1.to_multiset().len() == 0);
        assert(s2.len() == 0);
        assert(s1.map_values(f) =~= Seq::<B>::empty());
        assert(s2.map_values(f) =~= Seq::<B>::empty());
    } else {
        let x = s1[0];
        assert(s1.contains(x));
        assert(s1.to_multiset().count(x) > 0);
        assert(s2.contains(x));
        let j = choose|j: int| 0 <= j < s2.len() && s2[j] == x;
        assert(s1.remove(0).to_multiset() == s1.to_multiset().remove(x));
        assert(s2.remove(j).to_multiset() == s2.to_multiset().remove(x));
        lemma_map_values_multiset(s1.remove(0), s2.remove(j), f);
        assert(s1.remove(0).map_values(f) =~= s1.map_values(f).remove(0));
        assert(s2.remove(j).map_values(f) =~= s2.map_values(f).remove(j));
        let m1 = s1.map_values(f).to_multiset();
        let m2 = s2.map_values(f).to_multiset();
        assert(s1.map_values(f).remove(0).to_multiset() == m1.remove(f(x)));
        assert(s2.map_values(f).remove(j).to_multiset() == m2.remove(f(x)));
        assert(m1.remove(f(x)) == m2.remove(f(x)));
        assert(s1.map_values(f).contains(f(x))) by {
            assert(s1.map_values(f)[0] == f(x));
        }
        assert(s2.map_values(f).contains(f(x))) by {
            assert(s2.map_values(f)[j] == f(x));
        }
        assert(m1.count(f(x)) > 0);
        assert(m2.count(f(x)) > 0);
        assert forall|y: B| #[trigger] m1.count(y) == m2.count(y) by {
            if y == f(x) {
                assert(m1.remove(f(x)).count(y) == m1.count(y) - 1);
                assert(m2.remove(f(x)).count(y) == m2.count(y) - 1);
            } else {
                assert(m1.remove(f(x)).count(y) == m1.count(y));
                assert(m2.remove(f(x)).count(y) == m2.count(y));
            }
        }
        assert(m1 =~= m2);
    }
}

/// Finds the record starting at `offset` by binary search over the strictly
/// increasing offsets of a well-formed log.
pub fn find_by_offset(source: &Log, offset: u64) -> (r: Option<usize>)
    requires
        source.wf(),
    ensures
        match r {
            Some(i) => i < source.recs().len() && source.recs()[i as int].offset == offset,
            None => !has_offset(source.recs(), offset),
        },
{
    let ghost rs = source.recs();
    let mut lo: usize = 0;
    let mut hi: usize = source.records.len();
    while lo < hi
        invariant
            source.wf(),
            rs == source.recs(),
            0 <= lo <= hi <= rs.len(),
            forall|j: int| 0 <= j < lo ==> (#[trigger] rs[j]).offset < offset,
            forall|j: int| hi <= j < rs.len() ==> (#[trigger] rs[j]).offset > offset,
        decreases hi - lo,
    {
        let mid = lo + (hi - lo) / 2;
        let m = source.records[mid].offset;
        proof {
            assert(rs[mid as int].offset == m);
            assert(forall|j: int|
                0 <= j < mid ==> (#[trigger] rs[j]).offset < rs[mid as int].offset);
            assert(forall|j: int|
                mid < j < rs.len() ==> (#[trigger] rs[j]).offset > rs[mid as int].offset);
        }
        if m == offset {
            return Some(mid);
        } else if m < offset {
            lo = mid + 1;
        } else {
            hi = mid;
        }
    }
    proof {
        if has_offset(rs, offset) {
            let j = choose|j: int| 0 <= j < rs.len() && rs[j].offset == offset;
            assert(rs[j].offset == offset);
            assert(false);
        }
    }
    None
}

/// What the sort pipeline hands back: the records in sorted order, and how
/// many there are.
pub struct SortOutput {
    pub records: Vec<Record>,
    pub count: u64,
}

/// Copies a whole well-formed log into timestamp order. `time_keys` carries
/// one order-preserving timestamp key per record, in read order; an absent or
/// undecodable timestamp must already have been normalized into the key of
/// time 0.0 by the key supplier. Fails, and would create no destination,
/// exactly on an empty source. The output is a permutation of the source's
/// records, byte-identical payloads included, in ascending key order with ties
/// broken by ascending offset; records with equal keys therefore keep their
/// source order, read order being offset order.
pub fn sort_copy(source: &Log, time_keys: &Vec<u64>) -> (r: Result<SortOutput, CopyError>)
    requires
        source.wf(),
        time_keys@.len() == source.recs().len(),
    ensures
        match r {
            Ok(out) => {
                let rs = source.recs();
                let ov = views_of(out.records@);
                &&& source.end != 0
                &&& out.count == rs.len()
                &&& ov.to_multiset() == rs.to_multiset()
                &&& forall|i: int, j: int|
                    0 <= i < j < ov.len() ==> key_le(
                        sort_key_in(rs, time_keys@, #[trigger] ov[i]),
                        sort_key_in(rs, time_keys@, #[trigger] ov[j]),
                    )
            },
            Err(e) => source.end == 0 && e == CopyError::EmptyInput,
        },
{
    broadcast use vstd::seq_lib::group_to_multiset_ensures;

    if source.end == 0 {
        return Err(CopyError::EmptyInput);
    }
    let ghost rs = source.recs();
    let ghost tks = time_keys@;
    let n = source.records.len();

    // pair every record's supplied timestamp key with its offset
    let mut keys: Vec<(u64, u64)> = Vec::new();
    let mut i: usize = 0;
    while i < n
        invariant
            source.wf(),
            rs == source.recs(),
            tks == time_keys@,
            tks.len() == rs.len(),
            n == rs.len(),
            0 <= i <= n,
            keys@.len() == i,
            forall|k: int| 0 <= k < i ==> keys@[k] == (#[trigger] keys_of(rs, tks)[k]),
        decreases n - i,
    {
        keys.push((time_keys[i], source.records[i].offset));
        proof {
            assert(source.records@[i as int]@ == rs[i as int]);
            assert(keys@[i as int] == keys_of(rs, tks)[i as int]);
        }
        i = i + 1;
    }
    proof {
        assert(keys@ =~= keys_of(rs, tks));
    }

    // order the pairs: ascending key, ties broken by ascending offset
    par_sort_keys(&mut keys);

    // rewrite the records in that order by random access on the source
    let mut out: Vec<Record> = Vec::new();
    let mut i: usize = 0;
    while i < n
        invariant
            source.wf(),
            rs == source.recs(),
            tks == time_keys@,
            tks.len() == rs.len(),
            n == rs.len(),
            0 <= i <= n,
            keys@.len() == n,
            keys@.to_multiset() == keys_of(rs, tks).to_multiset(),
            vstd::relations::sorted_by(keys@, |a: (u64, u64), b: (u64, u64)| key_le(a, b)),
            out@.len() == i,
            forall|k: int|
                0 <= k < i ==> views_of(out@)[k] == rs[index_of_offset(rs, (
                #[trigger] keys@[k]).1)] && sort_key_in(rs, tks, views_of(out@)[k]) == keys@[k],
        decreases n - i,
    {
        let (tk, off) = keys[i];
        let ghost pair = keys@[i as int];
        proof {
            // the sorted pair is one of the source's pairs, so its offset is
            // the start of exactly one source record
            keys@.to_multiset_ensures();
            keys_of(rs, tks).to_multiset_ensures();
            assert(keys@.contains(pair)) by {
                assert(keys@[i as int] == pair);
            }
            assert(keys@.to_multiset().count(pair) > 0);
            assert(keys_of(rs, tks).to_multiset().count(pair) > 0);
            assert(keys_of(rs, tks).contains(pair));
            let j = choose|j: int| 0 <= j < keys_of(rs, tks).len() && keys_of(rs, tks)[j] == pair;
            assert(rs[j].offset == pair.1 && tks[j] == pair.0);
            assert(has_offset(rs, off));
        }
        let found = find_by_offset(source, off);
        match found {
            Some(idx) => {
                let rec = source.records[idx].duplicate();
                out.push(rec);
                proof {
                    let j = choose|j: int|
                        0 <= j < keys_of(rs, tks).len() && keys_of(rs, tks)[j] == pair;
                    source.lemma_offsets_unique(j, idx as int);
                    let c = index_of_offset(rs, off);
                    assert(0 <= c < rs.len() && rs[c].offset == off);
                    source.lemma_offsets_unique(j, c);
                    assert(views_of(out@)[i as int] == rs[idx as int]);
                    assert(sort_key_in(rs, tks, rs[idx as int]) == pair);
                    assert(forall|k: int|
                        0 <= k < i ==> views_of(out@)[k] == views_of(out@.drop_last())[k]);
                }
            },
            None => {
                proof {
                    assert(false);
                }
                return Err(CopyError::EmptyInput);
            },
        }
        i = i + 1;
    }

    proof {
        let ov = views_of(out@);
        let lookup = |p: (u64, u64)| rs[index_of_offset(rs, p.1)];
        keys@.to_multiset_ensures();
        keys_of(rs, tks).to_multiset_ensures();
        assert(ov =~= keys@.map_values(lookup));
        assert forall|j: int| 0 <= j < rs.len() implies #[trigger] keys_of(rs, tks).map_values(
            lookup,
        )[j] == rs[j] by {
            assert(keys_of(rs, tks)[j].1 == rs[j].offset);
            let c = index_of_offset(rs, rs[j].offset);
            assert(has_offset(rs, rs[j].offset)) by {
                assert(rs[j].offset == rs[j].offset);
            }
            assert(0 <= c < rs.len() && rs[c].offset == rs[j].offset);
            source.lemma_offsets_unique(c, j);
        }
        assert(keys_of(rs, tks).map_values(lookup) =~= rs);
        lemma_map_values_multiset(keys@, keys_of(rs, tks), lookup);
        assert(ov.to_multiset() == rs.to_multiset());
        assert forall|i: int, j: int| 0 <= i < j < ov.len() implies key_le(
            sort_key_in(rs, tks, #[trigger] ov[i]),
            sort_key_in(rs, tks, #[trigger] ov[j]),
        ) by {
            assert(sort_key_in(rs, tks, ov[i]) == keys@[i]);
            assert(sort_key_in(rs, tks, ov[j]) == keys@[j]);
            let leq = |a: (u64, u64), b: (u64, u64)| key_le(a, b);
            assert(leq(keys@[i], keys@[j]));
        }
    }
    let count = out.len() as u64;
    Ok(SortOutput { records: out, count })
}

} // verus!
