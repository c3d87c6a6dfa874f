//! Predicate copy pipeline: one forward pass over a log, keeping or excluding
//! records by their decoded author, with progress accounting.

use vstd::prelude::*;

use crate::codec::{author_of, decode_author};
use crate::record::{lemma_total_bytes_take, total_bytes, views_of, Log, Record, RecordView};

verus! {

/// How a decoded author is held against the wanted feed id.
#[derive(Clone, Copy, Debug, PartialEq, Eq, Structural)]
pub enum FilterMode {
    /// Keep the records whose author equals the id.
    Keep,
    /// Keep the records whose author decodes and differs from the id.
    Exclude,
}

/// Whether a decoded author matches: a record without a decoded author matches
/// in neither mode; `Exclude` negates the comparison only for decoded authors.
pub open spec fn author_matches(mode: FilterMode, feed: Seq<u8>, author: Option<Seq<u8>>) -> bool {
    match author {
        None => false,
        Some(a) => match mode {
            FilterMode::Keep => a == feed,
            FilterMode::Exclude => a != feed,
        },
    }
}

/// Whether a record matches: its payload's decoded author, held against the id.
pub open spec fn record_matches(mode: FilterMode, feed: Seq<u8>, rec: RecordView) -> bool {
    author_matches(mode, feed, author_of(rec.payload))
}

/// Whether two byte runs are equal.
pub fn bytes_eq(a: &[u8], b: &[u8]) -> (r: bool)
    ensures
        r == (a@ == b@),
{
    if a.len() != b.len() {
        return false;
    }
    let mut i: usize = 0;
    while i < a.len()
        invariant
            a@.len() == b@.len(),
            0 <= i <= a@.len(),
            forall|k: int| 0 <= k < i ==> a@[k] == b@[k],
        decreases a@.len() - i,
    {
        if a[i] != b[i] {
            return false;
        }
        i = i + 1;
    }
    proof {
        assert(a@ =~= b@);
    }
    true
}

/// Decodes a payload's author and holds it against the id.
pub fn payload_matches(mode: FilterMode, feed: &[u8], payload: &[u8]) -> (r: bool)
    ensures
        r == author_matches(mode, feed@, author_of(payload@)),
{
    match decode_author(payload) {
        None => false,
        Some(a) => {
            let eq = bytes_eq(a.as_slice(), feed);
            match mode {
                FilterMode::Keep => eq,
                FilterMode::Exclude => !eq,
            }
        },
    }
}

/// The running totals printed on completion: records written and their bytes.
#[derive(Clone, Copy, Debug, PartialEq, Eq, Structural)]
pub struct CopyStats {
    pub count: u64,
    pub bytes: u64,
}

/// One progress update: the percentage of the source visited, and the running
/// totals at that point.
#[derive(Clone, Copy, Debug, PartialEq, Eq, Structural)]
pub struct ProgressEvent {
    pub pct: u64,
    pub count: u64,
    pub bytes: u64,
}

/// Why a copy pipeline declined to run.
#[derive(Clone, Copy, Debug, PartialEq, Eq, Structural)]
pub enum CopyError {
    /// The source log holds nothing; no destination should be created.
    EmptyInput,
}

/// What the predicate copy pipeline hands back: the matching records in source
/// order, the final totals, and every progress update in emission order.
pub struct CopyOutput {
    pub records: Vec<Record>,
    pub stats: CopyStats,
    pub progress: Vec<ProgressEvent>,
}

/// The truncated percentage of the source visited once the record starting at
/// `offset` has been read, out of the exclusive end offset `end`.
pub open spec fn pct_of(offset: int, end: int) -> int {
    offset * 100 / end
}

/// The pipeline's running state after some prefix of the source: the matching
/// records so far, the totals, the percentage last shown, and the updates
/// emitted so far.
pub ghost struct FilterTrace {
    pub out: Seq<RecordView>,
    pub count: int,
    pub bytes: int,
    pub last_pct: int,
    pub events: Seq<ProgressEvent>,
}

/// One record's effect on the pipeline state: a matching record is copied and
/// always surfaces an update; a non-matching one surfaces an update only when
/// the percentage advanced past the one last shown.
pub open spec fn filter_step(
    st: FilterTrace,
    rec: RecordView,
    end: int,
    mode: FilterMode,
    feed: Seq<u8>,
) -> FilterTrace {
    let w = record_matches(mode, feed, rec);
    let pct = pct_of(rec.offset as int, end);
    let count2 = if w {
        st.count + 1
    } else {
        st.count
    };
    let bytes2 = if w {
        st.bytes + rec.payload.len()
    } else {
        st.bytes
    };
    let out2 = if w {
        st.out.push(rec)
    } else {
        st.out
    };
    if w || pct > st.last_pct {
        FilterTrace {
            out: out2,
            count: count2,
            bytes: bytes2,
            last_pct: pct,
            events: st.events.push(
                ProgressEvent { pct: pct as u64, count: count2 as u64, bytes: bytes2 as u64 },
            ),
        }
    } else {
        FilterTrace {
            out: out2,
            count: count2,
            bytes: bytes2,
            last_pct: st.last_pct,
            events: st.events,
        }
    }
}

/// The pipeline state after a whole run of records, starting from nothing
/// copied and no percentage shown.
pub open spec fn filter_trace(
    rs: Seq<RecordView>,
    end: int,
    mode: FilterMode,
    feed: Seq<u8>,
) -> FilterTrace
    decreases rs.len(),
{
    if rs.len() == 0 {
        FilterTrace { out: seq![], count: 0, bytes: 0, last_pct: 0, events: seq![] }
    } else {
        filter_step(filter_trace(rs.drop_last(), end, mode, feed), rs.last(), end, mode, feed)
    }
}

/// The copied records are exactly the matching subsequence, and the totals
/// count it: as many records as were copied, and the sum of their payload
/// lengths in bytes.
pub proof fn lemma_filter_trace_out(rs: Seq<RecordView>, end: int, mode: FilterMode, feed: Seq<u8>)
    requires
        end > 0,
    ensures
        filter_trace(rs, end, mode, feed).out == rs.filter(
            |rec: RecordView| record_matches(mode, feed, rec),
        ),
        filter_trace(rs, end, mode, feed).count == filter_trace(rs, end, mode, feed).out.len(),
        filter_trace(rs, end, mode, feed).bytes == total_bytes(
            filter_trace(rs, end, mode, feed).out,
        ),
        filter_trace(rs, end, mode, feed).bytes <= total_bytes(rs),
        0 <= filter_trace(rs, end, mode, feed).last_pct,
    decreases rs.len(),
{
    reveal(Seq::filter);
    let pred = |rec: RecordView| record_matches(mode, feed, rec);
    if rs.len() == 0 {
        assert(rs.filter(pred) =~= Seq::<RecordView>::empty());
    } else {
        lemma_filter_trace_out(rs.drop_last(), end, mode, feed);
        let prev = filter_trace(rs.drop_last(), end, mode, feed);
        if pred(rs.last()) {
            assert(prev.out.push(rs.last()).drop_last() =~= prev.out);
        }
        if record_matches(mode, feed, rs.last()) || pct_of(rs.last().offset as int, end)
            > prev.last_pct {
            assert(filter_trace(rs, end, mode, feed).last_pct == pct_of(
                rs.last().offset as int,
                end,
            ));
            assert(rs.last().offset * 100 >= 0) by (nonlinear_arith);
            vstd::arithmetic::div_mod::lemma_div_pos_is_pos(rs.last().offset * 100, end);
        }
    }
}

/// A record whose author does not decode matches in neither mode: inversion
/// negates the comparison only for decoded authors, never the decode failure.
pub proof fn lemma_undecodable_matches_neither(feed: Seq<u8>, rec: RecordView)
    requires
        author_of(rec.payload) is None,
    ensures
        !record_matches(FilterMode::Keep, feed, rec),
        !record_matches(FilterMode::Exclude, feed, rec),
{
}

/// A record whose author decodes matches in exactly one of the two modes.
pub proof fn lemma_modes_complementary(feed: Seq<u8>, rec: RecordView)
    requires
        author_of(rec.payload) is Some,
    ensures
        record_matches(FilterMode::Keep, feed, rec) != record_matches(
            FilterMode::Exclude,
            feed,
            rec,
        ),
{
}

/// Partition law: over a run whose every record decodes an author, the kept
/// and the excluded subsequences for one feed id split the run, with no
/// overlap and no loss.
pub proof fn lemma_extract_partition(rs: Seq<RecordView>, feed: Seq<u8>)
    requires
        forall|i: int| 0 <= i < rs.len() ==> (#[trigger] author_of(rs[i].payload)) is Some,
    ensures
        rs.filter(|rec: RecordView| record_matches(FilterMode::Keep, feed, rec)).to_multiset().add(
            rs.filter(
                |rec: RecordView| record_matches(FilterMode::Exclude, feed, rec),
            ).to_multiset(),
        ) =~= rs.to_multiset(),
        rs.filter(|rec: RecordView| record_matches(FilterMode::Keep, feed, rec)).len() + rs.filter(
            |rec: RecordView| record_matches(FilterMode::Exclude, feed, rec),
        ).len() == rs.len(),
    decreases rs.len(),
{
    reveal(Seq::filter);
    broadcast use vstd::seq_lib::group_to_multiset_ensures;
    broadcast use vstd::multiset::group_multiset_axioms;

    let keep = |rec: RecordView| record_matches(FilterMode::Keep, feed, rec);
    let excl = |rec: RecordView| record_matches(FilterMode::Exclude, feed, rec);
    if rs.len() == 0 {
        assert(rs.filter(keep) =~= Seq::<RecordView>::empty());
        assert(rs.filter(excl) =~= Seq::<RecordView>::empty());
        assert(rs.filter(keep).to_multiset().add(rs.filter(excl).to_multiset())
            =~= rs.to_multiset());
    } else {
        let butlast = rs.drop_last();
        let last = rs.last();
        assert(forall|i: int|
            0 <= i < butlast.len() ==> (#[trigger] author_of(butlast[i].payload)) is Some);
        lemma_extract_partition(butlast, feed);
        assert(author_of(last.payload) is Some);
        assert(keep(last) != excl(last));
        assert(rs =~= butlast.push(last));
        assert(rs.filter(keep).to_multiset().add(rs.filter(excl).to_multiset())
            =~= rs.to_multiset());
    }
}

/// Byte fidelity: every record of a run drawn from a source run appears there
/// whole — a record equal to it, payload bytes included, stands in the source.
pub proof fn lemma_byte_fidelity(ov: Seq<RecordView>, rs: Seq<RecordView>)
    requires
        forall|x: RecordView| ov.contains(x) ==> rs.contains(x),
    ensures
        forall|i: int| 0 <= i < ov.len() ==> rs.contains(#[trigger] ov[i]),
{
    assert forall|i: int| 0 <= i < ov.len() implies rs.contains(#[trigger] ov[i]) by {
        assert(ov.contains(ov[i]));
    }
}

/// What a run keeps under a filter it drew from itself: each filtered record
/// is a record of the run.
pub proof fn lemma_filter_from_source(rs: Seq<RecordView>, pred: spec_fn(RecordView) -> bool)
    ensures
        forall|x: RecordView| #[trigger] rs.filter(pred).contains(x) ==> rs.contains(x),
    decreases rs.len(),
{
    reveal(Seq::filter);
    if rs.len() == 0 {
    } else {
        lemma_filter_from_source(rs.drop_last(), pred);
        assert forall|x: RecordView| #[trigger] rs.filter(pred).contains(x) implies rs.contains(
            x,
        ) by {
            if pred(rs.last()) && x == rs.last() {
                assert(rs[rs.len() - 1] == x);
            } else {
                assert(rs.filter(pred) == if pred(rs.last()) {
                    rs.drop_last().filter(pred).push(rs.last())
                } else {
                    rs.drop_last().filter(pred)
                });
                if rs.filter(pred) != rs.drop_last().filter(pred) {
                    let k = choose|k: int|
                        0 <= k < rs.filter(pred).len() && rs.filter(pred)[k] == x;
                    assert(rs.drop_last().filter(pred)[k] == x || x == rs.last());
                }
                assert(rs.drop_last().filter(pred).contains(x) || x == rs.last());
                if rs.drop_last().contains(x) {
                    let k = choose|k: int|
                        0 <= k < rs.drop_last().len() && rs.drop_last()[k] == x;
                    assert(rs[k] == x);
                }
            }
        }
    }
}

/// Copies the records whose decoded author matches, reporting progress: a
/// single forward pass in offset order over a well-formed source. Fails, and
/// would create no destination, exactly on an empty source. The output records
/// are the matching subsequence of the source in source order, byte-identical
/// payloads included; the updates and totals are those of the run.
pub fn extract(source: &Log, mode: FilterMode, feed: &[u8]) -> (r: Result<CopyOutput, CopyError>)
    requires
        source.wf(),
        total_bytes(source.recs()) <= u64::MAX,
    ensures
        match r {
            Ok(out) => {
                let t = filter_trace(source.recs(), source.end as int, mode, feed@);
                &&& source.end != 0
                &&& views_of(out.records@) == source.recs().filter(
                    |rec: RecordView| record_matches(mode, feed@, rec),
                )
                &&& out.stats.count == t.count
                &&& out.stats.count == views_of(out.records@).len()
                &&& out.stats.bytes == t.bytes
                &&& out.stats.bytes == total_bytes(views_of(out.records@))
                &&& out.progress@ == t.events
            },
            Err(e) => source.end == 0 && e == CopyError::EmptyInput,
        },
{
    if source.end == 0 {
        return Err(CopyError::EmptyInput);
    }
    let ghost rs = source.recs();
    let ghost gend = source.end as int;
    let mut out: Vec<Record> = Vec::new();
    let mut progress: Vec<ProgressEvent> = Vec::new();
    let mut count: u64 = 0;
    let mut bytes: u64 = 0;
    let mut last_pct: u64 = 0;
    let n = source.records.len();
    let mut i: usize = 0;
    while i < n
        invariant
            source.wf(),
            total_bytes(rs) <= u64::MAX,
            source.end != 0,
            rs == source.recs(),
            gend == source.end as int,
            n == source.records@.len(),
            0 <= i <= n,
            ({
                let t = filter_trace(rs.take(i as int), gend, mode, feed@);
                &&& views_of(out@) == t.out
                &&& count == t.count
                &&& bytes == t.bytes
                &&& last_pct == t.last_pct
                &&& progress@ == t.events
            }),
        decreases n - i,
    {
        let ghost pre = filter_trace(rs.take(i as int), gend, mode, feed@);
        let ghost rv = rs[i as int];
        proof {
            assert(rs.take(i + 1).drop_last() =~= rs.take(i as int));
            assert(rs.take(i + 1).last() == rv);
            assert(total_bytes(rs.take(i + 1)) == total_bytes(rs.take(i as int))
                + rv.payload.len());
            lemma_filter_trace_out(rs.take(i as int), gend, mode, feed@);
            lemma_filter_trace_out(rs.take(i + 1), gend, mode, feed@);
            lemma_total_bytes_take(rs, i + 1);
            assert(rv.offset < source.end);
            assert(rv.offset * 100 < gend * 100) by (nonlinear_arith)
                requires
                    rv.offset < gend,
            ;
            vstd::arithmetic::div_mod::lemma_multiply_divide_lt(rv.offset * 100, gend, 100);
            assert(rv.offset * 100 >= 0) by (nonlinear_arith);
            vstd::arithmetic::div_mod::lemma_div_pos_is_pos(rv.offset * 100, gend);
            assert(0 <= pct_of(rv.offset as int, gend) < 100);
        }
        let rec = &source.records[i];
        proof {
            assert(rv == rec@);
        }
        let w = payload_matches(mode, feed, rec.payload.as_slice());
        let pct: u64 = (((rec.offset as u128) * 100) / (source.end as u128)) as u64;
        proof {
            assert(pct == pct_of(rv.offset as int, gend));
        }
        if w {
            bytes = bytes + rec.payload.len() as u64;
            count = count + 1;
            out.push(rec.duplicate());
            proof {
                assert(views_of(out@) =~= pre.out.push(rv));
            }
        }
        if w || pct > last_pct {
            progress.push(ProgressEvent { pct, count, bytes });
            last_pct = pct;
        }
        proof {
            let post = filter_trace(rs.take(i + 1), gend, mode, feed@);
            assert(post == filter_step(pre, rv, gend, mode, feed@));
            assert(views_of(out@) == post.out);
            assert(progress@ == post.events);
        }
        i = i + 1;
    }
    proof {
        assert(rs.take(n as int) =~= rs);
        lemma_filter_trace_out(rs, gend, mode, feed@);
    }
    Ok(CopyOutput { records: out, stats: CopyStats { count, bytes }, progress })
}

} // verus!
