//! The in-memory image of an offset log: records carrying their start offset
//! and raw payload bytes, in read order.

use vstd::prelude::*;

verus! {

/// One record of a log: the byte offset of its start within the log, which
/// also serves as its stable identifier, and its raw payload bytes.
pub struct Record {
    pub offset: u64,
    pub payload: Vec<u8>,
}

/// The mathematical image of a record: its offset and its payload bytes.
#[verifier::ext_equal]
pub ghost struct RecordView {
    pub offset: u64,
    pub payload: Seq<u8>,
}

impl View for Record {
    type V = RecordView;

    open spec fn view(&self) -> RecordView {
        RecordView { offset: self.offset, payload: self.payload@ }
    }
}

impl Record {
    /// A copy of this record, byte-identical payload included.
    pub fn duplicate(&self) -> (r: Record)
        ensures
            r@ == self@,
    {
        let payload = self.payload.clone();
        proof {
            assert(payload@ =~= self.payload@);
        }
        Record { offset: self.offset, payload }
    }
}

/// The images of a run of records, in the same order.
pub open spec fn views_of(rs: Seq<Record>) -> Seq<RecordView> {
    rs.map_values(|r: Record| r@)
}

/// A log as the pipelines see it: the records in read order, and the log's
/// exclusive end offset (`0` means the log is empty).
pub struct Log {
    pub records: Vec<Record>,
    pub end: u64,
}

impl Log {
    /// The images of the log's records, in read order.
    pub open spec fn recs(self) -> Seq<RecordView> {
        views_of(self.records@)
    }

    /// Offsets are strictly increasing in read order and lie below `end`.
    pub open spec fn wf(self) -> bool {
        &&& forall|i: int, j: int|
            0 <= i < j < self.recs().len() ==> #[trigger] self.recs()[i].offset
                < #[trigger] self.recs()[j].offset
        &&& forall|i: int| 0 <= i < self.recs().len() ==> (#[trigger] self.recs()[i]).offset < self.end
    }

    /// An offset identifies at most one record of a well-formed log.
    pub proof fn lemma_offsets_unique(self, i: int, j: int)
        requires
            self.wf(),
            0 <= i < self.recs().len(),
            0 <= j < self.recs().len(),
            self.recs()[i].offset == self.recs()[j].offset,
        ensures
            i == j,
    {
    }
}

/// The sum of the payload lengths of a run of records.
pub open spec fn total_bytes(rs: Seq<RecordView>) -> int
    decreases rs.len(),
{
    if rs.len() == 0 {
        0
    } else {
        total_bytes(rs.drop_last()) + rs.last().payload.len()
    }
}

/// Payload lengths are non-negative, so every prefix weighs no more than the
/// whole run.
pub proof fn lemma_total_bytes_take(rs: Seq<RecordView>, i: int)
    requires
        0 <= i <= rs.len(),
    ensures
        0 <= total_bytes(rs.take(i)) <= total_bytes(rs),
    decreases rs.len(),
{
    if rs.len() == 0 {
        assert(rs.take(i) =~= rs);
    } else if i == rs.len() {
        assert(rs.take(i) =~= rs);
        lemma_total_bytes_take(rs.drop_last(), rs.len() - 1);
        assert(rs.drop_last().take(rs.len() - 1) =~= rs.drop_last());
    } else {
        assert(rs.drop_last().take(i) =~= rs.take(i));
        lemma_total_bytes_take(rs.drop_last(), i);
    }
}

} // verus!
