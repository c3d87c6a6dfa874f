//! Tolerant integrity scanner: one forward pass that reports, for every
//! record, whether its payload parses as JSON. A malformed record is reported
//! and never halts the scan.

use vstd::prelude::*;

use crate::codec::{json_error_of, parse_error_text};
use crate::record::Log;

verus! {

/// The parse outcome of one record.
pub enum ScanOutcome {
    /// The payload parses as JSON.
    Valid,
    /// The payload does not parse; the parser's error text.
    Broken(String),
}

/// The image of an outcome: `None` for a valid record, the error text
/// otherwise.
pub open spec fn outcome_view(o: ScanOutcome) -> Option<Seq<char>> {
    match o {
        ScanOutcome::Valid => None,
        ScanOutcome::Broken(m) => Some(m@),
    }
}

/// One line of the scanner's report: a record's offset and its parse outcome.
pub struct ScanEntry {
    pub offset: u64,
    pub outcome: ScanOutcome,
}

/// Scans a whole log: the report carries exactly one entry per record, in read
/// order, each naming the record's offset and its parse outcome.
pub fn scan(source: &Log) -> (report: Vec<ScanEntry>)
    ensures
        report@.len() == source.recs().len(),
        forall|i: int|
            0 <= i < report@.len() ==> (#[trigger] report@[i]).offset == source.recs()[i].offset
                && outcome_view(report@[i].outcome) == json_error_of(source.recs()[i].payload),
{
    let ghost rs = source.recs();
    let n = source.records.len();
    let mut report: Vec<ScanEntry> = Vec::new();
    let mut i: usize = 0;
    while i < n
        invariant
            rs == source.recs(),
            n == rs.len(),
            0 <= i <= n,
            report@.len() == i,
            forall|k: int|
                0 <= k < i ==> (#[trigger] report@[k]).offset == rs[k].offset && outcome_view(
                    report@[k].outcome,
                ) == json_error_of(rs[k].payload),
        decreases n - i,
    {
        let rec = &source.records[i];
        proof {
            assert(rec@ == rs[i as int]);
        }
        let outcome = match parse_error_text(rec.payload.as_slice()) {
            None => ScanOutcome::Valid,
            Some(msg) => ScanOutcome::Broken(msg),
        };
        proof {
            assert(outcome_view(outcome) == json_error_of(rs[i as int].payload));
        }
        report.push(ScanEntry { offset: rec.offset, outcome });
        i = i + 1;
    }
    report
}

} // verus!
