//! The history of opportunities: one record per opportunity and refresh, in a
//! file of one JSON document per line, the newest last.
use crate::models::{Config, Opportunity, OpportunityRecord, OpportunityView, RecordView, Snapshot};
use crate::scalar::Scalar;
use crate::text::{ascii_space, blank, is_ascii_text, is_blank};
use vstd::prelude::*;
use vstd::string::*;

verus! {

/// Where the history is kept, and how many records of it are held in memory.
#[derive(Debug)]
pub struct HistoryStore {
    pub path: String,
    pub max_records: usize,
}

impl Clone for HistoryStore {
    fn clone(&self) -> (r: Self)
        ensures
            r == *self,
    {
        HistoryStore { path: self.path.clone(), max_records: self.max_records }
    }
}

/// The newest records, `max` of them at most.
pub open spec fn newest<T>(records: Seq<T>, max: int) -> Seq<T> {
    if records.len() > max {
        records.skip(records.len() - max)
    } else {
        records
    }
}

/// The record of an opportunity.
pub open spec fn record_spec<N>(
    opportunity: OpportunityView<N>,
    generated_at: Seq<char>,
    recorded_at: Seq<char>,
    min_annualized: N,
) -> RecordView<N> {
    RecordView {
        record_id: generated_at + ":"@ + opportunity.id,
        recorded_at,
        snapshot_generated_at: generated_at,
        min_annualized,
        opportunity,
    }
}

/// The records of a vector.
pub open spec fn record_views<N>(v: Seq<OpportunityRecord<N>>) -> Seq<RecordView<N>> {
    v.map_values(|x: OpportunityRecord<N>| x@)
}

/// The records of the opportunities of a snapshot, in order.
pub open spec fn snapshot_records<N>(snapshot: Snapshot<N>, recorded_at: Seq<char>) -> Seq<RecordView<N>> {
    snapshot.opportunities@.map_values(
        |o: Opportunity<N>|
            record_spec(o@, snapshot.generated_at@, recorded_at, snapshot.config.min_annualized),
    )
}

impl HistoryStore {
    /// The store that a configuration names.
    pub fn from_config<N: Scalar>(config: &Config<N>) -> (r: Self)
        ensures
            r.path@ == config.history_path@,
            r.max_records == config.history_max_records,
    {
        HistoryStore { path: config.history_path.clone(), max_records: config.history_max_records }
    }

    /// The records of a file, without the oldest beyond the limit.
    pub fn load_recent<T>(&self, records: Vec<T>) -> (r: Vec<T>)
        ensures
            r@ == newest(records@, self.max_records as int),
    {
        let mut recent: Vec<T> = records;
        trim_to_limit(&mut recent, self.max_records);
        recent
    }

    /// The records that a snapshot appends: one for each of its opportunities.
    pub fn append_snapshot<N: Scalar>(&self, snapshot: &Snapshot<N>, recorded_at: &str) -> (r: Vec<
        OpportunityRecord<N>,
    >)
        ensures
            record_views(r@) == snapshot_records(*snapshot, recorded_at@),
    {
        let mut out: Vec<OpportunityRecord<N>> = Vec::new();
        let n: usize = snapshot.opportunities.len();
        let ghost all = snapshot_records(*snapshot, recorded_at@);
        let mut i: usize = 0;
        proof {
            assert(record_views(out@) =~= all.take(0));
        }
        while i < n
            invariant
                i <= n,
                n == snapshot.opportunities@.len(),
                all == snapshot_records(*snapshot, recorded_at@),
                record_views(out@) == all.take(i as int),
            decreases n - i,
        {
            let ghost before = out@;
            let opportunity: Opportunity<N> = snapshot.opportunities[i].clone();
            let mut record_id = snapshot.generated_at.clone();
            record_id.append(":");
            record_id.append(opportunity.id.as_str());
            let record = OpportunityRecord {
                record_id,
                recorded_at: recorded_at.to_owned(),
                snapshot_generated_at: snapshot.generated_at.clone(),
                min_annualized: snapshot.config.min_annualized,
                opportunity,
            };
            out.push(record);
            proof {
                assert(record@ == all[i as int]);
                assert(record_views(out@) =~= record_views(before).push(record@));
                assert(all.take(i + 1) =~= all.take(i as int).push(all[i as int]));
            }
            i = i + 1;
        }
        proof {
            assert(all.take(n as int) =~= all);
        }
        out
    }

    /// Drops the oldest records beyond the limit.
    pub fn trim_to_limit<T>(&self, records: &mut Vec<T>)
        ensures
            final(records)@ == newest(old(records)@, self.max_records as int),
    {
        trim_to_limit(records, self.max_records);
    }

    /// Takes in new records behind those that are held, and drops the oldest
    /// beyond the limit.
    pub fn keep_records<T>(&self, held: &mut Vec<T>, fresh: Vec<T>)
        ensures
            final(held)@ == newest(old(held)@ + fresh@, self.max_records as int),
    {
        let mut fresh = fresh;
        held.append(&mut fresh);
        trim_to_limit(held, self.max_records);
    }
}

/// Drops the oldest records beyond a limit.
pub fn trim_to_limit<T>(records: &mut Vec<T>, max_records: usize)
    ensures
        final(records)@ == newest(old(records)@, max_records as int),
{
    let n: usize = records.len();
    if n > max_records {
        let kept: Vec<T> = records.split_off(n - max_records);
        *records = kept;
    }
}

/// Whether a line of the file holds a record: it is not blank.
pub fn holds_record(line: &str) -> (r: bool)
    ensures
        r == !blank(line@),
        is_ascii_text(line@) ==> r == (exists|i: int| 0 <= i < line@.len() && !ascii_space(#[trigger] line@[i])),
{
    !is_blank(line)
}

// ---------------------------------------------------------------------------
// Laws
// ---------------------------------------------------------------------------
/// No more than the limit is held, and what is held is the end of what was
/// taken in: the newest record stays wherever anything may be held.
pub proof fn newest_is_bounded<T>(records: Seq<T>, max: nat)
    ensures
        newest(records, max as int).len() <= max,
        records.len() <= max ==> newest(records, max as int) == records,
        records.len() > 0 && max > 0 ==> newest(records, max as int).last() == records.last(),
        forall|i: int|
            0 <= i < newest(records, max as int).len() ==> #[trigger] newest(records, max as int)[i]
                == records[records.len() - newest(records, max as int).len() + i],
{
}

/// Trimming as records come in keeps the same records as trimming them all at
/// the end.
pub proof fn trimming_often_is_trimming_once<T>(held: Seq<T>, fresh: Seq<T>, max: nat)
    ensures
        newest(newest(held, max as int) + fresh, max as int) == newest(held + fresh, max as int),
{
    let a = newest(newest(held, max as int) + fresh, max as int);
    let b = newest(held + fresh, max as int);
    assert(a.len() == b.len());
    assert(a =~= b);
}

/// Every opportunity of a snapshot gets a record of its own, which names the
/// snapshot and the threshold that the opportunity passed.
pub proof fn every_opportunity_is_recorded<N>(snapshot: Snapshot<N>, recorded_at: Seq<char>, i: int)
    requires
        0 <= i < snapshot.opportunities@.len(),
    ensures
        snapshot_records(snapshot, recorded_at).len() == snapshot.opportunities@.len(),
        ({
            let record = snapshot_records(snapshot, recorded_at)[i];
            &&& record.opportunity == snapshot.opportunities@[i]@
            &&& record.snapshot_generated_at == snapshot.generated_at@
            &&& record.recorded_at == recorded_at
            &&& record.min_annualized == snapshot.config.min_annualized
            &&& record.record_id == snapshot.generated_at@ + ":"@ + snapshot.opportunities@[i].id@
        }),
{
}

} // verus!
