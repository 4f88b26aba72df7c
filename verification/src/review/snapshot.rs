//! All reviews of one scope.
use crate::clock::{now, Timestamp};
use crate::ids::Id;
use crate::review::record::{
    compacted_record, delivered_record, has_state, in_flight_comments, is_open,
    open_comments, recovered_record, stale_comments,
    DeliveryState, RecordModel, ReviewCommentRecord, ReviewIdentity, ReviewRecord,
};
use crate::text::same_text;
use std::collections::HashSet;
use vstd::prelude::*;
use vstd::string::*;

verus! {

/// The version of the form in which snapshots are stored.
pub const SCHEMA_VERSION: u32 = 1;

/// What is told of a review in a list.
#[derive(Debug, PartialEq, Eq)]
pub struct ReviewRecordSummary {
    pub identity: ReviewIdentity,
    pub created_at: Timestamp,
    pub updated_at: Timestamp,
    pub pending_count: usize,
    pub stale_count: usize,
    pub has_uncertain_delivery: bool,
}

/// The summary tells of the review.
pub open spec fn summarizes(summary: ReviewRecordSummary, record: RecordModel) -> bool {
    &&& summary.identity == record.identity
    &&& summary.created_at == record.created_at
    &&& summary.updated_at == record.updated_at
    &&& summary.pending_count == open_comments(record.comments).len()
    &&& summary.stale_count == stale_comments(record.comments).len()
    &&& summary.has_uncertain_delivery == has_state(record.comments, DeliveryState::Uncertain)
}

/// All reviews of one scope.
#[derive(Debug, PartialEq, Eq)]
pub struct ReviewStoreSnapshot {
    pub schema_version: u32,
    pub revision: u64,
    pub records: Vec<ReviewRecord>,
}

/// What the reviews of one scope are.
#[verifier::ext_equal]
pub ghost struct SnapshotModel {
    pub schema_version: u32,
    pub revision: u64,
    pub records: Seq<RecordModel>,
}

/// What the reviews of a list hold.
pub open spec fn record_models(records: Seq<ReviewRecord>) -> Seq<RecordModel> {
    records.map_values(|r: ReviewRecord| r@)
}

impl View for ReviewStoreSnapshot {
    type V = SnapshotModel;

    open spec fn view(&self) -> SnapshotModel {
        SnapshotModel {
            schema_version: self.schema_version,
            revision: self.revision,
            records: record_models(self.records@),
        }
    }
}

/// The snapshot of a scope that nothing is stored of.
pub open spec fn empty_snapshot() -> SnapshotModel {
    SnapshotModel { schema_version: SCHEMA_VERSION, revision: 0, records: Seq::empty() }
}

impl Default for ReviewStoreSnapshot {
    fn default() -> (r: Self)
        ensures
            r@ == empty_snapshot(),
    {
        let r = ReviewStoreSnapshot {
            schema_version: SCHEMA_VERSION,
            revision: 0,
            records: Vec::new(),
        };
        assert(r@ =~= empty_snapshot());
        r
    }
}

/// The review at place `i` is the first with the identifier.
pub open spec fn is_first_with(records: Seq<RecordModel>, review_id: Id, i: int) -> bool {
    &&& 0 <= i < records.len()
    &&& records[i].identity.review_id == review_id
    &&& forall|j: int| 0 <= j < i ==> (#[trigger] records[j]).identity.review_id != review_id
}

/// The review at place `i` is of the generation.
pub open spec fn is_of_generation(
    records: Seq<RecordModel>,
    generation: Seq<char>,
    i: int,
) -> bool {
    0 <= i < records.len() && records[i].identity.diff_generation@ == generation
}

/// The review at place `i` is the one of the generation that was updated last; of several that
/// were updated at the same time it is the last.
pub open spec fn is_current(records: Seq<RecordModel>, generation: Seq<char>, i: int) -> bool {
    &&& is_of_generation(records, generation, i)
    &&& forall|j: int| #[trigger]
        is_of_generation(records, generation, j) ==> !records[i].updated_at.earlier(
            records[j].updated_at,
        )
    &&& forall|j: int| #[trigger]
        is_of_generation(records, generation, j) && i < j ==> records[j].updated_at.earlier(
            records[i].updated_at,
        )
}

/// How many comments of the reviews are under way.
pub open spec fn in_flight_total(records: Seq<RecordModel>) -> nat
    decreases records.len(),
{
    if records.len() == 0 {
        0
    } else {
        in_flight_total(records.drop_last()) + in_flight_comments(records.last().comments).len()
    }
}

/// How many comments of the review are done with.
pub open spec fn closed_count(record: RecordModel) -> int {
    record.comments.len() - open_comments(record.comments).len()
}

/// How many comments of the reviews are done with.
pub open spec fn closed_total(records: Seq<RecordModel>) -> int
    decreases records.len(),
{
    if records.len() == 0 {
        0
    } else {
        closed_total(records.drop_last()) + closed_count(records.last())
    }
}

/// `after` is what `before` becomes once it is known that deliveries were interrupted, each
/// review at some time of its own.
pub open spec fn is_recovery(before: SnapshotModel, after: SnapshotModel) -> bool {
    &&& after.schema_version == before.schema_version
    &&& after.revision == before.revision
    &&& after.records.len() == before.records.len()
    &&& forall|i: int|
        0 <= i < before.records.len() ==> is_recovered(
            before.records[i],
            #[trigger] after.records[i],
        )
}

/// `after` is what the review `before` becomes once it is known that deliveries were
/// interrupted, at some time of the clock.
pub open spec fn is_recovered(before: RecordModel, after: RecordModel) -> bool {
    exists|at: Timestamp|
        at.nanos < 1_000_000_000 && after == #[trigger] recovered_record(before, at)
}

/// `after` is what `before` becomes by a delivery result, each review at some time of its own.
pub open spec fn is_delivery(
    before: SnapshotModel,
    after: SnapshotModel,
    ids: Set<u128>,
    state: DeliveryState,
) -> bool {
    &&& after.schema_version == before.schema_version
    &&& after.revision == before.revision
    &&& after.records.len() == before.records.len()
    &&& forall|i: int|
        0 <= i < before.records.len() ==> is_delivered(
            before.records[i],
            #[trigger] after.records[i],
            ids,
            state,
        )
}

/// `after` is what the review `before` becomes by a delivery result at some time of the clock.
pub open spec fn is_delivered(
    before: RecordModel,
    after: RecordModel,
    ids: Set<u128>,
    state: DeliveryState,
) -> bool {
    exists|at: Timestamp|
        at.nanos < 1_000_000_000 && after == #[trigger] delivered_record(before, ids, state, at)
}

/// The number as a machine word; the greatest there is where it is larger than that.
pub open spec fn clipped(n: int) -> int {
    if n <= usize::MAX {
        n
    } else {
        usize::MAX as int
    }
}

/// The number after `n`, or the greatest number.
pub open spec fn next_revision(n: u64) -> u64 {
    if n < u64::MAX {
        (n + 1) as u64
    } else {
        n
    }
}

/// The reviews without the comments that are done with, and without those reviews that are
/// left without comments.
pub open spec fn compacted_records(records: Seq<RecordModel>) -> Seq<RecordModel> {
    records.map_values(|r: RecordModel| compacted_record(r)).filter(
        |r: RecordModel| r.comments.len() > 0,
    )
}

/// The snapshot without the comments that are done with and without empty reviews. Its revision
/// is a new one where a comment went.
pub open spec fn compacted_snapshot(snapshot: SnapshotModel) -> SnapshotModel {
    SnapshotModel {
        schema_version: snapshot.schema_version,
        revision: if closed_total(snapshot.records) > 0 {
            next_revision(snapshot.revision)
        } else {
            snapshot.revision
        },
        records: compacted_records(snapshot.records),
    }
}

proof fn lemma_closed_count(record: RecordModel)
    ensures
        0 <= closed_count(record) <= record.comments.len(),
{
    record.comments.lemma_filter_len(|c: ReviewCommentRecord| is_open(c));
}

proof fn lemma_compacted_step(records: Seq<RecordModel>, i: int)
    requires
        0 <= i < records.len(),
    ensures
        compacted_records(records.take(i + 1)) == if compacted_record(records[i]).comments.len()
            > 0 {
            compacted_records(records.take(i)).push(compacted_record(records[i]))
        } else {
            compacted_records(records.take(i))
        },
{
    reveal(Seq::filter);
    let f = |r: RecordModel| compacted_record(r);
    assert(records.take(i + 1).map_values(f).drop_last() =~= records.take(i).map_values(f));
}

impl ReviewStoreSnapshot {
    /// What is told of each review, in order.
    pub fn summaries(&self) -> (r: Vec<ReviewRecordSummary>)
        ensures
            r@.len() == self@.records.len(),
            forall|i: int| 0 <= i < r@.len() ==> summarizes(#[trigger] r@[i], self@.records[i]),
    {
        let mut summaries: Vec<ReviewRecordSummary> = Vec::new();
        for i in 0..self.records.len()
            invariant
                summaries@.len() == i,
                forall|j: int|
                    0 <= j < i ==> summarizes(#[trigger] summaries@[j], self.records@[j]@),
        {
            let record = &self.records[i];
            summaries.push(
                ReviewRecordSummary {
                    identity: record.identity.clone(),
                    created_at: record.created_at,
                    updated_at: record.updated_at,
                    pending_count: record.pending_count(),
                    stale_count: record.stale_count(),
                    has_uncertain_delivery: record.has_uncertain(),
                },
            );
        }
        summaries
    }

    /// The place of the first review with the identifier.
    fn place(&self, review_id: Id) -> (r: Option<usize>)
        ensures
            match r {
                Some(i) => is_first_with(self@.records, review_id, i as int),
                None => forall|i: int|
                    0 <= i < self@.records.len() ==> (#[trigger] self@.records[i]).identity.review_id
                        != review_id,
            },
    {
        for i in 0..self.records.len()
            invariant
                forall|j: int|
                    0 <= j < i ==> (#[trigger] self@.records[j]).identity.review_id != review_id,
        {
            if self.records[i].identity.review_id == review_id {
                return Some(i);
            }
        }
        None
    }

    /// The first review with the identifier.
    pub fn select(&self, review_id: Id) -> (r: Option<&ReviewRecord>)
        ensures
            match r {
                Some(record) => exists|i: int| #[trigger]
                    is_first_with(self@.records, review_id, i) && *record == self.records@[i],
                None => forall|i: int|
                    0 <= i < self@.records.len() ==> (#[trigger] self@.records[i]).identity.review_id
                        != review_id,
            },
    {
        match self.place(review_id) {
            Some(i) => Some(&self.records[i]),
            None => None,
        }
    }

    /// The first review with the identifier, to be changed in its place. Nothing else changes.
    pub fn select_mut(&mut self, review_id: Id) -> (r: Option<&mut ReviewRecord>)
        ensures
            final(self).schema_version == old(self).schema_version,
            final(self).revision == old(self).revision,
            match r {
                Some(record) => exists|i: int| #[trigger]
                    is_first_with(old(self)@.records, review_id, i) && *record == old(
                        self,
                    ).records@[i] && final(self).records@ == old(self).records@.update(
                        i,
                        *final(record),
                    ),
                None => final(self).records@ == old(self).records@ && forall|i: int|
                    0 <= i < old(self)@.records.len() ==> (#[trigger] old(
                        self,
                    )@.records[i]).identity.review_id != review_id,
            },
    {
        match self.place(review_id) {
            Some(i) => {
                assert(is_first_with(self@.records, review_id, i as int));
                Some(&mut self.records[i])
            },
            None => None,
        }
    }

    /// The review of the generation that was updated last.
    pub fn select_current_generation(&self, generation: &str) -> (r: Option<&ReviewRecord>)
        ensures
            match r {
                Some(record) => exists|i: int| #[trigger]
                    is_current(self@.records, generation@, i) && *record == self.records@[i],
                None => forall|i: int| !#[trigger]
                    is_of_generation(self@.records, generation@, i),
            },
            r is None <==> forall|i: int|
                0 <= i < self.records@.len() ==> (
                #[trigger] self.records@[i]).identity.diff_generation@ != generation@,
    {
        let ghost all = self@.records;
        let mut best: Option<usize> = None;
        for i in 0..self.records.len()
            invariant
                all == self@.records,
                all.len() == self.records@.len(),
                match best {
                    Some(b) => b < i && is_current(all.take(i as int), generation@, b as int),
                    None => forall|j: int|
                        0 <= j < i ==> !#[trigger] is_of_generation(all, generation@, j),
                },
        {
            let record = &self.records[i];
            let ghost before = all.take(i as int);
            let ghost after = all.take(i + 1);
            assert(all[i as int] == record@);
            assert forall|j: int| 0 <= j <= i implies #[trigger] after[j] == all[j] by {}
            assert forall|j: int|
                #[trigger] is_of_generation(after, generation@, j) implies j == i
                || is_of_generation(before, generation@, j) by {
                assert(after[j] == all[j]);
            }
            if same_text(record.identity.diff_generation.as_str(), generation) {
                let newer = match best {
                    Some(b) => !record.updated_at.is_before(&self.records[b].updated_at),
                    None => true,
                };
                assert(is_of_generation(after, generation@, i as int));
                if newer {
                    assert forall|j: int| #[trigger]
                        is_of_generation(after, generation@, j) implies !after[i as int].updated_at.earlier(
                    after[j].updated_at) by {
                        if j != i {
                            assert(is_of_generation(all, generation@, j));
                            assert(best is Some);
                            let b = best->Some_0 as int;
                            assert(before[b] == all[b]);
                            assert(before[j] == all[j]);
                        }
                    }
                    best = Some(i);
                }
            } else {
                assert(!is_of_generation(all, generation@, i as int));
            }
            proof {
                if best is Some {
                    let b = best->Some_0 as int;
                    if b < i {
                        assert(before[b] == all[b] && after[b] == all[b]);
                        assert(is_of_generation(before, generation@, b));
                        assert forall|j: int| #[trigger]
                            is_of_generation(after, generation@, j) implies !after[b].updated_at.earlier(
                        after[j].updated_at) && (b < j ==> after[j].updated_at.earlier(
                            after[b].updated_at,
                        )) by {
                            if j < i {
                                assert(before[j] == all[j]);
                            }
                        }
                    }
                    assert(is_current(after, generation@, b));
                }
            }
        }
        assert(all.take(all.len() as int) =~= all);
        proof {
            if best is Some {
                let b = best->Some_0 as int;
                assert(is_of_generation(all, generation@, b));
                assert(all[b] == self.records@[b]@);
                assert(self.records@[b].identity.diff_generation@ == generation@);
            } else {
                assert forall|i: int| 0 <= i < self.records@.len() implies (
                #[trigger] self.records@[i]).identity.diff_generation@ != generation@ by {
                    assert(!is_of_generation(all, generation@, i));
                    assert(all[i] == self.records@[i]@);
                }
            }
        }
        match best {
            Some(b) => Some(&self.records[b]),
            None => None,
        }
    }

    /// Marks the comments that were under way as uncertain.
    pub(crate) fn recover(&mut self)
        ensures
            is_recovery(old(self)@, final(self)@),
    {
        let ghost before = self@;
        let len = self.records.len();
        let mut i: usize = 0;
        while i < len
            invariant
                i <= len,
                len == before.records.len(),
                self.schema_version == before.schema_version,
                self.revision == before.revision,
                self.records@.len() == len,
                forall|j: int|
                    0 <= j < i ==> is_recovered(before.records[j], #[trigger] self.records@[j]@),
                forall|j: int| i <= j < len ==> #[trigger] self.records@[j]@ == before.records[j],
            decreases len - i,
        {
            assert(self.records@[i as int]@ == before.records[i as int]);
            if self.records[i].in_flight_count() > 0 {
                let at = now();
                self.records[i].recover_at(at);
                assert(self.records@[i as int]@ == recovered_record(before.records[i as int], at));
            } else {
                let ghost record = before.records[i as int];
                let ghost any = Timestamp { seconds: 0, nanos: 0 };
                assert(record =~= recovered_record(record, any)) by {
                    assert(record.comments =~= recovered_record(record, any).comments);
                }
            }
            i = i + 1;
        }
    }

    /// Marks the comments that were under way as uncertain, and counts them.
    pub fn recover_in_flight(&mut self) -> (r: usize)
        ensures
            r == clipped(in_flight_total(old(self)@.records) as int),
            is_recovery(old(self)@, final(self)@),
    {
        let ghost all = self@.records;
        let mut recovered: usize = 0;
        for i in 0..self.records.len()
            invariant
                all == self@.records,
                recovered == clipped(in_flight_total(all.take(i as int)) as int),
        {
            proof {
                assert(all.take(i + 1).drop_last() =~= all.take(i as int));
                assert(all[i as int] == self.records@[i as int]@);
            }
            recovered = recovered.saturating_add(self.records[i].in_flight_count());
        }
        assert(all.take(all.len() as int) =~= all);
        self.recover();
        recovered
    }

    /// Sets the state of the comments that have one of the identifiers.
    pub(crate) fn deliver(&mut self, ids: &HashSet<u128>, state: DeliveryState)
        ensures
            is_delivery(old(self)@, final(self)@, ids@, state),
    {
        let ghost before = self@;
        let len = self.records.len();
        let mut i: usize = 0;
        while i < len
            invariant
                i <= len,
                len == before.records.len(),
                self.schema_version == before.schema_version,
                self.revision == before.revision,
                self.records@.len() == len,
                forall|j: int|
                    0 <= j < i ==> is_delivered(
                        before.records[j],
                        #[trigger] self.records@[j]@,
                        ids@,
                        state,
                    ),
                forall|j: int| i <= j < len ==> #[trigger] self.records@[j]@ == before.records[j],
            decreases len - i,
        {
            assert(self.records@[i as int]@ == before.records[i as int]);
            let at = now();
            self.records[i].deliver_at(ids, state, at);
            assert(self.records@[i as int]@ == delivered_record(
                before.records[i as int],
                ids@,
                state,
                at,
            ));
            i = i + 1;
        }
    }

    /// Removes the comments that are done with, and the reviews that are left without comments;
    /// says whether a comment went.
    pub(crate) fn drop_closed(&mut self) -> (r: bool)
        ensures
            r == (closed_total(old(self)@.records) > 0),
            final(self)@ == compacted_snapshot(old(self)@),
    {
        let ghost before = self@;
        let ghost all = self@.records;
        let mut records: Vec<ReviewRecord> = Vec::new();
        std::mem::swap(&mut records, &mut self.records);
        let ghost taken = records@;
        let mut kept: Vec<ReviewRecord> = Vec::new();
        let mut removed = false;
        for record in it: records
            invariant
                it.seq() == taken,
                all == record_models(taken),
                record_models(kept@) == compacted_records(all.take(it.index() as int)),
                removed == (closed_total(all.take(it.index() as int)) > 0),
                closed_total(all.take(it.index() as int)) >= 0,
        {
            let ghost i = it.index() as int;
            proof {
                assert(all[i] == record@);
                lemma_compacted_step(all, i);
                lemma_closed_count(all[i]);
                assert(all.take(i + 1).drop_last() =~= all.take(i));
            }
            let count = record.comments.len();
            let record = record.compacted();
            if record.comments.len() < count {
                removed = true;
            }
            if record.comments.len() > 0 {
                let ghost earlier = record_models(kept@);
                kept.push(record);
                assert(record_models(kept@) =~= earlier.push(record@));
            }
        }
        assert(all.take(all.len() as int) =~= all);
        self.records = kept;
        if removed {
            self.revision = self.revision.saturating_add(1);
        }
        assert(self@ =~= compacted_snapshot(before));
        removed
    }

    /// How many comments are done with.
    fn closed(&self) -> (r: usize)
        ensures
            r == clipped(closed_total(self@.records)),
    {
        let ghost all = self@.records;
        let mut closed: usize = 0;
        for i in 0..self.records.len()
            invariant
                all == self@.records,
                closed == clipped(closed_total(all.take(i as int))),
                closed_total(all.take(i as int)) >= 0,
        {
            let record = &self.records[i];
            proof {
                assert(all.take(i + 1).drop_last() =~= all.take(i as int));
                assert(all[i as int] == record@);
                lemma_closed_count(record@);
            }
            closed = closed.saturating_add(record.comments.len() - record.pending_count());
        }
        assert(all.take(all.len() as int) =~= all);
        closed
    }

    /// Removes the acknowledged and discarded comments, and the reviews that are left without
    /// comments; counts the comments that went. Pending and uncertain intent is never removed.
    pub fn compact(&mut self) -> (r: usize)
        ensures
            r == clipped(closed_total(old(self)@.records)),
            final(self)@ == compacted_snapshot(old(self)@),
    {
        let removed = self.closed();
        self.drop_closed();
        removed
    }

    /// Changes the reviews, under a new revision where the change succeeds. Every change of the
    /// owner goes through here.
    pub fn mutate<E, F>(&mut self, mutation: F) -> (r: Result<(), E>) where
        F: FnOnce(&mut Vec<ReviewRecord>) -> Result<(), E>,

        requires
            forall|records: &mut Vec<ReviewRecord>|
                *records == old(self).records ==> call_requires(mutation, (records,)),
        ensures
            final(self).schema_version == old(self).schema_version,
            final(self).revision == if r is Ok {
                next_revision(old(self).revision)
            } else {
                old(self).revision
            },
            exists|records: &mut Vec<ReviewRecord>|
                *records == old(self).records && #[trigger] call_ensures(mutation, (records,), r)
                    && *final(records) == final(self).records,
    {
        let r = mutation(&mut self.records);
        if r.is_ok() {
            self.revision = self.revision.saturating_add(1);
        }
        r
    }
}

} // verus!
