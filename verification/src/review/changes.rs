//! What changes of a review, comment by comment, and what is counted of it.
use crate::clock::Timestamp;
use crate::ids::Id;
use crate::review::laws::{compaction_keeps_open_comments, compaction_leaves_open_comments_only};
use crate::review::record::{
    compacted_record, delivered_record, has_any, has_state, in_flight_comments, is_open, is_stale,
    open_comments, recovered_record, stale_comments, stale_comments_are_pending, DeliveryState,
    RecordModel, ReviewCommentRecord, ReviewRecord, ReviewTarget,
};
use crate::review::snapshot::{
    clipped, closed_count, closed_total, compacted_records, compacted_snapshot, in_flight_total,
    is_current, is_delivered, is_delivery, is_first_with, is_of_generation, is_recovered,
    is_recovery, next_revision, summarizes, ReviewRecordSummary, ReviewStoreSnapshot, SnapshotModel,
};
use crate::review::scope::{scope_key, ReviewScope};
use crate::review::store::{
    id_set, is_load_error, is_loadable, is_settled, stored_model, ReviewStoreError, StoredSnapshot,
};
use vstd::prelude::*;

verus! {

// ---------------------------------------------------------------------------------------
// Delivery
// ---------------------------------------------------------------------------------------

/// A delivery result for a review: each comment with one of the identifiers comes into the state
/// of the result, and nothing else of it changes; the others stay as they are, and so do the
/// identity of the review and the time when it was made. The review was updated at the time of
/// the result where it holds such a comment, and is as it was where it holds none.
pub proof fn delivery_of_a_review(
    record: RecordModel,
    ids: Set<u128>,
    state: DeliveryState,
    at: Timestamp,
)
    ensures
        ({
            let after = delivered_record(record, ids, state, at);
            &&& after.identity == record.identity
            &&& after.created_at == record.created_at
            &&& after.comments.len() == record.comments.len()
            &&& forall|j: int|
                0 <= j < record.comments.len() ==> #[trigger] after.comments[j] == (
                ReviewCommentRecord {
                    state: if ids.contains(record.comments[j].id.bits) {
                        state
                    } else {
                        record.comments[j].state
                    },
                    ..record.comments[j]
                })
            &&& (exists|j: int|
                0 <= j < record.comments.len() && ids.contains(
                    (#[trigger] record.comments[j]).id.bits,
                )) ==> after.updated_at == at
            &&& (forall|j: int|
                0 <= j < record.comments.len() ==> !ids.contains(
                    (#[trigger] record.comments[j]).id.bits,
                )) ==> after == record
        }),
{
    let after = delivered_record(record, ids, state, at);
    if exists|j: int|
        0 <= j < record.comments.len() && ids.contains((#[trigger] record.comments[j]).id.bits) {
        let j = choose|j: int|
            0 <= j < record.comments.len() && ids.contains(
                (#[trigger] record.comments[j]).id.bits,
            );
        assert(ids.contains(record.comments[j].id.bits));
        assert(has_any(record.comments, ids));
    } else {
        assert(!has_any(record.comments, ids));
        assert(after.comments =~= record.comments);
    }
}

/// A delivery result leaves a review as it is, its time included, where no comment of it has one
/// of the identifiers; whatever the identifiers are.
pub proof fn delivery_leaves_other_reviews(
    before: SnapshotModel,
    after: SnapshotModel,
    ids: Set<u128>,
    state: DeliveryState,
    i: int,
)
    requires
        is_delivery(before, after, ids, state),
        0 <= i < before.records.len(),
        forall|j: int|
            0 <= j < before.records[i].comments.len() ==> !ids.contains(
                (#[trigger] before.records[i].comments[j]).id.bits,
            ),
    ensures
        after.records[i] == before.records[i],
{
    let record = before.records[i];
    assert(is_delivered(record, after.records[i], ids, state));
    let at = choose|at: Timestamp|
        at.nanos < 1_000_000_000 && after.records[i] == #[trigger] delivered_record(
            record,
            ids,
            state,
            at,
        );
    delivery_of_a_review(record, ids, state, at);
}

/// A delivery result keeps the number of reviews, the revision and the version. Of a comment it
/// changes the state alone, and that to the state of the result exactly where the comment has one
/// of the identifiers. A review that holds such a comment keeps its identity and the time when it
/// was made.
pub proof fn delivery_changes_states_only(
    before: SnapshotModel,
    after: SnapshotModel,
    ids: Set<u128>,
    state: DeliveryState,
    i: int,
    j: int,
)
    requires
        is_delivery(before, after, ids, state),
        0 <= i < before.records.len(),
        0 <= j < before.records[i].comments.len(),
    ensures
        after.schema_version == before.schema_version,
        after.revision == before.revision,
        after.records.len() == before.records.len(),
        after.records[i].identity == before.records[i].identity,
        after.records[i].created_at == before.records[i].created_at,
        after.records[i].comments.len() == before.records[i].comments.len(),
        after.records[i].comments[j] == (ReviewCommentRecord {
            state: if ids.contains(before.records[i].comments[j].id.bits) {
                state
            } else {
                before.records[i].comments[j].state
            },
            ..before.records[i].comments[j]
        }),
{
    let record = before.records[i];
    assert(is_delivered(record, after.records[i], ids, state));
    let at = choose|at: Timestamp|
        at.nanos < 1_000_000_000 && after.records[i] == #[trigger] delivered_record(
            record,
            ids,
            state,
            at,
        );
    delivery_of_a_review(record, ids, state, at);
}

// ---------------------------------------------------------------------------------------
// Recovery
// ---------------------------------------------------------------------------------------

/// A recovery of a review: the delivery of each comment that was under way is uncertain, and
/// nothing else of it changes; the others stay as they are, and so do the identity of the review
/// and the time when it was made. The review was updated at the time of the recovery where a
/// comment was under way, and is as it was where none was.
pub proof fn recovery_of_a_review(record: RecordModel, at: Timestamp)
    ensures
        ({
            let after = recovered_record(record, at);
            &&& after.identity == record.identity
            &&& after.created_at == record.created_at
            &&& after.comments.len() == record.comments.len()
            &&& forall|j: int|
                0 <= j < record.comments.len() ==> #[trigger] after.comments[j] == (
                ReviewCommentRecord {
                    state: if record.comments[j].state == DeliveryState::InFlight {
                        DeliveryState::Uncertain
                    } else {
                        record.comments[j].state
                    },
                    ..record.comments[j]
                })
            &&& (exists|j: int|
                0 <= j < record.comments.len() && (#[trigger] record.comments[j]).state
                    == DeliveryState::InFlight) ==> after.updated_at == at
            &&& (forall|j: int|
                0 <= j < record.comments.len() ==> (#[trigger] record.comments[j]).state
                    != DeliveryState::InFlight) ==> after == record
        }),
{
    let after = recovered_record(record, at);
    if exists|j: int|
        0 <= j < record.comments.len() && (#[trigger] record.comments[j]).state
            == DeliveryState::InFlight {
        let j = choose|j: int|
            0 <= j < record.comments.len() && (#[trigger] record.comments[j]).state
                == DeliveryState::InFlight;
        assert(record.comments[j].state == DeliveryState::InFlight);
        assert(has_state(record.comments, DeliveryState::InFlight));
    } else {
        assert(!has_state(record.comments, DeliveryState::InFlight));
        assert(after.comments =~= record.comments);
    }
}

/// A recovery leaves a review as it is, its time included, where no comment of it is under way,
/// whatever stands in the other reviews.
pub proof fn recovery_leaves_other_reviews(before: SnapshotModel, after: SnapshotModel, i: int)
    requires
        is_recovery(before, after),
        0 <= i < before.records.len(),
        forall|j: int|
            0 <= j < before.records[i].comments.len() ==> (
            #[trigger] before.records[i].comments[j]).state != DeliveryState::InFlight,
    ensures
        after.schema_version == before.schema_version,
        after.revision == before.revision,
        after.records.len() == before.records.len(),
        after.records[i] == before.records[i],
{
    let record = before.records[i];
    assert(is_recovered(record, after.records[i]));
    let at = choose|at: Timestamp|
        at.nanos < 1_000_000_000 && after.records[i] == #[trigger] recovered_record(record, at);
    recovery_of_a_review(record, at);
}

// ---------------------------------------------------------------------------------------
// Counts
// ---------------------------------------------------------------------------------------

proof fn lemma_filter_of_one<A>(a: A, p: spec_fn(A) -> bool)
    ensures
        seq![a].filter(p) == if p(a) {
            seq![a]
        } else {
            Seq::empty()
        },
{
    reveal_with_fuel(Seq::filter, 3);
    assert(seq![a].drop_last() =~= Seq::empty());
    assert(Seq::<A>::empty().push(a) =~= seq![a]);
}

/// A comment is pending unless it was acknowledged or discarded; it is stale where it is pending
/// and speaks of a hunk that is no longer there; and it is under way in one state only.
pub proof fn counted_comments(c: ReviewCommentRecord)
    ensures
        open_comments(seq![c]) == if c.state == DeliveryState::Acknowledged || c.state
            == DeliveryState::Discarded {
            Seq::empty()
        } else {
            seq![c]
        },
        stale_comments(seq![c]) == if c.state != DeliveryState::Acknowledged && c.state
            != DeliveryState::Discarded && (c.target matches ReviewTarget::Hunk { stale, .. }
            && stale) {
            seq![c]
        } else {
            Seq::empty()
        },
        in_flight_comments(seq![c]) == if c.state == DeliveryState::InFlight {
            seq![c]
        } else {
            Seq::empty()
        },
{
    lemma_filter_of_one(c, |c: ReviewCommentRecord| is_open(c));
    lemma_filter_of_one(
        c,
        |c: ReviewCommentRecord| is_stale(c.target) && is_open(c),
    );
    lemma_filter_of_one(c, |c: ReviewCommentRecord| c.state is InFlight);
}

/// The pending, the stale and the running comments of two lists are those of the first, followed
/// by those of the second.
pub proof fn comments_are_counted_one_by_one(
    a: Seq<ReviewCommentRecord>,
    b: Seq<ReviewCommentRecord>,
)
    ensures
        open_comments(a + b) == open_comments(a) + open_comments(b),
        stale_comments(a + b) == stale_comments(a) + stale_comments(b),
        in_flight_comments(a + b) == in_flight_comments(a) + in_flight_comments(b),
{
    Seq::filter_distributes_over_add(a, b, |c: ReviewCommentRecord| is_open(c));
    Seq::filter_distributes_over_add(
        a,
        b,
        |c: ReviewCommentRecord| is_stale(c.target) && is_open(c),
    );
    Seq::filter_distributes_over_add(a, b, |c: ReviewCommentRecord| c.state is InFlight);
}

/// A summary tells how many comments of the review are pending and how many of those are stale, as
/// they are counted one by one, and whether the delivery of some comment is uncertain. The rest of
/// it is the review's own.
pub proof fn summaries_tell_of_the_review(summary: ReviewRecordSummary, record: RecordModel)
    requires
        summarizes(summary, record),
    ensures
        summary.identity == record.identity,
        summary.created_at == record.created_at,
        summary.updated_at == record.updated_at,
        summary.pending_count == open_comments(record.comments).len(),
        summary.stale_count == stale_comments(record.comments).len(),
        summary.has_uncertain_delivery <==> exists|j: int|
            0 <= j < record.comments.len() && (#[trigger] record.comments[j]).state
                == DeliveryState::Uncertain,
        summary.stale_count <= summary.pending_count,
{
    stale_comments_are_pending(record.comments);
    if exists|j: int|
        0 <= j < record.comments.len() && (#[trigger] record.comments[j]).state
            == DeliveryState::Uncertain {
        let j = choose|j: int|
            0 <= j < record.comments.len() && (#[trigger] record.comments[j]).state
                == DeliveryState::Uncertain;
        assert(record.comments[j].state == DeliveryState::Uncertain);
    }
}

// ---------------------------------------------------------------------------------------
// Compaction
// ---------------------------------------------------------------------------------------

/// One review is left by a compaction as it is, but for its closed comments; a review without a
/// pending comment goes. Of its comments as many count as running or as closed as are.
pub proof fn compaction_of_a_review(record: RecordModel)
    ensures
        compacted_records(seq![record]) == if open_comments(record.comments).len() == 0 {
            Seq::empty()
        } else {
            seq![RecordModel { comments: open_comments(record.comments), ..record }]
        },
        in_flight_total(seq![record]) == in_flight_comments(record.comments).len(),
        closed_total(seq![record]) == record.comments.len() - open_comments(record.comments).len(),
{
    let f = |r: RecordModel| compacted_record(r);
    let p = |r: RecordModel| r.comments.len() > 0;
    assert(seq![record].map_values(f) =~= seq![compacted_record(record)]);
    lemma_filter_of_one(compacted_record(record), p);
    reveal_with_fuel(in_flight_total, 2);
    reveal_with_fuel(closed_total, 2);
    assert(seq![record].drop_last() =~= Seq::empty());
}

/// What a compaction leaves of two lists of reviews is what it leaves of the first, followed by
/// what it leaves of the second; and comments are counted alike.
pub proof fn reviews_are_compacted_one_by_one(a: Seq<RecordModel>, b: Seq<RecordModel>)
    ensures
        compacted_records(a + b) == compacted_records(a) + compacted_records(b),
        in_flight_total(a + b) == in_flight_total(a) + in_flight_total(b),
        closed_total(a + b) == closed_total(a) + closed_total(b),
    decreases b.len(),
{
    let f = |r: RecordModel| compacted_record(r);
    let p = |r: RecordModel| r.comments.len() > 0;
    assert((a + b).map_values(f) =~= a.map_values(f) + b.map_values(f));
    Seq::filter_distributes_over_add(a.map_values(f), b.map_values(f), p);
    if b.len() > 0 {
        reviews_are_compacted_one_by_one(a, b.drop_last());
        assert((a + b).drop_last() =~= a + b.drop_last());
    } else {
        assert(a + b =~= a);
    }
}

proof fn lemma_closed_total(records: Seq<RecordModel>)
    ensures
        closed_total(records) >= 0,
        closed_total(records) > 0 <==> exists|i: int, j: int|
            0 <= i < records.len() && 0 <= j < records[i].comments.len() && !is_open(
                #[trigger] records[i].comments[j],
            ),
    decreases records.len(),
{
    if records.len() > 0 {
        let rest = records.drop_last();
        let comments = records.last().comments;
        let p = |c: ReviewCommentRecord| is_open(c);
        lemma_closed_total(rest);
        comments.lemma_filter_len(p);
        assert(closed_count(records.last()) >= 0);
        if forall|j: int| 0 <= j < comments.len() ==> is_open(#[trigger] comments[j]) {
            lemma_all_open(comments);
        } else {
            let j = choose|j: int| 0 <= j < comments.len() && !is_open(#[trigger] comments[j]);
            lemma_some_closed(comments, j);
            let i = records.len() - 1;
            assert(!is_open(records[i].comments[j]));
        }
        assert forall|i: int, j: int|
            0 <= i < records.len() && 0 <= j < records[i].comments.len() && !is_open(
                #[trigger] records[i].comments[j],
            ) implies closed_total(records) > 0 by {
            if i < rest.len() {
                assert(rest[i] == records[i]);
                assert(!is_open(rest[i].comments[j]));
            }
        }
        if closed_total(rest) > 0 {
            let (i, j) = choose|i: int, j: int|
                0 <= i < rest.len() && 0 <= j < rest[i].comments.len() && !is_open(
                    #[trigger] rest[i].comments[j],
                );
            assert(rest[i] == records[i]);
            assert(!is_open(records[i].comments[j]));
        }
    }
}

proof fn lemma_all_open(comments: Seq<ReviewCommentRecord>)
    requires
        forall|j: int| 0 <= j < comments.len() ==> is_open(#[trigger] comments[j]),
    ensures
        open_comments(comments) == comments,
    decreases comments.len(),
{
    reveal(Seq::filter);
    if comments.len() > 0 {
        lemma_all_open(comments.drop_last());
        assert(comments.drop_last().push(comments.last()) =~= comments);
    }
}

proof fn lemma_some_closed(comments: Seq<ReviewCommentRecord>, j: int)
    requires
        0 <= j < comments.len(),
        !is_open(comments[j]),
    ensures
        open_comments(comments).len() < comments.len(),
    decreases comments.len(),
{
    reveal(Seq::filter);
    let p = |c: ReviewCommentRecord| is_open(c);
    comments.drop_last().lemma_filter_len(p);
    if j < comments.len() - 1 {
        lemma_some_closed(comments.drop_last(), j);
    }
}

/// A compaction keeps the version. The revision is a new one exactly where some comment was
/// acknowledged or discarded, and then it is the next, as far as there is one.
pub proof fn compaction_renews_the_revision(snapshot: SnapshotModel)
    ensures
        compacted_snapshot(snapshot).schema_version == snapshot.schema_version,
        (exists|i: int, j: int|
            0 <= i < snapshot.records.len() && 0 <= j < snapshot.records[i].comments.len() && ({
                let state = (#[trigger] snapshot.records[i].comments[j]).state;
                state == DeliveryState::Acknowledged || state == DeliveryState::Discarded
            })) ==> {
            &&& closed_total(snapshot.records) > 0
            &&& compacted_snapshot(snapshot).revision as int == if snapshot.revision == u64::MAX {
                u64::MAX as int
            } else {
                snapshot.revision + 1
            }
        },
        (forall|i: int, j: int|
            0 <= i < snapshot.records.len() && 0 <= j < snapshot.records[i].comments.len() ==> ({
                let state = (#[trigger] snapshot.records[i].comments[j]).state;
                state != DeliveryState::Acknowledged && state != DeliveryState::Discarded
            })) ==> {
            &&& closed_total(snapshot.records) == 0
            &&& compacted_snapshot(snapshot).revision == snapshot.revision
        },
{
    lemma_closed_total(snapshot.records);
    let records = snapshot.records;
    if exists|i: int, j: int|
        0 <= i < records.len() && 0 <= j < records[i].comments.len() && ({
            let state = (#[trigger] records[i].comments[j]).state;
            state == DeliveryState::Acknowledged || state == DeliveryState::Discarded
        }) {
        let (i, j) = choose|i: int, j: int|
            0 <= i < records.len() && 0 <= j < records[i].comments.len() && ({
                let state = (#[trigger] records[i].comments[j]).state;
                state == DeliveryState::Acknowledged || state == DeliveryState::Discarded
            });
        assert(!is_open(records[i].comments[j]));
    }
}

/// A count is told as it is, as far as a machine word holds it.
pub proof fn counts_are_told_as_they_are(n: int)
    ensures
        n <= usize::MAX ==> clipped(n) == n,
        n > usize::MAX ==> clipped(n) == usize::MAX,
{
}

/// A revision that is not the greatest is followed by the one that is greater by one.
pub proof fn revisions_grow(n: u64)
    ensures
        n < u64::MAX ==> next_revision(n) == n + 1,
        next_revision(u64::MAX) == u64::MAX,
{
}

// ---------------------------------------------------------------------------------------
// Selection
// ---------------------------------------------------------------------------------------

/// A review is selected by its identifier wherever one has it, and then it is the one that stands
/// before all others that have it.
pub proof fn selection_is_of_the_first(records: Seq<RecordModel>, review_id: Id, i: int, k: int)
    requires
        is_first_with(records, review_id, i),
        0 <= k < records.len(),
        records[k].identity.review_id == review_id,
    ensures
        0 <= i <= k,
        records[i].identity.review_id == review_id,
{
}

/// The current review of a generation is of that generation, and no other of it was updated
/// later: neither at a later second, nor in the same second at a later nanosecond. Of those that
/// were updated at the very same time it is the last.
pub proof fn current_review_was_updated_last(
    records: Seq<RecordModel>,
    generation: Seq<char>,
    i: int,
    k: int,
)
    requires
        is_current(records, generation, i),
        0 <= k < records.len(),
        records[k].identity.diff_generation@ == generation,
    ensures
        0 <= i < records.len(),
        records[i].identity.diff_generation@ == generation,
        records[k].updated_at.seconds <= records[i].updated_at.seconds,
        records[k].updated_at.seconds == records[i].updated_at.seconds
            ==> records[k].updated_at.nanos <= records[i].updated_at.nanos,
        records[k].updated_at == records[i].updated_at ==> k <= i,
{
    assert(is_of_generation(records, generation, k));
}

// ---------------------------------------------------------------------------------------
// Stored reviews
// ---------------------------------------------------------------------------------------

/// The state that a stored comment comes into by a delivery result: that of the result where it has
/// one of the identifiers, and else its own; but a delivery that was under way when the comment was
/// stored is uncertain.
pub open spec fn state_after(
    c: ReviewCommentRecord,
    ids: Set<u128>,
    state: DeliveryState,
) -> DeliveryState {
    if ids.contains(c.id.bits) {
        state
    } else if c.state == DeliveryState::InFlight {
        DeliveryState::Uncertain
    } else {
        c.state
    }
}

/// Something may still come of a comment in the state.
pub open spec fn is_unsettled(state: DeliveryState) -> bool {
    state != DeliveryState::Acknowledged && state != DeliveryState::Discarded
}

proof fn lemma_settled_comment(
    before: SnapshotModel,
    loaded: SnapshotModel,
    delivered: SnapshotModel,
    ids: Set<u128>,
    state: DeliveryState,
    i: int,
    j: int,
)
    requires
        is_recovery(before, loaded),
        is_delivery(loaded, delivered, ids, state),
        0 <= i < before.records.len(),
        0 <= j < before.records[i].comments.len(),
    ensures
        delivered.records.len() == before.records.len(),
        delivered.records[i].identity == before.records[i].identity,
        delivered.records[i].created_at == before.records[i].created_at,
        delivered.records[i].comments.len() == before.records[i].comments.len(),
        delivered.records[i].comments[j] == (ReviewCommentRecord {
            state: state_after(before.records[i].comments[j], ids, state),
            ..before.records[i].comments[j]
        }),
{
    let record = before.records[i];
    assert(is_recovered(record, loaded.records[i]));
    let at = choose|at: Timestamp|
        at.nanos < 1_000_000_000 && loaded.records[i] == #[trigger] recovered_record(record, at);
    recovery_of_a_review(record, at);
    assert(loaded.records[i].comments[j] == recovered_record(record, at).comments[j]);
    delivery_changes_states_only(loaded, delivered, ids, state, i, j);
}

/// A comment of which something may still come after a delivery result stays in its review, with
/// nothing of it changed but its state.
pub proof fn settling_keeps_what_is_unsettled(
    before: SnapshotModel,
    after: SnapshotModel,
    ids: Set<u128>,
    state: DeliveryState,
    i: int,
    j: int,
)
    requires
        is_settled(before, after, ids, state),
        0 <= i < before.records.len(),
        0 <= j < before.records[i].comments.len(),
        is_unsettled(state_after(before.records[i].comments[j], ids, state)),
    ensures
        exists|k: int|
            0 <= k < after.records.len() && (#[trigger] after.records[k]).identity
                == before.records[i].identity && after.records[k].comments.contains(
                (ReviewCommentRecord {
                    state: state_after(before.records[i].comments[j], ids, state),
                    ..before.records[i].comments[j]
                }),
            ),
{
    let (loaded, delivered) = choose|loaded: SnapshotModel, delivered: SnapshotModel|
        is_recovery(before, loaded) && #[trigger] is_delivery(loaded, delivered, ids, state)
            && after == compacted_snapshot(delivered);
    lemma_settled_comment(before, loaded, delivered, ids, state, i, j);
    let c = delivered.records[i].comments[j];
    assert(delivered.records[i].comments.contains(c));
    compaction_keeps_open_comments(delivered, i, c);
}

/// A review that is left after a delivery result was there before, under its identity and with the
/// time when it was made. Every comment that is left was in it, differs in its state at most, and
/// is one of which something may still come.
pub proof fn settling_adds_nothing(
    before: SnapshotModel,
    after: SnapshotModel,
    ids: Set<u128>,
    state: DeliveryState,
    k: int,
)
    requires
        is_settled(before, after, ids, state),
        0 <= k < after.records.len(),
    ensures
        after.schema_version == before.schema_version,
        after.records[k].comments.len() > 0,
        exists|i: int|
            {
                &&& 0 <= i < before.records.len()
                &&& (#[trigger] before.records[i]).identity == after.records[k].identity
                &&& before.records[i].created_at == after.records[k].created_at
                &&& forall|c: ReviewCommentRecord| #[trigger]
                    after.records[k].comments.contains(c) ==> is_unsettled(c.state) && exists|j: int|
                        0 <= j < before.records[i].comments.len() && c == (ReviewCommentRecord {
                            state: state_after(
                                #[trigger] before.records[i].comments[j],
                                ids,
                                state,
                            ),
                            ..before.records[i].comments[j]
                        })
            },
{
    let (loaded, delivered) = choose|loaded: SnapshotModel, delivered: SnapshotModel|
        is_recovery(before, loaded) && #[trigger] is_delivery(loaded, delivered, ids, state)
            && after == compacted_snapshot(delivered);
    compaction_leaves_open_comments_only(delivered, k);
    let i = choose|i: int|
        0 <= i < delivered.records.len() && compacted_snapshot(delivered).records[k]
            == compacted_record(#[trigger] delivered.records[i]);
    let left = after.records[k].comments;
    let all = delivered.records[i].comments;
    assert(left == open_comments(all));
    assert(is_recovered(before.records[i], loaded.records[i]));
    assert(is_delivered(loaded.records[i], delivered.records[i], ids, state));
    assert forall|c: ReviewCommentRecord| #[trigger] left.contains(c) implies is_unsettled(c.state)
        && exists|j: int|
        0 <= j < before.records[i].comments.len() && c == (ReviewCommentRecord {
            state: state_after(#[trigger] before.records[i].comments[j], ids, state),
            ..before.records[i].comments[j]
        }) by {
        assert(is_open(c));
        all.lemma_filter_contains_rev(|c: ReviewCommentRecord| is_open(c), c);
        let j = choose|j: int| 0 <= j < all.len() && all[j] == c;
        assert(loaded.records[i].comments.len() == before.records[i].comments.len());
        lemma_settled_comment(before, loaded, delivered, ids, state, i, j);
        assert(c == (ReviewCommentRecord {
            state: state_after(before.records[i].comments[j], ids, state),
            ..before.records[i].comments[j]
        }));
    }
    assert(before.records[i].identity == after.records[k].identity);
    assert(before.records[i].created_at == after.records[k].created_at);
}

/// Reviews can be had from what was found exactly where nothing is stored, or a snapshot of the
/// known version is. Without anything stored there are no reviews, under the first revision.
pub proof fn reviews_are_had_from_known_snapshots(snapshot: ReviewStoreSnapshot, reason: String)
    ensures
        is_loadable(StoredSnapshot::Missing),
        !is_loadable(StoredSnapshot::Unreadable(reason)),
        !is_loadable(StoredSnapshot::Found(Err(reason))),
        is_loadable(StoredSnapshot::Found(Ok(snapshot))) <==> snapshot.schema_version == 1,
        stored_model(StoredSnapshot::Missing).records.len() == 0,
        stored_model(StoredSnapshot::Missing).revision == 0,
        stored_model(StoredSnapshot::Missing).schema_version == 1,
        stored_model(StoredSnapshot::Found(Ok(snapshot))) == snapshot@,
{
}

/// What is said where reviews cannot be had: why the key of the scope cannot be read, why the text
/// is no snapshot, or which version it has.
pub proof fn load_errors_say_why(
    scope: ReviewScope,
    stored: StoredSnapshot,
    error: ReviewStoreError,
)
    requires
        is_load_error(scope, stored, error),
    ensures
        match error {
            ReviewStoreError::Unreadable { key, reason } => stored == StoredSnapshot::Unreadable(
                reason,
            ) && key@ == scope_key(scope),
            ReviewStoreError::Undecodable(reason) => stored == StoredSnapshot::Found(Err(reason)),
            ReviewStoreError::UnsupportedSchema(version) => stored matches StoredSnapshot::Found(
                Ok(snapshot),
            ) && snapshot.schema_version == version && version != 1,
        },
{
}

/// The identifiers of a list are those of its entries.
pub proof fn identifiers_are_those_of_the_list(ids: Seq<Id>, bits: u128)
    ensures
        id_set(ids).contains(bits) <==> exists|i: int|
            0 <= i < ids.len() && (#[trigger] ids[i]).bits == bits,
{
    if id_set(ids).contains(bits) {
        let i = choose|i: int| 0 <= i < ids.len() && ids[i] == (Id { bits });
        assert(ids[i].bits == bits);
    }
    if exists|i: int| 0 <= i < ids.len() && (#[trigger] ids[i]).bits == bits {
        let i = choose|i: int| 0 <= i < ids.len() && (#[trigger] ids[i]).bits == bits;
        assert(ids[i] == (Id { bits }));
        assert(ids.contains(Id { bits }));
    }
}

/// A review with a comment, none of whose comments is under way, closed or has one of the
/// identifiers, is left by a delivery result as it was stored, its time included.
pub proof fn settling_leaves_other_reviews(
    before: SnapshotModel,
    after: SnapshotModel,
    ids: Set<u128>,
    state: DeliveryState,
    i: int,
)
    requires
        is_settled(before, after, ids, state),
        0 <= i < before.records.len(),
        before.records[i].comments.len() > 0,
        forall|j: int|
            0 <= j < before.records[i].comments.len() ==> {
                let c = #[trigger] before.records[i].comments[j];
                &&& !ids.contains(c.id.bits)
                &&& c.state != DeliveryState::InFlight
                &&& is_unsettled(c.state)
            },
    ensures
        after.records.contains(before.records[i]),
{
    let (loaded, delivered) = choose|loaded: SnapshotModel, delivered: SnapshotModel|
        is_recovery(before, loaded) && #[trigger] is_delivery(loaded, delivered, ids, state)
            && after == compacted_snapshot(delivered);
    let record = before.records[i];
    recovery_leaves_other_reviews(before, loaded, i);
    assert forall|j: int| 0 <= j < loaded.records[i].comments.len() implies !ids.contains(
        (#[trigger] loaded.records[i].comments[j]).id.bits,
    ) by {
        assert(loaded.records[i].comments[j] == record.comments[j]);
    }
    delivery_leaves_other_reviews(loaded, delivered, ids, state, i);
    assert forall|j: int| 0 <= j < record.comments.len() implies is_open(
        #[trigger] record.comments[j],
    ) by {
        assert(is_unsettled(before.records[i].comments[j].state));
    }
    lemma_all_open(record.comments);
    let f = |r: RecordModel| compacted_record(r);
    let p = |r: RecordModel| r.comments.len() > 0;
    let mapped = delivered.records.map_values(f);
    assert(mapped[i] == record);
    mapped.lemma_filter_contains(p, i);
}

/// What a review and a snapshot hold is what stands in their fields, review by review.
pub proof fn models_hold_the_fields(record: ReviewRecord, snapshot: ReviewStoreSnapshot, i: int)
    ensures
        record@.identity == record.identity,
        record@.created_at == record.created_at,
        record@.updated_at == record.updated_at,
        record@.comments == record.comments@,
        snapshot@.schema_version == snapshot.schema_version,
        snapshot@.revision == snapshot.revision,
        snapshot@.records.len() == snapshot.records@.len(),
        0 <= i < snapshot.records@.len() ==> snapshot@.records[i] == snapshot.records@[i]@,
{
}

/// A review that a recovery or a delivery result changes was updated at a time of the clock then,
/// whatever time stood there before.
pub proof fn changed_reviews_are_dated_by_the_clock(
    before: SnapshotModel,
    after: SnapshotModel,
    ids: Set<u128>,
    state: DeliveryState,
    i: int,
    j: int,
)
    requires
        0 <= i < before.records.len(),
        0 <= j < before.records[i].comments.len(),
    ensures
        is_recovery(before, after) && before.records[i].comments[j].state == DeliveryState::InFlight
            ==> after.records[i].updated_at.nanos < 1_000_000_000,
        is_delivery(before, after, ids, state) && ids.contains(before.records[i].comments[j].id.bits)
            ==> after.records[i].updated_at.nanos < 1_000_000_000,
{
    let record = before.records[i];
    if is_recovery(before, after) && record.comments[j].state == DeliveryState::InFlight {
        assert(is_recovered(record, after.records[i]));
        let at = choose|at: Timestamp|
            at.nanos < 1_000_000_000 && after.records[i] == #[trigger] recovered_record(record, at);
        recovery_of_a_review(record, at);
    }
    if is_delivery(before, after, ids, state) && ids.contains(record.comments[j].id.bits) {
        assert(is_delivered(record, after.records[i], ids, state));
        let at = choose|at: Timestamp|
            at.nanos < 1_000_000_000 && after.records[i] == #[trigger] delivered_record(
                record,
                ids,
                state,
                at,
            );
        delivery_of_a_review(record, ids, state, at);
    }
}

} // verus!
