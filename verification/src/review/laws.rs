//! What recovery, delivery and compaction keep, and what they leave behind.
use crate::review::record::{
    compacted_record, delivered_comment, has_state, in_flight_comments, is_open, open_comments,
    recovered_comment, DeliveryState, RecordModel, ReviewCommentRecord,
};
use crate::review::snapshot::{
    closed_count, closed_total, compacted_records, compacted_snapshot, in_flight_total,
    is_delivery, is_delivered, is_recovered, is_recovery, SnapshotModel,
};
use vstd::prelude::*;

verus! {

proof fn lemma_filter_of_all<A>(s: Seq<A>, p: spec_fn(A) -> bool)
    requires
        forall|i: int| 0 <= i < s.len() ==> p(#[trigger] s[i]),
    ensures
        s.filter(p) == s,
    decreases s.len(),
{
    reveal(Seq::filter);
    if s.len() > 0 {
        lemma_filter_of_all(s.drop_last(), p);
        assert(s.drop_last().push(s.last()) =~= s);
    }
}

proof fn lemma_open_after_recovery(comments: Seq<ReviewCommentRecord>)
    ensures
        open_comments(
            comments.map_values(|c: ReviewCommentRecord| recovered_comment(c)),
        ).len() == open_comments(comments).len(),
    decreases comments.len(),
{
    reveal(Seq::filter);
    let f = |c: ReviewCommentRecord| recovered_comment(c);
    if comments.len() > 0 {
        lemma_open_after_recovery(comments.drop_last());
        assert(comments.map_values(f).drop_last() =~= comments.drop_last().map_values(f));
    }
}

/// After a recovery no comment is under way.
pub proof fn recovery_leaves_nothing_in_flight(before: SnapshotModel, after: SnapshotModel)
    requires
        is_recovery(before, after),
    ensures
        forall|i: int|
            0 <= i < after.records.len() ==> !has_state(
                (#[trigger] after.records[i]).comments,
                DeliveryState::InFlight,
            ),
        in_flight_total(after.records) == 0,
{
    assert forall|i: int| 0 <= i < after.records.len() implies !has_state(
        (#[trigger] after.records[i]).comments,
        DeliveryState::InFlight,
    ) by {
        assert(is_recovered(before.records[i], after.records[i]));
    }
    lemma_none_in_flight(after.records);
}

proof fn lemma_none_in_flight(records: Seq<RecordModel>)
    requires
        forall|i: int|
            0 <= i < records.len() ==> !has_state(
                (#[trigger] records[i]).comments,
                DeliveryState::InFlight,
            ),
    ensures
        in_flight_total(records) == 0,
    decreases records.len(),
{
    if records.len() > 0 {
        assert forall|i: int| 0 <= i < records.drop_last().len() implies !has_state(
            (#[trigger] records.drop_last()[i]).comments,
            DeliveryState::InFlight,
        ) by {
            assert(records.drop_last()[i] == records[i]);
        }
        lemma_none_in_flight(records.drop_last());
        let comments = records.last().comments;
        assert(!has_state(comments, DeliveryState::InFlight));
        comments.lemma_all_neg_filter_empty(|c: ReviewCommentRecord| c.state is InFlight);
        assert(in_flight_comments(comments).len() == 0);
    }
}

/// A recovery keeps every review with its identity and with as many open comments as it had.
pub proof fn recovery_keeps_open_comments(before: SnapshotModel, after: SnapshotModel, i: int)
    requires
        is_recovery(before, after),
        0 <= i < before.records.len(),
    ensures
        after.records[i].identity == before.records[i].identity,
        after.records[i].created_at == before.records[i].created_at,
        after.records[i].comments.len() == before.records[i].comments.len(),
        open_comments(after.records[i].comments).len() == open_comments(
            before.records[i].comments,
        ).len(),
{
    assert(is_recovered(before.records[i], after.records[i]));
    lemma_open_after_recovery(before.records[i].comments);
}

/// A recovery changes nothing of a comment but its state, and that only where the comment was under
/// way; then its delivery is uncertain.
pub proof fn recovery_changes_only_states_in_flight(
    before: SnapshotModel,
    after: SnapshotModel,
    i: int,
    j: int,
)
    requires
        is_recovery(before, after),
        0 <= i < before.records.len(),
        0 <= j < before.records[i].comments.len(),
    ensures
        ({
            let old_comment = before.records[i].comments[j];
            let new_comment = after.records[i].comments[j];
            &&& new_comment == (ReviewCommentRecord { state: new_comment.state, ..old_comment })
            &&& new_comment.state == if old_comment.state is InFlight {
                DeliveryState::Uncertain
            } else {
                old_comment.state
            }
        }),
{
    assert(is_recovered(before.records[i], after.records[i]));
}

/// A recovery touches the time of a review only where a comment of it was under way.
pub proof fn recovery_dates_only_reviews_in_flight(
    before: SnapshotModel,
    after: SnapshotModel,
    i: int,
)
    requires
        is_recovery(before, after),
        0 <= i < before.records.len(),
        !has_state(before.records[i].comments, DeliveryState::InFlight),
    ensures
        after.records[i] == before.records[i],
{
    let record = before.records[i];
    assert(is_recovered(record, after.records[i]));
    assert(record.comments.map_values(|c: ReviewCommentRecord| recovered_comment(c))
        =~= record.comments);
}

/// A recovery changes nothing where no comment is under way.
pub proof fn recovery_of_settled_reviews_changes_nothing(
    before: SnapshotModel,
    after: SnapshotModel,
)
    requires
        is_recovery(before, after),
        forall|i: int|
            0 <= i < before.records.len() ==> !has_state(
                (#[trigger] before.records[i]).comments,
                DeliveryState::InFlight,
            ),
    ensures
        after == before,
{
    assert forall|i: int| 0 <= i < before.records.len() implies #[trigger] after.records[i]
        == before.records[i] by {
        recovery_dates_only_reviews_in_flight(before, after, i);
    }
    assert(after.records =~= before.records);
}

/// A second recovery changes nothing.
pub proof fn recovery_is_idempotent(
    before: SnapshotModel,
    once: SnapshotModel,
    twice: SnapshotModel,
)
    requires
        is_recovery(before, once),
        is_recovery(once, twice),
    ensures
        twice == once,
{
    recovery_leaves_nothing_in_flight(before, once);
    recovery_of_settled_reviews_changes_nothing(once, twice);
}

proof fn lemma_open_comments(comments: Seq<ReviewCommentRecord>)
    ensures
        forall|c: ReviewCommentRecord| #[trigger]
            open_comments(comments).contains(c) <==> comments.contains(c) && is_open(c),
        forall|i: int|
            0 <= i < open_comments(comments).len() ==> is_open(
                #[trigger] open_comments(comments)[i],
            ),
{
    let p = |c: ReviewCommentRecord| is_open(c);
    assert forall|i: int| 0 <= i < open_comments(comments).len() implies is_open(
        #[trigger] open_comments(comments)[i],
    ) by {
        comments.lemma_filter_pred(p, i);
    }
    assert forall|c: ReviewCommentRecord| #[trigger]
        open_comments(comments).contains(c) <==> comments.contains(c) && is_open(c) by {
        if open_comments(comments).contains(c) {
            comments.lemma_filter_contains_rev(p, c);
        }
        if comments.contains(c) && is_open(c) {
            let i = choose|i: int| 0 <= i < comments.len() && comments[i] == c;
            comments.lemma_filter_contains(p, i);
        }
    }
}

/// Every comment that a compaction leaves is open, and every review that it leaves has one. Each
/// of those reviews was there before, with that comment.
pub proof fn compaction_leaves_open_comments_only(snapshot: SnapshotModel, k: int)
    requires
        0 <= k < compacted_snapshot(snapshot).records.len(),
    ensures
        compacted_snapshot(snapshot).records[k].comments.len() > 0,
        forall|c: ReviewCommentRecord| #[trigger]
            compacted_snapshot(snapshot).records[k].comments.contains(c) ==> is_open(c),
        exists|i: int|
            0 <= i < snapshot.records.len() && compacted_snapshot(snapshot).records[k]
                == compacted_record(#[trigger] snapshot.records[i]),
{
    let f = |r: RecordModel| compacted_record(r);
    let p = |r: RecordModel| r.comments.len() > 0;
    let mapped = snapshot.records.map_values(f);
    let left = compacted_snapshot(snapshot).records;
    mapped.lemma_filter_pred(p, k);
    assert(left.contains(left[k]));
    mapped.lemma_filter_contains_rev(p, left[k]);
    let i = choose|i: int| 0 <= i < mapped.len() && mapped[i] == left[k];
    assert(left[k] == compacted_record(snapshot.records[i]));
    lemma_open_comments(snapshot.records[i].comments);
}

/// A compaction never drops a comment that is open: its review stays, under its identity, and
/// the comment stays in it.
pub proof fn compaction_keeps_open_comments(
    snapshot: SnapshotModel,
    i: int,
    c: ReviewCommentRecord,
)
    requires
        0 <= i < snapshot.records.len(),
        snapshot.records[i].comments.contains(c),
        is_open(c),
    ensures
        exists|k: int|
            0 <= k < compacted_snapshot(snapshot).records.len() && (
            #[trigger] compacted_snapshot(snapshot).records[k]).identity
                == snapshot.records[i].identity && compacted_snapshot(
                snapshot,
            ).records[k].comments.contains(c),
{
    let f = |r: RecordModel| compacted_record(r);
    let p = |r: RecordModel| r.comments.len() > 0;
    let mapped = snapshot.records.map_values(f);
    lemma_open_comments(snapshot.records[i].comments);
    assert(mapped[i].comments.contains(c));
    mapped.lemma_filter_contains(p, i);
    let left = compacted_snapshot(snapshot).records;
    let k = choose|k: int| 0 <= k < left.len() && left[k] == mapped[i];
    assert(left[k].identity == snapshot.records[i].identity);
}

proof fn lemma_nothing_closed(records: Seq<RecordModel>)
    requires
        forall|i: int|
            0 <= i < records.len() ==> open_comments((#[trigger] records[i]).comments)
                == records[i].comments,
    ensures
        closed_total(records) == 0,
    decreases records.len(),
{
    if records.len() > 0 {
        assert forall|i: int| 0 <= i < records.drop_last().len() implies open_comments(
            (#[trigger] records.drop_last()[i]).comments,
        ) == records.drop_last()[i].comments by {
            assert(records.drop_last()[i] == records[i]);
        }
        lemma_nothing_closed(records.drop_last());
        assert(records.last() == records[records.len() - 1]);
        assert(closed_count(records.last()) == 0);
    }
}

/// A second compaction removes nothing, changes nothing and keeps the revision.
pub proof fn compaction_is_idempotent(snapshot: SnapshotModel)
    ensures
        closed_total(compacted_snapshot(snapshot).records) == 0,
        compacted_snapshot(compacted_snapshot(snapshot)) == compacted_snapshot(snapshot),
{
    let once = compacted_snapshot(snapshot);
    let f = |r: RecordModel| compacted_record(r);
    let p = |r: RecordModel| r.comments.len() > 0;
    assert forall|k: int| 0 <= k < once.records.len() implies open_comments(
        (#[trigger] once.records[k]).comments,
    ) == once.records[k].comments && once.records[k].comments.len() > 0 by {
        compaction_leaves_open_comments_only(snapshot, k);
        let comments = once.records[k].comments;
        assert forall|i: int| 0 <= i < comments.len() implies is_open(#[trigger] comments[i]) by {
            assert(comments.contains(comments[i]));
        }
        lemma_filter_of_all(comments, |c: ReviewCommentRecord| is_open(c));
    }
    lemma_nothing_closed(once.records);
    assert(once.records.map_values(f) =~= once.records);
    lemma_filter_of_all(once.records, p);
    assert(compacted_records(once.records) == once.records);
    assert(compacted_snapshot(once) =~= once);
}

/// After a delivery result and a compaction every comment with one of the identifiers is in the
/// state of the result. Where nothing more comes after that state, no such comment is left.
pub proof fn delivery_settles_its_comments(
    before: SnapshotModel,
    after: SnapshotModel,
    ids: Set<u128>,
    state: DeliveryState,
    k: int,
    c: ReviewCommentRecord,
)
    requires
        is_delivery(before, after, ids, state),
        0 <= k < compacted_snapshot(after).records.len(),
        compacted_snapshot(after).records[k].comments.contains(c),
        ids.contains(c.id.bits),
    ensures
        c.state == state,
        !state.terminal(),
{
    compaction_leaves_open_comments_only(after, k);
    let i = choose|i: int|
        0 <= i < after.records.len() && compacted_snapshot(after).records[k] == compacted_record(
            #[trigger] after.records[i],
        );
    lemma_open_comments(after.records[i].comments);
    assert(after.records[i].comments.contains(c));
    assert(is_delivered(before.records[i], after.records[i], ids, state));
    let j = choose|j: int|
        0 <= j < after.records[i].comments.len() && after.records[i].comments[j] == c;
    assert(c == delivered_comment(before.records[i].comments[j], ids, state));
}

/// A delivery result leaves every comment without one of the identifiers as it is.
pub proof fn delivery_leaves_other_comments(
    before: SnapshotModel,
    after: SnapshotModel,
    ids: Set<u128>,
    state: DeliveryState,
    i: int,
    j: int,
)
    requires
        is_delivery(before, after, ids, state),
        0 <= i < before.records.len(),
        0 <= j < before.records[i].comments.len(),
        !ids.contains(before.records[i].comments[j].id.bits),
    ensures
        after.records[i].comments.len() == before.records[i].comments.len(),
        after.records[i].comments[j] == before.records[i].comments[j],
{
    assert(is_delivered(before.records[i], after.records[i], ids, state));
}

} // verus!
