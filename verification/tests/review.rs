use std::collections::HashSet;

use workbench::clock::Timestamp;
use workbench::ids::Id;
use workbench::review::record::{
    DeliveryState, ReviewCommentRecord, ReviewIdentity, ReviewRecord, ReviewTarget,
};
use workbench::review::scope::{normalized_path, ReviewScope, ScopePath};
use workbench::review::snapshot::{ReviewStoreSnapshot, SCHEMA_VERSION};
use workbench::review::store::{
    decode_snapshot, AgentReviewStore, ReviewStoreError, StoredSnapshot, NAMESPACE,
};

fn plain(path: &str) -> ScopePath {
    ScopePath { path: path.to_string(), resolved: None }
}

fn scope(path: &str, id: Option<&str>) -> ReviewScope {
    ReviewScope {
        worktree_id: id.map(str::to_owned),
        project_id: Some("project".to_string()),
        worktree_path: plain(path),
        project_path: None,
    }
}

fn target(stale: bool) -> ReviewTarget {
    ReviewTarget::Hunk {
        file_path: "src/lib.rs".to_string(),
        original_hunk_line: Some(10),
        original_range: Some((10, 10)),
        resolved_hunk_line: Some(10),
        resolved_range: Some((10, 10)),
        content_context: Some("fn example()".to_string()),
        stale,
    }
}

fn comment(id: u128, state: DeliveryState, stale: bool) -> ReviewCommentRecord {
    ReviewCommentRecord {
        id: Id { bits: id },
        text: "text".to_string(),
        target: target(stale),
        created_at: at(1),
        state,
    }
}

fn at(seconds: i64) -> Timestamp {
    Timestamp { seconds, nanos: 0 }
}

fn record(id: u128, generation: &str, updated: i64, comments: Vec<ReviewCommentRecord>) -> ReviewRecord {
    ReviewRecord {
        identity: ReviewIdentity {
            review_id: Id { bits: id },
            thread_id: None,
            session_id: None,
            scope: scope("/tmp/worktree", Some("wt-1")),
            diff_generation: generation.to_string(),
        },
        created_at: at(0),
        updated_at: at(updated),
        comments,
    }
}

fn snapshot(records: Vec<ReviewRecord>) -> ReviewStoreSnapshot {
    ReviewStoreSnapshot { schema_version: SCHEMA_VERSION, revision: 7, records }
}

fn states(record: &ReviewRecord) -> Vec<DeliveryState> {
    record.comments.iter().map(|c| c.state).collect()
}

#[test]
fn snapshot_round_trip_preserves_identity_and_targets() {
    let mut snapshot = ReviewStoreSnapshot::default();
    let identity =
        ReviewIdentity::new(scope("/tmp/worktree", Some("wt-1")), "run-1".to_string());
    let mut record = ReviewRecord::new(identity.clone());
    record.comments.push(ReviewCommentRecord::new("fix".to_string(), target(false)));
    let created_at = record.created_at;
    snapshot.records.push(record);

    let decoded = decode_snapshot(Ok(snapshot)).unwrap();
    assert_eq!(decoded.records.len(), 1);
    assert_eq!(decoded.records[0].identity, identity);
    assert_eq!(decoded.records[0].created_at, created_at);
    assert_eq!(decoded.records[0].comments[0].text, "fix");
    assert_eq!(decoded.records[0].comments[0].target, target(false));
    assert_eq!(decoded.select(identity.review_id).unwrap().pending_count(), 1);
}

#[test]
fn summaries_and_selection_are_discoverable() {
    let mut snapshot = ReviewStoreSnapshot::default();
    let identity =
        ReviewIdentity::new(scope("/tmp/worktree", Some("wt-1")), "run-1".to_string());
    let mut record = ReviewRecord::new(identity.clone());
    record.comments.push(ReviewCommentRecord::new("stale".to_string(), target(true)));
    snapshot.records.push(record);

    let summary = &snapshot.summaries()[0];
    assert_eq!(summary.pending_count, 1);
    assert_eq!(summary.stale_count, 1);
    assert_eq!(snapshot.select_current_generation("run-1").unwrap().identity, identity);
}

#[test]
fn worktree_ids_isolate_and_survive_relocation() {
    let first = scope("/old/worktree", Some("stable-id"));
    let relocated = scope("/new/worktree", Some("stable-id"));
    let different = scope("/new/worktree", Some("other-id"));
    assert_eq!(first.key(), relocated.key());
    assert!(first.can_relocate_to(&relocated));
    assert!(!first.can_relocate_to(&different));
}

#[test]
fn recovery_marks_in_flight_uncertain_and_compaction_is_safe() {
    let identity =
        ReviewIdentity::new(scope("/tmp/worktree", Some("wt-1")), "run-1".to_string());
    let mut record = ReviewRecord::new(identity);
    let mut in_flight = ReviewCommentRecord::new("send".to_string(), target(false));
    in_flight.state = DeliveryState::InFlight;
    let mut acknowledged = ReviewCommentRecord::new("done".to_string(), target(false));
    acknowledged.state = DeliveryState::Acknowledged;
    record.comments.extend([in_flight, acknowledged]);
    let mut snapshot = ReviewStoreSnapshot {
        schema_version: SCHEMA_VERSION,
        revision: 0,
        records: vec![record],
    };

    assert_eq!(snapshot.recover_in_flight(), 1);
    assert_eq!(snapshot.records[0].comments[0].state, DeliveryState::Uncertain);
    assert_eq!(snapshot.compact(), 1);
    assert_eq!(snapshot.records[0].comments.len(), 1);

    snapshot.records[0].comments[0].state = DeliveryState::Discarded;
    assert_eq!(snapshot.compact(), 1);
    assert!(snapshot.records.is_empty());
}

#[test]
fn mutation_revision_advances_and_errors_do_not() {
    let mut snapshot = ReviewStoreSnapshot::default();
    assert!(snapshot
        .mutate(|records: &mut Vec<ReviewRecord>| -> Result<(), String> {
            records.push(ReviewRecord::new(ReviewIdentity::new(
                scope("/tmp/worktree", None),
                "run-1".to_string(),
            )));
            Ok(())
        })
        .is_ok());
    assert_eq!(snapshot.revision, 1);
    assert_eq!(snapshot.records.len(), 1);
    assert!(snapshot
        .mutate(|_: &mut Vec<ReviewRecord>| -> Result<(), String> {
            Err("write failed".to_string())
        })
        .is_err());
    assert_eq!(snapshot.revision, 1);
}

#[test]
fn corrupt_or_unknown_snapshot_is_reported_without_fallback() {
    assert!(decode_snapshot(Err("not json".to_string())).is_err());
    let unknown = ReviewStoreSnapshot {
        schema_version: SCHEMA_VERSION + 1,
        revision: 0,
        records: Vec::new(),
    };
    let error = decode_snapshot(Ok(unknown)).unwrap_err();
    assert!(error.message().contains("unsupported review store schema"));
}

#[test]
fn keys_name_the_project_and_the_worktree() {
    assert_eq!(scope("/a", Some("wt-1")).key(), "project:project:worktree:wt-1");
    let mut unnamed = scope("/a", Some("wt-1"));
    unnamed.project_id = None;
    assert_eq!(unnamed.key(), "project:unknown:worktree:wt-1");

    let mut by_path = scope("/a", None);
    assert_eq!(by_path.key(), "project:unknown:path:/a");
    by_path.project_path =
        Some(ScopePath { path: "/p".to_string(), resolved: Some("/real/p".to_string()) });
    assert_eq!(by_path.key(), "project:/real/p:path:/a");
}

#[test]
fn paths_are_told_apart_by_where_they_lead() {
    let link = ScopePath { path: "/link".to_string(), resolved: Some("/real".to_string()) };
    assert_eq!(normalized_path(&link), "/real");
    assert_eq!(normalized_path(&plain("/gone")), "/gone");

    let mut a = scope("/a", None);
    a.worktree_path = link;
    let b = scope("/real", None);
    let c = scope("/other", None);
    assert!(a.can_relocate_to(&b) && b.can_relocate_to(&a));
    assert_eq!(a.key(), b.key());
    assert!(!a.can_relocate_to(&c));
    assert_ne!(a.key(), c.key());
    assert!(!a.can_relocate_to(&scope("/real", Some("wt-1"))));
}

#[test]
fn stable_key_holds_scope_and_identifier() {
    let identity = record(0x0123_4567_89ab_cdef_0123_4567_89ab_cdef, "run-1", 0, vec![]).identity;
    assert_eq!(
        identity.stable_key(),
        "project:project:worktree:wt-1:01234567-89ab-cdef-0123-456789abcdef"
    );
    let mut other = identity.clone();
    other.review_id = Id { bits: 1 };
    assert_eq!(
        other.stable_key(),
        "project:project:worktree:wt-1:00000000-0000-0000-0000-000000000001"
    );
}

#[test]
fn new_identities_are_random_and_differ() {
    let a = ReviewIdentity::new(scope("/a", None), "run-1".to_string());
    let b = ReviewIdentity::new(scope("/a", None), "run-1".to_string());
    assert_ne!(a.review_id, b.review_id);
    assert_eq!(a.review_id.bits & 0xf000_c000_0000_0000_0000, 0x4000_8000_0000_0000_0000);
    assert_eq!(a.thread_id, None);
    assert_eq!(a.session_id, None);
    assert_eq!(a.diff_generation, "run-1");
}

#[test]
fn new_comments_are_pending_and_new_records_empty() {
    let comment = ReviewCommentRecord::new("fix".to_string(), target(false));
    assert_eq!(comment.text, "fix");
    assert_eq!(comment.state, DeliveryState::Pending);
    assert!(comment.created_at.nanos < 1_000_000_000);
    assert!(comment.created_at.seconds > 1_500_000_000);

    let record = ReviewRecord::new(ReviewIdentity::new(scope("/a", None), "g".to_string()));
    assert_eq!(record.created_at, record.updated_at);
    assert!(record.comments.is_empty());
    assert_eq!(record.pending_count(), 0);
}

#[test]
fn terminal_states_are_acknowledged_and_discarded() {
    let all = [
        (DeliveryState::Pending, false),
        (DeliveryState::InFlight, false),
        (DeliveryState::Uncertain, false),
        (DeliveryState::Retryable, false),
        (DeliveryState::Failed, false),
        (DeliveryState::Acknowledged, true),
        (DeliveryState::Discarded, true),
    ];
    for (state, terminal) in all {
        assert_eq!(state.is_terminal(), terminal);
    }
}

#[test]
fn counts_leave_out_what_is_done_with() {
    let record = record(
        1,
        "g",
        0,
        vec![
            comment(1, DeliveryState::Pending, true),
            comment(2, DeliveryState::Acknowledged, true),
            comment(3, DeliveryState::Failed, false),
            ReviewCommentRecord {
                id: Id { bits: 4 },
                text: String::new(),
                target: ReviewTarget::Other("whole file".to_string()),
                created_at: at(1),
                state: DeliveryState::Retryable,
            },
        ],
    );
    assert_eq!(record.pending_count(), 3);
    assert_eq!(record.stale_count(), 1);
}

#[test]
fn summaries_tell_of_uncertain_deliveries() {
    let snapshot = snapshot(vec![
        record(1, "g", 5, vec![comment(1, DeliveryState::Uncertain, false)]),
        record(2, "g", 6, vec![comment(2, DeliveryState::Pending, false)]),
    ]);
    let summaries = snapshot.summaries();
    assert_eq!(summaries.len(), 2);
    assert!(summaries[0].has_uncertain_delivery);
    assert!(!summaries[1].has_uncertain_delivery);
    assert_eq!(summaries[0].updated_at, at(5));
    assert_eq!(summaries[1].identity.review_id, Id { bits: 2 });
}

#[test]
fn selection_takes_the_first_with_the_identifier() {
    let mut snapshot = snapshot(vec![
        record(1, "a", 0, vec![]),
        record(2, "b", 0, vec![]),
        record(2, "c", 0, vec![]),
    ]);
    assert_eq!(snapshot.select(Id { bits: 2 }).unwrap().identity.diff_generation, "b");
    assert!(snapshot.select(Id { bits: 3 }).is_none());
    snapshot.select_mut(Id { bits: 2 }).unwrap().updated_at = at(9);
    assert_eq!(snapshot.records[1].updated_at, at(9));
    assert_eq!(snapshot.records[2].updated_at, at(0));
    assert!(snapshot.select_mut(Id { bits: 3 }).is_none());
    assert_eq!(snapshot.revision, 7);
}

#[test]
fn the_current_generation_is_the_one_updated_last() {
    let mut snapshot = snapshot(vec![
        record(1, "g", 5, vec![]),
        record(2, "g", 9, vec![]),
        record(3, "other", 20, vec![]),
        record(4, "g", 9, vec![]),
        record(5, "g", 7, vec![]),
    ]);
    let current = snapshot.select_current_generation("g").unwrap();
    assert_eq!(current.identity.review_id, Id { bits: 4 });
    assert!(snapshot.select_current_generation("none").is_none());
    snapshot.records[1].updated_at = Timestamp { seconds: 9, nanos: 1 };
    let current = snapshot.select_current_generation("g").unwrap();
    assert_eq!(current.identity.review_id, Id { bits: 2 });
    assert!(at(1).is_before(&at(2)) && !at(2).is_before(&at(2)));
}

#[test]
fn recovery_touches_only_records_with_comments_in_flight() {
    let mut snapshot = snapshot(vec![
        record(
            1,
            "g",
            5,
            vec![
                comment(1, DeliveryState::InFlight, false),
                comment(2, DeliveryState::Acknowledged, false),
                comment(3, DeliveryState::InFlight, false),
            ],
        ),
        record(2, "g", 5, vec![comment(4, DeliveryState::Pending, false)]),
    ]);
    let pending = snapshot.records[0].pending_count();
    assert_eq!(snapshot.recover_in_flight(), 2);
    assert_eq!(
        states(&snapshot.records[0]),
        vec![DeliveryState::Uncertain, DeliveryState::Acknowledged, DeliveryState::Uncertain]
    );
    assert!(at(5).is_before(&snapshot.records[0].updated_at));
    assert!(snapshot.records[0].updated_at.nanos < 1_000_000_000);
    assert_eq!(snapshot.records[1].updated_at, at(5));
    assert_eq!(snapshot.records[0].pending_count(), pending);
    assert_eq!(snapshot.revision, 7);
    assert_eq!(snapshot.recover_in_flight(), 0);
}

#[test]
fn recovery_and_delivery_take_the_time_they_are_given() {
    let mut one = record(1, "g", 5, vec![comment(1, DeliveryState::InFlight, false)]);
    one.recover_at(at(42));
    assert_eq!(one.updated_at, at(42));
    assert_eq!(states(&one), vec![DeliveryState::Uncertain]);
    one.recover_at(at(50));
    assert_eq!(one.updated_at, at(42));

    let ids: HashSet<u128> = HashSet::from([1]);
    one.deliver_at(&ids, DeliveryState::Failed, at(60));
    assert_eq!(one.updated_at, at(60));
    assert_eq!(states(&one), vec![DeliveryState::Failed]);
    one.deliver_at(&HashSet::new(), DeliveryState::Pending, at(70));
    assert_eq!(one.updated_at, at(60));
    assert_eq!(states(&one), vec![DeliveryState::Failed]);
}

#[test]
fn compaction_keeps_what_is_open_and_is_idempotent() {
    let mut snapshot = snapshot(vec![
        record(
            1,
            "g",
            5,
            vec![
                comment(1, DeliveryState::Discarded, false),
                comment(2, DeliveryState::Uncertain, false),
                comment(3, DeliveryState::Acknowledged, false),
                comment(4, DeliveryState::Pending, false),
            ],
        ),
        record(2, "g", 5, vec![comment(5, DeliveryState::Acknowledged, false)]),
        record(3, "g", 5, vec![]),
    ]);
    assert_eq!(snapshot.compact(), 3);
    assert_eq!(snapshot.revision, 8);
    assert_eq!(snapshot.records.len(), 1);
    assert_eq!(
        states(&snapshot.records[0]),
        vec![DeliveryState::Uncertain, DeliveryState::Pending]
    );
    assert_eq!(snapshot.compact(), 0);
    assert_eq!(snapshot.revision, 8);
    assert_eq!(snapshot.records.len(), 1);
}

#[test]
fn empty_records_go_without_a_new_revision() {
    let mut snapshot = snapshot(vec![record(1, "g", 5, vec![])]);
    assert_eq!(snapshot.compact(), 0);
    assert!(snapshot.records.is_empty());
    assert_eq!(snapshot.revision, 7);
}

#[test]
fn revisions_do_not_wrap() {
    let mut snapshot = snapshot(vec![]);
    snapshot.revision = u64::MAX;
    assert!(snapshot.mutate(|_: &mut Vec<ReviewRecord>| -> Result<(), String> { Ok(()) }).is_ok());
    assert_eq!(snapshot.revision, u64::MAX);
}

#[test]
fn loading_nothing_gives_no_reviews() {
    let store = AgentReviewStore::load(scope("/a", None), StoredSnapshot::Missing).unwrap();
    assert_eq!(store.snapshot, ReviewStoreSnapshot::default());
    assert_eq!(store.snapshot.schema_version, 1);
    assert_eq!(store.snapshot.revision, 0);
    assert_eq!(store.scope, scope("/a", None));
    assert_eq!(NAMESPACE, "agent_review_store");
}

#[test]
fn loading_recovers_interrupted_deliveries() {
    let stored = snapshot(vec![record(1, "g", 5, vec![comment(1, DeliveryState::InFlight, false)])]);
    let store =
        AgentReviewStore::load(scope("/a", None), StoredSnapshot::Found(Ok(stored))).unwrap();
    assert_eq!(states(&store.snapshot.records[0]), vec![DeliveryState::Uncertain]);
}

#[test]
fn loading_reports_what_is_wrong() {
    let unreadable = AgentReviewStore::load(
        scope("/a", Some("wt-1")),
        StoredSnapshot::Unreadable("locked".to_string()),
    )
    .unwrap_err();
    assert_eq!(
        unreadable,
        ReviewStoreError::Unreadable {
            key: "project:project:worktree:wt-1".to_string(),
            reason: "locked".to_string(),
        }
    );
    assert_eq!(
        unreadable.message(),
        "reading review store for project:project:worktree:wt-1"
    );

    let corrupt = AgentReviewStore::load(
        scope("/a", None),
        StoredSnapshot::Found(Err("no object".to_string())),
    )
    .unwrap_err();
    assert_eq!(corrupt, ReviewStoreError::Undecodable("no object".to_string()));
    assert_eq!(corrupt.message(), "decoding review store");

    let mut future = snapshot(vec![]);
    future.schema_version = 12;
    let unknown =
        AgentReviewStore::load(scope("/a", None), StoredSnapshot::Found(Ok(future))).unwrap_err();
    assert_eq!(unknown, ReviewStoreError::UnsupportedSchema(12));
    assert_eq!(unknown.message(), "unsupported review store schema version 12");
}

#[test]
fn discarding_says_whether_a_comment_went() {
    let mut store = AgentReviewStore {
        scope: scope("/a", None),
        snapshot: snapshot(vec![record(
            1,
            "g",
            5,
            vec![comment(1, DeliveryState::Discarded, false)],
        )]),
    };
    assert!(store.discard_empty());
    assert!(store.snapshot.records.is_empty());
    assert!(!store.discard_empty());
}

#[test]
fn delivery_results_are_applied_and_settled() {
    let stored = snapshot(vec![
        record(
            1,
            "g",
            5,
            vec![
                comment(1, DeliveryState::InFlight, false),
                comment(2, DeliveryState::InFlight, false),
            ],
        ),
        record(2, "g", 5, vec![comment(3, DeliveryState::Pending, false)]),
    ]);
    let store = AgentReviewStore::update_delivery_state(
        scope("/a", None),
        StoredSnapshot::Found(Ok(stored)),
        vec![Id { bits: 1 }, Id { bits: 3 }],
        DeliveryState::Acknowledged,
    )
    .unwrap();
    assert_eq!(store.snapshot.records.len(), 1);
    assert_eq!(store.snapshot.records[0].comments.len(), 1);
    assert_eq!(store.snapshot.records[0].comments[0].id, Id { bits: 2 });
    assert_eq!(states(&store.snapshot.records[0]), vec![DeliveryState::Uncertain]);
    assert_eq!(store.snapshot.revision, 8);
    assert!(AgentReviewStore::load(
        scope("/a", None),
        StoredSnapshot::Found(Ok(store.snapshot))
    )
    .is_ok());
}

#[test]
fn delivery_results_that_are_not_final_keep_the_comments() {
    let stored = snapshot(vec![record(1, "g", 5, vec![comment(1, DeliveryState::Pending, false)])]);
    let store = AgentReviewStore::update_delivery_state(
        scope("/a", None),
        StoredSnapshot::Found(Ok(stored)),
        vec![Id { bits: 1 }],
        DeliveryState::Retryable,
    )
    .unwrap();
    assert_eq!(states(&store.snapshot.records[0]), vec![DeliveryState::Retryable]);
    assert_eq!(store.snapshot.revision, 7);
    assert!(AgentReviewStore::update_delivery_state(
        scope("/a", None),
        StoredSnapshot::Unreadable("locked".to_string()),
        vec![],
        DeliveryState::Failed,
    )
    .is_err());
}
