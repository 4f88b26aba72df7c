//! The stored reviews of a scope: reading them, and applying delivery results to them.
use crate::ids::Id;
use crate::review::laws::{
    delivery_settles_its_comments, recovery_leaves_nothing_in_flight,
    recovery_of_settled_reviews_changes_nothing,
};
use crate::review::record::{has_state, DeliveryState, ReviewCommentRecord};
use crate::review::scope::{scope_key, ReviewScope};
use crate::review::snapshot::{
    closed_total, compacted_snapshot, empty_snapshot, is_delivery, is_recovery,
    ReviewStoreSnapshot, SnapshotModel, SCHEMA_VERSION,
};
use crate::text::{decimal, decimal_text};
use std::collections::HashSet;
use vstd::prelude::*;
use vstd::string::*;

verus! {

broadcast use vstd::std_specs::hash::group_hash_axioms;

/// The namespace that snapshots are stored in.
pub const NAMESPACE: &'static str = "agent_review_store";

/// Why the reviews of a scope cannot be had.
#[derive(Debug, PartialEq, Eq)]
pub enum ReviewStoreError {
    /// What is stored under the key cannot be read, for the reason given.
    Unreadable { key: String, reason: String },
    /// What is stored is no snapshot, for the reason given.
    Undecodable(String),
    /// What is stored has another form than the one that is known.
    UnsupportedSchema(u32),
}

/// What is said of an error.
pub open spec fn error_text(error: ReviewStoreError) -> Seq<char> {
    match error {
        ReviewStoreError::Unreadable { key, .. } => "reading review store for "@ + key@,
        ReviewStoreError::Undecodable(_) => "decoding review store"@,
        ReviewStoreError::UnsupportedSchema(
            version,
        ) => "unsupported review store schema version "@ + decimal(version as nat),
    }
}

impl ReviewStoreError {
    /// What is said of the error.
    pub fn message(&self) -> (r: String)
        ensures
            r@ == error_text(*self),
            self matches ReviewStoreError::Unreadable { key, .. } ==> r@
                == "reading review store for "@ + key@,
            self matches ReviewStoreError::UnsupportedSchema(version) ==> r@
                == "unsupported review store schema version "@ + decimal(*version as nat),
    {
        match self {
            ReviewStoreError::Unreadable { key, .. } => {
                let mut text = "reading review store for ".to_owned();
                text.append(key.as_str());
                text
            },
            ReviewStoreError::Undecodable(_) => "decoding review store".to_owned(),
            ReviewStoreError::UnsupportedSchema(version) => {
                let mut text = "unsupported review store schema version ".to_owned();
                text.append(decimal_text(*version as u64).as_str());
                text
            },
        }
    }
}

/// What was found under the key of a scope.
#[derive(Debug)]
pub enum StoredSnapshot {
    /// It cannot be read, for the reason given.
    Unreadable(String),
    /// Nothing is stored.
    Missing,
    /// A text that is a snapshot, or that is none for the reason given.
    Found(Result<ReviewStoreSnapshot, String>),
}

/// The snapshot that a text was found to be, where its form is the one that is known. Nothing
/// takes the place of a text that is no snapshot, or of one in another form.
pub fn decode_snapshot(parsed: Result<ReviewStoreSnapshot, String>) -> (r: Result<
    ReviewStoreSnapshot,
    ReviewStoreError,
>)
    ensures
        match parsed {
            Err(reason) => r == Err::<ReviewStoreSnapshot, _>(
                ReviewStoreError::Undecodable(reason),
            ),
            Ok(snapshot) => if snapshot.schema_version == SCHEMA_VERSION {
                r == Ok::<_, ReviewStoreError>(snapshot)
            } else {
                r == Err::<ReviewStoreSnapshot, _>(
                    ReviewStoreError::UnsupportedSchema(snapshot.schema_version),
                )
            },
        },
{
    match parsed {
        Err(reason) => Err(ReviewStoreError::Undecodable(reason)),
        Ok(snapshot) => if snapshot.schema_version != SCHEMA_VERSION {
            Err(ReviewStoreError::UnsupportedSchema(snapshot.schema_version))
        } else {
            Ok(snapshot)
        },
    }
}

/// The reviews of a scope can be had from what was found.
pub open spec fn is_loadable(stored: StoredSnapshot) -> bool {
    match stored {
        StoredSnapshot::Unreadable(_) => false,
        StoredSnapshot::Missing => true,
        StoredSnapshot::Found(Err(_)) => false,
        StoredSnapshot::Found(Ok(snapshot)) => snapshot.schema_version == SCHEMA_VERSION,
    }
}

/// The error says why the reviews of the scope cannot be had from what was found.
pub open spec fn is_load_error(
    scope: ReviewScope,
    stored: StoredSnapshot,
    error: ReviewStoreError,
) -> bool {
    match stored {
        StoredSnapshot::Unreadable(reason) => error matches ReviewStoreError::Unreadable {
            key,
            reason: said,
        } && key@ == scope_key(scope) && said == reason,
        StoredSnapshot::Missing => false,
        StoredSnapshot::Found(Err(reason)) => error == ReviewStoreError::Undecodable(reason),
        StoredSnapshot::Found(Ok(snapshot)) => snapshot.schema_version != SCHEMA_VERSION && error
            == ReviewStoreError::UnsupportedSchema(snapshot.schema_version),
    }
}

/// What is stored, where it can be had: without anything stored, no reviews.
pub open spec fn stored_model(stored: StoredSnapshot) -> SnapshotModel {
    match stored {
        StoredSnapshot::Found(Ok(snapshot)) => snapshot@,
        _ => empty_snapshot(),
    }
}

/// The identifiers of a list, as numbers.
pub open spec fn id_set(ids: Seq<Id>) -> Set<u128> {
    Set::new(|bits: u128| ids.contains(Id { bits }))
}

/// `after` is what `before`, as it is stored, becomes by a delivery result: deliveries that were
/// interrupted are recovered, the result is applied, and what is done with goes.
pub open spec fn is_settled(
    before: SnapshotModel,
    after: SnapshotModel,
    ids: Set<u128>,
    state: DeliveryState,
) -> bool {
    exists|loaded: SnapshotModel, delivered: SnapshotModel|
        is_recovery(before, loaded) && #[trigger] is_delivery(loaded, delivered, ids, state)
            && after == compacted_snapshot(delivered)
}

/// The reviews of a scope.
#[derive(Debug)]
pub struct AgentReviewStore {
    pub scope: ReviewScope,
    pub snapshot: ReviewStoreSnapshot,
}

impl AgentReviewStore {
    /// The reviews of the scope, from what was found under its key. Deliveries that were under way
    /// have been interrupted.
    pub fn load(scope: ReviewScope, stored: StoredSnapshot) -> (r: Result<Self, ReviewStoreError>)
        ensures
            r is Ok <==> is_loadable(stored),
            match r {
                Ok(store) => store.scope == scope && is_recovery(
                    stored_model(stored),
                    store.snapshot@,
                ),
                Err(error) => is_load_error(scope, stored, error),
            },
    {
        let mut snapshot = match stored {
            StoredSnapshot::Unreadable(reason) => {
                return Err(ReviewStoreError::Unreadable { key: scope.key(), reason });
            },
            StoredSnapshot::Missing => ReviewStoreSnapshot::default(),
            StoredSnapshot::Found(parsed) => match decode_snapshot(parsed) {
                Ok(snapshot) => snapshot,
                Err(error) => {
                    return Err(error);
                },
            },
        };
        snapshot.recover();
        Ok(AgentReviewStore { scope, snapshot })
    }

    /// Removes the comments that are done with, and the reviews that are left without comments;
    /// says whether a comment went.
    pub fn discard_empty(&mut self) -> (r: bool)
        ensures
            r == (closed_total(old(self).snapshot@.records) > 0),
            final(self).scope == old(self).scope,
            final(self).snapshot@ == compacted_snapshot(old(self).snapshot@),
    {
        self.snapshot.drop_closed()
    }

    /// Applies a delivery result to what was found under the key of the scope, even when the
    /// review pane that sent the comments has been closed. The reviews that come back are to be
    /// stored.
    pub fn update_delivery_state(
        scope: ReviewScope,
        stored: StoredSnapshot,
        comment_ids: Vec<Id>,
        state: DeliveryState,
    ) -> (r: Result<Self, ReviewStoreError>)
        ensures
            r is Ok <==> is_loadable(stored),
            match r {
                Ok(store) => store.scope == scope && is_settled(
                    stored_model(stored),
                    store.snapshot@,
                    id_set(comment_ids@),
                    state,
                ),
                Err(error) => is_load_error(scope, stored, error),
            },
    {
        let mut store = match Self::load(scope, stored) {
            Ok(store) => store,
            Err(error) => {
                return Err(error);
            },
        };
        let mut ids: HashSet<u128> = HashSet::new();
        for i in 0..comment_ids.len()
            invariant
                forall|bits: u128| #[trigger]
                    ids@.contains(bits) <==> exists|j: int|
                        0 <= j < i && #[trigger] comment_ids@[j] == (Id { bits }),
        {
            ids.insert(comment_ids[i].bits);
            assert(comment_ids@[i as int] == (Id { bits: comment_ids@[i as int].bits }));
        }
        assert(ids@ =~= id_set(comment_ids@));
        let ghost loaded = store.snapshot@;
        store.snapshot.deliver(&ids, state);
        assert(is_delivery(loaded, store.snapshot@, id_set(comment_ids@), state));
        store.snapshot.drop_closed();
        Ok(store)
    }
}

/// Reviews that were read hold no comment that is under way.
pub proof fn loaded_reviews_have_nothing_in_flight(stored: StoredSnapshot, loaded: SnapshotModel)
    requires
        is_loadable(stored),
        is_recovery(stored_model(stored), loaded),
    ensures
        forall|i: int|
            0 <= i < loaded.records.len() ==> !has_state(
                (#[trigger] loaded.records[i]).comments,
                DeliveryState::InFlight,
            ),
{
    recovery_leaves_nothing_in_flight(stored_model(stored), loaded);
}

/// After a delivery result has been applied, every comment with one of the identifiers is in the
/// state of the result. Where nothing more comes after that state, no such comment is left.
pub proof fn settled_comments_have_the_state(
    before: SnapshotModel,
    after: SnapshotModel,
    ids: Set<u128>,
    state: DeliveryState,
    k: int,
    c: ReviewCommentRecord,
)
    requires
        is_settled(before, after, ids, state),
        0 <= k < after.records.len(),
        after.records[k].comments.contains(c),
        ids.contains(c.id.bits),
    ensures
        c.state == state,
        !state.terminal(),
{
    let (loaded, delivered) = choose|loaded: SnapshotModel, delivered: SnapshotModel|
        is_recovery(before, loaded) && #[trigger] is_delivery(loaded, delivered, ids, state)
            && after == compacted_snapshot(delivered);
    delivery_settles_its_comments(loaded, delivered, ids, state, k, c);
}

/// What was loaded, with a delivery result applied, can be loaded again once it is stored.
pub proof fn settled_reviews_are_loadable(
    stored: StoredSnapshot,
    settled: ReviewStoreSnapshot,
    ids: Set<u128>,
    state: DeliveryState,
)
    requires
        is_loadable(stored),
        is_settled(stored_model(stored), settled@, ids, state),
    ensures
        is_loadable(StoredSnapshot::Found(Ok(settled))),
{
}

/// Reviews that hold no comment that is under way are loaded as they were stored.
pub proof fn settled_reviews_are_loaded_as_they_were_stored(
    stored: ReviewStoreSnapshot,
    loaded: SnapshotModel,
)
    requires
        stored.schema_version == SCHEMA_VERSION,
        forall|i: int|
            0 <= i < stored@.records.len() ==> !has_state(
                (#[trigger] stored@.records[i]).comments,
                DeliveryState::InFlight,
            ),
        is_recovery(stored_model(StoredSnapshot::Found(Ok(stored))), loaded),
    ensures
        is_loadable(StoredSnapshot::Found(Ok(stored))),
        loaded == stored@,
{
    recovery_of_settled_reviews_changes_nothing(stored@, loaded);
}

} // verus!
