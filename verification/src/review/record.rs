//! Reviews and their comments.
use crate::clock::{now, Timestamp};
use crate::ids::{fresh_id, hyphenated, id_text, is_random, id_text_is_injective, Id};
use crate::review::scope::{scope_key, ReviewScope};
use crate::text::opt_copy;
use std::collections::HashSet;
use vstd::prelude::*;
use vstd::string::*;

verus! {

broadcast use vstd::std_specs::hash::group_hash_axioms;

/// The stable identity of the review of one producing run.
#[derive(Debug, PartialEq, Eq)]
pub struct ReviewIdentity {
    pub review_id: Id,
    pub thread_id: Option<String>,
    pub session_id: Option<String>,
    pub scope: ReviewScope,
    pub diff_generation: String,
}

impl Clone for ReviewIdentity {
    fn clone(&self) -> (r: Self)
        ensures
            r == *self,
    {
        ReviewIdentity {
            review_id: self.review_id,
            thread_id: opt_copy(&self.thread_id),
            session_id: opt_copy(&self.session_id),
            scope: self.scope.clone(),
            diff_generation: self.diff_generation.clone(),
        }
    }
}

/// The text that names a review among those of all scopes.
pub open spec fn stable_key_text(identity: ReviewIdentity) -> Seq<char> {
    scope_key(identity.scope) + seq![':'] + id_text(identity.review_id)
}

impl ReviewIdentity {
    /// A new identity, under a fresh identifier and tied to no thread and no session.
    pub fn new(scope: ReviewScope, diff_generation: String) -> (r: Self)
        ensures
            is_random(r.review_id),
            r == (ReviewIdentity {
                review_id: r.review_id,
                thread_id: None,
                session_id: None,
                scope,
                diff_generation,
            }),
    {
        ReviewIdentity {
            review_id: fresh_id(),
            thread_id: None,
            session_id: None,
            scope,
            diff_generation,
        }
    }

    /// The text that names the review among those of all scopes.
    pub fn stable_key(&self) -> (r: String)
        ensures
            r@ == stable_key_text(*self),
    {
        let mut key = self.scope.key();
        key.push(':');
        key.append(hyphenated(self.review_id).as_str());
        assert(key@ =~= stable_key_text(*self));
        key
    }
}

/// Two reviews have the same stable key exactly where the keys of their scopes and their
/// identifiers are the same.
pub proof fn stable_key_tells_reviews_apart(a: ReviewIdentity, b: ReviewIdentity)
    ensures
        stable_key_text(a) == stable_key_text(b) <==> scope_key(a.scope) == scope_key(b.scope)
            && a.review_id == b.review_id,
{
    if stable_key_text(a) == stable_key_text(b) {
        let n = stable_key_text(a).len() - 37;
        assert(scope_key(a.scope) =~= stable_key_text(a).take(n));
        assert(scope_key(b.scope) =~= stable_key_text(b).take(n));
        assert(id_text(a.review_id) =~= stable_key_text(a).skip(n + 1));
        assert(id_text(b.review_id) =~= stable_key_text(b).skip(n + 1));
        id_text_is_injective(a.review_id, b.review_id);
    }
}

/// How far the delivery of a comment has come.
#[derive(Debug, Clone, Copy, PartialEq, Eq, Structural)]
pub enum DeliveryState {
    Pending,
    InFlight,
    Uncertain,
    Retryable,
    Failed,
    Acknowledged,
    Discarded,
}

impl DeliveryState {
    /// Nothing more will come of the comment.
    pub open spec fn terminal(self) -> bool {
        self is Acknowledged || self is Discarded
    }

    /// Whether nothing more will come of the comment.
    pub fn is_terminal(self) -> (r: bool)
        ensures
            r == self.terminal(),
    {
        matches!(self, DeliveryState::Acknowledged | DeliveryState::Discarded)
    }
}

/// What a comment is about.
#[derive(Debug, PartialEq, Eq)]
pub enum ReviewTarget {
    /// A hunk of a diff.
    Hunk {
        file_path: String,
        original_hunk_line: Option<u32>,
        original_range: Option<(u32, u32)>,
        resolved_hunk_line: Option<u32>,
        resolved_range: Option<(u32, u32)>,
        content_context: Option<String>,
        stale: bool,
    },
    /// Anything else, in the form in which the editor wrote it.
    Other(String),
}

/// The hunk that the target names is no longer there.
pub open spec fn is_stale(target: ReviewTarget) -> bool {
    target matches ReviewTarget::Hunk { stale, .. } && stale
}

/// A comment of a review.
#[derive(Debug, PartialEq, Eq)]
pub struct ReviewCommentRecord {
    pub id: Id,
    pub text: String,
    pub target: ReviewTarget,
    pub created_at: Timestamp,
    pub state: DeliveryState,
}

impl ReviewCommentRecord {
    /// A new comment that waits for delivery, under a fresh identifier.
    pub fn new(text: String, target: ReviewTarget) -> (r: Self)
        ensures
            is_random(r.id),
            r.created_at.nanos < 1_000_000_000,
            r == (ReviewCommentRecord {
                id: r.id,
                text,
                target,
                created_at: r.created_at,
                state: DeliveryState::Pending,
            }),
    {
        ReviewCommentRecord {
            id: fresh_id(),
            text,
            target,
            created_at: now(),
            state: DeliveryState::Pending,
        }
    }
}

/// A comment of which something may still come.
pub open spec fn is_open(comment: ReviewCommentRecord) -> bool {
    !comment.state.terminal()
}

/// Those of the comments of which something may still come.
pub open spec fn open_comments(comments: Seq<ReviewCommentRecord>) -> Seq<ReviewCommentRecord> {
    comments.filter(|c: ReviewCommentRecord| is_open(c))
}

/// Those of the open comments whose hunk is no longer there.
pub open spec fn stale_comments(comments: Seq<ReviewCommentRecord>) -> Seq<ReviewCommentRecord> {
    comments.filter(|c: ReviewCommentRecord| is_stale(c.target) && is_open(c))
}

/// Those of the comments that are under way.
pub open spec fn in_flight_comments(comments: Seq<ReviewCommentRecord>) -> Seq<
    ReviewCommentRecord,
> {
    comments.filter(|c: ReviewCommentRecord| c.state is InFlight)
}

/// Some comment is in the state.
pub open spec fn has_state(comments: Seq<ReviewCommentRecord>, state: DeliveryState) -> bool {
    exists|i: int| 0 <= i < comments.len() && #[trigger] comments[i].state == state
}

/// The review of one producing run.
#[derive(Debug, PartialEq, Eq)]
pub struct ReviewRecord {
    pub identity: ReviewIdentity,
    pub created_at: Timestamp,
    pub updated_at: Timestamp,
    pub comments: Vec<ReviewCommentRecord>,
}

/// What a review holds.
#[verifier::ext_equal]
pub ghost struct RecordModel {
    pub identity: ReviewIdentity,
    pub created_at: Timestamp,
    pub updated_at: Timestamp,
    pub comments: Seq<ReviewCommentRecord>,
}

impl View for ReviewRecord {
    type V = RecordModel;

    open spec fn view(&self) -> RecordModel {
        RecordModel {
            identity: self.identity,
            created_at: self.created_at,
            updated_at: self.updated_at,
            comments: self.comments@,
        }
    }
}

/// The comment once it is known that its delivery was interrupted: whether it arrived is
/// uncertain where it was under way.
pub open spec fn recovered_comment(comment: ReviewCommentRecord) -> ReviewCommentRecord {
    if comment.state is InFlight {
        ReviewCommentRecord { state: DeliveryState::Uncertain, ..comment }
    } else {
        comment
    }
}

/// The review once it is known that deliveries were interrupted.
pub open spec fn recovered_record(record: RecordModel, at: Timestamp) -> RecordModel {
    RecordModel {
        updated_at: if has_state(record.comments, DeliveryState::InFlight) {
            at
        } else {
            record.updated_at
        },
        comments: record.comments.map_values(|c: ReviewCommentRecord| recovered_comment(c)),
        ..record
    }
}

/// Some comment has one of the identifiers.
pub open spec fn has_any(comments: Seq<ReviewCommentRecord>, ids: Set<u128>) -> bool {
    exists|i: int| 0 <= i < comments.len() && ids.contains(#[trigger] comments[i].id.bits)
}

/// The comment after a delivery result for the identifiers.
pub open spec fn delivered_comment(
    comment: ReviewCommentRecord,
    ids: Set<u128>,
    state: DeliveryState,
) -> ReviewCommentRecord {
    if ids.contains(comment.id.bits) {
        ReviewCommentRecord { state, ..comment }
    } else {
        comment
    }
}

/// The review after a delivery result for the identifiers.
pub open spec fn delivered_record(
    record: RecordModel,
    ids: Set<u128>,
    state: DeliveryState,
    at: Timestamp,
) -> RecordModel {
    RecordModel {
        updated_at: if has_any(record.comments, ids) {
            at
        } else {
            record.updated_at
        },
        comments: record.comments.map_values(
            |c: ReviewCommentRecord| delivered_comment(c, ids, state),
        ),
        ..record
    }
}

/// The review without the comments of which nothing more will come.
pub open spec fn compacted_record(record: RecordModel) -> RecordModel {
    RecordModel { comments: open_comments(record.comments), ..record }
}

proof fn lemma_filter_step(
    s: Seq<ReviewCommentRecord>,
    i: int,
    p: spec_fn(ReviewCommentRecord) -> bool,
)
    requires
        0 <= i < s.len(),
    ensures
        s.take(i + 1).filter(p) == if p(s[i]) {
            s.take(i).filter(p).push(s[i])
        } else {
            s.take(i).filter(p)
        },
{
    reveal(Seq::filter);
    assert(s.take(i + 1).drop_last() =~= s.take(i));
}

impl ReviewRecord {
    /// A new review without comments, made now.
    pub fn new(identity: ReviewIdentity) -> (r: Self)
        ensures
            r.created_at.nanos < 1_000_000_000,
            r@ == (RecordModel {
                identity,
                created_at: r.created_at,
                updated_at: r.created_at,
                comments: Seq::empty(),
            }),
    {
        let at = now();
        ReviewRecord { identity, created_at: at, updated_at: at, comments: Vec::new() }
    }

    /// How many comments there are of which something may still come.
    pub fn pending_count(&self) -> (r: usize)
        ensures
            r == open_comments(self@.comments).len(),
    {
        let ghost p = |c: ReviewCommentRecord| is_open(c);
        let len = self.comments.len();
        let mut count: usize = 0;
        let mut i: usize = 0;
        while i < len
            invariant
                i <= len,
                len == self.comments@.len(),
                p == (|c: ReviewCommentRecord| is_open(c)),
                count == self.comments@.take(i as int).filter(p).len(),
                count <= i,
            decreases len - i,
        {
            proof {
                lemma_filter_step(self.comments@, i as int, p);
            }
            if !self.comments[i].state.is_terminal() {
                count = count + 1;
            }
            i = i + 1;
        }
        assert(self.comments@.take(i as int) =~= self.comments@);
        count
    }

    /// How many of them speak of a hunk that is no longer there.
    pub fn stale_count(&self) -> (r: usize)
        ensures
            r == stale_comments(self@.comments).len(),
    {
        let ghost p = |c: ReviewCommentRecord| is_stale(c.target) && is_open(c);
        let len = self.comments.len();
        let mut count: usize = 0;
        let mut i: usize = 0;
        while i < len
            invariant
                i <= len,
                len == self.comments@.len(),
                p == (|c: ReviewCommentRecord| is_stale(c.target) && is_open(c)),
                count == self.comments@.take(i as int).filter(p).len(),
                count <= i,
            decreases len - i,
        {
            proof {
                lemma_filter_step(self.comments@, i as int, p);
            }
            let comment = &self.comments[i];
            let stale = match &comment.target {
                ReviewTarget::Hunk { stale, .. } => *stale,
                ReviewTarget::Other(_) => false,
            };
            if stale && !comment.state.is_terminal() {
                count = count + 1;
            }
            i = i + 1;
        }
        assert(self.comments@.take(i as int) =~= self.comments@);
        count
    }

    /// How many comments are under way.
    pub(crate) fn in_flight_count(&self) -> (r: usize)
        ensures
            r == in_flight_comments(self@.comments).len(),
            r > 0 <==> has_state(self@.comments, DeliveryState::InFlight),
    {
        let ghost p = |c: ReviewCommentRecord| c.state is InFlight;
        let len = self.comments.len();
        let mut count: usize = 0;
        let mut i: usize = 0;
        while i < len
            invariant
                i <= len,
                len == self.comments@.len(),
                p == (|c: ReviewCommentRecord| c.state is InFlight),
                count == self.comments@.take(i as int).filter(p).len(),
                count <= i,
                count > 0 <==> exists|j: int|
                    0 <= j < i && #[trigger] self.comments@[j].state == DeliveryState::InFlight,
            decreases len - i,
        {
            proof {
                lemma_filter_step(self.comments@, i as int, p);
            }
            if self.comments[i].state == DeliveryState::InFlight {
                count = count + 1;
            }
            i = i + 1;
        }
        assert(self.comments@.take(i as int) =~= self.comments@);
        count
    }

    /// Whether some comment may or may not have arrived.
    pub(crate) fn has_uncertain(&self) -> (r: bool)
        ensures
            r == has_state(self@.comments, DeliveryState::Uncertain),
    {
        for i in 0..self.comments.len()
            invariant
                forall|j: int|
                    0 <= j < i ==> #[trigger] self.comments@[j].state
                        != DeliveryState::Uncertain,
        {
            if self.comments[i].state == DeliveryState::Uncertain {
                return true;
            }
        }
        false
    }

    /// Marks the comments that were under way as uncertain; `at` is the time.
    pub fn recover_at(&mut self, at: Timestamp)
        ensures
            final(self)@ == recovered_record(old(self)@, at),
    {
        let ghost before = self@;
        let len = self.comments.len();
        let mut recovered = false;
        let mut i: usize = 0;
        while i < len
            invariant
                i <= len,
                len == before.comments.len(),
                self.identity == before.identity,
                self.created_at == before.created_at,
                self.updated_at == before.updated_at,
                self.comments@.len() == len,
                forall|j: int|
                    0 <= j < i ==> #[trigger] self.comments@[j] == recovered_comment(
                        before.comments[j],
                    ),
                forall|j: int|
                    i <= j < len ==> #[trigger] self.comments@[j] == before.comments[j],
                recovered <==> exists|j: int|
                    0 <= j < i && #[trigger] before.comments[j].state == DeliveryState::InFlight,
            decreases len - i,
        {
            if self.comments[i].state == DeliveryState::InFlight {
                self.comments[i].state = DeliveryState::Uncertain;
                recovered = true;
            }
            i = i + 1;
        }
        if recovered {
            self.updated_at = at;
        }
        assert(self@ =~= recovered_record(before, at));
    }

    /// Sets the state of the comments that have one of the identifiers; `at` is the time.
    pub fn deliver_at(&mut self, ids: &HashSet<u128>, state: DeliveryState, at: Timestamp)
        ensures
            final(self)@ == delivered_record(old(self)@, ids@, state, at),
    {
        let ghost before = self@;
        let len = self.comments.len();
        let mut touched = false;
        let mut i: usize = 0;
        while i < len
            invariant
                i <= len,
                len == before.comments.len(),
                self.identity == before.identity,
                self.created_at == before.created_at,
                self.updated_at == before.updated_at,
                self.comments@.len() == len,
                forall|j: int|
                    0 <= j < i ==> #[trigger] self.comments@[j] == delivered_comment(
                        before.comments[j],
                        ids@,
                        state,
                    ),
                forall|j: int|
                    i <= j < len ==> #[trigger] self.comments@[j] == before.comments[j],
                touched <==> exists|j: int|
                    0 <= j < i && ids@.contains(#[trigger] before.comments[j].id.bits),
            decreases len - i,
        {
            assert(self.comments@[i as int] == before.comments[i as int]);
            if ids.contains(&self.comments[i].id.bits) {
                self.comments[i].state = state;
                touched = true;
            }
            i = i + 1;
        }
        if touched {
            self.updated_at = at;
        }
        assert(self@ =~= delivered_record(before, ids@, state, at));
    }

    /// The review without the comments of which nothing more will come.
    pub(crate) fn compacted(self) -> (r: Self)
        ensures
            r@ == compacted_record(self@),
    {
        let ghost p = |c: ReviewCommentRecord| is_open(c);
        let ghost all = self.comments@;
        let mut comments: Vec<ReviewCommentRecord> = Vec::new();
        for comment in it: self.comments
            invariant
                it.seq() == all,
                p == (|c: ReviewCommentRecord| is_open(c)),
                comments@ == all.take(it.index() as int).filter(p),
        {
            proof {
                lemma_filter_step(all, it.index() as int, p);
            }
            if !comment.state.is_terminal() {
                comments.push(comment);
            }
        }
        assert(all.take(all.len() as int) =~= all);
        ReviewRecord {
            identity: self.identity,
            created_at: self.created_at,
            updated_at: self.updated_at,
            comments,
        }
    }
}

/// No more comments are stale than are pending.
pub proof fn stale_comments_are_pending(comments: Seq<ReviewCommentRecord>)
    ensures
        stale_comments(comments).len() <= open_comments(comments).len(),
    decreases comments.len(),
{
    reveal(Seq::filter);
    if comments.len() > 0 {
        stale_comments_are_pending(comments.drop_last());
    }
}

} // verus!
