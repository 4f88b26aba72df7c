//! What a review belongs to.
use crate::text::{opt_copy, same_text};
use vstd::prelude::*;
use vstd::string::*;

verus! {

/// A path, with what the file system resolves it to where it exists.
#[derive(Debug, PartialEq, Eq)]
pub struct ScopePath {
    pub path: String,
    pub resolved: Option<String>,
}

/// A durable scope. A worktree identifier is preferred over its path, so that a linked worktree
/// can be relocated without losing reviews.
#[derive(Debug, PartialEq, Eq)]
pub struct ReviewScope {
    pub worktree_id: Option<String>,
    pub project_id: Option<String>,
    pub worktree_path: ScopePath,
    pub project_path: Option<ScopePath>,
}

impl Clone for ScopePath {
    fn clone(&self) -> (r: Self)
        ensures
            r == *self,
    {
        ScopePath { path: self.path.clone(), resolved: opt_copy(&self.resolved) }
    }
}

impl Clone for ReviewScope {
    fn clone(&self) -> (r: Self)
        ensures
            r == *self,
    {
        ReviewScope {
            worktree_id: opt_copy(&self.worktree_id),
            project_id: opt_copy(&self.project_id),
            worktree_path: self.worktree_path.clone(),
            project_path: match &self.project_path {
                Some(path) => Some(path.clone()),
                None => None,
            },
        }
    }
}

/// The resolved path, or the path itself where it does not resolve.
pub open spec fn normalized(path: ScopePath) -> Seq<char> {
    match path.resolved {
        Some(resolved) => resolved@,
        None => path.path@,
    }
}

/// The resolved path, or the path itself where it does not resolve.
pub fn normalized_path(path: &ScopePath) -> (r: String)
    ensures
        r@ == normalized(*path),
{
    match &path.resolved {
        Some(resolved) => resolved.clone(),
        None => path.path.clone(),
    }
}

/// What names the project of a scope whose worktree has an identifier.
pub open spec fn project_by_id(scope: ReviewScope) -> Seq<char> {
    match scope.project_id {
        Some(id) => id@,
        None => "unknown"@,
    }
}

/// What names the project of a scope whose worktree has none.
pub open spec fn project_by_path(scope: ReviewScope) -> Seq<char> {
    match scope.project_path {
        Some(path) => normalized(path),
        None => "unknown"@,
    }
}

/// The key that the state of a scope is stored under.
pub open spec fn scope_key(scope: ReviewScope) -> Seq<char> {
    match scope.worktree_id {
        Some(worktree) => "project:"@ + project_by_id(scope) + ":worktree:"@ + worktree@,
        None => "project:"@ + project_by_path(scope) + ":path:"@ + normalized(
            scope.worktree_path,
        ),
    }
}

/// State can be moved from one scope to the other.
pub open spec fn can_relocate(a: ReviewScope, b: ReviewScope) -> bool {
    match (a.worktree_id, b.worktree_id) {
        (Some(left), Some(right)) => left@ == right@,
        (None, None) => normalized(a.worktree_path) == normalized(b.worktree_path),
        _ => false,
    }
}

impl ReviewScope {
    /// The key that the state of the scope is stored under.
    pub fn key(&self) -> (r: String)
        ensures
            r@ == scope_key(*self),
    {
        let mut key = "project:".to_owned();
        match &self.worktree_id {
            Some(worktree_id) => {
                match &self.project_id {
                    Some(project_id) => key.append(project_id.as_str()),
                    None => key.append("unknown"),
                }
                key.append(":worktree:");
                key.append(worktree_id.as_str());
            },
            None => {
                match &self.project_path {
                    Some(path) => key.append(normalized_path(path).as_str()),
                    None => key.append("unknown"),
                }
                key.append(":path:");
                key.append(normalized_path(&self.worktree_path).as_str());
            },
        }
        key
    }

    /// Whether persisted state can be moved to a newly discovered location without conflating it
    /// with another worktree.
    pub fn can_relocate_to(&self, other: &Self) -> (r: bool)
        ensures
            r == can_relocate(*self, *other),
    {
        match (&self.worktree_id, &other.worktree_id) {
            (Some(left), Some(right)) => same_text(left.as_str(), right.as_str()),
            (None, None) => same_text(
                normalized_path(&self.worktree_path).as_str(),
                normalized_path(&other.worktree_path).as_str(),
            ),
            _ => false,
        }
    }
}

/// A worktree with an identifier keeps its key wherever its paths lead.
pub proof fn worktree_id_survives_relocation(a: ReviewScope, b: ReviewScope)
    requires
        a.worktree_id matches Some(left) && (b.worktree_id matches Some(right) && left@ == right@),
        project_by_id(a) == project_by_id(b),
    ensures
        scope_key(a) == scope_key(b),
        can_relocate(a, b),
{
}

/// Worktrees of one project with different identifiers have different keys, and state cannot be
/// moved from one to the other.
pub proof fn worktree_ids_isolate(a: ReviewScope, b: ReviewScope)
    requires
        a.worktree_id matches Some(left) && (b.worktree_id matches Some(right) && left@ != right@),
        project_by_id(a) == project_by_id(b),
    ensures
        scope_key(a) != scope_key(b),
        !can_relocate(a, b),
{
    let prefix = "project:"@ + project_by_id(a) + ":worktree:"@;
    let left = a.worktree_id->Some_0@;
    let right = b.worktree_id->Some_0@;
    lemma_suffix_of_common_prefix(prefix, left, right);
}

/// Worktrees of one project without identifiers have different keys where their paths lead to
/// different places.
pub proof fn worktree_paths_isolate(a: ReviewScope, b: ReviewScope)
    requires
        a.worktree_id is None,
        b.worktree_id is None,
        project_by_path(a) == project_by_path(b),
        normalized(a.worktree_path) != normalized(b.worktree_path),
    ensures
        scope_key(a) != scope_key(b),
        !can_relocate(a, b),
{
    let prefix = "project:"@ + project_by_path(a) + ":path:"@;
    lemma_suffix_of_common_prefix(
        prefix,
        normalized(a.worktree_path),
        normalized(b.worktree_path),
    );
}

proof fn lemma_suffix_of_common_prefix(prefix: Seq<char>, a: Seq<char>, b: Seq<char>)
    requires
        a != b,
    ensures
        prefix + a != prefix + b,
{
    if prefix + a == prefix + b {
        assert((prefix + a).skip(prefix.len() as int) =~= a);
        assert((prefix + b).skip(prefix.len() as int) =~= b);
    }
}

/// To be able to move is an equivalence: each scope to itself, back, and onwards.
pub proof fn relocation_is_an_equivalence(a: ReviewScope, b: ReviewScope, c: ReviewScope)
    ensures
        can_relocate(a, a),
        can_relocate(a, b) == can_relocate(b, a),
        can_relocate(a, b) && can_relocate(b, c) ==> can_relocate(a, c),
{
}

/// State that can be moved within one project is found under the same key.
pub proof fn relocation_within_a_project_keeps_the_key(a: ReviewScope, b: ReviewScope)
    requires
        can_relocate(a, b),
        project_by_id(a) == project_by_id(b),
        project_by_path(a) == project_by_path(b),
    ensures
        scope_key(a) == scope_key(b),
{
}

/// The key of a scope whose worktree has an identifier is made of the identifier of the project and
/// that of the worktree, and of no path. The key of any other is made of the paths of the project
/// and of the worktree, each as it resolves, or as it stands where it does not. A project of which
/// nothing is known is called so.
pub proof fn keys_name_project_and_worktree(scope: ReviewScope)
    ensures
        scope.worktree_id matches Some(worktree) ==> scope_key(scope) == "project:"@ + (
        match scope.project_id {
            Some(project) => project@,
            None => "unknown"@,
        }) + ":worktree:"@ + worktree@,
        scope.worktree_id is None ==> scope_key(scope) == "project:"@ + (match scope.project_path {
            Some(path) => match path.resolved {
                Some(resolved) => resolved@,
                None => path.path@,
            },
            None => "unknown"@,
        }) + ":path:"@ + (match scope.worktree_path.resolved {
            Some(resolved) => resolved@,
            None => scope.worktree_path.path@,
        }),
{
}

/// Worktrees with the same identifier in projects with different identifiers have different keys.
pub proof fn projects_isolate(a: ReviewScope, b: ReviewScope)
    requires
        a.worktree_id matches Some(left) && (b.worktree_id matches Some(right) && left@ == right@),
        a.project_id matches Some(left) && (b.project_id matches Some(right) && left@ != right@),
    ensures
        scope_key(a) != scope_key(b),
        can_relocate(a, b),
{
    let worktree = a.worktree_id->Some_0@;
    let x = a.project_id->Some_0@;
    let y = b.project_id->Some_0@;
    let suffix = ":worktree:"@ + worktree;
    assert(scope_key(a) =~= "project:"@ + x + suffix);
    assert(scope_key(b) =~= "project:"@ + y + suffix);
    if scope_key(a) == scope_key(b) {
        let n = "project:"@.len() as int;
        assert(x.len() == y.len());
        assert(x =~= scope_key(a).subrange(n, n + x.len()));
        assert(y =~= scope_key(b).subrange(n, n + y.len()));
    }
}

/// State can be moved between worktrees with identifiers exactly where these are the same, whatever
/// the paths are; between worktrees without, exactly where their paths lead to the same place; and
/// never between one with and one without.
pub proof fn relocation_goes_by_identifier_or_path(a: ReviewScope, b: ReviewScope)
    ensures
        a.worktree_id matches Some(left) ==> (b.worktree_id matches Some(right) ==> (can_relocate(
            a,
            b,
        ) <==> left@ == right@)),
        a.worktree_id is None && b.worktree_id is None ==> (can_relocate(a, b) <==> (
        match a.worktree_path.resolved {
            Some(resolved) => resolved@,
            None => a.worktree_path.path@,
        }) == (match b.worktree_path.resolved {
            Some(resolved) => resolved@,
            None => b.worktree_path.path@,
        })),
        a.worktree_id is Some != b.worktree_id is Some ==> !can_relocate(a, b),
{
}

} // verus!
