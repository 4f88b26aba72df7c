//! Which theme files a check looks at.
use crate::text::{chars_of, same_text, text_before, text_lt, text_order_is_strict_and_total};
use crate::theme::errors::ThemeError;
use crate::theme::keys::open_braces;
use globset::{Candidate, Glob, GlobSet, GlobSetBuilder};
use vstd::prelude::*;

verus! {

// ---------------------------------------------------------------------------------------
// Paths
// ---------------------------------------------------------------------------------------

/// What a path starts with, on systems that have drives and shares. Prefixes are ordered by
/// their kind first, in the order in which the kinds stand here.
#[derive(Clone, Copy, Debug, PartialEq, Eq, Structural)]
pub enum PrefixKind {
    Verbatim,
    VerbatimShare,
    VerbatimDisk,
    Device,
    Share,
    Disk,
}

/// A component of a path.
#[derive(Debug)]
pub enum PathPart {
    /// A drive, a device or a share; `share` is empty where only a share has one.
    Prefix { kind: PrefixKind, name: String, share: String },
    RootDir,
    CurDir,
    ParentDir,
    Normal(String),
}

/// A path: its components, and how it is written.
#[derive(Debug)]
pub struct ThemePath {
    pub parts: Vec<PathPart>,
    pub text: String,
}

/// What a component is ordered by, and known by.
pub type PartKey = (int, Seq<char>, Seq<char>);

/// Where a kind of prefix stands in the order.
pub open spec fn prefix_rank(kind: PrefixKind) -> int {
    match kind {
        PrefixKind::Verbatim => 0,
        PrefixKind::VerbatimShare => 1,
        PrefixKind::VerbatimDisk => 2,
        PrefixKind::Device => 3,
        PrefixKind::Share => 4,
        PrefixKind::Disk => 5,
    }
}

/// What a component is ordered by: its kind, then its name, and then its share.
pub open spec fn part_key(p: PathPart) -> PartKey {
    match p {
        PathPart::Prefix { kind, name, share } => (prefix_rank(kind), name@, share@),
        PathPart::RootDir => (6, Seq::empty(), Seq::empty()),
        PathPart::CurDir => (7, Seq::empty(), Seq::empty()),
        PathPart::ParentDir => (8, Seq::empty(), Seq::empty()),
        PathPart::Normal(name) => (9, name@, Seq::empty()),
    }
}

/// The order of components.
pub open spec fn part_lt(a: PartKey, b: PartKey) -> bool {
    a.0 < b.0 || (a.0 == b.0 && (text_lt(a.1, b.1) || (a.1 == b.1 && text_lt(a.2, b.2))))
}

/// What a path is ordered by, and known by: its components.
pub open spec fn path_key(p: ThemePath) -> Seq<PartKey> {
    p.parts@.map_values(|part: PathPart| part_key(part))
}

/// The order of paths: lexicographic by components.
pub open spec fn path_lt(a: Seq<PartKey>, b: Seq<PartKey>) -> bool
    decreases a.len(),
{
    if b.len() == 0 {
        false
    } else if a.len() == 0 {
        true
    } else {
        part_lt(a[0], b[0]) || (a[0] == b[0] && path_lt(a.drop_first(), b.drop_first()))
    }
}

proof fn lemma_path_irreflexive(a: Seq<PartKey>)
    ensures
        !path_lt(a, a),
    decreases a.len(),
{
    text_order_is_strict_and_total();
    if a.len() > 0 {
        lemma_path_irreflexive(a.drop_first());
    }
}

proof fn lemma_path_transitive(
    a: Seq<PartKey>,
    b: Seq<PartKey>,
    c: Seq<PartKey>,
)
    requires
        path_lt(a, b),
        path_lt(b, c),
    ensures
        path_lt(a, c),
    decreases a.len(),
{
    text_order_is_strict_and_total();
    if a.len() > 0 && a[0] == b[0] && b[0] == c[0] {
        lemma_path_transitive(a.drop_first(), b.drop_first(), c.drop_first());
    }
}

proof fn lemma_path_total(a: Seq<PartKey>, b: Seq<PartKey>)
    ensures
        a == b || path_lt(a, b) || path_lt(b, a),
    decreases a.len(),
{
    text_order_is_strict_and_total();
    if a.len() > 0 && b.len() > 0 {
        if a[0] == b[0] {
            lemma_path_total(a.drop_first(), b.drop_first());
            if a.drop_first() == b.drop_first() {
                assert(a =~= seq![a[0]] + a.drop_first());
                assert(b =~= seq![b[0]] + b.drop_first());
            }
        } else {
            assert(part_lt(a[0], b[0]) || part_lt(b[0], a[0])) by {
                if a[0].0 == b[0].0 {
                    assert(a[0].1 == b[0].1 || text_lt(a[0].1, b[0].1) || text_lt(
                        b[0].1,
                        a[0].1,
                    ));
                    assert(a[0].2 == b[0].2 || text_lt(a[0].2, b[0].2) || text_lt(
                        b[0].2,
                        a[0].2,
                    ));
                }
            }
        }
    } else if a.len() == 0 && b.len() == 0 {
        assert(a =~= b);
    }
}

/// The order of paths is a strict total order.
pub proof fn path_order_is_strict_and_total()
    ensures
        forall|a: Seq<PartKey>| !#[trigger] path_lt(a, a),
        forall|a: Seq<PartKey>, b: Seq<PartKey>, c: Seq<PartKey>|
            #[trigger] path_lt(a, b) && #[trigger] path_lt(b, c) ==> path_lt(a, c),
        forall|a: Seq<PartKey>, b: Seq<PartKey>|
            a == b || #[trigger] path_lt(a, b) || path_lt(b, a),
{
    assert forall|a: Seq<PartKey>| !#[trigger] path_lt(a, a) by {
        lemma_path_irreflexive(a);
    }
    assert forall|a: Seq<PartKey>, b: Seq<PartKey>, c: Seq<PartKey>|
        #[trigger] path_lt(a, b) && #[trigger] path_lt(b, c) implies path_lt(a, c) by {
        lemma_path_transitive(a, b, c);
    }
    assert forall|a: Seq<PartKey>, b: Seq<PartKey>|
        a == b || #[trigger] path_lt(a, b) || path_lt(b, a) by {
        lemma_path_total(a, b);
    }
}

/// How a component stands to another.
enum Standing {
    Before,
    Same,
    After,
}

fn rank(p: &PathPart) -> (r: u8)
    ensures
        r == part_key(*p).0,
{
    match p {
        PathPart::Prefix { kind, .. } => match kind {
            PrefixKind::Verbatim => 0,
            PrefixKind::VerbatimShare => 1,
            PrefixKind::VerbatimDisk => 2,
            PrefixKind::Device => 3,
            PrefixKind::Share => 4,
            PrefixKind::Disk => 5,
        },
        PathPart::RootDir => 6,
        PathPart::CurDir => 7,
        PathPart::ParentDir => 8,
        PathPart::Normal(_) => 9,
    }
}

fn part_name(p: &PathPart) -> (r: &str)
    ensures
        r@ == part_key(*p).1,
{
    proof {
        reveal_strlit("");
    }
    let r = match p {
        PathPart::Prefix { name, .. } => name.as_str(),
        PathPart::Normal(name) => name.as_str(),
        _ => "",
    };
    assert(r@ =~= part_key(*p).1);
    r
}

fn part_share(p: &PathPart) -> (r: &str)
    ensures
        r@ == part_key(*p).2,
{
    proof {
        reveal_strlit("");
    }
    let r = match p {
        PathPart::Prefix { share, .. } => share.as_str(),
        _ => "",
    };
    assert(r@ =~= part_key(*p).2);
    r
}

fn compare_parts(a: &PathPart, b: &PathPart) -> (r: Standing)
    ensures
        match r {
            Standing::Before => part_lt(part_key(*a), part_key(*b)),
            Standing::Same => part_key(*a) == part_key(*b),
            Standing::After => part_lt(part_key(*b), part_key(*a)),
        },
{
    proof {
        text_order_is_strict_and_total();
    }
    if rank(a) < rank(b) {
        Standing::Before
    } else if rank(b) < rank(a) {
        Standing::After
    } else if text_before(part_name(a), part_name(b)) {
        Standing::Before
    } else if !same_text(part_name(a), part_name(b)) {
        Standing::After
    } else if text_before(part_share(a), part_share(b)) {
        Standing::Before
    } else if !same_text(part_share(a), part_share(b)) {
        Standing::After
    } else {
        Standing::Same
    }
}

proof fn lemma_path_lt_after_common_prefix(
    a: Seq<PartKey>,
    b: Seq<PartKey>,
    n: int,
)
    requires
        0 <= n <= a.len(),
        n <= b.len(),
        forall|i: int| 0 <= i < n ==> a[i] == b[i],
    ensures
        path_lt(a, b) == path_lt(a.skip(n), b.skip(n)),
    decreases n,
{
    if n == 0 {
        assert(a.skip(0) =~= a);
        assert(b.skip(0) =~= b);
    } else {
        text_order_is_strict_and_total();
        assert(a[0] == b[0]);
        lemma_path_lt_after_common_prefix(a.drop_first(), b.drop_first(), n - 1);
        assert(a.drop_first().skip(n - 1) =~= a.skip(n));
        assert(b.drop_first().skip(n - 1) =~= b.skip(n));
    }
}

fn compare_paths(a: &ThemePath, b: &ThemePath) -> (r: Standing)
    ensures
        match r {
            Standing::Before => path_lt(path_key(*a), path_key(*b)),
            Standing::Same => path_key(*a) == path_key(*b),
            Standing::After => path_lt(path_key(*b), path_key(*a)),
        },
{
    let ghost x = path_key(*a);
    let ghost y = path_key(*b);
    let mut i: usize = 0;
    while i < a.parts.len() && i < b.parts.len()
        invariant
            x == path_key(*a),
            y == path_key(*b),
            i <= a.parts@.len(),
            i <= b.parts@.len(),
            forall|j: int| 0 <= j < i ==> x[j] == y[j],
        decreases a.parts@.len() - i,
    {
        assert(x[i as int] == part_key(a.parts@[i as int]));
        assert(y[i as int] == part_key(b.parts@[i as int]));
        proof {
            lemma_path_lt_after_common_prefix(x, y, i as int);
            lemma_path_lt_after_common_prefix(y, x, i as int);
        }
        match compare_parts(&a.parts[i], &b.parts[i]) {
            Standing::Before => {
                return Standing::Before;
            },
            Standing::After => {
                return Standing::After;
            },
            Standing::Same => {},
        }
        i = i + 1;
    }
    proof {
        lemma_path_lt_after_common_prefix(x, y, i as int);
        lemma_path_lt_after_common_prefix(y, x, i as int);
    }
    if i < b.parts.len() {
        Standing::Before
    } else if i < a.parts.len() {
        Standing::After
    } else {
        assert(x =~= y);
        Standing::Same
    }
}

/// A path starts with the components of another.
pub open spec fn leads(root: ThemePath, path: ThemePath) -> bool {
    path_key(root).is_prefix_of(path_key(path))
}

/// How many components of a path are left out where it is shown: those of the root, where the path
/// lies below it.
pub open spec fn left_out(root: ThemePath, path: ThemePath) -> int {
    if leads(root, path) {
        root.parts@.len() as int
    } else {
        0
    }
}

/// Whether a path starts with the components of another.
pub(crate) fn is_below(root: &ThemePath, path: &ThemePath) -> (r: bool)
    ensures
        r == leads(*root, *path),
{
    let ghost x = path_key(*root);
    let ghost y = path_key(*path);
    if root.parts.len() > path.parts.len() {
        return false;
    }
    for i in 0..root.parts.len()
        invariant
            x == path_key(*root),
            y == path_key(*path),
            root.parts@.len() <= path.parts@.len(),
            forall|j: int| 0 <= j < i ==> x[j] == y[j],
    {
        assert(x[i as int] == part_key(root.parts@[i as int]));
        assert(y[i as int] == part_key(path.parts@[i as int]));
        proof {
            text_order_is_strict_and_total();
        }
        match compare_parts(&root.parts[i], &path.parts[i]) {
            Standing::Same => {},
            _ => {
                assert(x[i as int] != y[i as int]);
                return false;
            },
        }
    }
    assert(x =~= y.take(x.len() as int));
    true
}

/// The components of a path that are shown: those after the root, where the path lies below it,
/// and else all.
pub fn shown_parts<'a>(root: &ThemePath, path: &'a ThemePath) -> (r: Vec<&'a PathPart>)
    ensures
        r@.len() == path.parts@.len() - left_out(*root, *path),
        forall|i: int|
            0 <= i < r@.len() ==> *(#[trigger] r@[i]) == path.parts@[left_out(*root, *path) + i],
{
    let start: usize = if is_below(root, path) {
        root.parts.len()
    } else {
        0
    };
    let mut shown: Vec<&'a PathPart> = Vec::new();
    for i in start..path.parts.len()
        invariant
            start <= path.parts@.len(),
            shown@.len() == i - start,
            forall|j: int| 0 <= j < shown@.len() ==> *(#[trigger] shown@[j]) == path.parts@[start + j],
    {
        shown.push(&path.parts[i]);
    }
    shown
}

// ---------------------------------------------------------------------------------------
// Lists of paths
// ---------------------------------------------------------------------------------------

/// The path at place `j` is the first of its kind in the list.
pub open spec fn first_of_its_kind(chosen: Seq<ThemePath>, j: int) -> bool {
    &&& 0 <= j < chosen.len()
    &&& forall|k: int| 0 <= k < j ==> path_key(#[trigger] chosen[k]) != path_key(chosen[j])
}

/// `p` is chosen, and no path chosen before it has the same components.
#[verifier::opaque]
pub open spec fn is_first_choice(chosen: Seq<ThemePath>, p: ThemePath) -> bool {
    exists|j: int| #[trigger] first_of_its_kind(chosen, j) && chosen[j] == p
}

/// A path with these components is in the list.
#[verifier::opaque]
pub open spec fn has_path(r: Seq<ThemePath>, key: Seq<PartKey>) -> bool {
    exists|i: int| 0 <= i < r.len() && path_key(#[trigger] r[i]) == key
}

/// `r` holds each of the chosen paths once, in ascending order; of paths with the same
/// components the one chosen first.
pub open spec fn is_sorted_choice(r: Seq<ThemePath>, chosen: Seq<ThemePath>) -> bool {
    &&& forall|i: int, j: int|
        0 <= i < j < r.len() ==> path_lt(path_key(#[trigger] r[i]), path_key(#[trigger] r[j]))
    &&& forall|i: int| 0 <= i < r.len() ==> is_first_choice(chosen, #[trigger] r[i])
    &&& forall|j: int|
        0 <= j < chosen.len() ==> has_path(r, path_key(#[trigger] chosen[j]))
}

/// What is the first choice stays so when more is chosen.
proof fn lemma_first_choice_stays(chosen: Seq<ThemePath>, path: ThemePath, p: ThemePath)
    requires
        is_first_choice(chosen, p),
    ensures
        is_first_choice(chosen.push(path), p),
{
    reveal(is_first_choice);
    let more = chosen.push(path);
    let j = choose|j: int| #[trigger] first_of_its_kind(chosen, j) && chosen[j] == p;
    assert(first_of_its_kind(more, j)) by {
        assert forall|k: int| 0 <= k < j implies path_key(#[trigger] more[k]) != path_key(
            more[j],
        ) by {
            assert(more[k] == chosen[k]);
        }
    }
}

/// A path with components that are already in the list adds nothing.
proof fn lemma_choice_unchanged(r: Seq<ThemePath>, chosen: Seq<ThemePath>, path: ThemePath)
    requires
        is_sorted_choice(r, chosen),
        has_path(r, path_key(path)),
    ensures
        is_sorted_choice(r, chosen.push(path)),
{
    let more = chosen.push(path);
    assert forall|i: int| 0 <= i < r.len() implies is_first_choice(more, #[trigger] r[i]) by {
        lemma_first_choice_stays(chosen, path, r[i]);
    }
    assert forall|j: int| 0 <= j < more.len() implies has_path(
        r,
        path_key(#[trigger] more[j]),
    ) by {
        if j < chosen.len() {
            assert(more[j] == chosen[j]);
        }
    }
}

/// A path with new components goes to its place.
proof fn lemma_choice_grows(
    r: Seq<ThemePath>,
    chosen: Seq<ThemePath>,
    path: ThemePath,
    at: int,
)
    requires
        is_sorted_choice(r, chosen),
        0 <= at <= r.len(),
        forall|i: int| 0 <= i < at ==> path_lt(path_key(#[trigger] r[i]), path_key(path)),
        forall|i: int| at <= i < r.len() ==> path_lt(path_key(path), path_key(#[trigger] r[i])),
    ensures
        is_sorted_choice(r.insert(at, path), chosen.push(path)),
{
    path_order_is_strict_and_total();
    let more = chosen.push(path);
    let after = r.insert(at, path);
    let key = path_key(path);
    let last = chosen.len() as int;
    assert forall|i: int, j: int| 0 <= i < j < after.len() implies path_lt(
        path_key(#[trigger] after[i]),
        path_key(#[trigger] after[j]),
    ) by {
        let a = if i < at {
            i
        } else {
            i - 1
        };
        let b = if j < at {
            j
        } else {
            j - 1
        };
        if i == at {
            assert(after[j] == r[b]);
        } else if j == at {
            assert(after[i] == r[a]);
        } else {
            assert(after[i] == r[a]);
            assert(after[j] == r[b]);
        }
    }
    assert(is_first_choice(more, path)) by {
        reveal(is_first_choice);
        assert forall|k: int| 0 <= k < last implies path_key(#[trigger] more[k]) != path_key(
            more[last],
        ) by {
            assert(more[k] == chosen[k]);
            assert(has_path(r, path_key(chosen[k])));
            reveal(has_path);
            let i = choose|i: int|
                0 <= i < r.len() && path_key(#[trigger] r[i]) == path_key(chosen[k]);
            assert(path_lt(path_key(r[i]), key) || path_lt(key, path_key(r[i])));
        }
        assert(first_of_its_kind(more, last));
    }
    assert forall|i: int| 0 <= i < after.len() implies is_first_choice(
        more,
        #[trigger] after[i],
    ) by {
        if i != at {
            let a = if i < at {
                i
            } else {
                i - 1
            };
            assert(after[i] == r[a]);
            lemma_first_choice_stays(chosen, path, r[a]);
        }
    }
    assert forall|j: int| 0 <= j < more.len() implies has_path(
        after,
        path_key(#[trigger] more[j]),
    ) by {
        if j < last {
            assert(more[j] == chosen[j]);
            assert(has_path(r, path_key(chosen[j])));
            reveal(has_path);
            let i = choose|i: int|
                0 <= i < r.len() && path_key(#[trigger] r[i]) == path_key(chosen[j]);
            let n = if i < at {
                i
            } else {
                i + 1
            };
            assert(after[n] == r[i]);
        } else {
            reveal(has_path);
            assert(after[at] == more[j]);
        }
    }
}

/// Adds a path to the chosen ones.
fn choose_path(files: &mut Vec<ThemePath>, path: ThemePath, Ghost(chosen): Ghost<Seq<ThemePath>>)
    requires
        is_sorted_choice(old(files)@, chosen),
    ensures
        is_sorted_choice(final(files)@, chosen.push(path)),
{
    let mut at: usize = 0;
    while at < files.len()
        invariant
            at <= files@.len(),
            files@ == old(files)@,
            is_sorted_choice(files@, chosen),
            forall|i: int| 0 <= i < at ==> path_lt(path_key(#[trigger] files@[i]), path_key(path)),
        decreases files@.len() - at,
    {
        match compare_paths(&files[at], &path) {
            Standing::Before => {},
            Standing::Same => {
                proof {
                    assert(has_path(files@, path_key(path))) by {
                        reveal(has_path);
                        assert(path_key(files@[at as int]) == path_key(path));
                    }
                    lemma_choice_unchanged(files@, chosen, path);
                }
                return;
            },
            Standing::After => {
                proof {
                    path_order_is_strict_and_total();
                    assert forall|i: int| at <= i < files@.len() implies path_lt(
                        path_key(path),
                        path_key(#[trigger] files@[i]),
                    ) by {
                        if i > at {
                            assert(path_lt(path_key(files@[at as int]), path_key(files@[i])));
                        }
                    }
                    lemma_choice_grows(files@, chosen, path, at as int);
                }
                files.insert(at, path);
                return;
            },
        }
        at = at + 1;
    }
    proof {
        lemma_choice_grows(files@, chosen, path, at as int);
        assert(files@.insert(at as int, path) =~= files@.push(path));
    }
    files.push(path);
}

// ---------------------------------------------------------------------------------------
// Globs
// ---------------------------------------------------------------------------------------

#[verifier::external_type_specification]
#[verifier::external_body]
pub struct ExGlob(globset::Glob);

#[verifier::external_type_specification]
#[verifier::external_body]
pub struct ExGlobSetBuilder(globset::GlobSetBuilder);

#[verifier::external_type_specification]
#[verifier::external_body]
pub struct ExGlobSet(globset::GlobSet);

/// The pattern that a `globset::Glob` was made from (`Glob::glob`).
pub uninterp spec fn glob_source(glob: Glob) -> Seq<char>;

/// The patterns of the globs that a `globset::GlobSetBuilder` holds, in order.
pub uninterp spec fn builder_globs(builder: GlobSetBuilder) -> Seq<Seq<char>>;

/// The patterns of the globs that a `globset::GlobSet` was built from, in order.
pub uninterp spec fn set_globs(set: GlobSet) -> Seq<Seq<char>>;

/// What the error of `Glob::new` for a pattern says, or `None` where it accepts the pattern.
pub uninterp spec fn glob_error(pattern: Seq<char>) -> Option<Seq<char>>;

/// Whether `GlobSetBuilder::build` fails on globs with these patterns.
pub uninterp spec fn globs_fail(patterns: Seq<Seq<char>>) -> bool;

/// Whether a set of globs with these patterns matches the path with these bytes
/// (`GlobSet::is_match_candidate`).
pub uninterp spec fn globs_match(patterns: Seq<Seq<char>>, path: Seq<u8>) -> bool;

/// A text without a backslash. Systems differ in whether a backslash separates the components
/// of a path or escapes what follows it, and in nothing else that globs depend on.
pub open spec fn is_portable(text: Seq<char>) -> bool {
    !text.contains('\\')
}

/// The bytes of a path without a backslash.
pub open spec fn is_portable_path(path: Seq<u8>) -> bool {
    !path.contains(0x5cu8)
}

/// How many braces open in a text.
pub open spec fn opening_braces(s: Seq<char>) -> nat
    decreases s.len(),
{
    if s.len() == 0 {
        0
    } else if s.last() == '{' {
        opening_braces(s.drop_last()) + 1
    } else {
        opening_braces(s.drop_last())
    }
}

/// No more than a thousand braces are open at any place of a text.
pub open spec fn is_nested_little(s: Seq<char>) -> bool {
    forall|n: int| 0 <= n <= s.len() ==> open_braces(#[trigger] s.take(n)) <= 1000
}

/// A pattern whose alternates are not nested deeper than a stack allows: it has few braces, or has
/// neither classes nor escapes, so that every brace counts, and few are open at any place.
pub open spec fn is_shallow(pattern: Seq<char>) -> bool {
    ||| opening_braces(pattern) <= 1000
    ||| is_portable(pattern) && !pattern.contains('[') && is_nested_little(pattern)
}

/// All patterns are shallow.
pub open spec fn all_shallow(globs: Seq<GlobPattern>) -> bool {
    forall|i: int| 0 <= i < globs.len() ==> is_shallow((#[trigger] globs[i]).pattern@)
}

/// Whether a pattern is shallow.
fn shallow(pattern: &str) -> (r: bool)
    ensures
        r == is_shallow(pattern@),
{
    let chars = chars_of(pattern);
    let ghost s = pattern@;
    let len = chars.len();
    let mut braces: usize = 0;
    let mut open: usize = 0;
    let mut plain = true;
    let mut little = true;
    let mut i: usize = 0;
    assert(s.take(0).len() == 0);
    while i < len
        invariant
            s == pattern@,
            chars@ == s,
            len == s.len(),
            i <= len,
            braces <= i,
            open <= i,
            braces == opening_braces(s.take(i as int)),
            open == open_braces(s.take(i as int)),
            plain <==> forall|j: int| 0 <= j < i ==> #[trigger] s[j] != '\\' && s[j] != '[',
            little <==> forall|n: int|
                0 <= n <= i ==> open_braces(#[trigger] s.take(n)) <= 1000,
        decreases len - i,
    {
        let c = chars[i];
        assert(s.take(i + 1).drop_last() =~= s.take(i as int));
        assert(s.take(i + 1).last() == c);
        if c == '{' {
            braces = braces + 1;
            open = open + 1;
        } else if c == '}' && open > 0 {
            open = open - 1;
        }
        if c == '\\' || c == '[' {
            plain = false;
        }
        if open > 1000 {
            little = false;
        }
        i = i + 1;
        assert(open == open_braces(s.take(i as int)));
    }
    assert(s.take(len as int) =~= s);
    proof {
        if plain {
            assert(!s.contains('\\') && !s.contains('['));
        }
    }
    braces <= 1000 || (plain && little)
}

/// Whether the patterns of all globs are shallow.
pub fn globs_are_shallow(globs: &Vec<GlobPattern>) -> (r: bool)
    ensures
        r == all_shallow(globs@),
{
    for i in 0..globs.len()
        invariant
            forall|j: int| 0 <= j < i ==> is_shallow((#[trigger] globs@[j]).pattern@),
    {
        if !shallow(globs[i].pattern.as_str()) {
            return false;
        }
    }
    true
}

/// Patterns without a backslash.
pub open spec fn all_portable(patterns: Seq<Seq<char>>) -> bool {
    forall|i: int| 0 <= i < patterns.len() ==> is_portable(#[trigger] patterns[i])
}

/// How large patterns are together: their characters, and one more for each pattern.
pub open spec fn size_of_all(patterns: Seq<Seq<char>>) -> nat
    decreases patterns.len(),
{
    if patterns.len() == 0 {
        0
    } else {
        size_of_all(patterns.drop_last()) + patterns.last().len() + 1
    }
}

/// Patterns that all systems build a set of alike: without a backslash, and of a size at which what
/// they compile to stays far below the limit on a compiled set, which is counted in bytes of memory
/// and so differs between systems.
pub open spec fn are_portable(patterns: Seq<Seq<char>>) -> bool {
    size_of_all(patterns) <= 10_000 && all_portable(patterns)
}

/// Calls `Glob::new`, which compiles a pattern, and takes what the error says where it fails. The
/// result depends on the pattern alone, except that systems differ over backslashes; a glob keeps
/// the pattern that it was made from. Alternates that are nested too deeply overflow the stack in
/// the call, so they are left out.
#[verifier::external_body]
fn new_glob(pattern: &str) -> (r: Result<Glob, String>)
    requires
        is_shallow(pattern@),
    ensures
        is_portable(pattern@) ==> match r {
            Ok(_) => glob_error(pattern@) is None,
            Err(cause) => glob_error(pattern@) == Some(cause@),
        },
        r matches Ok(glob) ==> glob_source(glob) == pattern@,
{
    Glob::new(pattern).map_err(|e| e.to_string())
}

/// `GlobSetBuilder::new` gives a builder without globs.
pub assume_specification[ GlobSetBuilder::new ]() -> (r: GlobSetBuilder)
    ensures
        builder_globs(r) == Seq::<Seq<char>>::empty(),
;

/// Calls `GlobSetBuilder::build`, which makes a set of the globs added so far, and takes what the
/// error says where it fails. Whether it succeeds depends on the globs alone, except that systems
/// differ over backslashes and over how large a set may become. Nothing is claimed of what the
/// error says: of several globs that fail, any may be the one that it speaks of.
#[verifier::external_body]
fn build_set(builder: &GlobSetBuilder) -> (r: Result<GlobSet, String>)
    ensures
        are_portable(builder_globs(*builder)) ==> (r is Err <==> globs_fail(
            builder_globs(*builder),
        )),
        r matches Ok(set) ==> set_globs(set) == builder_globs(*builder),
{
    builder.build().map_err(|e| e.to_string())
}

/// Calls `GlobSetBuilder::add`, which adds a glob behind the others.
#[verifier::external_body]
fn add_glob(builder: &mut GlobSetBuilder, glob: Glob)
    ensures
        builder_globs(*final(builder)) == builder_globs(*old(builder)).push(glob_source(glob)),
{
    builder.add(glob);
}

/// Calls `GlobSet::is_match_candidate` on the `Candidate::from_bytes` of a path. The result depends
/// on the globs of the set and on the bytes of the path alone, except that systems differ over
/// backslashes.
#[verifier::external_body]
fn is_match(set: &GlobSet, path: &Vec<u8>) -> (r: bool)
    ensures
        all_portable(set_globs(*set)) && is_portable_path(path@) ==> r == globs_match(
            set_globs(*set),
            path@,
        ),
{
    set.is_match_candidate(&Candidate::from_bytes(path))
}

// ---------------------------------------------------------------------------------------
// Resolution
// ---------------------------------------------------------------------------------------

/// A theme file that was named, under its absolute path.
#[derive(Debug)]
pub struct ExplicitTheme {
    pub path: ThemePath,
    pub exists: bool,
}

/// A glob that was given.
#[derive(Debug)]
pub struct GlobPattern {
    pub pattern: String,
    pub is_absolute: bool,
}

/// An entry of the repository's directory tree. `relative` holds the bytes of its path from the root
/// of the repository, where it lies below the root.
#[derive(Debug)]
pub struct WalkEntry {
    pub path: ThemePath,
    pub is_file: bool,
    pub relative: Option<Vec<u8>>,
}

/// The file at place `i` is the first that does not exist.
pub open spec fn first_missing(explicit: Seq<ExplicitTheme>, i: int) -> bool {
    &&& 0 <= i < explicit.len()
    &&& !explicit[i].exists
    &&& forall|j: int| 0 <= j < i ==> (#[trigger] explicit[j]).exists
}

/// All files exist.
pub open spec fn all_exist(explicit: Seq<ExplicitTheme>) -> bool {
    forall|j: int| 0 <= j < explicit.len() ==> (#[trigger] explicit[j]).exists
}

/// The paths of the entries that are files, lie below the root and are matched, in order.
pub open spec fn matched_paths(entries: Seq<WalkEntry>, matched: Seq<bool>) -> Seq<ThemePath>
    decreases entries.len(),
{
    if entries.len() == 0 {
        Seq::empty()
    } else {
        let before = matched_paths(entries.drop_last(), matched);
        let last = entries.last();
        if last.is_file && last.relative is Some && matched[entries.len() - 1] {
            before.push(last.path)
        } else {
            before
        }
    }
}

/// The paths that are chosen: the named files, and then the matched entries.
pub open spec fn chosen_paths(
    explicit: Seq<ExplicitTheme>,
    entries: Seq<WalkEntry>,
    matched: Seq<bool>,
) -> Seq<ThemePath> {
    explicit.map_values(|e: ExplicitTheme| e.path) + matched_paths(entries, matched)
}

/// `r` is what a selection comes to: the chosen paths, sorted, or an error where none is chosen.
pub open spec fn is_selection(r: Result<Vec<ThemePath>, ThemeError>, chosen: Seq<ThemePath>) -> bool {
    match r {
        Ok(files) => chosen.len() > 0 && is_sorted_choice(files@, chosen),
        Err(e) => chosen.len() == 0 && e is NothingMatched,
    }
}

/// Sorts the named files and the matched entries into one list.
pub fn select_theme_files(
    explicit: Vec<ExplicitTheme>,
    entries: Vec<WalkEntry>,
    matched: &Vec<bool>,
) -> (r: Result<Vec<ThemePath>, ThemeError>)
    requires
        matched@.len() == entries@.len(),
    ensures
        is_selection(r, chosen_paths(explicit@, entries@, matched@)),
{
    let ghost named = explicit@.map_values(|e: ExplicitTheme| e.path);
    let mut files: Vec<ThemePath> = Vec::new();
    for theme in it: explicit
        invariant
            it.seq() == explicit@,
            named == explicit@.map_values(|e: ExplicitTheme| e.path),
            is_sorted_choice(files@, named.take(it.index() as int)),
    {
        let ghost n = it.index() as int;
        let path = theme.path;
        assert(named.take(n + 1) =~= named.take(n).push(path));
        choose_path(&mut files, path, Ghost(named.take(n)));
    }
    assert(named.take(named.len() as int) =~= named);
    let total: usize = matched.len();
    let mut i: usize = 0;
    assert(named + matched_paths(entries@.take(0), matched@) =~= named);
    for entry in it: entries
        invariant
            it.seq() == entries@,
            total == matched@.len(),
            total == entries@.len(),
            i == it.index(),
            is_sorted_choice(
                files@,
                named + matched_paths(entries@.take(it.index() as int), matched@),
            ),
    {
        let ghost n = it.index() as int;
        let ghost chosen = named + matched_paths(entries@.take(n), matched@);
        assert(entries@.take(n + 1).drop_last() =~= entries@.take(n));
        assert(entries@.take(n + 1).last() == entry);
        if entry.is_file && entry.relative.is_some() && matched[i] {
            let path = entry.path;
            assert(named + matched_paths(entries@.take(n + 1), matched@) =~= chosen.push(path));
            choose_path(&mut files, path, Ghost(chosen));
        }
        i = i + 1;
    }
    assert(entries@.take(entries@.len() as int) =~= entries@);
    proof {
        let chosen = chosen_paths(explicit@, entries@, matched@);
        if chosen.len() > 0 {
            assert(has_path(files@, path_key(chosen[0])));
            reveal(has_path);
        }
        if files@.len() > 0 {
            assert(is_first_choice(chosen, files@[0]));
            reveal(is_first_choice);
        }
    }
    if files.len() == 0 {
        Err(ThemeError::NothingMatched)
    } else {
        Ok(files)
    }
}

/// What the glob calls answer: what is wrong with each pattern and with all of them together,
/// where something is, and which entries they match.
pub ghost struct GlobAnswers {
    pub errors: Seq<Option<Seq<char>>>,
    pub set_error: Option<Seq<char>>,
    pub matched: Seq<bool>,
}

/// The patterns of globs.
pub open spec fn patterns(globs: Seq<GlobPattern>) -> Seq<Seq<char>> {
    globs.map_values(|g: GlobPattern| g.pattern@)
}

/// The answers are those of the glob calls, where these do not depend on the system. Without a
/// glob nothing is matched.
pub open spec fn are_answers(
    a: GlobAnswers,
    globs: Seq<GlobPattern>,
    entries: Seq<WalkEntry>,
) -> bool {
    let ps = patterns(globs);
    &&& a.errors.len() == globs.len()
    &&& a.matched.len() == entries.len()
    &&& forall|i: int|
        0 <= i < globs.len() && is_portable((#[trigger] globs[i]).pattern@) ==> a.errors[i]
            == glob_error(globs[i].pattern@)
    &&& are_portable(ps) ==> (a.set_error is Some <==> globs_fail(ps))
    &&& forall|i: int|
        0 <= i < entries.len() && globs.len() > 0 && all_portable(ps) && ((
        #[trigger] entries[i]).relative matches Some(rel) && is_portable_path(rel@)) ==> a.matched[i]
            == globs_match(ps, entries[i].relative->Some_0@)
    &&& globs.len() == 0 ==> forall|i: int| 0 <= i < entries.len() ==> !(#[trigger] a.matched[i])
}

/// An error of all globs together where there is one, with a text of no account.
spec fn any_error(patterns: Seq<Seq<char>>) -> Option<Seq<char>> {
    if globs_fail(patterns) {
        Some(Seq::empty())
    } else {
        None
    }
}

/// The glob at place `i` is the first that cannot be used.
pub open spec fn first_bad_glob(
    globs: Seq<GlobPattern>,
    errors: Seq<Option<Seq<char>>>,
    i: int,
) -> bool {
    &&& 0 <= i < globs.len()
    &&& globs[i].is_absolute || errors[i] is Some
    &&& forall|j: int| 0 <= j < i ==> !(#[trigger] globs[j]).is_absolute && errors[j] is None
}

/// All globs can be used.
pub open spec fn globs_are_good(
    globs: Seq<GlobPattern>,
    errors: Seq<Option<Seq<char>>>,
) -> bool {
    forall|j: int| 0 <= j < globs.len() ==> !(#[trigger] globs[j]).is_absolute && errors[j] is None
}

/// The error that a glob that cannot be used is reported by.
pub open spec fn is_glob_error(
    e: ThemeError,
    glob: GlobPattern,
    error: Option<Seq<char>>,
) -> bool {
    if glob.is_absolute {
        e matches ThemeError::AbsoluteGlob(p) && p@ == glob.pattern@
    } else {
        e matches ThemeError::InvalidGlob(p, cause) && p@ == glob.pattern@ && error == Some(
            cause@,
        )
    }
}

/// `r` is what a resolution comes to, given the answers of the glob calls.
pub open spec fn is_resolution(
    r: Result<Vec<ThemePath>, ThemeError>,
    explicit: Seq<ExplicitTheme>,
    globs: Seq<GlobPattern>,
    entries: Seq<WalkEntry>,
    a: GlobAnswers,
) -> bool {
    if explicit.len() == 0 && globs.len() == 0 {
        r matches Err(e) && e is NothingGiven
    } else if !all_exist(explicit) {
        exists|i: int| #[trigger]
            first_missing(explicit, i) && (r matches Err(ThemeError::FileMissing(p)) && p@
                == explicit[i].path.text@)
    } else if !globs_are_good(globs, a.errors) {
        exists|i: int| #[trigger]
            first_bad_glob(globs, a.errors, i) && (r matches Err(e) && is_glob_error(
                e,
                globs[i],
                a.errors[i],
            ))
    } else if globs.len() > 0 && a.set_error is Some {
        r matches Err(ThemeError::UnusableGlobs(cause)) && a.set_error == Some(cause@)
    } else {
        is_selection(r, chosen_paths(explicit, entries, a.matched))
    }
}

/// Compiles the globs. The ghost result holds what the calls answered of each pattern and of
/// all of them.
fn compile_globs(globs: &Vec<GlobPattern>) -> (r: (
    Result<GlobSet, ThemeError>,
    Ghost<Seq<Option<Seq<char>>>>,
    Ghost<Option<Seq<char>>>,
))
    requires
        all_shallow(globs@),
    ensures
        r.1@.len() == globs@.len(),
        forall|i: int|
            0 <= i < globs@.len() && is_portable((#[trigger] globs@[i]).pattern@) ==> r.1@[i]
                == glob_error(globs@[i].pattern@),
        are_portable(patterns(globs@)) ==> (r.2@ is Some <==> globs_fail(patterns(globs@))),
        match r.0 {
            Ok(set) => globs_are_good(globs@, r.1@) && r.2@ is None && set_globs(set) == patterns(
                globs@,
            ),
            Err(e) => if globs_are_good(globs@, r.1@) {
                e matches ThemeError::UnusableGlobs(cause) && r.2@ == Some(cause@)
            } else {
                exists|i: int| #[trigger]
                    first_bad_glob(globs@, r.1@, i) && is_glob_error(e, globs@[i], r.1@[i])
            },
        },
{
    let mut builder = GlobSetBuilder::new();
    let ghost ps = patterns(globs@);
    let mut i: usize = 0;
    assert(ps.take(0) =~= Seq::empty());
    while i < globs.len()
        invariant
            i <= globs@.len(),
            all_shallow(globs@),
            ps == patterns(globs@),
            builder_globs(builder) == ps.take(i as int),
            forall|j: int|
                0 <= j < i ==> !(#[trigger] globs@[j]).is_absolute && (is_portable(
                    globs@[j].pattern@,
                ) ==> glob_error(globs@[j].pattern@) is None),
        decreases globs@.len() - i,
    {
        let ghost rest = Seq::new(
            globs@.len(),
            |j: int|
                if j < i {
                    None
                } else {
                    glob_error(globs@[j].pattern@)
                },
        );
        let ghost set_error = any_error(ps);
        if globs[i].is_absolute {
            assert(first_bad_glob(globs@, rest, i as int));
            assert(!globs_are_good(globs@, rest)) by {
                assert(globs@[i as int].is_absolute);
            }
            return (
                Err(ThemeError::AbsoluteGlob(globs[i].pattern.clone())),
                Ghost(rest),
                Ghost(set_error),
            );
        }
        match new_glob(globs[i].pattern.as_str()) {
            Ok(glob) => {
                add_glob(&mut builder, glob);
                assert(ps[i as int] == globs@[i as int].pattern@);
                assert(ps.take(i + 1) =~= ps.take(i as int).push(ps[i as int]));
            },
            Err(cause) => {
                let ghost bad = rest.update(i as int, Some(cause@));
                assert(first_bad_glob(globs@, bad, i as int));
                assert(!globs_are_good(globs@, bad)) by {
                    assert(bad[i as int] is Some);
                    assert(!globs@[i as int].is_absolute);
                }
                return (
                    Err(ThemeError::InvalidGlob(globs[i].pattern.clone(), cause)),
                    Ghost(bad),
                    Ghost(set_error),
                );
            },
        }
        i = i + 1;
    }
    let ghost all = Seq::new(globs@.len(), |j: int| None::<Seq<char>>);
    assert(ps.take(ps.len() as int) =~= ps);
    assert(globs_are_good(globs@, all));
    match build_set(&builder) {
        Ok(set) => (Ok(set), Ghost(all), Ghost(None)),
        Err(cause) => {
            let ghost text = cause@;
            (Err(ThemeError::UnusableGlobs(cause)), Ghost(all), Ghost(Some(text)))
        },
    }
}

/// Finds the theme files to check: the files that were named and the files in the repository
/// that a glob matches, each once and in order.
pub fn resolve_theme_files(
    explicit: Vec<ExplicitTheme>,
    globs: &Vec<GlobPattern>,
    entries: Vec<WalkEntry>,
) -> (r: Result<Vec<ThemePath>, ThemeError>)
    requires
        all_shallow(globs@),
    ensures
        exists|a: GlobAnswers| #[trigger]
            are_answers(a, globs@, entries@) && is_resolution(
                r,
                explicit@,
                globs@,
                entries@,
                a,
            ),
{
    let ghost ps = patterns(globs@);
    let ghost named = GlobAnswers {
        errors: Seq::new(globs@.len(), |i: int| glob_error(globs@[i].pattern@)),
        set_error: any_error(ps),
        matched: Seq::new(
            entries@.len(),
            |i: int| globs@.len() > 0 && globs_match(ps, entries@[i].relative->Some_0@),
        ),
    };
    assert(are_answers(named, globs@, entries@));
    if explicit.len() == 0 && globs.len() == 0 {
        let r: Result<Vec<ThemePath>, ThemeError> = Err(ThemeError::NothingGiven);
        assert(is_resolution(r, explicit@, globs@, entries@, named));
        return r;
    }
    let mut i: usize = 0;
    while i < explicit.len()
        invariant
            i <= explicit@.len(),
            forall|j: int| 0 <= j < i ==> (#[trigger] explicit@[j]).exists,
            are_answers(named, globs@, entries@),
            explicit@.len() > 0 || globs@.len() > 0,
        decreases explicit@.len() - i,
    {
        if !explicit[i].exists {
            let r: Result<Vec<ThemePath>, ThemeError> = Err(
                ThemeError::FileMissing(explicit[i].path.text.clone()),
            );
            assert(first_missing(explicit@, i as int));
            assert(!all_exist(explicit@)) by {
                assert(!explicit@[i as int].exists);
            }
            assert(is_resolution(r, explicit@, globs@, entries@, named));
            return r;
        }
        i = i + 1;
    }
    assert(all_exist(explicit@));
    let mut matched: Vec<bool> = Vec::new();
    if globs.len() == 0 {
        let mut k: usize = 0;
        while k < entries.len()
            invariant
                k <= entries@.len(),
                matched@.len() == k,
                forall|j: int| 0 <= j < k ==> !(#[trigger] matched@[j]),
            decreases entries@.len() - k,
        {
            matched.push(false);
            k = k + 1;
        }
        let ghost a = GlobAnswers { matched: matched@, ..named };
        assert(are_answers(a, globs@, entries@));
        assert(globs_are_good(globs@, a.errors));
        let ghost es = explicit@;
        let ghost ws = entries@;
        let r = select_theme_files(explicit, entries, &matched);
        assert(is_resolution(r, es, globs@, ws, a));
        return r;
    }
    let (compiled, Ghost(errors), Ghost(set_error)) = compile_globs(globs);
    let set = match compiled {
        Ok(set) => set,
        Err(e) => {
            let ghost a = GlobAnswers { errors, set_error, ..named };
            assert(are_answers(a, globs@, entries@));
            let r: Result<Vec<ThemePath>, ThemeError> = Err(e);
            assert(is_resolution(r, explicit@, globs@, entries@, a));
            return r;
        },
    };
    let mut k: usize = 0;
    while k < entries.len()
        invariant
            k <= entries@.len(),
            matched@.len() == k,
            ps == patterns(globs@),
            set_globs(set) == ps,
            forall|j: int|
                0 <= j < k && all_portable(ps) && ((#[trigger] entries@[j]).relative matches Some(
                    rel,
                ) && is_portable_path(rel@)) ==> matched@[j] == globs_match(
                    ps,
                    entries@[j].relative->Some_0@,
                ),
        decreases entries@.len() - k,
    {
        let hit = match &entries[k].relative {
            Some(relative) => is_match(&set, relative),
            None => false,
        };
        matched.push(hit);
        k = k + 1;
    }
    let ghost a = GlobAnswers { errors, set_error, matched: matched@ };
    assert(are_answers(a, globs@, entries@));
    let ghost es = explicit@;
    let ghost ws = entries@;
    let r = select_theme_files(explicit, entries, &matched);
    assert(is_resolution(r, es, globs@, ws, a));
    r
}

} // verus!
