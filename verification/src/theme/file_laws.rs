//! Which theme files a check looks at, path by path and component by component.
use crate::text::{text_lt, text_order_is_strict_and_total};
use crate::theme::analyze::{shown_text, ThemeFile};
use crate::theme::errors::ThemeError;
use crate::theme::files::{
    all_exist, are_answers, chosen_paths, first_bad_glob, first_missing, first_of_its_kind,
    glob_error, globs_are_good, globs_match, has_path, is_first_choice, is_glob_error, is_portable,
    is_resolution, is_selection, is_shallow, is_sorted_choice, leads, left_out, matched_paths,
    opening_braces, part_key, part_lt, path_key, path_lt, path_order_is_strict_and_total, patterns,
    prefix_rank, ExplicitTheme, GlobAnswers, GlobPattern, PartKey, PathPart, PrefixKind, ThemePath,
    WalkEntry,
};
use crate::theme::key_laws::count_of;
use crate::theme::keys::open_braces;
use vstd::prelude::*;

verus! {

// ---------------------------------------------------------------------------------------
// Components
// ---------------------------------------------------------------------------------------

/// Two components are the same: of one kind, with the same names.
pub open spec fn same_part(a: PathPart, b: PathPart) -> bool {
    match (a, b) {
        (
            PathPart::Prefix { kind: k, name: n, share: s },
            PathPart::Prefix { kind: l, name: m, share: t },
        ) => k == l && n@ == m@ && s@ == t@,
        (PathPart::RootDir, PathPart::RootDir) => true,
        (PathPart::CurDir, PathPart::CurDir) => true,
        (PathPart::ParentDir, PathPart::ParentDir) => true,
        (PathPart::Normal(n), PathPart::Normal(m)) => n@ == m@,
        _ => false,
    }
}

/// Prefixes come first, then the root, then this directory, then the one above, and names last.
pub open spec fn class_of(p: PathPart) -> int {
    match p {
        PathPart::Prefix { .. } => 0,
        PathPart::RootDir => 1,
        PathPart::CurDir => 2,
        PathPart::ParentDir => 3,
        PathPart::Normal(_) => 4,
    }
}

/// Two components are known as the same exactly where they are. Components of different classes
/// are ordered by their classes, and names by their texts.
pub proof fn components_are_known_by_kind_and_name(a: PathPart, b: PathPart)
    ensures
        part_key(a) == part_key(b) <==> same_part(a, b),
        class_of(a) < class_of(b) ==> part_lt(part_key(a), part_key(b)),
        a matches PathPart::Normal(n) ==> (b matches PathPart::Normal(m) ==> (part_lt(
            part_key(a),
            part_key(b),
        ) <==> text_lt(n@, m@))),
{
    text_order_is_strict_and_total();
    assert(!text_lt(Seq::<char>::empty(), Seq::<char>::empty()));
}

/// Prefixes are ordered by their kinds: verbatim ones before devices, devices before shares, and
/// shares before disks; those of one kind by their names, and then by their shares.
pub proof fn prefixes_are_ordered_by_kind(
    k: PrefixKind,
    l: PrefixKind,
    a: PathPart,
    b: PathPart,
)
    requires
        a matches PathPart::Prefix { kind, .. } && kind == k,
        b matches PathPart::Prefix { kind, .. } && kind == l,
    ensures
        prefix_rank(PrefixKind::Verbatim) < prefix_rank(PrefixKind::VerbatimShare) < prefix_rank(
            PrefixKind::VerbatimDisk,
        ) < prefix_rank(PrefixKind::Device) < prefix_rank(PrefixKind::Share) < prefix_rank(
            PrefixKind::Disk,
        ),
        k != l ==> (part_lt(part_key(a), part_key(b)) <==> prefix_rank(k) < prefix_rank(l)),
        k == l ==> (part_lt(part_key(a), part_key(b)) <==> text_lt(a->name@, b->name@) || (a->name@
            == b->name@ && text_lt(a->share@, b->share@))),
{
}

/// Two paths have the same components.
pub open spec fn same_path(a: ThemePath, b: ThemePath) -> bool {
    &&& a.parts@.len() == b.parts@.len()
    &&& forall|i: int| 0 <= i < a.parts@.len() ==> same_part(#[trigger] a.parts@[i], b.parts@[i])
}

proof fn lemma_same_path(a: ThemePath, b: ThemePath)
    ensures
        path_key(a) == path_key(b) <==> same_path(a, b),
{
    let x = path_key(a);
    let y = path_key(b);
    if x == y {
        assert(x.len() == y.len());
        assert forall|i: int| 0 <= i < a.parts@.len() implies same_part(
            #[trigger] a.parts@[i],
            b.parts@[i],
        ) by {
            assert(x[i] == y[i]);
            components_are_known_by_kind_and_name(a.parts@[i], b.parts@[i]);
        }
    }
    if same_path(a, b) {
        assert forall|i: int| 0 <= i < x.len() implies x[i] == y[i] by {
            assert(same_part(a.parts@[i], b.parts@[i]));
            components_are_known_by_kind_and_name(a.parts@[i], b.parts@[i]);
        }
        assert(x =~= y);
    }
}

/// The paths have the same components before place `n`, and there the first of them ends before
/// the second or has the component that comes before the other's.
pub open spec fn comes_before_at(a: ThemePath, b: ThemePath, n: int) -> bool {
    &&& 0 <= n <= a.parts@.len()
    &&& n < b.parts@.len()
    &&& forall|i: int| 0 <= i < n ==> same_part(#[trigger] a.parts@[i], b.parts@[i])
    &&& n < a.parts@.len() ==> part_lt(part_key(a.parts@[n]), part_key(b.parts@[n]))
}

proof fn lemma_before(x: Seq<PartKey>, y: Seq<PartKey>) -> (n: int)
    requires
        path_lt(x, y),
    ensures
        0 <= n <= x.len(),
        n < y.len(),
        forall|i: int| 0 <= i < n ==> x[i] == y[i],
        n < x.len() ==> part_lt(x[n], y[n]),
    decreases x.len(),
{
    if x.len() == 0 || part_lt(x[0], y[0]) {
        0
    } else {
        let c = x.drop_first();
        let d = y.drop_first();
        let n = lemma_before(c, d);
        assert forall|i: int| 0 <= i < n + 1 implies x[i] == y[i] by {
            if i > 0 {
                assert(c[i - 1] == d[i - 1]);
            }
        }
        n + 1
    }
}

proof fn lemma_after_common(x: Seq<PartKey>, y: Seq<PartKey>, n: int)
    requires
        0 <= n <= x.len(),
        n < y.len(),
        forall|i: int| 0 <= i < n ==> x[i] == y[i],
        n < x.len() ==> part_lt(x[n], y[n]),
    ensures
        path_lt(x, y),
    decreases n,
{
    if n > 0 {
        assert(x[0] == y[0]);
        let c = x.drop_first();
        let d = y.drop_first();
        assert forall|i: int| 0 <= i < n - 1 implies c[i] == d[i] by {
            assert(x[i + 1] == y[i + 1]);
        }
        lemma_after_common(c, d, n - 1);
    }
}

/// One path comes before another exactly where, at the first place where their components differ,
/// it has ended already or has the component that comes first.
pub proof fn paths_are_ordered_by_the_first_difference(a: ThemePath, b: ThemePath)
    ensures
        path_lt(path_key(a), path_key(b)) <==> exists|n: int| comes_before_at(a, b, n),
{
    let x = path_key(a);
    let y = path_key(b);
    if path_lt(x, y) {
        let n = lemma_before(x, y);
        assert forall|i: int| 0 <= i < n implies same_part(
            #[trigger] a.parts@[i],
            b.parts@[i],
        ) by {
            assert(x[i] == y[i]);
            components_are_known_by_kind_and_name(a.parts@[i], b.parts@[i]);
        }
        if n < x.len() {
            assert(x[n] == part_key(a.parts@[n]));
        }
        assert(y[n] == part_key(b.parts@[n]));
        assert(comes_before_at(a, b, n));
    }
    if exists|n: int| comes_before_at(a, b, n) {
        let n = choose|n: int| comes_before_at(a, b, n);
        assert forall|i: int| 0 <= i < n implies x[i] == y[i] by {
            assert(same_part(a.parts@[i], b.parts@[i]));
            components_are_known_by_kind_and_name(a.parts@[i], b.parts@[i]);
        }
        lemma_after_common(x, y, n);
    }
}

// ---------------------------------------------------------------------------------------
// Shown paths
// ---------------------------------------------------------------------------------------

/// The path lies below the root: its first components are those of the root.
pub open spec fn lies_below(root: ThemePath, path: ThemePath) -> bool {
    &&& root.parts@.len() <= path.parts@.len()
    &&& forall|i: int|
        0 <= i < root.parts@.len() ==> same_part(#[trigger] root.parts@[i], path.parts@[i])
}

/// A file that lies below the root is shown as it is written from behind the components of the
/// root on, and the root itself as nothing; any other is shown as it is written as a whole.
pub proof fn files_are_shown_from_the_root_on(root: ThemePath, file: ThemeFile)
    ensures
        leads(root, file.path) <==> lies_below(root, file.path),
        left_out(root, file.path) == if lies_below(root, file.path) {
            root.parts@.len() as int
        } else {
            0
        },
        lies_below(root, file.path) && root.parts@.len() < file.rests@.len() ==> shown_text(
            root,
            file,
        ) == file.rests@[root.parts@.len() as int]@,
        lies_below(root, file.path) && root.parts@.len() >= file.rests@.len() ==> shown_text(
            root,
            file,
        ).len() == 0,
        !lies_below(root, file.path) ==> shown_text(root, file) == file.path.text@,
{
    let x = path_key(root);
    let y = path_key(file.path);
    if leads(root, file.path) {
        assert forall|i: int| 0 <= i < root.parts@.len() implies same_part(
            #[trigger] root.parts@[i],
            file.path.parts@[i],
        ) by {
            assert(x[i] == y.take(x.len() as int)[i]);
            components_are_known_by_kind_and_name(root.parts@[i], file.path.parts@[i]);
        }
    }
    if lies_below(root, file.path) {
        assert forall|i: int| 0 <= i < x.len() implies x[i] == y[i] by {
            assert(same_part(root.parts@[i], file.path.parts@[i]));
            components_are_known_by_kind_and_name(root.parts@[i], file.path.parts@[i]);
        }
        assert(x =~= y.take(x.len() as int));
    }
}

// ---------------------------------------------------------------------------------------
// Selection
// ---------------------------------------------------------------------------------------

/// Entry `i` is a file below the root that the globs match.
pub open spec fn is_matched(entries: Seq<WalkEntry>, matched: Seq<bool>, i: int) -> bool {
    &&& 0 <= i < entries.len()
    &&& entries[i].is_file
    &&& entries[i].relative is Some
    &&& matched[i]
}

/// The path is that of named file `i`, and no file named before has the same components.
pub open spec fn is_named_first(explicit: Seq<ExplicitTheme>, p: ThemePath, i: int) -> bool {
    &&& 0 <= i < explicit.len()
    &&& explicit[i].path == p
    &&& forall|j: int| 0 <= j < i ==> !same_path((#[trigger] explicit[j]).path, p)
}

/// The path is that of matched entry `i`, and neither a named file nor an earlier matched entry has
/// the same components.
pub open spec fn is_matched_first(
    explicit: Seq<ExplicitTheme>,
    entries: Seq<WalkEntry>,
    matched: Seq<bool>,
    p: ThemePath,
    i: int,
) -> bool {
    &&& is_matched(entries, matched, i)
    &&& entries[i].path == p
    &&& forall|j: int| 0 <= j < explicit.len() ==> !same_path((#[trigger] explicit[j]).path, p)
    &&& forall|j: int| #[trigger]
        is_matched(entries, matched, j) && j < i ==> !same_path(entries[j].path, p)
}

proof fn lemma_matched_is_listed(entries: Seq<WalkEntry>, matched: Seq<bool>, i: int) -> (m: int)
    requires
        is_matched(entries, matched, i),
    ensures
        0 <= m < matched_paths(entries, matched).len(),
        matched_paths(entries, matched)[m] == entries[i].path,
    decreases entries.len(),
{
    let rest = entries.drop_last();
    let all = matched_paths(entries, matched);
    if i < rest.len() {
        assert(rest[i] == entries[i]);
        assert(is_matched(rest, matched, i));
        let m = lemma_matched_is_listed(rest, matched, i);
        assert(all[m] == matched_paths(rest, matched)[m]);
        m
    } else {
        all.len() - 1
    }
}

proof fn lemma_listed_is_matched(entries: Seq<WalkEntry>, matched: Seq<bool>, m: int) -> (i: int)
    requires
        0 <= m < matched_paths(entries, matched).len(),
    ensures
        is_matched(entries, matched, i),
        matched_paths(entries, matched)[m] == entries[i].path,
        forall|j: int| #[trigger]
            is_matched(entries, matched, j) && j < i ==> exists|l: int|
                0 <= l < m && #[trigger] matched_paths(entries, matched)[l] == entries[j].path,
    decreases entries.len(),
{
    let rest = entries.drop_last();
    let before = matched_paths(rest, matched);
    let all = matched_paths(entries, matched);
    let i = if m < before.len() {
        let i = lemma_listed_is_matched(rest, matched, m);
        assert(rest[i] == entries[i]);
        i
    } else {
        entries.len() - 1
    };
    assert(is_matched(entries, matched, i));
    assert forall|j: int| #[trigger] is_matched(entries, matched, j) && j < i implies exists|l: int|
        0 <= l < m && #[trigger] all[l] == entries[j].path by {
        assert(rest[j] == entries[j]);
        assert(is_matched(rest, matched, j));
        if m < before.len() {
            let l = choose|l: int|
                0 <= l < m && #[trigger] matched_paths(rest, matched)[l] == rest[j].path;
            assert(all[l] == entries[j].path);
        } else {
            let l = lemma_matched_is_listed(rest, matched, j);
            assert(all[l] == entries[j].path);
        }
    }
    i
}

/// Every file that is selected was named, or is a matched entry; of several with the same
/// components it is the one that comes first, the named files before the entries. The files are
/// in ascending order, each once.
pub proof fn selected_files_were_named_or_matched(
    r: Result<Vec<ThemePath>, ThemeError>,
    explicit: Seq<ExplicitTheme>,
    entries: Seq<WalkEntry>,
    matched: Seq<bool>,
    m: int,
    n: int,
)
    requires
        is_selection(r, chosen_paths(explicit, entries, matched)),
        r matches Ok(files) && 0 <= m < n && m < files@.len(),
    ensures
        ({
            let files = r->Ok_0@;
            &&& (exists|i: int| is_named_first(explicit, files[m], i)) || (exists|i: int|
                is_matched_first(explicit, entries, matched, files[m], i))
            &&& n < files.len() ==> path_lt(path_key(files[m]), path_key(files[n])) && !same_path(
                files[m],
                files[n],
            )
        }),
{
    let files = r->Ok_0@;
    let chosen = chosen_paths(explicit, entries, matched);
    let p = files[m];
    let count = explicit.len() as int;
    let listed = matched_paths(entries, matched);
    assert(is_first_choice(chosen, p));
    reveal(is_first_choice);
    let k = choose|k: int| #[trigger] first_of_its_kind(chosen, k) && chosen[k] == p;
    assert forall|j: int| 0 <= j < k implies !same_path(#[trigger] chosen[j], p) by {
        lemma_same_path(chosen[j], p);
    }
    if k < count {
        assert forall|j: int| 0 <= j < k implies !same_path(
            (#[trigger] explicit[j]).path,
            p,
        ) by {
            assert(chosen[j] == explicit[j].path);
        }
        assert(is_named_first(explicit, p, k));
    } else {
        let i = lemma_listed_is_matched(entries, matched, k - count);
        assert(chosen[k] == listed[k - count]);
        assert forall|j: int| 0 <= j < explicit.len() implies !same_path(
            (#[trigger] explicit[j]).path,
            p,
        ) by {
            assert(chosen[j] == explicit[j].path);
        }
        assert forall|j: int| #[trigger] is_matched(entries, matched, j) && j < i implies !same_path(
            entries[j].path,
            p,
        ) by {
            let l = choose|l: int| 0 <= l < k - count && #[trigger] listed[l] == entries[j].path;
            assert(chosen[count + l] == listed[l]);
        }
        assert(is_matched_first(explicit, entries, matched, p, i));
    }
    if n < files.len() {
        path_order_is_strict_and_total();
        lemma_same_path(files[m], files[n]);
    }
}

/// A file with the components of the path is in the list.
pub open spec fn is_among(files: Seq<ThemePath>, p: ThemePath) -> bool {
    exists|m: int| 0 <= m < files.len() && same_path(#[trigger] files[m], p)
}

/// Every named file is selected, and so is every entry that is a file below the root and is
/// matched. Where there is neither, nothing is, and that is an error.
pub proof fn named_and_matched_files_are_selected(
    r: Result<Vec<ThemePath>, ThemeError>,
    explicit: Seq<ExplicitTheme>,
    entries: Seq<WalkEntry>,
    matched: Seq<bool>,
)
    requires
        is_selection(r, chosen_paths(explicit, entries, matched)),
    ensures
        r matches Ok(files) ==> forall|i: int|
            0 <= i < explicit.len() ==> is_among(files@, (#[trigger] explicit[i]).path),
        r matches Ok(files) ==> forall|i: int| #[trigger]
            is_matched(entries, matched, i) ==> is_among(files@, entries[i].path),
        r matches Err(e) ==> e is NothingMatched,
        r is Err <==> explicit.len() == 0 && forall|i: int| !#[trigger]
            is_matched(entries, matched, i),
{
    let chosen = chosen_paths(explicit, entries, matched);
    let count = explicit.len() as int;
    let listed = matched_paths(entries, matched);
    if r is Ok {
        let files = r->Ok_0@;
        assert forall|i: int| 0 <= i < explicit.len() implies is_among(
            files,
            (#[trigger] explicit[i]).path,
        ) by {
            assert(chosen[i] == explicit[i].path);
            lemma_is_among(files, chosen, i);
        }
        assert forall|i: int| #[trigger] is_matched(entries, matched, i) implies is_among(
            files,
            entries[i].path,
        ) by {
            let m = lemma_matched_is_listed(entries, matched, i);
            assert(chosen[count + m] == listed[m]);
            lemma_is_among(files, chosen, count + m);
        }
        if explicit.len() == 0 {
            assert(chosen[0] == listed[0]);
            let i = lemma_listed_is_matched(entries, matched, 0);
            assert(is_matched(entries, matched, i));
        }
    } else {
        assert forall|i: int| !#[trigger] is_matched(entries, matched, i) by {
            if is_matched(entries, matched, i) {
                let m = lemma_matched_is_listed(entries, matched, i);
            }
        }
    }
}

proof fn lemma_is_among(files: Seq<ThemePath>, chosen: Seq<ThemePath>, k: int)
    requires
        is_sorted_choice(files, chosen),
        0 <= k < chosen.len(),
    ensures
        is_among(files, chosen[k]),
{
    assert(has_path(files, path_key(chosen[k])));
    reveal(has_path);
    let m = choose|m: int|
        0 <= m < files.len() && path_key(#[trigger] files[m]) == path_key(chosen[k]);
    lemma_same_path(files[m], chosen[k]);
    assert(same_path(files[m], chosen[k]));
}

// ---------------------------------------------------------------------------------------
// Resolution
// ---------------------------------------------------------------------------------------

/// A glob cannot be used: it is absolute, or its pattern has an error.
pub open spec fn is_bad(globs: Seq<GlobPattern>, a: GlobAnswers, i: int) -> bool {
    0 <= i < globs.len() && (globs[i].is_absolute || a.errors[i] is Some)
}

/// A resolution fails where nothing is given; then at the first named file that does not exist;
/// then at the first glob that cannot be used, whether it is absolute or has an error; then where
/// the globs cannot be used together. It says which, and of nothing that comes later. Where none
/// of this holds, the named and matched files are selected.
pub proof fn resolutions_fail_at_the_first_problem(
    r: Result<Vec<ThemePath>, ThemeError>,
    explicit: Seq<ExplicitTheme>,
    globs: Seq<GlobPattern>,
    entries: Seq<WalkEntry>,
    a: GlobAnswers,
    i: int,
)
    requires
        is_resolution(r, explicit, globs, entries, a),
    ensures
        explicit.len() == 0 && globs.len() == 0 ==> (r matches Err(e) && e is NothingGiven),
        0 <= i < explicit.len() && !explicit[i].exists && (forall|j: int|
            0 <= j < i ==> (#[trigger] explicit[j]).exists) ==> (r matches Err(
            ThemeError::FileMissing(p),
        ) && p@ == explicit[i].path.text@),
        (explicit.len() > 0 || globs.len() > 0) && (forall|j: int|
            0 <= j < explicit.len() ==> (#[trigger] explicit[j]).exists) ==> {
            &&& is_bad(globs, a, i) && (forall|j: int| 0 <= j < i ==> !#[trigger] is_bad(globs, a, j))
                ==> (r matches Err(e) && if globs[i].is_absolute {
                e matches ThemeError::AbsoluteGlob(p) && p@ == globs[i].pattern@
            } else {
                e matches ThemeError::InvalidGlob(p, cause) && p@ == globs[i].pattern@
                    && a.errors[i] == Some(cause@)
            })
            &&& (forall|j: int| !#[trigger] is_bad(globs, a, j)) ==> if globs.len() > 0
                && a.set_error is Some {
                r matches Err(ThemeError::UnusableGlobs(cause)) && a.set_error == Some(cause@)
            } else {
                is_selection(r, chosen_paths(explicit, entries, a.matched))
            }
        },
{
    if 0 <= i < explicit.len() && !explicit[i].exists && (forall|j: int|
        0 <= j < i ==> (#[trigger] explicit[j]).exists) {
        assert(!all_exist(explicit));
        let k = choose|k: int| #[trigger]
            first_missing(explicit, k) && (r matches Err(ThemeError::FileMissing(p)) && p@
                == explicit[k].path.text@);
        assert(k == i) by {
            if k < i {
                assert(explicit[k].exists);
            }
            if i < k {
                assert(explicit[i].exists);
            }
        }
    }
    if (explicit.len() > 0 || globs.len() > 0) && all_exist(explicit) {
        if is_bad(globs, a, i) && (forall|j: int| 0 <= j < i ==> !#[trigger] is_bad(globs, a, j)) {
            assert(!globs_are_good(globs, a.errors)) by {
                if globs_are_good(globs, a.errors) {
                    assert(!globs[i].is_absolute && a.errors[i] is None);
                }
            }
            let k = choose|k: int| #[trigger]
                first_bad_glob(globs, a.errors, k) && (r matches Err(e) && is_glob_error(
                    e,
                    globs[k],
                    a.errors[k],
                ));
            assert(is_bad(globs, a, k));
            assert(k == i) by {
                if i < k {
                    assert(!globs[i].is_absolute && a.errors[i] is None);
                }
            }
        }
        if forall|j: int| !#[trigger] is_bad(globs, a, j) {
            assert forall|j: int| 0 <= j < globs.len() implies !(#[trigger] globs[j]).is_absolute
                && a.errors[j] is None by {
                assert(!is_bad(globs, a, j));
            }
        }
    }
}

/// The braces that open in a pattern are counted one by one.
pub proof fn opening_braces_are_counted(s: Seq<char>)
    ensures
        opening_braces(s) == count_of(s, '{'),
    decreases s.len(),
{
    if s.len() > 0 {
        opening_braces_are_counted(s.drop_last());
    }
}

/// A pattern is shallow exactly where it has no more than a thousand opening braces, or where it has
/// neither backslashes nor brackets and no more than a thousand braces are open at any place.
pub proof fn shallow_patterns_have_few_open_braces(pattern: Seq<char>)
    ensures
        is_shallow(pattern) <==> count_of(pattern, '{') <= 1000 || (!pattern.contains('\\')
            && !pattern.contains('[') && forall|n: int|
            0 <= n <= pattern.len() ==> open_braces(#[trigger] pattern.take(n)) <= 1000),
{
    opening_braces_are_counted(pattern);
}

/// The answers to a resolution are those of the glob calls: of each pattern by itself, of all of
/// them together, and of each entry below the root; as far as no backslash makes systems differ.
/// Without a glob no entry is matched.
pub proof fn answers_are_those_of_the_calls(
    a: GlobAnswers,
    globs: Seq<GlobPattern>,
    entries: Seq<WalkEntry>,
    i: int,
)
    requires
        are_answers(a, globs, entries),
    ensures
        a.errors.len() == globs.len(),
        a.matched.len() == entries.len(),
        patterns(globs).len() == globs.len(),
        0 <= i < globs.len() ==> patterns(globs)[i] == globs[i].pattern@,
        0 <= i < globs.len() && !globs[i].pattern@.contains('\\') ==> a.errors[i] == glob_error(
            globs[i].pattern@,
        ),
        0 <= i < entries.len() && globs.len() == 0 ==> !a.matched[i],
        0 <= i < entries.len() && globs.len() > 0 && (forall|j: int|
            0 <= j < globs.len() ==> !(#[trigger] globs[j]).pattern@.contains('\\')) ==> (
        entries[i].relative matches Some(rel) ==> (!rel@.contains(0x5cu8) ==> a.matched[i]
            == globs_match(patterns(globs), rel@))),
{
    if forall|j: int| 0 <= j < globs.len() ==> !(#[trigger] globs[j]).pattern@.contains('\\') {
        assert forall|j: int| 0 <= j < patterns(globs).len() implies is_portable(
            #[trigger] patterns(globs)[j],
        ) by {
            assert(patterns(globs)[j] == globs[j].pattern@);
        }
    }
}

} // verus!
