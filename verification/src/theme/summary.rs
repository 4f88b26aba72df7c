//! Totals over the reports of all files.
use crate::theme::analyze::{FileReport, ThemeReport};
use vstd::prelude::*;

verus! {

/// What the check of all files found.
#[derive(Debug)]
pub struct SummaryReport {
    pub files: Vec<FileReport>,
    pub total_missing_non_syntax: usize,
    pub total_unknown_non_syntax: usize,
    pub total_deprecated_non_syntax: usize,
    pub total_syntax_uncovered: usize,
    pub total_syntax_covered_by_ancestor: usize,
}

/// What is counted.
#[derive(Clone, Copy, Debug, PartialEq, Eq, Structural)]
pub enum Finding {
    Missing,
    Unknown,
    Deprecated,
    Uncovered,
    CoveredByAncestor,
}

/// How often one theme has a finding.
pub open spec fn findings(theme: ThemeReport, what: Finding) -> nat {
    match what {
        Finding::Missing => theme.missing_non_syntax@.len(),
        Finding::Unknown => theme.unknown_non_syntax@.len(),
        Finding::Deprecated => theme.deprecated_non_syntax@.len(),
        Finding::Uncovered => theme.syntax_uncovered@.len(),
        Finding::CoveredByAncestor => theme.syntax_covered_by_ancestor@.len(),
    }
}

/// How often the themes of one file have a finding.
pub open spec fn findings_in_themes(themes: Seq<ThemeReport>, what: Finding) -> nat
    decreases themes.len(),
{
    if themes.len() == 0 {
        0
    } else {
        findings_in_themes(themes.drop_last(), what) + findings(themes.last(), what)
    }
}

/// How often the themes of all files have a finding.
pub open spec fn findings_in_files(files: Seq<FileReport>, what: Finding) -> nat
    decreases files.len(),
{
    if files.len() == 0 {
        0
    } else {
        findings_in_files(files.drop_last(), what) + findings_in_themes(
            files.last().themes@,
            what,
        )
    }
}

/// The totals of a summary are those of its files.
pub open spec fn totals_match(s: SummaryReport) -> bool {
    &&& s.total_missing_non_syntax == findings_in_files(s.files@, Finding::Missing)
    &&& s.total_unknown_non_syntax == findings_in_files(s.files@, Finding::Unknown)
    &&& s.total_deprecated_non_syntax == findings_in_files(s.files@, Finding::Deprecated)
    &&& s.total_syntax_uncovered == findings_in_files(s.files@, Finding::Uncovered)
    &&& s.total_syntax_covered_by_ancestor == findings_in_files(
        s.files@,
        Finding::CoveredByAncestor,
    )
}

/// The number of findings fits a machine word.
pub open spec fn totals_fit(files: Seq<FileReport>) -> bool {
    forall|what: Finding| #[trigger] findings_in_files(files, what) <= usize::MAX
}

/// A total is zero exactly where no theme of any file has the finding.
pub proof fn total_is_zero_iff_no_theme_has_the_finding(files: Seq<FileReport>, what: Finding)
    ensures
        findings_in_files(files, what) == 0 <==> forall|i: int, j: int|
            0 <= i < files.len() && 0 <= j < files[i].themes@.len() ==> findings(
                #[trigger] files[i].themes@[j],
                what,
            ) == 0,
    decreases files.len(),
{
    if files.len() > 0 {
        let rest = files.drop_last();
        let n = files.len() - 1;
        total_is_zero_iff_no_theme_has_the_finding(rest, what);
        lemma_themes_zero(files.last().themes@, what);
        assert forall|i: int| 0 <= i < n implies files[i] == #[trigger] rest[i] by {}
        if findings_in_files(files, what) == 0 {
            assert forall|i: int, j: int|
                0 <= i < files.len() && 0 <= j < files[i].themes@.len() implies findings(
                #[trigger] files[i].themes@[j],
                what,
            ) == 0 by {
                if i < n {
                    assert(findings(rest[i].themes@[j], what) == 0);
                }
            }
        } else if forall|i: int, j: int|
            0 <= i < files.len() && 0 <= j < files[i].themes@.len() ==> findings(
                #[trigger] files[i].themes@[j],
                what,
            ) == 0 {
            assert forall|i: int, j: int|
                0 <= i < rest.len() && 0 <= j < rest[i].themes@.len() implies findings(
                #[trigger] rest[i].themes@[j],
                what,
            ) == 0 by {
                assert(findings(files[i].themes@[j], what) == 0);
            }
            assert forall|j: int| 0 <= j < files.last().themes@.len() implies findings(
                #[trigger] files.last().themes@[j],
                what,
            ) == 0 by {
                assert(findings(files[n].themes@[j], what) == 0);
            }
        }
    }
}

proof fn lemma_themes_zero(themes: Seq<ThemeReport>, what: Finding)
    ensures
        findings_in_themes(themes, what) == 0 <==> forall|j: int|
            0 <= j < themes.len() ==> findings(#[trigger] themes[j], what) == 0,
    decreases themes.len(),
{
    if themes.len() > 0 {
        let rest = themes.drop_last();
        lemma_themes_zero(rest, what);
        assert forall|j: int| 0 <= j < rest.len() implies themes[j] == #[trigger] rest[j] by {}
        if findings_in_themes(themes, what) == 0 {
            assert forall|j: int| 0 <= j < themes.len() implies findings(
                #[trigger] themes[j],
                what,
            ) == 0 by {
                if j < rest.len() {
                    assert(findings(rest[j], what) == 0);
                }
            }
        } else if forall|j: int|
            0 <= j < themes.len() ==> findings(#[trigger] themes[j], what) == 0 {
            assert forall|j: int| 0 <= j < rest.len() implies findings(#[trigger] rest[j], what)
                == 0 by {
                assert(findings(themes[j], what) == 0);
            }
            assert(findings(themes[themes.len() - 1], what) == 0);
        }
    }
}

/// No part of a total is larger than the total.
proof fn lemma_parts_fit(files: Seq<FileReport>, i: int, j: int, what: Finding)
    requires
        0 <= i < files.len(),
        0 <= j < files[i].themes@.len(),
    ensures
        findings_in_files(files.take(i), what) + findings_in_themes(
            files[i].themes@.take(j),
            what,
        ) + findings(files[i].themes@[j], what) <= findings_in_files(files, what),
{
    let themes = files[i].themes@;
    assert(themes.take(j + 1).drop_last() =~= themes.take(j));
    lemma_themes_prefix(themes, j + 1, what);
    assert(files.take(i + 1).drop_last() =~= files.take(i));
    lemma_files_prefix(files, i + 1, what);
}

proof fn lemma_themes_prefix(themes: Seq<ThemeReport>, n: int, what: Finding)
    requires
        0 <= n <= themes.len(),
    ensures
        findings_in_themes(themes.take(n), what) <= findings_in_themes(themes, what),
    decreases themes.len(),
{
    if n == themes.len() {
        assert(themes.take(n) =~= themes);
    } else {
        lemma_themes_prefix(themes.drop_last(), n, what);
        assert(themes.drop_last().take(n) =~= themes.take(n));
    }
}

proof fn lemma_files_prefix(files: Seq<FileReport>, n: int, what: Finding)
    requires
        0 <= n <= files.len(),
    ensures
        findings_in_files(files.take(n), what) <= findings_in_files(files, what),
    decreases files.len(),
{
    if n == files.len() {
        assert(files.take(n) =~= files);
    } else {
        lemma_files_prefix(files.drop_last(), n, what);
        assert(files.drop_last().take(n) =~= files.take(n));
    }
}

/// How often one theme has a finding.
fn count(theme: &ThemeReport, what: Finding) -> (r: usize)
    ensures
        r == findings(*theme, what),
{
    match what {
        Finding::Missing => theme.missing_non_syntax.len(),
        Finding::Unknown => theme.unknown_non_syntax.len(),
        Finding::Deprecated => theme.deprecated_non_syntax.len(),
        Finding::Uncovered => theme.syntax_uncovered.len(),
        Finding::CoveredByAncestor => theme.syntax_covered_by_ancestor.len(),
    }
}

/// How often the themes of all files have a finding; nothing where the number does not fit a
/// machine word.
pub fn total(files: &Vec<FileReport>, what: Finding) -> (r: Option<usize>)
    ensures
        match r {
            Some(n) => n == findings_in_files(files@, what),
            None => findings_in_files(files@, what) > usize::MAX,
        },
{
    let ghost fs = files@;
    let mut sum: usize = 0;
    for i in 0..files.len()
        invariant
            fs == files@,
            sum == findings_in_files(fs.take(i as int), what),
    {
        let themes = &files[i].themes;
        for j in 0..themes.len()
            invariant
                i < fs.len(),
                fs == files@,
                themes@ == fs[i as int].themes@,
                sum == findings_in_files(fs.take(i as int), what) + findings_in_themes(
                    themes@.take(j as int),
                    what,
                ),
        {
            proof {
                lemma_parts_fit(fs, i as int, j as int, what);
                assert(themes@.take(j + 1).drop_last() =~= themes@.take(j as int));
            }
            match sum.checked_add(count(&themes[j], what)) {
                Some(more) => {
                    sum = more;
                },
                None => {
                    return None;
                },
            }
        }
        assert(themes@.take(themes@.len() as int) =~= themes@);
        assert(fs.take(i + 1).drop_last() =~= fs.take(i as int));
    }
    assert(fs.take(fs.len() as int) =~= fs);
    Some(sum)
}

/// Whether the numbers of findings fit a machine word.
pub fn totals_are_in_range(files: &Vec<FileReport>) -> (r: bool)
    ensures
        r == totals_fit(files@),
{
    let r = total(files, Finding::Missing).is_some() && total(files, Finding::Unknown).is_some()
        && total(files, Finding::Deprecated).is_some() && total(files, Finding::Uncovered).is_some()
        && total(files, Finding::CoveredByAncestor).is_some();
    proof {
        if r {
            assert forall|what: Finding| #[trigger] findings_in_files(files@, what)
                <= usize::MAX by {
                match what {
                    Finding::Missing => {},
                    Finding::Unknown => {},
                    Finding::Deprecated => {},
                    Finding::Uncovered => {},
                    Finding::CoveredByAncestor => {},
                }
            }
        }
    }
    r
}

/// Sums up the reports of all files.
pub fn summarize(files: Vec<FileReport>) -> (r: SummaryReport)
    requires
        totals_fit(files@),
    ensures
        r.files == files,
        totals_match(r),
{
    let total_missing_non_syntax = total(&files, Finding::Missing).unwrap();
    let total_unknown_non_syntax = total(&files, Finding::Unknown).unwrap();
    let total_deprecated_non_syntax = total(&files, Finding::Deprecated).unwrap();
    let total_syntax_uncovered = total(&files, Finding::Uncovered).unwrap();
    let total_syntax_covered_by_ancestor = total(&files, Finding::CoveredByAncestor).unwrap();
    SummaryReport {
        files,
        total_missing_non_syntax,
        total_unknown_non_syntax,
        total_deprecated_non_syntax,
        total_syntax_uncovered,
        total_syntax_covered_by_ancestor,
    }
}

} // verus!
