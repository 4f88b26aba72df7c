//! Where each finding stands in what a check prints, and what is said of it there.
use crate::text::{decimal, texts};
use crate::theme::analyze::{AncestorCoverage, FileReport, ThemeReport};
use crate::theme::report::{
    annotation, annotations_of_files, annotations_of_themes, counts_line, coverage_entry,
    coverage_subject, key_annotations, lines_on_files, lines_on_themes, section, text_report_lines,
    theme_annotations, theme_lines,
};
use crate::theme::summary::{Finding, SummaryReport};
use vstd::prelude::*;
use vstd::string::*;

verus! {

// ---------------------------------------------------------------------------------------
// Findings
// ---------------------------------------------------------------------------------------

/// How many findings of one kind the report of a theme holds.
pub open spec fn held(t: ThemeReport, what: Finding) -> int {
    match what {
        Finding::Missing => t.missing_non_syntax@.len() as int,
        Finding::Unknown => t.unknown_non_syntax@.len() as int,
        Finding::Deprecated => t.deprecated_non_syntax@.len() as int,
        Finding::Uncovered => t.syntax_uncovered@.len() as int,
        Finding::CoveredByAncestor => t.syntax_covered_by_ancestor@.len() as int,
    }
}

/// How many findings of the kinds that come before this one the report of a theme holds.
pub open spec fn held_before(t: ThemeReport, what: Finding) -> int {
    match what {
        Finding::Missing => 0,
        Finding::Unknown => held(t, Finding::Missing),
        Finding::Deprecated => held(t, Finding::Missing) + held(t, Finding::Unknown),
        Finding::Uncovered => held(t, Finding::Missing) + held(t, Finding::Unknown) + held(
            t,
            Finding::Deprecated,
        ),
        Finding::CoveredByAncestor => held(t, Finding::Missing) + held(t, Finding::Unknown) + held(
            t,
            Finding::Deprecated,
        ) + held(t, Finding::Uncovered),
    }
}

/// How many findings the report of a theme holds.
pub open spec fn held_in_all(t: ThemeReport) -> int {
    held_before(t, Finding::CoveredByAncestor) + held(t, Finding::CoveredByAncestor)
}

/// How many findings the reports of the first `n` themes hold.
pub open spec fn held_by_themes(themes: Seq<ThemeReport>, n: int) -> int
    decreases n,
{
    if n <= 0 {
        0
    } else {
        held_by_themes(themes, n - 1) + held_in_all(themes[n - 1])
    }
}

/// How many findings the reports of the first `n` files hold.
pub open spec fn held_by_files(files: Seq<FileReport>, n: int) -> int
    decreases n,
{
    if n <= 0 {
        0
    } else {
        held_by_files(files, n - 1) + held_by_themes(
            files[n - 1].themes@,
            files[n - 1].themes@.len() as int,
        )
    }
}

// ---------------------------------------------------------------------------------------
// Annotations
// ---------------------------------------------------------------------------------------

/// Whether a finding is an error or a warning.
pub open spec fn level_of(what: Finding) -> Seq<char> {
    match what {
        Finding::Missing => "error"@,
        Finding::Unknown => "error"@,
        Finding::Deprecated => "warning"@,
        Finding::Uncovered => "error"@,
        Finding::CoveredByAncestor => "warning"@,
    }
}

/// What an annotation says of a finding.
pub open spec fn message_of(what: Finding) -> Seq<char> {
    match what {
        Finding::Missing => "missing non-syntax key"@,
        Finding::Unknown => "unknown non-syntax key"@,
        Finding::Deprecated => "deprecated non-syntax key"@,
        Finding::Uncovered => "uncovered syntax capture"@,
        Finding::CoveredByAncestor => "syntax capture"@,
    }
}

/// What an annotation of finding `k` of one kind speaks of.
pub open spec fn subject_of(t: ThemeReport, what: Finding, k: int) -> Seq<char> {
    match what {
        Finding::Missing => t.missing_non_syntax@[k]@,
        Finding::Unknown => t.unknown_non_syntax@[k]@,
        Finding::Deprecated => t.deprecated_non_syntax@[k]@,
        Finding::Uncovered => t.syntax_uncovered@[k]@,
        Finding::CoveredByAncestor => t.syntax_covered_by_ancestor@[k].capture@
            + "' covered by ancestor '"@ + t.syntax_covered_by_ancestor@[k].covered_by@,
    }
}

/// The line is the annotation of finding `k` of one kind of a theme, in the file at the path.
pub open spec fn annotates(
    line: Seq<char>,
    path: Seq<char>,
    t: ThemeReport,
    what: Finding,
    k: int,
) -> bool {
    line == "::"@ + level_of(what) + " file="@ + path + "::theme '"@ + t.theme_name@ + "' "@
        + message_of(what) + " '"@ + subject_of(t, what, k) + "'"@
}

proof fn lemma_theme_annotations(path: Seq<char>, t: ThemeReport, what: Finding, k: int)
    requires
        0 <= k < held(t, what),
    ensures
        theme_annotations(path, t).len() == held_in_all(t),
        0 <= held_before(t, what) + k < held_in_all(t),
        annotates(theme_annotations(path, t)[held_before(t, what) + k], path, t, what, k),
{
    let all = theme_annotations(path, t);
    let n = t.theme_name@;
    let a = key_annotations(
        "error"@,
        path,
        n,
        "missing non-syntax key"@,
        texts(t.missing_non_syntax@),
    );
    let b = key_annotations(
        "error"@,
        path,
        n,
        "unknown non-syntax key"@,
        texts(t.unknown_non_syntax@),
    );
    let c = key_annotations(
        "warning"@,
        path,
        n,
        "deprecated non-syntax key"@,
        texts(t.deprecated_non_syntax@),
    );
    let d = key_annotations(
        "error"@,
        path,
        n,
        "uncovered syntax capture"@,
        texts(t.syntax_uncovered@),
    );
    let e = key_annotations(
        "warning"@,
        path,
        n,
        "syntax capture"@,
        t.syntax_covered_by_ancestor@.map_values(|c: AncestorCoverage| coverage_subject(c)),
    );
    assert(all == a + b + c + d + e);
    match what {
        Finding::Missing => {
            assert(all[k] == a[k]);
        },
        Finding::Unknown => {
            assert(all[held_before(t, what) + k] == b[k]);
        },
        Finding::Deprecated => {
            assert(all[held_before(t, what) + k] == c[k]);
        },
        Finding::Uncovered => {
            assert(all[held_before(t, what) + k] == d[k]);
        },
        Finding::CoveredByAncestor => {
            assert(all[held_before(t, what) + k] == e[k]);
        },
    }
}

proof fn lemma_held_by_themes(a: Seq<ThemeReport>, b: Seq<ThemeReport>, n: int)
    requires
        0 <= n <= a.len(),
        n <= b.len(),
        forall|j: int| 0 <= j < n ==> a[j] == b[j],
    ensures
        held_by_themes(a, n) == held_by_themes(b, n),
        held_by_themes(a, n) >= 0,
    decreases n,
{
    if n > 0 {
        lemma_held_by_themes(a, b, n - 1);
    }
}

proof fn lemma_held_by_files(a: Seq<FileReport>, b: Seq<FileReport>, n: int)
    requires
        0 <= n <= a.len(),
        n <= b.len(),
        forall|j: int| 0 <= j < n ==> a[j] == b[j],
    ensures
        held_by_files(a, n) == held_by_files(b, n),
        held_by_files(a, n) >= 0,
    decreases n,
{
    if n > 0 {
        lemma_held_by_files(a, b, n - 1);
        let themes = a[n - 1].themes@;
        lemma_held_by_themes(themes, themes, themes.len() as int);
    }
}

proof fn lemma_themes_len(path: Seq<char>, themes: Seq<ThemeReport>)
    ensures
        annotations_of_themes(path, themes).len() == held_by_themes(themes, themes.len() as int),
    decreases themes.len(),
{
    if themes.len() > 0 {
        let rest = themes.drop_last();
        lemma_themes_len(path, rest);
        lemma_held_by_themes(themes, rest, themes.len() - 1);
    }
}

proof fn lemma_themes(path: Seq<char>, themes: Seq<ThemeReport>, j: int, m: int)
    requires
        0 <= j < themes.len(),
        0 <= m < theme_annotations(path, themes[j]).len(),
    ensures
        0 <= held_by_themes(themes, j) + m < annotations_of_themes(path, themes).len(),
        annotations_of_themes(path, themes)[held_by_themes(themes, j) + m] == theme_annotations(
            path,
            themes[j],
        )[m],
    decreases themes.len(),
{
    let rest = themes.drop_last();
    lemma_held_by_themes(themes, rest, j);
    lemma_themes_len(path, rest);
    if j < themes.len() - 1 {
        assert(rest[j] == themes[j]);
        lemma_themes(path, rest, j, m);
    }
}

proof fn lemma_files(files: Seq<FileReport>, i: int, m: int)
    requires
        0 <= i < files.len(),
        0 <= m < annotations_of_themes(files[i].path@, files[i].themes@).len(),
    ensures
        0 <= held_by_files(files, i) + m < annotations_of_files(files).len(),
        annotations_of_files(files)[held_by_files(files, i) + m] == annotations_of_themes(
            files[i].path@,
            files[i].themes@,
        )[m],
    decreases files.len(),
{
    let rest = files.drop_last();
    lemma_held_by_files(files, rest, i);
    lemma_files_len(rest);
    if i < files.len() - 1 {
        assert(rest[i] == files[i]);
        lemma_files(rest, i, m);
    }
}

proof fn lemma_files_len(files: Seq<FileReport>)
    ensures
        annotations_of_files(files).len() == held_by_files(files, files.len() as int),
    decreases files.len(),
{
    if files.len() > 0 {
        let rest = files.drop_last();
        lemma_files_len(rest);
        lemma_held_by_files(files, rest, files.len() - 1);
        lemma_themes_len(files.last().path@, files.last().themes@);
    }
}

/// Finding `k` of a kind of theme `j` of file `i` has its annotation at its own place, behind those
/// of the earlier files, of the earlier themes of the file and of the earlier findings of the
/// theme. The annotation names the path of that very file and the name of that very theme, and
/// speaks of the finding.
pub proof fn every_annotation_names_its_file_and_theme(
    files: Seq<FileReport>,
    i: int,
    j: int,
    what: Finding,
    k: int,
)
    requires
        0 <= i < files.len(),
        0 <= j < files[i].themes@.len(),
        0 <= k < held(files[i].themes@[j], what),
    ensures
        ({
            let t = files[i].themes@[j];
            let at = held_by_files(files, i) + held_by_themes(files[i].themes@, j) + held_before(
                t,
                what,
            ) + k;
            &&& 0 <= at < annotations_of_files(files).len()
            &&& annotates(annotations_of_files(files)[at], files[i].path@, t, what, k)
        }),
{
    let path = files[i].path@;
    let themes = files[i].themes@;
    let t = themes[j];
    let m = held_before(t, what) + k;
    lemma_theme_annotations(path, t, what, k);
    lemma_themes(path, themes, j, m);
    lemma_files(files, i, held_by_themes(themes, j) + m);
}

/// The line is the annotation of a finding of one of the files.
pub open spec fn is_of_a_finding(line: Seq<char>, files: Seq<FileReport>) -> bool {
    exists|i: int, j: int, what: Finding, k: int|
        0 <= i < files.len() && 0 <= j < files[i].themes@.len() && 0 <= k < held(
            files[i].themes@[j],
            what,
        ) && #[trigger] annotates(line, files[i].path@, files[i].themes@[j], what, k)
}

proof fn lemma_place_in_theme(t: ThemeReport, m: int) -> (r: (Finding, int))
    requires
        0 <= m < held_in_all(t),
    ensures
        0 <= r.1 < held(t, r.0),
        held_before(t, r.0) + r.1 == m,
{
    let a = held_before(t, Finding::Unknown);
    let b = held_before(t, Finding::Deprecated);
    let c = held_before(t, Finding::Uncovered);
    let d = held_before(t, Finding::CoveredByAncestor);
    if m < a {
        (Finding::Missing, m)
    } else if m < b {
        (Finding::Unknown, m - a)
    } else if m < c {
        (Finding::Deprecated, m - b)
    } else if m < d {
        (Finding::Uncovered, m - c)
    } else {
        (Finding::CoveredByAncestor, m - d)
    }
}

proof fn lemma_place_in_themes(themes: Seq<ThemeReport>, n: int, m: int) -> (r: (int, int))
    requires
        0 <= n <= themes.len(),
        0 <= m < held_by_themes(themes, n),
    ensures
        0 <= r.0 < n,
        0 <= r.1 < held_in_all(themes[r.0]),
        held_by_themes(themes, r.0) + r.1 == m,
    decreases n,
{
    if m < held_by_themes(themes, n - 1) {
        lemma_place_in_themes(themes, n - 1, m)
    } else {
        (n - 1, m - held_by_themes(themes, n - 1))
    }
}

proof fn lemma_place_in_files(files: Seq<FileReport>, n: int, m: int) -> (r: (int, int))
    requires
        0 <= n <= files.len(),
        0 <= m < held_by_files(files, n),
    ensures
        0 <= r.0 < n,
        0 <= r.1 < held_by_themes(files[r.0].themes@, files[r.0].themes@.len() as int),
        held_by_files(files, r.0) + r.1 == m,
    decreases n,
{
    if m < held_by_files(files, n - 1) {
        lemma_place_in_files(files, n - 1, m)
    } else {
        (n - 1, m - held_by_files(files, n - 1))
    }
}

/// Every annotation is that of a finding of a theme of one of the files, and there are as many of
/// them as findings.
pub proof fn every_annotation_is_of_a_finding(files: Seq<FileReport>, m: int)
    requires
        0 <= m < annotations_of_files(files).len(),
    ensures
        annotations_of_files(files).len() == held_by_files(files, files.len() as int),
        is_of_a_finding(annotations_of_files(files)[m], files),
{
    lemma_files_len(files);
    let (i, in_file) = lemma_place_in_files(files, files.len() as int, m);
    let themes = files[i].themes@;
    let (j, in_theme) = lemma_place_in_themes(themes, themes.len() as int, in_file);
    let (what, k) = lemma_place_in_theme(themes[j], in_theme);
    every_annotation_names_its_file_and_theme(files, i, j, what, k);
    assert(annotates(
        annotations_of_files(files)[m],
        files[i].path@,
        files[i].themes@[j],
        what,
        k,
    ));
}

// ---------------------------------------------------------------------------------------
// The text report
// ---------------------------------------------------------------------------------------

/// What stands over the findings of one kind.
pub open spec fn heading_of(what: Finding) -> Seq<char> {
    match what {
        Finding::Missing => "    missing_non_syntax_keys:"@,
        Finding::Unknown => "    unknown_non_syntax_keys:"@,
        Finding::Deprecated => "    deprecated_non_syntax_keys:"@,
        Finding::Uncovered => "    syntax_uncovered_keys:"@,
        Finding::CoveredByAncestor => "    warnings (syntax covered by ancestor):"@,
    }
}

/// What is listed as finding `k` of one kind.
pub open spec fn entry_of(t: ThemeReport, what: Finding, k: int) -> Seq<char> {
    match what {
        Finding::Missing => t.missing_non_syntax@[k]@,
        Finding::Unknown => t.unknown_non_syntax@[k]@,
        Finding::Deprecated => t.deprecated_non_syntax@[k]@,
        Finding::Uncovered => t.syntax_uncovered@[k]@,
        Finding::CoveredByAncestor => t.syntax_covered_by_ancestor@[k].capture@
            + " (covered by "@ + t.syntax_covered_by_ancestor@[k].covered_by@ + ")"@,
    }
}

/// How many lines the findings of one kind take: none where there are none.
pub open spec fn section_lines(t: ThemeReport, what: Finding) -> int {
    if held(t, what) == 0 {
        0
    } else {
        1 + held(t, what)
    }
}

/// How many lines on a theme stand before the findings of one kind.
pub open spec fn lines_before(t: ThemeReport, what: Finding) -> int {
    match what {
        Finding::Missing => 2,
        Finding::Unknown => 2 + section_lines(t, Finding::Missing),
        Finding::Deprecated => 2 + section_lines(t, Finding::Missing) + section_lines(
            t,
            Finding::Unknown,
        ),
        Finding::Uncovered => 2 + section_lines(t, Finding::Missing) + section_lines(
            t,
            Finding::Unknown,
        ) + section_lines(t, Finding::Deprecated),
        Finding::CoveredByAncestor => 2 + section_lines(t, Finding::Missing) + section_lines(
            t,
            Finding::Unknown,
        ) + section_lines(t, Finding::Deprecated) + section_lines(t, Finding::Uncovered),
    }
}

/// How many lines there are on a theme.
pub open spec fn lines_on(t: ThemeReport) -> int {
    lines_before(t, Finding::CoveredByAncestor) + section_lines(t, Finding::CoveredByAncestor)
}

/// How many lines there are on the first `n` themes.
pub open spec fn lines_of_themes(themes: Seq<ThemeReport>, n: int) -> int
    decreases n,
{
    if n <= 0 {
        0
    } else {
        lines_of_themes(themes, n - 1) + lines_on(themes[n - 1])
    }
}

/// How many lines there are on the first `n` files: of each its path, and the lines on its themes.
pub open spec fn lines_of_files(files: Seq<FileReport>, n: int) -> int
    decreases n,
{
    if n <= 0 {
        0
    } else {
        lines_of_files(files, n - 1) + 1 + lines_of_themes(
            files[n - 1].themes@,
            files[n - 1].themes@.len() as int,
        )
    }
}

/// The lines from the place on are those on the theme: its name, how many findings of each kind
/// it has, and under a heading the findings of each kind that it has any of.
pub open spec fn tells_of_theme(lines: Seq<Seq<char>>, at: int, t: ThemeReport) -> bool {
    &&& 0 <= at
    &&& at + lines_on(t) <= lines.len()
    &&& lines[at] == "  theme: "@ + t.theme_name@
    &&& lines[at + 1] == "    missing_non_syntax: "@ + decimal(held(t, Finding::Missing) as nat)
        + " | unknown_non_syntax: "@ + decimal(held(t, Finding::Unknown) as nat)
        + " | deprecated_non_syntax: "@ + decimal(held(t, Finding::Deprecated) as nat)
        + " | syntax_uncovered: "@ + decimal(held(t, Finding::Uncovered) as nat)
        + " | syntax_covered_by_ancestor: "@ + decimal(
        held(t, Finding::CoveredByAncestor) as nat,
    )
    &&& forall|what: Finding| #[trigger]
        held(t, what) > 0 ==> lines[at + lines_before(t, what)] == heading_of(what)
    &&& forall|what: Finding, k: int|
        0 <= k < held(t, what) ==> lines[at + lines_before(t, what) + 1 + k] == "      - "@
            + #[trigger] entry_of(t, what, k)
}

proof fn lemma_theme_lines(t: ThemeReport)
    ensures
        theme_lines(t).len() == lines_on(t),
        tells_of_theme(theme_lines(t), 0, t),
{
    let head = seq!["  theme: "@ + t.theme_name@, counts_line(t)];
    let a = section(heading_of(Finding::Missing), texts(t.missing_non_syntax@));
    let b = section(heading_of(Finding::Unknown), texts(t.unknown_non_syntax@));
    let c = section(heading_of(Finding::Deprecated), texts(t.deprecated_non_syntax@));
    let d = section(heading_of(Finding::Uncovered), texts(t.syntax_uncovered@));
    let e = section(
        heading_of(Finding::CoveredByAncestor),
        t.syntax_covered_by_ancestor@.map_values(|c: AncestorCoverage| coverage_entry(c)),
    );
    let all = theme_lines(t);
    assert(all == head + a + b + c + d + e);
    assert(head.len() == 2);
    assert(a.len() == section_lines(t, Finding::Missing));
    assert(b.len() == section_lines(t, Finding::Unknown));
    assert(c.len() == section_lines(t, Finding::Deprecated));
    assert(d.len() == section_lines(t, Finding::Uncovered));
    assert(e.len() == section_lines(t, Finding::CoveredByAncestor));
    assert(all[0] == head[0]);
    assert(all[1] == head[1]);
    assert forall|what: Finding| #[trigger] held(t, what) > 0 implies all[lines_before(t, what)]
        == heading_of(what) by {
        match what {
            Finding::Missing => {
                assert(all[lines_before(t, what)] == a[0]);
            },
            Finding::Unknown => {
                assert(all[lines_before(t, what)] == b[0]);
            },
            Finding::Deprecated => {
                assert(all[lines_before(t, what)] == c[0]);
            },
            Finding::Uncovered => {
                assert(all[lines_before(t, what)] == d[0]);
            },
            Finding::CoveredByAncestor => {
                assert(all[lines_before(t, what)] == e[0]);
            },
        }
    }
    assert forall|what: Finding, k: int| 0 <= k < held(t, what) implies all[lines_before(t, what)
        + 1 + k] == "      - "@ + #[trigger] entry_of(t, what, k) by {
        let at = lines_before(t, what) + 1 + k;
        match what {
            Finding::Missing => {
                assert(all[at] == a[1 + k]);
            },
            Finding::Unknown => {
                assert(all[at] == b[1 + k]);
            },
            Finding::Deprecated => {
                assert(all[at] == c[1 + k]);
            },
            Finding::Uncovered => {
                assert(all[at] == d[1 + k]);
            },
            Finding::CoveredByAncestor => {
                assert(all[at] == e[1 + k]);
            },
        }
    }
}

proof fn lemma_tells_within(
    inner: Seq<Seq<char>>,
    at: int,
    outer: Seq<Seq<char>>,
    shift: int,
    t: ThemeReport,
)
    requires
        tells_of_theme(inner, at, t),
        0 <= shift,
        shift + inner.len() <= outer.len(),
        forall|m: int| 0 <= m < inner.len() ==> #[trigger] outer[shift + m] == inner[m],
    ensures
        tells_of_theme(outer, shift + at, t),
{
    assert(lines_on(t) >= 2);
    assert(outer[shift + at] == inner[at]);
    assert(outer[shift + (at + 1)] == inner[at + 1]);
    assert forall|what: Finding| #[trigger] held(t, what) > 0 implies outer[shift + at
        + lines_before(t, what)] == heading_of(what) by {
        assert(outer[shift + (at + lines_before(t, what))] == inner[at + lines_before(t, what)]);
    }
    assert forall|what: Finding, k: int| 0 <= k < held(t, what) implies outer[shift + at
        + lines_before(t, what) + 1 + k] == "      - "@ + #[trigger] entry_of(t, what, k) by {
        let m = at + lines_before(t, what) + 1 + k;
        assert(outer[shift + m] == inner[m]);
    }
}

proof fn lemma_lines_of_themes(a: Seq<ThemeReport>, b: Seq<ThemeReport>, n: int)
    requires
        0 <= n <= a.len(),
        n <= b.len(),
        forall|j: int| 0 <= j < n ==> a[j] == b[j],
    ensures
        lines_of_themes(a, n) == lines_of_themes(b, n),
        lines_of_themes(a, n) >= 0,
    decreases n,
{
    if n > 0 {
        lemma_lines_of_themes(a, b, n - 1);
    }
}

proof fn lemma_lines_of_files(a: Seq<FileReport>, b: Seq<FileReport>, n: int)
    requires
        0 <= n <= a.len(),
        n <= b.len(),
        forall|j: int| 0 <= j < n ==> a[j] == b[j],
    ensures
        lines_of_files(a, n) == lines_of_files(b, n),
        lines_of_files(a, n) >= 0,
    decreases n,
{
    if n > 0 {
        lemma_lines_of_files(a, b, n - 1);
        let themes = a[n - 1].themes@;
        lemma_lines_of_themes(themes, themes, themes.len() as int);
    }
}

proof fn lemma_lines_on_themes_len(themes: Seq<ThemeReport>)
    ensures
        lines_on_themes(themes).len() == lines_of_themes(themes, themes.len() as int),
    decreases themes.len(),
{
    if themes.len() > 0 {
        let rest = themes.drop_last();
        lemma_lines_on_themes_len(rest);
        lemma_lines_of_themes(themes, rest, themes.len() - 1);
        lemma_theme_lines(themes.last());
    }
}

proof fn lemma_lines_on_themes(themes: Seq<ThemeReport>, j: int)
    requires
        0 <= j < themes.len(),
    ensures
        tells_of_theme(lines_on_themes(themes), lines_of_themes(themes, j), themes[j]),
    decreases themes.len(),
{
    let rest = themes.drop_last();
    let all = lines_on_themes(themes);
    lemma_lines_of_themes(themes, rest, j);
    lemma_lines_on_themes_len(rest);
    lemma_lines_on_themes_len(themes);
    if j < rest.len() {
        lemma_lines_on_themes(rest, j);
        lemma_tells_within(lines_on_themes(rest), lines_of_themes(rest, j), all, 0, themes[j]);
    } else {
        lemma_theme_lines(themes.last());
        lemma_tells_within(
            theme_lines(themes.last()),
            0,
            all,
            lines_on_themes(rest).len() as int,
            themes[j],
        );
    }
}

proof fn lemma_lines_on_files_len(files: Seq<FileReport>)
    ensures
        lines_on_files(files).len() == lines_of_files(files, files.len() as int),
    decreases files.len(),
{
    if files.len() > 0 {
        let rest = files.drop_last();
        lemma_lines_on_files_len(rest);
        lemma_lines_of_files(files, rest, files.len() - 1);
        lemma_lines_on_themes_len(files.last().themes@);
    }
}

proof fn lemma_lines_on_files(files: Seq<FileReport>, i: int, m: int)
    requires
        0 <= i < files.len(),
        0 <= m <= lines_on_themes(files[i].themes@).len(),
    ensures
        0 <= lines_of_files(files, i) + m < lines_on_files(files).len(),
        lines_on_files(files)[lines_of_files(files, i) + m] == (seq![files[i].path@]
            + lines_on_themes(files[i].themes@))[m],
    decreases files.len(),
{
    let rest = files.drop_last();
    lemma_lines_of_files(files, rest, i);
    lemma_lines_on_files_len(rest);
    if i < files.len() - 1 {
        assert(rest[i] == files[i]);
        lemma_lines_on_files(rest, i, m);
    }
}

/// The text report tells of every file in order: at its place stands its path, and behind that,
/// in order and theme by theme, the lines on each of its themes. Every line but the last is one of
/// these, and the last holds the totals.
pub proof fn the_text_report_tells_of_every_theme(summary: SummaryReport, i: int, j: int)
    requires
        0 <= i < summary.files@.len(),
        0 <= j < summary.files@[i].themes@.len(),
    ensures
        ({
            let files = summary.files@;
            let lines = text_report_lines(summary);
            let at = lines_of_files(files, i);
            &&& lines.len() == lines_of_files(files, files.len() as int) + 1
            &&& 0 <= at < lines.len() - 1
            &&& lines[at] == files[i].path@
            &&& tells_of_theme(
                lines,
                at + 1 + lines_of_themes(files[i].themes@, j),
                files[i].themes@[j],
            )
        }),
{
    let files = summary.files@;
    let themes = files[i].themes@;
    let lines = text_report_lines(summary);
    let at = lines_of_files(files, i);
    lemma_lines_on_files_len(files);
    lemma_lines_on_files(files, i, 0);
    lemma_lines_on_themes(themes, j);
    let inner = lines_on_themes(themes);
    assert forall|m: int| 0 <= m < inner.len() implies #[trigger] lines[(at + 1) + m]
        == inner[m] by {
        lemma_lines_on_files(files, i, m + 1);
    }
    if inner.len() > 0 {
        lemma_lines_on_files(files, i, inner.len() as int);
    }
    lemma_tells_within(inner, lines_of_themes(themes, j), lines, at + 1, themes[j]);
}

/// The last line of the text report holds the total of each kind of finding. The path of each file
/// stands in it, also of a file without themes.
pub proof fn the_text_report_ends_with_the_totals(summary: SummaryReport)
    ensures
        ({
            let files = summary.files@;
            let lines = text_report_lines(summary);
            &&& lines.len() == lines_of_files(files, files.len() as int) + 1
            &&& lines.last() == "totals: missing_non_syntax="@ + decimal(
                summary.total_missing_non_syntax as nat,
            ) + " unknown_non_syntax="@ + decimal(summary.total_unknown_non_syntax as nat)
                + " deprecated_non_syntax="@ + decimal(
                summary.total_deprecated_non_syntax as nat,
            ) + " syntax_uncovered="@ + decimal(summary.total_syntax_uncovered as nat)
                + " syntax_covered_by_ancestor="@ + decimal(
                summary.total_syntax_covered_by_ancestor as nat,
            )
            &&& forall|i: int|
                0 <= i < files.len() ==> lines[#[trigger] lines_of_files(files, i)]
                    == files[i].path@
        }),
{
    let files = summary.files@;
    let lines = text_report_lines(summary);
    lemma_lines_on_files_len(files);
    assert forall|i: int| 0 <= i < files.len() implies lines[#[trigger] lines_of_files(files, i)]
        == files[i].path@ by {
        lemma_lines_on_files(files, i, 0);
    }
}

} // verus!
