//! The lines that a check prints.
use crate::text::{decimal, decimal_text, texts};
use crate::theme::analyze::{AncestorCoverage, FileReport, ThemeReport};
use crate::theme::summary::{
    findings, findings_in_files, findings_in_themes, Finding, SummaryReport,
};
use vstd::prelude::*;
use vstd::string::*;

verus! {

// ---------------------------------------------------------------------------------------
// The text report
// ---------------------------------------------------------------------------------------

/// A heading and the entries under it; nothing where there is no entry.
pub open spec fn section(heading: Seq<char>, entries: Seq<Seq<char>>) -> Seq<Seq<char>> {
    if entries.len() == 0 {
        Seq::empty()
    } else {
        seq![heading] + entries.map_values(|e: Seq<char>| "      - "@ + e)
    }
}

/// How a coverage is written as an entry.
pub open spec fn coverage_entry(c: AncestorCoverage) -> Seq<char> {
    c.capture@ + " (covered by "@ + c.covered_by@ + ")"@
}

/// The line with the counts of a theme.
pub open spec fn counts_line(t: ThemeReport) -> Seq<char> {
    "    missing_non_syntax: "@ + decimal(t.missing_non_syntax@.len())
        + " | unknown_non_syntax: "@ + decimal(t.unknown_non_syntax@.len())
        + " | deprecated_non_syntax: "@ + decimal(t.deprecated_non_syntax@.len())
        + " | syntax_uncovered: "@ + decimal(t.syntax_uncovered@.len())
        + " | syntax_covered_by_ancestor: "@ + decimal(t.syntax_covered_by_ancestor@.len())
}

/// The lines on one theme: its name, its counts, and a section for each kind of finding.
pub open spec fn theme_lines(t: ThemeReport) -> Seq<Seq<char>> {
    seq!["  theme: "@ + t.theme_name@, counts_line(t)]
        + section("    missing_non_syntax_keys:"@, texts(t.missing_non_syntax@))
        + section("    unknown_non_syntax_keys:"@, texts(t.unknown_non_syntax@))
        + section("    deprecated_non_syntax_keys:"@, texts(t.deprecated_non_syntax@))
        + section("    syntax_uncovered_keys:"@, texts(t.syntax_uncovered@))
        + section(
        "    warnings (syntax covered by ancestor):"@,
        t.syntax_covered_by_ancestor@.map_values(|c: AncestorCoverage| coverage_entry(c)),
    )
}

/// The lines on the themes of a file.
pub open spec fn lines_on_themes(themes: Seq<ThemeReport>) -> Seq<Seq<char>>
    decreases themes.len(),
{
    if themes.len() == 0 {
        Seq::empty()
    } else {
        lines_on_themes(themes.drop_last()) + theme_lines(themes.last())
    }
}

/// The lines on the files: of each its path, and its themes.
pub open spec fn lines_on_files(files: Seq<FileReport>) -> Seq<Seq<char>>
    decreases files.len(),
{
    if files.len() == 0 {
        Seq::empty()
    } else {
        lines_on_files(files.drop_last()) + (seq![files.last().path@] + lines_on_themes(
            files.last().themes@,
        ))
    }
}

/// The line with the totals.
pub open spec fn totals_line(s: SummaryReport) -> Seq<char> {
    "totals: missing_non_syntax="@ + decimal(s.total_missing_non_syntax as nat)
        + " unknown_non_syntax="@ + decimal(s.total_unknown_non_syntax as nat)
        + " deprecated_non_syntax="@ + decimal(s.total_deprecated_non_syntax as nat)
        + " syntax_uncovered="@ + decimal(s.total_syntax_uncovered as nat)
        + " syntax_covered_by_ancestor="@ + decimal(s.total_syntax_covered_by_ancestor as nat)
}

/// The lines of the text report.
pub open spec fn text_report_lines(s: SummaryReport) -> Seq<Seq<char>> {
    lines_on_files(s.files@).push(totals_line(s))
}

/// Five numbers, each after its label.
fn five_counts(
    l1: &str,
    n1: usize,
    l2: &str,
    n2: usize,
    l3: &str,
    n3: usize,
    l4: &str,
    n4: usize,
    l5: &str,
    n5: usize,
) -> (r: String)
    ensures
        r@ == l1@ + decimal(n1 as nat) + l2@ + decimal(n2 as nat) + l3@ + decimal(n3 as nat) + l4@
            + decimal(n4 as nat) + l5@ + decimal(n5 as nat),
{
    let mut s = l1.to_owned();
    s.append(decimal_text(n1 as u64).as_str());
    s.append(l2);
    s.append(decimal_text(n2 as u64).as_str());
    s.append(l3);
    s.append(decimal_text(n3 as u64).as_str());
    s.append(l4);
    s.append(decimal_text(n4 as u64).as_str());
    s.append(l5);
    s.append(decimal_text(n5 as u64).as_str());
    s
}

/// Adds one line.
fn add_line(out: &mut Vec<String>, line: String)
    ensures
        texts(final(out)@) == texts(old(out)@).push(line@),
{
    let ghost before = texts(out@);
    out.push(line);
    assert(texts(out@) =~= before.push(line@));
}

/// Adds a section.
fn add_section(out: &mut Vec<String>, heading: &str, entries: &Vec<String>)
    ensures
        texts(final(out)@) == texts(old(out)@) + section(heading@, texts(entries@)),
{
    let ghost before = texts(out@);
    let ghost all = texts(entries@);
    if entries.len() == 0 {
        assert(texts(out@) =~= before + section(heading@, all));
        return;
    }
    add_line(out, heading.to_owned());
    let mut i: usize = 0;
    let ghost body = all.map_values(|e: Seq<char>| "      - "@ + e);
    assert(texts(out@) =~= before + (seq![heading@] + body.take(0)));
    while i < entries.len()
        invariant
            i <= entries@.len(),
            all == texts(entries@),
            body == all.map_values(|e: Seq<char>| "      - "@ + e),
            texts(out@) == before + (seq![heading@] + body.take(i as int)),
        decreases entries@.len() - i,
    {
        let mut line = "      - ".to_owned();
        line.append(entries[i].as_str());
        add_line(out, line);
        assert(body[i as int] == "      - "@ + entries@[i as int]@);
        assert(texts(out@) =~= before + (seq![heading@] + body.take(i + 1)));
        i = i + 1;
    }
    assert(body.take(body.len() as int) =~= body);
}

/// The coverages as entries.
fn coverage_entries(coverages: &Vec<AncestorCoverage>) -> (r: Vec<String>)
    ensures
        texts(r@) == coverages@.map_values(|c: AncestorCoverage| coverage_entry(c)),
{
    let mut out: Vec<String> = Vec::new();
    let mut i: usize = 0;
    while i < coverages.len()
        invariant
            i <= coverages@.len(),
            out@.len() == i,
            forall|j: int| 0 <= j < i ==> (#[trigger] out@[j])@ == coverage_entry(coverages@[j]),
        decreases coverages@.len() - i,
    {
        let mut line = coverages[i].capture.clone();
        line.append(" (covered by ");
        line.append(coverages[i].covered_by.as_str());
        line.append(")");
        out.push(line);
        i = i + 1;
    }
    assert(texts(out@) =~= coverages@.map_values(|c: AncestorCoverage| coverage_entry(c)));
    out
}

/// Adds the lines on one theme.
fn add_theme(out: &mut Vec<String>, theme: &ThemeReport)
    ensures
        texts(final(out)@) == texts(old(out)@) + theme_lines(*theme),
{
    let ghost before = texts(out@);
    let mut title = "  theme: ".to_owned();
    title.append(theme.theme_name.as_str());
    add_line(out, title);
    add_line(
        out,
        five_counts(
            "    missing_non_syntax: ",
            theme.missing_non_syntax.len(),
            " | unknown_non_syntax: ",
            theme.unknown_non_syntax.len(),
            " | deprecated_non_syntax: ",
            theme.deprecated_non_syntax.len(),
            " | syntax_uncovered: ",
            theme.syntax_uncovered.len(),
            " | syntax_covered_by_ancestor: ",
            theme.syntax_covered_by_ancestor.len(),
        ),
    );
    add_section(out, "    missing_non_syntax_keys:", &theme.missing_non_syntax);
    add_section(out, "    unknown_non_syntax_keys:", &theme.unknown_non_syntax);
    add_section(out, "    deprecated_non_syntax_keys:", &theme.deprecated_non_syntax);
    add_section(out, "    syntax_uncovered_keys:", &theme.syntax_uncovered);
    let entries = coverage_entries(&theme.syntax_covered_by_ancestor);
    add_section(out, "    warnings (syntax covered by ancestor):", &entries);
    assert(texts(out@) =~= before + theme_lines(*theme));
}

/// The lines of the text report.
pub fn text_report(summary: &SummaryReport) -> (r: Vec<String>)
    ensures
        texts(r@) == text_report_lines(*summary),
{
    let mut out: Vec<String> = Vec::new();
    let ghost files = summary.files@;
    let mut i: usize = 0;
    assert(texts(out@) =~= lines_on_files(files.take(0)));
    while i < summary.files.len()
        invariant
            i <= summary.files@.len(),
            files == summary.files@,
            texts(out@) == lines_on_files(files.take(i as int)),
        decreases summary.files@.len() - i,
    {
        let file = &summary.files[i];
        let ghost before = texts(out@);
        add_line(&mut out, file.path.clone());
        let mut j: usize = 0;
        let ghost themes = file.themes@;
        assert(texts(out@) =~= before + (seq![file.path@] + lines_on_themes(themes.take(0))));
        while j < file.themes.len()
            invariant
                j <= file.themes@.len(),
                themes == file.themes@,
                texts(out@) == before + (seq![file.path@] + lines_on_themes(
                    themes.take(j as int),
                )),
            decreases file.themes@.len() - j,
        {
            add_theme(&mut out, &file.themes[j]);
            assert(themes.take(j + 1).drop_last() =~= themes.take(j as int));
            assert(texts(out@) =~= before + (seq![file.path@] + lines_on_themes(
                themes.take(j + 1),
            )));
            j = j + 1;
        }
        assert(themes.take(themes.len() as int) =~= themes);
        assert(files.take(i + 1).drop_last() =~= files.take(i as int));
        i = i + 1;
    }
    assert(files.take(files.len() as int) =~= files);
    add_line(
        &mut out,
        five_counts(
            "totals: missing_non_syntax=",
            summary.total_missing_non_syntax,
            " unknown_non_syntax=",
            summary.total_unknown_non_syntax,
            " deprecated_non_syntax=",
            summary.total_deprecated_non_syntax,
            " syntax_uncovered=",
            summary.total_syntax_uncovered,
            " syntax_covered_by_ancestor=",
            summary.total_syntax_covered_by_ancestor,
        ),
    );
    out
}

// ---------------------------------------------------------------------------------------
// Annotations
// ---------------------------------------------------------------------------------------

/// An annotation of a theme in a file: its level, what it says, and what it speaks of.
pub open spec fn annotation(
    level: Seq<char>,
    path: Seq<char>,
    theme: Seq<char>,
    message: Seq<char>,
    subject: Seq<char>,
) -> Seq<char> {
    "::"@ + level + " file="@ + path + "::theme '"@ + theme + "' "@ + message + " '"@ + subject
        + "'"@
}

/// The annotations for the keys of one heading.
pub open spec fn key_annotations(
    level: Seq<char>,
    path: Seq<char>,
    theme: Seq<char>,
    message: Seq<char>,
    keys: Seq<Seq<char>>,
) -> Seq<Seq<char>> {
    keys.map_values(|k: Seq<char>| annotation(level, path, theme, message, k))
}

/// What an annotation speaks of that reports a coverage.
pub open spec fn coverage_subject(c: AncestorCoverage) -> Seq<char> {
    c.capture@ + "' covered by ancestor '"@ + c.covered_by@
}

/// The annotations of one theme.
pub open spec fn theme_annotations(path: Seq<char>, t: ThemeReport) -> Seq<Seq<char>> {
    let name = t.theme_name@;
    key_annotations(
        "error"@,
        path,
        name,
        "missing non-syntax key"@,
        texts(t.missing_non_syntax@),
    ) + key_annotations(
        "error"@,
        path,
        name,
        "unknown non-syntax key"@,
        texts(t.unknown_non_syntax@),
    ) + key_annotations(
        "warning"@,
        path,
        name,
        "deprecated non-syntax key"@,
        texts(t.deprecated_non_syntax@),
    ) + key_annotations(
        "error"@,
        path,
        name,
        "uncovered syntax capture"@,
        texts(t.syntax_uncovered@),
    ) + key_annotations(
        "warning"@,
        path,
        name,
        "syntax capture"@,
        t.syntax_covered_by_ancestor@.map_values(|c: AncestorCoverage| coverage_subject(c)),
    )
}

/// The annotations of the themes of a file.
pub open spec fn annotations_of_themes(
    path: Seq<char>,
    themes: Seq<ThemeReport>,
) -> Seq<Seq<char>>
    decreases themes.len(),
{
    if themes.len() == 0 {
        Seq::empty()
    } else {
        annotations_of_themes(path, themes.drop_last()) + theme_annotations(path, themes.last())
    }
}

/// The annotations of all files.
pub open spec fn annotations_of_files(files: Seq<FileReport>) -> Seq<Seq<char>>
    decreases files.len(),
{
    if files.len() == 0 {
        Seq::empty()
    } else {
        annotations_of_files(files.drop_last()) + annotations_of_themes(
            files.last().path@,
            files.last().themes@,
        )
    }
}

/// Adds the annotations for the keys of one heading.
fn add_annotations(
    out: &mut Vec<String>,
    level: &str,
    path: &str,
    theme: &str,
    message: &str,
    keys: &Vec<String>,
)
    ensures
        texts(final(out)@) == texts(old(out)@) + key_annotations(
            level@,
            path@,
            theme@,
            message@,
            texts(keys@),
        ),
{
    let ghost before = texts(out@);
    let ghost all = key_annotations(level@, path@, theme@, message@, texts(keys@));
    let mut i: usize = 0;
    assert(texts(out@) =~= before + all.take(0));
    while i < keys.len()
        invariant
            i <= keys@.len(),
            all == key_annotations(level@, path@, theme@, message@, texts(keys@)),
            texts(out@) == before + all.take(i as int),
        decreases keys@.len() - i,
    {
        let mut line = "::".to_owned();
        line.append(level);
        line.append(" file=");
        line.append(path);
        line.append("::theme '");
        line.append(theme);
        line.append("' ");
        line.append(message);
        line.append(" '");
        line.append(keys[i].as_str());
        line.append("'");
        add_line(out, line);
        assert(all[i as int] == annotation(
            level@,
            path@,
            theme@,
            message@,
            keys@[i as int]@,
        ));
        assert(texts(out@) =~= before + all.take(i + 1));
        i = i + 1;
    }
    assert(all.take(all.len() as int) =~= all);
}

/// What the annotations speak of that report the coverages.
fn coverage_subjects(coverages: &Vec<AncestorCoverage>) -> (r: Vec<String>)
    ensures
        texts(r@) == coverages@.map_values(|c: AncestorCoverage| coverage_subject(c)),
{
    let mut out: Vec<String> = Vec::new();
    let mut i: usize = 0;
    while i < coverages.len()
        invariant
            i <= coverages@.len(),
            out@.len() == i,
            forall|j: int| 0 <= j < i ==> (#[trigger] out@[j])@ == coverage_subject(coverages@[j]),
        decreases coverages@.len() - i,
    {
        let mut line = coverages[i].capture.clone();
        line.append("' covered by ancestor '");
        line.append(coverages[i].covered_by.as_str());
        out.push(line);
        i = i + 1;
    }
    assert(texts(out@) =~= coverages@.map_values(|c: AncestorCoverage| coverage_subject(c)));
    out
}

/// Adds the annotations of one theme.
fn add_theme_annotations(out: &mut Vec<String>, path: &str, theme: &ThemeReport)
    ensures
        texts(final(out)@) == texts(old(out)@) + theme_annotations(path@, *theme),
{
    let ghost before = texts(out@);
    let name = theme.theme_name.as_str();
    add_annotations(
        out,
        "error",
        path,
        name,
        "missing non-syntax key",
        &theme.missing_non_syntax,
    );
    add_annotations(
        out,
        "error",
        path,
        name,
        "unknown non-syntax key",
        &theme.unknown_non_syntax,
    );
    add_annotations(
        out,
        "warning",
        path,
        name,
        "deprecated non-syntax key",
        &theme.deprecated_non_syntax,
    );
    add_annotations(
        out,
        "error",
        path,
        name,
        "uncovered syntax capture",
        &theme.syntax_uncovered,
    );
    let subjects = coverage_subjects(&theme.syntax_covered_by_ancestor);
    add_annotations(out, "warning", path, name, "syntax capture", &subjects);
    assert(texts(out@) =~= before + theme_annotations(path@, *theme));
}

/// The annotations of all files: an error for each key that is missing or unknown and each
/// capture that is uncovered, and a warning for each deprecated key and each capture that an
/// ancestor covers.
pub fn github_annotations(summary: &SummaryReport) -> (r: Vec<String>)
    ensures
        texts(r@) == annotations_of_files(summary.files@),
{
    let mut out: Vec<String> = Vec::new();
    let ghost files = summary.files@;
    let mut i: usize = 0;
    assert(texts(out@) =~= annotations_of_files(files.take(0)));
    while i < summary.files.len()
        invariant
            i <= summary.files@.len(),
            files == summary.files@,
            texts(out@) == annotations_of_files(files.take(i as int)),
        decreases summary.files@.len() - i,
    {
        let file = &summary.files[i];
        let ghost before = texts(out@);
        let mut j: usize = 0;
        let ghost themes = file.themes@;
        assert(texts(out@) =~= before + annotations_of_themes(file.path@, themes.take(0)));
        while j < file.themes.len()
            invariant
                j <= file.themes@.len(),
                themes == file.themes@,
                texts(out@) == before + annotations_of_themes(file.path@, themes.take(j as int)),
            decreases file.themes@.len() - j,
        {
            add_theme_annotations(&mut out, file.path.as_str(), &file.themes[j]);
            assert(themes.take(j + 1).drop_last() =~= themes.take(j as int));
            assert(texts(out@) =~= before + annotations_of_themes(file.path@, themes.take(j + 1)));
            j = j + 1;
        }
        assert(themes.take(themes.len() as int) =~= themes);
        assert(files.take(i + 1).drop_last() =~= files.take(i as int));
        i = i + 1;
    }
    assert(files.take(files.len() as int) =~= files);
    out
}

/// How many findings of any kind one theme has.
spec fn all_findings(t: ThemeReport) -> nat {
    findings(t, Finding::Missing) + findings(t, Finding::Unknown) + findings(
        t,
        Finding::Deprecated,
    ) + findings(t, Finding::Uncovered) + findings(t, Finding::CoveredByAncestor)
}

proof fn lemma_annotations_of_themes(path: Seq<char>, themes: Seq<ThemeReport>)
    ensures
        annotations_of_themes(path, themes).len() == findings_in_themes(themes, Finding::Missing)
            + findings_in_themes(themes, Finding::Unknown) + findings_in_themes(
            themes,
            Finding::Deprecated,
        ) + findings_in_themes(themes, Finding::Uncovered) + findings_in_themes(
            themes,
            Finding::CoveredByAncestor,
        ),
    decreases themes.len(),
{
    if themes.len() > 0 {
        lemma_annotations_of_themes(path, themes.drop_last());
        assert(theme_annotations(path, themes.last()).len() == all_findings(themes.last()));
    }
}

/// There is one annotation for each finding: as many as the totals of all kinds together.
pub proof fn every_finding_is_annotated_once(files: Seq<FileReport>)
    ensures
        annotations_of_files(files).len() == findings_in_files(files, Finding::Missing)
            + findings_in_files(files, Finding::Unknown) + findings_in_files(
            files,
            Finding::Deprecated,
        ) + findings_in_files(files, Finding::Uncovered) + findings_in_files(
            files,
            Finding::CoveredByAncestor,
        ),
    decreases files.len(),
{
    if files.len() > 0 {
        every_finding_is_annotated_once(files.drop_last());
        lemma_annotations_of_themes(files.last().path@, files.last().themes@);
    }
}

} // verus!
