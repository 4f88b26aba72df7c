//! Which findings make a strict check fail.
use crate::text::{ascii_lowercase, ascii_lowercased, pieces, same_text, split_text, texts, trim, trimmed};
use crate::theme::analyze::{FileReport, ThemeReport};
use crate::theme::errors::ThemeError;
use crate::theme::summary::{
    findings, findings_in_files, summarize, total_is_zero_iff_no_theme_has_the_finding, totals_fit,
    totals_match, Finding, SummaryReport,
};
use vstd::prelude::*;

verus! {

/// A kind of failure.
#[derive(Clone, Copy, Debug, PartialEq, Eq, PartialOrd, Ord, Hash, Structural)]
pub enum FailKind {
    /// An expected key or capture is left out.
    Uncovered,
    /// A key is not known.
    Unknown,
    /// A deprecated key is used.
    Deprecated,
}

/// A set of kinds of failure.
#[derive(Clone, Copy, Debug)]
pub struct FailKinds {
    uncovered: bool,
    unknown: bool,
    deprecated: bool,
}

impl View for FailKinds {
    type V = Set<FailKind>;

    closed spec fn view(&self) -> Set<FailKind> {
        Set::new(
            |k: FailKind|
                match k {
                    FailKind::Uncovered => self.uncovered,
                    FailKind::Unknown => self.unknown,
                    FailKind::Deprecated => self.deprecated,
                },
        )
    }
}

impl FailKinds {
    /// No kind.
    pub fn new() -> (r: FailKinds)
        ensures
            r@ == Set::<FailKind>::empty(),
    {
        let r = FailKinds { uncovered: false, unknown: false, deprecated: false };
        assert(r@ =~= Set::<FailKind>::empty());
        r
    }

    /// Adds a kind.
    pub fn insert(&mut self, kind: FailKind)
        ensures
            final(self)@ == old(self)@.insert(kind),
    {
        let ghost before = self@;
        match kind {
            FailKind::Uncovered => self.uncovered = true,
            FailKind::Unknown => self.unknown = true,
            FailKind::Deprecated => self.deprecated = true,
        }
        assert(self@ =~= before.insert(kind));
    }

    /// Whether a kind is in the set.
    pub fn contains(&self, kind: &FailKind) -> (r: bool)
        ensures
            r == self@.contains(*kind),
    {
        match kind {
            FailKind::Uncovered => self.uncovered,
            FailKind::Unknown => self.unknown,
            FailKind::Deprecated => self.deprecated,
        }
    }
}

/// The kind that a word names.
pub open spec fn kind_named(word: Seq<char>) -> Option<FailKind> {
    if word == "uncovered"@ {
        Some(FailKind::Uncovered)
    } else if word == "unknown"@ {
        Some(FailKind::Unknown)
    } else if word == "deprecated"@ {
        Some(FailKind::Deprecated)
    } else {
        None
    }
}

/// The words of a list: what stands between its commas, without white space around it and in
/// lower case.
pub open spec fn words(list: Seq<char>) -> Seq<Seq<char>> {
    pieces(list, ',').map_values(|p: Seq<char>| ascii_lowercase(trim(p)))
}

/// The kinds that a list names.
pub open spec fn kinds_named(words: Seq<Seq<char>>) -> Set<FailKind> {
    Set::new(
        |k: FailKind|
            exists|i: int| 0 <= i < words.len() && kind_named(#[trigger] words[i]) == Some(k),
    )
}

/// A word that neither is empty nor names a kind.
pub open spec fn is_unsupported(word: Seq<char>) -> bool {
    word.len() > 0 && kind_named(word) is None
}

/// The word at place `i` is the first that is not supported.
pub open spec fn first_unsupported(words: Seq<Seq<char>>, i: int) -> bool {
    &&& 0 <= i < words.len()
    &&& is_unsupported(words[i])
    &&& forall|j: int| 0 <= j < i ==> !is_unsupported(#[trigger] words[j])
}

/// The kind that a word names.
fn fail_kind(word: &str) -> (r: Option<FailKind>)
    ensures
        r == kind_named(word@),
{
    if same_text(word, "uncovered") {
        Some(FailKind::Uncovered)
    } else if same_text(word, "unknown") {
        Some(FailKind::Unknown)
    } else if same_text(word, "deprecated") {
        Some(FailKind::Deprecated)
    } else {
        None
    }
}

/// Reads a comma-separated list of kinds. Empty words are passed over; the first word that
/// names no kind is an error.
pub fn parse_fail_kinds(value: &str) -> (r: Result<FailKinds, ThemeError>)
    ensures
        match r {
            Ok(kinds) => kinds@ == kinds_named(words(value@)) && forall|i: int|
                0 <= i < words(value@).len() ==> !is_unsupported(#[trigger] words(value@)[i]),
            Err(e) => exists|i: int| #[trigger]
                first_unsupported(words(value@), i) && (e matches ThemeError::UnsupportedFailKind(
                    word,
                ) && word@ == words(value@)[i]),
        },
{
    let raw = split_text(value, ',');
    let ghost ws = words(value@);
    let mut kinds = FailKinds::new();
    let mut i: usize = 0;
    assert(kinds@ =~= kinds_named(ws.take(0)));
    while i < raw.len()
        invariant
            i <= raw@.len(),
            texts(raw@) == pieces(value@, ','),
            ws == words(value@),
            kinds@ == kinds_named(ws.take(i as int)),
            forall|j: int| 0 <= j < i ==> !is_unsupported(#[trigger] ws[j]),
        decreases raw@.len() - i,
    {
        let token = ascii_lowercased(trimmed(raw[i].as_str()).as_str());
        assert(texts(raw@)[i as int] == raw@[i as int]@);
        assert(ws[i as int] == token@);
        proof {
            reveal_strlit("uncovered");
            reveal_strlit("unknown");
            reveal_strlit("deprecated");
        }
        if token.as_str().is_empty() {
            assert forall|k: FailKind| #[trigger]
                kinds@.contains(k) <==> kinds_named(ws.take(i + 1)).contains(k) by {
                lemma_one_more_word(ws, i as int, k);
            }
            assert(kinds@ =~= kinds_named(ws.take(i + 1)));
            i = i + 1;
            continue ;
        }
        match fail_kind(token.as_str()) {
            Some(kind) => {
                let ghost before = kinds@;
                kinds.insert(kind);
                assert forall|k: FailKind| #[trigger]
                    kinds@.contains(k) <==> kinds_named(ws.take(i + 1)).contains(k) by {
                    assert(kind_named(ws[i as int]) == Some(kind));
                    assert(kinds@.contains(k) <==> before.contains(k) || k == kind);
                    lemma_one_more_word(ws, i as int, k);
                }
            },
            None => {
                assert(first_unsupported(ws, i as int));
                return Err(ThemeError::UnsupportedFailKind(token));
            },
        }
        assert(kinds@ =~= kinds_named(ws.take(i + 1)));
        i = i + 1;
    }
    assert(ws.take(ws.len() as int) =~= ws);
    Ok(kinds)
}

/// What one more word adds.
proof fn lemma_one_more_word(ws: Seq<Seq<char>>, i: int, k: FailKind)
    requires
        0 <= i < ws.len(),
    ensures
        kinds_named(ws.take(i + 1)).contains(k) <==> kinds_named(ws.take(i)).contains(k)
            || kind_named(ws[i]) == Some(k),
{
    let a = ws.take(i);
    let b = ws.take(i + 1);
    assert(b[i] == ws[i]);
    if kinds_named(a).contains(k) {
        let j = choose|j: int| 0 <= j < a.len() && kind_named(#[trigger] a[j]) == Some(k);
        assert(kind_named(b[j]) == Some(k));
    }
    if kinds_named(b).contains(k) {
        let j = choose|j: int| 0 <= j < b.len() && kind_named(#[trigger] b[j]) == Some(k);
        if j < i {
            assert(kind_named(a[j]) == Some(k));
        }
    }
}

/// A summary violates a kind of failure.
pub open spec fn violates(s: SummaryReport, kind: FailKind) -> bool {
    match kind {
        FailKind::Uncovered => s.total_missing_non_syntax > 0 || s.total_syntax_uncovered > 0,
        FailKind::Unknown => s.total_unknown_non_syntax > 0,
        FailKind::Deprecated => s.total_deprecated_non_syntax > 0,
    }
}

/// Whether a summary violates one of the kinds.
pub fn has_policy_violations(summary: &SummaryReport, fail_kinds: &FailKinds) -> (r: bool)
    ensures
        r == exists|kind: FailKind|
            #[trigger] fail_kinds@.contains(kind) && violates(*summary, kind),
        r == ({
            ||| fail_kinds@.contains(FailKind::Uncovered) && (summary.total_missing_non_syntax > 0
                || summary.total_syntax_uncovered > 0)
            ||| fail_kinds@.contains(FailKind::Unknown) && summary.total_unknown_non_syntax > 0
            ||| fail_kinds@.contains(FailKind::Deprecated) && summary.total_deprecated_non_syntax
                > 0
        }),
{
    let uncovered = fail_kinds.contains(&FailKind::Uncovered) && (summary.total_missing_non_syntax
        > 0 || summary.total_syntax_uncovered > 0);
    let unknown = fail_kinds.contains(&FailKind::Unknown) && summary.total_unknown_non_syntax > 0;
    let deprecated = fail_kinds.contains(&FailKind::Deprecated)
        && summary.total_deprecated_non_syntax > 0;
    let r = uncovered || unknown || deprecated;
    proof {
        if exists|kind: FailKind|
            #[trigger] fail_kinds@.contains(kind) && violates(*summary, kind) {
            let kind = choose|kind: FailKind|
                #[trigger] fail_kinds@.contains(kind) && violates(*summary, kind);
            match kind {
                FailKind::Uncovered => {},
                FailKind::Unknown => {},
                FailKind::Deprecated => {},
            }
        }
    }
    r
}

/// A theme has a finding that a kind of failure stands for.
pub open spec fn theme_violates(theme: ThemeReport, kind: FailKind) -> bool {
    match kind {
        FailKind::Uncovered => theme.missing_non_syntax@.len() > 0
            || theme.syntax_uncovered@.len() > 0,
        FailKind::Unknown => theme.unknown_non_syntax@.len() > 0,
        FailKind::Deprecated => theme.deprecated_non_syntax@.len() > 0,
    }
}

/// A summary whose totals are those of its files violates a kind exactly where one of its
/// themes does. A capture that an ancestor covers is never a violation.
pub proof fn summary_violates_iff_some_theme_does(s: SummaryReport, kind: FailKind)
    requires
        totals_match(s),
    ensures
        violates(s, kind) <==> exists|i: int, j: int|
            0 <= i < s.files@.len() && 0 <= j < s.files@[i].themes@.len() && theme_violates(
                #[trigger] s.files@[i].themes@[j],
                kind,
            ),
{
    let files = s.files@;
    total_is_zero_iff_no_theme_has_the_finding(files, Finding::Missing);
    total_is_zero_iff_no_theme_has_the_finding(files, Finding::Unknown);
    total_is_zero_iff_no_theme_has_the_finding(files, Finding::Deprecated);
    total_is_zero_iff_no_theme_has_the_finding(files, Finding::Uncovered);
    if exists|i: int, j: int|
        0 <= i < files.len() && 0 <= j < files[i].themes@.len() && theme_violates(
            #[trigger] files[i].themes@[j],
            kind,
        ) {
        let (i, j) = choose|i: int, j: int|
            0 <= i < files.len() && 0 <= j < files[i].themes@.len() && theme_violates(
                #[trigger] files[i].themes@[j],
                kind,
            );
        let theme = files[i].themes@[j];
        assert(findings(theme, Finding::Missing) >= 0);
        assert(findings(theme, Finding::Unknown) >= 0);
        assert(findings(theme, Finding::Deprecated) >= 0);
        assert(findings(theme, Finding::Uncovered) >= 0);
    }
    if violates(s, kind) {
        let what = match kind {
            FailKind::Unknown => Finding::Unknown,
            FailKind::Deprecated => Finding::Deprecated,
            FailKind::Uncovered => if s.total_missing_non_syntax > 0 {
                Finding::Missing
            } else {
                Finding::Uncovered
            },
        };
        assert(findings_in_files(files, what) > 0);
        let (i, j) = choose|i: int, j: int|
            0 <= i < files.len() && 0 <= j < files[i].themes@.len() && findings(
                #[trigger] files[i].themes@[j],
                what,
            ) != 0;
        assert(theme_violates(files[i].themes@[j], kind));
    }
}

/// The exit code of a check that was carried out: 1 where it is strict and a kind of failure
/// is violated, and 0 otherwise.
pub fn exit_code(strict: bool, summary: &SummaryReport, fail_kinds: &FailKinds) -> (r: i32)
    ensures
        r == (if strict && exists|kind: FailKind|
            #[trigger] fail_kinds@.contains(kind) && violates(*summary, kind) {
            1i32
        } else {
            0i32
        }),
        r == 0 || r == 1,
        r == 1 <==> strict && ({
            ||| fail_kinds@.contains(FailKind::Uncovered) && (summary.total_missing_non_syntax > 0
                || summary.total_syntax_uncovered > 0)
            ||| fail_kinds@.contains(FailKind::Unknown) && summary.total_unknown_non_syntax > 0
            ||| fail_kinds@.contains(FailKind::Deprecated) && summary.total_deprecated_non_syntax
                > 0
        }),
{
    if strict && has_policy_violations(summary, fail_kinds) {
        1
    } else {
        0
    }
}

/// The exit code of a check that could not be carried out.
pub const RUNTIME_ERROR_CODE: i32 = 2;

/// What a check comes to, once its kinds of failure have been read and its files checked: the first
/// error, of the kinds before the files, or else the summary and the exit code.
pub fn check_outcome(
    strict: bool,
    fail_kinds: Result<FailKinds, ThemeError>,
    reports: Result<Vec<FileReport>, ThemeError>,
) -> (r: Result<(SummaryReport, i32), ThemeError>)
    requires
        reports matches Ok(files) ==> totals_fit(files@),
    ensures
        match (fail_kinds, reports) {
            (Err(e), _) => r == Err::<(SummaryReport, i32), _>(e),
            (Ok(_), Err(e)) => r == Err::<(SummaryReport, i32), _>(e),
            (Ok(kinds), Ok(files)) => {
                &&& r matches Ok((summary, code))
                &&& summary.files == files
                &&& totals_match(summary)
                &&& code == (if strict && exists|kind: FailKind|
                    #[trigger] kinds@.contains(kind) && violates(summary, kind) {
                    1i32
                } else {
                    0i32
                })
                &&& code == 0 || code == 1
                &&& code == 1 <==> strict && ({
                    ||| kinds@.contains(FailKind::Uncovered) && (summary.total_missing_non_syntax
                        > 0 || summary.total_syntax_uncovered > 0)
                    ||| kinds@.contains(FailKind::Unknown) && summary.total_unknown_non_syntax > 0
                    ||| kinds@.contains(FailKind::Deprecated)
                        && summary.total_deprecated_non_syntax > 0
                })
            },
        },
{
    let kinds = match fail_kinds {
        Ok(kinds) => kinds,
        Err(e) => {
            return Err(e);
        },
    };
    let summary = match reports {
        Ok(files) => summarize(files),
        Err(e) => {
            return Err(e);
        },
    };
    let code = exit_code(strict, &summary, &kinds);
    Ok((summary, code))
}

/// The exit code of a run: that of the check, or the one of a check that could not be carried out,
/// whichever step failed.
pub fn run_code<E>(outcome: &Result<i32, E>) -> (r: i32)
    ensures
        r == (match *outcome {
            Ok(code) => code,
            Err(_) => RUNTIME_ERROR_CODE,
        }),
        *outcome is Err ==> r == 2,
{
    match outcome {
        Ok(code) => *code,
        Err(_) => RUNTIME_ERROR_CODE,
    }
}

} // verus!
