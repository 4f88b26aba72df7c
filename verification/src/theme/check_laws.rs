//! What a check finds, said of the theme file itself, and what comes of it.
use crate::json::{lemma_model_of_parts, lenient_json, member_named, Json, JsonModel};
use crate::key_set::ascending;
use crate::text::{ascii_lowercase, decimal, pieces, text_lt, texts, trim};
use crate::theme::analyze::{
    ancestor_covered, can_be_checked, covered_captures, first_without_style, has_member,
    is_family_outcome, is_file_outcome, is_theme_report, name_of_theme, present_keys, shown_text,
    style_of_theme, styled_captures, themes_of, DeprecatedMode, FileReport, ThemeFile, ThemeReport,
};
use crate::theme::coverage::{
    closest_ancestor, closest_ancestor_is_unique, has_ancestor, is_ancestor,
};
use crate::theme::errors::ThemeError;
use crate::theme::files::ThemePath;
use crate::theme::keys::KeySets;
use crate::theme::policy::{
    first_unsupported, is_unsupported, kind_named, kinds_named,
    summary_violates_iff_some_theme_does, theme_violates, violates, words, FailKind,
};
use crate::theme::report_laws::held;
use crate::theme::summary::{
    findings_in_files, findings_in_themes, totals_match, Finding, SummaryReport,
};
use vstd::prelude::*;
use vstd::string::*;

verus! {

// ---------------------------------------------------------------------------------------
// JSON
// ---------------------------------------------------------------------------------------

/// Member `i` is the first of that name.
pub open spec fn is_first_member(
    members: Seq<(Seq<char>, JsonModel)>,
    key: Seq<char>,
    i: int,
) -> bool {
    &&& 0 <= i < members.len()
    &&& members[i].0 == key
    &&& forall|j: int| 0 <= j < i ==> (#[trigger] members[j]).0 != key
}

proof fn lemma_member(members: Seq<(Seq<char>, JsonModel)>, key: Seq<char>)
    ensures
        forall|i: int| #[trigger]
            is_first_member(members, key, i) ==> member_named(members, key) == Some(members[i].1),
        member_named(members, key) is Some ==> exists|i: int| is_first_member(members, key, i),
    decreases members.len(),
{
    if members.len() > 0 {
        let rest = members.drop_first();
        lemma_member(rest, key);
        if members[0].0 == key {
            assert(is_first_member(members, key, 0));
            assert forall|i: int| #[trigger] is_first_member(members, key, i) implies member_named(
                members,
                key,
            ) == Some(members[i].1) by {
                if i > 0 {
                    assert(members[0].0 != key);
                }
            }
        } else {
            assert forall|i: int| #[trigger] is_first_member(members, key, i) implies member_named(
                members,
                key,
            ) == Some(members[i].1) by {
                assert(i > 0);
                assert forall|j: int| 0 <= j < i - 1 implies (#[trigger] rest[j]).0 != key by {
                    assert(members[j + 1].0 != key);
                }
                assert(rest[i - 1] == members[i]);
                assert(is_first_member(rest, key, i - 1));
            }
            if member_named(members, key) is Some {
                let i = choose|i: int| is_first_member(rest, key, i);
                assert forall|j: int| 0 <= j < i + 1 implies (#[trigger] members[j]).0 != key by {
                    if j > 0 {
                        assert(rest[j - 1] == members[j]);
                    }
                }
                assert(is_first_member(members, key, i + 1));
            }
        }
    }
}

/// A member of an object is found by its name: the value of the first member of that name, and
/// nothing where there is none. What is no object has no members.
pub proof fn members_are_found_by_name(value: JsonModel, key: Seq<char>, found: JsonModel)
    ensures
        value.get(key) == Some(found) <==> (value matches JsonModel::Object(members) && exists|
            i: int,
        | #[trigger] is_first_member(members, key, i) && members[i].1 == found),
        value matches JsonModel::Object(members) ==> (value.get(key) is None <==> forall|i: int|
            0 <= i < members.len() ==> (#[trigger] members[i]).0 != key),
{
    if let JsonModel::Object(members) = value {
        lemma_member(members, key);
        if value.get(key) is Some {
            let i = choose|i: int| is_first_member(members, key, i);
            assert(members[i].0 == key);
        } else if exists|i: int| 0 <= i < members.len() && (#[trigger] members[i]).0 == key {
            let n = choose|i: int| 0 <= i < members.len() && (#[trigger] members[i]).0 == key;
            let i = lemma_first_member(members, key, n);
            assert(is_first_member(members, key, i));
        }
    }
}

proof fn lemma_first_member(members: Seq<(Seq<char>, JsonModel)>, key: Seq<char>, n: int) -> (i:
    int)
    requires
        0 <= n < members.len(),
        members[n].0 == key,
    ensures
        is_first_member(members, key, i),
    decreases n,
{
    if exists|j: int| 0 <= j < n && (#[trigger] members[j]).0 == key {
        let j = choose|j: int| 0 <= j < n && (#[trigger] members[j]).0 == key;
        lemma_first_member(members, key, j)
    } else {
        n
    }
}

// ---------------------------------------------------------------------------------------
// One theme
// ---------------------------------------------------------------------------------------

/// The key is a colour key of the style: a member of it other than the three that hold no colour.
pub open spec fn is_colour_key(style: Seq<(Seq<char>, JsonModel)>, k: Seq<char>) -> bool {
    &&& k != "accents"@ && k != "players"@ && k != "syntax"@
    &&& exists|i: int| 0 <= i < style.len() && (#[trigger] style[i]).0 == k
}

/// Member `j` of the object that member `i` of the style holds under `syntax` is the capture.
pub open spec fn styles_at(
    style: Seq<(Seq<char>, JsonModel)>,
    c: Seq<char>,
    i: int,
    j: int,
) -> bool {
    &&& 0 <= i < style.len()
    &&& style[i].0 == "syntax"@
    &&& style[i].1 matches JsonModel::Object(members)
    &&& 0 <= j < members.len()
    &&& members[j].0 == c
}

/// The style has a style for the capture itself.
pub open spec fn styles(style: Seq<(Seq<char>, JsonModel)>, c: Seq<char>) -> bool {
    exists|i: int, j: int| styles_at(style, c, i, j)
}

/// What stands before one of the dots of the capture is `a`.
pub open spec fn leads_to(a: Seq<char>, c: Seq<char>) -> bool {
    exists|rest: Seq<char>| c == #[trigger] (a.push('.') + rest)
}

/// The style has no style for the capture, but one for `a`, which stands before one of its dots,
/// and none for what stands before a later dot.
pub open spec fn covers(style: Seq<(Seq<char>, JsonModel)>, a: Seq<char>, c: Seq<char>) -> bool {
    &&& leads_to(a, c)
    &&& styles(style, a)
    &&& forall|b: Seq<char>| #[trigger] leads_to(b, c) && styles(style, b) ==> b.len() <= a.len()
}

/// What the report says of coverage `m`.
pub open spec fn reports_coverage(r: ThemeReport, m: int, c: Seq<char>, a: Seq<char>) -> bool {
    &&& 0 <= m < r.syntax_covered_by_ancestor@.len()
    &&& r.syntax_covered_by_ancestor@[m].capture@ == c
    &&& r.syntax_covered_by_ancestor@[m].covered_by@ == a
}

proof fn lemma_ancestor(a: Seq<char>, c: Seq<char>)
    ensures
        is_ancestor(a, c) <==> leads_to(a, c),
{
    if is_ancestor(a, c) {
        let rest = c.skip(a.len() as int + 1);
        assert(c =~= a.push('.') + rest);
    }
    if leads_to(a, c) {
        let rest = choose|rest: Seq<char>| c == #[trigger] (a.push('.') + rest);
        assert(c.take(a.len() as int) =~= a);
    }
}

proof fn lemma_styled(style: Seq<(Seq<char>, JsonModel)>, c: Seq<char>)
    ensures
        styled_captures(style).contains(c) <==> styles(style, c),
        present_keys(style).contains(c) <==> is_colour_key(style, c),
{
    if styled_captures(style).contains(c) {
        let i = choose|i: int|
            0 <= i < style.len() && (#[trigger] style[i]).0 == "syntax"@
                && has_member(style[i].1, c);
        let members = style[i].1->Object_0;
        let j = choose|j: int| 0 <= j < members.len() && (#[trigger] members[j]).0 == c;
        assert(styles_at(style, c, i, j));
    }
    if styles(style, c) {
        let (i, j) = choose|i: int, j: int| styles_at(style, c, i, j);
        let members = style[i].1->Object_0;
        assert(members[j].0 == c);
        assert(has_member(style[i].1, c));
    }
}

proof fn lemma_covered(style: Seq<(Seq<char>, JsonModel)>, a: Seq<char>, c: Seq<char>)
    ensures
        closest_ancestor(a, c, styled_captures(style)) <==> covers(style, a, c),
{
    let styled = styled_captures(style);
    lemma_ancestor(a, c);
    lemma_styled(style, a);
    if closest_ancestor(a, c, styled) {
        assert forall|b: Seq<char>| #[trigger] leads_to(b, c) && styles(style, b) implies b.len()
            <= a.len() by {
            lemma_ancestor(b, c);
            lemma_styled(style, b);
        }
    }
    if covers(style, a, c) {
        assert forall|b: Seq<char>| #[trigger] is_ancestor(b, c) && styled.contains(b) implies b.len()
            <= a.len() by {
            lemma_ancestor(b, c);
            lemma_styled(style, b);
        }
    }
}

proof fn lemma_has_ancestor(style: Seq<(Seq<char>, JsonModel)>, c: Seq<char>)
    ensures
        has_ancestor(c, styled_captures(style)) <==> exists|a: Seq<char>| #[trigger]
            leads_to(a, c) && styles(style, a),
{
    let styled = styled_captures(style);
    if has_ancestor(c, styled) {
        let a = choose|a: Seq<char>| #[trigger] is_ancestor(a, c) && styled.contains(a);
        lemma_ancestor(a, c);
        lemma_styled(style, a);
    }
    if exists|a: Seq<char>| #[trigger] leads_to(a, c) && styles(style, a) {
        let a = choose|a: Seq<char>| #[trigger] leads_to(a, c) && styles(style, a);
        lemma_ancestor(a, c);
        lemma_styled(style, a);
        assert(is_ancestor(a, c) && styled.contains(a));
    }
}

/// The closest ancestor of a capture among keys is one of them, stands before one of the dots of the
/// capture, and is the longest that does. There is one exactly where some key stands before a dot.
pub proof fn the_closest_ancestor_is_the_longest(
    a: Seq<char>,
    c: Seq<char>,
    keys: Set<Seq<char>>,
)
    ensures
        closest_ancestor(a, c, keys) <==> keys.contains(a) && leads_to(a, c) && forall|b: Seq<char>|
            #[trigger] leads_to(b, c) && keys.contains(b) ==> b.len() <= a.len(),
        has_ancestor(c, keys) <==> exists|b: Seq<char>| #[trigger]
            leads_to(b, c) && keys.contains(b),
{
    lemma_ancestor(a, c);
    assert forall|b: Seq<char>| is_ancestor(b, c) == #[trigger] leads_to(b, c) by {
        lemma_ancestor(b, c);
    }
    assert forall|b: Seq<char>| #[trigger] is_ancestor(b, c) == leads_to(b, c) by {
        lemma_ancestor(b, c);
    }
}

/// The report on a theme lists a key as missing exactly where it is expected and the style does
/// not have it; as unknown exactly where the style has it and it is neither expected nor
/// deprecated; and as deprecated exactly where the style has it, it is deprecated, and such keys
/// are asked for.
pub proof fn reports_list_the_keys_of_the_style(
    r: ThemeReport,
    name: Seq<char>,
    style: Seq<(Seq<char>, JsonModel)>,
    sets: KeySets,
    expected: Set<Seq<char>>,
    mode: DeprecatedMode,
    k: Seq<char>,
)
    requires
        is_theme_report(r, name, style, sets, expected, mode),
    ensures
        r.theme_name@ == name,
        texts(r.missing_non_syntax@).contains(k) <==> sets.expected_non_syntax@.contains(k)
            && !is_colour_key(style, k),
        texts(r.unknown_non_syntax@).contains(k) <==> is_colour_key(style, k)
            && !sets.expected_non_syntax@.contains(k) && !sets.deprecated_non_syntax@.contains(k),
        texts(r.deprecated_non_syntax@).contains(k) <==> (mode is Include && is_colour_key(style, k)
            && sets.deprecated_non_syntax@.contains(k)),
{
    lemma_styled(style, k);
    assert(texts(r.missing_non_syntax@).to_set().contains(k) <==> texts(
        r.missing_non_syntax@,
    ).contains(k));
    assert(texts(r.unknown_non_syntax@).to_set().contains(k) <==> texts(
        r.unknown_non_syntax@,
    ).contains(k));
    assert(texts(r.deprecated_non_syntax@).to_set().contains(k) <==> texts(
        r.deprecated_non_syntax@,
    ).contains(k));
}

/// The report on a theme lists an expected capture that the style has no style for: as covered
/// where it has one for an ancestor, and then by the longest such; and else as uncovered.
pub proof fn reports_list_the_captures_of_the_style(
    r: ThemeReport,
    name: Seq<char>,
    style: Seq<(Seq<char>, JsonModel)>,
    sets: KeySets,
    expected: Set<Seq<char>>,
    mode: DeprecatedMode,
    c: Seq<char>,
    a: Seq<char>,
)
    requires
        is_theme_report(r, name, style, sets, expected, mode),
    ensures
        texts(r.syntax_uncovered@).contains(c) <==> expected.contains(c) && !styles(style, c)
            && !(exists|b: Seq<char>| #[trigger] leads_to(b, c) && styles(style, b)),
        (exists|m: int| reports_coverage(r, m, c, a)) <==> expected.contains(c) && !styles(style, c)
            && covers(style, a, c),
{
    let styled = styled_captures(style);
    let captures = covered_captures(r.syntax_covered_by_ancestor@);
    lemma_styled(style, c);
    lemma_has_ancestor(style, c);
    lemma_covered(style, a, c);
    assert(texts(r.syntax_uncovered@).to_set().contains(c) <==> texts(
        r.syntax_uncovered@,
    ).contains(c));
    if exists|m: int| reports_coverage(r, m, c, a) {
        let m = choose|m: int| reports_coverage(r, m, c, a);
        assert(captures[m] == c);
        assert(captures.to_set().contains(c));
        assert(closest_ancestor(
            r.syntax_covered_by_ancestor@[m].covered_by@,
            r.syntax_covered_by_ancestor@[m].capture@,
            styled,
        ));
    }
    if expected.contains(c) && !styles(style, c) && covers(style, a, c) {
        assert(leads_to(a, c) && styles(style, a));
        assert(ancestor_covered(expected, styled).contains(c));
        assert(captures.to_set().contains(c));
        let m = choose|m: int| 0 <= m < captures.len() && captures[m] == c;
        let b = r.syntax_covered_by_ancestor@[m].covered_by@;
        assert(closest_ancestor(b, r.syntax_covered_by_ancestor@[m].capture@, styled));
        closest_ancestor_is_unique(a, b, c, styled);
        assert(reports_coverage(r, m, c, a));
    }
}

/// The report on a theme lists what it found of each kind in ascending order, each once.
pub proof fn reports_list_in_order(
    r: ThemeReport,
    name: Seq<char>,
    style: Seq<(Seq<char>, JsonModel)>,
    sets: KeySets,
    expected: Set<Seq<char>>,
    mode: DeprecatedMode,
    i: int,
    j: int,
)
    requires
        is_theme_report(r, name, style, sets, expected, mode),
        0 <= i < j,
    ensures
        j < r.missing_non_syntax@.len() ==> text_lt(
            r.missing_non_syntax@[i]@,
            r.missing_non_syntax@[j]@,
        ),
        j < r.unknown_non_syntax@.len() ==> text_lt(
            r.unknown_non_syntax@[i]@,
            r.unknown_non_syntax@[j]@,
        ),
        j < r.deprecated_non_syntax@.len() ==> text_lt(
            r.deprecated_non_syntax@[i]@,
            r.deprecated_non_syntax@[j]@,
        ),
        j < r.syntax_uncovered@.len() ==> text_lt(
            r.syntax_uncovered@[i]@,
            r.syntax_uncovered@[j]@,
        ),
        j < r.syntax_covered_by_ancestor@.len() ==> text_lt(
            r.syntax_covered_by_ancestor@[i].capture@,
            r.syntax_covered_by_ancestor@[j].capture@,
        ),
{
    let a = texts(r.missing_non_syntax@);
    let b = texts(r.unknown_non_syntax@);
    let c = texts(r.deprecated_non_syntax@);
    let d = texts(r.syntax_uncovered@);
    let e = covered_captures(r.syntax_covered_by_ancestor@);
    assert(ascending(a) && ascending(b) && ascending(c) && ascending(d) && ascending(e));
    assert(j < a.len() ==> text_lt(a[i], a[j]));
    assert(j < b.len() ==> text_lt(b[i], b[j]));
    assert(j < c.len() ==> text_lt(c[i], c[j]));
    assert(j < d.len() ==> text_lt(d[i], d[j]));
    assert(j < e.len() ==> text_lt(e[i], e[j]));
}

// ---------------------------------------------------------------------------------------
// A family of themes
// ---------------------------------------------------------------------------------------

/// A theme goes by the text that it has under `name`, and where it has none there, by its own place
/// among the themes of the family.
pub proof fn themes_go_by_their_names(theme: JsonModel, i: int, name: Seq<char>)
    ensures
        theme.get("name"@) == Some(JsonModel::Text(name)) ==> name_of_theme(theme, i) == name,
        !(theme.get("name"@) matches Some(JsonModel::Text(_))) ==> name_of_theme(theme, i)
            == "theme["@ + decimal(i as nat) + "]"@,
{
}

/// The theme has an object as its style.
pub open spec fn has_style_object(theme: JsonModel) -> bool {
    theme.get("style"@) matches Some(JsonModel::Object(_))
}

/// A family is reported on where it has an array of themes, each with an object as its style: under
/// the path that it is shown by, with a report on each of its themes in its own place, on that
/// theme's own name and style. Without the array, and for the first theme without such a style,
/// there is an error that names the file or the theme.
pub proof fn families_are_reported_theme_by_theme(
    r: Result<FileReport, ThemeError>,
    family: JsonModel,
    path: Seq<char>,
    display_path: Seq<char>,
    sets: KeySets,
    expected: Set<Seq<char>>,
    mode: DeprecatedMode,
)
    requires
        is_family_outcome(r, family, path, display_path, sets, expected, mode),
    ensures
        !(family.get("themes"@) matches Some(JsonModel::Array(_))) ==> (r matches Err(
            ThemeError::ThemesMissing(p),
        ) && p@ == path),
        family.get("themes"@) matches Some(JsonModel::Array(themes)) ==> {
            &&& r is Ok <==> forall|i: int|
                0 <= i < themes.len() ==> has_style_object(#[trigger] themes[i])
            &&& r matches Ok(report) ==> {
                &&& report.path@ == display_path
                &&& report.themes@.len() == themes.len()
                &&& forall|i: int|
                    0 <= i < themes.len() ==> ((#[trigger] themes[i]).get("style"@) matches Some(
                        JsonModel::Object(style),
                    ) && is_theme_report(
                        report.themes@[i],
                        name_of_theme(themes[i], i),
                        style,
                        sets,
                        expected,
                        mode,
                    ))
            }
            &&& r matches Err(e) ==> exists|i: int|
                {
                    &&& 0 <= i < themes.len()
                    &&& !has_style_object(#[trigger] themes[i])
                    &&& forall|j: int| 0 <= j < i ==> has_style_object(#[trigger] themes[j])
                    &&& e matches ThemeError::StyleMissing(n)
                    &&& n@ == name_of_theme(themes[i], i)
                }
        },
{
    if let Some(JsonModel::Array(themes)) = family.get("themes"@) {
        assert(themes_of(family) == Some(themes));
        assert forall|i: int| 0 <= i < themes.len() implies (style_of_theme(#[trigger] themes[i])
            is Some <==> has_style_object(themes[i])) by {}
        match r {
            Ok(report) => {
                assert forall|i: int| 0 <= i < themes.len() implies has_style_object(
                    #[trigger] themes[i],
                ) by {
                    assert(style_of_theme(themes[i]) is Some);
                }
            },
            Err(e) => {
                let i = choose|i: int| #[trigger]
                    first_without_style(themes, i) && (e matches ThemeError::StyleMissing(n) && n@
                        == name_of_theme(themes[i], i));
                assert(style_of_theme(themes[i]) is None);
                assert forall|j: int| 0 <= j < i implies has_style_object(
                    #[trigger] themes[j],
                ) by {
                    assert(style_of_theme(themes[j]) is Some);
                }
                assert(!has_style_object(themes[i]));
            },
        }
    }
}

/// A file that could not be read is an error with its path and the reason, and so is one whose text
/// is no JSON. Any other is checked as the family that its text holds.
pub proof fn files_are_checked_as_the_family_they_hold(
    r: Result<FileReport, ThemeError>,
    root: ThemePath,
    file: ThemeFile,
    sets: KeySets,
    expected: Set<Seq<char>>,
    mode: DeprecatedMode,
)
    requires
        is_file_outcome(r, root, file, sets, expected, mode),
    ensures
        file.content matches Err(cause) ==> (r matches Err(ThemeError::ThemeUnreadable(p, why))
            && p@ == file.path.text@ && why == cause),
        file.content matches Ok(content) ==> match lenient_json(content@) {
            Err(cause) => r matches Err(ThemeError::Unparsable(p, why)) && p@ == file.path.text@
                && why@ == cause,
            Ok(family) => is_family_outcome(
                r,
                family,
                file.path.text@,
                shown_text(root, file),
                sets,
                expected,
                mode,
            ),
        },
{
}

// ---------------------------------------------------------------------------------------
// Totals and failures
// ---------------------------------------------------------------------------------------

/// A theme adds to each total what its report holds of that kind, and two lists of themes, or of
/// files, add up.
pub proof fn findings_add_up(
    theme: ThemeReport,
    file: FileReport,
    a: Seq<ThemeReport>,
    b: Seq<ThemeReport>,
    c: Seq<FileReport>,
    d: Seq<FileReport>,
    what: Finding,
)
    ensures
        findings_in_themes(seq![theme], what) == held(theme, what),
        findings_in_files(seq![file], what) == findings_in_themes(file.themes@, what),
        findings_in_themes(a + b, what) == findings_in_themes(a, what) + findings_in_themes(b, what),
        findings_in_files(c + d, what) == findings_in_files(c, what) + findings_in_files(d, what),
{
    reveal_with_fuel(findings_in_themes, 2);
    reveal_with_fuel(findings_in_files, 2);
    assert(seq![theme].drop_last() =~= Seq::empty());
    assert(seq![file].drop_last() =~= Seq::empty());
    lemma_themes_add_up(a, b, what);
    lemma_files_add_up(c, d, what);
}

proof fn lemma_themes_add_up(a: Seq<ThemeReport>, b: Seq<ThemeReport>, what: Finding)
    ensures
        findings_in_themes(a + b, what) == findings_in_themes(a, what) + findings_in_themes(b, what),
    decreases b.len(),
{
    if b.len() > 0 {
        lemma_themes_add_up(a, b.drop_last(), what);
        assert((a + b).drop_last() =~= a + b.drop_last());
    } else {
        assert(a + b =~= a);
    }
}

proof fn lemma_files_add_up(a: Seq<FileReport>, b: Seq<FileReport>, what: Finding)
    ensures
        findings_in_files(a + b, what) == findings_in_files(a, what) + findings_in_files(b, what),
    decreases b.len(),
{
    if b.len() > 0 {
        lemma_files_add_up(a, b.drop_last(), what);
        assert((a + b).drop_last() =~= a + b.drop_last());
    } else {
        assert(a + b =~= a);
    }
}

/// Each total is the one of its own kind.
pub proof fn totals_are_of_their_kind(s: SummaryReport)
    requires
        totals_match(s),
    ensures
        s.total_missing_non_syntax == findings_in_files(s.files@, Finding::Missing),
        s.total_unknown_non_syntax == findings_in_files(s.files@, Finding::Unknown),
        s.total_deprecated_non_syntax == findings_in_files(s.files@, Finding::Deprecated),
        s.total_syntax_uncovered == findings_in_files(s.files@, Finding::Uncovered),
        s.total_syntax_covered_by_ancestor == findings_in_files(
            s.files@,
            Finding::CoveredByAncestor,
        ),
{
}

/// The themes of the files hold a finding that a strict check with this kind of failure fails on:
/// a missing key or an uncovered capture, an unknown key, or a deprecated one.
pub open spec fn fails_on(files: Seq<FileReport>, kind: FailKind) -> bool {
    exists|i: int, j: int|
        0 <= i < files.len() && 0 <= j < files[i].themes@.len() && ({
            let t = #[trigger] files[i].themes@[j];
            match kind {
                FailKind::Uncovered => t.missing_non_syntax@.len() > 0 || t.syntax_uncovered@.len()
                    > 0,
                FailKind::Unknown => t.unknown_non_syntax@.len() > 0,
                FailKind::Deprecated => t.deprecated_non_syntax@.len() > 0,
            }
        })
}

/// A kind of failure is violated exactly where some theme has such a finding, and exactly where
/// such a total is not zero.
pub proof fn failures_are_those_of_a_theme(s: SummaryReport, kind: FailKind)
    requires
        totals_match(s),
    ensures
        violates(s, kind) <==> fails_on(s.files@, kind),
        violates(s, FailKind::Uncovered) <==> s.total_missing_non_syntax > 0
            || s.total_syntax_uncovered > 0,
        violates(s, FailKind::Unknown) <==> s.total_unknown_non_syntax > 0,
        violates(s, FailKind::Deprecated) <==> s.total_deprecated_non_syntax > 0,
{
    summary_violates_iff_some_theme_does(s, kind);
    let files = s.files@;
    if violates(s, kind) {
        let (i, j) = choose|i: int, j: int|
            0 <= i < files.len() && 0 <= j < files[i].themes@.len() && theme_violates(
                #[trigger] files[i].themes@[j],
                kind,
            );
        let t = files[i].themes@[j];
        assert(fails_on(files, kind));
    }
    if fails_on(files, kind) {
        let (i, j) = choose|i: int, j: int|
            0 <= i < files.len() && 0 <= j < files[i].themes@.len() && ({
                let t = #[trigger] files[i].themes@[j];
                match kind {
                    FailKind::Uncovered => t.missing_non_syntax@.len() > 0
                        || t.syntax_uncovered@.len() > 0,
                    FailKind::Unknown => t.unknown_non_syntax@.len() > 0,
                    FailKind::Deprecated => t.deprecated_non_syntax@.len() > 0,
                }
            });
        assert(theme_violates(files[i].themes@[j], kind));
    }
}

/// The words of a list are what stands between its commas, each in its place, without the white
/// space around it and in lower case.
pub proof fn words_stand_between_commas(list: Seq<char>, i: int)
    requires
        0 <= i < pieces(list, ',').len(),
    ensures
        words(list).len() == pieces(list, ',').len(),
        words(list)[i] == ascii_lowercase(trim(pieces(list, ',')[i])),
{
}

/// A list names a kind of failure exactly where one of its words is the name of that kind. A word
/// is not supported exactly where it is neither empty nor one of the three names, and the one that
/// is reported is the first such.
pub proof fn kinds_are_named_by_words(ws: Seq<Seq<char>>, i: int)
    ensures
        kinds_named(ws).contains(FailKind::Uncovered) <==> ws.contains("uncovered"@),
        kinds_named(ws).contains(FailKind::Unknown) <==> ws.contains("unknown"@),
        kinds_named(ws).contains(FailKind::Deprecated) <==> ws.contains("deprecated"@),
        0 <= i < ws.len() ==> (is_unsupported(ws[i]) <==> ws[i].len() > 0 && ws[i] != "uncovered"@
            && ws[i] != "unknown"@ && ws[i] != "deprecated"@),
        first_unsupported(ws, i) ==> 0 <= i < ws.len() && is_unsupported(ws[i]) && forall|j: int|
            0 <= j < ws.len() && is_unsupported(#[trigger] ws[j]) ==> i <= j,
{
    reveal_strlit("uncovered");
    reveal_strlit("unknown");
    reveal_strlit("deprecated");
    assert("uncovered"@.len() == 9 && "unknown"@.len() == 7 && "deprecated"@.len() == 10);
    lemma_kind_named_by(ws, FailKind::Uncovered, "uncovered"@);
    lemma_kind_named_by(ws, FailKind::Unknown, "unknown"@);
    lemma_kind_named_by(ws, FailKind::Deprecated, "deprecated"@);
}

proof fn lemma_kind_named_by(ws: Seq<Seq<char>>, k: FailKind, name: Seq<char>)
    requires
        forall|w: Seq<char>| #[trigger] kind_named(w) == Some(k) <==> w == name,
    ensures
        kinds_named(ws).contains(k) <==> ws.contains(name),
{
    if kinds_named(ws).contains(k) {
        let j = choose|j: int| 0 <= j < ws.len() && kind_named(#[trigger] ws[j]) == Some(k);
        assert(ws[j] == name);
    }
    if ws.contains(name) {
        let j = choose|j: int| 0 <= j < ws.len() && ws[j] == name;
        assert(kind_named(ws[j]) == Some(k));
    }
}

/// What a document says is what it holds: the parts of an array, and the members of an object under
/// their names, each in its place.
pub proof fn documents_say_what_they_hold(j: Json, i: int)
    ensures
        match j {
            Json::Null => j.model() == JsonModel::Null,
            Json::Bool(b) => j.model() == JsonModel::Bool(b),
            Json::Number(s) => j.model() == JsonModel::Number(s@),
            Json::Text(s) => j.model() == JsonModel::Text(s@),
            Json::Array(v) => {
                &&& j.model() matches JsonModel::Array(items)
                &&& items.len() == v@.len()
                &&& 0 <= i < v@.len() ==> items[i] == v@[i].model()
            },
            Json::Object(v) => {
                &&& j.model() matches JsonModel::Object(members)
                &&& members.len() == v@.len()
                &&& 0 <= i < v@.len() ==> members[i].0 == v@[i].0@ && members[i].1
                    == v@[i].1.model()
            },
        },
{
    lemma_model_of_parts(j);
}

/// A file can be checked exactly where it was read, its text is JSON, that has an array of themes,
/// and each of them has an object as its style.
pub proof fn checkable_files_hold_themes_with_styles(file: ThemeFile)
    ensures
        can_be_checked(file) <==> (file.content matches Ok(content) && (lenient_json(
            content@,
        ) matches Ok(family) && (family.get("themes"@) matches Some(JsonModel::Array(themes))
            && forall|i: int| 0 <= i < themes.len() ==> has_style_object(#[trigger] themes[i])))),
{
    if let Ok(content) = file.content {
        if let Ok(family) = lenient_json(content@) {
            if let Some(JsonModel::Array(themes)) = family.get("themes"@) {
                assert(themes_of(family) == Some(themes));
                assert forall|i: int| 0 <= i < themes.len() implies (style_of_theme(
                    #[trigger] themes[i],
                ) is Some <==> has_style_object(themes[i])) by {}
                if can_be_checked(file) {
                    assert forall|i: int| 0 <= i < themes.len() implies has_style_object(
                        #[trigger] themes[i],
                    ) by {
                        assert(style_of_theme(themes[i]) is Some);
                    }
                }
                if forall|i: int| 0 <= i < themes.len() ==> has_style_object(#[trigger] themes[i]) {
                    assert forall|i: int| 0 <= i < themes.len() implies style_of_theme(
                        #[trigger] themes[i],
                    ) is Some by {
                        assert(has_style_object(themes[i]));
                    }
                }
            }
        }
    }
}

} // verus!
