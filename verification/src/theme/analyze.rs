//! The check of one theme family file.
use crate::json::{
    items_model, lemma_model_of_parts, lenient_json, members_model, parse_lenient,
    Json, JsonModel,
};
use crate::key_set::{ascending, lists, KeySet};
use crate::text::{decimal, decimal_text, same_text, text_order_is_strict_and_total, texts};
use crate::theme::coverage::{closest_ancestor, find_covering_ancestor, has_ancestor};
use crate::theme::errors::ThemeError;
use crate::theme::files::{is_below, leads, shown_parts, ThemePath};
use crate::theme::keys::KeySets;
use vstd::prelude::*;
use vstd::string::*;

verus! {

/// Whether deprecated keys are reported.
#[derive(Clone, Copy, Debug)]
pub enum DeprecatedMode {
    Include,
    Exclude,
}

/// A capture that only an ancestor of it has a style for.
#[derive(Debug)]
pub struct AncestorCoverage {
    pub capture: String,
    pub covered_by: String,
}

/// What the check of one theme found.
#[derive(Debug)]
pub struct ThemeReport {
    pub theme_name: String,
    pub missing_non_syntax: Vec<String>,
    pub unknown_non_syntax: Vec<String>,
    pub deprecated_non_syntax: Vec<String>,
    pub syntax_uncovered: Vec<String>,
    pub syntax_covered_by_ancestor: Vec<AncestorCoverage>,
    pub syntax_exact_count: usize,
}

/// What the check of one theme family file found.
#[derive(Debug)]
pub struct FileReport {
    pub path: String,
    pub themes: Vec<ThemeReport>,
}

/// The members of a style that are no colour keys.
pub open spec fn is_special(key: Seq<char>) -> bool {
    key == "accents"@ || key == "players"@ || key == "syntax"@
}

/// The colour keys of a style.
pub open spec fn present_keys(style: Seq<(Seq<char>, JsonModel)>) -> Set<Seq<char>> {
    Set::new(
        |k: Seq<char>|
            !is_special(k) && exists|i: int| 0 <= i < style.len() && (#[trigger] style[i]).0 == k,
    )
}

/// The captures that a style names: the members of its syntax object.
pub open spec fn styled_captures(style: Seq<(Seq<char>, JsonModel)>) -> Set<Seq<char>> {
    Set::new(
        |k: Seq<char>|
            exists|i: int|
                0 <= i < style.len() && (#[trigger] style[i]).0 == "syntax"@ && has_member(
                    style[i].1,
                    k,
                ),
    )
}

/// `value` is an object with a member named `k`.
pub open spec fn has_member(value: JsonModel, k: Seq<char>) -> bool {
    value matches JsonModel::Object(members) && exists|j: int|
        0 <= j < members.len() && (#[trigger] members[j]).0 == k
}

/// The captures of a list of coverages.
pub open spec fn covered_captures(v: Seq<AncestorCoverage>) -> Seq<Seq<char>> {
    v.map_values(|c: AncestorCoverage| c.capture@)
}

/// The expected captures that only an ancestor styles.
pub open spec fn ancestor_covered(
    expected: Set<Seq<char>>,
    styled: Set<Seq<char>>,
) -> Set<Seq<char>> {
    Set::new(
        |c: Seq<char>| expected.contains(c) && !styled.contains(c) && has_ancestor(c, styled),
    )
}

/// The expected captures that nothing styles.
pub open spec fn uncovered(expected: Set<Seq<char>>, styled: Set<Seq<char>>) -> Set<Seq<char>> {
    Set::new(
        |c: Seq<char>| expected.contains(c) && !styled.contains(c) && !has_ancestor(c, styled),
    )
}

/// `r` is what a check finds of a theme of this name and style.
pub open spec fn is_theme_report(
    r: ThemeReport,
    name: Seq<char>,
    style: Seq<(Seq<char>, JsonModel)>,
    sets: KeySets,
    expected: Set<Seq<char>>,
    mode: DeprecatedMode,
) -> bool {
    let present = present_keys(style);
    let styled = styled_captures(style);
    &&& r.theme_name@ == name
    &&& lists(texts(r.missing_non_syntax@), sets.expected_non_syntax@.difference(present))
    &&& lists(
        texts(r.unknown_non_syntax@),
        present.difference(sets.expected_non_syntax@).difference(sets.deprecated_non_syntax@),
    )
    &&& lists(
        texts(r.deprecated_non_syntax@),
        match mode {
            DeprecatedMode::Include => present.intersect(sets.deprecated_non_syntax@),
            DeprecatedMode::Exclude => Set::empty(),
        },
    )
    &&& lists(texts(r.syntax_uncovered@), uncovered(expected, styled))
    &&& lists(
        covered_captures(r.syntax_covered_by_ancestor@),
        ancestor_covered(expected, styled),
    )
    &&& forall|i: int|
        0 <= i < r.syntax_covered_by_ancestor@.len() ==> closest_ancestor(
            (#[trigger] r.syntax_covered_by_ancestor@[i]).covered_by@,
            r.syntax_covered_by_ancestor@[i].capture@,
            styled,
        )
    &&& r.syntax_exact_count == expected.intersect(styled).len()
}

/// Each expected capture is counted once: as styled, as covered by an ancestor, or as uncovered.
pub proof fn every_expected_capture_is_counted_once(
    r: ThemeReport,
    name: Seq<char>,
    style: Seq<(Seq<char>, JsonModel)>,
    sets: KeySets,
    expected: Set<Seq<char>>,
    mode: DeprecatedMode,
)
    requires
        is_theme_report(r, name, style, sets, expected, mode),
        expected.finite(),
    ensures
        r.syntax_exact_count + r.syntax_covered_by_ancestor@.len() + r.syntax_uncovered@.len()
            == expected.len(),
{
    let styled = styled_captures(style);
    let a = expected.intersect(styled);
    let b = ancestor_covered(expected, styled);
    let c = uncovered(expected, styled);
    lemma_listing_length(covered_captures(r.syntax_covered_by_ancestor@), b);
    lemma_listing_length(texts(r.syntax_uncovered@), c);
    vstd::set_lib::lemma_set_disjoint_lens(a, b);
    assert(a.union(b).disjoint(c));
    vstd::set_lib::lemma_set_disjoint_lens(a.union(b), c);
    assert(a.union(b).union(c) =~= expected);
}

/// Each colour key of a theme is expected, unknown or deprecated, and the report lists no key
/// under two headings.
pub proof fn every_present_key_is_accounted_for(
    r: ThemeReport,
    name: Seq<char>,
    style: Seq<(Seq<char>, JsonModel)>,
    sets: KeySets,
    expected: Set<Seq<char>>,
    mode: DeprecatedMode,
)
    requires
        is_theme_report(r, name, style, sets, expected, mode),
        sets.expected_non_syntax@.disjoint(sets.deprecated_non_syntax@),
    ensures
        present_keys(style) == present_keys(style).intersect(sets.expected_non_syntax@).union(
            texts(r.unknown_non_syntax@).to_set(),
        ).union(present_keys(style).intersect(sets.deprecated_non_syntax@)),
        texts(r.missing_non_syntax@).to_set().disjoint(texts(r.unknown_non_syntax@).to_set()),
        texts(r.missing_non_syntax@).to_set().disjoint(texts(r.deprecated_non_syntax@).to_set()),
        texts(r.unknown_non_syntax@).to_set().disjoint(texts(r.deprecated_non_syntax@).to_set()),
{
    assert(present_keys(style) =~= present_keys(style).intersect(
        sets.expected_non_syntax@,
    ).union(texts(r.unknown_non_syntax@).to_set()).union(
        present_keys(style).intersect(sets.deprecated_non_syntax@),
    ));
}

/// A listing is as long as the set that it lists.
proof fn lemma_listing_length(s: Seq<Seq<char>>, set: Set<Seq<char>>)
    requires
        lists(s, set),
    ensures
        set.finite(),
        set.len() == s.len(),
{
    text_order_is_strict_and_total();
    assert(s.no_duplicates()) by {
        assert forall|i: int, j: int| 0 <= i < s.len() && 0 <= j < s.len() && i != j implies s[i]
            != s[j] by {
            if i < j {
                assert(text_lt_at(s, i, j));
            } else {
                assert(text_lt_at(s, j, i));
            }
        }
    }
    s.unique_seq_to_set();
}

spec fn text_lt_at(s: Seq<Seq<char>>, i: int, j: int) -> bool {
    crate::text::text_lt(s[i], s[j])
}

// ---------------------------------------------------------------------------------------
// One theme
// ---------------------------------------------------------------------------------------

/// The colour keys of a style, and the captures that it names.
pub fn keys_of_style(style: &Vec<(String, Json)>) -> (r: (KeySet, KeySet))
    ensures
        r.0@ == present_keys(members_model(style@)),
        r.1@ == styled_captures(members_model(style@)),
{
    let ghost all = members_model(style@);
    let mut present = KeySet::new();
    let mut styled = KeySet::new();
    let mut i: usize = 0;
    assert(present@ =~= present_keys(all.take(0)));
    assert(styled@ =~= styled_captures(all.take(0)));
    while i < style.len()
        invariant
            i <= style@.len(),
            all == members_model(style@),
            present@ == present_keys(all.take(i as int)),
            styled@ == styled_captures(all.take(i as int)),
        decreases style@.len() - i,
    {
        let key = style[i].0.as_str();
        let ghost before = all.take(i as int);
        let ghost after = all.take(i + 1);
        let ghost p = present@;
        let ghost t = styled@;
        proof {
            lemma_one_more_member(all, i as int);
            assert(all[i as int].0 == key@);
            reveal_strlit("accents");
            reveal_strlit("players");
            reveal_strlit("syntax");
            assert("accents"@[0] == 'a');
            assert("players"@[0] == 'p');
            assert("syntax"@[0] == 's');
        }
        if same_text(key, "accents") || same_text(key, "players") {
            assert(styled@ =~= styled_captures(after));
        } else if same_text(key, "syntax") {
            match &style[i].1 {
                Json::Object(members) => {
                    add_member_names(&mut styled, members);
                    proof {
                        lemma_model_of_parts(style@[i as int].1);
                        assert(all[i as int].1 == JsonModel::Object(members_model(members@)));
                    }
                    assert(styled@ =~= styled_captures(after));
                },
                _ => {
                    assert(all[i as int].1 == style@[i as int].1.model());
                    assert(styled@ =~= styled_captures(after));
                },
            }
        } else {
            present.insert(style[i].0.clone());
            assert(styled@ =~= styled_captures(after));
        }
        assert(present@ =~= present_keys(after));
        i = i + 1;
    }
    assert(all.take(all.len() as int) =~= all);
    (present, styled)
}

/// What one more member adds to the keys of a style.
proof fn lemma_one_more_member(all: Seq<(Seq<char>, JsonModel)>, i: int)
    requires
        0 <= i < all.len(),
    ensures
        forall|k: Seq<char>|
            present_keys(all.take(i + 1)).contains(k) <==> present_keys(all.take(i)).contains(k)
                || (!is_special(k) && all[i].0 == k),
        forall|k: Seq<char>|
            styled_captures(all.take(i + 1)).contains(k) <==> styled_captures(
                all.take(i),
            ).contains(k) || (all[i].0 == "syntax"@ && has_member(all[i].1, k)),
{
    let a = all.take(i);
    let b = all.take(i + 1);
    assert(b[i] == all[i]);
    assert forall|j: int| 0 <= j < i implies a[j] == #[trigger] b[j] by {}
    assert forall|k: Seq<char>|
        present_keys(b).contains(k) <==> present_keys(a).contains(k) || (!is_special(k)
            && all[i].0 == k) by {
        if present_keys(a).contains(k) {
            let j = choose|j: int| 0 <= j < a.len() && (#[trigger] a[j]).0 == k;
            assert(b[j].0 == k);
        }
        if present_keys(b).contains(k) {
            let j = choose|j: int| 0 <= j < b.len() && (#[trigger] b[j]).0 == k;
            if j < i {
                assert(a[j].0 == k);
            }
        }
    }
    assert forall|k: Seq<char>|
        styled_captures(b).contains(k) <==> styled_captures(a).contains(k) || (all[i].0
            == "syntax"@ && has_member(all[i].1, k)) by {
        if styled_captures(a).contains(k) {
            let j = choose|j: int|
                0 <= j < a.len() && (#[trigger] a[j]).0 == "syntax"@ && has_member(a[j].1, k);
            assert(b[j] == a[j]);
        }
        if styled_captures(b).contains(k) {
            let j = choose|j: int|
                0 <= j < b.len() && (#[trigger] b[j]).0 == "syntax"@ && has_member(b[j].1, k);
            if j < i {
                assert(a[j] == b[j]);
            }
        }
    }
}

/// Adds the names of the members of an object.
fn add_member_names(keys: &mut KeySet, members: &Vec<(String, Json)>)
    ensures
        forall|k: Seq<char>| #[trigger]
            final(keys)@.contains(k) <==> old(keys)@.contains(k) || has_member(
                JsonModel::Object(members_model(members@)),
                k,
            ),
{
    let ghost before = keys@;
    let ghost all = members_model(members@);
    let mut i: usize = 0;
    while i < members.len()
        invariant
            i <= members@.len(),
            all == members_model(members@),
            forall|k: Seq<char>| #[trigger]
                keys@.contains(k) <==> before.contains(k) || exists|j: int|
                    0 <= j < i && (#[trigger] all[j]).0 == k,
        decreases members@.len() - i,
    {
        let ghost now = keys@;
        keys.insert(members[i].0.clone());
        proof {
            assert(all[i as int].0 == members@[i as int].0@);
            assert forall|k: Seq<char>| #[trigger]
                keys@.contains(k) <==> before.contains(k) || exists|j: int|
                    0 <= j < i + 1 && (#[trigger] all[j]).0 == k by {
                if now.contains(k) && !before.contains(k) {
                    let j = choose|j: int| 0 <= j < i && (#[trigger] all[j]).0 == k;
                    assert(all[j].0 == k);
                }
            }
        }
        i = i + 1;
    }
    proof {
        let object = JsonModel::Object(all);
        assert forall|k: Seq<char>| has_member(object, k) <==> exists|j: int|
            0 <= j < all.len() && (#[trigger] all[j]).0 == k by {
            assert(object->Object_0 == all);
        }
    }
}

/// A listing of texts that all precede `c`, followed by `c`, is a listing.
proof fn lemma_listing_grows(s: Seq<Seq<char>>, set: Set<Seq<char>>, c: Seq<char>)
    requires
        lists(s, set),
        forall|k: Seq<char>| set.contains(k) ==> #[trigger] crate::text::text_lt(k, c),
    ensures
        lists(s.push(c), set.insert(c)),
{
    let t = s.push(c);
    assert forall|i: int, j: int| 0 <= i < j < t.len() implies crate::text::text_lt(
        t[i],
        t[j],
    ) by {
        if j == s.len() {
            assert(s.to_set().contains(s[i]));
        }
    }
    assert forall|k: Seq<char>| t.to_set().contains(k) <==> set.insert(c).contains(k) by {
        if t.contains(k) {
            let i = choose|i: int| 0 <= i < t.len() && t[i] == k;
            if i < s.len() {
                assert(s.to_set().contains(s[i]));
            }
        }
        if set.contains(k) {
            assert(s.to_set().contains(k));
            let i = choose|i: int| 0 <= i < s.len() && s[i] == k;
            assert(t[i] == k);
        }
        if k == c {
            assert(t[s.len() as int] == k);
        }
    }
    assert(t.to_set() =~= set.insert(c));
}

/// The texts before place `i` of an ascending list all precede the text there, and with it
/// they are the texts before the next place.
proof fn lemma_prefix_precedes(s: Seq<Seq<char>>, i: int)
    requires
        ascending(s),
        0 <= i < s.len(),
    ensures
        forall|k: Seq<char>|
            s.take(i).to_set().contains(k) ==> #[trigger] crate::text::text_lt(k, s[i]),
        s.take(i + 1).to_set() == s.take(i).to_set().insert(s[i]),
        !s.take(i).to_set().contains(s[i]),
{
    text_order_is_strict_and_total();
    let a = s.take(i);
    let b = s.take(i + 1);
    assert forall|k: Seq<char>| a.to_set().contains(k) implies #[trigger] crate::text::text_lt(
        k,
        s[i],
    ) by {
        let j = choose|j: int| 0 <= j < a.len() && a[j] == k;
        assert(s[j] == k);
    }
    if a.to_set().contains(s[i]) {
        assert(crate::text::text_lt(s[i], s[i]));
    }
    assert forall|k: Seq<char>| b.to_set().contains(k) <==> a.to_set().insert(s[i]).contains(k) by {
        if b.contains(k) {
            let j = choose|j: int| 0 <= j < b.len() && b[j] == k;
            if j < i {
                assert(a[j] == k);
            }
        }
        if a.contains(k) {
            let j = choose|j: int| 0 <= j < a.len() && a[j] == k;
            assert(b[j] == k);
        }
        if k == s[i] {
            assert(b[i] == k);
        }
    }
    assert(b.to_set() =~= a.to_set().insert(s[i]));
}

/// How the expected captures are covered: those that nothing styles, those that an ancestor
/// styles, and the number of those that have a style of their own.
pub fn cover_captures(expected_syntax: &KeySet, syntax_keys: &KeySet) -> (r: (
    Vec<String>,
    Vec<AncestorCoverage>,
    usize,
))
    ensures
        lists(texts(r.0@), uncovered(expected_syntax@, syntax_keys@)),
        lists(covered_captures(r.1@), ancestor_covered(expected_syntax@, syntax_keys@)),
        forall|i: int|
            0 <= i < r.1@.len() ==> closest_ancestor(
                (#[trigger] r.1@[i]).covered_by@,
                r.1@[i].capture@,
                syntax_keys@,
            ),
        r.2 == expected_syntax@.intersect(syntax_keys@).len(),
{
    let keys = expected_syntax.keys();
    let ghost s = texts(keys@);
    let ghost styled = syntax_keys@;
    let ghost mut exact: Seq<Seq<char>> = Seq::empty();
    let mut open: Vec<String> = Vec::new();
    let mut covered: Vec<AncestorCoverage> = Vec::new();
    let mut count: usize = 0;
    let mut i: usize = 0;
    proof {
        let none = s.take(0).to_set();
        assert(none =~= Set::empty());
        assert(texts(open@).to_set() =~= uncovered(none, styled));
        assert(covered_captures(covered@).to_set() =~= ancestor_covered(none, styled));
        assert(exact.to_set() =~= none.intersect(styled));
    }
    while i < keys.len()
        invariant
            i <= keys@.len(),
            s == texts(keys@),
            styled == syntax_keys@,
            ascending(s),
            lists(texts(open@), uncovered(s.take(i as int).to_set(), styled)),
            lists(covered_captures(covered@), ancestor_covered(s.take(i as int).to_set(), styled)),
            forall|j: int|
                0 <= j < covered@.len() ==> closest_ancestor(
                    (#[trigger] covered@[j]).covered_by@,
                    covered@[j].capture@,
                    styled,
                ),
            lists(exact, s.take(i as int).to_set().intersect(styled)),
            exact.len() == count,
            count <= i,
        decreases keys@.len() - i,
    {
        let capture = keys[i].as_str();
        let ghost c = capture@;
        let ghost a = s.take(i as int).to_set();
        let ghost b = s.take(i + 1).to_set();
        proof {
            assert(s[i as int] == c);
            lemma_prefix_precedes(s, i as int);
        }
        if syntax_keys.contains(capture) {
            count = count + 1;
            proof {
                lemma_listing_grows(exact, a.intersect(styled), c);
                exact = exact.push(c);
                assert(b.intersect(styled) =~= a.intersect(styled).insert(c));
                assert(ancestor_covered(b, styled) =~= ancestor_covered(a, styled));
                assert(uncovered(b, styled) =~= uncovered(a, styled));
            }
        } else {
            assert(b.intersect(styled) =~= a.intersect(styled));
            match find_covering_ancestor(capture, syntax_keys) {
                Some(ancestor) => {
                    proof {
                        lemma_listing_grows(
                            covered_captures(covered@),
                            ancestor_covered(a, styled),
                            c,
                        );
                    }
                    let ghost before = covered_captures(covered@);
                    covered.push(
                        AncestorCoverage { capture: keys[i].clone(), covered_by: ancestor },
                    );
                    proof {
                        assert(covered_captures(covered@) =~= before.push(c));
                        assert(ancestor_covered(b, styled) =~= ancestor_covered(a, styled).insert(
                            c,
                        ));
                        assert(uncovered(b, styled) =~= uncovered(a, styled));
                    }
                },
                None => {
                    proof {
                        lemma_listing_grows(texts(open@), uncovered(a, styled), c);
                    }
                    let ghost before = texts(open@);
                    open.push(keys[i].clone());
                    proof {
                        assert(texts(open@) =~= before.push(c));
                        assert(uncovered(b, styled) =~= uncovered(a, styled).insert(c));
                        assert(ancestor_covered(b, styled) =~= ancestor_covered(a, styled));
                    }
                },
            }
        }
        i = i + 1;
    }
    proof {
        assert(s.take(s.len() as int) =~= s);
        lemma_listing_length(exact, expected_syntax@.intersect(styled));
    }
    (open, covered, count)
}

/// Checks a theme of this name and style.
pub fn analyze_theme(
    theme_name: String,
    style: &Vec<(String, Json)>,
    key_sets: &KeySets,
    expected_syntax: &KeySet,
    deprecated_mode: DeprecatedMode,
) -> (r: ThemeReport)
    ensures
        is_theme_report(
            r,
            theme_name@,
            members_model(style@),
            *key_sets,
            expected_syntax@,
            deprecated_mode,
        ),
{
    let (present, syntax_keys) = keys_of_style(style);
    let missing_non_syntax = key_sets.expected_non_syntax.difference(&present);
    let mut unexpected = KeySet::new();
    unexpected.extend(&present.difference(&key_sets.expected_non_syntax));
    assert(unexpected@ =~= present@.difference(key_sets.expected_non_syntax@));
    let unknown_non_syntax = unexpected.difference(&key_sets.deprecated_non_syntax);
    let deprecated_non_syntax = match deprecated_mode {
        DeprecatedMode::Include => present.intersection(&key_sets.deprecated_non_syntax),
        DeprecatedMode::Exclude => {
            let none: Vec<String> = Vec::new();
            assert(texts(none@).to_set() =~= Set::<Seq<char>>::empty());
            none
        },
    };
    let (syntax_uncovered, syntax_covered_by_ancestor, syntax_exact_count) = cover_captures(
        expected_syntax,
        &syntax_keys,
    );
    ThemeReport {
        theme_name,
        missing_non_syntax,
        unknown_non_syntax,
        deprecated_non_syntax,
        syntax_uncovered,
        syntax_covered_by_ancestor,
        syntax_exact_count,
    }
}

// ---------------------------------------------------------------------------------------
// A family of themes
// ---------------------------------------------------------------------------------------

/// The themes of a family.
pub open spec fn themes_of(family: JsonModel) -> Option<Seq<JsonModel>> {
    match family.get("themes"@) {
        Some(JsonModel::Array(themes)) => Some(themes),
        _ => None,
    }
}

/// The name of the theme at place `i`; a theme without a name goes by its place.
pub open spec fn name_of_theme(theme: JsonModel, i: int) -> Seq<char> {
    match theme.get("name"@) {
        Some(JsonModel::Text(name)) => name,
        _ => "theme["@ + decimal(i as nat) + "]"@,
    }
}

/// The style of a theme.
pub open spec fn style_of_theme(theme: JsonModel) -> Option<Seq<(Seq<char>, JsonModel)>> {
    match theme.get("style"@) {
        Some(JsonModel::Object(style)) => Some(style),
        _ => None,
    }
}

/// The theme at place `i` is the first without a style.
pub open spec fn first_without_style(themes: Seq<JsonModel>, i: int) -> bool {
    &&& 0 <= i < themes.len()
    &&& style_of_theme(themes[i]) is None
    &&& forall|j: int| 0 <= j < i ==> style_of_theme(#[trigger] themes[j]) is Some
}

/// `r` is what the check of a family comes to. It fails where the family has no themes, and
/// at the first theme without a style; otherwise it reports on each theme, in order.
pub open spec fn is_family_outcome(
    r: Result<FileReport, ThemeError>,
    family: JsonModel,
    path: Seq<char>,
    display_path: Seq<char>,
    sets: KeySets,
    expected: Set<Seq<char>>,
    mode: DeprecatedMode,
) -> bool {
    match themes_of(family) {
        None => r matches Err(ThemeError::ThemesMissing(p)) && p@ == path,
        Some(themes) => match r {
            Ok(report) => {
                &&& report.path@ == display_path
                &&& report.themes@.len() == themes.len()
                &&& forall|i: int|
                    0 <= i < themes.len() ==> style_of_theme(#[trigger] themes[i]) is Some
                        && is_theme_report(
                        report.themes@[i],
                        name_of_theme(themes[i], i),
                        style_of_theme(themes[i])->Some_0,
                        sets,
                        expected,
                        mode,
                    )
            },
            Err(e) => exists|i: int| #[trigger]
                first_without_style(themes, i) && (e matches ThemeError::StyleMissing(n) && n@
                    == name_of_theme(themes[i], i)),
        },
    }
}

/// The name of a theme.
fn theme_name(theme: &Json, index: usize) -> (r: String)
    ensures
        r@ == name_of_theme(theme.model(), index as int),
{
    match theme.get("name") {
        Some(Json::Text(name)) => name.clone(),
        _ => {
            let mut name = "theme[".to_owned();
            name.append(decimal_text(index as u64).as_str());
            name.append("]");
            name
        },
    }
}

/// Checks a family that was read from the file at `path`.
pub fn analyze_family(
    family: &Json,
    path: &str,
    display_path: &str,
    key_sets: &KeySets,
    expected_syntax: &KeySet,
    deprecated_mode: DeprecatedMode,
) -> (r: Result<FileReport, ThemeError>)
    ensures
        is_family_outcome(
            r,
            family.model(),
            path@,
            display_path@,
            *key_sets,
            expected_syntax@,
            deprecated_mode,
        ),
{
    let value = family.get("themes");
    let themes = match value {
        Some(Json::Array(themes)) => themes,
        _ => {
            return Err(ThemeError::ThemesMissing(path.to_owned()));
        },
    };
    let ghost ts = items_model(themes@);
    proof {
        lemma_model_of_parts(*value->Some_0);
        assert(themes_of(family.model()) == Some(ts));
    }
    let mut reports: Vec<ThemeReport> = Vec::new();
    let mut i: usize = 0;
    while i < themes.len()
        invariant
            i <= themes@.len(),
            ts == items_model(themes@),
            themes_of(family.model()) == Some(ts),
            reports@.len() == i,
            forall|j: int|
                0 <= j < i ==> style_of_theme(#[trigger] ts[j]) is Some && is_theme_report(
                    reports@[j],
                    name_of_theme(ts[j], j),
                    style_of_theme(ts[j])->Some_0,
                    *key_sets,
                    expected_syntax@,
                    deprecated_mode,
                ),
        decreases themes@.len() - i,
    {
        let theme = &themes[i];
        assert(ts[i as int] == theme.model());
        let name = theme_name(theme, i);
        let found = theme.get("style");
        match found {
            Some(Json::Object(style)) => {
                proof {
                    lemma_model_of_parts(*found->Some_0);
                }
                reports.push(
                    analyze_theme(name, style, key_sets, expected_syntax, deprecated_mode),
                );
            },
            _ => {
                assert(first_without_style(ts, i as int));
                return Err(ThemeError::StyleMissing(name));
            },
        }
        i = i + 1;
    }
    Ok(FileReport { path: display_path.to_owned(), themes: reports })
}

/// `r` is what the check of a file with this text comes to.
pub open spec fn is_text_outcome(
    r: Result<FileReport, ThemeError>,
    content: Seq<char>,
    path: Seq<char>,
    display_path: Seq<char>,
    sets: KeySets,
    expected: Set<Seq<char>>,
    mode: DeprecatedMode,
) -> bool {
    match lenient_json(content) {
        Err(cause) => r matches Err(ThemeError::Unparsable(p, why)) && p@ == path && why@ == cause,
        Ok(family) => is_family_outcome(r, family, path, display_path, sets, expected, mode),
    }
}

/// A theme family file: its path, how the path is written from each of its components on, and what
/// the file holds, or why it could not be read.
#[derive(Debug)]
pub struct ThemeFile {
    pub path: ThemePath,
    pub rests: Vec<String>,
    pub content: Result<String, String>,
}

/// How the path of a file is written from component `n` on. After the last there is nothing.
pub open spec fn written_from(file: ThemeFile, n: int) -> Seq<char> {
    if n < file.rests@.len() {
        file.rests@[n]@
    } else {
        Seq::empty()
    }
}

/// How a file is named in a report: by its path from the root on, where it lies below the root, and
/// else by its whole path.
pub open spec fn shown_text(root: ThemePath, file: ThemeFile) -> Seq<char> {
    if leads(root, file.path) {
        written_from(file, root.parts@.len() as int)
    } else {
        file.path.text@
    }
}

/// How a file is named in a report.
pub fn shown_path(root: &ThemePath, file: &ThemeFile) -> (r: String)
    ensures
        r@ == shown_text(*root, *file),
{
    let left_out = file.path.parts.len() - shown_parts(root, &file.path).len();
    if !is_below(root, &file.path) {
        file.path.text.clone()
    } else if left_out < file.rests.len() {
        file.rests[left_out].clone()
    } else {
        String::new()
    }
}

/// `r` is what the check of the file comes to.
pub open spec fn is_file_outcome(
    r: Result<FileReport, ThemeError>,
    root: ThemePath,
    file: ThemeFile,
    sets: KeySets,
    expected: Set<Seq<char>>,
    mode: DeprecatedMode,
) -> bool {
    match file.content {
        Err(cause) => r == Err::<FileReport, _>(ThemeError::ThemeUnreadable(file.path.text, cause)),
        Ok(content) => is_text_outcome(
            r,
            content@,
            file.path.text@,
            shown_text(root, file),
            sets,
            expected,
            mode,
        ),
    }
}

/// Checks a theme family file of the repository at `root`.
pub fn analyze_theme_file(
    root: &ThemePath,
    file: &ThemeFile,
    key_sets: &KeySets,
    expected_syntax: &KeySet,
    deprecated_mode: DeprecatedMode,
) -> (r: Result<FileReport, ThemeError>)
    ensures
        is_file_outcome(r, *root, *file, *key_sets, expected_syntax@, deprecated_mode),
{
    let content = match &file.content {
        Ok(content) => content,
        Err(cause) => {
            return Err(ThemeError::ThemeUnreadable(file.path.text.clone(), cause.clone()));
        },
    };
    match parse_lenient(content.as_str()) {
        Ok(family) => analyze_family(
            &family,
            file.path.text.as_str(),
            shown_path(root, file).as_str(),
            key_sets,
            expected_syntax,
            deprecated_mode,
        ),
        Err(cause) => Err(ThemeError::Unparsable(file.path.text.clone(), cause)),
    }
}

/// Checks theme family files, in order, up to the first that cannot be checked.
pub fn analyze_theme_files(
    root: &ThemePath,
    files: &Vec<ThemeFile>,
    key_sets: &KeySets,
    expected_syntax: &KeySet,
    deprecated_mode: DeprecatedMode,
) -> (r: Result<Vec<FileReport>, ThemeError>)
    ensures
        match r {
            Ok(reports) => {
                &&& reports@.len() == files@.len()
                &&& forall|i: int|
                    0 <= i < files@.len() ==> is_file_outcome(
                        Ok(reports@[i]),
                        *root,
                        #[trigger] files@[i],
                        *key_sets,
                        expected_syntax@,
                        deprecated_mode,
                    )
            },
            Err(e) => exists|i: int|
                {
                    &&& 0 <= i < files@.len()
                    &&& is_file_outcome(
                        Err(e),
                        *root,
                        #[trigger] files@[i],
                        *key_sets,
                        expected_syntax@,
                        deprecated_mode,
                    )
                    &&& forall|j: int|
                        0 <= j < i ==> can_be_checked(#[trigger] files@[j])
                },
        },
        r is Ok <==> forall|i: int| 0 <= i < files@.len() ==> can_be_checked(#[trigger] files@[i]),
{
    let mut reports: Vec<FileReport> = Vec::new();
    for i in 0..files.len()
        invariant
            reports@.len() == i,
            forall|j: int|
                0 <= j < i ==> is_file_outcome(
                    Ok(reports@[j]),
                    *root,
                    #[trigger] files@[j],
                    *key_sets,
                    expected_syntax@,
                    deprecated_mode,
                ) && can_be_checked(files@[j]),
    {
        let outcome = analyze_theme_file(root, &files[i], key_sets, expected_syntax, deprecated_mode);
        proof {
            lemma_outcome(
                outcome,
                *root,
                files@[i as int],
                *key_sets,
                expected_syntax@,
                deprecated_mode,
            );
        }
        match outcome {
            Ok(report) => {
                reports.push(report);
            },
            Err(e) => {
                return Err(e);
            },
        }
    }
    Ok(reports)
}

/// The file was read, is JSON, has an array of themes, and each of them has a style.
pub open spec fn can_be_checked(file: ThemeFile) -> bool {
    &&& file.content matches Ok(content)
    &&& lenient_json(content@) matches Ok(family)
    &&& themes_of(family) matches Some(themes)
    &&& forall|i: int| 0 <= i < themes.len() ==> style_of_theme(#[trigger] themes[i]) is Some
}

proof fn lemma_outcome(
    r: Result<FileReport, ThemeError>,
    root: ThemePath,
    file: ThemeFile,
    sets: KeySets,
    expected: Set<Seq<char>>,
    mode: DeprecatedMode,
)
    requires
        is_file_outcome(r, root, file, sets, expected, mode),
    ensures
        r is Ok <==> can_be_checked(file),
{
    if file.content is Ok && lenient_json(file.content->Ok_0@) is Ok {
        let family = lenient_json(file.content->Ok_0@)->Ok_0;
        if themes_of(family) is Some {
            let themes = themes_of(family)->Some_0;
            if r is Err {
                let i = choose|i: int| #[trigger] first_without_style(themes, i);
                assert(style_of_theme(themes[i]) is None);
            }
        }
    }
}

} // verus!
