//! Where the known keys come from, said of the sources themselves.
use crate::text::{
    ascii_lowercase, contains_text, first_occurrence, lines, occurs_at, starts_with, trim,
};
use crate::theme::errors::ThemeError;
use crate::theme::keys::{
    captures_of_level, closes, core_syntax_keys, deprecated_keys, ends_section, first_unreadable,
    holds_known_keys, in_section, is_block_error, is_key_error, is_pattern_error, is_struct_block,
    observed_syntax_keys, open_braces, opens_section, patterns_are_valid, reports_block, scan_line,
    scan_lines, scan_start, section_keys, struct_block_is_unique, Block, HighlightsFile, KeySets,
    ScanModel, SyntaxLevel, CORE_PATTERN, FIELD_PATTERN, OBSERVED_PATTERN, RENAME_PATTERN,
    SYNTAX_CORE_PATH, THEME_CONTENT_PATH,
};
use crate::theme::patterns::{
    all_matches, catches, caught_texts, first_catch, first_match, pattern_error, pattern_is_valid,
};
use vstd::prelude::*;
use vstd::string::*;

verus! {

/// The name that a rename attribute on a line gives.
pub open spec fn rename_on(line: Seq<char>) -> Option<Seq<char>> {
    match first_match(RENAME_PATTERN@, line) {
        Some(Some(name)) => Some(name),
        _ => None,
    }
}

/// A line without a rename says that a field is deprecated: by the attribute, or in its
/// documentation, in any case of letters.
pub open spec fn says_deprecated(line: Seq<char>) -> bool {
    &&& rename_on(line) is None
    &&& line == "#[deprecated]"@ || (starts_with(line, "///"@) && contains_text(
        ascii_lowercase(line),
        "deprecated"@,
    ))
}

/// The field that a line declares.
pub open spec fn field_on(line: Seq<char>) -> Option<Seq<char>> {
    if rename_on(line) is Some || says_deprecated(line) {
        None
    } else {
        match first_match(FIELD_PATTERN@, line) {
            Some(Some(name)) => Some(name),
            _ => None,
        }
    }
}

/// No line after `j` and before `i` declares a field.
pub open spec fn no_field_between(ls: Seq<Seq<char>>, j: int, i: int) -> bool {
    forall|m: int| j < m < i ==> field_on(#[trigger] ls[m]) is None
}

/// Line `j` says that what is declared next, at `i` or later, is deprecated.
pub open spec fn marks(ls: Seq<Seq<char>>, j: int, i: int) -> bool {
    0 <= j < i && says_deprecated(ls[j]) && no_field_between(ls, j, i)
}

/// A line says that what is declared next, at `i` or later, is deprecated.
pub open spec fn is_marked(ls: Seq<Seq<char>>, i: int) -> bool {
    exists|j: int| marks(ls, j, i)
}

/// Line `j` is the last before `i` that renames what is declared next, at `i` or later.
pub open spec fn renames(ls: Seq<Seq<char>>, j: int, i: int) -> bool {
    &&& 0 <= j < i
    &&& rename_on(ls[j]) is Some
    &&& no_field_between(ls, j, i)
    &&& forall|m: int| j < m < i ==> rename_on(#[trigger] ls[m]) is None
}

/// A line renames what is declared next, at `i` or later.
pub open spec fn is_renamed(ls: Seq<Seq<char>>, i: int) -> bool {
    exists|j: int| renames(ls, j, i)
}

/// The field on line `i` goes by the key `k`: the name that it is renamed to, or else its own.
pub open spec fn goes_by(ls: Seq<Seq<char>>, i: int, k: Seq<char>) -> bool {
    if is_renamed(ls, i) {
        exists|j: int| #[trigger] renames(ls, j, i) && rename_on(ls[j]) == Some(k)
    } else {
        field_on(ls[i]) == Some(k)
    }
}

/// The field on line `i` is deprecated: a line after the field before it says so, whatever other
/// lines stand between, or its name does.
pub open spec fn is_deprecated_field(ls: Seq<Seq<char>>, i: int) -> bool {
    &&& 0 <= i < ls.len()
    &&& field_on(ls[i]) matches Some(name)
    &&& starts_with(name, "deprecated_"@) || is_marked(ls, i)
}

/// The lines of a block, each without the white space around it.
pub open spec fn trimmed_lines(block: Seq<char>) -> Seq<Seq<char>> {
    lines(block).map_values(|line: Seq<char>| trim(line))
}

/// A key is among the deprecated ones exactly where a field that goes by it is deprecated.
pub proof fn deprecated_keys_are_those_of_deprecated_fields(block: Seq<char>, k: Seq<char>)
    ensures
        deprecated_keys(block).contains(k) <==> exists|i: int| #[trigger]
            is_deprecated_field(trimmed_lines(block), i) && goes_by(trimmed_lines(block), i, k),
{
    let raw = lines(block);
    let ls = trimmed_lines(block);
    let n = raw.len() as int;
    lemma_scan(raw, n);
    assert(raw.take(n) =~= raw);
    assert(ls =~= raw.map_values(|line: Seq<char>| trim(line)));
    assert(deprecated_keys(block).contains(k) <==> found_before(ls, n, k));
    if exists|i: int| #[trigger] is_deprecated_field(ls, i) && goes_by(ls, i, k) {
        let i = choose|i: int| #[trigger] is_deprecated_field(ls, i) && goes_by(ls, i, k);
        assert(i < n);
    }
}

spec fn found_before(ls: Seq<Seq<char>>, n: int, k: Seq<char>) -> bool {
    exists|i: int| #[trigger] is_deprecated_field(ls, i) && i < n && goes_by(ls, i, k)
}

proof fn lemma_marks_step(ls: Seq<Seq<char>>, n: int)
    requires
        0 < n <= ls.len(),
    ensures
        is_marked(ls, n) <==> field_on(ls[n - 1]) is None && (says_deprecated(ls[n - 1])
            || is_marked(ls, n - 1)),
{
    let m = n - 1;
    if is_marked(ls, n) {
        let j = choose|j: int| marks(ls, j, n);
        if j < m {
            assert(field_on(ls[m]) is None);
            assert(marks(ls, j, m));
        }
    }
    if field_on(ls[n - 1]) is None {
        if says_deprecated(ls[n - 1]) {
            assert(marks(ls, n - 1, n));
        } else if is_marked(ls, m) {
            let j = choose|j: int| marks(ls, j, m);
            assert(marks(ls, j, n));
        }
    }
}

proof fn lemma_renames_step(ls: Seq<Seq<char>>, n: int)
    requires
        0 < n <= ls.len(),
    ensures
        rename_on(ls[n - 1]) is Some ==> forall|j: int| #[trigger] renames(ls, j, n) <==> j == n
            - 1,
        rename_on(ls[n - 1]) is None && field_on(ls[n - 1]) is Some ==> forall|j: int|
            !#[trigger] renames(ls, j, n),
        rename_on(ls[n - 1]) is None && field_on(ls[n - 1]) is None ==> forall|j: int| #[trigger]
            renames(ls, j, n) <==> renames(ls, j, n - 1),
{
    assert forall|j: int| rename_on(ls[n - 1]) is Some implies (#[trigger] renames(ls, j, n) <==> j
        == n - 1) by {
        if j < n - 1 && renames(ls, j, n) {
            assert(rename_on(ls[n - 1]) is None);
        }
    }
    assert forall|j: int|
        rename_on(ls[n - 1]) is None && field_on(ls[n - 1]) is None implies (#[trigger] renames(
        ls,
        j,
        n,
    ) <==> renames(ls, j, n - 1)) by {
    }
    assert forall|j: int|
        rename_on(ls[n - 1]) is None && field_on(ls[n - 1]) is Some implies !#[trigger] renames(
        ls,
        j,
        n,
    ) by {
        if renames(ls, j, n) {
            assert(j < n - 1);
            assert(field_on(ls[n - 1]) is None);
        }
    }
}

proof fn lemma_scan(raw: Seq<Seq<char>>, n: int)
    requires
        0 <= n <= raw.len(),
    ensures
        ({
            let ls = raw.map_values(|line: Seq<char>| trim(line));
            let s = scan_lines(raw.take(n));
            &&& (s.attribute || s.doc) <==> is_marked(ls, n)
            &&& s.rename is Some <==> is_renamed(ls, n)
            &&& forall|j: int| #[trigger] renames(ls, j, n) ==> s.rename == rename_on(ls[j])
            &&& forall|k: Seq<char>| #[trigger] s.found.contains(k) <==> found_before(ls, n, k)
        }),
    decreases n,
{
    let ls = raw.map_values(|line: Seq<char>| trim(line));
    if n == 0 {
        assert(raw.take(0).len() == 0);
    } else {
        lemma_scan(raw, n - 1);
        lemma_marks_step(ls, n);
        lemma_renames_step(ls, n);
        assert(raw.take(n).drop_last() =~= raw.take(n - 1));
        assert(raw.take(n).last() == raw[n - 1]);
        let before = scan_lines(raw.take(n - 1));
        let s = scan_lines(raw.take(n));
        let line = ls[n - 1];
        assert(line == trim(raw[n - 1]));
        if rename_on(line) is Some {
            assert(renames(ls, n - 1, n));
        }
        let m = n - 1;
        if is_renamed(ls, m) {
            let j = choose|j: int| renames(ls, j, m);
            if rename_on(line) is None && field_on(line) is None {
                assert(renames(ls, j, n));
            }
        }
        if is_renamed(ls, n) {
            let j = choose|j: int| renames(ls, j, n);
            if rename_on(line) is None {
                assert(renames(ls, j, n - 1));
            }
        }
        assert forall|k: Seq<char>| #[trigger] s.found.contains(k) <==> found_before(ls, n, k) by {
            assert(before.found.contains(k) <==> found_before(ls, n - 1, k));
            if found_before(ls, n - 1, k) {
                let i = choose|i: int| #[trigger]
                    is_deprecated_field(ls, i) && i < n - 1 && goes_by(ls, i, k);
                assert(found_before(ls, n, k));
            }
            if field_on(line) is Some {
                if is_renamed(ls, m) {
                    let j = choose|j: int| renames(ls, j, m);
                    assert(before.rename == rename_on(ls[j]));
                    assert(goes_by(ls, n - 1, k) <==> before.rename == Some(k));
                } else {
                    assert(before.rename is None);
                }
                if s.found.contains(k) && !before.found.contains(k) {
                    assert(is_deprecated_field(ls, n - 1) && goes_by(ls, n - 1, k));
                }
            }
            if found_before(ls, n, k) && !found_before(ls, n - 1, k) {
                let i = choose|i: int| #[trigger]
                    is_deprecated_field(ls, i) && i < n && goes_by(ls, i, k);
                assert(i == n - 1);
            }
        }
    }
}

// ---------------------------------------------------------------------------------------
// Struct blocks
// ---------------------------------------------------------------------------------------

/// How often the character stands in the text.
pub open spec fn count_of(s: Seq<char>, c: char) -> int
    decreases s.len(),
{
    if s.len() == 0 {
        0
    } else {
        count_of(s.drop_last(), c) + if s.last() == c {
            1int
        } else {
            0
        }
    }
}

/// How many more braces of the text open than close.
pub open spec fn unclosed(s: Seq<char>) -> int {
    count_of(s, '{') - count_of(s, '}')
}

/// The struct starts at `start`, and its braces open at `open` and are closed before `end`: the
/// text that is looked for stands at `start` and nowhere before, no brace opens between `start`
/// and `open`, and from `open` on as many braces close as open at `end`, and fewer before.
pub open spec fn is_struct_at(
    content: Seq<char>,
    name: Seq<char>,
    start: int,
    open: int,
    end: int,
) -> bool {
    let marker = "pub struct "@ + name;
    &&& 0 <= start <= open < end <= content.len()
    &&& start + marker.len() <= content.len()
    &&& content.subrange(start, start + marker.len()) == marker
    &&& forall|k: int|
        0 <= k < start && k + marker.len() <= content.len() ==> #[trigger] content.subrange(
            k,
            k + marker.len(),
        ) != marker
    &&& content[open] == '{'
    &&& forall|k: int| start <= k < open ==> #[trigger] content[k] != '{'
    &&& unclosed(content.subrange(open, end)) == 0
    &&& forall|e: int| open < e < end ==> unclosed(#[trigger] content.subrange(open, e)) > 0
}

proof fn lemma_open_braces(s: Seq<char>, open: int, e: int)
    requires
        0 <= open < e <= s.len(),
        forall|d: int| open < d < e ==> open_braces(#[trigger] s.subrange(open, d)) > 0,
        s[open] == '{',
    ensures
        open_braces(s.subrange(open, e)) == unclosed(s.subrange(open, e)),
    decreases e,
{
    let now = s.subrange(open, e);
    let before = now.drop_last();
    assert(before =~= s.subrange(open, e - 1));
    if e == open + 1 {
        assert(before.len() == 0);
        assert(now.last() == '{');
        assert(open_braces(before) == 0 && count_of(before, '{') == 0 && count_of(before, '}')
            == 0);
    } else {
        lemma_open_braces(s, open, e - 1);
        assert(open_braces(s.subrange(open, e - 1)) > 0);
        assert(open_braces(before) == unclosed(before) && open_braces(before) > 0);
    }
}

proof fn lemma_brace(content: Seq<char>, k: int)
    ensures
        occurs_at(content, seq!['{'], k) <==> 0 <= k < content.len() && content[k] == '{',
{
    if 0 <= k < content.len() {
        assert(content.subrange(k, k + 1) =~= seq![content[k]]);
        assert(seq![content[k]][0] == content[k]);
        assert(seq!['{'][0] == '{');
    }
}

proof fn lemma_unclosed(s: Seq<char>, open: int, e: int)
    requires
        0 <= open < e <= s.len(),
        forall|d: int| open < d < e ==> unclosed(#[trigger] s.subrange(open, d)) > 0,
        s[open] == '{',
    ensures
        open_braces(s.subrange(open, e)) == unclosed(s.subrange(open, e)),
    decreases e,
{
    let now = s.subrange(open, e);
    let before = now.drop_last();
    assert(before =~= s.subrange(open, e - 1));
    if e == open + 1 {
        assert(before.len() == 0);
        assert(now.last() == '{');
        assert(open_braces(before) == 0 && count_of(before, '{') == 0 && count_of(before, '}')
            == 0);
    } else {
        lemma_unclosed(s, open, e - 1);
        assert(unclosed(s.subrange(open, e - 1)) > 0);
        assert(open_braces(before) == unclosed(before) && open_braces(before) > 0);
    }
}

proof fn lemma_first_marker(content: Seq<char>, marker: Seq<char>, start: int)
    ensures
        first_occurrence(content, marker, 0, start) <==> {
            &&& 0 <= start
            &&& start + marker.len() <= content.len()
            &&& content.subrange(start, start + marker.len()) == marker
            &&& forall|k: int|
                0 <= k < start && k + marker.len() <= content.len() ==> #[trigger] content.subrange(
                    k,
                    k + marker.len(),
                ) != marker
        },
{
    if first_occurrence(content, marker, 0, start) {
        assert forall|k: int|
            0 <= k < start && k + marker.len() <= content.len() implies #[trigger] content.subrange(
            k,
            k + marker.len(),
        ) != marker by {
            assert(!occurs_at(content, marker, k));
        }
    }
    if 0 <= start && start + marker.len() <= content.len() && content.subrange(
        start,
        start + marker.len(),
    ) == marker && forall|k: int|
        0 <= k < start && k + marker.len() <= content.len() ==> #[trigger] content.subrange(
            k,
            k + marker.len(),
        ) != marker {
        assert forall|k: int| 0 <= k < start implies !occurs_at(content, marker, k) by {
            if occurs_at(content, marker, k) {
                assert(content.subrange(k, k + marker.len()) == marker);
            }
        }
    }
}

proof fn lemma_first_brace(content: Seq<char>, start: int, open: int)
    requires
        0 <= start,
    ensures
        first_occurrence(content, seq!['{'], start, open) <==> {
            &&& start <= open < content.len()
            &&& content[open] == '{'
            &&& forall|k: int| start <= k < open ==> #[trigger] content[k] != '{'
        },
{
    lemma_brace(content, open);
    if first_occurrence(content, seq!['{'], start, open) {
        assert forall|k: int| start <= k < open implies #[trigger] content[k] != '{' by {
            lemma_brace(content, k);
        }
    }
    if start <= open < content.len() && content[open] == '{' && forall|k: int|
        start <= k < open ==> #[trigger] content[k] != '{' {
        assert forall|k: int| start <= k < open implies !occurs_at(content, seq!['{'], k) by {
            lemma_brace(content, k);
        }
    }
}

/// The block of a struct is the part of the source from where the struct starts to where its
/// braces are closed, wherever there are such places.
pub proof fn struct_blocks_end_where_braces_close(
    content: Seq<char>,
    name: Seq<char>,
    text: Seq<char>,
)
    ensures
        is_struct_block(content, name, Block::Found(text)) <==> exists|
            start: int,
            open: int,
            end: int,
        | #[trigger]
            is_struct_at(content, name, start, open, end) && text == content.subrange(start, end),
{
    let marker = "pub struct "@ + name;
    if is_struct_block(content, name, Block::Found(text)) {
        let (start, open, end) = choose|start: int, open: int, end: int|
            {
                &&& #[trigger] first_occurrence(content, marker, 0, start)
                &&& #[trigger] first_occurrence(content, seq!['{'], start, open)
                &&& #[trigger] closes(content, open, end)
                &&& text == content.subrange(start, end)
            };
        lemma_first_marker(content, marker, start);
        lemma_first_brace(content, start, open);
        lemma_open_braces(content, open, end);
        assert forall|e: int| open < e < end implies unclosed(
            #[trigger] content.subrange(open, e),
        ) > 0 by {
            lemma_open_braces(content, open, e);
        }
        assert(is_struct_at(content, name, start, open, end));
    }
    if exists|start: int, open: int, end: int| #[trigger]
        is_struct_at(content, name, start, open, end) && text == content.subrange(start, end) {
        let (start, open, end) = choose|start: int, open: int, end: int| #[trigger]
            is_struct_at(content, name, start, open, end) && text == content.subrange(start, end);
        lemma_first_marker(content, marker, start);
        lemma_first_brace(content, start, open);
        lemma_unclosed(content, open, end);
        assert forall|e: int| open < e < end implies open_braces(
            #[trigger] content.subrange(open, e),
        ) > 0 by {
            lemma_unclosed(content, open, e);
        }
        assert(first_occurrence(content, marker, 0, start));
        assert(first_occurrence(content, seq!['{'], start, open));
        assert(closes(content, open, end));
    }
}

/// A struct that is reported as missing is named nowhere in the source. One without an opening
/// brace is named, and no brace opens from there on. One without a closing brace has an opening
/// one, from which on more braces open than close, however far one reads. The name that is reported
/// is the one that was looked for.
pub proof fn struct_errors_say_what_is_missing(content: Seq<char>, name: Seq<char>, e: ThemeError)
    requires
        reports_block(content, name, Err(e)),
    ensures
        match e {
            ThemeError::StructMissing(n) => n@ == name && forall|k: int|
                0 <= k && k + ("pub struct "@ + name).len() <= content.len()
                    ==> #[trigger] content.subrange(k, k + ("pub struct "@ + name).len())
                    != "pub struct "@ + name,
            ThemeError::OpeningBraceMissing(n) => n@ == name && exists|start: int|
                #![trigger first_occurrence(content, "pub struct "@ + name, 0, start)]
                {
                    &&& first_occurrence(content, "pub struct "@ + name, 0, start)
                    &&& forall|k: int| start <= k < content.len() ==> #[trigger] content[k] != '{'
                },
            ThemeError::ClosingBraceMissing(n) => n@ == name && exists|start: int, open: int|
                #![trigger
                    first_occurrence(content, "pub struct "@ + name, 0, start),
                    content[open]]
                {
                    &&& first_occurrence(content, "pub struct "@ + name, 0, start)
                    &&& start <= open < content.len()
                    &&& content[open] == '{'
                    &&& forall|k: int| start <= k < open ==> #[trigger] content[k] != '{'
                    &&& forall|end: int|
                        open < end <= content.len() ==> unclosed(
                            #[trigger] content.subrange(open, end),
                        ) > 0
                },
            _ => false,
        },
{
    let marker = "pub struct "@ + name;
    let block = choose|block: Block| #[trigger]
        is_struct_block(content, name, block) && is_block_error(block, name, e);
    match block {
        Block::NoStruct => {
            assert forall|k: int|
                0 <= k && k + marker.len() <= content.len() implies #[trigger] content.subrange(
                k,
                k + marker.len(),
            ) != marker by {
                assert(!occurs_at(content, marker, k));
            }
        },
        Block::NoOpening => {
            let start = choose|start: int|
                {
                    &&& #[trigger] first_occurrence(content, marker, 0, start)
                    &&& forall|k: int| start <= k ==> !occurs_at(content, seq!['{'], k)
                };
            assert forall|k: int| start <= k < content.len() implies #[trigger] content[k]
                != '{' by {
                lemma_brace(content, k);
            }
        },
        Block::NoClosing => {
            let (start, open) = choose|start: int, open: int|
                {
                    &&& #[trigger] first_occurrence(content, marker, 0, start)
                    &&& #[trigger] first_occurrence(content, seq!['{'], start, open)
                    &&& forall|end: int| !closes(content, open, end)
                };
            lemma_first_brace(content, start, open);
            assert forall|end: int| open < end <= content.len() implies unclosed(
                #[trigger] content.subrange(open, end),
            ) > 0 by {
                lemma_never_closed(content, open, end);
            }
            assert(content[open] == '{');
        },
        Block::Found(_) => {},
    }
}

proof fn lemma_never_closed(content: Seq<char>, open: int, end: int)
    requires
        0 <= open < end <= content.len(),
        content[open] == '{',
        forall|e: int| !closes(content, open, e),
    ensures
        open_braces(content.subrange(open, end)) > 0,
        unclosed(content.subrange(open, end)) > 0,
    decreases end,
{
    assert forall|d: int| open < d < end implies open_braces(
        #[trigger] content.subrange(open, d),
    ) > 0 by {
        lemma_never_closed(content, open, d);
    }
    assert(!closes(content, open, end));
    lemma_open_braces(content, open, end);
}

// ---------------------------------------------------------------------------------------
// Syntax captures
// ---------------------------------------------------------------------------------------

/// The line is the heading of the section on syntax highlighting.
pub open spec fn is_heading(line: Seq<char>) -> bool {
    trim(line) == "### Syntax highlighting"@
}

/// Line `h` is the first that is the heading of the section.
pub open spec fn is_first_heading(ls: Seq<Seq<char>>, h: int) -> bool {
    &&& 0 <= h < ls.len()
    &&& is_heading(ls[h])
    &&& forall|m: int| 0 <= m < h ==> !is_heading(#[trigger] ls[m])
}

/// Line `j` lies in the section whose first heading is line `h`: it comes after the heading and is
/// no such heading itself, and no other heading of the same level stands between, nor is it one.
pub open spec fn lies_in_section(ls: Seq<Seq<char>>, h: int, j: int) -> bool {
    &&& is_first_heading(ls, h)
    &&& h < j < ls.len()
    &&& !is_heading(ls[j])
    &&& forall|e: int|
        h < e <= j && starts_with(#[trigger] ls[e], "### "@) ==> is_heading(ls[e])
}

proof fn lemma_first_heading(ls: Seq<Seq<char>>, n: int) -> (h: int)
    requires
        0 <= n < ls.len(),
        is_heading(ls[n]),
    ensures
        0 <= h <= n,
        is_first_heading(ls, h),
    decreases n,
{
    if exists|m: int| 0 <= m < n && is_heading(#[trigger] ls[m]) {
        let m = choose|m: int| 0 <= m < n && is_heading(#[trigger] ls[m]);
        lemma_first_heading(ls, m)
    } else {
        n
    }
}

/// The captures of the section are those that were caught on the lines that lie in it.
pub proof fn captures_of_the_section_stand_in_it(
    ls: Seq<Seq<char>>,
    caught: Seq<Option<Seq<char>>>,
    k: Seq<char>,
)
    ensures
        section_keys(ls, caught).contains(k) <==> exists|h: int, j: int| #[trigger]
            lies_in_section(ls, h, j) && caught[j] == Some(k),
{
    if section_keys(ls, caught).contains(k) {
        let j = choose|j: int|
            0 <= j < ls.len() && in_section(ls, j) && !opens_section(#[trigger] ls[j]) && caught[j]
                == Some(k);
        let n = choose|n: int| 0 <= n < j && opens_section(#[trigger] ls[n]);
        let h = lemma_first_heading(ls, n);
        assert(opens_section(ls[h]));
        assert(lies_in_section(ls, h, j));
    }
    if exists|h: int, j: int| #[trigger] lies_in_section(ls, h, j) && caught[j] == Some(k) {
        let (h, j) = choose|h: int, j: int| #[trigger]
            lies_in_section(ls, h, j) && caught[j] == Some(k);
        assert(opens_section(ls[h]));
        assert(in_section(ls, j)) by {
            assert forall|m: int, e: int|
                0 <= m < e <= j && opens_section(#[trigger] ls[m]) implies !(
            ends_section(#[trigger] ls[e])) by {
                assert(is_heading(ls[m]));
                assert(m >= h);
            }
        }
        assert(!opens_section(ls[j]));
    }
}

/// A capture is among those of the documentation exactly where a row that lies in the section on
/// syntax highlighting lists it.
pub proof fn core_captures_are_listed_in_the_section(content: Seq<char>, k: Seq<char>)
    ensures
        core_syntax_keys(content).contains(k) <==> exists|h: int, j: int| #[trigger]
            lies_in_section(lines(content), h, j) && first_match(
                CORE_PATTERN@,
                lines(content)[j],
            ) == Some(Some(k)),
{
    let ls = lines(content);
    let caught = ls.map_values(
        |line: Seq<char>| first_catch(CORE_PATTERN@, line),
    );
    captures_of_the_section_stand_in_it(ls, caught, k);
    if exists|h: int, j: int| #[trigger] lies_in_section(ls, h, j) && caught[j] == Some(k) {
        let (h, j) = choose|h: int, j: int| #[trigger]
            lies_in_section(ls, h, j) && caught[j] == Some(k);
        assert(first_match(CORE_PATTERN@, ls[j]) == Some(Some(k)));
    }
    if exists|h: int, j: int| #[trigger]
        lies_in_section(ls, h, j) && first_match(CORE_PATTERN@, ls[j]) == Some(Some(k)) {
        let (h, j) = choose|h: int, j: int| #[trigger]
            lies_in_section(ls, h, j) && first_match(CORE_PATTERN@, ls[j]) == Some(Some(k));
        assert(caught[j] == Some(k));
    }
}

/// A capture is among those of the queries exactly where it was caught in one of the queries that
/// were read.
pub proof fn observed_captures_are_used_by_a_query(files: Seq<HighlightsFile>, k: Seq<char>)
    ensures
        observed_syntax_keys(files).contains(k) <==> exists|i: int|
            0 <= i < files.len() && ((#[trigger] files[i]).content matches Ok(text) && all_matches(
                OBSERVED_PATTERN@,
                text@,
            ).contains(Some(k))),
{
    if observed_syntax_keys(files).contains(k) {
        let i = choose|i: int|
            0 <= i < files.len() && (#[trigger] files[i]).content is Ok && catches(
                OBSERVED_PATTERN@,
                files[i].content->Ok_0@,
            ).contains(k);
        assert(all_matches(OBSERVED_PATTERN@, files[i].content->Ok_0@).contains(Some(k)));
    }
    if exists|i: int|
        0 <= i < files.len() && ((#[trigger] files[i]).content matches Ok(text) && all_matches(
            OBSERVED_PATTERN@,
            text@,
        ).contains(Some(k))) {
        let i = choose|i: int|
            0 <= i < files.len() && ((#[trigger] files[i]).content matches Ok(text) && all_matches(
                OBSERVED_PATTERN@,
                text@,
            ).contains(Some(k)));
        assert(catches(OBSERVED_PATTERN@, files[i].content->Ok_0@).contains(k));
    }
}

// ---------------------------------------------------------------------------------------
// The known keys
// ---------------------------------------------------------------------------------------

/// A key is expected exactly where a rename in one of the three structs gives it and no field of
/// the colours that goes by it is deprecated; it is deprecated exactly where such a field is.
pub proof fn expected_keys_are_renames_that_are_not_deprecated(
    sets: KeySets,
    theme_content: Seq<char>,
    syntax_core_md: Seq<char>,
    highlights: Seq<HighlightsFile>,
    style: Seq<char>,
    colors: Seq<char>,
    status: Seq<char>,
    k: Seq<char>,
)
    requires
        holds_known_keys(sets, theme_content, syntax_core_md, highlights),
        is_struct_block(theme_content, "ThemeStyleContent"@, Block::Found(style)),
        is_struct_block(theme_content, "ThemeColorsContent"@, Block::Found(colors)),
        is_struct_block(theme_content, "StatusColorsContent"@, Block::Found(status)),
    ensures
        sets.expected_non_syntax@.contains(k) <==> (all_matches(RENAME_PATTERN@, style).contains(
            Some(k),
        ) || all_matches(RENAME_PATTERN@, colors).contains(Some(k)) || all_matches(
            RENAME_PATTERN@,
            status,
        ).contains(Some(k))) && !sets.deprecated_non_syntax@.contains(k),
        sets.deprecated_non_syntax@.contains(k) <==> exists|i: int| #[trigger]
            is_deprecated_field(trimmed_lines(colors), i) && goes_by(trimmed_lines(colors), i, k),
        sets.syntax_core@ == core_syntax_keys(syntax_core_md),
        sets.syntax_observed@ == observed_syntax_keys(highlights),
{
    let (a, b, c) = choose|a: Seq<char>, b: Seq<char>, c: Seq<char>|
        {
            let deprecated = deprecated_keys(b);
            &&& #[trigger] is_struct_block(theme_content, "ThemeStyleContent"@, Block::Found(a))
            &&& #[trigger] is_struct_block(theme_content, "ThemeColorsContent"@, Block::Found(b))
            &&& #[trigger] is_struct_block(theme_content, "StatusColorsContent"@, Block::Found(c))
            &&& sets.expected_non_syntax@ == catches(RENAME_PATTERN@, a).union(
                catches(RENAME_PATTERN@, b),
            ).union(catches(RENAME_PATTERN@, c)).difference(deprecated)
            &&& sets.deprecated_non_syntax@ == deprecated
            &&& sets.syntax_core@ == core_syntax_keys(syntax_core_md)
            &&& sets.syntax_observed@ == observed_syntax_keys(highlights)
        };
    struct_block_is_unique(
        theme_content,
        "ThemeStyleContent"@,
        Block::Found(a),
        Block::Found(style),
    );
    struct_block_is_unique(
        theme_content,
        "ThemeColorsContent"@,
        Block::Found(b),
        Block::Found(colors),
    );
    struct_block_is_unique(
        theme_content,
        "StatusColorsContent"@,
        Block::Found(c),
        Block::Found(status),
    );
    deprecated_keys_are_those_of_deprecated_fields(colors, k);
}

/// A capture is expected at a level exactly where a source that the level names gives it.
pub proof fn levels_name_their_sources(sets: KeySets, k: Seq<char>)
    ensures
        !captures_of_level(sets, SyntaxLevel::Off).contains(k),
        captures_of_level(sets, SyntaxLevel::Core).contains(k) <==> sets.syntax_core@.contains(k),
        captures_of_level(sets, SyntaxLevel::Observed).contains(k)
            <==> sets.syntax_observed@.contains(k),
        captures_of_level(sets, SyntaxLevel::Both).contains(k) <==> sets.syntax_core@.contains(k)
            || sets.syntax_observed@.contains(k),
{
}

/// The query that is reported is one that could not be read, and all before it could.
pub proof fn the_first_unreadable_query_is_reported(
    files: Seq<HighlightsFile>,
    i: int,
    j: int,
)
    requires
        first_unreadable(files, i),
        0 <= j < files.len(),
        files[j].content is Err,
    ensures
        0 <= i <= j,
        files[i].content is Err,
{
}

/// What is wrong with the sources is said of the first that is: the structs of the style, of the
/// colours and of the status colours, in that order; then the patterns; and then the queries.
pub proof fn key_errors_are_of_the_first_problem(
    e: ThemeError,
    theme_content: Seq<char>,
    highlights: Seq<HighlightsFile>,
    style: Seq<char>,
    colors: Seq<char>,
    status: Seq<char>,
)
    requires
        is_key_error(e, theme_content, highlights),
    ensures
        (forall|text: Seq<char>| !#[trigger]
            is_struct_block(theme_content, "ThemeStyleContent"@, Block::Found(text)))
            ==> reports_block(theme_content, "ThemeStyleContent"@, Err(e)),
        is_struct_block(theme_content, "ThemeStyleContent"@, Block::Found(style)) && (forall|
            text: Seq<char>,
        | !#[trigger] is_struct_block(theme_content, "ThemeColorsContent"@, Block::Found(text)))
            ==> reports_block(theme_content, "ThemeColorsContent"@, Err(e)),
        is_struct_block(theme_content, "ThemeStyleContent"@, Block::Found(style))
            && is_struct_block(theme_content, "ThemeColorsContent"@, Block::Found(colors)) && (
        forall|text: Seq<char>| !#[trigger]
            is_struct_block(theme_content, "StatusColorsContent"@, Block::Found(text)))
            ==> reports_block(theme_content, "StatusColorsContent"@, Err(e)),
        is_struct_block(theme_content, "ThemeStyleContent"@, Block::Found(style))
            && is_struct_block(theme_content, "ThemeColorsContent"@, Block::Found(colors))
            && is_struct_block(theme_content, "StatusColorsContent"@, Block::Found(status))
            && patterns_are_valid() ==> exists|i: int|
            {
                &&& 0 <= i < highlights.len()
                &&& (#[trigger] highlights[i]).content matches Err(cause)
                &&& e == ThemeError::Unreadable(highlights[i].path, cause)
                &&& forall|j: int| 0 <= j < i ==> (#[trigger] highlights[j]).content is Ok
            },
{
    if is_struct_block(theme_content, "ThemeStyleContent"@, Block::Found(style))
        && is_struct_block(theme_content, "ThemeColorsContent"@, Block::Found(colors))
        && is_struct_block(theme_content, "StatusColorsContent"@, Block::Found(status))
        && patterns_are_valid() {
        let i = choose|i: int| #[trigger]
            first_unreadable(highlights, i) && e == ThemeError::Unreadable(
                highlights[i].path,
                highlights[i].content->Err_0,
            );
        assert(highlights[i].content is Err);
    }
}

/// Of what a pattern caught each text comes after those before it; a match that caught nothing
/// leaves no trace.
pub proof fn catches_are_taken_one_by_one(
    a: Seq<Option<Seq<char>>>,
    b: Seq<Option<Seq<char>>>,
    k: Seq<char>,
)
    ensures
        caught_texts(a + b) == caught_texts(a) + caught_texts(b),
        caught_texts(seq![Some(k)]) == seq![k],
        caught_texts(seq![None]) == Seq::<Seq<char>>::empty(),
    decreases b.len(),
{
    reveal_with_fuel(caught_texts, 2);
    assert(seq![Some(k)].drop_last() =~= Seq::empty());
    assert(seq![None::<Seq<char>>].drop_last() =~= Seq::empty());
    assert(caught_texts(seq![Some(k)]) =~= seq![k]);
    if b.len() > 0 {
        catches_are_taken_one_by_one(a, b.drop_last(), k);
        assert((a + b).drop_last() =~= a + b.drop_last());
        assert(caught_texts(a + b) =~= caught_texts(a) + caught_texts(b));
    } else {
        assert(a + b =~= a);
    }
}

/// A line with a rename, or one that says that a field is deprecated, counts for the field that is
/// declared next, beside what has been read for it. A line that declares a field ends that: its key
/// is found exactly where the field is deprecated, by what has been read or by its name, and nothing
/// is carried over to the next. Any other line changes nothing.
pub proof fn lines_count_for_the_next_field(
    s: ScanModel,
    line: Seq<char>,
    rename: Option<Seq<char>>,
    field: Option<Seq<char>>,
    k: Seq<char>,
)
    ensures
        ({
            let after = scan_line(s, line, rename, field);
            let deprecates = line == "#[deprecated]"@ || (starts_with(line, "///"@)
                && contains_text(ascii_lowercase(line), "deprecated"@));
            let marked = s.attribute || s.doc;
            &&& rename is Some ==> after.rename == rename && (after.attribute || after.doc)
                == marked && after.found == s.found
            &&& rename is None && deprecates ==> after.rename == s.rename && (after.attribute
                || after.doc) && after.found == s.found
            &&& rename is None && !deprecates ==> (field matches Some(name) ==> {
                &&& after.rename is None && !after.attribute && !after.doc
                &&& after.found.contains(k) <==> s.found.contains(k) || (k == (match s.rename {
                    Some(renamed) => renamed,
                    None => name,
                }) && (marked || starts_with(name, "deprecated_"@)))
            })
            &&& rename is None && !deprecates && field is None ==> after == s
        }),
        scan_start().rename is None,
        !scan_start().attribute && !scan_start().doc,
        !scan_start().found.contains(k),
{
}

/// A pattern catches on a text what its matches have in group 1; the first match alone counts where
/// one is looked for.
pub proof fn catches_are_those_of_the_matches(pattern: Seq<char>, text: Seq<char>, k: Seq<char>)
    ensures
        catches(pattern, text).contains(k) <==> all_matches(pattern, text).contains(Some(k)),
        first_catch(pattern, text) == Some(k) <==> first_match(pattern, text) == Some(Some(k)),
{
}

/// A pattern error tells why that very pattern is not well formed.
pub proof fn pattern_errors_tell_of_the_pattern(e: ThemeError, pattern: Seq<char>)
    requires
        is_pattern_error(e, pattern),
    ensures
        e matches ThemeError::InvalidPattern(cause) && pattern_error(pattern) == Some(cause@),
        !pattern_is_valid(pattern),
{
}

/// What the patterns look for, and where the sources are.
pub proof fn patterns_and_sources()
    ensures
        RENAME_PATTERN@ == "#\\[serde\\(rename = \"([^\"]+)\"(?:, [^\\)]*)?\\)\\]"@,
        FIELD_PATTERN@ == "^pub\\s+([a-zA-Z0-9_]+)\\s*:"@,
        CORE_PATTERN@ == "^\\|\\s*@([a-z0-9_.]+)\\s*\\|"@,
        OBSERVED_PATTERN@ == "@([A-Za-z0-9_.]+)"@,
        THEME_CONTENT_PATH@ == "crates/settings_content/src/theme.rs"@,
        SYNTAX_CORE_PATH@ == "docs/src/extensions/languages.md"@,
{
}

} // verus!
