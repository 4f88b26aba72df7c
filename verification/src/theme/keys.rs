//! Where the known keys come from: the structs that hold theme content, the table of
//! captures in the language documentation, and the highlight queries.
use crate::key_set::KeySet;
use crate::text::{
    ascii_lowercase, ascii_lowercased, chars_of, contains_text, find_text, first_occurrence,
    has_prefix, has_text, lines, lines_of, occurs_at, opt_text, same_text, starts_with, texts,
    trim, trimmed,
};
use crate::theme::errors::ThemeError;
use crate::theme::patterns::{
    catches, find_all, find_first, first_catch, is_modest, new_regex, pattern_error,
    pattern_is_valid, pattern_of,
};
use regex::Regex;
use vstd::prelude::*;
use vstd::string::*;

verus! {

// ---------------------------------------------------------------------------------------
// Struct blocks
// ---------------------------------------------------------------------------------------

/// How many braces are open after `s`, where a closing brace without an opening one counts
/// for nothing.
pub open spec fn open_braces(s: Seq<char>) -> nat
    decreases s.len(),
{
    if s.len() == 0 {
        0
    } else {
        let before = open_braces(s.drop_last());
        if s.last() == '{' {
            before + 1
        } else if s.last() == '}' && before > 0 {
            (before - 1) as nat
        } else {
            before
        }
    }
}

/// The brace at `open` is closed by the character before `end`, and not earlier.
pub open spec fn closes(s: Seq<char>, open: int, end: int) -> bool {
    &&& open < end <= s.len()
    &&& open_braces(s.subrange(open, end)) == 0
    &&& forall|e: int| open < e < end ==> open_braces(#[trigger] s.subrange(open, e)) > 0
}

/// What is found of a struct in a source text.
pub ghost enum Block {
    /// The text from the keyword to the closing brace.
    Found(Seq<char>),
    NoStruct,
    NoOpening,
    NoClosing,
}

/// `block` is what the first struct named `name` comes to in `content`: from the first place
/// where `pub struct name` stands, to the brace that closes the first brace after it.
pub open spec fn is_struct_block(content: Seq<char>, name: Seq<char>, block: Block) -> bool {
    let marker = "pub struct "@ + name;
    match block {
        Block::NoStruct => forall|k: int| !occurs_at(content, marker, k),
        Block::NoOpening => exists|start: int|
            {
                &&& #[trigger] first_occurrence(content, marker, 0, start)
                &&& forall|k: int| start <= k ==> !occurs_at(content, seq!['{'], k)
            },
        Block::NoClosing => exists|start: int, open: int|
            {
                &&& #[trigger] first_occurrence(content, marker, 0, start)
                &&& #[trigger] first_occurrence(content, seq!['{'], start, open)
                &&& forall|end: int| !closes(content, open, end)
            },
        Block::Found(text) => exists|start: int, open: int, end: int|
            {
                &&& #[trigger] first_occurrence(content, marker, 0, start)
                &&& #[trigger] first_occurrence(content, seq!['{'], start, open)
                &&& #[trigger] closes(content, open, end)
                &&& text == content.subrange(start, end)
            },
    }
}

/// A source text and a name determine the block.
pub proof fn struct_block_is_unique(content: Seq<char>, name: Seq<char>, a: Block, b: Block)
    requires
        is_struct_block(content, name, a),
        is_struct_block(content, name, b),
    ensures
        a == b,
{
    let marker = "pub struct "@ + name;
    assert forall|s: int, t: int|
        #[trigger] first_occurrence(content, marker, 0, s) && #[trigger] first_occurrence(
            content,
            marker,
            0,
            t,
        ) implies s == t by {
        assert(occurs_at(content, marker, s));
        assert(occurs_at(content, marker, t));
    }
    assert forall|f: int, s: int, t: int|
        #[trigger] first_occurrence(content, seq!['{'], f, s) && #[trigger] first_occurrence(
            content,
            seq!['{'],
            f,
            t,
        ) implies s == t by {
        assert(occurs_at(content, seq!['{'], s));
        assert(occurs_at(content, seq!['{'], t));
    }
    assert forall|o: int, s: int, t: int| #[trigger]
        closes(content, o, s) && #[trigger] closes(content, o, t) implies s == t by {
        assert(open_braces(content.subrange(o, s)) == 0);
        assert(open_braces(content.subrange(o, t)) == 0);
    }
}

/// The error that stands for a block that was not found.
pub open spec fn is_block_error(block: Block, name: Seq<char>, e: ThemeError) -> bool {
    match block {
        Block::Found(_) => false,
        Block::NoStruct => e matches ThemeError::StructMissing(n) && n@ == name,
        Block::NoOpening => e matches ThemeError::OpeningBraceMissing(n) && n@ == name,
        Block::NoClosing => e matches ThemeError::ClosingBraceMissing(n) && n@ == name,
    }
}

/// The result `r` reports the block of the struct named `name` in `content`.
pub open spec fn reports_block(
    content: Seq<char>,
    name: Seq<char>,
    r: Result<Seq<char>, ThemeError>,
) -> bool {
    match r {
        Ok(text) => is_struct_block(content, name, Block::Found(text)),
        Err(e) => exists|block: Block| #[trigger]
            is_struct_block(content, name, block) && is_block_error(block, name, e),
    }
}

/// The text of the first struct named `struct_name`, from `pub struct` to its closing brace.
pub fn extract_struct_block<'a>(content: &'a str, struct_name: &str) -> (r: Result<
    &'a str,
    ThemeError,
>)
    ensures
        match r {
            Ok(text) => reports_block(content@, struct_name@, Ok(text@)),
            Err(e) => reports_block(content@, struct_name@, Err(e)),
        },
{
    let mut marker = "pub struct ".to_owned();
    marker.append(struct_name);
    let chars = chars_of(content);
    let wanted = chars_of(marker.as_str());
    let start: usize = match find_text(&chars, &wanted, 0) {
        Some(at) => at,
        None => {
            assert forall|k: int| !occurs_at(content@, marker@, k) by {}
            assert(is_struct_block(content@, struct_name@, Block::NoStruct));
            return Err(ThemeError::StructMissing(struct_name.to_owned()));
        },
    };
    assert(occurs_at(content@, marker@, start as int));
    let brace: Vec<char> = vec!['{'];
    assert(brace@ =~= seq!['{']);
    let open: usize = match find_text(&chars, &brace, start) {
        Some(at) => at,
        None => {
            assert(is_struct_block(content@, struct_name@, Block::NoOpening));
            return Err(ThemeError::OpeningBraceMissing(struct_name.to_owned()));
        },
    };
    assert(occurs_at(content@, seq!['{'], open as int));
    assert(chars@.subrange(open as int, open + 1)[0] == '{');
    let mut depth: usize = 0;
    let mut i: usize = open;
    assert(chars@.subrange(open as int, open as int).len() == 0);
    while i < chars.len()
        invariant
            open <= i <= chars@.len(),
            chars@ == content@,
            chars@[open as int] == '{',
            open < chars@.len(),
            depth == open_braces(chars@.subrange(open as int, i as int)),
            depth <= i - open,
            forall|e: int|
                open < e <= i ==> open_braces(#[trigger] chars@.subrange(open as int, e)) > 0,
            first_occurrence(content@, marker@, 0, start as int),
            first_occurrence(content@, seq!['{'], start as int, open as int),
            marker@ == "pub struct "@ + struct_name@,
        decreases chars@.len() - i,
    {
        let c = chars[i];
        let ghost now = chars@.subrange(open as int, i + 1);
        assert(now.drop_last() =~= chars@.subrange(open as int, i as int));
        assert(now.last() == c);
        if c == '{' {
            depth = depth + 1;
        } else if c == '}' && depth > 0 {
            depth = depth - 1;
        }
        assert(depth == open_braces(now));
        i = i + 1;
        if depth == 0 {
            assert(closes(content@, open as int, i as int));
            let text = content.substring_char(start, i);
            assert(is_struct_block(content@, struct_name@, Block::Found(text@)));
            return Ok(text);
        }
    }
    assert(is_struct_block(content@, struct_name@, Block::NoClosing));
    Err(ThemeError::ClosingBraceMissing(struct_name.to_owned()))
}

// ---------------------------------------------------------------------------------------
// Keys of a struct
// ---------------------------------------------------------------------------------------

/// Finds the name in a serde rename attribute.
pub const RENAME_PATTERN: &'static str = "#\\[serde\\(rename = \"([^\"]+)\"(?:, [^\\)]*)?\\)\\]";

/// Finds the name of a public field that a line starts with.
pub const FIELD_PATTERN: &'static str = "^pub\\s+([a-zA-Z0-9_]+)\\s*:";

/// Finds the capture in a row of the documentation's table.
pub const CORE_PATTERN: &'static str = "^\\|\\s*@([a-z0-9_.]+)\\s*\\|";

/// Finds a capture in a highlight query.
pub const OBSERVED_PATTERN: &'static str = "@([A-Za-z0-9_.]+)";

/// The patterns are short and repeat nothing a counted number of times.
proof fn lemma_patterns_are_modest()
    ensures
        is_modest(RENAME_PATTERN@),
        is_modest(FIELD_PATTERN@),
        is_modest(CORE_PATTERN@),
        is_modest(OBSERVED_PATTERN@),
{
    reveal_strlit("#\\[serde\\(rename = \"([^\"]+)\"(?:, [^\\)]*)?\\)\\]");
    reveal_strlit("^pub\\s+([a-zA-Z0-9_]+)\\s*:");
    reveal_strlit("^\\|\\s*@([a-z0-9_.]+)\\s*\\|");
    reveal_strlit("@([A-Za-z0-9_.]+)");
}

/// The error says what is wrong with a pattern.
pub open spec fn is_pattern_error(e: ThemeError, pattern: Seq<char>) -> bool {
    e matches ThemeError::InvalidPattern(cause) && pattern_error(pattern) == Some(cause@)
}

/// Compiles a pattern.
fn compile(pattern: &str) -> (r: Result<Regex, ThemeError>)
    requires
        is_modest(pattern@),
    ensures
        match r {
            Ok(re) => pattern_is_valid(pattern@) && pattern_of(re) == pattern@,
            Err(e) => is_pattern_error(e, pattern@),
        },
{
    match new_regex(pattern) {
        Ok(re) => Ok(re),
        Err(cause) => Err(ThemeError::InvalidPattern(cause)),
    }
}

/// The names that the rename attributes of a block give.
pub fn extract_serde_renames(block: &str) -> (r: Result<KeySet, ThemeError>)
    ensures
        match r {
            Ok(keys) => pattern_is_valid(RENAME_PATTERN@) && keys@ == catches(
                RENAME_PATTERN@,
                block@,
            ),
            Err(e) => is_pattern_error(e, RENAME_PATTERN@),
        },
{
    proof {
        lemma_patterns_are_modest();
    }
    let re = compile(RENAME_PATTERN)?;
    let names = find_all(&re, block);
    let mut keys = KeySet::new();
    keys.extend(&names);
    assert(keys@ =~= catches(RENAME_PATTERN@, block@));
    Ok(keys)
}

/// What has been read of a block whose deprecated fields are looked for.
pub ghost struct ScanModel {
    /// The name that the next field is renamed to.
    pub rename: Option<Seq<char>>,
    /// The next field carries the deprecation attribute.
    pub attribute: bool,
    /// The next field's documentation calls it deprecated.
    pub doc: bool,
    /// The keys of the deprecated fields so far.
    pub found: Set<Seq<char>>,
}

/// Before the first line.
pub open spec fn scan_start() -> ScanModel {
    ScanModel { rename: None, attribute: false, doc: false, found: Set::empty() }
}

/// After one more line. `rename` is the name that a rename attribute on the line gives, and
/// `field` the name of the field that the line declares. What stands before a field
/// counts for that field, and for no other.
pub open spec fn scan_line(
    s: ScanModel,
    line: Seq<char>,
    rename: Option<Seq<char>>,
    field: Option<Seq<char>>,
) -> ScanModel {
    if rename is Some {
        ScanModel { rename, ..s }
    } else if line == "#[deprecated]"@ {
        ScanModel { attribute: true, ..s }
    } else if starts_with(line, "///"@) && contains_text(
        ascii_lowercase(line),
        "deprecated"@,
    ) {
        ScanModel { doc: true, ..s }
    } else {
        match field {
            Some(name) => {
                let key = match s.rename {
                    Some(renamed) => renamed,
                    None => name,
                };
                let deprecated = s.attribute || s.doc || starts_with(name, "deprecated_"@);
                ScanModel {
                    rename: None,
                    attribute: false,
                    doc: false,
                    found: if deprecated {
                        s.found.insert(key)
                    } else {
                        s.found
                    },
                }
            },
            None => s,
        }
    }
}

/// After all of `lines`, each without the white space around it.
pub open spec fn scan_lines(lines: Seq<Seq<char>>) -> ScanModel
    decreases lines.len(),
{
    if lines.len() == 0 {
        scan_start()
    } else {
        let line = trim(lines.last());
        scan_line(
            scan_lines(lines.drop_last()),
            line,
            first_catch(RENAME_PATTERN@, line),
            first_catch(FIELD_PATTERN@, line),
        )
    }
}

/// The keys of the deprecated fields of a block.
pub open spec fn deprecated_keys(block: Seq<char>) -> Set<Seq<char>> {
    scan_lines(lines(block)).found
}

/// What has been read of a block whose deprecated fields are looked for.
#[derive(Debug)]
pub struct DeprecatedScan {
    pub rename: Option<String>,
    pub attribute: bool,
    pub doc: bool,
    pub found: KeySet,
}

impl DeprecatedScan {
    pub open spec fn model(self) -> ScanModel {
        ScanModel {
            rename: opt_text(self.rename),
            attribute: self.attribute,
            doc: self.doc,
            found: self.found@,
        }
    }

    /// Before the first line.
    pub fn new() -> (r: DeprecatedScan)
        ensures
            r.model() == scan_start(),
    {
        DeprecatedScan { rename: None, attribute: false, doc: false, found: KeySet::new() }
    }

    /// Takes in one more line, with what the rename and the field pattern catch on it.
    pub fn line(&mut self, line: &str, rename: Option<String>, field: Option<String>)
        ensures
            final(self).model() == scan_line(
                old(self).model(),
                line@,
                opt_text(rename),
                opt_text(field),
            ),
    {
        if rename.is_some() {
            self.rename = rename;
        } else if same_text(line, "#[deprecated]") {
            self.attribute = true;
        } else if has_prefix(line, "///") && has_text(
            ascii_lowercased(line).as_str(),
            "deprecated",
        ) {
            self.doc = true;
        } else if let Some(name) = field {
            let deprecated = self.attribute || self.doc || has_prefix(
                name.as_str(),
                "deprecated_",
            );
            let key = match &self.rename {
                Some(renamed) => renamed.clone(),
                None => name,
            };
            if deprecated {
                self.found.insert(key);
            }
            self.rename = None;
            self.attribute = false;
            self.doc = false;
        }
    }
}

/// The keys of the deprecated fields of a block: those with the deprecation attribute, those
/// whose documentation says so, and those named so.
pub fn extract_deprecated_keys(block: &str) -> (r: Result<KeySet, ThemeError>)
    ensures
        match r {
            Ok(keys) => pattern_is_valid(RENAME_PATTERN@) && pattern_is_valid(FIELD_PATTERN@)
                && keys@ == deprecated_keys(block@),
            Err(e) => if pattern_is_valid(RENAME_PATTERN@) {
                is_pattern_error(e, FIELD_PATTERN@)
            } else {
                is_pattern_error(e, RENAME_PATTERN@)
            },
        },
{
    proof {
        lemma_patterns_are_modest();
    }
    let rename_regex = compile(RENAME_PATTERN)?;
    let field_regex = compile(FIELD_PATTERN)?;
    let mut scan = DeprecatedScan::new();
    let all = lines_of(block);
    let mut i: usize = 0;
    assert(texts(all@).take(0).len() == 0);
    while i < all.len()
        invariant
            i <= all@.len(),
            pattern_of(rename_regex) == RENAME_PATTERN@,
            pattern_of(field_regex) == FIELD_PATTERN@,
            scan.model() == scan_lines(texts(all@).take(i as int)),
        decreases all@.len() - i,
    {
        let line = trimmed(all[i].as_str());
        let rename = find_first(&rename_regex, line.as_str());
        let field = find_first(&field_regex, line.as_str());
        scan.line(line.as_str(), rename, field);
        proof {
            let now = texts(all@).take(i + 1);
            assert(now.drop_last() =~= texts(all@).take(i as int));
            assert(now.last() == all@[i as int]@);
        }
        i = i + 1;
    }
    assert(texts(all@).take(all@.len() as int) =~= texts(all@));
    Ok(scan.found)
}

// ---------------------------------------------------------------------------------------
// Syntax captures
// ---------------------------------------------------------------------------------------

/// The line that opens the section on syntax highlighting.
pub open spec fn opens_section(line: Seq<char>) -> bool {
    trim(line) == "### Syntax highlighting"@
}

/// A heading of the same level: it ends a section that is open.
pub open spec fn ends_section(line: Seq<char>) -> bool {
    starts_with(line, "### "@) && !opens_section(line)
}

/// Line `j` lies in the section: a line before it opens the section, and no line after that,
/// up to `j`, ends it.
pub open spec fn in_section(lines: Seq<Seq<char>>, j: int) -> bool {
    &&& exists|h: int| 0 <= h < j && opens_section(#[trigger] lines[h])
    &&& forall|h: int, e: int|
        0 <= h < e <= j && opens_section(#[trigger] lines[h]) ==> !ends_section(#[trigger] lines[e])
}

/// What the lines of the section, except its heading, caught: `caught` holds for each line what
/// was caught on it.
pub open spec fn section_keys(
    ls: Seq<Seq<char>>,
    caught: Seq<Option<Seq<char>>>,
) -> Set<Seq<char>> {
    Set::new(
        |k: Seq<char>|
            exists|j: int|
                0 <= j < ls.len() && in_section(ls, j) && !opens_section(#[trigger] ls[j])
                    && caught[j] == Some(k),
    )
}

/// The captures that the table in the documentation's section on syntax highlighting lists.
pub open spec fn core_syntax_keys(content: Seq<char>) -> Set<Seq<char>> {
    let ls = lines(content);
    section_keys(ls, ls.map_values(|line: Seq<char>| first_catch(CORE_PATTERN@, line)))
}

/// What the first `n` lines give.
spec fn section_keys_before(
    ls: Seq<Seq<char>>,
    caught: Seq<Option<Seq<char>>>,
    n: int,
) -> Set<Seq<char>> {
    Set::new(
        |k: Seq<char>|
            exists|j: int|
                0 <= j < n && in_section(ls, j) && !opens_section(#[trigger] ls[j]) && caught[j]
                    == Some(k),
    )
}

/// The keys of the section on syntax highlighting, from the lines of the documentation and
/// what was caught on each.
pub fn keys_of_section(all: &Vec<String>, caught: &Vec<Option<String>>) -> (keys: KeySet)
    requires
        caught@.len() == all@.len(),
    ensures
        keys@ == section_keys(
            texts(all@),
            caught@.map_values(|g: Option<String>| opt_text(g)),
        ),
{
    let ghost ls = texts(all@);
    let ghost cs = caught@.map_values(|g: Option<String>| opt_text(g));
    let mut inside = false;
    let mut keys = KeySet::new();
    let mut i: usize = 0;
    assert(keys@ =~= section_keys_before(ls, cs, 0));
    while i < all.len()
        invariant
            i <= all@.len(),
            caught@.len() == all@.len(),
            ls == texts(all@),
            cs == caught@.map_values(|g: Option<String>| opt_text(g)),
            inside == (exists|h: int| 0 <= h < i && opens_section(#[trigger] ls[h])),
            forall|h: int, e: int|
                0 <= h < e < i && opens_section(#[trigger] ls[h]) ==> !ends_section(
                    #[trigger] ls[e],
                ),
            keys@ == section_keys_before(ls, cs, i as int),
        decreases all@.len() - i,
    {
        let line = all[i].as_str();
        assert(ls[i as int] == line@);
        let heading = same_text(trimmed(line).as_str(), "### Syntax highlighting");
        assert(heading == opens_section(ls[i as int]));
        if heading {
            inside = true;
            assert(keys@ =~= section_keys_before(ls, cs, i + 1));
            i = i + 1;
            continue ;
        }
        if inside && has_prefix(line, "### ") {
            proof {
                let h = choose|h: int| 0 <= h < i && opens_section(#[trigger] ls[h]);
                assert(ends_section(ls[i as int]));
                assert forall|j: int| i <= j < ls.len() implies !in_section(ls, j) by {
                    assert(opens_section(ls[h]));
                }
                assert(keys@ =~= section_keys(ls, cs));
            }
            return keys;
        }
        if !inside {
            assert(!in_section(ls, i as int));
            assert(keys@ =~= section_keys_before(ls, cs, i + 1));
            i = i + 1;
            continue ;
        }
        assert(in_section(ls, i as int));
        let ghost before = keys@;
        assert(cs[i as int] == opt_text(caught@[i as int]));
        match &caught[i] {
            Some(k) => {
                keys.insert(k.clone());
                proof {
                    assert forall|x: Seq<char>|
                        before.insert(k@).contains(x) <==> section_keys_before(
                            ls,
                            cs,
                            i + 1,
                        ).contains(x) by {
                        if x == k@ {
                            assert(!opens_section(ls[i as int]));
                        }
                    }
                    assert(keys@ =~= section_keys_before(ls, cs, i + 1));
                }
            },
            None => {
                assert(keys@ =~= section_keys_before(ls, cs, i + 1));
            },
        }
        i = i + 1;
    }
    assert(keys@ =~= section_keys(ls, cs));
    keys
}

/// The captures that the documentation lists.
pub fn extract_core_syntax_keys(content: &str) -> (r: Result<KeySet, ThemeError>)
    ensures
        match r {
            Ok(keys) => pattern_is_valid(CORE_PATTERN@) && keys@ == core_syntax_keys(content@),
            Err(e) => is_pattern_error(e, CORE_PATTERN@),
        },
{
    proof {
        lemma_patterns_are_modest();
    }
    let re = compile(CORE_PATTERN)?;
    let all = lines_of(content);
    let mut caught: Vec<Option<String>> = Vec::new();
    let mut i: usize = 0;
    while i < all.len()
        invariant
            i <= all@.len(),
            pattern_of(re) == CORE_PATTERN@,
            caught@.len() == i,
            forall|j: int|
                0 <= j < i ==> opt_text(#[trigger] caught@[j]) == first_catch(
                    CORE_PATTERN@,
                    all@[j]@,
                ),
        decreases all@.len() - i,
    {
        caught.push(find_first(&re, all[i].as_str()));
        i = i + 1;
    }
    assert(caught@.map_values(|g: Option<String>| opt_text(g)) =~= lines(content@).map_values(
        |line: Seq<char>| first_catch(CORE_PATTERN@, line),
    ));
    Ok(keys_of_section(&all, &caught))
}

/// A highlight query that was looked for: where it is, and what it holds, or why it could not
/// be read.
#[derive(Debug)]
pub struct HighlightsFile {
    pub path: String,
    pub content: Result<String, String>,
}

/// Whether a directory entry is a highlight query.
pub fn is_highlights_file(is_file: bool, file_name: &str) -> (r: bool)
    ensures
        r == (is_file && file_name@ == "highlights.scm"@),
{
    is_file && same_text(file_name, "highlights.scm")
}

/// The captures of the queries that were read.
pub open spec fn observed_syntax_keys(files: Seq<HighlightsFile>) -> Set<Seq<char>> {
    Set::new(
        |k: Seq<char>|
            exists|i: int|
                0 <= i < files.len() && (#[trigger] files[i]).content is Ok && catches(
                    OBSERVED_PATTERN@,
                    files[i].content->Ok_0@,
                ).contains(k),
    )
}

/// File `i` is the first that could not be read.
pub open spec fn first_unreadable(files: Seq<HighlightsFile>, i: int) -> bool {
    &&& 0 <= i < files.len()
    &&& files[i].content is Err
    &&& forall|j: int| 0 <= j < i ==> (#[trigger] files[j]).content is Ok
}

/// All files could be read.
pub open spec fn all_readable(files: Seq<HighlightsFile>) -> bool {
    forall|j: int| 0 <= j < files.len() ==> (#[trigger] files[j]).content is Ok
}

/// The captures that the highlight queries use.
pub fn extract_observed_syntax_keys(files: &Vec<HighlightsFile>) -> (r: Result<KeySet, ThemeError>)
    ensures
        match r {
            Ok(keys) => pattern_is_valid(OBSERVED_PATTERN@) && all_readable(files@) && keys@
                == observed_syntax_keys(files@),
            Err(e) => if !pattern_is_valid(OBSERVED_PATTERN@) {
                is_pattern_error(e, OBSERVED_PATTERN@)
            } else {
                exists|i: int| #[trigger]
                    first_unreadable(files@, i) && e == ThemeError::Unreadable(
                        files@[i].path,
                        files@[i].content->Err_0,
                    )
            },
        },
{
    proof {
        lemma_patterns_are_modest();
    }
    let re = compile(OBSERVED_PATTERN)?;
    let mut keys = KeySet::new();
    let mut i: usize = 0;
    assert(keys@ =~= observed_syntax_keys(files@.take(0)));
    while i < files.len()
        invariant
            i <= files@.len(),
            pattern_of(re) == OBSERVED_PATTERN@,
            pattern_is_valid(OBSERVED_PATTERN@),
            forall|j: int| 0 <= j < i ==> (#[trigger] files@[j]).content is Ok,
            keys@ == observed_syntax_keys(files@.take(i as int)),
        decreases files@.len() - i,
    {
        let ghost before = keys@;
        match &files[i].content {
            Ok(content) => {
                let found = find_all(&re, content.as_str());
                keys.extend(&found);
                proof {
                    let a = files@.take(i as int);
                    let b = files@.take(i + 1);
                    assert forall|k: Seq<char>| #[trigger] keys@.contains(k) <==> observed_syntax_keys(
                        b,
                    ).contains(k) by {
                        if keys@.contains(k) {
                            if before.contains(k) {
                                let j = choose|j: int|
                                    0 <= j < a.len() && (#[trigger] a[j]).content is Ok && catches(
                                        OBSERVED_PATTERN@,
                                        a[j].content->Ok_0@,
                                    ).contains(k);
                                assert(b[j] == a[j]);
                            } else {
                                assert(b[i as int] == files@[i as int]);
                            }
                        }
                        if observed_syntax_keys(b).contains(k) {
                            let j = choose|j: int|
                                0 <= j < b.len() && (#[trigger] b[j]).content is Ok && catches(
                                    OBSERVED_PATTERN@,
                                    b[j].content->Ok_0@,
                                ).contains(k);
                            if j < i {
                                assert(a[j] == b[j]);
                            }
                        }
                    }
                    assert(keys@ =~= observed_syntax_keys(b));
                }
            },
            Err(cause) => {
                assert(first_unreadable(files@, i as int));
                return Err(ThemeError::Unreadable(files[i].path.clone(), cause.clone()));
            },
        }
        i = i + 1;
    }
    assert(files@.take(files@.len() as int) =~= files@);
    Ok(keys)
}

// ---------------------------------------------------------------------------------------
// The known keys
// ---------------------------------------------------------------------------------------

/// The keys that themes are checked against.
#[derive(Debug)]
pub struct KeySets {
    pub expected_non_syntax: KeySet,
    pub deprecated_non_syntax: KeySet,
    pub syntax_core: KeySet,
    pub syntax_observed: KeySet,
}

/// The struct named `name` was found in `content`.
pub open spec fn has_block(content: Seq<char>, name: Seq<char>) -> bool {
    exists|text: Seq<char>| #[trigger] is_struct_block(content, name, Block::Found(text))
}

/// The search patterns are well formed.
pub open spec fn patterns_are_valid() -> bool {
    &&& pattern_is_valid(RENAME_PATTERN@)
    &&& pattern_is_valid(FIELD_PATTERN@)
    &&& pattern_is_valid(CORE_PATTERN@)
    &&& pattern_is_valid(OBSERVED_PATTERN@)
}

/// `sets` holds what the sources give: as expected keys the renames in the three structs
/// except the deprecated ones, as deprecated keys those of the colours, as captures those of
/// the documentation and those of the queries.
pub open spec fn holds_known_keys(
    sets: KeySets,
    theme_content: Seq<char>,
    syntax_core_md: Seq<char>,
    highlights: Seq<HighlightsFile>,
) -> bool {
    exists|style: Seq<char>, colors: Seq<char>, status: Seq<char>|
        {
            let deprecated = deprecated_keys(colors);
            &&& #[trigger] is_struct_block(
                theme_content,
                "ThemeStyleContent"@,
                Block::Found(style),
            )
            &&& #[trigger] is_struct_block(
                theme_content,
                "ThemeColorsContent"@,
                Block::Found(colors),
            )
            &&& #[trigger] is_struct_block(
                theme_content,
                "StatusColorsContent"@,
                Block::Found(status),
            )
            &&& sets.expected_non_syntax@ == catches(RENAME_PATTERN@, style).union(
                catches(RENAME_PATTERN@, colors),
            ).union(catches(RENAME_PATTERN@, status)).difference(deprecated)
            &&& sets.deprecated_non_syntax@ == deprecated
            &&& sets.syntax_core@ == core_syntax_keys(syntax_core_md)
            &&& sets.syntax_observed@ == observed_syntax_keys(highlights)
        }
}

/// `e` says what is missing: the first of the three structs that is not found, the first pattern
/// that is not well formed, or the first query that could not be read.
pub open spec fn is_key_error(
    e: ThemeError,
    theme_content: Seq<char>,
    highlights: Seq<HighlightsFile>,
) -> bool {
    if !has_block(theme_content, "ThemeStyleContent"@) {
        reports_block(theme_content, "ThemeStyleContent"@, Err(e))
    } else if !has_block(theme_content, "ThemeColorsContent"@) {
        reports_block(theme_content, "ThemeColorsContent"@, Err(e))
    } else if !has_block(theme_content, "StatusColorsContent"@) {
        reports_block(theme_content, "StatusColorsContent"@, Err(e))
    } else if !pattern_is_valid(RENAME_PATTERN@) {
        is_pattern_error(e, RENAME_PATTERN@)
    } else if !pattern_is_valid(FIELD_PATTERN@) {
        is_pattern_error(e, FIELD_PATTERN@)
    } else if !pattern_is_valid(CORE_PATTERN@) {
        is_pattern_error(e, CORE_PATTERN@)
    } else if !pattern_is_valid(OBSERVED_PATTERN@) {
        is_pattern_error(e, OBSERVED_PATTERN@)
    } else {
        exists|i: int| #[trigger]
            first_unreadable(highlights, i) && e == ThemeError::Unreadable(
                highlights[i].path,
                highlights[i].content->Err_0,
            )
    }
}

/// The key sets made of the renames in the three structs, the deprecated keys, and the captures
/// of the documentation and of the queries.
pub fn assemble_key_sets(
    style: &KeySet,
    colors: &KeySet,
    status: &KeySet,
    deprecated_non_syntax: KeySet,
    syntax_core: KeySet,
    syntax_observed: KeySet,
) -> (r: KeySets)
    ensures
        r.expected_non_syntax@ == style@.union(colors@).union(status@).difference(
            deprecated_non_syntax@,
        ),
        r.deprecated_non_syntax == deprecated_non_syntax,
        r.syntax_core == syntax_core,
        r.syntax_observed == syntax_observed,
{
    let renamed = style.union(colors).union(status);
    let kept = renamed.difference(&deprecated_non_syntax);
    let mut expected_non_syntax = KeySet::new();
    expected_non_syntax.extend(&kept);
    assert(expected_non_syntax@ =~= renamed@.difference(deprecated_non_syntax@));
    KeySets { expected_non_syntax, deprecated_non_syntax, syntax_core, syntax_observed }
}

/// A block that is reported as missing is not found.
proof fn lemma_reported_block_is_missing(content: Seq<char>, name: Seq<char>, e: ThemeError)
    requires
        reports_block(content, name, Err(e)),
    ensures
        !has_block(content, name),
{
    let block = choose|block: Block| #[trigger]
        is_struct_block(content, name, block) && is_block_error(block, name, e);
    if has_block(content, name) {
        let text = choose|text: Seq<char>| #[trigger]
            is_struct_block(content, name, Block::Found(text));
        struct_block_is_unique(content, name, block, Block::Found(text));
    }
}

/// Collects the known keys from the source of the theme content, the language documentation
/// and the highlight queries.
pub fn key_sets_of(
    theme_content: &str,
    syntax_core_md: &str,
    highlights: &Vec<HighlightsFile>,
) -> (r: Result<KeySets, ThemeError>)
    ensures
        match r {
            Ok(sets) => {
                &&& patterns_are_valid()
                &&& all_readable(highlights@)
                &&& holds_known_keys(sets, theme_content@, syntax_core_md@, highlights@)
            },
            Err(e) => is_key_error(e, theme_content@, highlights@),
        },
{
    let style = match extract_struct_block(theme_content, "ThemeStyleContent") {
        Ok(block) => block,
        Err(e) => {
            proof {
                lemma_reported_block_is_missing(theme_content@, "ThemeStyleContent"@, e);
            }
            return Err(e);
        },
    };
    let colors = match extract_struct_block(theme_content, "ThemeColorsContent") {
        Ok(block) => block,
        Err(e) => {
            proof {
                lemma_reported_block_is_missing(theme_content@, "ThemeColorsContent"@, e);
            }
            return Err(e);
        },
    };
    let status = match extract_struct_block(theme_content, "StatusColorsContent") {
        Ok(block) => block,
        Err(e) => {
            proof {
                lemma_reported_block_is_missing(theme_content@, "StatusColorsContent"@, e);
            }
            return Err(e);
        },
    };
    let deprecated_non_syntax = extract_deprecated_keys(colors)?;
    let style_keys = extract_serde_renames(style)?;
    let colors_keys = extract_serde_renames(colors)?;
    let status_keys = extract_serde_renames(status)?;
    let syntax_core = extract_core_syntax_keys(syntax_core_md)?;
    let syntax_observed = extract_observed_syntax_keys(highlights)?;
    Ok(
        assemble_key_sets(
            &style_keys,
            &colors_keys,
            &status_keys,
            deprecated_non_syntax,
            syntax_core,
            syntax_observed,
        ),
    )
}

/// Where the source of the theme content is.
pub const THEME_CONTENT_PATH: &'static str = "crates/settings_content/src/theme.rs";

/// Where the language documentation is.
pub const SYNTAX_CORE_PATH: &'static str = "docs/src/extensions/languages.md";

/// Collects the known keys from the files that hold them, each with what it holds, or why it could
/// not be read. The source of the theme content is looked at first, then the documentation.
pub fn load_key_sets(
    theme_content: &Result<String, String>,
    syntax_core_md: &Result<String, String>,
    highlights: &Vec<HighlightsFile>,
) -> (r: Result<KeySets, ThemeError>)
    ensures
        match (*theme_content, *syntax_core_md) {
            (Err(cause), _) => r matches Err(ThemeError::Unreadable(path, why)) && path@
                == THEME_CONTENT_PATH@ && why == cause,
            (Ok(_), Err(cause)) => r matches Err(ThemeError::Unreadable(path, why)) && path@
                == SYNTAX_CORE_PATH@ && why == cause,
            (Ok(theme_content), Ok(syntax_core_md)) => match r {
                Ok(sets) => {
                    &&& patterns_are_valid()
                    &&& all_readable(highlights@)
                    &&& holds_known_keys(sets, theme_content@, syntax_core_md@, highlights@)
                },
                Err(e) => is_key_error(e, theme_content@, highlights@),
            },
        },
{
    match (theme_content, syntax_core_md) {
        (Err(cause), _) => Err(
            ThemeError::Unreadable(THEME_CONTENT_PATH.to_owned(), cause.clone()),
        ),
        (Ok(_), Err(cause)) => Err(
            ThemeError::Unreadable(SYNTAX_CORE_PATH.to_owned(), cause.clone()),
        ),
        (Ok(theme_content), Ok(syntax_core_md)) => key_sets_of(
            theme_content.as_str(),
            syntax_core_md.as_str(),
            highlights,
        ),
    }
}

/// No key is both expected and deprecated.
pub proof fn expected_and_deprecated_keys_are_disjoint(
    sets: KeySets,
    theme_content: Seq<char>,
    syntax_core_md: Seq<char>,
    highlights: Seq<HighlightsFile>,
)
    requires
        holds_known_keys(sets, theme_content, syntax_core_md, highlights),
    ensures
        sets.expected_non_syntax@.disjoint(sets.deprecated_non_syntax@),
{
}

/// Which captures a theme is expected to style.
#[derive(Clone, Copy, Debug)]
pub enum SyntaxLevel {
    /// None.
    Off,
    /// Those of the documentation.
    Core,
    /// Those of the highlight queries.
    Observed,
    /// Those of both.
    Both,
}

/// The captures of a level.
pub open spec fn captures_of_level(sets: KeySets, level: SyntaxLevel) -> Set<Seq<char>> {
    match level {
        SyntaxLevel::Off => Set::empty(),
        SyntaxLevel::Core => sets.syntax_core@,
        SyntaxLevel::Observed => sets.syntax_observed@,
        SyntaxLevel::Both => sets.syntax_core@.union(sets.syntax_observed@),
    }
}

/// The captures that a theme is expected to style.
pub fn expected_syntax_keys(key_sets: &KeySets, level: SyntaxLevel) -> (r: KeySet)
    ensures
        r@ == captures_of_level(*key_sets, level),
{
    match level {
        SyntaxLevel::Off => KeySet::new(),
        SyntaxLevel::Core => key_sets.syntax_core.copy(),
        SyntaxLevel::Observed => key_sets.syntax_observed.copy(),
        SyntaxLevel::Both => key_sets.syntax_core.union(&key_sets.syntax_observed),
    }
}

/// A wider level expects no fewer captures: nothing is expected at the lowest level, and both
/// sources together expect what either does.
pub proof fn syntax_levels_grow(sets: KeySets)
    ensures
        captures_of_level(sets, SyntaxLevel::Off).subset_of(
            captures_of_level(sets, SyntaxLevel::Core),
        ),
        captures_of_level(sets, SyntaxLevel::Core).subset_of(
            captures_of_level(sets, SyntaxLevel::Both),
        ),
        captures_of_level(sets, SyntaxLevel::Observed).subset_of(
            captures_of_level(sets, SyntaxLevel::Both),
        ),
{
}


} // verus!
