use workbench::json::{parse_lenient, Json};
use workbench::key_set::KeySet;
use workbench::theme::analyze::{
    analyze_theme_file, analyze_theme_files, shown_path, AncestorCoverage, DeprecatedMode,
    FileReport, ThemeFile, ThemeReport,
};
use workbench::theme::coverage::find_covering_ancestor;
use workbench::theme::errors::ThemeError;
use workbench::theme::files::{
    globs_are_shallow, resolve_theme_files, shown_parts, ExplicitTheme, GlobPattern, PathPart, PrefixKind, ThemePath,
    WalkEntry,
};
use workbench::theme::keys::{
    expected_syntax_keys, extract_core_syntax_keys, extract_deprecated_keys,
    extract_observed_syntax_keys, extract_serde_renames, extract_struct_block, is_highlights_file,
    load_key_sets, HighlightsFile, KeySets, SyntaxLevel,
};
use workbench::theme::policy::{
    check_outcome, exit_code, has_policy_violations, parse_fail_kinds, run_code, FailKind,
    FailKinds, RUNTIME_ERROR_CODE,
};
use workbench::theme::report::{github_annotations, text_report};
use workbench::theme::summary::{summarize, total, totals_are_in_range, Finding, SummaryReport};

fn set(keys: &[&str]) -> KeySet {
    let mut set = KeySet::new();
    for key in keys {
        set.insert(key.to_string());
    }
    set
}

fn texts(list: &[&str]) -> Vec<String> {
    list.iter().map(|text| text.to_string()).collect()
}

fn sets() -> KeySets {
    KeySets {
        expected_non_syntax: set(&["background", "border", "text"]),
        deprecated_non_syntax: set(&["old"]),
        syntax_core: set(&["comment", "function.method", "string.escape"]),
        syntax_observed: set(&["comment", "variable"]),
    }
}

fn file(content: &str) -> ThemeFile {
    ThemeFile {
        path: path(&["repo", "themes", "a.json"]),
        rests: texts(&["/repo/themes/a.json", "repo/themes/a.json", "themes/a.json", "a.json"]),
        content: Ok(content.to_string()),
    }
}

fn root() -> ThemePath {
    path(&["repo"])
}

#[test]
fn ancestor_covering_prefers_closest() {
    let set = set(&["function", "function.method", "variable"]);

    assert_eq!(
        find_covering_ancestor("function.method.call", &set),
        Some("function.method".to_string())
    );
    assert_eq!(find_covering_ancestor("variable.local", &set), Some("variable".to_string()));
    assert_eq!(find_covering_ancestor("tag.doctype", &set), None);
}

#[test]
fn parses_fail_kinds() {
    let kinds = parse_fail_kinds("unknown, uncovered,deprecated").unwrap();
    assert!(kinds.contains(&FailKind::Unknown));
    assert!(kinds.contains(&FailKind::Uncovered));
    assert!(kinds.contains(&FailKind::Deprecated));
}

#[test]
fn extracts_core_syntax_keys_from_docs_table() {
    let input = "### Syntax highlighting\n| @comment | Captures comments |\n| @function.method | x |\n### Bracket matching\n| @open | x |";
    let result = extract_core_syntax_keys(input).unwrap();
    assert!(result.contains("comment"));
    assert!(result.contains("function.method"));
    assert!(!result.contains("open"));
}

#[test]
fn a_capture_is_no_ancestor_of_itself() {
    assert_eq!(find_covering_ancestor("function", &set(&["function"])), None);
    assert_eq!(find_covering_ancestor("a.b.c", &set(&["a"])), Some("a".to_string()));
    assert_eq!(find_covering_ancestor("ab.c", &set(&["a"])), None);
    assert_eq!(find_covering_ancestor(".c", &set(&[""])), Some(String::new()));
}

#[test]
fn fail_kinds_are_trimmed_and_lowered() {
    let kinds = parse_fail_kinds(" ,UNKNOWN,, ").unwrap();
    assert!(kinds.contains(&FailKind::Unknown));
    assert!(!kinds.contains(&FailKind::Uncovered));
    assert!(!kinds.contains(&FailKind::Deprecated));
    let error = parse_fail_kinds("unknown, Typo ,other").unwrap_err();
    assert_eq!(error.message(), "unsupported --fail-on kind: typo");
    assert!(!parse_fail_kinds("").unwrap().contains(&FailKind::Unknown));
}

#[test]
fn core_keys_stand_in_their_section_only() {
    let input = "| @early | x |\n ### Syntax highlighting \n|@a.b|\n| @Upper | x |\n text | @late |\n## Other\n| @still | x |\n### Next\n### Syntax highlighting\n| @again | x |";
    let keys = extract_core_syntax_keys(input).unwrap();
    assert_eq!(keys.keys(), &texts(&["a.b", "still"]));
}

#[test]
fn struct_blocks_end_at_the_matching_brace() {
    let content = "x pub struct Abc { a: { b }, } tail pub struct Abc {}";
    assert_eq!(extract_struct_block(content, "Abc").unwrap(), "pub struct Abc { a: { b }, }");
    assert_eq!(
        extract_struct_block(content, "Other").unwrap_err().message(),
        "could not find struct Other"
    );
    assert_eq!(
        extract_struct_block("pub struct Abc;", "Abc").unwrap_err().message(),
        "could not find opening brace for struct Abc"
    );
    assert_eq!(
        extract_struct_block("pub struct Abc { {}", "Abc").unwrap_err().message(),
        "could not find closing brace for struct Abc"
    );
}

#[test]
fn renames_are_found_anywhere_in_a_block() {
    let block = "#[serde(rename = \"border.variant\")] a #[serde(rename = \"text\", default)]\n#[serde(default)]";
    assert_eq!(extract_serde_renames(block).unwrap().keys(), &texts(&["border.variant", "text"]));
}

#[test]
fn deprecated_keys_by_attribute_doc_and_name() {
    let block = "{\n  #[serde(rename = \"a.b\")]\n  #[deprecated]\n  pub a: u8,\n  /// Deprecated: use c\n  pub b: u8,\n  /// fine\n  pub c: u8,\n  pub deprecated_d: u8,\n  #[serde(rename = \"e\")]\n  pub e: u8,\n}";
    assert_eq!(
        extract_deprecated_keys(block).unwrap().keys(),
        &texts(&["a.b", "b", "deprecated_d"])
    );
}

#[test]
fn observed_keys_come_from_every_query() {
    let files = vec![
        HighlightsFile { path: "a".to_string(), content: Ok("(x) @b.c\n@A_1 ; @".to_string()) },
        HighlightsFile { path: "b".to_string(), content: Ok("@b.c @z".to_string()) },
    ];
    assert_eq!(
        extract_observed_syntax_keys(&files).unwrap().keys(),
        &texts(&["A_1", "b.c", "z"])
    );
    let files =
        vec![HighlightsFile { path: "q.scm".to_string(), content: Err("denied".to_string()) }];
    assert_eq!(
        extract_observed_syntax_keys(&files).unwrap_err().message(),
        "failed to read q.scm: denied"
    );
    assert!(is_highlights_file(true, "highlights.scm"));
    assert!(!is_highlights_file(false, "highlights.scm"));
    assert!(!is_highlights_file(true, "injections.scm"));
}

const SOURCE: &str = "pub struct ThemeStyleContent {\n#[serde(rename = \"style\")]\npub a: u8,\n}\npub struct ThemeColorsContent {\n#[serde(rename = \"border\")]\npub b: u8,\n#[deprecated]\n#[serde(rename = \"old\")]\npub o: u8,\n}\npub struct StatusColorsContent {\n#[serde(rename = \"error\")]\npub e: u8,\n#[serde(rename = \"old\")]\npub o: u8,\n}";

#[test]
fn known_keys_are_collected() {
    let sets = load_key_sets(
        &Ok(SOURCE.to_string()),
        &Ok("### Syntax highlighting\n| @comment |".to_string()),
        &vec![HighlightsFile { path: "a".to_string(), content: Ok("@string".to_string()) }],
    )
    .unwrap();
    assert_eq!(sets.expected_non_syntax.keys(), &texts(&["border", "error", "style"]));
    assert_eq!(sets.deprecated_non_syntax.keys(), &texts(&["old"]));
    assert_eq!(sets.syntax_core.keys(), &texts(&["comment"]));
    assert_eq!(sets.syntax_observed.keys(), &texts(&["string"]));
}

#[test]
fn known_keys_need_their_sources() {
    let missing = Err("gone".to_string());
    let error = load_key_sets(&missing, &missing, &vec![]).unwrap_err();
    assert_eq!(error.message(), "failed to read crates/settings_content/src/theme.rs: gone");
    let error = load_key_sets(&Ok(SOURCE.to_string()), &missing, &vec![]).unwrap_err();
    assert_eq!(error.message(), "failed to read docs/src/extensions/languages.md: gone");
    let error = load_key_sets(&Ok(String::new()), &Ok(String::new()), &vec![]).unwrap_err();
    assert_eq!(error.message(), "could not find struct ThemeStyleContent");
    let unreadable =
        vec![HighlightsFile { path: "q.scm".to_string(), content: Err("denied".to_string()) }];
    let error =
        load_key_sets(&Ok(SOURCE.to_string()), &Ok(String::new()), &unreadable).unwrap_err();
    assert_eq!(error.message(), "failed to read q.scm: denied");
}

#[test]
fn syntax_levels_choose_their_captures() {
    let sets = sets();
    assert!(expected_syntax_keys(&sets, SyntaxLevel::Off).keys().is_empty());
    assert_eq!(
        expected_syntax_keys(&sets, SyntaxLevel::Core).keys(),
        &texts(&["comment", "function.method", "string.escape"])
    );
    assert_eq!(
        expected_syntax_keys(&sets, SyntaxLevel::Observed).keys(),
        &texts(&["comment", "variable"])
    );
    assert_eq!(
        expected_syntax_keys(&sets, SyntaxLevel::Both).keys(),
        &texts(&["comment", "function.method", "string.escape", "variable"])
    );
}

const FAMILY: &str = r##"{
    // comments and trailing commas are fine
    "themes": [
        {
            "name": "One",
            "style": {
                "text": "#fff",
                "old": "#000",
                "odd": null,
                "accents": [],
                "players": [],
                "syntax": { "comment": {}, "function": {}, },
            },
        },
        { "style": { "syntax": 3, "background": 1, "border": 1, "text": 1 } },
    ],
}"##;

fn analyzed(mode: DeprecatedMode) -> FileReport {
    let sets = sets();
    let expected = expected_syntax_keys(&sets, SyntaxLevel::Both);
    analyze_theme_file(&root(), &file(FAMILY), &sets, &expected, mode).unwrap()
}

#[test]
fn a_theme_file_is_checked() {
    let report = analyzed(DeprecatedMode::Include);
    assert_eq!(report.path, "themes/a.json");
    assert_eq!(report.themes.len(), 2);
    let one = &report.themes[0];
    assert_eq!(one.theme_name, "One");
    assert_eq!(one.missing_non_syntax, texts(&["background", "border"]));
    assert_eq!(one.unknown_non_syntax, texts(&["odd"]));
    assert_eq!(one.deprecated_non_syntax, texts(&["old"]));
    assert_eq!(one.syntax_uncovered, texts(&["string.escape", "variable"]));
    assert_eq!(one.syntax_covered_by_ancestor.len(), 1);
    assert_eq!(one.syntax_covered_by_ancestor[0].capture, "function.method");
    assert_eq!(one.syntax_covered_by_ancestor[0].covered_by, "function");
    assert_eq!(one.syntax_exact_count, 1);

    let two = &report.themes[1];
    assert_eq!(two.theme_name, "theme[1]");
    assert!(two.missing_non_syntax.is_empty());
    assert!(two.unknown_non_syntax.is_empty());
    assert_eq!(two.syntax_uncovered.len(), 4);
    assert_eq!(two.syntax_exact_count, 0);
}

#[test]
fn deprecated_keys_can_be_left_out() {
    let report = analyzed(DeprecatedMode::Exclude);
    assert!(report.themes[0].deprecated_non_syntax.is_empty());
    assert_eq!(report.themes[0].unknown_non_syntax, texts(&["odd"]));
}

fn failure(content: &str) -> ThemeError {
    let sets = sets();
    analyze_theme_file(&root(), &file(content), &sets, &set(&[]), DeprecatedMode::Include).unwrap_err()
}

#[test]
fn a_theme_file_can_be_unusable() {
    let cause = parse_lenient("{").unwrap_err();
    assert!(!cause.is_empty());
    assert_eq!(
        failure("{").message(),
        format!("failed to parse theme file /repo/themes/a.json: {cause}")
    );
    assert_eq!(
        failure("{}").message(),
        "theme family file missing 'themes' array: /repo/themes/a.json"
    );
    assert_eq!(
        failure("{\"themes\": {}}").message(),
        "theme family file missing 'themes' array: /repo/themes/a.json"
    );
    assert_eq!(failure("[]").message(), "theme family file missing 'themes' array: /repo/themes/a.json");
    assert_eq!(
        failure("{\"themes\": [{\"style\": {}}, {\"name\": \"N\", \"style\": []}, 1]}").message(),
        "theme 'N' has no object 'style'"
    );
    assert_eq!(failure("{\"themes\": [1]}").message(), "theme 'theme[0]' has no object 'style'");
    let unreadable = ThemeFile { content: Err("denied".to_string()), ..file("") };
    let error =
        analyze_theme_file(&root(), &unreadable, &sets(), &set(&[]), DeprecatedMode::Include).unwrap_err();
    assert_eq!(error.message(), "failed to read theme file /repo/themes/a.json: denied");
}

#[test]
fn files_are_checked_up_to_the_first_failure() {
    let sets = sets();
    let good = "{\"themes\": []}";
    let reports = analyze_theme_files(
        &root(),
        &vec![file(good), file(FAMILY)],
        &sets,
        &set(&[]),
        DeprecatedMode::Include,
    )
    .unwrap();
    assert_eq!(reports.len(), 2);
    assert_eq!(reports[0].themes.len(), 0);
    assert_eq!(reports[1].themes.len(), 2);
    let error = analyze_theme_files(
        &root(),
        &vec![file(good), file("{}"), file("{")],
        &sets,
        &set(&[]),
        DeprecatedMode::Include,
    )
    .unwrap_err();
    assert!(matches!(error, ThemeError::ThemesMissing(_)));
}

fn theme(name: &str) -> ThemeReport {
    ThemeReport {
        theme_name: name.to_string(),
        missing_non_syntax: vec![],
        unknown_non_syntax: vec![],
        deprecated_non_syntax: vec![],
        syntax_uncovered: vec![],
        syntax_covered_by_ancestor: vec![],
        syntax_exact_count: 0,
    }
}

fn full_theme() -> ThemeReport {
    ThemeReport {
        missing_non_syntax: texts(&["m1", "m2"]),
        unknown_non_syntax: texts(&["u"]),
        deprecated_non_syntax: texts(&["d"]),
        syntax_uncovered: texts(&["s"]),
        syntax_covered_by_ancestor: vec![AncestorCoverage {
            capture: "a.b".to_string(),
            covered_by: "a".to_string(),
        }],
        ..theme("Full")
    }
}

fn summary(themes: Vec<ThemeReport>) -> SummaryReport {
    let files = vec![
        FileReport { path: "empty.json".to_string(), themes: vec![] },
        FileReport { path: "a.json".to_string(), themes },
    ];
    assert!(totals_are_in_range(&files));
    summarize(files)
}

#[test]
fn totals_are_summed_up() {
    let summary = summary(vec![full_theme(), theme("None"), full_theme()]);
    assert_eq!(summary.files.len(), 2);
    assert_eq!(summary.total_missing_non_syntax, 4);
    assert_eq!(summary.total_unknown_non_syntax, 2);
    assert_eq!(summary.total_deprecated_non_syntax, 2);
    assert_eq!(summary.total_syntax_uncovered, 2);
    assert_eq!(summary.total_syntax_covered_by_ancestor, 2);
    assert_eq!(total(&summary.files, Finding::Missing), Some(4));
}

#[test]
fn the_text_report_lists_findings() {
    let lines = text_report(&summary(vec![full_theme(), theme("None")]));
    assert_eq!(
        lines,
        texts(&[
            "empty.json",
            "a.json",
            "  theme: Full",
            "    missing_non_syntax: 2 | unknown_non_syntax: 1 | deprecated_non_syntax: 1 | syntax_uncovered: 1 | syntax_covered_by_ancestor: 1",
            "    missing_non_syntax_keys:",
            "      - m1",
            "      - m2",
            "    unknown_non_syntax_keys:",
            "      - u",
            "    deprecated_non_syntax_keys:",
            "      - d",
            "    syntax_uncovered_keys:",
            "      - s",
            "    warnings (syntax covered by ancestor):",
            "      - a.b (covered by a)",
            "  theme: None",
            "    missing_non_syntax: 0 | unknown_non_syntax: 0 | deprecated_non_syntax: 0 | syntax_uncovered: 0 | syntax_covered_by_ancestor: 0",
            "totals: missing_non_syntax=2 unknown_non_syntax=1 deprecated_non_syntax=1 syntax_uncovered=1 syntax_covered_by_ancestor=1",
        ])
    );
}

#[test]
fn every_finding_is_annotated() {
    let summary = summary(vec![full_theme(), theme("None")]);
    let lines = github_annotations(&summary);
    assert_eq!(
        lines,
        texts(&[
            "::error file=a.json::theme 'Full' missing non-syntax key 'm1'",
            "::error file=a.json::theme 'Full' missing non-syntax key 'm2'",
            "::error file=a.json::theme 'Full' unknown non-syntax key 'u'",
            "::warning file=a.json::theme 'Full' deprecated non-syntax key 'd'",
            "::error file=a.json::theme 'Full' uncovered syntax capture 's'",
            "::warning file=a.json::theme 'Full' syntax capture 'a.b' covered by ancestor 'a'",
        ])
    );
}

fn kinds(list: &[FailKind]) -> FailKinds {
    let mut kinds = FailKinds::new();
    for kind in list {
        kinds.insert(*kind);
    }
    kinds
}

#[test]
fn policies_are_violated_by_their_findings() {
    let clean = summary(vec![ThemeReport {
        syntax_covered_by_ancestor: full_theme().syntax_covered_by_ancestor,
        ..theme("None")
    }]);
    let all = kinds(&[FailKind::Uncovered, FailKind::Unknown, FailKind::Deprecated]);
    assert!(!has_policy_violations(&clean, &all));

    let missing = summary(vec![ThemeReport { missing_non_syntax: texts(&["m"]), ..theme("T") }]);
    let uncovered = summary(vec![ThemeReport { syntax_uncovered: texts(&["s"]), ..theme("T") }]);
    let unknown = summary(vec![ThemeReport { unknown_non_syntax: texts(&["u"]), ..theme("T") }]);
    let deprecated =
        summary(vec![ThemeReport { deprecated_non_syntax: texts(&["d"]), ..theme("T") }]);
    assert!(has_policy_violations(&missing, &kinds(&[FailKind::Uncovered])));
    assert!(has_policy_violations(&uncovered, &kinds(&[FailKind::Uncovered])));
    assert!(has_policy_violations(&unknown, &kinds(&[FailKind::Unknown])));
    assert!(has_policy_violations(&deprecated, &kinds(&[FailKind::Deprecated])));
    assert!(!has_policy_violations(&missing, &kinds(&[FailKind::Unknown, FailKind::Deprecated])));
    assert!(!has_policy_violations(&deprecated, &kinds(&[])));

    assert_eq!(exit_code(true, &missing, &all), 1);
    assert_eq!(exit_code(false, &missing, &all), 0);
    assert_eq!(exit_code(true, &clean, &all), 0);
    assert_eq!(RUNTIME_ERROR_CODE, 2);
}

#[test]
fn the_first_failing_step_decides_the_outcome() {
    let bad_kinds = || parse_fail_kinds("typo");
    let good_kinds = || parse_fail_kinds("unknown");
    let bad_files = || Err(ThemeError::NothingMatched);
    let good_files = || {
        Ok(vec![FileReport {
            path: "a.json".to_string(),
            themes: vec![ThemeReport { unknown_non_syntax: texts(&["u"]), ..theme("T") }],
        }])
    };
    assert!(matches!(
        check_outcome(false, bad_kinds(), bad_files()),
        Err(ThemeError::UnsupportedFailKind(kind)) if kind == "typo"
    ));
    assert!(check_outcome(false, bad_kinds(), good_files()).is_err());
    assert!(matches!(
        check_outcome(true, good_kinds(), bad_files()),
        Err(ThemeError::NothingMatched)
    ));
    let (summary, code) = check_outcome(true, good_kinds(), good_files()).unwrap();
    assert_eq!(summary.total_unknown_non_syntax, 1);
    assert_eq!(code, 1);
    assert_eq!(check_outcome(false, good_kinds(), good_files()).unwrap().1, 0);
    assert_eq!(
        check_outcome(true, parse_fail_kinds("deprecated"), good_files()).unwrap().1,
        0
    );

    assert_eq!(run_code::<ThemeError>(&Ok(1)), 1);
    assert_eq!(run_code::<ThemeError>(&Ok(0)), 0);
    assert_eq!(run_code(&Err(ThemeError::NothingGiven)), 2);
}

fn path(parts: &[&str]) -> ThemePath {
    let mut all = vec![PathPart::RootDir];
    all.extend(parts.iter().map(|part| PathPart::Normal(part.to_string())));
    ThemePath { parts: all, text: format!("/{}", parts.join("/")) }
}

fn explicit(parts: &[&str], exists: bool) -> ExplicitTheme {
    ExplicitTheme { path: path(parts), exists }
}

fn glob(pattern: &str, is_absolute: bool) -> GlobPattern {
    GlobPattern { pattern: pattern.to_string(), is_absolute }
}

fn entry(parts: &[&str], is_file: bool) -> WalkEntry {
    let mut all = vec!["repo"];
    all.extend(parts);
    WalkEntry { path: path(&all), is_file, relative: Some(parts.join("/").into_bytes()) }
}

fn resolved(files: Result<Vec<ThemePath>, ThemeError>) -> Vec<String> {
    files.unwrap().into_iter().map(|path| path.text).collect()
}

#[test]
fn theme_files_are_named_or_matched() {
    let entries = || {
        vec![
            entry(&["themes"], false),
            entry(&["themes", "b.json"], true),
            entry(&["themes", "a.json"], true),
            entry(&["themes", "a.json"], true),
            entry(&["themes", "deep", "c.json"], true),
            entry(&["themes", "d.txt"], true),
            WalkEntry { path: path(&["else", "e.json"]), is_file: true, relative: None },
        ]
    };
    assert_eq!(
        resolved(resolve_theme_files(
            vec![explicit(&["z.json"], true), explicit(&["repo", "themes", "b.json"], true)],
            &vec![glob("themes/*.json", false)],
            entries(),
        )),
        texts(&["/repo/themes/a.json", "/repo/themes/b.json", "/repo/themes/deep/c.json", "/z.json"])
    );
    assert_eq!(
        resolved(resolve_theme_files(
            vec![],
            &vec![glob("themes/deep/*", false), glob("**/*.txt", false)],
            entries(),
        )),
        texts(&["/repo/themes/d.txt", "/repo/themes/deep/c.json"])
    );
    assert_eq!(
        resolved(resolve_theme_files(vec![explicit(&["a"], true)], &vec![], entries())),
        texts(&["/a"])
    );
}

#[test]
fn theme_files_can_be_unresolvable() {
    let none: fn() -> Vec<WalkEntry> = || vec![];
    let message = |r: Result<Vec<ThemePath>, ThemeError>| r.unwrap_err().message();
    assert_eq!(
        message(resolve_theme_files(vec![], &vec![], none())),
        "provide at least one --theme or --theme-glob"
    );
    assert_eq!(
        message(resolve_theme_files(
            vec![explicit(&["a"], true), explicit(&["b"], false), explicit(&["c"], false)],
            &vec![glob("/abs", true)],
            none()
        )),
        "theme file does not exist: /b"
    );
    assert_eq!(
        message(resolve_theme_files(vec![], &vec![glob("/abs", true)], none())),
        "absolute --theme-glob is not supported: /abs"
    );
    assert!(message(resolve_theme_files(
        vec![],
        &vec![glob("a", false), glob("[", false)],
        none()
    ))
    .starts_with("invalid glob: [: "));
    assert_eq!(
        message(resolve_theme_files(
            vec![],
            &vec![glob("*.json", false)],
            vec![entry(&["a.txt"], true)]
        )),
        "no theme files matched"
    );
}

#[test]
fn files_below_the_root_are_shown_from_there_on() {
    assert_eq!(shown_path(&root(), &file("")), "themes/a.json");
    assert_eq!(shown_path(&path(&["repo", "themes"]), &file("")), "a.json");
    assert_eq!(shown_path(&path(&["rep"]), &file("")), "/repo/themes/a.json");
    assert_eq!(shown_path(&path(&["repo", "themes", "a.json"]), &file("")), "");
    assert_eq!(shown_path(&path(&["repo", "themes", "a.json", "b"]), &file("")), "/repo/themes/a.json");

    let whole = path(&["repo", "themes", "a.json"]);
    let root = root();
    let shown = shown_parts(&root, &whole);
    assert_eq!(shown.len(), 2);
    assert!(matches!(shown[0], PathPart::Normal(name) if name == "themes"));
    assert!(matches!(shown[1], PathPart::Normal(name) if name == "a.json"));
    let elsewhere = path(&["other"]);
    assert_eq!(shown_parts(&elsewhere, &whole).len(), 4);
}

#[test]
fn names_that_are_no_text_are_matched_by_their_bytes() {
    let odd = || WalkEntry {
        path: path(&["repo", "\u{ff}.json"]),
        is_file: true,
        relative: Some(b"\xff.json".to_vec()),
    };
    assert_eq!(
        resolved(resolve_theme_files(vec![], &vec![glob("?.json", false)], vec![odd()])),
        texts(&["/repo/\u{ff}.json"])
    );
    assert!(resolve_theme_files(vec![], &vec![glob("??.json", false)], vec![odd()]).is_err());
}

#[test]
fn globs_may_hold_many_braces_but_not_nest_them_deeply() {
    let deep = format!("{}a{}", "{".repeat(1000), "}".repeat(1000));
    let deeper = format!("{}a{}", "{".repeat(1001), "}".repeat(1001));
    let flat = "{a,b}".repeat(1500);
    let hidden = "{[}]".repeat(1001);
    assert!(globs_are_shallow(&vec![]));
    assert!(globs_are_shallow(&vec![glob(&deep, false), glob(&flat, false)]));
    assert!(!globs_are_shallow(&vec![glob("a", false), glob(&deeper, false)]));
    assert!(!globs_are_shallow(&vec![glob(&hidden, false)]));
    assert!(matches!(
        resolve_theme_files(vec![], &vec![glob(&deep, false)], vec![]).unwrap_err(),
        ThemeError::UnusableGlobs(cause) if !cause.is_empty()
    ));
}

#[test]
fn many_long_globs_are_matched() {
    let mut globs: Vec<GlobPattern> =
        (0..60).map(|n| glob(&format!("{}{n}/*.txt", "d".repeat(40)), false)).collect();
    globs.push(glob("themes/*.json", false));
    assert_eq!(
        resolved(resolve_theme_files(
            vec![],
            &globs,
            vec![entry(&["themes", "a.json"], true), entry(&["themes", "b.txt"], true)],
        )),
        texts(&["/repo/themes/a.json"])
    );
}

fn on_drive(kind: PrefixKind, name: &str, share: &str, text: &str) -> ExplicitTheme {
    let prefix = PathPart::Prefix { kind, name: name.to_string(), share: share.to_string() };
    ExplicitTheme {
        path: ThemePath { parts: vec![prefix, PathPart::RootDir], text: text.to_string() },
        exists: true,
    }
}

#[test]
fn prefixes_are_ordered_by_kind_then_name_then_share() {
    let files = vec![
        on_drive(PrefixKind::Disk, "C", "", "C:"),
        on_drive(PrefixKind::Share, "server", "z", "share z"),
        on_drive(PrefixKind::Share, "server", "a", "share a"),
        on_drive(PrefixKind::Device, "com", "", "device"),
        on_drive(PrefixKind::VerbatimDisk, "Z", "", "verbatim Z:"),
        on_drive(PrefixKind::VerbatimDisk, "C", "", "verbatim C:"),
        on_drive(PrefixKind::VerbatimShare, "server", "a", "verbatim share"),
        on_drive(PrefixKind::Verbatim, "x", "", "verbatim"),
        explicit(&["unix"], true),
    ];
    assert_eq!(
        resolved(resolve_theme_files(files, &vec![], vec![])),
        texts(&[
            "verbatim",
            "verbatim share",
            "verbatim C:",
            "verbatim Z:",
            "device",
            "share a",
            "share z",
            "C:",
            "/unix",
        ])
    );
}

#[test]
fn errors_without_a_cause_of_their_own_show_the_cause() {
    assert_eq!(ThemeError::UnusableGlobs("too big".to_string()).message(), "too big");
    assert_eq!(ThemeError::InvalidPattern("bad".to_string()).message(), "bad");
}

#[test]
fn lenient_json_keeps_order_and_kinds() {
    let json = parse_lenient("{\"b\": [1.5, true, null, \"x\",], /* c */ \"a\": {}}").unwrap();
    let members = match json {
        Json::Object(members) => members,
        other => panic!("{:?}", other),
    };
    assert_eq!(members[0].0, "b");
    assert_eq!(members[1].0, "a");
    match &members[0].1 {
        Json::Array(items) => {
            assert!(matches!(&items[0], Json::Number(n) if n == "1.5"));
            assert!(matches!(&items[1], Json::Bool(true)));
            assert!(matches!(&items[2], Json::Null));
            assert!(matches!(&items[3], Json::Text(t) if t == "x"));
            assert_eq!(items.len(), 4);
        }
        other => panic!("{:?}", other),
    }
    assert!(parse_lenient("{").is_err());
}

#[test]
fn members_are_found_by_name() {
    let json = parse_lenient("{\"a\": 1, \"b\": \"x\"}").unwrap();
    assert!(matches!(json.get("b"), Some(Json::Text(t)) if t == "x"));
    assert!(json.get("c").is_none());
    assert!(Json::Null.get("a").is_none());
}
