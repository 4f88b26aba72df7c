use std::collections::HashMap;

use workbench::json::Json;
use workbench::lsp::flycheck::{LspExtCancelFlycheck, LspExtClearFlycheck, LspExtRunFlycheck};
use workbench::lsp::herb::{supports_toggle_comments, HERB_LS_NAME};
use workbench::lsp::navigation::{
    DocsUrls, ExpandMacro, ExpandedMacro, GoToParentModule, LspExtExpandMacro, LspGoToParentModule,
    LspOpenDocs, LspSwitchSourceHeader, OpenDocs, SwitchSourceHeader, SwitchSourceHeaderRequest,
    SwitchSourceHeaderResult,
};
use workbench::lsp::runnables::{
    task_of, CargoRunnableArgs, GetLspRunnables, LspRunnables, ReceivedRunnable, Runnable,
    RunnableArgs, RunnableKind, Runnables, ShellRunnableArgs, TaskTemplate,
};
use workbench::lsp::toggle_comments::{
    LspExtToggleComments, ToggleCommentsCommand, ToggleCommentsStep,
};
use workbench::lsp::{
    point_to_lsp, LspCommandError, PointUtf16, Position, PositionRequest, Span,
    TextDocumentIdentifier,
};
use workbench::tool::Tool;

fn point(row: u32, column: u32) -> PointUtf16 {
    PointUtf16 { row, column }
}

fn document() -> Result<TextDocumentIdentifier, LspCommandError> {
    Ok(TextDocumentIdentifier { uri: "file:///a.rs".to_string() })
}

fn no_document() -> Result<TextDocumentIdentifier, LspCommandError> {
    Err(LspCommandError::Failed("no document".to_string()))
}

fn texts(list: &[&str]) -> Vec<String> {
    list.iter().map(|text| text.to_string()).collect()
}

fn quote(argument: &String) -> Option<String> {
    if argument.contains('\0') {
        None
    } else if argument.contains('<') {
        Some(format!("'{argument}'"))
    } else {
        Some(argument.clone())
    }
}

fn cargo() -> CargoRunnableArgs {
    CargoRunnableArgs {
        environment: HashMap::from([("A".to_string(), "1".to_string())]),
        cwd: "/crate".to_string(),
        override_cargo: None,
        workspace_root: None,
        cargo_args: texts(&["test", "--lib"]),
        executable_args: vec![],
    }
}

#[test]
fn methods_are_named() {
    assert_eq!(LspExtExpandMacro::METHOD, "rust-analyzer/expandMacro");
    assert_eq!(LspOpenDocs::METHOD, "experimental/externalDocs");
    assert_eq!(LspSwitchSourceHeader::METHOD, "textDocument/switchSourceHeader");
    assert_eq!(LspGoToParentModule::METHOD, "experimental/parentModule");
    assert_eq!(Runnables::METHOD, "experimental/runnables");
    assert_eq!(LspExtCancelFlycheck::METHOD, "rust-analyzer/cancelFlycheck");
    assert_eq!(LspExtRunFlycheck::METHOD, "rust-analyzer/runFlycheck");
    assert_eq!(LspExtClearFlycheck::METHOD, "rust-analyzer/clearFlycheck");
    assert_eq!(LspExtToggleComments::METHOD, "herb/toggleLineComment");
}

#[test]
fn commands_are_named_and_ask_every_server() {
    let expand = ExpandMacro { position: point(0, 0) };
    let docs = OpenDocs { position: point(0, 0) };
    let parent = GoToParentModule { position: point(0, 0) };
    let runnables = GetLspRunnables::<u32> { buffer_id: 1, position: None };
    let toggle = ToggleCommentsCommand::<u32> { selections: vec![] };
    assert_eq!(expand.display_name(), "Expand macro");
    assert_eq!(docs.display_name(), "Open docs");
    assert_eq!(SwitchSourceHeader.display_name(), "Switch source header");
    assert_eq!(parent.display_name(), "Go to parent module");
    assert_eq!(runnables.display_name(), "LSP Runnables");
    assert_eq!(toggle.display_name(), "Toggle comments");
    assert!(expand.check_capabilities());
    assert!(docs.check_capabilities());
    assert!(SwitchSourceHeader.check_capabilities());
    assert!(parent.check_capabilities());
    assert!(runnables.check_capabilities());
    assert!(toggle.check_capabilities());
}

#[test]
fn positions_keep_row_and_column() {
    assert_eq!(point_to_lsp(point(3, 7)), Position { line: 3, character: 7 });
}

#[test]
fn expanding_a_macro() {
    let command = ExpandMacro { position: point(3, 7) };
    let params = command.to_lsp(document()).unwrap();
    assert_eq!(params.text_document.uri, "file:///a.rs");
    assert_eq!(params.position, Position { line: 3, character: 7 });
    assert!(command.to_lsp(no_document()).is_err());
    assert_eq!(
        command.to_proto(1, 2, "anchor"),
        PositionRequest { project_id: 1, buffer_id: 2, position: Some("anchor") }
    );
    assert!(command.response_from_lsp(None).is_empty());

    let answer = ExpandedMacro { name: "vec".to_string(), expansion: "x".to_string() };
    let command = ExpandMacro::from_proto(Some(point(1, 2))).unwrap();
    assert_eq!(command.position, point(1, 2));
    let answer = command.response_from_lsp(Some(answer));
    assert!(!answer.is_empty());
    let sent = ExpandMacro::response_to_proto(answer);
    let command = ExpandMacro { position: point(0, 0) };
    assert_eq!(
        command.response_from_proto(sent),
        ExpandedMacro { name: "vec".to_string(), expansion: "x".to_string() }
    );
    let error = ExpandMacro::from_proto(None).unwrap_err();
    assert_eq!(error.message(), "invalid position");
}

#[test]
fn expansions_are_empty_without_name_and_expansion() {
    assert!(ExpandedMacro::default().is_empty());
    assert!(!ExpandedMacro { name: "a".to_string(), expansion: String::new() }.is_empty());
    assert!(!ExpandedMacro { name: String::new(), expansion: "a".to_string() }.is_empty());
}

#[test]
fn opening_docs() {
    let command = OpenDocs { position: point(3, 7) };
    let params = command.to_lsp(Some("file:///a.rs".to_string()), "\"/a.rs\"".to_string()).unwrap();
    assert_eq!(params.text_document.uri, "file:///a.rs");
    assert_eq!(params.position, Position { line: 3, character: 7 });
    let error = command.to_lsp(None, "\"a.rs\"".to_string()).unwrap_err();
    assert_eq!(error, LspCommandError::InvalidUri("\"a.rs\"".to_string()));
    assert_eq!(error.message(), "\"a.rs\" is not a valid URI");
    assert_eq!(
        command.to_proto(1, 2, 9),
        PositionRequest { project_id: 1, buffer_id: 2, position: Some(9) }
    );
    assert!(command.response_from_lsp(None).is_empty());
    assert_eq!(OpenDocs::from_proto(None).unwrap_err().message(), "invalid position");

    let command = OpenDocs::from_proto(Some(point(1, 2))).unwrap();
    let urls = DocsUrls { web: Some("https://docs.rs".to_string()), local: None };
    let sent = OpenDocs::response_to_proto(command.response_from_lsp(Some(urls)));
    assert_eq!(
        OpenDocs { position: point(0, 0) }.response_from_proto(sent),
        DocsUrls { web: Some("https://docs.rs".to_string()), local: None }
    );
}

#[test]
fn docs_are_empty_without_urls() {
    assert!(DocsUrls::default().is_empty());
    assert!(!DocsUrls { web: Some(String::new()), local: None }.is_empty());
    assert!(!DocsUrls { web: None, local: Some(String::new()) }.is_empty());
}

#[test]
fn switching_source_and_header() {
    let params = SwitchSourceHeader.to_lsp(document()).unwrap();
    assert_eq!(params.0.uri, "file:///a.rs");
    assert!(SwitchSourceHeader.to_lsp(no_document()).is_err());
    let request = SwitchSourceHeader.to_proto(1, 2);
    assert_eq!(request, SwitchSourceHeaderRequest { project_id: 1, buffer_id: 2 });
    let command = SwitchSourceHeader::from_proto(request);
    assert_eq!(command.response_from_lsp(None), SwitchSourceHeaderResult(String::new()));
    let found = SwitchSourceHeader
        .response_from_lsp(Some(SwitchSourceHeaderResult("a.h".to_string())));
    let sent = SwitchSourceHeader::response_to_proto(found);
    assert_eq!(sent.target_file, "a.h");
    assert_eq!(
        SwitchSourceHeader::default().response_from_proto(sent),
        SwitchSourceHeaderResult("a.h".to_string())
    );
}

#[test]
fn going_to_the_parent_module() {
    let command = GoToParentModule { position: point(3, 7) };
    let params = command.to_lsp(document()).unwrap();
    assert_eq!(params.text_document.uri, "file:///a.rs");
    assert_eq!(params.position, Position { line: 3, character: 7 });
    assert!(command.to_lsp(no_document()).is_err());
    assert_eq!(command.to_proto(1, 2, 'a').position, Some('a'));
    assert_eq!(GoToParentModule::from_proto(Some(point(1, 2))).unwrap().position, point(1, 2));
    assert_eq!(
        GoToParentModule::from_proto(None).unwrap_err().message(),
        "bad request with bad position"
    );
}

#[test]
fn cargo_tasks() {
    let task = task_of("test".to_string(), RunnableArgs::Cargo(cargo()), &quote);
    assert_eq!(task.label, "test");
    assert_eq!(task.command, "cargo");
    assert_eq!(task.args, texts(&["test", "--lib"]));
    assert_eq!(task.cwd, Some("/crate".to_string()));
    assert_eq!(task.env.get("A"), Some(&"1".to_string()));
}

#[test]
fn cargo_tasks_quote_the_arguments_of_the_executable() {
    let mut args = cargo();
    args.workspace_root = Some("/root".to_string());
    args.executable_args = texts(&["X<T>::new", "\0", "--show-output"]);
    let task = task_of("doc".to_string(), RunnableArgs::Cargo(args), &quote);
    assert_eq!(task.args, texts(&["test", "--lib", "--", "'X<T>::new'", "--show-output"]));
    assert_eq!(task.cwd, Some("/root".to_string()));
}

#[test]
fn cargo_can_be_overridden() {
    let mut args = cargo();
    args.override_cargo = Some("cross +nightly  run".to_string());
    let task = task_of("run".to_string(), RunnableArgs::Cargo(args), &quote);
    assert_eq!(task.command, "cross");
    assert_eq!(task.args, texts(&["+nightly", "", "run", "test", "--lib"]));
    let mut words = vec![task.command];
    words.extend(task.args[..3].to_vec());
    assert_eq!(words.join(" "), "cross +nightly  run");

    let mut args = cargo();
    args.override_cargo = Some(String::new());
    let task = task_of("run".to_string(), RunnableArgs::Cargo(args), &quote);
    assert_eq!(task.command, "");
    assert_eq!(task.args, texts(&["test", "--lib"]));
}

fn shell() -> RunnableArgs {
    RunnableArgs::Shell(ShellRunnableArgs {
        environment: HashMap::new(),
        cwd: "/work".to_string(),
        program: "bash".to_string(),
        args: texts(&["-c", "true"]),
    })
}

fn found(
    location: Option<Result<u32, LspCommandError>>,
) -> Runnable<Result<u32, LspCommandError>> {
    Runnable { label: "shell".to_string(), location, kind: RunnableKind::Shell, args: shell() }
}

#[test]
fn runnables_become_tasks_with_their_places() {
    let command = GetLspRunnables::<u8> { buffer_id: 4, position: Some(1) };
    let response =
        command.response_from_lsp(vec![found(Some(Ok(7))), found(None)], &quote).unwrap();
    assert_eq!(response.runnables.len(), 2);
    assert_eq!(response.runnables[0].0, Some(7));
    assert_eq!(response.runnables[1].0, None);
    let task = &response.runnables[0].1;
    assert_eq!(task.command, "bash");
    assert_eq!(task.args, texts(&["-c", "true"]));
    assert_eq!(task.cwd, Some("/work".to_string()));
}

#[test]
fn the_first_place_that_is_lost_is_reported() {
    let command = GetLspRunnables::<u8> { buffer_id: 4, position: None };
    let error = command
        .response_from_lsp(
            vec![
                found(Some(Ok(7))),
                found(Some(Err(LspCommandError::Failed("first".to_string())))),
                found(Some(Err(LspCommandError::Failed("second".to_string())))),
            ],
            &quote,
        )
        .unwrap_err();
    assert_eq!(error.message(), "first");
}

#[test]
fn asking_for_runnables() {
    let command = GetLspRunnables::<u8> { buffer_id: 4, position: Some(1) };
    let to_point = |anchor: &u8| point(3, u32::from(*anchor) + 6);
    let params = command.to_lsp(document(), to_point).unwrap();
    assert_eq!(params.text_document.uri, "file:///a.rs");
    assert_eq!(params.position, Some(Position { line: 3, character: 7 }));
    let anywhere = GetLspRunnables::<u8> { buffer_id: 4, position: None };
    assert_eq!(anywhere.to_lsp(document(), to_point).unwrap().position, None);
    assert!(command.to_lsp(no_document(), to_point).is_err());
    assert_eq!(
        command.to_proto(1, 2, Some("a")),
        PositionRequest { project_id: 1, buffer_id: 2, position: Some("a") }
    );
    let received = GetLspRunnables::from_proto(Ok(4), Some(1u8)).unwrap();
    assert_eq!(received.buffer_id, 4);
    assert_eq!(received.position, Some(1));
    assert!(GetLspRunnables::<u8>::from_proto(
        Err(LspCommandError::Failed("no buffer".to_string())),
        None
    )
    .is_err());
    assert!(LspRunnables::<u8, TaskTemplate>::default().runnables.is_empty());
}

fn received(
    location: Option<Result<u32, LspCommandError>>,
    task: Result<&str, &str>,
) -> ReceivedRunnable<u32, TaskTemplate> {
    ReceivedRunnable {
        location,
        task_template: match task {
            Ok(label) => Ok(TaskTemplate {
                label: label.to_string(),
                command: "cargo".to_string(),
                args: vec![],
                env: HashMap::new(),
                cwd: None,
            }),
            Err(reason) => Err(reason.to_string()),
        },
    }
}

#[test]
fn runnables_of_a_peer_are_taken_over() {
    let command = GetLspRunnables::<u8> { buffer_id: 4, position: None };
    let response = command
        .response_from_proto(vec![received(Some(Ok(1)), Ok("a")), received(None, Ok("b"))])
        .unwrap();
    assert_eq!(response.runnables[0].0, Some(1));
    assert_eq!(response.runnables[0].1.label, "a");
    assert_eq!(response.runnables[1].0, None);
    assert_eq!(response.runnables[1].1.label, "b");
}

#[test]
fn tasks_of_a_peer_are_kept_as_they_are() {
    let command = GetLspRunnables::<u8> { buffer_id: 4, position: None };
    let task = ("cargo", "a shell of its own");
    let response = command
        .response_from_proto(vec![ReceivedRunnable {
            location: Some(Ok(1)),
            task_template: Ok(task),
        }])
        .unwrap();
    assert_eq!(response.runnables, vec![(Some(1), ("cargo", "a shell of its own"))]);
}

#[test]
fn the_first_runnable_of_a_peer_that_is_unusable_is_reported() {
    let command = GetLspRunnables::<u8> { buffer_id: 4, position: None };
    let error = command
        .response_from_proto(vec![
            received(None, Ok("a")),
            received(Some(Ok(1)), Err("bad")),
            received(Some(Err(LspCommandError::Failed("lost".to_string()))), Ok("b")),
        ])
        .unwrap_err();
    assert_eq!(error, LspCommandError::UndecodableTask("bad".to_string()));
    assert_eq!(error.message(), "deserializing task template from proto");

    let command = GetLspRunnables::<u8> { buffer_id: 4, position: None };
    let error = command
        .response_from_proto(vec![received(
            Some(Err(LspCommandError::Failed("lost".to_string()))),
            Err("bad"),
        )])
        .unwrap_err();
    assert_eq!(error.message(), "lost");
}

#[test]
fn toggling_comments() {
    let command = ToggleCommentsCommand {
        selections: vec![Span { start: 1u32, end: 5 }, Span { start: 7, end: 9 }],
    };
    let to_point = |anchor: &u32| point(*anchor / 4, *anchor);
    let params = command.to_lsp(document(), to_point).unwrap();
    assert_eq!(params.text_document.uri, "file:///a.rs");
    assert_eq!(params.ranges.len(), 2);
    assert_eq!(params.ranges[1].start, Position { line: 1, character: 7 });
    assert_eq!(params.ranges[1].end, Position { line: 2, character: 9 });
    assert!(command.to_lsp(no_document(), to_point).is_err());

    let request = command.to_proto(1, 2, "v3");
    assert_eq!(request.project_id, 1);
    assert_eq!(request.buffer_id, 2);
    assert_eq!(request.version, "v3");
    assert_eq!(request.starts, vec![1, 7]);
    assert_eq!(request.ends, vec![5, 9]);

    let starts: Vec<Option<u32>> = request.starts.into_iter().map(Some).collect();
    let ends: Vec<Option<u32>> = request.ends.into_iter().map(Some).collect();
    let received = ToggleCommentsCommand::from_proto(&starts, &ends).unwrap();
    assert_eq!(received.selections, command.selections);
}

#[test]
fn toggling_comments_needs_both_ends() {
    let error =
        ToggleCommentsCommand::<u8>::from_proto(&vec![Some(1), None], &vec![Some(1), None])
            .unwrap_err();
    assert_eq!(error.message(), "invalid start anchor");
    let error =
        ToggleCommentsCommand::<u8>::from_proto(&vec![Some(1), None], &vec![None, None])
            .unwrap_err();
    assert_eq!(error.message(), "invalid end anchor");
    let short =
        ToggleCommentsCommand::<u8>::from_proto(&vec![Some(1), None], &vec![Some(2)]).unwrap();
    assert_eq!(short.selections, vec![Span { start: 1, end: 2 }]);
}

#[test]
fn what_comes_of_toggling_comments() {
    let command = ToggleCommentsCommand::<u8> { selections: vec![] };
    assert!(matches!(command.response_from_lsp::<u8>(None), ToggleCommentsStep::Done));
    let command = ToggleCommentsCommand::<u8> { selections: vec![] };
    let step = command.response_from_lsp(Some(vec!["edit"]));
    assert!(matches!(
        step,
        ToggleCommentsStep::Apply { edits, push_to_history: true } if edits == vec!["edit"]
    ));
    let command = ToggleCommentsCommand::<u8> { selections: vec![] };
    assert_eq!(command.response_from_proto(Some(Ok(3))), Ok(Some(3)));
    let command = ToggleCommentsCommand::<u8> { selections: vec![] };
    assert_eq!(command.response_from_proto::<u8>(None), Ok(None));
    let command = ToggleCommentsCommand::<u8> { selections: vec![] };
    let failed = LspCommandError::Failed("no transaction".to_string());
    assert!(command.response_from_proto::<u8>(Some(Err(failed))).is_err());
}

#[test]
fn herb_toggles_comments_where_it_runs() {
    assert_eq!(HERB_LS_NAME, "herb");
    assert!(supports_toggle_comments(&Some(3)));
    assert!(!supports_toggle_comments::<u64>(&None));
}

struct Clock;

impl Tool for Clock {
    fn name(&self) -> String {
        "clock".to_string()
    }

    fn description(&self) -> String {
        "tells the time".to_string()
    }
}

#[test]
fn a_tool_takes_any_object_by_default() {
    assert_eq!(Clock.name(), "clock");
    assert_eq!(Clock.description(), "tells the time");
    assert!(matches!(Clock.input_schema(), Json::Object(members) if members.is_empty()));
}
