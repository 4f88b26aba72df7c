//! What a server can run, as tasks.
use crate::lsp::{
    point_at, point_to_lsp, LspCommandError, PointUtf16, Position, PositionRequest,
    TextDocumentIdentifier,
};
use crate::text::{joined, pieces, split_text, splitting_then_joining_is_identity, texts};
use std::collections::HashMap;
use vstd::prelude::*;
use vstd::string::*;

verus! {

/// The request for what can be run.
pub struct Runnables {}

impl Runnables {
    /// What servers call it.
    pub const METHOD: &'static str = "experimental/runnables";
}

/// Where something is to be run: at a place in the document, or anywhere in it.
#[derive(Debug)]
pub struct RunnablesParams {
    pub text_document: TextDocumentIdentifier,
    pub position: Option<Position>,
}

/// Something that can be run. `L` is what is known of its place.
#[derive(Debug)]
pub struct Runnable<L> {
    pub label: String,
    pub location: Option<L>,
    pub kind: RunnableKind,
    pub args: RunnableArgs,
}

/// How it is run.
#[derive(Debug)]
pub enum RunnableArgs {
    Cargo(CargoRunnableArgs),
    Shell(ShellRunnableArgs),
}

/// What runs it.
#[derive(Debug, Clone, Copy, PartialEq, Eq, Structural)]
pub enum RunnableKind {
    Cargo,
    Shell,
}

/// A run of cargo.
#[derive(Debug)]
pub struct CargoRunnableArgs {
    pub environment: HashMap<String, String>,
    pub cwd: String,
    /// The command that is run in place of cargo.
    pub override_cargo: Option<String>,
    pub workspace_root: Option<String>,
    /// What stands before `--`.
    pub cargo_args: Vec<String>,
    /// What stands after `--`.
    pub executable_args: Vec<String>,
}

/// A run of a program.
#[derive(Debug)]
pub struct ShellRunnableArgs {
    pub environment: HashMap<String, String>,
    pub cwd: String,
    pub program: String,
    pub args: Vec<String>,
}

/// A task: what is run, and where.
#[derive(Debug)]
pub struct TaskTemplate {
    pub label: String,
    pub command: String,
    pub args: Vec<String>,
    pub env: HashMap<String, String>,
    pub cwd: Option<String>,
}

/// Asks for what can be run in a buffer. `A` is an anchor.
#[derive(Debug)]
pub struct GetLspRunnables<A> {
    pub buffer_id: u64,
    pub position: Option<A>,
}

/// What can be run, each with its place where that is known. `T` is a task.
#[derive(Debug)]
pub struct LspRunnables<L, T> {
    pub runnables: Vec<(Option<L>, T)>,
}

impl<L, T> Default for LspRunnables<L, T> {
    fn default() -> (r: Self)
        ensures
            r.runnables@.len() == 0,
    {
        LspRunnables { runnables: Vec::new() }
    }
}

/// The texts that are there.
pub open spec fn present(quoted: Seq<Option<String>>) -> Seq<Seq<char>>
    decreases quoted.len(),
{
    if quoted.len() == 0 {
        Seq::empty()
    } else {
        match quoted.last() {
            Some(text) => present(quoted.drop_last()).push(text@),
            None => present(quoted.drop_last()),
        }
    }
}

/// What is run in place of cargo, in words: the command and its first arguments.
pub open spec fn cargo_words(cargo: CargoRunnableArgs) -> Seq<Seq<char>> {
    match cargo.override_cargo {
        Some(command) => pieces(command@, ' '),
        None => seq!["cargo"@],
    }
}

/// All arguments of a run of cargo; `quoted` are the arguments of the executable, quoted for the
/// shell, without those that cannot be quoted.
pub open spec fn cargo_task_args(cargo: CargoRunnableArgs, quoted: Seq<Option<String>>) -> Seq<
    Seq<char>,
> {
    cargo_words(cargo).skip(1) + texts(cargo.cargo_args@) + if cargo.executable_args@.len() > 0 {
        seq!["--"@] + present(quoted)
    } else {
        Seq::empty()
    }
}

/// The task runs cargo: in the root of the workspace where it is known, and else in the directory
/// that is named.
pub open spec fn is_cargo_task(
    task: TaskTemplate,
    cargo: CargoRunnableArgs,
    quoted: Seq<Option<String>>,
) -> bool {
    &&& task.command@ == cargo_words(cargo)[0]
    &&& texts(task.args@) == cargo_task_args(cargo, quoted)
    &&& task.env == cargo.environment
    &&& task.cwd == Some(
        match cargo.workspace_root {
            Some(root) => root,
            None => cargo.cwd,
        },
    )
}

/// The task runs a program.
pub open spec fn is_shell_task(task: TaskTemplate, shell: ShellRunnableArgs) -> bool {
    &&& task.command == shell.program
    &&& task.args == shell.args
    &&& task.env == shell.environment
    &&& task.cwd == Some(shell.cwd)
}

/// The texts, each quoted for the shell where it can be, as `quote` does it.
pub open spec fn is_quoting<Q: Fn(&String) -> Option<String>>(
    quoted: Seq<Option<String>>,
    args: Seq<String>,
    quote: Q,
) -> bool {
    &&& quoted.len() == args.len()
    &&& forall|i: int|
        0 <= i < args.len() ==> call_ensures(quote, (&args[i],), #[trigger] quoted[i])
}

/// The task is what the server said can be run.
pub open spec fn is_task_of<Q: Fn(&String) -> Option<String>>(
    task: TaskTemplate,
    label: String,
    args: RunnableArgs,
    quote: Q,
) -> bool {
    &&& task.label == label
    &&& match args {
        RunnableArgs::Cargo(cargo) => exists|quoted: Seq<Option<String>>| #[trigger]
            is_quoting(quoted, cargo.executable_args@, quote) && is_cargo_task(
                task,
                cargo,
                quoted,
            ),
        RunnableArgs::Shell(shell) => is_shell_task(task, shell),
    }
}

/// Puts the texts of one list behind those of another.
fn push_all(list: &mut Vec<String>, more: Vec<String>)
    ensures
        texts(final(list)@) == texts(old(list)@) + texts(more@),
{
    let ghost before = texts(list@);
    let ghost all = more@;
    for text in it: more
        invariant
            it.seq() == all,
            texts(list@) == before + texts(all.take(it.index() as int)),
    {
        let ghost i = it.index() as int;
        let ghost earlier = texts(list@);
        let ghost pushed = text@;
        list.push(text);
        assert(texts(list@) =~= earlier.push(pushed));
        assert(texts(all.take(i + 1)) =~= texts(all.take(i)).push(pushed));
    }
    assert(all.take(all.len() as int) =~= all);
}

/// Puts those texts of one list that are there behind those of another.
fn push_present(list: &mut Vec<String>, more: Vec<Option<String>>)
    ensures
        texts(final(list)@) == texts(old(list)@) + present(more@),
{
    let ghost before = texts(list@);
    let ghost all = more@;
    for item in it: more
        invariant
            it.seq() == all,
            texts(list@) == before + present(all.take(it.index() as int)),
    {
        let ghost i = it.index() as int;
        let ghost earlier = texts(list@);
        assert(all.take(i + 1).drop_last() =~= all.take(i));
        if let Some(text) = item {
            let ghost pushed = text@;
            list.push(text);
            assert(texts(list@) =~= earlier.push(pushed));
        }
    }
    assert(all.take(all.len() as int) =~= all);
}

/// The task that runs cargo.
fn cargo_task(label: String, cargo: CargoRunnableArgs, quoted: Vec<Option<String>>) -> (r:
    TaskTemplate)
    ensures
        r.label == label,
        is_cargo_task(r, cargo, quoted@),
{
    let ghost all = cargo;
    let mut args: Vec<String> = Vec::new();
    let command = match &cargo.override_cargo {
        Some(text) => {
            let mut words = split_text(text.as_str(), ' ');
            proof {
                splitting_then_joining_is_identity(text@, ' ');
            }
            let ghost before = words@;
            assert(texts(before)[0] == before[0]@);
            let first = words.remove(0);
            assert(texts(words@) =~= texts(before).skip(1));
            push_all(&mut args, words);
            assert(texts(args@) =~= pieces(text@, ' ').skip(1));
            first
        },
        None => "cargo".to_owned(),
    };
    assert(command@ == cargo_words(all)[0]);
    assert(texts(args@) =~= cargo_words(all).skip(1));
    push_all(&mut args, cargo.cargo_args);
    if cargo.executable_args.len() > 0 {
        let ghost before = texts(args@);
        args.push("--".to_owned());
        assert(texts(args@) =~= before.push("--"@));
        push_present(&mut args, quoted);
    }
    assert(texts(args@) =~= cargo_task_args(all, quoted@));
    TaskTemplate {
        label,
        command,
        args,
        env: cargo.environment,
        cwd: Some(
            match cargo.workspace_root {
                Some(root) => root,
                None => cargo.cwd,
            },
        ),
    }
}

/// Quotes the texts for the shell.
fn quote_all<Q: Fn(&String) -> Option<String>>(args: &Vec<String>, quote: &Q) -> (r: Vec<
    Option<String>,
>)
    requires
        forall|arg: &String| call_requires(*quote, (arg,)),
    ensures
        is_quoting(r@, args@, *quote),
{
    let mut quoted: Vec<Option<String>> = Vec::new();
    for i in 0..args.len()
        invariant
            forall|arg: &String| call_requires(*quote, (arg,)),
            quoted@.len() == i,
            forall|j: int|
                0 <= j < i ==> call_ensures(*quote, (&args@[j],), #[trigger] quoted@[j]),
    {
        quoted.push(quote(&args[i]));
    }
    quoted
}

/// The task for something that can be run; `quote` quotes an argument of an executable for the
/// shell where it can be.
pub fn task_of<Q: Fn(&String) -> Option<String>>(
    label: String,
    args: RunnableArgs,
    quote: &Q,
) -> (r: TaskTemplate)
    requires
        forall|arg: &String| call_requires(*quote, (arg,)),
    ensures
        is_task_of(r, label, args, *quote),
        r.label == label,
        args matches RunnableArgs::Cargo(cargo) ==> {
            &&& r.env == cargo.environment
            &&& cargo.workspace_root matches Some(root) ==> r.cwd == Some(root)
            &&& cargo.workspace_root is None ==> r.cwd == Some(cargo.cwd)
            &&& cargo.override_cargo is None ==> r.command@ == "cargo"@
        },
        args matches RunnableArgs::Shell(shell) ==> {
            &&& r.command == shell.program
            &&& r.args == shell.args
            &&& r.env == shell.environment
            &&& r.cwd == Some(shell.cwd)
        },
{
    match args {
        RunnableArgs::Cargo(cargo) => {
            let quoted = quote_all(&cargo.executable_args, quote);
            cargo_task(label, cargo, quoted)
        },
        RunnableArgs::Shell(shell) => TaskTemplate {
            label,
            command: shell.program,
            args: shell.args,
            env: shell.environment,
            cwd: Some(shell.cwd),
        },
    }
}

/// The place of something that can be run cannot be had.
pub open spec fn is_lost<L>(runnable: Runnable<Result<L, LspCommandError>>) -> bool {
    runnable.location matches Some(Err(_))
}

/// The entry is what was found out about something that can be run.
pub open spec fn is_entry_of<L, Q: Fn(&String) -> Option<String>>(
    entry: (Option<L>, TaskTemplate),
    runnable: Runnable<Result<L, LspCommandError>>,
    quote: Q,
) -> bool {
    &&& match runnable.location {
        Some(Ok(location)) => entry.0 == Some(location),
        Some(Err(_)) => false,
        None => entry.0 is None,
    }
    &&& is_task_of(entry.1, runnable.label, runnable.args, quote)
}

/// What a peer says of something that can be run: its place, or why that cannot be had, and the
/// task, or why it cannot be understood. `T` is a task in the form in which peers exchange it.
#[derive(Debug)]
pub struct ReceivedRunnable<L, T> {
    pub location: Option<Result<L, LspCommandError>>,
    pub task_template: Result<T, String>,
}

/// Why what a peer says cannot be used: first its place is looked at, then the task.
pub open spec fn received_error<L, T>(received: ReceivedRunnable<L, T>) -> Option<LspCommandError> {
    match received.location {
        Some(Err(error)) => Some(error),
        _ => match received.task_template {
            Ok(_) => None,
            Err(reason) => Some(LspCommandError::UndecodableTask(reason)),
        },
    }
}

/// What a peer says, where it can be used.
pub open spec fn received_entry<L, T>(received: ReceivedRunnable<L, T>) -> (Option<L>, T) {
    (
        match received.location {
            Some(Ok(location)) => Some(location),
            _ => None,
        },
        received.task_template->Ok_0,
    )
}

impl<A> GetLspRunnables<A> {
    /// What the command is called.
    pub fn display_name(&self) -> (r: &'static str)
        ensures
            r@ == "LSP Runnables"@,
    {
        "LSP Runnables"
    }

    /// Every server is asked.
    pub fn check_capabilities(&self) -> (r: bool)
        ensures
            r,
    {
        true
    }

    /// What a server is asked about the document, where the path is that of one; `to_point` tells
    /// which place an anchor stands for. Without an anchor no place is named.
    pub fn to_lsp<F: Fn(&A) -> PointUtf16>(
        &self,
        document: Result<TextDocumentIdentifier, LspCommandError>,
        to_point: F,
    ) -> (r: Result<RunnablesParams, LspCommandError>)
        requires
            forall|anchor: &A| call_requires(to_point, (anchor,)),
        ensures
            match document {
                Ok(text_document) => {
                    &&& r matches Ok(params)
                    &&& params.text_document == text_document
                    &&& match (self.position, params.position) {
                        (Some(anchor), Some(position)) => call_ensures(
                            to_point,
                            (&anchor,),
                            point_at(position),
                        ) && call_ensures(
                            to_point,
                            (&anchor,),
                            (PointUtf16 { row: position.line, column: position.character }),
                        ),
                        (None, None) => true,
                        _ => false,
                    }
                },
                Err(error) => r == Err::<RunnablesParams, _>(error),
            },
    {
        let text_document = match document {
            Ok(text_document) => text_document,
            Err(error) => {
                return Err(error);
            },
        };
        let position = match &self.position {
            Some(anchor) => Some(point_to_lsp(to_point(anchor))),
            None => None,
        };
        Ok(RunnablesParams { text_document, position })
    }

    /// What comes of the answer of a server: a task for everything that can be run, in order, or
    /// the first reason why a place cannot be had. `quote` quotes an argument of an executable for
    /// the shell where it can be.
    pub fn response_from_lsp<L, Q: Fn(&String) -> Option<String>>(
        self,
        found: Vec<Runnable<Result<L, LspCommandError>>>,
        quote: &Q,
    ) -> (r: Result<LspRunnables<L, TaskTemplate>, LspCommandError>)
        requires
            forall|arg: &String| call_requires(*quote, (arg,)),
        ensures
            match r {
                Ok(response) => {
                    &&& response.runnables@.len() == found@.len()
                    &&& forall|i: int|
                        0 <= i < found@.len() ==> is_entry_of(
                            #[trigger] response.runnables@[i],
                            found@[i],
                            *quote,
                        )
                    &&& forall|i: int|
                        0 <= i < found@.len() ==> match found@[i].location {
                            Some(Ok(location)) => (#[trigger] response.runnables@[i]).0 == Some(
                                location,
                            ),
                            Some(Err(_)) => false,
                            None => response.runnables@[i].0 is None,
                        }
                },
                Err(error) => exists|i: int|
                    {
                        &&& 0 <= i < found@.len()
                        &&& (#[trigger] found@[i]).location == Some(
                            Err::<L, LspCommandError>(error),
                        )
                        &&& forall|j: int| 0 <= j < i ==> !is_lost(#[trigger] found@[j])
                    },
            },
            r is Ok <==> forall|i: int| 0 <= i < found@.len() ==> !is_lost(#[trigger] found@[i]),
    {
        let ghost all = found@;
        let mut runnables: Vec<(Option<L>, TaskTemplate)> = Vec::new();
        for runnable in it: found
            invariant
                it.seq() == all,
                all == found@,
                forall|arg: &String| call_requires(*quote, (arg,)),
                runnables@.len() == it.index(),
                forall|j: int| 0 <= j < it.index() ==> !is_lost(#[trigger] all[j]),
                forall|j: int|
                    0 <= j < it.index() ==> is_entry_of(#[trigger] runnables@[j], all[j], *quote),
        {
            let ghost i = it.index() as int;
            assert(runnable == all[i]);
            let location = match runnable.location {
                Some(Ok(location)) => Some(location),
                Some(Err(error)) => {
                    assert(is_lost(all[i]));
                    return Err(error);
                },
                None => None,
            };
            let task = task_of(runnable.label, runnable.args, quote);
            runnables.push((location, task));
        }
        Ok(LspRunnables { runnables })
    }

    /// What a peer is asked; `anchor` is the place, in the form that a peer understands.
    pub fn to_proto<B>(&self, project_id: u64, buffer_id: u64, anchor: Option<B>) -> (r:
        PositionRequest<B>)
        ensures
            r == (PositionRequest { project_id, buffer_id, position: anchor }),
    {
        PositionRequest { project_id, buffer_id, position: anchor }
    }

    /// What a peer asks: the buffer, or why there is none, and the place where it is understood.
    pub fn from_proto(buffer_id: Result<u64, LspCommandError>, position: Option<A>) -> (r: Result<
        Self,
        LspCommandError,
    >)
        ensures
            match buffer_id {
                Ok(buffer_id) => r == Ok::<_, LspCommandError>(
                    GetLspRunnables { buffer_id, position },
                ),
                Err(error) => r == Err::<GetLspRunnables<A>, _>(error),
            },
    {
        match buffer_id {
            Ok(buffer_id) => Ok(GetLspRunnables { buffer_id, position }),
            Err(error) => Err(error),
        }
    }

    /// What comes of the answer of a peer: everything that it says, in order, or the first reason
    /// why something cannot be used.
    pub fn response_from_proto<L, T>(self, received: Vec<ReceivedRunnable<L, T>>) -> (r: Result<
        LspRunnables<L, T>,
        LspCommandError,
    >)
        ensures
            match r {
                Ok(response) => {
                    &&& response.runnables@.len() == received@.len()
                    &&& forall|i: int|
                        0 <= i < received@.len() ==> #[trigger] response.runnables@[i]
                            == received_entry(received@[i])
                    &&& forall|i: int|
                        0 <= i < received@.len() ==> {
                            let entry = #[trigger] response.runnables@[i];
                            &&& received@[i].task_template == Ok::<T, String>(entry.1)
                            &&& match received@[i].location {
                                Some(Ok(location)) => entry.0 == Some(location),
                                Some(Err(_)) => false,
                                None => entry.0 is None,
                            }
                        }
                },
                Err(error) => exists|i: int|
                    {
                        &&& 0 <= i < received@.len()
                        &&& received_error(#[trigger] received@[i]) == Some(error)
                        &&& forall|j: int|
                            0 <= j < i ==> received_error(#[trigger] received@[j]) is None
                        &&& match received@[i].location {
                            Some(Err(reason)) => error == reason,
                            _ => received@[i].task_template matches Err(reason) && error
                                == LspCommandError::UndecodableTask(reason),
                        }
                        &&& forall|j: int|
                            0 <= j < i ==> (#[trigger] received@[j]).task_template is Ok && !(
                            received@[j].location matches Some(Err(_)))
                    },
            },
            r is Ok <==> forall|i: int|
                0 <= i < received@.len() ==> received_error(#[trigger] received@[i]) is None,
    {
        let ghost all = received@;
        let mut runnables: Vec<(Option<L>, T)> = Vec::new();
        for item in it: received
            invariant
                it.seq() == all,
                all == received@,
                runnables@.len() == it.index(),
                forall|j: int| 0 <= j < it.index() ==> received_error(#[trigger] all[j]) is None,
                forall|j: int|
                    0 <= j < it.index() ==> #[trigger] runnables@[j] == received_entry(all[j]),
        {
            let ghost i = it.index() as int;
            assert(item == all[i]);
            let location = match item.location {
                Some(Ok(location)) => Some(location),
                Some(Err(error)) => {
                    assert(received_error(all[i]) == Some(error));
                    return Err(error);
                },
                None => None,
            };
            let task = match item.task_template {
                Ok(task) => task,
                Err(reason) => {
                    assert(received_error(all[i]) == Some(
                        LspCommandError::UndecodableTask(reason),
                    ));
                    return Err(LspCommandError::UndecodableTask(reason));
                },
            };
            runnables.push((location, task));
        }
        Ok(LspRunnables { runnables })
    }
}

/// A run of cargo takes place in the root of the workspace where that is given, and else in the
/// directory that the server named, whatever is run and with whatever arguments; in the
/// environment that the server gave, and under its label. Without a command in its place, cargo
/// is what is run.
pub proof fn cargo_runs_in_the_workspace<Q: Fn(&String) -> Option<String>>(
    task: TaskTemplate,
    label: String,
    cargo: CargoRunnableArgs,
    quote: Q,
)
    requires
        is_task_of(task, label, RunnableArgs::Cargo(cargo), quote),
    ensures
        cargo.workspace_root matches Some(root) ==> task.cwd == Some(root),
        cargo.workspace_root is None ==> task.cwd == Some(cargo.cwd),
        task.env == cargo.environment,
        task.label == label,
        cargo.override_cargo is None ==> task.command@ == "cargo"@,
{
}

/// A run of a program runs that program with its own arguments, in its own directory and
/// environment, under the label.
pub proof fn programs_run_as_they_stand<Q: Fn(&String) -> Option<String>>(
    task: TaskTemplate,
    label: String,
    shell: ShellRunnableArgs,
    quote: Q,
)
    requires
        is_task_of(task, label, RunnableArgs::Shell(shell), quote),
    ensures
        task.label == label,
        task.command == shell.program,
        task.args == shell.args,
        task.env == shell.environment,
        task.cwd == Some(shell.cwd),
{
}

/// What can be run comes at its own place, where that is known, with the task for it.
pub proof fn entries_are_of_what_can_be_run<L, Q: Fn(&String) -> Option<String>>(
    entry: (Option<L>, TaskTemplate),
    runnable: Runnable<Result<L, LspCommandError>>,
    quote: Q,
)
    requires
        is_entry_of(entry, runnable, quote),
    ensures
        match entry.0 {
            Some(location) => runnable.location == Some(Ok::<L, LspCommandError>(location)),
            None => runnable.location is None,
        },
        is_task_of(entry.1, runnable.label, runnable.args, quote),
{
}

/// The arguments of cargo stand in the task one after another, each at its place: behind the
/// further words of the command that is run in place of cargo, where there is one, and else from
/// the start.
pub proof fn arguments_stand_in_order(
    task: TaskTemplate,
    cargo: CargoRunnableArgs,
    quoted: Seq<Option<String>>,
    i: int,
)
    requires
        is_cargo_task(task, cargo, quoted),
        0 <= i < cargo.cargo_args@.len(),
    ensures
        ({
            let first = match cargo.override_cargo {
                Some(command) => pieces(command@, ' ').len() - 1,
                None => 0,
            };
            &&& 0 <= first
            &&& first + i < task.args@.len()
            &&& task.args@[first + i]@ == cargo.cargo_args@[i]@
        }),
{
    if cargo.override_cargo is Some {
        splitting_then_joining_is_identity(cargo.override_cargo->Some_0@, ' ');
    }
    let first = cargo_words(cargo).len() - 1;
    let args = texts(task.args@);
    assert(args == cargo_task_args(cargo, quoted));
    assert(args.len() >= first + cargo.cargo_args@.len());
    assert(cargo_words(cargo).skip(1).len() == first);
    assert(args[first + i] == texts(cargo.cargo_args@)[i]);
    assert(args[first + i] == task.args@[first + i]@);
}

/// Of the quoted arguments each that is there comes after those before it; one that cannot be
/// quoted leaves no trace.
pub proof fn quoted_arguments_are_taken_one_by_one(
    a: Seq<Option<String>>,
    b: Seq<Option<String>>,
    text: String,
)
    ensures
        present(a + b) == present(a) + present(b),
        present(seq![Some(text)]) == seq![text@],
        present(seq![None]) == Seq::<Seq<char>>::empty(),
    decreases b.len(),
{
    reveal_with_fuel(present, 2);
    assert(seq![Some(text)].drop_last() =~= Seq::empty());
    assert(seq![None::<String>].drop_last() =~= Seq::empty());
    assert(present(seq![Some(text)]) =~= seq![text@]);
    if b.len() > 0 {
        quoted_arguments_are_taken_one_by_one(a, b.drop_last(), text);
        assert((a + b).drop_last() =~= a + b.drop_last());
        assert(present(a + b) =~= present(a) + present(b));
    } else {
        assert(a + b =~= a);
    }
}

/// A command that is run in place of cargo is run as it stands: the command and the first
/// arguments of the task, with spaces between them, are the text that the server gave.
pub proof fn override_is_run_as_it_stands(
    task: TaskTemplate,
    cargo: CargoRunnableArgs,
    quoted: Seq<Option<String>>,
)
    requires
        is_cargo_task(task, cargo, quoted),
        cargo.override_cargo is Some,
    ensures
        ({
            let command = cargo.override_cargo->Some_0@;
            let words = pieces(command, ' ').len() as int;
            &&& 1 <= words <= texts(task.args@).len() + 1
            &&& joined(seq![task.command@] + texts(task.args@).take(words - 1), ' ') == command
        }),
{
    let command = cargo.override_cargo->Some_0@;
    splitting_then_joining_is_identity(command, ' ');
    let words = pieces(command, ' ');
    assert(seq![task.command@] + texts(task.args@).take(words.len() - 1) =~= words);
}

/// Arguments of the executable never come without `--` before them, and `--` is not put behind the
/// arguments of cargo where there are none.
pub proof fn arguments_of_the_executable_follow_the_dashes(
    task: TaskTemplate,
    cargo: CargoRunnableArgs,
    quoted: Seq<Option<String>>,
)
    requires
        is_cargo_task(task, cargo, quoted),
    ensures
        ({
            let before = cargo_words(cargo).len() - 1 + cargo.cargo_args@.len();
            let args = texts(task.args@);
            if cargo.executable_args@.len() == 0 {
                args.len() == before
            } else {
                &&& args.len() > before
                &&& args[before] == "--"@
                &&& args.skip(before + 1) == present(quoted)
            }
        }),
{
    if cargo.override_cargo is Some {
        splitting_then_joining_is_identity(cargo.override_cargo->Some_0@, ' ');
    }
    let before = cargo_words(cargo).len() - 1 + cargo.cargo_args@.len();
    if cargo.executable_args@.len() > 0 {
        assert(texts(task.args@).skip(before + 1) =~= present(quoted));
    }
}

/// Each argument of the executable is quoted by itself, and what can be quoted stands in the task in
/// the order of the arguments, behind `--`.
pub proof fn arguments_of_the_executable_are_quoted_one_by_one<
    Q: Fn(&String) -> Option<String>,
>(task: TaskTemplate, label: String, cargo: CargoRunnableArgs, quote: Q)
    requires
        is_task_of(task, label, RunnableArgs::Cargo(cargo), quote),
        cargo.executable_args@.len() > 0,
    ensures
        exists|quoted: Seq<Option<String>>|
            {
                let kept = #[trigger] present(quoted);
                let args = texts(task.args@);
                &&& quoted.len() == cargo.executable_args@.len()
                &&& forall|i: int|
                    0 <= i < quoted.len() ==> call_ensures(
                        quote,
                        (&cargo.executable_args@[i],),
                        #[trigger] quoted[i],
                    )
                &&& args.len() >= kept.len() + 1
                &&& args[args.len() - kept.len() - 1] == "--"@
                &&& args.skip(args.len() - kept.len()) == kept
            },
{
    let quoted = choose|quoted: Seq<Option<String>>| #[trigger]
        is_quoting(quoted, cargo.executable_args@, quote) && is_cargo_task(task, cargo, quoted);
    arguments_of_the_executable_follow_the_dashes(task, cargo, quoted);
    let before = cargo_words(cargo).len() - 1 + cargo.cargo_args@.len();
    let args = texts(task.args@);
    assert(args.skip(before + 1).len() == present(quoted).len());
    assert(args.len() - present(quoted).len() == before + 1);
}

/// The place of something that can be run is lost exactly where it cannot be had.
pub proof fn places_are_lost_by_an_error<L>(runnable: Runnable<Result<L, LspCommandError>>)
    ensures
        is_lost(runnable) <==> runnable.location is Some && runnable.location->Some_0 is Err,
{
}

} // verus!
