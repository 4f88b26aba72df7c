//! Requests and notifications that go beyond the language server protocol: what is sent to a
//! server or to a peer, and what comes of the answers.
use vstd::prelude::*;
use vstd::string::*;

pub mod flycheck;
pub mod herb;
pub mod navigation;
pub mod runnables;
pub mod toggle_comments;

verus! {

/// A place in a buffer, in lines and UTF-16 code units.
#[derive(Debug, Clone, Copy, PartialEq, Eq, Structural)]
pub struct PointUtf16 {
    pub row: u32,
    pub column: u32,
}

/// A place in a document, as servers name it.
#[derive(Debug, Clone, Copy, PartialEq, Eq, Structural)]
pub struct Position {
    pub line: u32,
    pub character: u32,
}

/// What servers call the place.
pub open spec fn lsp_position(point: PointUtf16) -> Position {
    Position { line: point.row, character: point.column }
}

/// The place that servers call so.
pub open spec fn point_at(position: Position) -> PointUtf16 {
    PointUtf16 { row: position.line, column: position.character }
}

/// What servers call the place.
pub fn point_to_lsp(point: PointUtf16) -> (r: Position)
    ensures
        r == lsp_position(point),
        point_at(r) == point,
        r.line == point.row,
        r.character == point.column,
{
    Position { line: point.row, character: point.column }
}

/// A document, as servers name it.
#[derive(Debug, PartialEq, Eq)]
pub struct TextDocumentIdentifier {
    pub uri: String,
}

/// A stretch from one place to another.
#[derive(Debug, PartialEq, Eq)]
pub struct Span<P> {
    pub start: P,
    pub end: P,
}

/// A request to a peer that speaks of a place in a buffer.
#[derive(Debug, PartialEq, Eq)]
pub struct PositionRequest<A> {
    pub project_id: u64,
    pub buffer_id: u64,
    pub position: Option<A>,
}

/// Why a request cannot be made or understood.
#[derive(Debug, PartialEq, Eq)]
pub enum LspCommandError {
    /// The path, shown here, is that of no document.
    InvalidUri(String),
    /// A request without a place, or with one that cannot be understood.
    InvalidPosition,
    /// The same, of a request for the parent module.
    BadPosition,
    /// A stretch whose start cannot be understood.
    InvalidStart,
    /// A stretch whose end cannot be understood.
    InvalidEnd,
    /// A task that cannot be understood, for the reason given.
    UndecodableTask(String),
    /// Something else failed, for the reason given.
    Failed(String),
}

/// What is said of an error.
pub open spec fn error_text(error: LspCommandError) -> Seq<char> {
    match error {
        LspCommandError::InvalidUri(path) => path@ + " is not a valid URI"@,
        LspCommandError::InvalidPosition => "invalid position"@,
        LspCommandError::BadPosition => "bad request with bad position"@,
        LspCommandError::InvalidStart => "invalid start anchor"@,
        LspCommandError::InvalidEnd => "invalid end anchor"@,
        LspCommandError::UndecodableTask(_) => "deserializing task template from proto"@,
        LspCommandError::Failed(reason) => reason@,
    }
}

impl LspCommandError {
    /// What is said of the error.
    pub fn message(&self) -> (r: String)
        ensures
            r@ == error_text(*self),
            self matches LspCommandError::InvalidUri(path) ==> r@ == path@
                + " is not a valid URI"@,
            self matches LspCommandError::Failed(reason) ==> r@ == reason@,
    {
        match self {
            LspCommandError::InvalidUri(path) => {
                let mut text = path.clone();
                text.append(" is not a valid URI");
                text
            },
            LspCommandError::InvalidPosition => "invalid position".to_owned(),
            LspCommandError::BadPosition => "bad request with bad position".to_owned(),
            LspCommandError::InvalidStart => "invalid start anchor".to_owned(),
            LspCommandError::InvalidEnd => "invalid end anchor".to_owned(),
            LspCommandError::UndecodableTask(_) =>
                "deserializing task template from proto".to_owned(),
            LspCommandError::Failed(reason) => reason.clone(),
        }
    }
}

} // verus!
