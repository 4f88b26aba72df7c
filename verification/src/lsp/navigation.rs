//! Expanding a macro, opening documentation, switching between source and header, and going to
//! the parent module.
use crate::lsp::{
    lsp_position, point_to_lsp, LspCommandError, PointUtf16, Position, PositionRequest,
    TextDocumentIdentifier,
};
use vstd::prelude::*;
use vstd::string::*;

verus! {

/// The request to expand a macro.
pub struct LspExtExpandMacro {}

impl LspExtExpandMacro {
    /// What servers call it.
    pub const METHOD: &'static str = "rust-analyzer/expandMacro";
}

/// Where the macro stands.
#[derive(Debug)]
pub struct ExpandMacroParams {
    pub text_document: TextDocumentIdentifier,
    pub position: Position,
}

/// A macro and what it expands to.
#[derive(Debug, PartialEq, Eq)]
pub struct ExpandedMacro {
    pub name: String,
    pub expansion: String,
}

impl Default for ExpandedMacro {
    fn default() -> (r: Self)
        ensures
            r.name@.len() == 0,
            r.expansion@.len() == 0,
    {
        ExpandedMacro { name: String::new(), expansion: String::new() }
    }
}

impl ExpandedMacro {
    /// Whether there is neither a name nor an expansion.
    pub fn is_empty(&self) -> (r: bool)
        ensures
            r == (self.name@.len() == 0 && self.expansion@.len() == 0),
    {
        self.name.as_str().is_empty() && self.expansion.as_str().is_empty()
    }
}

/// What a peer answers.
#[derive(Debug)]
pub struct ExpandMacroResponse {
    pub name: String,
    pub expansion: String,
}

/// Expands the macro at a place.
#[derive(Debug)]
pub struct ExpandMacro {
    pub position: PointUtf16,
}

impl ExpandMacro {
    /// What the command is called.
    pub fn display_name(&self) -> (r: &'static str)
        ensures
            r@ == "Expand macro"@,
    {
        "Expand macro"
    }

    /// Every server is asked.
    pub fn check_capabilities(&self) -> (r: bool)
        ensures
            r,
    {
        true
    }

    /// What a server is asked about the document, where the path is that of one.
    pub fn to_lsp(&self, document: Result<TextDocumentIdentifier, LspCommandError>) -> (r: Result<
        ExpandMacroParams,
        LspCommandError,
    >)
        ensures
            match document {
                Ok(text_document) => r == Ok::<_, LspCommandError>(
                    ExpandMacroParams { text_document, position: lsp_position(self.position) },
                ),
                Err(error) => r == Err::<ExpandMacroParams, _>(error),
            },
            r matches Ok(params) ==> params.position.line == self.position.row
                && params.position.character == self.position.column,
    {
        match document {
            Ok(text_document) => Ok(
                ExpandMacroParams { text_document, position: point_to_lsp(self.position) },
            ),
            Err(error) => Err(error),
        }
    }

    /// What comes of the answer of a server: without one, an empty expansion.
    pub fn response_from_lsp(self, message: Option<ExpandedMacro>) -> (r: ExpandedMacro)
        ensures
            match message {
                Some(message) => r == message,
                None => r.name@.len() == 0 && r.expansion@.len() == 0,
            },
    {
        match message {
            Some(message) => message,
            None => ExpandedMacro::default(),
        }
    }

    /// What a peer is asked; `anchor` is the place, anchored in the buffer.
    pub fn to_proto<A>(&self, project_id: u64, buffer_id: u64, anchor: A) -> (r: PositionRequest<
        A,
    >)
        ensures
            r == (PositionRequest { project_id, buffer_id, position: Some(anchor) }),
    {
        PositionRequest { project_id, buffer_id, position: Some(anchor) }
    }

    /// What a peer asks; `position` is the place that it names, where it can be understood.
    pub fn from_proto(position: Option<PointUtf16>) -> (r: Result<Self, LspCommandError>)
        ensures
            match position {
                Some(position) => r == Ok::<_, LspCommandError>(ExpandMacro { position }),
                None => r == Err::<ExpandMacro, _>(LspCommandError::InvalidPosition),
            },
    {
        match position {
            Some(position) => Ok(ExpandMacro { position }),
            None => Err(LspCommandError::InvalidPosition),
        }
    }

    /// What a peer is answered.
    pub fn response_to_proto(response: ExpandedMacro) -> (r: ExpandMacroResponse)
        ensures
            r == macro_answer(response),
            r.name == response.name,
            r.expansion == response.expansion,
    {
        ExpandMacroResponse { name: response.name, expansion: response.expansion }
    }

    /// What comes of the answer of a peer.
    pub fn response_from_proto(self, message: ExpandMacroResponse) -> (r: ExpandedMacro)
        ensures
            r == macro_of_answer(message),
            r.name == message.name,
            r.expansion == message.expansion,
    {
        ExpandedMacro { name: message.name, expansion: message.expansion }
    }
}

/// What a peer is answered.
pub open spec fn macro_answer(response: ExpandedMacro) -> ExpandMacroResponse {
    ExpandMacroResponse { name: response.name, expansion: response.expansion }
}

/// What comes of the answer of a peer.
pub open spec fn macro_of_answer(message: ExpandMacroResponse) -> ExpandedMacro {
    ExpandedMacro { name: message.name, expansion: message.expansion }
}

/// A peer learns of an expansion what was known of it.
pub proof fn expansion_survives_the_way_to_a_peer(response: ExpandedMacro)
    ensures
        macro_of_answer(macro_answer(response)) == response,
{
}

/// The request for the documentation.
pub struct LspOpenDocs {}

impl LspOpenDocs {
    /// What servers call it.
    pub const METHOD: &'static str = "experimental/externalDocs";
}

/// Where what is documented stands.
#[derive(Debug)]
pub struct OpenDocsParams {
    pub text_document: TextDocumentIdentifier,
    pub position: Position,
}

/// Where the documentation is.
#[derive(Debug, PartialEq, Eq)]
pub struct DocsUrls {
    pub web: Option<String>,
    pub local: Option<String>,
}

impl Default for DocsUrls {
    fn default() -> (r: Self)
        ensures
            r == (DocsUrls { web: None, local: None }),
    {
        DocsUrls { web: None, local: None }
    }
}

impl DocsUrls {
    /// Whether there is no documentation.
    pub fn is_empty(&self) -> (r: bool)
        ensures
            r == (self.web is None && self.local is None),
    {
        self.web.is_none() && self.local.is_none()
    }
}

/// What a peer answers.
#[derive(Debug)]
pub struct OpenDocsResponse {
    pub web: Option<String>,
    pub local: Option<String>,
}

/// Opens the documentation of what stands at a place.
#[derive(Debug)]
pub struct OpenDocs {
    pub position: PointUtf16,
}

impl OpenDocs {
    /// What the command is called.
    pub fn display_name(&self) -> (r: &'static str)
        ensures
            r@ == "Open docs"@,
    {
        "Open docs"
    }

    /// Every server is asked.
    pub fn check_capabilities(&self) -> (r: bool)
        ensures
            r,
    {
        true
    }

    /// What a server is asked about the document at the path, where there is one; `shown_path` is
    /// the path as it is shown.
    pub fn to_lsp(&self, uri: Option<String>, shown_path: String) -> (r: Result<
        OpenDocsParams,
        LspCommandError,
    >)
        ensures
            match uri {
                Some(uri) => r == Ok::<_, LspCommandError>(
                    OpenDocsParams {
                        text_document: TextDocumentIdentifier { uri },
                        position: lsp_position(self.position),
                    },
                ),
                None => r == Err::<OpenDocsParams, _>(LspCommandError::InvalidUri(shown_path)),
            },
            r matches Ok(params) ==> params.position.line == self.position.row
                && params.position.character == self.position.column,
    {
        match uri {
            Some(uri) => Ok(
                OpenDocsParams {
                    text_document: TextDocumentIdentifier { uri },
                    position: point_to_lsp(self.position),
                },
            ),
            None => Err(LspCommandError::InvalidUri(shown_path)),
        }
    }

    /// What comes of the answer of a server: without one, no documentation.
    pub fn response_from_lsp(self, message: Option<DocsUrls>) -> (r: DocsUrls)
        ensures
            match message {
                Some(message) => r == message,
                None => r.web is None && r.local is None,
            },
    {
        match message {
            Some(message) => message,
            None => DocsUrls::default(),
        }
    }

    /// What a peer is asked; `anchor` is the place, anchored in the buffer.
    pub fn to_proto<A>(&self, project_id: u64, buffer_id: u64, anchor: A) -> (r: PositionRequest<
        A,
    >)
        ensures
            r == (PositionRequest { project_id, buffer_id, position: Some(anchor) }),
    {
        PositionRequest { project_id, buffer_id, position: Some(anchor) }
    }

    /// What a peer asks; `position` is the place that it names, where it can be understood.
    pub fn from_proto(position: Option<PointUtf16>) -> (r: Result<Self, LspCommandError>)
        ensures
            match position {
                Some(position) => r == Ok::<_, LspCommandError>(OpenDocs { position }),
                None => r == Err::<OpenDocs, _>(LspCommandError::InvalidPosition),
            },
    {
        match position {
            Some(position) => Ok(OpenDocs { position }),
            None => Err(LspCommandError::InvalidPosition),
        }
    }

    /// What a peer is answered.
    pub fn response_to_proto(response: DocsUrls) -> (r: OpenDocsResponse)
        ensures
            r == docs_answer(response),
            r.web == response.web,
            r.local == response.local,
    {
        OpenDocsResponse { web: response.web, local: response.local }
    }

    /// What comes of the answer of a peer.
    pub fn response_from_proto(self, message: OpenDocsResponse) -> (r: DocsUrls)
        ensures
            r == docs_of_answer(message),
            r.web == message.web,
            r.local == message.local,
    {
        DocsUrls { web: message.web, local: message.local }
    }
}

/// What a peer is answered.
pub open spec fn docs_answer(response: DocsUrls) -> OpenDocsResponse {
    OpenDocsResponse { web: response.web, local: response.local }
}

/// What comes of the answer of a peer.
pub open spec fn docs_of_answer(message: OpenDocsResponse) -> DocsUrls {
    DocsUrls { web: message.web, local: message.local }
}

/// A peer learns of the documentation what was known of it.
pub proof fn docs_survive_the_way_to_a_peer(response: DocsUrls)
    ensures
        docs_of_answer(docs_answer(response)) == response,
{
}

/// The request to switch between source and header.
pub struct LspSwitchSourceHeader {}

impl LspSwitchSourceHeader {
    /// What servers call it.
    pub const METHOD: &'static str = "textDocument/switchSourceHeader";
}

/// The document to switch from.
#[derive(Debug)]
pub struct SwitchSourceHeaderParams(pub TextDocumentIdentifier);

/// The document to switch to.
#[derive(Debug, PartialEq, Eq)]
pub struct SwitchSourceHeaderResult(pub String);

impl Default for SwitchSourceHeaderResult {
    fn default() -> (r: Self)
        ensures
            r.0@.len() == 0,
    {
        SwitchSourceHeaderResult(String::new())
    }
}

/// A request of a peer to switch.
#[derive(Debug, PartialEq, Eq)]
pub struct SwitchSourceHeaderRequest {
    pub project_id: u64,
    pub buffer_id: u64,
}

/// What a peer answers.
#[derive(Debug)]
pub struct SwitchSourceHeaderResponse {
    pub target_file: String,
}

/// Switches between source and header.
#[derive(Debug)]
pub struct SwitchSourceHeader;

impl Default for SwitchSourceHeader {
    fn default() -> (r: Self)
        ensures
            r == SwitchSourceHeader,
    {
        SwitchSourceHeader
    }
}

impl SwitchSourceHeader {
    /// What the command is called.
    pub fn display_name(&self) -> (r: &'static str)
        ensures
            r@ == "Switch source header"@,
    {
        "Switch source header"
    }

    /// Every server is asked.
    pub fn check_capabilities(&self) -> (r: bool)
        ensures
            r,
    {
        true
    }

    /// What a server is asked about the document, where the path is that of one.
    pub fn to_lsp(&self, document: Result<TextDocumentIdentifier, LspCommandError>) -> (r: Result<
        SwitchSourceHeaderParams,
        LspCommandError,
    >)
        ensures
            match document {
                Ok(text_document) => r == Ok::<_, LspCommandError>(
                    SwitchSourceHeaderParams(text_document),
                ),
                Err(error) => r == Err::<SwitchSourceHeaderParams, _>(error),
            },
    {
        match document {
            Ok(text_document) => Ok(SwitchSourceHeaderParams(text_document)),
            Err(error) => Err(error),
        }
    }

    /// What comes of the answer of a server: without one, an empty name.
    pub fn response_from_lsp(self, message: Option<SwitchSourceHeaderResult>) -> (r:
        SwitchSourceHeaderResult)
        ensures
            match message {
                Some(message) => r == message,
                None => r.0@.len() == 0,
            },
    {
        match message {
            Some(message) => message,
            None => SwitchSourceHeaderResult::default(),
        }
    }

    /// What a peer is asked.
    pub fn to_proto(&self, project_id: u64, buffer_id: u64) -> (r: SwitchSourceHeaderRequest)
        ensures
            r == (SwitchSourceHeaderRequest { project_id, buffer_id }),
    {
        SwitchSourceHeaderRequest { project_id, buffer_id }
    }

    /// What a peer asks.
    pub fn from_proto(message: SwitchSourceHeaderRequest) -> (r: Self)
        ensures
            r == SwitchSourceHeader,
    {
        SwitchSourceHeader
    }

    /// What a peer is answered.
    pub fn response_to_proto(response: SwitchSourceHeaderResult) -> (r: SwitchSourceHeaderResponse)
        ensures
            r == switch_answer(response),
            r.target_file == response.0,
    {
        SwitchSourceHeaderResponse { target_file: response.0 }
    }

    /// What comes of the answer of a peer.
    pub fn response_from_proto(self, message: SwitchSourceHeaderResponse) -> (r:
        SwitchSourceHeaderResult)
        ensures
            r == switch_of_answer(message),
            r.0 == message.target_file,
    {
        SwitchSourceHeaderResult(message.target_file)
    }
}

/// What a peer is answered.
pub open spec fn switch_answer(response: SwitchSourceHeaderResult) -> SwitchSourceHeaderResponse {
    SwitchSourceHeaderResponse { target_file: response.0 }
}

/// What comes of the answer of a peer.
pub open spec fn switch_of_answer(message: SwitchSourceHeaderResponse) -> SwitchSourceHeaderResult {
    SwitchSourceHeaderResult(message.target_file)
}

/// A peer learns of the document to switch to what was known of it.
pub proof fn switch_survives_the_way_to_a_peer(response: SwitchSourceHeaderResult)
    ensures
        switch_of_answer(switch_answer(response)) == response,
{
}

/// The request for the parent module.
pub struct LspGoToParentModule {}

impl LspGoToParentModule {
    /// What servers call it.
    pub const METHOD: &'static str = "experimental/parentModule";
}

/// A place in a document, as servers name it.
#[derive(Debug)]
pub struct TextDocumentPositionParams {
    pub text_document: TextDocumentIdentifier,
    pub position: Position,
}

/// Goes to the parent module of what stands at a place.
#[derive(Debug)]
pub struct GoToParentModule {
    pub position: PointUtf16,
}

impl GoToParentModule {
    /// What the command is called.
    pub fn display_name(&self) -> (r: &'static str)
        ensures
            r@ == "Go to parent module"@,
    {
        "Go to parent module"
    }

    /// Every server is asked.
    pub fn check_capabilities(&self) -> (r: bool)
        ensures
            r,
    {
        true
    }

    /// What a server is asked about the document, where the path is that of one.
    pub fn to_lsp(&self, document: Result<TextDocumentIdentifier, LspCommandError>) -> (r: Result<
        TextDocumentPositionParams,
        LspCommandError,
    >)
        ensures
            match document {
                Ok(text_document) => r == Ok::<_, LspCommandError>(
                    TextDocumentPositionParams {
                        text_document,
                        position: lsp_position(self.position),
                    },
                ),
                Err(error) => r == Err::<TextDocumentPositionParams, _>(error),
            },
            r matches Ok(params) ==> params.position.line == self.position.row
                && params.position.character == self.position.column,
    {
        match document {
            Ok(text_document) => Ok(
                TextDocumentPositionParams { text_document, position: point_to_lsp(self.position) },
            ),
            Err(error) => Err(error),
        }
    }

    /// What a peer is asked; `anchor` is the place, anchored in the buffer.
    pub fn to_proto<A>(&self, project_id: u64, buffer_id: u64, anchor: A) -> (r: PositionRequest<
        A,
    >)
        ensures
            r == (PositionRequest { project_id, buffer_id, position: Some(anchor) }),
    {
        PositionRequest { project_id, buffer_id, position: Some(anchor) }
    }

    /// What a peer asks; `position` is the place that it names, where it can be understood.
    pub fn from_proto(position: Option<PointUtf16>) -> (r: Result<Self, LspCommandError>)
        ensures
            match position {
                Some(position) => r == Ok::<_, LspCommandError>(GoToParentModule { position }),
                None => r == Err::<GoToParentModule, _>(LspCommandError::BadPosition),
            },
    {
        match position {
            Some(position) => Ok(GoToParentModule { position }),
            None => Err(LspCommandError::BadPosition),
        }
    }
}

} // verus!
