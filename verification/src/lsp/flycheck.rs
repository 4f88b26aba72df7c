//! Notifications about the checks that a server runs in the background.
use crate::lsp::TextDocumentIdentifier;
use vstd::prelude::*;

verus! {

/// Cancels the running check.
#[derive(Debug)]
pub struct LspExtCancelFlycheck {}

/// Runs a check.
#[derive(Debug)]
pub struct LspExtRunFlycheck {}

/// Clears what the last check found.
#[derive(Debug)]
pub struct LspExtClearFlycheck {}

/// What is to be checked: the document, or everything.
#[derive(Debug)]
pub struct RunFlycheckParams {
    pub text_document: Option<TextDocumentIdentifier>,
}

impl LspExtCancelFlycheck {
    /// What servers call it.
    pub const METHOD: &'static str = "rust-analyzer/cancelFlycheck";
}

impl LspExtRunFlycheck {
    /// What servers call it.
    pub const METHOD: &'static str = "rust-analyzer/runFlycheck";
}

impl LspExtClearFlycheck {
    /// What servers call it.
    pub const METHOD: &'static str = "rust-analyzer/clearFlycheck";
}

} // verus!
