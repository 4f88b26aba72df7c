//! The logic of an editor's workbench: checking theme files against the keys that the editor knows,
//! keeping the reviews of changes that an agent made, remembering sessions and their windows, and
//! talking to language servers beyond the protocol.
//!
//! Everything here computes on plain values. Reading files, storing texts and talking to servers
//! and peers is left to the program around it.

pub mod clock;
pub mod ids;
pub mod json;
pub mod key_set;
pub mod lsp;
pub mod review;
pub mod session;
pub mod text;
pub mod theme;
pub mod tool;
