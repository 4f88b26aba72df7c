//! The Herb language server, which toggles comments in templates.
use vstd::prelude::*;

verus! {

/// The name of the server.
pub const HERB_LS_NAME: &'static str = "herb";

/// Whether comments of a buffer can be toggled by way of the server; `server` is the running
/// server of that name for the buffer, where there is one.
pub fn supports_toggle_comments<S>(server: &Option<S>) -> (r: bool)
    ensures
        r == (*server is Some),
{
    server.is_some()
}

} // verus!
