//! Tools that a language model can use.
use crate::json::{Json, JsonModel};
use vstd::prelude::*;

verus! {

/// A tool that a language model can use.
pub trait Tool: 'static + Send + Sync {
    /// The name of the tool.
    fn name(&self) -> String;

    /// The description of the tool.
    fn description(&self) -> String;

    /// The JSON schema of the tool's input. A tool that does not say otherwise puts no bounds on
    /// it.
    fn input_schema(&self) -> (r: Json)
        default_ensures
            r.model() == JsonModel::Object(Seq::empty()),
    {
        let schema = Json::Object(Vec::new());
        assert(schema.model()->Object_0 =~= Seq::empty());
        schema
    }
}

} // verus!
