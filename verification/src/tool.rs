//! Tool definitions offered to the language model.
use vstd::prelude::*;

verus! {

/// Outside type: a JSON value (serde_json), carried through unchanged.
#[verifier::external_type_specification]
#[verifier::external_body]
pub struct ExJsonValue(serde_json::Value);

/// Trusted: `serde_json::Value::clone` (a derived `Clone`) yields an equal value.
#[verifier::external_body]
fn clone_json(v: &serde_json::Value) -> (r: serde_json::Value)
    ensures
        r == *v,
{
    v.clone()
}

/// A tool the agent can call: its name, a description, and a JSON schema of its parameters.
#[derive(Debug)]
pub struct ToolDefinition {
    pub name: String,
    pub description: String,
    pub parameters: serde_json::Value,
}

impl ToolDefinition {
    /// An exact copy of this definition.
    pub fn duplicate(&self) -> (r: ToolDefinition)
        ensures
            r == *self,
    {
        ToolDefinition {
            name: self.name.clone(),
            description: self.description.clone(),
            parameters: clone_json(&self.parameters),
        }
    }
}

} // verus!
