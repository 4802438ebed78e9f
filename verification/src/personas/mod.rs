//! Agent personas: named roles that restrict tools, shell commands and sandbox policy.
//!
//! Personas are found in a user-global directory and in a per-workspace
//! directory; workspace personas win on name collision.
pub mod enforcement;
pub mod loader;
pub mod registry;
pub mod types;

use vstd::prelude::*;

verus! {

/// Errors related to persona loading and validation.
#[derive(Debug)]
pub enum PersonaError {
    NotFound { name: String },
    ReadError { path: String, reason: String },
    ParseError { path: String, reason: String },
    ValidationError { name: String, reason: String },
}

impl PersonaError {
    /// The error message.
    pub open spec fn message(&self) -> Seq<char> {
        match self {
            PersonaError::NotFound { name } => "Persona not found: "@ + name@,
            PersonaError::ReadError { path, reason } => "Failed to read persona file "@ + path@
                + ": "@ + reason@,
            PersonaError::ParseError { path, reason } => "Failed to parse persona file "@ + path@
                + ": "@ + reason@,
            PersonaError::ValidationError { name, reason } => "Persona validation failed for "@
                + name@ + ": "@ + reason@,
        }
    }

    /// The error message, e.g. "Persona not found: <name>".
    pub fn to_string(&self) -> (r: String)
        ensures
            r@ == self.message(),
    {
        let mut s = String::new();
        match self {
            PersonaError::NotFound { name } => {
                s.append("Persona not found: ");
                s.append(name.as_str());
            },
            PersonaError::ReadError { path, reason } => {
                s.append("Failed to read persona file ");
                s.append(path.as_str());
                s.append(": ");
                s.append(reason.as_str());
            },
            PersonaError::ParseError { path, reason } => {
                s.append("Failed to parse persona file ");
                s.append(path.as_str());
                s.append(": ");
                s.append(reason.as_str());
            },
            PersonaError::ValidationError { name, reason } => {
                s.append("Persona validation failed for ");
                s.append(name.as_str());
                s.append(": ");
                s.append(reason.as_str());
            },
        }
        s
    }
}

} // verus!
