//! Persona configuration: named roles with tool, shell and sandbox restrictions.
use vstd::prelude::*;

verus! {

/// Outside type: a filesystem path, carried through unchanged.
#[verifier::external_type_specification]
#[verifier::external_body]
pub struct ExPathBuf(std::path::PathBuf);

/// Trusted: cloning a `PathBuf` (std) yields the same path.
pub assume_specification[ <std::path::PathBuf as Clone>::clone ](p: &std::path::PathBuf) -> (r:
    std::path::PathBuf)
    ensures
        r == *p,
;

/// How much of the filesystem a sandboxed command may touch.
#[derive(Debug, Clone, Copy, PartialEq, Eq, Structural)]
pub enum SandboxPolicy {
    ReadOnly,
    WorkspaceWrite,
    FullAccess,
}

/// The policy a configuration string names, if any.
pub open spec fn spec_sandbox_policy(s: Seq<char>) -> Option<SandboxPolicy> {
    if s == "ReadOnly"@ {
        Some(SandboxPolicy::ReadOnly)
    } else if s == "WorkspaceWrite"@ {
        Some(SandboxPolicy::WorkspaceWrite)
    } else if s == "FullAccess"@ {
        Some(SandboxPolicy::FullAccess)
    } else {
        None
    }
}

impl SandboxPolicy {
    /// Parses a policy name as written in a persona file (`ReadOnly`,
    /// `WorkspaceWrite` or `FullAccess`); any other text is returned as the error.
    pub fn parse(s: &str) -> (r: Result<SandboxPolicy, String>)
        ensures
            match r {
                Ok(p) => spec_sandbox_policy(s@) == Some(p),
                Err(e) => spec_sandbox_policy(s@) is None && e@ == s@,
            },
    {
        let c = crate::text::chars_of(s);
        if crate::text::chars_eq_str(&c, "ReadOnly") {
            Ok(SandboxPolicy::ReadOnly)
        } else if crate::text::chars_eq_str(&c, "WorkspaceWrite") {
            Ok(SandboxPolicy::WorkspaceWrite)
        } else if crate::text::chars_eq_str(&c, "FullAccess") {
            Ok(SandboxPolicy::FullAccess)
        } else {
            Err(s.to_owned())
        }
    }
}

/// Core persona metadata.
#[derive(Debug, Clone)]
pub struct PersonaMeta {
    /// Unique persona name (must match the file name stem).
    pub name: String,
    /// Human-readable description.
    pub description: String,
}

/// Prompt/identity injection configuration.
#[derive(Debug, Clone)]
pub struct PersonaPrompt {
    /// Inline identity text injected as system prompt prefix.
    pub identity: Option<String>,
    /// Path to an identity file, relative to the persona file's directory.
    pub identity_file: Option<String>,
}

impl Default for PersonaPrompt {
    fn default() -> (r: Self)
        ensures
            r.identity is None,
            r.identity_file is None,
    {
        PersonaPrompt { identity: None, identity_file: None }
    }
}

/// Tool access control (allowlist or denylist, mutually exclusive).
#[derive(Debug, Clone)]
pub struct PersonaToolAccess {
    /// Allowlist: only these tools are available.
    pub allow: Vec<String>,
    /// Denylist: all tools except these are available.
    pub deny: Vec<String>,
}

impl Default for PersonaToolAccess {
    fn default() -> (r: Self)
        ensures
            r.allow@.len() == 0,
            r.deny@.len() == 0,
    {
        PersonaToolAccess { allow: Vec::new(), deny: Vec::new() }
    }
}

impl PersonaToolAccess {
    /// No allowlist and no denylist.
    pub open spec fn spec_is_unrestricted(&self) -> bool {
        self.allow@.len() == 0 && self.deny@.len() == 0
    }

    /// Returns true if no tool restrictions are configured.
    pub fn is_unrestricted(&self) -> (r: bool)
        ensures
            r == self.spec_is_unrestricted(),
    {
        self.allow.len() == 0 && self.deny.len() == 0
    }
}

/// Shell command access control.
#[derive(Debug, Clone)]
pub struct PersonaShellAccess {
    /// Wildcard patterns for permitted commands. Empty means no shell access.
    pub allowed_commands: Vec<String>,
}

impl Default for PersonaShellAccess {
    fn default() -> (r: Self)
        ensures
            r.allowed_commands@.len() == 0,
    {
        PersonaShellAccess { allowed_commands: Vec::new() }
    }
}

/// Sandbox policy override from persona configuration.
#[derive(Debug, Clone)]
pub struct PersonaSandbox {
    /// Sandbox policy override; `None` keeps the system default.
    pub policy: Option<SandboxPolicy>,
}

impl Default for PersonaSandbox {
    fn default() -> (r: Self)
        ensures
            r.policy is None,
    {
        PersonaSandbox { policy: None }
    }
}

/// Top-level persona configuration, as read from a persona file.
#[derive(Debug, Clone)]
pub struct PersonaConfig {
    pub persona: PersonaMeta,
    pub prompt: PersonaPrompt,
    pub tools: PersonaToolAccess,
    pub shell: PersonaShellAccess,
    pub sandbox: PersonaSandbox,
}

/// A fully resolved persona ready for use.
#[derive(Debug, Clone)]
pub struct LoadedPersona {
    /// Parsed configuration.
    pub config: PersonaConfig,
    /// Resolved identity text (from inline text or the identity file).
    pub identity_text: Option<String>,
    /// Path to the source persona file.
    pub source_path: std::path::PathBuf,
}

impl LoadedPersona {
    /// The persona name.
    pub fn name(&self) -> (r: &str)
        ensures
            r@ == self.config.persona.name@,
    {
        self.config.persona.name.as_str()
    }

    /// The persona description.
    pub fn description(&self) -> (r: &str)
        ensures
            r@ == self.config.persona.description@,
    {
        self.config.persona.description.as_str()
    }
}

} // verus!
