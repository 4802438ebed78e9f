//! Validation of persona files and of the configuration they hold.
use vstd::prelude::*;

use crate::personas::types::{PersonaConfig, PersonaPrompt};
use crate::personas::PersonaError;
use crate::text::{decimal, decimal_string, str_eq};

verus! {

/// Maximum persona file size in bytes (64 KiB).
pub const MAX_FILE_SIZE: u64 = 65536;

/// Regular expression that valid persona names match.
pub const NAME_PATTERN: &'static str = "^[a-zA-Z0-9][a-zA-Z0-9._-]{0,63}$";

/// The character is an ASCII letter or digit.
pub open spec fn is_ascii_alphanumeric(c: char) -> bool {
    let u = c as int;
    (48 <= u <= 57) || (65 <= u <= 90) || (97 <= u <= 122)
}

/// `s` matches `NAME_PATTERN`: one ASCII letter or digit, then at most 63
/// ASCII letters, digits, `.`, `_` or `-`.
pub open spec fn valid_persona_name(s: Seq<char>) -> bool {
    &&& 1 <= s.len() <= 64
    &&& is_ascii_alphanumeric(s[0])
    &&& forall|i: int|
        1 <= i < s.len() ==> is_ascii_alphanumeric(#[trigger] s[i]) || s[i] == '.' || s[i]
            == '_' || s[i] == '-'
}

/// Trusted: `regex::Regex::new` and `Regex::is_match` (regex crate) for the
/// persona name pattern. The pattern compiles; `^` and `$` anchor at the start
/// and end of the haystack and the classes are ASCII ranges, so the haystack
/// matches exactly when it is a valid persona name.
#[verifier::external_body]
fn name_pattern_matches(pattern: &str, haystack: &str) -> (r: bool)
    requires
        pattern@ == NAME_PATTERN@,
    ensures
        r == valid_persona_name(haystack@),
{
    regex::Regex::new(pattern).expect("valid regex").is_match(haystack)
}

/// The outcome of checking a persona file before it is read.
pub open spec fn file_check(path: Seq<char>, is_symlink: bool, size: u64) -> Option<
    (Seq<char>, Seq<char>),
> {
    if is_symlink {
        Some((path, "Symlinks are not allowed for persona files"@))
    } else if size > MAX_FILE_SIZE {
        Some(
            (
                path,
                "File size "@ + decimal(size as nat) + " exceeds maximum "@ + decimal(
                    MAX_FILE_SIZE as nat,
                ) + " bytes"@,
            ),
        )
    } else {
        None
    }
}

/// `e` is a validation error for `name` with `reason`.
pub open spec fn is_validation_error(e: PersonaError, name: Seq<char>, reason: Seq<char>) -> bool {
    e matches PersonaError::ValidationError { name: n, reason: r } && n@ == name && r@ == reason
}

/// Checks a persona file's metadata: symbolic links and files larger than
/// `MAX_FILE_SIZE` bytes are refused.
pub fn check_persona_file(path: &str, is_symlink: bool, size: u64) -> (r: Result<(), PersonaError>)
    ensures
        match file_check(path@, is_symlink, size) {
            None => r is Ok,
            Some((n, reason)) => r matches Err(e) && is_validation_error(e, n, reason),
        },
        r is Ok <==> (!is_symlink && size <= MAX_FILE_SIZE),
{
    if is_symlink {
        return Err(
            PersonaError::ValidationError {
                name: path.to_owned(),
                reason: "Symlinks are not allowed for persona files".to_owned(),
            },
        );
    }
    if size > MAX_FILE_SIZE {
        let mut reason = String::new();
        reason.append("File size ");
        reason.append(decimal_string(size).as_str());
        reason.append(" exceeds maximum ");
        reason.append(decimal_string(MAX_FILE_SIZE).as_str());
        reason.append(" bytes");
        return Err(PersonaError::ValidationError { name: path.to_owned(), reason });
    }
    Ok(())
}

/// The outcome of validating a parsed configuration whose file stem is `stem`.
pub open spec fn config_check(config: PersonaConfig, stem: Seq<char>) -> Option<Seq<char>> {
    let name = config.persona.name@;
    if name != stem {
        Some("Persona name '"@ + name + "' must match filename stem '"@ + stem + "'"@)
    } else if !valid_persona_name(name) {
        Some("Name must match pattern "@ + NAME_PATTERN@)
    } else if config.tools.allow@.len() > 0 && config.tools.deny@.len() > 0 {
        Some("tools.allow and tools.deny are mutually exclusive"@)
    } else {
        None
    }
}

/// Validates a parsed persona configuration read from a file whose name stem is `stem`:
/// the persona name must equal the stem and be a valid name, and the tool
/// allowlist and denylist may not both be given.
pub fn validate_persona_config(config: &PersonaConfig, stem: &str) -> (r: Result<(), PersonaError>)
    ensures
        match config_check(*config, stem@) {
            None => r is Ok,
            Some(reason) => r matches Err(e) && is_validation_error(
                e,
                config.persona.name@,
                reason,
            ),
        },
        config.persona.name@ != stem@ ==> (r matches Err(e) && is_validation_error(
            e,
            config.persona.name@,
            "Persona name '"@ + config.persona.name@ + "' must match filename stem '"@ + stem@
                + "'"@,
        )),
        r is Ok <==> (config.persona.name@ == stem@ && valid_persona_name(stem@) && !(
        config.tools.allow@.len() > 0 && config.tools.deny@.len() > 0)),
{
    let name = config.persona.name.as_str();
    if !str_eq(name, stem) {
        let mut reason = String::new();
        reason.append("Persona name '");
        reason.append(name);
        reason.append("' must match filename stem '");
        reason.append(stem);
        reason.append("'");
        return Err(PersonaError::ValidationError { name: name.to_owned(), reason });
    }
    if !name_pattern_matches(NAME_PATTERN, name) {
        let mut reason = String::new();
        reason.append("Name must match pattern ");
        reason.append(NAME_PATTERN);
        return Err(PersonaError::ValidationError { name: name.to_owned(), reason });
    }
    if config.tools.allow.len() > 0 && config.tools.deny.len() > 0 {
        return Err(
            PersonaError::ValidationError {
                name: name.to_owned(),
                reason: "tools.allow and tools.deny are mutually exclusive".to_owned(),
            },
        );
    }
    Ok(())
}

/// A directory entry is a persona file when its extension is `toml`.
pub fn is_persona_file(extension: Option<&str>) -> (r: bool)
    ensures
        r == (extension matches Some(e) && e@ == "toml"@),
{
    match extension {
        Some(e) => str_eq(e, "toml"),
        None => false,
    }
}

/// Where a persona's identity text comes from.
#[derive(Debug, PartialEq, Eq)]
pub enum IdentitySource {
    /// Text given inline in the persona file.
    Inline(String),
    /// A file, relative to the directory of the persona file.
    File(String),
    /// No identity text.
    Absent,
}

/// Inline identity text takes priority over an identity file.
pub fn identity_source(prompt: &PersonaPrompt) -> (r: IdentitySource)
    ensures
        match prompt.identity {
            Some(text) => r matches IdentitySource::Inline(t) && t@ == text@,
            None => match prompt.identity_file {
                Some(f) => r matches IdentitySource::File(p) && p@ == f@,
                None => r is Absent,
            },
        },
{
    match &prompt.identity {
        Some(text) => IdentitySource::Inline(text.clone()),
        None => match &prompt.identity_file {
            Some(f) => IdentitySource::File(f.clone()),
            None => IdentitySource::Absent,
        },
    }
}

/// A configuration is refused whenever its persona name differs from the file
/// stem, with the reason naming both; it is accepted exactly when the name
/// equals the stem, is a valid persona name, and allow and deny are not both given.
pub proof fn lemma_config_check_refuses_mismatch(config: PersonaConfig, stem: Seq<char>)
    ensures
        config.persona.name@ != stem ==> config_check(config, stem) == Some(
            "Persona name '"@ + config.persona.name@ + "' must match filename stem '"@ + stem
                + "'"@,
        ),
        config_check(config, stem) is None <==> (config.persona.name@ == stem
            && valid_persona_name(stem) && !(config.tools.allow@.len() > 0
            && config.tools.deny@.len() > 0)),
{
}

/// A file is refused exactly when it is a symbolic link or larger than
/// `MAX_FILE_SIZE` bytes.
pub proof fn lemma_file_check_refusals(path: Seq<char>, is_symlink: bool, size: u64)
    ensures
        file_check(path, is_symlink, size) is None <==> (!is_symlink && size <= MAX_FILE_SIZE),
{
}

} // verus!
