use ironclaw_voice::personas::loader::{
    check_persona_file, identity_source, validate_persona_config, IdentitySource, MAX_FILE_SIZE,
    NAME_PATTERN,
};
use ironclaw_voice::personas::types::{
    PersonaConfig, PersonaMeta, PersonaPrompt, PersonaSandbox, PersonaShellAccess,
    PersonaToolAccess,
};
use ironclaw_voice::personas::PersonaError;

fn config(name: &str, allow: Vec<&str>, deny: Vec<&str>) -> PersonaConfig {
    PersonaConfig {
        persona: PersonaMeta {
            name: name.to_string(),
            description: String::new(),
        },
        prompt: PersonaPrompt::default(),
        tools: PersonaToolAccess {
            allow: allow.into_iter().map(String::from).collect(),
            deny: deny.into_iter().map(String::from).collect(),
        },
        shell: PersonaShellAccess::default(),
        sandbox: PersonaSandbox::default(),
    }
}

fn validation_reason(r: Result<(), PersonaError>) -> (String, String) {
    match r {
        Err(PersonaError::ValidationError { name, reason }) => (name, reason),
        _ => panic!("expected a validation error"),
    }
}

#[test]
fn name_mismatch_rejected() {
    let r = validate_persona_config(&config("developer", vec![], vec![]), "designer");
    let (name, reason) = validation_reason(r);
    assert_eq!(name, "developer");
    assert_eq!(reason, "Persona name 'developer' must match filename stem 'designer'");
}

#[test]
fn invalid_name_rejected() {
    let r = validate_persona_config(&config("-bad", vec![], vec![]), "-bad");
    let (_, reason) = validation_reason(r);
    assert_eq!(reason, format!("Name must match pattern {}", NAME_PATTERN));
}

#[test]
fn allow_deny_mutual_exclusion() {
    let r = validate_persona_config(&config("conflict", vec!["echo"], vec!["shell"]), "conflict");
    let (_, reason) = validation_reason(r);
    assert_eq!(reason, "tools.allow and tools.deny are mutually exclusive");
}

#[test]
fn file_too_large_rejected() {
    let r = check_persona_file("big.toml", false, 65 * 1024 + 1);
    let (name, reason) = validation_reason(r);
    assert_eq!(name, "big.toml");
    assert_eq!(reason, "File size 66561 exceeds maximum 65536 bytes");
}

#[test]
fn valid_names_and_files_pass() {
    assert!(validate_persona_config(&config("designer", vec!["echo"], vec![]), "designer").is_ok());
    assert!(validate_persona_config(&config("a.b_c-9", vec![], vec![]), "a.b_c-9").is_ok());
    let long = "x".repeat(64);
    assert!(validate_persona_config(&config(&long, vec![], vec![]), &long).is_ok());
    let too_long = "x".repeat(65);
    assert!(validate_persona_config(&config(&too_long, vec![], vec![]), &too_long).is_err());
    assert!(validate_persona_config(&config("", vec![], vec![]), "").is_err());
    assert!(validate_persona_config(&config("héllo", vec![], vec![]), "héllo").is_err());
    assert!(check_persona_file("ok.toml", false, MAX_FILE_SIZE).is_ok());
}

#[test]
fn symlinks_are_refused() {
    let (name, reason) = validation_reason(check_persona_file("link.toml", true, 10));
    assert_eq!(name, "link.toml");
    assert_eq!(reason, "Symlinks are not allowed for persona files");
}

#[test]
fn identity_sources() {
    let mut p = PersonaPrompt::default();
    assert_eq!(identity_source(&p), IdentitySource::Absent);
    p.identity_file = Some("dev/IDENTITY.md".to_string());
    assert_eq!(identity_source(&p), IdentitySource::File("dev/IDENTITY.md".to_string()));
    p.identity = Some("You are a developer.".to_string());
    assert_eq!(identity_source(&p), IdentitySource::Inline("You are a developer.".to_string()));
}

#[test]
fn persona_error_messages() {
    assert_eq!(
        PersonaError::NotFound { name: "x".to_string() }.to_string(),
        "Persona not found: x"
    );
    assert_eq!(
        PersonaError::ReadError { path: "p".to_string(), reason: "r".to_string() }.to_string(),
        "Failed to read persona file p: r"
    );
    assert_eq!(
        PersonaError::ParseError { path: "p".to_string(), reason: "r".to_string() }.to_string(),
        "Failed to parse persona file p: r"
    );
    assert_eq!(
        PersonaError::ValidationError { name: "n".to_string(), reason: "r".to_string() }
            .to_string(),
        "Persona validation failed for n: r"
    );
}

#[test]
fn persona_files_are_toml() {
    assert!(ironclaw_voice::personas::loader::is_persona_file(Some("toml")));
    assert!(!ironclaw_voice::personas::loader::is_persona_file(Some("md")));
    assert!(!ironclaw_voice::personas::loader::is_persona_file(Some("TOML")));
    assert!(!ironclaw_voice::personas::loader::is_persona_file(None));
}
