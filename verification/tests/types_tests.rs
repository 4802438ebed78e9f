use ironclaw_voice::personas::types::{
    LoadedPersona, PersonaConfig, PersonaMeta, PersonaPrompt, PersonaSandbox, PersonaShellAccess,
    PersonaToolAccess, SandboxPolicy,
};

#[test]
fn test_sandbox_policy_variants() {
    for (input, expected) in [
        ("ReadOnly", SandboxPolicy::ReadOnly),
        ("WorkspaceWrite", SandboxPolicy::WorkspaceWrite),
        ("FullAccess", SandboxPolicy::FullAccess),
    ] {
        let toml_str = format!("[persona]\nname = \"t\"\n[sandbox]\npolicy = \"{}\"", input);
        let doc: toml::Value = toml::from_str(&toml_str).expect("parse");
        let policy = doc["sandbox"]["policy"].as_str().unwrap();
        assert_eq!(SandboxPolicy::parse(policy).ok(), Some(expected));
    }
}

#[test]
fn test_tool_access_unrestricted() {
    let access = PersonaToolAccess::default();
    assert!(access.is_unrestricted());
}

#[test]
fn sandbox_policy_unknown_names_are_refused() {
    assert_eq!(SandboxPolicy::parse("readonly"), Err("readonly".to_string()));
    assert_eq!(SandboxPolicy::parse(""), Err(String::new()));
}

#[test]
fn tool_access_restricted() {
    let access = PersonaToolAccess {
        allow: vec![],
        deny: vec!["shell".to_string()],
    };
    assert!(!access.is_unrestricted());
    let access = PersonaToolAccess {
        allow: vec!["echo".to_string()],
        deny: vec![],
    };
    assert!(!access.is_unrestricted());
}

#[test]
fn defaults_are_empty() {
    let p = PersonaPrompt::default();
    assert!(p.identity.is_none() && p.identity_file.is_none());
    assert!(PersonaShellAccess::default().allowed_commands.is_empty());
    assert!(PersonaSandbox::default().policy.is_none());
}

#[test]
fn loaded_persona_accessors() {
    let p = LoadedPersona {
        config: PersonaConfig {
            persona: PersonaMeta {
                name: "researcher".to_string(),
                description: "Research specialist".to_string(),
            },
            prompt: PersonaPrompt::default(),
            tools: PersonaToolAccess::default(),
            shell: PersonaShellAccess::default(),
            sandbox: PersonaSandbox::default(),
        },
        identity_text: None,
        source_path: std::path::PathBuf::from("researcher.toml"),
    };
    assert_eq!(p.name(), "researcher");
    assert_eq!(p.description(), "Research specialist");
}
