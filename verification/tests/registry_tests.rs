use std::path::PathBuf;

use ironclaw_voice::personas::registry::PersonaRegistry;
use ironclaw_voice::personas::types::{
    LoadedPersona, PersonaConfig, PersonaMeta, PersonaPrompt, PersonaSandbox, PersonaShellAccess,
    PersonaToolAccess,
};

fn persona(name: &str, description: &str) -> LoadedPersona {
    LoadedPersona {
        config: PersonaConfig {
            persona: PersonaMeta {
                name: name.to_string(),
                description: description.to_string(),
            },
            prompt: PersonaPrompt::default(),
            tools: PersonaToolAccess::default(),
            shell: PersonaShellAccess::default(),
            sandbox: PersonaSandbox::default(),
        },
        identity_text: None,
        source_path: PathBuf::from(format!("{name}.toml")),
    }
}

#[test]
fn test_registry_discover() {
    let mut registry = PersonaRegistry::new(PathBuf::from("/personas"));
    let names = registry.install_discovered(
        vec![persona("dev", "Developer"), persona("ops", "Operations")],
        vec![],
    );

    assert_eq!(names.len(), 2);
    assert!(registry.get("dev").is_some());
    assert!(registry.get("ops").is_some());
    assert!(registry.get("nonexistent").is_none());
}

#[test]
fn test_registry_workspace_overrides_user() {
    let mut registry = PersonaRegistry::new(PathBuf::from("/user"))
        .with_workspace_dir(PathBuf::from("/workspace"));
    registry.install_discovered(
        vec![persona("shared", "User version")],
        vec![persona("shared", "Workspace version")],
    );

    let p = registry.get("shared").expect("found");
    assert_eq!(p.description(), "Workspace version");
}

#[test]
fn test_registry_list_sorted() {
    let mut registry = PersonaRegistry::new(PathBuf::from("/personas"));
    registry.install_discovered(vec![persona("zebra", "Z"), persona("alpha", "A")], vec![]);

    let list = registry.list();
    assert_eq!(list[0].0, "alpha");
    assert_eq!(list[1].0, "zebra");
}

#[test]
fn registry_directories() {
    let registry = PersonaRegistry::new(PathBuf::from("/u"));
    assert_eq!(registry.user_dir(), &PathBuf::from("/u"));
    assert!(registry.workspace_dir().is_none());
    let registry = registry.with_workspace_dir(PathBuf::from("/w"));
    assert_eq!(registry.workspace_dir(), Some(&PathBuf::from("/w")));
    assert!(registry.list().is_empty());
}

#[test]
fn registry_list_pairs_names_with_descriptions() {
    let mut registry = PersonaRegistry::new(PathBuf::from("/u"));
    registry.install_discovered(
        vec![persona("m", "middle"), persona("b", "bee"), persona("x", "old")],
        vec![persona("x", "new"), persona("a", "ay")],
    );
    assert_eq!(
        registry.list(),
        vec![("a", "ay"), ("b", "bee"), ("m", "middle"), ("x", "new")]
    );
    // every listed name resolves
    for (name, description) in registry.list() {
        assert_eq!(registry.get(name).unwrap().description(), description);
    }
}

#[test]
fn registry_rediscovery_replaces_everything() {
    let mut registry = PersonaRegistry::new(PathBuf::from("/u"));
    registry.install_discovered(vec![persona("old", "gone")], vec![]);
    let names = registry.install_discovered(vec![persona("new", "here")], vec![]);
    assert_eq!(names, vec!["new".to_string()]);
    assert!(registry.get("old").is_none());
}

#[test]
fn registry_later_duplicate_in_one_directory_wins() {
    let mut registry = PersonaRegistry::new(PathBuf::from("/u"));
    let names =
        registry.install_discovered(vec![persona("p", "first"), persona("p", "second")], vec![]);
    assert_eq!(names.len(), 1);
    assert_eq!(registry.get("p").unwrap().description(), "second");
}

#[test]
fn listing_twice_gives_the_same() {
    let mut registry = PersonaRegistry::new(PathBuf::from("/u"));
    registry.install_discovered(vec![persona("q", "1"), persona("c", "2")], vec![persona("k", "3")]);
    let first: Vec<(String, String)> =
        registry.list().into_iter().map(|(a, b)| (a.to_string(), b.to_string())).collect();
    let second: Vec<(String, String)> =
        registry.list().into_iter().map(|(a, b)| (a.to_string(), b.to_string())).collect();
    assert_eq!(first, second);
    assert_eq!(registry.get("k").unwrap().description(), "3");
}
