use std::path::PathBuf;

use ironclaw_voice::glob::glob_match;
use ironclaw_voice::personas::enforcement::{filter_tools_for_persona, matches_command_pattern};
use ironclaw_voice::personas::types::{
    LoadedPersona, PersonaConfig, PersonaMeta, PersonaPrompt, PersonaSandbox, PersonaShellAccess,
    PersonaToolAccess,
};
use ironclaw_voice::tool::ToolDefinition;

fn make_tool(name: &str) -> ToolDefinition {
    ToolDefinition {
        name: name.to_string(),
        description: String::new(),
        parameters: serde_json::Value::Object(serde_json::Map::new()),
    }
}

fn make_persona(allow: Vec<&str>, deny: Vec<&str>, shell_cmds: Vec<&str>) -> LoadedPersona {
    LoadedPersona {
        config: PersonaConfig {
            persona: PersonaMeta {
                name: "test".to_string(),
                description: String::new(),
            },
            prompt: PersonaPrompt::default(),
            tools: PersonaToolAccess {
                allow: allow.into_iter().map(String::from).collect(),
                deny: deny.into_iter().map(String::from).collect(),
            },
            shell: PersonaShellAccess {
                allowed_commands: shell_cmds.into_iter().map(String::from).collect(),
            },
            sandbox: PersonaSandbox::default(),
        },
        identity_text: None,
        source_path: PathBuf::new(),
    }
}

#[test]
fn test_allowlist_mode() {
    let tools = vec![make_tool("echo"), make_tool("shell"), make_tool("http")];
    let persona = make_persona(vec!["echo", "http"], vec![], vec!["*"]);

    let result = filter_tools_for_persona(&tools, &persona);
    assert_eq!(result.tools.len(), 2);
    assert!(result.tools.iter().any(|t| t.name == "echo"));
    assert!(result.tools.iter().any(|t| t.name == "http"));
    assert_eq!(result.removed_tools, vec!["shell"]);
}

#[test]
fn test_denylist_mode() {
    let tools = vec![make_tool("echo"), make_tool("shell"), make_tool("http")];
    let persona = make_persona(vec![], vec!["shell"], vec![]);

    let result = filter_tools_for_persona(&tools, &persona);
    // shell is removed by deny, echo and http remain
    assert_eq!(result.tools.len(), 2);
    assert!(result.tools.iter().any(|t| t.name == "echo"));
    assert!(result.tools.iter().any(|t| t.name == "http"));
    assert!(result.removed_tools.contains(&"shell".to_string()));
}

#[test]
fn test_unrestricted_with_no_shell() {
    let tools = vec![make_tool("echo"), make_tool("shell")];
    let persona = make_persona(vec![], vec![], vec![]);

    let result = filter_tools_for_persona(&tools, &persona);
    assert_eq!(result.tools.len(), 1);
    assert_eq!(result.tools[0].name, "echo");
    assert_eq!(result.removed_tools, vec!["shell"]);
}

#[test]
fn test_unrestricted_with_shell_allowed() {
    let tools = vec![make_tool("echo"), make_tool("shell")];
    let persona = make_persona(vec![], vec![], vec!["git *"]);

    let result = filter_tools_for_persona(&tools, &persona);
    assert_eq!(result.tools.len(), 2);
    assert!(result.removed_tools.is_empty());
}

#[test]
fn test_command_pattern_wildcard() {
    assert!(matches_command_pattern("anything", &["*".to_string()]));
}

#[test]
fn test_command_pattern_prefix() {
    let patterns = vec!["git *".to_string()];
    assert!(matches_command_pattern("git status", &patterns));
    assert!(matches_command_pattern("git push origin main", &patterns));
    assert!(!matches_command_pattern("rm -rf /", &patterns));
}

#[test]
fn test_command_pattern_exact() {
    let patterns = vec!["ls".to_string()];
    assert!(matches_command_pattern("ls", &patterns));
    assert!(!matches_command_pattern("ls -la", &patterns));
}

#[test]
fn test_command_pattern_suffix() {
    let patterns = vec!["*.py".to_string()];
    assert!(matches_command_pattern("script.py", &patterns));
    assert!(!matches_command_pattern("script.sh", &patterns));
}

#[test]
fn test_command_pattern_case_insensitive() {
    let patterns = vec!["Git *".to_string()];
    assert!(matches_command_pattern("git status", &patterns));
    assert!(matches_command_pattern("GIT STATUS", &patterns));
}

#[test]
fn test_command_pattern_multiple() {
    let patterns = vec!["git *".to_string(), "npm run *".to_string()];
    assert!(matches_command_pattern("git status", &patterns));
    assert!(matches_command_pattern("npm run test", &patterns));
    assert!(!matches_command_pattern("rm -rf /", &patterns));
}

#[test]
fn test_glob_match_middle_wildcard() {
    assert!(glob_match("cargo test --release", "cargo * --release"));
    assert!(!glob_match("cargo test --debug", "cargo * --release"));
}

#[test]
fn test_allowlist_removes_shell_when_no_commands() {
    let tools = vec![make_tool("echo"), make_tool("shell")];
    // shell is in the allow list, but no commands are allowed
    let persona = make_persona(vec!["echo", "shell"], vec![], vec![]);

    let result = filter_tools_for_persona(&tools, &persona);
    assert_eq!(result.tools.len(), 1);
    assert_eq!(result.tools[0].name, "echo");
}

#[test]
fn filter_explanations() {
    let tools = vec![make_tool("echo"), make_tool("shell"), make_tool("http")];
    let r = filter_tools_for_persona(&tools, &make_persona(vec![], vec![], vec!["ls"]));
    assert_eq!(r.explanation, "Persona 'test': all tools available");
    let r = filter_tools_for_persona(&tools, &make_persona(vec![], vec![], vec![]));
    assert_eq!(r.explanation, "Persona 'test': shell removed (no allowed commands)");
    let r = filter_tools_for_persona(&tools, &make_persona(vec!["echo", "shell"], vec![], vec![]));
    assert_eq!(r.explanation, "Persona 'test': allowlist mode, 1 tools available, 2 removed");
    assert_eq!(r.removed_tools, vec!["http", "shell"]);
    let r = filter_tools_for_persona(&tools, &make_persona(vec![], vec!["http"], vec!["ls"]));
    assert_eq!(r.explanation, "Persona 'test': denylist mode, 2 tools available, 1 removed");
}

#[test]
fn filter_keeps_order_and_accounts_for_every_tool() {
    let tools = vec![
        make_tool("a"),
        make_tool("shell"),
        make_tool("b"),
        make_tool("c"),
    ];
    let r = filter_tools_for_persona(&tools, &make_persona(vec![], vec!["b"], vec![]));
    let kept: Vec<&str> = r.tools.iter().map(|t| t.name.as_str()).collect();
    assert_eq!(kept, vec!["a", "c"]);
    assert_eq!(r.removed_tools, vec!["b", "shell"]);
    assert_eq!(r.tools.len() + r.removed_tools.len(), tools.len());
}

#[test]
fn filter_copies_tools_exactly() {
    let mut t = make_tool("echo");
    t.description = "Echo back".to_string();
    t.parameters = serde_json::Value::String("schema".to_string());
    let r = filter_tools_for_persona(&[t], &make_persona(vec![], vec![], vec!["*"]));
    assert_eq!(r.tools[0].description, "Echo back");
    assert_eq!(r.tools[0].parameters, serde_json::Value::String("schema".to_string()));
}

#[test]
fn command_patterns_edge_cases() {
    assert!(!matches_command_pattern("ls", &[]));
    assert!(matches_command_pattern("", &["*".to_string()]));
    assert!(matches_command_pattern("", &["**".to_string()]));
    assert!(matches_command_pattern("a*b", &["A*B".to_string()]));
    assert!(!matches_command_pattern("ab", &["a*b*c".to_string()]));
    assert!(matches_command_pattern("ÄRGER", &["ärger".to_string()]));
}

#[test]
fn glob_match_cases() {
    assert!(glob_match("abc", "abc"));
    assert!(!glob_match("abcd", "abc"));
    assert!(glob_match("", ""));
    assert!(glob_match("abc", "a*"));
    assert!(glob_match("abc", "*c"));
    assert!(!glob_match("a", "a*a"));
    assert!(glob_match("aXbYc", "a*b*c"));
    assert!(glob_match("abab", "*ab"));
    assert!(!glob_match("ba", "a*"));
}

#[test]
fn glob_patterns_match_themselves_and_extensions() {
    for p in ["a*b", "*", "", "x**y", "*.py"] {
        assert!(glob_match(p, p));
    }
    assert!(glob_match("anything at all", "*"));
    assert!(glob_match("git", "git*"));
    assert!(glob_match("git status --short", "git*"));
}

#[test]
fn no_commands_means_no_shell_at_all() {
    let tools = vec![make_tool("shell"), make_tool("echo"), make_tool("shell")];
    let r = filter_tools_for_persona(&tools, &make_persona(vec!["shell"], vec![], vec![]));
    assert!(r.tools.is_empty());
    assert_eq!(r.removed_tools, vec!["echo", "shell", "shell"]);
    assert_eq!(r.explanation, "Persona 'test': allowlist mode, 0 tools available, 3 removed");
    let r = filter_tools_for_persona(&tools, &make_persona(vec![], vec!["echo"], vec![]));
    assert!(r.tools.is_empty());
    assert_eq!(r.removed_tools, vec!["echo", "shell", "shell"]);
    let r = filter_tools_for_persona(&tools, &make_persona(vec!["shell"], vec![], vec!["ls"]));
    assert_eq!(r.tools.len(), 2);
}
