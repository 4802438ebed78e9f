//! Persona-based tool filtering and shell command matching.
use vstd::prelude::*;

use crate::glob::{glob_match, glob_matches};
use crate::personas::types::{LoadedPersona, PersonaShellAccess, PersonaToolAccess};
use crate::text::{chars_of, decimal, decimal_string, str_eq};
use crate::tool::ToolDefinition;

verus! {

/// Result of filtering tools through a persona's access control.
#[derive(Debug)]
pub struct PersonaFilterResult {
    /// Tools that passed the filter.
    pub tools: Vec<ToolDefinition>,
    /// Names of tools that were removed.
    pub removed_tools: Vec<String>,
    /// Human-readable explanation of what was filtered.
    pub explanation: String,
}

/// Some entry of `names` is `n`.
pub open spec fn names_contain(names: Seq<String>, n: Seq<char>) -> bool {
    exists|i: int| 0 <= i < names.len() && #[trigger] names[i]@ == n
}

/// The tool is the shell tool.
pub open spec fn is_shell(t: ToolDefinition) -> bool {
    t.name@ == "shell"@
}

/// The tools that `keep` accepts, in order.
pub open spec fn kept_tools(
    tools: Seq<ToolDefinition>,
    keep: spec_fn(ToolDefinition) -> bool,
) -> Seq<ToolDefinition>
    decreases tools.len(),
{
    if tools.len() == 0 {
        seq![]
    } else {
        let rest = kept_tools(tools.drop_last(), keep);
        if keep(tools.last()) {
            rest.push(tools.last())
        } else {
            rest
        }
    }
}

/// The names of the tools that `keep` rejects, in order.
pub open spec fn dropped_names(
    tools: Seq<ToolDefinition>,
    keep: spec_fn(ToolDefinition) -> bool,
) -> Seq<Seq<char>>
    decreases tools.len(),
{
    if tools.len() == 0 {
        seq![]
    } else {
        let rest = dropped_names(tools.drop_last(), keep);
        if keep(tools.last()) {
            rest
        } else {
            rest.push(tools.last().name@)
        }
    }
}

/// The view of a list of names.
pub open spec fn name_views(names: Seq<String>) -> Seq<Seq<char>> {
    names.map_values(|n: String| n@)
}

/// The tools kept by the shell rule: the shell tool goes when no command is permitted.
pub open spec fn shell_rule(no_commands: bool) -> spec_fn(ToolDefinition) -> bool {
    |t: ToolDefinition| !no_commands || !is_shell(t)
}

/// After an allow- or denylist step has kept `kept` and dropped `dropped`,
/// every shell tool among the kept ones is removed too when no command is permitted.
pub open spec fn shell_step_ok(
    kept: Seq<ToolDefinition>,
    dropped: Seq<Seq<char>>,
    no_commands: bool,
    r: PersonaFilterResult,
) -> bool {
    &&& r.tools@ == kept_tools(kept, shell_rule(no_commands))
    &&& name_views(r.removed_tools@) == dropped + dropped_names(kept, shell_rule(no_commands))
}

/// "Persona '<name>': <mode> mode, <k> tools available, <r> removed"
pub open spec fn mode_explanation(name: Seq<char>, mode: Seq<char>, k: nat, r: nat) -> Seq<char> {
    "Persona '"@ + name + "': "@ + mode + " mode, "@ + decimal(k) + " tools available, "@
        + decimal(r) + " removed"@
}

/// The filter's outcome, as the persona's access rules define it.
pub open spec fn filter_spec(
    tools: Seq<ToolDefinition>,
    persona: LoadedPersona,
    r: PersonaFilterResult,
) -> bool {
    let access = persona.config.tools;
    let no_commands = persona.config.shell.allowed_commands@.len() == 0;
    let name = persona.config.persona.name@;
    if access.spec_is_unrestricted() {
        &&& r.tools@ == kept_tools(tools, shell_rule(no_commands))
        &&& name_views(r.removed_tools@) == dropped_names(tools, shell_rule(no_commands))
        &&& r.explanation@ == (if r.removed_tools@.len() == 0 {
            "Persona '"@ + name + "': all tools available"@
        } else {
            "Persona '"@ + name + "': shell removed (no allowed commands)"@
        })
    } else if access.allow@.len() > 0 {
        let keep = |t: ToolDefinition| names_contain(access.allow@, t.name@);
        &&& shell_step_ok(kept_tools(tools, keep), dropped_names(tools, keep), no_commands, r)
        &&& r.explanation@ == mode_explanation(
            name,
            "allowlist"@,
            r.tools@.len(),
            r.removed_tools@.len(),
        )
    } else {
        let keep = |t: ToolDefinition| !names_contain(access.deny@, t.name@);
        &&& shell_step_ok(kept_tools(tools, keep), dropped_names(tools, keep), no_commands, r)
        &&& r.explanation@ == mode_explanation(
            name,
            "denylist"@,
            r.tools@.len(),
            r.removed_tools@.len(),
        )
    }
}

/// Whether `n` is one of `names`.
fn contains_name(names: &Vec<String>, n: &str) -> (r: bool)
    ensures
        r == names_contain(names@, n@),
{
    let mut i: usize = 0;
    while i < names.len()
        invariant
            i <= names.len(),
            forall|k: int| 0 <= k < i ==> #[trigger] names@[k]@ != n@,
        decreases names.len() - i,
    {
        if str_eq(names[i].as_str(), n) {
            return true;
        }
        i = i + 1;
    }
    false
}

fn is_shell_name(n: &str) -> (r: bool)
    ensures
        r == (n@ == "shell"@),
{
    str_eq(n, "shell")
}

/// Splits `tools` by the membership of their names in `names`:
/// with `member` the members are kept, otherwise the non-members.
fn split_by_names(tools: &[ToolDefinition], names: &Vec<String>, member: bool) -> (r: (
    Vec<ToolDefinition>,
    Vec<String>,
))
    ensures
        r.0@ == kept_tools(tools@, |t: ToolDefinition| names_contain(names@, t.name@) == member),
        name_views(r.1@) == dropped_names(
            tools@,
            |t: ToolDefinition| names_contain(names@, t.name@) == member,
        ),
{
    let ghost keep = |t: ToolDefinition| names_contain(names@, t.name@) == member;
    let mut kept: Vec<ToolDefinition> = Vec::new();
    let mut removed: Vec<String> = Vec::new();
    let mut i: usize = 0;
    while i < tools.len()
        invariant
            i <= tools.len(),
            kept@ == kept_tools(tools@.take(i as int), keep),
            name_views(removed@) == dropped_names(tools@.take(i as int), keep),
            forall|t: ToolDefinition| #[trigger] keep(t) == (names_contain(names@, t.name@) == member),
        decreases tools.len() - i,
    {
        let t = &tools[i];
        let ghost prefix = tools@.take(i + 1);
        assert(prefix.drop_last() =~= tools@.take(i as int));
        assert(prefix.last() == tools@[i as int]);
        assert(kept_tools(prefix, keep) == (if keep(prefix.last()) {
            kept_tools(prefix.drop_last(), keep).push(prefix.last())
        } else {
            kept_tools(prefix.drop_last(), keep)
        }));
        assert(dropped_names(prefix, keep) == (if keep(prefix.last()) {
            dropped_names(prefix.drop_last(), keep)
        } else {
            dropped_names(prefix.drop_last(), keep).push(prefix.last().name@)
        }));
        if contains_name(names, t.name.as_str()) == member {
            kept.push(t.duplicate());
        } else {
            let ghost before = removed@;
            removed.push(t.name.clone());
            assert(name_views(removed@) =~= name_views(before).push(t.name@));
        }
        i = i + 1;
    }
    assert(tools@.take(tools.len() as int) =~= tools@);
    (kept, removed)
}

/// Removes the shell tool from `tools` when `drop_shell` holds; returns the
/// remaining tools and the names of the removed ones.
fn maybe_remove_shell(tools: &[ToolDefinition], shell_access: &PersonaShellAccess) -> (r: (
    Vec<ToolDefinition>,
    Vec<String>,
))
    ensures
        r.0@ == kept_tools(tools@, shell_rule(shell_access.allowed_commands@.len() == 0)),
        name_views(r.1@) == dropped_names(
            tools@,
            shell_rule(shell_access.allowed_commands@.len() == 0),
        ),
{
    let no_commands = shell_access.allowed_commands.len() == 0;
    let ghost keep = shell_rule(no_commands);
    let mut kept: Vec<ToolDefinition> = Vec::new();
    let mut removed: Vec<String> = Vec::new();
    let mut i: usize = 0;
    while i < tools.len()
        invariant
            i <= tools.len(),
            no_commands == (shell_access.allowed_commands@.len() == 0),
            kept@ == kept_tools(tools@.take(i as int), keep),
            name_views(removed@) == dropped_names(tools@.take(i as int), keep),
            forall|t: ToolDefinition| #[trigger] keep(t) == (!no_commands || !is_shell(t)),
        decreases tools.len() - i,
    {
        let t = &tools[i];
        let ghost prefix = tools@.take(i + 1);
        assert(prefix.drop_last() =~= tools@.take(i as int));
        assert(prefix.last() == tools@[i as int]);
        assert(kept_tools(prefix, keep) == (if keep(prefix.last()) {
            kept_tools(prefix.drop_last(), keep).push(prefix.last())
        } else {
            kept_tools(prefix.drop_last(), keep)
        }));
        assert(dropped_names(prefix, keep) == (if keep(prefix.last()) {
            dropped_names(prefix.drop_last(), keep)
        } else {
            dropped_names(prefix.drop_last(), keep).push(prefix.last().name@)
        }));
        if no_commands && is_shell_name(t.name.as_str()) {
            let ghost before = removed@;
            removed.push(t.name.clone());
            assert(name_views(removed@) =~= name_views(before).push(t.name@));
        } else {
            kept.push(t.duplicate());
        }
        i = i + 1;
    }
    assert(tools@.take(tools.len() as int) =~= tools@);
    (kept, removed)
}

/// Appends "Persona '<name>': <mode> mode, <k> tools available, <r> removed".
fn mode_explanation_string(name: &str, mode: &str, k: usize, r: usize) -> (s: String)
    ensures
        s@ == mode_explanation(name@, mode@, k as nat, r as nat),
{
    let mut s = String::new();
    s.append("Persona '");
    s.append(name);
    s.append("': ");
    s.append(mode);
    s.append(" mode, ");
    s.append(decimal_string(k as u64).as_str());
    s.append(" tools available, ");
    s.append(decimal_string(r as u64).as_str());
    s.append(" removed");
    assert(s@ =~= mode_explanation(name@, mode@, k as nat, r as nat));
    s
}

/// Filter tool definitions according to a persona's access control rules.
///
/// - Allowlist mode: keep only tools whose names are in `allow`.
/// - Denylist mode: remove tools whose names are in `deny`.
/// - Neither: pass through unchanged.
/// - If `shell.allowed_commands` is empty, the `shell` tool is removed as well
///   (an empty command list means no shell access).
pub fn filter_tools_for_persona(tools: &[ToolDefinition], persona: &LoadedPersona) -> (r:
    PersonaFilterResult)
    ensures
        filter_spec(tools@, *persona, r),
{
    let access = &persona.config.tools;
    let shell_access = &persona.config.shell;
    let name = persona.name();
    if access.is_unrestricted() {
        let (kept, removed) = maybe_remove_shell(tools, shell_access);
        let mut explanation = String::new();
        explanation.append("Persona '");
        explanation.append(name);
        if removed.len() == 0 {
            explanation.append("': all tools available");
        } else {
            explanation.append("': shell removed (no allowed commands)");
        }
        let r = PersonaFilterResult { tools: kept, removed_tools: removed, explanation };
        assert(r.explanation@ =~= (if r.removed_tools@.len() == 0 {
            "Persona '"@ + name@ + "': all tools available"@
        } else {
            "Persona '"@ + name@ + "': shell removed (no allowed commands)"@
        }));
        return r;
    }
    let no_commands = shell_access.allowed_commands.len() == 0;
    if access.allow.len() > 0 {
        let (kept0, mut removed) = split_by_names(tools, &access.allow, true);
        let ghost k0 = kept0@;
        let ghost d0 = name_views(removed@);
        let (kept, mut shells) = maybe_remove_shell(kept0.as_slice(), shell_access);
        let ghost s0 = shells@;
        removed.append(&mut shells);
        assert(name_views(removed@) =~= d0 + name_views(s0));
        let explanation = mode_explanation_string(name, "allowlist", kept.len(), removed.len());
        let r = PersonaFilterResult { tools: kept, removed_tools: removed, explanation };
        assert((|t: ToolDefinition| names_contain(access.allow@, t.name@) == true) =~= (|
            t: ToolDefinition,
        | names_contain(access.allow@, t.name@)));
        assert(shell_step_ok(k0, d0, no_commands, r));
        return r;
    }
    let (kept0, mut removed) = split_by_names(tools, &access.deny, false);
    let ghost k0 = kept0@;
    let ghost d0 = name_views(removed@);
    let (kept, mut shells) = maybe_remove_shell(kept0.as_slice(), shell_access);
    let ghost s0 = shells@;
    removed.append(&mut shells);
    assert(name_views(removed@) =~= d0 + name_views(s0));
    let explanation = mode_explanation_string(name, "denylist", kept.len(), removed.len());
    let r = PersonaFilterResult { tools: kept, removed_tools: removed, explanation };
    assert((|t: ToolDefinition| names_contain(access.deny@, t.name@) == false) =~= (|
        t: ToolDefinition,
    | !names_contain(access.deny@, t.name@)));
    assert(shell_step_ok(k0, d0, no_commands, r));
    r
}

/// Name for what `str::to_lowercase` (std) returns: the Unicode lower-case mapping of a string.
pub uninterp spec fn spec_to_lowercase(s: Seq<char>) -> Seq<char>;

/// Trusted: `str::to_lowercase` (std) returns the lower-case mapping of `s`,
/// which depends on `s` alone; its Unicode tables are not restated here.
#[verifier::external_body]
fn to_lowercase(s: &str) -> (r: String)
    ensures
        r@ == spec_to_lowercase(s@),
{
    s.to_lowercase()
}

/// The command is permitted by the pattern: a lone `*` permits everything,
/// any other pattern must match the whole command, ignoring case.
pub open spec fn pattern_permits(cmd: Seq<char>, pattern: Seq<char>) -> bool {
    pattern == seq!['*'] || glob_matches(spec_to_lowercase(cmd), spec_to_lowercase(pattern))
}

/// Some pattern permits the command.
pub open spec fn command_permitted(cmd: Seq<char>, patterns: Seq<String>) -> bool {
    exists|i: int| 0 <= i < patterns.len() && pattern_permits(cmd, #[trigger] patterns[i]@)
}

/// Check if a command matches any of the given wildcard patterns.
///
/// Pattern syntax:
/// - `*` matches any sequence of characters
/// - Patterns are matched against the full command string
/// - Matching is case-insensitive
pub fn matches_command_pattern(cmd: &str, patterns: &[String]) -> (r: bool)
    ensures
        r == command_permitted(cmd@, patterns@),
{
    let cmd_lower = to_lowercase(cmd);
    let mut i: usize = 0;
    while i < patterns.len()
        invariant
            i <= patterns.len(),
            cmd_lower@ == spec_to_lowercase(cmd@),
            forall|k: int| 0 <= k < i ==> !pattern_permits(cmd@, #[trigger] patterns@[k]@),
        decreases patterns.len() - i,
    {
        proof {
            reveal_strlit("*");
        }
        let pattern = patterns[i].as_str();
        if str_eq(pattern, "*") {
            assert(seq!['*'] =~= "*"@);
            assert(pattern_permits(cmd@, patterns@[i as int]@));
            return true;
        }
        let pattern_lower = to_lowercase(pattern);
        if glob_match(cmd_lower.as_str(), pattern_lower.as_str()) {
            assert(pattern_permits(cmd@, patterns@[i as int]@));
            return true;
        }
        assert(seq!['*'] =~= "*"@);
        i = i + 1;
    }
    false
}

/// A lone `*` among the patterns permits every command.
pub proof fn lemma_lone_star_permits_all(cmd: Seq<char>, patterns: Seq<String>, i: int)
    requires
        0 <= i < patterns.len(),
        patterns[i]@ == seq!['*'],
    ensures
        command_permitted(cmd, patterns),
{
    assert(pattern_permits(cmd, patterns[i]@));
}

/// No pattern, no permitted command.
pub proof fn lemma_no_patterns_permit_nothing(cmd: Seq<char>)
    ensures
        !command_permitted(cmd, Seq::<String>::empty()),
{
}

/// Matching ignores case: commands with the same lower-case form are permitted alike.
pub proof fn lemma_permission_ignores_case(a: Seq<char>, b: Seq<char>, patterns: Seq<String>)
    requires
        spec_to_lowercase(a) == spec_to_lowercase(b),
    ensures
        command_permitted(a, patterns) == command_permitted(b, patterns),
{
    if command_permitted(a, patterns) {
        let i = choose|i: int| 0 <= i < patterns.len() && pattern_permits(a, #[trigger] patterns[i]@);
        assert(pattern_permits(b, patterns[i]@));
    }
    if command_permitted(b, patterns) {
        let i = choose|i: int| 0 <= i < patterns.len() && pattern_permits(b, #[trigger] patterns[i]@);
        assert(pattern_permits(a, patterns[i]@));
    }
}

/// More patterns never permit less.
pub proof fn lemma_more_patterns_permit_more(cmd: Seq<char>, patterns: Seq<String>, extra: String)
    requires
        command_permitted(cmd, patterns),
    ensures
        command_permitted(cmd, patterns.push(extra)),
{
    let i = choose|i: int| 0 <= i < patterns.len() && pattern_permits(cmd, #[trigger] patterns[i]@);
    assert(patterns.push(extra)[i] == patterns[i]);
}

/// Each tool is either kept or has its name dropped.
proof fn lemma_kept_dropped_len(tools: Seq<ToolDefinition>, keep: spec_fn(ToolDefinition) -> bool)
    ensures
        kept_tools(tools, keep).len() + dropped_names(tools, keep).len() == tools.len(),
    decreases tools.len(),
{
    if tools.len() > 0 {
        lemma_kept_dropped_len(tools.drop_last(), keep);
    }
}

/// The kept tools are tools of the input that `keep` accepts.
proof fn lemma_kept_are_accepted(tools: Seq<ToolDefinition>, keep: spec_fn(ToolDefinition) -> bool)
    ensures
        forall|j: int|
            0 <= j < kept_tools(tools, keep).len() ==> keep(#[trigger] kept_tools(tools, keep)[j])
                && tools.contains(kept_tools(tools, keep)[j]),
    decreases tools.len(),
{
    if tools.len() > 0 {
        let init = tools.drop_last();
        lemma_kept_are_accepted(init, keep);
        let k0 = kept_tools(init, keep);
        assert forall|j: int| 0 <= j < kept_tools(tools, keep).len() implies keep(
            #[trigger] kept_tools(tools, keep)[j],
        ) && tools.contains(kept_tools(tools, keep)[j]) by {
            if j < k0.len() {
                assert(kept_tools(tools, keep)[j] == k0[j]);
                assert(init.contains(k0[j]));
                let m = choose|m: int| 0 <= m < init.len() && init[m] == k0[j];
                assert(tools[m] == init[m]);
            } else {
                assert(kept_tools(tools, keep)[j] == tools.last());
                assert(tools[tools.len() - 1] == tools.last());
            }
        }
    }
}

/// Every input tool that `keep` accepts is kept.
proof fn lemma_accepted_are_kept(tools: Seq<ToolDefinition>, keep: spec_fn(ToolDefinition) -> bool)
    ensures
        forall|j: int|
            0 <= j < tools.len() && keep(#[trigger] tools[j]) ==> kept_tools(tools, keep).contains(
                tools[j],
            ),
    decreases tools.len(),
{
    if tools.len() > 0 {
        let init = tools.drop_last();
        lemma_accepted_are_kept(init, keep);
        assert forall|j: int| 0 <= j < tools.len() && keep(#[trigger] tools[j]) implies kept_tools(
            tools,
            keep,
        ).contains(tools[j]) by {
            let k0 = kept_tools(init, keep);
            let k = kept_tools(tools, keep);
            if j < init.len() {
                assert(init[j] == tools[j]);
                assert(k0.contains(init[j]));
                let m = choose|m: int| 0 <= m < k0.len() && k0[m] == init[j];
                assert(k[m] == k0[m]);
            } else {
                assert(k[k.len() - 1] == tools.last());
            }
        }
    }
}

/// The rule of the allow- or denylist mode a restricted persona is in.
pub open spec fn list_rule(access: PersonaToolAccess) -> spec_fn(ToolDefinition) -> bool {
    if access.allow@.len() > 0 {
        |t: ToolDefinition| names_contain(access.allow@, t.name@)
    } else {
        |t: ToolDefinition| !names_contain(access.deny@, t.name@)
    }
}

/// A restricted persona's outcome, stated through `list_rule`.
proof fn lemma_restricted_outcome(
    tools: Seq<ToolDefinition>,
    persona: LoadedPersona,
    r: PersonaFilterResult,
)
    requires
        filter_spec(tools, persona, r),
        !persona.config.tools.spec_is_unrestricted(),
    ensures
        shell_step_ok(
            kept_tools(tools, list_rule(persona.config.tools)),
            dropped_names(tools, list_rule(persona.config.tools)),
            persona.config.shell.allowed_commands@.len() == 0,
            r,
        ),
{
}

/// Every kept tool is one that `keep` accepts, taken from the input.
proof fn lemma_kept_satisfy(
    tools: Seq<ToolDefinition>,
    keep: spec_fn(ToolDefinition) -> bool,
    t: ToolDefinition,
)
    requires
        kept_tools(tools, keep).contains(t),
    ensures
        keep(t),
        tools.contains(t),
{
    lemma_kept_are_accepted(tools, keep);
    let j = choose|j: int| 0 <= j < kept_tools(tools, keep).len() && kept_tools(tools, keep)[j] == t;
    assert(keep(kept_tools(tools, keep)[j]));
}

/// Filtering accounts for every tool: each is either kept or named among the removed.
pub proof fn lemma_filter_accounts_for_every_tool(
    tools: Seq<ToolDefinition>,
    persona: LoadedPersona,
    r: PersonaFilterResult,
)
    requires
        filter_spec(tools, persona, r),
    ensures
        r.tools@.len() + r.removed_tools@.len() == tools.len(),
{
    let no_commands = persona.config.shell.allowed_commands@.len() == 0;
    assert(name_views(r.removed_tools@).len() == r.removed_tools@.len());
    if persona.config.tools.spec_is_unrestricted() {
        lemma_kept_dropped_len(tools, shell_rule(no_commands));
    } else {
        let rule = list_rule(persona.config.tools);
        lemma_restricted_outcome(tools, persona, r);
        lemma_kept_dropped_len(tools, rule);
        lemma_kept_dropped_len(kept_tools(tools, rule), shell_rule(no_commands));
    }
}

/// In allowlist mode only allowed tools are kept.
pub proof fn lemma_allowlist_keeps_only_allowed(
    tools: Seq<ToolDefinition>,
    persona: LoadedPersona,
    r: PersonaFilterResult,
)
    requires
        filter_spec(tools, persona, r),
        persona.config.tools.allow@.len() > 0,
    ensures
        forall|j: int|
            0 <= j < r.tools@.len() ==> names_contain(
                persona.config.tools.allow@,
                #[trigger] r.tools@[j].name@,
            ),
{
    let no_commands = persona.config.shell.allowed_commands@.len() == 0;
    let rule = list_rule(persona.config.tools);
    lemma_restricted_outcome(tools, persona, r);
    let kept = kept_tools(tools, rule);
    assert forall|j: int| 0 <= j < r.tools@.len() implies names_contain(
        persona.config.tools.allow@,
        #[trigger] r.tools@[j].name@,
    ) by {
        let t = r.tools@[j];
        assert(kept_tools(kept, shell_rule(no_commands))[j] == t);
        lemma_kept_satisfy(kept, shell_rule(no_commands), t);
        lemma_kept_satisfy(tools, rule, t);
    }
}

/// In denylist mode no denied tool is kept.
pub proof fn lemma_denylist_keeps_no_denied(
    tools: Seq<ToolDefinition>,
    persona: LoadedPersona,
    r: PersonaFilterResult,
)
    requires
        filter_spec(tools, persona, r),
        persona.config.tools.allow@.len() == 0,
    ensures
        forall|j: int|
            0 <= j < r.tools@.len() ==> !names_contain(
                persona.config.tools.deny@,
                #[trigger] r.tools@[j].name@,
            ),
{
    let access = persona.config.tools;
    let no_commands = persona.config.shell.allowed_commands@.len() == 0;
    if access.spec_is_unrestricted() {
        // nothing is denied
        assert forall|j: int| 0 <= j < r.tools@.len() implies !names_contain(
            access.deny@,
            #[trigger] r.tools@[j].name@,
        ) by {
            if names_contain(access.deny@, r.tools@[j].name@) {
                let i = choose|i: int| 0 <= i < access.deny@.len() && #[trigger] access.deny@[i]@
                    == r.tools@[j].name@;
            }
        }
    } else {
        let rule = list_rule(access);
        lemma_restricted_outcome(tools, persona, r);
        let kept = kept_tools(tools, rule);
        assert forall|j: int| 0 <= j < r.tools@.len() implies !names_contain(
            access.deny@,
            #[trigger] r.tools@[j].name@,
        ) by {
            let t = r.tools@[j];
            assert(kept_tools(kept, shell_rule(no_commands))[j] == t);
            lemma_kept_satisfy(kept, shell_rule(no_commands), t);
            lemma_kept_satisfy(tools, rule, t);
        }
    }
}

/// Without permitted commands no shell tool survives the filter, whatever the
/// allow- and denylists say: an empty command list means no shell access.
pub proof fn lemma_no_shell_without_commands(
    tools: Seq<ToolDefinition>,
    persona: LoadedPersona,
    r: PersonaFilterResult,
)
    requires
        filter_spec(tools, persona, r),
        persona.config.shell.allowed_commands@.len() == 0,
    ensures
        forall|j: int| 0 <= j < r.tools@.len() ==> !is_shell(#[trigger] r.tools@[j]),
{
    let kept = if persona.config.tools.spec_is_unrestricted() {
        tools
    } else {
        lemma_restricted_outcome(tools, persona, r);
        kept_tools(tools, list_rule(persona.config.tools))
    };
    assert(r.tools@ == kept_tools(kept, shell_rule(true)));
    assert forall|j: int| 0 <= j < r.tools@.len() implies !is_shell(#[trigger] r.tools@[j]) by {
        assert(kept_tools(kept, shell_rule(true))[j] == r.tools@[j]);
        lemma_kept_satisfy(kept, shell_rule(true), r.tools@[j]);
    }
}

/// A persona without tool restrictions that permits some command keeps every tool.
pub proof fn lemma_unrestricted_keeps_everything(
    tools: Seq<ToolDefinition>,
    persona: LoadedPersona,
    r: PersonaFilterResult,
)
    requires
        filter_spec(tools, persona, r),
        persona.config.tools.spec_is_unrestricted(),
        persona.config.shell.allowed_commands@.len() > 0,
    ensures
        r.tools@ == tools,
        r.removed_tools@.len() == 0,
{
    lemma_keep_all(tools, shell_rule(false));
    assert(name_views(r.removed_tools@).len() == r.removed_tools@.len());
}

/// Keeping every tool keeps the list unchanged.
proof fn lemma_keep_all(tools: Seq<ToolDefinition>, keep: spec_fn(ToolDefinition) -> bool)
    requires
        forall|t: ToolDefinition| #[trigger] keep(t),
    ensures
        kept_tools(tools, keep) == tools,
        dropped_names(tools, keep).len() == 0,
    decreases tools.len(),
{
    if tools.len() > 0 {
        lemma_keep_all(tools.drop_last(), keep);
        assert(keep(tools.last()));
        assert(tools.drop_last().push(tools.last()) =~= tools);
    }
}

/// With tool restrictions, every tool that the allow- or denylist lets through
/// is kept, unless it is the shell tool and no command is permitted.
pub proof fn lemma_permitted_tools_survive(
    tools: Seq<ToolDefinition>,
    persona: LoadedPersona,
    r: PersonaFilterResult,
    j: int,
)
    requires
        filter_spec(tools, persona, r),
        !persona.config.tools.spec_is_unrestricted(),
        0 <= j < tools.len(),
        if persona.config.tools.allow@.len() > 0 {
            names_contain(persona.config.tools.allow@, tools[j].name@)
        } else {
            !names_contain(persona.config.tools.deny@, tools[j].name@)
        },
        persona.config.shell.allowed_commands@.len() > 0 || !is_shell(tools[j]),
    ensures
        r.tools@.contains(tools[j]),
{
    let no_commands = persona.config.shell.allowed_commands@.len() == 0;
    let rule = list_rule(persona.config.tools);
    lemma_restricted_outcome(tools, persona, r);
    assert(rule(tools[j]));
    lemma_accepted_are_kept(tools, rule);
    let kept = kept_tools(tools, rule);
    let m = choose|m: int| 0 <= m < kept.len() && kept[m] == tools[j];
    assert(shell_rule(no_commands)(kept[m]));
    lemma_accepted_are_kept(kept, shell_rule(no_commands));
}

} // verus!
