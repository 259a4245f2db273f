//! Data models: the canonical rule, the three tool-specific rule shapes,
//! the per-tool override blocks, and the configuration record.
//!
//! Each executable type has a ghost view over `Seq<char>` so that contracts
//! can speak of its contents mathematically.

use vstd::prelude::*;

use crate::error::AgentSyncError;
use crate::security;
use crate::text;

verus! {

/// Windsurf's four-way trigger: when the rule applies.
#[derive(Debug, Clone, Copy, PartialEq, Eq, Structural)]
pub enum WindsurfTrigger {
    Manual,
    AlwaysOn,
    ModelDecision,
    Glob,
}

/// The serialized name of each trigger value.
pub open spec fn spec_trigger_name(t: WindsurfTrigger) -> Seq<char> {
    match t {
        WindsurfTrigger::Manual => "manual"@,
        WindsurfTrigger::AlwaysOn => "always_on"@,
        WindsurfTrigger::ModelDecision => "model_decision"@,
        WindsurfTrigger::Glob => "glob"@,
    }
}

/// The trigger value a name denotes, if any.
pub open spec fn spec_trigger_of_name(s: Seq<char>) -> Option<WindsurfTrigger> {
    if s == "manual"@ {
        Some(WindsurfTrigger::Manual)
    } else if s == "always_on"@ {
        Some(WindsurfTrigger::AlwaysOn)
    } else if s == "model_decision"@ {
        Some(WindsurfTrigger::ModelDecision)
    } else if s == "glob"@ {
        Some(WindsurfTrigger::Glob)
    } else {
        None
    }
}

impl WindsurfTrigger {
    /// The name this trigger serializes to.
    pub fn name(&self) -> (r: &'static str)
        ensures
            r@ == spec_trigger_name(*self),
    {
        match self {
            WindsurfTrigger::Manual => "manual",
            WindsurfTrigger::AlwaysOn => "always_on",
            WindsurfTrigger::ModelDecision => "model_decision",
            WindsurfTrigger::Glob => "glob",
        }
    }

    /// The trigger a name denotes, if any.
    pub fn from_name(s: &str) -> (r: Option<WindsurfTrigger>)
        ensures
            r == spec_trigger_of_name(s@),
    {
        if text::str_eq(s, "manual") {
            Some(WindsurfTrigger::Manual)
        } else if text::str_eq(s, "always_on") {
            Some(WindsurfTrigger::AlwaysOn)
        } else if text::str_eq(s, "model_decision") {
            Some(WindsurfTrigger::ModelDecision)
        } else if text::str_eq(s, "glob") {
            Some(WindsurfTrigger::Glob)
        } else {
            None
        }
    }
}

impl Default for WindsurfTrigger {
    /// The trigger assumed when none is written: `ModelDecision`.
    fn default() -> (r: Self)
        ensures
            r == WindsurfTrigger::ModelDecision,
    {
        WindsurfTrigger::ModelDecision
    }
}

/// Ghost view of [`CursorConfig`].
#[verifier::ext_equal]
pub struct CursorConfigV {
    pub always_apply: bool,
    pub globs: Seq<char>,
}

/// Cursor's per-tool override block on a canonical rule.
#[derive(Debug, Clone, PartialEq)]
pub struct CursorConfig {
    pub always_apply: bool,
    pub globs: String,
}

impl View for CursorConfig {
    type V = CursorConfigV;

    open spec fn view(&self) -> CursorConfigV {
        CursorConfigV { always_apply: self.always_apply, globs: self.globs@ }
    }
}

/// Ghost view of [`WindsurfConfig`].
#[verifier::ext_equal]
pub struct WindsurfConfigV {
    pub trigger: WindsurfTrigger,
    pub globs: Seq<char>,
}

/// Windsurf's per-tool override block on a canonical rule.
#[derive(Debug, Clone, PartialEq)]
pub struct WindsurfConfig {
    pub trigger: WindsurfTrigger,
    pub globs: String,
}

impl View for WindsurfConfig {
    type V = WindsurfConfigV;

    open spec fn view(&self) -> WindsurfConfigV {
        WindsurfConfigV { trigger: self.trigger, globs: self.globs@ }
    }
}

/// Ghost view of [`CopilotConfig`].
#[verifier::ext_equal]
pub struct CopilotConfigV {
    pub apply_to: Seq<char>,
}

/// Copilot's per-tool override block on a canonical rule.
#[derive(Debug, Clone, PartialEq)]
pub struct CopilotConfig {
    pub apply_to: String,
}

impl View for CopilotConfig {
    type V = CopilotConfigV;

    open spec fn view(&self) -> CopilotConfigV {
        CopilotConfigV { apply_to: self.apply_to@ }
    }
}

/// Ghost view of [`AgentSyncRule`].
#[verifier::ext_equal]
pub struct AgentSyncRuleV {
    pub targets: Seq<Seq<char>>,
    pub description: Seq<char>,
    pub globs: Seq<char>,
    pub cursor: Option<CursorConfigV>,
    pub windsurf: Option<WindsurfConfigV>,
    pub copilot: Option<CopilotConfigV>,
}

/// The canonical rule: the single source of truth each tool file is a
/// projection of.
#[derive(Debug, Clone, PartialEq)]
pub struct AgentSyncRule {
    /// Target tools, or `*` for all of them.
    pub targets: Vec<String>,
    pub description: String,
    /// Comma-separated glob patterns.
    pub globs: String,
    pub cursor: Option<CursorConfig>,
    pub windsurf: Option<WindsurfConfig>,
    pub copilot: Option<CopilotConfig>,
}

impl View for AgentSyncRule {
    type V = AgentSyncRuleV;

    open spec fn view(&self) -> AgentSyncRuleV {
        AgentSyncRuleV {
            targets: self.targets.deep_view(),
            description: self.description@,
            globs: self.globs@,
            cursor: match self.cursor {
                Some(c) => Some(c@),
                None => None,
            },
            windsurf: match self.windsurf {
                Some(c) => Some(c@),
                None => None,
            },
            copilot: match self.copilot {
                Some(c) => Some(c@),
                None => None,
            },
        }
    }
}

/// Ghost view of [`CursorRule`].
#[verifier::ext_equal]
pub struct CursorRuleV {
    pub description: Seq<char>,
    pub always_apply: bool,
    pub globs: Seq<char>,
}

/// The frontmatter of a Cursor rule file.
#[derive(Debug, Clone, PartialEq)]
pub struct CursorRule {
    pub description: String,
    pub always_apply: bool,
    /// Comma-separated glob patterns.
    pub globs: String,
}

impl View for CursorRule {
    type V = CursorRuleV;

    open spec fn view(&self) -> CursorRuleV {
        CursorRuleV {
            description: self.description@,
            always_apply: self.always_apply,
            globs: self.globs@,
        }
    }
}

/// Ghost view of [`WindsurfRule`].
#[verifier::ext_equal]
pub struct WindsurfRuleV {
    pub trigger: WindsurfTrigger,
    pub description: Seq<char>,
    pub globs: Seq<char>,
}

/// The frontmatter of a Windsurf rule file.
#[derive(Debug, Clone, PartialEq)]
pub struct WindsurfRule {
    pub trigger: WindsurfTrigger,
    pub description: String,
    /// Comma-separated glob patterns.
    pub globs: String,
}

impl View for WindsurfRule {
    type V = WindsurfRuleV;

    open spec fn view(&self) -> WindsurfRuleV {
        WindsurfRuleV {
            trigger: self.trigger,
            description: self.description@,
            globs: self.globs@,
        }
    }
}

/// Ghost view of [`CopilotRule`].
#[verifier::ext_equal]
pub struct CopilotRuleV {
    pub description: Seq<char>,
    pub apply_to: Seq<char>,
}

/// The frontmatter of a GitHub Copilot instructions file.
#[derive(Debug, Clone, PartialEq)]
pub struct CopilotRule {
    pub description: String,
    /// Comma-separated glob patterns.
    pub apply_to: String,
}

impl View for CopilotRule {
    type V = CopilotRuleV;

    open spec fn view(&self) -> CopilotRuleV {
        CopilotRuleV { description: self.description@, apply_to: self.apply_to@ }
    }
}

/// Ghost view of [`Rule`].
#[verifier::ext_equal]
pub struct RuleV<V> {
    pub frontmatter: V,
    pub content: Seq<char>,
}

/// A rule document: a typed frontmatter header and the markdown body after
/// it.
#[derive(Debug, Clone, PartialEq)]
pub struct Rule<T> {
    pub frontmatter: T,
    /// Markdown body after the frontmatter.
    pub content: String,
}

impl<T: View> View for Rule<T> {
    type V = RuleV<T::V>;

    open spec fn view(&self) -> RuleV<T::V> {
        RuleV { frontmatter: self.frontmatter@, content: self.content@ }
    }
}

/// Ghost view of [`AgentSyncConfig`].
pub struct AgentSyncConfigV {
    pub tools: Seq<Seq<char>>,
    pub base_dirs: Seq<Seq<char>>,
}

/// The configuration record: which tools are enabled and which base
/// directories rules are synchronized under.
#[derive(Debug, Clone, PartialEq)]
pub struct AgentSyncConfig {
    pub tools: Vec<String>,
    /// Base directories, for multi-root project layouts.
    pub base_dirs: Vec<String>,
}

impl View for AgentSyncConfig {
    type V = AgentSyncConfigV;

    open spec fn view(&self) -> AgentSyncConfigV {
        AgentSyncConfigV {
            tools: self.tools.deep_view(),
            base_dirs: self.base_dirs.deep_view(),
        }
    }
}

/// Whether `t` names one of the three known tools.
pub open spec fn is_valid_tool_name(t: Seq<char>) -> bool {
    t == "cursor"@ || t == "copilot"@ || t == "windsurf"@
}

/// The first entry of `tools` that is no known tool name, if any.
pub open spec fn first_invalid_tool(tools: Seq<Seq<char>>) -> Option<Seq<char>>
    decreases tools.len(),
{
    if tools.len() == 0 {
        None
    } else if !is_valid_tool_name(tools[0]) {
        Some(tools[0])
    } else {
        first_invalid_tool(tools.drop_first())
    }
}

/// The hint attached to a rejected tool name, if the name is a known
/// near-miss.
pub open spec fn spec_tool_hint(lowered: Seq<char>) -> Option<Seq<char>> {
    if lowered == "github-copilot"@ || lowered == "github_copilot"@ || lowered == "githubcopilot"@
        || lowered == "vscode-copilot"@ || lowered == "vscode_copilot"@ {
        Some("Did you mean 'copilot'?"@)
    } else if lowered == "cascade"@ || lowered == "codeium"@ {
        Some("This tool is not yet supported"@)
    } else {
        None
    }
}

/// The message of the configuration error for a rejected tool name.
pub open spec fn spec_invalid_tool_message(t: Seq<char>) -> Seq<char> {
    let base = "Invalid tool name: '"@ + t + "'\n\nValid tools: cursor, copilot, windsurf"@;
    match spec_tool_hint(t.map_values(|c: char| text::lower_char(c))) {
        Some(hint) => base + "\n\n"@ + hint,
        None => base,
    }
}

proof fn lemma_first_invalid_tool(tools: Seq<Seq<char>>, i: int)
    requires
        0 <= i < tools.len(),
        !is_valid_tool_name(tools[i]),
        forall|j: int| 0 <= j < i ==> is_valid_tool_name(tools[j]),
    ensures
        first_invalid_tool(tools) == Some(tools[i]),
    decreases i,
{
    if i > 0 {
        lemma_first_invalid_tool(tools.drop_first(), i - 1);
    }
}

proof fn lemma_no_invalid_tool(tools: Seq<Seq<char>>)
    requires
        forall|j: int| 0 <= j < tools.len() ==> is_valid_tool_name(tools[j]),
    ensures
        first_invalid_tool(tools) is None,
    decreases tools.len(),
{
    if tools.len() > 0 {
        lemma_no_invalid_tool(tools.drop_first());
    }
}

fn tool_hint(tool: &str) -> (r: Option<&'static str>)
    ensures
        match r {
            Some(h) => spec_tool_hint(tool@.map_values(|c: char| text::lower_char(c))) == Some(
                h@,
            ),
            None => spec_tool_hint(tool@.map_values(|c: char| text::lower_char(c))) is None,
        },
{
    proof {
        reveal_strlit("github-copilot");
        reveal_strlit("github_copilot");
        reveal_strlit("githubcopilot");
        reveal_strlit("vscode-copilot");
        reveal_strlit("vscode_copilot");
        reveal_strlit("cascade");
        reveal_strlit("codeium");
        assert("github-copilot"@.map_values(|c: char| text::lower_char(c)) =~= "github-copilot"@);
        assert("github_copilot"@.map_values(|c: char| text::lower_char(c)) =~= "github_copilot"@);
        assert("githubcopilot"@.map_values(|c: char| text::lower_char(c)) =~= "githubcopilot"@);
        assert("vscode-copilot"@.map_values(|c: char| text::lower_char(c)) =~= "vscode-copilot"@);
        assert("vscode_copilot"@.map_values(|c: char| text::lower_char(c)) =~= "vscode_copilot"@);
        assert("cascade"@.map_values(|c: char| text::lower_char(c)) =~= "cascade"@);
        assert("codeium"@.map_values(|c: char| text::lower_char(c)) =~= "codeium"@);
    }
    if text::str_eq_ignore_ascii_case(tool, "github-copilot") || text::str_eq_ignore_ascii_case(
        tool,
        "github_copilot",
    ) || text::str_eq_ignore_ascii_case(tool, "githubcopilot") || text::str_eq_ignore_ascii_case(
        tool,
        "vscode-copilot",
    ) || text::str_eq_ignore_ascii_case(tool, "vscode_copilot") {
        Some("Did you mean 'copilot'?")
    } else if text::str_eq_ignore_ascii_case(tool, "cascade") || text::str_eq_ignore_ascii_case(
        tool,
        "codeium",
    ) {
        Some("This tool is not yet supported")
    } else {
        None
    }
}

impl AgentSyncConfig {
    /// Checks the configuration: every enabled tool must be one of the
    /// three known names, and the base directories must pass
    /// [`security::validate_base_dirs`].  The error for an unknown tool
    /// names it, lists the valid tools, and adds a hint for known
    /// near-misses.
    pub fn validate(&self) -> (r: Result<(), AgentSyncError>)
        ensures
            r is Ok <==> first_invalid_tool(self@.tools) is None && self@.base_dirs.len() > 0
                && security::first_bad_base_dir(self@.base_dirs) is None,
            first_invalid_tool(self@.tools) matches Some(t) ==> (r matches Err(
                AgentSyncError::ConfigError { error },
            ) && error@ == spec_invalid_tool_message(t)),
    {
        let mut i: usize = 0;
        while i < self.tools.len()
            invariant
                0 <= i <= self.tools.len(),
                forall|j: int| 0 <= j < i ==> is_valid_tool_name(self.tools.deep_view()[j]),
            decreases self.tools.len() - i,
        {
            let tool = &self.tools[i];
            let valid = text::str_eq(tool.as_str(), "cursor") || text::str_eq(
                tool.as_str(),
                "copilot",
            ) || text::str_eq(tool.as_str(), "windsurf");
            if !valid {
                proof {
                    lemma_first_invalid_tool(self.tools.deep_view(), i as int);
                }
                let mut msg = String::from_str("Invalid tool name: '");
                msg.append(tool.as_str());
                msg.append("'\n\nValid tools: cursor, copilot, windsurf");
                match tool_hint(tool.as_str()) {
                    Some(hint) => {
                        msg.append("\n\n");
                        msg.append(hint);
                    },
                    None => {},
                }
                proof {
                    assert(msg@ =~= spec_invalid_tool_message(tool@));
                }
                return Err(AgentSyncError::ConfigError { error: msg });
            }
            i = i + 1;
        }
        proof {
            lemma_no_invalid_tool(self.tools.deep_view());
        }
        security::validate_base_dirs(&self.base_dirs)
    }
}

/// The tools enabled when nothing is configured: all three.
pub fn default_tools() -> (r: Vec<String>)
    ensures
        r.deep_view() =~= seq!["cursor"@, "copilot"@, "windsurf"@],
{
    let mut v: Vec<String> = Vec::new();
    v.push(String::from_str("cursor"));
    v.push(String::from_str("copilot"));
    v.push(String::from_str("windsurf"));
    v
}

/// The base directories used when nothing is configured: the project root.
pub fn default_base_dirs() -> (r: Vec<String>)
    ensures
        r.deep_view() =~= seq!["."@],
{
    let mut v: Vec<String> = Vec::new();
    v.push(String::from_str("."));
    v
}

impl Default for AgentSyncConfig {
    /// The configuration assumed when none exists: all three tools, rooted
    /// at the project directory.
    fn default() -> (r: Self)
        ensures
            r@.tools =~= seq!["cursor"@, "copilot"@, "windsurf"@],
            r@.base_dirs =~= seq!["."@],
    {
        AgentSyncConfig { tools: default_tools(), base_dirs: default_base_dirs() }
    }
}

} // verus!
