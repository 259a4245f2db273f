//! The four rule locations — the canonical store and the three tools —
//! with their directories, file-name conventions, and the pure path and
//! name handling built on them.
//!
//! Everything here works on path strings; reading, writing and
//! canonicalizing paths is the caller's business.

use vstd::prelude::*;

use crate::error::AgentSyncError;
use crate::security;
use crate::text;

verus! {

/// A rule location: the canonical store or one of the three tools.
#[derive(Debug, Clone, Copy, PartialEq, Eq, Structural)]
pub enum Tool {
    AgentSync,
    Cursor,
    Copilot,
    Windsurf,
}

/// Each location's lower-case name.
pub open spec fn spec_tool_name(t: Tool) -> Seq<char> {
    match t {
        Tool::AgentSync => "agentsync"@,
        Tool::Cursor => "cursor"@,
        Tool::Copilot => "copilot"@,
        Tool::Windsurf => "windsurf"@,
    }
}

/// The location a name denotes, if any.
pub open spec fn spec_tool_of_name(s: Seq<char>) -> Option<Tool> {
    if s == "agentsync"@ {
        Some(Tool::AgentSync)
    } else if s == "cursor"@ {
        Some(Tool::Cursor)
    } else if s == "copilot"@ {
        Some(Tool::Copilot)
    } else if s == "windsurf"@ {
        Some(Tool::Windsurf)
    } else {
        None
    }
}

/// Each location's rule directory, relative to the project root.
pub open spec fn spec_tool_directory(t: Tool) -> Seq<char> {
    match t {
        Tool::AgentSync => ".agentsync/rules"@,
        Tool::Cursor => ".cursor/rules"@,
        Tool::Copilot => ".github/instructions"@,
        Tool::Windsurf => ".windsurf/rules"@,
    }
}

/// Each location's file extension.
pub open spec fn spec_tool_extension(t: Tool) -> Seq<char> {
    match t {
        Tool::Cursor => "mdc"@,
        _ => "md"@,
    }
}

/// What follows the rule name in a file name: Copilot uses the compound
/// `.instructions.md` suffix, every other location a plain extension.
pub open spec fn spec_tool_suffix(t: Tool) -> Seq<char> {
    match t {
        Tool::AgentSync => ".md"@,
        Tool::Cursor => ".mdc"@,
        Tool::Copilot => ".instructions.md"@,
        Tool::Windsurf => ".md"@,
    }
}

impl Tool {
    /// The location's lower-case name.
    pub fn name(&self) -> (r: &'static str)
        ensures
            r@ == spec_tool_name(*self),
    {
        match self {
            Tool::AgentSync => "agentsync",
            Tool::Cursor => "cursor",
            Tool::Copilot => "copilot",
            Tool::Windsurf => "windsurf",
        }
    }

    /// The location's rule directory, relative to the project root.
    pub fn directory(&self) -> (r: &'static str)
        ensures
            r@ == spec_tool_directory(*self),
    {
        match self {
            Tool::AgentSync => ".agentsync/rules",
            Tool::Cursor => ".cursor/rules",
            Tool::Copilot => ".github/instructions",
            Tool::Windsurf => ".windsurf/rules",
        }
    }

    /// The location's file extension.
    pub fn extension(&self) -> (r: &'static str)
        ensures
            r@ == spec_tool_extension(*self),
    {
        match self {
            Tool::Cursor => "mdc",
            _ => "md",
        }
    }

    /// The location a name denotes; an unknown name fails with an
    /// `InvalidTool` error carrying it.
    pub fn from_name(s: &str) -> (r: Result<Tool, AgentSyncError>)
        ensures
            match spec_tool_of_name(s@) {
                Some(t) => r == Ok::<Tool, AgentSyncError>(t),
                None => (r matches Err(AgentSyncError::InvalidTool { tool }) && tool@ == s@),
            },
    {
        if text::str_eq(s, "agentsync") {
            Ok(Tool::AgentSync)
        } else if text::str_eq(s, "cursor") {
            Ok(Tool::Cursor)
        } else if text::str_eq(s, "copilot") {
            Ok(Tool::Copilot)
        } else if text::str_eq(s, "windsurf") {
            Ok(Tool::Windsurf)
        } else {
            Err(AgentSyncError::InvalidTool { tool: s.to_owned() })
        }
    }
}

impl core::str::FromStr for Tool {
    type Err = AgentSyncError;

    fn from_str(s: &str) -> (r: Result<Tool, AgentSyncError>) {
        Tool::from_name(s)
    }
}

/// The file path a rule has at a location: the location's directory under
/// the project root, the rule's name, and the location's suffix.
pub open spec fn spec_rule_path(root: Seq<char>, tool: Tool, name: Seq<char>) -> Seq<char> {
    root + "/"@ + spec_tool_directory(tool) + "/"@ + name + spec_tool_suffix(tool)
}

/// The full path for a rule file at a location:
/// `<root>/<tool dir>/<name><suffix>`.  The rule name is first checked
/// with [`security::validate_relative_path`], so a name holding `..` or an
/// absolute path fails with a `PathTraversal` error; the caller
/// additionally confirms, with the filesystem at hand, that the final path
/// lies within the project root before writing.
pub fn rule_path(project_root: &str, tool: Tool, rule_name: &str) -> (r: Result<
    String,
    AgentSyncError,
>)
    ensures
        r is Ok <==> security::relative_path_ok(rule_name@),
        r matches Ok(p) ==> p@ == spec_rule_path(project_root@, tool, rule_name@),
        r matches Err(e) ==> e matches AgentSyncError::PathTraversal { base, target } && base@
            == "."@ && target@ == rule_name@,
{
    match security::validate_relative_path(rule_name) {
        Err(e) => Err(e),
        Ok(()) => {
            let mut p = project_root.to_owned();
            p.append("/");
            p.append(tool.directory());
            p.append("/");
            p.append(rule_name);
            match tool {
                Tool::AgentSync => p.append(".md"),
                Tool::Cursor => p.append(".mdc"),
                Tool::Copilot => p.append(".instructions.md"),
                Tool::Windsurf => p.append(".md"),
            }
            Ok(p)
        },
    }
}

/// The rule name a file path encodes: the file name with the compound
/// `.instructions.md` suffix removed when present, else with its final
/// extension removed.  `None` when the path has no file name.
pub open spec fn spec_extract_rule_name(path: Seq<char>) -> Option<Seq<char>> {
    let f = path.skip(text::last_idx_of(path, '/') + 1);
    if f.len() == 0 {
        None
    } else if text::ends_with_spec(f, ".instructions.md"@) {
        Some(f.take(f.len() - 16))
    } else {
        let d = text::last_idx_of(f, '.');
        if d > 0 {
            Some(f.take(d))
        } else {
            Some(f)
        }
    }
}

/// The rule name a file path encodes, dropping the directory, the
/// `.instructions.md` suffix of Copilot files, or the final extension.
pub fn extract_rule_name(path: &str) -> (r: Option<String>)
    ensures
        match r {
            Some(name) => spec_extract_rule_name(path@) == Some(name@),
            None => spec_extract_rule_name(path@) is None,
        },
{
    let n: usize = path.unicode_len();
    proof {
        text::lemma_last_idx_of(path@, '/');
    }
    let start: usize = match text::rfind_char(path, '/') {
        Some(i) => i + 1,
        None => 0,
    };
    let f = path.substring_char(start, n);
    proof {
        assert(f@ =~= path@.skip(text::last_idx_of(path@, '/') + 1));
    }
    let fn_len: usize = f.unicode_len();
    if fn_len == 0 {
        return None;
    }
    proof {
        reveal_strlit(".instructions.md");
        assert(".instructions.md"@.len() == 16);
    }
    if text::ends_with(f, ".instructions.md") {
        return Some(f.substring_char(0, fn_len - 16).to_owned());
    }
    proof {
        text::lemma_last_idx_of(f@, '.');
    }
    match text::rfind_char(f, '.') {
        Some(d) => {
            if d > 0 {
                Some(f.substring_char(0, d).to_owned())
            } else {
                Some(f.to_owned())
            }
        },
        None => Some(f.to_owned()),
    }
}

/// Whether a character may appear in a rule name: a lower-case ASCII
/// letter, a digit, or a hyphen.
pub open spec fn is_rule_name_char(c: char) -> bool {
    ('a' <= c <= 'z') || ('0' <= c <= '9') || c == '-'
}

/// Whether a rule name is acceptable: non-empty kebab-case — lower-case
/// letters, digits and hyphens, neither starting nor ending with a hyphen,
/// without a double hyphen.
pub open spec fn spec_valid_rule_name(name: Seq<char>) -> bool {
    &&& name.len() > 0
    &&& forall|i: int| 0 <= i < name.len() ==> is_rule_name_char(name[i])
    &&& name[0] != '-'
    &&& name[name.len() - 1] != '-'
    &&& forall|i: int|
        #![trigger name[i]]
        0 <= i < name.len() - 1 ==> !(name[i] == '-' && name[i + 1] == '-')
}

/// Checks that a rule name follows the kebab-case convention; the error
/// for an empty name says so, the error for any other bad name carries the
/// name.
pub fn validate_rule_name(name: &str) -> (r: Result<(), AgentSyncError>)
    ensures
        r is Ok <==> spec_valid_rule_name(name@),
        r matches Err(e) ==> e matches AgentSyncError::InvalidRuleName { name: n } && (
        if name@.len() == 0 {
            n@ == "Rule name cannot be empty"@
        } else {
            n@ == name@
        }),
{
    let n: usize = name.unicode_len();
    if n == 0 {
        return Err(
            AgentSyncError::InvalidRuleName {
                name: String::from_str("Rule name cannot be empty"),
            },
        );
    }
    let mut ok = true;
    let mut i: usize = 0;
    while i < n
        invariant
            0 <= i <= n,
            n == name@.len(),
            ok == (forall|j: int| 0 <= j < i ==> is_rule_name_char(name@[j])),
        decreases n - i,
    {
        let c = name.get_char(i);
        let good = ('a' <= c && c <= 'z') || ('0' <= c && c <= '9') || c == '-';
        if !good {
            ok = false;
        }
        i = i + 1;
    }
    if ok && name.get_char(0) != '-' && name.get_char(n - 1) != '-' {
        let mut j: usize = 0;
        let mut no_double = true;
        while j < n - 1
            invariant
                0 <= j <= n,
                n >= 1,
                n == name@.len(),
                no_double == (forall|k: int|
                    #![trigger name@[k]]
                    0 <= k < j ==> !(name@[k] == '-' && name@[k + 1] == '-')),
            decreases n - j,
        {
            if name.get_char(j) == '-' && name.get_char(j + 1) == '-' {
                no_double = false;
            }
            j = j + 1;
        }
        if no_double {
            return Ok(());
        }
    }
    Err(AgentSyncError::InvalidRuleName { name: name.to_owned() })
}

} // verus!
