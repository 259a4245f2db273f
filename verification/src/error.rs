//! The error type shared by every operation of the crate, and the
//! nearest-match suggestion used when an unknown tool name is given.

use vstd::prelude::*;

verus! {

/// One error value for every failure the crate reports.
///
/// I/O failures are injected by the caller that performs the I/O, carrying
/// only their message; all other variants are produced by the crate's own
/// checks.
#[derive(Debug, Clone, PartialEq, Eq)]
pub enum AgentSyncError {
    /// An I/O failure, with the underlying message.
    Io { message: String },
    /// The configuration file was not found at `path`.
    ConfigNotFound { path: String },
    /// `tool` names no known tool.
    InvalidTool { tool: String },
    /// A rule file's header could not be parsed.
    FrontmatterParse { file: String, line: Option<usize>, message: String },
    /// No configuration exists where one is required.
    NotInitialized,
    /// A file or directory could not be accessed.
    PermissionDenied { path: String },
    /// `name` is not an acceptable rule name.
    InvalidRuleName { name: String },
    /// The configuration holds an invalid value.
    ConfigError { error: String },
    /// `target` escapes the base directory `base`.
    PathTraversal { base: String, target: String },
    /// Any other failure, described by its message.
    Other(String),
}

/// The smaller of two naturals.
pub open spec fn nat_min(a: nat, b: nat) -> nat {
    if a <= b {
        a
    } else {
        b
    }
}

/// The character-level edit distance between `a` and `b`: the least number
/// of single-character insertions, deletions and substitutions turning one
/// into the other.
pub open spec fn edit_distance(a: Seq<char>, b: Seq<char>) -> nat
    decreases a.len(), b.len(),
{
    if a.len() == 0 {
        b.len()
    } else if b.len() == 0 {
        a.len()
    } else if a[0] == b[0] {
        edit_distance(a.drop_first(), b.drop_first())
    } else {
        1 + nat_min(
            nat_min(edit_distance(a.drop_first(), b), edit_distance(a, b.drop_first())),
            edit_distance(a.drop_first(), b.drop_first()),
        )
    }
}

/// Relies on strsim::levenshtein: the character-level edit distance between
/// the two strings, with insertions, deletions and substitutions each of
/// cost one.
#[verifier::external_body]
fn levenshtein(a: &str, b: &str) -> (r: usize)
    ensures
        r == edit_distance(a@, b@),
{
    strsim::levenshtein(a, b)
}

/// The valid tool name nearest to `t` by edit distance; the earlier of
/// `cursor`, `copilot`, `windsurf` wins a tie.
pub open spec fn nearest_tool_spec(t: Seq<char>) -> Seq<char> {
    let dc = edit_distance(t, "cursor"@);
    let dp = edit_distance(t, "copilot"@);
    let dw = edit_distance(t, "windsurf"@);
    if dc <= dp && dc <= dw {
        "cursor"@
    } else if dp <= dw {
        "copilot"@
    } else {
        "windsurf"@
    }
}

/// The valid tool name nearest to `tool` by edit distance.
pub fn nearest_tool(tool: &str) -> (r: String)
    ensures
        r@ == nearest_tool_spec(tool@),
{
    let dc = levenshtein(tool, "cursor");
    let dp = levenshtein(tool, "copilot");
    let dw = levenshtein(tool, "windsurf");
    if dc <= dp && dc <= dw {
        String::from_str("cursor")
    } else if dp <= dw {
        String::from_str("copilot")
    } else {
        String::from_str("windsurf")
    }
}

/// The message of an `InvalidTool` error: the bad name, a nearest-match
/// hint when the name is long enough to be a plausible typo, and the list
/// of valid tools.
pub open spec fn msg_invalid_tool(tool: Seq<char>) -> Seq<char> {
    let base = "Invalid tool name: '"@ + tool + "'"@;
    let hint = if tool.len() > 2 {
        "\nhint: Did you mean '"@ + nearest_tool_spec(tool) + "'?"@
    } else {
        Seq::<char>::empty()
    };
    base + hint + "\nhint: Valid tools are: cursor, copilot, windsurf"@
}

/// The message of a `FrontmatterParse` error.
pub open spec fn msg_frontmatter_parse(file: Seq<char>, message: Seq<char>) -> Seq<char> {
    "Invalid frontmatter in "@ + file + ": "@ + message
}

/// The message of a `PathTraversal` error.
pub open spec fn msg_path_traversal(base: Seq<char>, target: Seq<char>) -> Seq<char> {
    "Path traversal detected: '"@ + target + "' escapes base directory '"@ + base
        + "'. Paths must stay within the base directory."@
}

/// The text of the message that [`AgentSyncError::message`] returns.
pub open spec fn spec_message(e: AgentSyncError) -> Seq<char> {
    match e {
        AgentSyncError::Io { message } => "I/O error: "@ + message@,
        AgentSyncError::ConfigNotFound { path } => "Configuration file not found: "@ + path@
            + ". Run 'agentsync init' to create a new configuration file."@,
        AgentSyncError::InvalidTool { tool } => msg_invalid_tool(tool@),
        AgentSyncError::FrontmatterParse { file, line, message } => msg_frontmatter_parse(
            file@,
            message@,
        ),
        AgentSyncError::NotInitialized =>
        "Project not initialized. Run 'agentsync init' to initialize a new project."@,
        AgentSyncError::PermissionDenied { path } => "Permission denied: "@ + path@,
        AgentSyncError::InvalidRuleName { name } => "Invalid rule name: "@ + name@
            + ". Rule names must use kebab-case (lowercase with hyphens), for example 'my-rule'."@,
        AgentSyncError::ConfigError { error } => "Configuration error: "@ + error@,
        AgentSyncError::PathTraversal { base, target } => msg_path_traversal(base@, target@),
        AgentSyncError::Other(message) => message@,
    }
}

impl AgentSyncError {
    /// A human-readable description of the error.
    pub fn message(&self) -> (r: String)
        ensures
            r@ == spec_message(*self),
    {
        match self {
            AgentSyncError::Io { message } => {
                let mut m = String::from_str("I/O error: ");
                m.append(message.as_str());
                m
            },
            AgentSyncError::ConfigNotFound { path } => {
                let mut m = String::from_str("Configuration file not found: ");
                m.append(path.as_str());
                m.append(". Run 'agentsync init' to create a new configuration file.");
                m
            },
            AgentSyncError::InvalidTool { tool } => {
                let mut m = String::from_str("Invalid tool name: '");
                m.append(tool.as_str());
                m.append("'");
                if tool.as_str().unicode_len() > 2 {
                    m.append("\nhint: Did you mean '");
                    let near = nearest_tool(tool.as_str());
                    m.append(near.as_str());
                    m.append("'?");
                }
                m.append("\nhint: Valid tools are: cursor, copilot, windsurf");
                m
            },
            AgentSyncError::FrontmatterParse { file, line, message } => {
                let mut m = String::from_str("Invalid frontmatter in ");
                m.append(file.as_str());
                m.append(": ");
                m.append(message.as_str());
                m
            },
            AgentSyncError::NotInitialized => {
                String::from_str(
                    "Project not initialized. Run 'agentsync init' to initialize a new project.",
                )
            },
            AgentSyncError::PermissionDenied { path } => {
                let mut m = String::from_str("Permission denied: ");
                m.append(path.as_str());
                m
            },
            AgentSyncError::InvalidRuleName { name } => {
                let mut m = String::from_str("Invalid rule name: ");
                m.append(name.as_str());
                m.append(
                    ". Rule names must use kebab-case (lowercase with hyphens), for example 'my-rule'.",
                );
                m
            },
            AgentSyncError::ConfigError { error } => {
                let mut m = String::from_str("Configuration error: ");
                m.append(error.as_str());
                m
            },
            AgentSyncError::PathTraversal { base, target } => {
                let mut m = String::from_str("Path traversal detected: '");
                m.append(target.as_str());
                m.append("' escapes base directory '");
                m.append(base.as_str());
                m.append("'. Paths must stay within the base directory.");
                m
            },
            AgentSyncError::Other(message) => message.clone(),
        }
    }
}

} // verus!
