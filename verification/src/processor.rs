//! One processor per tool: converts between a serialized tool rule file
//! and the canonical rule, in both directions.  The tool set is closed, so
//! the processors are three unit types behind one trait.

use vstd::prelude::*;

use crate::converter::{
    spec_agentsync_to_copilot, spec_agentsync_to_cursor, spec_agentsync_to_windsurf,
    spec_copilot_to_agentsync, spec_cursor_to_agentsync, spec_windsurf_to_agentsync,
    agentsync_rule_to_copilot, agentsync_rule_to_cursor, agentsync_rule_to_windsurf,
    copilot_rule_to_agentsync, cursor_rule_to_agentsync, windsurf_rule_to_agentsync,
};
use crate::error::AgentSyncError;
use crate::fs::Tool;
use crate::models::{AgentSyncRule, AgentSyncRuleV, CopilotRule, CursorRule, Rule, WindsurfRule};
use crate::parser::{
    ParseFrontmatter, SerializeFrontmatter, parse_frontmatter, serialize_frontmatter,
    spec_agentsync_to_kv, spec_copilot_to_kv, spec_cursor_to_kv, spec_parse_doc,
    spec_serialize_doc, spec_windsurf_to_kv,
};

verus! {

/// The serialized tool file one canonical rule document projects to.
pub open spec fn spec_project_to_tool(tool: Tool, rule: crate::models::RuleV<AgentSyncRuleV>) -> Seq<
    char,
> {
    match tool {
        Tool::AgentSync => spec_serialize_doc(spec_agentsync_to_kv(rule.frontmatter), rule.content),
        Tool::Cursor => spec_serialize_doc(
            spec_cursor_to_kv(spec_agentsync_to_cursor(rule.frontmatter)),
            rule.content,
        ),
        Tool::Copilot => spec_serialize_doc(
            spec_copilot_to_kv(spec_agentsync_to_copilot(rule.frontmatter)),
            rule.content,
        ),
        Tool::Windsurf => spec_serialize_doc(
            spec_windsurf_to_kv(spec_agentsync_to_windsurf(rule.frontmatter)),
            rule.content,
        ),
    }
}

/// The canonical rule document a serialized tool file denotes, if its
/// header parses.
pub open spec fn spec_tool_doc_to_agentsync(tool: Tool, text: Seq<char>) -> Option<
    (AgentSyncRuleV, Seq<char>),
> {
    match tool {
        Tool::AgentSync => spec_parse_doc::<AgentSyncRule>(text),
        Tool::Cursor => match spec_parse_doc::<CursorRule>(text) {
            Some((c, b)) => Some((spec_cursor_to_agentsync(c), b)),
            None => None,
        },
        Tool::Copilot => match spec_parse_doc::<CopilotRule>(text) {
            Some((c, b)) => Some((spec_copilot_to_agentsync(c), b)),
            None => None,
        },
        Tool::Windsurf => match spec_parse_doc::<WindsurfRule>(text) {
            Some((w, b)) => Some((spec_windsurf_to_agentsync(w), b)),
            None => None,
        },
    }
}

/// A tool's two conversions: a canonical rule document to that tool's
/// serialized file, and a serialized file of that tool back to a canonical
/// rule document.
pub trait Processor {
    /// The tool this processor serves.
    spec fn spec_tool(&self) -> Tool;

    /// The tool this processor serves.
    fn tool(&self) -> (t: Tool)
        ensures
            t == self.spec_tool(),
    ;

    /// Projects a canonical rule document onto this tool's serialized file
    /// format.
    fn convert_from_agentsync(&self, rule: &Rule<AgentSyncRule>) -> (r: Result<
        String,
        AgentSyncError,
    >)
        ensures
            r matches Ok(s) && s@ == spec_project_to_tool(self.spec_tool(), rule@),
    ;

    /// Parses a serialized file of this tool and infers the canonical rule
    /// it denotes.  Fails exactly when the header does not parse, with an
    /// error naming `path`.
    fn convert_to_agentsync(&self, content: &str, path: &str) -> (r: Result<
        Rule<AgentSyncRule>,
        AgentSyncError,
    >)
        ensures
            match spec_tool_doc_to_agentsync(self.spec_tool(), content@) {
                Some((f, b)) => r matches Ok(rule) && rule@.frontmatter == f && rule@.content == b,
                None => r is Err,
            },
    ;
}

/// The processor for Cursor rule files.
pub struct CursorProcessor;

impl Processor for CursorProcessor {
    open spec fn spec_tool(&self) -> Tool {
        Tool::Cursor
    }

    fn tool(&self) -> Tool {
        Tool::Cursor
    }

    fn convert_from_agentsync(&self, rule: &Rule<AgentSyncRule>) -> (r: Result<
        String,
        AgentSyncError,
    >) {
        let cursor_rule = agentsync_rule_to_cursor(rule);
        serialize_frontmatter(&cursor_rule)
    }

    fn convert_to_agentsync(&self, content: &str, path: &str) -> (r: Result<
        Rule<AgentSyncRule>,
        AgentSyncError,
    >) {
        match parse_frontmatter::<CursorRule>(content, Some(path)) {
            Ok(cursor_rule) => Ok(cursor_rule_to_agentsync(&cursor_rule)),
            Err(e) => Err(e),
        }
    }
}

/// The processor for GitHub Copilot instructions files.
pub struct CopilotProcessor;

impl Processor for CopilotProcessor {
    open spec fn spec_tool(&self) -> Tool {
        Tool::Copilot
    }

    fn tool(&self) -> Tool {
        Tool::Copilot
    }

    fn convert_from_agentsync(&self, rule: &Rule<AgentSyncRule>) -> (r: Result<
        String,
        AgentSyncError,
    >) {
        let copilot_rule = agentsync_rule_to_copilot(rule);
        serialize_frontmatter(&copilot_rule)
    }

    fn convert_to_agentsync(&self, content: &str, path: &str) -> (r: Result<
        Rule<AgentSyncRule>,
        AgentSyncError,
    >) {
        match parse_frontmatter::<CopilotRule>(content, Some(path)) {
            Ok(copilot_rule) => Ok(copilot_rule_to_agentsync(&copilot_rule)),
            Err(e) => Err(e),
        }
    }
}

/// The processor for Windsurf rule files.
pub struct WindsurfProcessor;

impl Processor for WindsurfProcessor {
    open spec fn spec_tool(&self) -> Tool {
        Tool::Windsurf
    }

    fn tool(&self) -> Tool {
        Tool::Windsurf
    }

    fn convert_from_agentsync(&self, rule: &Rule<AgentSyncRule>) -> (r: Result<
        String,
        AgentSyncError,
    >) {
        let windsurf_rule = agentsync_rule_to_windsurf(rule);
        serialize_frontmatter(&windsurf_rule)
    }

    fn convert_to_agentsync(&self, content: &str, path: &str) -> (r: Result<
        Rule<AgentSyncRule>,
        AgentSyncError,
    >) {
        match parse_frontmatter::<WindsurfRule>(content, Some(path)) {
            Ok(windsurf_rule) => Ok(windsurf_rule_to_agentsync(&windsurf_rule)),
            Err(e) => Err(e),
        }
    }
}

/// The processor of any one tool, as a single value.  The tool set is
/// closed, so a sum over the three processors stands in for a trait
/// object.
pub enum AnyProcessor {
    Cursor(CursorProcessor),
    Copilot(CopilotProcessor),
    Windsurf(WindsurfProcessor),
}

impl AnyProcessor {
    /// The tool this processor serves.
    pub open spec fn spec_tool(&self) -> Tool {
        match self {
            AnyProcessor::Cursor(_) => Tool::Cursor,
            AnyProcessor::Copilot(_) => Tool::Copilot,
            AnyProcessor::Windsurf(_) => Tool::Windsurf,
        }
    }

    /// The tool this processor serves.
    pub fn tool(&self) -> (t: Tool)
        ensures
            t == self.spec_tool(),
    {
        match self {
            AnyProcessor::Cursor(p) => p.tool(),
            AnyProcessor::Copilot(p) => p.tool(),
            AnyProcessor::Windsurf(p) => p.tool(),
        }
    }

    /// Projects a canonical rule document onto this processor's tool
    /// format.
    pub fn convert_from_agentsync(&self, rule: &Rule<AgentSyncRule>) -> (r: Result<
        String,
        AgentSyncError,
    >)
        ensures
            r matches Ok(s) && s@ == spec_project_to_tool(self.spec_tool(), rule@),
    {
        match self {
            AnyProcessor::Cursor(p) => p.convert_from_agentsync(rule),
            AnyProcessor::Copilot(p) => p.convert_from_agentsync(rule),
            AnyProcessor::Windsurf(p) => p.convert_from_agentsync(rule),
        }
    }

    /// Parses a serialized file of this processor's tool and infers the
    /// canonical rule it denotes.
    pub fn convert_to_agentsync(&self, content: &str, path: &str) -> (r: Result<
        Rule<AgentSyncRule>,
        AgentSyncError,
    >)
        ensures
            match spec_tool_doc_to_agentsync(self.spec_tool(), content@) {
                Some((f, b)) => r matches Ok(rule) && rule@.frontmatter == f && rule@.content == b,
                None => r is Err,
            },
    {
        match self {
            AnyProcessor::Cursor(p) => p.convert_to_agentsync(content, path),
            AnyProcessor::Copilot(p) => p.convert_to_agentsync(content, path),
            AnyProcessor::Windsurf(p) => p.convert_to_agentsync(content, path),
        }
    }
}

/// The processor serving one tool.  The canonical store has no processor:
/// it is the format the processors convert to and from.
pub fn get_processor(tool: Tool) -> (r: AnyProcessor)
    requires
        tool != Tool::AgentSync,
    ensures
        r.spec_tool() == tool,
{
    match tool {
        Tool::Cursor => AnyProcessor::Cursor(CursorProcessor),
        Tool::Copilot => AnyProcessor::Copilot(CopilotProcessor),
        Tool::Windsurf => AnyProcessor::Windsurf(WindsurfProcessor),
        Tool::AgentSync => AnyProcessor::Cursor(CursorProcessor),
    }
}

} // verus!
