//! The sync diff engine: walks the discovered rule files of one side,
//! converts each to the other side's format, compares against what is on
//! disk, and classifies every rule-file pair as added, updated, skipped or
//! errored.
//!
//! The engine is pure: the caller hands it a snapshot of the discovered
//! source files and of the existing destination files, and receives the
//! outcome report together with the exact writes to perform.  One bad file
//! never aborts a run — its error is recorded and the pass continues.

use vstd::prelude::*;

use crate::error::{
    AgentSyncError, msg_frontmatter_parse, msg_invalid_tool, msg_path_traversal,
};
use crate::fs::{Tool, rule_path, spec_rule_path, spec_tool_of_name, extract_rule_name,
    spec_extract_rule_name};
use crate::models::{AgentSyncRule, AgentSyncRuleV, Rule, RuleV};
use crate::parser::{
    parse_frontmatter, serialize_frontmatter, spec_parse_doc, spec_split_failed_on_opening,
};
use crate::processor::{get_processor, spec_project_to_tool, spec_tool_doc_to_agentsync};
use crate::security;
use crate::text;

verus! {

/// Options for one sync run: `dry_run` suppresses writes, `verbose` asks
/// the caller for per-item reporting.  Neither changes how an item is
/// classified.
#[derive(Debug, Clone, Default)]
pub struct SyncOptions {
    pub dry_run: bool,
    pub verbose: bool,
}

/// Ghost view of [`SyncResult`].
#[verifier::ext_equal]
pub struct SyncResultV {
    pub added: Seq<Seq<char>>,
    pub updated: Seq<Seq<char>>,
    pub skipped: Seq<Seq<char>>,
    pub errors: Seq<(Seq<char>, Seq<char>)>,
}

/// The outcome of one sync run: which rules were added, updated or
/// skipped, and which failed, with their messages.  Never persisted — a
/// pure return value for reporting.
#[derive(Debug, Clone, Default)]
pub struct SyncResult {
    pub added: Vec<String>,
    pub updated: Vec<String>,
    pub skipped: Vec<String>,
    /// Rule name and error message of each failed item.
    pub errors: Vec<(String, String)>,
}

impl View for SyncResult {
    type V = SyncResultV;

    open spec fn view(&self) -> SyncResultV {
        SyncResultV {
            added: self.added.deep_view(),
            updated: self.updated.deep_view(),
            skipped: self.skipped.deep_view(),
            errors: self.errors.deep_view(),
        }
    }
}

impl SyncResult {
    /// An outcome with nothing recorded yet.
    pub fn new() -> (r: SyncResult)
        ensures
            r@.added.len() == 0,
            r@.updated.len() == 0,
            r@.skipped.len() == 0,
            r@.errors.len() == 0,
    {
        let r = SyncResult {
            added: Vec::new(),
            updated: Vec::new(),
            skipped: Vec::new(),
            errors: Vec::new(),
        };
        proof {
            assert(r@.added =~= Seq::<Seq<char>>::empty());
            assert(r@.updated =~= Seq::<Seq<char>>::empty());
            assert(r@.skipped =~= Seq::<Seq<char>>::empty());
            assert(r@.errors =~= Seq::<(Seq<char>, Seq<char>)>::empty());
        }
        r
    }

    /// How many items were classified, errors aside.
    pub fn total_processed(&self) -> (r: usize)
        requires
            self@.added.len() + self@.updated.len() + self@.skipped.len() <= usize::MAX,
        ensures
            r == self@.added.len() + self@.updated.len() + self@.skipped.len(),
    {
        self.added.len() + self.updated.len() + self.skipped.len()
    }

    /// Whether the run added or updated anything.
    pub fn has_changes(&self) -> (r: bool)
        ensures
            r == (self@.added.len() > 0 || self@.updated.len() > 0),
    {
        self.added.len() > 0 || self.updated.len() > 0
    }

    /// Whether any item failed.
    pub fn has_errors(&self) -> (r: bool)
        ensures
            r == (self@.errors.len() > 0),
    {
        self.errors.len() > 0
    }
}

/// Ghost view of [`RuleFile`].
#[verifier::ext_equal]
pub struct RuleFileV {
    pub path: Seq<char>,
    pub text: Seq<char>,
}

/// One file of a snapshot: its path and its full text.  The caller reads
/// the files; the engine never touches the filesystem.
#[derive(Debug, Clone)]
pub struct RuleFile {
    pub path: String,
    pub text: String,
}

impl View for RuleFile {
    type V = RuleFileV;

    open spec fn view(&self) -> RuleFileV {
        RuleFileV { path: self.path@, text: self.text@ }
    }
}

impl DeepView for RuleFile {
    type V = RuleFileV;

    open spec fn deep_view(&self) -> RuleFileV {
        self.view()
    }
}

/// The text of the first snapshot file at `path`, if any.
pub open spec fn spec_lookup(files: Seq<RuleFileV>, path: Seq<char>) -> Option<Seq<char>>
    decreases files.len(),
{
    if files.len() == 0 {
        None
    } else if files[0].path == path {
        Some(files[0].text)
    } else {
        spec_lookup(files.drop_first(), path)
    }
}

/// The text of the first snapshot file at `path`, if any.
fn lookup_file(files: &Vec<RuleFile>, path: &str) -> (r: Option<String>)
    ensures
        match r {
            Some(t) => spec_lookup(files.deep_view(), path@) == Some(t@),
            None => spec_lookup(files.deep_view(), path@) is None,
        },
{
    let ghost fv = files.deep_view();
    let mut i: usize = 0;
    proof {
        assert(fv.skip(0) =~= fv);
    }
    while i < files.len()
        invariant
            0 <= i <= files.len(),
            fv == files.deep_view(),
            spec_lookup(fv, path@) == spec_lookup(fv.skip(i as int), path@),
        decreases files.len() - i,
    {
        proof {
            assert(fv.skip(i as int)[0] == fv[i as int]);
            assert(fv.skip(i as int).drop_first() =~= fv.skip(i + 1));
        }
        if text::str_eq(files[i].path.as_str(), path) {
            return Some(files[i].text.clone());
        }
        i = i + 1;
    }
    proof {
        assert(fv.skip(files.len() as int) =~= Seq::<RuleFileV>::empty());
    }
    None
}

/// The engine's running state: the outcome so far and the writes planned
/// so far.
#[verifier::ext_equal]
pub struct EngineV {
    pub res: SyncResultV,
    pub writes: Seq<RuleFileV>,
}

/// The state with one more error recorded.
pub open spec fn spec_push_error(st: EngineV, name: Seq<char>, msg: Seq<char>) -> EngineV {
    EngineV {
        res: SyncResultV { errors: st.res.errors.push((name, msg)), ..st.res },
        writes: st.writes,
    }
}

/// The message recorded when a document's header does not parse.
pub open spec fn spec_parse_failure_msg(path: Seq<char>, doc: Seq<char>) -> Seq<char> {
    msg_frontmatter_parse(
        path,
        if spec_split_failed_on_opening(doc) {
            "Missing opening '---' delimiter"@
        } else {
            "Missing closing '---' delimiter"@
        },
    )
}

/// The label an item carries in the outcome lists: `name (tool)`.
pub open spec fn spec_full_name(name: Seq<char>, tool_name: Seq<char>) -> Seq<char> {
    name + " ("@ + tool_name + ")"@
}

fn full_name(name: &str, tool_name: &str) -> (r: String)
    ensures
        r@ == spec_full_name(name@, tool_name@),
{
    let mut m = name.to_owned();
    m.append(" (");
    m.append(tool_name);
    m.append(")");
    m
}

/// One canonical rule projected onto one enabled tool: skipped silently
/// when the rule does not target the tool; an unknown tool name or an
/// unsafe rule name is recorded as an error; otherwise the projected file
/// is classified against the snapshot — absent: added, identical: skipped,
/// different: updated — and, when not identical, planned as a write.
pub open spec fn spec_sync_rule_to_tool(
    st: EngineV,
    root: Seq<char>,
    name: Seq<char>,
    frontmatter: AgentSyncRuleV,
    body: Seq<char>,
    tool_name: Seq<char>,
    existing: Seq<RuleFileV>,
) -> EngineV {
    let targeted = frontmatter.targets.contains("*"@) || frontmatter.targets.contains(tool_name);
    if !targeted {
        st
    } else {
        match spec_tool_of_name(tool_name) {
            None => spec_push_error(st, name, "Invalid tool: "@ + msg_invalid_tool(tool_name)),
            Some(tool) => {
                if tool == Tool::AgentSync {
                    st
                } else if !security::relative_path_ok(name) {
                    spec_push_error(
                        st,
                        spec_full_name(name, tool_name),
                        msg_path_traversal("."@, name),
                    )
                } else {
                    let path = spec_rule_path(root, tool, name);
                    let content = spec_project_to_tool(
                        tool,
                        RuleV { frontmatter, content: body },
                    );
                    let label = spec_full_name(name, tool_name);
                    match spec_lookup(existing, path) {
                        None => EngineV {
                            res: SyncResultV { added: st.res.added.push(label), ..st.res },
                            writes: st.writes.push(RuleFileV { path, text: content }),
                        },
                        Some(c) => if c == content {
                            EngineV {
                                res: SyncResultV {
                                    skipped: st.res.skipped.push(label),
                                    ..st.res
                                },
                                writes: st.writes,
                            }
                        } else {
                            EngineV {
                                res: SyncResultV {
                                    updated: st.res.updated.push(label),
                                    ..st.res
                                },
                                writes: st.writes.push(RuleFileV { path, text: content }),
                            }
                        },
                    }
                }
            },
        }
    }
}

/// One canonical rule projected onto every enabled tool in turn.
pub open spec fn spec_sync_rule_tools(
    st: EngineV,
    root: Seq<char>,
    name: Seq<char>,
    frontmatter: AgentSyncRuleV,
    body: Seq<char>,
    tools: Seq<Seq<char>>,
    existing: Seq<RuleFileV>,
) -> EngineV
    decreases tools.len(),
{
    if tools.len() == 0 {
        st
    } else {
        spec_sync_rule_tools(
            spec_sync_rule_to_tool(st, root, name, frontmatter, body, tools[0], existing),
            root,
            name,
            frontmatter,
            body,
            tools.drop_first(),
            existing,
        )
    }
}

/// One discovered canonical rule file processed: a file without a rule
/// name or with an unparseable header contributes one error; any other
/// file is projected onto every enabled tool.
pub open spec fn spec_sync_source(
    st: EngineV,
    root: Seq<char>,
    tools: Seq<Seq<char>>,
    src: RuleFileV,
    existing: Seq<RuleFileV>,
) -> EngineV {
    match spec_extract_rule_name(src.path) {
        None => spec_push_error(st, src.path, "Invalid rule name"@),
        Some(name) => match spec_parse_doc::<AgentSyncRule>(src.text) {
            None => spec_push_error(st, name, spec_parse_failure_msg(src.path, src.text)),
            Some((frontmatter, body)) => spec_sync_rule_tools(
                st,
                root,
                name,
                frontmatter,
                body,
                tools,
                existing,
            ),
        },
    }
}

/// Every discovered canonical rule file processed in turn.
pub open spec fn spec_run_sources(
    st: EngineV,
    root: Seq<char>,
    tools: Seq<Seq<char>>,
    sources: Seq<RuleFileV>,
    existing: Seq<RuleFileV>,
) -> EngineV
    decreases sources.len(),
{
    if sources.len() == 0 {
        st
    } else {
        spec_run_sources(
            spec_sync_source(st, root, tools, sources[0], existing),
            root,
            tools,
            sources.drop_first(),
            existing,
        )
    }
}

/// The engine's empty starting state.
pub open spec fn spec_engine_empty() -> EngineV {
    EngineV {
        res: SyncResultV {
            added: Seq::empty(),
            updated: Seq::empty(),
            skipped: Seq::empty(),
            errors: Seq::empty(),
        },
        writes: Seq::empty(),
    }
}

/// The outcome and writes of one canonical-to-tools pass over the given
/// snapshots.
pub open spec fn spec_sync_to_tools(
    root: Seq<char>,
    tools: Seq<Seq<char>>,
    sources: Seq<RuleFileV>,
    existing: Seq<RuleFileV>,
) -> EngineV {
    spec_run_sources(spec_engine_empty(), root, tools, sources, existing)
}

/// Synchronizes the canonical rules onto the enabled tools: for every
/// discovered canonical rule file and every enabled tool the rule targets,
/// the projected tool file is classified against the `existing` snapshot
/// as added, updated or skipped, and planned as a write when it differs.
/// A file with an invalid name or an unparseable header is recorded as one
/// error and never aborts the pass.  The caller performs the returned
/// writes — atomically, and only outside dry-run mode.
pub fn sync_to_tools(
    project_root: &str,
    enabled_tools: &Vec<String>,
    sources: &Vec<RuleFile>,
    existing: &Vec<RuleFile>,
    options: &SyncOptions,
) -> (r: (SyncResult, Vec<RuleFile>))
    ensures
        ({
            let e = spec_sync_to_tools(
                project_root@,
                enabled_tools.deep_view(),
                sources.deep_view(),
                existing.deep_view(),
            );
            r.0@ == e.res && r.1.deep_view() == e.writes
        }),
{
    let ghost root_v = project_root@;
    let ghost tools_v = enabled_tools.deep_view();
    let ghost sources_v = sources.deep_view();
    let ghost existing_v = existing.deep_view();
    let ghost goal = spec_sync_to_tools(root_v, tools_v, sources_v, existing_v);

    let mut result = SyncResult::new();
    let mut writes: Vec<RuleFile> = Vec::new();

    let mut i: usize = 0;
    proof {
        assert(result@.added =~= spec_engine_empty().res.added);
        assert(result@.updated =~= spec_engine_empty().res.updated);
        assert(result@.skipped =~= spec_engine_empty().res.skipped);
        assert(result@.errors =~= spec_engine_empty().res.errors);
        assert(writes.deep_view() =~= spec_engine_empty().writes);
        assert(sources_v.skip(0) =~= sources_v);
        assert(result@ =~= spec_engine_empty().res);
        assert(EngineV { res: result@, writes: writes.deep_view() } =~= spec_engine_empty());
    }
    while i < sources.len()
        invariant
            0 <= i <= sources.len(),
            root_v == project_root@,
            tools_v == enabled_tools.deep_view(),
            sources_v == sources.deep_view(),
            existing_v == existing.deep_view(),
            (goal == spec_run_sources(
                EngineV { res: result@, writes: writes.deep_view() },
                root_v,
                tools_v,
                sources_v.skip(i as int),
                existing_v,
            )),
        decreases sources.len() - i,
    {
        let ghost st_before = EngineV { res: result@, writes: writes.deep_view() };
        proof {
            assert(sources_v.skip(i as int)[0] == sources_v[i as int]);
            assert(sources_v.skip(i as int).drop_first() =~= sources_v.skip(i + 1));
        }
        let src = &sources[i];
        sync_one_source(project_root, enabled_tools, src, existing, &mut result, &mut writes);
        proof {
            assert(EngineV { res: result@, writes: writes.deep_view() } == spec_sync_source(
                st_before,
                root_v,
                tools_v,
                sources_v[i as int],
                existing_v,
            ));
        }
        i = i + 1;
    }
    proof {
        assert(sources_v.skip(sources.len() as int) =~= Seq::<RuleFileV>::empty());
    }
    (result, writes)
}

/// Processes one discovered canonical rule file for every enabled tool.
fn sync_one_source(
    project_root: &str,
    enabled_tools: &Vec<String>,
    src: &RuleFile,
    existing: &Vec<RuleFile>,
    result: &mut SyncResult,
    writes: &mut Vec<RuleFile>,
)
    ensures
        (EngineV { res: final(result)@, writes: final(writes).deep_view() } == spec_sync_source(
            EngineV { res: old(result)@, writes: old(writes).deep_view() },
            project_root@,
            enabled_tools.deep_view(),
            src@,
            existing.deep_view(),
        )),
{
    let ghost st0 = EngineV { res: result@, writes: writes.deep_view() };
    let name = match extract_rule_name(src.path.as_str()) {
        Some(n) => n,
        None => {
            result.errors.push((src.path.clone(), String::from_str("Invalid rule name")));
            proof {
                assert(result@.errors =~= st0.res.errors.push((src@.path, "Invalid rule name"@)));
                assert(result@ =~= spec_push_error(st0, src@.path, "Invalid rule name"@).res);
            }
            return ;
        },
    };
    let rule = match parse_frontmatter::<AgentSyncRule>(src.text.as_str(), Some(
        src.path.as_str(),
    )) {
        Ok(r) => r,
        Err(_) => {
            let msg = parse_failure_message(src);
            result.errors.push((name, msg));
            proof {
                assert(result@.errors =~= st0.res.errors.push(
                    (
                        spec_extract_rule_name(src@.path)->0,
                        spec_parse_failure_msg(src@.path, src@.text),
                    ),
                ));
                assert(result@ =~= spec_push_error(
                    st0,
                    spec_extract_rule_name(src@.path)->0,
                    spec_parse_failure_msg(src@.path, src@.text),
                ).res);
            }
            return ;
        },
    };
    let ghost tools_v = enabled_tools.deep_view();
    let ghost fm_v = rule@.frontmatter;
    let ghost body_v = rule@.content;
    let ghost name_v = name@;
    let mut j: usize = 0;
    proof {
        assert(tools_v.skip(0) =~= tools_v);
    }
    while j < enabled_tools.len()
        invariant
            0 <= j <= enabled_tools.len(),
            tools_v == enabled_tools.deep_view(),
            fm_v == rule@.frontmatter,
            body_v == rule@.content,
            name_v == name@,
            (spec_sync_rule_tools(
                EngineV { res: result@, writes: writes.deep_view() },
                project_root@,
                name_v,
                fm_v,
                body_v,
                tools_v.skip(j as int),
                existing.deep_view(),
            ) == spec_sync_rule_tools(
                st0,
                project_root@,
                name_v,
                fm_v,
                body_v,
                tools_v,
                existing.deep_view(),
            )),
        decreases enabled_tools.len() - j,
    {
        proof {
            assert(tools_v.skip(j as int)[0] == tools_v[j as int]);
            assert(tools_v.skip(j as int).drop_first() =~= tools_v.skip(j + 1));
        }
        sync_rule_to_tool(
            project_root,
            &name,
            &rule,
            enabled_tools[j].as_str(),
            existing,
            result,
            writes,
        );
        j = j + 1;
    }
    proof {
        assert(tools_v.skip(enabled_tools.len() as int) =~= Seq::<Seq<char>>::empty());
    }
}

/// Whether the rule's target list names the tool or the `*` wildcard.
fn is_targeted(targets: &Vec<String>, tool_name: &str) -> (r: bool)
    ensures
        r == (targets.deep_view().contains("*"@) || targets.deep_view().contains(tool_name@)),
{
    let ghost tv = targets.deep_view();
    let mut i: usize = 0;
    while i < targets.len()
        invariant
            0 <= i <= targets.len(),
            tv == targets.deep_view(),
            forall|k: int| 0 <= k < i ==> tv[k] != "*"@ && tv[k] != tool_name@,
        decreases targets.len() - i,
    {
        if text::str_eq(targets[i].as_str(), "*") || text::str_eq(targets[i].as_str(), tool_name) {
            proof {
                assert(tv[i as int] == "*"@ || tv[i as int] == tool_name@);
            }
            return true;
        }
        i = i + 1;
    }
    proof {
        if tv.contains("*"@) {
            let k = choose|k: int| 0 <= k < tv.len() && tv[k] == "*"@;
            assert(false);
        }
        if tv.contains(tool_name@) {
            let k = choose|k: int| 0 <= k < tv.len() && tv[k] == tool_name@;
            assert(false);
        }
    }
    false
}

/// Projects one canonical rule onto one enabled tool and classifies the
/// outcome against the snapshot.
fn sync_rule_to_tool(
    project_root: &str,
    rule_name: &String,
    agentsync_rule: &Rule<AgentSyncRule>,
    tool_name: &str,
    existing: &Vec<RuleFile>,
    result: &mut SyncResult,
    writes: &mut Vec<RuleFile>,
)
    ensures
        (EngineV { res: final(result)@, writes: final(writes).deep_view() }
            == spec_sync_rule_to_tool(
            EngineV { res: old(result)@, writes: old(writes).deep_view() },
            project_root@,
            rule_name@,
            agentsync_rule@.frontmatter,
            agentsync_rule@.content,
            tool_name@,
            existing.deep_view(),
        )),
{
    let ghost st0 = EngineV { res: result@, writes: writes.deep_view() };
    if !is_targeted(&agentsync_rule.frontmatter.targets, tool_name) {
        return ;
    }
    let tool = match Tool::from_name(tool_name) {
        Ok(t) => t,
        Err(e) => {
            let mut msg = String::from_str("Invalid tool: ");
            let detail = e.message();
            msg.append(detail.as_str());
            result.errors.push((rule_name.clone(), msg));
            proof {
                assert(result@.errors =~= st0.res.errors.push(
                    (rule_name@, "Invalid tool: "@ + msg_invalid_tool(tool_name@)),
                ));
                assert(result@ =~= spec_push_error(
                    st0,
                    rule_name@,
                    "Invalid tool: "@ + msg_invalid_tool(tool_name@),
                ).res);
            }
            return ;
        },
    };
    match tool {
        Tool::AgentSync => {
            // the canonical store is the source side, never a destination
            return ;
        },
        _ => {},
    }
    let tool_path = match rule_path(project_root, tool, rule_name.as_str()) {
        Ok(p) => p,
        Err(e) => {
            let label = full_name(rule_name.as_str(), tool_name);
            let msg = e.message();
            result.errors.push((label, msg));
            proof {
                assert(result@.errors =~= st0.res.errors.push(
                    (
                        spec_full_name(rule_name@, tool_name@),
                        msg_path_traversal("."@, rule_name@),
                    ),
                ));
                assert(result@ =~= spec_push_error(
                    st0,
                    spec_full_name(rule_name@, tool_name@),
                    msg_path_traversal("."@, rule_name@),
                ).res);
            }
            return ;
        },
    };
    let processor = get_processor(tool);
    let tool_content = match processor.convert_from_agentsync(agentsync_rule) {
        Ok(c) => c,
        Err(_) => {
            // the projection is total; this arm is unreachable
            return ;
        },
    };
    let label = full_name(rule_name.as_str(), tool_name);
    match lookup_file(existing, tool_path.as_str()) {
        None => {
            result.added.push(label);
            writes.push(RuleFile { path: tool_path, text: tool_content });
            proof {
                assert(result@.added =~= st0.res.added.push(
                    spec_full_name(rule_name@, tool_name@),
                ));
                assert(result@ =~= spec_sync_rule_to_tool(
                    st0,
                    project_root@,
                    rule_name@,
                    agentsync_rule@.frontmatter,
                    agentsync_rule@.content,
                    tool_name@,
                    existing.deep_view(),
                ).res);
                assert(writes.deep_view() =~= spec_sync_rule_to_tool(
                    st0,
                    project_root@,
                    rule_name@,
                    agentsync_rule@.frontmatter,
                    agentsync_rule@.content,
                    tool_name@,
                    existing.deep_view(),
                ).writes);
            }
        },
        Some(existing_content) => {
            if existing_content.eq(&tool_content) {
                result.skipped.push(label);
                proof {
                    assert(result@.skipped =~= st0.res.skipped.push(
                        spec_full_name(rule_name@, tool_name@),
                    ));
                    assert(result@ =~= spec_sync_rule_to_tool(
                        st0,
                        project_root@,
                        rule_name@,
                        agentsync_rule@.frontmatter,
                        agentsync_rule@.content,
                        tool_name@,
                        existing.deep_view(),
                    ).res);
                }
            } else {
                result.updated.push(label);
                writes.push(RuleFile { path: tool_path, text: tool_content });
                proof {
                    assert(result@.updated =~= st0.res.updated.push(
                        spec_full_name(rule_name@, tool_name@),
                    ));
                    assert(result@ =~= spec_sync_rule_to_tool(
                        st0,
                        project_root@,
                        rule_name@,
                        agentsync_rule@.frontmatter,
                        agentsync_rule@.content,
                        tool_name@,
                        existing.deep_view(),
                    ).res);
                    assert(writes.deep_view() =~= spec_sync_rule_to_tool(
                        st0,
                        project_root@,
                        rule_name@,
                        agentsync_rule@.frontmatter,
                        agentsync_rule@.content,
                        tool_name@,
                        existing.deep_view(),
                    ).writes);
                }
            }
        },
    }
}

/// One discovered tool rule file imported into the canonical store: a file
/// without a rule name, with an unparseable header, or with an unsafe name
/// contributes one error; otherwise the inferred canonical file is
/// classified against the snapshot and planned as a write when it differs.
pub open spec fn spec_import_source(
    st: EngineV,
    root: Seq<char>,
    tool: Tool,
    src: RuleFileV,
    existing: Seq<RuleFileV>,
) -> EngineV {
    match spec_extract_rule_name(src.path) {
        None => spec_push_error(st, src.path, "Invalid rule name"@),
        Some(name) => match spec_tool_doc_to_agentsync(tool, src.text) {
            None => spec_push_error(st, name, spec_parse_failure_msg(src.path, src.text)),
            Some((frontmatter, body)) => {
                if !security::relative_path_ok(name) {
                    spec_push_error(st, name, msg_path_traversal("."@, name))
                } else {
                    let path = spec_rule_path(root, Tool::AgentSync, name);
                    let content = spec_project_to_tool(
                        Tool::AgentSync,
                        RuleV { frontmatter, content: body },
                    );
                    match spec_lookup(existing, path) {
                        None => EngineV {
                            res: SyncResultV { added: st.res.added.push(name), ..st.res },
                            writes: st.writes.push(RuleFileV { path, text: content }),
                        },
                        Some(c) => if c == content {
                            EngineV {
                                res: SyncResultV { skipped: st.res.skipped.push(name), ..st.res },
                                writes: st.writes,
                            }
                        } else {
                            EngineV {
                                res: SyncResultV { updated: st.res.updated.push(name), ..st.res },
                                writes: st.writes.push(RuleFileV { path, text: content }),
                            }
                        },
                    }
                }
            },
        },
    }
}

/// Every discovered tool rule file imported in turn.
pub open spec fn spec_run_imports(
    st: EngineV,
    root: Seq<char>,
    tool: Tool,
    sources: Seq<RuleFileV>,
    existing: Seq<RuleFileV>,
) -> EngineV
    decreases sources.len(),
{
    if sources.len() == 0 {
        st
    } else {
        spec_run_imports(
            spec_import_source(st, root, tool, sources[0], existing),
            root,
            tool,
            sources.drop_first(),
            existing,
        )
    }
}

/// The outcome and writes of one tool-to-canonical pass over the given
/// snapshots.
pub open spec fn spec_sync_from_tool(
    root: Seq<char>,
    tool: Tool,
    sources: Seq<RuleFileV>,
    existing: Seq<RuleFileV>,
) -> EngineV {
    spec_run_imports(spec_engine_empty(), root, tool, sources, existing)
}

/// Synchronizes one tool's rules back into the canonical store: each
/// discovered tool rule file is parsed, its canonical form inferred and
/// serialized, and the result classified against the `existing` snapshot
/// as added, updated or skipped, planned as a write when it differs.  One
/// bad file contributes one error and never aborts the pass.  Importing
/// from the canonical store into itself is refused.
pub fn sync_from_tool(
    project_root: &str,
    tool: Tool,
    sources: &Vec<RuleFile>,
    existing: &Vec<RuleFile>,
    options: &SyncOptions,
) -> (r: Result<(SyncResult, Vec<RuleFile>), AgentSyncError>)
    ensures
        tool == Tool::AgentSync ==> (r matches Err(AgentSyncError::Other(m)) && m@
            == "Cannot sync from AgentSync to AgentSync"@),
        tool != Tool::AgentSync ==> ({
            let e = spec_sync_from_tool(
                project_root@,
                tool,
                sources.deep_view(),
                existing.deep_view(),
            );
            r matches Ok(p) && p.0@ == e.res && p.1.deep_view() == e.writes
        }),
{
    match tool {
        Tool::AgentSync => {
            return Err(
                AgentSyncError::Other(String::from_str("Cannot sync from AgentSync to AgentSync")),
            );
        },
        _ => {},
    }
    let ghost root_v = project_root@;
    let ghost sources_v = sources.deep_view();
    let ghost existing_v = existing.deep_view();
    let ghost goal = spec_sync_from_tool(root_v, tool, sources_v, existing_v);

    let mut result = SyncResult::new();
    let mut writes: Vec<RuleFile> = Vec::new();

    let mut i: usize = 0;
    proof {
        assert(result@.added =~= spec_engine_empty().res.added);
        assert(result@.updated =~= spec_engine_empty().res.updated);
        assert(result@.skipped =~= spec_engine_empty().res.skipped);
        assert(result@.errors =~= spec_engine_empty().res.errors);
        assert(writes.deep_view() =~= spec_engine_empty().writes);
        assert(sources_v.skip(0) =~= sources_v);
        assert(result@ =~= spec_engine_empty().res);
        assert(EngineV { res: result@, writes: writes.deep_view() } =~= spec_engine_empty());
    }
    while i < sources.len()
        invariant
            0 <= i <= sources.len(),
            tool != Tool::AgentSync,
            root_v == project_root@,
            sources_v == sources.deep_view(),
            existing_v == existing.deep_view(),
            (goal == spec_run_imports(
                EngineV { res: result@, writes: writes.deep_view() },
                root_v,
                tool,
                sources_v.skip(i as int),
                existing_v,
            )),
        decreases sources.len() - i,
    {
        let ghost st_before = EngineV { res: result@, writes: writes.deep_view() };
        proof {
            assert(sources_v.skip(i as int)[0] == sources_v[i as int]);
            assert(sources_v.skip(i as int).drop_first() =~= sources_v.skip(i + 1));
        }
        import_one_source(project_root, tool, &sources[i], existing, &mut result, &mut writes);
        proof {
            assert(EngineV { res: result@, writes: writes.deep_view() } == spec_import_source(
                st_before,
                root_v,
                tool,
                sources_v[i as int],
                existing_v,
            ));
        }
        i = i + 1;
    }
    proof {
        assert(sources_v.skip(sources.len() as int) =~= Seq::<RuleFileV>::empty());
    }
    Ok((result, writes))
}

/// Imports one discovered tool rule file into the canonical store.
fn import_one_source(
    project_root: &str,
    tool: Tool,
    src: &RuleFile,
    existing: &Vec<RuleFile>,
    result: &mut SyncResult,
    writes: &mut Vec<RuleFile>,
)
    requires
        tool != Tool::AgentSync,
    ensures
        (EngineV { res: final(result)@, writes: final(writes).deep_view() } == spec_import_source(
            EngineV { res: old(result)@, writes: old(writes).deep_view() },
            project_root@,
            tool,
            src@,
            existing.deep_view(),
        )),
{
    let ghost st0 = EngineV { res: result@, writes: writes.deep_view() };
    let name = match extract_rule_name(src.path.as_str()) {
        Some(n) => n,
        None => {
            result.errors.push((src.path.clone(), String::from_str("Invalid rule name")));
            proof {
                assert(result@.errors =~= st0.res.errors.push((src@.path, "Invalid rule name"@)));
                assert(result@ =~= spec_push_error(st0, src@.path, "Invalid rule name"@).res);
            }
            return ;
        },
    };
    let processor = get_processor(tool);
    let agentsync_rule = match processor.convert_to_agentsync(
        src.text.as_str(),
        src.path.as_str(),
    ) {
        Ok(r) => r,
        Err(_) => {
            let msg = parse_failure_message(src);
            result.errors.push((name, msg));
            proof {
                assert(result@.errors =~= st0.res.errors.push(
                    (
                        spec_extract_rule_name(src@.path)->0,
                        spec_parse_failure_msg(src@.path, src@.text),
                    ),
                ));
                assert(result@ =~= spec_push_error(
                    st0,
                    spec_extract_rule_name(src@.path)->0,
                    spec_parse_failure_msg(src@.path, src@.text),
                ).res);
            }
            return ;
        },
    };
    let agentsync_path = match rule_path(project_root, Tool::AgentSync, name.as_str()) {
        Ok(p) => p,
        Err(e) => {
            let msg = e.message();
            result.errors.push((name, msg));
            proof {
                assert(result@.errors =~= st0.res.errors.push(
                    (
                        spec_extract_rule_name(src@.path)->0,
                        msg_path_traversal("."@, spec_extract_rule_name(src@.path)->0),
                    ),
                ));
                assert(result@ =~= spec_push_error(
                    st0,
                    spec_extract_rule_name(src@.path)->0,
                    msg_path_traversal("."@, spec_extract_rule_name(src@.path)->0),
                ).res);
            }
            return ;
        },
    };
    let agentsync_content = match serialize_frontmatter(&agentsync_rule) {
        Ok(c) => c,
        Err(_) => {
            // serialization is total; this arm is unreachable
            return ;
        },
    };
    match lookup_file(existing, agentsync_path.as_str()) {
        None => {
            result.added.push(name);
            writes.push(RuleFile { path: agentsync_path, text: agentsync_content });
            proof {
                assert(result@.added =~= st0.res.added.push(spec_extract_rule_name(src@.path)->0));
                assert(result@ =~= spec_import_source(
                    st0,
                    project_root@,
                    tool,
                    src@,
                    existing.deep_view(),
                ).res);
                assert(writes.deep_view() =~= spec_import_source(
                    st0,
                    project_root@,
                    tool,
                    src@,
                    existing.deep_view(),
                ).writes);
            }
        },
        Some(existing_content) => {
            if existing_content.eq(&agentsync_content) {
                result.skipped.push(name);
                proof {
                    assert(result@.skipped =~= st0.res.skipped.push(
                        spec_extract_rule_name(src@.path)->0,
                    ));
                    assert(result@ =~= spec_import_source(
                        st0,
                        project_root@,
                        tool,
                        src@,
                        existing.deep_view(),
                    ).res);
                }
            } else {
                result.updated.push(name);
                writes.push(RuleFile { path: agentsync_path, text: agentsync_content });
                proof {
                    assert(result@.updated =~= st0.res.updated.push(
                        spec_extract_rule_name(src@.path)->0,
                    ));
                    assert(result@ =~= spec_import_source(
                        st0,
                        project_root@,
                        tool,
                        src@,
                        existing.deep_view(),
                    ).res);
                    assert(writes.deep_view() =~= spec_import_source(
                        st0,
                        project_root@,
                        tool,
                        src@,
                        existing.deep_view(),
                    ).writes);
                }
            }
        },
    }
}

/// The message recorded for a tool rule file whose header does not parse.
fn parse_failure_message(src: &RuleFile) -> (r: String)
    ensures
        r@ == spec_parse_failure_msg(src@.path, src@.text),
{
    let mut m = String::from_str("Invalid frontmatter in ");
    m.append(src.path.as_str());
    m.append(": ");
    proof {
        reveal_strlit("---");
    }
    let t = text::trim_start(src.text.as_str());
    if !text::starts_with(t, "---") {
        m.append("Missing opening '---' delimiter");
    } else {
        m.append("Missing closing '---' delimiter");
    }
    m
}

/// The destination file one (source, tool) pair projects to — its path and
/// content — or `None` when the pair is skipped or errored: no rule name,
/// an unparseable header, a tool the rule does not target, an unknown tool
/// name, the canonical store itself, or an unsafe name.
pub open spec fn spec_pair_projection(
    root: Seq<char>,
    src: RuleFileV,
    tool_name: Seq<char>,
) -> Option<RuleFileV> {
    match spec_extract_rule_name(src.path) {
        None => None,
        Some(name) => match spec_parse_doc::<AgentSyncRule>(src.text) {
            None => None,
            Some((frontmatter, body)) => {
                let targeted = frontmatter.targets.contains("*"@) || frontmatter.targets.contains(
                    tool_name,
                );
                if !targeted {
                    None
                } else {
                    match spec_tool_of_name(tool_name) {
                        None => None,
                        Some(tool) => if tool == Tool::AgentSync || !security::relative_path_ok(
                            name,
                        ) {
                            None
                        } else {
                            Some(
                                RuleFileV {
                                    path: spec_rule_path(root, tool, name),
                                    text: spec_project_to_tool(
                                        tool,
                                        RuleV { frontmatter, content: body },
                                    ),
                                },
                            )
                        },
                    }
                }
            },
        },
    }
}

proof fn lemma_rule_tools_all_on_disk(
    st: EngineV,
    root: Seq<char>,
    src: RuleFileV,
    tools: Seq<Seq<char>>,
    existing: Seq<RuleFileV>,
)
    requires
        spec_extract_rule_name(src.path) is Some,
        spec_parse_doc::<AgentSyncRule>(src.text) is Some,
        forall|j: int|
            0 <= j < tools.len() ==> (match #[trigger] spec_pair_projection(
                root,
                src,
                tools[j],
            ) {
                Some(w) => spec_lookup(existing, w.path) == Some(w.text),
                None => true,
            }),
    ensures
        ({
            let name = spec_extract_rule_name(src.path)->0;
            let pair = spec_parse_doc::<AgentSyncRule>(src.text)->0;
            let e = spec_sync_rule_tools(st, root, name, pair.0, pair.1, tools, existing);
            e.res.added == st.res.added && e.res.updated == st.res.updated && e.writes
                == st.writes
        }),
    decreases tools.len(),
{
    if tools.len() > 0 {
        let name = spec_extract_rule_name(src.path)->0;
        let pair = spec_parse_doc::<AgentSyncRule>(src.text)->0;
        let fm = pair.0;
        let body = pair.1;
        let st1 = spec_sync_rule_to_tool(st, root, name, fm, body, tools[0], existing);
        assert(spec_pair_projection(root, src, tools[0]) matches Some(w) ==> spec_lookup(
            existing,
            w.path,
        ) == Some(w.text));
        assert(st1.res.added == st.res.added && st1.res.updated == st.res.updated && st1.writes
            == st.writes);
        assert(forall|j: int|
            0 <= j < tools.drop_first().len() ==> tools.drop_first()[j] == tools[j + 1]);
        lemma_rule_tools_all_on_disk(st1, root, src, tools.drop_first(), existing);
    }
}

/// Sync idempotence: a canonical-to-tools pass over a tree in which every
/// projection of every rule is already on disk with identical content — as
/// a tree is after a completed pass whose writes were performed — adds
/// nothing, updates nothing, and plans no writes; the second run only
/// skips and reports errors.
pub proof fn lemma_sync_to_tools_idempotent(
    root: Seq<char>,
    tools: Seq<Seq<char>>,
    sources: Seq<RuleFileV>,
    existing: Seq<RuleFileV>,
)
    requires
        forall|i: int, j: int|
            0 <= i < sources.len() && 0 <= j < tools.len() ==> (match #[trigger] spec_pair_projection(
                root,
                sources[i],
                tools[j],
            ) {
                Some(w) => spec_lookup(existing, w.path) == Some(w.text),
                None => true,
            }),
    ensures
        spec_sync_to_tools(root, tools, sources, existing).res.added.len() == 0,
        spec_sync_to_tools(root, tools, sources, existing).res.updated.len() == 0,
        spec_sync_to_tools(root, tools, sources, existing).writes.len() == 0,
{
    lemma_run_sources_all_on_disk(spec_engine_empty(), root, tools, sources, existing);
}

proof fn lemma_run_sources_all_on_disk(
    st: EngineV,
    root: Seq<char>,
    tools: Seq<Seq<char>>,
    sources: Seq<RuleFileV>,
    existing: Seq<RuleFileV>,
)
    requires
        forall|i: int, j: int|
            0 <= i < sources.len() && 0 <= j < tools.len() ==> (match #[trigger] spec_pair_projection(
                root,
                sources[i],
                tools[j],
            ) {
                Some(w) => spec_lookup(existing, w.path) == Some(w.text),
                None => true,
            }),
    ensures
        ({
            let e = spec_run_sources(st, root, tools, sources, existing);
            e.res.added == st.res.added && e.res.updated == st.res.updated && e.writes
                == st.writes
        }),
    decreases sources.len(),
{
    if sources.len() > 0 {
        let src = sources[0];
        let st1 = spec_sync_source(st, root, tools, src, existing);
        if spec_extract_rule_name(src.path) is Some && spec_parse_doc::<AgentSyncRule>(
            src.text,
        ) is Some {
            lemma_rule_tools_all_on_disk(st, root, src, tools, existing);
        }
        assert(st1.res.added == st.res.added && st1.res.updated == st.res.updated && st1.writes
            == st.writes);
        assert(forall|i: int|
            0 <= i < sources.drop_first().len() ==> sources.drop_first()[i] == sources[i + 1]);
        lemma_run_sources_all_on_disk(st1, root, tools, sources.drop_first(), existing);
    }
}

/// Partial-failure isolation, one half: a source file without a rule name
/// or with an unparseable header contributes exactly one error entry and
/// changes nothing else — it never aborts the pass.
pub proof fn lemma_bad_source_adds_one_error(
    st: EngineV,
    root: Seq<char>,
    tools: Seq<Seq<char>>,
    src: RuleFileV,
    existing: Seq<RuleFileV>,
)
    requires
        spec_extract_rule_name(src.path) is None || spec_parse_doc::<AgentSyncRule>(
            src.text,
        ) is None,
    ensures
        ({
            let e = spec_sync_source(st, root, tools, src, existing);
            e.res.errors.len() == st.res.errors.len() + 1 && e.res.added == st.res.added
                && e.res.updated == st.res.updated && e.res.skipped == st.res.skipped && e.writes
                == st.writes
        }),
{
}

/// Two engine states laid end to end: every outcome list of `b` appended
/// to the corresponding list of `a`.
pub open spec fn engine_concat(a: EngineV, b: EngineV) -> EngineV {
    EngineV {
        res: SyncResultV {
            added: a.res.added + b.res.added,
            updated: a.res.updated + b.res.updated,
            skipped: a.res.skipped + b.res.skipped,
            errors: a.res.errors + b.res.errors,
        },
        writes: a.writes + b.writes,
    }
}

proof fn lemma_step_additive(
    st: EngineV,
    root: Seq<char>,
    name: Seq<char>,
    fm: AgentSyncRuleV,
    body: Seq<char>,
    tool_name: Seq<char>,
    existing: Seq<RuleFileV>,
)
    ensures
        ({
            let e = spec_sync_rule_to_tool(st, root, name, fm, body, tool_name, existing);
            let d = spec_sync_rule_to_tool(
                spec_engine_empty(),
                root,
                name,
                fm,
                body,
                tool_name,
                existing,
            );
            e =~~= engine_concat(st, d)
        }),
{
    let e = spec_sync_rule_to_tool(st, root, name, fm, body, tool_name, existing);
    let d = spec_sync_rule_to_tool(spec_engine_empty(), root, name, fm, body, tool_name, existing);
    assert(e.res.added =~= st.res.added + d.res.added);
    assert(e.res.updated =~= st.res.updated + d.res.updated);
    assert(e.res.skipped =~= st.res.skipped + d.res.skipped);
    assert(e.res.errors =~= st.res.errors + d.res.errors);
    assert(e.writes =~= st.writes + d.writes);
}

proof fn lemma_engine_concat_assoc(a: EngineV, b: EngineV, c: EngineV)
    ensures
        engine_concat(engine_concat(a, b), c) =~~= engine_concat(a, engine_concat(b, c)),
{
}

proof fn lemma_engine_concat_empty(a: EngineV)
    ensures
        engine_concat(a, spec_engine_empty()) =~~= a,
        engine_concat(spec_engine_empty(), a) =~~= a,
{
}

proof fn lemma_tools_additive(
    st: EngineV,
    root: Seq<char>,
    name: Seq<char>,
    fm: AgentSyncRuleV,
    body: Seq<char>,
    tools: Seq<Seq<char>>,
    existing: Seq<RuleFileV>,
)
    ensures
        ({
            let e = spec_sync_rule_tools(st, root, name, fm, body, tools, existing);
            let d = spec_sync_rule_tools(
                spec_engine_empty(),
                root,
                name,
                fm,
                body,
                tools,
                existing,
            );
            e =~~= engine_concat(st, d)
        }),
    decreases tools.len(),
{
    if tools.len() == 0 {
        lemma_engine_concat_empty(st);
    } else {
        let t0 = tools[0];
        let rest = tools.drop_first();
        let st1 = spec_sync_rule_to_tool(st, root, name, fm, body, t0, existing);
        let d1 = spec_sync_rule_to_tool(spec_engine_empty(), root, name, fm, body, t0, existing);
        lemma_step_additive(st, root, name, fm, body, t0, existing);
        lemma_tools_additive(st1, root, name, fm, body, rest, existing);
        lemma_tools_additive(d1, root, name, fm, body, rest, existing);
        let dd = spec_sync_rule_tools(spec_engine_empty(), root, name, fm, body, rest, existing);
        lemma_engine_concat_empty(d1);
        lemma_engine_concat_assoc(st, d1, dd);
    }
}

/// Partial-failure isolation, the other half: what one source file
/// contributes to the outcome does not depend on what was recorded before
/// it — processing from any state appends exactly what processing from the
/// empty state yields.
pub proof fn lemma_sync_source_additive(
    st: EngineV,
    root: Seq<char>,
    tools: Seq<Seq<char>>,
    src: RuleFileV,
    existing: Seq<RuleFileV>,
)
    ensures
        ({
            let e = spec_sync_source(st, root, tools, src, existing);
            let d = spec_sync_source(spec_engine_empty(), root, tools, src, existing);
            e =~~= engine_concat(st, d)
        }),
{
    match spec_extract_rule_name(src.path) {
        None => {
            let e = spec_sync_source(st, root, tools, src, existing);
            let d = spec_sync_source(spec_engine_empty(), root, tools, src, existing);
            assert(e.res.errors =~= st.res.errors + d.res.errors);
            assert(e.res.added =~= st.res.added + d.res.added);
            assert(e.res.updated =~= st.res.updated + d.res.updated);
            assert(e.res.skipped =~= st.res.skipped + d.res.skipped);
            assert(e.writes =~= st.writes + d.writes);
        },
        Some(name) => match spec_parse_doc::<AgentSyncRule>(src.text) {
            None => {
                let e = spec_sync_source(st, root, tools, src, existing);
                let d = spec_sync_source(spec_engine_empty(), root, tools, src, existing);
                assert(e.res.errors =~= st.res.errors + d.res.errors);
                assert(e.res.added =~= st.res.added + d.res.added);
                assert(e.res.updated =~= st.res.updated + d.res.updated);
                assert(e.res.skipped =~= st.res.skipped + d.res.skipped);
                assert(e.writes =~= st.writes + d.writes);
            },
            Some((fm, body)) => {
                lemma_tools_additive(st, root, name, fm, body, tools, existing);
            },
        },
    }
}

/// Every source file's contribution in a full pass is independent of the
/// files before it: the pass outcome is the concatenation, in order, of
/// what each file alone contributes to an empty outcome.
pub proof fn lemma_run_sources_additive(
    st: EngineV,
    root: Seq<char>,
    tools: Seq<Seq<char>>,
    sources: Seq<RuleFileV>,
    existing: Seq<RuleFileV>,
)
    ensures
        ({
            let e = spec_run_sources(st, root, tools, sources, existing);
            let d = spec_run_sources(spec_engine_empty(), root, tools, sources, existing);
            e =~~= engine_concat(st, d)
        }),
    decreases sources.len(),
{
    if sources.len() == 0 {
        lemma_engine_concat_empty(st);
    } else {
        let src = sources[0];
        let rest = sources.drop_first();
        let st1 = spec_sync_source(st, root, tools, src, existing);
        let d1 = spec_sync_source(spec_engine_empty(), root, tools, src, existing);
        lemma_sync_source_additive(st, root, tools, src, existing);
        lemma_run_sources_additive(st1, root, tools, rest, existing);
        lemma_run_sources_additive(d1, root, tools, rest, existing);
        let dd = spec_run_sources(spec_engine_empty(), root, tools, rest, existing);
        lemma_engine_concat_empty(d1);
        lemma_engine_concat_assoc(st, d1, dd);
    }
}

/// Concatenation keeps what the left part holds.
proof fn lemma_concat_contains(a: Seq<RuleFileV>, b: Seq<RuleFileV>, w: RuleFileV)
    requires
        a.contains(w),
    ensures
        (a + b).contains(w),
{
    let i = choose|i: int| 0 <= i < a.len() && a[i] == w;
    assert((a + b)[i] == w);
}

proof fn lemma_tools_covers(
    st: EngineV,
    root: Seq<char>,
    src: RuleFileV,
    tools: Seq<Seq<char>>,
    existing: Seq<RuleFileV>,
)
    requires
        spec_extract_rule_name(src.path) is Some,
        spec_parse_doc::<AgentSyncRule>(src.text) is Some,
    ensures
        ({
            let name = spec_extract_rule_name(src.path)->0;
            let pair = spec_parse_doc::<AgentSyncRule>(src.text)->0;
            let e = spec_sync_rule_tools(st, root, name, pair.0, pair.1, tools, existing);
            forall|j: int|
                0 <= j < tools.len() ==> (match #[trigger] spec_pair_projection(
                    root,
                    src,
                    tools[j],
                ) {
                    Some(w) => spec_lookup(existing, w.path) == Some(w.text) || e.writes.contains(
                        w,
                    ),
                    None => true,
                })
        }),
    decreases tools.len(),
{
    if tools.len() > 0 {
        let name = spec_extract_rule_name(src.path)->0;
        let pair = spec_parse_doc::<AgentSyncRule>(src.text)->0;
        let fm = pair.0;
        let body = pair.1;
        let st1 = spec_sync_rule_to_tool(st, root, name, fm, body, tools[0], existing);
        let e = spec_sync_rule_tools(st, root, name, fm, body, tools, existing);
        let rest = tools.drop_first();
        lemma_tools_covers(st1, root, src, rest, existing);
        // later steps only add to the planned writes
        lemma_tools_additive(st1, root, name, fm, body, rest, existing);
        assert(e == spec_sync_rule_tools(st1, root, name, fm, body, rest, existing));
        assert(e.writes == st1.writes + spec_sync_rule_tools(
            spec_engine_empty(),
            root,
            name,
            fm,
            body,
            rest,
            existing,
        ).writes);
        assert forall|j: int|
            0 <= j < tools.len() implies (match #[trigger] spec_pair_projection(
            root,
            src,
            tools[j],
        ) {
            Some(w) => spec_lookup(existing, w.path) == Some(w.text) || e.writes.contains(w),
            None => true,
        }) by {
            if j == 0 {
                match spec_pair_projection(root, src, tools[0]) {
                    Some(w) => {
                        if spec_lookup(existing, w.path) != Some(w.text) {
                            assert(st1.writes.contains(w)) by {
                                assert(st1.writes.last() == w);
                            }
                            lemma_concat_contains(
                                st1.writes,
                                spec_sync_rule_tools(
                                    spec_engine_empty(),
                                    root,
                                    name,
                                    fm,
                                    body,
                                    rest,
                                    existing,
                                ).writes,
                                w,
                            );
                        }
                    },
                    None => {},
                }
            } else {
                assert(rest[j - 1] == tools[j]);
                let er = spec_sync_rule_tools(st1, root, name, fm, body, rest, existing);
                match spec_pair_projection(root, src, tools[j]) {
                    Some(w) => {
                        assert(spec_lookup(existing, w.path) == Some(w.text) || er.writes.contains(
                            w,
                        ));
                    },
                    None => {},
                }
            }
        }
    }
}

proof fn lemma_source_covers(
    st: EngineV,
    root: Seq<char>,
    tools: Seq<Seq<char>>,
    src: RuleFileV,
    existing: Seq<RuleFileV>,
)
    ensures
        ({
            let e = spec_sync_source(st, root, tools, src, existing);
            forall|j: int|
                0 <= j < tools.len() ==> (match #[trigger] spec_pair_projection(
                    root,
                    src,
                    tools[j],
                ) {
                    Some(w) => spec_lookup(existing, w.path) == Some(w.text) || e.writes.contains(
                        w,
                    ),
                    None => true,
                })
        }),
{
    if spec_extract_rule_name(src.path) is Some && spec_parse_doc::<AgentSyncRule>(
        src.text,
    ) is Some {
        lemma_tools_covers(st, root, src, tools, existing);
    }
}

/// A pass leaves no projection behind: every destination file a
/// well-formed rule projects to is, after the pass, either already on disk
/// with identical content or among the returned writes.  Performing the
/// writes therefore puts every projection on disk — the premise under
/// which a second pass only skips.
pub proof fn lemma_pass_covers_projections(
    root: Seq<char>,
    tools: Seq<Seq<char>>,
    sources: Seq<RuleFileV>,
    existing: Seq<RuleFileV>,
)
    ensures
        forall|i: int, j: int|
            0 <= i < sources.len() && 0 <= j < tools.len() ==> (match #[trigger] spec_pair_projection(
                root,
                sources[i],
                tools[j],
            ) {
                Some(w) => spec_lookup(existing, w.path) == Some(w.text) || spec_sync_to_tools(
                    root,
                    tools,
                    sources,
                    existing,
                ).writes.contains(w),
                None => true,
            }),
{
    lemma_run_covers(spec_engine_empty(), root, tools, sources, existing);
}

proof fn lemma_run_covers(
    st: EngineV,
    root: Seq<char>,
    tools: Seq<Seq<char>>,
    sources: Seq<RuleFileV>,
    existing: Seq<RuleFileV>,
)
    ensures
        ({
            let e = spec_run_sources(st, root, tools, sources, existing);
            forall|i: int, j: int|
                0 <= i < sources.len() && 0 <= j < tools.len() ==> (match #[trigger] spec_pair_projection(
                    root,
                    sources[i],
                    tools[j],
                ) {
                    Some(w) => spec_lookup(existing, w.path) == Some(w.text) || e.writes.contains(
                        w,
                    ),
                    None => true,
                })
        }),
    decreases sources.len(),
{
    if sources.len() > 0 {
        let st1 = spec_sync_source(st, root, tools, sources[0], existing);
        let e = spec_run_sources(st, root, tools, sources, existing);
        let rest = sources.drop_first();
        lemma_source_covers(st, root, tools, sources[0], existing);
        lemma_run_covers(st1, root, tools, rest, existing);
        lemma_run_sources_additive(st1, root, tools, rest, existing);
        assert(e == spec_run_sources(st1, root, tools, rest, existing));
        assert(e.writes == st1.writes + spec_run_sources(
            spec_engine_empty(),
            root,
            tools,
            rest,
            existing,
        ).writes);
        assert forall|i: int, j: int|
            0 <= i < sources.len() && 0 <= j < tools.len() implies (match #[trigger] spec_pair_projection(
            root,
            sources[i],
            tools[j],
        ) {
            Some(w) => spec_lookup(existing, w.path) == Some(w.text) || e.writes.contains(w),
            None => true,
        }) by {
            if i == 0 {
                match spec_pair_projection(root, sources[0], tools[j]) {
                    Some(w) => {
                        if spec_lookup(existing, w.path) != Some(w.text) {
                            assert(st1.writes.contains(w));
                            lemma_concat_contains(
                                st1.writes,
                                spec_run_sources(
                                    spec_engine_empty(),
                                    root,
                                    tools,
                                    rest,
                                    existing,
                                ).writes,
                                w,
                            );
                        }
                    },
                    None => {},
                }
            } else {
                assert(rest[i - 1] == sources[i]);
                let er = spec_run_sources(st1, root, tools, rest, existing);
                match spec_pair_projection(root, sources[i], tools[j]) {
                    Some(w) => {
                        assert(spec_lookup(existing, w.path) == Some(w.text) || er.writes.contains(
                            w,
                        ));
                    },
                    None => {},
                }
            }
        }
    }
}

} // verus!
