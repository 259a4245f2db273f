//! Bidirectional conversion between the canonical rule and the three tool
//! formats, built around one unified activation mode.
//!
//! Every tool file is a projection of a canonical rule; every canonical
//! rule built from a tool file carries a consistent triple of per-tool
//! override blocks, produced by one shared constructor, so the three
//! projections of one rule can never diverge.

use vstd::prelude::*;

use crate::models::{
    AgentSyncRule, AgentSyncRuleV, CopilotConfig, CopilotConfigV, CopilotRule, CopilotRuleV,
    CursorConfig, CursorConfigV, CursorRule, CursorRuleV, Rule, WindsurfConfig, WindsurfConfigV,
    WindsurfRule, WindsurfRuleV, WindsurfTrigger,
};
use crate::text;

verus! {

/// The normalized form of a comma-separated glob list: split at commas,
/// each pattern trimmed, rejoined with bare commas.  Whitespace around
/// commas is never significant.
pub open spec fn spec_normalize_globs(g: Seq<char>) -> Seq<char> {
    if g.len() == 0 {
        Seq::empty()
    } else {
        text::join_spec(
            text::split_spec(g, ',').map_values(|p: Seq<char>| text::trim_spec(p)),
            ","@,
        )
    }
}

/// Normalizes a comma-separated glob list: whitespace around each pattern
/// is dropped and the patterns are rejoined with bare commas.
pub fn normalize_globs(globs: &str) -> (r: String)
    ensures
        r@ == spec_normalize_globs(globs@),
{
    if globs.unicode_len() == 0 {
        return String::new();
    }
    let parts = text::split_char(globs, ',');
    let trimmed = text::trim_each(&parts);
    proof {
        reveal_strlit(",");
    }
    text::join_str(&trimmed, ",")
}

/// Normalizing a second time changes nothing.
pub proof fn lemma_normalize_globs_idempotent(g: Seq<char>)
    ensures
        spec_normalize_globs(spec_normalize_globs(g)) == spec_normalize_globs(g),
{
    reveal_strlit(",");
    assert(","@ =~= seq![',']);
    if g.len() != 0 {
        let parts = text::split_spec(g, ',');
        let f = |p: Seq<char>| text::trim_spec(p);
        let trimmed = parts.map_values(f);
        let joined = text::join_spec(trimmed, ","@);
        text::lemma_split_len(g, ',');
        text::lemma_split_segments_no_sep(g, ',');
        // trimmed segments stay free of commas: every character of a
        // trimmed segment is a character of the original segment
        assert forall|i: int, j: int|
            0 <= i < trimmed.len() && 0 <= j < trimmed[i].len() implies trimmed[i][j] != ',' by {
            let p = parts[i];
            assert(trimmed[i] == f(p));
            let a = text::trim_start_spec(p);
            let t = text::trim_end_spec(a);
            assert(trimmed[i] == t);
            text::lemma_trim_start_is_suffix(p);
            text::lemma_trim_end_prefix(a);
            assert(t.len() <= a.len() <= p.len());
            assert(t == a.take(t.len() as int));
            assert(t[j] == a[j]);
            assert(a == p.skip(p.len() - a.len()));
            assert(a[j] == p[p.len() - a.len() + j]);
            assert(parts[i][p.len() - a.len() + j] != ',');
        }
        if joined.len() == 0 {
            assert(spec_normalize_globs(joined) == Seq::<char>::empty());
            text::lemma_split_join(trimmed, ',');
        } else {
            text::lemma_split_join(trimmed, ',');
            assert(text::split_spec(joined, ',') == trimmed);
            assert forall|i: int| 0 <= i < trimmed.len() implies f(trimmed[i]) == trimmed[i] by {
                text::lemma_trim_idempotent(parts[i]);
            }
            assert(trimmed.map_values(f) =~= trimmed);
        }
    }
}

/// Whether a glob list means "every file": empty, `**`, or `**/*`, up to
/// surrounding whitespace.
pub open spec fn spec_is_universal_glob(g: Seq<char>) -> bool {
    text::trim_spec(g) == Seq::<char>::empty() || text::trim_spec(g) == "**/*"@ || text::trim_spec(
        g,
    ) == "**"@
}

/// Whether the glob list applies to all files: empty, `**`, or `**/*`.
pub fn is_universal_glob(globs: &str) -> (r: bool)
    ensures
        r == spec_is_universal_glob(globs@),
{
    let t = text::trim(globs);
    proof {
        if t@.len() == 0 {
            assert(t@ =~= Seq::<char>::empty());
        }
    }
    t.unicode_len() == 0 || text::str_eq(t, "**/*") || text::str_eq(t, "**")
}

/// The unified activation mode, in ghost form.
pub enum Mode {
    AlwaysOn,
    Manual,
    Intelligent,
    Glob(Seq<char>),
}

/// The unified activation mode every tool schema is a projection of.
pub enum ConfigMode<'a> {
    AlwaysOn,
    Manual,
    Intelligent,
    Glob(&'a str),
}

impl<'a> View for ConfigMode<'a> {
    type V = Mode;

    open spec fn view(&self) -> Mode {
        match self {
            ConfigMode::AlwaysOn => Mode::AlwaysOn,
            ConfigMode::Manual => Mode::Manual,
            ConfigMode::Intelligent => Mode::Intelligent,
            ConfigMode::Glob(g) => Mode::Glob(g@),
        }
    }
}

/// The triple of per-tool override blocks, plus the canonical glob string,
/// that one activation mode expands to.
pub open spec fn spec_create_all_configs(m: Mode) -> (
    CursorConfigV,
    WindsurfConfigV,
    CopilotConfigV,
    Seq<char>,
) {
    match m {
        Mode::AlwaysOn => (
            CursorConfigV { always_apply: true, globs: Seq::empty() },
            WindsurfConfigV { trigger: WindsurfTrigger::AlwaysOn, globs: Seq::empty() },
            CopilotConfigV { apply_to: "**"@ },
            "**/*"@,
        ),
        Mode::Manual => (
            CursorConfigV { always_apply: false, globs: Seq::empty() },
            WindsurfConfigV { trigger: WindsurfTrigger::Manual, globs: Seq::empty() },
            CopilotConfigV { apply_to: "**"@ },
            "**/*"@,
        ),
        Mode::Intelligent => (
            CursorConfigV { always_apply: false, globs: Seq::empty() },
            WindsurfConfigV { trigger: WindsurfTrigger::ModelDecision, globs: Seq::empty() },
            CopilotConfigV { apply_to: "**"@ },
            "**/*"@,
        ),
        Mode::Glob(g) => (
            CursorConfigV { always_apply: false, globs: spec_normalize_globs(g) },
            WindsurfConfigV { trigger: WindsurfTrigger::Glob, globs: spec_normalize_globs(g) },
            CopilotConfigV { apply_to: spec_normalize_globs(g) },
            spec_normalize_globs(g),
        ),
    }
}

/// Expands one activation mode into the consistent triple of per-tool
/// configs and the canonical glob string.  This single constructor is what
/// keeps the three projections of a rule from diverging.
pub fn create_all_configs(mode: &ConfigMode<'_>) -> (r: (
    CursorConfig,
    WindsurfConfig,
    CopilotConfig,
    String,
))
    ensures
        (r.0@, r.1@, r.2@, r.3@) == spec_create_all_configs(mode@),
{
    match mode {
        ConfigMode::AlwaysOn => (
            CursorConfig { always_apply: true, globs: String::new() },
            WindsurfConfig { trigger: WindsurfTrigger::AlwaysOn, globs: String::new() },
            CopilotConfig { apply_to: String::from_str("**") },
            String::from_str("**/*"),
        ),
        ConfigMode::Manual => (
            CursorConfig { always_apply: false, globs: String::new() },
            WindsurfConfig { trigger: WindsurfTrigger::Manual, globs: String::new() },
            CopilotConfig { apply_to: String::from_str("**") },
            String::from_str("**/*"),
        ),
        ConfigMode::Intelligent => (
            CursorConfig { always_apply: false, globs: String::new() },
            WindsurfConfig { trigger: WindsurfTrigger::ModelDecision, globs: String::new() },
            CopilotConfig { apply_to: String::from_str("**") },
            String::from_str("**/*"),
        ),
        ConfigMode::Glob(globs) => {
            let normalized = normalize_globs(globs);
            (
                CursorConfig { always_apply: false, globs: normalized.clone() },
                WindsurfConfig { trigger: WindsurfTrigger::Glob, globs: normalized.clone() },
                CopilotConfig { apply_to: normalized.clone() },
                normalized,
            )
        },
    }
}

/// The activation mode a Cursor rule encodes: the `alwaysApply` flag wins,
/// then a non-empty glob, then a non-empty description, else manual.
pub open spec fn spec_cursor_mode(c: CursorRuleV) -> Mode {
    if c.always_apply {
        Mode::AlwaysOn
    } else if c.globs.len() > 0 {
        Mode::Glob(c.globs)
    } else if c.description.len() > 0 {
        Mode::Intelligent
    } else {
        Mode::Manual
    }
}

/// The canonical rule inferred from a Cursor rule.
pub open spec fn spec_cursor_to_agentsync(c: CursorRuleV) -> AgentSyncRuleV {
    let cfg = spec_create_all_configs(spec_cursor_mode(c));
    AgentSyncRuleV {
        targets: seq!["*"@],
        description: c.description,
        globs: cfg.3,
        cursor: Some(cfg.0),
        windsurf: Some(cfg.1),
        copilot: Some(cfg.2),
    }
}

/// Infers the canonical rule a Cursor rule encodes.
pub fn cursor_to_agentsync(cursor_rule: &CursorRule) -> (r: AgentSyncRule)
    ensures
        r@ == spec_cursor_to_agentsync(cursor_rule@),
{
    let mode = if cursor_rule.always_apply {
        ConfigMode::AlwaysOn
    } else if cursor_rule.globs.as_str().unicode_len() > 0 {
        ConfigMode::Glob(cursor_rule.globs.as_str())
    } else if cursor_rule.description.as_str().unicode_len() > 0 {
        ConfigMode::Intelligent
    } else {
        ConfigMode::Manual
    };

    let (cursor_config, windsurf_config, copilot_config, globs) = create_all_configs(&mode);

    AgentSyncRule {
        targets: all_targets(),
        description: cursor_rule.description.clone(),
        globs,
        cursor: Some(cursor_config),
        windsurf: Some(windsurf_config),
        copilot: Some(copilot_config),
    }
}

/// The target list that names every tool: `*`.
fn all_targets() -> (r: Vec<String>)
    ensures
        r.deep_view() =~= seq!["*"@],
{
    let mut v: Vec<String> = Vec::new();
    v.push(String::from_str("*"));
    v
}

/// The Cursor projection of a canonical rule: the override block wins; an
/// always-on rule serializes with empty description and globs; without an
/// override the global fields are used, a universal glob becoming empty.
pub open spec fn spec_agentsync_to_cursor(a: AgentSyncRuleV) -> CursorRuleV {
    let always_apply = match a.cursor {
        Some(c) => c.always_apply,
        None => false,
    };
    if always_apply {
        CursorRuleV { description: Seq::empty(), always_apply: true, globs: Seq::empty() }
    } else {
        let globs = match a.cursor {
            Some(c) => spec_normalize_globs(c.globs),
            None => if spec_is_universal_glob(a.globs) {
                Seq::empty()
            } else {
                spec_normalize_globs(a.globs)
            },
        };
        CursorRuleV { description: a.description, always_apply: false, globs }
    }
}

/// Projects a canonical rule onto the Cursor format.
pub fn agentsync_to_cursor(agentsync_rule: &AgentSyncRule) -> (r: CursorRule)
    ensures
        r@ == spec_agentsync_to_cursor(agentsync_rule@),
{
    let always_apply = match &agentsync_rule.cursor {
        Some(c) => c.always_apply,
        None => false,
    };
    if always_apply {
        CursorRule { description: String::new(), always_apply: true, globs: String::new() }
    } else {
        let globs = match &agentsync_rule.cursor {
            Some(c) => normalize_globs(c.globs.as_str()),
            None => {
                if is_universal_glob(agentsync_rule.globs.as_str()) {
                    String::new()
                } else {
                    normalize_globs(agentsync_rule.globs.as_str())
                }
            },
        };
        CursorRule { description: agentsync_rule.description.clone(), always_apply: false, globs }
    }
}

/// The activation mode a Windsurf rule encodes: its four-way trigger.
pub open spec fn spec_windsurf_mode(w: WindsurfRuleV) -> Mode {
    match w.trigger {
        WindsurfTrigger::AlwaysOn => Mode::AlwaysOn,
        WindsurfTrigger::Glob => Mode::Glob(w.globs),
        WindsurfTrigger::ModelDecision => Mode::Intelligent,
        WindsurfTrigger::Manual => Mode::Manual,
    }
}

/// The canonical rule inferred from a Windsurf rule; the original trigger
/// and glob text are preserved verbatim in the Windsurf override block.
pub open spec fn spec_windsurf_to_agentsync(w: WindsurfRuleV) -> AgentSyncRuleV {
    let cfg = spec_create_all_configs(spec_windsurf_mode(w));
    AgentSyncRuleV {
        targets: seq!["*"@],
        description: w.description,
        globs: cfg.3,
        cursor: Some(cfg.0),
        windsurf: Some(
            WindsurfConfigV { trigger: w.trigger, globs: spec_normalize_globs(w.globs) },
        ),
        copilot: Some(cfg.2),
    }
}

/// Infers the canonical rule a Windsurf rule encodes.
pub fn windsurf_to_agentsync(windsurf_rule: &WindsurfRule) -> (r: AgentSyncRule)
    ensures
        r@ == spec_windsurf_to_agentsync(windsurf_rule@),
{
    let mode = match windsurf_rule.trigger {
        WindsurfTrigger::AlwaysOn => ConfigMode::AlwaysOn,
        WindsurfTrigger::Glob => ConfigMode::Glob(windsurf_rule.globs.as_str()),
        WindsurfTrigger::ModelDecision => ConfigMode::Intelligent,
        WindsurfTrigger::Manual => ConfigMode::Manual,
    };

    let (cursor_config, _windsurf_config, copilot_config, globs) = create_all_configs(&mode);

    AgentSyncRule {
        targets: all_targets(),
        description: windsurf_rule.description.clone(),
        globs,
        cursor: Some(cursor_config),
        windsurf: Some(
            WindsurfConfig {
                trigger: windsurf_rule.trigger,
                globs: normalize_globs(windsurf_rule.globs.as_str()),
            },
        ),
        copilot: Some(copilot_config),
    }
}

/// The Windsurf projection of a canonical rule: the override's trigger
/// wins; without an override the global glob decides — a non-universal
/// glob list projects as a glob-triggered rule carrying it, a universal
/// one as `model_decision`.  An always-on rule serializes with empty
/// description and globs.
pub open spec fn spec_agentsync_to_windsurf(a: AgentSyncRuleV) -> WindsurfRuleV {
    let trigger = match a.windsurf {
        Some(w) => w.trigger,
        None => if !spec_is_universal_glob(a.globs) {
            WindsurfTrigger::Glob
        } else {
            WindsurfTrigger::ModelDecision
        },
    };
    if trigger == WindsurfTrigger::AlwaysOn {
        WindsurfRuleV {
            trigger,
            description: Seq::empty(),
            globs: Seq::empty(),
        }
    } else {
        let globs = match a.windsurf {
            Some(w) => spec_normalize_globs(w.globs),
            None => if spec_is_universal_glob(a.globs) {
                Seq::empty()
            } else {
                spec_normalize_globs(a.globs)
            },
        };
        WindsurfRuleV { trigger, description: a.description, globs }
    }
}

/// Projects a canonical rule onto the Windsurf format.
pub fn agentsync_to_windsurf(agentsync_rule: &AgentSyncRule) -> (r: WindsurfRule)
    ensures
        r@ == spec_agentsync_to_windsurf(agentsync_rule@),
{
    let trigger = match &agentsync_rule.windsurf {
        Some(w) => w.trigger,
        None => {
            if !is_universal_glob(agentsync_rule.globs.as_str()) {
                WindsurfTrigger::Glob
            } else {
                WindsurfTrigger::ModelDecision
            }
        },
    };
    if trigger == WindsurfTrigger::AlwaysOn {
        WindsurfRule { trigger, description: String::new(), globs: String::new() }
    } else {
        let globs = match &agentsync_rule.windsurf {
            Some(w) => normalize_globs(w.globs.as_str()),
            None => {
                if is_universal_glob(agentsync_rule.globs.as_str()) {
                    String::new()
                } else {
                    normalize_globs(agentsync_rule.globs.as_str())
                }
            },
        };
        WindsurfRule { trigger, description: agentsync_rule.description.clone(), globs }
    }
}

/// The activation mode a Copilot rule encodes: a universal `applyTo` means
/// always-on, anything else is glob-scoped.  Copilot cannot express manual
/// or description-driven activation.
pub open spec fn spec_copilot_mode(c: CopilotRuleV) -> Mode {
    if spec_is_universal_glob(c.apply_to) {
        Mode::AlwaysOn
    } else {
        Mode::Glob(c.apply_to)
    }
}

/// The canonical rule inferred from a Copilot rule.
pub open spec fn spec_copilot_to_agentsync(c: CopilotRuleV) -> AgentSyncRuleV {
    let cfg = spec_create_all_configs(spec_copilot_mode(c));
    AgentSyncRuleV {
        targets: seq!["*"@],
        description: c.description,
        globs: cfg.3,
        cursor: Some(cfg.0),
        windsurf: Some(cfg.1),
        copilot: Some(cfg.2),
    }
}

/// Infers the canonical rule a Copilot rule encodes.
pub fn copilot_to_agentsync(copilot_rule: &CopilotRule) -> (r: AgentSyncRule)
    ensures
        r@ == spec_copilot_to_agentsync(copilot_rule@),
{
    let mode = if is_universal_glob(copilot_rule.apply_to.as_str()) {
        ConfigMode::AlwaysOn
    } else {
        ConfigMode::Glob(copilot_rule.apply_to.as_str())
    };

    let (cursor_config, windsurf_config, copilot_config, globs) = create_all_configs(&mode);

    AgentSyncRule {
        targets: all_targets(),
        description: copilot_rule.description.clone(),
        globs,
        cursor: Some(cursor_config),
        windsurf: Some(windsurf_config),
        copilot: Some(copilot_config),
    }
}

/// The Copilot projection of a canonical rule: the override's `applyTo`
/// wins; without one, the global glob is used, a universal glob becoming
/// `**`.
pub open spec fn spec_agentsync_to_copilot(a: AgentSyncRuleV) -> CopilotRuleV {
    let apply_to = match a.copilot {
        Some(c) => spec_normalize_globs(c.apply_to),
        None => if spec_is_universal_glob(a.globs) {
            "**"@
        } else {
            spec_normalize_globs(a.globs)
        },
    };
    CopilotRuleV { description: a.description, apply_to }
}

/// Projects a canonical rule onto the Copilot format.
pub fn agentsync_to_copilot(agentsync_rule: &AgentSyncRule) -> (r: CopilotRule)
    ensures
        r@ == spec_agentsync_to_copilot(agentsync_rule@),
{
    let apply_to = match &agentsync_rule.copilot {
        Some(c) => normalize_globs(c.apply_to.as_str()),
        None => {
            if is_universal_glob(agentsync_rule.globs.as_str()) {
                String::from_str("**")
            } else {
                normalize_globs(agentsync_rule.globs.as_str())
            }
        },
    };
    CopilotRule { description: agentsync_rule.description.clone(), apply_to }
}

/// Infers the canonical rule of a Cursor rule file, keeping its body.
pub fn cursor_rule_to_agentsync(rule: &Rule<CursorRule>) -> (r: Rule<AgentSyncRule>)
    ensures
        r@.frontmatter == spec_cursor_to_agentsync(rule@.frontmatter),
        r@.content == rule@.content,
{
    Rule { frontmatter: cursor_to_agentsync(&rule.frontmatter), content: rule.content.clone() }
}

/// Projects a canonical rule file onto the Cursor format, keeping its body.
pub fn agentsync_rule_to_cursor(rule: &Rule<AgentSyncRule>) -> (r: Rule<CursorRule>)
    ensures
        r@.frontmatter == spec_agentsync_to_cursor(rule@.frontmatter),
        r@.content == rule@.content,
{
    Rule { frontmatter: agentsync_to_cursor(&rule.frontmatter), content: rule.content.clone() }
}

/// Infers the canonical rule of a Windsurf rule file, keeping its body.
pub fn windsurf_rule_to_agentsync(rule: &Rule<WindsurfRule>) -> (r: Rule<AgentSyncRule>)
    ensures
        r@.frontmatter == spec_windsurf_to_agentsync(rule@.frontmatter),
        r@.content == rule@.content,
{
    Rule { frontmatter: windsurf_to_agentsync(&rule.frontmatter), content: rule.content.clone() }
}

/// Projects a canonical rule file onto the Windsurf format, keeping its
/// body.
pub fn agentsync_rule_to_windsurf(rule: &Rule<AgentSyncRule>) -> (r: Rule<WindsurfRule>)
    ensures
        r@.frontmatter == spec_agentsync_to_windsurf(rule@.frontmatter),
        r@.content == rule@.content,
{
    Rule { frontmatter: agentsync_to_windsurf(&rule.frontmatter), content: rule.content.clone() }
}

/// Infers the canonical rule of a Copilot rule file, keeping its body.
pub fn copilot_rule_to_agentsync(rule: &Rule<CopilotRule>) -> (r: Rule<AgentSyncRule>)
    ensures
        r@.frontmatter == spec_copilot_to_agentsync(rule@.frontmatter),
        r@.content == rule@.content,
{
    Rule { frontmatter: copilot_to_agentsync(&rule.frontmatter), content: rule.content.clone() }
}

/// Projects a canonical rule file onto the Copilot format, keeping its
/// body.
pub fn agentsync_rule_to_copilot(rule: &Rule<AgentSyncRule>) -> (r: Rule<CopilotRule>)
    ensures
        r@.frontmatter == spec_agentsync_to_copilot(rule@.frontmatter),
        r@.content == rule@.content,
{
    Rule { frontmatter: agentsync_to_copilot(&rule.frontmatter), content: rule.content.clone() }
}

/// The activation mode a canonical rule encodes, read from its Windsurf
/// override block — the only block that distinguishes all four modes — or,
/// when that block is absent, inferred from the global glob and
/// description.
pub open spec fn spec_agentsync_mode(a: AgentSyncRuleV) -> Mode {
    match a.windsurf {
        Some(w) => match w.trigger {
            WindsurfTrigger::AlwaysOn => Mode::AlwaysOn,
            WindsurfTrigger::Manual => Mode::Manual,
            WindsurfTrigger::ModelDecision => Mode::Intelligent,
            WindsurfTrigger::Glob => Mode::Glob(w.globs),
        },
        None => if !spec_is_universal_glob(a.globs) {
            Mode::Glob(spec_normalize_globs(a.globs))
        } else if a.description.len() > 0 {
            Mode::Intelligent
        } else {
            Mode::Manual
        },
    }
}

/// The canonical rule the shared constructor builds for one activation
/// mode and description.
pub open spec fn spec_canonical_of_mode(m: Mode, d: Seq<char>) -> AgentSyncRuleV {
    let cfg = spec_create_all_configs(m);
    AgentSyncRuleV {
        targets: seq!["*"@],
        description: d,
        globs: cfg.3,
        cursor: Some(cfg.0),
        windsurf: Some(cfg.1),
        copilot: Some(cfg.2),
    }
}

/// Projecting a canonical rule onto Cursor and inferring it back keeps the
/// activation mode, for every mode Cursor can express: always-on with any
/// description, manual only with an empty description, intelligent only
/// with a non-empty one, and any glob list with at least one non-blank
/// pattern.
pub proof fn lemma_cursor_roundtrip_preserves_mode(m: Mode, d: Seq<char>)
    requires
        match m {
            Mode::AlwaysOn => true,
            Mode::Manual => d.len() == 0,
            Mode::Intelligent => d.len() > 0,
            Mode::Glob(g) => spec_normalize_globs(g).len() > 0,
        },
    ensures
        ({
            let a = spec_canonical_of_mode(m, d);
            spec_agentsync_mode(spec_cursor_to_agentsync(spec_agentsync_to_cursor(a)))
                == spec_agentsync_mode(a)
        }),
{
    match m {
        Mode::Glob(g) => lemma_normalize_globs_idempotent(g),
        _ => {},
    }
}

/// Projecting a canonical rule onto Windsurf and inferring it back keeps
/// the activation mode, for every mode and description: Windsurf's
/// four-way trigger expresses all of them.
pub proof fn lemma_windsurf_roundtrip_preserves_mode(m: Mode, d: Seq<char>)
    ensures
        ({
            let a = spec_canonical_of_mode(m, d);
            spec_agentsync_mode(spec_windsurf_to_agentsync(spec_agentsync_to_windsurf(a)))
                == spec_agentsync_mode(a)
        }),
{
    match m {
        Mode::Glob(g) => lemma_normalize_globs_idempotent(g),
        _ => {},
    }
}

/// Projecting a canonical rule that has no Windsurf override onto
/// Windsurf and inferring it back keeps the activation mode the global
/// fields encode: a non-universal glob list round-trips as a glob-scoped
/// rule carrying it, a universal one with a description as intelligent.
/// (A universal glob with an empty description reads back as intelligent,
/// not manual: without an override, Windsurf's projection cannot tell the
/// two apart.)
pub proof fn lemma_windsurf_fallback_preserves_mode(a: AgentSyncRuleV)
    requires
        a.windsurf is None,
        !spec_is_universal_glob(a.globs) || a.description.len() > 0,
    ensures
        spec_agentsync_mode(spec_windsurf_to_agentsync(spec_agentsync_to_windsurf(a)))
            == spec_agentsync_mode(a),
{
    if !spec_is_universal_glob(a.globs) {
        lemma_normalize_globs_idempotent(a.globs);
    }
}

/// Projecting a canonical rule onto Copilot and inferring it back keeps
/// the activation mode for always-on rules and for glob-scoped rules whose
/// normalized pattern is not universal.  Copilot's single `applyTo` field
/// cannot express manual or intelligent activation: that distinction is
/// lost through Copilot, by design.
pub proof fn lemma_copilot_roundtrip_preserves_mode(m: Mode, d: Seq<char>)
    requires
        match m {
            Mode::AlwaysOn => true,
            Mode::Manual => false,
            Mode::Intelligent => false,
            Mode::Glob(g) => !spec_is_universal_glob(spec_normalize_globs(g)),
        },
    ensures
        ({
            let a = spec_canonical_of_mode(m, d);
            spec_agentsync_mode(spec_copilot_to_agentsync(spec_agentsync_to_copilot(a)))
                == spec_agentsync_mode(a)
        }),
{
    reveal_strlit("**");
    reveal_strlit(",");
    match m {
        Mode::AlwaysOn => {
            assert(text::trim_spec("**"@) == "**"@);
            assert(forall|j: int| 0 <= j < "**"@.len() ==> "**"@[j] != ',');
            text::lemma_split_no_sep("**"@, ',');
            assert(text::split_spec("**"@, ',').map_values(|p: Seq<char>| text::trim_spec(p))
                =~= seq!["**"@]);
            assert(spec_normalize_globs("**"@) == "**"@);
        },
        Mode::Glob(g) => {
            lemma_normalize_globs_idempotent(g);
        },
        _ => {},
    }
}

/// The three spellings of the universal glob — the empty string, `**`, and
/// `**/*` — all infer the same canonical rule from a Copilot file: one in
/// always-on mode.
pub proof fn lemma_universal_glob_equivalence(d: Seq<char>)
    ensures
        spec_is_universal_glob(Seq::<char>::empty()),
        spec_is_universal_glob("**"@),
        spec_is_universal_glob("**/*"@),
        spec_copilot_to_agentsync(CopilotRuleV { description: d, apply_to: Seq::empty() })
            == spec_copilot_to_agentsync(CopilotRuleV { description: d, apply_to: "**"@ }),
        spec_copilot_to_agentsync(CopilotRuleV { description: d, apply_to: "**/*"@ })
            == spec_copilot_to_agentsync(CopilotRuleV { description: d, apply_to: "**"@ }),
        spec_copilot_mode(CopilotRuleV { description: d, apply_to: Seq::empty() })
            == Mode::AlwaysOn,
{
    reveal_strlit("**");
    reveal_strlit("**/*");
    assert(text::trim_spec(Seq::<char>::empty()) == Seq::<char>::empty());
    assert(text::trim_spec("**"@) == "**"@);
    assert(text::trim_spec("**/*"@) == "**/*"@);
}

} // verus!
