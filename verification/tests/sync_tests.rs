//! The sync diff engine over in-memory snapshots.

use agentsync::fs::Tool;
use agentsync::models::{CopilotRule, CursorRule, Rule, WindsurfRule, WindsurfTrigger};
use agentsync::parser::parse_frontmatter;
use agentsync::sync::{RuleFile, SyncOptions, SyncResult, sync_from_tool, sync_to_tools};

#[test]
fn test_sync_options_default() {
    let options = SyncOptions::default();
    assert!(!options.dry_run);
    assert!(!options.verbose);
}

#[test]
fn test_sync_result_new() {
    let result = SyncResult::new();
    assert_eq!(result.total_processed(), 0);
    assert!(!result.has_changes());
    assert!(!result.has_errors());
}

#[test]
fn test_sync_result_with_data() {
    let mut result = SyncResult::new();
    result.added.push("rule1".to_string());
    result.updated.push("rule2".to_string());
    result.skipped.push("rule3".to_string());

    assert_eq!(result.total_processed(), 3);
    assert!(result.has_changes());
    assert!(!result.has_errors());
}

#[test]
fn test_sync_result_with_errors() {
    let mut result = SyncResult::new();
    result
        .errors
        .push(("rule1".to_string(), "error message".to_string()));

    assert_eq!(result.total_processed(), 0);
    assert!(!result.has_changes());
    assert!(result.has_errors());
}

fn canonical_rule_doc(description: &str, globs: &str) -> String {
    format!(
        "---\ntargets: [\"*\"]\ndescription: {description}\nglobs: {globs}\ncursor:\n  alwaysApply: false\n  globs: {globs}\nwindsurf:\n  trigger: glob\n  globs: {globs}\ncopilot:\n  applyTo: {globs}\n---\n\n# Rule\n\nBody.\n"
    )
}

fn all_tools() -> Vec<String> {
    vec![
        "cursor".to_string(),
        "copilot".to_string(),
        "windsurf".to_string(),
    ]
}

#[test]
fn test_sync_to_tools_adds_all_projections() {
    // One canonical rule targeting every tool lands as one added file per
    // enabled tool.
    let sources = vec![RuleFile {
        path: "/p/.agentsync/rules/demo.md".to_string(),
        text: canonical_rule_doc("X", "**/*.py"),
    }];
    let (result, writes) = sync_to_tools(
        "/p",
        &all_tools(),
        &sources,
        &Vec::new(),
        &SyncOptions::default(),
    );

    assert_eq!(result.added.len(), 3);
    assert!(result.added.contains(&"demo (cursor)".to_string()));
    assert!(result.added.contains(&"demo (copilot)".to_string()));
    assert!(result.added.contains(&"demo (windsurf)".to_string()));
    assert_eq!(result.updated.len(), 0);
    assert_eq!(result.skipped.len(), 0);
    assert_eq!(result.errors.len(), 0);
    assert_eq!(writes.len(), 3);
    assert!(writes.iter().any(|w| w.path == "/p/.cursor/rules/demo.mdc"));
    assert!(writes
        .iter()
        .any(|w| w.path == "/p/.github/instructions/demo.instructions.md"));
    assert!(writes.iter().any(|w| w.path == "/p/.windsurf/rules/demo.md"));
}

#[test]
fn test_concrete_scenario_projections_and_back() {
    // A canonical rule with targets ["*"], description "X" and globs
    // "**/*.py" and no per-tool override: the cursor file carries
    // alwaysApply false and the globs, the windsurf file the glob trigger
    // and the globs, the copilot file the same applyTo; each file,
    // imported back, reproduces the globs and a mode other than always-on.
    let doc = "---\ntargets: [\"*\"]\ndescription: X\nglobs: **/*.py\n---\n\n# Rule\n\nBody.\n";
    let sources = vec![RuleFile {
        path: "/p/.agentsync/rules/demo.md".to_string(),
        text: doc.to_string(),
    }];
    let (result, writes) = sync_to_tools(
        "/p",
        &all_tools(),
        &sources,
        &Vec::new(),
        &SyncOptions::default(),
    );
    assert_eq!(result.errors.len(), 0);

    for write in &writes {
        if write.path.ends_with(".mdc") {
            let rule: Rule<CursorRule> = parse_frontmatter(&write.text, None).unwrap();
            assert!(!rule.frontmatter.always_apply);
            assert_eq!(rule.frontmatter.globs, "**/*.py");
            assert_eq!(rule.frontmatter.description, "X");
            let back = agentsync::converter::cursor_to_agentsync(&rule.frontmatter);
            assert_eq!(back.globs, "**/*.py");
            assert_ne!(
                back.windsurf.expect("windsurf config").trigger,
                WindsurfTrigger::AlwaysOn
            );
        } else if write.path.ends_with(".instructions.md") {
            let rule: Rule<CopilotRule> = parse_frontmatter(&write.text, None).unwrap();
            assert_eq!(rule.frontmatter.apply_to, "**/*.py");
            let back = agentsync::converter::copilot_to_agentsync(&rule.frontmatter);
            assert_eq!(back.globs, "**/*.py");
            assert_ne!(
                back.windsurf.expect("windsurf config").trigger,
                WindsurfTrigger::AlwaysOn
            );
        } else {
            let rule: Rule<WindsurfRule> = parse_frontmatter(&write.text, None).unwrap();
            assert_eq!(rule.frontmatter.trigger, WindsurfTrigger::Glob);
            assert_eq!(rule.frontmatter.globs, "**/*.py");
            let back = agentsync::converter::windsurf_to_agentsync(&rule.frontmatter);
            assert_eq!(back.globs, "**/*.py");
        }
    }
}

#[test]
fn test_sync_to_tools_second_run_skips_everything() {
    // Sync idempotence: running again over the files the first run wrote
    // yields zero added, zero updated, everything skipped.
    let sources = vec![
        RuleFile {
            path: "/p/.agentsync/rules/one.md".to_string(),
            text: canonical_rule_doc("First", "**/*.py"),
        },
        RuleFile {
            path: "/p/.agentsync/rules/two.md".to_string(),
            text: canonical_rule_doc("Second", "src/**"),
        },
    ];
    let (first, writes) = sync_to_tools(
        "/p",
        &all_tools(),
        &sources,
        &Vec::new(),
        &SyncOptions::default(),
    );
    assert_eq!(first.added.len(), 6);
    assert_eq!(first.errors.len(), 0);

    let (second, second_writes) = sync_to_tools(
        "/p",
        &all_tools(),
        &sources,
        &writes,
        &SyncOptions::default(),
    );
    assert_eq!(second.added.len(), 0);
    assert_eq!(second.updated.len(), 0);
    assert_eq!(second.skipped.len(), 6);
    assert_eq!(second.errors.len(), 0);
    assert_eq!(second_writes.len(), 0);
}

#[test]
fn test_partial_failure_isolation() {
    // One file with an unparseable header and one valid file: exactly one
    // error entry, and the valid file still classified as added.
    let sources = vec![
        RuleFile {
            path: "/p/.agentsync/rules/broken.md".to_string(),
            text: "no frontmatter at all".to_string(),
        },
        RuleFile {
            path: "/p/.agentsync/rules/good.md".to_string(),
            text: canonical_rule_doc("Fine", "**/*.rs"),
        },
    ];
    let (result, writes) = sync_to_tools(
        "/p",
        &all_tools(),
        &sources,
        &Vec::new(),
        &SyncOptions::default(),
    );
    assert_eq!(result.errors.len(), 1);
    assert_eq!(result.errors[0].0, "broken");
    assert!(result.errors[0].1.contains("Missing opening"));
    assert_eq!(result.added.len(), 3);
    assert!(result.added.contains(&"good (cursor)".to_string()));
    assert_eq!(writes.len(), 3);
}

#[test]
fn test_sync_to_tools_respects_targets() {
    // A rule naming only one tool is silently not projected to the others.
    let doc = "---\ntargets: [\"cursor\"]\ndescription: Only cursor\nglobs: **/*.rs\ncursor:\n  alwaysApply: false\n  globs: **/*.rs\n---\nBody\n";
    let sources = vec![RuleFile {
        path: "/p/.agentsync/rules/solo.md".to_string(),
        text: doc.to_string(),
    }];
    let (result, writes) = sync_to_tools(
        "/p",
        &all_tools(),
        &sources,
        &Vec::new(),
        &SyncOptions::default(),
    );
    assert_eq!(result.added, vec!["solo (cursor)".to_string()]);
    assert_eq!(result.skipped.len(), 0);
    assert_eq!(result.errors.len(), 0);
    assert_eq!(writes.len(), 1);
}

#[test]
fn test_sync_to_tools_updates_changed_file() {
    let sources = vec![RuleFile {
        path: "/p/.agentsync/rules/demo.md".to_string(),
        text: canonical_rule_doc("X", "**/*.py"),
    }];
    let existing = vec![RuleFile {
        path: "/p/.cursor/rules/demo.mdc".to_string(),
        text: "stale content".to_string(),
    }];
    let (result, writes) = sync_to_tools(
        "/p",
        &vec!["cursor".to_string()],
        &sources,
        &existing,
        &SyncOptions::default(),
    );
    assert_eq!(result.updated, vec!["demo (cursor)".to_string()]);
    assert_eq!(result.added.len(), 0);
    assert_eq!(writes.len(), 1);
    assert_eq!(writes[0].path, "/p/.cursor/rules/demo.mdc");
}

#[test]
fn test_sync_to_tools_unknown_tool_is_an_error() {
    let sources = vec![RuleFile {
        path: "/p/.agentsync/rules/demo.md".to_string(),
        text: canonical_rule_doc("X", "**/*.py"),
    }];
    let (result, _writes) = sync_to_tools(
        "/p",
        &vec!["codeium".to_string()],
        &sources,
        &Vec::new(),
        &SyncOptions::default(),
    );
    assert_eq!(result.errors.len(), 1);
    assert!(result.errors[0].1.contains("Invalid tool"));
}

#[test]
fn test_sync_from_tool_imports_rule() {
    let cursor_doc = "---\ndescription: Imported rule\nalwaysApply: false\nglobs: **/*.py\n---\n\n# Imported\n\nBody.\n";
    let sources = vec![RuleFile {
        path: "/p/.cursor/rules/imported.mdc".to_string(),
        text: cursor_doc.to_string(),
    }];
    let (result, writes) = sync_from_tool(
        "/p",
        Tool::Cursor,
        &sources,
        &Vec::new(),
        &SyncOptions::default(),
    )
    .expect("import should run");

    assert_eq!(result.added, vec!["imported".to_string()]);
    assert_eq!(result.errors.len(), 0);
    assert_eq!(writes.len(), 1);
    assert_eq!(writes[0].path, "/p/.agentsync/rules/imported.md");
    // The written canonical file holds the inferred rule.
    let rule: Rule<agentsync::models::AgentSyncRule> =
        parse_frontmatter(&writes[0].text, None).unwrap();
    assert_eq!(rule.frontmatter.globs, "**/*.py");
    assert_eq!(rule.frontmatter.description, "Imported rule");
}

#[test]
fn test_sync_from_tool_second_run_skips() {
    let cursor_doc = "---\ndescription: Imported rule\nalwaysApply: false\nglobs: **/*.py\n---\n\n# Imported\n\nBody.\n";
    let sources = vec![RuleFile {
        path: "/p/.cursor/rules/imported.mdc".to_string(),
        text: cursor_doc.to_string(),
    }];
    let (_first, writes) = sync_from_tool(
        "/p",
        Tool::Cursor,
        &sources,
        &Vec::new(),
        &SyncOptions::default(),
    )
    .expect("first run");
    let (second, second_writes) = sync_from_tool(
        "/p",
        Tool::Cursor,
        &sources,
        &writes,
        &SyncOptions::default(),
    )
    .expect("second run");
    assert_eq!(second.skipped, vec!["imported".to_string()]);
    assert_eq!(second.added.len(), 0);
    assert_eq!(second.updated.len(), 0);
    assert_eq!(second_writes.len(), 0);
}

#[test]
fn test_sync_from_tool_rejects_canonical_store() {
    let result = sync_from_tool(
        "/p",
        Tool::AgentSync,
        &Vec::new(),
        &Vec::new(),
        &SyncOptions::default(),
    );
    match result {
        Err(agentsync::AgentSyncError::Other(m)) => {
            assert_eq!(m, "Cannot sync from AgentSync to AgentSync")
        },
        other => panic!("expected an error, got {other:?}"),
    }
}

#[test]
fn test_sync_from_tool_bad_file_isolated() {
    let sources = vec![
        RuleFile {
            path: "/p/.cursor/rules/bad.mdc".to_string(),
            text: "---\nnever closed".to_string(),
        },
        RuleFile {
            path: "/p/.cursor/rules/fine.mdc".to_string(),
            text: "---\ndescription: Ok\nalwaysApply: true\n---\nBody\n".to_string(),
        },
    ];
    let (result, writes) = sync_from_tool(
        "/p",
        Tool::Cursor,
        &sources,
        &Vec::new(),
        &SyncOptions::default(),
    )
    .expect("import should run");
    assert_eq!(result.errors.len(), 1);
    assert_eq!(result.errors[0].0, "bad");
    assert!(result.errors[0].1.contains("Missing closing"));
    assert_eq!(result.added, vec!["fine".to_string()]);
    assert_eq!(writes.len(), 1);
}
