//! Conversion between the canonical rule and the three tool formats.

use agentsync::converter::{
    agentsync_rule_to_copilot, agentsync_rule_to_cursor, agentsync_rule_to_windsurf,
    agentsync_to_copilot, agentsync_to_cursor, agentsync_to_windsurf, copilot_rule_to_agentsync,
    copilot_to_agentsync, cursor_rule_to_agentsync, cursor_to_agentsync, is_universal_glob,
    normalize_globs, windsurf_rule_to_agentsync, windsurf_to_agentsync,
};
use agentsync::models::{
    AgentSyncRule, CopilotConfig, CopilotRule, CursorConfig, CursorRule, Rule, WindsurfConfig,
    WindsurfRule, WindsurfTrigger,
};

#[test]
fn test_normalize_globs_empty() {
    assert_eq!(normalize_globs(""), "");
}

#[test]
fn test_normalize_globs_single() {
    assert_eq!(normalize_globs("**/*.rs"), "**/*.rs");
}

#[test]
fn test_normalize_globs_multiple() {
    assert_eq!(
        normalize_globs("src/**/*.py,tests/**/*.py"),
        "src/**/*.py,tests/**/*.py"
    );
}

#[test]
fn test_normalize_globs_with_spaces() {
    assert_eq!(
        normalize_globs("  src/**/*.py  ,  tests/**/*.py  "),
        "src/**/*.py,tests/**/*.py"
    );
}

#[test]
fn test_is_universal_glob() {
    assert!(is_universal_glob(""));
    assert!(is_universal_glob("**/*"));
    assert!(is_universal_glob("**"));
    assert!(is_universal_glob("  **/*  "));
    assert!(!is_universal_glob("**/*.py"));
    assert!(!is_universal_glob("src/**/*"));
}

#[test]
fn test_cursor_to_agentsync_always_mode() {
    let cursor = CursorRule {
        description: "Test rule".to_string(),
        always_apply: true,
        globs: String::new(),
    };

    let agentsync = cursor_to_agentsync(&cursor);

    assert_eq!(agentsync.description, "Test rule");
    assert_eq!(agentsync.globs, "**/*");
    assert_eq!(agentsync.targets, vec!["*"]);

    let cursor_cfg = agentsync.cursor.expect("should have cursor config");
    assert!(cursor_cfg.always_apply);
    assert_eq!(cursor_cfg.globs, "");

    let windsurf_cfg = agentsync.windsurf.expect("should have windsurf config");
    assert_eq!(windsurf_cfg.trigger, WindsurfTrigger::AlwaysOn);
    assert_eq!(windsurf_cfg.globs, "");

    let copilot_cfg = agentsync.copilot.expect("should have copilot config");
    assert_eq!(copilot_cfg.apply_to, "**");
}

#[test]
fn test_cursor_to_agentsync_auto_attached_with_globs() {
    let cursor = CursorRule {
        description: "Python rule".to_string(),
        always_apply: false,
        globs: "**/*.py".to_string(),
    };

    let agentsync = cursor_to_agentsync(&cursor);

    assert_eq!(agentsync.globs, "**/*.py");

    let cursor_cfg = agentsync.cursor.expect("should have cursor config");
    assert!(!cursor_cfg.always_apply);
    assert_eq!(cursor_cfg.globs, "**/*.py");

    let windsurf_cfg = agentsync.windsurf.expect("should have windsurf config");
    assert_eq!(windsurf_cfg.trigger, WindsurfTrigger::Glob);
    assert_eq!(windsurf_cfg.globs, "**/*.py");

    let copilot_cfg = agentsync.copilot.expect("should have copilot config");
    assert_eq!(copilot_cfg.apply_to, "**/*.py");
}

#[test]
fn test_cursor_to_agentsync_manual_mode() {
    let cursor = CursorRule {
        description: String::new(), // No description for true manual mode
        always_apply: false,
        globs: String::new(),
    };

    let agentsync = cursor_to_agentsync(&cursor);

    assert_eq!(agentsync.globs, "**/*");

    let windsurf_cfg = agentsync.windsurf.expect("should have windsurf config");
    assert_eq!(windsurf_cfg.trigger, WindsurfTrigger::Manual);
}

#[test]
fn test_agentsync_to_cursor() {
    let agentsync = AgentSyncRule {
        targets: vec!["*".to_string()],
        description: "Test rule".to_string(),
        globs: "**/*.rs".to_string(),
        cursor: Some(CursorConfig {
            always_apply: false,
            globs: "**/*.rs".to_string(),
        }),
        windsurf: None,
        copilot: None,
    };

    let cursor = agentsync_to_cursor(&agentsync);

    assert_eq!(cursor.description, "Test rule");
    assert!(!cursor.always_apply);
    assert_eq!(cursor.globs, "**/*.rs");
}

#[test]
fn test_agentsync_to_cursor_fallback() {
    let agentsync = AgentSyncRule {
        targets: vec!["*".to_string()],
        description: "Test rule".to_string(),
        globs: "**/*.rs".to_string(),
        cursor: None,
        windsurf: None,
        copilot: None,
    };

    let cursor = agentsync_to_cursor(&agentsync);

    assert_eq!(cursor.description, "Test rule");
    assert!(!cursor.always_apply);
    assert_eq!(cursor.globs, "**/*.rs");
}

#[test]
fn test_cursor_rule_to_agentsync_with_content() {
    let cursor_rule = Rule {
        frontmatter: CursorRule {
            description: "Test rule".to_string(),
            always_apply: true,
            globs: String::new(),
        },
        content: "# Test Content\n\nRule body here.".to_string(),
    };

    let agentsync_rule = cursor_rule_to_agentsync(&cursor_rule);

    assert_eq!(agentsync_rule.frontmatter.description, "Test rule");
    assert_eq!(agentsync_rule.content, "# Test Content\n\nRule body here.");
}

#[test]
fn test_agentsync_rule_to_cursor_with_content() {
    let agentsync_rule = Rule {
        frontmatter: AgentSyncRule {
            targets: vec!["*".to_string()],
            description: "Test rule".to_string(),
            globs: "**/*.rs".to_string(),
            cursor: Some(CursorConfig {
                always_apply: false,
                globs: "**/*.rs".to_string(),
            }),
            windsurf: None,
            copilot: None,
        },
        content: "# Test Content\n\nRule body here.".to_string(),
    };

    let cursor_rule = agentsync_rule_to_cursor(&agentsync_rule);

    assert_eq!(cursor_rule.frontmatter.description, "Test rule");
    assert_eq!(cursor_rule.content, "# Test Content\n\nRule body here.");
}

#[test]
fn test_roundtrip_cursor_to_agentsync_to_cursor() {
    let original = CursorRule {
        description: "Roundtrip test".to_string(),
        always_apply: false,
        globs: "**/*.py".to_string(),
    };

    let agentsync = cursor_to_agentsync(&original);
    let back_to_cursor = agentsync_to_cursor(&agentsync);

    assert_eq!(original.description, back_to_cursor.description);
    assert_eq!(original.always_apply, back_to_cursor.always_apply);
    assert_eq!(original.globs, back_to_cursor.globs);
}

#[test]
fn test_windsurf_to_agentsync_always_on() {
    let windsurf = WindsurfRule {
        trigger: WindsurfTrigger::AlwaysOn,
        description: "Test rule".to_string(),
        globs: String::new(),
    };

    let agentsync = windsurf_to_agentsync(&windsurf);

    assert_eq!(agentsync.globs, "**/*");

    let cursor_cfg = agentsync.cursor.expect("should have cursor config");
    assert!(cursor_cfg.always_apply);
    assert_eq!(cursor_cfg.globs, "");

    let windsurf_cfg = agentsync.windsurf.expect("should have windsurf config");
    assert_eq!(windsurf_cfg.trigger, WindsurfTrigger::AlwaysOn);

    let copilot_cfg = agentsync.copilot.expect("should have copilot config");
    assert_eq!(copilot_cfg.apply_to, "**");
}

#[test]
fn test_windsurf_to_agentsync_glob_mode() {
    let windsurf = WindsurfRule {
        trigger: WindsurfTrigger::Glob,
        description: "Python rule".to_string(),
        globs: "src/**/*.py, tests/**/*.py".to_string(),
    };

    let agentsync = windsurf_to_agentsync(&windsurf);
    assert_eq!(agentsync.globs, "src/**/*.py,tests/**/*.py");

    let cursor_cfg = agentsync.cursor.expect("should have cursor config");
    assert!(!cursor_cfg.always_apply);
    assert_eq!(cursor_cfg.globs, "src/**/*.py,tests/**/*.py");

    let windsurf_cfg = agentsync.windsurf.expect("should have windsurf config");
    assert_eq!(windsurf_cfg.trigger, WindsurfTrigger::Glob);
    assert_eq!(windsurf_cfg.globs, "src/**/*.py,tests/**/*.py");

    let copilot_cfg = agentsync.copilot.expect("should have copilot config");
    assert_eq!(copilot_cfg.apply_to, "src/**/*.py,tests/**/*.py");
}

#[test]
fn test_windsurf_to_agentsync_model_decision() {
    let windsurf = WindsurfRule {
        trigger: WindsurfTrigger::ModelDecision,
        description: "Smart rule".to_string(),
        globs: String::new(),
    };

    let agentsync = windsurf_to_agentsync(&windsurf);

    assert_eq!(agentsync.globs, "**/*");

    let cursor_cfg = agentsync.cursor.expect("should have cursor config");
    assert!(!cursor_cfg.always_apply);
    assert_eq!(cursor_cfg.globs, "");
}

#[test]
fn test_agentsync_to_windsurf() {
    let agentsync = AgentSyncRule {
        targets: vec!["*".to_string()],
        description: "Test rule".to_string(),
        globs: "**/*.rs".to_string(),
        cursor: None,
        windsurf: Some(WindsurfConfig {
            trigger: WindsurfTrigger::Glob,
            globs: "**/*.rs".to_string(),
        }),
        copilot: None,
    };

    let windsurf = agentsync_to_windsurf(&agentsync);

    assert_eq!(windsurf.description, "Test rule");
    assert_eq!(windsurf.trigger, WindsurfTrigger::Glob);
    assert_eq!(windsurf.globs, "**/*.rs");
}

#[test]
fn test_agentsync_to_windsurf_fallback() {
    let agentsync = AgentSyncRule {
        targets: vec!["*".to_string()],
        description: "Test rule".to_string(),
        globs: "**/*.rs".to_string(),
        cursor: None,
        windsurf: None,
        copilot: None,
    };

    let windsurf = agentsync_to_windsurf(&agentsync);

    // without an override, a non-universal global glob projects as a
    // glob-triggered rule carrying it
    assert_eq!(windsurf.description, "Test rule");
    assert_eq!(windsurf.trigger, WindsurfTrigger::Glob);
    assert_eq!(windsurf.globs, "**/*.rs");
}

#[test]
fn test_agentsync_to_windsurf_fallback_universal() {
    let agentsync = AgentSyncRule {
        targets: vec!["*".to_string()],
        description: "Test rule".to_string(),
        globs: "**/*".to_string(),
        cursor: None,
        windsurf: None,
        copilot: None,
    };

    let windsurf = agentsync_to_windsurf(&agentsync);

    // a universal glob means no constraint: the fallback trigger is
    // model-decision and the glob field stays empty
    assert_eq!(windsurf.trigger, WindsurfTrigger::ModelDecision);
    assert_eq!(windsurf.globs, "");
}

#[test]
fn test_windsurf_fallback_roundtrip_keeps_glob_mode() {
    // the fallback projection reads back in the same mode it encodes
    let agentsync = AgentSyncRule {
        targets: vec!["*".to_string()],
        description: "X".to_string(),
        globs: "**/*.py".to_string(),
        cursor: None,
        windsurf: None,
        copilot: None,
    };
    let windsurf = agentsync_to_windsurf(&agentsync);
    let back = windsurf_to_agentsync(&windsurf);
    assert_eq!(back.globs, "**/*.py");
    assert_eq!(
        back.windsurf.expect("windsurf config").trigger,
        WindsurfTrigger::Glob
    );
}

#[test]
fn test_roundtrip_windsurf_to_agentsync_to_windsurf() {
    let original = WindsurfRule {
        trigger: WindsurfTrigger::Glob,
        description: "Roundtrip test".to_string(),
        globs: "src/**/*.py,tests/**/*.py".to_string(),
    };

    let agentsync = windsurf_to_agentsync(&original);
    let back_to_windsurf = agentsync_to_windsurf(&agentsync);

    assert_eq!(original.description, back_to_windsurf.description);
    assert_eq!(original.trigger, back_to_windsurf.trigger);
    assert_eq!(original.globs, back_to_windsurf.globs);
}

#[test]
fn test_copilot_to_agentsync_universal() {
    let copilot = CopilotRule {
        description: "Test rule".to_string(),
        apply_to: "**".to_string(),
    };

    let agentsync = copilot_to_agentsync(&copilot);
    assert_eq!(agentsync.globs, "**/*");

    let cursor_cfg = agentsync.cursor.expect("should have cursor config");
    assert!(cursor_cfg.always_apply);
    assert_eq!(cursor_cfg.globs, "");

    let windsurf_cfg = agentsync.windsurf.expect("should have windsurf config");
    assert_eq!(windsurf_cfg.trigger, WindsurfTrigger::AlwaysOn);
    assert_eq!(windsurf_cfg.globs, "");

    let copilot_cfg = agentsync.copilot.expect("should have copilot config");
    assert_eq!(copilot_cfg.apply_to, "**");
}

#[test]
fn test_copilot_to_agentsync_specific_pattern() {
    let copilot = CopilotRule {
        description: "Python rule".to_string(),
        apply_to: "**/*.py".to_string(),
    };

    let agentsync = copilot_to_agentsync(&copilot);
    assert_eq!(agentsync.globs, "**/*.py");

    let cursor_cfg = agentsync.cursor.expect("should have cursor config");
    assert!(!cursor_cfg.always_apply);
    assert_eq!(cursor_cfg.globs, "**/*.py");

    let windsurf_cfg = agentsync.windsurf.expect("should have windsurf config");
    assert_eq!(windsurf_cfg.trigger, WindsurfTrigger::Glob);
    assert_eq!(windsurf_cfg.globs, "**/*.py");

    let copilot_cfg = agentsync.copilot.expect("should have copilot config");
    assert_eq!(copilot_cfg.apply_to, "**/*.py");
}

#[test]
fn test_agentsync_to_copilot() {
    let agentsync = AgentSyncRule {
        targets: vec!["*".to_string()],
        description: "Test rule".to_string(),
        globs: "**/*.rs".to_string(),
        cursor: None,
        windsurf: None,
        copilot: Some(CopilotConfig {
            apply_to: "**/*.rs".to_string(),
        }),
    };

    let copilot = agentsync_to_copilot(&agentsync);

    assert_eq!(copilot.description, "Test rule");
    assert_eq!(copilot.apply_to, "**/*.rs");
}

#[test]
fn test_agentsync_to_copilot_fallback() {
    let agentsync = AgentSyncRule {
        targets: vec!["*".to_string()],
        description: "Test rule".to_string(),
        globs: "**/*.rs".to_string(),
        cursor: None,
        windsurf: None,
        copilot: None,
    };

    let copilot = agentsync_to_copilot(&agentsync);

    assert_eq!(copilot.description, "Test rule");
    assert_eq!(copilot.apply_to, "**/*.rs");
}

#[test]
fn test_roundtrip_copilot_to_agentsync_to_copilot() {
    let original = CopilotRule {
        description: "Roundtrip test".to_string(),
        apply_to: "**/*.py".to_string(),
    };

    let agentsync = copilot_to_agentsync(&original);
    let back_to_copilot = agentsync_to_copilot(&agentsync);

    assert_eq!(original.description, back_to_copilot.description);
    assert_eq!(original.apply_to, back_to_copilot.apply_to);
}

#[test]
fn test_empty_description_handling() {
    let cursor = CursorRule {
        description: String::new(),
        always_apply: true,
        globs: String::new(),
    };

    let agentsync = cursor_to_agentsync(&cursor);
    assert_eq!(agentsync.description, "");

    let back_to_cursor = agentsync_to_cursor(&agentsync);
    assert_eq!(back_to_cursor.description, "");
}

#[test]
fn test_missing_tool_configs_use_fallback() {
    let agentsync = AgentSyncRule {
        targets: vec!["*".to_string()],
        description: "No tool configs".to_string(),
        globs: "**/*.py".to_string(),
        cursor: None,
        windsurf: None,
        copilot: None,
    };

    // Should use fallback logic based on global globs
    let cursor = agentsync_to_cursor(&agentsync);
    assert_eq!(cursor.globs, "**/*.py");

    let windsurf = agentsync_to_windsurf(&agentsync);
    assert_eq!(windsurf.globs, "**/*.py");

    let copilot = agentsync_to_copilot(&agentsync);
    assert_eq!(copilot.apply_to, "**/*.py");
}

#[test]
fn test_cursor_always_mode_conversion() {
    let cursor_content = "---\ndescription: \"Always applied rule\"\nalwaysApply: true\nglobs: \"\"\n---\n\n# Always Rule\n\nThis rule is always applied.\n";

    let cursor_rule: Rule<CursorRule> =
        agentsync::parser::parse_frontmatter(cursor_content, None).unwrap();
    let agentsync_rule = cursor_rule_to_agentsync(&cursor_rule);

    // Verify inference: always mode is always-on for all tools
    assert_eq!(agentsync_rule.frontmatter.globs, "**/*");

    let cursor_cfg = agentsync_rule.frontmatter.cursor.as_ref().unwrap();
    assert!(cursor_cfg.always_apply);

    let windsurf_cfg = agentsync_rule.frontmatter.windsurf.as_ref().unwrap();
    assert_eq!(windsurf_cfg.trigger, WindsurfTrigger::AlwaysOn);

    let copilot_cfg = agentsync_rule.frontmatter.copilot.as_ref().unwrap();
    assert_eq!(copilot_cfg.apply_to, "**");
}

#[test]
fn test_windsurf_glob_mode_conversion() {
    let windsurf_content = "---\ntrigger: glob\ndescription: \"Glob-based rule\"\nglobs: \"**/*.ts, **/*.tsx\"\n---\n\n# TypeScript Rule\n\nTypeScript-specific guidelines.\n";

    let windsurf_rule: Rule<WindsurfRule> =
        agentsync::parser::parse_frontmatter(windsurf_content, None).unwrap();
    let agentsync_rule = windsurf_rule_to_agentsync(&windsurf_rule);

    // Parsed globs are normalized, so the glob mode carries them comma-joined
    assert_eq!(agentsync_rule.frontmatter.globs, "**/*.ts,**/*.tsx");

    let cursor_cfg = agentsync_rule.frontmatter.cursor.as_ref().unwrap();
    assert!(!cursor_cfg.always_apply);
    assert_eq!(cursor_cfg.globs, "**/*.ts,**/*.tsx");

    let windsurf_cfg = agentsync_rule.frontmatter.windsurf.as_ref().unwrap();
    assert_eq!(windsurf_cfg.trigger, WindsurfTrigger::Glob);

    let copilot_cfg = agentsync_rule.frontmatter.copilot.as_ref().unwrap();
    assert_eq!(copilot_cfg.apply_to, "**/*.ts,**/*.tsx");
}

#[test]
fn test_copilot_universal_pattern_conversion() {
    let copilot_content = "---\ndescription: \"Universal rule\"\napplyTo: \"**\"\n---\n\n# Universal Rule\n\nApplies to all files.\n";

    let copilot_rule: Rule<CopilotRule> =
        agentsync::parser::parse_frontmatter(copilot_content, None).unwrap();
    let agentsync_rule = copilot_rule_to_agentsync(&copilot_rule);

    // Verify inference: universal pattern means always mode
    assert_eq!(agentsync_rule.frontmatter.globs, "**/*");

    let cursor_cfg = agentsync_rule.frontmatter.cursor.as_ref().unwrap();
    assert!(cursor_cfg.always_apply);

    let windsurf_cfg = agentsync_rule.frontmatter.windsurf.as_ref().unwrap();
    assert_eq!(windsurf_cfg.trigger, WindsurfTrigger::AlwaysOn);

    let copilot_cfg = agentsync_rule.frontmatter.copilot.as_ref().unwrap();
    assert_eq!(copilot_cfg.apply_to, "**");
}

#[test]
fn test_universal_glob_three_spellings_agree() {
    // "", "**" and "**/*" all mean "every file" and infer the same
    // always-on canonical rule from a Copilot file.
    for spelling in ["", "**", "**/*"] {
        let copilot = CopilotRule {
            description: "Universal".to_string(),
            apply_to: spelling.to_string(),
        };
        let agentsync = copilot_to_agentsync(&copilot);
        assert_eq!(agentsync.globs, "**/*", "spelling {spelling:?}");
        let cursor_cfg = agentsync.cursor.expect("cursor config");
        assert!(cursor_cfg.always_apply, "spelling {spelling:?}");
        let windsurf_cfg = agentsync.windsurf.expect("windsurf config");
        assert_eq!(windsurf_cfg.trigger, WindsurfTrigger::AlwaysOn);
        let copilot_cfg = agentsync.copilot.expect("copilot config");
        assert_eq!(copilot_cfg.apply_to, "**");
    }
}

#[test]
fn test_glob_normalization_space_insensitive() {
    // Whitespace around commas never matters: both spellings store the
    // same value.
    assert_eq!(normalize_globs("a.py, b.py"), normalize_globs("a.py,b.py"));
    assert_eq!(normalize_globs("a.py, b.py"), "a.py,b.py");
}

#[test]
fn test_normalize_globs_idempotent_on_samples() {
    for g in ["", "a.py", "a.py, b.py", " x ,y,  z "] {
        let once = normalize_globs(g);
        let twice = normalize_globs(&once);
        assert_eq!(once, twice, "input {g:?}");
    }
}

#[test]
fn test_manual_mode_needs_empty_description_for_cursor() {
    // Cursor distinguishes manual from intelligent only by the presence of
    // a description: a non-empty description reads back as intelligent.
    let manual = CursorRule {
        description: String::new(),
        always_apply: false,
        globs: String::new(),
    };
    let back = cursor_to_agentsync(&manual);
    assert_eq!(
        back.windsurf.expect("windsurf config").trigger,
        WindsurfTrigger::Manual
    );

    let described = CursorRule {
        description: "Explained".to_string(),
        always_apply: false,
        globs: String::new(),
    };
    let back = cursor_to_agentsync(&described);
    assert_eq!(
        back.windsurf.expect("windsurf config").trigger,
        WindsurfTrigger::ModelDecision
    );
}

#[test]
fn test_copilot_loses_manual_and_intelligent() {
    // Copilot cannot express manual or intelligent activation: both
    // project to the universal applyTo, which reads back as always-on.
    let manual = AgentSyncRule {
        targets: vec!["*".to_string()],
        description: String::new(),
        globs: "**/*".to_string(),
        cursor: Some(CursorConfig {
            always_apply: false,
            globs: String::new(),
        }),
        windsurf: Some(WindsurfConfig {
            trigger: WindsurfTrigger::Manual,
            globs: String::new(),
        }),
        copilot: Some(CopilotConfig {
            apply_to: "**".to_string(),
        }),
    };
    let copilot = agentsync_to_copilot(&manual);
    assert_eq!(copilot.apply_to, "**");
    let back = copilot_to_agentsync(&copilot);
    assert_eq!(
        back.windsurf.expect("windsurf config").trigger,
        WindsurfTrigger::AlwaysOn
    );
}
