//! The per-tool processors and their dispatch.

use agentsync::fs::Tool;
use agentsync::models::{
    AgentSyncRule, CopilotConfig, CursorConfig, Rule, WindsurfConfig, WindsurfTrigger,
};
use agentsync::processor::{
    AnyProcessor, CopilotProcessor, CursorProcessor, Processor, WindsurfProcessor, get_processor,
};

#[test]
fn test_get_processor_cursor() {
    let processor = get_processor(Tool::Cursor);
    assert_eq!(processor.tool(), Tool::Cursor);
}

#[test]
fn test_get_processor_copilot() {
    let processor = get_processor(Tool::Copilot);
    assert_eq!(processor.tool(), Tool::Copilot);
}

#[test]
fn test_get_processor_windsurf() {
    let processor = get_processor(Tool::Windsurf);
    assert_eq!(processor.tool(), Tool::Windsurf);
}

#[test]
fn test_copilot_processor_tool() {
    let processor = CopilotProcessor;
    assert_eq!(processor.tool(), Tool::Copilot);
}

#[test]
fn test_copilot_processor_convert_from_agentsync() {
    let processor = CopilotProcessor;

    let agentsync_rule = Rule {
        frontmatter: AgentSyncRule {
            targets: vec!["copilot".to_string()],
            description: "Test rule".to_string(),
            globs: "**/*.rs".to_string(),
            cursor: None,
            windsurf: None,
            copilot: Some(CopilotConfig {
                apply_to: "**/*.rs".to_string(),
            }),
        },
        content: "# Test Rule\n\nThis is a test.".to_string(),
    };

    let result = processor.convert_from_agentsync(&agentsync_rule);
    assert!(result.is_ok());

    let content = result.unwrap();
    assert!(content.contains("description: Test rule"));
    assert!(content.contains("applyTo:"));
    assert!(content.contains("# Test Rule"));
}

#[test]
fn test_copilot_processor_convert_roundtrip() {
    let processor = CopilotProcessor;

    // Start with the canonical format
    let original = Rule {
        frontmatter: AgentSyncRule {
            targets: vec!["copilot".to_string()],
            description: "Roundtrip test".to_string(),
            globs: "**/*.go".to_string(),
            cursor: None,
            windsurf: None,
            copilot: Some(CopilotConfig {
                apply_to: "**/*.go".to_string(),
            }),
        },
        content: "# Roundtrip\n\nTest content.".to_string(),
    };

    // Convert to the Copilot format
    let copilot_content = processor.convert_from_agentsync(&original).unwrap();

    // Convert back to the canonical format
    let converted = processor
        .convert_to_agentsync(&copilot_content, "test.md")
        .unwrap();

    // Verify key fields are preserved
    assert_eq!(converted.frontmatter.description, original.frontmatter.description);
    assert!(converted.content.contains("Roundtrip"));
}

#[test]
fn test_copilot_processor_missing_frontmatter() {
    let processor = CopilotProcessor;

    let no_frontmatter = "# Just Content\n\nNo frontmatter here.";

    let result = processor.convert_to_agentsync(no_frontmatter, "test.md");
    assert!(result.is_err());
}

#[test]
fn test_cursor_processor_convert_from_agentsync() {
    let processor = CursorProcessor;

    let agentsync_rule = Rule {
        frontmatter: AgentSyncRule {
            targets: vec!["cursor".to_string()],
            description: "Test rule".to_string(),
            globs: "**/*.rs".to_string(),
            cursor: Some(CursorConfig {
                always_apply: false, // Use false to test description in frontmatter
                globs: "**/*.rs".to_string(),
            }),
            windsurf: None,
            copilot: None,
        },
        content: "# Test Rule\n\nThis is a test.".to_string(),
    };

    let result = processor.convert_from_agentsync(&agentsync_rule);
    assert!(result.is_ok());

    let content = result.unwrap();
    assert!(content.contains("description: Test rule"));
    assert!(content.contains("alwaysApply: false"));
    assert!(content.contains("globs: **/*.rs"));
    assert!(content.contains("# Test Rule"));
}

#[test]
fn test_cursor_processor_convert_roundtrip() {
    let processor = CursorProcessor;

    // Start with the canonical format
    let original = Rule {
        frontmatter: AgentSyncRule {
            targets: vec!["cursor".to_string()],
            description: "Roundtrip test".to_string(),
            globs: "**/*.ts".to_string(),
            cursor: Some(CursorConfig {
                always_apply: false,
                globs: "**/*.ts".to_string(),
            }),
            windsurf: None,
            copilot: None,
        },
        content: "# Roundtrip\n\nTest content.".to_string(),
    };

    // Convert to the Cursor format
    let cursor_content = processor.convert_from_agentsync(&original).unwrap();

    // Convert back to the canonical format
    let converted = processor
        .convert_to_agentsync(&cursor_content, "test.mdc")
        .unwrap();

    // Verify key fields are preserved
    assert_eq!(converted.frontmatter.description, original.frontmatter.description);
    assert!(converted.content.contains("Roundtrip"));
}

#[test]
fn test_windsurf_processor_tool() {
    let processor = WindsurfProcessor;
    assert_eq!(processor.tool(), Tool::Windsurf);
}

#[test]
fn test_windsurf_processor_convert_from_agentsync() {
    let processor = WindsurfProcessor;

    let agentsync_rule = Rule {
        frontmatter: AgentSyncRule {
            targets: vec!["windsurf".to_string()],
            description: "Test rule".to_string(),
            globs: "**/*.rs".to_string(),
            cursor: None,
            windsurf: Some(WindsurfConfig {
                trigger: WindsurfTrigger::Glob, // Use Glob to test description in frontmatter
                globs: "**/*.rs".to_string(),
            }),
            copilot: None,
        },
        content: "# Test Rule\n\nThis is a test.".to_string(),
    };

    let result = processor.convert_from_agentsync(&agentsync_rule);
    assert!(result.is_ok());

    let content = result.unwrap();
    assert!(content.contains("description: Test rule"));
    assert!(content.contains("trigger: glob"));
    assert!(content.contains("globs: '**/*.rs'"));
    assert!(content.contains("# Test Rule"));
}

#[test]
fn test_windsurf_processor_convert_roundtrip() {
    let processor = WindsurfProcessor;

    // Start with the canonical format
    let original = Rule {
        frontmatter: AgentSyncRule {
            targets: vec!["windsurf".to_string()],
            description: "Roundtrip test".to_string(),
            globs: "**/*.ts".to_string(),
            cursor: None,
            windsurf: Some(WindsurfConfig {
                trigger: WindsurfTrigger::Glob,
                globs: "**/*.ts".to_string(),
            }),
            copilot: None,
        },
        content: "# Roundtrip\n\nTest content.".to_string(),
    };

    // Convert to the Windsurf format
    let windsurf_content = processor.convert_from_agentsync(&original).unwrap();

    // Convert back to the canonical format
    let converted = processor
        .convert_to_agentsync(&windsurf_content, "test.md")
        .unwrap();

    // Verify key fields are preserved
    assert_eq!(converted.frontmatter.description, original.frontmatter.description);
    assert!(converted.content.contains("Roundtrip"));
}

#[test]
fn test_windsurf_processor_missing_frontmatter() {
    let processor = WindsurfProcessor;

    let no_frontmatter = "# Just Content\n\nNo frontmatter here.";

    let result = processor.convert_to_agentsync(no_frontmatter, "test.md");
    assert!(result.is_err());
}

#[test]
fn test_any_processor_converts_like_its_tool() {
    let rule = Rule {
        frontmatter: AgentSyncRule {
            targets: vec!["*".to_string()],
            description: "Shared".to_string(),
            globs: "**/*.py".to_string(),
            cursor: None,
            windsurf: None,
            copilot: None,
        },
        content: "# Shared\n".to_string(),
    };
    let through_enum = match get_processor(Tool::Cursor) {
        p @ AnyProcessor::Cursor(_) => p.convert_from_agentsync(&rule).unwrap(),
        other => panic!("expected the cursor processor, got {:?}", other.tool()),
    };
    let direct = CursorProcessor.convert_from_agentsync(&rule).unwrap();
    assert_eq!(through_enum, direct);
}
