//! Tool locations, rule paths and rule names.

use agentsync::fs::{Tool, extract_rule_name, rule_path, validate_rule_name};
use agentsync::AgentSyncError;

#[test]
fn test_tool_from_str() {
    assert_eq!(
        "cursor".parse::<Tool>().expect("should parse cursor"),
        Tool::Cursor
    );
    assert_eq!(
        "copilot".parse::<Tool>().expect("should parse copilot"),
        Tool::Copilot
    );
    assert_eq!(
        "windsurf".parse::<Tool>().expect("should parse windsurf"),
        Tool::Windsurf
    );
    assert_eq!(
        "agentsync".parse::<Tool>().expect("should parse agentsync"),
        Tool::AgentSync
    );
    assert!("invalid".parse::<Tool>().is_err());
}

#[test]
fn test_tool_directory() {
    assert_eq!(Tool::Cursor.directory(), ".cursor/rules");
    assert_eq!(Tool::Copilot.directory(), ".github/instructions");
    assert_eq!(Tool::Windsurf.directory(), ".windsurf/rules");
    assert_eq!(Tool::AgentSync.directory(), ".agentsync/rules");
}

#[test]
fn test_tool_extension() {
    assert_eq!(Tool::Cursor.extension(), "mdc");
    assert_eq!(Tool::Copilot.extension(), "md");
    assert_eq!(Tool::Windsurf.extension(), "md");
    assert_eq!(Tool::AgentSync.extension(), "md");
}

#[test]
fn test_extract_rule_name() {
    assert_eq!(
        extract_rule_name("/path/to/python-dev.md"),
        Some("python-dev".to_string())
    );
    assert_eq!(extract_rule_name("rule.mdc"), Some("rule".to_string()));
    assert_eq!(
        extract_rule_name("/path/to/react-rules.instructions.md"),
        Some("react-rules".to_string())
    );
    assert_eq!(extract_rule_name("/"), None);
}

#[test]
fn test_validate_rule_name() {
    // Valid names
    assert!(validate_rule_name("python-dev").is_ok());
    assert!(validate_rule_name("react-components").is_ok());
    assert!(validate_rule_name("rule123").is_ok());
    assert!(validate_rule_name("my-rule-2").is_ok());

    // Invalid names
    assert!(validate_rule_name("").is_err());
    assert!(validate_rule_name("Python-Dev").is_err()); // uppercase
    assert!(validate_rule_name("-python").is_err()); // starts with hyphen
    assert!(validate_rule_name("python-").is_err()); // ends with hyphen
    assert!(validate_rule_name("python--dev").is_err()); // consecutive hyphens
    assert!(validate_rule_name("python_dev").is_err()); // underscore
    assert!(validate_rule_name("python dev").is_err()); // space
}

#[test]
fn test_rule_path_construction_for_each_tool() {
    let path = rule_path("/project", Tool::Cursor, "python-dev").expect("should build path");
    assert_eq!(path, "/project/.cursor/rules/python-dev.mdc");

    let path = rule_path("/project", Tool::Copilot, "react-rules").expect("should build path");
    assert_eq!(path, "/project/.github/instructions/react-rules.instructions.md");

    let path = rule_path("/project", Tool::Windsurf, "style").expect("should build path");
    assert_eq!(path, "/project/.windsurf/rules/style.md");

    let path = rule_path("/project", Tool::AgentSync, "style").expect("should build path");
    assert_eq!(path, "/project/.agentsync/rules/style.md");
}

#[test]
fn test_rule_path_rejects_traversal() {
    let result = rule_path("/project", Tool::Cursor, "../../../etc/passwd");
    assert!(result.is_err());
    assert!(matches!(
        result.unwrap_err(),
        AgentSyncError::PathTraversal { .. }
    ));
}

#[test]
fn test_extract_rule_names_from_fixtures() {
    // the fixture file names of each tool derive valid rule names
    for filename in ["python-dev.mdc", "react-components.mdc"] {
        let rule_name = extract_rule_name(filename).unwrap();
        assert!(!rule_name.is_empty());
        // Verify it's a valid rule name
        assert!(validate_rule_name(&rule_name).is_ok());
    }
    for filename in ["python-standards.instructions.md", "python-dev.md", "rust-dev.md"] {
        let rule_name = extract_rule_name(filename).unwrap();
        assert!(!rule_name.is_empty());
        assert!(validate_rule_name(&rule_name).is_ok());
    }
}

#[test]
fn test_invalid_rule_name_error_carries_name() {
    match validate_rule_name("Bad Name") {
        Err(AgentSyncError::InvalidRuleName { name }) => assert_eq!(name, "Bad Name"),
        other => panic!("expected InvalidRuleName, got {other:?}"),
    }
    match validate_rule_name("") {
        Err(AgentSyncError::InvalidRuleName { name }) => {
            assert_eq!(name, "Rule name cannot be empty")
        },
        other => panic!("expected InvalidRuleName, got {other:?}"),
    }
}

#[test]
fn test_invalid_tool_error_suggests_nearest() {
    // the suggestion comes from the edit distance to the three valid names
    match Tool::from_name("windsurfer") {
        Err(e @ AgentSyncError::InvalidTool { .. }) => {
            let msg = e.message();
            assert!(msg.contains("Did you mean 'windsurf'"), "{msg}");
        },
        other => panic!("expected InvalidTool, got {other:?}"),
    }
    match Tool::from_name("cursr") {
        Err(e @ AgentSyncError::InvalidTool { .. }) => {
            let msg = e.message();
            assert!(msg.contains("Did you mean 'cursor'"), "{msg}");
        },
        other => panic!("expected InvalidTool, got {other:?}"),
    }
}

#[test]
fn test_add_validates_rule_name() {
    // Test invalid characters
    let invalid_names = vec![
        "rule with spaces",
        "rule/with/slash",
        "rule@with@at",
        "rule.with.dots",
    ];

    for name in invalid_names {
        // Check if name contains invalid characters
        let has_invalid = name.contains(|c: char| !c.is_alphanumeric() && c != '-' && c != '_');
        assert!(has_invalid, "Expected '{name}' to be invalid");
    }

    // Test valid names
    let valid_names = vec![
        "python-dev",
        "react_components",
        "rust-best-practices",
        "test123",
    ];

    for name in valid_names {
        let has_invalid = name.contains(|c: char| !c.is_alphanumeric() && c != '-' && c != '_');
        assert!(!has_invalid, "Expected {name} to be valid");
    }
}
