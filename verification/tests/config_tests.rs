//! The configuration record: defaults and validation.

use agentsync::config::create_default_config;
use agentsync::models::AgentSyncConfig;

#[test]
fn test_create_default_config() {
    let config = create_default_config();
    assert_eq!(config.tools.len(), 3);
    assert!(config.tools.contains(&"cursor".to_string()));
    assert!(config.tools.contains(&"copilot".to_string()));
    assert!(config.tools.contains(&"windsurf".to_string()));
    assert_eq!(config.base_dirs, vec!["."]);
}

#[test]
fn test_config_validation() {
    let valid_config = AgentSyncConfig {
        tools: vec!["cursor".to_string()],
        base_dirs: vec![".".to_string()],
    };
    assert!(valid_config.validate().is_ok());

    let invalid_tool_config = AgentSyncConfig {
        tools: vec!["unknown".to_string()],
        base_dirs: vec![".".to_string()],
    };
    assert!(invalid_tool_config.validate().is_err());

    let empty_dirs_config = AgentSyncConfig {
        tools: vec!["cursor".to_string()],
        base_dirs: vec![],
    };
    assert!(empty_dirs_config.validate().is_err());
}

#[test]
fn test_config_validation_with_suggestions() {
    // Test typo suggestions
    let typo_config = AgentSyncConfig {
        tools: vec!["github-copilot".to_string()],
        base_dirs: vec![".".to_string()],
    };
    let result = typo_config.validate();
    assert!(result.is_err());
    let err_msg = result.unwrap_err().message();
    assert!(err_msg.contains("Did you mean 'copilot'?"));

    // Test unsupported tool
    let unsupported_config = AgentSyncConfig {
        tools: vec!["codeium".to_string()],
        base_dirs: vec![".".to_string()],
    };
    let result = unsupported_config.validate();
    assert!(result.is_err());
    let err_msg = result.unwrap_err().message();
    assert!(err_msg.contains("not yet supported"));
}

#[test]
fn test_config_validation_path_traversal() {
    // Test path traversal in baseDirs
    let traversal_config = AgentSyncConfig {
        tools: vec!["cursor".to_string()],
        base_dirs: vec![".".to_string(), "../other-project".to_string()],
    };
    let result = traversal_config.validate();
    assert!(result.is_err());
    let err_msg = result.unwrap_err().message();
    assert!(err_msg.contains("path traversal") || err_msg.contains("Invalid baseDir"));
}

#[test]
fn test_config_validation_empty_base_dir() {
    let empty_base_dir_config = AgentSyncConfig {
        tools: vec!["cursor".to_string()],
        base_dirs: vec![".".to_string(), String::new()],
    };
    let result = empty_base_dir_config.validate();
    assert!(result.is_err());
}

#[test]
fn test_config_validation_all_valid_tools() {
    let all_tools_config = AgentSyncConfig {
        tools: vec![
            "cursor".to_string(),
            "copilot".to_string(),
            "windsurf".to_string(),
        ],
        base_dirs: vec![".".to_string()],
    };
    assert!(all_tools_config.validate().is_ok());
}

#[test]
fn test_agentsync_config_validation() {
    let config = AgentSyncConfig::default();
    assert!(config.validate().is_ok());

    let invalid_config = AgentSyncConfig {
        tools: vec!["invalid".to_string()],
        base_dirs: vec![".".to_string()],
    };
    assert!(invalid_config.validate().is_err());

    let empty_dirs_config = AgentSyncConfig {
        tools: vec!["cursor".to_string()],
        base_dirs: vec![],
    };
    assert!(empty_dirs_config.validate().is_err());
}

#[test]
fn test_invalid_tool_message_names_tool_and_list() {
    let config = AgentSyncConfig {
        tools: vec!["invalid_tool".to_string()],
        base_dirs: vec![".".to_string()],
    };
    let err_msg = config.validate().unwrap_err().message();
    assert!(err_msg.contains("invalid_tool"));
    assert!(err_msg.contains("Valid tools"));
}
