//! The data model: triggers, defaults, and error messages.

use agentsync::error::nearest_tool;
use agentsync::models::WindsurfTrigger;
use agentsync::AgentSyncError;

#[test]
fn test_trigger_names_round_trip() {
    for trigger in [
        WindsurfTrigger::Manual,
        WindsurfTrigger::AlwaysOn,
        WindsurfTrigger::ModelDecision,
        WindsurfTrigger::Glob,
    ] {
        assert_eq!(WindsurfTrigger::from_name(trigger.name()), Some(trigger));
    }
    assert_eq!(WindsurfTrigger::from_name("bogus"), None);
    assert_eq!(WindsurfTrigger::Manual.name(), "manual");
    assert_eq!(WindsurfTrigger::AlwaysOn.name(), "always_on");
    assert_eq!(WindsurfTrigger::ModelDecision.name(), "model_decision");
    assert_eq!(WindsurfTrigger::Glob.name(), "glob");
}

#[test]
fn test_trigger_default_is_model_decision() {
    assert_eq!(WindsurfTrigger::default(), WindsurfTrigger::ModelDecision);
}

#[test]
fn test_nearest_tool_exact_values() {
    // one substitution from "cursor", one deletion from "windsurf"
    assert_eq!(nearest_tool("kursor"), "cursor");
    assert_eq!(nearest_tool("windsuf"), "windsurf");
    assert_eq!(nearest_tool("copilo"), "copilot");
    // an exact name is nearest to itself
    assert_eq!(nearest_tool("copilot"), "copilot");
}

#[test]
fn test_error_messages_name_their_subject() {
    let io = AgentSyncError::Io { message: "disk full".into() };
    assert!(io.message().contains("disk full"));

    let not_found = AgentSyncError::ConfigNotFound { path: "x/agentsync.json".into() };
    assert!(not_found.message().contains("x/agentsync.json"));
    assert!(not_found.message().contains("agentsync init"));

    let not_init = AgentSyncError::NotInitialized;
    assert!(not_init.message().contains("not initialized"));

    let denied = AgentSyncError::PermissionDenied { path: "/root/secret".into() };
    assert!(denied.message().contains("/root/secret"));

    let other = AgentSyncError::Other("anything else".into());
    assert_eq!(other.message(), "anything else");

    let frontmatter = AgentSyncError::FrontmatterParse {
        file: "a.md".into(),
        line: Some(1),
        message: "Missing opening '---' delimiter".into(),
    };
    assert!(frontmatter.message().contains("a.md"));
    assert!(frontmatter.message().contains("Missing opening"));
}

#[test]
fn test_short_tool_name_gets_no_suggestion() {
    // a name of two characters is too short to be a plausible typo
    let err = AgentSyncError::InvalidTool { tool: "cu".into() };
    let msg = err.message();
    assert!(!msg.contains("Did you mean"));
    assert!(msg.contains("Valid tools"));
}
