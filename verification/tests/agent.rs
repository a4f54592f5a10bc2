use std::path::PathBuf;

use fey::agent::{open_workspace, prompt_text};
use fey::workspace::{PathProbe, WorkspaceError};
use fey::{AgentConfig, AgentError, AgentReply};

fn assert_send_sync<T: Send + Sync>() {}

#[test]
fn new_rejects_a_blank_model_name_without_touching_the_network() {
    let config = AgentConfig {
        model: "   ".to_string(),
        ollama_base_url: "http://127.0.0.1:1".to_string(),
        workspace_root: PathBuf::from("/tmp/ws"),
    };

    let err = config.model_name().err().unwrap();

    assert!(matches!(err, AgentError::EmptyModel));
}

#[test]
fn model_names_are_trimmed() {
    let config = AgentConfig {
        model: " qwen3\t".to_string(),
        ollama_base_url: "http://127.0.0.1:1".to_string(),
        workspace_root: PathBuf::from("/tmp/ws"),
    };

    assert_eq!(config.model_name().unwrap(), "qwen3");
}

#[test]
fn new_reports_an_invalid_workspace_without_touching_the_network() {
    let missing = "/tmp/ws/missing";

    let err = open_workspace(
        missing,
        PathProbe::Missing("No such file or directory".to_string()),
    )
    .err()
    .unwrap();

    match &err {
        AgentError::Workspace { path, source } => {
            assert_eq!(path, missing);
            assert!(matches!(source, WorkspaceError::Io { .. }));
        }
        _ => panic!("expected a workspace error"),
    }
    assert_eq!(
        err.message(),
        "failed to initialize workspace at \"/tmp/ws/missing\": failed to access \"/tmp/ws/missing\""
    );
}

#[test]
fn prompt_rejects_blank_input_without_touching_the_network() {
    let err = prompt_text("   ").err().unwrap();

    assert!(matches!(err, AgentError::EmptyPrompt));
}

#[test]
fn prompts_are_trimmed() {
    assert_eq!(prompt_text("\u{3000}what is here?\n").unwrap(), "what is here?");
}

#[test]
fn agent_errors_have_their_messages() {
    assert_eq!(AgentError::EmptyModel.message(), "model name must not be empty");
    assert_eq!(AgentError::EmptyPrompt.message(), "prompt must not be empty");
}

#[test]
fn public_types_are_built_from_plain_std_types_and_are_send_sync() {
    let _config = AgentConfig {
        model: String::from("qwen3"),
        ollama_base_url: String::from("http://localhost:11434"),
        workspace_root: PathBuf::from("."),
    };
    let AgentReply { text } = AgentReply {
        text: String::from("hi"),
    };
    assert_eq!(text, "hi");

    assert_send_sync::<AgentConfig>();
    assert_send_sync::<AgentError>();
    assert_send_sync::<AgentReply>();
}
