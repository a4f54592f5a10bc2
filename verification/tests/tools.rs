use fey::read_file::ReadFileError;
use fey::tools::{map_read_file_error, map_workspace_error, ToolFailure};
use fey::workspace::WorkspaceError;

/// A path with no plausible relation to a real workspace root, standing in
/// for "the absolute path on the host machine" in assertions below.
fn host_only_path() -> String {
    "/host/machine/only/secret.txt".to_string()
}

#[test]
fn empty_path_is_model_visible_and_invalid_args() {
    let error = map_workspace_error(WorkspaceError::EmptyPath);

    assert!(matches!(error, ToolFailure::InvalidArgs(_)));
    assert_eq!(error.model_feedback(), Some("path must not be empty"));
}

#[test]
fn wrong_kind_is_model_visible_and_carries_no_host_path() {
    let requested = "sub/file.txt".to_string();
    let error = map_workspace_error(WorkspaceError::WrongKind {
        path: requested.clone(),
        expected: "directory",
        actual: "file",
    });

    assert!(matches!(error, ToolFailure::InvalidArgs(_)));
    let feedback = error.model_feedback().expect("feedback present");
    assert!(feedback.contains("sub/file.txt"));
    assert!(!feedback.contains(host_only_path().as_str()));
}

#[test]
fn not_found_is_model_visible_with_not_found_kind() {
    let error = map_workspace_error(WorkspaceError::NotFound("missing.txt".to_string()));

    assert!(matches!(error, ToolFailure::NotFound(_)));
    assert_eq!(error.model_feedback(), Some("path not found: \"missing.txt\""));
}

#[test]
fn outside_workspace_is_a_model_visible_refusal() {
    let error = map_workspace_error(WorkspaceError::OutsideWorkspace("../escape.txt".to_string()));

    assert!(matches!(error, ToolFailure::Refused(_)));
    let feedback = error.model_feedback().expect("feedback present");
    assert!(feedback.contains("../escape.txt"));
}

#[test]
fn absolute_paths_are_invalid_args() {
    let error = map_workspace_error(WorkspaceError::AbsolutePath("/etc/passwd".to_string()));

    assert!(matches!(error, ToolFailure::InvalidArgs(_)));
    assert_eq!(
        error.model_feedback(),
        Some("path must be relative to the workspace: \"/etc/passwd\"")
    );
}

#[test]
fn host_only_failures_redact_the_diagnostic_from_model_feedback() {
    let path = host_only_path();
    let io_error = WorkspaceError::Io {
        path: path.clone(),
        detail: "disk exploded".to_string(),
    };
    let operator_message = io_error.message();

    let error = map_workspace_error(io_error);

    assert!(matches!(error, ToolFailure::HostOnly(_)));
    let feedback = error.model_feedback().expect("feedback present");
    assert_eq!(feedback, "the tool failed");
    assert!(!feedback.contains(path.as_str()));
    // The full diagnostic, including the host path, is still available to
    // whoever runs fey, just not sent to the model.
    assert_eq!(error.message(), operator_message);
    assert!(error.message().contains(path.as_str()));
}

#[test]
fn too_large_is_host_only_and_redacted() {
    let error = map_workspace_error(WorkspaceError::TooLarge {
        path: host_only_path(),
        max: 1024,
    });

    assert!(matches!(error, ToolFailure::HostOnly(_)));
    assert_eq!(error.model_feedback(), Some("the tool failed"));
    assert_eq!(
        error.message(),
        "file exceeds the 1024-byte limit: \"/host/machine/only/secret.txt\""
    );
}

#[test]
fn not_utf8_is_host_only_and_redacted() {
    let error = map_workspace_error(WorkspaceError::NotUtf8(host_only_path()));

    assert!(matches!(error, ToolFailure::HostOnly(_)));
    assert_eq!(error.model_feedback(), Some("the tool failed"));
}

#[test]
fn a_bad_root_is_host_only() {
    let error = map_workspace_error(WorkspaceError::RootNotADirectory(host_only_path()));

    assert!(matches!(error, ToolFailure::HostOnly(_)));
}

#[test]
fn zero_start_line_is_invalid_args() {
    let error = map_read_file_error(ReadFileError::ZeroStartLine);

    assert!(matches!(error, ToolFailure::InvalidArgs(_)));
    assert_eq!(error.model_feedback(), Some("start_line must be at least 1"));
}

#[test]
fn read_file_sandbox_errors_map_like_the_sandbox() {
    let error = map_read_file_error(ReadFileError::Workspace(WorkspaceError::NotFound(
        "missing.txt".to_string(),
    )));

    assert!(matches!(error, ToolFailure::NotFound(_)));
}
