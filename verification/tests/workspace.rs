use fey::workspace::{
    check_file_size, decode_file, EntryType, PathProbe, Workspace, WorkspaceError, MAX_FILE_SIZE,
};

const ROOT: &str = "/tmp/ws";

fn found(canonical: &str, entry: EntryType) -> PathProbe {
    PathProbe::Found {
        canonical: canonical.to_string(),
        entry,
    }
}

fn workspace() -> Workspace {
    match Workspace::new(ROOT, found(ROOT, EntryType::Directory)) {
        Ok(ws) => ws,
        Err(_) => panic!("workspace root should be valid"),
    }
}

#[test]
fn new_rejects_a_file_as_root() {
    let file = "/tmp/ws/not_a_dir";

    let err = Workspace::new(file, found(file, EntryType::File)).err().unwrap();

    assert!(matches!(err, WorkspaceError::RootNotADirectory(_)));
}

#[test]
fn new_reports_a_missing_root() {
    let missing = "/tmp/ws/missing";

    let err = Workspace::new(
        missing,
        PathProbe::Missing("No such file or directory".to_string()),
    )
    .err()
    .unwrap();

    assert!(matches!(err, WorkspaceError::Io { .. }));
}

#[test]
fn new_keeps_the_canonical_root() {
    let ws = match Workspace::new("/tmp/./ws/", found(ROOT, EntryType::Directory)) {
        Ok(ws) => ws,
        Err(_) => panic!("root is a directory"),
    };

    assert_eq!(ws.root(), ROOT);
}

#[test]
fn resolve_dir_defaults_to_root_when_path_omitted() {
    let ws = workspace();
    assert_eq!(ws.locate(".").unwrap(), "/tmp/ws/.");

    let resolved = ws
        .resolve_dir(None, found(ROOT, EntryType::Directory))
        .unwrap();

    assert_eq!(resolved, ROOT);
}

#[test]
fn resolve_dir_rejects_explicit_empty_path() {
    let ws = workspace();

    let err = ws
        .resolve_dir(Some(""), found(ROOT, EntryType::Directory))
        .unwrap_err();

    assert!(matches!(err, WorkspaceError::EmptyPath));
}

#[test]
fn resolve_file_rejects_empty_path() {
    let ws = workspace();

    let err = ws
        .resolve_file("", found("/tmp/ws/x", EntryType::File))
        .unwrap_err();

    assert!(matches!(err, WorkspaceError::EmptyPath));
}

#[test]
fn resolve_rejects_absolute_paths() {
    let ws = workspace();
    assert!(matches!(
        ws.locate("/etc/passwd"),
        Err(WorkspaceError::AbsolutePath(_))
    ));

    let err = ws
        .resolve_file("/etc/passwd", found("/etc/passwd", EntryType::File))
        .unwrap_err();

    assert!(matches!(err, WorkspaceError::AbsolutePath(_)));
}

#[test]
fn resolve_rejects_parent_traversal_outside_root() {
    let ws = workspace();
    assert_eq!(ws.locate("../outside").unwrap(), "/tmp/ws/../outside");

    let err = ws
        .resolve_file("../outside", found("/tmp/outside", EntryType::File))
        .unwrap_err();

    assert!(matches!(
        err,
        WorkspaceError::OutsideWorkspace(_) | WorkspaceError::NotFound(_)
    ));
}

#[test]
fn resolve_allows_normalized_paths_that_stay_inside_root() {
    let ws = workspace();
    assert_eq!(
        ws.locate("sub/../sub/file.txt").unwrap(),
        "/tmp/ws/sub/../sub/file.txt"
    );

    let resolved = ws
        .resolve_file(
            "sub/../sub/file.txt",
            found("/tmp/ws/sub/file.txt", EntryType::File),
        )
        .unwrap();

    assert_eq!(resolved, "/tmp/ws/sub/file.txt");
}

#[test]
fn resolve_reports_missing_targets() {
    let ws = workspace();

    let err = ws
        .resolve_file(
            "nope.txt",
            PathProbe::Missing("No such file or directory".to_string()),
        )
        .unwrap_err();

    match err {
        WorkspaceError::NotFound(path) => assert_eq!(path, "nope.txt"),
        _ => panic!("expected NotFound"),
    }
}

#[test]
fn resolve_dir_rejects_a_file_target() {
    let ws = workspace();

    let err = ws
        .resolve_dir(Some("file.txt"), found("/tmp/ws/file.txt", EntryType::File))
        .unwrap_err();

    assert!(matches!(
        err,
        WorkspaceError::WrongKind {
            expected: "directory",
            actual: "file",
            ..
        }
    ));
}

#[test]
fn resolve_file_rejects_a_directory_target() {
    let ws = workspace();

    let err = ws
        .resolve_file("sub", found("/tmp/ws/sub", EntryType::Directory))
        .unwrap_err();

    assert!(matches!(
        err,
        WorkspaceError::WrongKind {
            expected: "file",
            actual: "directory",
            ..
        }
    ));
}

#[test]
fn resolve_file_rejects_a_non_regular_target() {
    let ws = workspace();

    let err = ws
        .resolve_file("fifo", found("/tmp/ws/fifo", EntryType::Other))
        .unwrap_err();

    assert!(matches!(
        err,
        WorkspaceError::WrongKind {
            actual: "non-regular file",
            ..
        }
    ));
}

#[test]
fn resolve_file_reports_unreadable_metadata() {
    let ws = workspace();

    let err = ws
        .resolve_file(
            "f.txt",
            found(
                "/tmp/ws/f.txt",
                EntryType::Unreadable("permission denied".to_string()),
            ),
        )
        .unwrap_err();

    match err {
        WorkspaceError::Io { path, detail } => {
            assert_eq!(path, "/tmp/ws/f.txt");
            assert_eq!(detail, "permission denied");
        }
        _ => panic!("expected Io"),
    }
}

#[test]
fn resolve_reports_canonicalization_failures_as_io() {
    let ws = workspace();

    let err = ws
        .resolve_file("f.txt", PathProbe::Failed("loop".to_string()))
        .unwrap_err();

    assert!(matches!(err, WorkspaceError::Io { .. }));
}

#[test]
fn resolve_checks_containment_by_whole_components() {
    let ws = workspace();

    let err = ws
        .resolve_file("x", found("/tmp/wsx/secret.txt", EntryType::File))
        .unwrap_err();

    assert!(matches!(err, WorkspaceError::OutsideWorkspace(_)));
}

#[test]
fn read_utf8_file_rejects_oversized_files() {
    let err = check_file_size("/tmp/ws/big.txt", Ok(MAX_FILE_SIZE + 1)).unwrap_err();

    assert!(matches!(err, WorkspaceError::TooLarge { .. }));
}

#[test]
fn read_utf8_file_accepts_a_file_at_the_limit() {
    assert!(check_file_size("/tmp/ws/big.txt", Ok(MAX_FILE_SIZE)).is_ok());
    assert_eq!(MAX_FILE_SIZE, 1024 * 1024);
}

#[test]
fn read_utf8_file_rejects_invalid_utf8() {
    let err = decode_file("/tmp/ws/invalid.txt", Ok(vec![0xff, 0xfe, 0xfd])).unwrap_err();

    assert!(matches!(err, WorkspaceError::NotUtf8(_)));
}

#[test]
fn read_utf8_file_returns_content() {
    let content = decode_file("/tmp/ws/hello.txt", Ok(b"hello\nworld\n".to_vec())).unwrap();

    assert_eq!(content, "hello\nworld\n");
}

#[test]
fn read_utf8_file_decodes_multibyte_text() {
    let content = decode_file("/tmp/ws/cjk.txt", Ok("\u{4f60}\u{597d}".as_bytes().to_vec())).unwrap();

    assert_eq!(content, "\u{4f60}\u{597d}");
}

#[test]
fn resolve_rejects_a_symlink_to_outside_the_workspace() {
    let ws = workspace();

    let err = ws
        .resolve_file("escape", found("/tmp/outside/secret.txt", EntryType::File))
        .unwrap_err();

    assert!(matches!(err, WorkspaceError::OutsideWorkspace(_)));
}

#[test]
fn error_messages_match_the_operator_text() {
    assert_eq!(WorkspaceError::EmptyPath.message(), "path must not be empty");
    assert_eq!(
        WorkspaceError::NotFound("missing.txt".to_string()).message(),
        "path not found: \"missing.txt\""
    );
    assert_eq!(
        WorkspaceError::TooLarge {
            path: "big.txt".to_string(),
            max: MAX_FILE_SIZE
        }
        .message(),
        "file exceeds the 1048576-byte limit: \"big.txt\""
    );
    assert_eq!(
        WorkspaceError::WrongKind {
            path: "sub/file.txt".to_string(),
            expected: "directory",
            actual: "file"
        }
        .message(),
        "expected a directory, found a file: \"sub/file.txt\""
    );
    assert_eq!(
        WorkspaceError::Io {
            path: "a\"b".to_string(),
            detail: "x".to_string()
        }
        .message(),
        "failed to access \"a\\\"b\""
    );
}

#[test]
fn locate_dir_stands_for_the_root_when_no_path_is_given() {
    let ws = workspace();

    assert_eq!(ws.locate_dir(None).unwrap(), "/tmp/ws/.");
    assert_eq!(ws.locate_dir(Some("src")).unwrap(), "/tmp/ws/src");
    assert!(matches!(ws.locate_dir(Some("")), Err(WorkspaceError::EmptyPath)));
    assert!(matches!(
        ws.locate_dir(Some("/etc")),
        Err(WorkspaceError::AbsolutePath(_))
    ));
}

#[test]
fn model_visible_errors_carry_the_requested_path_not_the_host_path() {
    let ws = workspace();

    let outside = ws
        .resolve_file("../escape.txt", found("/tmp/escape.txt", EntryType::File))
        .unwrap_err();
    assert!(matches!(&outside, WorkspaceError::OutsideWorkspace(p) if p == "../escape.txt"));
    assert!(!outside.message().contains("/tmp"));

    let wrong_file = ws
        .resolve_file("sub", found("/tmp/ws/sub", EntryType::Directory))
        .unwrap_err();
    assert!(matches!(&wrong_file, WorkspaceError::WrongKind { path, .. } if path == "sub"));

    let wrong_dir = ws
        .resolve_dir(None, found("/tmp/ws", EntryType::File))
        .unwrap_err();
    assert!(matches!(&wrong_dir, WorkspaceError::WrongKind { path, .. } if path == "."));

    let missing = ws
        .resolve_dir(Some("gone"), PathProbe::Missing("No such file or directory".to_string()))
        .unwrap_err();
    assert_eq!(missing.message(), "path not found: \"gone\"");
}

#[test]
fn messages_quote_paths_as_path_debug_does() {
    assert_eq!(
        WorkspaceError::NotFound("it's.txt".to_string()).message(),
        "path not found: \"it's.txt\""
    );
}
