use fey::read_file::{format_file, read_file, start_line_of, ReadFileError, MAX_OUTPUT_BYTES};
use fey::workspace::{check_file_size, decode_file, EntryType, PathProbe, Workspace, WorkspaceError};

fn read(content: &str, start_line: Option<usize>) -> Result<String, ReadFileError> {
    read_file(start_line, Ok(content.to_string()))
}

#[test]
fn reads_from_the_default_start_line() {
    let output = read("one\ntwo\nthree", None).unwrap();

    assert_eq!(output, "1: one\n2: two\n3: three");
}

#[test]
fn reads_from_a_later_start_line() {
    let output = read("one\ntwo\nthree", Some(2)).unwrap();

    assert_eq!(output, "2: two\n3: three");
}

#[test]
fn reports_an_empty_file() {
    let output = read("", None).unwrap();

    assert_eq!(output, "(empty file)");
}

#[test]
fn reports_start_line_beyond_eof() {
    let output = read("one\ntwo", Some(10)).unwrap();

    assert_eq!(output, "(no content at or after line 10)");
}

#[test]
fn rejects_a_zero_start_line() {
    let err = read("one", Some(0)).unwrap_err();

    assert!(matches!(err, ReadFileError::ZeroStartLine));
    assert!(matches!(start_line_of(Some(0)), Err(ReadFileError::ZeroStartLine)));
}

#[test]
fn zero_start_line_is_checked_before_the_file() {
    let err = read_file(Some(0), Err(WorkspaceError::NotFound("x".to_string()))).unwrap_err();

    assert!(matches!(err, ReadFileError::ZeroStartLine));
}

#[test]
fn truncates_beyond_two_hundred_lines() {
    let content: String = (1..=201).map(|i| format!("line{i}\n")).collect();

    let output = read(&content, None).unwrap();

    assert!(output.contains("line200"));
    assert!(!output.contains("line201"));
    assert!(output.ends_with("... output truncated; call read_file again with a later start_line"));
}

#[test]
fn does_not_truncate_at_exactly_two_hundred_lines() {
    let content: String = (1..=200).map(|i| format!("line{i}\n")).collect();

    let output = read(&content, None).unwrap();

    assert!(output.contains("line200"));
    assert!(!output.contains("truncated"));
}

#[test]
fn truncates_beyond_the_byte_budget_without_splitting_a_line() {
    let long_line = "a".repeat(2000);
    let content: String = (0..64).map(|_| format!("{long_line}\n")).collect();

    let output = read(&content, None).unwrap();
    let byte_budget_line = output
        .lines()
        .find(|l| l.contains("truncated"))
        .expect("truncation message present");

    assert!(output.len() <= MAX_OUTPUT_BYTES + byte_budget_line.len() + 1);
    assert!(output.contains("truncated"));
    for line in output.lines().filter(|l| !l.contains("truncated")) {
        assert!(line.ends_with(&long_line));
    }
}

#[test]
fn a_single_line_over_the_budget_leaves_only_the_notice() {
    let content = "b".repeat(MAX_OUTPUT_BYTES + 10);

    let output = format_file(&content, 1);

    assert_eq!(output, "... output truncated; call read_file again with a later start_line");
}

#[test]
fn counts_bytes_not_characters() {
    // "1: " and 16384 four-byte characters make 65539 bytes: over budget.
    let content = "\u{1F600}".repeat(16384);
    let output = format_file(&content, 1);
    assert!(output.starts_with("... output truncated"));

    // One character fewer fits.
    let content = "\u{1F600}".repeat(16383);
    let output = format_file(&content, 1);
    assert!(output.starts_with("1: "));
    assert!(!output.contains("truncated"));
}

#[test]
fn strips_carriage_returns_before_line_feeds() {
    let output = read("one\r\ntwo\r\nthree\r", None).unwrap();

    assert_eq!(output, "1: one\n2: two\n3: three\r");
}

#[test]
fn numbers_lines_past_nine() {
    let content: String = (1..=12).map(|i| format!("l{i}\n")).collect();

    let output = read(&content, Some(10)).unwrap();

    assert_eq!(output, "10: l10\n11: l11\n12: l12");
}

#[test]
fn rejects_oversized_files() {
    let loaded = check_file_size("/tmp/ws/big.txt", Ok(1024 * 1024 + 1)).map(|_| String::new());
    let err = read_file(None, loaded).unwrap_err();

    assert!(matches!(
        err,
        ReadFileError::Workspace(WorkspaceError::TooLarge { .. })
    ));
}

#[test]
fn rejects_invalid_utf8() {
    let loaded = decode_file("/tmp/ws/f.txt", Ok(vec![0xff, 0xfe]));
    let err = read_file(None, loaded).unwrap_err();

    assert!(matches!(
        err,
        ReadFileError::Workspace(WorkspaceError::NotUtf8(_))
    ));
}

fn workspace() -> Workspace {
    match Workspace::new(
        "/tmp/ws",
        PathProbe::Found {
            canonical: "/tmp/ws".to_string(),
            entry: EntryType::Directory,
        },
    ) {
        Ok(ws) => ws,
        Err(_) => panic!("workspace root should be valid"),
    }
}

#[test]
fn rejects_a_missing_file() {
    let ws = workspace();
    let loaded = ws
        .resolve_file(
            "missing.txt",
            PathProbe::Missing("No such file or directory".to_string()),
        )
        .map(|_| String::new());

    let err = read_file(None, loaded).unwrap_err();

    assert!(matches!(
        err,
        ReadFileError::Workspace(WorkspaceError::NotFound(_))
    ));
}

#[test]
fn rejects_a_directory_target() {
    let ws = workspace();
    let loaded = ws
        .resolve_file(
            "sub",
            PathProbe::Found {
                canonical: "/tmp/ws/sub".to_string(),
                entry: EntryType::Directory,
            },
        )
        .map(|_| String::new());

    let err = read_file(None, loaded).unwrap_err();

    assert!(matches!(
        err,
        ReadFileError::Workspace(WorkspaceError::WrongKind { .. })
    ));
}
