use fey::list_directory::{format_listing, list_directory, DirEntry, EntryKind, MAX_ENTRIES};
use fey::workspace::{EntryType, PathProbe, Workspace, WorkspaceError};

fn entry(name: &str, kind: EntryKind) -> DirEntry {
    DirEntry {
        name: name.to_string(),
        kind,
    }
}

fn workspace() -> Workspace {
    match Workspace::new(
        "/tmp/ws",
        PathProbe::Found {
            canonical: "/tmp/ws".to_string(),
            entry: EntryType::Directory,
        },
    ) {
        Ok(ws) => ws,
        Err(_) => panic!("workspace root should be valid"),
    }
}

#[test]
fn lists_entries_sorted_with_type_suffixes() {
    let entries = vec![
        entry("b.txt", EntryKind::Other),
        entry("a_dir", EntryKind::Directory),
        entry("c.txt", EntryKind::Other),
    ];

    let output = list_directory(Ok(entries)).unwrap();

    assert_eq!(output, "a_dir/\nb.txt\nc.txt");
}

#[test]
fn reports_an_empty_directory() {
    let output = list_directory(Ok(Vec::new())).unwrap();

    assert_eq!(output, "(empty directory)");
}

#[test]
fn truncates_beyond_two_hundred_entries() {
    let entries: Vec<DirEntry> = (0..201)
        .rev()
        .map(|i| entry(&format!("file_{i:04}.txt"), EntryKind::Other))
        .collect();

    let output = list_directory(Ok(entries)).unwrap();
    let lines: Vec<&str> = output.lines().collect();

    assert_eq!(lines.len(), MAX_ENTRIES + 1);
    assert_eq!(lines[0], "file_0000.txt");
    assert_eq!(lines[MAX_ENTRIES - 1], "file_0199.txt");
    assert_eq!(lines[MAX_ENTRIES], "... additional entries omitted");
}

#[test]
fn does_not_truncate_at_exactly_two_hundred_entries() {
    let entries: Vec<DirEntry> = (0..200)
        .map(|i| entry(&format!("file_{i:04}.txt"), EntryKind::Other))
        .collect();

    let output = list_directory(Ok(entries)).unwrap();
    let lines: Vec<&str> = output.lines().collect();

    assert_eq!(lines.len(), MAX_ENTRIES);
    assert!(!output.contains("omitted"));
}

#[test]
fn rejects_a_missing_directory() {
    let ws = workspace();

    let listed = ws
        .resolve_dir(
            Some("missing"),
            PathProbe::Missing("No such file or directory".to_string()),
        )
        .map(|_| Vec::new());
    let err = list_directory(listed).unwrap_err();

    assert!(matches!(err, WorkspaceError::NotFound(_)));
}

#[test]
fn rejects_a_file_target() {
    let ws = workspace();

    let listed = ws
        .resolve_dir(
            Some("file.txt"),
            PathProbe::Found {
                canonical: "/tmp/ws/file.txt".to_string(),
                entry: EntryType::File,
            },
        )
        .map(|_| Vec::new());
    let err = list_directory(listed).unwrap_err();

    assert!(matches!(err, WorkspaceError::WrongKind { .. }));
}

#[test]
fn rejects_escaping_the_workspace() {
    let ws = workspace();

    let listed = ws
        .resolve_dir(
            Some("../"),
            PathProbe::Found {
                canonical: "/tmp".to_string(),
                entry: EntryType::Directory,
            },
        )
        .map(|_| Vec::new());
    let err = list_directory(listed).unwrap_err();

    assert!(matches!(
        err,
        WorkspaceError::OutsideWorkspace(_) | WorkspaceError::NotFound(_)
    ));
}

#[test]
fn suffixes_symlinks_with_at_sign() {
    let entries = vec![
        entry("target.txt", EntryKind::Other),
        entry("link", EntryKind::Symlink),
    ];

    let output = list_directory(Ok(entries)).unwrap();

    assert_eq!(output, "link@\ntarget.txt");
}

#[test]
fn sorts_by_code_point_like_string_order() {
    let names = ["\u{e9}t\u{e9}", "Zeta", "alpha", "Alpha", "al", "\u{4e16}", "_x"];
    let entries: Vec<DirEntry> = names.iter().map(|n| entry(n, EntryKind::Other)).collect();
    let mut expected: Vec<String> = names.iter().map(|n| n.to_string()).collect();
    expected.sort();

    let output = format_listing(entries);

    assert_eq!(output, expected.join("\n"));
}

#[test]
fn keeps_the_order_of_equal_names() {
    let entries = vec![
        entry("same", EntryKind::Directory),
        entry("other", EntryKind::Other),
        entry("same", EntryKind::Symlink),
    ];

    assert_eq!(format_listing(entries), "other\nsame/\nsame@");
}
