use fey::list_directory::{DirEntry, EntryKind};
use fey::load::{Reply, Request, Step};
use fey::workspace::{EntryType, PathProbe, Workspace, WorkspaceError, MAX_FILE_SIZE};

const ROOT: &str = "/tmp/ws";

fn found(canonical: &str, entry: EntryType) -> PathProbe {
    PathProbe::Found {
        canonical: canonical.to_string(),
        entry,
    }
}

fn workspace() -> Workspace {
    match Workspace::new(ROOT, found(ROOT, EntryType::Directory)) {
        Ok(ws) => ws,
        Err(_) => panic!("workspace root should be valid"),
    }
}

fn path_of(step: &Step) -> &str {
    match step {
        Step::Probe(p) | Step::Length(p) | Step::Bytes(p) | Step::Entries(p) => p,
        Step::Done(_) => panic!("no read asked for"),
    }
}

#[test]
fn a_file_is_probed_sized_then_read_at_the_resolved_path() {
    let ws = workspace();
    let request = Request::File("sub/../notes.txt".to_string());

    let step = ws.start(&request);
    assert!(matches!(step, Step::Probe(_)));
    assert_eq!(path_of(&step), "/tmp/ws/sub/../notes.txt");

    let step = ws.advance(&request, step, Reply::Probe(found("/tmp/ws/notes.txt", EntryType::File)));
    assert!(matches!(step, Step::Length(_)));
    assert_eq!(path_of(&step), "/tmp/ws/notes.txt");

    let step = ws.advance(&request, step, Reply::Length(Ok(6)));
    assert!(matches!(step, Step::Bytes(_)));
    assert_eq!(path_of(&step), "/tmp/ws/notes.txt");

    let step = ws.advance(&request, step, Reply::Bytes(Ok(b"hello\n".to_vec())));
    match step {
        Step::Done(Ok(text)) => assert_eq!(text, "hello\n"),
        _ => panic!("expected the file's text"),
    }
}

#[test]
fn an_oversized_file_is_never_read() {
    let ws = workspace();
    let request = Request::File("big.bin".to_string());

    let step = ws.start(&request);
    let step = ws.advance(&request, step, Reply::Probe(found("/tmp/ws/big.bin", EntryType::File)));
    let step = ws.advance(&request, step, Reply::Length(Ok(MAX_FILE_SIZE + 1)));

    assert!(matches!(step, Step::Done(Err(WorkspaceError::TooLarge { .. }))));
}

#[test]
fn a_refused_request_asks_for_no_read() {
    let ws = workspace();

    let step = ws.start(&Request::File("/etc/passwd".to_string()));
    assert!(matches!(step, Step::Done(Err(WorkspaceError::AbsolutePath(_)))));

    let request = Request::File("../escape".to_string());
    let step = ws.start(&request);
    let step = ws.advance(&request, step, Reply::Probe(found("/tmp/escape", EntryType::File)));
    match step {
        Step::Done(Err(WorkspaceError::OutsideWorkspace(p))) => assert_eq!(p, "../escape"),
        _ => panic!("expected a refusal"),
    }
}

#[test]
fn a_reply_that_does_not_answer_the_step_changes_nothing() {
    let ws = workspace();
    let request = Request::File("notes.txt".to_string());

    let step = ws.start(&request);
    let step = ws.advance(&request, step, Reply::Length(Ok(1)));

    assert!(matches!(step, Step::Probe(_)));
    assert_eq!(path_of(&step), "/tmp/ws/notes.txt");
}

#[test]
fn a_directory_is_probed_then_listed() {
    let ws = workspace();
    let request = Request::Dir(None);

    let step = ws.start(&request);
    assert_eq!(path_of(&step), "/tmp/ws/.");

    let step = ws.advance(&request, step, Reply::Probe(found(ROOT, EntryType::Directory)));
    assert!(matches!(step, Step::Entries(_)));
    assert_eq!(path_of(&step), ROOT);

    let entries = vec![
        DirEntry {
            name: "src".to_string(),
            kind: EntryKind::Directory,
        },
        DirEntry {
            name: "Cargo.toml".to_string(),
            kind: EntryKind::Other,
        },
    ];
    let step = ws.advance(&request, step, Reply::Entries(Ok(entries)));
    match step {
        Step::Done(Ok(listing)) => assert_eq!(listing, "Cargo.toml\nsrc/"),
        _ => panic!("expected a listing"),
    }
}

#[test]
fn a_failed_directory_read_reports_the_path_that_failed() {
    let ws = workspace();
    let request = Request::Dir(Some("src".to_string()));

    let step = ws.start(&request);
    let step = ws.advance(&request, step, Reply::Probe(found("/tmp/ws/src", EntryType::Directory)));
    let step = ws.advance(
        &request,
        step,
        Reply::Entries(Err(("/tmp/ws/src".to_string(), "permission denied".to_string()))),
    );

    match step {
        Step::Done(Err(WorkspaceError::Io { path, detail })) => {
            assert_eq!(path, "/tmp/ws/src");
            assert_eq!(detail, "permission denied");
        }
        _ => panic!("expected a filesystem failure"),
    }
}
