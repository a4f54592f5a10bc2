//! Filesystem sandbox: confines tool access to a canonical workspace root.
//!
//! The filesystem itself is read by the caller. Each decision here takes what
//! the filesystem reported (a [`PathProbe`] for a canonicalized path, a file
//! length, the bytes of a file) and says what the sandbox makes of it.

use vstd::prelude::*;
use vstd::utf8::{valid_utf8, decode_utf8};
use crate::paths::{is_absolute, is_absolute_spec, join_path, join_spec, path_starts_with, starts_with_path};
use crate::text::{decimal, push_decimal, push_str};

verus! {

/// The largest file, in bytes, that the sandbox reads.
pub const MAX_FILE_SIZE: u64 = 1024 * 1024;

/// What the metadata of an existing path says it is (following links).
#[derive(Debug)]
pub enum EntryType {
    Directory,
    File,
    /// Neither a directory nor a regular file (a device, a socket, ...).
    Other,
    /// The metadata could not be read; the diagnostic.
    Unreadable(String),
}

/// What the filesystem reported when a path was canonicalized.
#[derive(Debug)]
pub enum PathProbe {
    /// The path does not exist; the diagnostic.
    Missing(String),
    /// Canonicalization failed for another reason; the diagnostic.
    Failed(String),
    /// The path exists: its canonical form and what it is.
    Found { canonical: String, entry: EntryType },
}

/// The mathematical view of an [`EntryType`].
pub enum EntryTypeView {
    Directory,
    File,
    Other,
    Unreadable(Seq<char>),
}

/// The mathematical view of a [`PathProbe`].
pub enum PathProbeView {
    Missing(Seq<char>),
    Failed(Seq<char>),
    Found { canonical: Seq<char>, entry: EntryTypeView },
}

impl View for EntryType {
    type V = EntryTypeView;

    open spec fn view(&self) -> EntryTypeView {
        match self {
            EntryType::Directory => EntryTypeView::Directory,
            EntryType::File => EntryTypeView::File,
            EntryType::Other => EntryTypeView::Other,
            EntryType::Unreadable(d) => EntryTypeView::Unreadable(d@),
        }
    }
}

impl View for PathProbe {
    type V = PathProbeView;

    open spec fn view(&self) -> PathProbeView {
        match self {
            PathProbe::Missing(d) => PathProbeView::Missing(d@),
            PathProbe::Failed(d) => PathProbeView::Failed(d@),
            PathProbe::Found { canonical, entry } => PathProbeView::Found {
                canonical: canonical@,
                entry: entry@,
            },
        }
    }
}

/// Why the sandbox refused a request or could not serve it.
///
/// The variants whose message the model is shown (`AbsolutePath`,
/// `NotFound`, `OutsideWorkspace`, `WrongKind`) carry the path as the
/// request gave it, never a path of this machine.
#[derive(Debug)]
pub enum WorkspaceError {
    RootNotADirectory(String),
    EmptyPath,
    AbsolutePath(String),
    NotFound(String),
    OutsideWorkspace(String),
    WrongKind { path: String, expected: &'static str, actual: &'static str },
    NotUtf8(String),
    TooLarge { path: String, max: u64 },
    /// The filesystem failed; the path and the diagnostic of the failure.
    Io { path: String, detail: String },
}

/// The mathematical view of a [`WorkspaceError`].
pub enum WorkspaceErrorView {
    RootNotADirectory(Seq<char>),
    EmptyPath,
    AbsolutePath(Seq<char>),
    NotFound(Seq<char>),
    OutsideWorkspace(Seq<char>),
    WrongKind { path: Seq<char>, expected: Seq<char>, actual: Seq<char> },
    NotUtf8(Seq<char>),
    TooLarge { path: Seq<char>, max: u64 },
    Io { path: Seq<char>, detail: Seq<char> },
}

impl View for WorkspaceError {
    type V = WorkspaceErrorView;

    open spec fn view(&self) -> WorkspaceErrorView {
        match self {
            WorkspaceError::RootNotADirectory(p) => WorkspaceErrorView::RootNotADirectory(p@),
            WorkspaceError::EmptyPath => WorkspaceErrorView::EmptyPath,
            WorkspaceError::AbsolutePath(p) => WorkspaceErrorView::AbsolutePath(p@),
            WorkspaceError::NotFound(p) => WorkspaceErrorView::NotFound(p@),
            WorkspaceError::OutsideWorkspace(p) => WorkspaceErrorView::OutsideWorkspace(p@),
            WorkspaceError::WrongKind { path, expected, actual } => WorkspaceErrorView::WrongKind {
                path: path@,
                expected: expected@,
                actual: actual@,
            },
            WorkspaceError::NotUtf8(p) => WorkspaceErrorView::NotUtf8(p@),
            WorkspaceError::TooLarge { path, max } => WorkspaceErrorView::TooLarge {
                path: path@,
                max: *max,
            },
            WorkspaceError::Io { path, detail } => WorkspaceErrorView::Io {
                path: path@,
                detail: detail@,
            },
        }
    }
}

/// A result with its value and error taken by their views.
pub open spec fn view_result<T: View>(r: Result<T, WorkspaceError>) -> Result<T::V, WorkspaceErrorView> {
    match r {
        Ok(v) => Ok(v@),
        Err(e) => Err(e@),
    }
}

/// A sandbox rooted at a canonical directory.
#[derive(Debug, Clone)]
pub struct Workspace {
    root: String,
}

impl View for Workspace {
    type V = Seq<char>;

    /// The canonical root directory.
    closed spec fn view(&self) -> Seq<char> {
        self.root@
    }
}

/// Text that `{:?}` renders for a path with the characters of `s`: the
/// path quoted, with quotes, backslashes and special characters escaped.
pub uninterp spec fn debug_text(s: Seq<char>) -> Seq<char>;

/// The Debug rendering of `s` taken as a path
/// (`format!("{:?}", Path::new(s))`).
#[verifier::external_body]
pub(crate) fn debug_quoted(s: &str) -> (r: String)
    ensures
        r@ == debug_text(s@),
{
    format!("{:?}", std::path::Path::new(s))
}

/// Decodes `bytes` as UTF-8 (`String::from_utf8`).
#[verifier::external_body]
fn string_from_utf8(bytes: Vec<u8>) -> (r: Option<String>)
    ensures
        r is Some <==> valid_utf8(bytes@),
        r matches Some(s) ==> s@ == decode_utf8(bytes@),
{
    String::from_utf8(bytes).ok()
}

/// What opening a workspace at `root` gives, given the probe of `root`.
pub open spec fn new_spec(root: Seq<char>, probe: PathProbeView) -> Result<Seq<char>, WorkspaceErrorView> {
    match probe {
        PathProbeView::Missing(d) => Err(WorkspaceErrorView::Io { path: root, detail: d }),
        PathProbeView::Failed(d) => Err(WorkspaceErrorView::Io { path: root, detail: d }),
        PathProbeView::Found { canonical, entry } => match entry {
            EntryTypeView::Directory => Ok(canonical),
            _ => Err(WorkspaceErrorView::RootNotADirectory(canonical)),
        },
    }
}

/// The path the sandbox would canonicalize for a request, or why the request
/// is refused before touching the filesystem.
pub open spec fn locate_spec(root: Seq<char>, path: Seq<char>) -> Result<Seq<char>, WorkspaceErrorView> {
    if path.len() == 0 {
        Err(WorkspaceErrorView::EmptyPath)
    } else if is_absolute_spec(path) {
        Err(WorkspaceErrorView::AbsolutePath(path))
    } else {
        Ok(join_spec(root, path))
    }
}

/// What resolving `path` gives, given the probe of the located candidate.
pub open spec fn resolve_spec(root: Seq<char>, path: Seq<char>, probe: PathProbeView) -> Result<Seq<char>, WorkspaceErrorView> {
    match locate_spec(root, path) {
        Err(e) => Err(e),
        Ok(candidate) => match probe {
            PathProbeView::Missing(_) => Err(WorkspaceErrorView::NotFound(path)),
            PathProbeView::Failed(d) => Err(WorkspaceErrorView::Io { path: candidate, detail: d }),
            PathProbeView::Found { canonical, entry } => if path_starts_with(canonical, root) {
                Ok(canonical)
            } else {
                Err(WorkspaceErrorView::OutsideWorkspace(path))
            },
        },
    }
}

/// The path a directory request stands for: the root when none is given.
pub open spec fn dir_request(path: Option<Seq<char>>) -> Seq<char> {
    match path {
        Some(p) => p,
        None => seq!['.'],
    }
}

/// What resolving `path` as a directory gives.
pub open spec fn resolve_dir_spec(root: Seq<char>, path: Option<Seq<char>>, probe: PathProbeView) -> Result<Seq<char>, WorkspaceErrorView> {
    match resolve_spec(root, dir_request(path), probe) {
        Err(e) => Err(e),
        Ok(resolved) => match probe {
            PathProbeView::Found { entry: EntryTypeView::Directory, .. } => Ok(resolved),
            _ => Err(WorkspaceErrorView::WrongKind {
                path: dir_request(path),
                expected: "directory"@,
                actual: "file"@,
            }),
        },
    }
}

/// What resolving `path` as a regular file gives.
pub open spec fn resolve_file_spec(root: Seq<char>, path: Seq<char>, probe: PathProbeView) -> Result<Seq<char>, WorkspaceErrorView> {
    match resolve_spec(root, path, probe) {
        Err(e) => Err(e),
        Ok(resolved) => match probe {
            PathProbeView::Found { entry, .. } => match entry {
                EntryTypeView::File => Ok(resolved),
                EntryTypeView::Unreadable(d) => Err(WorkspaceErrorView::Io { path: resolved, detail: d }),
                EntryTypeView::Directory => Err(WorkspaceErrorView::WrongKind {
                    path,
                    expected: "file"@,
                    actual: "directory"@,
                }),
                EntryTypeView::Other => Err(WorkspaceErrorView::WrongKind {
                    path,
                    expected: "file"@,
                    actual: "non-regular file"@,
                }),
            },
            _ => Err(WorkspaceErrorView::Io { path: resolved, detail: seq![] }),
        },
    }
}

/// The path a model-visible refusal names: for these variants, the path
/// they carry.
pub open spec fn refusal_path(e: WorkspaceErrorView) -> Option<Seq<char>> {
    match e {
        WorkspaceErrorView::AbsolutePath(p) => Some(p),
        WorkspaceErrorView::NotFound(p) => Some(p),
        WorkspaceErrorView::OutsideWorkspace(p) => Some(p),
        WorkspaceErrorView::WrongKind { path, .. } => Some(path),
        _ => None,
    }
}

/// A refusal the model is shown names the path as the request gave it,
/// never the root-joined or canonical path of this machine; a path that is
/// resolved lies inside the root.
pub proof fn lemma_refusals_name_the_request(root: Seq<char>, path: Seq<char>, dir: Option<Seq<char>>, probe: PathProbeView)
    ensures
        resolve_file_spec(root, path, probe) matches Err(e) ==> (refusal_path(e) is Some ==> refusal_path(e) == Some(path)),
        resolve_dir_spec(root, dir, probe) matches Err(e) ==> (refusal_path(e) is Some ==> refusal_path(e) == Some(dir_request(dir))),
        resolve_file_spec(root, path, probe) matches Ok(p) ==> path_starts_with(p, root),
        resolve_dir_spec(root, dir, probe) matches Ok(p) ==> path_starts_with(p, root),
{
}

/// What the size check of a file gives, given its metadata length.
pub open spec fn size_check_spec(path: Seq<char>, len: Result<u64, Seq<char>>) -> Result<(), WorkspaceErrorView> {
    match len {
        Err(d) => Err(WorkspaceErrorView::Io { path, detail: d }),
        Ok(n) => if n > MAX_FILE_SIZE {
            Err(WorkspaceErrorView::TooLarge { path, max: MAX_FILE_SIZE })
        } else {
            Ok(())
        },
    }
}

/// What decoding a file gives, given the outcome of reading its bytes.
pub open spec fn decode_spec(path: Seq<char>, bytes: Result<Seq<u8>, Seq<char>>) -> Result<Seq<char>, WorkspaceErrorView> {
    match bytes {
        Err(d) => Err(WorkspaceErrorView::Io { path, detail: d }),
        Ok(b) => if valid_utf8(b) {
            Ok(decode_utf8(b))
        } else {
            Err(WorkspaceErrorView::NotUtf8(path))
        },
    }
}

/// The message of an error, as the operator reads it.
pub open spec fn message_spec(e: WorkspaceErrorView) -> Seq<char> {
    match e {
        WorkspaceErrorView::RootNotADirectory(p) => "workspace root is not a directory: "@ + debug_text(p),
        WorkspaceErrorView::EmptyPath => "path must not be empty"@,
        WorkspaceErrorView::AbsolutePath(p) => "path must be relative to the workspace: "@ + debug_text(p),
        WorkspaceErrorView::NotFound(p) => "path not found: "@ + debug_text(p),
        WorkspaceErrorView::OutsideWorkspace(p) => "path escapes the workspace: "@ + debug_text(p),
        WorkspaceErrorView::WrongKind { path, expected, actual } => "expected a "@ + expected + ", found a "@
            + actual + ": "@ + debug_text(path),
        WorkspaceErrorView::NotUtf8(p) => "file is not valid UTF-8: "@ + debug_text(p),
        WorkspaceErrorView::TooLarge { path, max } => "file exceeds the "@ + decimal(max as nat) + "-byte limit: "@
            + debug_text(path),
        WorkspaceErrorView::Io { path, detail } => "failed to access "@ + debug_text(path),
    }
}

impl WorkspaceError {
    /// The error's message, as the operator reads it.
    pub fn message(&self) -> (r: String)
        ensures
            r@ == message_spec(self@),
    {
        let mut out = String::new();
        match self {
            WorkspaceError::RootNotADirectory(p) => {
                push_str(&mut out, "workspace root is not a directory: ");
                push_str(&mut out, debug_quoted(p.as_str()).as_str());
            },
            WorkspaceError::EmptyPath => {
                push_str(&mut out, "path must not be empty");
            },
            WorkspaceError::AbsolutePath(p) => {
                push_str(&mut out, "path must be relative to the workspace: ");
                push_str(&mut out, debug_quoted(p.as_str()).as_str());
            },
            WorkspaceError::NotFound(p) => {
                push_str(&mut out, "path not found: ");
                push_str(&mut out, debug_quoted(p.as_str()).as_str());
            },
            WorkspaceError::OutsideWorkspace(p) => {
                push_str(&mut out, "path escapes the workspace: ");
                push_str(&mut out, debug_quoted(p.as_str()).as_str());
            },
            WorkspaceError::WrongKind { path, expected, actual } => {
                push_str(&mut out, "expected a ");
                push_str(&mut out, expected);
                push_str(&mut out, ", found a ");
                push_str(&mut out, actual);
                push_str(&mut out, ": ");
                push_str(&mut out, debug_quoted(path.as_str()).as_str());
            },
            WorkspaceError::NotUtf8(p) => {
                push_str(&mut out, "file is not valid UTF-8: ");
                push_str(&mut out, debug_quoted(p.as_str()).as_str());
            },
            WorkspaceError::TooLarge { path, max } => {
                push_str(&mut out, "file exceeds the ");
                push_decimal(&mut out, *max);
                push_str(&mut out, "-byte limit: ");
                push_str(&mut out, debug_quoted(path.as_str()).as_str());
            },
            WorkspaceError::Io { path, .. } => {
                push_str(&mut out, "failed to access ");
                push_str(&mut out, debug_quoted(path.as_str()).as_str());
            },
        }
        out
    }
}

impl Workspace {
    /// The canonical root directory.
    pub fn root(&self) -> (r: &str)
        ensures
            r@ == self@,
    {
        self.root.as_str()
    }

    /// Opens a workspace at `root`, given what canonicalizing `root` reported.
    pub fn new(root: &str, probe: PathProbe) -> (r: Result<Workspace, WorkspaceError>)
        ensures
            view_result(r) == new_spec(root@, probe@),
    {
        match probe {
            PathProbe::Missing(d) => Err(WorkspaceError::Io { path: root.to_owned(), detail: d }),
            PathProbe::Failed(d) => Err(WorkspaceError::Io { path: root.to_owned(), detail: d }),
            PathProbe::Found { canonical, entry } => match entry {
                EntryType::Directory => Ok(Workspace { root: canonical }),
                _ => Err(WorkspaceError::RootNotADirectory(canonical)),
            },
        }
    }

    /// The path to canonicalize for a request: the request joined onto the
    /// root, once it is known to be non-empty and relative.
    pub fn locate(&self, path: &str) -> (r: Result<String, WorkspaceError>)
        ensures
            view_result(r) == locate_spec(self@, path@),
    {
        if path.is_empty() {
            return Err(WorkspaceError::EmptyPath);
        }
        if is_absolute(path) {
            return Err(WorkspaceError::AbsolutePath(path.to_owned()));
        }
        Ok(join_path(self.root.as_str(), path))
    }

    /// The path to canonicalize for a directory request: `locate` of the
    /// request, the root itself when no path is given.
    pub fn locate_dir(&self, path: Option<&str>) -> (r: Result<String, WorkspaceError>)
        ensures
            view_result(r) == locate_spec(
                self@,
                dir_request(
                    match path {
                        Some(p) => Some(p@),
                        None => None,
                    },
                ),
            ),
    {
        proof {
            reveal_strlit(".");
            assert("."@ =~= seq!['.']);
        }
        match path {
            Some(p) => self.locate(p),
            None => self.locate("."),
        }
    }

    /// Resolves a request, given the probe of the path that `locate` gave.
    /// A resolved path always lies inside the root.
    pub fn resolve(&self, path: &str, probe: PathProbe) -> (r: Result<String, WorkspaceError>)
        ensures
            view_result(r) == resolve_spec(self@, path@, probe@),
            r matches Ok(p) ==> path_starts_with(p@, self@),
    {
        let candidate = match self.locate(path) {
            Ok(c) => c,
            Err(e) => return Err(e),
        };
        match probe {
            PathProbe::Missing(_) => Err(WorkspaceError::NotFound(path.to_owned())),
            PathProbe::Failed(d) => Err(WorkspaceError::Io { path: candidate, detail: d }),
            PathProbe::Found { canonical, .. } => {
                if starts_with_path(canonical.as_str(), self.root.as_str()) {
                    Ok(canonical)
                } else {
                    Err(WorkspaceError::OutsideWorkspace(path.to_owned()))
                }
            },
        }
    }

    /// Resolves a directory request (the root when `path` is `None`), given
    /// the probe of the path that `locate` gave.
    pub fn resolve_dir(&self, path: Option<&str>, probe: PathProbe) -> (r: Result<String, WorkspaceError>)
        ensures
            view_result(r) == resolve_dir_spec(
                self@,
                match path {
                    Some(p) => Some(p@),
                    None => None,
                },
                probe@,
            ),
            r matches Ok(p) ==> path_starts_with(p@, self@),
    {
        let is_dir = match &probe {
            PathProbe::Found { entry: EntryType::Directory, .. } => true,
            _ => false,
        };
        let request = match path {
            Some(p) => p,
            None => ".",
        };
        proof {
            reveal_strlit(".");
            assert("."@ =~= seq!['.']);
        }
        let resolved = match self.resolve(request, probe) {
            Ok(r) => r,
            Err(e) => return Err(e),
        };
        if !is_dir {
            return Err(WorkspaceError::WrongKind { path: request.to_owned(), expected: "directory", actual: "file" });
        }
        Ok(resolved)
    }

    /// Resolves a request for a regular file, given the probe of the path
    /// that `locate` gave.
    pub fn resolve_file(&self, path: &str, probe: PathProbe) -> (r: Result<String, WorkspaceError>)
        ensures
            view_result(r) == resolve_file_spec(self@, path@, probe@),
            r matches Ok(p) ==> path_starts_with(p@, self@),
    {
        let ghost probe_view = probe@;
        let entry = match &probe {
            PathProbe::Found { entry, .. } => match entry {
                EntryType::Directory => Some(0u8),
                EntryType::File => Some(1u8),
                EntryType::Other => Some(2u8),
                EntryType::Unreadable(_) => None,
            },
            _ => None,
        };
        let detail = match &probe {
            PathProbe::Found { entry: EntryType::Unreadable(d), .. } => d.clone(),
            _ => String::new(),
        };
        let resolved = match self.resolve(path, probe) {
            Ok(r) => r,
            Err(e) => return Err(e),
        };
        match entry {
            Some(1) => Ok(resolved),
            Some(0) => Err(WorkspaceError::WrongKind { path: path.to_owned(), expected: "file", actual: "directory" }),
            Some(_) => Err(WorkspaceError::WrongKind { path: path.to_owned(), expected: "file", actual: "non-regular file" }),
            None => Err(WorkspaceError::Io { path: resolved, detail }),
        }
    }
}

/// Checks a file's size before it is read, given its metadata length.
pub fn check_file_size(path: &str, len: Result<u64, String>) -> (r: Result<(), WorkspaceError>)
    ensures
        view_result(r) == size_check_spec(
            path@,
            match len {
                Ok(n) => Ok(n),
                Err(d) => Err(d@),
            },
        ),
{
    match len {
        Err(d) => Err(WorkspaceError::Io { path: path.to_owned(), detail: d }),
        Ok(n) => if n > MAX_FILE_SIZE {
            Err(WorkspaceError::TooLarge { path: path.to_owned(), max: MAX_FILE_SIZE })
        } else {
            Ok(())
        },
    }
}

/// Decodes a file's bytes as UTF-8, given the outcome of reading them.
pub fn decode_file(path: &str, bytes: Result<Vec<u8>, String>) -> (r: Result<String, WorkspaceError>)
    ensures
        view_result(r) == decode_spec(
            path@,
            match bytes {
                Ok(b) => Ok(b@),
                Err(d) => Err(d@),
            },
        ),
{
    match bytes {
        Err(d) => Err(WorkspaceError::Io { path: path.to_owned(), detail: d }),
        Ok(b) => match string_from_utf8(b) {
            Some(s) => Ok(s),
            None => Err(WorkspaceError::NotUtf8(path.to_owned())),
        },
    }
}

} // verus!
