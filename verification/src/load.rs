//! The order of the sandbox's reads. A tool's request is served in steps:
//! each step names the one read the caller makes next (always of a path the
//! sandbox chose), and the caller hands back what that read reported. A
//! file is located, canonicalized and resolved, its length checked, then its
//! bytes read and decoded; a directory is located, canonicalized and
//! resolved, then its entries read and listed.

use vstd::prelude::*;
use crate::list_directory::{DirEntry, EntryKind, list_directory, listing_spec};
use crate::paths::path_starts_with;
use crate::workspace::{
    PathProbe, PathProbeView, Workspace, WorkspaceError, WorkspaceErrorView, check_file_size, decode_file,
    decode_spec, dir_request, locate_spec, resolve_dir_spec, resolve_file_spec, size_check_spec, view_result,
};

verus! {

/// What a tool asks the sandbox for.
#[derive(Debug)]
pub enum Request {
    /// The text of a file.
    File(String),
    /// The listing of a directory (the root when no path is given).
    Dir(Option<String>),
}

/// The read the caller makes next, or the outcome.
#[derive(Debug)]
pub enum Step {
    /// Canonicalize this path and read the metadata of the result.
    Probe(String),
    /// Read the length of this file from its metadata.
    Length(String),
    /// Read the bytes of this file.
    Bytes(String),
    /// Read the entries of this directory.
    Entries(String),
    /// Served: the file's text or the directory's listing, or why not.
    Done(Result<String, WorkspaceError>),
}

/// What the caller's read reported.
#[derive(Debug)]
pub enum Reply {
    Probe(PathProbe),
    /// The length, or the diagnostic of the failure.
    Length(Result<u64, String>),
    /// The bytes, or the diagnostic of the failure.
    Bytes(Result<Vec<u8>, String>),
    /// The entries, or the path that failed and the diagnostic.
    Entries(Result<Vec<DirEntry>, (String, String)>),
}

/// The mathematical view of a [`Request`].
pub enum RequestView {
    File(Seq<char>),
    Dir(Option<Seq<char>>),
}

/// The mathematical view of a [`Step`].
pub enum StepView {
    Probe(Seq<char>),
    Length(Seq<char>),
    Bytes(Seq<char>),
    Entries(Seq<char>),
    Done(Result<Seq<char>, WorkspaceErrorView>),
}

/// The mathematical view of a [`Reply`].
pub enum ReplyView {
    Probe(PathProbeView),
    Length(Result<u64, Seq<char>>),
    Bytes(Result<Seq<u8>, Seq<char>>),
    Entries(Result<Seq<(Seq<char>, EntryKind)>, (Seq<char>, Seq<char>)>),
}

impl View for Request {
    type V = RequestView;

    open spec fn view(&self) -> RequestView {
        match self {
            Request::File(p) => RequestView::File(p@),
            Request::Dir(p) => RequestView::Dir(
                match p {
                    Some(s) => Some(s@),
                    None => None,
                },
            ),
        }
    }
}

impl View for Step {
    type V = StepView;

    open spec fn view(&self) -> StepView {
        match self {
            Step::Probe(p) => StepView::Probe(p@),
            Step::Length(p) => StepView::Length(p@),
            Step::Bytes(p) => StepView::Bytes(p@),
            Step::Entries(p) => StepView::Entries(p@),
            Step::Done(r) => StepView::Done(view_result(*r)),
        }
    }
}

impl View for Reply {
    type V = ReplyView;

    open spec fn view(&self) -> ReplyView {
        match self {
            Reply::Probe(p) => ReplyView::Probe(p@),
            Reply::Length(r) => ReplyView::Length(
                match r {
                    Ok(n) => Ok(*n),
                    Err(d) => Err(d@),
                },
            ),
            Reply::Bytes(r) => ReplyView::Bytes(
                match r {
                    Ok(b) => Ok(b@),
                    Err(d) => Err(d@),
                },
            ),
            Reply::Entries(r) => ReplyView::Entries(
                match r {
                    Ok(es) => Ok(es@.map_values(|e: DirEntry| e@)),
                    Err((p, d)) => Err((p@, d@)),
                },
            ),
        }
    }
}

/// The step that starts serving a request: canonicalizing the located
/// path, or the refusal of the request as given.
pub open spec fn start_spec(root: Seq<char>, request: RequestView) -> StepView {
    let located = match request {
        RequestView::File(p) => locate_spec(root, p),
        RequestView::Dir(p) => locate_spec(root, dir_request(p)),
    };
    match located {
        Ok(candidate) => StepView::Probe(candidate),
        Err(e) => StepView::Done(Err(e)),
    }
}

/// The step after a reply. A reply that does not answer the step leaves it
/// as it was, and a served request stays served.
pub open spec fn advance_spec(root: Seq<char>, request: RequestView, step: StepView, reply: ReplyView) -> StepView {
    match (step, reply) {
        (StepView::Probe(_), ReplyView::Probe(probe)) => match request {
            RequestView::File(p) => match resolve_file_spec(root, p, probe) {
                Ok(path) => StepView::Length(path),
                Err(e) => StepView::Done(Err(e)),
            },
            RequestView::Dir(p) => match resolve_dir_spec(root, p, probe) {
                Ok(path) => StepView::Entries(path),
                Err(e) => StepView::Done(Err(e)),
            },
        },
        (StepView::Length(path), ReplyView::Length(len)) => match size_check_spec(path, len) {
            Ok(_) => StepView::Bytes(path),
            Err(e) => StepView::Done(Err(e)),
        },
        (StepView::Bytes(path), ReplyView::Bytes(bytes)) => StepView::Done(decode_spec(path, bytes)),
        (StepView::Entries(_), ReplyView::Entries(entries)) => StepView::Done(
            match entries {
                Ok(es) => Ok(listing_spec(es)),
                Err((p, d)) => Err(WorkspaceErrorView::Io { path: p, detail: d }),
            },
        ),
        _ => step,
    }
}

/// The path a step asks the caller to read, for the reads after the
/// request was resolved.
pub open spec fn resolved_read(step: StepView) -> Option<Seq<char>> {
    match step {
        StepView::Length(p) => Some(p),
        StepView::Bytes(p) => Some(p),
        StepView::Entries(p) => Some(p),
        _ => None,
    }
}

impl Workspace {
    /// The first step of serving a request.
    pub fn start(&self, request: &Request) -> (r: Step)
        ensures
            r@ == start_spec(self@, request@),
    {
        let located = match request {
            Request::File(p) => self.locate(p.as_str()),
            Request::Dir(p) => match p {
                Some(s) => self.locate_dir(Some(s.as_str())),
                None => self.locate_dir(None),
            },
        };
        match located {
            Ok(candidate) => Step::Probe(candidate),
            Err(e) => Step::Done(Err(e)),
        }
    }

    /// The step after the caller's reply to `step`.
    pub fn advance(&self, request: &Request, step: Step, reply: Reply) -> (r: Step)
        ensures
            r@ == advance_spec(self@, request@, step@, reply@),
    {
        match step {
            Step::Probe(candidate) => match reply {
                Reply::Probe(probe) => match request {
                    Request::File(p) => match self.resolve_file(p.as_str(), probe) {
                        Ok(path) => Step::Length(path),
                        Err(e) => Step::Done(Err(e)),
                    },
                    Request::Dir(p) => {
                        let resolved = match p {
                            Some(s) => self.resolve_dir(Some(s.as_str()), probe),
                            None => self.resolve_dir(None, probe),
                        };
                        match resolved {
                            Ok(path) => Step::Entries(path),
                            Err(e) => Step::Done(Err(e)),
                        }
                    },
                },
                _ => Step::Probe(candidate),
            },
            Step::Length(path) => match reply {
                Reply::Length(len) => match check_file_size(path.as_str(), len) {
                    Ok(()) => Step::Bytes(path),
                    Err(e) => Step::Done(Err(e)),
                },
                _ => Step::Length(path),
            },
            Step::Bytes(path) => match reply {
                Reply::Bytes(bytes) => Step::Done(decode_file(path.as_str(), bytes)),
                _ => Step::Bytes(path),
            },
            Step::Entries(path) => match reply {
                Reply::Entries(entries) => {
                    let listed = match entries {
                        Ok(es) => Ok(es),
                        Err((p, d)) => Err(WorkspaceError::Io { path: p, detail: d }),
                    };
                    Step::Done(list_directory(listed))
                },
                _ => Step::Entries(path),
            },
            Step::Done(r) => Step::Done(r),
        }
    }
}

/// Every read after the request is resolved is of a path inside the root:
/// the first such read is of the path the sandbox resolved, and later ones
/// keep it.
pub proof fn lemma_reads_stay_inside(root: Seq<char>, request: RequestView, step: StepView, reply: ReplyView)
    requires
        resolved_read(step) matches Some(p) ==> path_starts_with(p, root),
    ensures
        resolved_read(advance_spec(root, request, step, reply)) matches Some(p) ==> path_starts_with(p, root),
        resolved_read(start_spec(root, request)) is None,
{
}

/// A file's text is only ever served after its length passed the size
/// check, and from the bytes of the same path.
pub proof fn lemma_bytes_follow_the_size_check(root: Seq<char>, request: RequestView, step: StepView, reply: ReplyView)
    ensures
        advance_spec(root, request, step, reply) matches StepView::Bytes(p) ==> (step == StepView::Bytes(p) || (
        step == StepView::Length(p) && match reply {
            ReplyView::Length(len) => size_check_spec(p, len) is Ok,
            _ => false,
        })),
{
}

} // verus!
