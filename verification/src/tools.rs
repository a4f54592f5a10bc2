//! How tool failures reach the model: failures the model can act on (a bad
//! path, a path outside the workspace, a missing path) are shown to it with
//! their message; failures it cannot act on are kept for the operator only.

use vstd::prelude::*;
use crate::read_file::ReadFileError;
use crate::workspace::{WorkspaceError, WorkspaceErrorView, message_spec};

verus! {

/// A tool failure, classified by what the model may see of it.
#[derive(Debug)]
pub enum ToolFailure {
    /// The arguments were wrong; the message is shown to the model.
    InvalidArgs(String),
    /// The tool refused the request; the message is shown to the model.
    Refused(String),
    /// The path does not exist; the message is shown to the model.
    NotFound(String),
    /// A failure the model cannot act on; the message is for the operator
    /// only, and the model gets generic feedback.
    HostOnly(String),
}

/// The mathematical view of a [`ToolFailure`].
pub enum ToolFailureView {
    InvalidArgs(Seq<char>),
    Refused(Seq<char>),
    NotFound(Seq<char>),
    HostOnly(Seq<char>),
}

impl View for ToolFailure {
    type V = ToolFailureView;

    open spec fn view(&self) -> ToolFailureView {
        match self {
            ToolFailure::InvalidArgs(m) => ToolFailureView::InvalidArgs(m@),
            ToolFailure::Refused(m) => ToolFailureView::Refused(m@),
            ToolFailure::NotFound(m) => ToolFailureView::NotFound(m@),
            ToolFailure::HostOnly(m) => ToolFailureView::HostOnly(m@),
        }
    }
}

/// How a sandbox error is presented: malformed paths are invalid arguments,
/// escapes are refusals, missing paths are not-found, and everything else
/// (unreadable, oversized or undecodable files, filesystem failures, a bad
/// root) stays with the operator.
pub open spec fn map_spec(e: WorkspaceErrorView) -> ToolFailureView {
    match e {
        WorkspaceErrorView::EmptyPath => ToolFailureView::InvalidArgs(message_spec(e)),
        WorkspaceErrorView::AbsolutePath(_) => ToolFailureView::InvalidArgs(message_spec(e)),
        WorkspaceErrorView::WrongKind { .. } => ToolFailureView::InvalidArgs(message_spec(e)),
        WorkspaceErrorView::OutsideWorkspace(_) => ToolFailureView::Refused(message_spec(e)),
        WorkspaceErrorView::NotFound(_) => ToolFailureView::NotFound(message_spec(e)),
        _ => ToolFailureView::HostOnly(message_spec(e)),
    }
}

/// Whether the model is shown a failure's message.
pub open spec fn model_visible(f: ToolFailureView) -> bool {
    !(f is HostOnly)
}

/// The message of a refused `start_line`.
pub open spec fn zero_start_line_message() -> Seq<char> {
    "start_line must be at least 1"@
}

/// Classifies a sandbox error for the model.
pub fn map_workspace_error(err: WorkspaceError) -> (r: ToolFailure)
    ensures
        r@ == map_spec(err@),
{
    let message = err.message();
    match err {
        WorkspaceError::EmptyPath | WorkspaceError::AbsolutePath(_) | WorkspaceError::WrongKind {
            ..
        } => ToolFailure::InvalidArgs(message),
        WorkspaceError::OutsideWorkspace(_) => ToolFailure::Refused(message),
        WorkspaceError::NotFound(_) => ToolFailure::NotFound(message),
        WorkspaceError::NotUtf8(_) | WorkspaceError::TooLarge { .. } | WorkspaceError::Io {
            ..
        } | WorkspaceError::RootNotADirectory(_) => ToolFailure::HostOnly(message),
    }
}

/// Classifies a `read_file` error for the model: line zero is an invalid
/// argument, sandbox errors are classified as above.
pub fn map_read_file_error(err: ReadFileError) -> (r: ToolFailure)
    ensures
        match err {
            ReadFileError::ZeroStartLine => r@ == ToolFailureView::InvalidArgs(zero_start_line_message()),
            ReadFileError::Workspace(e) => r@ == map_spec(e@),
        },
{
    match err {
        ReadFileError::ZeroStartLine => ToolFailure::InvalidArgs(String::from_str("start_line must be at least 1")),
        ReadFileError::Workspace(e) => map_workspace_error(e),
    }
}

/// The feedback the model gets for a failure it cannot act on, whatever the
/// failure was.
pub open spec fn generic_feedback() -> Seq<char> {
    "the tool failed"@
}

/// What the model is shown of a failure: the message when it can act on it,
/// the generic feedback otherwise.
pub open spec fn feedback_spec(f: ToolFailureView) -> Seq<char> {
    match f {
        ToolFailureView::InvalidArgs(m) => m,
        ToolFailureView::Refused(m) => m,
        ToolFailureView::NotFound(m) => m,
        ToolFailureView::HostOnly(_) => generic_feedback(),
    }
}

impl ToolFailure {
    /// The feedback shown to the model: the message for a failure it can
    /// act on, "the tool failed" for one it cannot.
    pub fn model_feedback(&self) -> (r: Option<&str>)
        ensures
            r is Some,
            r->Some_0@ == feedback_spec(self@),
    {
        proof {
            reveal_strlit("the tool failed");
        }
        match self {
            ToolFailure::InvalidArgs(m) => Some(m.as_str()),
            ToolFailure::Refused(m) => Some(m.as_str()),
            ToolFailure::NotFound(m) => Some(m.as_str()),
            ToolFailure::HostOnly(_) => Some("the tool failed"),
        }
    }

    /// The full message, for the operator.
    pub fn message(&self) -> (r: &str)
        ensures
            r@ == match self@ {
                ToolFailureView::InvalidArgs(m) => m,
                ToolFailureView::Refused(m) => m,
                ToolFailureView::NotFound(m) => m,
                ToolFailureView::HostOnly(m) => m,
            },
    {
        match self {
            ToolFailure::InvalidArgs(m) => m.as_str(),
            ToolFailure::Refused(m) => m.as_str(),
            ToolFailure::NotFound(m) => m.as_str(),
            ToolFailure::HostOnly(m) => m.as_str(),
        }
    }
}

/// A failure the model cannot act on never shows it the diagnostic: every
/// oversized, undecodable or unreadable file, every filesystem failure and a
/// bad root are classified host-only, and the model gets the same generic
/// feedback for all of them, whatever path or detail they carry.
pub proof fn lemma_host_only_failures_are_hidden(e: WorkspaceErrorView)
    requires
        e is NotUtf8 || e is TooLarge || e is Io || e is RootNotADirectory,
    ensures
        !model_visible(map_spec(e)),
        feedback_spec(map_spec(e)) == generic_feedback(),
{
}

/// A failure the model can act on shows it the full message.
pub proof fn lemma_actionable_failures_are_shown(e: WorkspaceErrorView)
    requires
        e is EmptyPath || e is AbsolutePath || e is WrongKind || e is OutsideWorkspace || e is NotFound,
    ensures
        model_visible(map_spec(e)),
        feedback_spec(map_spec(e)) == message_spec(e),
{
}

} // verus!
