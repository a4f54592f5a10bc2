//! Terminal state: the input buffer, the current status, and the actions that
//! key handling returns. Owns no transcript: finalized messages are written
//! once into the terminal's scrollback and never redrawn.

use vstd::prelude::*;
use crate::agent::{AgentError, AgentReply, agent_message_spec};
use crate::text::{pop_char, push_char, trim, trim_spec};

verus! {

/// Who a message comes from.
#[derive(Debug, Clone, Copy, PartialEq, Eq, Structural)]
pub enum Role {
    User,
    Assistant,
    Error,
}

/// A finalized message.
#[derive(Debug, Clone, PartialEq, Eq)]
pub struct Message {
    pub role: Role,
    pub text: String,
}

/// What the terminal is doing.
#[derive(Debug, Clone, Copy, PartialEq, Eq, Structural)]
pub enum Status {
    /// Ready for input.
    Idle,
    /// A prompt is being answered.
    Thinking,
    /// The agent worker is gone.
    Stopped,
}

/// What the event loop should do after a key.
#[derive(Debug, PartialEq, Eq)]
pub enum Action {
    /// The input line changed.
    Edit,
    /// Send this message to the agent.
    Submit(Message),
    /// Leave the program.
    Quit,
    /// Nothing to do.
    Nothing,
}

/// What the agent worker reports back.
#[derive(Debug)]
pub enum WorkerEvent {
    Reply(AgentReply),
    Failed(AgentError),
}

/// A key, as far as the terminal state cares.
#[derive(Debug, Clone, Copy, PartialEq, Eq)]
pub enum KeyCode {
    Char(char),
    Enter,
    Backspace,
    /// Any other key.
    Other,
}

/// A key press and whether Control was held.
#[derive(Debug, Clone, Copy, PartialEq, Eq)]
pub struct KeyInput {
    pub code: KeyCode,
    pub control: bool,
}

/// The mathematical view of a [`Message`].
pub struct MessageView {
    pub role: Role,
    pub text: Seq<char>,
}

impl View for Message {
    type V = MessageView;

    open spec fn view(&self) -> MessageView {
        MessageView { role: self.role, text: self.text@ }
    }
}

/// The mathematical view of an [`Action`].
pub enum ActionView {
    Edit,
    Submit(MessageView),
    Quit,
    Nothing,
}

impl View for Action {
    type V = ActionView;

    open spec fn view(&self) -> ActionView {
        match self {
            Action::Edit => ActionView::Edit,
            Action::Submit(m) => ActionView::Submit(m@),
            Action::Quit => ActionView::Quit,
            Action::Nothing => ActionView::Nothing,
        }
    }
}

/// The terminal state: the input line and the status.
#[derive(Debug)]
pub struct App {
    input: String,
    status: Status,
}

/// The mathematical view of an [`App`].
pub struct AppView {
    pub input: Seq<char>,
    pub status: Status,
}

impl View for App {
    type V = AppView;

    closed spec fn view(&self) -> AppView {
        AppView { input: self.input@, status: self.status }
    }
}

/// Whether a key is Control-C.
pub open spec fn is_ctrl_c(key: KeyInput) -> bool {
    key.control && key.code == KeyCode::Char('c')
}

/// Pressing Enter: an idle, non-blank input is sent trimmed, the input is
/// cleared and the terminal starts thinking; otherwise nothing happens.
pub open spec fn submit_spec(s: AppView) -> (AppView, ActionView) {
    if s.status != Status::Idle || trim_spec(s.input).len() == 0 {
        (s, ActionView::Nothing)
    } else {
        (
            AppView { input: seq![], status: Status::Thinking },
            ActionView::Submit(MessageView { role: Role::User, text: trim_spec(s.input) }),
        )
    }
}

/// Handling a key: Control-C quits in every state; Enter submits; while idle
/// a character is typed and Backspace deletes the last one; everything else
/// is ignored.
pub open spec fn handle_key_spec(s: AppView, key: KeyInput) -> (AppView, ActionView) {
    if is_ctrl_c(key) {
        (s, ActionView::Quit)
    } else {
        match key.code {
            KeyCode::Enter => submit_spec(s),
            KeyCode::Char(c) => if s.status == Status::Idle {
                (AppView { input: s.input.push(c), ..s }, ActionView::Edit)
            } else {
                (s, ActionView::Nothing)
            },
            KeyCode::Backspace => if s.status == Status::Idle && s.input.len() > 0 {
                (AppView { input: s.input.drop_last(), ..s }, ActionView::Edit)
            } else {
                (s, ActionView::Nothing)
            },
            KeyCode::Other => (s, ActionView::Nothing),
        }
    }
}

/// The message a worker event turns into.
pub open spec fn event_message(e: WorkerEvent) -> MessageView {
    match e {
        WorkerEvent::Reply(r) => MessageView { role: Role::Assistant, text: r.text@ },
        WorkerEvent::Failed(err) => MessageView { role: Role::Error, text: agent_message_spec(err) },
    }
}

/// A worker event: back to idle, with the event's message to flush.
pub open spec fn complete_spec(s: AppView, e: WorkerEvent) -> (AppView, MessageView) {
    (AppView { status: Status::Idle, ..s }, event_message(e))
}

/// The message flushed when the worker stops.
pub open spec fn stopped_message() -> MessageView {
    MessageView { role: Role::Error, text: "agent worker stopped"@ }
}

/// The worker is gone: stop once, with a message; afterwards, nothing.
pub open spec fn stop_spec(s: AppView) -> (AppView, Option<MessageView>) {
    if s.status == Status::Stopped {
        (s, None)
    } else {
        (AppView { status: Status::Stopped, ..s }, Some(stopped_message()))
    }
}

impl App {
    /// An idle terminal with an empty input line.
    pub fn new() -> (r: App)
        ensures
            r@.input == Seq::<char>::empty(),
            r@.status == Status::Idle,
    {
        App { input: String::new(), status: Status::Idle }
    }

    /// The input line.
    pub fn input(&self) -> (r: &str)
        ensures
            r@ == self@.input,
    {
        self.input.as_str()
    }

    /// The status.
    pub fn status(&self) -> (r: Status)
        ensures
            r == self@.status,
    {
        self.status
    }

    /// Handles a key press.
    pub fn handle_key(&mut self, key: KeyInput) -> (r: Action)
        ensures
            (final(self)@, r@) == handle_key_spec(old(self)@, key),
    {
        if let KeyCode::Char('c') = key.code {
            if key.control {
                return Action::Quit;
            }
        }
        match key.code {
            KeyCode::Enter => self.submit(),
            KeyCode::Char(c) => {
                if let Status::Idle = self.status {
                    push_char(&mut self.input, c);
                    Action::Edit
                } else {
                    Action::Nothing
                }
            },
            KeyCode::Backspace => {
                if let Status::Idle = self.status {
                    match pop_char(&mut self.input) {
                        Some(_) => Action::Edit,
                        None => Action::Nothing,
                    }
                } else {
                    Action::Nothing
                }
            },
            KeyCode::Other => Action::Nothing,
        }
    }

    /// Submits the input line, when idle and not blank.
    pub fn submit(&mut self) -> (r: Action)
        ensures
            (final(self)@, r@) == submit_spec(old(self)@),
    {
        match self.status {
            Status::Idle => {},
            _ => return Action::Nothing,
        }
        let trimmed = trim(self.input.as_str());
        if trimmed.as_str().is_empty() {
            return Action::Nothing;
        }
        let message = Message { role: Role::User, text: trimmed };
        self.input = String::new();
        self.status = Status::Thinking;
        Action::Submit(message)
    }

    /// Takes a worker event: restores `Idle` and returns the message to flush.
    pub fn complete(&mut self, event: WorkerEvent) -> (r: Message)
        ensures
            (final(self)@, r@) == complete_spec(old(self)@, event),
    {
        self.status = Status::Idle;
        match event {
            WorkerEvent::Reply(reply) => Message { role: Role::Assistant, text: reply.text },
            WorkerEvent::Failed(err) => Message { role: Role::Error, text: err.message() },
        }
    }

    /// Moves to `Stopped` for a disconnected worker, once: the first call
    /// returns the message to flush, later calls return `None`.
    pub fn stop(&mut self) -> (r: Option<Message>)
        ensures
            (final(self)@, match r {
                Some(m) => Some(m@),
                None => None,
            }) == stop_spec(old(self)@),
    {
        if let Status::Stopped = self.status {
            return None;
        }
        self.status = Status::Stopped;
        Some(Message { role: Role::Error, text: String::from_str("agent worker stopped") })
    }
}

/// Control-C quits whatever the state, and changes nothing.
pub proof fn lemma_ctrl_c_always_quits(s: AppView, key: KeyInput)
    requires
        is_ctrl_c(key),
    ensures
        handle_key_spec(s, key) == (s, ActionView::Quit),
{
}

/// At most one prompt is in flight: a prompt is only sent from `Idle`, and
/// sending one leaves the terminal `Thinking`, where no key sends another.
pub proof fn lemma_single_prompt_in_flight(s: AppView, key: KeyInput)
    ensures
        handle_key_spec(s, key).1 is Submit ==> s.status == Status::Idle && handle_key_spec(
            s,
            key,
        ).0.status == Status::Thinking,
        s.status != Status::Idle ==> !(handle_key_spec(s, key).1 is Submit),
{
}

/// Stopping is one-shot: after a stop, the terminal is `Stopped` and a second
/// stop reports nothing.
pub proof fn lemma_stop_once(s: AppView)
    ensures
        stop_spec(s).0.status == Status::Stopped,
        stop_spec(stop_spec(s).0).1 is None,
        stop_spec(stop_spec(s).0).0 == stop_spec(s).0,
{
}

/// Whatever the worker reports, the terminal is ready for input again, with
/// the input line as it was.
pub proof fn lemma_complete_restores_idle(s: AppView, e: WorkerEvent)
    ensures
        complete_spec(s, e).0.status == Status::Idle,
        complete_spec(s, e).0.input == s.input,
{
}

/// A key's action says whether the input line changed: it is `Edit` exactly
/// when a key other than Enter changed the line, and the line changes only
/// on `Edit`, or on `Submit`, which clears it.
pub proof fn lemma_edit_exactly_when_the_line_changes(s: AppView, key: KeyInput)
    ensures
        (handle_key_spec(s, key).1 is Edit) <==> (key.code != KeyCode::Enter && handle_key_spec(s, key).0.input
            != s.input),
        handle_key_spec(s, key).0.input != s.input ==> (handle_key_spec(s, key).1 is Edit || handle_key_spec(
            s,
            key,
        ).1 is Submit),
        handle_key_spec(s, key).1 is Submit ==> handle_key_spec(s, key).0.input.len() == 0,
{
    if !is_ctrl_c(key) {
        match key.code {
            KeyCode::Char(c) => {
                if s.status == Status::Idle {
                    assert(s.input.push(c).len() != s.input.len());
                }
            },
            KeyCode::Backspace => {
                if s.status == Status::Idle && s.input.len() > 0 {
                    assert(s.input.drop_last().len() != s.input.len());
                }
            },
            _ => {},
        }
    }
}

/// Backspace undoes typing: while idle, typing a character and then
/// pressing Backspace leaves the input line as it was, and both keys report
/// an edit.
pub proof fn lemma_backspace_undoes_typing(s: AppView, c: char, control: bool)
    requires
        s.status == Status::Idle,
        !(control && c == 'c'),
    ensures
        ({
            let typed = handle_key_spec(s, KeyInput { code: KeyCode::Char(c), control });
            let erased = handle_key_spec(typed.0, KeyInput { code: KeyCode::Backspace, control: false });
            &&& typed.1 is Edit
            &&& erased.1 is Edit
            &&& erased.0 == s
        }),
{
    assert(s.input.push(c).drop_last() == s.input);
}

} // verus!
