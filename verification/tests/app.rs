use fey::tui::app::{Action, App, KeyCode, KeyInput, Message, Role, Status, WorkerEvent};
use fey::{AgentError, AgentReply};

fn key(code: KeyCode) -> KeyInput {
    KeyInput {
        code,
        control: false,
    }
}

fn ctrl_c() -> KeyInput {
    KeyInput {
        code: KeyCode::Char('c'),
        control: true,
    }
}

#[test]
fn enter_ignores_whitespace_only_input() {
    let mut app = App::new();
    app.handle_key(key(KeyCode::Char(' ')));

    let action = app.handle_key(key(KeyCode::Enter));

    assert_eq!(action, Action::Nothing);
    assert_eq!(app.status(), Status::Idle);
}

#[test]
fn enter_while_idle_submits_trimmed_input_and_starts_thinking() {
    let mut app = App::new();
    for c in " hi ".chars() {
        app.handle_key(key(KeyCode::Char(c)));
    }

    let action = app.handle_key(key(KeyCode::Enter));

    assert_eq!(
        action,
        Action::Submit(Message {
            role: Role::User,
            text: "hi".to_string(),
        })
    );
    assert_eq!(app.status(), Status::Thinking);
    assert_eq!(app.input(), "");
}

#[test]
fn enter_while_thinking_is_ignored() {
    let mut app = App::new();
    app.handle_key(key(KeyCode::Char('a')));
    app.handle_key(key(KeyCode::Enter));

    let action = app.handle_key(key(KeyCode::Enter));

    assert_eq!(action, Action::Nothing);
}

#[test]
fn enter_while_stopped_is_ignored() {
    let mut app = App::new();
    app.stop();

    let action = app.handle_key(key(KeyCode::Enter));

    assert_eq!(action, Action::Nothing);
}

#[test]
fn ctrl_c_emits_quit_while_idle() {
    let mut app = App::new();

    assert_eq!(app.handle_key(ctrl_c()), Action::Quit);
}

#[test]
fn ctrl_c_emits_quit_while_thinking() {
    let mut app = App::new();
    app.handle_key(key(KeyCode::Char('a')));
    app.handle_key(key(KeyCode::Enter));

    assert_eq!(app.handle_key(ctrl_c()), Action::Quit);
}

#[test]
fn ctrl_c_emits_quit_while_stopped() {
    let mut app = App::new();
    app.stop();

    assert_eq!(app.handle_key(ctrl_c()), Action::Quit);
}

#[test]
fn control_with_another_letter_types_it() {
    let mut app = App::new();

    let action = app.handle_key(KeyInput {
        code: KeyCode::Char('a'),
        control: true,
    });

    assert_eq!(action, Action::Edit);
    assert_eq!(app.input(), "a");
}

#[test]
fn character_input_while_thinking_is_ignored() {
    let mut app = App::new();
    app.handle_key(key(KeyCode::Char('a')));
    app.handle_key(key(KeyCode::Enter));

    let action = app.handle_key(key(KeyCode::Char('b')));

    assert_eq!(action, Action::Nothing);
    assert_eq!(app.input(), "");
}

#[test]
fn backspace_on_empty_input_is_ignored() {
    let mut app = App::new();

    assert_eq!(app.handle_key(key(KeyCode::Backspace)), Action::Nothing);
}

#[test]
fn backspace_deletes_a_wide_character() {
    let mut app = App::new();
    app.handle_key(key(KeyCode::Char('x')));
    app.handle_key(key(KeyCode::Char('\u{4f60}')));

    assert_eq!(app.handle_key(key(KeyCode::Backspace)), Action::Edit);
    assert_eq!(app.input(), "x");
}

#[test]
fn other_keys_are_ignored() {
    let mut app = App::new();

    assert_eq!(app.handle_key(key(KeyCode::Other)), Action::Nothing);
    assert_eq!(app.input(), "");
}

#[test]
fn complete_restores_idle_and_returns_assistant_message_on_reply() {
    let mut app = App::new();
    app.handle_key(key(KeyCode::Char('a')));
    app.handle_key(key(KeyCode::Enter));

    let message = app.complete(WorkerEvent::Reply(AgentReply {
        text: "hi there".to_string(),
    }));

    assert_eq!(app.status(), Status::Idle);
    assert_eq!(message.role, Role::Assistant);
    assert_eq!(message.text, "hi there");
}

#[test]
fn complete_turns_a_failure_into_an_error_message() {
    let mut app = App::new();
    app.handle_key(key(KeyCode::Char('a')));
    app.handle_key(key(KeyCode::Enter));

    let message = app.complete(WorkerEvent::Failed(AgentError::EmptyPrompt));

    assert_eq!(app.status(), Status::Idle);
    assert_eq!(message.role, Role::Error);
    assert_eq!(message.text, "prompt must not be empty");
}

#[test]
fn stop_transitions_once_and_returns_none_afterwards() {
    let mut app = App::new();

    let first = app.stop();
    let second = app.stop();

    assert_eq!(app.status(), Status::Stopped);
    assert!(first.is_some());
    assert_eq!(first.unwrap().role, Role::Error);
    assert!(second.is_none());
}

#[test]
fn stop_reports_the_worker_stopping() {
    let mut app = App::new();

    let message = app.stop().unwrap();

    assert_eq!(message.text, "agent worker stopped");
}

#[test]
fn submit_directly_sends_only_when_idle() {
    let mut app = App::new();
    app.handle_key(key(KeyCode::Char('q')));

    assert_eq!(
        app.submit(),
        Action::Submit(Message {
            role: Role::User,
            text: "q".to_string(),
        })
    );
    assert_eq!(app.submit(), Action::Nothing);
}
