use fey::tui::app::{Message, Role, Status};
use fey::tui::view::{
    char_columns, cursor_column, footer_text, input_columns, live_region_rows, role_color,
    scroll_to_fit, visible_input, wrap_message, wrap_text, LineColor,
};

fn message(role: Role, text: &str) -> Message {
    Message {
        role,
        text: text.to_string(),
    }
}

fn plain_lines(message: &Message, width: u16) -> Vec<String> {
    wrap_message(message, width)
}

#[test]
fn wraps_a_short_message_onto_one_labeled_line() {
    let lines = plain_lines(&message(Role::User, "hi"), 80);

    assert_eq!(lines, vec!["You: hi".to_string()]);
}

#[test]
fn wraps_an_empty_message_onto_one_labeled_line() {
    let lines = plain_lines(&message(Role::Assistant, ""), 80);

    assert_eq!(lines, vec!["Fey: ".to_string()]);
}

#[test]
fn breaks_on_whitespace_at_the_available_width() {
    let lines = plain_lines(&message(Role::Assistant, "aaa bbb ccc"), 8);

    assert_eq!(lines, vec!["Fey: aaa".to_string(), "bbb ccc".to_string()]);
}

#[test]
fn hard_breaks_a_single_word_wider_than_the_width() {
    let lines = plain_lines(&message(Role::Error, "abcdefghijk"), 10);

    assert_eq!(
        lines,
        vec![
            "Error: ".to_string(),
            "abcdefghij".to_string(),
            "k".to_string(),
        ]
    );
}

#[test]
fn accounts_for_wide_characters() {
    let lines = plain_lines(&message(Role::Assistant, "\u{4f60}\u{597d}"), 9);

    assert_eq!(lines, vec!["Fey: \u{4f60}\u{597d}".to_string()]);
}

#[test]
fn hard_breaks_wide_characters_that_do_not_fit_together() {
    let lines = plain_lines(&message(Role::Assistant, "\u{4f60}\u{597d}\u{4e16}"), 5);

    assert_eq!(
        lines,
        vec![
            "Fey: ".to_string(),
            "\u{4f60}\u{597d}".to_string(),
            "\u{4e16}".to_string(),
        ]
    );
}

#[test]
fn wrap_message_len_matches_the_line_count() {
    let lines = wrap_message(&message(Role::User, "aaa bbb ccc"), 8);

    assert_eq!(lines.len(), 2);
}

#[test]
fn zero_width_gives_one_empty_line() {
    assert_eq!(wrap_text("anything at all", 0), vec![String::new()]);
}

#[test]
fn drops_control_whitespace_and_keeps_words() {
    assert_eq!(wrap_text("a\nb\tc", 80), vec!["abc".to_string()]);
}

#[test]
fn a_character_wider_than_the_line_gets_its_own_line() {
    assert_eq!(
        wrap_text("a\u{4f60}b", 1),
        vec!["a".to_string(), "\u{4f60}".to_string(), "b".to_string()]
    );
}

#[test]
fn scroll_to_fit_returns_empty_string_for_zero_width() {
    assert_eq!(scroll_to_fit("hello", 0), "");
}

#[test]
fn scroll_to_fit_keeps_the_tail_when_input_overflows() {
    assert_eq!(scroll_to_fit("hello world", 5), "world");
}

#[test]
fn scroll_to_fit_keeps_short_input_unchanged() {
    assert_eq!(scroll_to_fit("hi", 10), "hi");
}

#[test]
fn scroll_to_fit_keeps_whole_wide_characters() {
    assert_eq!(scroll_to_fit("a\u{4f60}\u{597d}", 3), "\u{597d}");
    assert_eq!(scroll_to_fit("a\u{4f60}\u{597d}", 4), "\u{4f60}\u{597d}");
}

#[test]
fn character_widths_follow_unicode_width() {
    assert_eq!(char_columns('a'), 1);
    assert_eq!(char_columns('\u{4f60}'), 2);
    assert_eq!(char_columns('\n'), 0);
    assert_eq!(char_columns('\u{17D8}'), 3);
}

#[test]
fn footers_follow_the_status() {
    assert_eq!(footer_text(Status::Idle), "Enter send \u{b7} Ctrl-C quit");
    assert_eq!(footer_text(Status::Thinking), "Thinking\u{2026}");
    assert_eq!(footer_text(Status::Stopped), "Agent stopped");
}

#[test]
fn roles_have_their_colours() {
    assert_eq!(role_color(Role::User), LineColor::Cyan);
    assert_eq!(role_color(Role::Assistant), LineColor::Green);
    assert_eq!(role_color(Role::Error), LineColor::Red);
}

#[test]
fn the_cursor_stays_on_the_row() {
    assert_eq!(cursor_column(2, 3, 80), Some(5));
    assert_eq!(cursor_column(2, 10, 8), Some(7));
    assert_eq!(cursor_column(2, 0, 0), None);
    assert_eq!(input_columns(80, 2), 78);
    assert_eq!(input_columns(1, 2), 0);
}

#[test]
fn visible_input_scrolls_like_scroll_to_fit() {
    assert_eq!(visible_input("hello world", 5), Some("world".to_string()));
    assert_eq!(visible_input("abc", 0), Some(String::new()));
    assert_eq!(visible_input("\u{4f60}\u{597d}", 3), Some("\u{597d}".to_string()));
}

#[test]
fn visible_input_refuses_an_input_whose_width_overflows_the_column_count() {
    let wide = "x".repeat(70_000);
    assert_eq!(visible_input(&wide, u16::MAX), None);
    assert_eq!(visible_input(&wide, 10), Some("x".repeat(10)));
    let fits = "x".repeat(65_535);
    assert_eq!(visible_input(&fits, u16::MAX), Some(fits.clone()));
}

#[test]
fn live_region_rows_put_the_footer_on_the_second_row() {
    assert_eq!(live_region_rows(7, 2), (1, Some(8)));
    assert_eq!(live_region_rows(7, 1), (1, None));
    assert_eq!(live_region_rows(7, 0), (0, None));
}

#[test]
fn a_repeated_short_word_is_never_split() {
    assert_eq!(
        wrap_text("ab ab ab", 5),
        vec!["ab ab".to_string(), "ab".to_string()]
    );
    assert_eq!(
        wrap_text("abc abc", 4),
        vec!["abc ".to_string(), "abc".to_string()]
    );
}
