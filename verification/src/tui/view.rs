//! Text layout for the terminal: the footer, the horizontally scrolled input
//! line, and word wrapping of finalized messages for the scrollback.
//!
//! Widths are per `char` display widths; grapheme clusters are not
//! considered, so combining marks and emoji sequences may be a column off.

use vstd::prelude::*;
use crate::text::{chars_of, is_white_space, is_white_space_char, push_range, push_str, string_of_range};
use crate::tui::app::{Message, Role, Status};

verus! {

/// The display width that `unicode-width` gives a character, or `None` for a
/// control character.
pub uninterp spec fn unicode_char_width(c: char) -> Option<usize>;

/// Display width of a character (`UnicodeWidthChar::width`): `None` exactly
/// for the control characters (below U+0020, and U+007F up to U+00A0), one
/// column for the other ASCII characters, and at most three columns for any
/// character.
#[verifier::external_body]
fn char_width_of(c: char) -> (r: Option<usize>)
    ensures
        r == unicode_char_width(c),
        r is None <==> ((c as u32) < 0x20 || (0x7F <= (c as u32) && (c as u32) < 0xA0)),
        0x20 <= (c as u32) && (c as u32) < 0x7F ==> r == Some(1usize),
        r matches Some(w) ==> w <= 3,
{
    unicode_width::UnicodeWidthChar::width(c)
}

/// The columns a character takes, control characters taking none.
pub open spec fn width_of(c: char) -> nat {
    match unicode_char_width(c) {
        Some(w) => w as nat,
        None => 0,
    }
}

/// The columns a character takes, control characters taking none.
pub fn char_columns(c: char) -> (r: usize)
    ensures
        r == width_of(c),
        r <= 3,
        0x20 <= (c as u32) && (c as u32) < 0x7F ==> r == 1,
        (c as u32) < 0x20 ==> r == 0,
{
    match char_width_of(c) {
        Some(w) => w,
        None => 0,
    }
}

/// The total columns of a sequence of characters.
pub open spec fn seq_width(s: Seq<char>) -> nat
    decreases s.len(),
{
    if s.len() == 0 {
        0
    } else {
        seq_width(s.drop_last()) + width_of(s.last())
    }
}

/// The footer shown for a status.
pub open spec fn footer_spec(status: Status) -> Seq<char> {
    match status {
        Status::Idle => "Enter send \u{b7} Ctrl-C quit"@,
        Status::Thinking => "Thinking\u{2026}"@,
        Status::Stopped => "Agent stopped"@,
    }
}

/// The footer line for a status.
pub fn footer_text(status: Status) -> (r: &'static str)
    ensures
        r@ == footer_spec(status),
{
    match status {
        Status::Idle => "Enter send \u{b7} Ctrl-C quit",
        Status::Thinking => "Thinking\u{2026}",
        Status::Stopped => "Agent stopped",
    }
}

/// Scanning `s` backwards from position `i` with `used` columns taken: the
/// position where the fitting suffix starts.
pub open spec fn fit_start(s: Seq<char>, available: nat, i: nat, used: nat) -> nat
    decreases i,
{
    if i == 0 || i > s.len() {
        0
    } else if used + width_of(s[i - 1]) > available {
        i
    } else {
        fit_start(s, available, (i - 1) as nat, used + width_of(s[i - 1]))
    }
}

/// The part of the input shown in `available` columns: nothing when there
/// is no room, else the longest suffix (by whole characters) that fits, so
/// the cursor at the end stays visible.
pub open spec fn scroll_spec(input: Seq<char>, available: nat) -> Seq<char> {
    if available == 0 {
        seq![]
    } else {
        input.subrange(fit_start(input, available, input.len(), 0) as int, input.len() as int)
    }
}

/// The longest suffix of `input` whose display width fits in
/// `available_width` columns. (Where the available width is the largest
/// `u16` and the input is wider, the column count would overflow, so such
/// inputs are excluded.)
pub fn scroll_to_fit(input: &str, available_width: u16) -> (r: String)
    requires
        !(available_width == u16::MAX && seq_width(input@) > u16::MAX),
    ensures
        r@ == scroll_spec(input@, available_width as nat),
{
    if available_width == 0 {
        return String::new();
    }
    let chars = chars_of(input);
    let mut used: u16 = 0;
    let mut start: usize = chars.len();
    assert(input@.subrange(0, input@.len() as int) == input@);
    while start > 0
        invariant_except_break
            fit_start(input@, available_width as nat, input@.len(), 0) == fit_start(
                input@,
                available_width as nat,
                start as nat,
                used as nat,
            ),
        invariant
            chars@ == input@,
            start <= chars@.len(),
            used as nat + seq_width(input@.subrange(0, start as int)) == seq_width(input@),
            used <= available_width,
            !(available_width == u16::MAX && seq_width(input@) > u16::MAX),
        ensures
            fit_start(input@, available_width as nat, input@.len(), 0) == start,
        decreases start,
    {
        let w = char_columns(chars[start - 1]) as u16;
        proof {
            let pre = input@.subrange(0, start as int);
            assert(pre.drop_last() == input@.subrange(0, start - 1));
            assert(pre.last() == input@[start - 1]);
            assert(seq_width(pre) == seq_width(pre.drop_last()) + width_of(input@[start - 1]));
        }
        if used.saturating_add(w) > available_width {
            break;
        }
        used = used + w;
        start = start - 1;
    }
    string_of_range(&chars, start, chars.len())
}

/// Where wrapping stands after reading part of a text: the finished lines,
/// the line being filled and its width, and the word being read and its
/// width.
pub struct WrapState {
    pub lines: Seq<Seq<char>>,
    pub line: Seq<char>,
    pub line_width: nat,
    pub word: Seq<char>,
    pub word_width: nat,
}

/// Nothing read yet.
pub open spec fn wrap_start() -> WrapState {
    WrapState { lines: seq![], line: seq![], line_width: 0, word: seq![], word_width: 0 }
}

/// Placing one character of a word: it goes on the current line, which is
/// first finished when the character would overflow a non-empty line.
pub open spec fn place_char(
    lines: Seq<Seq<char>>,
    line: Seq<char>,
    line_width: nat,
    c: char,
    width: nat,
) -> (Seq<Seq<char>>, Seq<char>, nat) {
    if line_width > 0 && line_width + width_of(c) > width {
        (lines.push(line), seq![c], width_of(c))
    } else {
        (lines, line.push(c), line_width + width_of(c))
    }
}

/// Placing the characters of a word in order.
pub open spec fn place_word(
    lines: Seq<Seq<char>>,
    line: Seq<char>,
    line_width: nat,
    word: Seq<char>,
    width: nat,
) -> (Seq<Seq<char>>, Seq<char>, nat)
    decreases word.len(),
{
    if word.len() == 0 {
        (lines, line, line_width)
    } else {
        let (l, li, lw) = place_word(lines, line, line_width, word.drop_last(), width);
        place_char(l, li, lw, word.last(), width)
    }
}

/// Ending a word: a word that does not fit after the text on a non-empty
/// line starts a new line; its characters are then placed one by one, so a
/// word wider than the width is broken.
pub open spec fn flush_word(st: WrapState, width: nat) -> WrapState {
    if st.word.len() == 0 {
        st
    } else {
        let (lines0, line0, lw0) = if st.line_width > 0 && st.line_width + st.word_width > width {
            (st.lines.push(st.line), Seq::<char>::empty(), 0nat)
        } else {
            (st.lines, st.line, st.line_width)
        };
        let (l, li, lw) = place_word(lines0, line0, lw0, st.word, width);
        WrapState { lines: l, line: li, line_width: lw, word: seq![], word_width: 0 }
    }
}

/// Reading one character: white space ends the word and is kept on the line
/// when it fits (a white space that takes no columns, or does not fit, is
/// dropped, the latter ending the line); any other character joins the word.
pub open spec fn wrap_step(st: WrapState, c: char, width: nat) -> WrapState {
    if is_white_space(c) {
        let f = flush_word(st, width);
        if width_of(c) == 0 {
            f
        } else if f.line_width + width_of(c) > width {
            WrapState { lines: f.lines.push(f.line), line: seq![], line_width: 0, ..f }
        } else {
            WrapState { line: f.line.push(c), line_width: f.line_width + width_of(c), ..f }
        }
    } else {
        WrapState { word: st.word.push(c), word_width: st.word_width + width_of(c), ..st }
    }
}

/// The state after reading all of `text`.
pub open spec fn wrap_fold(text: Seq<char>, width: nat) -> WrapState
    decreases text.len(),
{
    if text.len() == 0 {
        wrap_start()
    } else {
        wrap_step(wrap_fold(text.drop_last(), width), text.last(), width)
    }
}

/// The lines of `text` wrapped to `width` columns: a single empty line when
/// there is no room at all.
pub open spec fn wrap_spec(text: Seq<char>, width: nat) -> Seq<Seq<char>> {
    if width == 0 {
        seq![seq![]]
    } else {
        let f = flush_word(wrap_fold(text, width), width);
        f.lines.push(f.line)
    }
}

/// The width of a word, saturated at the largest `usize`.
pub open spec fn saturated(n: nat) -> nat {
    if n > usize::MAX {
        usize::MAX as nat
    } else {
        n
    }
}

/// Views of a vector of lines.
pub open spec fn lines_view(v: Seq<Vec<char>>) -> Seq<Seq<char>> {
    v.map_values(|l: Vec<char>| l@)
}

fn place_char_exec(lines: &mut Vec<Vec<char>>, line: &mut Vec<char>, line_width: &mut usize, c: char, width: usize)
    requires
        width <= u16::MAX,
        *old(line_width) <= width + 3,
    ensures
        (lines_view(final(lines)@), final(line)@, *final(line_width) as nat) == place_char(
            lines_view(old(lines)@),
            old(line)@,
            *old(line_width) as nat,
            c,
            width as nat,
        ),
        *final(line_width) <= width + 3,
{
    let w = char_columns(c);
    if *line_width > 0 && *line_width + w > width {
        let mut finished: Vec<char> = Vec::new();
        std::mem::swap(line, &mut finished);
        lines.push(finished);
        line.push(c);
        *line_width = w;
        proof {
            assert(lines_view(lines@) =~= lines_view(old(lines)@).push(old(line)@));
            assert(line@ =~= seq![c]);
        }
    } else {
        line.push(c);
        *line_width = *line_width + w;
    }
}

fn flush_word_exec(
    lines: &mut Vec<Vec<char>>,
    line: &mut Vec<char>,
    line_width: &mut usize,
    word: &mut Vec<char>,
    word_width: &mut usize,
    width: usize,
    Ghost(true_word_width): Ghost<nat>,
)
    requires
        width <= u16::MAX,
        *old(line_width) <= width + 3,
        *old(word_width) as nat == saturated(true_word_width),
    ensures
        ({
            let f = flush_word(
                WrapState {
                    lines: lines_view(old(lines)@),
                    line: old(line)@,
                    line_width: *old(line_width) as nat,
                    word: old(word)@,
                    word_width: true_word_width,
                },
                width as nat,
            );
            &&& lines_view(final(lines)@) == f.lines
            &&& final(line)@ == f.line
            &&& *final(line_width) as nat == f.line_width
            &&& final(word)@ == f.word
            &&& *final(word_width) as nat == saturated(f.word_width)
        }),
        *final(line_width) <= width + 3,
{
    if word.len() == 0 {
        return;
    }
    if *line_width > 0 && (*line_width > width || *word_width > width - *line_width) {
        let mut finished: Vec<char> = Vec::new();
        std::mem::swap(line, &mut finished);
        lines.push(finished);
        *line_width = 0;
        proof {
            assert(lines_view(lines@) =~= lines_view(old(lines)@).push(old(line)@));
        }
    }
    let ghost lines0 = lines_view(lines@);
    let ghost line0 = line@;
    let ghost lw0 = *line_width as nat;
    let mut i: usize = 0;
    while i < word.len()
        invariant
            i <= word@.len(),
            word@ == old(word)@,
            width <= u16::MAX,
            *line_width <= width + 3,
            (lines_view(lines@), line@, *line_width as nat) == place_word(
                lines0,
                line0,
                lw0,
                word@.take(i as int),
                width as nat,
            ),
        decreases word@.len() - i,
    {
        proof {
            assert(word@.take(i + 1).drop_last() == word@.take(i as int));
            assert(word@.take(i + 1).last() == word@[i as int]);
        }
        place_char_exec(lines, line, line_width, word[i], width);
        i = i + 1;
    }
    proof {
        assert(word@.take(word@.len() as int) == word@);
    }
    word.clear();
    *word_width = 0;
}

/// Wraps `text` to `width` columns, breaking at white space, and inside a
/// word only when the word alone is wider than a line.
pub fn wrap_text(text: &str, width: u16) -> (r: Vec<String>)
    ensures
        r@.map_values(|s: String| s@) == wrap_spec(text@, width as nat),
{
    if width == 0 {
        let mut v: Vec<String> = Vec::new();
        v.push(String::new());
        proof {
            assert(v@.map_values(|s: String| s@) =~= seq![Seq::<char>::empty()]);
        }
        return v;
    }
    let width = width as usize;
    let chars = chars_of(text);
    let mut lines: Vec<Vec<char>> = Vec::new();
    let mut line: Vec<char> = Vec::new();
    let mut line_width: usize = 0;
    let mut word: Vec<char> = Vec::new();
    let mut word_width: usize = 0;
    let mut i: usize = 0;
    proof {
        assert(lines_view(lines@) =~= Seq::<Seq<char>>::empty());
    }
    while i < chars.len()
        invariant
            chars@ == text@,
            i <= chars@.len(),
            1 <= width <= u16::MAX,
            line_width <= width + 3,
            ({
                let st = wrap_fold(text@.take(i as int), width as nat);
                &&& lines_view(lines@) == st.lines
                &&& line@ == st.line
                &&& line_width as nat == st.line_width
                &&& word@ == st.word
                &&& word_width as nat == saturated(st.word_width)
            }),
        decreases chars@.len() - i,
    {
        let c = chars[i];
        let ghost st = wrap_fold(text@.take(i as int), width as nat);
        proof {
            assert(text@.take(i + 1).drop_last() == text@.take(i as int));
            assert(text@.take(i + 1).last() == c);
        }
        if is_white_space_char(c) {
            flush_word_exec(&mut lines, &mut line, &mut line_width, &mut word, &mut word_width, width, Ghost(st.word_width));
            let w = char_columns(c);
            if w == 0 {
            } else if line_width + w > width {
                let mut finished: Vec<char> = Vec::new();
                std::mem::swap(&mut line, &mut finished);
                lines.push(finished);
                line_width = 0;
                proof {
                    let f = flush_word(st, width as nat);
                    assert(lines_view(lines@) =~= f.lines.push(f.line));
                }
            } else {
                line.push(c);
                line_width = line_width + w;
            }
        } else {
            let w = char_columns(c);
            word.push(c);
            word_width = word_width.saturating_add(w);
        }
        i = i + 1;
    }
    proof {
        assert(text@.take(chars@.len() as int) == text@);
    }
    let ghost st = wrap_fold(text@, width as nat);
    flush_word_exec(&mut lines, &mut line, &mut line_width, &mut word, &mut word_width, width, Ghost(st.word_width));
    lines.push(line);
    let mut out: Vec<String> = Vec::new();
    let mut j: usize = 0;
    while j < lines.len()
        invariant
            j <= lines@.len(),
            out@.len() == j,
            forall|k: int| 0 <= k < j ==> #[trigger] out@[k]@ == lines@[k]@,
        decreases lines@.len() - j,
    {
        out.push(string_of_range(&lines[j], 0, lines[j].len()));
        proof {
            assert(lines@[j as int]@.subrange(0, lines@[j as int]@.len() as int) == lines@[j as int]@);
        }
        j = j + 1;
    }
    proof {
        assert(out@.map_values(|s: String| s@) =~= lines_view(lines@));
    }
    out
}

/// The colour a message is drawn in.
#[derive(Debug, Clone, Copy, PartialEq, Eq)]
pub enum LineColor {
    Cyan,
    Green,
    Red,
}

/// The label that starts a message of a role.
pub open spec fn label_spec(role: Role) -> Seq<char> {
    match role {
        Role::User => "You: "@,
        Role::Assistant => "Fey: "@,
        Role::Error => "Error: "@,
    }
}

/// The label that starts a message of a role.
pub fn role_label(role: Role) -> (r: &'static str)
    ensures
        r@ == label_spec(role),
{
    match role {
        Role::User => "You: ",
        Role::Assistant => "Fey: ",
        Role::Error => "Error: ",
    }
}

/// The colour of a message of a role: the user's in cyan, the assistant's in
/// green, errors in red.
pub fn role_color(role: Role) -> (r: LineColor)
    ensures
        r == match role {
            Role::User => LineColor::Cyan,
            Role::Assistant => LineColor::Green,
            Role::Error => LineColor::Red,
        },
{
    match role {
        Role::User => LineColor::Cyan,
        Role::Assistant => LineColor::Green,
        Role::Error => LineColor::Red,
    }
}

/// A message labelled with its role and wrapped to `width` columns, as it is
/// written into the scrollback. The number of lines is the height to
/// reserve for it.
pub fn wrap_message(message: &Message, width: u16) -> (r: Vec<String>)
    ensures
        r@.map_values(|s: String| s@) == wrap_spec(label_spec(message.role) + message.text@, width as nat),
{
    let mut combined = String::new();
    push_str(&mut combined, role_label(message.role));
    push_str(&mut combined, message.text.as_str());
    wrap_text(combined.as_str(), width)
}

/// The columns left for the input after the prompt.
pub fn input_columns(row_width: u16, prompt_width: u16) -> (r: u16)
    ensures
        r == if row_width > prompt_width { row_width - prompt_width } else { 0 },
{
    row_width.saturating_sub(prompt_width)
}

/// Where the cursor goes on the input row: after the prompt and the visible
/// input, but never past the last column; no cursor on a row with no columns.
pub fn cursor_column(prompt_width: u16, visible_width: u16, row_width: u16) -> (r: Option<u16>)
    ensures
        row_width == 0 ==> r is None,
        row_width > 0 ==> r == Some(
            if prompt_width + visible_width > row_width - 1 {
                (row_width - 1) as u16
            } else {
                (prompt_width + visible_width) as u16
            },
        ),
{
    if row_width == 0 {
        return None;
    }
    let x = prompt_width.saturating_add(visible_width);
    let last = row_width - 1;
    Some(if x < last { x } else { last })
}

/// Whether the input is too wide to scroll into `available` columns: only
/// when every column a `u16` can count is available and the input is wider
/// still, the running column count would overflow.
pub open spec fn scroll_overflows(input: Seq<char>, available: nat) -> bool {
    available == u16::MAX && seq_width(input) > u16::MAX
}

/// The part of the input shown in `available` columns (the longest suffix
/// that fits), or `None` when the column count of the input would overflow.
pub fn visible_input(input: &str, available: u16) -> (r: Option<String>)
    ensures
        r is None <==> scroll_overflows(input@, available as nat),
        r matches Some(v) ==> v@ == scroll_spec(input@, available as nat),
{
    let chars = chars_of(input);
    let mut total: u32 = 0;
    let mut i: usize = 0;
    while i < chars.len()
        invariant_except_break
            total == seq_width(input@.take(i as int)),
        invariant
            chars@ == input@,
            i <= chars@.len(),
            total <= u16::MAX,
        ensures
            i <= chars@.len(),
            i == chars@.len() ==> seq_width(input@.take(i as int)) <= u16::MAX,
            i < chars@.len() ==> seq_width(input@) > u16::MAX,
        decreases chars@.len() - i,
    {
        let w = char_columns(chars[i]) as u32;
        proof {
            assert(input@.take(i + 1) == input@.take(i as int).push(input@[i as int]));
            lemma_seq_width_push(input@.take(i as int), input@[i as int]);
        }
        if total + w > u16::MAX as u32 {
            proof {
                lemma_seq_width_concat(input@.take(i + 1), input@.skip(i + 1));
                assert(input@.take(i + 1) + input@.skip(i + 1) == input@);
            }
            break;
        }
        total = total + w;
        i = i + 1;
    }
    proof {
        if i == chars@.len() {
            assert(input@.take(i as int) == input@);
        }
    }
    if i < chars.len() && available == u16::MAX {
        return None;
    }
    Some(scroll_to_fit(input, available))
}

/// How the live region's rows are used, for a region of `height` rows
/// starting at row `y`: the height of the input row (one row, none in an
/// empty region), and the row of the footer when there is a second row.
pub fn live_region_rows(y: u16, height: u16) -> (r: (u16, Option<u16>))
    requires
        height > 1 ==> y < u16::MAX,
    ensures
        r.0 == if height < 1 { height } else { 1 },
        height > 1 ==> r.1 == Some((y + 1) as u16),
        height <= 1 ==> r.1 is None,
{
    let input_height = if height < 1 { height } else { 1 };
    if height > 1 {
        (input_height, Some(y + 1))
    } else {
        (input_height, None)
    }
}

/// The width of a concatenation is the sum of the widths.
pub proof fn lemma_seq_width_concat(a: Seq<char>, b: Seq<char>)
    ensures
        seq_width(a + b) == seq_width(a) + seq_width(b),
    decreases b.len(),
{
    if b.len() == 0 {
        assert(a + b == a);
    } else {
        lemma_seq_width_concat(a, b.drop_last());
        assert((a + b).drop_last() == a + b.drop_last());
        assert((a + b).last() == b.last());
    }
}

proof fn lemma_fit_start(s: Seq<char>, available: nat, i: nat, used: nat)
    requires
        i <= s.len(),
        used == seq_width(s.subrange(i as int, s.len() as int)),
        used <= available,
    ensures
        fit_start(s, available, i, used) <= i,
        seq_width(s.subrange(fit_start(s, available, i, used) as int, s.len() as int)) <= available,
        fit_start(s, available, i, used) > 0 ==> seq_width(
            s.subrange(fit_start(s, available, i, used) - 1, s.len() as int),
        ) > available,
    decreases i,
{
    if i > 0 {
        let c = s[i - 1];
        let rest = s.subrange(i as int, s.len() as int);
        assert(s.subrange(i - 1, s.len() as int) == seq![c] + rest);
        lemma_seq_width_concat(seq![c], rest);
        assert(seq![c].drop_last() == Seq::<char>::empty());
        assert(seq_width(Seq::<char>::empty()) == 0);
        assert(seq![c].last() == c);
        assert(seq_width(seq![c]) == width_of(c));
        if used + width_of(c) <= available {
            lemma_fit_start(s, available, (i - 1) as nat, used + width_of(c));
        }
    }
}

/// The scrolled input is the longest suffix that fits: it is a suffix of
/// the input, it takes at most `available` columns, and one more character
/// from the input would not fit.
pub proof fn lemma_scroll_longest_fitting_suffix(input: Seq<char>, available: nat)
    requires
        available > 0,
    ensures
        ({
            let start = fit_start(input, available, input.len(), 0);
            &&& start <= input.len()
            &&& scroll_spec(input, available) == input.subrange(start as int, input.len() as int)
            &&& seq_width(scroll_spec(input, available)) <= available
            &&& start > 0 ==> seq_width(input.subrange(start - 1, input.len() as int)) > available
        }),
{
    assert(input.subrange(input.len() as int, input.len() as int) == Seq::<char>::empty());
    lemma_fit_start(input, available, input.len(), 0);
}

/// The characters of `s` that are not white space, in order.
pub open spec fn printable(s: Seq<char>) -> Seq<char>
    decreases s.len(),
{
    if s.len() == 0 {
        seq![]
    } else if is_white_space(s.last()) {
        printable(s.drop_last())
    } else {
        printable(s.drop_last()).push(s.last())
    }
}

/// The lines of `ls` written one after another.
pub open spec fn concat_lines(ls: Seq<Seq<char>>) -> Seq<char>
    decreases ls.len(),
{
    if ls.len() == 0 {
        seq![]
    } else {
        concat_lines(ls.drop_last()) + ls.last()
    }
}

/// A line fits in `width` columns, or it is as wide as one of its characters
/// (a character too wide for a line gets a line to itself, with at most
/// characters that take no columns).
pub open spec fn line_fits(l: Seq<char>, width: nat) -> bool {
    seq_width(l) <= width || exists|i: int| 0 <= i < l.len() && seq_width(l) == width_of(#[trigger] l[i])
}

/// Everything wrapping has read so far, in order.
pub open spec fn wrap_content(st: WrapState) -> Seq<char> {
    concat_lines(st.lines) + st.line + st.word
}

/// The width invariant of wrapping.
pub open spec fn wrap_widths_ok(lines: Seq<Seq<char>>, line: Seq<char>, line_width: nat, width: nat) -> bool {
    &&& forall|i: int| 0 <= i < lines.len() ==> line_fits(#[trigger] lines[i], width)
    &&& seq_width(line) == line_width
    &&& line_fits(line, width)
}

proof fn lemma_printable_concat(a: Seq<char>, b: Seq<char>)
    ensures
        printable(a + b) == printable(a) + printable(b),
    decreases b.len(),
{
    if b.len() == 0 {
        assert(a + b == a);
    } else {
        lemma_printable_concat(a, b.drop_last());
        assert((a + b).drop_last() == a + b.drop_last());
        assert((a + b).last() == b.last());
    }
}

proof fn lemma_concat_lines_push(ls: Seq<Seq<char>>, l: Seq<char>)
    ensures
        concat_lines(ls.push(l)) == concat_lines(ls) + l,
{
    assert(ls.push(l).drop_last() == ls);
}

proof fn lemma_seq_width_push(s: Seq<char>, c: char)
    ensures
        seq_width(s.push(c)) == seq_width(s) + width_of(c),
{
    assert(s.push(c).drop_last() == s);
}

proof fn lemma_place_char(lines: Seq<Seq<char>>, line: Seq<char>, line_width: nat, c: char, width: nat)
    requires
        wrap_widths_ok(lines, line, line_width, width),
    ensures
        ({
            let (l, li, lw) = place_char(lines, line, line_width, c, width);
            &&& concat_lines(l) + li == concat_lines(lines) + line + seq![c]
            &&& wrap_widths_ok(l, li, lw, width)
        }),
{
    let (l, li, lw) = place_char(lines, line, line_width, c, width);
    if line_width > 0 && line_width + width_of(c) > width {
        lemma_concat_lines_push(lines, line);
        lemma_seq_width_push(Seq::<char>::empty(), c);
        assert(Seq::<char>::empty().push(c) == seq![c]);
        assert(seq_width(Seq::<char>::empty()) == 0);
        assert(seq![c][0] == c);
        assert forall|i: int| 0 <= i < l.len() implies line_fits(#[trigger] l[i], width) by {
            if i < lines.len() {
                assert(l[i] == lines[i]);
            }
        }
    } else {
        lemma_seq_width_push(line, c);
        assert(concat_lines(lines) + line.push(c) == concat_lines(lines) + line + seq![c]);
        if !(line_width + width_of(c) <= width) {
            assert(line_width == 0);
            assert(li[line.len() as int] == c);
        }
    }
}

proof fn lemma_place_word(lines: Seq<Seq<char>>, line: Seq<char>, line_width: nat, word: Seq<char>, width: nat)
    requires
        wrap_widths_ok(lines, line, line_width, width),
    ensures
        ({
            let (l, li, lw) = place_word(lines, line, line_width, word, width);
            &&& concat_lines(l) + li == concat_lines(lines) + line + word
            &&& wrap_widths_ok(l, li, lw, width)
        }),
    decreases word.len(),
{
    if word.len() == 0 {
        assert(concat_lines(lines) + line + word == concat_lines(lines) + line);
    } else {
        lemma_place_word(lines, line, line_width, word.drop_last(), width);
        let (l0, li0, lw0) = place_word(lines, line, line_width, word.drop_last(), width);
        lemma_place_char(l0, li0, lw0, word.last(), width);
        assert(word == word.drop_last().push(word.last()));
        assert(concat_lines(lines) + line + word.drop_last() + seq![word.last()] == concat_lines(lines)
            + line + word);
    }
}

proof fn lemma_flush_word(st: WrapState, width: nat)
    requires
        wrap_widths_ok(st.lines, st.line, st.line_width, width),
    ensures
        wrap_content(flush_word(st, width)) == wrap_content(st),
        flush_word(st, width).word.len() == 0 || flush_word(st, width) == st,
        wrap_widths_ok(
            flush_word(st, width).lines,
            flush_word(st, width).line,
            flush_word(st, width).line_width,
            width,
        ),
{
    if st.word.len() > 0 {
        if st.line_width > 0 && st.line_width + st.word_width > width {
            let lines0 = st.lines.push(st.line);
            lemma_concat_lines_push(st.lines, st.line);
            assert(seq_width(Seq::<char>::empty()) == 0);
            assert forall|i: int| 0 <= i < lines0.len() implies line_fits(#[trigger] lines0[i], width) by {
                if i < st.lines.len() {
                    assert(lines0[i] == st.lines[i]);
                }
            }
            lemma_place_word(lines0, Seq::<char>::empty(), 0, st.word, width);
            assert(concat_lines(lines0) + Seq::<char>::empty() == concat_lines(lines0));
        } else {
            lemma_place_word(st.lines, st.line, st.line_width, st.word, width);
        }
        let f = flush_word(st, width);
        assert(wrap_content(f) == concat_lines(f.lines) + f.line);
    }
}

proof fn lemma_wrap_fold(text: Seq<char>, width: nat)
    ensures
        printable(wrap_content(wrap_fold(text, width))) == printable(text),
        wrap_widths_ok(
            wrap_fold(text, width).lines,
            wrap_fold(text, width).line,
            wrap_fold(text, width).line_width,
            width,
        ),
    decreases text.len(),
{
    if text.len() == 0 {
        assert(seq_width(Seq::<char>::empty()) == 0);
        assert(wrap_content(wrap_start()) == Seq::<char>::empty());
    } else {
        let pre = text.drop_last();
        let c = text.last();
        lemma_wrap_fold(pre, width);
        let st = wrap_fold(pre, width);
        assert(text == pre.push(c));
        lemma_printable_concat(pre, seq![c]);
        assert(pre + seq![c] == text);
        assert(seq![c].drop_last() == Seq::<char>::empty());
        assert(printable(Seq::<char>::empty()) == Seq::<char>::empty());
        if is_white_space(c) {
            assert(printable(seq![c]) == Seq::<char>::empty());
            lemma_flush_word(st, width);
            let f = flush_word(st, width);
            if width_of(c) == 0 {
            } else if f.line_width + width_of(c) > width {
                lemma_concat_lines_push(f.lines, f.line);
                assert(seq_width(Seq::<char>::empty()) == 0);
                let nl = f.lines.push(f.line);
                assert forall|i: int| 0 <= i < nl.len() implies line_fits(#[trigger] nl[i], width) by {
                    if i < f.lines.len() {
                        assert(nl[i] == f.lines[i]);
                    }
                }
                assert(wrap_content(wrap_step(st, c, width)) == wrap_content(f));
            } else {
                lemma_seq_width_push(f.line, c);
                let s2 = wrap_step(st, c, width);
                assert(wrap_content(s2) == wrap_content(f) + seq![c]);
                lemma_printable_concat(wrap_content(f), seq![c]);
            }
        } else {
            assert(printable(seq![c]) == seq![c]);
            let s2 = wrap_step(st, c, width);
            assert(wrap_content(s2) == wrap_content(st) + seq![c]);
            lemma_printable_concat(wrap_content(st), seq![c]);
        }
    }
}

/// `a` is `b` with some characters left out: `idx` gives, in increasing
/// order, the position in `b` of each character of `a`.
pub open spec fn subsequence_at(a: Seq<char>, b: Seq<char>, idx: Seq<int>) -> bool {
    &&& idx.len() == a.len()
    &&& forall|i: int, j: int| 0 <= i < j < idx.len() ==> #[trigger] idx[i] < #[trigger] idx[j]
    &&& forall|i: int| 0 <= i < idx.len() ==> 0 <= #[trigger] idx[i] < b.len() && a[i] == b[idx[i]]
}

/// `a` is `b` with some characters left out.
pub open spec fn is_subsequence(a: Seq<char>, b: Seq<char>) -> bool {
    exists|idx: Seq<int>| subsequence_at(a, b, idx)
}

proof fn lemma_subsequence_extend(a: Seq<char>, b: Seq<char>, c: char)
    requires
        is_subsequence(a, b),
    ensures
        is_subsequence(a, b.push(c)),
        is_subsequence(a.push(c), b.push(c)),
{
    let idx = choose|idx: Seq<int>| subsequence_at(a, b, idx);
    assert(subsequence_at(a, b.push(c), idx));
    let idx2 = idx.push(b.len() as int);
    assert forall|i: int| 0 <= i < idx2.len() implies 0 <= #[trigger] idx2[i] < b.push(c).len() && a.push(c)[i]
        == b.push(c)[idx2[i]] by {
        if i < idx.len() {
            assert(idx2[i] == idx[i]);
        }
    }
    assert forall|i: int, j: int| 0 <= i < j < idx2.len() implies #[trigger] idx2[i] < #[trigger] idx2[j] by {
        if j < idx.len() {
            assert(idx2[i] == idx[i] && idx2[j] == idx[j]);
        } else {
            assert(idx2[i] == idx[i]);
        }
    }
    assert(subsequence_at(a.push(c), b.push(c), idx2));
}

/// What wrapping has read is the text read so far with only some white
/// space left out.
proof fn lemma_wrap_fold_subsequence(text: Seq<char>, width: nat)
    ensures
        is_subsequence(wrap_content(wrap_fold(text, width)), text),
    decreases text.len(),
{
    if text.len() == 0 {
        assert(wrap_content(wrap_start()) == Seq::<char>::empty());
        assert(subsequence_at(Seq::<char>::empty(), text, Seq::<int>::empty()));
    } else {
        let pre = text.drop_last();
        let c = text.last();
        assert(text == pre.push(c));
        lemma_wrap_fold_subsequence(pre, width);
        lemma_wrap_fold(pre, width);
        let st = wrap_fold(pre, width);
        lemma_subsequence_extend(wrap_content(st), pre, c);
        if is_white_space(c) {
            lemma_flush_word(st, width);
            let f = flush_word(st, width);
            if width_of(c) == 0 {
            } else if f.line_width + width_of(c) > width {
                lemma_concat_lines_push(f.lines, f.line);
                assert(wrap_content(wrap_step(st, c, width)) == wrap_content(f));
            } else {
                assert(wrap_content(wrap_step(st, c, width)) == wrap_content(f) + seq![c]);
                assert(wrap_content(f) + seq![c] == wrap_content(f).push(c));
            }
        } else {
            assert(wrap_content(wrap_step(st, c, width)) == wrap_content(st).push(c));
        }
    }
}

/// Wrapping leaves out only white space: the wrapped lines, written one after
/// another, are the text with some of its white space left out.
pub proof fn lemma_wrap_drops_only_white_space(text: Seq<char>, width: nat)
    requires
        width > 0,
    ensures
        is_subsequence(concat_lines(wrap_spec(text, width)), text),
        printable(concat_lines(wrap_spec(text, width))) == printable(text),
        wrap_spec(text, width).len() >= 1,
{
    lemma_wrap_keeps_text_and_fits(text, width);
    lemma_wrap_fold_subsequence(text, width);
    lemma_wrap_fold(text, width);
    let st = wrap_fold(text, width);
    lemma_flush_word(st, width);
    let f = flush_word(st, width);
    lemma_concat_lines_push(f.lines, f.line);
    assert(wrap_content(f) == concat_lines(f.lines) + f.line);
}

/// Placing a word that fits after the text of the line keeps it on the line.
proof fn lemma_place_word_fits(lines: Seq<Seq<char>>, line: Seq<char>, line_width: nat, word: Seq<char>, width: nat)
    requires
        line_width + seq_width(word) <= width,
    ensures
        place_word(lines, line, line_width, word, width) == (lines, line + word, line_width + seq_width(word)),
    decreases word.len(),
{
    if word.len() > 0 {
        let pre = word.drop_last();
        assert(seq_width(word) == seq_width(pre) + width_of(word.last()));
        lemma_place_word_fits(lines, line, line_width, pre, width);
        assert(line + pre + seq![word.last()] == line + word) by {
            assert(word == pre.push(word.last()));
        }
        assert((line + pre).push(word.last()) == line + pre + seq![word.last()]);
    } else {
        assert(line + word == line);
    }
}

/// A word no wider than the width is never broken: ending it puts all of it
/// on one line, after the text already on the current line when it fits
/// there, else at the start of a new line (the current line is finished).
pub proof fn lemma_short_word_stays_whole(st: WrapState, width: nat)
    requires
        st.word.len() > 0,
        st.word_width == seq_width(st.word),
        seq_width(st.word) <= width,
    ensures
        ({
            let f = flush_word(st, width);
            ||| f.lines == st.lines && f.line == st.line + st.word
            ||| f.lines == st.lines.push(st.line) && f.line == st.word
        }),
{
    if st.line_width > 0 && st.line_width + st.word_width > width {
        lemma_place_word_fits(st.lines.push(st.line), Seq::<char>::empty(), 0, st.word, width);
        assert(Seq::<char>::empty() + st.word == st.word);
    } else {
        lemma_place_word_fits(st.lines, st.line, st.line_width, st.word, width);
    }
}

/// While a word is being read, its recorded width is its width.
proof fn lemma_wrap_fold_word_width(text: Seq<char>, width: nat)
    ensures
        wrap_fold(text, width).word_width == seq_width(wrap_fold(text, width).word),
    decreases text.len(),
{
    if text.len() > 0 {
        lemma_wrap_fold_word_width(text.drop_last(), width);
        let st = wrap_fold(text.drop_last(), width);
        let c = text.last();
        if !is_white_space(c) {
            lemma_seq_width_push(st.word, c);
        } else {
            assert(seq_width(Seq::<char>::empty()) == 0);
        }
    } else {
        assert(seq_width(Seq::<char>::empty()) == 0);
    }
}

/// The word wrapping holds after reading a text is the text's last run of
/// characters that are not white space, and its width is recorded.
pub proof fn lemma_wrap_reads_whole_words(before: Seq<char>, word: Seq<char>, width: nat)
    requires
        before.len() == 0 || is_white_space(before.last()),
        forall|i: int| 0 <= i < word.len() ==> !is_white_space(#[trigger] word[i]),
    ensures
        wrap_fold(before + word, width).word == word,
        wrap_fold(before + word, width).word_width == seq_width(word),
    decreases word.len(),
{
    lemma_wrap_fold_word_width(before + word, width);
    if word.len() == 0 {
        assert(before + word == before);
        if before.len() > 0 {
            assert(wrap_fold(before, width).word.len() == 0);
        }
    } else {
        let pre = word.drop_last();
        lemma_wrap_reads_whole_words(before, pre, width);
        assert(before + word == (before + pre).push(word.last())) by {
            assert(word == pre.push(word.last()));
        }
        assert((before + word).drop_last() == before + pre);
        assert(!is_white_space(word[word.len() - 1]));
        assert(wrap_fold(before + pre, width).word.push(word.last()) == word);
    }
}

/// `p` begins `l`.
pub open spec fn starts_line(p: Seq<char>, l: Seq<char>) -> bool {
    p.len() <= l.len() && l.take(p.len() as int) == p
}

/// Wrapping only adds to what it has written: the finished lines stay, and
/// the current line is either extended or finished as it is (and maybe
/// followed by more lines).
pub open spec fn grows(lines: Seq<Seq<char>>, line: Seq<char>, lines2: Seq<Seq<char>>, line2: Seq<char>) -> bool {
    ||| lines2 == lines && starts_line(line, line2)
    ||| lines.len() < lines2.len() && lines2.take(lines.len() as int) == lines && starts_line(line, lines2[lines.len() as int])
}

proof fn lemma_grows_refl(lines: Seq<Seq<char>>, line: Seq<char>)
    ensures
        grows(lines, line, lines, line),
{
    assert(line.take(line.len() as int) == line);
}

proof fn lemma_grows_trans(
    l1: Seq<Seq<char>>,
    s1: Seq<char>,
    l2: Seq<Seq<char>>,
    s2: Seq<char>,
    l3: Seq<Seq<char>>,
    s3: Seq<char>,
)
    requires
        grows(l1, s1, l2, s2),
        grows(l2, s2, l3, s3),
    ensures
        grows(l1, s1, l3, s3),
{
    if l2 == l1 && starts_line(s1, s2) {
        if l3 == l2 && starts_line(s2, s3) {
            assert(s3.take(s1.len() as int) =~= s1) by {
                assert forall|i: int| 0 <= i < s1.len() implies s3[i] == s1[i] by {
                    assert(s3.take(s2.len() as int)[i] == s2[i]);
                    assert(s2.take(s1.len() as int)[i] == s1[i]);
                }
            }
        } else {
            let t = l3[l2.len() as int];
            assert(t.take(s1.len() as int) =~= s1) by {
                assert(t.take(s2.len() as int) == s2);
                assert forall|i: int| 0 <= i < s1.len() implies t[i] == s1[i] by {
                    assert(s2.take(s1.len() as int)[i] == s1[i]);
                    assert(t.take(s2.len() as int)[i] == t[i]);
                }
            }
        }
    } else {
        let n1 = l1.len() as int;
        if l3 == l2 && starts_line(s2, s3) {
        } else {
            assert(l3.take(n1) =~= l1) by {
                assert forall|i: int| 0 <= i < n1 implies l3[i] == l1[i] by {
                    assert(l3.take(l2.len() as int)[i] == l2[i]);
                    assert(l2.take(n1)[i] == l1[i]);
                }
            }
            assert(l3[n1] == l2[n1]) by {
                assert(l3.take(l2.len() as int)[n1] == l2[n1]);
            }
        }
    }
}

proof fn lemma_place_char_grows(lines: Seq<Seq<char>>, line: Seq<char>, line_width: nat, c: char, width: nat)
    ensures
        ({
            let (l, li, lw) = place_char(lines, line, line_width, c, width);
            grows(lines, line, l, li)
        }),
{
    if line_width > 0 && line_width + width_of(c) > width {
        assert(lines.push(line).take(lines.len() as int) == lines);
        assert(line.take(line.len() as int) == line);
    } else {
        assert(line.push(c).take(line.len() as int) == line);
    }
}

proof fn lemma_place_word_grows(lines: Seq<Seq<char>>, line: Seq<char>, line_width: nat, word: Seq<char>, width: nat)
    ensures
        ({
            let (l, li, lw) = place_word(lines, line, line_width, word, width);
            grows(lines, line, l, li)
        }),
    decreases word.len(),
{
    if word.len() == 0 {
        lemma_grows_refl(lines, line);
    } else {
        lemma_place_word_grows(lines, line, line_width, word.drop_last(), width);
        let (l0, li0, lw0) = place_word(lines, line, line_width, word.drop_last(), width);
        lemma_place_char_grows(l0, li0, lw0, word.last(), width);
        let (l, li, lw) = place_char(l0, li0, lw0, word.last(), width);
        lemma_grows_trans(lines, line, l0, li0, l, li);
    }
}

proof fn lemma_flush_word_grows(st: WrapState, width: nat)
    ensures
        grows(st.lines, st.line, flush_word(st, width).lines, flush_word(st, width).line),
{
    if st.word.len() == 0 {
        lemma_grows_refl(st.lines, st.line);
    } else if st.line_width > 0 && st.line_width + st.word_width > width {
        let lines0 = st.lines.push(st.line);
        let e = Seq::<char>::empty();
        assert(lines0.take(st.lines.len() as int) == st.lines);
        assert(st.line.take(st.line.len() as int) == st.line);
        assert(grows(st.lines, st.line, lines0, e));
        lemma_place_word_grows(lines0, e, 0, st.word, width);
        let (l, li, lw) = place_word(lines0, e, 0, st.word, width);
        lemma_grows_trans(st.lines, st.line, lines0, e, l, li);
    } else {
        lemma_place_word_grows(st.lines, st.line, st.line_width, st.word, width);
    }
}

proof fn lemma_wrap_step_grows(st: WrapState, c: char, width: nat)
    ensures
        grows(st.lines, st.line, wrap_step(st, c, width).lines, wrap_step(st, c, width).line),
        is_white_space(c) ==> grows(
            flush_word(st, width).lines,
            flush_word(st, width).line,
            wrap_step(st, c, width).lines,
            wrap_step(st, c, width).line,
        ),
{
    if is_white_space(c) {
        lemma_flush_word_grows(st, width);
        let f = flush_word(st, width);
        let n = wrap_step(st, c, width);
        if width_of(c) == 0 {
            lemma_grows_refl(f.lines, f.line);
        } else if f.line_width + width_of(c) > width {
            assert(f.lines.push(f.line).take(f.lines.len() as int) == f.lines);
            assert(f.line.take(f.line.len() as int) == f.line);
        } else {
            assert(f.line.push(c).take(f.line.len() as int) == f.line);
        }
        lemma_grows_trans(st.lines, st.line, f.lines, f.line, n.lines, n.line);
    } else {
        lemma_grows_refl(st.lines, st.line);
    }
}

proof fn lemma_wrap_fold_grows(t: Seq<char>, u: Seq<char>, width: nat)
    ensures
        grows(wrap_fold(t, width).lines, wrap_fold(t, width).line, wrap_fold(t + u, width).lines, wrap_fold(t + u, width).line),
    decreases u.len(),
{
    if u.len() == 0 {
        assert(t + u == t);
        lemma_grows_refl(wrap_fold(t, width).lines, wrap_fold(t, width).line);
    } else {
        let pre = u.drop_last();
        lemma_wrap_fold_grows(t, pre, width);
        assert((t + u).drop_last() == t + pre);
        let a = wrap_fold(t, width);
        let b = wrap_fold(t + pre, width);
        lemma_wrap_step_grows(b, u.last(), width);
        assert((t + u).last() == u.last());
        let n = wrap_fold(t + u, width);
        lemma_grows_trans(a.lines, a.line, b.lines, b.line, n.lines, n.line);
    }
}

/// From the moment a word is ended to the end of the text, wrapping only
/// adds to what it has written.
proof fn lemma_word_end_grows(before: Seq<char>, word: Seq<char>, after: Seq<char>, width: nat)
    requires
        after.len() == 0 || is_white_space(after[0]),
    ensures
        grows(
            flush_word(wrap_fold(before + word, width), width).lines,
            flush_word(wrap_fold(before + word, width), width).line,
            flush_word(wrap_fold(before + word + after, width), width).lines,
            flush_word(wrap_fold(before + word + after, width), width).line,
        ),
{
    let st1 = wrap_fold(before + word, width);
    let f1 = flush_word(st1, width);
    if after.len() == 0 {
        assert(before + word + after == before + word);
        lemma_grows_refl(f1.lines, f1.line);
    } else {
        let c = after[0];
        let rest = after.drop_first();
        let t2 = (before + word).push(c);
        assert(after == seq![c] + rest);
        assert(before + word + after == t2 + rest);
        assert(t2.drop_last() == before + word);
        assert(t2.last() == c);
        let st2 = wrap_fold(t2, width);
        lemma_wrap_step_grows(st1, c, width);
        lemma_wrap_fold_grows(t2, rest, width);
        let fin = wrap_fold(t2 + rest, width);
        lemma_grows_trans(f1.lines, f1.line, st2.lines, st2.line, fin.lines, fin.line);
        lemma_flush_word_grows(fin, width);
        let ff = flush_word(fin, width);
        lemma_grows_trans(f1.lines, f1.line, fin.lines, fin.line, ff.lines, ff.line);
    }
}

/// A word no wider than the width is never broken. Take a word of the text
/// (a run of characters that are not white space, with white space or the
/// text's edge on either side) that fits in the width: it stands whole, as
/// one run, in one wrapped line `i` at column position `k`, and this is
/// that occurrence of the word: everything written before its end (the
/// lines before `i`, then line `i` up to the word's end) is exactly what
/// wrapping the text up to the word's end writes.
pub proof fn lemma_short_words_are_not_broken(before: Seq<char>, word: Seq<char>, after: Seq<char>, width: nat)
    requires
        width > 0,
        word.len() > 0,
        before.len() == 0 || is_white_space(before.last()),
        forall|i: int| 0 <= i < word.len() ==> !is_white_space(#[trigger] word[i]),
        after.len() == 0 || is_white_space(after[0]),
        seq_width(word) <= width,
    ensures
        exists|i: int, k: int|
            #![trigger wrap_spec(before + word + after, width)[i].subrange(k, k + word.len())]
            {
                &&& 0 <= i < wrap_spec(before + word + after, width).len()
                &&& 0 <= k && k + word.len() <= wrap_spec(before + word + after, width)[i].len()
                &&& wrap_spec(before + word + after, width)[i].subrange(k, k + word.len()) == word
                &&& concat_lines(wrap_spec(before + word + after, width).take(i)) + wrap_spec(
                    before + word + after,
                    width,
                )[i].take(k + word.len()) == concat_lines(wrap_spec(before + word, width))
            },
{
    let text = before + word + after;
    lemma_wrap_reads_whole_words(before, word, width);
    let st1 = wrap_fold(before + word, width);
    lemma_short_word_stays_whole(st1, width);
    let f1 = flush_word(st1, width);
    lemma_word_end_grows(before, word, after, width);
    let f = flush_word(wrap_fold(text, width), width);
    let lines = f.lines.push(f.line);
    assert(wrap_spec(text, width) == lines);
    assert(wrap_spec(before + word, width) == f1.lines.push(f1.line));
    lemma_concat_lines_push(f1.lines, f1.line);
    let i = f1.lines.len() as int;
    let k = f1.line.len() - word.len();
    let l1 = f1.line;
    assert(lines.take(i) == f1.lines) by {
        if f.lines != f1.lines {
            assert(lines.take(i) =~= f.lines.take(i));
        }
    }
    assert(starts_line(l1, lines[i])) by {
        if f.lines == f1.lines && starts_line(f1.line, f.line) {
            assert(lines[i] == f.line);
        } else {
            assert(lines[i] == f.lines[i]);
        }
    }
    let li = lines[i];
    assert(li.take(k + word.len()) == l1);
    assert(l1.subrange(k, k + word.len()) =~= word);
    assert(li.subrange(k, k + word.len()) =~= word) by {
        assert forall|j: int| 0 <= j < word.len() implies li.subrange(k, k + word.len())[j] == word[j] by {
            assert(li.take(l1.len() as int)[k + j] == l1[k + j]);
            assert(l1.subrange(k, k + word.len())[j] == l1[k + j]);
        }
    }
    assert(concat_lines(lines.take(i)) + li.take(k + word.len()) == concat_lines(wrap_spec(before + word, width)));
}

/// Wrapping loses no text but white space: the characters that are not
/// white space appear in the wrapped lines exactly as in the text, in order.
/// And no line is wider than the width, except a line holding a character
/// too wide for any line.
pub proof fn lemma_wrap_keeps_text_and_fits(text: Seq<char>, width: nat)
    requires
        width > 0,
    ensures
        printable(concat_lines(wrap_spec(text, width))) == printable(text),
        forall|i: int| 0 <= i < wrap_spec(text, width).len() ==> line_fits(#[trigger] wrap_spec(text, width)[i], width),
{
    lemma_wrap_fold(text, width);
    let st = wrap_fold(text, width);
    lemma_flush_word(st, width);
    let f = flush_word(st, width);
    lemma_concat_lines_push(f.lines, f.line);
    assert(wrap_content(f) == concat_lines(f.lines) + f.line);
    let r = f.lines.push(f.line);
    assert forall|i: int| 0 <= i < r.len() implies line_fits(#[trigger] r[i], width) by {
        if i < f.lines.len() {
            assert(r[i] == f.lines[i]);
        }
    }
}

} // verus!
