//! The `read_file` tool: numbered lines of a workspace file, within a line
//! budget and a byte budget.

use vstd::prelude::*;
use vstd::utf8::{encode_scalar, encode_utf8};
use crate::text::{decimal, join, lines_of, push_char, push_decimal, push_range, push_str, split_lines, join_lines};
use crate::workspace::WorkspaceError;

verus! {

/// At most this many lines are shown per call.
pub const MAX_LINES: usize = 200;

/// At most this many bytes of numbered lines are shown per call.
pub const MAX_OUTPUT_BYTES: usize = 64 * 1024;

/// Why a `read_file` request failed.
#[derive(Debug)]
pub enum ReadFileError {
    /// Line numbers start at one.
    ZeroStartLine,
    Workspace(WorkspaceError),
}

/// The reply to an empty file.
pub open spec fn empty_file_reply() -> Seq<char> {
    "(empty file)"@
}

/// The reply when the file ends before the requested line.
pub open spec fn past_end_reply(start_line: nat) -> Seq<char> {
    "(no content at or after line "@ + decimal(start_line) + ")"@
}

/// The notice that ends a truncated reply.
pub open spec fn truncation_notice() -> Seq<char> {
    "... output truncated; call read_file again with a later start_line"@
}

/// Number of bytes of the UTF-8 encoding of `s`.
pub open spec fn byte_len(s: Seq<char>) -> nat {
    encode_utf8(s).len()
}

/// A line as shown: its one-based number, a colon and a space, then the line.
pub open spec fn numbered(number: nat, line: Seq<char>) -> Seq<char> {
    decimal(number) + ": "@ + line
}

/// The lines from `start_line` on, numbered.
pub open spec fn numbered_from(lines: Seq<Seq<char>>, start_line: nat) -> Seq<Seq<char>> {
    Seq::new(
        (lines.len() - (start_line - 1)) as nat,
        |i: int| numbered((start_line + i) as nat, lines[start_line - 1 + i]),
    )
}

/// How many of `items`, from index `j` on with `bytes` already used, fit in
/// the budgets, and whether any were left out: a line is taken while fewer
/// than `MAX_LINES` were taken and it fits in `MAX_OUTPUT_BYTES` together
/// with a separating line feed.
pub open spec fn budget(items: Seq<Seq<char>>, j: nat, bytes: nat) -> (nat, bool)
    decreases items.len() - j,
{
    if j >= items.len() {
        (j, false)
    } else if j >= MAX_LINES {
        (j, true)
    } else {
        let sep: nat = if j > 0 { 1 } else { 0 };
        if bytes + sep + byte_len(items[j as int]) > MAX_OUTPUT_BYTES {
            (j, true)
        } else {
            budget(items, j + 1, bytes + sep + byte_len(items[j as int]))
        }
    }
}

/// The reply for `content` read from `start_line` on.
pub open spec fn format_spec(content: Seq<char>, start_line: nat) -> Seq<char> {
    let lines = split_lines(content);
    if content.len() == 0 {
        empty_file_reply()
    } else if start_line - 1 >= lines.len() {
        past_end_reply(start_line)
    } else {
        let items = numbered_from(lines, start_line);
        let (taken, truncated) = budget(items, 0, 0);
        let body = join(items.take(taken as int), seq!['\n']);
        if truncated {
            body + (if taken > 0 { seq!['\n'] } else { seq![] }) + truncation_notice()
        } else {
            body
        }
    }
}

/// The budget never takes more lines than there are, nor more than
/// `MAX_LINES`; it reports truncation exactly when lines were left out.
pub proof fn lemma_budget_bounds(items: Seq<Seq<char>>, j: nat, bytes: nat)
    requires
        j <= items.len(),
    ensures
        j <= budget(items, j, bytes).0 <= items.len(),
        budget(items, j, bytes).0 <= MAX_LINES || budget(items, j, bytes).0 == j,
        budget(items, j, bytes).1 <==> budget(items, j, bytes).0 < items.len(),
    decreases items.len() - j,
{
    if j < items.len() && j < MAX_LINES {
        let sep: nat = if j > 0 { 1 } else { 0 };
        if bytes + sep + byte_len(items[j as int]) <= MAX_OUTPUT_BYTES {
            lemma_budget_bounds(items, j + 1, bytes + sep + byte_len(items[j as int]));
        }
    }
}

/// The first step of a request: the line to start from (one when none is
/// given), or the refusal of line zero.
pub fn start_line_of(start_line: Option<usize>) -> (r: Result<usize, ReadFileError>)
    ensures
        match start_line {
            None => r == Ok::<usize, ReadFileError>(1),
            Some(0) => r is Err && r->Err_0 is ZeroStartLine,
            Some(n) => r == Ok::<usize, ReadFileError>(n),
        },
{
    let n = match start_line {
        Some(n) => n,
        None => 1,
    };
    if n == 0 {
        Err(ReadFileError::ZeroStartLine)
    } else {
        Ok(n)
    }
}

/// Numbers and budgets the lines of `content` from `start_line` on.
pub fn format_file(content: &str, start_line: usize) -> (r: String)
    requires
        start_line >= 1,
    ensures
        r@ == format_spec(content@, start_line as nat),
{
    if content.is_empty() {
        return String::from_str("(empty file)");
    }
    let lines = lines_of(content);
    let start_index = start_line - 1;
    if start_index >= lines.len() {
        let mut out = String::from_str("(no content at or after line ");
        push_decimal(&mut out, start_line as u64);
        push_str(&mut out, ")");
        return out;
    }
    let ghost all = split_lines(content@);
    let ghost items = numbered_from(all, start_line as nat);
    let mut formatted_lines: Vec<String> = Vec::new();
    let mut byte_count: usize = 0;
    let mut truncated = false;
    let mut j: usize = 0;
    let total = lines.len();
    let remaining = total - start_index;
    while j < remaining
        invariant_except_break
            budget(items, 0, 0) == budget(items, j as nat, byte_count as nat),
            !truncated,
        invariant
            total == lines@.len(),
            lines@.len() == all.len(),
            forall|i: int| 0 <= i < lines@.len() ==> #[trigger] lines@[i]@ == all[i],
            start_index == start_line - 1,
            start_index < lines@.len(),
            remaining == lines@.len() - start_index,
            items == numbered_from(all, start_line as nat),
            items.len() == remaining,
            j <= remaining,
            j <= MAX_LINES,
            byte_count <= MAX_OUTPUT_BYTES,
            formatted_lines@.len() == j,
            forall|i: int| 0 <= i < j ==> #[trigger] formatted_lines@[i]@ == items[i],
        ensures
            budget(items, 0, 0) == (j as nat, truncated),
            formatted_lines@.len() == j,
            forall|i: int| 0 <= i < j ==> #[trigger] formatted_lines@[i]@ == items[i],
        decreases remaining - j,
    {
        if formatted_lines.len() >= MAX_LINES {
            truncated = true;
            break;
        }
        let line_number = start_line + j;
        let mut formatted = String::new();
        push_decimal(&mut formatted, line_number as u64);
        push_str(&mut formatted, ": ");
        let line = &lines[start_index + j];
        push_range(&mut formatted, line, 0, line.len());
        proof {
            assert(line@.subrange(0, line@.len() as int) == line@);
            assert(items[j as int] == numbered((start_line + j) as nat, all[start_index + j]));
            assert(formatted@ =~= items[j as int]);
        }
        let separator: usize = if formatted_lines.len() > 0 { 1 } else { 0 };
        let flen = formatted.as_str().as_bytes().len();
        if byte_count + separator > MAX_OUTPUT_BYTES || flen > MAX_OUTPUT_BYTES - byte_count - separator {
            truncated = true;
            break;
        }
        proof {
            assert(budget(items, j as nat, byte_count as nat) == budget(
                items,
                (j + 1) as nat,
                (byte_count + separator + flen) as nat,
            ));
        }
        byte_count = byte_count + separator + flen;
        formatted_lines.push(formatted);
        j = j + 1;
    }
    proof {
        lemma_budget_bounds(items, 0, 0);
    }
    let mut output = join_lines(&formatted_lines);
    proof {
        assert(formatted_lines@.map_values(|p: String| p@) == items.take(j as int));
    }
    if truncated {
        if !output.as_str().is_empty() {
            push_char(&mut output, '\n');
        }
        push_str(&mut output, "... output truncated; call read_file again with a later start_line");
    }
    output
}

/// Reads a file for the model: the start line is checked first, then the
/// outcome of loading the file (resolved, size-checked and decoded by the
/// sandbox) is numbered and budgeted.
pub fn read_file(start_line: Option<usize>, loaded: Result<String, WorkspaceError>) -> (r: Result<String, ReadFileError>)
    ensures
        start_line == Some(0usize) ==> r is Err && r->Err_0 is ZeroStartLine,
        start_line != Some(0usize) ==> match loaded {
            Err(e) => r is Err && r->Err_0 is Workspace && r->Err_0->Workspace_0@ == e@,
            Ok(content) => r is Ok && r->Ok_0@ == format_spec(
                content@,
                match start_line {
                    Some(n) => n as nat,
                    None => 1,
                },
            ),
        },
{
    let start = match start_line_of(start_line) {
        Ok(n) => n,
        Err(e) => return Err(e),
    };
    match loaded {
        Err(e) => Err(ReadFileError::Workspace(e)),
        Ok(content) => Ok(format_file(content.as_str(), start)),
    }
}

/// The UTF-8 length of a concatenation is the sum of the lengths.
pub proof fn lemma_byte_len_concat(a: Seq<char>, b: Seq<char>)
    ensures
        byte_len(a + b) == byte_len(a) + byte_len(b),
    decreases a.len(),
{
    if a.len() == 0 {
        assert(a + b == b);
    } else {
        lemma_byte_len_concat(a.drop_first(), b);
        assert((a + b).drop_first() == a.drop_first() + b);
        assert((a + b)[0] == a[0]);
        assert(encode_utf8(a + b) == encode_scalar((a + b)[0] as u32) + encode_utf8((a + b).drop_first()));
        assert(encode_utf8(a) == encode_scalar(a[0] as u32) + encode_utf8(a.drop_first()));
    }
}

/// Taking one more line adds its bytes and, after the first, a line feed.
proof fn lemma_join_take_bytes(items: Seq<Seq<char>>, j: nat)
    requires
        j < items.len(),
    ensures
        byte_len(join(items.take((j + 1) as int), seq!['\n'])) == byte_len(join(items.take(j as int), seq!['\n']))
            + (if j > 0 { 1int } else { 0int }) + byte_len(items[j as int]),
{
    let prefix = items.take(j as int);
    assert(items.take((j + 1) as int) == prefix.push(items[j as int]));
    crate::text::lemma_join_push(prefix, seq!['\n'], items[j as int]);
    if j > 0 {
        lemma_byte_len_concat(join(prefix, seq!['\n']) + seq!['\n'], items[j as int]);
        lemma_byte_len_concat(join(prefix, seq!['\n']), seq!['\n']);
        assert(byte_len(seq!['\n']) == 1) by {
            let nl = seq!['\n'];
            assert(nl.drop_first() == Seq::<char>::empty());
            assert(nl[0] as u32 == 10);
            assert(encode_scalar(nl[0] as u32).len() == 1);
            assert(encode_utf8(nl) == encode_scalar(nl[0] as u32) + encode_utf8(nl.drop_first()));
        }
    } else {
        assert(prefix.len() == 0);
        assert(prefix.push(items[j as int]) == seq![items[j as int]]);
    }
}

/// Joined prefixes only grow.
proof fn lemma_join_take_bytes_monotone(items: Seq<Seq<char>>, j: nat, k: nat)
    requires
        j <= k <= items.len(),
    ensures
        byte_len(join(items.take(j as int), seq!['\n'])) <= byte_len(join(items.take(k as int), seq!['\n'])),
    decreases k - j,
{
    if j < k {
        lemma_join_take_bytes_monotone(items, j, (k - 1) as nat);
        lemma_join_take_bytes(items, (k - 1) as nat);
    }
}

proof fn lemma_budget_bytes(items: Seq<Seq<char>>, j: nat, bytes: nat)
    requires
        j <= items.len(),
        bytes == byte_len(join(items.take(j as int), seq!['\n'])),
        bytes <= MAX_OUTPUT_BYTES,
    ensures
        byte_len(join(items.take(budget(items, j, bytes).0 as int), seq!['\n'])) <= MAX_OUTPUT_BYTES,
        budget(items, j, bytes).0 < items.len() && budget(items, j, bytes).0 < MAX_LINES ==> byte_len(
            join(items.take((budget(items, j, bytes).0 + 1) as int), seq!['\n']),
        ) > MAX_OUTPUT_BYTES,
    decreases items.len() - j,
{
    if j < items.len() && j < MAX_LINES {
        lemma_join_take_bytes(items, j);
        let sep: nat = if j > 0 { 1 } else { 0 };
        let next = bytes + sep + byte_len(items[j as int]);
        if next <= MAX_OUTPUT_BYTES {
            lemma_budget_bytes(items, j + 1, next);
        }
    }
}

/// The budgets of `read_file`: a reply shows at most `MAX_LINES` numbered
/// lines, whole and in order from the start line, taking at most
/// `MAX_OUTPUT_BYTES` bytes together, and as many as fit: one more line
/// would pass the line budget or the byte budget. The truncation notice is
/// added exactly when some line after them was left out.
pub proof fn lemma_read_file_budgets(content: Seq<char>, start_line: nat)
    requires
        content.len() > 0,
        1 <= start_line <= split_lines(content).len(),
    ensures
        ({
            let items = numbered_from(split_lines(content), start_line);
            let (taken, truncated) = budget(items, 0, 0);
            let body = join(items.take(taken as int), seq!['\n']);
            &&& taken <= MAX_LINES
            &&& taken <= items.len()
            &&& byte_len(body) <= MAX_OUTPUT_BYTES
            &&& forall|k: int| taken < k <= items.len() && k <= MAX_LINES ==> byte_len(
                #[trigger] join(items.take(k), seq!['\n']),
            ) > MAX_OUTPUT_BYTES
            &&& (truncated <==> taken < items.len())
            &&& forall|i: int| 0 <= i < taken ==> #[trigger] items[i] == numbered(
                (start_line + i) as nat,
                split_lines(content)[start_line - 1 + i],
            )
            &&& format_spec(content, start_line) == if truncated {
                body + (if taken > 0 { seq!['\n'] } else { seq![] }) + truncation_notice()
            } else {
                body
            }
        }),
{
    let items = numbered_from(split_lines(content), start_line);
    lemma_budget_bounds(items, 0, 0);
    assert(items.take(0) == Seq::<Seq<char>>::empty());
    assert(encode_utf8(seq![]).len() == 0);
    lemma_budget_bytes(items, 0, 0);
    let taken = budget(items, 0, 0).0;
    assert forall|k: int| taken < k <= items.len() && k <= MAX_LINES implies byte_len(
        #[trigger] join(items.take(k), seq!['\n']),
    ) > MAX_OUTPUT_BYTES by {
        lemma_join_take_bytes_monotone(items, taken + 1, k as nat);
    }
}

} // verus!
