//! Character-level text helpers shared by the tools and the terminal view:
//! Unicode white space, trimming, line splitting, decimal rendering, and the
//! few `String` operations the rest of the crate builds on.

use vstd::prelude::*;

verus! {

/// The Unicode `White_Space` property (the set `char::is_whitespace` tests).
pub open spec fn is_white_space(c: char) -> bool {
    let u = c as u32;
    ||| 0x09 <= u <= 0x0D
    ||| u == 0x20
    ||| u == 0x85
    ||| u == 0xA0
    ||| u == 0x1680
    ||| 0x2000 <= u <= 0x200A
    ||| u == 0x2028
    ||| u == 0x2029
    ||| u == 0x202F
    ||| u == 0x205F
    ||| u == 0x3000
}

/// Whether `c` has the Unicode `White_Space` property.
pub fn is_white_space_char(c: char) -> (r: bool)
    ensures
        r == is_white_space(c),
{
    let u = c as u32;
    (0x09 <= u && u <= 0x0D) || u == 0x20 || u == 0x85 || u == 0xA0 || u == 0x1680 || (0x2000
        <= u && u <= 0x200A) || u == 0x2028 || u == 0x2029 || u == 0x202F || u == 0x205F || u
        == 0x3000
}

/// `s` without its leading white space.
pub open spec fn trim_start_spec(s: Seq<char>) -> Seq<char>
    decreases s.len(),
{
    if s.len() > 0 && is_white_space(s[0]) {
        trim_start_spec(s.drop_first())
    } else {
        s
    }
}

/// `s` without its trailing white space.
pub open spec fn trim_end_spec(s: Seq<char>) -> Seq<char>
    decreases s.len(),
{
    if s.len() > 0 && is_white_space(s.last()) {
        trim_end_spec(s.drop_last())
    } else {
        s
    }
}

/// `s` without leading and trailing white space (what `str::trim` returns).
pub open spec fn trim_spec(s: Seq<char>) -> Seq<char> {
    trim_end_spec(trim_start_spec(s))
}

/// Appends `c` to `s` (`String::push`).
#[verifier::external_body]
pub(crate) fn push_char(s: &mut String, c: char)
    ensures
        final(s)@ == old(s)@.push(c),
{
    s.push(c);
}

/// Removes and returns the last character of `s` (`String::pop`).
#[verifier::external_body]
pub(crate) fn pop_char(s: &mut String) -> (r: Option<char>)
    ensures
        old(s)@.len() == 0 ==> r is None && final(s)@ == old(s)@,
        old(s)@.len() > 0 ==> r == Some(old(s)@.last()) && final(s)@ == old(s)@.drop_last(),
{
    s.pop()
}

/// Appends every character of `t` to `s`.
pub fn push_str(s: &mut String, t: &str)
    ensures
        final(s)@ == old(s)@ + t@,
{
    let ghost start = s@;
    for c in it: t.chars()
        invariant
            it.seq() == t@,
            s@ == start + t@.take(it.index() as int),
    {
        proof {
            assert(t@.take(it.index() + 1) == t@.take(it.index() as int).push(c));
        }
        push_char(s, c);
    }
    proof {
        assert(t@.take(t@.len() as int) == t@);
    }
}

/// The characters of `s`, in order.
pub fn chars_of(s: &str) -> (v: Vec<char>)
    ensures
        v@ == s@,
{
    let mut v: Vec<char> = Vec::new();
    for c in it: s.chars()
        invariant
            it.seq() == s@,
            v@ == s@.take(it.index() as int),
    {
        proof {
            assert(s@.take(it.index() + 1) == s@.take(it.index() as int).push(c));
        }
        v.push(c);
    }
    proof {
        assert(s@.take(s@.len() as int) == s@);
    }
    v
}

/// Appends `v[lo..hi]` to `s`.
pub fn push_range(s: &mut String, v: &Vec<char>, lo: usize, hi: usize)
    requires
        lo <= hi <= v@.len(),
    ensures
        final(s)@ == old(s)@ + v@.subrange(lo as int, hi as int),
{
    let ghost start = s@;
    let mut i = lo;
    while i < hi
        invariant
            lo <= i <= hi <= v@.len(),
            s@ == start + v@.subrange(lo as int, i as int),
        decreases hi - i,
    {
        proof {
            assert(v@.subrange(lo as int, i + 1) == v@.subrange(lo as int, i as int).push(v@[i as int]));
        }
        push_char(s, v[i]);
        i = i + 1;
    }
}

/// A new string holding `v[lo..hi]`.
pub fn string_of_range(v: &Vec<char>, lo: usize, hi: usize) -> (s: String)
    requires
        lo <= hi <= v@.len(),
    ensures
        s@ == v@.subrange(lo as int, hi as int),
{
    let mut s = String::new();
    push_range(&mut s, v, lo, hi);
    s
}

/// `s` with leading and trailing white space removed (`str::trim`).
pub fn trim(s: &str) -> (r: String)
    ensures
        r@ == trim_spec(s@),
{
    let v = chars_of(s);
    let mut lo: usize = 0;
    assert(v@.subrange(0, v@.len() as int) == v@);
    while lo < v.len() && is_white_space_char(v[lo])
        invariant
            lo <= v@.len(),
            trim_start_spec(v@) == trim_start_spec(v@.subrange(lo as int, v@.len() as int)),
        decreases v@.len() - lo,
    {
        proof {
            let rest = v@.subrange(lo as int, v@.len() as int);
            assert(rest.drop_first() == v@.subrange(lo + 1, v@.len() as int));
        }
        lo = lo + 1;
    }
    let ghost front = v@.subrange(lo as int, v@.len() as int);
    assert(trim_start_spec(front) == front);
    let mut hi: usize = v.len();
    while hi > lo && is_white_space_char(v[hi - 1])
        invariant
            lo <= hi <= v@.len(),
            front == v@.subrange(lo as int, v@.len() as int),
            trim_end_spec(front) == trim_end_spec(v@.subrange(lo as int, hi as int)),
        decreases hi,
    {
        proof {
            let part = v@.subrange(lo as int, hi as int);
            assert(part.drop_last() == v@.subrange(lo as int, hi - 1));
        }
        hi = hi - 1;
    }
    string_of_range(&v, lo, hi)
}

/// The decimal digit character for `d < 10`.
pub open spec fn digit_char(d: nat) -> char {
    if d == 0 {
        '0'
    } else if d == 1 {
        '1'
    } else if d == 2 {
        '2'
    } else if d == 3 {
        '3'
    } else if d == 4 {
        '4'
    } else if d == 5 {
        '5'
    } else if d == 6 {
        '6'
    } else if d == 7 {
        '7'
    } else if d == 8 {
        '8'
    } else {
        '9'
    }
}

/// The decimal rendering of `n`, without leading zeros (what `{n}` prints).
pub open spec fn decimal(n: nat) -> Seq<char>
    decreases n,
{
    if n < 10 {
        seq![digit_char(n)]
    } else {
        decimal(n / 10).push(digit_char(n % 10))
    }
}

fn digit_of(d: u64) -> (c: char)
    requires
        d < 10,
    ensures
        c == digit_char(d as nat),
{
    if d == 0 {
        '0'
    } else if d == 1 {
        '1'
    } else if d == 2 {
        '2'
    } else if d == 3 {
        '3'
    } else if d == 4 {
        '4'
    } else if d == 5 {
        '5'
    } else if d == 6 {
        '6'
    } else if d == 7 {
        '7'
    } else if d == 8 {
        '8'
    } else {
        '9'
    }
}

/// Appends the decimal rendering of `n` to `s`.
pub fn push_decimal(s: &mut String, n: u64)
    ensures
        final(s)@ == old(s)@ + decimal(n as nat),
    decreases n,
{
    if n < 10 {
        push_char(s, digit_of(n));
        assert(decimal(n as nat) == seq![digit_char(n as nat)]);
    } else {
        push_decimal(s, n / 10);
        push_char(s, digit_of(n % 10));
        assert(decimal(n as nat) == decimal((n / 10) as nat).push(digit_char((n % 10) as nat)));
    }
}

/// Removes one trailing carriage return, if there is one.
pub open spec fn strip_cr(s: Seq<char>) -> Seq<char> {
    if s.len() > 0 && s.last() == '\r' {
        s.drop_last()
    } else {
        s
    }
}

/// The state of splitting a text into lines after reading a prefix of it:
/// the lines completed by a line feed, and the unfinished current line.
pub open spec fn split_lines_state(s: Seq<char>) -> (Seq<Seq<char>>, Seq<char>)
    decreases s.len(),
{
    if s.len() == 0 {
        (seq![], seq![])
    } else {
        let (done, cur) = split_lines_state(s.drop_last());
        if s.last() == '\n' {
            (done.push(strip_cr(cur)), seq![])
        } else {
            (done, cur.push(s.last()))
        }
    }
}

/// The lines of `s` as `str::lines` yields them: split at each line feed,
/// with a carriage return directly before a line feed removed, and no empty
/// final line after a trailing line feed.
pub open spec fn split_lines(s: Seq<char>) -> Seq<Seq<char>> {
    let (done, cur) = split_lines_state(s);
    if cur.len() > 0 {
        done.push(cur)
    } else {
        done
    }
}

/// The lines of `s` (`str::lines`), each as a vector of characters.
pub fn lines_of(s: &str) -> (r: Vec<Vec<char>>)
    ensures
        r@.len() == split_lines(s@).len(),
        forall|i: int| 0 <= i < r@.len() ==> #[trigger] r@[i]@ == split_lines(s@)[i],
{
    let mut done: Vec<Vec<char>> = Vec::new();
    let mut cur: Vec<char> = Vec::new();
    for c in it: s.chars()
        invariant
            it.seq() == s@,
            done@.len() == split_lines_state(s@.take(it.index() as int)).0.len(),
            forall|i: int|
                0 <= i < done@.len() ==> #[trigger] done@[i]@ == split_lines_state(
                    s@.take(it.index() as int),
                ).0[i],
            cur@ == split_lines_state(s@.take(it.index() as int)).1,
    {
        let ghost pre = s@.take(it.index() as int);
        proof {
            let next = s@.take(it.index() + 1);
            assert(next.drop_last() == pre);
            assert(next.last() == c);
        }
        if c == '\n' {
            if cur.len() > 0 && cur[cur.len() - 1] == '\r' {
                cur.pop();
            }
            done.push(cur);
            cur = Vec::new();
        } else {
            cur.push(c);
        }
    }
    proof {
        assert(s@.take(s@.len() as int) == s@);
    }
    if cur.len() > 0 {
        done.push(cur);
    }
    done
}

/// The characters of `parts` joined with `sep` between neighbours.
pub open spec fn join(parts: Seq<Seq<char>>, sep: Seq<char>) -> Seq<char>
    decreases parts.len(),
{
    if parts.len() == 0 {
        seq![]
    } else if parts.len() == 1 {
        parts[0]
    } else {
        join(parts.drop_last(), sep) + sep + parts.last()
    }
}

/// Joining one more part appends a separator and the part.
pub proof fn lemma_join_push(parts: Seq<Seq<char>>, sep: Seq<char>, p: Seq<char>)
    ensures
        join(parts.push(p), sep) == if parts.len() == 0 {
            p
        } else {
            join(parts, sep) + sep + p
        },
{
    assert(parts.push(p).drop_last() == parts);
}

/// The vector's elements joined with line feeds.
pub fn join_lines(parts: &Vec<String>) -> (r: String)
    ensures
        r@ == join(parts@.map_values(|p: String| p@), seq!['\n']),
{
    let ghost views = parts@.map_values(|p: String| p@);
    let mut out = String::new();
    let mut i: usize = 0;
    while i < parts.len()
        invariant
            i <= parts@.len(),
            views == parts@.map_values(|p: String| p@),
            out@ == join(views.take(i as int), seq!['\n']),
        decreases parts@.len() - i,
    {
        proof {
            lemma_join_push(views.take(i as int), seq!['\n'], views[i as int]);
            assert(views.take(i + 1) == views.take(i as int).push(views[i as int]));
        }
        if i > 0 {
            push_char(&mut out, '\n');
        }
        push_str(&mut out, parts[i].as_str());
        i = i + 1;
    }
    proof {
        assert(views.take(parts@.len() as int) == views);
    }
    out
}

/// The number of line feeds in `s`.
pub open spec fn count_lf(s: Seq<char>) -> nat
    decreases s.len(),
{
    if s.len() == 0 {
        0
    } else {
        count_lf(s.drop_last()) + if s.last() == '\n' { 1nat } else { 0nat }
    }
}

/// `s` with every carriage return that stands directly before a line feed
/// removed.
pub open spec fn drop_cr_before_lf(s: Seq<char>) -> Seq<char>
    decreases s.len(),
{
    if s.len() == 0 {
        s
    } else if s.len() >= 2 && s.last() == '\n' && s[s.len() - 2] == '\r' {
        drop_cr_before_lf(s.drop_last().drop_last()).push('\n')
    } else {
        drop_cr_before_lf(s.drop_last()).push(s.last())
    }
}

/// `s` without one final line feed, if it ends in one.
pub open spec fn drop_final_lf(s: Seq<char>) -> Seq<char> {
    if s.len() > 0 && s.last() == '\n' {
        s.drop_last()
    } else {
        s
    }
}

/// Each line followed by a line feed.
pub open spec fn terminated(lines: Seq<Seq<char>>) -> Seq<char>
    decreases lines.len(),
{
    if lines.len() == 0 {
        seq![]
    } else {
        terminated(lines.drop_last()) + lines.last() + seq!['\n']
    }
}

proof fn lemma_join_terminated(lines: Seq<Seq<char>>)
    requires
        lines.len() > 0,
    ensures
        join(lines, seq!['\n']) + seq!['\n'] == terminated(lines),
    decreases lines.len(),
{
    if lines.len() == 1 {
        assert(lines.drop_last().len() == 0);
        assert(terminated(lines.drop_last()) == Seq::<char>::empty());
        assert(Seq::<char>::empty() + lines.last() == lines[0]);
    } else {
        lemma_join_terminated(lines.drop_last());
        assert(join(lines, seq!['\n']) == join(lines.drop_last(), seq!['\n']) + seq!['\n'] + lines.last());
    }
}

proof fn lemma_join_push_terminated(lines: Seq<Seq<char>>, l: Seq<char>)
    ensures
        join(lines.push(l), seq!['\n']) == terminated(lines) + l,
{
    lemma_join_push(lines, seq!['\n'], l);
    if lines.len() > 0 {
        lemma_join_terminated(lines);
    }
}

proof fn lemma_split_lines_state(s: Seq<char>)
    ensures
        split_lines_state(s).0.len() == count_lf(s),
        drop_cr_before_lf(s) == terminated(split_lines_state(s).0) + split_lines_state(s).1,
        split_lines_state(s).1.len() == 0 <==> (s.len() == 0 || s.last() == '\n'),
        split_lines_state(s).1.len() > 0 ==> split_lines_state(s).1.last() == s.last(),
    decreases s.len(),
{
    if s.len() > 0 {
        let p = s.drop_last();
        let c = s.last();
        lemma_split_lines_state(p);
        let (done, cur) = split_lines_state(p);
        if c == '\n' {
            let nd = done.push(strip_cr(cur));
            assert(nd.drop_last() == done);
            if s.len() >= 2 && s[s.len() - 2] == '\r' {
                assert(p.last() == '\r');
                assert(p.drop_last() == s.drop_last().drop_last());
                assert(drop_cr_before_lf(p) == drop_cr_before_lf(p.drop_last()).push('\r'));
                assert(cur.len() > 0 && cur.last() == '\r');
                assert(drop_cr_before_lf(p.drop_last()) == drop_cr_before_lf(p).drop_last());
                assert((terminated(done) + cur).drop_last() =~= terminated(done) + cur.drop_last());
                assert(strip_cr(cur) == cur.drop_last());
                assert(terminated(nd) == terminated(done) + cur.drop_last() + seq!['\n']);
            } else {
                if cur.len() > 0 {
                    assert(p.len() >= 1);
                    assert(s[s.len() - 2] == p.last());
                }
                assert(strip_cr(cur) == cur);
                assert(terminated(nd) == terminated(done) + cur + seq!['\n']);
            }
            assert(split_lines_state(s) == (nd, Seq::<char>::empty()));
        } else {
            assert(drop_cr_before_lf(s) == drop_cr_before_lf(p).push(c));
            assert(terminated(done) + cur.push(c) == (terminated(done) + cur).push(c));
        }
    }
}

/// `str::lines` keeps every line, blank ones included: there is one line per
/// line feed, and one more for text after the last line feed; and the lines,
/// joined with line feeds, give back the text with each carriage return
/// directly before a line feed removed and a single final line feed dropped.
pub proof fn lemma_split_lines_keeps_every_line(s: Seq<char>)
    ensures
        split_lines(s).len() == count_lf(s) + if s.len() > 0 && s.last() != '\n' { 1nat } else { 0nat },
        join(split_lines(s), seq!['\n']) == drop_final_lf(drop_cr_before_lf(s)),
{
    lemma_split_lines_state(s);
    let (done, cur) = split_lines_state(s);
    if cur.len() > 0 {
        lemma_join_push_terminated(done, cur);
        let d = drop_cr_before_lf(s);
        assert(d.last() == cur.last());
        assert(d.last() != '\n');
    } else if done.len() > 0 {
        lemma_join_terminated(done);
        let d = drop_cr_before_lf(s);
        assert(d == terminated(done) + cur);
        assert(d == join(done, seq!['\n']) + seq!['\n']);
        assert(d.drop_last() == join(done, seq!['\n']));
    } else {
        assert(drop_cr_before_lf(s) == Seq::<char>::empty());
    }
}

/// What `str::trim` returns is the text between the first and the last
/// character that is not white space: everything cut from either end is
/// white space, and a non-empty result neither starts nor ends with white
/// space.
pub proof fn lemma_trim_cuts_only_white_space(s: Seq<char>)
    ensures
        trim_spec(s).len() > 0 ==> !is_white_space(trim_spec(s)[0]) && !is_white_space(trim_spec(s).last()),
        exists|a: int|
            0 <= a && a + trim_spec(s).len() <= s.len() && #[trigger] s.subrange(a, a + trim_spec(s).len())
                == trim_spec(s) && (forall|i: int| 0 <= i < a ==> is_white_space(#[trigger] s[i])) && (forall|i: int|
                a + trim_spec(s).len() <= i < s.len() ==> is_white_space(#[trigger] s[i])),
{
    lemma_trim_start(s);
    let u = trim_start_spec(s);
    let a = s.len() - u.len();
    lemma_trim_end(u);
    let t = trim_end_spec(u);
    assert(s.subrange(a, a + t.len()) =~= t) by {
        assert forall|i: int| 0 <= i < t.len() implies s.subrange(a, a + t.len())[i] == t[i] by {
            assert(u.take(t.len() as int)[i] == u[i]);
            assert(u[i] == s[a + i]);
        }
    }
    assert forall|i: int| a + t.len() <= i < s.len() implies is_white_space(#[trigger] s[i]) by {
        assert(u[i - a] == s[i]);
    }
    if t.len() > 0 {
        assert(t[0] == u[0]);
    }
    assert(0 <= a && a + t.len() <= s.len() && s.subrange(a, a + t.len()) == t && (forall|i: int|
        0 <= i < a ==> is_white_space(#[trigger] s[i])) && (forall|i: int|
        a + t.len() <= i < s.len() ==> is_white_space(#[trigger] s[i])));
    assert(t == trim_spec(s));
    assert(s.subrange(a, a + trim_spec(s).len()) == trim_spec(s));
    if t.len() > 0 {
        assert(u.len() > 0);
        assert(!is_white_space(t[0]));
        assert(!is_white_space(t.last()));
    }
}

proof fn lemma_trim_start(s: Seq<char>)
    ensures
        trim_start_spec(s).len() <= s.len(),
        trim_start_spec(s) == s.subrange(s.len() - trim_start_spec(s).len(), s.len() as int),
        forall|i: int| 0 <= i < s.len() - trim_start_spec(s).len() ==> is_white_space(#[trigger] s[i]),
        trim_start_spec(s).len() > 0 ==> !is_white_space(trim_start_spec(s)[0]),
    decreases s.len(),
{
    if s.len() > 0 && is_white_space(s[0]) {
        let r = s.drop_first();
        lemma_trim_start(r);
        assert forall|i: int| 0 <= i < s.len() - trim_start_spec(s).len() implies is_white_space(#[trigger] s[i]) by {
            if i > 0 {
                assert(s[i] == r[i - 1]);
            }
        }
        assert(r.subrange(r.len() - trim_start_spec(r).len(), r.len() as int) =~= s.subrange(
            s.len() - trim_start_spec(s).len(),
            s.len() as int,
        ));
    } else {
        assert(s.subrange(0, s.len() as int) == s);
    }
}

proof fn lemma_trim_end(s: Seq<char>)
    ensures
        trim_end_spec(s).len() <= s.len(),
        trim_end_spec(s) == s.take(trim_end_spec(s).len() as int),
        forall|i: int| trim_end_spec(s).len() <= i < s.len() ==> is_white_space(#[trigger] s[i]),
        trim_end_spec(s).len() > 0 ==> !is_white_space(trim_end_spec(s).last()),
    decreases s.len(),
{
    if s.len() > 0 && is_white_space(s.last()) {
        let r = s.drop_last();
        lemma_trim_end(r);
        assert forall|i: int| trim_end_spec(s).len() <= i < s.len() implies is_white_space(#[trigger] s[i]) by {
            if i < s.len() - 1 {
                assert(s[i] == r[i]);
            }
        }
        assert(r.take(trim_end_spec(r).len() as int) =~= s.take(trim_end_spec(s).len() as int));
    } else {
        assert(s.take(s.len() as int) == s);
    }
}

/// The number a string of decimal digits stands for.
pub open spec fn digits_value(s: Seq<char>) -> int
    decreases s.len(),
{
    if s.len() == 0 {
        0
    } else {
        digits_value(s.drop_last()) * 10 + (s.last() as u32 - '0' as u32)
    }
}

/// Whether every character of `s` is one of `0` to `9`.
pub open spec fn all_digits(s: Seq<char>) -> bool {
    forall|i: int| 0 <= i < s.len() ==> '0' <= #[trigger] s[i] && s[i] <= '9'
}

/// The digit character of `d` is the `d`-th after `0`.
pub proof fn lemma_digit_char(d: nat)
    requires
        d < 10,
    ensures
        digit_char(d) as u32 == '0' as u32 + d,
{
}

/// `decimal(n)` is the base-ten numeral of `n`: it is made of digits, reads
/// back as `n`, and has no leading zero (zero itself is `0`).
pub proof fn lemma_decimal_reads_back(n: nat)
    ensures
        decimal(n).len() > 0,
        all_digits(decimal(n)),
        digits_value(decimal(n)) == n,
        decimal(n)[0] == '0' ==> n == 0 && decimal(n).len() == 1,
    decreases n,
{
    if n < 10 {
        lemma_digit_char(n);
        let d = decimal(n);
        assert(d == seq![digit_char(n)]);
        assert(d.drop_last() == Seq::<char>::empty());
        assert(digits_value(d.drop_last()) == 0);
        assert(d.last() as u32 - '0' as u32 == n);
        assert(digits_value(d) == digits_value(d.drop_last()) * 10 + (d.last() as u32 - '0' as u32));
    } else {
        lemma_decimal_reads_back(n / 10);
        lemma_digit_char(n % 10);
        let p = decimal(n / 10);
        let d = decimal(n);
        assert(d == p.push(digit_char(n % 10)));
        assert(d.drop_last() == p);
        assert(d[0] == p[0]);
        assert(n == (n / 10) * 10 + n % 10);
        assert(d.last() as u32 - '0' as u32 == n % 10);
        assert(digits_value(d) == digits_value(p) * 10 + (d.last() as u32 - '0' as u32));
        assert(forall|i: int| 0 <= i < d.len() - 1 ==> d[i] == p[i]);
    }
}

} // verus!
