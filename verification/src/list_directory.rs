//! The `list_directory` tool: the sorted, suffixed, bounded listing of a
//! directory's immediate children.

use vstd::prelude::*;
use crate::text::{chars_of, join, join_lines, push_char, push_range};
use crate::workspace::{WorkspaceError, view_result};

verus! {

/// At most this many entries are listed.
pub const MAX_ENTRIES: usize = 200;

/// What a directory entry is, as its own file type says (links not followed).
#[derive(Clone, Copy, PartialEq, Eq, Debug)]
pub enum EntryKind {
    Directory,
    Symlink,
    Other,
}

/// One child of a directory.
#[derive(Debug)]
pub struct DirEntry {
    pub name: String,
    pub kind: EntryKind,
}

impl View for DirEntry {
    type V = (Seq<char>, EntryKind);

    open spec fn view(&self) -> (Seq<char>, EntryKind) {
        (self.name@, self.kind)
    }
}

/// `a` comes no later than `b` in lexicographic order of code points, which
/// is the order of their UTF-8 bytes (the order of `String`).
pub open spec fn name_le(a: Seq<char>, b: Seq<char>) -> bool
    decreases a.len(),
{
    if a.len() == 0 {
        true
    } else if b.len() == 0 {
        false
    } else if a[0] != b[0] {
        (a[0] as u32) < (b[0] as u32)
    } else {
        name_le(a.drop_first(), b.drop_first())
    }
}

/// `x` inserted into `t` after every trailing entry whose name is greater,
/// as a stable insertion sort places it.
pub open spec fn insert_entry(t: Seq<(Seq<char>, EntryKind)>, x: (Seq<char>, EntryKind)) -> Seq<(Seq<char>, EntryKind)>
    decreases t.len(),
{
    if t.len() == 0 {
        seq![x]
    } else if name_le(t.last().0, x.0) {
        t.push(x)
    } else {
        insert_entry(t.drop_last(), x).push(t.last())
    }
}

/// The entries stably sorted by name (what `sort_by` on the names gives).
pub open spec fn sort_entries(s: Seq<(Seq<char>, EntryKind)>) -> Seq<(Seq<char>, EntryKind)>
    decreases s.len(),
{
    if s.len() == 0 {
        seq![]
    } else {
        insert_entry(sort_entries(s.drop_last()), s.last())
    }
}

/// An entry as listed: directories end in `/`, symbolic links in `@`.
pub open spec fn decorate(e: (Seq<char>, EntryKind)) -> Seq<char> {
    match e.1 {
        EntryKind::Directory => e.0.push('/'),
        EntryKind::Symlink => e.0.push('@'),
        EntryKind::Other => e.0,
    }
}

/// The line that ends a listing cut at `MAX_ENTRIES`.
pub open spec fn omitted_notice() -> Seq<char> {
    "... additional entries omitted"@
}

/// The lines of a non-empty listing.
pub open spec fn listing_lines(entries: Seq<(Seq<char>, EntryKind)>) -> Seq<Seq<char>> {
    let sorted = sort_entries(entries);
    let shown_count = if sorted.len() > MAX_ENTRIES { MAX_ENTRIES as int } else { sorted.len() as int };
    let shown = sorted.take(shown_count).map_values(|e: (Seq<char>, EntryKind)| decorate(e));
    if sorted.len() > MAX_ENTRIES {
        shown.push(omitted_notice())
    } else {
        shown
    }
}

/// The listing of a directory with these entries.
pub open spec fn listing_spec(entries: Seq<(Seq<char>, EntryKind)>) -> Seq<char> {
    if entries.len() == 0 {
        "(empty directory)"@
    } else {
        join(listing_lines(entries), seq!['\n'])
    }
}

proof fn lemma_insert_entry_len(t: Seq<(Seq<char>, EntryKind)>, x: (Seq<char>, EntryKind))
    ensures
        insert_entry(t, x).len() == t.len() + 1,
    decreases t.len(),
{
    if t.len() > 0 && !name_le(t.last().0, x.0) {
        lemma_insert_entry_len(t.drop_last(), x);
    }
}

/// Sorting keeps the number of entries.
pub proof fn lemma_sort_entries_len(s: Seq<(Seq<char>, EntryKind)>)
    ensures
        sort_entries(s).len() == s.len(),
    decreases s.len(),
{
    if s.len() > 0 {
        lemma_sort_entries_len(s.drop_last());
        lemma_insert_entry_len(sort_entries(s.drop_last()), s.last());
    }
}

/// Inserting at the place found by scanning back from the end.
proof fn lemma_insert_entry_at(t: Seq<(Seq<char>, EntryKind)>, x: (Seq<char>, EntryKind), p: int)
    requires
        0 <= p <= t.len(),
        p == 0 || name_le(t[p - 1].0, x.0),
        forall|q: int| p <= q < t.len() ==> !name_le(#[trigger] t[q].0, x.0),
    ensures
        insert_entry(t, x) == t.take(p).push(x) + t.skip(p),
    decreases t.len(),
{
    if t.len() == 0 {
        assert(t.take(p).push(x) + t.skip(p) =~= seq![x]);
    } else if p == t.len() {
        assert(t.take(p).push(x) + t.skip(p) =~= t.push(x));
    } else {
        let l = t.len() - 1;
        assert(!name_le(t[l].0, x.0));
        let d = t.drop_last();
        assert forall|q: int| p <= q < d.len() implies !name_le(#[trigger] d[q].0, x.0) by {
            assert(d[q] == t[q]);
        }
        if p > 0 {
            assert(d[p - 1] == t[p - 1]);
        }
        lemma_insert_entry_at(d, x, p);
        assert(t.take(p).push(x) + t.skip(p) =~= (d.take(p).push(x) + d.skip(p)).push(t.last()));
    }
}

/// Whether `a` comes no later than `b` in code point order.
fn name_le_exec(a: &Vec<char>, b: &Vec<char>) -> (r: bool)
    ensures
        r == name_le(a@, b@),
{
    let mut i: usize = 0;
    assert(a@.skip(0) == a@ && b@.skip(0) == b@);
    while i < a.len() && i < b.len() && a[i] == b[i]
        invariant
            i <= a@.len(),
            i <= b@.len(),
            name_le(a@, b@) == name_le(a@.skip(i as int), b@.skip(i as int)),
        decreases a@.len() - i,
    {
        proof {
            assert(a@.skip(i as int).drop_first() == a@.skip(i + 1));
            assert(b@.skip(i as int).drop_first() == b@.skip(i + 1));
        }
        i = i + 1;
    }
    if i == a.len() {
        true
    } else if i == b.len() {
        false
    } else {
        (a[i] as u32) < (b[i] as u32)
    }
}

/// The entries stably sorted by name.
fn sort_by_name(entries: Vec<DirEntry>) -> (r: Vec<(Vec<char>, EntryKind)>)
    ensures
        r@.map_values(|e: (Vec<char>, EntryKind)| (e.0@, e.1)) == sort_entries(
            entries@.map_values(|e: DirEntry| e@),
        ),
{
    let ghost input = entries@.map_values(|e: DirEntry| e@);
    let mut sorted: Vec<(Vec<char>, EntryKind)> = Vec::new();
    let mut i: usize = 0;
    while i < entries.len()
        invariant
            i <= entries@.len(),
            input == entries@.map_values(|e: DirEntry| e@),
            sorted@.map_values(|e: (Vec<char>, EntryKind)| (e.0@, e.1)) == sort_entries(
                input.take(i as int),
            ),
        decreases entries@.len() - i,
    {
        let name = chars_of(entries[i].name.as_str());
        let kind = entries[i].kind;
        let ghost x = (name@, kind);
        let ghost t = sorted@.map_values(|e: (Vec<char>, EntryKind)| (e.0@, e.1));
        proof {
            assert(input.take(i + 1).drop_last() == input.take(i as int));
            assert(input.take(i + 1).last() == x);
        }
        let mut p = sorted.len();
        while p > 0 && !name_le_exec(&sorted[p - 1].0, &name)
            invariant
                p <= sorted@.len(),
                t == sorted@.map_values(|e: (Vec<char>, EntryKind)| (e.0@, e.1)),
                x == (name@, kind),
                forall|q: int| p <= q < t.len() ==> !name_le(#[trigger] t[q].0, x.0),
            decreases p,
        {
            p = p - 1;
        }
        proof {
            lemma_insert_entry_at(t, x, p as int);
        }
        sorted.insert(p, (name, kind));
        proof {
            let nt = sorted@.map_values(|e: (Vec<char>, EntryKind)| (e.0@, e.1));
            assert(nt =~= t.take(p as int).push(x) + t.skip(p as int));
        }
        i = i + 1;
    }
    proof {
        assert(input.take(entries@.len() as int) == input);
    }
    sorted
}

/// The listing of a directory with these entries: sorted by name, suffixed
/// by kind, at most `MAX_ENTRIES` of them, and a closing notice when more
/// were left out.
pub fn format_listing(entries: Vec<DirEntry>) -> (r: String)
    ensures
        r@ == listing_spec(entries@.map_values(|e: DirEntry| e@)),
{
    let ghost input = entries@.map_values(|e: DirEntry| e@);
    if entries.len() == 0 {
        return String::from_str("(empty directory)");
    }
    let sorted = sort_by_name(entries);
    let ghost sv = sorted@.map_values(|e: (Vec<char>, EntryKind)| (e.0@, e.1));
    proof {
        lemma_sort_entries_len(input);
    }
    let truncated = sorted.len() > MAX_ENTRIES;
    let shown = if truncated { MAX_ENTRIES } else { sorted.len() };
    let ghost shown_spec = sv.take(shown as int).map_values(|e: (Seq<char>, EntryKind)| decorate(e));
    let mut lines: Vec<String> = Vec::new();
    let mut i: usize = 0;
    while i < shown
        invariant
            shown <= sorted@.len(),
            i <= shown,
            sv == sorted@.map_values(|e: (Vec<char>, EntryKind)| (e.0@, e.1)),
            shown_spec == sv.take(shown as int).map_values(|e: (Seq<char>, EntryKind)| decorate(e)),
            lines@.len() == i,
            forall|j: int| 0 <= j < i ==> #[trigger] lines@[j]@ == shown_spec[j],
        decreases shown - i,
    {
        let (name, kind) = (&sorted[i].0, sorted[i].1);
        let mut line = String::new();
        push_range(&mut line, name, 0, name.len());
        match kind {
            EntryKind::Directory => push_char(&mut line, '/'),
            EntryKind::Symlink => push_char(&mut line, '@'),
            EntryKind::Other => {},
        }
        proof {
            assert(name@.subrange(0, name@.len() as int) == name@);
            assert(sv[i as int] == (name@, kind));
            assert(line@ =~= decorate(sv[i as int]));
        }
        lines.push(line);
        i = i + 1;
    }
    if truncated {
        lines.push(String::from_str("... additional entries omitted"));
    }
    proof {
        assert(lines@.map_values(|p: String| p@) =~= listing_lines(input));
    }
    join_lines(&lines)
}

/// Lists a directory for the model, given the outcome of reading its
/// entries (after the sandbox resolved it).
pub fn list_directory(listed: Result<Vec<DirEntry>, WorkspaceError>) -> (r: Result<String, WorkspaceError>)
    ensures
        view_result(r) == match listed {
            Err(e) => Err(e@),
            Ok(entries) => Ok(listing_spec(entries@.map_values(|e: DirEntry| e@))),
        },
{
    match listed {
        Err(e) => Err(e),
        Ok(entries) => Ok(format_listing(entries)),
    }
}

/// Any two names are ordered one way or the other.
pub proof fn lemma_name_le_total(a: Seq<char>, b: Seq<char>)
    ensures
        name_le(a, b) || name_le(b, a),
    decreases a.len(),
{
    if a.len() > 0 && b.len() > 0 {
        if a[0] == b[0] {
            lemma_name_le_total(a.drop_first(), b.drop_first());
        } else {
            vstd::utf8::char_u32_cast(a[0], a[0] as u32);
            vstd::utf8::char_u32_cast(b[0], b[0] as u32);
        }
    }
}

/// The order of names is transitive.
pub proof fn lemma_name_le_transitive(a: Seq<char>, b: Seq<char>, c: Seq<char>)
    requires
        name_le(a, b),
        name_le(b, c),
    ensures
        name_le(a, c),
    decreases a.len(),
{
    if a.len() > 0 && b.len() > 0 && c.len() > 0 && a[0] == b[0] && b[0] == c[0] {
        lemma_name_le_transitive(a.drop_first(), b.drop_first(), c.drop_first());
    }
}

/// Entries in order of their names.
pub open spec fn sorted_by_name(s: Seq<(Seq<char>, EntryKind)>) -> bool {
    forall|i: int, j: int| 0 <= i < j < s.len() ==> name_le(#[trigger] s[i].0, #[trigger] s[j].0)
}

proof fn lemma_insert_entry_bound(t: Seq<(Seq<char>, EntryKind)>, x: (Seq<char>, EntryKind), u: Seq<char>)
    requires
        forall|i: int| 0 <= i < t.len() ==> name_le(#[trigger] t[i].0, u),
        name_le(x.0, u),
    ensures
        forall|i: int| 0 <= i < insert_entry(t, x).len() ==> name_le(#[trigger] insert_entry(t, x)[i].0, u),
    decreases t.len(),
{
    lemma_insert_entry_len(t, x);
    if t.len() > 0 && !name_le(t.last().0, x.0) {
        let d = t.drop_last();
        assert forall|i: int| 0 <= i < d.len() implies name_le(#[trigger] d[i].0, u) by {
            assert(d[i] == t[i]);
        }
        lemma_insert_entry_bound(d, x, u);
        assert(name_le(t[t.len() - 1].0, u));
        lemma_insert_entry_len(d, x);
    }
}

proof fn lemma_insert_entry_sorted(t: Seq<(Seq<char>, EntryKind)>, x: (Seq<char>, EntryKind))
    requires
        sorted_by_name(t),
    ensures
        sorted_by_name(insert_entry(t, x)),
        insert_entry(t, x).to_multiset() == t.to_multiset().insert(x),
    decreases t.len(),
{
    broadcast use vstd::seq_lib::group_to_multiset_ensures;

    if t.len() == 0 {
        assert(seq![x] == Seq::<(Seq<char>, EntryKind)>::empty().push(x));
    } else if name_le(t.last().0, x.0) {
        assert forall|i: int, j: int| 0 <= i < j < t.len() + 1 implies name_le(
            #[trigger] t.push(x)[i].0,
            #[trigger] t.push(x)[j].0,
        ) by {
            if j == t.len() {
                if i < t.len() - 1 {
                    lemma_name_le_transitive(t[i].0, t.last().0, x.0);
                }
            }
        }
    } else {
        let d = t.drop_last();
        let last = t.last();
        assert(sorted_by_name(d)) by {
            assert forall|i: int, j: int| 0 <= i < j < d.len() implies name_le(
                #[trigger] d[i].0,
                #[trigger] d[j].0,
            ) by {
                assert(d[i] == t[i] && d[j] == t[j]);
            }
        }
        lemma_insert_entry_sorted(d, x);
        lemma_name_le_total(last.0, x.0);
        assert forall|i: int| 0 <= i < d.len() implies name_le(#[trigger] d[i].0, last.0) by {
            assert(d[i] == t[i]);
            assert(t[t.len() - 1] == last);
        }
        lemma_insert_entry_bound(d, x, last.0);
        let r = insert_entry(d, x);
        lemma_insert_entry_len(d, x);
        assert forall|i: int, j: int| 0 <= i < j < r.len() + 1 implies name_le(
            #[trigger] r.push(last)[i].0,
            #[trigger] r.push(last)[j].0,
        ) by {
            if j == r.len() {
                assert(r.push(last)[i] == r[i]);
            } else {
                assert(r.push(last)[i] == r[i] && r.push(last)[j] == r[j]);
            }
        }
        assert(t == d.push(last));
    }
}

/// Sorting yields the same entries, in order of their names.
pub proof fn lemma_sort_entries_sorted(s: Seq<(Seq<char>, EntryKind)>)
    ensures
        sorted_by_name(sort_entries(s)),
        sort_entries(s).to_multiset() == s.to_multiset(),
    decreases s.len(),
{
    broadcast use vstd::seq_lib::group_to_multiset_ensures;

    if s.len() > 0 {
        lemma_sort_entries_sorted(s.drop_last());
        lemma_insert_entry_sorted(sort_entries(s.drop_last()), s.last());
        assert(s == s.drop_last().push(s.last()));
    }
}

/// The shape of a listing: the entries in order of their names, each on its
/// own line with its kind's suffix, at most `MAX_ENTRIES` of them; the
/// closing notice appears exactly when entries were left out.
pub proof fn lemma_listing_shape(entries: Seq<(Seq<char>, EntryKind)>)
    requires
        entries.len() > 0,
    ensures
        ({
            let sorted = sort_entries(entries);
            let lines = listing_lines(entries);
            let shown = if entries.len() > MAX_ENTRIES { MAX_ENTRIES as int } else { entries.len() as int };
            &&& sorted.to_multiset() == entries.to_multiset()
            &&& sorted_by_name(sorted)
            &&& lines.len() == shown + (if entries.len() > MAX_ENTRIES { 1int } else { 0int })
            &&& forall|i: int| 0 <= i < shown ==> #[trigger] lines[i] == decorate(sorted[i])
            &&& (entries.len() > MAX_ENTRIES ==> lines[shown] == omitted_notice())
            &&& listing_spec(entries) == join(lines, seq!['\n'])
        }),
{
    lemma_sort_entries_sorted(entries);
    lemma_sort_entries_len(entries);
}

} // verus!
