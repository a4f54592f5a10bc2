//! Unix path text: absolute paths, joining, and component-wise prefixes, as
//! `std::path::Path` understands them on Unix.

use vstd::prelude::*;
use crate::text::push_str;

verus! {

/// A path is absolute on Unix exactly when it starts at the root.
pub open spec fn is_absolute_spec(p: Seq<char>) -> bool {
    p.len() > 0 && p[0] == '/'
}

/// Whether `p` is an absolute path (`Path::is_absolute` on Unix).
pub fn is_absolute(p: &str) -> (r: bool)
    ensures
        r == is_absolute_spec(p@),
{
    let mut it = p.chars();
    match it.next() {
        Some(c) => c == '/',
        None => false,
    }
}

/// `base` with `rel` appended, inserting a separator unless `base` is empty
/// or already ends in one (`Path::join` with a relative path on Unix).
pub open spec fn join_spec(base: Seq<char>, rel: Seq<char>) -> Seq<char> {
    if base.len() > 0 && base.last() != '/' {
        base + seq!['/'] + rel
    } else {
        base + rel
    }
}

/// Joins a relative path onto `base`.
pub fn join_path(base: &str, rel: &str) -> (r: String)
    ensures
        r@ == join_spec(base@, rel@),
{
    let mut out = String::new();
    push_str(&mut out, base);
    let n = out.as_str().unicode_len();
    if n > 0 && out.as_str().get_char(n - 1) != '/' {
        crate::text::push_char(&mut out, '/');
    }
    push_str(&mut out, rel);
    out
}

/// Whether a segment between separators names a component (empty segments
/// and `.` are dropped, as `Path::components` does).
pub open spec fn kept_segment(seg: Seq<char>) -> bool {
    seg.len() > 0 && seg != seq!['.']
}

/// Named components of a prefix of a path, and the segment being read.
pub open spec fn segment_state(p: Seq<char>) -> (Seq<Seq<char>>, Seq<char>)
    decreases p.len(),
{
    if p.len() == 0 {
        (seq![], seq![])
    } else {
        let (done, cur) = segment_state(p.drop_last());
        if p.last() == '/' {
            (if kept_segment(cur) { done.push(cur) } else { done }, seq![])
        } else {
            (done, cur.push(p.last()))
        }
    }
}

/// The named components of `p`: its segments between separators, without
/// empty ones and without `.`.
pub open spec fn named_components(p: Seq<char>) -> Seq<Seq<char>> {
    let (done, cur) = segment_state(p);
    if kept_segment(cur) {
        done.push(cur)
    } else {
        done
    }
}

/// Whether a relative path begins with a current-directory component.
pub open spec fn leading_cur_dir(p: Seq<char>) -> bool {
    !is_absolute_spec(p) && p.len() > 0 && p[0] == '.' && (p.len() == 1 || p[1] == '/')
}

/// The components of `p` as `Path::components` yields them on Unix: the
/// root as `/`, a leading current directory as `.`, `..` as itself, and
/// each other name as its text.
pub open spec fn components(p: Seq<char>) -> Seq<Seq<char>> {
    let root: Seq<Seq<char>> = if is_absolute_spec(p) {
        seq![seq!['/']]
    } else if leading_cur_dir(p) {
        seq![seq!['.']]
    } else {
        seq![]
    };
    root + named_components(p)
}

/// `path` lies under `base`: the components of `base` begin the components
/// of `path` (`Path::starts_with`).
pub open spec fn path_starts_with(path: Seq<char>, base: Seq<char>) -> bool {
    components(base).len() <= components(path).len() && components(path).subrange(
        0,
        components(base).len() as int,
    ) == components(base)
}

fn chars_equal(a: &Vec<char>, b: &Vec<char>) -> (r: bool)
    ensures
        r == (a@ == b@),
{
    if a.len() != b.len() {
        return false;
    }
    let mut i: usize = 0;
    while i < a.len()
        invariant
            a@.len() == b@.len(),
            i <= a@.len(),
            forall|j: int| 0 <= j < i ==> a@[j] == b@[j],
        decreases a@.len() - i,
    {
        if a[i] != b[i] {
            return false;
        }
        i = i + 1;
    }
    assert(a@ == b@);
    true
}

/// The components of `p` (`Path::components` on Unix).
pub fn path_components(p: &str) -> (r: Vec<Vec<char>>)
    ensures
        r@.len() == components(p@).len(),
        forall|i: int| 0 <= i < r@.len() ==> #[trigger] r@[i]@ == components(p@)[i],
{
    let chars = crate::text::chars_of(p);
    let mut out: Vec<Vec<char>> = Vec::new();
    let absolute = chars.len() > 0 && chars[0] == '/';
    if absolute {
        out.push(vec!['/']);
    } else if chars.len() > 0 && chars[0] == '.' && (chars.len() == 1 || chars[1] == '/') {
        out.push(vec!['.']);
    }
    let ghost root: Seq<Seq<char>> = if is_absolute_spec(p@) {
        seq![seq!['/']]
    } else if leading_cur_dir(p@) {
        seq![seq!['.']]
    } else {
        seq![]
    };
    assert(components(p@) == root + named_components(p@));
    assert(root == components(p@).subrange(0, root.len() as int));
    assert(out@.len() == root.len());
    assert(forall|j: int| 0 <= j < root.len() ==> #[trigger] out@[j]@ == root[j]);
    let mut cur: Vec<char> = Vec::new();
    let mut i: usize = 0;
    while i < chars.len()
        invariant
            chars@ == p@,
            i <= chars@.len(),
            root.len() <= out@.len(),
            root == components(p@).subrange(0, root.len() as int),
            root.len() + named_components(p@).len() == components(p@).len(),
            forall|j: int| 0 <= j < root.len() ==> #[trigger] out@[j]@ == root[j],
            out@.len() == root.len() + segment_state(p@.take(i as int)).0.len(),
            forall|j: int|
                root.len() <= j < out@.len() ==> #[trigger] out@[j]@ == segment_state(
                    p@.take(i as int),
                ).0[j - root.len()],
            cur@ == segment_state(p@.take(i as int)).1,
        decreases chars@.len() - i,
    {
        let c = chars[i];
        proof {
            let next = p@.take(i + 1);
            assert(next.drop_last() == p@.take(i as int));
            assert(next.last() == c);
        }
        if c == '/' {
            let keep = cur.len() > 0 && !(cur.len() == 1 && cur[0] == '.');
            proof {
                if cur@ == seq!['.'] {
                    assert(cur@.len() == 1 && cur@[0] == '.');
                }
                if cur@.len() == 1 && cur@[0] == '.' {
                    assert(cur@ == seq!['.']);
                }
            }
            if keep {
                out.push(cur);
            }
            cur = Vec::new();
        } else {
            cur.push(c);
        }
        i = i + 1;
    }
    proof {
        assert(p@.take(chars@.len() as int) == p@);
        if cur@ == seq!['.'] {
            assert(cur@.len() == 1 && cur@[0] == '.');
        }
        if cur@.len() == 1 && cur@[0] == '.' {
            assert(cur@ == seq!['.']);
        }
    }
    if cur.len() > 0 && !(cur.len() == 1 && cur[0] == '.') {
        out.push(cur);
    }
    out
}

/// Whether `path` lies under `base` component-wise (`Path::starts_with`).
pub fn starts_with_path(path: &str, base: &str) -> (r: bool)
    ensures
        r == path_starts_with(path@, base@),
{
    let pc = path_components(path);
    let bc = path_components(base);
    if bc.len() > pc.len() {
        return false;
    }
    let mut i: usize = 0;
    while i < bc.len()
        invariant
            bc@.len() <= pc@.len(),
            i <= bc@.len(),
            bc@.len() == components(base@).len(),
            pc@.len() == components(path@).len(),
            forall|j: int| 0 <= j < bc@.len() ==> #[trigger] bc@[j]@ == components(base@)[j],
            forall|j: int| 0 <= j < pc@.len() ==> #[trigger] pc@[j]@ == components(path@)[j],
            forall|j: int| 0 <= j < i ==> components(path@)[j] == components(base@)[j],
        decreases bc@.len() - i,
    {
        if !chars_equal(&pc[i], &bc[i]) {
            assert(components(path@).subrange(0, components(base@).len() as int)[i as int]
                != components(base@)[i as int]);
            return false;
        }
        i = i + 1;
    }
    assert(components(path@).subrange(0, components(base@).len() as int) == components(base@));
    true
}

} // verus!
