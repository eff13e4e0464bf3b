//! Unix paths as text: joining, and taking apart at the last component.
use vstd::prelude::*;

use crate::text;
use crate::text::{chars, rindex_of, same, skip, take};

verus! {

/// Whether a path starts at the root.
pub open spec fn is_absolute(p: Seq<char>) -> bool {
    p.len() > 0 && p[0] == '/'
}

/// `rel` as seen from `base`: an absolute path replaces the base.
pub open spec fn join_spec(base: Seq<char>, rel: Seq<char>) -> Seq<char> {
    if is_absolute(rel) || base.len() == 0 {
        rel
    } else if base.last() == '/' {
        base + rel
    } else {
        base.push('/') + rel
    }
}

/// A path without what follows its last component: separators and `.` entries.
pub open spec fn strip_tail_spec(p: Seq<char>) -> Seq<char>
    decreases p.len(),
{
    if p.len() > 1 && (p.last() == '/' || (p.last() == '.' && p[p.len() - 2] == '/')) {
        strip_tail_spec(p.drop_last())
    } else {
        p
    }
}

/// What follows the last separator.
pub open spec fn last_segment(p: Seq<char>) -> Seq<char> {
    match text::rindex_spec(p, '/') {
        Some(i) => p.skip(i + 1),
        None => p,
    }
}

/// The name that a path ends in; the root, the empty path, and paths that end
/// in `.` or `..` have none.
pub open spec fn file_name_spec(p: Seq<char>) -> Option<Seq<char>> {
    let name = last_segment(strip_tail_spec(p));
    if name.len() == 0 || name == "."@ || name == ".."@ {
        None
    } else {
        Some(name)
    }
}

/// The path without its last component; the root and the empty path have no
/// parent.
pub open spec fn parent_spec(p: Seq<char>) -> Option<Seq<char>> {
    let t = strip_tail_spec(p);
    if t.len() == 0 || t == seq!['/'] {
        None
    } else {
        match text::rindex_spec(t, '/') {
            Some(i) => Some(strip_tail_spec(t.take(i + 1))),
            None => Some(seq![]),
        }
    }
}

/// `rel` as seen from `base`: an absolute path replaces the base.
pub fn join(base: &str, rel: &str) -> (r: String)
    ensures
        r@ == join_spec(base@, rel@),
{
    let b = chars(base);
    let c = chars(rel);
    let mut out = String::new();
    if b.len() == 0 || (c.len() > 0 && c[0] == '/') {
        out.append(rel);
        assert(out@ =~= rel@);
        return out;
    }
    out.append(base);
    assert(out@ =~= base@);
    if b[b.len() - 1] != '/' {
        out.push('/');
    }
    out.append(rel);
    out
}

fn strip_tail<'a>(p: &'a str) -> (r: &'a str)
    ensures
        r@ == strip_tail_spec(p@),
{
    let v = chars(p);
    let mut n: usize = v.len();
    assert(p@.take(n as int) =~= p@);
    while n > 1 && (v[n - 1] == '/' || (v[n - 1] == '.' && v[n - 2] == '/'))
        invariant
            v@ == p@,
            n <= v@.len(),
            strip_tail_spec(p@) == strip_tail_spec(p@.take(n as int)),
        decreases n,
    {
        assert(p@.take(n as int).drop_last() =~= p@.take(n - 1));
        n -= 1;
    }
    take(p, n)
}

/// The name that a path ends in.
pub fn file_name<'a>(p: &'a str) -> (r: Option<&'a str>)
    ensures
        match r {
            Some(n) => file_name_spec(p@) == Some(n@),
            None => file_name_spec(p@) is None,
        },
{
    let t = strip_tail(p);
    let name = match rindex_of(t, '/') {
        Some(i) => skip(t, i + 1),
        None => t,
    };
    if name.is_empty() || same(name, ".") || same(name, "..") {
        None
    } else {
        Some(name)
    }
}

/// The path without its last component.
pub fn parent<'a>(p: &'a str) -> (r: Option<&'a str>)
    ensures
        match r {
            Some(q) => parent_spec(p@) == Some(q@),
            None => parent_spec(p@) is None,
        },
{
    let t = strip_tail(p);
    proof {
        reveal_strlit("/");
        reveal_strlit("");
        assert("/"@ =~= seq!['/']);
        assert(""@ =~= seq![]);
    }
    if t.is_empty() || same(t, "/") {
        return None;
    }
    match rindex_of(t, '/') {
        Some(i) => Some(strip_tail(take(t, i + 1))),
        None => Some(""),
    }
}

// ── laws ──────────────────────────────────────────────────────────────────────

/// A name in a directory is taken apart again into the two.
pub proof fn joined_path_is_taken_apart(dir: Seq<char>, name: Seq<char>)
    requires
        dir.len() > 0,
        dir.last() != '/',
        dir.last() != '.',
        name.len() > 0,
        name.last() != '.',
        forall|i: int| 0 <= i < name.len() ==> name[i] != '/',
    ensures
        join_spec(dir, name) == dir + "/"@ + name,
        file_name_spec(join_spec(dir, name)) == Some(name),
        parent_spec(join_spec(dir, name)) == Some(dir),
{
    reveal_strlit("/");
    reveal_strlit(".");
    reveal_strlit("..");
    let p = join_spec(dir, name);
    let n = dir.len() as int;
    assert(p =~= dir + "/"@ + name);
    assert(p.last() == name.last());
    assert(strip_tail_spec(p) == p);
    assert forall|j: int| n < j < p.len() implies p[j] != '/' by {
        assert(p[j] == name[j - n - 1]);
    }
    assert(p[n] == '/');
    text::lemma_rindex(p, '/');
    assert(text::rindex_spec(p, '/') == Some(n));
    assert(p.skip(n + 1) =~= name);
    let head = p.take(n + 1);
    assert(head =~= dir.push('/'));
    assert(head.drop_last() =~= dir);
    assert(strip_tail_spec(head) == strip_tail_spec(dir));
    assert(strip_tail_spec(dir) == dir);
    assert(p != seq!['/']) by {
        assert(p.len() > 1);
    }
}

} // verus!
