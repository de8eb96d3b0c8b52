//! Paths as text: joining, nesting, and the names that may become part of
//! a path.
//!
//! Paths are compared as the text they are written in; no component is
//! resolved against a file system.

use vstd::prelude::*;
use crate::text::{chars_of, string_of};

verus! {

/// `rel` placed under `base`: the two are separated by exactly one `/`,
/// whether or not `rel` brings its own.
pub open spec fn join(base: Seq<char>, rel: Seq<char>) -> Seq<char> {
    if rel.len() > 0 && rel[0] == '/' {
        base + rel
    } else {
        base.push('/') + rel
    }
}

/// Places `rel` under `base`.
pub fn join_path(base: &str, rel: &str) -> (r: String)
    ensures
        r@ == join(base@, rel@),
{
    let mut r = String::new();
    r.append(base);
    if rel.is_empty() || rel.get_char(0) != '/' {
        r.append("/");
        proof {
            reveal_strlit("/");
            assert("/"@ =~= seq!['/']);
            assert(base@ + seq!['/'] =~= base@.push('/'));
        }
    }
    r.append(rel);
    r
}

/// Whether `path` lies strictly below the directory `base`: it is written as
/// `base`, a `/`, and at least one more character.
pub open spec fn is_under(base: Seq<char>, path: Seq<char>) -> bool {
    base.push('/').is_prefix_of(path) && path.len() > base.len() + 1
}

/// What is left of `path` once `base` and the `/` behind it are taken off.
pub open spec fn relative(base: Seq<char>, path: Seq<char>) -> Seq<char> {
    path.skip(base.len() as int + 1)
}

/// A path below `base` is `base` joined with its relative part.
pub proof fn lemma_relative_join(base: Seq<char>, path: Seq<char>)
    requires
        is_under(base, path),
    ensures
        base.push('/') + relative(base, path) == path,
        relative(base, path).len() > 0,
{
    let head = base.push('/');
    assert(head =~= path.subrange(0, head.len() as int));
    assert(head + path.skip(head.len() as int) =~= path);
}

/// The part of `path` relative to `base`, when `path` lies below `base`.
pub fn relative_to(base: &Vec<char>, path: &Vec<char>) -> (r: Option<Vec<char>>)
    ensures
        r is Some <==> is_under(base@, path@),
        r matches Some(rel) ==> rel@ == relative(base@, path@),
{
    let n = base.len();
    if path.len() <= n || path.len() - n < 2 {
        assert(!is_under(base@, path@));
        return None;
    }
    let ghost head = base@.push('/');
    let mut i: usize = 0;
    while i < n
        invariant
            n == base.len(),
            n + 2 <= path.len(),
            i <= n,
            head == base@.push('/'),
            forall|k: int| 0 <= k < i ==> path@[k] == base@[k],
        decreases n - i,
    {
        if path[i] != base[i] {
            proof {
                let front = path@.subrange(0, head.len() as int);
                assert(front[i as int] != head[i as int]);
                assert(!(head =~= front));
            }
            return None;
        }
        i += 1;
    }
    if path[n] != '/' {
        proof {
            let front = path@.subrange(0, head.len() as int);
            assert(front[n as int] != head[n as int]);
            assert(!(head =~= front));
        }
        return None;
    }
    assert(head =~= path@.subrange(0, head.len() as int));
    let mut rel: Vec<char> = Vec::new();
    let mut j: usize = n + 1;
    while j < path.len()
        invariant
            n + 1 <= j <= path.len(),
            rel@ == path@.subrange(n + 1, j as int),
        decreases path.len() - j,
    {
        rel.push(path[j]);
        j += 1;
    }
    assert(rel@ =~= path@.skip(n + 1));
    Some(rel)
}

/// Where the last `/` of `p` stands, or -1 when `p` holds none.
pub open spec fn last_slash(p: Seq<char>) -> int
    decreases p.len(),
{
    if p.len() == 0 {
        -1
    } else if p.last() == '/' {
        p.len() - 1
    } else {
        last_slash(p.drop_last())
    }
}

/// The directory part of `p`: what stands before its last `/`, and nothing
/// when `p` holds no `/`.
pub open spec fn dir_of(p: Seq<char>) -> Seq<char> {
    let k = last_slash(p);
    if k < 0 {
        Seq::empty()
    } else {
        p.take(k)
    }
}

/// A position that holds a `/` with none behind it is the last slash.
pub proof fn lemma_last_slash_at(p: Seq<char>, at: int)
    requires
        -1 <= at < p.len(),
        at >= 0 ==> p[at] == '/',
        forall|k: int| at < k < p.len() ==> p[k] != '/',
    ensures
        last_slash(p) == at,
    decreases p.len(),
{
    if p.len() > 0 && p.last() != '/' {
        let q = p.drop_last();
        assert(at < q.len());
        if at >= 0 {
            assert(q[at] == p[at]);
        }
        assert forall|k: int| at < k < q.len() implies q[k] != '/' by {
            assert(q[k] == p[k]);
        }
        lemma_last_slash_at(q, at);
    } else if p.len() > 0 {
        if at < p.len() - 1 {
            assert(p[p.len() - 1] != '/');
        }
    }
}

/// The directory part of `p`.
pub fn directory_of(p: &Vec<char>) -> (d: String)
    ensures
        d@ == dir_of(p@),
{
    let mut i: usize = p.len();
    while i > 0 && p[i - 1] != '/'
        invariant
            i <= p.len(),
            forall|k: int| i <= k < p.len() ==> p@[k] != '/',
        decreases i,
    {
        i -= 1;
    }
    proof {
        lemma_last_slash_at(p@, i as int - 1);
    }
    if i == 0 {
        String::new()
    } else {
        string_of(p, 0, i - 1)
    }
}

/// Whether `p` is the directory `dir` itself or lies anywhere below it.
pub open spec fn within(dir: Seq<char>, p: Seq<char>) -> bool {
    dir == p || dir.push('/').is_prefix_of(p)
}

/// Nesting is transitive: what lies within `b`, itself within `a`, lies
/// within `a`.
pub proof fn lemma_within_transitive(a: Seq<char>, b: Seq<char>, c: Seq<char>)
    requires
        within(a, b),
        within(b, c),
    ensures
        within(a, c),
{
    if a != b && b != c {
        let ha = a.push('/');
        let hb = b.push('/');
        assert(ha =~= b.subrange(0, ha.len() as int));
        assert(hb =~= c.subrange(0, hb.len() as int));
        assert forall|k: int| 0 <= k < ha.len() implies ha[k] == c[k] by {
            assert(ha[k] == b.subrange(0, ha.len() as int)[k]);
            assert(b[k] == hb[k]);
            assert(hb[k] == c.subrange(0, hb.len() as int)[k]);
        }
        assert(ha =~= c.subrange(0, ha.len() as int));
    }
}

/// Whether `p` is `dir` or lies below it.
pub fn is_within(dir: &Vec<char>, p: &Vec<char>) -> (r: bool)
    ensures
        r == within(dir@, p@),
{
    let n = dir.len();
    if p.len() < n {
        assert(dir@ != p@);
        return false;
    }
    let ghost head = dir@.push('/');
    let mut i: usize = 0;
    while i < n
        invariant
            n == dir.len(),
            n <= p.len(),
            i <= n,
            head == dir@.push('/'),
            forall|k: int| 0 <= k < i ==> p@[k] == dir@[k],
        decreases n - i,
    {
        if p[i] != dir[i] {
            proof {
                if head.len() <= p.len() {
                    let front = p@.subrange(0, head.len() as int);
                    assert(front[i as int] != head[i as int]);
                    assert(!(head =~= front));
                }
            }
            return false;
        }
        i += 1;
    }
    if p.len() == n {
        assert(dir@ =~= p@);
        return true;
    }
    if p[n] == '/' {
        assert(head =~= p@.subrange(0, head.len() as int));
        true
    } else {
        proof {
            let front = p@.subrange(0, head.len() as int);
            assert(front[n as int] != head[n as int]);
            assert(!(head =~= front));
        }
        false
    }
}

/// The characters a package name or version may hold: ASCII letters and
/// digits, and `.`, `_`, `-`, `+`.
pub open spec fn is_plain(c: char) -> bool {
    ||| 'a' <= c <= 'z'
    ||| 'A' <= c <= 'Z'
    ||| '0' <= c <= '9'
    ||| c == '.'
    ||| c == '_'
    ||| c == '-'
    ||| c == '+'
}

/// A name that may become one component of a path and be handed to a shell
/// without changing meaning: not empty, made of plain characters, and
/// neither `.` nor `..`.
pub open spec fn is_safe_name(s: Seq<char>) -> bool {
    &&& s.len() > 0
    &&& forall|k: int| 0 <= k < s.len() ==> is_plain(#[trigger] s[k])
    &&& s != seq!['.']
    &&& s != seq!['.', '.']
}

fn plain(c: char) -> (r: bool)
    ensures
        r == is_plain(c),
{
    ('a' <= c && c <= 'z') || ('A' <= c && c <= 'Z') || ('0' <= c && c <= '9') || c == '.' || c
        == '_' || c == '-' || c == '+'
}

/// Whether `s` is a safe name.
pub fn safe_name(s: &str) -> (r: bool)
    ensures
        r == is_safe_name(s@),
{
    let cs = chars_of(s);
    let n = cs.len();
    if n == 0 {
        return false;
    }
    let mut i: usize = 0;
    while i < n
        invariant
            n == cs.len(),
            cs@ == s@,
            i <= n,
            forall|k: int| 0 <= k < i ==> is_plain(#[trigger] cs@[k]),
        decreases n - i,
    {
        if !plain(cs[i]) {
            return false;
        }
        i += 1;
    }
    if n == 1 && cs[0] == '.' {
        assert(cs@ =~= seq!['.']);
        return false;
    }
    if n == 2 && cs[0] == '.' && cs[1] == '.' {
        assert(cs@ =~= seq!['.', '.']);
        return false;
    }
    proof {
        if cs@ == seq!['.'] {
            assert(cs@[0] == '.');
        }
        if cs@ == seq!['.', '.'] {
            assert(cs@[0] == '.' && cs@[1] == '.');
        }
    }
    true
}

} // verus!
