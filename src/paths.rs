//! Slash-separated paths, stated over their character sequences.

use vstd::prelude::*;
use crate::text::{chars_of, push_char, push_range};

verus! {

/// The position of the last `c` in `s`, or -1 when there is none.
pub open spec fn last_index_of(s: Seq<char>, c: char) -> int
    decreases s.len(),
{
    if s.len() == 0 {
        -1
    } else if s.last() == c {
        s.len() - 1
    } else {
        last_index_of(s.drop_last(), c)
    }
}

/// The last component of `p`: what follows its last `/`.
pub open spec fn file_name(p: Seq<char>) -> Seq<char> {
    p.subrange(last_index_of(p, '/') + 1, p.len() as int)
}

/// What precedes the last component of `p`, its last `/` included.
pub open spec fn parent_part(p: Seq<char>) -> Seq<char> {
    p.subrange(0, last_index_of(p, '/') + 1)
}

/// A file name without its extension: the part before the last `.`, unless
/// the name has no `.` or its only `.` starts it.
pub open spec fn stem(name: Seq<char>) -> Seq<char> {
    if last_index_of(name, '.') <= 0 {
        name
    } else {
        name.subrange(0, last_index_of(name, '.'))
    }
}

/// The stem of the last component of `p`.
pub open spec fn file_stem(p: Seq<char>) -> Seq<char> {
    stem(file_name(p))
}

/// The extension `html`.
pub open spec fn html_ext() -> Seq<char> {
    seq!['h', 't', 'm', 'l']
}

/// `p` with the extension of its last component replaced by (or, where it
/// has none, given) `html`; a path without a last component is unchanged.
pub open spec fn with_html_ext(p: Seq<char>) -> Seq<char> {
    if file_name(p).len() == 0 {
        p
    } else {
        parent_part(p) + file_stem(p) + seq!['.'] + html_ext()
    }
}

/// `b` taken relative to `a`: `b` itself when it is absolute, else `a` and
/// `b` with one `/` between them.
pub open spec fn join_path(a: Seq<char>, b: Seq<char>) -> Seq<char> {
    if b.len() > 0 && b[0] == '/' {
        b
    } else if a.len() == 0 || a.last() == '/' {
        a + b
    } else {
        a + seq!['/'] + b
    }
}

proof fn lemma_last_index_bound(s: Seq<char>, c: char)
    ensures
        -1 <= last_index_of(s, c) < s.len(),
        last_index_of(s, c) >= 0 ==> s[last_index_of(s, c)] == c,
    decreases s.len(),
{
    if s.len() > 0 && s.last() != c {
        lemma_last_index_bound(s.drop_last(), c);
    }
}

/// The position of the last `c` in `v[0..hi]`, if any.
pub fn rfind_char(v: &Vec<char>, hi: usize, c: char) -> (r: Option<usize>)
    requires
        hi <= v.len(),
    ensures
        r matches Some(k) ==> last_index_of(v@.subrange(0, hi as int), c) == k,
        r is None ==> last_index_of(v@.subrange(0, hi as int), c) == -1,
{
    let mut i: usize = hi;
    while i > 0 && v[i - 1] != c
        invariant
            i <= hi <= v.len(),
            last_index_of(v@.subrange(0, hi as int), c) == last_index_of(
                v@.subrange(0, i as int),
                c,
            ),
        decreases i,
    {
        assert(v@.subrange(0, i as int).drop_last() =~= v@.subrange(0, i - 1));
        i = i - 1;
    }
    if i == 0 {
        None
    } else {
        Some(i - 1)
    }
}

/// The bounds of the stem of the last component of `v`.
pub fn file_stem_range(v: &Vec<char>) -> (r: (usize, usize))
    ensures
        r.0 <= r.1 <= v.len(),
        v@.subrange(r.0 as int, r.1 as int) == file_stem(v@),
        v@.subrange(r.0 as int, v.len() as int) == file_name(v@),
        v@.subrange(0, r.0 as int) == parent_part(v@),
{
    assert(v@.subrange(0, v.len() as int) =~= v@);
    proof {
        lemma_last_index_bound(v@, '/');
    }
    let start: usize = match rfind_char(v, v.len(), '/') {
        Some(k) => k + 1,
        None => 0,
    };
    let ghost name = v@.subrange(start as int, v.len() as int);
    let ghost dot = last_index_of(name, '.');
    let mut i: usize = v.len();
    while i > start && v[i - 1] != '.'
        invariant
            start <= i <= v.len(),
            name == v@.subrange(start as int, v.len() as int),
            dot == last_index_of(v@.subrange(start as int, i as int), '.'),
        decreases i,
    {
        assert(v@.subrange(start as int, i as int).drop_last() =~= v@.subrange(
            start as int,
            i - 1,
        ));
        i = i - 1;
    }
    if i - start <= 1 {
        (start, v.len())
    } else {
        assert(name.subrange(0, dot) =~= v@.subrange(start as int, i - 1));
        (start, i - 1)
    }
}

/// Whether the last component of `path` has a non-empty stem.
pub fn has_file_stem(path: &str) -> (r: bool)
    ensures
        r == (file_stem(path@).len() > 0),
{
    let v = chars_of(path);
    let (a, b) = file_stem_range(&v);
    a < b
}

/// `v` with the extension of its last component rewritten to `html`.
pub fn html_path(v: &Vec<char>) -> (r: String)
    ensures
        r@ == with_html_ext(v@),
{
    let (a, b) = file_stem_range(v);
    let mut r = String::new();
    if a == v.len() {
        assert(v@.subrange(0, v.len() as int) =~= v@);
        push_range(&mut r, v, 0, v.len());
        return r;
    }
    push_range(&mut r, v, 0, b);
    push_char(&mut r, '.');
    push_char(&mut r, 'h');
    push_char(&mut r, 't');
    push_char(&mut r, 'm');
    push_char(&mut r, 'l');
    assert(v@.subrange(0, b as int) =~= parent_part(v@) + file_stem(v@));
    assert(r@ =~= with_html_ext(v@));
    r
}

/// `b` taken relative to `a`.
pub fn join(a: &Vec<char>, b: &Vec<char>) -> (r: String)
    ensures
        r@ == join_path(a@, b@),
{
    let mut r = String::new();
    if b.len() > 0 && b[0] == '/' {
        push_range(&mut r, b, 0, b.len());
    } else {
        push_range(&mut r, a, 0, a.len());
        if !(a.len() == 0 || a[a.len() - 1] == '/') {
            push_char(&mut r, '/');
        }
        push_range(&mut r, b, 0, b.len());
    }
    assert(a@.subrange(0, a.len() as int) =~= a@);
    assert(b@.subrange(0, b.len() as int) =~= b@);
    assert(r@ =~= join_path(a@, b@));
    r
}

} // verus!
