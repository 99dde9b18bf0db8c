//! Character-level text operations used by the post parser, each stated
//! over the character sequence of the text.

use vstd::prelude::*;

verus! {

/// Whether `c` has the Unicode `White_Space` property (what
/// `char::is_whitespace` tests).
pub open spec fn is_ws(c: char) -> bool {
    let n = c as u32;
    n == 0x20 || (0x09 <= n && n <= 0x0D) || n == 0x85 || n == 0xA0 || n == 0x1680
        || (0x2000 <= n && n <= 0x200A) || n == 0x2028 || n == 0x2029 || n == 0x202F
        || n == 0x205F || n == 0x3000
}

/// `s` without its leading whitespace.
pub open spec fn trim_start(s: Seq<char>) -> Seq<char>
    decreases s.len(),
{
    if s.len() > 0 && is_ws(s[0]) {
        trim_start(s.drop_first())
    } else {
        s
    }
}

/// `s` without its trailing whitespace.
pub open spec fn trim_end(s: Seq<char>) -> Seq<char>
    decreases s.len(),
{
    if s.len() > 0 && is_ws(s.last()) {
        trim_end(s.drop_last())
    } else {
        s
    }
}

/// `s` without leading and trailing whitespace.
pub open spec fn trim(s: Seq<char>) -> Seq<char> {
    trim_end(trim_start(s))
}

/// Whether `p` occurs in `s` at position `i`.
pub open spec fn occurs_at(s: Seq<char>, p: Seq<char>, i: int) -> bool {
    0 <= i && i + p.len() <= s.len() && s.subrange(i, i + p.len()) == p
}

/// The first position at or after `i` where `p` occurs in `s`.
pub open spec fn find_from(s: Seq<char>, p: Seq<char>, i: int) -> Option<int>
    decreases s.len() + 1 - i,
{
    if i < 0 || i + p.len() > s.len() {
        None
    } else if occurs_at(s, p, i) {
        Some(i)
    } else {
        find_from(s, p, i + 1)
    }
}

/// The first position where `p` occurs in `s`.
pub open spec fn find(s: Seq<char>, p: Seq<char>) -> Option<int> {
    find_from(s, p, 0)
}

/// Whether `p` occurs anywhere in `s`.
pub open spec fn contains(s: Seq<char>, p: Seq<char>) -> bool {
    find(s, p) is Some
}

/// `s` with every `from` replaced by `to`.
pub open spec fn replace_char(s: Seq<char>, from: char, to: char) -> Seq<char> {
    s.map_values(|c: char| if c == from { to } else { c })
}

/// The number of characters at the start of `s` before the first whitespace.
pub open spec fn word_len(s: Seq<char>) -> nat
    decreases s.len(),
{
    if s.len() == 0 || is_ws(s[0]) {
        0
    } else {
        1 + word_len(s.drop_first())
    }
}

proof fn lemma_word_len_bound(s: Seq<char>)
    ensures
        word_len(s) <= s.len(),
        s.len() > 0 && !is_ws(s[0]) ==> word_len(s) > 0,
    decreases s.len(),
{
    if s.len() > 0 && !is_ws(s[0]) {
        lemma_word_len_bound(s.drop_first());
    }
}

#[via_fn]
proof fn words_decreases(s: Seq<char>) {
    lemma_word_len_bound(s);
}

/// The maximal runs of non-whitespace characters of `s`, in order.
pub open spec fn words(s: Seq<char>) -> Seq<Seq<char>>
    decreases s.len()
    via words_decreases

{
    if s.len() == 0 {
        seq![]
    } else if is_ws(s[0]) {
        words(s.drop_first())
    } else {
        let n = word_len(s);
        seq![s.subrange(0, n as int)] + words(s.subrange(n as int, s.len() as int))
    }
}

/// Whether `w` is a word: not empty, and without whitespace.
pub open spec fn is_word(w: Seq<char>) -> bool {
    w.len() > 0 && forall|k: int| 0 <= k < w.len() ==> !is_ws(#[trigger] w[k])
}

proof fn lemma_word_len_prefix(s: Seq<char>)
    ensures
        forall|k: int| 0 <= k < word_len(s) ==> !is_ws(#[trigger] s[k]),
        word_len(s) < s.len() ==> is_ws(s[word_len(s) as int]),
    decreases s.len(),
{
    lemma_word_len_bound(s);
    if s.len() > 0 && !is_ws(s[0]) {
        lemma_word_len_prefix(s.drop_first());
        assert forall|k: int| 0 <= k < word_len(s) implies !is_ws(#[trigger] s[k]) by {
            if k > 0 {
                assert(s[k] == s.drop_first()[k - 1]);
            }
        }
    }
}

/// Every item of `words(s)` is a word.
pub proof fn lemma_words_are_words(s: Seq<char>)
    ensures
        forall|i: int| 0 <= i < words(s).len() ==> is_word(#[trigger] words(s)[i]),
    decreases s.len(),
{
    if s.len() > 0 {
        if is_ws(s[0]) {
            lemma_words_are_words(s.drop_first());
            assert(words(s) == words(s.drop_first()));
        } else {
            let n = word_len(s);
            lemma_word_len_bound(s);
            assert(words(s) == seq![s.subrange(0, n as int)] + words(
                s.subrange(n as int, s.len() as int),
            ));
            lemma_word_len_prefix(s);
            lemma_words_are_words(s.subrange(n as int, s.len() as int));
            let rest = words(s.subrange(n as int, s.len() as int));
            assert forall|i: int| 0 <= i < words(s).len() implies is_word(#[trigger] words(s)[i]) by {
                if i > 0 {
                    assert(words(s)[i] == rest[i - 1]);
                } else {
                    let w = s.subrange(0, n as int);
                    assert(words(s)[0] == w);
                    assert forall|k: int| 0 <= k < w.len() implies !is_ws(#[trigger] w[k]) by {
                        assert(w[k] == s[k]);
                    }
                }
            }
        }
    }
}

proof fn lemma_word_len_of_word_then_space(x: Seq<char>, z: Seq<char>)
    requires
        z.len() > 0 && is_ws(z[0]),
    ensures
        word_len(x + z) == word_len(x),
    decreases x.len(),
{
    if x.len() == 0 {
        assert(x + z =~= z);
    } else if !is_ws(x[0]) {
        assert((x + z).drop_first() =~= x.drop_first() + z);
        lemma_word_len_of_word_then_space(x.drop_first(), z);
    }
}

/// A space between two texts splits their words apart.
proof fn lemma_words_space(x: Seq<char>, y: Seq<char>)
    ensures
        words(x + seq![' '] + y) == words(x) + words(y),
    decreases x.len(),
{
    let t = x + seq![' '] + y;
    if x.len() == 0 {
        assert(t.drop_first() =~= y);
        assert(words(x) =~= Seq::<Seq<char>>::empty());
        assert(words(y) =~= words(x) + words(y));
    } else if is_ws(x[0]) {
        assert(t.drop_first() =~= x.drop_first() + seq![' '] + y);
        lemma_words_space(x.drop_first(), y);
    } else {
        let n = word_len(x);
        lemma_word_len_bound(x);
        assert(t =~= x + (seq![' '] + y));
        lemma_word_len_of_word_then_space(x, seq![' '] + y);
        let xr = x.subrange(n as int, x.len() as int);
        assert(t.subrange(0, n as int) =~= x.subrange(0, n as int));
        assert(t.subrange(n as int, t.len() as int) =~= xr + seq![' '] + y);
        lemma_words_space(xr, y);
        assert(words(t) =~= words(x) + words(y));
    }
}

proof fn lemma_words_of_word(w: Seq<char>)
    requires
        is_word(w),
    ensures
        words(w) == seq![w],
    decreases w.len(),
{
    lemma_word_len_full(w);
    assert(w.subrange(0, w.len() as int) =~= w);
    assert(w.subrange(w.len() as int, w.len() as int) =~= Seq::<char>::empty());
    assert(words(Seq::<char>::empty()) =~= Seq::<Seq<char>>::empty());
    assert(words(w) =~= seq![w]);
}

proof fn lemma_word_len_full(w: Seq<char>)
    requires
        forall|k: int| 0 <= k < w.len() ==> !is_ws(#[trigger] w[k]),
    ensures
        word_len(w) == w.len(),
    decreases w.len(),
{
    if w.len() > 0 {
        assert forall|k: int| 0 <= k < w.drop_first().len() implies !is_ws(#[trigger] w.drop_first()[k]) by {
            assert(w.drop_first()[k] == w[k + 1]);
        }
        lemma_word_len_full(w.drop_first());
    }
}

/// Joining words with single spaces and appending `tail` (itself without
/// whitespace) to the last gives a text with as many words.
pub proof fn lemma_words_of_joined(ws: Seq<Seq<char>>, tail: Seq<char>)
    requires
        forall|i: int| 0 <= i < ws.len() ==> is_word(#[trigger] ws[i]),
        forall|k: int| 0 <= k < tail.len() ==> !is_ws(#[trigger] tail[k]),
    ensures
        ws.len() > 0 ==> words(join(ws, seq![' ']) + tail).len() == ws.len(),
    decreases ws.len(),
{
    if ws.len() == 1 {
        let w = ws[0] + tail;
        assert forall|k: int| 0 <= k < w.len() implies !is_ws(#[trigger] w[k]) by {
            if k >= ws[0].len() {
                assert(w[k] == tail[k - ws[0].len()]);
            }
        }
        lemma_words_of_word(w);
    } else if ws.len() > 1 {
        let init = ws.drop_last();
        let w = ws.last() + tail;
        assert(is_word(ws[ws.len() - 1]));
        assert forall|k: int| 0 <= k < w.len() implies !is_ws(#[trigger] w[k]) by {
            if k >= ws.last().len() {
                assert(w[k] == tail[k - ws.last().len()]);
            }
        }
        assert(join(ws, seq![' ']) + tail =~= join(init, seq![' ']) + seq![' '] + w);
        lemma_words_space(join(init, seq![' ']), w);
        lemma_words_of_word(w);
        assert forall|i: int| 0 <= i < init.len() implies is_word(#[trigger] init[i]) by {
            assert(init[i] == ws[i]);
        }
        lemma_words_of_joined(init, seq![]);
        assert(join(init, seq![' ']) + seq![] =~= join(init, seq![' ']));
    }
}

/// The items of `ws`, with `sep` between each two neighbours.
pub open spec fn join(ws: Seq<Seq<char>>, sep: Seq<char>) -> Seq<char>
    decreases ws.len(),
{
    if ws.len() == 0 {
        seq![]
    } else if ws.len() == 1 {
        ws[0]
    } else {
        join(ws.drop_last(), sep) + sep + ws.last()
    }
}

/// Whether `c` is whitespace.
pub fn is_whitespace(c: char) -> (r: bool)
    ensures
        r == is_ws(c),
{
    let n = c as u32;
    n == 0x20 || (0x09 <= n && n <= 0x0D) || n == 0x85 || n == 0xA0 || n == 0x1680
        || (0x2000 <= n && n <= 0x200A) || n == 0x2028 || n == 0x2029 || n == 0x202F
        || n == 0x205F || n == 0x3000
}

/// Relies on `String::push`: appends one character.
#[verifier::external_body]
pub(crate) fn push_char(s: &mut String, c: char)
    ensures
        final(s)@ == old(s)@.push(c),
{
    s.push(c)
}

/// The characters of `s`, in order.
pub fn chars_of(s: &str) -> (r: Vec<char>)
    ensures
        r@ == s@,
{
    let n = s.unicode_len();
    let mut v: Vec<char> = Vec::new();
    let mut i: usize = 0;
    while i < n
        invariant
            n == s@.len(),
            i <= n,
            v@ == s@.subrange(0, i as int),
        decreases n - i,
    {
        v.push(s.get_char(i));
        i = i + 1;
    }
    assert(v@ =~= s@);
    v
}

/// The characters `v[lo..hi]` as a string.
pub fn string_of(v: &Vec<char>, lo: usize, hi: usize) -> (r: String)
    requires
        lo <= hi <= v.len(),
    ensures
        r@ == v@.subrange(lo as int, hi as int),
{
    let mut r = String::new();
    let mut i: usize = lo;
    while i < hi
        invariant
            lo <= i <= hi <= v.len(),
            r@ =~= v@.subrange(lo as int, i as int),
        decreases hi - i,
    {
        push_char(&mut r, v[i]);
        i = i + 1;
        assert(r@ =~= v@.subrange(lo as int, i as int));
    }
    r
}

/// Whether `p` occurs in `v` at position `i`.
pub fn matches_at(v: &Vec<char>, p: &Vec<char>, i: usize) -> (r: bool)
    ensures
        r == occurs_at(v@, p@, i as int),
{
    if i > v.len() || p.len() > v.len() - i {
        return false;
    }
    let mut k: usize = 0;
    while k < p.len()
        invariant
            i + p.len() <= v.len(),
            k <= p.len(),
            forall|j: int| 0 <= j < k ==> v@[i + j] == p@[j],
        decreases p.len() - k,
    {
        if v[i + k] != p[k] {
            assert(v@.subrange(i as int, i + p.len())[k as int] != p@[k as int]);
            return false;
        }
        k = k + 1;
    }
    assert(v@.subrange(i as int, i + p.len()) =~= p@);
    true
}

/// The first position where `p` occurs in `v`.
pub fn find_in(v: &Vec<char>, p: &Vec<char>) -> (r: Option<usize>)
    ensures
        r matches Some(i) ==> find(v@, p@) == Some(i as int) && occurs_at(v@, p@, i as int),
        r is None ==> find(v@, p@) is None,
{
    let mut i: usize = 0;
    while p.len() <= v.len() - i
        invariant
            i <= v.len(),
            find(v@, p@) == find_from(v@, p@, i as int),
        decreases v.len() - i,
    {
        proof {
            if p.len() == 0 {
                assert(v@.subrange(i as int, i as int) =~= p@);
            }
        }
        if matches_at(v, p, i) {
            return Some(i);
        }
        i = i + 1;
    }
    None
}

/// The bounds of `v[lo..hi]` with leading and trailing whitespace left out.
pub fn trim_range(v: &Vec<char>, lo: usize, hi: usize) -> (r: (usize, usize))
    requires
        lo <= hi <= v.len(),
    ensures
        lo <= r.0 <= r.1 <= hi,
        v@.subrange(r.0 as int, r.1 as int) == trim(v@.subrange(lo as int, hi as int)),
{
    let mut a: usize = lo;
    while a < hi && is_whitespace(v[a])
        invariant
            lo <= a <= hi <= v.len(),
            trim_start(v@.subrange(lo as int, hi as int)) == trim_start(
                v@.subrange(a as int, hi as int),
            ),
        decreases hi - a,
    {
        assert(v@.subrange(a as int, hi as int).drop_first() =~= v@.subrange(a + 1, hi as int));
        a = a + 1;
    }
    let mut b: usize = hi;
    while b > a && is_whitespace(v[b - 1])
        invariant
            lo <= a <= b <= hi <= v.len(),
            trim_end(v@.subrange(a as int, hi as int)) == trim_end(
                v@.subrange(a as int, b as int),
            ),
        decreases b - a,
    {
        assert(v@.subrange(a as int, b as int).drop_last() =~= v@.subrange(a as int, b - 1));
        b = b - 1;
    }
    (a, b)
}

/// Appends the characters `v[lo..hi]` to `r`.
pub fn push_range(r: &mut String, v: &Vec<char>, lo: usize, hi: usize)
    requires
        lo <= hi <= v.len(),
    ensures
        final(r)@ == old(r)@ + v@.subrange(lo as int, hi as int),
{
    let ghost start = r@;
    let mut i: usize = lo;
    while i < hi
        invariant
            lo <= i <= hi <= v.len(),
            r@ =~= start + v@.subrange(lo as int, i as int),
        decreases hi - i,
    {
        push_char(r, v[i]);
        i = i + 1;
        assert(r@ =~= start + v@.subrange(lo as int, i as int));
    }
}

/// The end of the run of non-whitespace characters that starts at `i`.
fn word_end(v: &Vec<char>, i: usize, hi: usize) -> (j: usize)
    requires
        i <= hi <= v.len(),
    ensures
        i <= j <= hi,
        word_len(v@.subrange(i as int, hi as int)) == j - i,
{
    let mut j: usize = i;
    while j < hi && !is_whitespace(v[j])
        invariant
            i <= j <= hi <= v.len(),
            word_len(v@.subrange(i as int, hi as int)) == (j - i) + word_len(
                v@.subrange(j as int, hi as int),
            ),
        decreases hi - j,
    {
        assert(v@.subrange(j as int, hi as int).drop_first() =~= v@.subrange(j + 1, hi as int));
        j = j + 1;
    }
    j
}

/// The first `limit` words of `v[lo..hi]` (all of them, if there are fewer),
/// joined by single spaces.
pub fn leading_words(v: &Vec<char>, lo: usize, hi: usize, limit: usize) -> (r: String)
    requires
        lo <= hi <= v.len(),
    ensures
        r@ == join(words(v@.subrange(lo as int, hi as int)).take(
            if words(v@.subrange(lo as int, hi as int)).len() < limit {
                words(v@.subrange(lo as int, hi as int)).len() as int
            } else {
                limit as int
            },
        ), seq![' ']),
{
    let ghost all = words(v@.subrange(lo as int, hi as int));
    let ghost mut done: Seq<Seq<char>> = seq![];
    let mut r = String::new();
    let mut count: usize = 0;
    let mut i: usize = lo;
    while i < hi && count < limit
        invariant
            lo <= i <= hi <= v.len(),
            count <= limit,
            count == done.len(),
            all == done + words(v@.subrange(i as int, hi as int)),
            r@ == join(done, seq![' ']),
        decreases hi - i,
    {
        let ghost rest = v@.subrange(i as int, hi as int);
        if is_whitespace(v[i]) {
            assert(rest.drop_first() =~= v@.subrange(i + 1, hi as int));
            i = i + 1;
        } else {
            let j = word_end(v, i, hi);
            let ghost w = v@.subrange(i as int, j as int);
            proof {
                assert(rest.subrange(0, (j - i) as int) =~= w);
                assert(rest.subrange((j - i) as int, rest.len() as int) =~= v@.subrange(
                    j as int,
                    hi as int,
                ));
                assert(done.push(w).drop_last() =~= done);
                assert(done + words(rest) =~= done.push(w) + words(v@.subrange(j as int, hi as int)));
            }
            if count > 0 {
                push_char(&mut r, ' ');
            }
            push_range(&mut r, v, i, j);
            proof {
                done = done.push(w);
            }
            count = count + 1;
            i = j;
        }
    }
    proof {
        if count < limit {
            assert(v@.subrange(i as int, hi as int).len() == 0);
            assert(all =~= done);
        }
        assert(all.take(count as int) =~= done);
    }
    r
}

/// `v` as a string, with every `from` replaced by `to`.
pub fn replace_all(v: &Vec<char>, from: char, to: char) -> (r: String)
    ensures
        r@ == replace_char(v@, from, to),
{
    let mut r = String::new();
    let mut i: usize = 0;
    while i < v.len()
        invariant
            i <= v.len(),
            r@ =~= replace_char(v@.subrange(0, i as int), from, to),
        decreases v.len() - i,
    {
        if v[i] == from {
            push_char(&mut r, to);
        } else {
            push_char(&mut r, v[i]);
        }
        i = i + 1;
        assert(r@ =~= replace_char(v@.subrange(0, i as int), from, to));
    }
    assert(v@.subrange(0, v.len() as int) =~= v@);
    r
}

/// Whether `a` and `b` hold the same characters.
pub fn same_text(a: &str, b: &str) -> (r: bool)
    ensures
        r == (a@ == b@),
{
    let x = chars_of(a);
    let y = chars_of(b);
    if x.len() != y.len() {
        return false;
    }
    let mut i: usize = 0;
    while i < x.len()
        invariant
            x@ == a@,
            y@ == b@,
            x.len() == y.len(),
            i <= x.len(),
            forall|j: int| 0 <= j < i ==> x@[j] == y@[j],
        decreases x.len() - i,
    {
        if x[i] != y[i] {
            assert(x@[i as int] != y@[i as int]);
            return false;
        }
        i = i + 1;
    }
    assert(x@ =~= y@);
    true
}

} // verus!
