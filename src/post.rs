//! Blog posts: a metadata head and a Markdown body separated by the first
//! blank line.

use vstd::prelude::*;
use crate::paths::{file_stem, file_stem_range, html_path, join, join_path, with_html_ext};
use crate::text::{
    chars_of, contains, find, find_from, find_in, is_ws, trim_end, trim_start, join as join_words, leading_words, push_char,
    is_word, lemma_words_are_words, lemma_words_of_joined, replace_all, replace_char, string_of, trim, trim_range, words,
};

verus! {

/// The HTML that the Markdown text `s` renders to.
pub uninterp spec fn markdown_html(s: Seq<char>) -> Seq<char>;

/// Relies on pulldown_cmark's `Parser::new_ext` and `html::push_html`, with
/// tables and footnotes on: the HTML depends on the text alone.
#[verifier::external_body]
fn markdown_to_html(s: &str) -> (r: String)
    ensures
        r@ == markdown_html(s@),
{
    let mut opts = pulldown_cmark::Options::empty();
    opts.insert(pulldown_cmark::Options::ENABLE_TABLES);
    opts.insert(pulldown_cmark::Options::ENABLE_FOOTNOTES);
    let mut out = String::new();
    pulldown_cmark::html::push_html(&mut out, pulldown_cmark::Parser::new_ext(s, opts));
    out
}

/// A moment with a fixed UTC offset, as written in RFC 3339.
#[derive(Debug, Clone, Copy, PartialEq, Eq)]
pub struct Timestamp {
    /// whole seconds since 1970-01-01T00:00:00Z
    pub unix_seconds: i64,
    /// nanoseconds within the second
    pub nanosecond: u32,
    /// offset from UTC, in seconds
    pub offset_seconds: i32,
}

/// The longest offset from UTC that RFC 3339 can write, in seconds
/// (23:59).
pub const MAX_OFFSET_SECONDS: i32 = 86340;

impl Timestamp {
    /// Whether the fields make a moment: the nanoseconds stay within one
    /// second, and the offset is one that RFC 3339 can write (under a day).
    pub open spec fn wf(&self) -> bool {
        &&& self.nanosecond < 1_000_000_000
        &&& -MAX_OFFSET_SECONDS <= self.offset_seconds <= MAX_OFFSET_SECONDS
    }

    /// The moment `unix_seconds` (plus `nanosecond`) at offset
    /// `offset_seconds`, where those make one.
    pub fn new(unix_seconds: i64, nanosecond: u32, offset_seconds: i32) -> (r: Option<Timestamp>)
        ensures
            r is Some <==> (Timestamp { unix_seconds, nanosecond, offset_seconds }).wf(),
            r matches Some(t) ==> t.unix_seconds == unix_seconds && t.nanosecond == nanosecond
                && t.offset_seconds == offset_seconds,
    {
        if nanosecond < 1_000_000_000 && -MAX_OFFSET_SECONDS <= offset_seconds
            && offset_seconds <= MAX_OFFSET_SECONDS {
            Some(Timestamp { unix_seconds, nanosecond, offset_seconds })
        } else {
            None
        }
    }
}

/// The metadata of a post, read from its head.
#[derive(Debug, Clone)]
pub struct PostHeaders {
    /// when the post was written, `created: 1970-01-01T00:00:00+08:00`
    pub created: Timestamp,
    /// whether the post is left out of listings, `hidden: true`
    pub hidden: bool,
    /// the post's tags, `tags: [hello, world]`
    pub tags: Vec<String>,
    /// a short summary; derived from the body where left empty
    pub description: String,
    /// the title; derived from the file name where left empty
    pub title: String,
}

/// What is wrong with the layout of a post file.
#[derive(Debug, Clone, Copy, PartialEq, Eq, Structural)]
pub enum PostErrorKind {
    /// the file holds no blank line between head and body
    MissingHeadBody,
    /// the head is blank
    EmptyHead,
    /// the body is blank
    EmptyBody,
}

/// A post file that breaks the head / blank line / body layout.
#[derive(Debug, Clone, PartialEq, Eq)]
pub struct PostError {
    pub kind: PostErrorKind,
    /// the post's path, relative to the blog root
    pub path: String,
}

/// The blank line that ends the head: two CRLF where the file holds a CRLF
/// anywhere, else two LF.
pub open spec fn separator(content: Seq<char>) -> Seq<char> {
    if contains(content, seq!['\r', '\n']) {
        seq!['\r', '\n', '\r', '\n']
    } else {
        seq!['\n', '\n']
    }
}

/// The trimmed head and body of a post file, split at the first separator,
/// or what is wrong with the file.
pub open spec fn split_outcome(content: Seq<char>) -> Result<(Seq<char>, Seq<char>), PostErrorKind> {
    let sep = separator(content);
    match find(content, sep) {
        None => Err(PostErrorKind::MissingHeadBody),
        Some(i) => {
            let head = trim(content.subrange(0, i));
            let body = trim(content.subrange(i + sep.len(), content.len() as int));
            if head.len() == 0 {
                Err(PostErrorKind::EmptyHead)
            } else if body.len() == 0 {
                Err(PostErrorKind::EmptyBody)
            } else {
                Ok((head, body))
            }
        },
    }
}

/// The longest summary, in words, derived from a body.
pub open spec fn summary_words() -> nat {
    100
}

/// The first paragraph of `body`: what precedes its first blank line.
pub open spec fn first_paragraph(body: Seq<char>) -> Seq<char> {
    body.subrange(0, paragraph_end(body))
}

/// Where the first blank line of `body` starts, in either line-ending
/// style (two LF, or two CRLF); the end of `body` where it has none.
pub open spec fn paragraph_end(body: Seq<char>) -> int {
    match (find(body, seq!['\n', '\n']), find(body, seq!['\r', '\n', '\r', '\n'])) {
        (Some(i), Some(j)) => if i <= j {
            i
        } else {
            j
        },
        (Some(i), None) => i,
        (None, Some(j)) => j,
        (None, None) => body.len() as int,
    }
}

/// The first words of the first paragraph of `body`, joined by single
/// spaces and followed by `...`; empty where the paragraph has no words.
pub open spec fn summary(body: Seq<char>) -> Seq<char> {
    let ws = words(first_paragraph(body));
    let n = if ws.len() < summary_words() {
        ws.len()
    } else {
        summary_words()
    };
    let joined = join_words(ws.take(n as int), seq![' ']);
    if joined.len() == 0 {
        joined
    } else {
        joined + seq!['.', '.', '.']
    }
}

/// The description of a post: the one given, else the summary of its body.
pub open spec fn resolved_description(given: Seq<char>, body: Seq<char>) -> Seq<char> {
    if given.len() == 0 {
        summary(body)
    } else {
        given
    }
}

/// The title of a post: the one given, else the stem of its file name with
/// each `_` read as a space.
pub open spec fn resolved_title(given: Seq<char>, path: Seq<char>) -> Seq<char> {
    if given.len() == 0 {
        replace_char(file_stem(path), '_', ' ')
    } else {
        given
    }
}

/// The URL of the post at `path`: rooted at `/`, with extension `html`.
pub open spec fn post_url(path: Seq<char>) -> Seq<char> {
    with_html_ext(join_path(seq!['/'], path))
}

/// The URL of the post at `path` with each backslash turned into `/`.
pub open spec fn post_link(path: Seq<char>) -> Seq<char> {
    replace_char(post_url(path), '\\', '/')
}

/// A blog post, with its metadata and its body rendered to HTML.
pub struct Post {
    /// the blog's root directory
    pub root: String,
    /// the post's path, relative to the root
    pub path: String,
    /// the URL with forward slashes only, for links
    pub formatted_path: String,
    /// the post's title
    pub title: String,
    /// the post's URL
    pub url: String,
    /// the post's metadata
    pub headers: PostHeaders,
    /// the post's body as HTML
    pub content: String,
}

/// The description derived from `body`.
pub fn summarize(body: &str) -> (r: String)
    ensures
        r@ == summary(body@),
{
    let b = chars_of(body);
    let lf = vec!['\n', '\n'];
    let crlf = vec!['\r', '\n', '\r', '\n'];
    assert(lf@ =~= seq!['\n', '\n']);
    assert(crlf@ =~= seq!['\r', '\n', '\r', '\n']);
    let end = match (find_in(&b, &lf), find_in(&b, &crlf)) {
        (Some(i), Some(j)) => if i <= j {
            i
        } else {
            j
        },
        (Some(i), None) => i,
        (None, Some(j)) => j,
        (None, None) => b.len(),
    };
    assert(end as int == paragraph_end(body@));
    let mut d = leading_words(&b, 0, end, 100);
    if !d.as_str().is_empty() {
        push_char(&mut d, '.');
        push_char(&mut d, '.');
        push_char(&mut d, '.');
        assert(d@ =~= summary(body@));
    }
    d
}

impl Post {
    /// Splits the text of a post file into its trimmed head and body.
    pub fn split_file(path: &str, content: &str) -> (r: Result<(String, String), PostError>)
        ensures
            match split_outcome(content@) {
                Ok((h, b)) => r matches Ok((rh, rb)) && rh@ == h && rb@ == b,
                Err(k) => r matches Err(e) && e.kind == k && e.path@ == path@,
            },
    {
        let v = chars_of(content);
        let crlf = vec!['\r', '\n'];
        let sep = if find_in(&v, &crlf).is_some() {
            vec!['\r', '\n', '\r', '\n']
        } else {
            vec!['\n', '\n']
        };
        assert(crlf@ =~= seq!['\r', '\n']);
        assert(sep@ =~= separator(content@));
        let i = match find_in(&v, &sep) {
            Some(i) => i,
            None => {
                return Err(PostError { kind: PostErrorKind::MissingHeadBody, path: path.to_owned() });
            },
        };
        let (ha, hb) = trim_range(&v, 0, i);
        let (ba, bb) = trim_range(&v, i + sep.len(), v.len());
        if ha == hb {
            return Err(PostError { kind: PostErrorKind::EmptyHead, path: path.to_owned() });
        }
        if ba == bb {
            return Err(PostError { kind: PostErrorKind::EmptyBody, path: path.to_owned() });
        }
        let head = string_of(&v, ha, hb);
        let body = string_of(&v, ba, bb);
        Ok((head, body))
    }

    /// Where the post's Markdown file lies: its path joined to the root.
    pub fn src(&self) -> (r: String)
        ensures
            r@ == join_path(self.root@, self.path@),
    {
        join(&chars_of(self.root.as_str()), &chars_of(self.path.as_str()))
    }

    /// Where the post's HTML page goes, relative to the output root.
    pub fn dest(&self) -> (r: String)
        ensures
            r@ == with_html_ext(self.path@),
    {
        html_path(&chars_of(self.path.as_str()))
    }

    /// Builds the post at `path` under `root` from its metadata and its
    /// trimmed body.
    pub fn new(root: &str, path: &str, headers: PostHeaders, body: &str) -> (r: Post)
        requires
            headers.title@.len() == 0 ==> file_stem(path@).len() > 0,
        ensures
            r.root@ == root@,
            r.path@ == path@,
            r.title@ == resolved_title(headers.title@, path@),
            r.url@ == post_url(path@),
            r.formatted_path@ == post_link(path@),
            r.content@ == markdown_html(body@),
            r.headers.created == headers.created,
            r.headers.hidden == headers.hidden,
            r.headers.tags@ == headers.tags@,
            r.headers.description@ == resolved_description(headers.description@, body@),
            r.headers.title@ == headers.title@,
    {
        let mut headers = headers;
        if headers.description.as_str().is_empty() {
            headers.description = summarize(body);
        }
        let content = markdown_to_html(body);
        let p = chars_of(path);
        let title = if headers.title.as_str().is_empty() {
            let (a, b) = file_stem_range(&p);
            let stem = string_of(&p, a, b);
            replace_all(&chars_of(stem.as_str()), '_', ' ')
        } else {
            headers.title.clone()
        };
        let slash = vec!['/'];
        let rooted = join(&slash, &p);
        assert(slash@ =~= seq!['/']);
        let url = html_path(&chars_of(rooted.as_str()));
        let formatted_path = replace_all(&chars_of(url.as_str()), '\\', '/');
        Post {
            root: root.to_owned(),
            path: path.to_owned(),
            formatted_path,
            title,
            url,
            headers,
            content,
        }
    }
}

/// A derived description has as many words as it took from the body's
/// first paragraph: all of them, but no more than a hundred.
pub proof fn lemma_summary_word_count(body: Seq<char>)
    ensures
        words(summary(body)).len() == if words(first_paragraph(body)).len() < summary_words() {
            words(first_paragraph(body)).len()
        } else {
            summary_words()
        },
{
    let ws = words(first_paragraph(body));
    let n = if ws.len() < summary_words() {
        ws.len()
    } else {
        summary_words()
    };
    let taken = ws.take(n as int);
    lemma_words_are_words(first_paragraph(body));
    assert forall|i: int| 0 <= i < taken.len() implies is_word(#[trigger] taken[i]) by {
        assert(taken[i] == ws[i]);
    }
    let dots = seq!['.', '.', '.'];
    assert forall|k: int| 0 <= k < dots.len() implies !is_ws(#[trigger] dots[k]) by {}
    lemma_words_of_joined(taken, dots);
    if n == 0 {
        assert(taken.len() == 0);
        assert(summary(body).len() == 0);
        assert(words(summary(body)) =~= Seq::<Seq<char>>::empty());
    } else {
        let joined = join_words(taken, seq![' ']);
        if taken.len() == 1 {
            assert(joined == taken[0]);
        } else {
            assert(joined == join_words(taken.drop_last(), seq![' ']) + seq![' '] + taken.last());
        }
        assert(joined.len() > 0);
    }
}

proof fn lemma_trim_start_suffix(s: Seq<char>) -> (k: int)
    ensures
        0 <= k <= s.len(),
        trim_start(s) == s.subrange(k, s.len() as int),
    decreases s.len(),
{
    if s.len() > 0 && is_ws(s[0]) {
        let k1 = lemma_trim_start_suffix(s.drop_first());
        assert(s.drop_first().subrange(k1, s.len() - 1) =~= s.subrange(k1 + 1, s.len() as int));
        k1 + 1
    } else {
        assert(s.subrange(0, s.len() as int) =~= s);
        0
    }
}

proof fn lemma_trim_end_prefix(s: Seq<char>) -> (k: int)
    ensures
        0 <= k <= s.len(),
        trim_end(s) == s.subrange(0, k),
    decreases s.len(),
{
    if s.len() > 0 && is_ws(s.last()) {
        let k1 = lemma_trim_end_prefix(s.drop_last());
        assert(s.drop_last().subrange(0, k1) =~= s.subrange(0, k1));
        k1
    } else {
        assert(s.subrange(0, s.len() as int) =~= s);
        s.len() as int
    }
}

/// What trimming leaves of `s` is a stretch of `s`.
proof fn lemma_trim_is_stretch(s: Seq<char>) -> (r: (int, int))
    ensures
        0 <= r.0 <= r.1 <= s.len(),
        trim(s) == s.subrange(r.0, r.1),
{
    let a = lemma_trim_start_suffix(s);
    let b = lemma_trim_end_prefix(trim_start(s));
    assert(s.subrange(a, s.len() as int).subrange(0, b) =~= s.subrange(a, a + b));
    (a, a + b)
}

/// A post file whose head and body, on either side of the first blank line,
/// are not blank splits without error, and the body that is rendered is a
/// stretch of the file that lies wholly after that blank line, so that no
/// text of the head reaches the rendered content.
pub proof fn lemma_well_formed_post_splits(content: Seq<char>)
    requires
        find(content, separator(content)) is Some,
        trim(content.subrange(0, find(content, separator(content))->0)).len() > 0,
        trim(
            content.subrange(
                find(content, separator(content))->0 + separator(content).len(),
                content.len() as int,
            ),
        ).len() > 0,
    ensures
        split_outcome(content) is Ok,
        exists|a: int, b: int|
            find(content, separator(content))->0 + separator(content).len() <= a <= b
                <= content.len() && (split_outcome(content)->Ok_0).1 == content.subrange(a, b),
{
    let sep = separator(content);
    let i = find(content, sep)->0;
    lemma_find_occurs(content, sep, 0);
    let tail = content.subrange(i + sep.len(), content.len() as int);
    let (a, b) = lemma_trim_is_stretch(tail);
    assert(tail.subrange(a, b) =~= content.subrange(i + sep.len() + a, i + sep.len() + b));
}

proof fn lemma_find_occurs(s: Seq<char>, p: Seq<char>, i: int)
    ensures
        find_from(s, p, i) matches Some(k) ==> i <= k && k + p.len() <= s.len(),
    decreases s.len() + 1 - i,
{
    if !(i < 0 || i + p.len() > s.len()) && !crate::text::occurs_at(s, p, i) {
        lemma_find_occurs(s, p, i + 1);
    }
}

/// Splitting and rendering depend on the file's text alone: two reads of an
/// unchanged file split the same way and render to the same content. (Title,
/// URL and link are functions of the path and the metadata.)
pub proof fn lemma_parse_repeatable(first: Seq<char>, second: Seq<char>)
    requires
        first == second,
    ensures
        split_outcome(first) == split_outcome(second),
        split_outcome(first) matches Ok((_, b1)) ==> split_outcome(second) matches Ok((_, b2))
            && markdown_html(b1) == markdown_html(b2),
{
}

} // verus!
