use mdblog::post::{Post, PostErrorKind, PostHeaders, Timestamp};

fn headers(title: &str, description: &str) -> PostHeaders {
    PostHeaders {
        created: Timestamp { unix_seconds: 1_500_000_000, nanosecond: 0, offset_seconds: 28800 },
        hidden: false,
        tags: vec!["hello".to_string(), "world".to_string()],
        description: description.to_string(),
        title: title.to_string(),
    }
}

#[test]
fn split_on_first_blank_line() {
    let (head, body) = Post::split_file("a.md", "created: 2017-01-01T00:00:00+08:00\ntitle: t\n\nfirst\n\nsecond\n").unwrap();
    assert_eq!(head, "created: 2017-01-01T00:00:00+08:00\ntitle: t");
    assert_eq!(body, "first\n\nsecond");
}

#[test]
fn split_crlf_file() {
    let (head, body) = Post::split_file("a.md", "a: 1\r\nb: 2\r\n\r\nBody line\r\n\r\nmore\r\n").unwrap();
    assert_eq!(head, "a: 1\r\nb: 2");
    assert_eq!(body, "Body line\r\n\r\nmore");
}

#[test]
fn crlf_anywhere_selects_crlf_separator() {
    let e = Post::split_file("mixed.md", "a: 1\r\nb: 2\n\nbody").unwrap_err();
    assert_eq!(e.kind, PostErrorKind::MissingHeadBody);
    assert_eq!(e.path, "mixed.md");
}

#[test]
fn missing_separator_is_rejected() {
    let e = Post::split_file("p.md", "created: 2017-01-01T00:00:00Z\nno blank line here").unwrap_err();
    assert_eq!(e.kind, PostErrorKind::MissingHeadBody);
}

#[test]
fn blank_head_is_rejected() {
    let e = Post::split_file("p.md", "  \t\n\nbody").unwrap_err();
    assert_eq!(e.kind, PostErrorKind::EmptyHead);
}

#[test]
fn blank_body_is_rejected() {
    let e = Post::split_file("p.md", "created: 2017-01-01T00:00:00Z\n\n   \n\t \n").unwrap_err();
    assert_eq!(e.kind, PostErrorKind::EmptyBody);
    assert_eq!(e.path, "p.md");
}

#[test]
fn well_formed_content_has_no_head_text() {
    let (_, body) = Post::split_file("p.md", "title: HEADMARKER\n\nJust the body.").unwrap();
    let post = Post::new("/blog", "posts/p.md", headers("x", "d"), &body);
    assert!(!post.content.contains("HEADMARKER"));
    assert!(post.content.contains("Just the body."));
}

#[test]
fn parsing_twice_gives_the_same_post() {
    let text = "title: Same\n\n# Heading\n\nSome *text*.";
    let (h1, b1) = Post::split_file("s.md", text).unwrap();
    let (h2, b2) = Post::split_file("s.md", text).unwrap();
    assert_eq!(h1, h2);
    let p1 = Post::new("/blog", "posts/s.md", headers("", ""), &b1);
    let p2 = Post::new("/blog", "posts/s.md", headers("", ""), &b2);
    assert_eq!(p1.title, p2.title);
    assert_eq!(p1.url, p2.url);
    assert_eq!(p1.formatted_path, p2.formatted_path);
    assert_eq!(p1.content, p2.content);
    assert_eq!(p1.headers.description, p2.headers.description);
}

#[test]
fn title_falls_back_to_file_name() {
    let post = Post::new("/blog", "posts/my_post.md", headers("", ""), "body");
    assert_eq!(post.title, "my post");
}

#[test]
fn given_title_is_kept() {
    let post = Post::new("/blog", "posts/my_post.md", headers("Hello_World", ""), "body");
    assert_eq!(post.title, "Hello_World");
    assert_eq!(post.headers.title, "Hello_World");
}

#[test]
fn stem_drops_only_the_last_extension() {
    let post = Post::new("/blog", "archive.tar.md", headers("", ""), "body");
    assert_eq!(post.title, "archive.tar");
    assert_eq!(post.url, "/archive.tar.html");
    let dotfile = Post::new("/blog", "notes/.draft", headers("", ""), "body");
    assert_eq!(dotfile.title, ".draft");
    assert_eq!(dotfile.url, "/notes/.draft.html");
}

#[test]
fn url_and_link() {
    let post = Post::new("/blog", "posts/hello/world.md", headers("t", "d"), "body");
    assert_eq!(post.url, "/posts/hello/world.html");
    assert_eq!(post.formatted_path, "/posts/hello/world.html");
    assert_eq!(post.path, "posts/hello/world.md");
    assert_eq!(post.root, "/blog");
}

#[test]
fn link_turns_backslashes_into_slashes() {
    let post = Post::new("/blog", "posts\\win.md", headers("t", "d"), "body");
    assert_eq!(post.url, "/posts\\win.html");
    assert_eq!(post.formatted_path, "/posts/win.html");
}

#[test]
fn src_and_dest() {
    let post = Post::new("/blog", "posts/a.md", headers("t", "d"), "body");
    assert_eq!(post.src(), "/blog/posts/a.md");
    assert_eq!(post.dest(), "posts/a.html");
    let slashed = Post::new("/blog/", "posts/a.md", headers("t", "d"), "body");
    assert_eq!(slashed.src(), "/blog/posts/a.md");
    let plain = Post::new("/blog", "a", headers("t", "d"), "body");
    assert_eq!(plain.dest(), "a.html");
}

#[test]
fn description_from_first_paragraph() {
    let post = Post::new("/blog", "a.md", headers("t", ""), "one  two\tthree\nfour\n\nsecond paragraph");
    assert_eq!(post.headers.description, "one two three four...");
}

#[test]
fn description_truncated_to_a_hundred_words() {
    let words: Vec<String> = (0..150).map(|i| format!("w{}", i)).collect();
    let body = words.join(" ");
    let post = Post::new("/blog", "a.md", headers("t", ""), &body);
    let expected = format!("{}...", words[..100].join(" "));
    assert_eq!(post.headers.description, expected);
}

#[test]
fn description_of_exactly_a_hundred_words() {
    let words: Vec<String> = (0..100).map(|i| format!("x{}", i)).collect();
    let post = Post::new("/blog", "a.md", headers("t", ""), &words.join("\n"));
    assert_eq!(post.headers.description, format!("{}...", words.join(" ")));
}

#[test]
fn given_description_is_kept() {
    let post = Post::new("/blog", "a.md", headers("t", "Mine."), "words here");
    assert_eq!(post.headers.description, "Mine.");
}

#[test]
fn metadata_is_carried() {
    let post = Post::new("/blog", "a.md", headers("t", "d"), "body");
    assert_eq!(post.headers.tags, vec!["hello".to_string(), "world".to_string()]);
    assert!(!post.headers.hidden);
    assert_eq!(post.headers.created.offset_seconds, 28800);
    assert_eq!(post.headers.created.unix_seconds, 1_500_000_000);
}

#[test]
fn body_is_rendered_as_html() {
    let post = Post::new("/blog", "a.md", headers("t", "d"), "# Title\n\nSome *stress*.");
    assert!(post.content.contains("<h1>Title</h1>"));
    assert!(post.content.contains("<em>stress</em>"));
    assert!(!post.content.contains("# Title"));
}

#[test]
fn summarize_empty_body() {
    assert_eq!(mdblog::post::summarize("  \n "), "");
    assert_eq!(mdblog::post::summarize("a\n\nb"), "a...");
}

#[test]
fn file_stem_presence() {
    assert!(mdblog::paths::has_file_stem("posts/a.md"));
    assert!(!mdblog::paths::has_file_stem("posts/"));
    assert!(!mdblog::paths::has_file_stem(""));
}

#[test]
fn description_stops_at_crlf_blank_line() {
    let post = Post::new("/blog", "a.md", headers("t", ""), "a\r\n\r\nb");
    assert_eq!(post.headers.description, "a...");
    let (_, body) = Post::split_file("c.md", "title: t\r\n\r\nfirst words\r\nsame para\r\n\r\nsecond").unwrap();
    let post = Post::new("/blog", "c.md", headers("t", ""), &body);
    assert_eq!(post.headers.description, "first words same para...");
}

#[test]
fn description_stops_at_earlier_blank_line_of_either_style() {
    assert_eq!(mdblog::post::summarize("x y\n\nz\r\n\r\nw"), "x y...");
    assert_eq!(mdblog::post::summarize("x\r\n\r\ny\n\nz"), "x...");
}

#[test]
fn long_description_has_a_hundred_words() {
    let words: Vec<String> = (0..120).map(|i| format!("t{}", i)).collect();
    let post = Post::new("/blog", "a.md", headers("t", ""), &words.join(" "));
    assert_eq!(post.headers.description.split_whitespace().count(), 100);
    assert!(post.headers.description.ends_with("t99..."));
}

#[test]
fn timestamp_fields_in_range() {
    let t = Timestamp::new(1_500_000_000, 999_999_999, -86340).unwrap();
    assert_eq!(t.unix_seconds, 1_500_000_000);
    assert_eq!(t.offset_seconds, -86340);
    assert!(Timestamp::new(0, 1_000_000_000, 0).is_none());
    assert!(Timestamp::new(0, 0, 86400).is_none());
}
