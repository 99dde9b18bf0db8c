use mdblog::simple::{BASE_TPL, MAIN_CSS, MAIN_JS};
use mdblog::theme::{Theme, ThemeError, ThemeFiles};

fn files(base: &[u8]) -> ThemeFiles {
    ThemeFiles {
        favicon: vec![1, 2, 3],
        logo: vec![4, 5],
        main_css: b"body {}".to_vec(),
        main_js: b"let x = 1;".to_vec(),
        base: base.to_vec(),
        index: b"{% extends \"base.tpl\" %}{% block main %}index{% endblock main %}".to_vec(),
        post: b"{% extends \"base.tpl\" %}{% block main %}post{% endblock main %}".to_vec(),
        tag: b"tag {{ tag }}".to_vec(),
    }
}

fn sorted_templates(theme: &Theme) -> Vec<String> {
    let mut names = theme.templates();
    names.sort();
    names
}

#[test]
fn builtin_theme_loads_without_disk() {
    let theme = Theme::new("/no/such/dir", "simple", None).unwrap();
    assert_eq!(theme.name, "simple");
    assert_eq!(theme.root, "/no/such/dir");
    assert_eq!(sorted_templates(&theme), vec!["base.tpl", "index.tpl", "post.tpl", "tag.tpl"]);
}

#[test]
fn unknown_theme_is_not_found() {
    match Theme::new("/no/such/dir", "fancy", None) {
        Err(ThemeError::ThemeNotFound(name)) => assert_eq!(name, "fancy"),
        _ => panic!("expected ThemeNotFound"),
    }
}

#[test]
fn theme_from_disk_files() {
    let theme = Theme::new("/themes", "mine", Some(files(b"<html>{% block main %}{% endblock main %}</html>"))).unwrap();
    assert_eq!(sorted_templates(&theme), vec!["base.tpl", "index.tpl", "post.tpl", "tag.tpl"]);
    assert_eq!(theme.files.logo, vec![4, 5]);
}

#[test]
fn disk_files_win_over_builtin() {
    let theme = Theme::new("/themes", "simple", Some(files(b"plain"))).unwrap();
    assert_eq!(theme.files.base, b"plain".to_vec());
}

#[test]
fn template_that_is_not_utf8() {
    match Theme::new("/themes", "mine", Some(files(&[0x66, 0xff, 0xfe]))) {
        Err(ThemeError::Utf8(name)) => assert_eq!(name, "base.tpl"),
        _ => panic!("expected Utf8"),
    }
}

#[test]
fn template_that_does_not_parse() {
    match Theme::new("/themes", "mine", Some(files(b"{% block %}"))) {
        Err(ThemeError::TemplateParse(name, _)) => assert_eq!(name, "base.tpl"),
        _ => panic!("expected TemplateParse"),
    }
}

#[test]
fn builtin_files() {
    let f = ThemeFiles::simple();
    assert_eq!(f.main_css, MAIN_CSS.as_bytes().to_vec());
    assert_eq!(f.main_js, MAIN_JS.as_bytes().to_vec());
    assert_eq!(f.base, BASE_TPL.as_bytes().to_vec());
    assert_eq!(&f.favicon[..4], &[0x89, 0x50, 0x4E, 0x47]);
}

#[test]
fn materialize_writes_eight_files() {
    let theme = Theme::new("/blog/_themes", "simple", None).unwrap();
    let writes = theme.init_dir("simple", false);
    let paths: Vec<&str> = writes.iter().map(|w| w.path.as_str()).collect();
    assert_eq!(
        paths,
        vec![
            "/blog/_themes/simple/static/favicon.png",
            "/blog/_themes/simple/static/logo.png",
            "/blog/_themes/simple/static/main.css",
            "/blog/_themes/simple/static/main.js",
            "/blog/_themes/simple/templates/base.tpl",
            "/blog/_themes/simple/templates/index.tpl",
            "/blog/_themes/simple/templates/post.tpl",
            "/blog/_themes/simple/templates/tag.tpl",
        ]
    );
    assert_eq!(writes[4].bytes, BASE_TPL.as_bytes().to_vec());
}

#[test]
fn materialize_over_existing_directory_writes_nothing() {
    let theme = Theme::new("/blog/_themes", "simple", None).unwrap();
    let first = theme.init_dir("simple", false);
    assert_eq!(first.len(), 8);
    let second = theme.init_dir("simple", true);
    assert!(second.is_empty());
}

#[test]
fn export_static_twice_writes_the_same_assets() {
    let theme = Theme::new("/themes", "mine", Some(files(b"plain"))).unwrap();
    let first = theme.export_static("/out/");
    let second = theme.export_static("/out/");
    let paths: Vec<&str> = first.iter().map(|w| w.path.as_str()).collect();
    assert_eq!(
        paths,
        vec!["/out/static/favicon.png", "/out/static/logo.png", "/out/static/main.css", "/out/static/main.js"]
    );
    for (a, b) in first.iter().zip(second.iter()) {
        assert_eq!(a.path, b.path);
        assert_eq!(a.bytes, b.bytes);
    }
    assert_eq!(first[0].bytes, vec![1, 2, 3]);
    assert_eq!(first[2].bytes, b"body {}".to_vec());
}

#[test]
fn templates_are_checked_one_at_a_time() {
    let mut f = files(b"{% block %}");
    f.index = vec![0xff, 0xfe];
    match Theme::new("/themes", "mine", Some(f)) {
        Err(ThemeError::TemplateParse(name, _)) => assert_eq!(name, "base.tpl"),
        _ => panic!("expected TemplateParse for the base template"),
    }
}

#[test]
fn later_template_not_utf8() {
    let mut f = files(b"<html>{% block main %}{% endblock main %}</html>");
    f.post = vec![0x80];
    match Theme::new("/themes", "mine", Some(f)) {
        Err(ThemeError::Utf8(name)) => assert_eq!(name, "post.tpl"),
        _ => panic!("expected Utf8 for the post template"),
    }
}

#[test]
fn child_without_parent_is_refused() {
    let mut f = files(b"<html>{% block main %}{% endblock main %}</html>");
    f.tag = b"{% extends \"missing.tpl\" %}".to_vec();
    match Theme::new("/themes", "mine", Some(f)) {
        Err(ThemeError::TemplateParse(name, _)) => assert_eq!(name, "tag.tpl"),
        _ => panic!("expected TemplateParse for the tag template"),
    }
}

#[test]
fn materialized_files_load_back() {
    let theme = Theme::new("/blog/_themes", "simple", None).unwrap();
    let writes = theme.init_dir("copy", false);
    let bytes: Vec<Vec<u8>> = writes.iter().map(|w| w.bytes.clone()).collect();
    let f = ThemeFiles {
        favicon: bytes[0].clone(),
        logo: bytes[1].clone(),
        main_css: bytes[2].clone(),
        main_js: bytes[3].clone(),
        base: bytes[4].clone(),
        index: bytes[5].clone(),
        post: bytes[6].clone(),
        tag: bytes[7].clone(),
    };
    let again = Theme::new("/blog/_themes", "copy", Some(f)).unwrap();
    assert_eq!(again.files.base, theme.files.base);
    assert_eq!(again.files.tag, theme.files.tag);
    assert_eq!(again.files.favicon, theme.files.favicon);
}
