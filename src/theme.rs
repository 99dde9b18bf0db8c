//! Themes: four page templates and four static assets, read from a theme
//! directory or taken from the built-in theme, with the templates handed to
//! a tera renderer.

use vstd::prelude::*;
use vstd::slice::slice_to_vec;
use vstd::string::StringSliceAdditionalSpecFns;
use vstd::utf8::{decode_utf8, encode_utf8_valid_utf8, valid_utf8};
use crate::paths::{join, join_path};
use crate::simple::{pixel_png, pixel_png_bytes, BASE_TPL, INDEX_TPL, MAIN_CSS, MAIN_JS, POST_TPL, TAG_TPL};
use crate::text::{chars_of, same_text};

verus! {

#[verifier::external_type_specification]
#[verifier::external_body]
pub struct ExTera(tera::Tera);

#[verifier::external_type_specification]
#[verifier::external_body]
pub struct ExTeraError(tera::Error);

/// The templates that a renderer holds: each name with its source text.
pub uninterp spec fn template_sources(t: tera::Tera) -> Map<Seq<char>, Seq<char>>;

/// Whether a renderer that holds the templates `held` accepts `content` as
/// the template `name`: it parses, and every template's parents and macro
/// files are then held.
pub uninterp spec fn template_accepted(
    held: Map<Seq<char>, Seq<char>>,
    name: Seq<char>,
    content: Seq<char>,
) -> bool;

/// No templates at all.
pub open spec fn no_templates() -> Map<Seq<char>, Seq<char>> {
    Map::empty()
}

/// Relies on `Tera::default`: a renderer that holds no template yet.
#[verifier::external_body]
fn empty_renderer() -> (r: tera::Tera)
    ensures
        template_sources(r) == no_templates(),
{
    tera::Tera::default()
}

/// The templates held after registering `steps` (name and text) one after
/// another into an empty renderer, where each step named a template not yet
/// held and was accepted; `None` where some step was not.
pub open spec fn registered_in_turn(steps: Seq<(Seq<char>, Seq<char>)>) -> Option<Map<Seq<char>, Seq<char>>>
    decreases steps.len(),
{
    if steps.len() == 0 {
        Some(no_templates())
    } else {
        match registered_in_turn(steps.drop_last()) {
            Some(m) => if !m.dom().contains(steps.last().0) && template_accepted(
                m,
                steps.last().0,
                steps.last().1,
            ) {
                Some(m.insert(steps.last().0, steps.last().1))
            } else {
                None
            },
            None => None,
        }
    }
}

/// Relies on `Tera::add_raw_template`: whether the template is accepted
/// depends on the templates held, the name and the text; on success the
/// template is held under `name`; on failure it is held or not, and nothing
/// else changes. The renderer must hold only templates that were accepted
/// in turn, and `name` must be new to it: every held template then has a
/// finite chain of parents, and the new one can close a cycle only through
/// itself, which tera reports as an error instead of recursing without end.
#[verifier::external_body]
fn add_template(t: &mut tera::Tera, name: &str, content: &str) -> (r: Result<(), tera::Error>)
    requires
        exists|steps: Seq<(Seq<char>, Seq<char>)>|
            #[trigger] registered_in_turn(steps) == Some(template_sources(*old(t))),
        !template_sources(*old(t)).dom().contains(name@),
    ensures
        r is Ok <==> template_accepted(template_sources(*old(t)), name@, content@),
        r is Ok ==> template_sources(*final(t)) == template_sources(*old(t)).insert(
            name@,
            content@,
        ),
        r is Err ==> template_sources(*final(t)) == template_sources(*old(t))
            || template_sources(*final(t)) == template_sources(*old(t)).insert(name@, content@),
{
    t.add_raw_template(name, content)
}

/// Relies on `Tera::get_template_names`: one name per template held.
#[verifier::external_body]
fn names_held(t: &tera::Tera) -> (r: Vec<String>)
    ensures
        r@.map_values(|s: String| s@).to_set() == template_sources(*t).dom(),
{
    t.get_template_names().map(|s| s.to_string()).collect()
}

/// Relies on `std::str::from_utf8`: the bytes are text exactly when they
/// are valid UTF-8, and then stand for the characters they encode.
#[verifier::external_body]
fn utf8_text(b: &[u8]) -> (r: Option<&str>)
    ensures
        r is Some <==> valid_utf8(b@),
        r matches Some(s) ==> s@ == decode_utf8(b@),
{
    std::str::from_utf8(b).ok()
}

/// The name of the built-in theme.
pub const SIMPLE: &'static str = "simple";

pub const FAVICON_PATH: &'static str = "static/favicon.png";
pub const LOGO_PATH: &'static str = "static/logo.png";
pub const MAIN_CSS_PATH: &'static str = "static/main.css";
pub const MAIN_JS_PATH: &'static str = "static/main.js";
pub const BASE_PATH: &'static str = "templates/base.tpl";
pub const INDEX_PATH: &'static str = "templates/index.tpl";
pub const POST_PATH: &'static str = "templates/post.tpl";
pub const TAG_PATH: &'static str = "templates/tag.tpl";

pub const BASE_NAME: &'static str = "base.tpl";
pub const INDEX_NAME: &'static str = "index.tpl";
pub const POST_NAME: &'static str = "post.tpl";
pub const TAG_NAME: &'static str = "tag.tpl";

/// The path of the theme's `i`-th file, relative to the theme directory:
/// the four static assets come first, then the four templates.
pub open spec fn layout_path(i: int) -> Seq<char> {
    if i == 0 {
        FAVICON_PATH@
    } else if i == 1 {
        LOGO_PATH@
    } else if i == 2 {
        MAIN_CSS_PATH@
    } else if i == 3 {
        MAIN_JS_PATH@
    } else if i == 4 {
        BASE_PATH@
    } else if i == 5 {
        INDEX_PATH@
    } else if i == 6 {
        POST_PATH@
    } else {
        TAG_PATH@
    }
}

/// The name under which the `k`-th template (the theme's file `4 + k`) is
/// registered.
pub open spec fn template_name(k: int) -> Seq<char> {
    if k == 0 {
        BASE_NAME@
    } else if k == 1 {
        INDEX_NAME@
    } else if k == 2 {
        POST_NAME@
    } else {
        TAG_NAME@
    }
}

/// The names of the four templates of every theme.
pub open spec fn template_set() -> Set<Seq<char>> {
    set![template_name(0), template_name(1), template_name(2), template_name(3)]
}

/// The four template names differ from each other.
proof fn lemma_template_names_distinct()
    ensures
        forall|i: int, j: int|
            0 <= i < 4 && 0 <= j < 4 && i != j ==> #[trigger] template_name(i) != #[trigger] template_name(j),
{
    reveal_strlit("base.tpl");
    reveal_strlit("index.tpl");
    reveal_strlit("post.tpl");
    reveal_strlit("tag.tpl");
    assert(BASE_NAME@[0] != INDEX_NAME@[0]);
    assert(BASE_NAME@[0] != POST_NAME@[0]);
    assert(BASE_NAME@[0] != TAG_NAME@[0]);
    assert(INDEX_NAME@[0] != POST_NAME@[0]);
    assert(INDEX_NAME@[0] != TAG_NAME@[0]);
    assert(POST_NAME@[0] != TAG_NAME@[0]);
}

/// The name under which the `k`-th template is registered, as text.
pub fn template_name_text(k: usize) -> (r: &'static str)
    requires
        k < 4,
    ensures
        r@ == template_name(k as int),
{
    if k == 0 {
        BASE_NAME
    } else if k == 1 {
        INDEX_NAME
    } else if k == 2 {
        POST_NAME
    } else {
        TAG_NAME
    }
}

/// The eight files of a theme.
pub struct ThemeFiles {
    pub favicon: Vec<u8>,
    pub logo: Vec<u8>,
    pub main_css: Vec<u8>,
    pub main_js: Vec<u8>,
    pub base: Vec<u8>,
    pub index: Vec<u8>,
    pub post: Vec<u8>,
    pub tag: Vec<u8>,
}

impl View for ThemeFiles {
    type V = Seq<Seq<u8>>;

    /// The files' bytes in the order of `layout_path`.
    open spec fn view(&self) -> Seq<Seq<u8>> {
        seq![
            self.favicon@,
            self.logo@,
            self.main_css@,
            self.main_js@,
            self.base@,
            self.index@,
            self.post@,
            self.tag@,
        ]
    }
}

/// The files of the built-in theme.
pub open spec fn simple_files() -> Seq<Seq<u8>> {
    seq![
        pixel_png(),
        pixel_png(),
        MAIN_CSS.spec_bytes(),
        MAIN_JS.spec_bytes(),
        BASE_TPL.spec_bytes(),
        INDEX_TPL.spec_bytes(),
        POST_TPL.spec_bytes(),
        TAG_TPL.spec_bytes(),
    ]
}

/// Why a template could not be registered.
#[derive(Debug, Clone, Copy, PartialEq, Eq, Structural)]
pub enum TemplateFault {
    /// its bytes are not UTF-8
    NotUtf8,
    /// the renderer refused its text
    Refused,
}

/// Registering the templates of `files` from the `k`-th on, one at a time
/// in the order base, index, post, tag, into a renderer that holds `held`:
/// each is decoded, then handed to the renderer. The result is the
/// templates then held, or the first template that failed and how.
pub open spec fn register_outcome(
    files: Seq<Seq<u8>>,
    k: int,
    held: Map<Seq<char>, Seq<char>>,
) -> Result<Map<Seq<char>, Seq<char>>, (int, TemplateFault)>
    decreases 4 - k,
{
    if k < 0 || k >= 4 {
        Ok(held)
    } else if !valid_utf8(files[4 + k]) {
        Err((k, TemplateFault::NotUtf8))
    } else if !template_accepted(held, template_name(k), decode_utf8(files[4 + k])) {
        Err((k, TemplateFault::Refused))
    } else {
        register_outcome(files, k + 1, held.insert(template_name(k), decode_utf8(files[4 + k])))
    }
}

/// The templates of a theme built from `files`: each of the four names
/// with the text of its template file.
pub open spec fn theme_templates(files: Seq<Seq<u8>>) -> Map<Seq<char>, Seq<char>> {
    Map::<Seq<char>, Seq<char>>::empty().insert(template_name(0), decode_utf8(files[4])).insert(
        template_name(1),
        decode_utf8(files[5]),
    ).insert(template_name(2), decode_utf8(files[6])).insert(
        template_name(3),
        decode_utf8(files[7]),
    )
}

/// Registering all four templates, where it succeeds, leaves the renderer
/// holding exactly the four names, each with its own file's text.
pub proof fn lemma_registered_templates(files: Seq<Seq<u8>>)
    ensures
        register_outcome(files, 0, Map::empty()) matches Ok(m) ==> m == theme_templates(files),
{
    reveal_with_fuel(register_outcome, 5);
}

/// The files that a theme is built from: those read from its directory,
/// else the built-in ones where the name is the built-in theme's.
pub open spec fn chosen_files(name: Seq<char>, on_disk: Option<Seq<Seq<u8>>>) -> Option<Seq<Seq<u8>>> {
    match on_disk {
        Some(f) => Some(f),
        None => if name == SIMPLE@ {
            Some(simple_files())
        } else {
            None
        },
    }
}

/// The built-in theme's four templates are all UTF-8, so that loading it
/// never fails for want of UTF-8.
pub proof fn lemma_simple_templates_decode()
    ensures
        forall|k: int| 4 <= k < 8 ==> valid_utf8(#[trigger] simple_files()[k]),
        !(register_outcome(simple_files(), 0, Map::empty()) matches Err((_, f)) && f
            == TemplateFault::NotUtf8),
{
    reveal_with_fuel(register_outcome, 5);
    encode_utf8_valid_utf8(BASE_TPL@);
    encode_utf8_valid_utf8(INDEX_TPL@);
    encode_utf8_valid_utf8(POST_TPL@);
    encode_utf8_valid_utf8(TAG_TPL@);
}

impl ThemeFiles {
    /// The bytes of the `i`-th file, in the order of `layout_path`.
    pub fn file(&self, i: usize) -> (r: &Vec<u8>)
        requires
            i < 8,
        ensures
            r@ == self@[i as int],
    {
        if i == 0 {
            &self.favicon
        } else if i == 1 {
            &self.logo
        } else if i == 2 {
            &self.main_css
        } else if i == 3 {
            &self.main_js
        } else if i == 4 {
            &self.base
        } else if i == 5 {
            &self.index
        } else if i == 6 {
            &self.post
        } else {
            &self.tag
        }
    }

    /// The files of the built-in theme.
    pub fn simple() -> (r: ThemeFiles)
        ensures
            r@ == simple_files(),
    {
        ThemeFiles {
            favicon: pixel_png_bytes(),
            logo: pixel_png_bytes(),
            main_css: slice_to_vec(MAIN_CSS.as_bytes()),
            main_js: slice_to_vec(MAIN_JS.as_bytes()),
            base: slice_to_vec(BASE_TPL.as_bytes()),
            index: slice_to_vec(INDEX_TPL.as_bytes()),
            post: slice_to_vec(POST_TPL.as_bytes()),
            tag: slice_to_vec(TAG_TPL.as_bytes()),
        }
    }
}

/// Why a theme could not be loaded.
#[derive(Debug)]
pub enum ThemeError {
    /// no directory of that name, and not the built-in theme's name
    ThemeNotFound(String),
    /// the named template is not UTF-8
    Utf8(String),
    /// the renderer refused the named template
    TemplateParse(String, tera::Error),
}

/// A loaded theme.
pub struct Theme {
    /// the directory that holds the themes
    pub root: String,
    /// the theme's name
    pub name: String,
    /// the renderer, holding the four templates
    pub renderer: tera::Tera,
    /// the theme's eight files
    pub files: ThemeFiles,
}

/// The bytes of the files read from a theme directory, if any were.
pub open spec fn files_view(on_disk: Option<ThemeFiles>) -> Option<Seq<Seq<u8>>> {
    match on_disk {
        Some(f) => Some(f@),
        None => None,
    }
}

impl Theme {
    /// Loads the theme `name` of the themes directory `root`, from the files
    /// read from its directory (`on_disk`, `None` where it has none) or,
    /// for the built-in theme's name, from the built-in files; the four
    /// templates are then decoded and registered one at a time.
    pub fn new(root: &str, name: &str, on_disk: Option<ThemeFiles>) -> (r: Result<Theme, ThemeError>)
        ensures
            match chosen_files(name@, files_view(on_disk)) {
                None => r matches Err(ThemeError::ThemeNotFound(n)) && n@ == name@,
                Some(f) => match register_outcome(f, 0, Map::empty()) {
                    Ok(m) => r matches Ok(t) && {
                        &&& t.root@ == root@
                        &&& t.name@ == name@
                        &&& t.files@ == f
                        &&& template_sources(t.renderer) == m
                        &&& m == theme_templates(f)
                        &&& m.dom() == template_set()
                    },
                    Err((k, TemplateFault::NotUtf8)) => r matches Err(ThemeError::Utf8(n)) && n@
                        == template_name(k),
                    Err((k, TemplateFault::Refused)) => r matches Err(
                        ThemeError::TemplateParse(n, _),
                    ) && n@ == template_name(k),
                },
            },
    {
        let files = match on_disk {
            Some(f) => f,
            None => {
                if !same_text(name, SIMPLE) {
                    return Err(ThemeError::ThemeNotFound(name.to_owned()));
                }
                ThemeFiles::simple()
            },
        };
        let mut theme = Theme {
            root: root.to_owned(),
            name: name.to_owned(),
            renderer: empty_renderer(),
            files,
        };
        proof {
            lemma_registered_templates(theme.files@);
            assert(theme_templates(theme.files@).dom() =~= template_set());
        }
        match theme.init_template() {
            Ok(()) => Ok(theme),
            Err(e) => Err(e),
        }
    }

    /// Decodes and registers the four templates with the renderer, one at a
    /// time, stopping at the first that fails.
    fn init_template(&mut self) -> (r: Result<(), ThemeError>)
        requires
            template_sources(old(self).renderer) == Map::<Seq<char>, Seq<char>>::empty(),
        ensures
            final(self).root == old(self).root,
            final(self).name == old(self).name,
            final(self).files@ == old(self).files@,
            match register_outcome(old(self).files@, 0, Map::empty()) {
                Ok(m) => r is Ok && template_sources(final(self).renderer) == m,
                Err((k, TemplateFault::NotUtf8)) => r matches Err(ThemeError::Utf8(n)) && n@
                    == template_name(k),
                Err((k, TemplateFault::Refused)) => r matches Err(
                    ThemeError::TemplateParse(n, _),
                ) && n@ == template_name(k),
            },
    {
        let ghost files = self.files@;
        let ghost mut steps: Seq<(Seq<char>, Seq<char>)> = seq![];
        let mut k: usize = 0;
        while k < 4
            invariant
                k <= 4,
                self.root == old(self).root,
                self.name == old(self).name,
                self.files@ == files,
                files == old(self).files@,
                register_outcome(files, 0, Map::empty()) == register_outcome(
                    files,
                    k as int,
                    template_sources(self.renderer),
                ),
                steps.len() == k,
                registered_in_turn(steps) == Some(template_sources(self.renderer)),
                forall|n: Seq<char>|
                    #[trigger] template_sources(self.renderer).dom().contains(n) <==> exists|j: int|
                        0 <= j < k && n == template_name(j),
            decreases 4 - k,
        {
            let text = match utf8_text(self.files.file(4 + k).as_slice()) {
                Some(t) => t,
                None => return Err(ThemeError::Utf8(template_name_text(k).to_owned())),
            };
            let ghost held = template_sources(self.renderer);
            proof {
                lemma_template_names_distinct();
                if held.dom().contains(template_name(k as int)) {
                    let j = choose|j: int| 0 <= j < k && template_name(k as int) == template_name(j);
                    assert(template_name(k as int) != template_name(j));
                }
            }
            if let Err(e) = add_template(&mut self.renderer, template_name_text(k), text) {
                return Err(ThemeError::TemplateParse(template_name_text(k).to_owned(), e));
            }
            proof {
                let step = (template_name(k as int), text@);
                assert(steps.push(step).drop_last() =~= steps);
                steps = steps.push(step);
                assert forall|n: Seq<char>|
                    #[trigger] template_sources(self.renderer).dom().contains(n) <==> exists|j: int|
                        0 <= j < k + 1 && n == template_name(j) by {
                    if n == template_name(k as int) {
                        assert(exists|j: int| 0 <= j < k + 1 && n == template_name(j));
                    }
                    if held.dom().contains(n) {
                        let j = choose|j: int| 0 <= j < k && n == template_name(j);
                        assert(0 <= j < k + 1 && n == template_name(j));
                    }
                }
            }
            k = k + 1;
        }
        Ok(())
    }

    /// The writes that put the theme's first `n` files under `dir`.
    fn writes_under(&self, dir: &str, n: usize) -> (r: Vec<FileWrite>)
        requires
            n <= 8,
        ensures
            writes_view(r@) == theme_writes(self.files@, dir@, n as int),
    {
        let d = chars_of(dir);
        let mut r: Vec<FileWrite> = Vec::new();
        let mut i: usize = 0;
        while i < n
            invariant
                n <= 8,
                i <= n,
                d@ == dir@,
                writes_view(r@) =~= theme_writes(self.files@, dir@, i as int),
            decreases n - i,
        {
            let path = join(&d, &chars_of(layout_path_text(i)));
            let bytes = slice_to_vec(self.files.file(i).as_slice());
            let w = FileWrite { path, bytes };
            let ghost before = r@;
            assert(w@ == (join_path(dir@, layout_path(i as int)), self.files@[i as int]));
            r.push(w);
            assert(writes_view(r@) =~= writes_view(before).push(w@));
            i = i + 1;
            assert(writes_view(r@) =~= theme_writes(self.files@, dir@, i as int));
        }
        r
    }

    /// The writes that put the theme's eight files into the directory
    /// `name` of the themes directory; none where that directory exists
    /// already, so that a theme on disk is never overwritten.
    pub fn init_dir(&self, name: &str, dest_exists: bool) -> (r: Vec<FileWrite>)
        ensures
            writes_view(r@) == materialize_writes(
                self.files@,
                join_path(self.root@, name@),
                dest_exists,
            ),
    {
        if dest_exists {
            assert(writes_view(Seq::<FileWrite>::empty()) =~= Seq::empty());
            return Vec::new();
        }
        let dir = join(&chars_of(self.root.as_str()), &chars_of(name));
        self.writes_under(dir.as_str(), 8)
    }

    /// The writes that put the theme's four static assets under the output
    /// directory `root`, over whatever is there.
    pub fn export_static(&self, root: &str) -> (r: Vec<FileWrite>)
        ensures
            writes_view(r@) == export_writes(self.files@, root@),
    {
        self.writes_under(root, 4)
    }

    /// The names of the templates that the renderer holds.
    pub fn templates(&self) -> (r: Vec<String>)
        ensures
            r@.map_values(|s: String| s@).to_set() == template_sources(self.renderer).dom(),
    {
        names_held(&self.renderer)
    }
}

/// The path, relative to the theme directory, of the theme's `i`-th file.
pub fn layout_path_text(i: usize) -> (r: &'static str)
    requires
        i < 8,
    ensures
        r@ == layout_path(i as int),
{
    if i == 0 {
        FAVICON_PATH
    } else if i == 1 {
        LOGO_PATH
    } else if i == 2 {
        MAIN_CSS_PATH
    } else if i == 3 {
        MAIN_JS_PATH
    } else if i == 4 {
        BASE_PATH
    } else if i == 5 {
        INDEX_PATH
    } else if i == 6 {
        POST_PATH
    } else {
        TAG_PATH
    }
}

/// One file to write: its path and its bytes.
pub struct FileWrite {
    pub path: String,
    pub bytes: Vec<u8>,
}

impl View for FileWrite {
    type V = (Seq<char>, Seq<u8>);

    open spec fn view(&self) -> (Seq<char>, Seq<u8>) {
        (self.path@, self.bytes@)
    }
}

/// The paths and bytes of a list of writes.
pub open spec fn writes_view(ws: Seq<FileWrite>) -> Seq<(Seq<char>, Seq<u8>)> {
    ws.map_values(|w: FileWrite| w@)
}

/// The writes that put the first `n` of `files` under `dir`, in the order of
/// `layout_path`.
pub open spec fn theme_writes(files: Seq<Seq<u8>>, dir: Seq<char>, n: int) -> Seq<(Seq<char>, Seq<u8>)> {
    Seq::new(n as nat, |i: int| (join_path(dir, layout_path(i)), files[i]))
}

/// The writes that materialize a theme into `dir`: none where `dir` exists.
pub open spec fn materialize_writes(files: Seq<Seq<u8>>, dir: Seq<char>, exists: bool) -> Seq<(Seq<char>, Seq<u8>)> {
    if exists {
        seq![]
    } else {
        theme_writes(files, dir, 8)
    }
}

/// The writes that export a theme's static assets under `root`.
pub open spec fn export_writes(files: Seq<Seq<u8>>, root: Seq<char>) -> Seq<(Seq<char>, Seq<u8>)> {
    theme_writes(files, root, 4)
}

/// The files of `fs` (a map from path to bytes) after the writes `ws`, in
/// order: a later write to a path replaces an earlier one.
pub open spec fn apply_writes(
    fs: Map<Seq<char>, Seq<u8>>,
    ws: Seq<(Seq<char>, Seq<u8>)>,
) -> Map<Seq<char>, Seq<u8>>
    decreases ws.len(),
{
    if ws.len() == 0 {
        fs
    } else {
        apply_writes(fs, ws.drop_last()).insert(ws.last().0, ws.last().1)
    }
}

/// Whether `fs` holds a file inside the directory `dir`.
pub open spec fn dir_exists(fs: Map<Seq<char>, Seq<u8>>, dir: Seq<char>) -> bool {
    exists|rest: Seq<char>|
        rest.len() > 0 && rest[0] != '/' && #[trigger] fs.dom().contains(join_path(dir, rest))
}

proof fn lemma_apply_shadowed(
    fs: Map<Seq<char>, Seq<u8>>,
    k: Seq<char>,
    v0: Seq<u8>,
    v: Seq<u8>,
    ws: Seq<(Seq<char>, Seq<u8>)>,
)
    ensures
        apply_writes(fs.insert(k, v0), ws).insert(k, v) == apply_writes(fs, ws).insert(k, v),
    decreases ws.len(),
{
    if ws.len() == 0 {
        assert(fs.insert(k, v0).insert(k, v) =~= fs.insert(k, v));
    } else {
        let e = ws.last();
        lemma_apply_shadowed(fs, k, v0, v, ws.drop_last());
        let a = apply_writes(fs.insert(k, v0), ws.drop_last());
        let b = apply_writes(fs, ws.drop_last());
        if e.0 == k {
            assert(a.insert(e.0, e.1).insert(k, v) =~= a.insert(k, v));
            assert(b.insert(e.0, e.1).insert(k, v) =~= b.insert(k, v));
        } else {
            assert(a.insert(e.0, e.1).insert(k, v) =~= a.insert(k, v).insert(e.0, e.1));
            assert(b.insert(e.0, e.1).insert(k, v) =~= b.insert(k, v).insert(e.0, e.1));
        }
    }
}

/// Applying the same writes a second time changes nothing.
pub proof fn lemma_apply_writes_twice(fs: Map<Seq<char>, Seq<u8>>, ws: Seq<(Seq<char>, Seq<u8>)>)
    ensures
        apply_writes(apply_writes(fs, ws), ws) == apply_writes(fs, ws),
    decreases ws.len(),
{
    if ws.len() > 0 {
        let e = ws.last();
        let m = apply_writes(fs, ws.drop_last());
        lemma_apply_shadowed(m, e.0, e.1, e.1, ws.drop_last());
        lemma_apply_writes_twice(fs, ws.drop_last());
    }
}

proof fn lemma_apply_lookup(fs: Map<Seq<char>, Seq<u8>>, ws: Seq<(Seq<char>, Seq<u8>)>, j: int)
    requires
        0 <= j < ws.len(),
        forall|m: int| j < m < ws.len() ==> ws[m].0 != ws[j].0,
    ensures
        apply_writes(fs, ws).dom().contains(ws[j].0),
        apply_writes(fs, ws)[ws[j].0] == ws[j].1,
    decreases ws.len(),
{
    if j < ws.len() - 1 {
        lemma_apply_lookup(fs, ws.drop_last(), j);
    }
}

proof fn lemma_join_injective(root: Seq<char>, a: Seq<char>, b: Seq<char>)
    requires
        a.len() > 0 && a[0] != '/',
        b.len() > 0 && b[0] != '/',
        join_path(root, a) == join_path(root, b),
    ensures
        a == b,
{
    let p = if root.len() == 0 || root.last() == '/' {
        root
    } else {
        root + seq!['/']
    };
    assert(join_path(root, a) == p + a);
    assert(join_path(root, b) == p + b);
    assert((p + a).subrange(p.len() as int, (p + a).len() as int) =~= a);
    assert((p + b).subrange(p.len() as int, (p + b).len() as int) =~= b);
}

/// Materializing a theme twice into the same directory: after the first run
/// the directory exists, so the second run writes nothing and leaves the
/// files of the first run as they are.
pub proof fn lemma_materialize_twice(
    files: Seq<Seq<u8>>,
    dir: Seq<char>,
    fs: Map<Seq<char>, Seq<u8>>,
)
    ensures
        ({
            let first = apply_writes(fs, materialize_writes(files, dir, dir_exists(fs, dir)));
            &&& dir_exists(first, dir)
            &&& materialize_writes(files, dir, dir_exists(first, dir)).len() == 0
            &&& apply_writes(first, materialize_writes(files, dir, dir_exists(first, dir)))
                == first
        }),
{
    let first = apply_writes(fs, materialize_writes(files, dir, dir_exists(fs, dir)));
    if !dir_exists(fs, dir) {
        let ws = theme_writes(files, dir, 8);
        reveal_strlit("templates/tag.tpl");
        assert(ws.last() == (join_path(dir, TAG_PATH@), files[7]));
        assert(first.dom().contains(join_path(dir, TAG_PATH@)));
        assert(TAG_PATH@.len() > 0 && TAG_PATH@[0] != '/');
    }
}

/// The eight layout paths are relative and pairwise distinct.
proof fn lemma_layout_paths_distinct()
    ensures
        forall|i: int|
            0 <= i < 8 ==> (#[trigger] layout_path(i)).len() > 0 && layout_path(i)[0] != '/',
        forall|i: int, j: int|
            0 <= i < 8 && 0 <= j < 8 && i != j ==> #[trigger] layout_path(i) != #[trigger] layout_path(
                j,
            ),
{
    reveal_strlit("static/favicon.png");
    reveal_strlit("static/logo.png");
    reveal_strlit("static/main.css");
    reveal_strlit("static/main.js");
    reveal_strlit("templates/base.tpl");
    reveal_strlit("templates/index.tpl");
    reveal_strlit("templates/post.tpl");
    reveal_strlit("templates/tag.tpl");
    assert(FAVICON_PATH@[0] == 's' && LOGO_PATH@[0] == 's' && MAIN_CSS_PATH@[0] == 's'
        && MAIN_JS_PATH@[0] == 's');
    assert(BASE_PATH@[0] == 't' && INDEX_PATH@[0] == 't' && POST_PATH@[0] == 't' && TAG_PATH@[0]
        == 't');
    assert(LOGO_PATH@[7] != MAIN_CSS_PATH@[7]);
    assert(BASE_PATH@[10] != POST_PATH@[10]);
    assert(FAVICON_PATH@.len() == 18 && LOGO_PATH@.len() == 15 && MAIN_CSS_PATH@.len() == 15
        && MAIN_JS_PATH@.len() == 14);
    assert(BASE_PATH@.len() == 18 && INDEX_PATH@.len() == 19 && POST_PATH@.len() == 18
        && TAG_PATH@.len() == 17);
}

/// After the writes of a theme's first `n` files under `dir`, each of their
/// paths holds that file's bytes.
proof fn lemma_theme_writes_lookup(
    files: Seq<Seq<u8>>,
    dir: Seq<char>,
    n: int,
    fs: Map<Seq<char>, Seq<u8>>,
    i: int,
)
    requires
        files.len() == 8,
        0 <= i < n <= 8,
    ensures
        apply_writes(fs, theme_writes(files, dir, n)).dom().contains(join_path(dir, layout_path(i))),
        apply_writes(fs, theme_writes(files, dir, n))[join_path(dir, layout_path(i))] == files[i],
{
    let ws = theme_writes(files, dir, n);
    lemma_layout_paths_distinct();
    assert forall|m: int| i < m < ws.len() implies ws[m].0 != ws[i].0 by {
        if ws[m].0 == ws[i].0 {
            lemma_join_injective(dir, layout_path(m), layout_path(i));
        }
    }
    lemma_apply_lookup(fs, ws, i);
    assert(ws[i] == (join_path(dir, layout_path(i)), files[i]));
}

/// Materializing a theme into a directory that does not exist yet leaves
/// each of the eight layout paths under it holding that file's bytes, so a
/// later load of the theme from that directory reads back exactly the files
/// that were written (and `Theme::new` then decides as it did before, its
/// outcome being a function of the files).
pub proof fn lemma_materialized_files_read_back(
    files: Seq<Seq<u8>>,
    dir: Seq<char>,
    fs: Map<Seq<char>, Seq<u8>>,
)
    requires
        files.len() == 8,
        !dir_exists(fs, dir),
    ensures
        forall|i: int|
            #![trigger layout_path(i)]
            0 <= i < 8 ==> apply_writes(
                fs,
                materialize_writes(files, dir, dir_exists(fs, dir)),
            ).dom().contains(join_path(dir, layout_path(i))) && apply_writes(
                fs,
                materialize_writes(files, dir, dir_exists(fs, dir)),
            )[join_path(dir, layout_path(i))] == files[i],
{
    assert forall|i: int|
        #![trigger layout_path(i)]
        0 <= i < 8 implies apply_writes(fs, theme_writes(files, dir, 8)).dom().contains(
        join_path(dir, layout_path(i)),
    ) && apply_writes(fs, theme_writes(files, dir, 8))[join_path(dir, layout_path(i))]
        == files[i] by {
        lemma_theme_writes_lookup(files, dir, 8, fs, i);
    }
}

/// Exporting the static assets twice: each run leaves every destination
/// holding the theme's bytes for it, whatever was there, and the second run
/// leaves the files exactly as the first did.
pub proof fn lemma_export_twice(files: Seq<Seq<u8>>, root: Seq<char>, fs: Map<Seq<char>, Seq<u8>>)
    requires
        files.len() == 8,
    ensures
        apply_writes(apply_writes(fs, export_writes(files, root)), export_writes(files, root))
            == apply_writes(fs, export_writes(files, root)),
        forall|i: int|
            #![trigger layout_path(i)]
            0 <= i < 4 ==> apply_writes(fs, export_writes(files, root)).dom().contains(
                join_path(root, layout_path(i)),
            ) && apply_writes(fs, export_writes(files, root))[join_path(root, layout_path(i))]
                == files[i],
{
    lemma_apply_writes_twice(fs, export_writes(files, root));
    assert forall|i: int|
        #![trigger layout_path(i)]
        0 <= i < 4 implies apply_writes(fs, export_writes(files, root)).dom().contains(
        join_path(root, layout_path(i)),
    ) && apply_writes(fs, export_writes(files, root))[join_path(root, layout_path(i))] == files[i] by {
        lemma_theme_writes_lookup(files, root, 4, fs, i);
    }
}

} // verus!
