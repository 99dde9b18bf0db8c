//! The built-in theme, `simple`, compiled into the library.

use vstd::prelude::*;

verus! {

pub const MAIN_CSS: &'static str = "body {\n  margin: 0 auto;\n  max-width: 46em;\n  padding: 1em;\n  font-family: sans-serif;\n  line-height: 1.6;\n  color: #222;\n}\n\nheader img {\n  height: 2em;\n  vertical-align: middle;\n}\n\na {\n  color: #0645ad;\n  text-decoration: none;\n}\n\n.tags a {\n  margin-right: 0.5em;\n}\n\npre {\n  overflow-x: auto;\n  padding: 0.5em;\n  background: #f6f8fa;\n}\n";

pub const MAIN_JS: &'static str = "document.addEventListener('DOMContentLoaded', function () {\n  var links = document.querySelectorAll('.post a[href^=\"http\"]');\n  for (var i = 0; i < links.length; i++) {\n    links[i].setAttribute('target', '_blank');\n  }\n});\n";

pub const BASE_TPL: &'static str = "<!DOCTYPE html>\n<html>\n<head>\n  <meta charset=\"utf-8\">\n  <title>{% block title %}{% endblock title %}</title>\n  <link rel=\"icon\" href=\"/static/favicon.png\">\n  <link rel=\"stylesheet\" href=\"/static/main.css\">\n</head>\n<body>\n  <header><a href=\"/index.html\"><img src=\"/static/logo.png\" alt=\"logo\"></a></header>\n  <main>{% block main %}{% endblock main %}</main>\n  <script src=\"/static/main.js\"></script>\n</body>\n</html>\n";

pub const INDEX_TPL: &'static str = "{% extends \"base.tpl\" %}\n{% block title %}Index{% endblock title %}\n{% block main %}\n<ul>\n{% for post in posts %}\n  <li><a href=\"{{ post.formatted_path }}\">{{ post.title }}</a>\n    <p>{{ post.headers.description }}</p></li>\n{% endfor %}\n</ul>\n{% endblock main %}\n";

pub const POST_TPL: &'static str = "{% extends \"base.tpl\" %}\n{% block title %}{{ post.title }}{% endblock title %}\n{% block main %}\n<article class=\"post\">\n  <h1>{{ post.title }}</h1>\n  <p class=\"tags\">{% for tag in post.headers.tags %}<a href=\"/blog/tags/{{ tag }}.html\">{{ tag }}</a>{% endfor %}</p>\n  {{ post.content | safe }}\n</article>\n{% endblock main %}\n";

pub const TAG_TPL: &'static str = "{% extends \"base.tpl\" %}\n{% block title %}{{ tag }}{% endblock title %}\n{% block main %}\n<h1>{{ tag }}</h1>\n<ul>\n{% for post in posts %}\n  <li><a href=\"{{ post.formatted_path }}\">{{ post.title }}</a></li>\n{% endfor %}\n</ul>\n{% endblock main %}\n";

/// A PNG image of one transparent pixel, the built-in favicon and logo.
pub open spec fn pixel_png() -> Seq<u8> {
    seq![
        0x89u8, 0x50, 0x4E, 0x47, 0x0D, 0x0A, 0x1A, 0x0A, 0x00, 0x00, 0x00, 0x0D, 0x49, 0x48,
        0x44, 0x52, 0x00, 0x00, 0x00, 0x01, 0x00, 0x00, 0x00, 0x01, 0x08, 0x06, 0x00, 0x00,
        0x00, 0x1F, 0x15, 0xC4, 0x89, 0x00, 0x00, 0x00, 0x0A, 0x49, 0x44, 0x41, 0x54, 0x78,
        0x9C, 0x63, 0x00, 0x01, 0x00, 0x00, 0x05, 0x00, 0x01, 0x0D, 0x0A, 0x2D, 0xB4, 0x00,
        0x00, 0x00, 0x00, 0x49, 0x45, 0x4E, 0x44, 0xAE, 0x42, 0x60, 0x82,
    ]
}

pub fn pixel_png_bytes() -> (r: Vec<u8>)
    ensures
        r@ == pixel_png(),
{
    let r = vec![
        0x89u8, 0x50, 0x4E, 0x47, 0x0D, 0x0A, 0x1A, 0x0A, 0x00, 0x00, 0x00, 0x0D, 0x49, 0x48,
        0x44, 0x52, 0x00, 0x00, 0x00, 0x01, 0x00, 0x00, 0x00, 0x01, 0x08, 0x06, 0x00, 0x00,
        0x00, 0x1F, 0x15, 0xC4, 0x89, 0x00, 0x00, 0x00, 0x0A, 0x49, 0x44, 0x41, 0x54, 0x78,
        0x9C, 0x63, 0x00, 0x01, 0x00, 0x00, 0x05, 0x00, 0x01, 0x0D, 0x0A, 0x2D, 0xB4, 0x00,
        0x00, 0x00, 0x00, 0x49, 0x45, 0x4E, 0x44, 0xAE, 0x42, 0x60, 0x82,
    ];
    assert(r@ =~= pixel_png());
    r
}

} // verus!
