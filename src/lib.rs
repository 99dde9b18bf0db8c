//! Content and theme handling for a static blog generator: post files are
//! split into a metadata head and a Markdown body, and themes bundle the
//! page templates and static assets that pages are rendered with.

pub mod text;
pub mod paths;
pub mod post;
pub mod simple;
pub mod theme;
