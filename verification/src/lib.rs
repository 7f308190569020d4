//! A static blog compiler: it classifies source files as Markdown posts or
//! passthrough files, parses a post's front matter and body, renders posts
//! through a template engine with Markdown and list-joining formatters, and
//! accumulates a tag index from which per-tag pages and an "all tags" hub page
//! are generated.
use vstd::prelude::*;

pub mod blogfile;
pub mod compiler;
pub mod paths;
pub mod post;
pub mod render;

verus! {

/// The failures the compilation pipeline can report.  I/O failures are the
/// caller's business; everything here is about the content itself.
#[derive(Debug)]
pub enum BlogError {
    /// The front-matter delimiter line occurs zero times or more than once.
    MalformedPost,
    /// The metadata block does not decode: not valid TOML, a missing or empty
    /// `title`, or a field of the wrong type.  Carries a description of the
    /// underlying failure.
    InvalidFrontMatter(String),
    /// Template evaluation failed — the engine refused the template or a
    /// formatter was applied to a value shape it cannot handle; carries the
    /// engine's message.
    RenderError(String),
}

} // verus!
