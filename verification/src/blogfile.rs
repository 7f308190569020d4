//! Classified source files: each is either a Markdown post to render or a
//! passthrough file to copy untouched.
use vstd::prelude::*;

use crate::BlogError;
use crate::paths::{FilePath, dest_spec, is_prefix, post_path_spec, with_ext_spec};
use crate::post::{Post, delim, fm_body, fm_front, front_of, front_ok, occurrences, toml_items_of};

verus! {

/// The extension every rendered post gets, whatever Markdown extension its
/// source carried.
pub open spec fn html_ext() -> Seq<char> {
    seq!['h', 't', 'm', 'l']
}

/// Whether `text` parses as a post: one delimiter occurrence, a metadata
/// prefix that is a TOML table, and well-shaped fields.
pub open spec fn parse_result_ok(text: Seq<char>) -> bool {
    occurrences(text, delim()) == 1 && match toml_items_of(fm_front(text)) {
        Some(items) => front_ok(items),
        None => false,
    }
}

/// The error a failed parse of `text` reports.
pub open spec fn parse_error_matches(text: Seq<char>, e: BlogError) -> bool {
    if occurrences(text, delim()) != 1 {
        e is MalformedPost
    } else {
        e is InvalidFrontMatter
    }
}

/// The front matter a successful parse of `text` yields.
pub open spec fn parsed_front(text: Seq<char>) -> crate::post::FrontMatterView {
    match toml_items_of(fm_front(text)) {
        Some(items) => front_of(items),
        None => front_of(Seq::empty()),
    }
}

/// The destination of a post: the relocated path with its extension rewritten
/// to the rendered one.  The rewrite touches only the relative remainder:
/// where the remainder sanitizes away entirely, the output root itself is the
/// destination and is left untouched, so a destination always stays inside
/// the output root.
pub open spec fn post_dest_spec(
    src_root: Seq<Seq<char>>,
    p: Seq<Seq<char>>,
    out: Seq<Seq<char>>,
) -> Seq<Seq<char>> {
    let d = dest_spec(src_root, p, out);
    if d.len() > out.len() {
        d.update(d.len() - 1, with_ext_spec(d.last(), html_ext()))
    } else {
        d
    }
}

/// One source file, classified but not yet materialized to output.  A `Post`
/// holds its parsed content; an `Other` is identified by its path alone and
/// is copied byte for byte by the caller.
#[derive(Debug)]
pub enum BlogFile {
    Post(FilePath, Post),
    Other(FilePath),
}

impl BlogFile {
    /// The path the file currently stands at.
    pub open spec fn path_view(&self) -> Seq<Seq<char>> {
        match self {
            BlogFile::Post(p, _) => p@,
            BlogFile::Other(p) => p@,
        }
    }

    /// Classifies the file at `path`, whose full text is `text`.  A path with
    /// a recognized Markdown extension is parsed as a post — all or nothing;
    /// any other file passes through with its text never inspected.
    pub fn try_from(path: FilePath, text: &str) -> (r: Result<BlogFile, BlogError>)
        ensures
            r is Ok <==> (!post_path_spec(path@) || parse_result_ok(text@)),
            match r {
                Ok(BlogFile::Other(p)) => !post_path_spec(path@) && p@ == path@,
                Ok(BlogFile::Post(p, post)) => {
                    &&& post_path_spec(path@)
                    &&& p@ == path@
                    &&& post@.front == parsed_front(text@)
                    &&& post@.md_content == fm_body(text@)
                },
                Err(e) => post_path_spec(path@) && parse_error_matches(text@, e),
            },
    {
        if crate::paths::is_post_path(&path) {
            match Post::read_from(text) {
                Ok(post) => Ok(BlogFile::Post(path, post)),
                Err(e) => Err(e),
            }
        } else {
            Ok(BlogFile::Other(path))
        }
    }

    /// Recomputes the file's path under `out_dir`: the source-root prefix is
    /// replaced by the output directory, stray `.` and `..` components are
    /// dropped, and a post's extension becomes the rendered one.  The content
    /// travels unchanged, and the destination always lies inside the output
    /// directory.
    pub fn simulate_move(self, src_root: &FilePath, out_dir: &FilePath) -> (r: BlogFile)
        requires
            is_prefix(src_root@, self.path_view()),
        ensures
            match self {
                BlogFile::Post(p, post) => (r matches BlogFile::Post(q, moved) && q@
                    == post_dest_spec(src_root@, p@, out_dir@) && moved == post),
                BlogFile::Other(p) => (r matches BlogFile::Other(q) && q@ == dest_spec(
                    src_root@,
                    p@,
                    out_dir@,
                )),
            },
            is_prefix(out_dir@, r.path_view()),
    {
        match self {
            BlogFile::Post(path, post) => {
                let rel = match path.strip_prefix(src_root) {
                    Some(rel) => rel,
                    None => {
                        proof {
                            assert(false);
                        }
                        FilePath { parts: Vec::new() }
                    },
                };
                let dest = out_dir.join(&rel.sanitize());
                let dest = if dest.parts.len() > out_dir.parts.len() {
                    proof {
                        assert(dest@.len() == dest.parts@.len());
                        assert(out_dir@.len() == out_dir.parts@.len());
                        reveal_strlit("html");
                        assert("html"@ =~= html_ext());
                    }
                    let moved = dest.with_extension("html");
                    proof {
                        assert forall|i: int| 0 <= i < out_dir@.len() implies moved@[i]
                            == out_dir@[i] by {
                            assert(moved@[i] == dest@[i]);
                        }
                    }
                    moved
                } else {
                    dest
                };
                BlogFile::Post(dest, post)
            },
            BlogFile::Other(path) => {
                let rel = match path.strip_prefix(src_root) {
                    Some(rel) => rel,
                    None => {
                        proof {
                            assert(false);
                        }
                        FilePath { parts: Vec::new() }
                    },
                };
                BlogFile::Other(out_dir.join(&rel.sanitize()))
            },
        }
    }
}

} // verus!
