use blag::BlogError;
use blag::compiler::PostCompiler;
use blag::post::Post;
use blag::render::{format_commasep, format_markdown};
use serde_json::Value;

fn str_value(s: &str) -> Value {
    Value::String(s.to_string())
}

#[test]
fn commasep_joins_strings() {
    let arr = Value::Array(vec![str_value("a"), str_value("b"), str_value("c")]);
    let mut out = String::new();
    format_commasep(&arr, &mut out).unwrap();
    assert_eq!(out, "a, b, c");
}

#[test]
fn commasep_rejects_non_sequences() {
    let mut out = String::new();
    assert!(format_commasep(&str_value("solo"), &mut out).is_err());
    assert_eq!(out, "");
    assert!(format_commasep(&Value::Bool(true), &mut out).is_err());
    assert_eq!(out, "");
}

#[test]
fn commasep_escapes_each_element() {
    let arr = Value::Array(vec![str_value("<a>"), str_value("b&c")]);
    let mut out = String::new();
    format_commasep(&arr, &mut out).unwrap();
    assert_eq!(out, "&lt;a&gt;, b&amp;c");
}

#[test]
fn commasep_rejects_composite_elements() {
    let arr = Value::Array(vec![str_value("a"), Value::Array(vec![])]);
    let mut out = String::new();
    assert!(format_commasep(&arr, &mut out).is_err());
    assert_eq!(out, "");
}

#[test]
fn markdown_formatter_expands_strings() {
    let mut out = String::new();
    format_markdown(&str_value("*hi*"), &mut out).unwrap();
    assert_eq!(out, "<p><em>hi</em></p>\n");
}

#[test]
fn markdown_formatter_escapes_per_markdown_rules() {
    let mut out = String::new();
    format_markdown(&str_value("a < b ::===::"), &mut out).unwrap();
    assert_eq!(out, "<p>a &lt; b ::===::</p>\n");
}

#[test]
fn markdown_formatter_prints_scalars_literally() {
    let mut out = String::new();
    format_markdown(&Value::Null, &mut out).unwrap();
    assert_eq!(out, "");
    format_markdown(&Value::Bool(true), &mut out).unwrap();
    assert_eq!(out, "true");
    format_markdown(&Value::from(3u64), &mut out).unwrap();
    assert_eq!(out, "true3");
}

#[test]
fn markdown_formatter_rejects_composites() {
    let mut out = String::new();
    assert!(format_markdown(&Value::Array(vec![]), &mut out).is_err());
    assert_eq!(out, "");
}

#[test]
fn malformed_template_fails_at_construction() {
    let e = PostCompiler::new("{unclosed").unwrap_err();
    assert!(matches!(e, BlogError::RenderError(_)));
}

#[test]
fn end_to_end_post_render() {
    let post = Post::read_from("title='A'\ntags=['x']\n::===::\nHello").unwrap();
    let mut compiler = PostCompiler::new("<h1>{front.title}</h1>{md_content|markdown}").unwrap();
    let html = compiler.parse_post(post, Some("a.html".to_string())).unwrap();
    assert_eq!(html, "<h1>A</h1><p>Hello</p>\n");
}

#[test]
fn failed_render_leaves_the_index_alone() {
    let post = Post::read_from("title='A'\ntags=['x']\n::===::\nHello").unwrap();
    let mut compiler = PostCompiler::new("{front|markdown}").unwrap();
    let e = compiler.parse_post(post, Some("a.html".to_string())).unwrap_err();
    assert!(matches!(e, BlogError::RenderError(_)));
    assert_eq!(compiler.tags().len(), 0);
    assert_eq!(compiler.tagged_as("x").len(), 0);
}

#[test]
fn post_without_url_is_rendered_but_unlisted() {
    let post = Post::read_from("title='A'\ntags=['x']\n::===::\nHello").unwrap();
    let mut compiler = PostCompiler::new("{front.title}").unwrap();
    compiler.parse_post(post, None).unwrap();
    assert_eq!(compiler.tags().len(), 0);
    assert_eq!(compiler.tagged_as("x").len(), 0);
}

#[test]
fn tag_index_lists_posts_in_render_order() {
    let mut compiler = PostCompiler::new("{front.title}").unwrap();
    let one = Post::read_from("title='One'\ntags=['go']\n::===::\nfirst").unwrap();
    let two = Post::read_from("title='Two'\ntags=['go','rust']\n::===::\nsecond").unwrap();
    compiler.parse_post(one, Some("one.html".to_string())).unwrap();
    compiler.parse_post(two, Some("two.html".to_string())).unwrap();
    assert_eq!(compiler.tags(), &vec!["go".to_string(), "rust".to_string()]);
    let go = compiler.tagged_as("go");
    assert_eq!(go.len(), 2);
    assert_eq!(go[0].post().frontmatter().title(), "One");
    assert_eq!(go[0].path(), "one.html");
    assert_eq!(go[1].post().frontmatter().title(), "Two");
    assert_eq!(go[1].path(), "two.html");
    let rust = compiler.tagged_as("rust");
    assert_eq!(rust.len(), 1);
    assert_eq!(rust[0].post().frontmatter().title(), "Two");
}

#[test]
fn duplicate_tags_are_listed_once() {
    let mut compiler = PostCompiler::new("{front.title}").unwrap();
    let one = Post::read_from("title='One'\ntags=['go','go']\n::===::\na").unwrap();
    let two = Post::read_from("title='Two'\ntags=['go']\n::===::\nb").unwrap();
    compiler.parse_post(one, Some("one.html".to_string())).unwrap();
    compiler.parse_post(two, Some("two.html".to_string())).unwrap();
    assert_eq!(compiler.tags(), &vec!["go".to_string()]);
}

#[test]
fn tag_pages_render_one_file_per_tag_and_a_hub() {
    let mut compiler = PostCompiler::new("{front.title}").unwrap();
    let one = Post::read_from("title='One'\ntags=['go']\n::===::\na").unwrap();
    let two = Post::read_from("title='Two'\ntags=['go','rust']\n::===::\nb").unwrap();
    compiler.parse_post(one, Some("one.html".to_string())).unwrap();
    compiler.parse_post(two, Some("two.html".to_string())).unwrap();
    let tpl = "{tag}|{{ for p in posts }}{p.post.front.title}@{p.path};{{ endfor }}";
    let pages = compiler.emit_tag_pages(Some(tpl), None, "tags").unwrap();
    assert_eq!(pages.len(), 3);
    assert_eq!(pages[0].0, "go.html");
    assert_eq!(pages[0].1, "go|One@one.html;Two@two.html;");
    assert_eq!(pages[1].0, "rust.html");
    assert_eq!(pages[1].1, "rust|Two@two.html;");
    assert_eq!(pages[2].0, "all.html");
    assert_eq!(pages[2].1, "all|go@tags/go;rust@tags/rust;");
}

#[test]
fn hub_template_overrides_tag_template() {
    let mut compiler = PostCompiler::new("{front.title}").unwrap();
    let one = Post::read_from("title='One'\ntags=['go']\n::===::\na").unwrap();
    compiler.parse_post(one, Some("one.html".to_string())).unwrap();
    let pages = compiler
        .emit_tag_pages(Some("{tag}"), Some("hub:{tag}"), "tags")
        .unwrap();
    assert_eq!(pages.len(), 2);
    assert_eq!(pages[0].1, "go");
    assert_eq!(pages[1].1, "hub:all");
}

#[test]
fn no_tag_template_means_no_pages() {
    let compiler = PostCompiler::new("{front.title}").unwrap();
    let pages = compiler.emit_tag_pages(None, None, "tags").unwrap();
    assert!(pages.is_empty());
}

#[test]
fn subtitle_renders_through_context() {
    let post = Post::read_from("title='A'\nsubtitle='S'\n::===::\nb").unwrap();
    let mut compiler = PostCompiler::new("{front.subtitle}").unwrap();
    let html = compiler.parse_post(post, None).unwrap();
    assert_eq!(html, "S");
}

#[test]
fn tags_render_through_commasep() {
    let post = Post::read_from("title='A'\ntags=['x','y']\n::===::\nb").unwrap();
    let mut compiler = PostCompiler::new("{front.tags|commasep}").unwrap();
    let html = compiler.parse_post(post, None).unwrap();
    assert_eq!(html, "x, y");
}
