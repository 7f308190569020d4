use blag::blogfile::BlogFile;
use blag::paths::{FilePath, is_hidden, is_post_path, relocate};

fn path(parts: &[&str]) -> FilePath {
    FilePath { parts: parts.iter().map(|p| p.to_string()).collect() }
}

fn parts(p: &FilePath) -> Vec<String> {
    p.parts.clone()
}

#[test]
fn file_under_output_root_is_excluded() {
    let src = path(&["home", "in"]);
    let out = path(&["home", "in", "out"]);
    let file = path(&["home", "in", "out", "stale.md"]);
    let r = relocate(&src, &file, &out, &Vec::new(), true);
    assert!(r.is_none());
}

#[test]
fn ignored_file_is_excluded_despite_post_extension() {
    let src = path(&["home", "in"]);
    let out = path(&["home", "out"]);
    let file = path(&["home", "in", "post.md"]);
    let ignored = vec![path(&["home", "in", "post.md"])];
    let r = relocate(&src, &file, &out, &ignored, true);
    assert!(r.is_none());
}

#[test]
fn hidden_file_is_excluded_by_default_policy() {
    let src = path(&["home", "in"]);
    let out = path(&["home", "out"]);
    let file = path(&["home", "in", ".drafts", "post.md"]);
    assert!(relocate(&src, &file, &out, &Vec::new(), false).is_none());
    let r = relocate(&src, &file, &out, &Vec::new(), true).unwrap();
    assert_eq!(parts(&r), vec!["home", "out", ".drafts", "post.md"]);
}

#[test]
fn relocation_replaces_source_prefix() {
    let src = path(&["home", "in"]);
    let out = path(&["srv", "www"]);
    let file = path(&["home", "in", "sub", "a.txt"]);
    let r = relocate(&src, &file, &out, &Vec::new(), true).unwrap();
    assert_eq!(parts(&r), vec!["srv", "www", "sub", "a.txt"]);
}

#[test]
fn relocation_drops_dot_components() {
    let src = path(&["in"]);
    let out = path(&["out"]);
    let file = path(&["in", "..", ".", "a.txt"]);
    let r = relocate(&src, &file, &out, &Vec::new(), true).unwrap();
    assert_eq!(parts(&r), vec!["out", "a.txt"]);
}

#[test]
fn markdown_extensions_classify_as_posts() {
    assert!(is_post_path(&path(&["a.md"])));
    assert!(is_post_path(&path(&["dir", "b.markdown"])));
    assert!(is_post_path(&path(&["c.tar.md"])));
}

#[test]
fn extension_match_is_case_sensitive() {
    assert!(!is_post_path(&path(&["a.MD"])));
    assert!(!is_post_path(&path(&["a.Markdown"])));
}

#[test]
fn dotfile_has_no_extension() {
    assert!(!is_post_path(&path(&[".md"])));
    assert!(!is_post_path(&path(&["dir", ".markdown"])));
}

#[test]
fn other_extensions_pass_through() {
    assert!(!is_post_path(&path(&["a.txt"])));
    assert!(!is_post_path(&path(&["noext"])));
}

#[test]
fn hidden_components_are_detected() {
    assert!(is_hidden(&path(&[".git", "config"])));
    assert!(is_hidden(&path(&["sub", ".hidden.md"])));
    assert!(!is_hidden(&path(&["sub", "plain.md"])));
}

#[test]
fn classification_keeps_other_files_unparsed() {
    let f = BlogFile::try_from(path(&["in", "raw.bin"]), "not inspected").unwrap();
    match f {
        BlogFile::Other(p) => assert_eq!(parts(&p), vec!["in", "raw.bin"]),
        BlogFile::Post(_, _) => panic!("a non-Markdown file must pass through"),
    }
}

#[test]
fn classification_parses_posts_all_or_nothing() {
    let e = BlogFile::try_from(path(&["in", "bad.md"]), "no delimiter").unwrap_err();
    assert!(matches!(e, blag::BlogError::MalformedPost));
    let f = BlogFile::try_from(path(&["in", "good.md"]), "title = 'T'\n::===::\nhi").unwrap();
    match f {
        BlogFile::Post(p, post) => {
            assert_eq!(parts(&p), vec!["in", "good.md"]);
            assert_eq!(post.frontmatter().title(), "T");
        },
        BlogFile::Other(_) => panic!("a Markdown file must be parsed"),
    }
}

#[test]
fn moved_post_gets_html_extension() {
    let src = path(&["in"]);
    let out = path(&["out"]);
    let f = BlogFile::try_from(path(&["in", "sub", "a.md"]), "title = 'T'\n::===::\nhi").unwrap();
    match f.simulate_move(&src, &out) {
        BlogFile::Post(p, _) => assert_eq!(parts(&p), vec!["out", "sub", "a.html"]),
        BlogFile::Other(_) => panic!("the variant must be kept"),
    }
}

#[test]
fn moved_other_keeps_its_name() {
    let src = path(&["in"]);
    let out = path(&["out"]);
    let f = BlogFile::try_from(path(&["in", "style.css"]), "").unwrap();
    match f.simulate_move(&src, &out) {
        BlogFile::Other(p) => assert_eq!(parts(&p), vec!["out", "style.css"]),
        BlogFile::Post(_, _) => panic!("the variant must be kept"),
    }
}

#[test]
fn move_with_empty_remainder_stays_in_output_root() {
    let src = path(&["in"]);
    let out = path(&["out"]);
    let f = BlogFile::try_from(path(&["in"]), "").unwrap();
    match f.simulate_move(&src, &out) {
        BlogFile::Other(p) => assert_eq!(parts(&p), vec!["out"]),
        BlogFile::Post(_, _) => panic!("a path with no extension must pass through"),
    }
}
