use blag::BlogError;
use blag::post::{Post, split_front_matter};

#[test]
fn from_valid_content() {
    let input = r#"title = 'Test Post Please Ignore'
subtitle = 'for real, ignore it this time'
tags = ['what', 'are', 'you', 'doing']
date = 2020-05-16 21:38:05+00:00
::===::
This is a post!"#;
    let post = Post::read_from(input).unwrap();
    assert_eq!(
        post.frontmatter().title(),
        &String::from("Test Post Please Ignore")
    );
    assert_eq!(post.md_content(), &String::from("This is a post!"));
    assert_eq!(post.frontmatter().tags().len(), 4);
}

#[test]
fn split_round_trip() {
    let text = "title = 'A'\n::===::\nbody text\nwith lines";
    let (front, body) = split_front_matter(text).unwrap();
    assert_eq!(front, "title = 'A'\n");
    assert_eq!(body, "body text\nwith lines");
    let rejoined = format!("{}::===::\n{}", front, body);
    assert_eq!(rejoined, text);
}

#[test]
fn split_fails_without_delimiter() {
    let e = split_front_matter("title = 'A'\nno delimiter here").unwrap_err();
    assert!(matches!(e, BlogError::MalformedPost));
}

#[test]
fn split_fails_with_two_delimiters() {
    let text = "title = 'A'\n::===::\nbody\n::===::\nmore";
    let e = split_front_matter(text).unwrap_err();
    assert!(matches!(e, BlogError::MalformedPost));
}

#[test]
fn read_from_reports_malformed_post() {
    let e = Post::read_from("just some text").unwrap_err();
    assert!(matches!(e, BlogError::MalformedPost));
}

#[test]
fn missing_title_is_invalid() {
    let e = Post::read_from("tags = ['a']\n::===::\nbody").unwrap_err();
    assert!(matches!(e, BlogError::InvalidFrontMatter(_)));
}

#[test]
fn empty_title_is_invalid() {
    let e = Post::read_from("title = ''\n::===::\nbody").unwrap_err();
    assert!(matches!(e, BlogError::InvalidFrontMatter(_)));
}

#[test]
fn non_string_title_is_invalid() {
    let e = Post::read_from("title = 3\n::===::\nbody").unwrap_err();
    assert!(matches!(e, BlogError::InvalidFrontMatter(_)));
}

#[test]
fn absent_tags_default_to_empty() {
    let post = Post::read_from("title = 'T'\n::===::\nbody").unwrap();
    assert_eq!(post.frontmatter().tags().len(), 0);
}

#[test]
fn empty_tags_stay_empty() {
    let post = Post::read_from("title = 'T'\ntags = []\n::===::\nbody").unwrap();
    assert_eq!(post.frontmatter().tags().len(), 0);
}

#[test]
fn non_array_tags_are_invalid() {
    let e = Post::read_from("title = 'T'\ntags = 'solo'\n::===::\nbody").unwrap_err();
    assert!(matches!(e, BlogError::InvalidFrontMatter(_)));
}

#[test]
fn non_string_tag_element_is_invalid() {
    let e = Post::read_from("title = 'T'\ntags = ['a', 3]\n::===::\nbody").unwrap_err();
    assert!(matches!(e, BlogError::InvalidFrontMatter(_)));
}

#[test]
fn unparsable_front_matter_is_invalid() {
    let e = Post::read_from("this is == not toml\n::===::\nbody").unwrap_err();
    assert!(matches!(e, BlogError::InvalidFrontMatter(_)));
}

#[test]
fn optional_fields_are_kept() {
    let text = "title = 'T'\nsubtitle = 'S'\ndescription = 'D'\ndate = 2020-05-16 21:38:05+00:00\n::===::\nbody";
    let post = Post::read_from(text).unwrap();
    let front = post.frontmatter();
    assert_eq!(front.subtitle().as_deref(), Some("S"));
    assert_eq!(front.description().as_deref(), Some("D"));
    assert!(front.date().is_some());
}

#[test]
fn absent_optional_fields_are_none() {
    let post = Post::read_from("title = 'T'\n::===::\nbody").unwrap();
    let front = post.frontmatter();
    assert!(front.subtitle().is_none());
    assert!(front.description().is_none());
    assert!(front.date().is_none());
}

#[test]
fn wrong_type_date_is_invalid() {
    let e = Post::read_from("title = 'T'\ndate = 'yesterday'\n::===::\nbody").unwrap_err();
    assert!(matches!(e, BlogError::InvalidFrontMatter(_)));
}

#[test]
fn body_is_taken_verbatim() {
    let post = Post::read_from("title = 'T'\n::===::\n  spaced\n").unwrap();
    assert_eq!(post.md_content(), "  spaced\n");
}

#[test]
fn delimiter_at_start_leaves_empty_front_matter() {
    // An empty metadata block is a valid TOML table with no title.
    let e = Post::read_from("::===::\nbody").unwrap_err();
    assert!(matches!(e, BlogError::InvalidFrontMatter(_)));
}

#[test]
fn delimiter_needs_its_newline() {
    let e = Post::read_from("title = 'T'\n::===::").unwrap_err();
    assert!(matches!(e, BlogError::MalformedPost));
}

#[test]
fn empty_text_is_malformed() {
    let e = Post::read_from("").unwrap_err();
    assert!(matches!(e, BlogError::MalformedPost));
}
