//! Posts and their front matter: the delimiter split of a post's text, the
//! decoding of the metadata block, and the `Post` type itself.
use vstd::prelude::*;
use vstd::string::*;

use crate::BlogError;
use crate::paths::str_eq;

verus! {

/// The literal line that separates the metadata block from the Markdown body.
pub open spec fn delim() -> Seq<char> {
    seq![':', ':', '=', '=', '=', ':', ':', '\n']
}

/// `pat` occurs in `text` starting at position `i`.
pub open spec fn match_at(text: Seq<char>, pat: Seq<char>, i: int) -> bool {
    0 <= i && i + pat.len() <= text.len() && text.subrange(i, i + pat.len()) == pat
}

/// How many positions strictly below `n` start an occurrence of `pat`.
pub open spec fn occ_upto(text: Seq<char>, pat: Seq<char>, n: int) -> nat
    decreases n,
{
    if n <= 0 {
        0
    } else {
        occ_upto(text, pat, n - 1) + (if match_at(text, pat, n - 1) {
            1nat
        } else {
            0nat
        })
    }
}

/// How many positions of `text` start an occurrence of `pat`.
pub open spec fn occurrences(text: Seq<char>, pat: Seq<char>) -> nat {
    occ_upto(text, pat, text.len() - pat.len() + 1)
}

proof fn lemma_occ_upto_bound(text: Seq<char>, pat: Seq<char>, n: int)
    ensures
        occ_upto(text, pat, n) <= (if n <= 0 {
            0int
        } else {
            n
        }),
    decreases n,
{
    if n > 0 {
        lemma_occ_upto_bound(text, pat, n - 1);
    }
}

proof fn lemma_match_before(text: Seq<char>, pat: Seq<char>, i: int, n: int)
    requires
        match_at(text, pat, i),
        i < n,
    ensures
        occ_upto(text, pat, n) >= 1,
    decreases n,
{
    if i < n - 1 {
        lemma_match_before(text, pat, i, n - 1);
    }
}

proof fn lemma_no_match_upto(text: Seq<char>, pat: Seq<char>, n: int)
    requires
        forall|k: int| 0 <= k < n ==> !match_at(text, pat, k),
    ensures
        occ_upto(text, pat, n) == 0,
    decreases n,
{
    if n > 0 {
        lemma_no_match_upto(text, pat, n - 1);
    }
}

proof fn lemma_first_match_unique(text: Seq<char>, pat: Seq<char>, i: int, j: int)
    requires
        match_at(text, pat, i),
        occ_upto(text, pat, i) == 0,
        match_at(text, pat, j),
        occ_upto(text, pat, j) == 0,
    ensures
        i == j,
{
    if i < j {
        lemma_match_before(text, pat, i, j);
    }
    if j < i {
        lemma_match_before(text, pat, j, i);
    }
}

fn match_at_exec(text: &str, pat: &str, i: usize, text_len: usize, pat_len: usize) -> (b: bool)
    requires
        text_len == text@.len(),
        pat_len == pat@.len(),
        i + pat_len <= text_len,
    ensures
        b == match_at(text@, pat@, i as int),
{
    let mut j: usize = 0;
    while j < pat_len
        invariant
            j <= pat_len,
            i + pat_len <= text_len,
            text_len == text@.len(),
            pat_len == pat@.len(),
            forall|k: int| 0 <= k < j ==> text@[i + k] == pat@[k],
        decreases pat_len - j,
    {
        let tc = text.get_char(i + j);
        let pc = pat.get_char(j);
        if tc != pc {
            proof {
                assert(text@.subrange(i as int, i + pat@.len())[j as int] == text@[i + j]);
            }
            return false;
        }
        j = j + 1;
    }
    proof {
        assert(text@.subrange(i as int, i + pat@.len()) =~= pat@);
    }
    true
}

/// The position of the first occurrence of `pat` in `text`, if any, together
/// with how many occurrences there are in all.
fn find_and_count(text: &str, pat: &str) -> (r: (Option<usize>, usize))
    requires
        pat@.len() > 0,
    ensures
        r.1 == occurrences(text@, pat@),
        match r.0 {
            Some(i) => match_at(text@, pat@, i as int) && occ_upto(text@, pat@, i as int) == 0,
            None => occurrences(text@, pat@) == 0,
        },
{
    let text_len = text.unicode_len();
    let pat_len = pat.unicode_len();
    if pat_len > text_len {
        return (None, 0);
    }
    let bound = text_len - pat_len + 1;
    let mut first: Option<usize> = None;
    let mut count: usize = 0;
    let mut i: usize = 0;
    while i < bound
        invariant
            i <= bound,
            bound == text_len - pat_len + 1,
            text_len == text@.len(),
            pat_len == pat@.len(),
            1 <= pat_len <= text_len,
            count == occ_upto(text@, pat@, i as int),
            match first {
                Some(f) => f < i && match_at(text@, pat@, f as int) && occ_upto(
                    text@,
                    pat@,
                    f as int,
                ) == 0,
                None => count == 0,
            },
        decreases bound - i,
    {
        if match_at_exec(text, pat, i, text_len, pat_len) {
            if first.is_none() {
                first = Some(i);
            }
            proof {
                lemma_occ_upto_bound(text@, pat@, i as int);
            }
            count = count + 1;
        }
        i = i + 1;
    }
    (first, count)
}

/// The position where the single delimiter occurrence starts; meaningful only
/// when `text` holds at least one occurrence.
pub open spec fn first_split(text: Seq<char>) -> int {
    choose|i: int| match_at(text, delim(), i) && occ_upto(text, delim(), i) == 0
}

/// The metadata segment: everything before the single delimiter occurrence.
pub open spec fn fm_front(text: Seq<char>) -> Seq<char> {
    text.subrange(0, first_split(text))
}

/// The body segment: everything after the single delimiter occurrence.
pub open spec fn fm_body(text: Seq<char>) -> Seq<char> {
    text.subrange(first_split(text) + delim().len(), text.len() as int)
}

/// Splits a post's text on the front-matter delimiter line.  The text must
/// hold the delimiter exactly once: a text with no occurrence and one with
/// several are both malformed.  On success, the metadata prefix and body
/// suffix are returned whole, so that rejoining them around the delimiter
/// reproduces the input exactly.
pub fn split_front_matter(text: &str) -> (r: Result<(String, String), BlogError>)
    ensures
        r is Ok <==> occurrences(text@, delim()) == 1,
        match r {
            Ok((f, b)) => {
                &&& text@ == f@ + delim() + b@
                &&& occurrences(f@, delim()) == 0
                &&& f@ == fm_front(text@)
                &&& b@ == fm_body(text@)
            },
            Err(e) => e is MalformedPost,
        },
{
    proof {
        reveal_strlit("::===::\n");
        assert("::===::\n"@ =~= delim());
    }
    let (first, count) = find_and_count(text, "::===::\n");
    if count != 1 {
        return Err(BlogError::MalformedPost);
    }
    let i = match first {
        Some(i) => i,
        None => {
            proof {
                assert(false);
            }
            0
        },
    };
    let len = text.unicode_len();
    let f = text.substring_char(0, i).to_owned();
    let b = text.substring_char(i + 8, len).to_owned();
    proof {
        let t = text@;
        let d = delim();
        // The found position is the unique first occurrence the spec names.
        assert(exists|k: int| match_at(t, d, k) && occ_upto(t, d, k) == 0) by {
            assert(match_at(t, d, i as int) && occ_upto(t, d, i as int) == 0);
        }
        lemma_first_match_unique(t, d, first_split(t), i as int);
        // Rejoining the two segments around the delimiter restores the text.
        assert(t == f@ + d + b@) by {
            assert(t.subrange(i as int, i + 8) == d);
            assert(t =~= t.subrange(0, i as int) + t.subrange(i as int, i + 8) + t.subrange(
                i + 8,
                t.len() as int,
            ));
        }
        // The metadata prefix holds no further occurrence.
        assert(occurrences(f@, d) == 0) by {
            assert(forall|k: int| 0 <= k < i ==> !match_at(t, d, k)) by {
                assert forall|k: int| 0 <= k < i implies !match_at(t, d, k) by {
                    if match_at(t, d, k) {
                        lemma_match_before(t, d, k, i as int);
                    }
                }
            }
            assert(f@ == t.subrange(0, i as int));
            assert forall|k: int| 0 <= k < f@.len() - d.len() + 1 implies !match_at(f@, d, k) by {
                if match_at(f@, d, k) {
                    assert(f@.subrange(k, k + d.len()) =~= t.subrange(k, k + d.len()));
                    assert(match_at(t, d, k));
                    lemma_match_before(t, d, k, i as int);
                }
            }
            lemma_no_match_upto(f@, d, f@.len() - d.len() + 1);
        }
    }
    Ok((f, b))
}

/// One entry of a decoded metadata table, reduced to the shapes the front
/// matter cares about.  A list keeps a slot per element so that the decoder,
/// not the decoding call, judges whether every element is a string.
pub enum TomlItem {
    /// A string value.
    Str(String),
    /// An array; string elements are `Some`, any other element is `None`.
    List(Vec<Option<String>>),
    /// A datetime value, carried in its textual form.
    Datetime(String),
    /// A value of any other type.
    Other,
}

/// The mathematical shape of a `TomlItem`.
pub enum TomlItemView {
    Str(Seq<char>),
    List(Seq<Option<Seq<char>>>),
    Datetime(Seq<char>),
    Other,
}

impl View for TomlItem {
    type V = TomlItemView;

    open spec fn view(&self) -> TomlItemView {
        match self {
            TomlItem::Str(s) => TomlItemView::Str(s@),
            TomlItem::List(l) => TomlItemView::List(l.deep_view()),
            TomlItem::Datetime(d) => TomlItemView::Datetime(d@),
            TomlItem::Other => TomlItemView::Other,
        }
    }
}

/// The entries of a metadata table, by key, in the table's own order.
pub open spec fn items_view(items: Seq<(String, TomlItem)>) -> Seq<(Seq<char>, TomlItemView)> {
    items.map_values(|p: (String, TomlItem)| (p.0@, p.1@))
}

/// What the TOML parser yields for a metadata block: `None` where the text is
/// not a well-formed TOML table, otherwise its entries.  The parse is a
/// function of the text alone.
pub uninterp spec fn toml_items_of(s: Seq<char>) -> Option<Seq<(Seq<char>, TomlItemView)>>;

/// Relies on `toml::from_str` to parse the metadata block as a TOML table,
/// whose entries (iterated in the table's deterministic key order) are carried
/// over one to one: strings, arrays (element by element, non-strings left
/// unresolved), and datetimes in their textual form.  On a parse failure the
/// error's message is returned.
#[verifier::external_body]
fn toml_parse_items(s: &str) -> (r: Result<Vec<(String, TomlItem)>, String>)
    ensures
        match r {
            Ok(items) => toml_items_of(s@) == Some(items_view(items@)),
            Err(_) => toml_items_of(s@) is None,
        },
{
    let table: toml::Table = match toml::from_str(s) {
        Ok(t) => t,
        Err(e) => return Err(e.to_string()),
    };
    Ok(table.into_iter().map(|(k, v)| (k, match v {
        toml::Value::String(x) => TomlItem::Str(x),
        toml::Value::Array(a) => TomlItem::List(a.into_iter().map(|e| match e {
            toml::Value::String(x) => Some(x),
            _ => None,
        }).collect()),
        toml::Value::Datetime(d) => TomlItem::Datetime(d.to_string()),
        _ => TomlItem::Other,
    })).collect())
}

/// The value under `key`, taking the first entry that carries it.
pub open spec fn lookup(items: Seq<(Seq<char>, TomlItemView)>, key: Seq<char>) -> Option<
    TomlItemView,
>
    decreases items.len(),
{
    if items.len() == 0 {
        None
    } else if items[0].0 == key {
        Some(items[0].1)
    } else {
        lookup(items.drop_first(), key)
    }
}

proof fn lemma_lookup_skip(items: Seq<(Seq<char>, TomlItemView)>, key: Seq<char>, i: int)
    requires
        0 <= i <= items.len(),
        forall|j: int| 0 <= j < i ==> items[j].0 != key,
    ensures
        lookup(items, key) == lookup(items.skip(i), key),
    decreases i,
{
    if i > 0 {
        assert(items.skip(0) =~= items);
        lemma_lookup_skip(items.drop_first(), key, i - 1);
        assert(items.drop_first().skip(i - 1) =~= items.skip(i));
    } else {
        assert(items.skip(0) =~= items);
    }
}

fn find_key<'a>(items: &'a Vec<(String, TomlItem)>, key: &str) -> (r: Option<&'a TomlItem>)
    ensures
        match r {
            Some(it) => lookup(items_view(items@), key@) == Some(it@),
            None => lookup(items_view(items@), key@) is None,
        },
{
    let ghost iv = items_view(items@);
    proof {
        assert(iv.len() == items@.len());
    }
    let mut i: usize = 0;
    while i < items.len()
        invariant
            i <= items.len(),
            iv == items_view(items@),
            iv.len() == items@.len(),
            forall|j: int| 0 <= j < i ==> iv[j].0 != key@,
        decreases items.len() - i,
    {
        proof {
            assert(iv[i as int] == (items@[i as int].0@, items@[i as int].1@));
        }
        if str_eq(items[i].0.as_str(), key) {
            proof {
                lemma_lookup_skip(iv, key@, i as int);
                assert(iv.skip(i as int)[0] == iv[i as int]);
                assert(iv.skip(i as int).len() > 0);
            }
            return Some(&items[i].1);
        }
        i = i + 1;
    }
    proof {
        lemma_lookup_skip(iv, key@, items@.len() as int);
        assert(iv.skip(items@.len() as int).len() == 0);
    }
    None
}

pub open spec fn title_key() -> Seq<char> {
    seq!['t', 'i', 't', 'l', 'e']
}

pub open spec fn tags_key() -> Seq<char> {
    seq!['t', 'a', 'g', 's']
}

pub open spec fn subtitle_key() -> Seq<char> {
    seq!['s', 'u', 'b', 't', 'i', 't', 'l', 'e']
}

pub open spec fn description_key() -> Seq<char> {
    seq!['d', 'e', 's', 'c', 'r', 'i', 'p', 't', 'i', 'o', 'n']
}

pub open spec fn date_key() -> Seq<char> {
    seq!['d', 'a', 't', 'e']
}

/// The `title` entry is a non-empty string.
pub open spec fn title_ok(items: Seq<(Seq<char>, TomlItemView)>) -> bool {
    match lookup(items, title_key()) {
        Some(TomlItemView::Str(t)) => t.len() > 0,
        _ => false,
    }
}

/// Every slot of a decoded array resolved to a string.
pub open spec fn all_strings(l: Seq<Option<Seq<char>>>) -> bool {
    forall|i: int| 0 <= i < l.len() ==> l[i] is Some
}

/// The `tags` entry, where present, is an array of strings.
pub open spec fn tags_ok(items: Seq<(Seq<char>, TomlItemView)>) -> bool {
    match lookup(items, tags_key()) {
        None => true,
        Some(TomlItemView::List(l)) => all_strings(l),
        Some(_) => false,
    }
}

/// The text of one decoded tag slot.
pub open spec fn tag_text(o: Option<Seq<char>>) -> Seq<char> {
    match o {
        Some(s) => s,
        None => Seq::empty(),
    }
}

/// The tag sequence: the `tags` entry's elements in order, or empty where the
/// entry is absent.
pub open spec fn tags_of(items: Seq<(Seq<char>, TomlItemView)>) -> Seq<Seq<char>> {
    match lookup(items, tags_key()) {
        Some(TomlItemView::List(l)) => l.map_values(|o: Option<Seq<char>>| tag_text(o)),
        _ => Seq::empty(),
    }
}

/// An optional entry that, where present, must be a string.
pub open spec fn opt_str_ok(items: Seq<(Seq<char>, TomlItemView)>, key: Seq<char>) -> bool {
    match lookup(items, key) {
        None => true,
        Some(TomlItemView::Str(_)) => true,
        Some(_) => false,
    }
}

pub open spec fn opt_str_of(items: Seq<(Seq<char>, TomlItemView)>, key: Seq<char>) -> Option<
    Seq<char>,
> {
    match lookup(items, key) {
        Some(TomlItemView::Str(s)) => Some(s),
        _ => None,
    }
}

/// The `date` entry, where present, must be a datetime.
pub open spec fn date_ok(items: Seq<(Seq<char>, TomlItemView)>) -> bool {
    match lookup(items, date_key()) {
        None => true,
        Some(TomlItemView::Datetime(_)) => true,
        Some(_) => false,
    }
}

pub open spec fn date_of(items: Seq<(Seq<char>, TomlItemView)>) -> Option<Seq<char>> {
    match lookup(items, date_key()) {
        Some(TomlItemView::Datetime(d)) => Some(d),
        _ => None,
    }
}

/// A metadata table decodes into front matter exactly when the `title` is a
/// non-empty string, `tags` (if present) is an array of strings, `subtitle`
/// and `description` (if present) are strings, and `date` (if present) is a
/// datetime.
pub open spec fn front_ok(items: Seq<(Seq<char>, TomlItemView)>) -> bool {
    &&& title_ok(items)
    &&& tags_ok(items)
    &&& opt_str_ok(items, subtitle_key())
    &&& opt_str_ok(items, description_key())
    &&& date_ok(items)
}

/// The front matter a well-typed metadata table decodes to.
pub open spec fn front_of(items: Seq<(Seq<char>, TomlItemView)>) -> FrontMatterView {
    FrontMatterView {
        title: match lookup(items, title_key()) {
            Some(TomlItemView::Str(t)) => t,
            _ => Seq::empty(),
        },
        tags: tags_of(items),
        subtitle: opt_str_of(items, subtitle_key()),
        description: opt_str_of(items, description_key()),
        date: date_of(items),
    }
}

/// A post's metadata: the required title, the tags in their written order
/// (duplicates kept), and the optional subtitle, description and date.  The
/// date is carried in its textual form.
#[derive(Debug)]
pub struct FrontMatter {
    title: String,
    tags: Vec<String>,
    subtitle: Option<String>,
    description: Option<String>,
    date: Option<String>,
}

/// The mathematical shape of a `FrontMatter`.
#[verifier::ext_equal]
pub struct FrontMatterView {
    pub title: Seq<char>,
    pub tags: Seq<Seq<char>>,
    pub subtitle: Option<Seq<char>>,
    pub description: Option<Seq<char>>,
    pub date: Option<Seq<char>>,
}

impl View for FrontMatter {
    type V = FrontMatterView;

    closed spec fn view(&self) -> FrontMatterView {
        FrontMatterView {
            title: self.title@,
            tags: self.tags.deep_view(),
            subtitle: self.subtitle.deep_view(),
            description: self.description.deep_view(),
            date: self.date.deep_view(),
        }
    }
}

impl FrontMatter {
    pub fn new(
        title: String,
        tags: Vec<String>,
        subtitle: Option<String>,
        description: Option<String>,
        date: Option<String>,
    ) -> (r: Self)
        ensures
            r@ == (FrontMatterView {
                title: title@,
                tags: tags.deep_view(),
                subtitle: subtitle.deep_view(),
                description: description.deep_view(),
                date: date.deep_view(),
            }),
    {
        Self { title, tags, subtitle, description, date }
    }

    pub fn title(&self) -> (r: &String)
        ensures
            r@ == self@.title,
    {
        &self.title
    }

    pub fn tags(&self) -> (r: &Vec<String>)
        ensures
            r.deep_view() == self@.tags,
    {
        &self.tags
    }

    pub fn subtitle(&self) -> (r: &Option<String>)
        ensures
            r.deep_view() == self@.subtitle,
    {
        &self.subtitle
    }

    pub fn description(&self) -> (r: &Option<String>)
        ensures
            r.deep_view() == self@.description,
    {
        &self.description
    }

    pub fn date(&self) -> (r: &Option<String>)
        ensures
            r.deep_view() == self@.date,
    {
        &self.date
    }
}

/// Decodes a parsed metadata table into front matter, judging each field's
/// presence and shape.
#[verifier::loop_isolation(false)]
pub fn decode_front(items: &Vec<(String, TomlItem)>) -> (r: Result<FrontMatter, BlogError>)
    ensures
        r is Ok <==> front_ok(items_view(items@)),
        match r {
            Ok(fm) => fm@ == front_of(items_view(items@)),
            Err(e) => e is InvalidFrontMatter,
        },
{
    let ghost iv = items_view(items@);
    proof {
        reveal_strlit("title");
        reveal_strlit("tags");
        reveal_strlit("subtitle");
        reveal_strlit("description");
        reveal_strlit("date");
        assert("title"@ =~= title_key());
        assert("tags"@ =~= tags_key());
        assert("subtitle"@ =~= subtitle_key());
        assert("description"@ =~= description_key());
        assert("date"@ =~= date_key());
    }
    let title: String;
    match find_key(items, "title") {
        Some(TomlItem::Str(t)) => {
            if t.as_str().unicode_len() == 0 {
                return Err(BlogError::InvalidFrontMatter(String::from_str("the title is empty")));
            }
            title = t.clone();
        },
        _ => {
            return Err(
                BlogError::InvalidFrontMatter(
                    String::from_str("the title is missing or is not a string"),
                ),
            );
        },
    }
    let mut tags: Vec<String> = Vec::new();
    match find_key(items, "tags") {
        Some(TomlItem::List(l)) => {
            let mut k: usize = 0;
            while k < l.len()
                invariant
                    k <= l.len(),
                    l.deep_view().len() == l@.len(),
                    forall|j: int| 0 <= j < k ==> l.deep_view()[j] is Some,
                    tags@.len() == k,
                    forall|j: int|
                        0 <= j < k ==> (#[trigger] l.deep_view()[j]) is Some && tags@[j]@
                            == tag_text(l.deep_view()[j]),
                decreases l.len() - k,
            {
                proof {
                    assert(l.deep_view()[k as int] == l@[k as int].deep_view());
                }
                match &l[k] {
                    Some(s) => tags.push(s.clone()),
                    None => {
                        proof {
                            assert(!all_strings(l.deep_view()));
                        }
                        return Err(
                            BlogError::InvalidFrontMatter(
                                String::from_str("a tag is not a string"),
                            ),
                        );
                    },
                }
                k = k + 1;
            }
            proof {
                assert(all_strings(l.deep_view()));
                assert(tags.deep_view() =~= tags_of(iv));
            }
        },
        None => {
            proof {
                assert(tags.deep_view() =~= tags_of(iv));
            }
        },
        Some(_) => {
            return Err(BlogError::InvalidFrontMatter(String::from_str("tags is not an array")));
        },
    }
    let subtitle: Option<String> = match find_key(items, "subtitle") {
        Some(TomlItem::Str(s)) => Some(s.clone()),
        None => None,
        Some(_) => {
            return Err(
                BlogError::InvalidFrontMatter(String::from_str("the subtitle is not a string")),
            );
        },
    };
    let description: Option<String> = match find_key(items, "description") {
        Some(TomlItem::Str(s)) => Some(s.clone()),
        None => None,
        Some(_) => {
            return Err(
                BlogError::InvalidFrontMatter(String::from_str("the description is not a string")),
            );
        },
    };
    let date: Option<String> = match find_key(items, "date") {
        Some(TomlItem::Datetime(d)) => Some(d.clone()),
        None => None,
        Some(_) => {
            return Err(
                BlogError::InvalidFrontMatter(String::from_str("the date is not a datetime")),
            );
        },
    };
    Ok(FrontMatter { title, tags, subtitle, description, date })
}

/// A Markdown content unit: its front matter and its raw body, exactly as the
/// delimiter split produced them.
#[derive(Debug)]
pub struct Post {
    front: FrontMatter,
    md_content: String,
}

/// The mathematical shape of a `Post`.
#[verifier::ext_equal]
pub struct PostView {
    pub front: FrontMatterView,
    pub md_content: Seq<char>,
}

impl View for Post {
    type V = PostView;

    closed spec fn view(&self) -> PostView {
        PostView { front: self.front@, md_content: self.md_content@ }
    }
}

impl Post {
    pub fn new(front: FrontMatter, md_content: String) -> (r: Self)
        ensures
            r@ == (PostView { front: front@, md_content: md_content@ }),
    {
        Self { front, md_content }
    }

    pub fn frontmatter(&self) -> (r: &FrontMatter)
        ensures
            r@ == self@.front,
    {
        &self.front
    }

    pub fn md_content(&self) -> (r: &String)
        ensures
            r@ == self@.md_content,
    {
        &self.md_content
    }

    /// Parses the full text of a post file: the text is split on the single
    /// delimiter occurrence, the prefix is decoded as front matter, and the
    /// suffix becomes the body verbatim.  A text without exactly one
    /// delimiter occurrence is `MalformedPost`; a prefix that is not a TOML
    /// table, or whose fields are missing or ill-shaped, is
    /// `InvalidFrontMatter`.
    pub fn read_from(text: &str) -> (r: Result<Post, BlogError>)
        ensures
            occurrences(text@, delim()) != 1 ==> r matches Err(BlogError::MalformedPost),
            occurrences(text@, delim()) == 1 ==> match toml_items_of(fm_front(text@)) {
                Some(items) => {
                    &&& (r is Ok <==> front_ok(items))
                    &&& (match r {
                        Ok(p) => p@.front == front_of(items) && p@.md_content == fm_body(text@),
                        Err(e) => e is InvalidFrontMatter,
                    })
                },
                None => r matches Err(BlogError::InvalidFrontMatter(_)),
            },
    {
        let (front_text, body) = match split_front_matter(text) {
            Ok(parts) => parts,
            Err(e) => {
                return Err(e);
            },
        };
        let items = match toml_parse_items(front_text.as_str()) {
            Ok(items) => items,
            Err(m) => {
                return Err(BlogError::InvalidFrontMatter(m));
            },
        };
        let front = match decode_front(&items) {
            Ok(front) => front,
            Err(e) => {
                return Err(e);
            },
        };
        Ok(Post { front, md_content: body })
    }
}

/// Law: a metadata table without a `title` entry never decodes into front
/// matter.
pub proof fn law_title_required(items: Seq<(Seq<char>, TomlItemView)>)
    requires
        lookup(items, title_key()) is None,
    ensures
        !front_ok(items),
{
}

/// Law: a metadata table whose other fields are well-shaped and which has no
/// `tags` entry decodes, and its front matter carries no tags.
pub proof fn law_tags_default(items: Seq<(Seq<char>, TomlItemView)>)
    requires
        title_ok(items),
        lookup(items, tags_key()) is None,
        opt_str_ok(items, subtitle_key()),
        opt_str_ok(items, description_key()),
        date_ok(items),
    ensures
        front_ok(items),
        front_of(items).tags == Seq::<Seq<char>>::empty(),
{
}

} // verus!
