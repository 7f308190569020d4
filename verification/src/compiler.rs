//! The post compiler: renders posts through the template engine, accumulates
//! the tag index as posts succeed, and generates the per-tag and hub pages.
use vstd::prelude::*;
use vstd::string::*;

use crate::BlogError;
use crate::post::{
    FrontMatter, FrontMatterView, Post, PostView, date_key, description_key, subtitle_key,
    tags_key, title_key,
};
use crate::render::{
    JsonModel, format_commasep, format_markdown, json_array, json_model, json_null, json_object,
    json_string, obj_pairs_model,
};

verus! {

/// Whether the template engine accepts a template's text.
pub uninterp spec fn template_ok(tpl: Seq<char>) -> bool;

/// What rendering a template over a context yields: `None` where evaluation
/// (or a formatter) fails.  With the engine and its two formatters fixed, the
/// result is a function of template and context alone.
pub uninterp spec fn render_of(tpl: Seq<char>, ctx: JsonModel) -> Option<Seq<char>>;

/// Relies on `tinytemplate::TinyTemplate::add_template`, which parses and
/// compiles the template's text.
#[verifier::external_body]
fn template_compiles(template: &str) -> (r: Result<(), String>)
    ensures
        r is Ok <==> template_ok(template@),
{
    let mut tt = tinytemplate::TinyTemplate::new();
    tt.add_template("tpl", template).map_err(|e| e.to_string())
}

/// Relies on `tinytemplate`: a fresh engine, with this library's Markdown and
/// comma-separated formatters registered under their template names, renders
/// the single compiled template over the context.  On any failure the
/// engine's message is returned.
#[verifier::external_body]
fn render_template(template: &str, context: &serde_json::Value) -> (r: Result<String, String>)
    ensures
        match r {
            Ok(s) => render_of(template@, json_model(*context)) == Some(s@),
            Err(_) => render_of(template@, json_model(*context)) is None,
        },
{
    let mut tt = tinytemplate::TinyTemplate::new();
    if let Err(e) = tt.add_template("tpl", template) {
        return Err(e.to_string());
    }
    tt.add_formatter("markdown", |v, out| format_markdown(v, out));
    tt.add_formatter("commasep", |v, out| format_commasep(v, out));
    tt.render("tpl", context).map_err(|e| e.to_string())
}

pub open spec fn front_field_key() -> Seq<char> {
    seq!['f', 'r', 'o', 'n', 't']
}

pub open spec fn md_content_key() -> Seq<char> {
    seq!['m', 'd', '_', 'c', 'o', 'n', 't', 'e', 'n', 't']
}

pub open spec fn tag_field_key() -> Seq<char> {
    seq!['t', 'a', 'g']
}

pub open spec fn posts_field_key() -> Seq<char> {
    seq!['p', 'o', 's', 't', 's']
}

pub open spec fn post_field_key() -> Seq<char> {
    seq!['p', 'o', 's', 't']
}

pub open spec fn path_field_key() -> Seq<char> {
    seq!['p', 'a', 't', 'h']
}

/// An optional text in the template context: the text, or null.
pub open spec fn opt_str_model(o: Option<Seq<char>>) -> JsonModel {
    match o {
        Some(s) => JsonModel::Str(s),
        None => JsonModel::Null,
    }
}

/// The context value a post's front matter contributes.
pub open spec fn front_ctx(f: FrontMatterView) -> JsonModel {
    JsonModel::Obj(
        map![
            title_key() => JsonModel::Str(f.title),
            tags_key() => JsonModel::Arr(f.tags.map_values(|t: Seq<char>| JsonModel::Str(t))),
            subtitle_key() => opt_str_model(f.subtitle),
            description_key() => opt_str_model(f.description),
            date_key() => opt_str_model(f.date),
        ],
    )
}

/// The full context a post is rendered over.
pub open spec fn post_ctx(p: PostView) -> JsonModel {
    JsonModel::Obj(
        map![
            front_field_key() => front_ctx(p.front),
            md_content_key() => JsonModel::Str(p.md_content),
        ],
    )
}

fn opt_str_value(o: &Option<String>) -> (v: serde_json::Value)
    ensures
        json_model(v) == opt_str_model(o.deep_view()),
{
    match o {
        Some(s) => json_string(s.as_str()),
        None => json_null(),
    }
}

fn front_value(front: &FrontMatter) -> (v: serde_json::Value)
    ensures
        json_model(v) == front_ctx(front@),
{
    let mut items: Vec<serde_json::Value> = Vec::new();
    let tags = front.tags();
    let mut i: usize = 0;
    while i < tags.len()
        invariant
            i <= tags.len(),
            tags.deep_view().len() == tags@.len(),
            items@.len() == i,
            forall|j: int|
                0 <= j < i ==> (#[trigger] json_model(items@[j])) == JsonModel::Str(
                    tags.deep_view()[j],
                ),
        decreases tags.len() - i,
    {
        proof {
            assert(tags.deep_view()[i as int] == tags@[i as int]@);
        }
        items.push(json_string(tags[i].as_str()));
        i = i + 1;
    }
    let tags_value = json_array(items);
    proof {
        assert(items@.map_values(|e: serde_json::Value| json_model(e)) =~= front@.tags.map_values(
            |t: Seq<char>| JsonModel::Str(t),
        ));
    }
    let mut pairs: Vec<(String, serde_json::Value)> = Vec::new();
    pairs.push((String::from_str("title"), json_string(front.title().as_str())));
    pairs.push((String::from_str("tags"), tags_value));
    pairs.push((String::from_str("subtitle"), opt_str_value(front.subtitle())));
    pairs.push((String::from_str("description"), opt_str_value(front.description())));
    pairs.push((String::from_str("date"), opt_str_value(front.date())));
    let v = json_object(pairs);
    proof {
        reveal_with_fuel(obj_pairs_model, 7);
        reveal_strlit("title");
        reveal_strlit("tags");
        reveal_strlit("subtitle");
        reveal_strlit("description");
        reveal_strlit("date");
        assert("title"@ =~= title_key());
        assert("tags"@ =~= tags_key());
        assert("subtitle"@ =~= subtitle_key());
        assert("description"@ =~= description_key());
        assert("date"@ =~= date_key());
        assert(obj_pairs_model(pairs@) =~= (map![
            title_key() => JsonModel::Str(front@.title),
            tags_key() => JsonModel::Arr(front@.tags.map_values(|t: Seq<char>| JsonModel::Str(t))),
            subtitle_key() => opt_str_model(front@.subtitle),
            description_key() => opt_str_model(front@.description),
            date_key() => opt_str_model(front@.date),
        ]));
    }
    v
}

fn post_value(post: &Post) -> (v: serde_json::Value)
    ensures
        json_model(v) == post_ctx(post@),
{
    let mut pairs: Vec<(String, serde_json::Value)> = Vec::new();
    pairs.push((String::from_str("front"), front_value(post.frontmatter())));
    pairs.push((String::from_str("md_content"), json_string(post.md_content().as_str())));
    let v = json_object(pairs);
    proof {
        reveal_with_fuel(obj_pairs_model, 4);
        reveal_strlit("front");
        reveal_strlit("md_content");
        assert("front"@ =~= front_field_key());
        assert("md_content"@ =~= md_content_key());
        assert(obj_pairs_model(pairs@) =~= (map![
            front_field_key() => front_ctx(post@.front),
            md_content_key() => JsonModel::Str(post@.md_content),
        ]));
    }
    v
}

/// A post that rendered successfully, paired with the relative URL it was
/// deployed at.  Owned by the tag index for the rest of the run.
#[derive(Debug)]
pub struct CompiledPost {
    post: Post,
    path: String,
}

/// The mathematical shape of a `CompiledPost`.
#[verifier::ext_equal]
pub struct CompiledPostView {
    pub post: PostView,
    pub path: Seq<char>,
}

impl View for CompiledPost {
    type V = CompiledPostView;

    closed spec fn view(&self) -> CompiledPostView {
        CompiledPostView { post: self.post@, path: self.path@ }
    }
}

impl CompiledPost {
    pub fn new(post: Post, path: String) -> (r: Self)
        ensures
            r@ == (CompiledPostView { post: post@, path: path@ }),
    {
        Self { post, path }
    }

    pub fn post(&self) -> (r: &Post)
        ensures
            r@ == self@.post,
    {
        &self.post
    }

    pub fn path(&self) -> (r: &String)
        ensures
            r@ == self@.path,
    {
        &self.path
    }
}

/// The context value one compiled post contributes to a tag page.
pub open spec fn compiled_ctx(p: CompiledPostView) -> JsonModel {
    JsonModel::Obj(
        map![
            post_field_key() => post_ctx(p.post),
            path_field_key() => JsonModel::Str(p.path),
        ],
    )
}

fn compiled_value(p: &CompiledPost) -> (v: serde_json::Value)
    ensures
        json_model(v) == compiled_ctx(p@),
{
    let mut pairs: Vec<(String, serde_json::Value)> = Vec::new();
    pairs.push((String::from_str("post"), post_value(p.post())));
    pairs.push((String::from_str("path"), json_string(p.path().as_str())));
    let v = json_object(pairs);
    proof {
        reveal_with_fuel(obj_pairs_model, 4);
        reveal_strlit("post");
        reveal_strlit("path");
        assert("post"@ =~= post_field_key());
        assert("path"@ =~= path_field_key());
        assert(obj_pairs_model(pairs@) =~= (map![
            post_field_key() => post_ctx(p@.post),
            path_field_key() => JsonModel::Str(p@.path),
        ]));
    }
    v
}

/// The views of a run of compiled posts, in order.
pub open spec fn posts_views(posts: Seq<CompiledPost>) -> Seq<CompiledPostView> {
    posts.map_values(|p: CompiledPost| p@)
}

/// The compiled posts carrying `tag`, in the order they were recorded.
pub open spec fn filter_tagged(posts: Seq<CompiledPostView>, tag: Seq<char>) -> Seq<
    CompiledPostView,
>
    decreases posts.len(),
{
    if posts.len() == 0 {
        Seq::empty()
    } else {
        let rest = filter_tagged(posts.drop_last(), tag);
        if posts.last().post.front.tags.contains(tag) {
            rest.push(posts.last())
        } else {
            rest
        }
    }
}

/// Law: once a post is recorded, it appears under exactly the tags it
/// carries, after every post recorded before it; all other tag listings are
/// untouched.
pub proof fn law_tag_index_append(posts: Seq<CompiledPostView>, p: CompiledPostView, tag: Seq<char>)
    ensures
        filter_tagged(posts.push(p), tag) == if p.post.front.tags.contains(tag) {
            filter_tagged(posts, tag).push(p)
        } else {
            filter_tagged(posts, tag)
        },
{
    assert(posts.push(p).drop_last() =~= posts);
}

/// One tag folded into the index's tag list: appended if new, kept once if
/// already present.
pub open spec fn add_tag(tags: Seq<Seq<char>>, t: Seq<char>) -> Seq<Seq<char>> {
    if tags.contains(t) {
        tags
    } else {
        tags.push(t)
    }
}

/// A post's tags folded into the index's tag list, left to right.
pub open spec fn add_tags(tags: Seq<Seq<char>>, new: Seq<Seq<char>>) -> Seq<Seq<char>>
    decreases new.len(),
{
    if new.len() == 0 {
        tags
    } else {
        add_tags(add_tag(tags, new[0]), new.drop_first())
    }
}

proof fn lemma_add_tags_snoc(tags: Seq<Seq<char>>, s: Seq<Seq<char>>, x: Seq<char>)
    ensures
        add_tags(tags, s.push(x)) == add_tag(add_tags(tags, s), x),
    decreases s.len(),
{
    if s.len() == 0 {
        assert(s.push(x)[0] == x);
        assert(s.push(x).drop_first() =~= Seq::<Seq<char>>::empty());
        assert(add_tags(add_tag(tags, x), Seq::<Seq<char>>::empty()) == add_tag(tags, x));
    } else {
        assert(s.push(x)[0] == s[0]);
        assert(s.push(x).drop_first() =~= s.drop_first().push(x));
        lemma_add_tags_snoc(add_tag(tags, s[0]), s.drop_first(), x);
    }
}

/// No tag is listed twice.
pub open spec fn distinct_list(tags: Seq<Seq<char>>) -> bool {
    forall|i: int, j: int| 0 <= i < j < tags.len() ==> tags[i] != tags[j]
}

/// Law: folding tags into a duplicate-free tag list keeps it duplicate-free —
/// the index never lists a tag twice.
pub proof fn law_add_tags_distinct(tags: Seq<Seq<char>>, new: Seq<Seq<char>>)
    requires
        distinct_list(tags),
    ensures
        distinct_list(add_tags(tags, new)),
    decreases new.len(),
{
    if new.len() > 0 {
        let t = new[0];
        if !tags.contains(t) {
            assert forall|i: int, j: int|
                0 <= i < j < add_tag(tags, t).len() implies add_tag(tags, t)[i] != add_tag(
                tags,
                t,
            )[j] by {
                if j == tags.len() {
                    assert(add_tag(tags, t)[i] == tags[i]);
                }
            }
        }
        law_add_tags_distinct(add_tag(tags, t), new.drop_first());
    }
}

fn tags_contain(tags: &Vec<String>, t: &str) -> (b: bool)
    ensures
        b == tags.deep_view().contains(t@),
{
    proof {
        assert(tags.deep_view().len() == tags@.len());
    }
    let mut i: usize = 0;
    while i < tags.len()
        invariant
            i <= tags.len(),
            tags.deep_view().len() == tags@.len(),
            forall|j: int| 0 <= j < i ==> tags.deep_view()[j] != t@,
        decreases tags.len() - i,
    {
        proof {
            assert(tags.deep_view()[i as int] == tags@[i as int]@);
        }
        if crate::paths::str_eq(tags[i].as_str(), t) {
            proof {
                assert(tags.deep_view()[i as int] == t@);
            }
            return true;
        }
        i = i + 1;
    }
    proof {
        if tags.deep_view().contains(t@) {
            let w = choose|w: int| 0 <= w < tags.deep_view().len() && tags.deep_view()[w] == t@;
            assert(tags.deep_view()[w] != t@);
        }
    }
    false
}

/// The compiler: one template, the posts compiled so far with their deployed
/// URLs, and the distinct tags those posts carry, in first-seen order.
#[derive(Debug)]
pub struct PostCompiler {
    template: String,
    posts: Vec<CompiledPost>,
    tags: Vec<String>,
}

impl PostCompiler {
    /// The template the compiler renders posts through.
    pub closed spec fn template_view(&self) -> Seq<char> {
        self.template@
    }

    /// The compiled posts recorded so far, in order.
    pub closed spec fn posts_seq(&self) -> Seq<CompiledPostView> {
        posts_views(self.posts@)
    }

    /// The distinct tags of the posts listed in the index — those compiled
    /// successfully with a deployed URL — in first-seen order.
    pub closed spec fn tags_seq(&self) -> Seq<Seq<char>> {
        self.tags.deep_view()
    }

    /// Builds a compiler over a template.  A template the engine refuses is
    /// reported here, before any post is touched.
    pub fn new(template: &str) -> (r: Result<PostCompiler, BlogError>)
        ensures
            r is Ok <==> template_ok(template@),
            match r {
                Ok(c) => {
                    &&& c.template_view() == template@
                    &&& c.posts_seq() == Seq::<CompiledPostView>::empty()
                    &&& c.tags_seq() == Seq::<Seq<char>>::empty()
                },
                Err(e) => e is RenderError,
            },
    {
        match template_compiles(template) {
            Ok(_) => {
                let c = PostCompiler {
                    template: String::from_str(template),
                    posts: Vec::new(),
                    tags: Vec::new(),
                };
                proof {
                    assert(c.posts_seq() =~= Seq::<CompiledPostView>::empty());
                    assert(c.tags_seq() =~= Seq::<Seq<char>>::empty());
                }
                Ok(c)
            },
            Err(m) => Err(BlogError::RenderError(m)),
        }
    }

    /// Renders `post` through the template.  Only on success, and only where
    /// a deployed URL was supplied — this is rendering's one side effect —
    /// the post's tags join the tag list and the post joins the index under
    /// that URL.  A post without a URL is rendered but leaves the compiler
    /// untouched, so it never appears on any tag page.  On failure the
    /// compiler is exactly as it was.
    #[verifier::loop_isolation(false)]
    pub fn parse_post(&mut self, post: Post, deployed_url: Option<String>) -> (r: Result<
        String,
        BlogError,
    >)
        ensures
            final(self).template_view() == old(self).template_view(),
            match render_of(old(self).template_view(), post_ctx(post@)) {
                Some(h) => {
                    &&& (r matches Ok(s) && s@ == h)
                    &&& (match deployed_url {
                        Some(url) => final(self).tags_seq() == add_tags(
                            old(self).tags_seq(),
                            post@.front.tags,
                        ) && final(self).posts_seq() == old(self).posts_seq().push(
                            CompiledPostView { post: post@, path: url@ },
                        ),
                        None => *final(self) == *old(self),
                    })
                },
                None => {
                    &&& (r matches Err(e) && e is RenderError)
                    &&& *final(self) == *old(self)
                },
            },
    {
        let ctx = post_value(&post);
        let rendered = match render_template(self.template.as_str(), &ctx) {
            Ok(html) => html,
            Err(m) => {
                return Err(BlogError::RenderError(m));
            },
        };
        let url = match deployed_url {
            Some(url) => url,
            None => {
                return Ok(rendered);
            },
        };
        let new_tags = post.frontmatter().tags();
        let ghost old_tags = self.tags.deep_view();
        let mut k: usize = 0;
        while k < new_tags.len()
            invariant
                k <= new_tags.len(),
                new_tags.deep_view().len() == new_tags@.len(),
                self.template == old(self).template,
                self.posts == old(self).posts,
                self.tags.deep_view() == add_tags(old_tags, new_tags.deep_view().subrange(0, k as int)),
            decreases new_tags.len() - k,
        {
            proof {
                assert(new_tags.deep_view()[k as int] == new_tags@[k as int]@);
                lemma_add_tags_snoc(
                    old_tags,
                    new_tags.deep_view().subrange(0, k as int),
                    new_tags.deep_view()[k as int],
                );
                assert(new_tags.deep_view().subrange(0, k as int).push(
                    new_tags.deep_view()[k as int],
                ) =~= new_tags.deep_view().subrange(0, (k + 1) as int));
            }
            let t = &new_tags[k];
            if !tags_contain(&self.tags, t.as_str()) {
                self.tags.push(t.clone());
                proof {
                    assert(self.tags.deep_view() =~= add_tags(
                        old_tags,
                        new_tags.deep_view().subrange(0, (k + 1) as int),
                    ));
                }
            }
            k = k + 1;
        }
        proof {
            assert(new_tags.deep_view().subrange(0, new_tags.deep_view().len() as int)
                =~= new_tags.deep_view());
            assert(new_tags.deep_view() == post@.front.tags);
        }
        let ghost posts_before = posts_views(self.posts@);
        let ghost pview = CompiledPostView { post: post@, path: url@ };
        self.posts.push(CompiledPost { post, path: url });
        proof {
            assert(posts_views(self.posts@) =~= posts_before.push(pview));
        }
        Ok(rendered)
    }

    /// The distinct tags of the posts listed in the index, in first-seen
    /// order.
    pub fn tags(&self) -> (r: &Vec<String>)
        ensures
            r.deep_view() == self.tags_seq(),
    {
        &self.tags
    }

    /// The compiled posts carrying `tag`, in the order they were compiled.
    #[verifier::loop_isolation(false)]
    pub fn tagged_as<'a>(&'a self, tag: &str) -> (r: Vec<&'a CompiledPost>)
        ensures
            r@.map_values(|p: &CompiledPost| p@) == filter_tagged(self.posts_seq(), tag@),
    {
        let mut r: Vec<&CompiledPost> = Vec::new();
        proof {
            assert(self.posts_seq().len() == self.posts@.len());
        }
        let mut i: usize = 0;
        while i < self.posts.len()
            invariant
                i <= self.posts.len(),
                r@.map_values(|p: &CompiledPost| p@) == filter_tagged(
                    self.posts_seq().subrange(0, i as int),
                    tag@,
                ),
            decreases self.posts.len() - i,
        {
            proof {
                assert(self.posts_seq()[i as int] == self.posts@[i as int]@);
                assert(self.posts_seq().subrange(0, (i + 1) as int).drop_last()
                    =~= self.posts_seq().subrange(0, i as int));
                assert(self.posts_seq().subrange(0, (i + 1) as int).last()
                    == self.posts_seq()[i as int]);
            }
            let p = &self.posts[i];
            if tags_contain(p.post().frontmatter().tags(), tag) {
                r.push(p);
                proof {
                    assert(r@.map_values(|p: &CompiledPost| p@) =~= filter_tagged(
                        self.posts_seq().subrange(0, (i + 1) as int),
                        tag@,
                    ));
                }
            }
            i = i + 1;
        }
        proof {
            assert(self.posts_seq().subrange(0, self.posts@.len() as int) =~= self.posts_seq());
        }
        r
    }
}

/// The file name of a tag's page.
pub open spec fn page_name(tag: Seq<char>) -> Seq<char> {
    tag + seq!['.', 'h', 't', 'm', 'l']
}

pub open spec fn all_page_name() -> Seq<char> {
    seq!['a', 'l', 'l', '.', 'h', 't', 'm', 'l']
}

pub open spec fn all_text() -> Seq<char> {
    seq!['a', 'l', 'l']
}

/// The context a tag page is rendered over: the tag's name and the compiled
/// posts listed under it.
pub open spec fn tag_ctx(tag: Seq<char>, posts: Seq<CompiledPostView>) -> JsonModel {
    JsonModel::Obj(
        map![
            tag_field_key() => JsonModel::Str(tag),
            posts_field_key() => JsonModel::Arr(posts.map_values(|p: CompiledPostView| compiled_ctx(p))),
        ],
    )
}

/// The pages the per-tag pass yields, one per tag in order: `None` as soon as
/// one render fails.
pub open spec fn tag_pages_spec(
    tags: Seq<Seq<char>>,
    posts: Seq<CompiledPostView>,
    tpl: Seq<char>,
) -> Option<Seq<(Seq<char>, Seq<char>)>>
    decreases tags.len(),
{
    if tags.len() == 0 {
        Some(Seq::empty())
    } else {
        match tag_pages_spec(tags.drop_last(), posts, tpl) {
            None => None,
            Some(pages) => match render_of(
                tpl,
                tag_ctx(tags.last(), filter_tagged(posts, tags.last())),
            ) {
                None => None,
                Some(h) => Some(pages.push((page_name(tags.last()), h))),
            },
        }
    }
}

proof fn lemma_tag_pages_none(tags: Seq<Seq<char>>, posts: Seq<CompiledPostView>, tpl: Seq<char>, n: int)
    requires
        0 <= n <= tags.len(),
        tag_pages_spec(tags.subrange(0, n), posts, tpl) is None,
    ensures
        tag_pages_spec(tags, posts, tpl) is None,
    decreases tags.len() - n,
{
    if n < tags.len() {
        assert(tags.subrange(0, n + 1).drop_last() =~= tags.subrange(0, n));
        lemma_tag_pages_none(tags, posts, tpl, n + 1);
    } else {
        assert(tags.subrange(0, tags.len() as int) =~= tags);
    }
}

/// The placeholder entry a tag contributes to the hub page: a post whose
/// title is the tag's name and whose body is empty, pointing at the tag's own
/// page within the tag-pages directory.
pub open spec fn synthetic_post(tag: Seq<char>, rel_dir: Seq<char>) -> CompiledPostView {
    CompiledPostView {
        post: PostView {
            front: FrontMatterView {
                title: tag,
                tags: Seq::empty(),
                subtitle: None,
                description: None,
                date: None,
            },
            md_content: Seq::empty(),
        },
        path: rel_dir + seq!['/'] + tag,
    }
}

/// The placeholder entries of every tag, in tag order.
pub open spec fn synthetic_posts(tags: Seq<Seq<char>>, rel_dir: Seq<char>) -> Seq<
    CompiledPostView,
> {
    Seq::new(tags.len(), |j: int| synthetic_post(tags[j], rel_dir))
}

/// The context the hub page is rendered over.
pub open spec fn hub_ctx(tags: Seq<Seq<char>>, rel_dir: Seq<char>) -> JsonModel {
    tag_ctx(all_text(), synthetic_posts(tags, rel_dir))
}

/// Every page of the emission pass: one page per tag, then the hub page.
pub open spec fn all_pages_spec(
    tags: Seq<Seq<char>>,
    posts: Seq<CompiledPostView>,
    tpl: Seq<char>,
    hub_tpl: Seq<char>,
    rel_dir: Seq<char>,
) -> Option<Seq<(Seq<char>, Seq<char>)>> {
    match tag_pages_spec(tags, posts, tpl) {
        None => None,
        Some(pages) => match render_of(hub_tpl, hub_ctx(tags, rel_dir)) {
            None => None,
            Some(h) => Some(pages.push((all_page_name(), h))),
        },
    }
}

/// The views of emitted pages: each a file name and its rendered text.
pub open spec fn pages_views(v: Seq<(String, String)>) -> Seq<(Seq<char>, Seq<char>)> {
    v.map_values(|p: (String, String)| (p.0@, p.1@))
}

#[verifier::loop_isolation(false)]
fn tag_ctx_value(tag: &str, posts: &Vec<&CompiledPost>) -> (v: serde_json::Value)
    ensures
        json_model(v) == tag_ctx(tag@, posts@.map_values(|p: &CompiledPost| p@)),
{
    let mut vals: Vec<serde_json::Value> = Vec::new();
    let mut i: usize = 0;
    while i < posts.len()
        invariant
            i <= posts.len(),
            vals@.len() == i,
            forall|j: int|
                0 <= j < i ==> (#[trigger] json_model(vals@[j])) == compiled_ctx(posts@[j]@),
        decreases posts.len() - i,
    {
        vals.push(compiled_value(posts[i]));
        i = i + 1;
    }
    let arr = json_array(vals);
    proof {
        assert(vals@.map_values(|e: serde_json::Value| json_model(e)) =~= posts@.map_values(
            |p: &CompiledPost| p@,
        ).map_values(|p: CompiledPostView| compiled_ctx(p)));
    }
    let mut pairs: Vec<(String, serde_json::Value)> = Vec::new();
    pairs.push((String::from_str("tag"), json_string(tag)));
    pairs.push((String::from_str("posts"), arr));
    let v = json_object(pairs);
    proof {
        reveal_with_fuel(obj_pairs_model, 4);
        reveal_strlit("tag");
        reveal_strlit("posts");
        assert("tag"@ =~= tag_field_key());
        assert("posts"@ =~= posts_field_key());
        assert(obj_pairs_model(pairs@) =~= (map![
            tag_field_key() => JsonModel::Str(tag@),
            posts_field_key() => JsonModel::Arr(posts@.map_values(|p: &CompiledPost| p@).map_values(|p: CompiledPostView| compiled_ctx(p))),
        ]));
    }
    v
}

impl PostCompiler {
    /// Emits the tag pages.  With no tag template there is nothing to do.
    /// Otherwise one page per distinct tag is rendered over that tag's
    /// listing, named after the tag; then the hub page, over a placeholder
    /// listing that points at every tag page, rendered through the hub
    /// template (or the tag template where none was given) and named
    /// `all.html`.  Each page comes back as its file name within the
    /// tag-pages directory, with the rendered text; a render failure aborts
    /// the pass.
    #[verifier::loop_isolation(false)]
    pub fn emit_tag_pages(
        &self,
        tag_template: Option<&str>,
        hub_template: Option<&str>,
        rel_tags_dir: &str,
    ) -> (r: Result<Vec<(String, String)>, BlogError>)
        ensures
            match tag_template {
                None => (r matches Ok(v) && v@.len() == 0),
                Some(tpl) => {
                    let hub = match hub_template {
                        Some(h) => h@,
                        None => tpl@,
                    };
                    match all_pages_spec(
                        self.tags_seq(),
                        self.posts_seq(),
                        tpl@,
                        hub,
                        rel_tags_dir@,
                    ) {
                        Some(pages) => (r matches Ok(v) && pages_views(v@) == pages),
                        None => (r matches Err(e) && e is RenderError),
                    }
                },
            },
    {
        let tpl = match tag_template {
            Some(t) => t,
            None => {
                return Ok(Vec::new());
            },
        };
        let hub_tpl = match hub_template {
            Some(h) => h,
            None => tpl,
        };
        let mut pages: Vec<(String, String)> = Vec::new();
        let mut fakes: Vec<CompiledPost> = Vec::new();
        let ghost tags_v = self.tags_seq();
        proof {
            assert(tags_v.len() == self.tags@.len());
            assert(tags_v.subrange(0, 0) =~= Seq::<Seq<char>>::empty());
            assert(pages_views(pages@) =~= Seq::<(Seq<char>, Seq<char>)>::empty());
            assert(fakes@.map_values(|p: CompiledPost| p@) =~= synthetic_posts(
                tags_v.subrange(0, 0),
                rel_tags_dir@,
            ));
        }
        let mut i: usize = 0;
        while i < self.tags.len()
            invariant
                i <= self.tags.len(),
                tag_pages_spec(tags_v.subrange(0, i as int), self.posts_seq(), tpl@) == Some(
                    pages_views(pages@),
                ),
                fakes@.map_values(|p: CompiledPost| p@) == synthetic_posts(
                    tags_v.subrange(0, i as int),
                    rel_tags_dir@,
                ),
            decreases self.tags.len() - i,
        {
            proof {
                assert(tags_v[i as int] == self.tags@[i as int]@);
                assert(tags_v.subrange(0, (i + 1) as int).drop_last() =~= tags_v.subrange(
                    0,
                    i as int,
                ));
                assert(tags_v.subrange(0, (i + 1) as int).last() == tags_v[i as int]);
            }
            let tag = &self.tags[i];
            let tagged = self.tagged_as(tag.as_str());
            let ctx = tag_ctx_value(tag.as_str(), &tagged);
            let html = match render_template(tpl, &ctx) {
                Ok(h) => h,
                Err(m) => {
                    proof {
                        assert(tag_pages_spec(
                            tags_v.subrange(0, (i + 1) as int),
                            self.posts_seq(),
                            tpl@,
                        ) is None);
                        lemma_tag_pages_none(tags_v, self.posts_seq(), tpl@, i + 1);
                    }
                    return Err(BlogError::RenderError(m));
                },
            };
            let name = String::from_str(tag.as_str()).concat(".html");
            proof {
                reveal_strlit(".html");
                assert(".html"@ =~= seq!['.', 'h', 't', 'm', 'l']);
                assert(name@ == page_name(tags_v[i as int]));
            }
            pages.push((name, html));
            proof {
                assert(pages_views(pages@) =~= pages_views(pages@.drop_last()).push(
                    (page_name(tags_v[i as int]), html@),
                ));
                assert(tag_pages_spec(tags_v.subrange(0, (i + 1) as int), self.posts_seq(), tpl@)
                    == Some(pages_views(pages@)));
            }
            let fm = FrontMatter::new(tag.clone(), Vec::new(), None, None, None);
            let fp = Post::new(fm, String::new());
            let mut link = String::from_str(rel_tags_dir);
            link.append("/");
            link.append(tag.as_str());
            proof {
                reveal_strlit("/");
                assert("/"@ =~= seq!['/']);
            }
            let fake = CompiledPost::new(fp, link);
            proof {
                assert(fake@.post.front.tags =~= Seq::<Seq<char>>::empty());
                assert(fake@.path =~= rel_tags_dir@ + seq!['/'] + tags_v[i as int]);
                assert(fake@ =~~= synthetic_post(tags_v[i as int], rel_tags_dir@));
            }
            let ghost fakes_old = fakes@;
            fakes.push(fake);
            proof {
                assert forall|j: int| 0 <= j < i implies fakes@[j]@ == synthetic_post(
                    tags_v[j],
                    rel_tags_dir@,
                ) by {
                    assert(fakes_old.map_values(|p: CompiledPost| p@)[j] == synthetic_posts(
                        tags_v.subrange(0, i as int),
                        rel_tags_dir@,
                    )[j]);
                    assert(fakes@[j] == fakes_old[j]);
                }
                assert(fakes@.map_values(|p: CompiledPost| p@) =~= synthetic_posts(
                    tags_v.subrange(0, (i + 1) as int),
                    rel_tags_dir@,
                ));
            }
            i = i + 1;
        }
        proof {
            assert(tags_v.subrange(0, tags_v.len() as int) =~= tags_v);
        }
        let mut fake_refs: Vec<&CompiledPost> = Vec::new();
        let mut k: usize = 0;
        while k < fakes.len()
            invariant
                k <= fakes.len(),
                fake_refs@.len() == k,
                forall|j: int| 0 <= j < k ==> (#[trigger] fake_refs@[j])@ == fakes@[j]@,
            decreases fakes.len() - k,
        {
            fake_refs.push(&fakes[k]);
            k = k + 1;
        }
        let hubctx = tag_ctx_value("all", &fake_refs);
        proof {
            reveal_strlit("all");
            assert("all"@ =~= all_text());
            assert(fake_refs@.map_values(|p: &CompiledPost| p@) =~= synthetic_posts(
                tags_v,
                rel_tags_dir@,
            ));
        }
        let html = match render_template(hub_tpl, &hubctx) {
            Ok(h) => h,
            Err(m) => {
                return Err(BlogError::RenderError(m));
            },
        };
        let allname = String::from_str("all.html");
        proof {
            reveal_strlit("all.html");
            assert("all.html"@ =~= all_page_name());
        }
        let ghost pages_before = pages_views(pages@);
        pages.push((allname, html));
        proof {
            assert(pages_views(pages@) =~= pages_before.push((all_page_name(), html@)));
        }
        Ok(pages)
    }
}

} // verus!
