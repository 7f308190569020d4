//! The template engine's value space, modelled; the Markdown and
//! comma-separated formatters the templates can call; and HTML escaping.
use vstd::prelude::*;
use vstd::string::*;

verus! {

/// The JSON values the template engine hands to a formatter.
#[verifier::external_type_specification]
#[verifier::external_body]
pub struct ExValue(serde_json::Value);

/// The template engine's error type.
#[verifier::external_type_specification]
#[verifier::external_body]
pub struct ExTtError(tinytemplate::error::Error);

/// The mathematical shape of a JSON value.  A number is carried as its
/// printed text; an object as the map of its entries.
pub enum JsonModel {
    Null,
    Bool(bool),
    Num(Seq<char>),
    Str(Seq<char>),
    Arr(Seq<JsonModel>),
    Obj(Map<Seq<char>, JsonModel>),
}

/// What a `serde_json::Value` holds.
pub uninterp spec fn json_model(v: serde_json::Value) -> JsonModel;

/// Relies on `serde_json::Value::is_null`.
#[verifier::external_body]
pub fn json_is_null(v: &serde_json::Value) -> (r: bool)
    ensures
        r == (json_model(*v) is Null),
{
    v.is_null()
}

/// Relies on `serde_json::Value::as_bool`: `Some` exactly on a boolean.
#[verifier::external_body]
pub fn json_as_bool(v: &serde_json::Value) -> (r: Option<bool>)
    ensures
        match r {
            Some(b) => json_model(*v) == JsonModel::Bool(b),
            None => !(json_model(*v) is Bool),
        },
{
    v.as_bool()
}

/// Relies on `serde_json::Value::as_str`: `Some` exactly on a string.
#[verifier::external_body]
pub fn json_as_str<'a>(v: &'a serde_json::Value) -> (r: Option<&'a str>)
    ensures
        match r {
            Some(s) => json_model(*v) == JsonModel::Str(s@),
            None => !(json_model(*v) is Str),
        },
{
    v.as_str()
}

/// Relies on `serde_json::Number`'s display form: the text returned is the
/// number's printed shape, exactly what the model's `Num` carries.
#[verifier::external_body]
pub fn json_number_text(v: &serde_json::Value) -> (r: Option<String>)
    ensures
        match r {
            Some(t) => json_model(*v) == JsonModel::Num(t@),
            None => !(json_model(*v) is Num),
        },
{
    match v {
        serde_json::Value::Number(n) => Some(n.to_string()),
        _ => None,
    }
}

/// Relies on `serde_json::Value::as_array`: `Some` exactly on an array, whose
/// elements are the model's elements in order.
#[verifier::external_body]
pub fn json_as_array<'a>(v: &'a serde_json::Value) -> (r: Option<&'a Vec<serde_json::Value>>)
    ensures
        match r {
            Some(a) => json_model(*v) == JsonModel::Arr(
                a@.map_values(|e: serde_json::Value| json_model(e)),
            ),
            None => !(json_model(*v) is Arr),
        },
{
    v.as_array()
}

/// Relies on `serde_json::Value::Null`.
#[verifier::external_body]
pub fn json_null() -> (r: serde_json::Value)
    ensures
        json_model(r) == JsonModel::Null,
{
    serde_json::Value::Null
}

/// Relies on `serde_json::Value::String`.
#[verifier::external_body]
pub fn json_string(s: &str) -> (r: serde_json::Value)
    ensures
        json_model(r) == JsonModel::Str(s@),
{
    serde_json::Value::String(s.to_string())
}

/// Relies on `serde_json::Value::Array`.
#[verifier::external_body]
pub fn json_array(items: Vec<serde_json::Value>) -> (r: serde_json::Value)
    ensures
        json_model(r) == JsonModel::Arr(items@.map_values(|e: serde_json::Value| json_model(e))),
{
    serde_json::Value::Array(items)
}

/// The object a pair list builds: entries in order, a later key overriding an
/// earlier one.
pub open spec fn obj_pairs_model(pairs: Seq<(String, serde_json::Value)>) -> Map<
    Seq<char>,
    JsonModel,
>
    decreases pairs.len(),
{
    if pairs.len() == 0 {
        Map::empty()
    } else {
        obj_pairs_model(pairs.drop_last()).insert(pairs.last().0@, json_model(pairs.last().1))
    }
}

/// Relies on `serde_json::Value::Object` and `serde_json::Map`'s collection
/// from an iterator, where a later duplicate key overrides an earlier one.
#[verifier::external_body]
pub fn json_object(pairs: Vec<(String, serde_json::Value)>) -> (r: serde_json::Value)
    ensures
        json_model(r) == JsonModel::Obj(obj_pairs_model(pairs@)),
{
    serde_json::Value::Object(pairs.into_iter().collect())
}

/// Relies on `tinytemplate::error::Error::GenericError`, which carries the
/// message unchanged.
#[verifier::external_body]
pub fn tt_generic_error(msg: &str) -> tinytemplate::error::Error {
    tinytemplate::error::Error::GenericError { msg: msg.to_string() }
}

/// What the Markdown pass produces for a text: a function of the text alone.
pub uninterp spec fn html_of(md: Seq<char>) -> Seq<char>;

/// Relies on `pulldown_cmark::Parser::new_ext` (with every extension on) and
/// `pulldown_cmark::html::push_html`: one full Markdown-to-HTML pass over the
/// text, deterministic in the text alone.
#[verifier::external_body]
pub fn markdown_to_html(text: &str) -> (r: String)
    ensures
        r@ == html_of(text@),
{
    let parser = pulldown_cmark::Parser::new_ext(text, pulldown_cmark::Options::all());
    let mut html = String::new();
    pulldown_cmark::html::push_html(&mut html, parser);
    html
}

/// How one character is HTML-escaped.
pub open spec fn escape_char(c: char) -> Seq<char> {
    if c == '<' {
        seq!['&', 'l', 't', ';']
    } else if c == '>' {
        seq!['&', 'g', 't', ';']
    } else if c == '&' {
        seq!['&', 'a', 'm', 'p', ';']
    } else if c == '\'' {
        seq!['&', '#', '3', '9', ';']
    } else if c == '"' {
        seq!['&', 'q', 'u', 'o', 't', ';']
    } else {
        seq![c]
    }
}

/// A text with every character HTML-escaped.
pub open spec fn escape_spec(s: Seq<char>) -> Seq<char>
    decreases s.len(),
{
    if s.len() == 0 {
        Seq::empty()
    } else {
        escape_spec(s.drop_last()) + escape_char(s.last())
    }
}

proof fn lemma_escape_snoc(s: Seq<char>, i: int)
    requires
        0 <= i < s.len(),
    ensures
        escape_spec(s.subrange(0, i + 1)) == escape_spec(s.subrange(0, i)) + escape_char(s[i]),
{
    let t = s.subrange(0, i + 1);
    assert(t.drop_last() =~= s.subrange(0, i));
    assert(t.last() == s[i]);
}

proof fn lemma_escape_plain_run(s: Seq<char>, a: int, b: int)
    requires
        0 <= a <= b <= s.len(),
        forall|k: int| a <= k < b ==> escape_char(#[trigger] s[k]) == seq![s[k]],
    ensures
        escape_spec(s.subrange(0, b)) == escape_spec(s.subrange(0, a)) + s.subrange(a, b),
    decreases b - a,
{
    if a == b {
        assert(s.subrange(a, b).len() == 0);
        assert(escape_spec(s.subrange(0, a)) + s.subrange(a, b) =~= escape_spec(
            s.subrange(0, a),
        ));
    } else {
        lemma_escape_plain_run(s, a, b - 1);
        lemma_escape_snoc(s, b - 1);
        assert(escape_spec(s.subrange(0, a)) + s.subrange(a, b - 1) + seq![s[b - 1]]
            =~= escape_spec(s.subrange(0, a)) + s.subrange(a, b));
    }
}

/// Appends `s` to `out`, HTML-escaping the five special characters.
#[verifier::loop_isolation(false)]
pub fn escape_str(s: &str, out: &mut String)
    ensures
        final(out)@ == old(out)@ + escape_spec(s@),
{
    let len = s.unicode_len();
    let mut start: usize = 0;
    let mut i: usize = 0;
    while i < len
        invariant
            start <= i <= len,
            out@ == old(out)@ + escape_spec(s@.subrange(0, start as int)),
            forall|k: int| start <= k < i ==> escape_char(#[trigger] s@[k]) == seq![s@[k]],
        decreases len - i,
    {
        let c = s.get_char(i);
        if c == '<' || c == '>' || c == '&' || c == '\'' || c == '"' {
            out.append(s.substring_char(start, i));
            proof {
                lemma_escape_plain_run(s@, start as int, i as int);
                assert(out@ =~= old(out)@ + escape_spec(s@.subrange(0, i as int)));
            }
            if c == '<' {
                out.append("&lt;");
                proof {
                    reveal_strlit("&lt;");
                    assert("&lt;"@ =~= escape_char(c));
                }
            } else if c == '>' {
                out.append("&gt;");
                proof {
                    reveal_strlit("&gt;");
                    assert("&gt;"@ =~= escape_char(c));
                }
            } else if c == '&' {
                out.append("&amp;");
                proof {
                    reveal_strlit("&amp;");
                    assert("&amp;"@ =~= escape_char(c));
                }
            } else if c == '\'' {
                out.append("&#39;");
                proof {
                    reveal_strlit("&#39;");
                    assert("&#39;"@ =~= escape_char(c));
                }
            } else {
                out.append("&quot;");
                proof {
                    reveal_strlit("&quot;");
                    assert("&quot;"@ =~= escape_char(c));
                }
            }
            proof {
                lemma_escape_snoc(s@, i as int);
                assert(out@ =~= old(out)@ + escape_spec(s@.subrange(0, (i + 1) as int)));
            }
            start = i + 1;
        }
        i = i + 1;
    }
    out.append(s.substring_char(start, len));
    proof {
        lemma_escape_plain_run(s@, start as int, len as int);
        assert(s@.subrange(0, len as int) =~= s@);
        assert(out@ =~= old(out)@ + escape_spec(s@));
    }
}

pub open spec fn true_text() -> Seq<char> {
    seq!['t', 'r', 'u', 'e']
}

pub open spec fn false_text() -> Seq<char> {
    seq!['f', 'a', 'l', 's', 'e']
}

/// What the engine's default formatter appends for a value: nothing for null,
/// the literal texts for booleans and numbers, the HTML-escaped text for a
/// string — and nothing at all for an array or object, which it refuses.
pub open spec fn default_fmt(m: JsonModel) -> Option<Seq<char>> {
    match m {
        JsonModel::Null => Some(Seq::empty()),
        JsonModel::Bool(b) => Some(
            if b {
                true_text()
            } else {
                false_text()
            },
        ),
        JsonModel::Num(t) => Some(t),
        JsonModel::Str(s) => Some(escape_spec(s)),
        JsonModel::Arr(_) => None,
        JsonModel::Obj(_) => None,
    }
}

/// The engine's default formatting pass, value shape by value shape.
pub fn format_default(v: &serde_json::Value, out: &mut String) -> (r: Result<
    (),
    tinytemplate::error::Error,
>)
    ensures
        match default_fmt(json_model(*v)) {
            Some(t) => r is Ok && final(out)@ == old(out)@ + t,
            None => r is Err && final(out)@ == old(out)@,
        },
{
    if json_is_null(v) {
        proof {
            assert(out@ =~= old(out)@ + Seq::<char>::empty());
        }
        return Ok(());
    }
    match json_as_bool(v) {
        Some(b) => {
            if b {
                out.append("true");
                proof {
                    reveal_strlit("true");
                    assert("true"@ =~= true_text());
                }
            } else {
                out.append("false");
                proof {
                    reveal_strlit("false");
                    assert("false"@ =~= false_text());
                }
            }
            return Ok(());
        },
        None => {},
    }
    let number = json_number_text(v);
    match number {
        Some(t) => {
            out.append(t.as_str());
            return Ok(());
        },
        None => {},
    }
    match json_as_str(v) {
        Some(s) => {
            escape_str(s, out);
            return Ok(());
        },
        None => {},
    }
    Err(tt_generic_error("Expected a printable value but found array or object."))
}

/// What the Markdown formatter appends: a string runs through the full
/// Markdown pass; booleans and numbers keep their literal texts; null adds
/// nothing; an array or object is refused.
pub open spec fn markdown_fmt(m: JsonModel) -> Option<Seq<char>> {
    match m {
        JsonModel::Null => Some(Seq::empty()),
        JsonModel::Bool(b) => Some(
            if b {
                true_text()
            } else {
                false_text()
            },
        ),
        JsonModel::Num(t) => Some(t),
        JsonModel::Str(s) => Some(html_of(s)),
        JsonModel::Arr(_) => None,
        JsonModel::Obj(_) => None,
    }
}

/// The Markdown formatter available inside templates.
pub fn format_markdown(v: &serde_json::Value, out: &mut String) -> (r: Result<
    (),
    tinytemplate::error::Error,
>)
    ensures
        match markdown_fmt(json_model(*v)) {
            Some(t) => r is Ok && final(out)@ == old(out)@ + t,
            None => r is Err && final(out)@ == old(out)@,
        },
{
    match json_as_str(v) {
        Some(s) => {
            let html = markdown_to_html(s);
            out.append(html.as_str());
            return Ok(());
        },
        None => {},
    }
    if json_is_null(v) {
        proof {
            assert(out@ =~= old(out)@ + Seq::<char>::empty());
        }
        return Ok(());
    }
    match json_as_bool(v) {
        Some(b) => {
            if b {
                out.append("true");
                proof {
                    reveal_strlit("true");
                    assert("true"@ =~= true_text());
                }
            } else {
                out.append("false");
                proof {
                    reveal_strlit("false");
                    assert("false"@ =~= false_text());
                }
            }
            return Ok(());
        },
        None => {},
    }
    let number = json_number_text(v);
    match number {
        Some(t) => {
            out.append(t.as_str());
            return Ok(());
        },
        None => {},
    }
    Err(tt_generic_error("Expected a printable value but found array or object."))
}

pub open spec fn sep_text() -> Seq<char> {
    seq![',', ' ']
}

/// `parts` joined with a separator between neighbours.
pub open spec fn join_sep(parts: Seq<Seq<char>>, sep: Seq<char>) -> Seq<char>
    decreases parts.len(),
{
    if parts.len() == 0 {
        Seq::empty()
    } else if parts.len() == 1 {
        parts[0]
    } else {
        join_sep(parts.drop_last(), sep) + sep + parts.last()
    }
}

/// The text one element of a sequence contributes, where the default
/// formatter accepts it.
pub open spec fn default_text(m: JsonModel) -> Seq<char> {
    match default_fmt(m) {
        Some(t) => t,
        None => Seq::empty(),
    }
}

/// What the comma-separated formatter appends: only a sequence is accepted,
/// each element is run through the default formatting pass, and the texts are
/// joined with a comma.  A non-sequence, or a sequence with a composite
/// element, is refused.
pub open spec fn commasep_fmt(m: JsonModel) -> Option<Seq<char>> {
    match m {
        JsonModel::Arr(elems) => if forall|i: int|
            0 <= i < elems.len() ==> default_fmt(#[trigger] elems[i]) is Some {
            Some(join_sep(elems.map_values(|e: JsonModel| default_text(e)), sep_text()))
        } else {
            None
        },
        _ => None,
    }
}

/// The comma-separated list formatter available inside templates.
#[verifier::loop_isolation(false)]
pub fn format_commasep(v: &serde_json::Value, out: &mut String) -> (r: Result<
    (),
    tinytemplate::error::Error,
>)
    ensures
        match commasep_fmt(json_model(*v)) {
            Some(t) => r is Ok && final(out)@ == old(out)@ + t,
            None => r is Err && final(out)@ == old(out)@,
        },
{
    let arr = match json_as_array(v) {
        Some(a) => a,
        None => {
            return Err(tt_generic_error("Expected an array, got something else"));
        },
    };
    let ghost elems = arr@.map_values(|e: serde_json::Value| json_model(e));
    let mut strings: Vec<String> = Vec::new();
    let mut i: usize = 0;
    while i < arr.len()
        invariant
            i <= arr.len(),
            strings@.len() == i,
            forall|j: int| 0 <= j < i ==> default_fmt(#[trigger] elems[j]) is Some,
            forall|j: int| 0 <= j < i ==> strings@[j]@ == default_text(#[trigger] elems[j]),
        decreases arr.len() - i,
    {
        proof {
            assert(elems[i as int] == json_model(arr@[i as int]));
        }
        let mut piece = String::new();
        match format_default(&arr[i], &mut piece) {
            Ok(_) => {
                strings.push(piece);
            },
            Err(e) => {
                return Err(e);
            },
        }
        i = i + 1;
    }
    let mut joined = String::new();
    let ghost texts = elems.map_values(|e: JsonModel| default_text(e));
    let mut k: usize = 0;
    while k < strings.len()
        invariant
            k <= strings.len(),
            strings@.len() == texts.len(),
            forall|j: int| 0 <= j < strings@.len() ==> strings@[j]@ == texts[j],
            joined@ == join_sep(texts.subrange(0, k as int), sep_text()),
        decreases strings.len() - k,
    {
        if k > 0 {
            joined.append(", ");
            proof {
                reveal_strlit(", ");
                assert(", "@ =~= sep_text());
            }
        }
        joined.append(strings[k].as_str());
        proof {
            let pre = texts.subrange(0, k as int);
            let cur = texts.subrange(0, (k + 1) as int);
            assert(cur.drop_last() =~= pre);
            assert(cur.last() == texts[k as int]);
            if k == 0 {
                assert(joined@ =~= join_sep(cur, sep_text()));
            }
        }
        k = k + 1;
    }
    proof {
        assert(texts.subrange(0, texts.len() as int) =~= texts);
    }
    out.append(joined.as_str());
    Ok(())
}

} // verus!
