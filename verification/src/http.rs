use vstd::prelude::*;
use crate::expression::{ExprMap, Expression, SpecExpression, SpecPairs};
use crate::mapping::{map_get, map_insert};
use crate::server::{keyword_map, pairs_of};

verus! {

/// How the body of a response is read, by its content type.
#[derive(PartialEq, Eq, Structural, Clone, Copy, Debug)]
pub enum BodyKind {
    Json,
    Html,
    Text,
}

/// JSON for `application/json`, HTML for a type that starts with `text/html`, text
/// for anything else.
pub open spec fn spec_body_kind(content_type: Seq<char>) -> BodyKind {
    if content_type == "application/json"@ {
        BodyKind::Json
    } else if content_type.len() >= 9 && content_type.take(9) == "text/html"@ {
        BodyKind::Html
    } else {
        BodyKind::Text
    }
}

/// How a response with `content_type` is read.
pub fn body_kind(content_type: &str) -> (k: BodyKind)
    ensures
        k == spec_body_kind(content_type@),
{
    let chars = crate::strings::chars_of(content_type);
    let json = crate::strings::chars_of("application/json");
    let html = crate::strings::chars_of("text/html");
    proof {
        reveal_strlit("text/html");
    }
    if crate::expression::compare_chars(&chars, &json) == 0 {
        proof {
            crate::mapping::lemma_order_chars_zero(chars@, json@);
        }
        return BodyKind::Json;
    }
    proof {
        crate::mapping::lemma_order_chars_zero(chars@, json@);
    }
    if chars.len() < 9 {
        return BodyKind::Text;
    }
    let mut i: usize = 0;
    while i < 9
        invariant
            i <= 9 <= chars.len(),
            chars@ == content_type@,
            content_type@ != "application/json"@,
            html@ == "text/html"@,
            html@.len() == 9,
            forall|j: int| 0 <= j < i ==> chars@[j] == html@[j],
        decreases 9 - i,
    {
        if chars[i] != html[i] {
            assert(chars@.take(9)[i as int] != html@[i as int]);
            return BodyKind::Text;
        }
        i = i + 1;
    }
    assert(chars@.take(9) =~= html@);
    BodyKind::Html
}

/// The body of a response, read by its kind.
pub enum ResponseBody {
    Json(Expression),
    Html(Expression),
    Text(String),
}

/// The map a request gives back: `:status`, `:headers`, `:url`, then the body under
/// `:json`, `:html` or `:text`.
pub open spec fn spec_response_map(
    status: u16,
    headers: Seq<(Seq<char>, Seq<char>)>,
    url: Seq<char>,
    body: (Seq<char>, SpecExpression),
) -> SpecExpression {
    let m0 = map_insert(seq![], SpecExpression::Keyword(":status"@), SpecExpression::Integer(status as int));
    let m1 = map_insert(m0, SpecExpression::Keyword(":headers"@), SpecExpression::Mapping(keyword_map(seq![], headers)));
    let m2 = map_insert(m1, SpecExpression::Keyword(":url"@), SpecExpression::String(url));
    SpecExpression::Mapping(map_insert(m2, SpecExpression::Keyword(body.0), body.1))
}

/// The key and value a response body is stored under.
pub open spec fn body_entry(body: &ResponseBody) -> (Seq<char>, SpecExpression) {
    match body {
        ResponseBody::Json(e) => (":json"@, e@),
        ResponseBody::Html(e) => (":html"@, e@),
        ResponseBody::Text(t) => (":text"@, SpecExpression::String(t@)),
    }
}

/// The map a request gives back for a response.
pub fn response_map(status: u16, headers: &Vec<(String, String)>, url: String, body: ResponseBody) -> (r: Expression)
    ensures
        r@ == spec_response_map(status, pairs_of(headers@), url@, body_entry(&body)),
{
    let ghost entry = body_entry(&body);
    let mut m = ExprMap::new();
    m.insert(Expression::Keyword(":status".to_string()), Expression::Integer(crate::bignum::integer_from_usize(status as usize)));
    m.insert(Expression::Keyword(":headers".to_string()), Expression::Mapping(crate::server::keyword_map_exec(headers)));
    m.insert(Expression::Keyword(":url".to_string()), Expression::String(url));
    match body {
        ResponseBody::Json(e) => m.insert(Expression::Keyword(":json".to_string()), e),
        ResponseBody::Html(e) => m.insert(Expression::Keyword(":html".to_string()), e),
        ResponseBody::Text(t) => m.insert(Expression::Keyword(":text".to_string()), Expression::String(t)),
    }
    Expression::Mapping(m)
}

/// What a request is sent with, read from its options: the `:form`, `:json` and
/// `:query` entries of the options map.
pub struct RequestOptions {
    pub form: Option<Expression>,
    pub json: Option<Expression>,
    pub query: Option<Expression>,
}

/// An optional expression by its view.
pub open spec fn option_view(o: Option<Expression>) -> Option<SpecExpression> {
    match o {
        Some(e) => Some(e@),
        None => None,
    }
}

/// A copy of the value `key` is bound to in `m`, if any.
fn entry(m: &ExprMap, key: &str) -> (r: Option<Expression>)
    ensures
        option_view(r) == map_get(m@, SpecExpression::Keyword(key@)),
{
    match m.get(&Expression::Keyword(key.to_string())) {
        Some(e) => Some(e.clone()),
        None => None,
    }
}

/// The options a request is sent with; options that are not a map give none.
pub fn request_options(params: Option<&Expression>) -> (r: RequestOptions)
    ensures
        match params {
            Some(Expression::Mapping(m)) => {
                &&& option_view(r.form) == map_get(m@, SpecExpression::Keyword(":form"@))
                &&& option_view(r.json) == map_get(m@, SpecExpression::Keyword(":json"@))
                &&& option_view(r.query) == map_get(m@, SpecExpression::Keyword(":query"@))
            },
            _ => r.form is None && r.json is None && r.query is None,
        },
{
    match params {
        Some(Expression::Mapping(m)) => RequestOptions {
            form: entry(m, ":form"),
            json: entry(m, ":json"),
            query: entry(m, ":query"),
        },
        _ => RequestOptions { form: None, json: None, query: None },
    }
}

} // verus!
