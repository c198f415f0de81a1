use vstd::prelude::*;
use crate::effect::{Effect, error};
use crate::expression::{ExprMap, Expression, SpecExpression, SpecPairs};
use crate::lexer_spec::split_slash;
use crate::mapping::{map_get, map_insert};

verus! {

/// `(":" + name, value)` pairs made into a map from keywords to strings, inserted in order.
pub open spec fn keyword_map(acc: SpecPairs, pairs: Seq<(Seq<char>, Seq<char>)>) -> SpecPairs
    decreases pairs.len(),
{
    if pairs.len() == 0 {
        acc
    } else {
        keyword_map(
            map_insert(acc, SpecExpression::Keyword(seq![':'] + pairs[0].0), SpecExpression::String(pairs[0].1)),
            pairs.skip(1),
        )
    }
}

/// The view of name and value pairs.
pub open spec fn pairs_of(v: Seq<(String, String)>) -> Seq<(Seq<char>, Seq<char>)> {
    v.map_values(|p: (String, String)| (p.0@, p.1@))
}

/// The parameters a route binds: the parts of the route that start with `:`, each paired
/// with the part of the path at the same place.
pub open spec fn route_params_spec(route: Seq<Seq<char>>, path: Seq<Seq<char>>) -> Seq<(Seq<char>, Seq<char>)>
    decreases route.len(),
{
    if route.len() == 0 || path.len() == 0 {
        seq![]
    } else if route[0].len() > 0 && route[0][0] == ':' {
        seq![(route[0], path[0])] + route_params_spec(route.skip(1), path.skip(1))
    } else {
        route_params_spec(route.skip(1), path.skip(1))
    }
}

/// A map from keywords to strings, keywords used as they are.
pub open spec fn param_map(acc: SpecPairs, pairs: Seq<(Seq<char>, Seq<char>)>) -> SpecPairs
    decreases pairs.len(),
{
    if pairs.len() == 0 {
        acc
    } else {
        param_map(
            map_insert(acc, SpecExpression::Keyword(pairs[0].0), SpecExpression::String(pairs[0].1)),
            pairs.skip(1),
        )
    }
}

/// The body of a request, as far as the request map shows it.
pub enum RequestBody {
    Empty,
    Form(Vec<(String, String)>),
    Json(Expression),
}

/// `m` with `key` bound to `value` where `present`.
pub open spec fn insert_if(m: SpecPairs, present: bool, key: Seq<char>, value: SpecExpression) -> SpecPairs {
    if present { map_insert(m, SpecExpression::Keyword(key), value) } else { m }
}

/// The map a handler receives for a request: `:method`, `:path`, `:headers`, then
/// `:form` or `:json` for a non-empty body of that kind, `:query` and `:params` where
/// there are any.
pub open spec fn spec_request_map(
    route: Seq<char>,
    method: Seq<char>,
    path: Seq<char>,
    headers: Seq<(Seq<char>, Seq<char>)>,
    query: Seq<(Seq<char>, Seq<char>)>,
    body: Option<(bool, SpecExpression)>,
) -> SpecExpression {
    let params = route_params_spec(split_slash(route), split_slash(path));
    let m0 = map_insert(seq![], SpecExpression::Keyword(":method"@), SpecExpression::String(method));
    let m1 = map_insert(m0, SpecExpression::Keyword(":path"@), SpecExpression::String(path));
    let m2 = map_insert(m1, SpecExpression::Keyword(":headers"@), SpecExpression::Mapping(keyword_map(seq![], headers)));
    let m3 = match body {
        Some((true, SpecExpression::Mapping(f))) => insert_if(m2, f.len() > 0, ":form"@, SpecExpression::Mapping(f)),
        Some((false, SpecExpression::Mapping(j))) => insert_if(m2, j.len() > 0, ":json"@, SpecExpression::Mapping(j)),
        _ => m2,
    };
    let q = keyword_map(seq![], query);
    let m4 = insert_if(m3, q.len() > 0, ":query"@, SpecExpression::Mapping(q));
    let p = param_map(seq![], params);
    SpecExpression::Mapping(insert_if(m4, p.len() > 0, ":params"@, SpecExpression::Mapping(p)))
}

/// The body as the request map sees it: a form as a keyword map (marked `true`), a JSON
/// value (marked `false`).
pub open spec fn body_view(body: &RequestBody) -> Option<(bool, SpecExpression)> {
    match body {
        RequestBody::Empty => None,
        RequestBody::Form(f) => Some((true, SpecExpression::Mapping(keyword_map(seq![], pairs_of(f@))))),
        RequestBody::Json(e) => Some((false, e@)),
    }
}

pub(crate) fn keyword_map_exec(pairs: &Vec<(String, String)>) -> (m: ExprMap)
    ensures
        m@ == keyword_map(seq![], pairs_of(pairs@)),
{
    let ghost all = pairs_of(pairs@);
    assert(all.skip(0) =~= all);
    let mut m = ExprMap::new();
    let mut i: usize = 0;
    while i < pairs.len()
        invariant
            i <= pairs.len(),
            all == pairs_of(pairs@),
            all.len() == pairs.len(),
            keyword_map(seq![], all) == keyword_map(m@, all.skip(i as int)),
        decreases pairs.len() - i,
    {
        proof {
            assert(all.skip(i as int)[0] == all[i as int]);
            assert(all.skip(i as int).skip(1) =~= all.skip(i + 1));
        }
        let mut k = String::new();
        k.push(':');
        crate::printer::push_all(&mut k, pairs[i].0.as_str());
        assert(k@ =~= seq![':'] + all[i as int].0);
        m.insert(Expression::Keyword(k), Expression::String(pairs[i].1.clone()));
        i = i + 1;
    }
    assert(all.skip(i as int).len() == 0);
    m
}

fn split_on_slash(s: &str) -> (r: Vec<String>)
    ensures
        crate::token::strings_view(r@) == split_slash(s@),
{
    let chars = crate::strings::chars_of(s);
    let mut parts: Vec<String> = Vec::new();
    let mut cur = String::new();
    let mut i: usize = 0;
    assert(chars@.take(0) =~= Seq::<char>::empty());
    while i < chars.len()
        invariant
            i <= chars.len(),
            chars@ == s@,
            crate::token::strings_view(parts@).push(cur@) == split_slash(chars@.take(i as int)),
        decreases chars.len() - i,
    {
        let c = chars[i];
        proof {
            assert(chars@.take(i + 1).drop_last() =~= chars@.take(i as int));
            assert(chars@.take(i + 1).last() == c);
        }
        if c == '/' {
            let done = cur;
            let ghost v = crate::token::strings_view(parts@);
            parts.push(done);
            cur = String::new();
            proof {
                assert(crate::token::strings_view(parts@) =~= v.push(done@));
                assert(crate::token::strings_view(parts@).push(cur@) =~= v.push(done@).push(Seq::<char>::empty()));
            }
        } else {
            let ghost v = crate::token::strings_view(parts@);
            let ghost before = cur@;
            cur.push(c);
            proof {
                let p = v.push(before);
                assert(v.push(cur@) =~= p.update(p.len() - 1, p.last().push(c)));
            }
        }
        i = i + 1;
    }
    assert(chars@.take(chars.len() as int) =~= chars@);
    let ghost v = crate::token::strings_view(parts@);
    parts.push(cur);
    assert(crate::token::strings_view(parts@) =~= v.push(cur@));
    parts
}

/// The parameters a route binds in a path: `(":name", value)` for each part of the
/// route that starts with `:`.
pub fn route_params(route_path: &str, actual_path: &str) -> (r: Vec<(String, String)>)
    ensures
        pairs_of(r@) == route_params_spec(split_slash(route_path@), split_slash(actual_path@)),
{
    let route = split_on_slash(route_path);
    let path = split_on_slash(actual_path);
    let ghost rv = crate::token::strings_view(route@);
    let ghost pv = crate::token::strings_view(path@);
    let mut out: Vec<(String, String)> = Vec::new();
    let mut i: usize = 0;
    assert(rv.skip(0) =~= rv);
    assert(pv.skip(0) =~= pv);
    assert(pairs_of(out@) =~= Seq::<(Seq<char>, Seq<char>)>::empty());
    while i < route.len() && i < path.len()
        invariant
            i <= route.len(),
            i <= path.len(),
            rv == crate::token::strings_view(route@),
            pv == crate::token::strings_view(path@),
            rv == split_slash(route_path@),
            pv == split_slash(actual_path@),
            route_params_spec(rv, pv) == pairs_of(out@) + route_params_spec(rv.skip(i as int), pv.skip(i as int)),
        decreases route.len() - i,
    {
        proof {
            assert(rv.skip(i as int)[0] == route@[i as int]@);
            assert(pv.skip(i as int)[0] == path@[i as int]@);
            assert(rv.skip(i as int).skip(1) =~= rv.skip(i + 1));
            assert(pv.skip(i as int).skip(1) =~= pv.skip(i + 1));
        }
        let chars = crate::strings::chars_of(route[i].as_str());
        if chars.len() > 0 && chars[0] == ':' {
            let ghost before = pairs_of(out@);
            out.push((route[i].clone(), path[i].clone()));
            proof {
                assert(pairs_of(out@) =~= before.push((rv[i as int], pv[i as int])));
                assert(before + (seq![(rv[i as int], pv[i as int])] + route_params_spec(rv.skip(i + 1), pv.skip(i + 1)))
                    =~= before.push((rv[i as int], pv[i as int])) + route_params_spec(rv.skip(i + 1), pv.skip(i + 1)));
            }
        }
        i = i + 1;
    }
    assert(pairs_of(out@) + Seq::<(Seq<char>, Seq<char>)>::empty() =~= pairs_of(out@));
    out
}

fn param_map_exec(pairs: &Vec<(String, String)>) -> (m: ExprMap)
    ensures
        m@ == param_map(seq![], pairs_of(pairs@)),
{
    let ghost all = pairs_of(pairs@);
    assert(all.skip(0) =~= all);
    let mut m = ExprMap::new();
    let mut i: usize = 0;
    while i < pairs.len()
        invariant
            i <= pairs.len(),
            all == pairs_of(pairs@),
            all.len() == pairs.len(),
            param_map(seq![], all) == param_map(m@, all.skip(i as int)),
        decreases pairs.len() - i,
    {
        proof {
            assert(all.skip(i as int)[0] == all[i as int]);
            assert(all.skip(i as int).skip(1) =~= all.skip(i + 1));
        }
        m.insert(Expression::Keyword(pairs[i].0.clone()), Expression::String(pairs[i].1.clone()));
        i = i + 1;
    }
    assert(all.skip(i as int).len() == 0);
    m
}

fn keyword(name: &str) -> (e: Expression)
    ensures
        e@ == SpecExpression::Keyword(name@),
{
    Expression::Keyword(name.to_string())
}

/// The map a handler receives for a request to `route_path`.
pub fn request_map(
    route_path: &str,
    method: String,
    path: String,
    headers: &Vec<(String, String)>,
    query: &Vec<(String, String)>,
    body: RequestBody,
) -> (r: Expression)
    ensures
        r@ == spec_request_map(route_path@, method@, path@, pairs_of(headers@), pairs_of(query@), body_view(&body)),
{
    let ghost bv = body_view(&body);
    let params = route_params(route_path, path.as_str());
    let mut m = ExprMap::new();
    let ghost pathv = path@;
    m.insert(keyword(":method"), Expression::String(method));
    m.insert(keyword(":path"), Expression::String(path));
    m.insert(keyword(":headers"), Expression::Mapping(keyword_map_exec(headers)));
    match body {
        RequestBody::Form(f) => {
            let fm = keyword_map_exec(&f);
            if fm.len() > 0 {
                m.insert(keyword(":form"), Expression::Mapping(fm));
            }
        },
        RequestBody::Json(Expression::Mapping(j)) => {
            if j.len() > 0 {
                m.insert(keyword(":json"), Expression::Mapping(j));
            }
        },
        _ => {},
    }
    let q = keyword_map_exec(query);
    if q.len() > 0 {
        m.insert(keyword(":query"), Expression::Mapping(q));
    }
    let p = param_map_exec(&params);
    if p.len() > 0 {
        m.insert(keyword(":params"), Expression::Mapping(p));
    }
    Expression::Mapping(m)
}

/// How a handler's value is answered: text, an HTML document from its vector form, a
/// permanent redirect, or JSON.
pub enum Reply {
    Text(String),
    Html(Expression),
    Redirect(String),
    Json(Expression),
}

/// The answer a handler's value calls for; `None` for values that have none (a number,
/// a map whose `:redirect` is not a string, ...).
pub fn reply_for(e: Expression) -> (r: Option<Reply>)
    ensures
        match e@ {
            SpecExpression::String(s) => r matches Some(Reply::Text(t)) && t@ == s,
            SpecExpression::Array(_) => r matches Some(Reply::Html(x)) && x@ == e@,
            SpecExpression::Mapping(m) => match map_get(m, SpecExpression::Keyword(":redirect"@)) {
                Some(SpecExpression::String(url)) => r matches Some(Reply::Redirect(u)) && u@ == url,
                Some(_) => r is None,
                None => r matches Some(Reply::Json(x)) && x@ == e@,
            },
            _ => r is None,
        },
{
    let ghost ev = e@;
    match e {
        Expression::String(s) => Some(Reply::Text(s)),
        Expression::Array(_) => Some(Reply::Html(e)),
        Expression::Mapping(m) => {
            let url: Option<Option<String>> = match m.get(&keyword(":redirect")) {
                Some(Expression::String(u)) => Some(Some(u.clone())),
                Some(_) => Some(None),
                None => None,
            };
            match url {
                Some(Some(u)) => Some(Reply::Redirect(u)),
                Some(None) => None,
                None => Some(Reply::Json(Expression::Mapping(m))),
            }
        },
        _ => None,
    }
}

/// The port a server configuration names: `:port` as an integer that fits in 16 bits,
/// 3000 when it names none.
pub open spec fn spec_port(m: SpecPairs) -> Result<u16, Seq<char>> {
    match map_get(m, SpecExpression::Keyword(":port"@)) {
        Some(SpecExpression::Integer(i)) => if 0 <= i <= u16::MAX { Ok(i as u16) } else { Err("Port number out of range"@) },
        None => Ok(3000u16),
        _ => Err("Expected integer for :port"@),
    }
}

/// The port of a server configuration.
pub fn port(m: &ExprMap) -> (r: Result<u16, Effect>)
    ensures
        match r {
            Ok(p) => spec_port(m@) == Ok::<u16, Seq<char>>(p),
            Err(x) => spec_port(m@) == Err::<u16, Seq<char>>(x@),
        },
{
    match m.get(&keyword(":port")) {
        Some(Expression::Integer(i)) => match crate::bignum::integer_to_usize(i) {
            Some(n) => {
                if n <= 65535 {
                    Ok(n as u16)
                } else {
                    Err(error("Port number out of range"))
                }
            },
            None => Err(error("Port number out of range")),
        },
        None => Ok(3000),
        _ => Err(error("Expected integer for :port")),
    }
}

/// A route's part matches a path's part: it is a parameter (`:name`) or the same text.
pub open spec fn part_matches(route: Seq<char>, path: Seq<char>) -> bool {
    (route.len() > 0 && route[0] == ':') || route == path
}

/// A route such as `/users/:id` matches a path: as many parts, each matching.
pub open spec fn spec_route_matches(route: Seq<Seq<char>>, path: Seq<Seq<char>>) -> bool {
    route.len() == path.len() && forall|i: int| 0 <= i < route.len() ==> part_matches(#[trigger] route[i], path[i])
}

/// Whether the route `route_path` serves the path `actual_path`.
pub fn route_matches(route_path: &str, actual_path: &str) -> (r: bool)
    ensures
        r == spec_route_matches(split_slash(route_path@), split_slash(actual_path@)),
{
    let route = split_on_slash(route_path);
    let path = split_on_slash(actual_path);
    let ghost rv = crate::token::strings_view(route@);
    let ghost pv = crate::token::strings_view(path@);
    assert(rv.len() == route.len() && pv.len() == path.len());
    if route.len() != path.len() {
        return false;
    }
    let mut i: usize = 0;
    while i < route.len()
        invariant
            i <= route.len(),
            route.len() == path.len(),
            rv == crate::token::strings_view(route@),
            pv == crate::token::strings_view(path@),
            rv == split_slash(route_path@),
            pv == split_slash(actual_path@),
            rv.len() == route.len(),
            pv.len() == path.len(),
            forall|j: int| 0 <= j < i ==> part_matches(#[trigger] rv[j], pv[j]),
        decreases route.len() - i,
    {
        assert(rv[i as int] == route@[i as int]@);
        assert(pv[i as int] == path@[i as int]@);
        let r = &route[i];
        let is_param = r.as_str().unicode_len() > 0 && r.as_str().get_char(0) == ':';
        if !is_param && !crate::equality::string_equal(r, &path[i]) {
            assert(!part_matches(rv[i as int], pv[i as int]));
            return false;
        }
        i = i + 1;
    }
    true
}

} // verus!
