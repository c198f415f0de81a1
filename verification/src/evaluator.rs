use vstd::prelude::*;
use crate::builtins::{apply_values, last_value, value_outcome};
use crate::effect::{Effect, error};
use crate::equality::string_equal;
use crate::expression::{
    Builtin, Call, Environment, ExprMap, Expression, Function, Pattern, SpecEnv, SpecExpression,
    SpecPairs, SpecPatterns, clone_clauses, clone_vec, exprs_view, lemma_exprs_view,
    lemma_exprs_view_push, lemma_pairs_view, lemma_patterns_view, lemma_patterns_view_push,
    pairs_view, patterns_view,
};
use crate::printer::{push_all, push_shown, show};
use crate::semantics;
use crate::semantics::{Evaluated, combine, last_or_nil, mismatch, truthy};
use crate::mapping::env_insert;

verus! {

/// What an exec evaluation stands for: `None` is an abort.
pub open spec fn outcome(r: Option<Result<(Environment, Expression), Effect>>) -> Evaluated<(SpecEnv, SpecExpression)> {
    match r {
        Some(Ok((e, v))) => Evaluated::Done((e@, v@)),
        Some(Err(x)) => Evaluated::Failed(x@),
        None => Evaluated::Aborted,
    }
}

/// What an exec evaluation of several expressions stands for.
pub open spec fn list_outcome(r: Option<Result<Vec<Expression>, Effect>>) -> Evaluated<Seq<SpecExpression>> {
    match r {
        Some(Ok(vs)) => Evaluated::Done(exprs_view(vs@)),
        Some(Err(x)) => Evaluated::Failed(x@),
        None => Evaluated::Aborted,
    }
}

/// What an exec evaluation of several expressions, with the environment they leave,
/// stands for.
pub open spec fn list_env_outcome(r: Option<Result<(Vec<Expression>, Environment), Effect>>) -> Evaluated<Seq<SpecExpression>> {
    match r {
        Some(Ok((vs, _))) => Evaluated::Done(exprs_view(vs@)),
        Some(Err(x)) => Evaluated::Failed(x@),
        None => Evaluated::Aborted,
    }
}

/// What an exec computation of an environment stands for.
pub open spec fn env_outcome(r: Option<Result<Environment, Effect>>) -> Evaluated<SpecEnv> {
    match r {
        Some(Ok(e)) => Evaluated::Done(e@),
        Some(Err(x)) => Evaluated::Failed(x@),
        None => Evaluated::Aborted,
    }
}

/// The outcome of the elements not yet evaluated, combined with what was found so far:
/// the values, and the first failure if there was one.
pub open spec fn resume(vals: Seq<SpecExpression>, failure: Option<Seq<char>>, rest: Evaluated<Seq<SpecExpression>>) -> Evaluated<Seq<SpecExpression>> {
    match rest {
        Evaluated::Aborted => Evaluated::Aborted,
        Evaluated::Failed(m) => match failure {
            Some(f) => Evaluated::Failed(f),
            None => Evaluated::Failed(m),
        },
        Evaluated::Done(vs) => match failure {
            Some(f) => Evaluated::Failed(f),
            None => Evaluated::Done(vals + vs),
        },
    }
}

proof fn lemma_resume_done(vals: Seq<SpecExpression>, failure: Option<Seq<char>>, v: SpecExpression, rest: Evaluated<Seq<SpecExpression>>)
    ensures
        resume(vals, failure, combine(Evaluated::Done(v), rest)) == resume(vals.push(v), failure, rest),
{
    if let Evaluated::Done(vs) = rest {
        assert(vals + (seq![v] + vs) =~= vals.push(v) + vs);
    }
}

proof fn lemma_resume_failed(vals: Seq<SpecExpression>, failure: Option<Seq<char>>, m: Seq<char>, rest: Evaluated<Seq<SpecExpression>>)
    ensures
        resume(vals, failure, combine(Evaluated::Failed(m), rest)) == resume(
            vals,
            if failure is None { Some(m) } else { failure },
            rest,
        ),
{
}

spec fn failure_view(f: Option<Effect>) -> Option<Seq<char>> {
    match f {
        Some(x) => Some(x@),
        None => None::<Seq<char>>,
    }
}

/// The message of a pattern that does not match a value.
fn mismatch_error(pattern: &Expression, value: &Expression) -> (e: Effect)
    ensures
        e@ == mismatch(pattern@, value@),
{
    let mut s = String::new();
    push_all(&mut s, "Cannot pattern match ");
    push_shown(&mut s, pattern);
    push_all(&mut s, " with ");
    push_shown(&mut s, value);
    Effect::Error(s)
}

/// Binds the symbols of `pattern` to the parts of `value` they stand for, or says why
/// the value does not have the pattern's shape.
pub fn pattern_match(env: Environment, pattern: &Expression, value: &Expression) -> (r: Result<Environment, Effect>)
    ensures
        match r {
            Ok(e) => semantics::pattern_match(env@, pattern@, value@) == Ok::<SpecEnv, Seq<char>>(e@),
            Err(x) => semantics::pattern_match(env@, pattern@, value@) == Err::<SpecEnv, Seq<char>>(x@),
        },
    decreases pattern, 0nat,
{
    match pattern {
        Expression::Symbol(s) => {
            let mut env = env;
            env.insert(s.clone(), value.clone());
            Ok(env)
        },
        Expression::Keyword(k) => match value {
            Expression::Keyword(k2) => if string_equal(k, k2) {
                Ok(env)
            } else {
                Err(mismatch_error(pattern, value))
            },
            _ => Err(mismatch_error(pattern, value)),
        },
        Expression::String(k) => match value {
            Expression::String(k2) => if string_equal(k, k2) {
                Ok(env)
            } else {
                Err(mismatch_error(pattern, value))
            },
            _ => Err(mismatch_error(pattern, value)),
        },
        Expression::Integer(i) => match value {
            Expression::Integer(i2) => if crate::bignum::integer_order(i, i2) == 0 {
                Ok(env)
            } else {
                Err(mismatch_error(pattern, value))
            },
            _ => Err(mismatch_error(pattern, value)),
        },
        Expression::Nil => match value {
            Expression::Nil => Ok(env),
            _ => Err(mismatch_error(pattern, value)),
        },
        Expression::Array(ps) => match value {
            Expression::Array(vs) => match_all(env, ps, vs),
            _ => Err(mismatch_error(pattern, value)),
        },
        Expression::Mapping(pm) => match value {
            Expression::Mapping(m) => match_entries(env, &pm.entries, m),
            _ => Err(mismatch_error(pattern, value)),
        },
        _ => Err(mismatch_error(pattern, value)),
    }
}

/// Matches patterns and values pairwise, as far as the shorter of the two goes.
fn match_all(env: Environment, ps: &Vec<Expression>, vs: &Vec<Expression>) -> (r: Result<Environment, Effect>)
    ensures
        match r {
            Ok(e) => semantics::match_all(env@, exprs_view(ps@), exprs_view(vs@)) == Ok::<SpecEnv, Seq<char>>(e@),
            Err(x) => semantics::match_all(env@, exprs_view(ps@), exprs_view(vs@)) == Err::<SpecEnv, Seq<char>>(x@),
        },
    decreases ps@, 1nat,
{
    let ghost p = exprs_view(ps@);
    let ghost v = exprs_view(vs@);
    let ghost env0 = env@;
    proof {
        lemma_exprs_view(ps@);
        lemma_exprs_view(vs@);
        assert(p.skip(0) =~= p);
        assert(v.skip(0) =~= v);
    }
    let mut cur = env;
    let mut i: usize = 0;
    while i < ps.len() && i < vs.len()
        invariant
            i <= ps.len(),
            env0 == env@,
            i <= vs.len(),
            p == exprs_view(ps@),
            v == exprs_view(vs@),
            p.len() == ps.len(),
            v.len() == vs.len(),
            forall|j: int| 0 <= j < ps.len() ==> #[trigger] p[j] == ps@[j]@,
            forall|j: int| 0 <= j < vs.len() ==> #[trigger] v[j] == vs@[j]@,
            semantics::match_all(env0, p, v) == semantics::match_all(cur@, p.skip(i as int), v.skip(i as int)),
        decreases ps.len() - i,
    {
        proof {
            assert(p.skip(i as int)[0] == p[i as int]);
            assert(v.skip(i as int)[0] == v[i as int]);
            assert(p.skip(i as int).skip(1) =~= p.skip(i + 1));
            assert(v.skip(i as int).skip(1) =~= v.skip(i + 1));
        }
        match pattern_match(cur, &ps[i], &vs[i]) {
            Ok(e) => {
                cur = e;
            },
            Err(x) => {
                return Err(x);
            },
        }
        i = i + 1;
    }
    Ok(cur)
}

/// Matches the value pattern of each entry of a map pattern against the value that the
/// matched map binds to the entry's key.
fn match_entries(env: Environment, pm: &Vec<(Expression, Expression)>, m: &ExprMap) -> (r: Result<Environment, Effect>)
    ensures
        match r {
            Ok(e) => semantics::match_entries(env@, pairs_view(pm@), m@) == Ok::<SpecEnv, Seq<char>>(e@),
            Err(x) => semantics::match_entries(env@, pairs_view(pm@), m@) == Err::<SpecEnv, Seq<char>>(x@),
        },
    decreases pm@, 1nat,
{
    let ghost p = pairs_view(pm@);
    let ghost env0 = env@;
    proof {
        lemma_pairs_view(pm@);
        assert(p.skip(0) =~= p);
    }
    let mut cur = env;
    let mut i: usize = 0;
    while i < pm.len()
        invariant
            i <= pm.len(),
            env0 == env@,
            p == pairs_view(pm@),
            p.len() == pm.len(),
            forall|j: int| 0 <= j < pm.len() ==> #[trigger] p[j] == (pm@[j].0@, pm@[j].1@),
            semantics::match_entries(env0, p, m@) == semantics::match_entries(cur@, p.skip(i as int), m@),
        decreases pm.len() - i,
    {
        proof {
            assert(p.skip(i as int)[0] == p[i as int]);
            assert(p.skip(i as int).skip(1) =~= p.skip(i + 1));
        }
        match m.get(&pm[i].0) {
            Some(v) => match pattern_match(cur, &pm[i].1, v) {
                Ok(e) => {
                    cur = e;
                },
                Err(x) => {
                    return Err(x);
                },
            },
            None => {
                return Err(mismatch_error(&pm[i].0, &pm[i].1));
            },
        }
        i = i + 1;
    }
    Ok(cur)
}

/// The first clause whose parameters match the arguments, with the environment that binds
/// them; otherwise every clause's failure, one per line.
fn find_pattern_match(env: &Environment, patterns: &Vec<Pattern>, args: &Vec<Expression>) -> (r: Result<(Environment, usize), Effect>)
    ensures
        match r {
            Ok((e, i)) => i < patterns.len() && semantics::find_pattern_match(env@, patterns_view(patterns@), exprs_view(args@), seq![])
                == Ok::<(SpecEnv, Seq<SpecExpression>), Seq<char>>((e@, exprs_view(patterns@[i as int].body@))),
            Err(x) => semantics::find_pattern_match(env@, patterns_view(patterns@), exprs_view(args@), seq![])
                == Err::<(SpecEnv, Seq<SpecExpression>), Seq<char>>(x@),
        },
{
    let ghost ps = patterns_view(patterns@);
    proof {
        lemma_patterns_view(patterns@);
        assert(ps.skip(0) =~= ps);
    }
    let mut failures = String::new();
    let mut i: usize = 0;
    while i < patterns.len()
        invariant
            i <= patterns.len(),
            ps == patterns_view(patterns@),
            ps.len() == patterns.len(),
            forall|j: int| 0 <= j < patterns.len() ==> #[trigger] ps[j] == (
                exprs_view(patterns@[j].parameters@),
                exprs_view(patterns@[j].body@),
            ),
            semantics::find_pattern_match(env@, ps, exprs_view(args@), seq![])
                == semantics::find_pattern_match(env@, ps.skip(i as int), exprs_view(args@), failures@),
        decreases patterns.len() - i,
    {
        proof {
            assert(ps.skip(i as int)[0] == ps[i as int]);
            assert(ps.skip(i as int).skip(1) =~= ps.skip(i + 1));
        }
        match match_all(env.clone(), &patterns[i].parameters, args) {
            Ok(e) => {
                return Ok((e, i));
            },
            Err(x) => {
                let ghost before = failures@;
                push_all(&mut failures, "#effect::error(");
                match &x {
                    Effect::Error(m) => push_all(&mut failures, m.as_str()),
                }
                push_all(&mut failures, ")\n");
                assert(failures@ =~= before + "#effect::error("@ + x@ + ")\n"@);
            },
        }
        i = i + 1;
    }
    Err(Effect::Error(failures))
}

/// A copy of `v[from..]`.
pub fn clone_tail(v: &Vec<Expression>, from: usize) -> (r: Vec<Expression>)
    requires
        from <= v.len(),
    ensures
        exprs_view(r@) == exprs_view(v@).skip(from as int),
{
    proof {
        lemma_exprs_view(v@);
    }
    let mut r: Vec<Expression> = Vec::new();
    let mut i = from;
    assert(exprs_view(r@) =~= exprs_view(v@).subrange(from as int, from as int));
    while i < v.len()
        invariant
            from <= i <= v.len(),
            exprs_view(v@).len() == v.len(),
            forall|j: int| 0 <= j < v.len() ==> #[trigger] exprs_view(v@)[j] == v@[j]@,
            exprs_view(r@) == exprs_view(v@).subrange(from as int, i as int),
        decreases v.len() - i,
    {
        let e = v[i].clone();
        proof {
            lemma_exprs_view_push(r@, e);
            assert(exprs_view(v@).subrange(from as int, i as int).push(e@) =~= exprs_view(v@).subrange(from as int, i + 1));
        }
        r.push(e);
        i = i + 1;
    }
    r
}

/// The two-element argument list `[a, b]`.
fn pair_of(a: Expression, b: Expression) -> (r: Vec<Expression>)
    ensures
        exprs_view(r@) == seq![a@, b@],
{
    let mut r: Vec<Expression> = Vec::new();
    proof {
        lemma_exprs_view_push(r@, a);
    }
    r.push(a);
    proof {
        lemma_exprs_view_push(r@, b);
    }
    r.push(b);
    assert(exprs_view(r@) =~= seq![a@, b@]);
    r
}

/// Whether an expression counts as true.
pub fn truthy_exec(e: &Expression) -> (b: bool)
    ensures
        b == truthy(e@),
{
    match e {
        Expression::Nil => false,
        Expression::Bool(b) => *b,
        _ => true,
    }
}

/// The message for an unbound symbol.
fn not_found(name: &String) -> (e: Effect)
    ensures
        e@ == "Symbol "@ + name@ + " not found in environment"@,
{
    let mut s = String::new();
    push_all(&mut s, "Symbol ");
    push_all(&mut s, name.as_str());
    push_all(&mut s, " not found in environment");
    Effect::Error(s)
}

/// A namespaced symbol: the first name looked up, each further one in the module that
/// the previous one names.
fn eval_path(env: &Environment, parts: &Vec<String>) -> (r: Option<Result<Expression, Effect>>)
    ensures
        value_outcome(r) == semantics::eval_path(env@, crate::token::strings_view(parts@)),
{
    let ghost pv = crate::token::strings_view(parts@);
    assert(pv.skip(0) =~= pv);
    if parts.len() == 0 {
        return None;
    }
    let mut cur: &Environment = env;
    let mut i: usize = 0;
    while i < parts.len()
        invariant
            i < parts.len(),
            pv == crate::token::strings_view(parts@),
            pv.len() == parts.len(),
            semantics::eval_path(env@, pv) == semantics::eval_path(cur@, pv.skip(i as int)),
        decreases parts.len() - i,
    {
        proof {
            assert(pv.skip(i as int)[0] == parts@[i as int]@);
            assert(pv.skip(i as int).skip(1) =~= pv.skip(i + 1));
        }
        match cur.get(&parts[i]) {
            None => {
                return Some(Err(not_found(&parts[i])));
            },
            Some(v) => {
                if i + 1 == parts.len() {
                    return Some(Ok(v.clone()));
                }
                match v {
                    Expression::Module(m) => {
                        cur = m;
                    },
                    _ => {
                        return Some(Err(error("Expected module")));
                    },
                }
            },
        }
        i = i + 1;
    }
    None
}

/// The value of `e` in `env`, with the environment it leaves.
fn eval_at(env: Environment, e: &Expression, fuel: u64) -> (r: Option<Result<(Environment, Expression), Effect>>)
    ensures
        outcome(r) == semantics::spec_evaluate(env@, e@, fuel as nat),
    decreases fuel, 0nat, 0nat,
{
    if fuel == 0 {
        return None;
    }
    let f = fuel - 1;
    match e {
        Expression::Symbol(s) => match env.get(s) {
            Some(v) => {
                let v2 = v.clone();
                Some(Ok((env, v2)))
            },
            None => Some(Err(not_found(s))),
        },
        Expression::NamespacedSymbol(parts) => match eval_path(&env, parts) {
            Some(Ok(v)) => Some(Ok((env, v))),
            Some(Err(x)) => Some(Err(x)),
            None => None,
        },
        Expression::Call(c) => eval_call(env, &c.function, &c.arguments, f),
        Expression::Array(es) => match eval_list_env(&env, es, f) {
            Some(Ok((vs, e2))) => Some(Ok((e2, Expression::Array(vs)))),
            Some(Err(x)) => Some(Err(x)),
            None => None,
        },
        Expression::Mapping(m) => eval_entries(env, &m.entries, f),
        Expression::Quote(x) => Some(Ok((env, (**x).clone()))),
        Expression::Deref(x) => match eval_at(env, x, f) {
            Some(Ok((e1, v))) => Some(deref_value(e1, &v)),
            Some(Err(x)) => Some(Err(x)),
            None => None,
        },
        _ => Some(Ok((env, e.clone()))),
    }
}

/// Each expression evaluated in `env`, one after the other, with the environment the
/// list leaves: `env` with the atoms as the expressions left them.
fn eval_list_env(env: &Environment, es: &Vec<Expression>, fuel: u64) -> (r: Option<Result<(Vec<Expression>, Environment), Effect>>)
    ensures
        list_env_outcome(r) == semantics::eval_list(env@, exprs_view(es@), fuel as nat),
        r matches Some(Ok((vs, e))) ==> vs.len() == es.len() && e@ == semantics::list_env(env@, exprs_view(es@), fuel as nat),
    decreases fuel, 1nat, 0nat,
{
    let ghost all = exprs_view(es@);
    proof {
        lemma_exprs_view(es@);
        assert(all.skip(0) =~= all);
        assert(exprs_view(Seq::<Expression>::empty()) =~= Seq::<SpecExpression>::empty());
        if let Evaluated::Done(vs) = semantics::eval_list(env@, all, fuel as nat) {
            assert(Seq::<SpecExpression>::empty() + vs =~= vs);
        }
    }
    let mut values: Vec<Expression> = Vec::new();
    let mut failure: Option<Effect> = None;
    let mut cur = env.clone();
    let mut i: usize = 0;
    while i < es.len()
        invariant
            i <= es.len(),
            all == exprs_view(es@),
            all.len() == es.len(),
            forall|j: int| 0 <= j < es.len() ==> #[trigger] all[j] == es@[j]@,
            failure is None ==> values.len() == i,
            semantics::eval_list(env@, all, fuel as nat) == resume(
                exprs_view(values@),
                failure_view(failure),
                semantics::eval_list(cur@, all.skip(i as int), fuel as nat),
            ),
            semantics::list_env(env@, all, fuel as nat) == semantics::list_env(cur@, all.skip(i as int), fuel as nat),
        decreases es.len() - i,
    {
        proof {
            assert(all.skip(i as int)[0] == all[i as int]);
            assert(all.skip(i as int).skip(1) =~= all.skip(i + 1));
        }
        let r = eval_at(cur.clone(), &es[i], fuel);
        match r {
            None => {
                return None;
            },
            Some(Ok((e1, v))) => {
                let next = share_store(cur, &e1);
                proof {
                    lemma_resume_done(exprs_view(values@), failure_view(failure), v@,
                        semantics::eval_list(next@, all.skip(i + 1), fuel as nat));
                    lemma_exprs_view_push(values@, v);
                }
                cur = next;
                if failure.is_none() {
                    values.push(v);
                }
            },
            Some(Err(x)) => {
                proof {
                    lemma_resume_failed(exprs_view(values@), failure_view(failure), x@,
                        semantics::eval_list(cur@, all.skip(i + 1), fuel as nat));
                }
                if failure.is_none() {
                    failure = Some(x);
                }
            },
        }
        i = i + 1;
    }
    proof {
        assert(all.skip(i as int) =~= Seq::<SpecExpression>::empty());
        assert(exprs_view(values@) + Seq::<SpecExpression>::empty() =~= exprs_view(values@));
    }
    match failure {
        Some(x) => Some(Err(x)),
        None => Some(Ok((values, cur))),
    }
}

/// Each expression evaluated in `env`, one after the other.
fn eval_list(env: &Environment, es: &Vec<Expression>, fuel: u64) -> (r: Option<Result<Vec<Expression>, Effect>>)
    ensures
        list_outcome(r) == semantics::eval_list(env@, exprs_view(es@), fuel as nat),
        r matches Some(Ok(vs)) ==> vs.len() == es.len(),
    decreases fuel, 1nat, 1nat,
{
    match eval_list_env(env, es, fuel) {
        Some(Ok((vs, _))) => Some(Ok(vs)),
        Some(Err(x)) => Some(Err(x)),
        None => None,
    }
}

/// The entries of a map literal, keys and values evaluated in order, each in the
/// environment the previous one left.
fn eval_entries(env: Environment, ps: &Vec<(Expression, Expression)>, fuel: u64) -> (r: Option<Result<(Environment, Expression), Effect>>)
    ensures
        outcome(r) == match semantics::eval_entries(env@, pairs_view(ps@), seq![], fuel as nat) {
            Evaluated::Done((e2, m)) => Evaluated::Done((e2, SpecExpression::Mapping(m))),
            Evaluated::Failed(m) => Evaluated::Failed(m),
            Evaluated::Aborted => Evaluated::Aborted,
        },
    decreases fuel, 1nat, 0nat,
{
    let ghost all = pairs_view(ps@);
    let ghost env0 = env@;
    proof {
        lemma_pairs_view(ps@);
        assert(all.skip(0) =~= all);
    }
    let mut cur = env;
    let mut acc = ExprMap::new();
    let mut i: usize = 0;
    while i < ps.len()
        invariant
            i <= ps.len(),
            env0 == env@,
            all == pairs_view(ps@),
            all.len() == ps.len(),
            forall|j: int| 0 <= j < ps.len() ==> #[trigger] all[j] == (ps@[j].0@, ps@[j].1@),
            semantics::eval_entries(env0, all, seq![], fuel as nat)
                == semantics::eval_entries(cur@, all.skip(i as int), acc@, fuel as nat),
        decreases ps.len() - i,
    {
        proof {
            assert(all.skip(i as int)[0] == all[i as int]);
            assert(all.skip(i as int).skip(1) =~= all.skip(i + 1));
        }
        match eval_at(cur, &ps[i].0, fuel) {
            Some(Ok((e1, k))) => match eval_at(e1, &ps[i].1, fuel) {
                Some(Ok((e2, v))) => {
                    acc.insert(k, v);
                    cur = e2;
                },
                Some(Err(x)) => {
                    return Some(Err(x));
                },
                None => {
                    return None;
                },
            },
            Some(Err(x)) => {
                return Some(Err(x));
            },
            None => {
                return None;
            },
        }
        i = i + 1;
    }
    proof {
        assert(all.skip(i as int) =~= Seq::<(SpecExpression, SpecExpression)>::empty());
    }
    Some(Ok((cur, Expression::Mapping(acc))))
}

/// The function value that a `Function` stands for.
fn function_value(fd: &Function) -> (r: Expression)
    ensures
        r@ == SpecExpression::Function(fd.env@, patterns_view(fd.patterns@)),
{
    Expression::Function(Function { env: fd.env.clone(), patterns: clone_clauses(&fd.patterns) })
}

/// The environment a clause's body runs in.
fn body_env(bound: Environment, fd: &Function) -> (r: Environment)
    ensures
        r@ == semantics::body_env(bound@, fd.env@, patterns_view(fd.patterns@)),
{
    let mut e1 = bound;
    e1.insert("recur".to_string(), function_value(fd));
    let self_key = "*self*".to_string();
    let name: Option<String> = match e1.get(&self_key) {
        Some(Expression::Symbol(n)) => Some(n.clone()),
        _ => None,
    };
    match name {
        Some(n) => {
            e1.insert(n, function_value(fd));
            e1
        },
        None => e1,
    }
}

/// The message for calling a value that is not a function.
fn cannot_call(v: &Expression) -> (e: Effect)
    ensures
        e@ == "Cannot call "@ + show(v@),
{
    let mut s = String::new();
    push_all(&mut s, "Cannot call ");
    push_shown(&mut s, v);
    Effect::Error(s)
}

/// The message for calling a keyword on a value that is not a map.
fn cannot_call_keyword(k: &String, v: &Expression) -> (e: Effect)
    ensures
        e@ == "Cannot call keyword "@ + k@ + " on "@ + show(v@),
{
    let mut s = String::new();
    push_all(&mut s, "Cannot call keyword ");
    push_all(&mut s, k.as_str());
    push_all(&mut s, " on ");
    push_shown(&mut s, v);
    Effect::Error(s)
}

/// A call: the function is evaluated, then applied to the arguments.
fn eval_call(env: Environment, func: &Expression, args: &Vec<Expression>, fuel: u64) -> (r: Option<Result<(Environment, Expression), Effect>>)
    ensures
        outcome(r) == semantics::eval_call(env@, func@, exprs_view(args@), fuel as nat),
    decreases fuel, 5nat, 0nat,
{
    match eval_at(env, func, fuel) {
        Some(Ok((env1, fv))) => match &fv {
            Expression::Function(fd) => apply_function(env1, fd, args, fuel),
            Expression::NativeFunction(b) => apply_builtin(*b, env1, args, fuel),
            Expression::Keyword(k) => match eval_list_env(&env1, args, fuel) {
                Some(Ok((vs, e2))) => {
                    proof {
                        lemma_exprs_view(vs@);
                    }
                    if vs.len() == 0 {
                        return None;
                    }
                    match &vs[0] {
                        Expression::Mapping(m) => {
                            let key = Expression::Keyword(k.clone());
                            match m.get(&key) {
                                Some(v) => {
                                    let v2 = v.clone();
                                    Some(Ok((e2, v2)))
                                },
                                None => {
                                    let d = if vs.len() == 2 { vs[1].clone() } else { Expression::Nil };
                                    Some(Ok((e2, d)))
                                },
                            }
                        },
                        other => Some(Err(cannot_call_keyword(k, other))),
                    }
                },
                Some(Err(x)) => Some(Err(x)),
                None => None,
            },
            Expression::Mapping(m) => match eval_list_env(&env1, args, fuel) {
                Some(Ok((vs, e2))) => {
                    proof {
                        lemma_exprs_view(vs@);
                    }
                    if vs.len() == 0 {
                        return None;
                    }
                    match m.get(&vs[0]) {
                        Some(v) => {
                            let v2 = v.clone();
                            Some(Ok((e2, v2)))
                        },
                        None => {
                            let d = if vs.len() == 2 { vs[1].clone() } else { Expression::Nil };
                            Some(Ok((e2, d)))
                        },
                    }
                },
                Some(Err(x)) => Some(Err(x)),
                None => None,
            },
            other => Some(Err(cannot_call(other))),
        },
        Some(Err(x)) => Some(Err(x)),
        None => None,
    }
}

/// Applies a function value to arguments, keeping the caller's environment.
fn apply_function(env: Environment, fd: &Function, args: &Vec<Expression>, fuel: u64) -> (r: Option<Result<(Environment, Expression), Effect>>)
    ensures
        outcome(r) == semantics::apply_function(env@, fd.env@, patterns_view(fd.patterns@), exprs_view(args@), fuel as nat),
    decreases fuel, 4nat, 0nat,
{
    match eval_list_env(&env, args, fuel) {
        Some(Ok((vs, ea))) => match find_pattern_match(&fd.env, &fd.patterns, &vs) {
            Ok((bound, i)) => {
                let benv = share_store(body_env(bound, fd), &ea);
                match eval_list_env(&benv, &fd.patterns[i].body, fuel) {
                    Some(Ok((results, eb))) => {
                        let v = last_value(&results);
                        Some(Ok((share_store(ea, &eb), v)))
                    },
                    Some(Err(x)) => Some(Err(x)),
                    None => None,
                }
            },
            Err(x) => Some(Err(x)),
        },
        Some(Err(x)) => Some(Err(x)),
        None => None,
    }
}

fn evaluates_arguments(b: Builtin) -> (r: bool)
    ensures
        r == semantics::evaluates_arguments(b),
{
    match b {
        Builtin::Equal | Builtin::Subtract | Builtin::Divide | Builtin::Str | Builtin::Do
        | Builtin::Range | Builtin::Assoc | Builtin::Dissoc | Builtin::Merge | Builtin::Get
        | Builtin::Nth | Builtin::Count | Builtin::SqlString | Builtin::HtmlToString => true,
        _ => false,
    }
}

/// Applies a builtin to its unevaluated arguments.
fn apply_builtin(b: Builtin, env: Environment, a: &Vec<Expression>, fuel: u64) -> (r: Option<Result<(Environment, Expression), Effect>>)
    ensures
        outcome(r) == semantics::apply_builtin(b, env@, exprs_view(a@), fuel as nat),
    decreases fuel, 4nat, 0nat,
{
    let is_add = match b {
        Builtin::Add | Builtin::Multiply => true,
        _ => false,
    };
    if evaluates_arguments(b) || (is_add && a.len() > 0) {
        proof {
            lemma_exprs_view(a@);
        }
        match eval_list_env(&env, a, fuel) {
            Some(Ok((vs, ea))) => match apply_values(b, &vs) {
                Some(Ok(v)) => Some(Ok((ea, v))),
                Some(Err(x)) => Some(Err(x)),
                None => None,
            },
            Some(Err(x)) => Some(Err(x)),
            None => None,
        }
    } else {
        apply_special(b, env, a, fuel)
    }
}

/// The builtins that treat their arguments themselves.
fn apply_special(b: Builtin, env: Environment, a: &Vec<Expression>, fuel: u64) -> (r: Option<Result<(Environment, Expression), Effect>>)
    ensures
        outcome(r) == semantics::apply_special(b, env@, exprs_view(a@), fuel as nat),
    decreases fuel, 3nat, 1nat,
{
    proof {
        lemma_exprs_view(a@);
    }
    match b {
        Builtin::Add => Some(Ok((env, Expression::Integer(crate::numerics::Integer::from_i64(0))))),
        Builtin::Multiply => Some(Ok((env, Expression::Integer(crate::numerics::Integer::from_i64(1))))),
        Builtin::If => builtin_if(env, a, fuel),
        Builtin::Def => builtin_def(env, a, fuel),
        Builtin::Fn => builtin_fn(env, a),
        Builtin::Defn => builtin_defn(env, a, fuel),
        Builtin::Eval => builtin_eval(env, a, fuel),
        Builtin::ReadString => builtin_read_string(env, a, fuel),
        Builtin::Assert => builtin_assert(env, a, fuel),
        Builtin::Let => builtin_let(env, a, fuel),
        Builtin::For => builtin_for(env, a, fuel),
        Builtin::Bound => builtin_bound(env, a),
        Builtin::ThreadFirst => builtin_thread(env, a, fuel),
        Builtin::When => builtin_when(env, a, fuel),
        Builtin::Inc => builtin_inc(env, a, fuel),
        Builtin::Atom => builtin_atom(env, a, fuel),
        Builtin::Reset => builtin_reset(env, a, fuel),
        Builtin::Swap => builtin_swap(env, a, fuel),
        Builtin::SqlConnect | Builtin::SqlQuery | Builtin::SqlExecute | Builtin::SqlTables
        | Builtin::IoReadFile | Builtin::IoWriteFile | Builtin::Import | Builtin::HttpGet
        | Builtin::HttpPost | Builtin::ServerStart | Builtin::ServerStop | Builtin::JsonToString
        | Builtin::JsonFromString => Some(Err(error("Input and output run only as top-level forms"))),
        _ => None,
    }
}

/// The values of the atoms of `env`.
fn store_of(env: &Environment) -> (r: Vec<Expression>)
    ensures
        exprs_view(r@) == semantics::atom_store(env@),
{
    match env.get(&" atoms".to_string()) {
        Some(Expression::Array(xs)) => clone_vec(xs),
        _ => {
            let r: Vec<Expression> = Vec::new();
            assert(exprs_view(r@) =~= Seq::<SpecExpression>::empty());
            r
        },
    }
}

/// `env` with its atoms holding `xs`.
fn with_store(env: Environment, xs: Vec<Expression>) -> (r: Environment)
    ensures
        r@ == semantics::with_store(env@, exprs_view(xs@)),
{
    let mut e = env;
    e.insert(" atoms".to_string(), Expression::Array(xs));
    e
}

/// `target` with the atoms of `source`.
fn share_store(target: Environment, source: &Environment) -> (r: Environment)
    ensures
        r@ == semantics::share_store(target@, source@),
{
    let key = " atoms".to_string();
    match source.get(&key) {
        Some(s) => {
            let same = match target.get(&key) {
                Some(t) => crate::equality::expr_equal(s, t),
                None => false,
            };
            if same {
                target
            } else {
                let v = s.clone();
                let mut t = target;
                t.insert(key, v);
                t
            }
        },
        None => target,
    }
}

/// The value an atom holds.
fn deref_value(env: Environment, v: &Expression) -> (r: Result<(Environment, Expression), Effect>)
    ensures
        outcome(Some(r)) == semantics::deref_value(env@, v@),
{
    match v {
        Expression::Atom(i) => {
            let xs = store_of(&env);
            proof {
                lemma_exprs_view(xs@);
            }
            if *i < xs.len() {
                let x = xs[*i].clone();
                Ok((env, x))
            } else {
                Err(error("Expected atom"))
            }
        },
        _ => Err(error("Expected atom")),
    }
}

fn builtin_atom(env: Environment, a: &Vec<Expression>, fuel: u64) -> (r: Option<Result<(Environment, Expression), Effect>>)
    ensures
        outcome(r) == semantics::special_atom(env@, exprs_view(a@), fuel as nat),
    decreases fuel, 3nat, 0nat,
{
    proof {
        lemma_exprs_view(a@);
    }
    if a.len() == 0 {
        return None;
    }
    match eval_at(env, &a[0], fuel) {
        Some(Ok((e1, v))) => {
            let mut xs = store_of(&e1);
            let id = xs.len();
            proof {
                lemma_exprs_view(xs@);
                lemma_exprs_view_push(xs@, v);
            }
            xs.push(v);
            Some(Ok((with_store(e1, xs), Expression::Atom(id))))
        },
        Some(Err(x)) => Some(Err(x)),
        None => None,
    }
}

/// The index of the atom that `vs[0]` is, in `env`.
fn atom_index(env: &Environment, vs: &Vec<Expression>) -> (r: Option<Result<usize, Effect>>)
    ensures
        match r {
            Some(Ok(i)) => semantics::atom_index(env@, exprs_view(vs@)) == Evaluated::Done(i as nat),
            Some(Err(x)) => semantics::atom_index(env@, exprs_view(vs@)) == Evaluated::<nat>::Failed(x@),
            None => semantics::atom_index(env@, exprs_view(vs@)) is Aborted,
        },
{
    proof {
        lemma_exprs_view(vs@);
    }
    if vs.len() == 0 {
        return None;
    }
    match &vs[0] {
        Expression::Atom(i) => {
            let xs = store_of(env);
            proof {
                lemma_exprs_view(xs@);
            }
            if *i < xs.len() {
                Some(Ok(*i))
            } else {
                Some(Err(error("Expected atom")))
            }
        },
        _ => Some(Err(error("Expected atom"))),
    }
}

fn builtin_reset(env: Environment, a: &Vec<Expression>, fuel: u64) -> (r: Option<Result<(Environment, Expression), Effect>>)
    ensures
        outcome(r) == semantics::special_reset(env@, exprs_view(a@), fuel as nat),
    decreases fuel, 3nat, 0nat,
{
    match eval_list_env(&env, a, fuel) {
        Some(Ok((vs, ea))) => {
            proof {
                lemma_exprs_view(vs@);
            }
            match atom_index(&ea, &vs) {
                Some(Ok(i)) => {
                    if vs.len() < 2 {
                        return None;
                    }
                    let mut xs = store_of(&ea);
                    proof {
                        lemma_exprs_view(xs@);
                    }
                    let ghost old_xs = xs@;
                    xs.set(i, vs[1].clone());
                    proof {
                        lemma_exprs_view(xs@);
                        assert(exprs_view(xs@) =~= exprs_view(old_xs).update(i as int, vs@[1]@));
                    }
                    Some(Ok((with_store(ea, xs), Expression::Nil)))
                },
                Some(Err(x)) => Some(Err(x)),
                None => None,
            }
        },
        Some(Err(x)) => Some(Err(x)),
        None => None,
    }
}

fn builtin_swap(env: Environment, a: &Vec<Expression>, fuel: u64) -> (r: Option<Result<(Environment, Expression), Effect>>)
    ensures
        outcome(r) == semantics::special_swap(env@, exprs_view(a@), fuel as nat),
    decreases fuel, 3nat, 0nat,
{
    match eval_list_env(&env, a, fuel) {
        Some(Ok((vs, ea))) => {
            proof {
                lemma_exprs_view(vs@);
            }
            match atom_index(&ea, &vs) {
                Some(Ok(i)) => {
                    if vs.len() < 2 {
                        return None;
                    }
                    let xs = store_of(&ea);
                    proof {
                        lemma_exprs_view(xs@);
                    }
                    let mut args: Vec<Expression> = Vec::new();
                    let old_value = xs[i].clone();
                    proof {
                        lemma_exprs_view_push(args@, old_value);
                    }
                    args.push(old_value);
                    assert(exprs_view(args@) =~= seq![semantics::atom_store(ea@)[i as int]]);
                    let call = Expression::Call(Call { function: Box::new(vs[1].clone()), arguments: args });
                    match eval_at(ea, &call, fuel) {
                        Some(Ok((e1, nv))) => {
                            let mut ys = store_of(&e1);
                            proof {
                                lemma_exprs_view(ys@);
                            }
                            if i < ys.len() {
                                let ghost old_ys = ys@;
                                proof {
                                    lemma_exprs_view(ys@);
                                }
                                ys.set(i, nv);
                                proof {
                                    lemma_exprs_view(ys@);
                                    assert(exprs_view(ys@) =~= exprs_view(old_ys).update(i as int, nv@));
                                }
                                Some(Ok((with_store(e1, ys), Expression::Nil)))
                            } else {
                                Some(Err(error("Expected atom")))
                            }
                        },
                        Some(Err(x)) => Some(Err(x)),
                        None => None,
                    }
                },
                Some(Err(x)) => Some(Err(x)),
                None => None,
            }
        },
        Some(Err(x)) => Some(Err(x)),
        None => None,
    }
}

fn builtin_if(env: Environment, a: &Vec<Expression>, fuel: u64) -> (r: Option<Result<(Environment, Expression), Effect>>)
    ensures
        outcome(r) == semantics::special_if(env@, exprs_view(a@), fuel as nat),
    decreases fuel, 3nat, 0nat,
{
    proof {
        lemma_exprs_view(a@);
    }
    if a.len() < 3 {
        return None;
    }
    match eval_at(env, &a[0], fuel) {
        Some(Ok((e1, c))) => if truthy_exec(&c) {
            eval_at(e1, &a[1], fuel)
        } else {
            eval_at(e1, &a[2], fuel)
        },
        other => other,
    }
}

fn builtin_def(env: Environment, a: &Vec<Expression>, fuel: u64) -> (r: Option<Result<(Environment, Expression), Effect>>)
    ensures
        outcome(r) == semantics::special_def(env@, exprs_view(a@), fuel as nat),
    decreases fuel, 3nat, 0nat,
{
    proof {
        lemma_exprs_view(a@);
    }
    if a.len() < 2 {
        return None;
    }
    match eval_at(env, &a[1], fuel) {
        Some(Ok((e1, v))) => match &a[0] {
            Expression::Symbol(name) => {
                let mut e2 = e1;
                e2.insert(name.clone(), v);
                Some(Ok((e2, Expression::Nil)))
            },
            _ => Some(Err(error("Expected keyword"))),
        },
        other => other,
    }
}

/// What an exec computation of function clauses stands for.
pub open spec fn clauses_outcome(r: Option<Result<Vec<Pattern>, Effect>>) -> Evaluated<SpecPatterns> {
    match r {
        Some(Ok(ps)) => Evaluated::Done(patterns_view(ps@)),
        Some(Err(x)) => Evaluated::Failed(x@),
        None => Evaluated::Aborted,
    }
}

/// The clauses found so far, put before those of the forms not yet read.
pub open spec fn prepend_clauses(acc: SpecPatterns, rest: Evaluated<SpecPatterns>) -> Evaluated<SpecPatterns> {
    match rest {
        Evaluated::Done(ps) => Evaluated::Done(acc + ps),
        Evaluated::Failed(m) => Evaluated::Failed(m),
        Evaluated::Aborted => Evaluated::Aborted,
    }
}

/// The clauses that `fn` makes of `a[from..]`.
fn function_clauses(a: &Vec<Expression>, from: usize) -> (r: Option<Result<Vec<Pattern>, Effect>>)
    requires
        from <= a.len(),
    ensures
        clauses_outcome(r) == semantics::function_clauses(exprs_view(a@).skip(from as int)),
{
    let ghost av = exprs_view(a@);
    proof {
        lemma_exprs_view(a@);
    }
    if from >= a.len() {
        return None;
    }
    assert(av.skip(from as int)[0] == a@[from as int]@);
    if let Expression::Array(ps) = &a[from] {
        let body = clone_tail(a, from + 1);
        let p = Pattern { parameters: clone_vec(ps), body };
        let mut out: Vec<Pattern> = Vec::new();
        proof {
            lemma_patterns_view_push(out@, p);
            assert(av.skip(from as int).skip(1) =~= av.skip(from + 1));
            assert(patterns_view(out@.push(p)) =~= seq![(exprs_view(p.parameters@), exprs_view(p.body@))]);
        }
        out.push(p);
        return Some(Ok(out));
    }
    let mut out: Vec<Pattern> = Vec::new();
    let mut i = from;
    proof {
        assert(patterns_view(out@) =~= Seq::<(Seq<SpecExpression>, Seq<SpecExpression>)>::empty());
        if let Evaluated::Done(ps) = semantics::clause_forms(av.skip(from as int)) {
            assert(Seq::<(Seq<SpecExpression>, Seq<SpecExpression>)>::empty() + ps =~= ps);
        }
    }
    while i < a.len()
        invariant
            from <= i <= a.len(),
            from < a.len(),
            av == exprs_view(a@),
            av.len() == a.len(),
            !(av[from as int] is Array),
            av.skip(from as int)[0] == av[from as int],
            forall|j: int| 0 <= j < a.len() ==> #[trigger] av[j] == a@[j]@,
            semantics::clause_forms(av.skip(from as int)) == prepend_clauses(
                patterns_view(out@),
                semantics::clause_forms(av.skip(i as int)),
            ),
        decreases a.len() - i,
    {
        proof {
            assert(av.skip(i as int)[0] == av[i as int]);
            assert(av.skip(i as int).skip(1) =~= av.skip(i + 1));
        }
        match &a[i] {
            Expression::Call(c) => match &*c.function {
                Expression::Array(ps) => {
                    let p = Pattern { parameters: clone_vec(ps), body: clone_vec(&c.arguments) };
                    proof {
                        assert(av[i as int] == SpecExpression::Call(Box::new(SpecExpression::Array(exprs_view(ps@))), exprs_view(c.arguments@)));
                        lemma_patterns_view_push(out@, p);
                        if let Evaluated::Done(rest) = semantics::clause_forms(av.skip(i + 1)) {
                            assert(patterns_view(out@) + (seq![(exprs_view(p.parameters@), exprs_view(p.body@))] + rest)
                                =~= patterns_view(out@).push((exprs_view(p.parameters@), exprs_view(p.body@))) + rest);
                        }
                    }
                    out.push(p);
                },
                _ => {
                    assert(av[i as int] == SpecExpression::Call(Box::new(c.function@), exprs_view(c.arguments@)));
                    assert(!(c.function@ is Array));
                    assert(semantics::clause_forms(av.skip(i as int)) == Evaluated::<SpecPatterns>::Failed("Expected array"@));
                    return Some(Err(error("Expected array")));
                },
            },
            _ => {
                return Some(Err(error("Expected call")));
            },
        }
        i = i + 1;
    }
    proof {
        assert(av.skip(i as int) =~= Seq::<SpecExpression>::empty());
        assert(patterns_view(out@) + Seq::<(Seq<SpecExpression>, Seq<SpecExpression>)>::empty() =~= patterns_view(out@));
    }
    Some(Ok(out))
}

fn builtin_fn(env: Environment, a: &Vec<Expression>) -> (r: Option<Result<(Environment, Expression), Effect>>)
    ensures
        forall|fuel: nat| outcome(r) == #[trigger] semantics::special_fn(env@, exprs_view(a@), fuel),
{
    assert(exprs_view(a@).skip(0) =~= exprs_view(a@));
    match function_clauses(a, 0) {
        Some(Ok(ps)) => {
            let fenv = env.clone();
            Some(Ok((env, Expression::Function(Function { env: fenv, patterns: ps }))))
        },
        Some(Err(x)) => Some(Err(x)),
        None => None,
    }
}

fn builtin_defn(env: Environment, a: &Vec<Expression>, fuel: u64) -> (r: Option<Result<(Environment, Expression), Effect>>)
    ensures
        outcome(r) == semantics::special_defn(env@, exprs_view(a@), fuel as nat),
    decreases fuel, 3nat, 0nat,
{
    proof {
        lemma_exprs_view(a@);
    }
    if a.len() == 0 {
        return None;
    }
    match function_clauses(a, 1) {
        Some(Ok(ps)) => {
            let mut fenv = env.clone();
            let key = "*self*".to_string();
            assert(key@ == "*self*"@);
            fenv.insert(key, a[0].clone());
            let f = Expression::Function(Function { env: fenv, patterns: ps });
            let ghost fv = f@;
            assert(fv == SpecExpression::Function(env_insert(env@, "*self*"@, exprs_view(a@)[0]), patterns_view(ps@)));
            let name = "def".to_string();
            assert(name@ == "def"@);
            let head = Expression::Symbol(name);
            assert(head@ == semantics::sym("def"@));
            let args = pair_of(a[0].clone(), f);
            let call = Expression::Call(Call { function: Box::new(head), arguments: args });
            assert(call@ == SpecExpression::Call(Box::new(semantics::sym("def"@)), seq![exprs_view(a@)[0], fv]));
            eval_at(env, &call, fuel)
        },
        Some(Err(x)) => Some(Err(x)),
        None => None,
    }
}

fn builtin_eval(env: Environment, a: &Vec<Expression>, fuel: u64) -> (r: Option<Result<(Environment, Expression), Effect>>)
    ensures
        outcome(r) == semantics::special_eval(env@, exprs_view(a@), fuel as nat),
    decreases fuel, 3nat, 0nat,
{
    proof {
        lemma_exprs_view(a@);
    }
    if a.len() == 0 {
        return None;
    }
    match eval_at(env, &a[0], fuel) {
        Some(Ok((e1, x))) => eval_at(e1, &x, fuel),
        other => other,
    }
}

fn builtin_read_string(env: Environment, a: &Vec<Expression>, fuel: u64) -> (r: Option<Result<(Environment, Expression), Effect>>)
    ensures
        outcome(r) == semantics::special_read_string(env@, exprs_view(a@), fuel as nat),
    decreases fuel, 3nat, 0nat,
{
    proof {
        lemma_exprs_view(a@);
    }
    if a.len() == 0 {
        return None;
    }
    match eval_at(env, &a[0], fuel) {
        Some(Ok((e1, x))) => match &x {
            Expression::String(s) => match crate::tokenizer::try_tokenize(s.as_str()) {
                Some(tokens) => match crate::parser::try_parse(tokens.as_slice()) {
                    Some((n, e)) => if n < tokens.len() {
                        Some(Err(error("Could not parse expression")))
                    } else {
                        Some(Ok((e1, e)))
                    },
                    None => None,
                },
                None => None,
            },
            _ => Some(Err(error("Expected string"))),
        },
        other => other,
    }
}

fn builtin_assert(env: Environment, a: &Vec<Expression>, fuel: u64) -> (r: Option<Result<(Environment, Expression), Effect>>)
    ensures
        outcome(r) == semantics::special_assert(env@, exprs_view(a@), fuel as nat),
    decreases fuel, 3nat, 0nat,
{
    proof {
        lemma_exprs_view(a@);
    }
    if a.len() == 0 {
        return None;
    }
    match eval_at(env, &a[0], fuel) {
        Some(Ok((e1, x))) => if truthy_exec(&x) {
            Some(Ok((e1, Expression::Nil)))
        } else {
            Some(Err(error("Assertion failed")))
        },
        other => other,
    }
}

/// The bindings of `let`, pattern and value in turn.
fn let_bind(env: Environment, bs: &Vec<Expression>, fuel: u64) -> (r: Option<Result<Environment, Effect>>)
    ensures
        env_outcome(r) == semantics::let_bind(env@, exprs_view(bs@), fuel as nat),
    decreases fuel, 2nat, 0nat,
{
    let ghost all = exprs_view(bs@);
    let ghost env0 = env@;
    proof {
        lemma_exprs_view(bs@);
        assert(all.skip(0) =~= all);
    }
    let mut cur = env;
    let mut i: usize = 0;
    while bs.len() - i >= 2
        invariant
            i <= bs.len(),
            env0 == env@,
            all == exprs_view(bs@),
            all.len() == bs.len(),
            forall|j: int| 0 <= j < bs.len() ==> #[trigger] all[j] == bs@[j]@,
            semantics::let_bind(env0, all, fuel as nat) == semantics::let_bind(cur@, all.skip(i as int), fuel as nat),
        decreases bs.len() - i,
    {
        proof {
            assert(all.skip(i as int)[0] == all[i as int]);
            assert(all.skip(i as int)[1] == all[i + 1]);
            assert(all.skip(i as int).skip(2) =~= all.skip(i + 2));
        }
        match eval_at(cur, &bs[i + 1], fuel) {
            Some(Ok((e1, v))) => match pattern_match(e1, &bs[i], &v) {
                Ok(e2) => {
                    cur = e2;
                },
                Err(x) => {
                    return Some(Err(x));
                },
            },
            Some(Err(x)) => {
                return Some(Err(x));
            },
            None => {
                return None;
            },
        }
        i = i + 2;
    }
    Some(Ok(cur))
}

fn builtin_let(env: Environment, a: &Vec<Expression>, fuel: u64) -> (r: Option<Result<(Environment, Expression), Effect>>)
    ensures
        outcome(r) == semantics::special_let(env@, exprs_view(a@), fuel as nat),
    decreases fuel, 3nat, 0nat,
{
    proof {
        lemma_exprs_view(a@);
    }
    if a.len() == 0 {
        return None;
    }
    match &a[0] {
        Expression::Array(bs) => match let_bind(env.clone(), bs, fuel) {
            Some(Ok(e1)) => {
                let body = clone_tail(a, 1);
                match eval_list_env(&e1, &body, fuel) {
                    Some(Ok((vs, eb))) => {
                        let v = last_value(&vs);
                        Some(Ok((share_store(env, &eb), v)))
                    },
                    Some(Err(x)) => Some(Err(x)),
                    None => None,
                }
            },
            Some(Err(x)) => Some(Err(x)),
            None => None,
        },
        _ => Some(Err(error("Expected array"))),
    }
}

/// The body of `for` evaluated once per value, the pattern bound to it.
fn for_each(env: &Environment, pattern: &Expression, xs: &Vec<Expression>, body: &Vec<Expression>, fuel: u64) -> (r: Option<Result<(Vec<Expression>, Environment), Effect>>)
    ensures
        list_env_outcome(r) == semantics::for_each(env@, pattern@, exprs_view(xs@), exprs_view(body@), fuel as nat),
        r matches Some(Ok((_, e))) ==> e@ == semantics::for_env(env@, pattern@, exprs_view(xs@), exprs_view(body@), fuel as nat),
    decreases fuel, 2nat, 0nat,
{
    let ghost all = exprs_view(xs@);
    let ghost bv = exprs_view(body@);
    proof {
        lemma_exprs_view(xs@);
        assert(all.skip(0) =~= all);
        assert(exprs_view(Seq::<Expression>::empty()) =~= Seq::<SpecExpression>::empty());
        if let Evaluated::Done(vs) = semantics::for_each(env@, pattern@, all, bv, fuel as nat) {
            assert(Seq::<SpecExpression>::empty() + vs =~= vs);
        }
    }
    let mut values: Vec<Expression> = Vec::new();
    let mut failure: Option<Effect> = None;
    let mut cur = env.clone();
    let mut i: usize = 0;
    while i < xs.len()
        invariant
            i <= xs.len(),
            all == exprs_view(xs@),
            bv == exprs_view(body@),
            all.len() == xs.len(),
            forall|j: int| 0 <= j < xs.len() ==> #[trigger] all[j] == xs@[j]@,
            semantics::for_each(env@, pattern@, all, bv, fuel as nat) == resume(
                exprs_view(values@),
                failure_view(failure),
                semantics::for_each(cur@, pattern@, all.skip(i as int), bv, fuel as nat),
            ),
            semantics::for_env(env@, pattern@, all, bv, fuel as nat)
                == semantics::for_env(cur@, pattern@, all.skip(i as int), bv, fuel as nat),
        decreases xs.len() - i,
    {
        proof {
            assert(all.skip(i as int)[0] == all[i as int]);
            assert(all.skip(i as int).skip(1) =~= all.skip(i + 1));
        }
        let (first, next): (Result<Expression, Effect>, Environment) = match pattern_match(cur.clone(), pattern, &xs[i]) {
            Ok(e) => match eval_list_env(&e, body, fuel) {
                Some(Ok((vs, eb))) => {
                    let n = share_store(cur.clone(), &eb);
                    (Ok(last_value(&vs)), n)
                },
                Some(Err(x)) => (Err(x), cur.clone()),
                None => {
                    return None;
                },
            },
            Err(x) => (Err(x), cur.clone()),
        };
        assert(next@ == semantics::for_next(cur@, pattern@, all[i as int], bv, fuel as nat));
        match first {
            Ok(v) => {
                proof {
                    lemma_resume_done(exprs_view(values@), failure_view(failure), v@,
                        semantics::for_each(next@, pattern@, all.skip(i + 1), bv, fuel as nat));
                    lemma_exprs_view_push(values@, v);
                }
                if failure.is_none() {
                    values.push(v);
                }
            },
            Err(x) => {
                proof {
                    lemma_resume_failed(exprs_view(values@), failure_view(failure), x@,
                        semantics::for_each(next@, pattern@, all.skip(i + 1), bv, fuel as nat));
                }
                if failure.is_none() {
                    failure = Some(x);
                }
            },
        }
        cur = next;
        i = i + 1;
    }
    proof {
        assert(all.skip(i as int) =~= Seq::<SpecExpression>::empty());
        assert(exprs_view(values@) + Seq::<SpecExpression>::empty() =~= exprs_view(values@));
    }
    match failure {
        Some(x) => Some(Err(x)),
        None => Some(Ok((values, cur))),
    }
}

fn builtin_for(env: Environment, a: &Vec<Expression>, fuel: u64) -> (r: Option<Result<(Environment, Expression), Effect>>)
    ensures
        outcome(r) == semantics::special_for(env@, exprs_view(a@), fuel as nat),
    decreases fuel, 3nat, 0nat,
{
    proof {
        lemma_exprs_view(a@);
    }
    if a.len() == 0 {
        return None;
    }
    match &a[0] {
        Expression::Array(bs) => {
            proof {
                lemma_exprs_view(bs@);
            }
            if bs.len() < 2 {
                return None;
            }
            match eval_at(env, &bs[1], fuel) {
                Some(Ok((e1, xs))) => match &xs {
                    Expression::Array(items) => {
                        let body = clone_tail(a, 1);
                        match for_each(&e1, &bs[0], items, &body, fuel) {
                            Some(Ok((ws, e2))) => Some(Ok((e2, Expression::Array(ws)))),
                            Some(Err(x)) => Some(Err(x)),
                            None => None,
                        }
                    },
                    _ => Some(Err(error("Expected array"))),
                },
                other => other,
            }
        },
        _ => Some(Err(error("Expected array"))),
    }
}

fn builtin_bound(env: Environment, a: &Vec<Expression>) -> (r: Option<Result<(Environment, Expression), Effect>>)
    ensures
        forall|fuel: nat| outcome(r) == #[trigger] semantics::special_bound(env@, exprs_view(a@), fuel),
{
    proof {
        lemma_exprs_view(a@);
    }
    if a.len() == 0 {
        return None;
    }
    match &a[0] {
        Expression::Symbol(name) => {
            let b = env.contains_key(name);
            Some(Ok((env, Expression::Bool(b))))
        },
        _ => Some(Err(error("Expected keyword"))),
    }
}

/// The argument list `[first, rest...]`.
fn cons(first: Expression, rest: &Vec<Expression>) -> (r: Vec<Expression>)
    ensures
        exprs_view(r@) == seq![first@] + exprs_view(rest@),
{
    let mut out: Vec<Expression> = Vec::new();
    proof {
        lemma_exprs_view_push(out@, first);
        lemma_exprs_view(rest@);
    }
    out.push(first);
    let mut i: usize = 0;
    while i < rest.len()
        invariant
            i <= rest.len(),
            exprs_view(rest@).len() == rest.len(),
            forall|j: int| 0 <= j < rest.len() ==> #[trigger] exprs_view(rest@)[j] == rest@[j]@,
            exprs_view(out@) == seq![first@] + exprs_view(rest@).take(i as int),
        decreases rest.len() - i,
    {
        let e = rest[i].clone();
        proof {
            lemma_exprs_view_push(out@, e);
            assert(seq![first@] + exprs_view(rest@).take(i as int) + seq![e@]
                =~= seq![first@] + exprs_view(rest@).take(i + 1));
        }
        out.push(e);
        i = i + 1;
    }
    assert(exprs_view(rest@).take(rest.len() as int) =~= exprs_view(rest@));
    out
}

/// `->`: each form from `forms[from..]` called with the result so far as its first argument.
fn thread(env: Environment, result: Expression, forms: &Vec<Expression>, from: usize, fuel: u64) -> (r: Option<Result<(Environment, Expression), Effect>>)
    requires
        from <= forms.len(),
    ensures
        outcome(r) == semantics::thread(env@, result@, exprs_view(forms@).skip(from as int), fuel as nat),
    decreases fuel, 2nat, 0nat,
{
    let ghost all = exprs_view(forms@);
    let ghost env0 = env@;
    let ghost r0 = result@;
    proof {
        lemma_exprs_view(forms@);
    }
    let mut cur = env;
    let mut res = result;
    let mut i = from;
    while i < forms.len()
        invariant
            from <= i <= forms.len(),
            env0 == env@,
            r0 == result@,
            all == exprs_view(forms@),
            all.len() == forms.len(),
            forall|j: int| 0 <= j < forms.len() ==> #[trigger] all[j] == forms@[j]@,
            semantics::thread(env0, r0, all.skip(from as int), fuel as nat)
                == semantics::thread(cur@, res@, all.skip(i as int), fuel as nat),
        decreases forms.len() - i,
    {
        proof {
            assert(all.skip(i as int)[0] == all[i as int]);
            assert(all.skip(i as int).skip(1) =~= all.skip(i + 1));
        }
        let call = match &forms[i] {
            Expression::Call(c) => Expression::Call(Call {
                function: Box::new((*c.function).clone()),
                arguments: cons(res, &c.arguments),
            }),
            other => {
                let mut args: Vec<Expression> = Vec::new();
                proof {
                    lemma_exprs_view_push(args@, res);
                }
                args.push(res);
                assert(exprs_view(args@) =~= seq![res@]);
                Expression::Call(Call { function: Box::new(other.clone()), arguments: args })
            },
        };
        match eval_at(cur, &call, fuel) {
            Some(Ok((e1, v))) => {
                cur = e1;
                res = v;
            },
            Some(Err(x)) => {
                return Some(Err(x));
            },
            None => {
                return None;
            },
        }
        i = i + 1;
    }
    proof {
        assert(all.skip(i as int) =~= Seq::<SpecExpression>::empty());
    }
    Some(Ok((cur, res)))
}

fn builtin_thread(env: Environment, a: &Vec<Expression>, fuel: u64) -> (r: Option<Result<(Environment, Expression), Effect>>)
    ensures
        outcome(r) == semantics::special_thread_first(env@, exprs_view(a@), fuel as nat),
    decreases fuel, 3nat, 0nat,
{
    proof {
        lemma_exprs_view(a@);
    }
    if a.len() == 0 {
        return None;
    }
    match eval_at(env, &a[0], fuel) {
        Some(Ok((e1, v))) => thread(e1, v, a, 1, fuel),
        other => other,
    }
}

fn builtin_when(env: Environment, a: &Vec<Expression>, fuel: u64) -> (r: Option<Result<(Environment, Expression), Effect>>)
    ensures
        outcome(r) == semantics::special_when(env@, exprs_view(a@), fuel as nat),
    decreases fuel, 3nat, 0nat,
{
    proof {
        lemma_exprs_view(a@);
    }
    if a.len() == 0 {
        return None;
    }
    match eval_at(env, &a[0], fuel) {
        Some(Ok((e1, c))) => if truthy_exec(&c) {
            let name = "do".to_string();
            assert(name@ == "do"@);
            let head = Expression::Symbol(name);
            assert(head@ == semantics::sym("do"@));
            let args = clone_tail(a, 1);
            let call = Expression::Call(Call { function: Box::new(head), arguments: args });
            assert(call@ == SpecExpression::Call(Box::new(semantics::sym("do"@)), exprs_view(a@).skip(1)));
            eval_at(e1, &call, fuel)
        } else {
            Some(Ok((e1, Expression::Nil)))
        },
        other => other,
    }
}

fn builtin_inc(env: Environment, a: &Vec<Expression>, fuel: u64) -> (r: Option<Result<(Environment, Expression), Effect>>)
    ensures
        outcome(r) == semantics::special_inc(env@, exprs_view(a@), fuel as nat),
    decreases fuel, 3nat, 0nat,
{
    proof {
        lemma_exprs_view(a@);
    }
    if a.len() == 0 {
        return None;
    }
    let one = Expression::Integer(crate::numerics::Integer::from_i64(1));
    let name = "+".to_string();
    assert(name@ == "+"@);
    let head = Expression::Symbol(name);
    assert(head@ == semantics::sym("+"@));
    let args = pair_of(a[0].clone(), one);
    assert(exprs_view(args@) == seq![exprs_view(a@)[0], SpecExpression::Integer(1)]);
    let call = Expression::Call(Call { function: Box::new(head), arguments: args });
    assert(call@ == SpecExpression::Call(Box::new(semantics::sym("+"@)), seq![exprs_view(a@)[0], SpecExpression::Integer(1)]));
    eval_at(env, &call, fuel)
}

/// The fuel an evaluation starts with: one unit per level of nesting, as many as a `u64`
/// counts, so that only the machine's own limits stop a deep program.
pub const MAX_DEPTH: u64 = 0xffff_ffff_ffff_ffff;

/// The outcome of evaluating `e` in `env`.
pub open spec fn evaluation(env: SpecEnv, e: SpecExpression) -> Evaluated<(SpecEnv, SpecExpression)> {
    semantics::spec_evaluate(env, e, MAX_DEPTH as nat)
}

/// Evaluates `expression` in `environment`; `None` where the evaluation aborts.
pub fn try_evaluate(environment: Environment, expression: &Expression) -> (r: Option<Result<(Environment, Expression), Effect>>)
    ensures
        outcome(r) == evaluation(environment@, expression@),
{
    eval_at(environment, expression, MAX_DEPTH)
}

/// The value of `expression` in `environment`, with the environment it leaves, or the
/// effect it raises. The evaluation must not abort (see `try_evaluate`).
pub fn evaluate(environment: Environment, expression: Expression) -> (r: Result<(Environment, Expression), Effect>)
    requires
        !(evaluation(environment@, expression@) is Aborted),
    ensures
        match r {
            Ok((e, v)) => evaluation(environment@, expression@) == Evaluated::Done((e@, v@)),
            Err(x) => evaluation(environment@, expression@) == Evaluated::<(SpecEnv, SpecExpression)>::Failed(x@),
        },
{
    match eval_at(environment, &expression, MAX_DEPTH) {
        Some(r) => r,
        None => Err(error("Evaluation aborted")),
    }
}

/// Each expression evaluated in `environment`, which is given back unchanged, or the
/// first effect raised. No evaluation may abort.
pub fn evaluate_expressions(environment: Environment, expressions: Vec<Expression>) -> (r: Result<(Environment, Vec<Expression>), Effect>)
    requires
        !(semantics::eval_list(environment@, exprs_view(expressions@), MAX_DEPTH as nat) is Aborted),
    ensures
        match r {
            Ok((e, vs)) => e@ == environment@ && semantics::eval_list(environment@, exprs_view(expressions@), MAX_DEPTH as nat)
                == Evaluated::Done(exprs_view(vs@)),
            Err(x) => semantics::eval_list(environment@, exprs_view(expressions@), MAX_DEPTH as nat)
                == Evaluated::<Seq<SpecExpression>>::Failed(x@),
        },
{
    match eval_list(&environment, &expressions, MAX_DEPTH) {
        Some(Ok(vs)) => Ok((environment, vs)),
        Some(Err(x)) => Err(x),
        None => Err(error("Evaluation aborted")),
    }
}

/// Evaluates each expression in turn in `environment`; `None` where one of them aborts.
pub fn try_evaluate_expressions(environment: &Environment, expressions: &Vec<Expression>) -> (r: Option<Result<Vec<Expression>, Effect>>)
    ensures
        list_outcome(r) == semantics::eval_list(environment@, exprs_view(expressions@), MAX_DEPTH as nat),
        r matches Some(Ok(vs)) ==> vs.len() == expressions.len(),
{
    eval_list(environment, expressions, MAX_DEPTH)
}

/// The outcome of reading the first expression of `source` and evaluating it.
pub open spec fn source_evaluation(env: SpecEnv, source: Seq<char>) -> Evaluated<(SpecEnv, SpecExpression)> {
    match crate::lexer_spec::spec_tokenize(source) {
        Some(ts) => match crate::parser::spec_parse(ts) {
            Some((_, e)) => evaluation(env, e),
            None => Evaluated::Aborted,
        },
        None => Evaluated::Aborted,
    }
}

/// Reads the first expression of `source` and evaluates it; `None` where reading or
/// evaluating aborts.
pub fn try_evaluate_source(environment: Environment, source: &str) -> (r: Option<Result<(Environment, Expression), Effect>>)
    ensures
        outcome(r) == source_evaluation(environment@, source@),
{
    match crate::tokenizer::try_tokenize(source) {
        Some(tokens) => match crate::parser::try_parse(tokens.as_slice()) {
            Some((_, e)) => eval_at(environment, &e, MAX_DEPTH),
            None => None,
        },
        None => None,
    }
}

/// Reads the first expression of `source` and evaluates it, which must not abort.
pub fn evaluate_source(environment: Environment, source: &str) -> (r: Result<(Environment, Expression), Effect>)
    requires
        !(source_evaluation(environment@, source@) is Aborted),
    ensures
        match r {
            Ok((e, v)) => source_evaluation(environment@, source@) == Evaluated::Done((e@, v@)),
            Err(x) => source_evaluation(environment@, source@) == Evaluated::<(SpecEnv, SpecExpression)>::Failed(x@),
        },
{
    match try_evaluate_source(environment, source) {
        Some(r) => r,
        None => Err(error("Evaluation aborted")),
    }
}

/// `(get map key default?)`: the value `key` is bound to, else the default or `nil`.
pub fn get(env: Environment, args: &Vec<Expression>) -> (r: Result<(Environment, Expression), Effect>)
    requires
        !(semantics::apply_builtin(Builtin::Get, env@, exprs_view(args@), MAX_DEPTH as nat) is Aborted),
    ensures
        match r {
            Ok((e, v)) => semantics::apply_builtin(Builtin::Get, env@, exprs_view(args@), MAX_DEPTH as nat)
                == Evaluated::Done((e@, v@)),
            Err(x) => semantics::apply_builtin(Builtin::Get, env@, exprs_view(args@), MAX_DEPTH as nat)
                == Evaluated::<(SpecEnv, SpecExpression)>::Failed(x@),
        },
{
    match apply_builtin(Builtin::Get, env, args, MAX_DEPTH) {
        Some(r) => r,
        None => Err(error("Evaluation aborted")),
    }
}

/// `(assoc map key value)`: the map with `key` bound to `value`.
pub fn assoc(env: Environment, args: &Vec<Expression>) -> (r: Result<(Environment, Expression), Effect>)
    requires
        !(semantics::apply_builtin(Builtin::Assoc, env@, exprs_view(args@), MAX_DEPTH as nat) is Aborted),
    ensures
        match r {
            Ok((e, v)) => semantics::apply_builtin(Builtin::Assoc, env@, exprs_view(args@), MAX_DEPTH as nat)
                == Evaluated::Done((e@, v@)),
            Err(x) => semantics::apply_builtin(Builtin::Assoc, env@, exprs_view(args@), MAX_DEPTH as nat)
                == Evaluated::<(SpecEnv, SpecExpression)>::Failed(x@),
        },
{
    match apply_builtin(Builtin::Assoc, env, args, MAX_DEPTH) {
        Some(r) => r,
        None => Err(error("Evaluation aborted")),
    }
}

/// `(dissoc map key)`: the map without `key`.
pub fn dissoc(env: Environment, args: &Vec<Expression>) -> (r: Result<(Environment, Expression), Effect>)
    requires
        !(semantics::apply_builtin(Builtin::Dissoc, env@, exprs_view(args@), MAX_DEPTH as nat) is Aborted),
    ensures
        match r {
            Ok((e, v)) => semantics::apply_builtin(Builtin::Dissoc, env@, exprs_view(args@), MAX_DEPTH as nat)
                == Evaluated::Done((e@, v@)),
            Err(x) => semantics::apply_builtin(Builtin::Dissoc, env@, exprs_view(args@), MAX_DEPTH as nat)
                == Evaluated::<(SpecEnv, SpecExpression)>::Failed(x@),
        },
{
    match apply_builtin(Builtin::Dissoc, env, args, MAX_DEPTH) {
        Some(r) => r,
        None => Err(error("Evaluation aborted")),
    }
}

/// `(merge map other)`: the map with every binding of `other` added.
pub fn merge(env: Environment, args: &Vec<Expression>) -> (r: Result<(Environment, Expression), Effect>)
    requires
        !(semantics::apply_builtin(Builtin::Merge, env@, exprs_view(args@), MAX_DEPTH as nat) is Aborted),
    ensures
        match r {
            Ok((e, v)) => semantics::apply_builtin(Builtin::Merge, env@, exprs_view(args@), MAX_DEPTH as nat)
                == Evaluated::Done((e@, v@)),
            Err(x) => semantics::apply_builtin(Builtin::Merge, env@, exprs_view(args@), MAX_DEPTH as nat)
                == Evaluated::<(SpecEnv, SpecExpression)>::Failed(x@),
        },
{
    match apply_builtin(Builtin::Merge, env, args, MAX_DEPTH) {
        Some(r) => r,
        None => Err(error("Evaluation aborted")),
    }
}

/// `(nth array index default?)`: the element at `index`, else the default.
pub fn nth(env: Environment, args: &Vec<Expression>) -> (r: Result<(Environment, Expression), Effect>)
    requires
        !(semantics::apply_builtin(Builtin::Nth, env@, exprs_view(args@), MAX_DEPTH as nat) is Aborted),
    ensures
        match r {
            Ok((e, v)) => semantics::apply_builtin(Builtin::Nth, env@, exprs_view(args@), MAX_DEPTH as nat)
                == Evaluated::Done((e@, v@)),
            Err(x) => semantics::apply_builtin(Builtin::Nth, env@, exprs_view(args@), MAX_DEPTH as nat)
                == Evaluated::<(SpecEnv, SpecExpression)>::Failed(x@),
        },
{
    match apply_builtin(Builtin::Nth, env, args, MAX_DEPTH) {
        Some(r) => r,
        None => Err(error("Evaluation aborted")),
    }
}

/// `(count array)`: the number of elements.
pub fn count(env: Environment, args: &Vec<Expression>) -> (r: Result<(Environment, Expression), Effect>)
    requires
        !(semantics::apply_builtin(Builtin::Count, env@, exprs_view(args@), MAX_DEPTH as nat) is Aborted),
    ensures
        match r {
            Ok((e, v)) => semantics::apply_builtin(Builtin::Count, env@, exprs_view(args@), MAX_DEPTH as nat)
                == Evaluated::Done((e@, v@)),
            Err(x) => semantics::apply_builtin(Builtin::Count, env@, exprs_view(args@), MAX_DEPTH as nat)
                == Evaluated::<(SpecEnv, SpecExpression)>::Failed(x@),
        },
{
    match apply_builtin(Builtin::Count, env, args, MAX_DEPTH) {
        Some(r) => r,
        None => Err(error("Evaluation aborted")),
    }
}

} // verus!
