use vstd::prelude::*;
use crate::expression::{Builtin, SpecEnv, SpecExpression, SpecPairs, SpecPatterns};
use crate::lexer_spec::spec_tokenize;
use crate::mapping::{env_get, env_insert, map_get, map_insert, map_merge, map_remove};
use crate::numerics::reduced;
use crate::parser::spec_parse;
use crate::printer::show;

verus! {

/// The outcome of evaluating: a result, an error effect with its message, or an abort
/// (a panic, or nesting deeper than the evaluator goes).
pub enum Evaluated<T> {
    Done(T),
    Failed(Seq<char>),
    Aborted,
}

/// Everything but `nil` and `false` counts as true.
pub open spec fn truthy(e: SpecExpression) -> bool {
    match e {
        SpecExpression::Nil => false,
        SpecExpression::Bool(b) => b,
        _ => true,
    }
}

/// The last value, or `nil` when there is none.
pub open spec fn last_or_nil(vs: Seq<SpecExpression>) -> SpecExpression {
    if vs.len() == 0 { SpecExpression::Nil } else { vs.last() }
}

/// The message of a pattern that does not match a value.
pub open spec fn mismatch(pattern: SpecExpression, value: SpecExpression) -> Seq<char> {
    "Cannot pattern match "@ + show(pattern) + " with "@ + show(value)
}

/// Binds the symbols of `pattern` to the parts of `value` they stand for, or says why
/// the value does not have the pattern's shape.
pub open spec fn pattern_match(env: SpecEnv, pattern: SpecExpression, value: SpecExpression) -> Result<SpecEnv, Seq<char>>
    decreases pattern, 0nat,
{
    match pattern {
        SpecExpression::Symbol(s) => Ok(env_insert(env, s, value)),
        SpecExpression::Keyword(k) => match value {
            SpecExpression::Keyword(k2) => if k == k2 { Ok(env) } else { Err(mismatch(pattern, value)) },
            _ => Err(mismatch(pattern, value)),
        },
        SpecExpression::String(s) => match value {
            SpecExpression::String(s2) => if s == s2 { Ok(env) } else { Err(mismatch(pattern, value)) },
            _ => Err(mismatch(pattern, value)),
        },
        SpecExpression::Integer(i) => match value {
            SpecExpression::Integer(i2) => if i == i2 { Ok(env) } else { Err(mismatch(pattern, value)) },
            _ => Err(mismatch(pattern, value)),
        },
        SpecExpression::Nil => match value {
            SpecExpression::Nil => Ok(env),
            _ => Err(mismatch(pattern, value)),
        },
        SpecExpression::Array(ps) => match value {
            SpecExpression::Array(vs) => match_all(env, ps, vs),
            _ => Err(mismatch(pattern, value)),
        },
        SpecExpression::Mapping(pm) => match value {
            SpecExpression::Mapping(m) => match_entries(env, pm, m),
            _ => Err(mismatch(pattern, value)),
        },
        _ => Err(mismatch(pattern, value)),
    }
}

/// Matches patterns and values pairwise, as far as the shorter of the two goes.
pub open spec fn match_all(env: SpecEnv, ps: Seq<SpecExpression>, vs: Seq<SpecExpression>) -> Result<SpecEnv, Seq<char>>
    decreases ps, 1nat,
{
    if ps.len() == 0 || vs.len() == 0 {
        Ok(env)
    } else {
        match pattern_match(env, ps[0], vs[0]) {
            Ok(e) => match_all(e, ps.skip(1), vs.skip(1)),
            Err(m) => Err(m),
        }
    }
}

/// Matches the value pattern of each entry of a map pattern against the value that
/// the matched map binds to the entry's key.
pub open spec fn match_entries(env: SpecEnv, pm: SpecPairs, m: SpecPairs) -> Result<SpecEnv, Seq<char>>
    decreases pm, 1nat,
{
    if pm.len() == 0 {
        Ok(env)
    } else {
        match map_get(m, pm[0].0) {
            Some(v) => match pattern_match(env, pm[0].1, v) {
                Ok(e) => match_entries(e, pm.skip(1), m),
                Err(msg) => Err(msg),
            },
            None => Err(mismatch(pm[0].0, pm[0].1)),
        }
    }
}

/// The first clause whose parameters match the arguments, with the environment that
/// binds them; otherwise every clause's failure, one per line.
pub open spec fn find_pattern_match(env: SpecEnv, ps: SpecPatterns, args: Seq<SpecExpression>, failures: Seq<char>) -> Result<(SpecEnv, Seq<SpecExpression>), Seq<char>>
    decreases ps.len(),
{
    if ps.len() == 0 {
        Err(failures)
    } else {
        match pattern_match(env, SpecExpression::Array(ps[0].0), SpecExpression::Array(args)) {
            Ok(e) => Ok((e, ps[0].1)),
            Err(m) => find_pattern_match(env, ps.skip(1), args, failures + "#effect::error("@ + m + ")\n"@),
        }
    }
}

/// The value of `n / d` in lowest terms: an integer where the denominator divides out.
pub open spec fn ratio_value(n: int, d: int) -> SpecExpression {
    let (p, q) = reduced(n, d);
    if q == 1 { SpecExpression::Integer(p) } else { SpecExpression::Ratio(p, q) }
}

/// `+` folded over integers.
pub open spec fn add_fold(acc: SpecExpression, rest: Seq<SpecExpression>) -> Result<SpecExpression, Seq<char>>
    decreases rest.len(),
{
    if rest.len() == 0 {
        Ok(acc)
    } else {
        match (acc, rest[0]) {
            (SpecExpression::Integer(a), SpecExpression::Integer(b)) => add_fold(SpecExpression::Integer(a + b), rest.skip(1)),
            _ => Err("Expected integer argument"@),
        }
    }
}

/// `-` folded over integers.
pub open spec fn sub_fold(acc: SpecExpression, rest: Seq<SpecExpression>) -> Result<SpecExpression, Seq<char>>
    decreases rest.len(),
{
    if rest.len() == 0 {
        Ok(acc)
    } else {
        match (acc, rest[0]) {
            (SpecExpression::Integer(a), SpecExpression::Integer(b)) => sub_fold(SpecExpression::Integer(a - b), rest.skip(1)),
            _ => Err("Expected integer argument"@),
        }
    }
}

/// `*` folded over integers and ratios.
pub open spec fn mul_fold(acc: SpecExpression, rest: Seq<SpecExpression>) -> Result<SpecExpression, Seq<char>>
    decreases rest.len(),
{
    if rest.len() == 0 {
        Ok(acc)
    } else {
        match (acc, rest[0]) {
            (SpecExpression::Integer(a), SpecExpression::Integer(b)) => mul_fold(SpecExpression::Integer(a * b), rest.skip(1)),
            (SpecExpression::Integer(a), SpecExpression::Ratio(n, d)) => mul_fold(ratio_value(a * n, d), rest.skip(1)),
            (SpecExpression::Ratio(n, d), SpecExpression::Integer(b)) => mul_fold(ratio_value(n * b, d), rest.skip(1)),
            _ => Err("Cannot multiply "@ + show(acc) + " and "@ + show(rest[0])),
        }
    }
}

/// `/` folded over integers; dividing by zero aborts.
pub open spec fn div_fold(acc: SpecExpression, rest: Seq<SpecExpression>) -> Evaluated<SpecExpression>
    decreases rest.len(),
{
    if rest.len() == 0 {
        Evaluated::Done(acc)
    } else {
        match (acc, rest[0]) {
            (SpecExpression::Integer(a), SpecExpression::Integer(b)) => if b == 0 {
                Evaluated::Aborted
            } else {
                div_fold(ratio_value(a, b), rest.skip(1))
            },
            _ => Evaluated::Failed("Expected integer argument"@),
        }
    }
}

/// The text that `str` makes of its arguments: strings as they are, anything else
/// in its written form.
pub open spec fn concat_str(vs: Seq<SpecExpression>) -> Seq<char>
    decreases vs.len(),
{
    if vs.len() == 0 {
        seq![]
    } else {
        concat_str(vs.drop_last()) + match vs.last() {
            SpecExpression::String(s) => s,
            v => show(v),
        }
    }
}

/// The clauses that `fn` makes of its arguments: a parameter array and a body, or a
/// list of `([params] body...)` forms.
pub open spec fn function_clauses(args: Seq<SpecExpression>) -> Evaluated<SpecPatterns> {
    if args.len() == 0 {
        Evaluated::Aborted
    } else {
        match args[0] {
            SpecExpression::Array(ps) => Evaluated::Done(seq![(ps, args.skip(1))]),
            _ => clause_forms(args),
        }
    }
}

/// The clauses of a list of `([params] body...)` forms.
pub open spec fn clause_forms(args: Seq<SpecExpression>) -> Evaluated<SpecPatterns>
    decreases args.len(),
{
    if args.len() == 0 {
        Evaluated::Done(seq![])
    } else {
        match args[0] {
            SpecExpression::Call(f, body) => match *f {
                SpecExpression::Array(ps) => match clause_forms(args.skip(1)) {
                    Evaluated::Done(rest) => Evaluated::Done(seq![(ps, body)] + rest),
                    other => other,
                },
                _ => Evaluated::Failed("Expected array"@),
            },
            _ => Evaluated::Failed("Expected call"@),
        }
    }
}

/// Combines the outcome of one element with that of the elements after it: every
/// element is evaluated, an abort anywhere wins, then the first failure.
pub open spec fn combine(first: Evaluated<SpecExpression>, rest: Evaluated<Seq<SpecExpression>>) -> Evaluated<Seq<SpecExpression>> {
    match (first, rest) {
        (Evaluated::Aborted, _) => Evaluated::Aborted,
        (_, Evaluated::Aborted) => Evaluated::Aborted,
        (Evaluated::Failed(m), _) => Evaluated::Failed(m),
        (Evaluated::Done(v), Evaluated::Done(vs)) => Evaluated::Done(seq![v] + vs),
        (Evaluated::Done(_), Evaluated::Failed(m)) => Evaluated::Failed(m),
    }
}

/// The value part of an evaluation.
pub open spec fn value_of(o: Evaluated<(SpecEnv, SpecExpression)>) -> Evaluated<SpecExpression> {
    match o {
        Evaluated::Done((_, v)) => Evaluated::Done(v),
        Evaluated::Failed(m) => Evaluated::Failed(m),
        Evaluated::Aborted => Evaluated::Aborted,
    }
}

/// The name under which an environment holds the values of its atoms, in the order they
/// were made; the reader makes no symbol with a space in it.
pub open spec fn store_name() -> Seq<char> {
    " atoms"@
}

/// The values of the atoms of `env`.
pub open spec fn atom_store(env: SpecEnv) -> Seq<SpecExpression> {
    match env_get(env, store_name()) {
        Some(SpecExpression::Array(xs)) => xs,
        _ => seq![],
    }
}

/// `env` with its atoms holding `xs`.
pub open spec fn with_store(env: SpecEnv, xs: Seq<SpecExpression>) -> SpecEnv {
    env_insert(env, store_name(), SpecExpression::Array(xs))
}

/// `target` with the atoms of `source`: atoms are shared, so what one evaluation writes
/// to them the next one reads, whatever else it keeps of the environment.
pub open spec fn share_store(target: SpecEnv, source: SpecEnv) -> SpecEnv {
    match env_get(source, store_name()) {
        Some(s) => if env_get(target, store_name()) == Some(s) {
            target
        } else {
            env_insert(target, store_name(), s)
        },
        None => target,
    }
}

/// The environment the next element of a list is evaluated in: the list's own, with the
/// atoms as the previous element left them.
pub open spec fn next_env(env: SpecEnv, r: Evaluated<(SpecEnv, SpecExpression)>) -> SpecEnv {
    match r {
        Evaluated::Done((e1, _)) => share_store(env, e1),
        _ => env,
    }
}

/// Each expression evaluated in `env`, one after the other; the changes they make to it
/// are dropped, but for what they write to atoms.
pub open spec fn eval_list(env: SpecEnv, es: Seq<SpecExpression>, fuel: nat) -> Evaluated<Seq<SpecExpression>>
    decreases fuel, 1nat, es.len(),
{
    if es.len() == 0 {
        Evaluated::Done(seq![])
    } else {
        let r = spec_evaluate(env, es[0], fuel);
        combine(value_of(r), eval_list(next_env(env, r), es.skip(1), fuel))
    }
}

/// The environment a list of expressions leaves: the list's own, with the atoms as its
/// elements, evaluated one after the other, left them.
pub open spec fn list_env(env: SpecEnv, es: Seq<SpecExpression>, fuel: nat) -> SpecEnv
    decreases fuel, 1nat, es.len(),
{
    if es.len() == 0 {
        env
    } else {
        list_env(next_env(env, spec_evaluate(env, es[0], fuel)), es.skip(1), fuel)
    }
}

/// The value an atom holds.
pub open spec fn deref_value(env: SpecEnv, v: SpecExpression) -> Evaluated<(SpecEnv, SpecExpression)> {
    match v {
        SpecExpression::Atom(i) => if i < atom_store(env).len() {
            Evaluated::Done((env, atom_store(env)[i as int]))
        } else {
            Evaluated::Failed("Expected atom"@)
        },
        _ => Evaluated::Failed("Expected atom"@),
    }
}

/// The entries of a map literal, keys and values evaluated in order, each in the
/// environment the previous one left, and inserted into `acc`.
pub open spec fn eval_entries(env: SpecEnv, ps: SpecPairs, acc: SpecPairs, fuel: nat) -> Evaluated<(SpecEnv, SpecPairs)>
    decreases fuel, 1nat, ps.len(),
{
    if ps.len() == 0 {
        Evaluated::Done((env, acc))
    } else {
        match spec_evaluate(env, ps[0].0, fuel) {
            Evaluated::Done((e1, k)) => match spec_evaluate(e1, ps[0].1, fuel) {
                Evaluated::Done((e2, v)) => eval_entries(e2, ps.skip(1), map_insert(acc, k, v), fuel),
                Evaluated::Failed(m) => Evaluated::Failed(m),
                Evaluated::Aborted => Evaluated::Aborted,
            },
            Evaluated::Failed(m) => Evaluated::Failed(m),
            Evaluated::Aborted => Evaluated::Aborted,
        }
    }
}

/// A namespaced symbol: the first name looked up, each further one in the module
/// that the previous one names.
pub open spec fn eval_path(env: SpecEnv, parts: Seq<Seq<char>>) -> Evaluated<SpecExpression>
    decreases parts.len(),
{
    if parts.len() == 0 {
        Evaluated::Aborted
    } else {
        match env_get(env, parts[0]) {
            None => Evaluated::Failed("Symbol "@ + parts[0] + " not found in environment"@),
            Some(v) => if parts.len() == 1 {
                Evaluated::Done(v)
            } else {
                match v {
                    SpecExpression::Module(m) => eval_path(m, parts.skip(1)),
                    _ => Evaluated::Failed("Expected module"@),
                }
            },
        }
    }
}

/// The value of `e` in `env`, with the environment it leaves. `fuel` bounds how deeply
/// evaluations nest.
pub open spec fn spec_evaluate(env: SpecEnv, e: SpecExpression, fuel: nat) -> Evaluated<(SpecEnv, SpecExpression)>
    decreases fuel, 0nat, 0nat,
{
    if fuel == 0 {
        Evaluated::Aborted
    } else {
        let f = (fuel - 1) as nat;
        match e {
            SpecExpression::Symbol(s) => match env_get(env, s) {
                Some(v) => Evaluated::Done((env, v)),
                None => Evaluated::Failed("Symbol "@ + s + " not found in environment"@),
            },
            SpecExpression::NamespacedSymbol(parts) => match eval_path(env, parts) {
                Evaluated::Done(v) => Evaluated::Done((env, v)),
                Evaluated::Failed(m) => Evaluated::Failed(m),
                Evaluated::Aborted => Evaluated::Aborted,
            },
            SpecExpression::Call(func, args) => eval_call(env, *func, args, f),
            SpecExpression::Array(es) => match eval_list(env, es, f) {
                Evaluated::Done(vs) => Evaluated::Done((list_env(env, es, f), SpecExpression::Array(vs))),
                Evaluated::Failed(m) => Evaluated::Failed(m),
                Evaluated::Aborted => Evaluated::Aborted,
            },
            SpecExpression::Mapping(ps) => match eval_entries(env, ps, seq![], f) {
                Evaluated::Done((e2, m)) => Evaluated::Done((e2, SpecExpression::Mapping(m))),
                Evaluated::Failed(m) => Evaluated::Failed(m),
                Evaluated::Aborted => Evaluated::Aborted,
            },
            SpecExpression::Quote(x) => Evaluated::Done((env, *x)),
            SpecExpression::Deref(x) => match spec_evaluate(env, *x, f) {
                Evaluated::Done((e1, v)) => deref_value(e1, v),
                Evaluated::Failed(m) => Evaluated::Failed(m),
                Evaluated::Aborted => Evaluated::Aborted,
            },
            _ => Evaluated::Done((env, e)),
        }
    }
}

/// A call: the function is evaluated, then applied to the arguments.
pub open spec fn eval_call(env: SpecEnv, func: SpecExpression, args: Seq<SpecExpression>, fuel: nat) -> Evaluated<(SpecEnv, SpecExpression)>
    decreases fuel, 4nat, 0nat,
{
    match spec_evaluate(env, func, fuel) {
        Evaluated::Done((env1, fv)) => match fv {
            SpecExpression::Function(fenv, patterns) => apply_function(env1, fenv, patterns, args, fuel),
            SpecExpression::NativeFunction(b) => apply_builtin(b, env1, args, fuel),
            SpecExpression::Keyword(k) => match eval_list(env1, args, fuel) {
                Evaluated::Done(vs) => if vs.len() == 0 {
                    Evaluated::Aborted
                } else {
                    match vs[0] {
                        SpecExpression::Mapping(m) => match map_get(m, SpecExpression::Keyword(k)) {
                            Some(v) => Evaluated::Done((list_env(env1, args, fuel), v)),
                            None => Evaluated::Done((list_env(env1, args, fuel), if vs.len() == 2 { vs[1] } else { SpecExpression::Nil })),
                        },
                        other => Evaluated::Failed("Cannot call keyword "@ + k + " on "@ + show(other)),
                    }
                },
                Evaluated::Failed(m) => Evaluated::Failed(m),
                Evaluated::Aborted => Evaluated::Aborted,
            },
            SpecExpression::Mapping(m) => match eval_list(env1, args, fuel) {
                Evaluated::Done(vs) => if vs.len() == 0 {
                    Evaluated::Aborted
                } else {
                    match map_get(m, vs[0]) {
                        Some(v) => Evaluated::Done((list_env(env1, args, fuel), v)),
                        None => Evaluated::Done((list_env(env1, args, fuel), if vs.len() == 2 { vs[1] } else { SpecExpression::Nil })),
                    }
                },
                Evaluated::Failed(m) => Evaluated::Failed(m),
                Evaluated::Aborted => Evaluated::Aborted,
            },
            other => Evaluated::Failed("Cannot call "@ + show(other)),
        },
        Evaluated::Failed(m) => Evaluated::Failed(m),
        Evaluated::Aborted => Evaluated::Aborted,
    }
}

/// The environment a clause's body runs in: the clause's bindings, `recur` bound to
/// the function, and, for a function made by `defn`, its name bound to it too.
pub open spec fn body_env(bound: SpecEnv, fenv: SpecEnv, patterns: SpecPatterns) -> SpecEnv {
    let f = SpecExpression::Function(fenv, patterns);
    let e1 = env_insert(bound, "recur"@, f);
    match env_get(e1, "*self*"@) {
        Some(SpecExpression::Symbol(name)) => env_insert(e1, name, f),
        _ => e1,
    }
}

/// Applies a function value: arguments are evaluated, the first matching clause's body
/// runs with the atoms as the arguments left them, and the caller's environment is kept,
/// with the atoms as the body left them.
pub open spec fn apply_function(env: SpecEnv, fenv: SpecEnv, patterns: SpecPatterns, args: Seq<SpecExpression>, fuel: nat) -> Evaluated<(SpecEnv, SpecExpression)>
    decreases fuel, 3nat, 0nat,
{
    match eval_list(env, args, fuel) {
        Evaluated::Done(vs) => match find_pattern_match(fenv, patterns, vs, seq![]) {
            Ok((bound, body)) => match eval_list(share_store(body_env(bound, fenv, patterns), list_env(env, args, fuel)), body, fuel) {
                Evaluated::Done(results) => Evaluated::Done((
                    share_store(
                        list_env(env, args, fuel),
                        list_env(share_store(body_env(bound, fenv, patterns), list_env(env, args, fuel)), body, fuel),
                    ),
                    last_or_nil(results),
                )),
                Evaluated::Failed(m) => Evaluated::Failed(m),
                Evaluated::Aborted => Evaluated::Aborted,
            },
            Err(m) => Evaluated::Failed(m),
        },
        Evaluated::Failed(m) => Evaluated::Failed(m),
        Evaluated::Aborted => Evaluated::Aborted,
    }
}

/// The bindings of `let`, pattern and value in turn; a last unpaired element is ignored.
pub open spec fn let_bind(env: SpecEnv, bs: Seq<SpecExpression>, fuel: nat) -> Evaluated<SpecEnv>
    decreases fuel, 2nat, bs.len(),
{
    if bs.len() < 2 {
        Evaluated::Done(env)
    } else {
        match spec_evaluate(env, bs[1], fuel) {
            Evaluated::Done((e1, v)) => match pattern_match(e1, bs[0], v) {
                Ok(e2) => let_bind(e2, bs.skip(2), fuel),
                Err(m) => Evaluated::Failed(m),
            },
            Evaluated::Failed(m) => Evaluated::Failed(m),
            Evaluated::Aborted => Evaluated::Aborted,
        }
    }
}

/// The environment the next pass of `for` starts from: the same, with the atoms as the
/// pass left them.
pub open spec fn for_next(env: SpecEnv, pattern: SpecExpression, x: SpecExpression, body: Seq<SpecExpression>, fuel: nat) -> SpecEnv
    decreases fuel, 2nat, 0nat,
{
    match pattern_match(env, pattern, x) {
        Ok(e) => match eval_list(e, body, fuel) {
            Evaluated::Done(_) => share_store(env, list_env(e, body, fuel)),
            _ => env,
        },
        Err(_) => env,
    }
}

/// The body of `for` evaluated once per value, the pattern bound to it.
pub open spec fn for_each(env: SpecEnv, pattern: SpecExpression, xs: Seq<SpecExpression>, body: Seq<SpecExpression>, fuel: nat) -> Evaluated<Seq<SpecExpression>>
    decreases fuel, 2nat, xs.len(),
{
    if xs.len() == 0 {
        Evaluated::Done(seq![])
    } else {
        let first = match pattern_match(env, pattern, xs[0]) {
            Ok(e) => match eval_list(e, body, fuel) {
                Evaluated::Done(vs) => Evaluated::Done(last_or_nil(vs)),
                Evaluated::Failed(m) => Evaluated::Failed(m),
                Evaluated::Aborted => Evaluated::Aborted,
            },
            Err(m) => Evaluated::Failed(m),
        };
        combine(first, for_each(for_next(env, pattern, xs[0], body, fuel), pattern, xs.skip(1), body, fuel))
    }
}

/// The environment `for` leaves: the one it started from, with the atoms as its passes
/// left them.
pub open spec fn for_env(env: SpecEnv, pattern: SpecExpression, xs: Seq<SpecExpression>, body: Seq<SpecExpression>, fuel: nat) -> SpecEnv
    decreases fuel, 2nat, xs.len(),
{
    if xs.len() == 0 {
        env
    } else {
        for_env(for_next(env, pattern, xs[0], body, fuel), pattern, xs.skip(1), body, fuel)
    }
}

/// `->`: each form called with the result so far as its first argument.
pub open spec fn thread(env: SpecEnv, result: SpecExpression, forms: Seq<SpecExpression>, fuel: nat) -> Evaluated<(SpecEnv, SpecExpression)>
    decreases fuel, 2nat, forms.len(),
{
    if forms.len() == 0 {
        Evaluated::Done((env, result))
    } else {
        let call = match forms[0] {
            SpecExpression::Call(f, args) => SpecExpression::Call(f, seq![result] + args),
            other => SpecExpression::Call(Box::new(other), seq![result]),
        };
        match spec_evaluate(env, call, fuel) {
            Evaluated::Done((e1, v)) => thread(e1, v, forms.skip(1), fuel),
            Evaluated::Failed(m) => Evaluated::Failed(m),
            Evaluated::Aborted => Evaluated::Aborted,
        }
    }
}

/// A value paired with the environment it leaves unchanged.
pub open spec fn in_env(env: SpecEnv, r: Evaluated<SpecExpression>) -> Evaluated<(SpecEnv, SpecExpression)> {
    match r {
        Evaluated::Done(v) => Evaluated::Done((env, v)),
        Evaluated::Failed(m) => Evaluated::Failed(m),
        Evaluated::Aborted => Evaluated::Aborted,
    }
}

/// A fold's result as an outcome.
pub open spec fn folded(r: Result<SpecExpression, Seq<char>>) -> Evaluated<SpecExpression> {
    match r {
        Ok(v) => Evaluated::Done(v),
        Err(m) => Evaluated::Failed(m),
    }
}

/// What a builtin that only looks at its evaluated arguments gives for them.
pub open spec fn apply_to_values(b: Builtin, vs: Seq<SpecExpression>) -> Evaluated<SpecExpression> {
    match b {
        Builtin::Equal => if vs.len() < 2 { Evaluated::Aborted } else { Evaluated::Done(SpecExpression::Bool(vs[0] == vs[1])) },
        Builtin::Add => folded(add_fold(vs[0], vs.skip(1))),
        Builtin::Subtract => if vs.len() == 0 { Evaluated::Aborted } else { folded(sub_fold(vs[0], vs.skip(1))) },
        Builtin::Multiply => folded(mul_fold(vs[0], vs.skip(1))),
        Builtin::Divide => if vs.len() == 0 { Evaluated::Aborted } else { div_fold(vs[0], vs.skip(1)) },
        Builtin::Str => Evaluated::Done(SpecExpression::String(concat_str(vs))),
        Builtin::Do => Evaluated::Done(last_or_nil(vs)),
        Builtin::Range => if vs.len() == 0 {
            Evaluated::Aborted
        } else {
            match vs[0] {
                SpecExpression::Integer(n) => if n > usize::MAX {
                    Evaluated::Aborted
                } else {
                    Evaluated::Done(SpecExpression::Array(Seq::new(if n < 0 { 0 } else { n as nat }, |i: int| SpecExpression::Integer(i))))
                },
                _ => Evaluated::Failed("Expected integer"@),
            }
        },
        Builtin::Assoc => if vs.len() < 3 {
            Evaluated::Aborted
        } else {
            match vs[0] {
                SpecExpression::Mapping(m) => Evaluated::Done(SpecExpression::Mapping(map_insert(m, vs[1], vs[2]))),
                _ => Evaluated::Failed("Expected map"@),
            }
        },
        Builtin::Dissoc => if vs.len() < 2 {
            Evaluated::Aborted
        } else {
            match vs[0] {
                SpecExpression::Mapping(m) => Evaluated::Done(SpecExpression::Mapping(map_remove(m, vs[1]))),
                _ => Evaluated::Failed("Expected map"@),
            }
        },
        Builtin::Merge => if vs.len() < 2 {
            Evaluated::Aborted
        } else {
            match (vs[0], vs[1]) {
                (SpecExpression::Mapping(m1), SpecExpression::Mapping(m2)) => Evaluated::Done(SpecExpression::Mapping(map_merge(m1, m2))),
                _ => Evaluated::Failed("Expected map"@),
            }
        },
        Builtin::Get => if vs.len() < 2 {
            Evaluated::Aborted
        } else {
            match vs[0] {
                SpecExpression::Mapping(m) => match map_get(m, vs[1]) {
                    Some(v) => Evaluated::Done(v),
                    None => Evaluated::Done(if vs.len() == 3 { vs[2] } else { SpecExpression::Nil }),
                },
                _ => Evaluated::Failed("Expected map"@),
            }
        },
        Builtin::Nth => if vs.len() == 0 {
            Evaluated::Aborted
        } else {
            match vs[0] {
                SpecExpression::Array(xs) => if vs.len() < 2 {
                    Evaluated::Aborted
                } else {
                    match vs[1] {
                        SpecExpression::Integer(i) => if i < 0 || i > usize::MAX {
                            Evaluated::Failed("Index out of range"@)
                        } else if i < xs.len() {
                            Evaluated::Done(xs[i])
                        } else if vs.len() == 3 {
                            Evaluated::Done(vs[2])
                        } else {
                            Evaluated::Failed("Index out of range"@)
                        },
                        _ => Evaluated::Failed("Expected integer"@),
                    }
                },
                _ => Evaluated::Failed("Expected array"@),
            }
        },
        Builtin::Count => if vs.len() == 0 {
            Evaluated::Aborted
        } else {
            match vs[0] {
                SpecExpression::Array(xs) => Evaluated::Done(SpecExpression::Integer(xs.len() as int)),
                _ => Evaluated::Failed("Expected array"@),
            }
        },
        Builtin::SqlString => if vs.len() == 0 {
            Evaluated::Aborted
        } else {
            crate::sql::spec_sql_string(vs[0])
        },
        Builtin::HtmlToString => if vs.len() == 0 {
            Evaluated::Aborted
        } else {
            Evaluated::Done(SpecExpression::String(crate::html::html(vs[0])))
        },
        _ => Evaluated::Aborted,
    }
}

/// The builtins that evaluate all their arguments first and leave the environment as
/// it was.
pub open spec fn evaluates_arguments(b: Builtin) -> bool {
    match b {
        Builtin::Equal | Builtin::Subtract | Builtin::Divide | Builtin::Str | Builtin::Do
        | Builtin::Range | Builtin::Assoc | Builtin::Dissoc | Builtin::Merge | Builtin::Get
        | Builtin::Nth | Builtin::Count | Builtin::SqlString | Builtin::HtmlToString => true,
        _ => false,
    }
}

/// The symbol named by the characters `name`.
pub open spec fn sym(name: Seq<char>) -> SpecExpression {
    SpecExpression::Symbol(name)
}

/// Applies a builtin to its unevaluated arguments.
pub open spec fn apply_builtin(b: Builtin, env: SpecEnv, a: Seq<SpecExpression>, fuel: nat) -> Evaluated<(SpecEnv, SpecExpression)>
    decreases fuel, 3nat, 2nat,
{
    if evaluates_arguments(b) || ((b == Builtin::Add || b == Builtin::Multiply) && a.len() > 0) {
        match eval_list(env, a, fuel) {
            Evaluated::Done(vs) => in_env(list_env(env, a, fuel), apply_to_values(b, vs)),
            Evaluated::Failed(m) => Evaluated::Failed(m),
            Evaluated::Aborted => Evaluated::Aborted,
        }
    } else {
        apply_special(b, env, a, fuel)
    }
}

/// The builtins that treat their arguments themselves.
pub open spec fn apply_special(b: Builtin, env: SpecEnv, a: Seq<SpecExpression>, fuel: nat) -> Evaluated<(SpecEnv, SpecExpression)>
    decreases fuel, 3nat, 1nat,
{
    match b {
        Builtin::Add => special_add(env, a, fuel),
        Builtin::Multiply => special_multiply(env, a, fuel),
        Builtin::If => special_if(env, a, fuel),
        Builtin::Def => special_def(env, a, fuel),
        Builtin::Fn => special_fn(env, a, fuel),
        Builtin::Defn => special_defn(env, a, fuel),
        Builtin::Eval => special_eval(env, a, fuel),
        Builtin::ReadString => special_read_string(env, a, fuel),
        Builtin::Assert => special_assert(env, a, fuel),
        Builtin::Let => special_let(env, a, fuel),
        Builtin::For => special_for(env, a, fuel),
        Builtin::Bound => special_bound(env, a, fuel),
        Builtin::ThreadFirst => special_thread_first(env, a, fuel),
        Builtin::When => special_when(env, a, fuel),
        Builtin::Inc => special_inc(env, a, fuel),
        Builtin::Atom => special_atom(env, a, fuel),
        Builtin::Reset => special_reset(env, a, fuel),
        Builtin::Swap => special_swap(env, a, fuel),
        _ => if performs_io(b) {
            Evaluated::Failed(io_outside_top_level())
        } else {
            Evaluated::Aborted
        },
    }
}

/// `(atom v)`: a new atom holding the value of `v`.
pub open spec fn special_atom(env: SpecEnv, a: Seq<SpecExpression>, fuel: nat) -> Evaluated<(SpecEnv, SpecExpression)>
    decreases fuel, 3nat, 0nat,
{
    if a.len() == 0 {
        Evaluated::Aborted
    } else {
        match spec_evaluate(env, a[0], fuel) {
            Evaluated::Done((e1, v)) => Evaluated::Done((
                with_store(e1, atom_store(e1).push(v)),
                SpecExpression::Atom(atom_store(e1).len()),
            )),
            Evaluated::Failed(m) => Evaluated::Failed(m),
            Evaluated::Aborted => Evaluated::Aborted,
        }
    }
}

/// The index of the atom that the first evaluated argument is, in `env`.
pub open spec fn atom_index(env: SpecEnv, vs: Seq<SpecExpression>) -> Evaluated<nat> {
    if vs.len() == 0 {
        Evaluated::Aborted
    } else {
        match vs[0] {
            SpecExpression::Atom(i) => if i < atom_store(env).len() {
                Evaluated::Done(i)
            } else {
                Evaluated::Failed("Expected atom"@)
            },
            _ => Evaluated::Failed("Expected atom"@),
        }
    }
}

/// `(reset! a v)`: the atom now holds `v`; the call gives `nil`.
pub open spec fn special_reset(env: SpecEnv, a: Seq<SpecExpression>, fuel: nat) -> Evaluated<(SpecEnv, SpecExpression)>
    decreases fuel, 3nat, 0nat,
{
    match eval_list(env, a, fuel) {
        Evaluated::Done(vs) => match atom_index(list_env(env, a, fuel), vs) {
            Evaluated::Done(i) => if vs.len() < 2 {
                Evaluated::Aborted
            } else {
                let ea = list_env(env, a, fuel);
                Evaluated::Done((with_store(ea, atom_store(ea).update(i as int, vs[1])), SpecExpression::Nil))
            },
            Evaluated::Failed(m) => Evaluated::Failed(m),
            Evaluated::Aborted => Evaluated::Aborted,
        },
        Evaluated::Failed(m) => Evaluated::Failed(m),
        Evaluated::Aborted => Evaluated::Aborted,
    }
}

/// `(swap! a f)`: the atom now holds `f` applied to what it held; the call gives `nil`.
pub open spec fn special_swap(env: SpecEnv, a: Seq<SpecExpression>, fuel: nat) -> Evaluated<(SpecEnv, SpecExpression)>
    decreases fuel, 3nat, 0nat,
{
    match eval_list(env, a, fuel) {
        Evaluated::Done(vs) => match atom_index(list_env(env, a, fuel), vs) {
            Evaluated::Done(i) => if vs.len() < 2 {
                Evaluated::Aborted
            } else {
                let ea = list_env(env, a, fuel);
                let call = SpecExpression::Call(Box::new(vs[1]), seq![atom_store(ea)[i as int]]);
                match spec_evaluate(ea, call, fuel) {
                    Evaluated::Done((e1, nv)) => if i < atom_store(e1).len() {
                        Evaluated::Done((with_store(e1, atom_store(e1).update(i as int, nv)), SpecExpression::Nil))
                    } else {
                        Evaluated::Failed("Expected atom"@)
                    },
                    Evaluated::Failed(m) => Evaluated::Failed(m),
                    Evaluated::Aborted => Evaluated::Aborted,
                }
            },
            Evaluated::Failed(m) => Evaluated::Failed(m),
            Evaluated::Aborted => Evaluated::Aborted,
        },
        Evaluated::Failed(m) => Evaluated::Failed(m),
        Evaluated::Aborted => Evaluated::Aborted,
    }
}

/// The builtins that read or change the world outside the program: a database, files,
/// the network. They run as top-level forms, where the interactive loop performs them;
/// evaluated inside another expression they fail.
pub open spec fn performs_io(b: Builtin) -> bool {
    match b {
        Builtin::SqlConnect | Builtin::SqlQuery | Builtin::SqlExecute | Builtin::SqlTables
        | Builtin::IoReadFile | Builtin::IoWriteFile | Builtin::Import | Builtin::HttpGet
        | Builtin::HttpPost | Builtin::ServerStart | Builtin::ServerStop | Builtin::JsonToString
        | Builtin::JsonFromString => true,
        _ => false,
    }
}

/// The failure of a builtin that performs input or output inside another expression.
pub open spec fn io_outside_top_level() -> Seq<char> {
    "Input and output run only as top-level forms"@
}

/// `+` with no arguments.
pub open spec fn special_add(env: SpecEnv, a: Seq<SpecExpression>, fuel: nat) -> Evaluated<(SpecEnv, SpecExpression)>
{
    Evaluated::Done((env, SpecExpression::Integer(0)))
}

/// `*` with no arguments.
pub open spec fn special_multiply(env: SpecEnv, a: Seq<SpecExpression>, fuel: nat) -> Evaluated<(SpecEnv, SpecExpression)>
{
    Evaluated::Done((env, SpecExpression::Integer(1)))
}

/// `if` applied to its unevaluated arguments.
pub open spec fn special_if(env: SpecEnv, a: Seq<SpecExpression>, fuel: nat) -> Evaluated<(SpecEnv, SpecExpression)>
    decreases fuel, 3nat, 0nat,
{
    if a.len() < 3 {
        Evaluated::Aborted
    } else {
        match spec_evaluate(env, a[0], fuel) {
            Evaluated::Done((e1, c)) => spec_evaluate(e1, if truthy(c) { a[1] } else { a[2] }, fuel),
            other => other,
        }
    }
}

/// `def` applied to its unevaluated arguments.
pub open spec fn special_def(env: SpecEnv, a: Seq<SpecExpression>, fuel: nat) -> Evaluated<(SpecEnv, SpecExpression)>
    decreases fuel, 3nat, 0nat,
{
    if a.len() < 2 {
        Evaluated::Aborted
    } else {
        match spec_evaluate(env, a[1], fuel) {
            Evaluated::Done((e1, v)) => match a[0] {
                SpecExpression::Symbol(name) => Evaluated::Done((env_insert(e1, name, v), SpecExpression::Nil)),
                _ => Evaluated::Failed("Expected keyword"@),
            },
            other => other,
        }
    }
}

/// `fn` applied to its unevaluated arguments.
pub open spec fn special_fn(env: SpecEnv, a: Seq<SpecExpression>, fuel: nat) -> Evaluated<(SpecEnv, SpecExpression)>
{
    match function_clauses(a) {
        Evaluated::Done(ps) => Evaluated::Done((env, SpecExpression::Function(env, ps))),
        Evaluated::Failed(m) => Evaluated::Failed(m),
        Evaluated::Aborted => Evaluated::Aborted,
    }
}

/// `defn` applied to its unevaluated arguments.
pub open spec fn special_defn(env: SpecEnv, a: Seq<SpecExpression>, fuel: nat) -> Evaluated<(SpecEnv, SpecExpression)>
    decreases fuel, 3nat, 0nat,
{
    if a.len() == 0 {
        Evaluated::Aborted
    } else {
        match function_clauses(a.skip(1)) {
            Evaluated::Done(ps) => {
                let f = SpecExpression::Function(env_insert(env, "*self*"@, a[0]), ps);
                spec_evaluate(env, SpecExpression::Call(Box::new(sym("def"@)), seq![a[0], f]), fuel)
            },
            Evaluated::Failed(m) => Evaluated::Failed(m),
            Evaluated::Aborted => Evaluated::Aborted,
        }
    }
}

/// `eval` applied to its unevaluated arguments.
pub open spec fn special_eval(env: SpecEnv, a: Seq<SpecExpression>, fuel: nat) -> Evaluated<(SpecEnv, SpecExpression)>
    decreases fuel, 3nat, 0nat,
{
    if a.len() == 0 {
        Evaluated::Aborted
    } else {
        match spec_evaluate(env, a[0], fuel) {
            Evaluated::Done((e1, x)) => spec_evaluate(e1, x, fuel),
            other => other,
        }
    }
}

/// `read-string` applied to its unevaluated arguments.
pub open spec fn special_read_string(env: SpecEnv, a: Seq<SpecExpression>, fuel: nat) -> Evaluated<(SpecEnv, SpecExpression)>
    decreases fuel, 3nat, 0nat,
{
    if a.len() == 0 {
        Evaluated::Aborted
    } else {
        match spec_evaluate(env, a[0], fuel) {
            Evaluated::Done((e1, x)) => match x {
                SpecExpression::String(s) => match spec_tokenize(s) {
                    Some(ts) => match spec_parse(ts) {
                        Some((left, e)) => if left > 0 {
                            Evaluated::Failed("Could not parse expression"@)
                        } else {
                            Evaluated::Done((e1, e))
                        },
                        None => Evaluated::Aborted,
                    },
                    None => Evaluated::Aborted,
                },
                _ => Evaluated::Failed("Expected string"@),
            },
            other => other,
        }
    }
}

/// `assert` applied to its unevaluated arguments.
pub open spec fn special_assert(env: SpecEnv, a: Seq<SpecExpression>, fuel: nat) -> Evaluated<(SpecEnv, SpecExpression)>
    decreases fuel, 3nat, 0nat,
{
    if a.len() == 0 {
        Evaluated::Aborted
    } else {
        match spec_evaluate(env, a[0], fuel) {
            Evaluated::Done((e1, x)) => if truthy(x) {
                Evaluated::Done((e1, SpecExpression::Nil))
            } else {
                Evaluated::Failed("Assertion failed"@)
            },
            other => other,
        }
    }
}

/// `let` applied to its unevaluated arguments.
pub open spec fn special_let(env: SpecEnv, a: Seq<SpecExpression>, fuel: nat) -> Evaluated<(SpecEnv, SpecExpression)>
    decreases fuel, 3nat, 0nat,
{
    if a.len() == 0 {
        Evaluated::Aborted
    } else {
        match a[0] {
            SpecExpression::Array(bs) => match let_bind(env, bs, fuel) {
                Evaluated::Done(e1) => match eval_list(e1, a.skip(1), fuel) {
                    Evaluated::Done(vs) => Evaluated::Done((share_store(env, list_env(e1, a.skip(1), fuel)), last_or_nil(vs))),
                    Evaluated::Failed(m) => Evaluated::Failed(m),
                    Evaluated::Aborted => Evaluated::Aborted,
                },
                Evaluated::Failed(m) => Evaluated::Failed(m),
                Evaluated::Aborted => Evaluated::Aborted,
            },
            _ => Evaluated::Failed("Expected array"@),
        }
    }
}

/// `for` applied to its unevaluated arguments.
pub open spec fn special_for(env: SpecEnv, a: Seq<SpecExpression>, fuel: nat) -> Evaluated<(SpecEnv, SpecExpression)>
    decreases fuel, 3nat, 0nat,
{
    if a.len() == 0 {
        Evaluated::Aborted
    } else {
        match a[0] {
            SpecExpression::Array(bs) => if bs.len() < 2 {
                Evaluated::Aborted
            } else {
                match spec_evaluate(env, bs[1], fuel) {
                    Evaluated::Done((e1, xs)) => match xs {
                        SpecExpression::Array(items) => match for_each(e1, bs[0], items, a.skip(1), fuel) {
                            Evaluated::Done(ws) => Evaluated::Done((for_env(e1, bs[0], items, a.skip(1), fuel), SpecExpression::Array(ws))),
                            Evaluated::Failed(m) => Evaluated::Failed(m),
                            Evaluated::Aborted => Evaluated::Aborted,
                        },
                        _ => Evaluated::Failed("Expected array"@),
                    },
                    other => other,
                }
            },
            _ => Evaluated::Failed("Expected array"@),
        }
    }
}

/// `bound?` applied to its unevaluated arguments.
pub open spec fn special_bound(env: SpecEnv, a: Seq<SpecExpression>, fuel: nat) -> Evaluated<(SpecEnv, SpecExpression)>
{
    if a.len() == 0 {
        Evaluated::Aborted
    } else {
        match a[0] {
            SpecExpression::Symbol(name) => Evaluated::Done((env, SpecExpression::Bool(env_get(env, name) is Some))),
            _ => Evaluated::Failed("Expected keyword"@),
        }
    }
}

/// `->` applied to its unevaluated arguments.
pub open spec fn special_thread_first(env: SpecEnv, a: Seq<SpecExpression>, fuel: nat) -> Evaluated<(SpecEnv, SpecExpression)>
    decreases fuel, 3nat, 0nat,
{
    if a.len() == 0 {
        Evaluated::Aborted
    } else {
        match spec_evaluate(env, a[0], fuel) {
            Evaluated::Done((e1, r)) => thread(e1, r, a.skip(1), fuel),
            other => other,
        }
    }
}

/// `when` applied to its unevaluated arguments.
pub open spec fn special_when(env: SpecEnv, a: Seq<SpecExpression>, fuel: nat) -> Evaluated<(SpecEnv, SpecExpression)>
    decreases fuel, 3nat, 0nat,
{
    if a.len() == 0 {
        Evaluated::Aborted
    } else {
        match spec_evaluate(env, a[0], fuel) {
            Evaluated::Done((e1, c)) => if truthy(c) {
                spec_evaluate(e1, SpecExpression::Call(Box::new(sym("do"@)), a.skip(1)), fuel)
            } else {
                Evaluated::Done((e1, SpecExpression::Nil))
            },
            other => other,
        }
    }
}

/// `inc` applied to its unevaluated arguments.
pub open spec fn special_inc(env: SpecEnv, a: Seq<SpecExpression>, fuel: nat) -> Evaluated<(SpecEnv, SpecExpression)>
    decreases fuel, 3nat, 0nat,
{
    if a.len() == 0 {
        Evaluated::Aborted
    } else {
        spec_evaluate(env, SpecExpression::Call(Box::new(sym("+"@)), seq![a[0], SpecExpression::Integer(1)]), fuel)
    }
}

/// `(def name x)` evaluates `x` one level down and binds `name` to its value; the call
/// itself gives `nil`.
pub proof fn law_def_binds(env: SpecEnv, name: Seq<char>, x: SpecExpression, fuel: nat)
    requires
        env_get(env, "def"@) == Some(SpecExpression::NativeFunction(Builtin::Def)),
        fuel >= 2,
    ensures
        spec_evaluate(env, SpecExpression::Call(Box::new(sym("def"@)), seq![SpecExpression::Symbol(name), x]), fuel)
            == match spec_evaluate(env, x, (fuel - 1) as nat) {
                Evaluated::Done((e1, v)) => Evaluated::Done((env_insert(e1, name, v), SpecExpression::Nil)),
                other => other,
            },
{
    let args = seq![SpecExpression::Symbol(name), x];
    let f1 = (fuel - 1) as nat;
    let call = SpecExpression::Call(Box::new(sym("def"@)), args);
    assert(spec_evaluate(env, call, fuel) == eval_call(env, sym("def"@), args, f1));
    assert(spec_evaluate(env, sym("def"@), f1) == Evaluated::Done((env, SpecExpression::NativeFunction(Builtin::Def))));
    assert(eval_call(env, sym("def"@), args, f1) == apply_builtin(Builtin::Def, env, args, f1));
    assert(apply_builtin(Builtin::Def, env, args, f1) == apply_special(Builtin::Def, env, args, f1));
    assert(apply_special(Builtin::Def, env, args, f1) == special_def(env, args, f1));
}

/// A symbol evaluates to the value it was last bound to.
pub proof fn law_lookup_after_bind(env: SpecEnv, name: Seq<char>, v: SpecExpression, fuel: nat)
    requires
        fuel >= 1,
    ensures
        spec_evaluate(env_insert(env, name, v), SpecExpression::Symbol(name), fuel)
            == Evaluated::Done((env_insert(env, name, v), v)),
{
    crate::mapping::law_env_get_after_insert(env, name, v);
}

/// A quoted expression evaluates to the expression itself, unevaluated.
pub proof fn law_quote(env: SpecEnv, x: SpecExpression, fuel: nat)
    requires
        fuel >= 1,
    ensures
        spec_evaluate(env, SpecExpression::Quote(Box::new(x)), fuel) == Evaluated::Done((env, x)),
{
}

/// `(eval 'x)` is the value of `x`, one level down.
pub proof fn law_eval_quote(env: SpecEnv, x: SpecExpression, fuel: nat)
    requires
        env_get(env, "eval"@) == Some(SpecExpression::NativeFunction(Builtin::Eval)),
        fuel >= 3,
    ensures
        spec_evaluate(env, SpecExpression::Call(Box::new(sym("eval"@)), seq![SpecExpression::Quote(Box::new(x))]), fuel)
            == spec_evaluate(env, x, (fuel - 1) as nat),
{
    let args = seq![SpecExpression::Quote(Box::new(x))];
    let f1 = (fuel - 1) as nat;
    let call = SpecExpression::Call(Box::new(sym("eval"@)), args);
    assert(spec_evaluate(env, call, fuel) == eval_call(env, sym("eval"@), args, f1));
    assert(spec_evaluate(env, sym("eval"@), f1) == Evaluated::Done((env, SpecExpression::NativeFunction(Builtin::Eval))));
    assert(eval_call(env, sym("eval"@), args, f1) == apply_builtin(Builtin::Eval, env, args, f1));
    assert(apply_builtin(Builtin::Eval, env, args, f1) == apply_special(Builtin::Eval, env, args, f1));
    assert(apply_special(Builtin::Eval, env, args, f1) == special_eval(env, args, f1));
    assert(spec_evaluate(env, args[0], f1) == Evaluated::Done((env, x)));
}

/// `(if c t e)` evaluates the condition, then exactly one branch: `t` when the
/// condition's value is true, `e` otherwise.
pub proof fn law_if(env: SpecEnv, c: SpecExpression, t: SpecExpression, e: SpecExpression, fuel: nat)
    requires
        env_get(env, "if"@) == Some(SpecExpression::NativeFunction(Builtin::If)),
        fuel >= 2,
    ensures
        spec_evaluate(env, SpecExpression::Call(Box::new(sym("if"@)), seq![c, t, e]), fuel)
            == match spec_evaluate(env, c, (fuel - 1) as nat) {
                Evaluated::Done((e1, cv)) => spec_evaluate(e1, if truthy(cv) { t } else { e }, (fuel - 1) as nat),
                other => other,
            },
{
    let args = seq![c, t, e];
    let f1 = (fuel - 1) as nat;
    let call = SpecExpression::Call(Box::new(sym("if"@)), args);
    assert(spec_evaluate(env, call, fuel) == eval_call(env, sym("if"@), args, f1));
    assert(spec_evaluate(env, sym("if"@), f1) == Evaluated::Done((env, SpecExpression::NativeFunction(Builtin::If))));
    assert(eval_call(env, sym("if"@), args, f1) == apply_builtin(Builtin::If, env, args, f1));
    assert(apply_builtin(Builtin::If, env, args, f1) == apply_special(Builtin::If, env, args, f1));
    assert(apply_special(Builtin::If, env, args, f1) == special_if(env, args, f1));
}

/// Sharing atoms changes no binding but that of the atoms.
pub proof fn lemma_share_store_other(target: SpecEnv, source: SpecEnv, n: Seq<char>)
    requires
        n != store_name(),
    ensures
        env_get(share_store(target, source), n) == env_get(target, n),
{
    if let Some(s) = env_get(source, store_name()) {
        if env_get(target, store_name()) != Some(s) {
            crate::mapping::law_env_get_other_after_insert(target, store_name(), s, n);
        }
    }
}

/// `let` gives back the environment it was evaluated in, but for what its body wrote to
/// atoms: its bindings do not outlive it.
pub proof fn law_let_restores(env: SpecEnv, a: Seq<SpecExpression>, fuel: nat)
    requires
        env_get(env, "let"@) == Some(SpecExpression::NativeFunction(Builtin::Let)),
        fuel >= 2,
    ensures
        spec_evaluate(env, SpecExpression::Call(Box::new(sym("let"@)), a), fuel) matches Evaluated::Done((e2, _))
            ==> forall|n: Seq<char>| n != store_name() ==> #[trigger] env_get(e2, n) == env_get(env, n),
{
    let f1 = (fuel - 1) as nat;
    let call = SpecExpression::Call(Box::new(sym("let"@)), a);
    assert(spec_evaluate(env, call, fuel) == eval_call(env, sym("let"@), a, f1));
    assert(spec_evaluate(env, sym("let"@), f1) == Evaluated::Done((env, SpecExpression::NativeFunction(Builtin::Let))));
    assert(eval_call(env, sym("let"@), a, f1) == apply_builtin(Builtin::Let, env, a, f1));
    assert(apply_builtin(Builtin::Let, env, a, f1) == apply_special(Builtin::Let, env, a, f1));
    assert(apply_special(Builtin::Let, env, a, f1) == special_let(env, a, f1));
    if let Evaluated::Done((e2, _)) = special_let(env, a, f1) {
        if let SpecExpression::Array(bs) = a[0] {
            if let Evaluated::Done(e1) = let_bind(env, bs, f1) {
                assert(e2 == share_store(env, list_env(e1, a.skip(1), f1)));
                assert forall|n: Seq<char>| n != store_name() implies #[trigger] env_get(e2, n) == env_get(env, n) by {
                    lemma_share_store_other(env, list_env(e1, a.skip(1), f1), n);
                }
            }
        }
    }
}

/// Reading a key back from a map that `assoc` made gives the value it bound.
pub proof fn law_get_after_assoc(m: SpecPairs, k: SpecExpression, v: SpecExpression)
    ensures
        apply_to_values(Builtin::Assoc, seq![SpecExpression::Mapping(m), k, v])
            == Evaluated::Done(SpecExpression::Mapping(map_insert(m, k, v))),
        apply_to_values(Builtin::Get, seq![SpecExpression::Mapping(map_insert(m, k, v)), k]) == Evaluated::Done(v),
{
    crate::mapping::law_map_get_after_insert(m, k, v);
}

/// Reading a key back from a map that `dissoc` made gives `nil`.
pub proof fn law_get_after_dissoc(m: SpecPairs, k: SpecExpression)
    ensures
        apply_to_values(Builtin::Dissoc, seq![SpecExpression::Mapping(m), k])
            == Evaluated::Done(SpecExpression::Mapping(map_remove(m, k))),
        apply_to_values(Builtin::Get, seq![SpecExpression::Mapping(map_remove(m, k)), k])
            == Evaluated::Done(SpecExpression::Nil),
{
    crate::mapping::law_map_get_after_remove(m, k);
}

/// Evaluating a list of expressions gives one value per expression.
pub proof fn law_eval_list_length(env: SpecEnv, es: Seq<SpecExpression>, fuel: nat)
    ensures
        eval_list(env, es, fuel) matches Evaluated::Done(vs) ==> vs.len() == es.len(),
    decreases es.len(),
{
    if es.len() > 0 {
        law_eval_list_length(next_env(env, spec_evaluate(env, es[0], fuel)), es.skip(1), fuel);
    }
}

/// Literals (numbers, strings, keywords, booleans, `nil`) evaluate to themselves and
/// leave the environment as it was.
pub proof fn law_literals_evaluate_to_themselves(env: SpecEnv, e: SpecExpression, fuel: nat)
    requires
        fuel >= 1,
        e is Integer || e is Float || e is Ratio || e is String || e is Keyword || e is Bool || e is Nil,
    ensures
        spec_evaluate(env, e, fuel) == Evaluated::Done((env, e)),
{
}

/// Calling a function of one clause with one symbol parameter evaluates the argument in
/// the caller's environment, then the body in the function's own environment with the
/// parameter bound to the argument's value (and `recur` bound to the function) and the
/// atoms as the argument left them; the caller's environment is kept, with the atoms as
/// the body left them, and the value is the body's last.
pub proof fn law_apply_one_parameter(
    env: SpecEnv,
    fenv: SpecEnv,
    x: Seq<char>,
    body: Seq<SpecExpression>,
    arg: SpecExpression,
    fuel: nat,
)
    requires
        fuel >= 2,
    ensures
        ({
            let ps = seq![(seq![SpecExpression::Symbol(x)], body)];
            let f = SpecExpression::Function(fenv, ps);
            spec_evaluate(env, SpecExpression::Call(Box::new(f), seq![arg]), fuel)
                == match spec_evaluate(env, arg, (fuel - 1) as nat) {
                    Evaluated::Done((_, v)) => match eval_list(
                        share_store(body_env(env_insert(fenv, x, v), fenv, ps), list_env(env, seq![arg], (fuel - 1) as nat)),
                        body,
                        (fuel - 1) as nat,
                    ) {
                        Evaluated::Done(rs) => Evaluated::Done((
                            share_store(
                                list_env(env, seq![arg], (fuel - 1) as nat),
                                list_env(
                                    share_store(body_env(env_insert(fenv, x, v), fenv, ps), list_env(env, seq![arg], (fuel - 1) as nat)),
                                    body,
                                    (fuel - 1) as nat,
                                ),
                            ),
                            last_or_nil(rs),
                        )),
                        Evaluated::Failed(m) => Evaluated::Failed(m),
                        Evaluated::Aborted => Evaluated::Aborted,
                    },
                    Evaluated::Failed(m) => Evaluated::Failed(m),
                    Evaluated::Aborted => Evaluated::Aborted,
                }
        }),
{
    let ps = seq![(seq![SpecExpression::Symbol(x)], body)];
    let f = SpecExpression::Function(fenv, ps);
    let f1 = (fuel - 1) as nat;
    let args = seq![arg];
    assert(spec_evaluate(env, SpecExpression::Call(Box::new(f), args), fuel) == eval_call(env, f, args, f1));
    assert(spec_evaluate(env, f, f1) == Evaluated::Done((env, f)));
    assert(eval_call(env, f, args, f1) == apply_function(env, fenv, ps, args, f1));
    assert(args.skip(1) =~= Seq::<SpecExpression>::empty());
    let n = next_env(env, spec_evaluate(env, arg, f1));
    assert(eval_list(n, args.skip(1), f1) == Evaluated::<Seq<SpecExpression>>::Done(seq![]));
    assert(eval_list(env, args, f1) == combine(value_of(spec_evaluate(env, arg, f1)), Evaluated::Done(seq![])));
    match spec_evaluate(env, arg, f1) {
        Evaluated::Done((e1, v)) => {
            assert(seq![v] + Seq::<SpecExpression>::empty() =~= seq![v]);
            assert(eval_list(env, args, f1) == Evaluated::Done(seq![v]));
            let params = seq![SpecExpression::Symbol(x)];
            assert(params.skip(1) =~= Seq::<SpecExpression>::empty());
            assert(seq![v].skip(1) =~= Seq::<SpecExpression>::empty());
            assert(params[0] == SpecExpression::Symbol(x));
            assert(seq![v][0] == v);
            assert(pattern_match(fenv, params[0], v) == Ok::<SpecEnv, Seq<char>>(env_insert(fenv, x, v)));
            assert(match_all(env_insert(fenv, x, v), params.skip(1), seq![v].skip(1)) == Ok::<SpecEnv, Seq<char>>(env_insert(fenv, x, v)));
            assert(match_all(fenv, params, seq![v]) == Ok::<SpecEnv, Seq<char>>(env_insert(fenv, x, v)));
            assert(pattern_match(fenv, SpecExpression::Array(params), SpecExpression::Array(seq![v]))
                == Ok::<SpecEnv, Seq<char>>(env_insert(fenv, x, v)));
            assert(find_pattern_match(fenv, ps, seq![v], seq![])
                == Ok::<(SpecEnv, Seq<SpecExpression>), Seq<char>>((env_insert(fenv, x, v), body)));
        },
        _ => {},
    }
}

/// `(let [x e] body...)` evaluates `e`, then the body with `x` bound to its value; the
/// value is the body's last, and the environment is kept, with the atoms as the body
/// left them.
pub proof fn law_let_binds(env: SpecEnv, x: Seq<char>, e: SpecExpression, body: Seq<SpecExpression>, fuel: nat)
    requires
        env_get(env, "let"@) == Some(SpecExpression::NativeFunction(Builtin::Let)),
        fuel >= 2,
    ensures
        spec_evaluate(
            env,
            SpecExpression::Call(
                Box::new(sym("let"@)),
                seq![SpecExpression::Array(seq![SpecExpression::Symbol(x), e])] + body,
            ),
            fuel,
        ) == match spec_evaluate(env, e, (fuel - 1) as nat) {
            Evaluated::Done((e1, v)) => match eval_list(env_insert(e1, x, v), body, (fuel - 1) as nat) {
                Evaluated::Done(rs) => Evaluated::Done((
                    share_store(env, list_env(env_insert(e1, x, v), body, (fuel - 1) as nat)),
                    last_or_nil(rs),
                )),
                Evaluated::Failed(m) => Evaluated::Failed(m),
                Evaluated::Aborted => Evaluated::Aborted,
            },
            Evaluated::Failed(m) => Evaluated::Failed(m),
            Evaluated::Aborted => Evaluated::Aborted,
        },
{
    let bs = seq![SpecExpression::Symbol(x), e];
    let a = seq![SpecExpression::Array(bs)] + body;
    let f1 = (fuel - 1) as nat;
    let call = SpecExpression::Call(Box::new(sym("let"@)), a);
    assert(spec_evaluate(env, call, fuel) == eval_call(env, sym("let"@), a, f1));
    assert(spec_evaluate(env, sym("let"@), f1) == Evaluated::Done((env, SpecExpression::NativeFunction(Builtin::Let))));
    assert(eval_call(env, sym("let"@), a, f1) == apply_builtin(Builtin::Let, env, a, f1));
    assert(apply_builtin(Builtin::Let, env, a, f1) == apply_special(Builtin::Let, env, a, f1));
    assert(apply_special(Builtin::Let, env, a, f1) == special_let(env, a, f1));
    assert(a[0] == SpecExpression::Array(bs));
    assert(a.skip(1) =~= body);
    assert(bs.skip(2) =~= Seq::<SpecExpression>::empty());
    match spec_evaluate(env, e, f1) {
        Evaluated::Done((e1, v)) => {
            assert(let_bind(env_insert(e1, x, v), bs.skip(2), f1) == Evaluated::Done(env_insert(e1, x, v)));
            assert(let_bind(env, bs, f1) == Evaluated::Done(env_insert(e1, x, v)));
        },
        _ => {},
    }
}

/// `dissoc` of a key that `assoc` just added to a map without it gives back the map.
pub proof fn law_dissoc_after_assoc(m: SpecPairs, k: SpecExpression, v: SpecExpression)
    requires
        map_get(m, k) is None,
    ensures
        apply_to_values(Builtin::Dissoc, seq![SpecExpression::Mapping(map_insert(m, k, v)), k])
            == Evaluated::Done(SpecExpression::Mapping(m)),
{
    crate::mapping::law_map_remove_after_insert(m, k, v);
}

/// `(read-string s)` reads the one expression that `s` spells, unevaluated, the same
/// value its quotation gives; text left over after it is an error.
pub proof fn law_read_string(env: SpecEnv, s: Seq<char>, fuel: nat)
    requires
        env_get(env, "read-string"@) == Some(SpecExpression::NativeFunction(Builtin::ReadString)),
        fuel >= 3,
    ensures
        spec_evaluate(env, SpecExpression::Call(Box::new(sym("read-string"@)), seq![SpecExpression::String(s)]), fuel)
            == match spec_tokenize(s) {
                Some(ts) => match spec_parse(ts) {
                    Some((left, e)) => if left > 0 {
                        Evaluated::Failed("Could not parse expression"@)
                    } else {
                        spec_evaluate(env, SpecExpression::Quote(Box::new(e)), (fuel - 1) as nat)
                    },
                    None => Evaluated::Aborted,
                },
                None => Evaluated::Aborted,
            },
{
    let args = seq![SpecExpression::String(s)];
    let f1 = (fuel - 1) as nat;
    let call = SpecExpression::Call(Box::new(sym("read-string"@)), args);
    assert(spec_evaluate(env, call, fuel) == eval_call(env, sym("read-string"@), args, f1));
    assert(spec_evaluate(env, sym("read-string"@), f1) == Evaluated::Done((env, SpecExpression::NativeFunction(Builtin::ReadString))));
    assert(eval_call(env, sym("read-string"@), args, f1) == apply_builtin(Builtin::ReadString, env, args, f1));
    assert(apply_builtin(Builtin::ReadString, env, args, f1) == apply_special(Builtin::ReadString, env, args, f1));
    assert(apply_special(Builtin::ReadString, env, args, f1) == special_read_string(env, args, f1));
    assert(spec_evaluate(env, args[0], f1) == Evaluated::Done((env, SpecExpression::String(s))));
}

/// Reading an atom gives back the last value written to it: after `(reset! x e)`, `@x`
/// gives the value of `e`, and the other atoms keep theirs.
pub proof fn law_deref_after_reset(env: SpecEnv, x: Seq<char>, i: nat, e: SpecExpression, fuel: nat, later: nat)
    requires
        env_get(env, "reset!"@) == Some(SpecExpression::NativeFunction(Builtin::Reset)),
        env_get(env, x) == Some(SpecExpression::Atom(i)),
        x != store_name(),
        i < atom_store(env).len(),
        fuel >= 2,
        later >= 2,
    ensures
        spec_evaluate(env, e, (fuel - 1) as nat) matches Evaluated::Done((e1, v)) ==> e1 == env ==> {
            let after = with_store(env, atom_store(env).update(i as int, v));
            &&& spec_evaluate(env, SpecExpression::Call(Box::new(sym("reset!"@)), seq![SpecExpression::Symbol(x), e]), fuel)
                == Evaluated::Done((after, SpecExpression::Nil))
            &&& spec_evaluate(after, SpecExpression::Deref(Box::new(SpecExpression::Symbol(x))), later)
                == Evaluated::Done((after, v))
            &&& forall|j: int| 0 <= j < atom_store(env).len() && j != i ==> #[trigger] atom_store(after)[j] == atom_store(env)[j]
        },
{
    let f1 = (fuel - 1) as nat;
    let args = seq![SpecExpression::Symbol(x), e];
    let call = SpecExpression::Call(Box::new(sym("reset!"@)), args);
    if let Evaluated::Done((e1, v)) = spec_evaluate(env, e, f1) {
        if e1 != env {
            return;
        }
        let after = with_store(env, atom_store(env).update(i as int, v));
        assert(spec_evaluate(env, call, fuel) == eval_call(env, sym("reset!"@), args, f1));
        assert(spec_evaluate(env, sym("reset!"@), f1) == Evaluated::Done((env, SpecExpression::NativeFunction(Builtin::Reset))));
        assert(eval_call(env, sym("reset!"@), args, f1) == apply_builtin(Builtin::Reset, env, args, f1));
        assert(apply_builtin(Builtin::Reset, env, args, f1) == apply_special(Builtin::Reset, env, args, f1));
        let r0 = spec_evaluate(env, args[0], f1);
        assert(r0 == Evaluated::Done((env, SpecExpression::Atom(i))));
        assert(next_env(env, r0) == env);
        assert(args.skip(1) =~= seq![e]);
        let r1 = spec_evaluate(env, e, f1);
        assert(seq![e].skip(1) =~= Seq::<SpecExpression>::empty());
        assert(eval_list(next_env(env, r1), seq![e].skip(1), f1) == Evaluated::<Seq<SpecExpression>>::Done(seq![]));
        assert(eval_list(env, seq![e], f1) == Evaluated::Done(seq![v] + Seq::<SpecExpression>::empty()));
        assert(seq![v] + Seq::<SpecExpression>::empty() =~= seq![v]);
        assert(eval_list(env, args, f1) == Evaluated::Done(seq![SpecExpression::Atom(i)] + seq![v]));
        let vs = seq![SpecExpression::Atom(i)] + seq![v];
        assert(vs[0] == SpecExpression::Atom(i) && vs[1] == v && vs.len() == 2);
        assert(atom_index(env, vs) == Evaluated::Done(i));
        assert(special_reset(env, args, f1) == Evaluated::Done((after, SpecExpression::Nil)));
        crate::mapping::law_env_get_other_after_insert(env, store_name(), SpecExpression::Array(atom_store(env).update(i as int, v)), x);
        crate::mapping::law_env_get_after_insert(env, store_name(), SpecExpression::Array(atom_store(env).update(i as int, v)));
        assert(atom_store(after) == atom_store(env).update(i as int, v));
        let l1 = (later - 1) as nat;
        assert(spec_evaluate(after, SpecExpression::Symbol(x), l1) == Evaluated::Done((after, SpecExpression::Atom(i))));
    }
}

/// A new atom holds the value it was made with.
pub proof fn law_deref_of_new_atom(env: SpecEnv, v: SpecExpression)
    ensures
        deref_value(with_store(env, atom_store(env).push(v)), SpecExpression::Atom(atom_store(env).len()))
            == Evaluated::Done((with_store(env, atom_store(env).push(v)), v)),
{
    crate::mapping::law_env_get_after_insert(env, store_name(), SpecExpression::Array(atom_store(env).push(v)));
}

/// Every element is an integer.
pub open spec fn all_integers(xs: Seq<SpecExpression>) -> bool {
    forall|i: int| 0 <= i < xs.len() ==> #[trigger] xs[i] is Integer
}

/// The integer an expression is, zero for anything else.
pub open spec fn int_of(e: SpecExpression) -> int {
    match e {
        SpecExpression::Integer(i) => i,
        _ => 0,
    }
}

/// The sum of the integers of a list.
pub open spec fn sum_of(xs: Seq<SpecExpression>) -> int
    decreases xs.len(),
{
    if xs.len() == 0 { 0 } else { int_of(xs[0]) + sum_of(xs.skip(1)) }
}

/// The product of the integers of a list.
pub open spec fn product_of(xs: Seq<SpecExpression>) -> int
    decreases xs.len(),
{
    if xs.len() == 0 { 1 } else { int_of(xs[0]) * product_of(xs.skip(1)) }
}

proof fn lemma_all_integers_skip(xs: Seq<SpecExpression>)
    requires
        all_integers(xs),
        xs.len() > 0,
    ensures
        all_integers(xs.skip(1)),
        xs[0] is Integer,
{
    assert forall|i: int| 0 <= i < xs.skip(1).len() implies #[trigger] xs.skip(1)[i] is Integer by {
        assert(xs.skip(1)[i] == xs[i + 1]);
    }
}

/// `+` adds every argument: the first integer plus the sum of the others.
pub proof fn law_add_sums(a: int, xs: Seq<SpecExpression>)
    requires
        all_integers(xs),
    ensures
        add_fold(SpecExpression::Integer(a), xs) == Ok::<SpecExpression, Seq<char>>(SpecExpression::Integer(a + sum_of(xs))),
    decreases xs.len(),
{
    if xs.len() > 0 {
        lemma_all_integers_skip(xs);
        law_add_sums(a + int_of(xs[0]), xs.skip(1));
    }
}

/// `-` subtracts every argument after the first from it.
pub proof fn law_sub_subtracts(a: int, xs: Seq<SpecExpression>)
    requires
        all_integers(xs),
    ensures
        sub_fold(SpecExpression::Integer(a), xs) == Ok::<SpecExpression, Seq<char>>(SpecExpression::Integer(a - sum_of(xs))),
    decreases xs.len(),
{
    if xs.len() > 0 {
        lemma_all_integers_skip(xs);
        law_sub_subtracts(a - int_of(xs[0]), xs.skip(1));
    }
}

/// `*` multiplies every argument: the first integer times the product of the others.
pub proof fn law_mul_multiplies(a: int, xs: Seq<SpecExpression>)
    requires
        all_integers(xs),
    ensures
        mul_fold(SpecExpression::Integer(a), xs) == Ok::<SpecExpression, Seq<char>>(SpecExpression::Integer(a * product_of(xs))),
    decreases xs.len(),
{
    if xs.len() > 0 {
        lemma_all_integers_skip(xs);
        let x = int_of(xs[0]);
        law_mul_multiplies(a * x, xs.skip(1));
        let p = product_of(xs.skip(1));
        assert((a * x) * p == a * (x * p)) by (nonlinear_arith);
    }
}

/// Dividing `b * q` by `b` gives the integer `q`.
proof fn lemma_ratio_exact(a: int, b: int, q: int)
    requires
        b != 0,
        a == b * q,
    ensures
        ratio_value(a, b) == SpecExpression::Integer(q),
{
    let aa = crate::numerics::abs(a);
    let ab = crate::numerics::abs(b);
    let aq = crate::numerics::abs(q);
    assert(aa == aq * ab) by (nonlinear_arith)
        requires
            a == b * q,
            aa == (if a < 0 { -a } else { a }),
            ab == (if b < 0 { -b } else { b }),
            aq == (if q < 0 { -q } else { q }),
    {
        if b < 0 {
            if q < 0 {
                assert(a == (-b) * (-q));
            } else {
                assert(-a == (-b) * q);
            }
        } else {
            if q < 0 {
                assert(-a == b * (-q));
            }
        }
    }
    vstd::arithmetic::div_mod::lemma_mod_multiples_basic(aq as int, ab as int);
    assert(aa % ab == 0);
    assert(crate::numerics::gcd(ab, 0) == ab);
    assert(crate::numerics::gcd(aa, ab) == crate::numerics::gcd(ab, aa % ab));
    if b < 0 {
        assert(-a == (-b) * q) by (nonlinear_arith)
            requires
                a == b * q,
        ;
        vstd::arithmetic::div_mod::lemma_div_multiples_vanish(q, -b);
        vstd::arithmetic::div_mod::lemma_div_multiples_vanish(1, -b);
        assert((-b) * 1 == -b);
    } else {
        vstd::arithmetic::div_mod::lemma_div_multiples_vanish(q, b);
        vstd::arithmetic::div_mod::lemma_div_multiples_vanish(1, b);
        assert(b * 1 == b);
    }
}

/// `/` divides by every argument after the first: a number that is `q` times the
/// product of the divisors gives `q`.
pub proof fn law_div_divides_by_all(q: int, xs: Seq<SpecExpression>)
    requires
        all_integers(xs),
        forall|i: int| 0 <= i < xs.len() ==> int_of(#[trigger] xs[i]) != 0,
    ensures
        div_fold(SpecExpression::Integer(q * product_of(xs)), xs) == Evaluated::Done(SpecExpression::Integer(q)),
    decreases xs.len(),
{
    if xs.len() == 0 {
        assert(q * 1 == q);
    } else {
        lemma_all_integers_skip(xs);
        let t = xs.skip(1);
        let d = int_of(xs[0]);
        assert(d != 0);
        assert forall|i: int| 0 <= i < t.len() implies int_of(#[trigger] t[i]) != 0 by {
            assert(t[i] == xs[i + 1]);
        }
        let p = product_of(t);
        let a = q * product_of(xs);
        assert(a == d * (q * p)) by (nonlinear_arith)
            requires
                a == q * (d * p),
        ;
        lemma_ratio_exact(a, d, q * p);
        law_div_divides_by_all(q, t);
    }
}

/// `/` over one run of divisors and then another: what the first run gives, divided by the
/// second run, unless the first run already stopped.
pub proof fn law_div_fold_concat(acc: SpecExpression, xs: Seq<SpecExpression>, ys: Seq<SpecExpression>)
    ensures
        div_fold(acc, xs + ys) == match div_fold(acc, xs) {
            Evaluated::Done(v) => div_fold(v, ys),
            other => other,
        },
    decreases xs.len(),
{
    if xs.len() == 0 {
        assert(xs + ys =~= ys);
    } else {
        assert((xs + ys)[0] == xs[0]);
        assert((xs + ys).skip(1) =~= xs.skip(1) + ys);
        match (acc, xs[0]) {
            (SpecExpression::Integer(a), SpecExpression::Integer(b)) => {
                if b != 0 {
                    law_div_fold_concat(ratio_value(a, b), xs.skip(1), ys);
                }
            },
            _ => {},
        }
    }
}

/// `/` on integers whose divisions before the last come out whole: the quotient so far,
/// divided by the last divisor, in lowest terms.
pub proof fn law_div_last(q: int, xs: Seq<SpecExpression>, c: int)
    requires
        all_integers(xs),
        forall|i: int| 0 <= i < xs.len() ==> int_of(#[trigger] xs[i]) != 0,
        c != 0,
    ensures
        div_fold(SpecExpression::Integer(q * product_of(xs)), xs.push(SpecExpression::Integer(c)))
            == Evaluated::Done(ratio_value(q, c)),
{
    let last = seq![SpecExpression::Integer(c)];
    law_div_divides_by_all(q, xs);
    law_div_fold_concat(SpecExpression::Integer(q * product_of(xs)), xs, last);
    assert(xs.push(SpecExpression::Integer(c)) =~= xs + last);
    assert(last[0] == SpecExpression::Integer(c));
    assert(last.skip(1) =~= Seq::<SpecExpression>::empty());
    assert(div_fold(ratio_value(q, c), last.skip(1)) == Evaluated::Done(ratio_value(q, c)));
    assert(div_fold(SpecExpression::Integer(q), last) == Evaluated::Done(ratio_value(q, c)));
}

/// The greatest common divisor of two numbers, not both zero, is positive and divides both.
proof fn lemma_gcd_divides(a: nat, b: nat)
    requires
        a > 0 || b > 0,
    ensures
        crate::numerics::gcd(a, b) > 0,
        a % crate::numerics::gcd(a, b) == 0,
        b % crate::numerics::gcd(a, b) == 0,
    decreases b,
{
    let g = crate::numerics::gcd(a, b);
    if b == 0 {
        vstd::arithmetic::div_mod::lemma_mod_self_0(a as int);
        vstd::arithmetic::div_mod::lemma_small_mod(0, a);
    } else {
        let r = (a % b) as nat;
        lemma_gcd_divides(b, r);
        assert(g == crate::numerics::gcd(b, r));
        vstd::arithmetic::div_mod::lemma_fundamental_div_mod(a as int, b as int);
        vstd::arithmetic::div_mod::lemma_fundamental_div_mod(b as int, g as int);
        vstd::arithmetic::div_mod::lemma_fundamental_div_mod(r as int, g as int);
        let k1 = b as int / g as int;
        let k2 = r as int / g as int;
        let k = a as int / b as int;
        assert(a as int == g * (k1 * k + k2)) by (nonlinear_arith)
            requires
                a as int == b as int * k + r as int,
                b as int == g * k1,
                r as int == g * k2,
        ;
        vstd::arithmetic::div_mod::lemma_mod_multiples_basic(k1 * k + k2, g as int);
        assert((k1 * k + k2) * g == g * (k1 * k + k2)) by (nonlinear_arith);
    }
}

/// `/` does not divide a ratio: where the first division does not come out whole and more
/// divisors follow, it fails.
pub proof fn law_div_inexact_fails(a: int, b: int, xs: Seq<SpecExpression>)
    requires
        b != 0,
        forall|q: int| a != #[trigger] (b * q),
        xs.len() > 0,
    ensures
        div_fold(SpecExpression::Integer(a), seq![SpecExpression::Integer(b)] + xs)
            == Evaluated::<SpecExpression>::Failed("Expected integer argument"@),
{
    let aa = crate::numerics::abs(a);
    let ab = crate::numerics::abs(b);
    lemma_gcd_divides(aa, ab);
    let g = crate::numerics::gcd(aa, ab);
    vstd::arithmetic::div_mod::lemma_fundamental_div_mod(ab as int, g as int);
    let den = ab as int / g as int;
    assert(ab as int == if b < 0 { -b } else { b });
    assert(aa as int == if a < 0 { -a } else { a });
    assert(reduced(a, b).1 == den) by {
        if b < 0 {
            assert(-b == ab as int);
        } else {
            assert(b == ab as int);
        }
    }
    assert(ab as int == g as int * den + (ab as int) % (g as int));
    assert((ab as int) % (g as int) == 0);
    if den == 1 {
        assert(ab as int == g as int) by (nonlinear_arith)
            requires
                ab as int == g as int * den + 0,
                den == 1,
        ;
        vstd::arithmetic::div_mod::lemma_fundamental_div_mod(aa as int, ab as int);
        let k = aa as int / ab as int;
        assert(aa as int == ab as int * k);
        if a >= 0 {
            if b > 0 {
                assert(a == b * k);
            } else {
                assert(a == b * (-k)) by (nonlinear_arith)
                    requires
                        a == (-b) * k,
                ;
            }
        } else {
            if b > 0 {
                assert(a == b * (-k)) by (nonlinear_arith)
                    requires
                        -a == b * k,
                ;
            } else {
                assert(a == b * k) by (nonlinear_arith)
                    requires
                        -a == (-b) * k,
                ;
            }
        }
        assert(false);
    }
    assert(ratio_value(a, b) is Ratio);
    let ys = seq![SpecExpression::Integer(b)] + xs;
    assert(ys[0] == SpecExpression::Integer(b));
    assert(ys.skip(1) =~= xs);
    assert(div_fold(ratio_value(a, b), xs) == Evaluated::<SpecExpression>::Failed("Expected integer argument"@));
    assert(div_fold(SpecExpression::Integer(a), ys) == div_fold(ratio_value(a, b), ys.skip(1)));
}

} // verus!
