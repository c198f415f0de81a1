use vstd::prelude::*;
use crate::effect::{Effect, error};
use crate::evaluator::{evaluation, outcome, try_evaluate};
use crate::expression::{Environment, Expression, SpecEnv, SpecExpression, exprs_view, lemma_exprs_view};
use crate::mapping::env_insert;
use crate::semantics::Evaluated;

verus! {

/// The expressions evaluated one after the other, each in the environment the previous
/// one left; the last value, `last` where there is none.
pub open spec fn evaluate_in_turn(env: SpecEnv, es: Seq<SpecExpression>, last: SpecExpression) -> Evaluated<(SpecEnv, SpecExpression)>
    decreases es.len(),
{
    if es.len() == 0 {
        Evaluated::Done((env, last))
    } else {
        match evaluation(env, es[0]) {
            Evaluated::Done((e1, v)) => evaluate_in_turn(e1, es.skip(1), v),
            Evaluated::Failed(m) => Evaluated::Failed(m),
            Evaluated::Aborted => Evaluated::Aborted,
        }
    }
}

/// Evaluates what was read, one expression after the other; `None` where an
/// evaluation aborts.
pub fn try_evaluate_all(env: Environment, exprs: &[Expression]) -> (r: Option<Result<(Environment, Expression), Effect>>)
    ensures
        outcome(r) == evaluate_in_turn(env@, exprs_view(exprs@), SpecExpression::Nil),
{
    let ghost all = exprs_view(exprs@);
    let ghost env0 = env@;
    proof {
        lemma_exprs_view(exprs@);
        assert(all.skip(0) =~= all);
    }
    let mut cur = env;
    let mut result = Expression::Nil;
    let mut i: usize = 0;
    while i < exprs.len()
        invariant
            i <= exprs.len(),
            env0 == env@,
            all == exprs_view(exprs@),
            all.len() == exprs.len(),
            forall|j: int| 0 <= j < exprs.len() ==> #[trigger] all[j] == exprs@[j]@,
            evaluate_in_turn(env0, all, SpecExpression::Nil) == evaluate_in_turn(cur@, all.skip(i as int), result@),
        decreases exprs.len() - i,
    {
        proof {
            assert(all.skip(i as int)[0] == all[i as int]);
            assert(all.skip(i as int).skip(1) =~= all.skip(i + 1));
        }
        match try_evaluate(cur, &exprs[i]) {
            Some(Ok((e1, v))) => {
                cur = e1;
                result = v;
            },
            Some(Err(x)) => {
                return Some(Err(x));
            },
            None => {
                return None;
            },
        }
        i = i + 1;
    }
    assert(all.skip(i as int).len() == 0);
    Some(Ok((cur, result)))
}

/// Evaluates what was read, one expression after the other: the environment the last
/// one leaves and its value (`nil` for none), or the first effect raised. No evaluation
/// may abort.
pub fn evaluate(env: Environment, exprs: &[Expression]) -> (r: Result<(Environment, Expression), Effect>)
    requires
        !(evaluate_in_turn(env@, exprs_view(exprs@), SpecExpression::Nil) is Aborted),
    ensures
        match r {
            Ok((e, v)) => evaluate_in_turn(env@, exprs_view(exprs@), SpecExpression::Nil) == Evaluated::Done((e@, v@)),
            Err(x) => evaluate_in_turn(env@, exprs_view(exprs@), SpecExpression::Nil)
                == Evaluated::<(SpecEnv, SpecExpression)>::Failed(x@),
        },
{
    match try_evaluate_all(env, exprs) {
        Some(r) => r,
        None => Err(error("Evaluation aborted")),
    }
}

/// The environment of the interactive loop: the language's own functions, `*name*`
/// bound to `"repl"`, and the `html`, `http`, `io`, `json`, `server` and `sql` modules.
pub open spec fn spec_repl_environment() -> SpecEnv {
    let e = env_insert(crate::base::base_environment(), "*name*"@, SpecExpression::String("repl"@));
    let e = env_insert(e, "html"@, SpecExpression::Module(crate::modules::spec_html_module()));
    let e = env_insert(e, "http"@, SpecExpression::Module(crate::modules::spec_http_module()));
    let e = env_insert(e, "io"@, SpecExpression::Module(crate::modules::spec_io_module()));
    let e = env_insert(e, "json"@, SpecExpression::Module(crate::modules::spec_json_module()));
    let e = env_insert(e, "server"@, SpecExpression::Module(crate::modules::spec_server_module()));
    env_insert(e, "sql"@, SpecExpression::Module(crate::modules::spec_sql_module()))
}

/// The environment of the interactive loop.
pub fn repl_environment() -> (e: Environment)
    ensures
        e@ == spec_repl_environment(),
{
    let mut e = crate::base::environment();
    e.insert("*name*".to_string(), Expression::String("repl".to_string()));
    e.insert("html".to_string(), Expression::Module(crate::modules::html_module()));
    e.insert("http".to_string(), Expression::Module(crate::modules::http_module()));
    e.insert("io".to_string(), Expression::Module(crate::modules::io_module()));
    e.insert("json".to_string(), Expression::Module(crate::modules::json_module()));
    e.insert("server".to_string(), Expression::Module(crate::modules::server_module()));
    e.insert("sql".to_string(), Expression::Module(crate::modules::sql_module()));
    e
}

} // verus!
