use vstd::prelude::*;
use crate::expression::{Builtin, Environment, Expression, SpecEnv, SpecExpression};
use crate::mapping::{env_get, env_insert, law_env_get_after_insert, law_env_get_other_after_insert};
use crate::semantics::truthy as spec_truthy;

verus! {

/// Everything but `nil` and `false` counts as true.
pub fn truthy(expression: &Expression) -> (b: bool)
    ensures
        b == spec_truthy(expression@),
{
    crate::evaluator::truthy_exec(expression)
}

/// The bindings of the language's own functions, each name bound to its builtin.
pub open spec fn base_environment() -> SpecEnv {
    let e = Seq::<(Seq<char>, SpecExpression)>::empty();
    let e = env_insert(e, "="@, SpecExpression::NativeFunction(Builtin::Equal));
    let e = env_insert(e, "+"@, SpecExpression::NativeFunction(Builtin::Add));
    let e = env_insert(e, "-"@, SpecExpression::NativeFunction(Builtin::Subtract));
    let e = env_insert(e, "*"@, SpecExpression::NativeFunction(Builtin::Multiply));
    let e = env_insert(e, "/"@, SpecExpression::NativeFunction(Builtin::Divide));
    let e = env_insert(e, "if"@, SpecExpression::NativeFunction(Builtin::If));
    let e = env_insert(e, "def"@, SpecExpression::NativeFunction(Builtin::Def));
    let e = env_insert(e, "fn"@, SpecExpression::NativeFunction(Builtin::Fn));
    let e = env_insert(e, "defn"@, SpecExpression::NativeFunction(Builtin::Defn));
    let e = env_insert(e, "eval"@, SpecExpression::NativeFunction(Builtin::Eval));
    let e = env_insert(e, "read-string"@, SpecExpression::NativeFunction(Builtin::ReadString));
    let e = env_insert(e, "assert"@, SpecExpression::NativeFunction(Builtin::Assert));
    let e = env_insert(e, "let"@, SpecExpression::NativeFunction(Builtin::Let));
    let e = env_insert(e, "for"@, SpecExpression::NativeFunction(Builtin::For));
    let e = env_insert(e, "str"@, SpecExpression::NativeFunction(Builtin::Str));
    let e = env_insert(e, "bound?"@, SpecExpression::NativeFunction(Builtin::Bound));
    let e = env_insert(e, "do"@, SpecExpression::NativeFunction(Builtin::Do));
    let e = env_insert(e, "->"@, SpecExpression::NativeFunction(Builtin::ThreadFirst));
    let e = env_insert(e, "when"@, SpecExpression::NativeFunction(Builtin::When));
    let e = env_insert(e, "inc"@, SpecExpression::NativeFunction(Builtin::Inc));
    let e = env_insert(e, "range"@, SpecExpression::NativeFunction(Builtin::Range));
    let e = env_insert(e, "assoc"@, SpecExpression::NativeFunction(Builtin::Assoc));
    let e = env_insert(e, "dissoc"@, SpecExpression::NativeFunction(Builtin::Dissoc));
    let e = env_insert(e, "merge"@, SpecExpression::NativeFunction(Builtin::Merge));
    let e = env_insert(e, "get"@, SpecExpression::NativeFunction(Builtin::Get));
    let e = env_insert(e, "nth"@, SpecExpression::NativeFunction(Builtin::Nth));
    let e = env_insert(e, "count"@, SpecExpression::NativeFunction(Builtin::Count));
    let e = env_insert(e, "import"@, SpecExpression::NativeFunction(Builtin::Import));
    let e = env_insert(e, "atom"@, SpecExpression::NativeFunction(Builtin::Atom));
    let e = env_insert(e, "reset!"@, SpecExpression::NativeFunction(Builtin::Reset));
    let e = env_insert(e, "swap!"@, SpecExpression::NativeFunction(Builtin::Swap));
    e
}

pub(crate) fn bind(env: &mut Environment, name: &str, b: Builtin)
    ensures
        final(env)@ == env_insert(old(env)@, name@, SpecExpression::NativeFunction(b)),
{
    env.insert(name.to_string(), Expression::NativeFunction(b));
}

/// The environment that programs start in: the language's own functions.
pub fn environment() -> (e: Environment)
    ensures
        e@ == base_environment(),
{
    let mut e = Environment::new();
    bind(&mut e, "=", Builtin::Equal);
    bind(&mut e, "+", Builtin::Add);
    bind(&mut e, "-", Builtin::Subtract);
    bind(&mut e, "*", Builtin::Multiply);
    bind(&mut e, "/", Builtin::Divide);
    bind(&mut e, "if", Builtin::If);
    bind(&mut e, "def", Builtin::Def);
    bind(&mut e, "fn", Builtin::Fn);
    bind(&mut e, "defn", Builtin::Defn);
    bind(&mut e, "eval", Builtin::Eval);
    bind(&mut e, "read-string", Builtin::ReadString);
    bind(&mut e, "assert", Builtin::Assert);
    bind(&mut e, "let", Builtin::Let);
    bind(&mut e, "for", Builtin::For);
    bind(&mut e, "str", Builtin::Str);
    bind(&mut e, "bound?", Builtin::Bound);
    bind(&mut e, "do", Builtin::Do);
    bind(&mut e, "->", Builtin::ThreadFirst);
    bind(&mut e, "when", Builtin::When);
    bind(&mut e, "inc", Builtin::Inc);
    bind(&mut e, "range", Builtin::Range);
    bind(&mut e, "assoc", Builtin::Assoc);
    bind(&mut e, "dissoc", Builtin::Dissoc);
    bind(&mut e, "merge", Builtin::Merge);
    bind(&mut e, "get", Builtin::Get);
    bind(&mut e, "nth", Builtin::Nth);
    bind(&mut e, "count", Builtin::Count);
    bind(&mut e, "import", Builtin::Import);
    bind(&mut e, "atom", Builtin::Atom);
    bind(&mut e, "reset!", Builtin::Reset);
    bind(&mut e, "swap!", Builtin::Swap);
    e
}

/// The base environment binds `let` to its builtin.
pub proof fn lemma_base_binds_let()
    ensures
        env_get(base_environment(), "let"@) == Some(SpecExpression::NativeFunction(Builtin::Let)),
{
    reveal_strlit("let");
    reveal_strlit("for");
    reveal_strlit("str");
    reveal_strlit("bound?");
    reveal_strlit("do");
    reveal_strlit("->");
    reveal_strlit("when");
    reveal_strlit("inc");
    reveal_strlit("range");
    reveal_strlit("assoc");
    reveal_strlit("dissoc");
    reveal_strlit("merge");
    reveal_strlit("get");
    reveal_strlit("nth");
    reveal_strlit("count");
    reveal_strlit("import");
    reveal_strlit("atom");
    reveal_strlit("reset!");
    reveal_strlit("swap!");
    let e0 = Seq::<(Seq<char>, SpecExpression)>::empty();
    let e1 = env_insert(e0, "="@, SpecExpression::NativeFunction(Builtin::Equal));
    let e2 = env_insert(e1, "+"@, SpecExpression::NativeFunction(Builtin::Add));
    let e3 = env_insert(e2, "-"@, SpecExpression::NativeFunction(Builtin::Subtract));
    let e4 = env_insert(e3, "*"@, SpecExpression::NativeFunction(Builtin::Multiply));
    let e5 = env_insert(e4, "/"@, SpecExpression::NativeFunction(Builtin::Divide));
    let e6 = env_insert(e5, "if"@, SpecExpression::NativeFunction(Builtin::If));
    let e7 = env_insert(e6, "def"@, SpecExpression::NativeFunction(Builtin::Def));
    let e8 = env_insert(e7, "fn"@, SpecExpression::NativeFunction(Builtin::Fn));
    let e9 = env_insert(e8, "defn"@, SpecExpression::NativeFunction(Builtin::Defn));
    let e10 = env_insert(e9, "eval"@, SpecExpression::NativeFunction(Builtin::Eval));
    let e11 = env_insert(e10, "read-string"@, SpecExpression::NativeFunction(Builtin::ReadString));
    let e12 = env_insert(e11, "assert"@, SpecExpression::NativeFunction(Builtin::Assert));
    let e13 = env_insert(e12, "let"@, SpecExpression::NativeFunction(Builtin::Let));
    law_env_get_after_insert(e12, "let"@, SpecExpression::NativeFunction(Builtin::Let));
    let e14 = env_insert(e13, "for"@, SpecExpression::NativeFunction(Builtin::For));
    assert("for"@[0] != "let"@[0] || "for"@[1] != "let"@[1] || "for"@[2] != "let"@[2]);
    law_env_get_other_after_insert(e13, "for"@, SpecExpression::NativeFunction(Builtin::For), "let"@);
    let e15 = env_insert(e14, "str"@, SpecExpression::NativeFunction(Builtin::Str));
    assert("str"@[0] != "let"@[0] || "str"@[1] != "let"@[1] || "str"@[2] != "let"@[2]);
    law_env_get_other_after_insert(e14, "str"@, SpecExpression::NativeFunction(Builtin::Str), "let"@);
    let e16 = env_insert(e15, "bound?"@, SpecExpression::NativeFunction(Builtin::Bound));
    assert("bound?"@.len() != "let"@.len());
    law_env_get_other_after_insert(e15, "bound?"@, SpecExpression::NativeFunction(Builtin::Bound), "let"@);
    let e17 = env_insert(e16, "do"@, SpecExpression::NativeFunction(Builtin::Do));
    assert("do"@.len() != "let"@.len());
    law_env_get_other_after_insert(e16, "do"@, SpecExpression::NativeFunction(Builtin::Do), "let"@);
    let e18 = env_insert(e17, "->"@, SpecExpression::NativeFunction(Builtin::ThreadFirst));
    assert("->"@.len() != "let"@.len());
    law_env_get_other_after_insert(e17, "->"@, SpecExpression::NativeFunction(Builtin::ThreadFirst), "let"@);
    let e19 = env_insert(e18, "when"@, SpecExpression::NativeFunction(Builtin::When));
    assert("when"@.len() != "let"@.len());
    law_env_get_other_after_insert(e18, "when"@, SpecExpression::NativeFunction(Builtin::When), "let"@);
    let e20 = env_insert(e19, "inc"@, SpecExpression::NativeFunction(Builtin::Inc));
    assert("inc"@[0] != "let"@[0] || "inc"@[1] != "let"@[1] || "inc"@[2] != "let"@[2]);
    law_env_get_other_after_insert(e19, "inc"@, SpecExpression::NativeFunction(Builtin::Inc), "let"@);
    let e21 = env_insert(e20, "range"@, SpecExpression::NativeFunction(Builtin::Range));
    assert("range"@.len() != "let"@.len());
    law_env_get_other_after_insert(e20, "range"@, SpecExpression::NativeFunction(Builtin::Range), "let"@);
    let e22 = env_insert(e21, "assoc"@, SpecExpression::NativeFunction(Builtin::Assoc));
    assert("assoc"@.len() != "let"@.len());
    law_env_get_other_after_insert(e21, "assoc"@, SpecExpression::NativeFunction(Builtin::Assoc), "let"@);
    let e23 = env_insert(e22, "dissoc"@, SpecExpression::NativeFunction(Builtin::Dissoc));
    assert("dissoc"@.len() != "let"@.len());
    law_env_get_other_after_insert(e22, "dissoc"@, SpecExpression::NativeFunction(Builtin::Dissoc), "let"@);
    let e24 = env_insert(e23, "merge"@, SpecExpression::NativeFunction(Builtin::Merge));
    assert("merge"@.len() != "let"@.len());
    law_env_get_other_after_insert(e23, "merge"@, SpecExpression::NativeFunction(Builtin::Merge), "let"@);
    let e25 = env_insert(e24, "get"@, SpecExpression::NativeFunction(Builtin::Get));
    assert("get"@[0] != "let"@[0] || "get"@[1] != "let"@[1] || "get"@[2] != "let"@[2]);
    law_env_get_other_after_insert(e24, "get"@, SpecExpression::NativeFunction(Builtin::Get), "let"@);
    let e26 = env_insert(e25, "nth"@, SpecExpression::NativeFunction(Builtin::Nth));
    assert("nth"@[0] != "let"@[0] || "nth"@[1] != "let"@[1] || "nth"@[2] != "let"@[2]);
    law_env_get_other_after_insert(e25, "nth"@, SpecExpression::NativeFunction(Builtin::Nth), "let"@);
    let e27 = env_insert(e26, "count"@, SpecExpression::NativeFunction(Builtin::Count));
    assert("count"@.len() != "let"@.len());
    law_env_get_other_after_insert(e26, "count"@, SpecExpression::NativeFunction(Builtin::Count), "let"@);
    let e28 = env_insert(e27, "import"@, SpecExpression::NativeFunction(Builtin::Import));
    assert("import"@.len() != "let"@.len());
    law_env_get_other_after_insert(e27, "import"@, SpecExpression::NativeFunction(Builtin::Import), "let"@);
    let e29 = env_insert(e28, "atom"@, SpecExpression::NativeFunction(Builtin::Atom));
    assert("atom"@.len() != "let"@.len());
    law_env_get_other_after_insert(e28, "atom"@, SpecExpression::NativeFunction(Builtin::Atom), "let"@);
    let e30 = env_insert(e29, "reset!"@, SpecExpression::NativeFunction(Builtin::Reset));
    assert("reset!"@.len() != "let"@.len());
    law_env_get_other_after_insert(e29, "reset!"@, SpecExpression::NativeFunction(Builtin::Reset), "let"@);
    let e31 = env_insert(e30, "swap!"@, SpecExpression::NativeFunction(Builtin::Swap));
    assert("swap!"@.len() != "let"@.len());
    law_env_get_other_after_insert(e30, "swap!"@, SpecExpression::NativeFunction(Builtin::Swap), "let"@);
    assert(e31 == base_environment());
}

/// `env` binds every name of the base environment as the base environment does.
pub open spec fn holds_base(env: SpecEnv) -> bool {
    forall|name: Seq<char>| #[trigger] env_get(base_environment(), name) is Some
        ==> env_get(env, name) == env_get(base_environment(), name)
}

/// In every environment that holds the base bindings, `let` gives back the environment
/// it was evaluated in, but for what it wrote to atoms: its bindings do not outlive it.
pub proof fn law_let_restores_base(env: SpecEnv, a: Seq<SpecExpression>, fuel: nat)
    requires
        holds_base(env),
        fuel >= 2,
    ensures
        crate::semantics::spec_evaluate(env, SpecExpression::Call(Box::new(crate::semantics::sym("let"@)), a), fuel)
            matches crate::semantics::Evaluated::Done((e2, _))
            ==> forall|n: Seq<char>| n != crate::semantics::store_name() ==> #[trigger] env_get(e2, n) == env_get(env, n),
{
    lemma_base_binds_let();
    assert(env_get(base_environment(), "let"@) is Some);
    crate::semantics::law_let_restores(env, a, fuel);
}

} // verus!
