use vstd::prelude::*;
use crate::expression::{
    Expression, Pattern, env_view, exprs_view, lemma_env_view, lemma_exprs_view,
    lemma_pairs_view, lemma_patterns_view, pairs_view, patterns_view,
};
use crate::mapping::lemma_order_chars_zero;
use crate::token::strings_view;

verus! {

/// Whether two strings hold the same characters.
pub fn string_equal(a: &String, b: &String) -> (r: bool)
    ensures
        r == (a@ == b@),
{
    let c = crate::expression::compare_strings(a, b);
    proof {
        lemma_order_chars_zero(a@, b@);
    }
    c == 0
}

fn names_equal(a: &Vec<String>, b: &Vec<String>) -> (r: bool)
    ensures
        r == (strings_view(a@) == strings_view(b@)),
{
    if a.len() != b.len() {
        assert(strings_view(a@).len() != strings_view(b@).len());
        return false;
    }
    let mut i: usize = 0;
    while i < a.len()
        invariant
            i <= a.len() == b.len(),
            forall|j: int| 0 <= j < i ==> #[trigger] a@[j]@ == b@[j]@,
        decreases a.len() - i,
    {
        if !string_equal(&a[i], &b[i]) {
            assert(strings_view(a@)[i as int] != strings_view(b@)[i as int]);
            return false;
        }
        i = i + 1;
    }
    assert(strings_view(a@) =~= strings_view(b@));
    true
}

/// Whether two expressions are the same value.
pub fn expr_equal(a: &Expression, b: &Expression) -> (r: bool)
    ensures
        r == (a@ == b@),
    decreases a, 0nat,
{
    match (a, b) {
        (Expression::Symbol(x), Expression::Symbol(y)) => string_equal(x, y),
        (Expression::NamespacedSymbol(x), Expression::NamespacedSymbol(y)) => names_equal(x, y),
        (Expression::Keyword(x), Expression::Keyword(y)) => string_equal(x, y),
        (Expression::String(x), Expression::String(y)) => string_equal(x, y),
        (Expression::Integer(x), Expression::Integer(y)) => crate::bignum::integer_order(x, y) == 0,
        (Expression::Float(x), Expression::Float(y)) => string_equal(x.literal(), y.literal()),
        (Expression::Ratio(x), Expression::Ratio(y)) => {
            crate::bignum::integer_order(x.numer(), y.numer()) == 0
                && crate::bignum::integer_order(x.denom(), y.denom()) == 0
        },
        (Expression::Bool(x), Expression::Bool(y)) => *x == *y,
        (Expression::Nil, Expression::Nil) => true,
        (Expression::Array(x), Expression::Array(y)) => vecs_equal(x, y),
        (Expression::Mapping(x), Expression::Mapping(y)) => entries_equal(&x.entries, &y.entries),
        (Expression::Call(x), Expression::Call(y)) => {
            expr_equal(&x.function, &y.function) && vecs_equal(&x.arguments, &y.arguments)
        },
        (Expression::Function(x), Expression::Function(y)) => {
            bindings_equal(&x.env.entries, &y.env.entries) && clauses_equal(&x.patterns, &y.patterns)
        },
        (Expression::Quote(x), Expression::Quote(y)) => expr_equal(x, y),
        (Expression::Deref(x), Expression::Deref(y)) => expr_equal(x, y),
        (Expression::NativeFunction(x), Expression::NativeFunction(y)) => *x == *y,
        (Expression::Module(x), Expression::Module(y)) => bindings_equal(&x.entries, &y.entries),
        (Expression::Atom(x), Expression::Atom(y)) => *x == *y,
        _ => false,
    }
}

/// Whether two sequences of expressions are the same values.
pub fn vecs_equal(a: &Vec<Expression>, b: &Vec<Expression>) -> (r: bool)
    ensures
        r == (exprs_view(a@) == exprs_view(b@)),
    decreases a@, 1nat,
{
    proof {
        lemma_exprs_view(a@);
        lemma_exprs_view(b@);
    }
    if a.len() != b.len() {
        return false;
    }
    let mut i: usize = 0;
    while i < a.len()
        invariant
            i <= a.len() == b.len(),
            exprs_view(a@).len() == a.len(),
            exprs_view(b@).len() == b.len(),
            forall|j: int| 0 <= j < a.len() ==> #[trigger] exprs_view(a@)[j] == a@[j]@,
            forall|j: int| 0 <= j < b.len() ==> #[trigger] exprs_view(b@)[j] == b@[j]@,
            forall|j: int| 0 <= j < i ==> #[trigger] a@[j]@ == b@[j]@,
        decreases a.len() - i,
    {
        if !expr_equal(&a[i], &b[i]) {
            assert(exprs_view(a@)[i as int] != exprs_view(b@)[i as int]);
            return false;
        }
        i = i + 1;
    }
    assert(exprs_view(a@) =~= exprs_view(b@));
    true
}

fn entries_equal(a: &Vec<(Expression, Expression)>, b: &Vec<(Expression, Expression)>) -> (r: bool)
    ensures
        r == (pairs_view(a@) == pairs_view(b@)),
    decreases a@, 1nat,
{
    proof {
        lemma_pairs_view(a@);
        lemma_pairs_view(b@);
    }
    if a.len() != b.len() {
        return false;
    }
    let mut i: usize = 0;
    while i < a.len()
        invariant
            i <= a.len() == b.len(),
            pairs_view(a@).len() == a.len(),
            pairs_view(b@).len() == b.len(),
            forall|j: int| 0 <= j < a.len() ==> #[trigger] pairs_view(a@)[j] == (a@[j].0@, a@[j].1@),
            forall|j: int| 0 <= j < b.len() ==> #[trigger] pairs_view(b@)[j] == (b@[j].0@, b@[j].1@),
            forall|j: int| 0 <= j < i ==> #[trigger] pairs_view(a@)[j] == pairs_view(b@)[j],
        decreases a.len() - i,
    {
        if !expr_equal(&a[i].0, &b[i].0) || !expr_equal(&a[i].1, &b[i].1) {
            assert(pairs_view(a@)[i as int] != pairs_view(b@)[i as int]);
            return false;
        }
        i = i + 1;
    }
    assert(pairs_view(a@) =~= pairs_view(b@));
    true
}

fn bindings_equal(a: &Vec<(String, Expression)>, b: &Vec<(String, Expression)>) -> (r: bool)
    ensures
        r == (env_view(a@) == env_view(b@)),
    decreases a@, 1nat,
{
    proof {
        lemma_env_view(a@);
        lemma_env_view(b@);
    }
    if a.len() != b.len() {
        return false;
    }
    let mut i: usize = 0;
    while i < a.len()
        invariant
            i <= a.len() == b.len(),
            env_view(a@).len() == a.len(),
            env_view(b@).len() == b.len(),
            forall|j: int| 0 <= j < a.len() ==> #[trigger] env_view(a@)[j] == (a@[j].0@, a@[j].1@),
            forall|j: int| 0 <= j < b.len() ==> #[trigger] env_view(b@)[j] == (b@[j].0@, b@[j].1@),
            forall|j: int| 0 <= j < i ==> #[trigger] env_view(a@)[j] == env_view(b@)[j],
        decreases a.len() - i,
    {
        if !string_equal(&a[i].0, &b[i].0) || !expr_equal(&a[i].1, &b[i].1) {
            assert(env_view(a@)[i as int] != env_view(b@)[i as int]);
            return false;
        }
        i = i + 1;
    }
    assert(env_view(a@) =~= env_view(b@));
    true
}

fn clauses_equal(a: &Vec<Pattern>, b: &Vec<Pattern>) -> (r: bool)
    ensures
        r == (patterns_view(a@) == patterns_view(b@)),
    decreases a@, 1nat,
{
    proof {
        lemma_patterns_view(a@);
        lemma_patterns_view(b@);
    }
    if a.len() != b.len() {
        return false;
    }
    let mut i: usize = 0;
    while i < a.len()
        invariant
            i <= a.len() == b.len(),
            patterns_view(a@).len() == a.len(),
            patterns_view(b@).len() == b.len(),
            forall|j: int| 0 <= j < a.len() ==> #[trigger] patterns_view(a@)[j] == (
                exprs_view(a@[j].parameters@),
                exprs_view(a@[j].body@),
            ),
            forall|j: int| 0 <= j < b.len() ==> #[trigger] patterns_view(b@)[j] == (
                exprs_view(b@[j].parameters@),
                exprs_view(b@[j].body@),
            ),
            forall|j: int| 0 <= j < i ==> #[trigger] patterns_view(a@)[j] == patterns_view(b@)[j],
        decreases a.len() - i,
    {
        if !vecs_equal(&a[i].parameters, &b[i].parameters) || !vecs_equal(&a[i].body, &b[i].body) {
            assert(patterns_view(a@)[i as int] != patterns_view(b@)[i as int]);
            return false;
        }
        i = i + 1;
    }
    assert(patterns_view(a@) =~= patterns_view(b@));
    true
}

} // verus!
