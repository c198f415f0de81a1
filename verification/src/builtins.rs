use vstd::prelude::*;
use crate::bignum::{integer_add, integer_from_usize, integer_mul, integer_order, integer_sub, integer_to_usize, rational_parts};
use crate::effect::{Effect, error};
use crate::expression::{Builtin, ExprMap, Expression, SpecExpression, exprs_view, lemma_exprs_view, lemma_exprs_view_push};
use crate::numerics::{Integer, Ratio};
use crate::printer::{push_all, push_shown};
use crate::semantics::{
    Evaluated, add_fold, apply_to_values, concat_str, div_fold, folded, last_or_nil, mul_fold,
    ratio_value, sub_fold,
};

verus! {

/// What an exec computation of a value stands for: `None` is an abort.
pub open spec fn value_outcome(r: Option<Result<Expression, Effect>>) -> Evaluated<SpecExpression> {
    match r {
        Some(Ok(v)) => Evaluated::Done(v@),
        Some(Err(e)) => Evaluated::Failed(e@),
        None => Evaluated::Aborted,
    }
}

/// `n / d` in lowest terms, as an integer where the denominator divides out.
pub fn ratio(n: &Integer, d: &Integer) -> (r: Expression)
    requires
        d.value() != 0,
    ensures
        r@ == ratio_value(n.value(), d.value()),
{
    let (p, q) = rational_parts(n, d);
    let one = Integer::from_i64(1);
    if integer_order(&q, &one) == 0 {
        Expression::Integer(p)
    } else {
        Expression::Ratio(Ratio::new(p, q))
    }
}

/// The last value, or `nil`.
pub fn last_value(vs: &Vec<Expression>) -> (r: Expression)
    ensures
        r@ == last_or_nil(exprs_view(vs@)),
{
    proof {
        lemma_exprs_view(vs@);
    }
    if vs.len() == 0 {
        Expression::Nil
    } else {
        vs[vs.len() - 1].clone()
    }
}

fn add_values(vs: &Vec<Expression>) -> (r: Result<Expression, Effect>)
    requires
        vs.len() > 0,
    ensures
        folded(add_fold(exprs_view(vs@)[0], exprs_view(vs@).skip(1))) == value_outcome(Some(r)),
{
    let ghost v = exprs_view(vs@);
    proof {
        lemma_exprs_view(vs@);
    }
    let mut acc = vs[0].clone();
    let mut i: usize = 1;
    while i < vs.len()
        invariant
            1 <= i <= vs.len(),
            v == exprs_view(vs@),
            v.len() == vs.len(),
            forall|j: int| 0 <= j < vs.len() ==> #[trigger] v[j] == vs@[j]@,
            add_fold(v[0], v.skip(1)) == add_fold(acc@, v.skip(i as int)),
        decreases vs.len() - i,
    {
        proof {
            assert(v.skip(i as int)[0] == v[i as int]);
            assert(v.skip(i as int).skip(1) =~= v.skip(i + 1));
        }
        let next = match (&acc, &vs[i]) {
            (Expression::Integer(a), Expression::Integer(b)) => Expression::Integer(integer_add(a, b)),
            _ => {
                return Err(error("Expected integer argument"));
            },
        };
        acc = next;
        i = i + 1;
    }
    assert(v.skip(i as int).len() == 0);
    Ok(acc)
}

fn sub_values(vs: &Vec<Expression>) -> (r: Result<Expression, Effect>)
    requires
        vs.len() > 0,
    ensures
        folded(sub_fold(exprs_view(vs@)[0], exprs_view(vs@).skip(1))) == value_outcome(Some(r)),
{
    let ghost v = exprs_view(vs@);
    proof {
        lemma_exprs_view(vs@);
    }
    let mut acc = vs[0].clone();
    let mut i: usize = 1;
    while i < vs.len()
        invariant
            1 <= i <= vs.len(),
            v == exprs_view(vs@),
            v.len() == vs.len(),
            forall|j: int| 0 <= j < vs.len() ==> #[trigger] v[j] == vs@[j]@,
            sub_fold(v[0], v.skip(1)) == sub_fold(acc@, v.skip(i as int)),
        decreases vs.len() - i,
    {
        proof {
            assert(v.skip(i as int)[0] == v[i as int]);
            assert(v.skip(i as int).skip(1) =~= v.skip(i + 1));
        }
        let next = match (&acc, &vs[i]) {
            (Expression::Integer(a), Expression::Integer(b)) => Expression::Integer(integer_sub(a, b)),
            _ => {
                return Err(error("Expected integer argument"));
            },
        };
        acc = next;
        i = i + 1;
    }
    assert(v.skip(i as int).len() == 0);
    Ok(acc)
}

/// The message for two values that cannot be multiplied.
fn cannot_multiply(a: &Expression, b: &Expression) -> (e: Effect)
    ensures
        e@ == "Cannot multiply "@ + crate::printer::show(a@) + " and "@ + crate::printer::show(b@),
{
    let mut s = String::new();
    push_all(&mut s, "Cannot multiply ");
    push_shown(&mut s, a);
    push_all(&mut s, " and ");
    push_shown(&mut s, b);
    Effect::Error(s)
}

fn mul_values(vs: &Vec<Expression>) -> (r: Result<Expression, Effect>)
    requires
        vs.len() > 0,
    ensures
        folded(mul_fold(exprs_view(vs@)[0], exprs_view(vs@).skip(1))) == value_outcome(Some(r)),
{
    let ghost v = exprs_view(vs@);
    proof {
        lemma_exprs_view(vs@);
    }
    let mut acc = vs[0].clone();
    let mut i: usize = 1;
    while i < vs.len()
        invariant
            1 <= i <= vs.len(),
            v == exprs_view(vs@),
            v.len() == vs.len(),
            forall|j: int| 0 <= j < vs.len() ==> #[trigger] v[j] == vs@[j]@,
            mul_fold(v[0], v.skip(1)) == mul_fold(acc@, v.skip(i as int)),
        decreases vs.len() - i,
    {
        proof {
            assert(v.skip(i as int)[0] == v[i as int]);
            assert(v.skip(i as int).skip(1) =~= v.skip(i + 1));
        }
        let next = match (&acc, &vs[i]) {
            (Expression::Integer(a), Expression::Integer(b)) => Expression::Integer(integer_mul(a, b)),
            (Expression::Integer(a), Expression::Ratio(q)) => {
                let n = integer_mul(a, q.numer());
                ratio(&n, q.denom())
            },
            (Expression::Ratio(q), Expression::Integer(b)) => {
                let n = integer_mul(q.numer(), b);
                ratio(&n, q.denom())
            },
            _ => {
                return Err(cannot_multiply(&acc, &vs[i]));
            },
        };
        acc = next;
        i = i + 1;
    }
    assert(v.skip(i as int).len() == 0);
    Ok(acc)
}

fn div_values(vs: &Vec<Expression>) -> (r: Option<Result<Expression, Effect>>)
    requires
        vs.len() > 0,
    ensures
        div_fold(exprs_view(vs@)[0], exprs_view(vs@).skip(1)) == value_outcome(r),
{
    let ghost v = exprs_view(vs@);
    proof {
        lemma_exprs_view(vs@);
    }
    let mut acc = vs[0].clone();
    let mut i: usize = 1;
    let zero = Integer::from_i64(0);
    while i < vs.len()
        invariant
            1 <= i <= vs.len(),
            v == exprs_view(vs@),
            v.len() == vs.len(),
            zero.value() == 0,
            forall|j: int| 0 <= j < vs.len() ==> #[trigger] v[j] == vs@[j]@,
            div_fold(v[0], v.skip(1)) == div_fold(acc@, v.skip(i as int)),
        decreases vs.len() - i,
    {
        proof {
            assert(v.skip(i as int)[0] == v[i as int]);
            assert(v.skip(i as int).skip(1) =~= v.skip(i + 1));
        }
        let next = match (&acc, &vs[i]) {
            (Expression::Integer(a), Expression::Integer(b)) => {
                if integer_order(b, &zero) == 0 {
                    return None;
                }
                ratio(a, b)
            },
            _ => {
                return Some(Err(error("Expected integer argument")));
            },
        };
        acc = next;
        i = i + 1;
    }
    assert(v.skip(i as int).len() == 0);
    Some(Ok(acc))
}

fn str_values(vs: &Vec<Expression>) -> (r: Expression)
    ensures
        r@ == SpecExpression::String(concat_str(exprs_view(vs@))),
{
    let ghost v = exprs_view(vs@);
    proof {
        lemma_exprs_view(vs@);
        assert(v.take(0) =~= Seq::<SpecExpression>::empty());
    }
    let mut s = String::new();
    let mut i: usize = 0;
    while i < vs.len()
        invariant
            i <= vs.len(),
            v == exprs_view(vs@),
            v.len() == vs.len(),
            forall|j: int| 0 <= j < vs.len() ==> #[trigger] v[j] == vs@[j]@,
            s@ == concat_str(v.take(i as int)),
        decreases vs.len() - i,
    {
        match &vs[i] {
            Expression::String(t) => push_all(&mut s, t.as_str()),
            other => push_shown(&mut s, other),
        }
        proof {
            assert(v.take(i + 1).drop_last() =~= v.take(i as int));
            assert(v.take(i + 1).last() == v[i as int]);
        }
        i = i + 1;
    }
    assert(v.take(vs.len() as int) =~= v);
    Expression::String(s)
}

fn range_values(vs: &Vec<Expression>) -> (r: Option<Result<Expression, Effect>>)
    ensures
        apply_to_values(Builtin::Range, exprs_view(vs@)) == value_outcome(r),
{
    proof {
        lemma_exprs_view(vs@);
    }
    if vs.len() == 0 {
        return None;
    }
    match &vs[0] {
        Expression::Integer(stop) => {
            let zero = Integer::from_i64(0);
            let n: usize = if integer_order(stop, &zero) < 0 {
                0
            } else {
                match integer_to_usize(stop) {
                    Some(n) => n,
                    None => {
                        return None;
                    },
                }
            };
            let ghost count: nat = if stop.value() < 0 { 0 } else { stop.value() as nat };
            assert(n == count);
            let mut out: Vec<Expression> = Vec::new();
            let mut i: usize = 0;
            while i < n
                invariant
                    i <= n,
                    exprs_view(out@) =~= Seq::new(i as nat, |k: int| SpecExpression::Integer(k)),
                decreases n - i,
            {
                let x = Expression::Integer(integer_from_usize(i));
                proof {
                    lemma_exprs_view_push(out@, x);
                }
                out.push(x);
                i = i + 1;
            }
            Some(Ok(Expression::Array(out)))
        },
        _ => Some(Err(error("Expected integer"))),
    }
}

fn map_values(b: Builtin, vs: &Vec<Expression>) -> (r: Option<Result<Expression, Effect>>)
    requires
        b == Builtin::Assoc || b == Builtin::Dissoc || b == Builtin::Merge || b == Builtin::Get,
    ensures
        apply_to_values(b, exprs_view(vs@)) == value_outcome(r),
{
    proof {
        lemma_exprs_view(vs@);
    }
    match b {
        Builtin::Assoc => {
            if vs.len() < 3 {
                return None;
            }
            match &vs[0] {
                Expression::Mapping(m) => {
                    let mut m2 = ExprMap { entries: crate::expression::clone_entries(&m.entries) };
                    m2.insert(vs[1].clone(), vs[2].clone());
                    Some(Ok(Expression::Mapping(m2)))
                },
                _ => Some(Err(error("Expected map"))),
            }
        },
        Builtin::Dissoc => {
            if vs.len() < 2 {
                return None;
            }
            match &vs[0] {
                Expression::Mapping(m) => {
                    let mut m2 = ExprMap { entries: crate::expression::clone_entries(&m.entries) };
                    m2.remove(&vs[1]);
                    Some(Ok(Expression::Mapping(m2)))
                },
                _ => Some(Err(error("Expected map"))),
            }
        },
        Builtin::Merge => {
            if vs.len() < 2 {
                return None;
            }
            match (&vs[0], &vs[1]) {
                (Expression::Mapping(m1), Expression::Mapping(m2)) => {
                    let mut m = ExprMap { entries: crate::expression::clone_entries(&m1.entries) };
                    m.merge(m2);
                    Some(Ok(Expression::Mapping(m)))
                },
                _ => Some(Err(error("Expected map"))),
            }
        },
        _ => {
            if vs.len() < 2 {
                return None;
            }
            match &vs[0] {
                Expression::Mapping(m) => match m.get(&vs[1]) {
                    Some(v) => Some(Ok(v.clone())),
                    None => {
                        if vs.len() == 3 {
                            Some(Ok(vs[2].clone()))
                        } else {
                            Some(Ok(Expression::Nil))
                        }
                    },
                },
                _ => Some(Err(error("Expected map"))),
            }
        },
    }
}

fn array_values(b: Builtin, vs: &Vec<Expression>) -> (r: Option<Result<Expression, Effect>>)
    requires
        b == Builtin::Nth || b == Builtin::Count,
    ensures
        apply_to_values(b, exprs_view(vs@)) == value_outcome(r),
{
    proof {
        lemma_exprs_view(vs@);
    }
    if vs.len() == 0 {
        return None;
    }
    match &vs[0] {
        Expression::Array(xs) => {
            proof {
                lemma_exprs_view(xs@);
            }
            match b {
                Builtin::Count => Some(Ok(Expression::Integer(integer_from_usize(xs.len())))),
                _ => {
                    if vs.len() < 2 {
                        return None;
                    }
                    match &vs[1] {
                        Expression::Integer(i) => match integer_to_usize(i) {
                            Some(k) => {
                                if k < xs.len() {
                                    Some(Ok(xs[k].clone()))
                                } else if vs.len() == 3 {
                                    Some(Ok(vs[2].clone()))
                                } else {
                                    Some(Err(error("Index out of range")))
                                }
                            },
                            None => Some(Err(error("Index out of range"))),
                        },
                        _ => Some(Err(error("Expected integer"))),
                    }
                },
            }
        },
        _ => Some(Err(error("Expected array"))),
    }
}

/// What a builtin that only looks at its evaluated arguments gives for them.
pub fn apply_values(b: Builtin, vs: &Vec<Expression>) -> (r: Option<Result<Expression, Effect>>)
    requires
        crate::semantics::evaluates_arguments(b) || ((b == Builtin::Add || b == Builtin::Multiply) && vs.len() > 0),
    ensures
        apply_to_values(b, exprs_view(vs@)) == value_outcome(r),
{
    proof {
        lemma_exprs_view(vs@);
    }
    match b {
        Builtin::Equal => {
            if vs.len() < 2 {
                None
            } else {
                Some(Ok(Expression::Bool(crate::equality::expr_equal(&vs[0], &vs[1]))))
            }
        },
        Builtin::Add => Some(add_values(vs)),
        Builtin::Subtract => {
            if vs.len() == 0 {
                None
            } else {
                Some(sub_values(vs))
            }
        },
        Builtin::Multiply => Some(mul_values(vs)),
        Builtin::Divide => {
            if vs.len() == 0 {
                None
            } else {
                div_values(vs)
            }
        },
        Builtin::Str => Some(Ok(str_values(vs))),
        Builtin::Do => Some(Ok(last_value(vs))),
        Builtin::Range => range_values(vs),
        Builtin::Assoc | Builtin::Dissoc | Builtin::Merge | Builtin::Get => map_values(b, vs),
        Builtin::SqlString => {
            if vs.len() == 0 {
                None
            } else {
                crate::sql::try_sql_string(&vs[0])
            }
        },
        Builtin::HtmlToString => {
            if vs.len() == 0 {
                None
            } else {
                Some(Ok(Expression::String(crate::html::to_html(&vs[0]))))
            }
        },
        _ => array_values(b, vs),
    }
}

} // verus!
