use vstd::prelude::*;
use crate::expression::{
    SpecEnv, SpecExpression, SpecPairs, SpecPatterns, order_chars, order_env, order_exprs,
    order_names, order_pairs, order_patterns, rank, sign_of, spec_order,
};
use crate::mapping::{lemma_order_chars_antisymmetric, lemma_order_chars_transitive, lemma_order_chars_zero};

verus! {

/// Every ratio inside the expression has a positive denominator, as every value the
/// library builds has.
pub open spec fn wf_expr(e: SpecExpression) -> bool
    decreases e, 0nat,
{
    match e {
        SpecExpression::Ratio(_, d) => d > 0,
        SpecExpression::Array(xs) => wf_exprs(xs),
        SpecExpression::Mapping(ps) => wf_pairs(ps),
        SpecExpression::Call(f, xs) => wf_expr(*f) && wf_exprs(xs),
        SpecExpression::Function(env, ps) => wf_env(env) && wf_patterns(ps),
        SpecExpression::Quote(x) => wf_expr(*x),
        SpecExpression::Deref(x) => wf_expr(*x),
        SpecExpression::Module(env) => wf_env(env),
        _ => true,
    }
}

pub open spec fn wf_exprs(xs: Seq<SpecExpression>) -> bool
    decreases xs, 1nat,
{
    xs.len() == 0 || (wf_expr(xs[0]) && wf_exprs(xs.skip(1)))
}

pub open spec fn wf_pairs(ps: SpecPairs) -> bool
    decreases ps, 1nat,
{
    ps.len() == 0 || (wf_expr(ps[0].0) && wf_expr(ps[0].1) && wf_pairs(ps.skip(1)))
}

pub open spec fn wf_env(env: SpecEnv) -> bool
    decreases env, 1nat,
{
    env.len() == 0 || (wf_expr(env[0].1) && wf_env(env.skip(1)))
}

pub open spec fn wf_patterns(ps: SpecPatterns) -> bool
    decreases ps, 1nat,
{
    ps.len() == 0 || (wf_exprs(ps[0].0) && wf_exprs(ps[0].1) && wf_patterns(ps.skip(1)))
}

proof fn lemma_names_antisymmetric(a: Seq<Seq<char>>, b: Seq<Seq<char>>)
    ensures
        order_names(a, b) == -order_names(b, a),
    decreases a.len(),
{
    if a.len() > 0 && b.len() > 0 {
        lemma_order_chars_antisymmetric(a[0], b[0]);
        lemma_names_antisymmetric(a.skip(1), b.skip(1));
    }
}

/// The order of expressions is antisymmetric.
pub proof fn lemma_antisymmetric(a: SpecExpression, b: SpecExpression)
    ensures
        spec_order(a, b) == -spec_order(b, a),
    decreases a, 0nat,
{
    if rank(a) == rank(b) {
        match (a, b) {
            (SpecExpression::Symbol(x), SpecExpression::Symbol(y)) => lemma_order_chars_antisymmetric(x, y),
            (SpecExpression::NamespacedSymbol(x), SpecExpression::NamespacedSymbol(y)) => lemma_names_antisymmetric(x, y),
            (SpecExpression::Keyword(x), SpecExpression::Keyword(y)) => lemma_order_chars_antisymmetric(x, y),
            (SpecExpression::String(x), SpecExpression::String(y)) => lemma_order_chars_antisymmetric(x, y),
            (SpecExpression::Float(x), SpecExpression::Float(y)) => lemma_order_chars_antisymmetric(x, y),
            (SpecExpression::Array(x), SpecExpression::Array(y)) => lemma_exprs_antisymmetric(x, y),
            (SpecExpression::Mapping(x), SpecExpression::Mapping(y)) => lemma_pairs_antisymmetric(x, y),
            (SpecExpression::Call(f, x), SpecExpression::Call(g, y)) => {
                lemma_antisymmetric(*f, *g);
                lemma_exprs_antisymmetric(x, y);
            },
            (SpecExpression::Function(e1, p1), SpecExpression::Function(e2, p2)) => {
                lemma_env_antisymmetric(e1, e2);
                lemma_patterns_antisymmetric(p1, p2);
            },
            (SpecExpression::Quote(x), SpecExpression::Quote(y)) => lemma_antisymmetric(*x, *y),
            (SpecExpression::Deref(x), SpecExpression::Deref(y)) => lemma_antisymmetric(*x, *y),
            (SpecExpression::Module(x), SpecExpression::Module(y)) => lemma_env_antisymmetric(x, y),
            _ => {},
        }
    }
}

proof fn lemma_exprs_antisymmetric(a: Seq<SpecExpression>, b: Seq<SpecExpression>)
    ensures
        order_exprs(a, b) == -order_exprs(b, a),
    decreases a, 1nat,
{
    if a.len() > 0 && b.len() > 0 {
        lemma_antisymmetric(a[0], b[0]);
        lemma_exprs_antisymmetric(a.skip(1), b.skip(1));
    }
}

proof fn lemma_pairs_antisymmetric(a: SpecPairs, b: SpecPairs)
    ensures
        order_pairs(a, b) == -order_pairs(b, a),
    decreases a, 1nat,
{
    if a.len() > 0 && b.len() > 0 {
        lemma_antisymmetric(a[0].0, b[0].0);
        lemma_antisymmetric(a[0].1, b[0].1);
        lemma_pairs_antisymmetric(a.skip(1), b.skip(1));
    }
}

proof fn lemma_env_antisymmetric(a: SpecEnv, b: SpecEnv)
    ensures
        order_env(a, b) == -order_env(b, a),
    decreases a, 1nat,
{
    if a.len() > 0 && b.len() > 0 {
        lemma_order_chars_antisymmetric(a[0].0, b[0].0);
        lemma_antisymmetric(a[0].1, b[0].1);
        lemma_env_antisymmetric(a.skip(1), b.skip(1));
    }
}

proof fn lemma_patterns_antisymmetric(a: SpecPatterns, b: SpecPatterns)
    ensures
        order_patterns(a, b) == -order_patterns(b, a),
    decreases a, 1nat,
{
    if a.len() > 0 && b.len() > 0 {
        lemma_exprs_antisymmetric(a[0].0, b[0].0);
        lemma_exprs_antisymmetric(a[0].1, b[0].1);
        lemma_patterns_antisymmetric(a.skip(1), b.skip(1));
    }
}

proof fn lemma_names_zero(a: Seq<Seq<char>>, b: Seq<Seq<char>>)
    requires
        order_names(a, b) == 0,
    ensures
        a == b,
    decreases a.len(),
{
    if a.len() > 0 && b.len() > 0 {
        lemma_order_chars_zero(a[0], b[0]);
        lemma_names_zero(a.skip(1), b.skip(1));
        assert(a =~= seq![a[0]] + a.skip(1));
        assert(b =~= seq![b[0]] + b.skip(1));
    } else {
        assert(a.len() == 0 && b.len() == 0);
        assert(a =~= b);
    }
}

proof fn lemma_ratio_congruent(n1: int, d1: int, n2: int, d2: int, n3: int, d3: int)
    requires
        d1 > 0,
        d2 > 0,
        d3 > 0,
        n1 * d2 == n2 * d1,
    ensures
        sign_of(n1 * d3, n3 * d1) == sign_of(n2 * d3, n3 * d2),
{
    let x = n1 * d3 - n3 * d1;
    let y = n2 * d3 - n3 * d2;
    assert(x * d2 == d1 * y) by (nonlinear_arith)
        requires
            n1 * d2 == n2 * d1,
            x == n1 * d3 - n3 * d1,
            y == n2 * d3 - n3 * d2,
    ;
    assert((x < 0 <==> y < 0) && (x == 0 <==> y == 0)) by (nonlinear_arith)
        requires
            x * d2 == d1 * y,
            d1 > 0,
            d2 > 0,
    ;
}

/// Expressions that the order puts together compare alike with every other expression.
pub proof fn lemma_congruent(a: SpecExpression, b: SpecExpression, c: SpecExpression)
    requires
        wf_expr(a),
        wf_expr(b),
        wf_expr(c),
        spec_order(a, b) == 0,
    ensures
        spec_order(a, c) == spec_order(b, c),
    decreases a, 0nat,
{
    assert(rank(a) == rank(b));
    if rank(a) == rank(c) {
        match (a, b, c) {
            (SpecExpression::Symbol(x), SpecExpression::Symbol(y), SpecExpression::Symbol(z)) => lemma_order_chars_zero(x, y),
            (SpecExpression::NamespacedSymbol(x), SpecExpression::NamespacedSymbol(y), SpecExpression::NamespacedSymbol(z)) => lemma_names_zero(x, y),
            (SpecExpression::Keyword(x), SpecExpression::Keyword(y), SpecExpression::Keyword(z)) => lemma_order_chars_zero(x, y),
            (SpecExpression::String(x), SpecExpression::String(y), SpecExpression::String(z)) => lemma_order_chars_zero(x, y),
            (SpecExpression::Float(x), SpecExpression::Float(y), SpecExpression::Float(z)) => lemma_order_chars_zero(x, y),
            (SpecExpression::Ratio(n1, d1), SpecExpression::Ratio(n2, d2), SpecExpression::Ratio(n3, d3)) => {
                lemma_ratio_congruent(n1, d1, n2, d2, n3, d3);
            },
            (SpecExpression::Array(x), SpecExpression::Array(y), SpecExpression::Array(z)) => lemma_exprs_congruent(x, y, z),
            (SpecExpression::Mapping(x), SpecExpression::Mapping(y), SpecExpression::Mapping(z)) => lemma_pairs_congruent(x, y, z),
            (SpecExpression::Call(f, x), SpecExpression::Call(g, y), SpecExpression::Call(h, z)) => {
                lemma_congruent(*f, *g, *h);
                lemma_exprs_congruent(x, y, z);
            },
            (SpecExpression::Function(e1, p1), SpecExpression::Function(e2, p2), SpecExpression::Function(e3, p3)) => {
                lemma_env_congruent(e1, e2, e3);
                lemma_patterns_congruent(p1, p2, p3);
            },
            (SpecExpression::Quote(x), SpecExpression::Quote(y), SpecExpression::Quote(z)) => lemma_congruent(*x, *y, *z),
            (SpecExpression::Deref(x), SpecExpression::Deref(y), SpecExpression::Deref(z)) => lemma_congruent(*x, *y, *z),
            (SpecExpression::Module(x), SpecExpression::Module(y), SpecExpression::Module(z)) => lemma_env_congruent(x, y, z),
            _ => {},
        }
    }
}

proof fn lemma_exprs_congruent(a: Seq<SpecExpression>, b: Seq<SpecExpression>, c: Seq<SpecExpression>)
    requires
        wf_exprs(a),
        wf_exprs(b),
        wf_exprs(c),
        order_exprs(a, b) == 0,
    ensures
        order_exprs(a, c) == order_exprs(b, c),
    decreases a, 1nat,
{
    if a.len() > 0 && b.len() > 0 && c.len() > 0 {
        lemma_congruent(a[0], b[0], c[0]);
        lemma_exprs_congruent(a.skip(1), b.skip(1), c.skip(1));
    }
}

proof fn lemma_pairs_congruent(a: SpecPairs, b: SpecPairs, c: SpecPairs)
    requires
        wf_pairs(a),
        wf_pairs(b),
        wf_pairs(c),
        order_pairs(a, b) == 0,
    ensures
        order_pairs(a, c) == order_pairs(b, c),
    decreases a, 1nat,
{
    if a.len() > 0 && b.len() > 0 && c.len() > 0 {
        lemma_congruent(a[0].0, b[0].0, c[0].0);
        lemma_congruent(a[0].1, b[0].1, c[0].1);
        lemma_pairs_congruent(a.skip(1), b.skip(1), c.skip(1));
    }
}

proof fn lemma_env_congruent(a: SpecEnv, b: SpecEnv, c: SpecEnv)
    requires
        wf_env(a),
        wf_env(b),
        wf_env(c),
        order_env(a, b) == 0,
    ensures
        order_env(a, c) == order_env(b, c),
    decreases a, 1nat,
{
    if a.len() > 0 && b.len() > 0 && c.len() > 0 {
        lemma_order_chars_zero(a[0].0, b[0].0);
        lemma_congruent(a[0].1, b[0].1, c[0].1);
        lemma_env_congruent(a.skip(1), b.skip(1), c.skip(1));
    }
}

proof fn lemma_patterns_congruent(a: SpecPatterns, b: SpecPatterns, c: SpecPatterns)
    requires
        wf_patterns(a),
        wf_patterns(b),
        wf_patterns(c),
        order_patterns(a, b) == 0,
    ensures
        order_patterns(a, c) == order_patterns(b, c),
    decreases a, 1nat,
{
    if a.len() > 0 && b.len() > 0 && c.len() > 0 {
        lemma_exprs_congruent(a[0].0, b[0].0, c[0].0);
        lemma_exprs_congruent(a[0].1, b[0].1, c[0].1);
        lemma_patterns_congruent(a.skip(1), b.skip(1), c.skip(1));
    }
}

proof fn lemma_names_transitive(a: Seq<Seq<char>>, b: Seq<Seq<char>>, c: Seq<Seq<char>>)
    requires
        order_names(a, b) < 0,
        order_names(b, c) < 0,
    ensures
        order_names(a, c) < 0,
    decreases a.len(),
{
    if a.len() > 0 && b.len() > 0 && c.len() > 0 {
        let x = order_chars(a[0], b[0]);
        let y = order_chars(b[0], c[0]);
        lemma_order_chars_zero(a[0], b[0]);
        lemma_order_chars_zero(b[0], c[0]);
        if x < 0 && y < 0 {
            lemma_order_chars_transitive(a[0], b[0], c[0]);
        } else if x == 0 && y == 0 {
            lemma_order_chars_zero(a[0], c[0]);
            lemma_names_transitive(a.skip(1), b.skip(1), c.skip(1));
        }
    }
}

proof fn lemma_ratio_transitive(n1: int, d1: int, n2: int, d2: int, n3: int, d3: int)
    requires
        d1 > 0,
        d2 > 0,
        d3 > 0,
        n1 * d2 < n2 * d1,
        n2 * d3 < n3 * d2,
    ensures
        n1 * d3 < n3 * d1,
{
    assert(n1 * d2 * d3 < n2 * d1 * d3) by (nonlinear_arith)
        requires
            n1 * d2 < n2 * d1,
            d3 > 0,
    ;
    assert(n2 * d3 * d1 < n3 * d2 * d1) by (nonlinear_arith)
        requires
            n2 * d3 < n3 * d2,
            d1 > 0,
    ;
    assert(n2 * d1 * d3 == n2 * d3 * d1) by (nonlinear_arith);
    assert(n1 * d2 * d3 == (n1 * d3) * d2) by (nonlinear_arith);
    assert(n3 * d2 * d1 == (n3 * d1) * d2) by (nonlinear_arith);
    assert((n1 * d3) * d2 < (n3 * d1) * d2);
    assert(n1 * d3 < n3 * d1) by (nonlinear_arith)
        requires
            (n1 * d3) * d2 < (n3 * d1) * d2,
            d2 > 0,
    ;
}

/// Comparing with either of two expressions that the order puts together gives the same.
pub proof fn lemma_right_congruent(a: SpecExpression, b: SpecExpression, c: SpecExpression)
    requires
        wf_expr(a),
        wf_expr(b),
        wf_expr(c),
        spec_order(b, c) == 0,
    ensures
        spec_order(a, b) == spec_order(a, c),
{
    lemma_congruent(b, c, a);
    lemma_antisymmetric(a, b);
    lemma_antisymmetric(a, c);
}

/// The order of expressions is transitive.
pub proof fn lemma_transitive(a: SpecExpression, b: SpecExpression, c: SpecExpression)
    requires
        wf_expr(a),
        wf_expr(b),
        wf_expr(c),
        spec_order(a, b) < 0,
        spec_order(b, c) < 0,
    ensures
        spec_order(a, c) < 0,
    decreases a, 0nat,
{
    if rank(a) == rank(b) && rank(b) == rank(c) {
        match (a, b, c) {
            (SpecExpression::Symbol(x), SpecExpression::Symbol(y), SpecExpression::Symbol(z)) => lemma_order_chars_transitive(x, y, z),
            (SpecExpression::NamespacedSymbol(x), SpecExpression::NamespacedSymbol(y), SpecExpression::NamespacedSymbol(z)) => lemma_names_transitive(x, y, z),
            (SpecExpression::Keyword(x), SpecExpression::Keyword(y), SpecExpression::Keyword(z)) => lemma_order_chars_transitive(x, y, z),
            (SpecExpression::String(x), SpecExpression::String(y), SpecExpression::String(z)) => lemma_order_chars_transitive(x, y, z),
            (SpecExpression::Float(x), SpecExpression::Float(y), SpecExpression::Float(z)) => lemma_order_chars_transitive(x, y, z),
            (SpecExpression::Ratio(n1, d1), SpecExpression::Ratio(n2, d2), SpecExpression::Ratio(n3, d3)) => {
                lemma_ratio_transitive(n1, d1, n2, d2, n3, d3);
            },
            (SpecExpression::Array(x), SpecExpression::Array(y), SpecExpression::Array(z)) => lemma_exprs_transitive(x, y, z),
            (SpecExpression::Mapping(x), SpecExpression::Mapping(y), SpecExpression::Mapping(z)) => lemma_pairs_transitive(x, y, z),
            (SpecExpression::Call(f, x), SpecExpression::Call(g, y), SpecExpression::Call(h, z)) => {
                let p = spec_order(*f, *g);
                let q = spec_order(*g, *h);
                if p < 0 && q < 0 {
                    lemma_transitive(*f, *g, *h);
                } else if p < 0 && q == 0 {
                    lemma_right_congruent(*f, *g, *h);
                } else if p == 0 && q < 0 {
                    lemma_congruent(*f, *g, *h);
                } else if p == 0 && q == 0 {
                    lemma_congruent(*f, *g, *h);
                    lemma_exprs_transitive(x, y, z);
                }
            },
            (SpecExpression::Function(e1, p1), SpecExpression::Function(e2, p2), SpecExpression::Function(e3, p3)) => {
                let p = order_env(e1, e2);
                let q = order_env(e2, e3);
                if p < 0 && q < 0 {
                    lemma_env_transitive(e1, e2, e3);
                } else if p < 0 && q == 0 {
                    lemma_env_congruent(e2, e3, e1);
                    lemma_env_antisymmetric(e1, e2);
                    lemma_env_antisymmetric(e1, e3);
                } else if p == 0 && q < 0 {
                    lemma_env_congruent(e1, e2, e3);
                } else if p == 0 && q == 0 {
                    lemma_env_congruent(e1, e2, e3);
                    lemma_patterns_transitive(p1, p2, p3);
                }
            },
            (SpecExpression::Quote(x), SpecExpression::Quote(y), SpecExpression::Quote(z)) => lemma_transitive(*x, *y, *z),
            (SpecExpression::Deref(x), SpecExpression::Deref(y), SpecExpression::Deref(z)) => lemma_transitive(*x, *y, *z),
            (SpecExpression::Module(x), SpecExpression::Module(y), SpecExpression::Module(z)) => lemma_env_transitive(x, y, z),
            _ => {},
        }
    }
}

proof fn lemma_exprs_transitive(a: Seq<SpecExpression>, b: Seq<SpecExpression>, c: Seq<SpecExpression>)
    requires
        wf_exprs(a),
        wf_exprs(b),
        wf_exprs(c),
        order_exprs(a, b) < 0,
        order_exprs(b, c) < 0,
    ensures
        order_exprs(a, c) < 0,
    decreases a, 1nat,
{
    if a.len() > 0 && b.len() > 0 && c.len() > 0 {
        let p = spec_order(a[0], b[0]);
        let q = spec_order(b[0], c[0]);
        if p < 0 && q < 0 {
            lemma_transitive(a[0], b[0], c[0]);
        } else if p < 0 && q == 0 {
            lemma_right_congruent(a[0], b[0], c[0]);
        } else if p == 0 && q < 0 {
            lemma_congruent(a[0], b[0], c[0]);
        } else if p == 0 && q == 0 {
            lemma_congruent(a[0], b[0], c[0]);
            lemma_exprs_transitive(a.skip(1), b.skip(1), c.skip(1));
        }
    }
}

proof fn lemma_pairs_transitive(a: SpecPairs, b: SpecPairs, c: SpecPairs)
    requires
        wf_pairs(a),
        wf_pairs(b),
        wf_pairs(c),
        order_pairs(a, b) < 0,
        order_pairs(b, c) < 0,
    ensures
        order_pairs(a, c) < 0,
    decreases a, 1nat,
{
    if a.len() > 0 && b.len() > 0 && c.len() > 0 {
        let p = spec_order(a[0].0, b[0].0);
        let q = spec_order(b[0].0, c[0].0);
        if p < 0 && q < 0 {
            lemma_transitive(a[0].0, b[0].0, c[0].0);
        } else if p < 0 && q == 0 {
            lemma_right_congruent(a[0].0, b[0].0, c[0].0);
        } else if p == 0 && q < 0 {
            lemma_congruent(a[0].0, b[0].0, c[0].0);
        } else if p == 0 && q == 0 {
            lemma_congruent(a[0].0, b[0].0, c[0].0);
            let u = spec_order(a[0].1, b[0].1);
            let w = spec_order(b[0].1, c[0].1);
            if u < 0 && w < 0 {
                lemma_transitive(a[0].1, b[0].1, c[0].1);
            } else if u < 0 && w == 0 {
                lemma_right_congruent(a[0].1, b[0].1, c[0].1);
            } else if u == 0 && w < 0 {
                lemma_congruent(a[0].1, b[0].1, c[0].1);
            } else if u == 0 && w == 0 {
                lemma_congruent(a[0].1, b[0].1, c[0].1);
                lemma_pairs_transitive(a.skip(1), b.skip(1), c.skip(1));
            }
        }
    }
}

proof fn lemma_env_transitive(a: SpecEnv, b: SpecEnv, c: SpecEnv)
    requires
        wf_env(a),
        wf_env(b),
        wf_env(c),
        order_env(a, b) < 0,
        order_env(b, c) < 0,
    ensures
        order_env(a, c) < 0,
    decreases a, 1nat,
{
    if a.len() > 0 && b.len() > 0 && c.len() > 0 {
        let p = order_chars(a[0].0, b[0].0);
        let q = order_chars(b[0].0, c[0].0);
        lemma_order_chars_zero(a[0].0, b[0].0);
        lemma_order_chars_zero(b[0].0, c[0].0);
        if p < 0 && q < 0 {
            lemma_order_chars_transitive(a[0].0, b[0].0, c[0].0);
        } else if p == 0 && q == 0 {
            lemma_order_chars_zero(a[0].0, c[0].0);
            let u = spec_order(a[0].1, b[0].1);
            let w = spec_order(b[0].1, c[0].1);
            if u < 0 && w < 0 {
                lemma_transitive(a[0].1, b[0].1, c[0].1);
            } else if u < 0 && w == 0 {
                lemma_right_congruent(a[0].1, b[0].1, c[0].1);
            } else if u == 0 && w < 0 {
                lemma_congruent(a[0].1, b[0].1, c[0].1);
            } else if u == 0 && w == 0 {
                lemma_congruent(a[0].1, b[0].1, c[0].1);
                lemma_env_transitive(a.skip(1), b.skip(1), c.skip(1));
            }
        }
    }
}

proof fn lemma_patterns_transitive(a: SpecPatterns, b: SpecPatterns, c: SpecPatterns)
    requires
        wf_patterns(a),
        wf_patterns(b),
        wf_patterns(c),
        order_patterns(a, b) < 0,
        order_patterns(b, c) < 0,
    ensures
        order_patterns(a, c) < 0,
    decreases a, 1nat,
{
    if a.len() > 0 && b.len() > 0 && c.len() > 0 {
        let p = order_exprs(a[0].0, b[0].0);
        let q = order_exprs(b[0].0, c[0].0);
        if p < 0 && q < 0 {
            lemma_exprs_transitive(a[0].0, b[0].0, c[0].0);
        } else if p < 0 && q == 0 {
            lemma_exprs_congruent(b[0].0, c[0].0, a[0].0);
            lemma_exprs_antisymmetric(a[0].0, b[0].0);
            lemma_exprs_antisymmetric(a[0].0, c[0].0);
        } else if p == 0 && q < 0 {
            lemma_exprs_congruent(a[0].0, b[0].0, c[0].0);
        } else if p == 0 && q == 0 {
            lemma_exprs_congruent(a[0].0, b[0].0, c[0].0);
            let u = order_exprs(a[0].1, b[0].1);
            let w = order_exprs(b[0].1, c[0].1);
            if u < 0 && w < 0 {
                lemma_exprs_transitive(a[0].1, b[0].1, c[0].1);
            } else if u < 0 && w == 0 {
                lemma_exprs_congruent(b[0].1, c[0].1, a[0].1);
                lemma_exprs_antisymmetric(a[0].1, b[0].1);
                lemma_exprs_antisymmetric(a[0].1, c[0].1);
            } else if u == 0 && w < 0 {
                lemma_exprs_congruent(a[0].1, b[0].1, c[0].1);
            } else if u == 0 && w == 0 {
                lemma_exprs_congruent(a[0].1, b[0].1, c[0].1);
                lemma_patterns_transitive(a.skip(1), b.skip(1), c.skip(1));
            }
        }
    }
}

} // verus!
