use vstd::prelude::*;
use crate::expression::{
    Expression, Pattern, SpecEnv, SpecExpression, SpecPairs, SpecPatterns, exprs_view,
    lemma_env_view, lemma_exprs_view, lemma_pairs_view, lemma_patterns_view,
};
use crate::mapping::env_get;
use crate::numerics::int_to_decimal;
use crate::token::strings_view;

verus! {

/// How a character of a string is written between the quotes of a string literal.
pub open spec fn escaped(c: char) -> Seq<char> {
    if c == '\n' {
        seq!['\\', 'n']
    } else if c == '\t' {
        seq!['\\', 't']
    } else if c == '\r' {
        seq!['\\', 'r']
    } else if c == '\\' {
        seq!['\\', '\\']
    } else if c == '"' {
        seq!['\\', '"']
    } else {
        seq![c]
    }
}

/// The characters of `s`, each written as in a string literal.
pub open spec fn escape_all(s: Seq<char>) -> Seq<char>
    decreases s.len(),
{
    if s.len() == 0 {
        seq![]
    } else {
        escape_all(s.drop_last()) + escaped(s.last())
    }
}

/// Names joined by `/`.
pub open spec fn join_names(v: Seq<Seq<char>>) -> Seq<char>
    decreases v.len(),
{
    if v.len() == 0 {
        seq![]
    } else if v.len() == 1 {
        v[0]
    } else {
        join_names(v.drop_last()) + seq!['/'] + v.last()
    }
}

/// The written form of an expression.
pub open spec fn show(e: SpecExpression) -> Seq<char>
    decreases e, 0nat,
{
    match e {
        SpecExpression::Symbol(s) => s,
        SpecExpression::NamespacedSymbol(v) => join_names(v),
        SpecExpression::Keyword(k) => k,
        SpecExpression::String(s) => seq!['"'] + escape_all(s) + seq!['"'],
        SpecExpression::Integer(i) => int_to_decimal(i),
        SpecExpression::Float(f) => f,
        SpecExpression::Ratio(n, d) => int_to_decimal(n) + seq!['/'] + int_to_decimal(d),
        SpecExpression::Bool(b) => if b { "true"@ } else { "false"@ },
        SpecExpression::Nil => "nil"@,
        SpecExpression::Array(es) => seq!['['] + show_joined(es, seq![',', ' ']) + seq![']'],
        SpecExpression::Mapping(ps) => seq!['{'] + show_pairs(ps) + seq!['}'],
        SpecExpression::Call(f, args) => seq!['('] + show(*f) + seq![' '] + show_joined(args, seq![' '])
            + seq![')'],
        SpecExpression::Function(_, ps) => show_function(ps),
        SpecExpression::Quote(x) => seq!['\''] + show(*x),
        SpecExpression::Deref(x) => seq!['@'] + show(*x),
        SpecExpression::NativeFunction(_) => "#native_function"@,
        SpecExpression::Module(env) => "#module("@ + show_module_name(env) + seq![')'],
        SpecExpression::Atom(_) => "#atom"@,
    }
}

/// The written forms of `es` with `sep` between them.
pub open spec fn show_joined(es: Seq<SpecExpression>, sep: Seq<char>) -> Seq<char>
    decreases es, 1nat,
{
    if es.len() == 0 {
        seq![]
    } else if es.len() == 1 {
        show(es[0])
    } else {
        show_joined(es.drop_last(), sep) + sep + show(es.last())
    }
}

/// The written forms of `es`, each followed by a space.
pub open spec fn show_terminated(es: Seq<SpecExpression>) -> Seq<char>
    decreases es, 1nat,
{
    if es.len() == 0 {
        seq![]
    } else {
        show_terminated(es.drop_last()) + show(es.last()) + seq![' ']
    }
}

/// The entries of a map, each as key, space, value, separated by a comma and a space.
pub open spec fn show_pairs(ps: SpecPairs) -> Seq<char>
    decreases ps, 1nat,
{
    if ps.len() == 0 {
        seq![]
    } else if ps.len() == 1 {
        show(ps[0].0) + seq![' '] + show(ps[0].1)
    } else {
        show_pairs(ps.drop_last()) + seq![',', ' '] + show(ps.last().0) + seq![' '] + show(ps.last().1)
    }
}

/// One clause of a function of several clauses, on a line of its own.
pub open spec fn show_clause(p: (Seq<SpecExpression>, Seq<SpecExpression>)) -> Seq<char>
    decreases p, 1nat,
{
    seq!['\n', ' ', ' ', '(', '['] + show_joined(p.0, seq![' ']) + seq![']', ' '] + show_terminated(p.1)
        + seq![')']
}

/// The clauses of a function of several clauses.
pub open spec fn show_clauses(ps: SpecPatterns) -> Seq<char>
    decreases ps, 1nat,
{
    if ps.len() == 0 {
        seq![]
    } else {
        show_clauses(ps.drop_last()) + show_clause(ps.last())
    }
}

/// A function: one clause inline, several clauses one per line.
pub open spec fn show_function(ps: SpecPatterns) -> Seq<char>
    decreases ps, 2nat,
{
    if ps.len() == 1 {
        "(fn ["@ + show_joined(ps[0].0, seq![' ']) + seq![']', ' '] + show_terminated(ps[0].1) + seq![')']
    } else {
        "(fn"@ + show_clauses(ps) + seq![')']
    }
}

/// The position of the first binding of `name`, or -1.
pub open spec fn env_index(e: SpecEnv, name: Seq<char>) -> int
    decreases e.len(),
{
    if e.len() == 0 {
        -1
    } else if e[0].0 == name {
        0
    } else {
        let j = env_index(e.skip(1), name);
        if j < 0 { -1 } else { j + 1 }
    }
}

/// The value a module binds to `*name*`, written, or `nil`.
pub open spec fn show_module_name(env: SpecEnv) -> Seq<char>
    decreases env, 1nat,
{
    let i = env_index(env, "*name*"@);
    if 0 <= i < env.len() {
        show(env[i].1)
    } else {
        "nil"@
    }
}

/// Appends the characters of `t`.
pub(crate) fn push_all(s: &mut String, t: &str)
    ensures
        final(s)@ == old(s)@ + t@,
{
    let chars = crate::strings::chars_of(t);
    let mut i: usize = 0;
    while i < chars.len()
        invariant
            i <= chars.len(),
            chars@ == t@,
            s@ == old(s)@ + chars@.take(i as int),
        decreases chars.len() - i,
    {
        s.push(chars[i]);
        assert(chars@.take(i as int).push(chars@[i as int]) =~= chars@.take(i + 1));
        i = i + 1;
    }
    assert(chars@.take(chars.len() as int) =~= chars@);
}

fn push_escaped(s: &mut String, t: &String)
    ensures
        final(s)@ == old(s)@ + escape_all(t@),
{
    let chars = crate::strings::chars_of(t.as_str());
    let mut i: usize = 0;
    assert(chars@.take(0) =~= Seq::<char>::empty());
    while i < chars.len()
        invariant
            i <= chars.len(),
            chars@ == t@,
            s@ == old(s)@ + escape_all(chars@.take(i as int)),
        decreases chars.len() - i,
    {
        let c = chars[i];
        let ghost before = s@;
        if c == '\n' {
            s.push('\\');
            s.push('n');
        } else if c == '\t' {
            s.push('\\');
            s.push('t');
        } else if c == '\r' {
            s.push('\\');
            s.push('r');
        } else if c == '\\' {
            s.push('\\');
            s.push('\\');
        } else if c == '"' {
            s.push('\\');
            s.push('"');
        } else {
            s.push(c);
        }
        proof {
            assert(s@ =~= before + escaped(c));
            assert(chars@.take(i + 1).drop_last() =~= chars@.take(i as int));
            assert(s@ =~= old(s)@ + escape_all(chars@.take(i + 1)));
        }
        i = i + 1;
    }
    assert(chars@.take(chars.len() as int) =~= chars@);
}

fn push_names(s: &mut String, v: &Vec<String>)
    ensures
        final(s)@ == old(s)@ + join_names(strings_view(v@)),
{
    let ghost names = strings_view(v@);
    let mut i: usize = 0;
    assert(names.take(0) =~= Seq::<Seq<char>>::empty());
    while i < v.len()
        invariant
            i <= v.len(),
            names == strings_view(v@),
            names.len() == v.len(),
            s@ == old(s)@ + join_names(names.take(i as int)),
        decreases v.len() - i,
    {
        let ghost before = s@;
        if i > 0 {
            s.push('/');
        }
        push_all(s, v[i].as_str());
        proof {
            let t = names.take(i + 1);
            assert(t.drop_last() =~= names.take(i as int));
            assert(names[i as int] == v@[i as int]@);
            if i == 0 {
                assert(s@ =~= old(s)@ + join_names(t));
            } else {
                assert(s@ =~= old(s)@ + join_names(t));
            }
        }
        i = i + 1;
    }
    assert(names.take(v.len() as int) =~= names);
}

/// Appends the written forms of `es` with `sep` between them.
fn push_joined(s: &mut String, es: &Vec<Expression>, sep: &str)
    ensures
        final(s)@ == old(s)@ + show_joined(exprs_view(es@), sep@),
    decreases es@, 1nat,
{
    let ghost v = exprs_view(es@);
    proof {
        lemma_exprs_view(es@);
        assert(v.take(0) =~= Seq::<SpecExpression>::empty());
    }
    let mut i: usize = 0;
    while i < es.len()
        invariant
            i <= es.len(),
            v == exprs_view(es@),
            v.len() == es.len(),
            forall|j: int| 0 <= j < es.len() ==> #[trigger] v[j] == es@[j]@,
            s@ == old(s)@ + show_joined(v.take(i as int), sep@),
        decreases es.len() - i,
    {
        if i > 0 {
            push_all(s, sep);
        }
        let ghost mid = s@;
        push_shown(s, &es[i]);
        proof {
            let t = v.take(i + 1);
            assert(t.drop_last() =~= v.take(i as int));
            assert(t.last() == es@[i as int]@);
            assert(s@ =~= old(s)@ + show_joined(t, sep@));
        }
        i = i + 1;
    }
    assert(v.take(es.len() as int) =~= v);
}

/// Appends the written forms of `es`, each followed by a space.
fn push_terminated(s: &mut String, es: &Vec<Expression>)
    ensures
        final(s)@ == old(s)@ + show_terminated(exprs_view(es@)),
    decreases es@, 1nat,
{
    let ghost v = exprs_view(es@);
    proof {
        lemma_exprs_view(es@);
        assert(v.take(0) =~= Seq::<SpecExpression>::empty());
    }
    let mut i: usize = 0;
    while i < es.len()
        invariant
            i <= es.len(),
            v == exprs_view(es@),
            v.len() == es.len(),
            forall|j: int| 0 <= j < es.len() ==> #[trigger] v[j] == es@[j]@,
            s@ == old(s)@ + show_terminated(v.take(i as int)),
        decreases es.len() - i,
    {
        push_shown(s, &es[i]);
        s.push(' ');
        proof {
            let t = v.take(i + 1);
            assert(t.drop_last() =~= v.take(i as int));
            assert(t.last() == es@[i as int]@);
            assert(s@ =~= old(s)@ + show_terminated(t));
        }
        i = i + 1;
    }
    assert(v.take(es.len() as int) =~= v);
}

fn push_pairs(s: &mut String, ps: &Vec<(Expression, Expression)>)
    ensures
        final(s)@ == old(s)@ + show_pairs(crate::expression::pairs_view(ps@)),
    decreases ps@, 1nat,
{
    let ghost v = crate::expression::pairs_view(ps@);
    proof {
        lemma_pairs_view(ps@);
        assert(v.take(0) =~= Seq::<(SpecExpression, SpecExpression)>::empty());
    }
    let mut i: usize = 0;
    while i < ps.len()
        invariant
            i <= ps.len(),
            v == crate::expression::pairs_view(ps@),
            v.len() == ps.len(),
            forall|j: int| 0 <= j < ps.len() ==> #[trigger] v[j] == (ps@[j].0@, ps@[j].1@),
            s@ == old(s)@ + show_pairs(v.take(i as int)),
        decreases ps.len() - i,
    {
        if i > 0 {
            s.push(',');
            s.push(' ');
        }
        push_shown(s, &ps[i].0);
        s.push(' ');
        push_shown(s, &ps[i].1);
        proof {
            let t = v.take(i + 1);
            assert(t.drop_last() =~= v.take(i as int));
            assert(t.last() == (ps@[i as int].0@, ps@[i as int].1@));
            assert(s@ =~= old(s)@ + show_pairs(t));
        }
        i = i + 1;
    }
    assert(v.take(ps.len() as int) =~= v);
}

fn push_function(s: &mut String, patterns: &Vec<Pattern>)
    ensures
        final(s)@ == old(s)@ + show_function(crate::expression::patterns_view(patterns@)),
    decreases patterns@, 2nat,
{
    let ghost v = crate::expression::patterns_view(patterns@);
    proof {
        lemma_patterns_view(patterns@);
    }
    if patterns.len() == 1 {
        push_all(s, "(fn [");
        push_joined(s, &patterns[0].parameters, " ");
        s.push(']');
        s.push(' ');
        push_terminated(s, &patterns[0].body);
        s.push(')');
        proof {
            assert(" "@ == seq![' ']) by {
                reveal_strlit(" ");
            }
            assert(s@ =~= old(s)@ + show_function(v));
        }
    } else {
        push_all(s, "(fn");
        let ghost start = s@;
        let mut i: usize = 0;
        assert(v.take(0) =~= Seq::<(Seq<SpecExpression>, Seq<SpecExpression>)>::empty());
        while i < patterns.len()
            invariant
                i <= patterns.len(),
                v == crate::expression::patterns_view(patterns@),
                v.len() == patterns.len(),
                forall|j: int| 0 <= j < patterns.len() ==> #[trigger] v[j] == (
                    exprs_view(patterns@[j].parameters@),
                    exprs_view(patterns@[j].body@),
                ),
                s@ == start + show_clauses(v.take(i as int)),
            decreases patterns.len() - i,
        {
            let ghost before = s@;
            s.push('\n');
            s.push(' ');
            s.push(' ');
            s.push('(');
            s.push('[');
            push_joined(s, &patterns[i].parameters, " ");
            s.push(']');
            s.push(' ');
            push_terminated(s, &patterns[i].body);
            s.push(')');
            proof {
                assert(" "@ == seq![' ']) by {
                    reveal_strlit(" ");
                }
                let t = v.take(i + 1);
                assert(t.drop_last() =~= v.take(i as int));
                assert(t.last() == v[i as int]);
                assert(s@ =~= before + show_clause(v[i as int]));
                assert(s@ =~= start + show_clauses(t));
            }
            i = i + 1;
        }
        s.push(')');
        proof {
            assert(v.take(patterns.len() as int) =~= v);
            assert(s@ =~= old(s)@ + show_function(v));
        }
    }
}

/// Appends the written form of `e`.
pub(crate) fn push_shown(s: &mut String, e: &Expression)
    ensures
        final(s)@ == old(s)@ + show(e@),
    decreases e, 0nat,
{
    match e {
        Expression::Symbol(x) => push_all(s, x.as_str()),
        Expression::NamespacedSymbol(v) => push_names(s, v),
        Expression::Keyword(k) => push_all(s, k.as_str()),
        Expression::String(x) => {
            s.push('"');
            push_escaped(s, x);
            s.push('"');
            assert(s@ =~= old(s)@ + show(e@));
        },
        Expression::Integer(i) => push_all(s, i.text().as_str()),
        Expression::Float(f) => push_all(s, f.literal().as_str()),
        Expression::Ratio(q) => {
            push_all(s, q.numer().text().as_str());
            s.push('/');
            push_all(s, q.denom().text().as_str());
            assert(s@ =~= old(s)@ + show(e@));
        },
        Expression::Bool(b) => {
            if *b {
                push_all(s, "true");
            } else {
                push_all(s, "false");
            }
        },
        Expression::Nil => push_all(s, "nil"),
        Expression::Array(es) => {
            s.push('[');
            push_joined(s, es, ", ");
            s.push(']');
            proof {
                assert(", "@ == seq![',', ' ']) by {
                    reveal_strlit(", ");
                }
                assert(s@ =~= old(s)@ + show(e@));
            }
        },
        Expression::Mapping(m) => {
            s.push('{');
            push_pairs(s, &m.entries);
            s.push('}');
            assert(s@ =~= old(s)@ + show(e@));
        },
        Expression::Call(c) => {
            s.push('(');
            push_shown(s, &c.function);
            s.push(' ');
            push_joined(s, &c.arguments, " ");
            s.push(')');
            proof {
                assert(" "@ == seq![' ']) by {
                    reveal_strlit(" ");
                }
                assert(s@ =~= old(s)@ + show(e@));
            }
        },
        Expression::Function(f) => push_function(s, &f.patterns),
        Expression::Quote(x) => {
            s.push('\'');
            push_shown(s, x);
            assert(s@ =~= old(s)@ + show(e@));
        },
        Expression::Deref(x) => {
            s.push('@');
            push_shown(s, x);
            assert(s@ =~= old(s)@ + show(e@));
        },
        Expression::NativeFunction(_) => push_all(s, "#native_function"),
        Expression::Atom(_) => push_all(s, "#atom"),
        Expression::Module(env) => {
            push_all(s, "#module(");
            push_module_name(s, &env.entries);
            s.push(')');
            assert(s@ =~= old(s)@ + show(e@));
        },
    }
}

/// Appends the written value bound to `*name*`, or `nil`.
fn push_module_name(s: &mut String, entries: &Vec<(String, Expression)>)
    ensures
        final(s)@ == old(s)@ + show_module_name(crate::expression::env_view(entries@)),
    decreases entries@, 1nat,
{
    let ghost ev = crate::expression::env_view(entries@);
    let key = "*name*".to_string();
    proof {
        lemma_env_view(entries@);
        assert(ev.skip(0) =~= ev);
    }
    let ghost s0 = s@;
    let mut i: usize = 0;
    while i < entries.len()
        invariant
            i <= entries.len(),
            s@ == s0,
            s0 == old(s)@,
            ev == crate::expression::env_view(entries@),
            ev.len() == entries.len(),
            key@ == "*name*"@,
            forall|j: int| 0 <= j < ev.len() ==> #[trigger] ev[j] == (entries@[j].0@, entries@[j].1@),
            env_index(ev, key@) == (if env_index(ev.skip(i as int), key@) < 0 {
                -1
            } else {
                env_index(ev.skip(i as int), key@) + i
            }),
        decreases entries.len() - i,
    {
        let c = crate::expression::compare_strings(&key, &entries[i].0);
        proof {
            crate::mapping::lemma_order_chars_zero(key@, entries@[i as int].0@);
            assert(ev.skip(i as int)[0] == ev[i as int]);
            assert(ev.skip(i as int).skip(1) =~= ev.skip(i + 1));
        }
        if c == 0 {
            push_shown(s, &entries[i].1);
            assert(env_index(ev, key@) == i);
            assert(ev[i as int].1 == entries@[i as int].1@);
            assert(show_module_name(ev) == show(ev[i as int].1));
            return;
        }
        i = i + 1;
    }
    assert(ev.skip(i as int).len() == 0);
    push_all(s, "nil");
}

impl Expression {
    /// The written form of the expression: what the language prints for it.
    pub fn to_string(&self) -> (s: String)
        ensures
            s@ == show(self@),
    {
        let mut s = String::new();
        push_shown(&mut s, self);
        assert(s@ =~= show(self@));
        s
    }
}

} // verus!
