use vstd::prelude::*;
use crate::expression::{
    Call, ExprMap, Expression, SpecExpression, SpecPairs, exprs_view, lemma_exprs_view_push,
};
use crate::mapping::map_insert;
use crate::token::{SpecToken, Token, strings_view, tokens_view};

verus! {

/// What a symbol token stands for: `true`, `false` and `nil` are literals.
pub open spec fn symbol_expression(s: Seq<char>) -> SpecExpression {
    if s == seq!['t', 'r', 'u', 'e'] {
        SpecExpression::Bool(true)
    } else if s == seq!['f', 'a', 'l', 's', 'e'] {
        SpecExpression::Bool(false)
    } else if s == seq!['n', 'i', 'l'] {
        SpecExpression::Nil
    } else {
        SpecExpression::Symbol(s)
    }
}

/// The expression at the start of `ts`, with the number of tokens left after it;
/// `None` where the tokens do not start an expression (no token, or a closing
/// delimiter where an expression must start).
pub open spec fn spec_parse(ts: Seq<SpecToken>) -> Option<(nat, SpecExpression)>
    decreases ts.len(), 0nat,
{
    if ts.len() == 0 {
        None
    } else {
        let left = (ts.len() - 1) as nat;
        match ts[0] {
            SpecToken::Symbol(s) => Some((left, symbol_expression(s))),
            SpecToken::NamespacedSymbol(v) => Some((left, SpecExpression::NamespacedSymbol(v))),
            SpecToken::Keyword(s) => Some((left, SpecExpression::Keyword(s))),
            SpecToken::String(s) => Some((left, SpecExpression::String(s))),
            SpecToken::Integer(i) => Some((left, SpecExpression::Integer(i))),
            SpecToken::Float(f) => Some((left, SpecExpression::Float(f))),
            SpecToken::Ratio(n, d) => Some((left, SpecExpression::Ratio(n, d))),
            SpecToken::LeftParen => spec_parse_call(ts.skip(1)),
            SpecToken::LeftBracket => match spec_parse_elems(ts.skip(1), SpecToken::RightBracket, seq![]) {
                Some((r, es)) => Some((r, SpecExpression::Array(es))),
                None => None,
            },
            SpecToken::LeftBrace => match spec_parse_pairs(ts.skip(1), seq![]) {
                Some((r, m)) => Some((r, SpecExpression::Mapping(m))),
                None => None,
            },
            SpecToken::Quote => match spec_parse_inner(ts.skip(1)) {
                Some((r, e)) => Some((r, SpecExpression::Quote(Box::new(e)))),
                None => None,
            },
            SpecToken::Deref => match spec_parse_inner(ts.skip(1)) {
                Some((r, e)) => Some((r, SpecExpression::Deref(Box::new(e)))),
                None => None,
            },
            _ => None,
        }
    }
}

/// The expression that a quote or a deref applies to.
pub open spec fn spec_parse_inner(ts: Seq<SpecToken>) -> Option<(nat, SpecExpression)>
    decreases ts.len(), 1nat,
{
    spec_parse(ts)
}

/// A call whose opening parenthesis has been read: the function, then the arguments
/// up to the closing parenthesis or the end of the tokens.
pub open spec fn spec_parse_call(ts: Seq<SpecToken>) -> Option<(nat, SpecExpression)>
    decreases ts.len(), 1nat,
{
    match spec_parse(ts) {
        Some((r, f)) => if r < ts.len() {
            match spec_parse_elems(ts.skip(ts.len() - r), SpecToken::RightParen, seq![]) {
                Some((r2, args)) => Some((r2, SpecExpression::Call(Box::new(f), args))),
                None => None,
            }
        } else {
            None
        },
        None => None,
    }
}

/// Expressions appended to `acc` up to `closer` (which is consumed) or the end of the
/// tokens, with the number of tokens left.
pub open spec fn spec_parse_elems(ts: Seq<SpecToken>, closer: SpecToken, acc: Seq<SpecExpression>) -> Option<(nat, Seq<SpecExpression>)>
    decreases ts.len(), 1nat,
{
    if ts.len() == 0 {
        Some((0, acc))
    } else if ts[0] == closer {
        Some(((ts.len() - 1) as nat, acc))
    } else {
        match spec_parse(ts) {
            Some((r, e)) => if r < ts.len() {
                spec_parse_elems(ts.skip(ts.len() - r), closer, acc.push(e))
            } else {
                None
            },
            None => None,
        }
    }
}

/// Key and value pairs inserted into `acc` up to a closing brace (which is consumed) or
/// the end of the tokens, with the number of tokens left.
pub open spec fn spec_parse_pairs(ts: Seq<SpecToken>, acc: SpecPairs) -> Option<(nat, SpecPairs)>
    decreases ts.len(), 1nat,
{
    if ts.len() == 0 {
        Some((0, acc))
    } else if ts[0] == SpecToken::RightBrace {
        Some(((ts.len() - 1) as nat, acc))
    } else {
        match spec_parse(ts) {
            Some((r, k)) => if r < ts.len() {
                let rest = ts.skip(ts.len() - r);
                match spec_parse_inner(rest) {
                    Some((r2, v)) => if r2 < rest.len() {
                        spec_parse_pairs(rest.skip(rest.len() - r2), map_insert(acc, k, v))
                    } else {
                        None
                    },
                    None => None,
                }
            } else {
                None
            },
            None => None,
        }
    }
}

/// Every expression of `ts`, one after the other, where each one parses.
pub open spec fn spec_parse_all(ts: Seq<SpecToken>) -> Option<Seq<SpecExpression>>
    decreases ts.len(),
{
    if ts.len() == 0 {
        Some(seq![])
    } else {
        match spec_parse(ts) {
            Some((r, e)) => if r < ts.len() {
                match spec_parse_all(ts.skip(ts.len() - r)) {
                    Some(es) => Some(seq![e] + es),
                    None => None,
                }
            } else {
                None
            },
            None => None,
        }
    }
}

proof fn lemma_skip_skip(s: Seq<SpecToken>, a: int, b: int)
    requires
        0 <= a,
        0 <= b,
        a + b <= s.len(),
    ensures
        s.skip(a).skip(b) == s.skip(a + b),
{
    assert(s.skip(a).skip(b) =~= s.skip(a + b));
}

proof fn lemma_view_skip(tokens: Seq<Token>, pos: int)
    requires
        0 <= pos <= tokens.len(),
    ensures
        tokens_view(tokens).skip(pos).len() == tokens.len() - pos,
        pos < tokens.len() ==> tokens_view(tokens).skip(pos)[0] == tokens[pos]@,
{
}

/// The expression that a symbol token stands for.
fn symbol(s: &String) -> (e: Expression)
    ensures
        e@ == symbol_expression(s@),
{
    let t = "true";
    let f = "false";
    let n = "nil";
    proof {
        reveal_strlit("true");
        reveal_strlit("false");
        reveal_strlit("nil");
        assert(t@ =~= seq!['t', 'r', 'u', 'e']);
        assert(f@ =~= seq!['f', 'a', 'l', 's', 'e']);
        assert(n@ =~= seq!['n', 'i', 'l']);
    }
    if crate::expression::compare_strings(s, &t.to_string()) == 0 {
        proof { crate::mapping::lemma_order_chars_zero(s@, t@); }
        Expression::Bool(true)
    } else if crate::expression::compare_strings(s, &f.to_string()) == 0 {
        proof {
            crate::mapping::lemma_order_chars_zero(s@, t@);
            crate::mapping::lemma_order_chars_zero(s@, f@);
        }
        Expression::Bool(false)
    } else if crate::expression::compare_strings(s, &n.to_string()) == 0 {
        proof {
            crate::mapping::lemma_order_chars_zero(s@, t@);
            crate::mapping::lemma_order_chars_zero(s@, f@);
            crate::mapping::lemma_order_chars_zero(s@, n@);
        }
        Expression::Nil
    } else {
        proof {
            crate::mapping::lemma_order_chars_zero(s@, t@);
            crate::mapping::lemma_order_chars_zero(s@, f@);
            crate::mapping::lemma_order_chars_zero(s@, n@);
        }
        Expression::Symbol(s.clone())
    }
}

/// The expression that starts at `pos`, with the position after it.
fn parse_at(tokens: &[Token], pos: usize) -> (r: Option<(usize, Expression)>)
    requires
        pos <= tokens.len(),
    ensures
        match r {
            Some((p, e)) => pos < p <= tokens.len() && spec_parse(tokens_view(tokens@).skip(pos as int))
                == Some(((tokens.len() - p) as nat, e@)),
            None => spec_parse(tokens_view(tokens@).skip(pos as int)) is None,
        },
    decreases tokens.len() - pos, 0nat,
{
    let ghost ts = tokens_view(tokens@).skip(pos as int);
    proof {
        lemma_view_skip(tokens@, pos as int);
        if pos < tokens.len() {
            lemma_skip_skip(tokens_view(tokens@), pos as int, 1);
        }
    }
    if pos >= tokens.len() {
        return None;
    }
    let next = pos + 1;
    match &tokens[pos] {
        Token::Symbol(s) => Some((next, symbol(s))),
        Token::NamespacedSymbol(v) => {
            let w = crate::strings::copy_strings(v);
            assert(strings_view(w@) =~= strings_view(v@));
            Some((next, Expression::NamespacedSymbol(w)))
        },
        Token::Keyword(s) => Some((next, Expression::Keyword(s.clone()))),
        Token::String(s) => Some((next, Expression::String(s.clone()))),
        Token::Integer(i) => Some((next, Expression::Integer(i.clone()))),
        Token::Float(f) => Some((next, Expression::Float(f.clone()))),
        Token::Ratio(q) => Some((next, Expression::Ratio(q.clone()))),
        Token::LeftParen => parse_call(tokens, next),
        Token::LeftBracket => match parse_elems(tokens, next, false) {
            Some((p, es)) => Some((p, Expression::Array(es))),
            None => None,
        },
        Token::LeftBrace => match parse_pairs(tokens, next) {
            Some((p, m)) => Some((p, Expression::Mapping(m))),
            None => None,
        },
        Token::Quote => match parse_inner(tokens, next) {
            Some((p, e)) => Some((p, Expression::Quote(Box::new(e)))),
            None => None,
        },
        Token::Deref => match parse_inner(tokens, next) {
            Some((p, e)) => Some((p, Expression::Deref(Box::new(e)))),
            None => None,
        },
        _ => None,
    }
}

fn parse_inner(tokens: &[Token], pos: usize) -> (r: Option<(usize, Expression)>)
    requires
        pos <= tokens.len(),
    ensures
        match r {
            Some((p, e)) => pos < p <= tokens.len() && spec_parse_inner(tokens_view(tokens@).skip(pos as int))
                == Some(((tokens.len() - p) as nat, e@)),
            None => spec_parse_inner(tokens_view(tokens@).skip(pos as int)) is None,
        },
    decreases tokens.len() - pos, 1nat,
{
    parse_at(tokens, pos)
}

fn parse_call(tokens: &[Token], pos: usize) -> (r: Option<(usize, Expression)>)
    requires
        pos <= tokens.len(),
    ensures
        match r {
            Some((p, e)) => pos < p <= tokens.len() && spec_parse_call(tokens_view(tokens@).skip(pos as int))
                == Some(((tokens.len() - p) as nat, e@)),
            None => spec_parse_call(tokens_view(tokens@).skip(pos as int)) is None,
        },
    decreases tokens.len() - pos, 1nat,
{
    let ghost ts = tokens_view(tokens@).skip(pos as int);
    match parse_at(tokens, pos) {
        Some((p, f)) => {
            proof {
                lemma_view_skip(tokens@, pos as int);
                lemma_skip_skip(tokens_view(tokens@), pos as int, (p - pos) as int);
            }
            match parse_elems(tokens, p, true) {
                Some((q, args)) => Some((q, Expression::Call(Call { function: Box::new(f), arguments: args }))),
                None => None,
            }
        },
        None => None,
    }
}

/// The closing token of an array (`false`) or of a call (`true`).
pub open spec fn closer(paren: bool) -> SpecToken {
    if paren { SpecToken::RightParen } else { SpecToken::RightBracket }
}

fn is_closer(t: &Token, paren: bool) -> (b: bool)
    ensures
        b == (t@ == closer(paren)),
{
    match t {
        Token::RightParen => paren,
        Token::RightBracket => !paren,
        _ => false,
    }
}

fn parse_elems(tokens: &[Token], pos: usize, paren: bool) -> (r: Option<(usize, Vec<Expression>)>)
    requires
        pos <= tokens.len(),
    ensures
        match r {
            Some((p, es)) => pos <= p <= tokens.len() && spec_parse_elems(tokens_view(tokens@).skip(pos as int), closer(paren), seq![])
                == Some(((tokens.len() - p) as nat, exprs_view(es@))),
            None => spec_parse_elems(tokens_view(tokens@).skip(pos as int), closer(paren), seq![]) is None,
        },
    decreases tokens.len() - pos, 1nat,
{
    let ghost all = tokens_view(tokens@);
    let mut acc: Vec<Expression> = Vec::new();
    let mut i = pos;
    proof {
        assert(exprs_view(acc@) =~= Seq::<SpecExpression>::empty());
    }
    while i < tokens.len()
        invariant
            pos <= i <= tokens.len(),
            all == tokens_view(tokens@),
            spec_parse_elems(all.skip(pos as int), closer(paren), seq![])
                == spec_parse_elems(all.skip(i as int), closer(paren), exprs_view(acc@)),
        decreases tokens.len() - i,
    {
        proof {
            lemma_view_skip(tokens@, i as int);
        }
        if is_closer(&tokens[i], paren) {
            return Some((i + 1, acc));
        }
        match parse_at(tokens, i) {
            Some((p, e)) => {
                proof {
                    lemma_skip_skip(all, i as int, (p - i) as int);
                    lemma_exprs_view_push(acc@, e);
                }
                acc.push(e);
                i = p;
            },
            None => {
                return None;
            },
        }
    }
    proof {
        lemma_view_skip(tokens@, i as int);
    }
    Some((i, acc))
}

fn parse_pairs(tokens: &[Token], pos: usize) -> (r: Option<(usize, ExprMap)>)
    requires
        pos <= tokens.len(),
    ensures
        match r {
            Some((p, m)) => pos <= p <= tokens.len() && spec_parse_pairs(tokens_view(tokens@).skip(pos as int), seq![])
                == Some(((tokens.len() - p) as nat, m@)),
            None => spec_parse_pairs(tokens_view(tokens@).skip(pos as int), seq![]) is None,
        },
    decreases tokens.len() - pos, 1nat,
{
    let ghost all = tokens_view(tokens@);
    let mut acc = ExprMap::new();
    let mut i = pos;
    while i < tokens.len()
        invariant
            pos <= i <= tokens.len(),
            all == tokens_view(tokens@),
            spec_parse_pairs(all.skip(pos as int), seq![]) == spec_parse_pairs(all.skip(i as int), acc@),
        decreases tokens.len() - i,
    {
        proof {
            lemma_view_skip(tokens@, i as int);
        }
        if let Token::RightBrace = &tokens[i] {
            return Some((i + 1, acc));
        }
        match parse_at(tokens, i) {
            Some((p, k)) => {
                proof {
                    lemma_skip_skip(all, i as int, (p - i) as int);
                    lemma_view_skip(tokens@, p as int);
                }
                match parse_inner(tokens, p) {
                    Some((q, v)) => {
                        proof {
                            lemma_skip_skip(all, p as int, (q - p) as int);
                        }
                        acc.insert(k, v);
                        i = q;
                    },
                    None => {
                        return None;
                    },
                }
            },
            None => {
                return None;
            },
        }
    }
    proof {
        lemma_view_skip(tokens@, i as int);
    }
    Some((i, acc))
}

/// The expression at the start of `tokens` and the number of tokens it takes up, or
/// `None` where the tokens do not start an expression.
pub fn try_parse(tokens: &[Token]) -> (r: Option<(usize, Expression)>)
    ensures
        match r {
            Some((n, e)) => 0 < n <= tokens.len() && spec_parse(tokens_view(tokens@))
                == Some(((tokens.len() - n) as nat, e@)),
            None => spec_parse(tokens_view(tokens@)) is None,
        },
{
    assert(tokens_view(tokens@).skip(0) =~= tokens_view(tokens@));
    parse_at(tokens, 0)
}

/// The expression at the start of `tokens` and the tokens after it.
pub fn parse(tokens: &[Token]) -> (r: (&[Token], Expression))
    requires
        spec_parse(tokens_view(tokens@)) is Some,
    ensures
        r.0@ == tokens@.skip(tokens.len() - (spec_parse(tokens_view(tokens@))->0).0),
        r.1@ == (spec_parse(tokens_view(tokens@))->0).1,
{
    match try_parse(tokens) {
        Some((n, e)) => (vstd::slice::slice_subrange(tokens, n, tokens.len()), e),
        None => (tokens, Expression::Nil),
    }
}

/// Every expression of `tokens`, one after the other, or `None` where one of them
/// does not parse.
pub fn try_parse_all(tokens: &[Token]) -> (r: Option<Vec<Expression>>)
    ensures
        match r {
            Some(es) => spec_parse_all(tokens_view(tokens@)) == Some(exprs_view(es@)),
            None => spec_parse_all(tokens_view(tokens@)) is None,
        },
{
    let ghost all = tokens_view(tokens@);
    let mut out: Vec<Expression> = Vec::new();
    let mut i: usize = 0;
    proof {
        assert(all.skip(0) =~= all);
        assert(exprs_view(out@) =~= Seq::<SpecExpression>::empty());
    }
    while i < tokens.len()
        invariant
            i <= tokens.len(),
            all == tokens_view(tokens@),
            spec_parse_all(all) == match spec_parse_all(all.skip(i as int)) {
                Some(es) => Some(exprs_view(out@) + es),
                None => None::<Seq<SpecExpression>>,
            },
        decreases tokens.len() - i,
    {
        proof {
            lemma_view_skip(tokens@, i as int);
        }
        match parse_at(tokens, i) {
            Some((p, e)) => {
                proof {
                    lemma_skip_skip(all, i as int, (p - i) as int);
                    lemma_exprs_view_push(out@, e);
                    match spec_parse_all(all.skip(p as int)) {
                        Some(es) => {
                            assert(exprs_view(out@) + (seq![e@] + es) =~= exprs_view(out@).push(e@) + es);
                        },
                        None => {},
                    }
                }
                out.push(e);
                i = p;
            },
            None => {
                return None;
            },
        }
    }
    proof {
        lemma_view_skip(tokens@, i as int);
        assert(exprs_view(out@) + Seq::<SpecExpression>::empty() =~= exprs_view(out@));
    }
    Some(out)
}

/// Every expression of `tokens`, one after the other; each one must parse.
pub fn parse_all(tokens: &[Token]) -> (r: Vec<Expression>)
    requires
        spec_parse_all(tokens_view(tokens@)) is Some,
    ensures
        exprs_view(r@) == spec_parse_all(tokens_view(tokens@))->0,
{
    match try_parse_all(tokens) {
        Some(es) => es,
        None => Vec::new(),
    }
}

/// Writing a character escaped and then the rest of a string escaped is writing the
/// whole string escaped.
proof fn lemma_escape_all_cons(c: char, s: Seq<char>)
    ensures
        crate::printer::escape_all(seq![c] + s) == crate::printer::escaped(c) + crate::printer::escape_all(s),
    decreases s.len(),
{
    let t = seq![c] + s;
    if s.len() == 0 {
        assert(t.drop_last() =~= Seq::<char>::empty());
        assert(t.last() == c);
        assert(crate::printer::escape_all(Seq::<char>::empty()) =~= Seq::<char>::empty());
        assert(crate::printer::escape_all(s) =~= Seq::<char>::empty());
        assert(Seq::<char>::empty() + crate::printer::escaped(c) =~= crate::printer::escaped(c) + Seq::<char>::empty());
    } else {
        assert(t.drop_last() =~= seq![c] + s.drop_last());
        assert(t.last() == s.last());
        lemma_escape_all_cons(c, s.drop_last());
        assert(crate::printer::escaped(c) + crate::printer::escape_all(s.drop_last()) + crate::printer::escaped(s.last())
            =~= crate::printer::escaped(c) + (crate::printer::escape_all(s.drop_last()) + crate::printer::escaped(s.last())));
    }
}

/// Reading the body of a string literal written by the printer gives back the string,
/// and stops just after the closing quote.
proof fn lemma_scan_escaped(s: Seq<char>, u: Seq<char>)
    ensures
        crate::lexer_spec::string_scan(crate::printer::escape_all(s) + seq!['"'] + u)
            == (s, (crate::printer::escape_all(s).len() + 1) as nat),
    decreases s.len(),
{
    let w = crate::printer::escape_all(s) + seq!['"'] + u;
    if s.len() == 0 {
        assert(crate::printer::escape_all(s) =~= Seq::<char>::empty());
        assert(w[0] == '"');
    } else {
        let c = s[0];
        let r = s.skip(1);
        assert(s =~= seq![c] + r);
        lemma_escape_all_cons(c, r);
        lemma_scan_escaped(r, u);
        let e = crate::printer::escaped(c);
        let tail = crate::printer::escape_all(r) + seq!['"'] + u;
        assert(w =~= e + tail);
        if e.len() == 2 {
            assert(w[0] == '\\');
            assert(w.skip(2) =~= tail);
            assert(crate::lexer_spec::escape(w[1]) =~= seq![c]);
        } else {
            assert(e =~= seq![c]);
            assert(w[0] == c);
            assert(w.skip(1) =~= tail);
        }
        assert(seq![c] + r =~= s);
    }
}

/// Reading back the printed form of a string gives the same string: its escapes are
/// undone, and the literal is one token.
pub proof fn law_string_reads_back(s: Seq<char>)
    ensures
        crate::lexer_spec::spec_tokenize(crate::printer::show(SpecExpression::String(s)))
            == Some(seq![SpecToken::String(s)]),
        spec_parse(seq![SpecToken::String(s)]) == Some((0nat, SpecExpression::String(s))),
{
    let w = crate::printer::show(SpecExpression::String(s));
    let body = crate::printer::escape_all(s);
    assert(w == seq!['"'] + body + seq!['"']);
    assert(w.skip(1) =~= body + seq!['"'] + Seq::<char>::empty());
    lemma_scan_escaped(s, Seq::<char>::empty());
    assert(w.skip(w.len() as int) =~= Seq::<char>::empty());
    assert(crate::lexer_spec::spec_step(w) == Some(((body.len() + 2) as nat, seq![SpecToken::String(s)])));
    assert(crate::lexer_spec::spec_tokenize(Seq::<char>::empty()) == Some(Seq::<SpecToken>::empty()));
    assert(seq![SpecToken::String(s)] + Seq::<SpecToken>::empty() =~= seq![SpecToken::String(s)]);
}

/// The expression at the start of `ts` is complete: every list it opens is closed
/// before the tokens end, so the tokens after it play no part in reading it.
pub open spec fn closed_parse(ts: Seq<SpecToken>) -> bool
    decreases ts.len(), 0nat,
{
    if ts.len() == 0 {
        false
    } else {
        match ts[0] {
            SpecToken::Symbol(_) | SpecToken::NamespacedSymbol(_) | SpecToken::Keyword(_)
            | SpecToken::String(_) | SpecToken::Integer(_) | SpecToken::Float(_)
            | SpecToken::Ratio(_, _) => true,
            SpecToken::LeftParen => closed_call(ts.skip(1)),
            SpecToken::LeftBracket => closed_elems(ts.skip(1), SpecToken::RightBracket),
            SpecToken::LeftBrace => closed_pairs(ts.skip(1)),
            SpecToken::Quote | SpecToken::Deref => closed_parse(ts.skip(1)),
            _ => false,
        }
    }
}

/// A call after its opening parenthesis is complete.
pub open spec fn closed_call(ts: Seq<SpecToken>) -> bool
    decreases ts.len(), 1nat,
{
    closed_parse(ts) && match spec_parse(ts) {
        Some((r, _)) => r < ts.len() && closed_elems(ts.skip(ts.len() - r), SpecToken::RightParen),
        None => false,
    }
}

/// The elements of a list up to `closer` are complete and the closer is there.
pub open spec fn closed_elems(ts: Seq<SpecToken>, closer: SpecToken) -> bool
    decreases ts.len(), 1nat,
{
    ts.len() > 0 && (ts[0] == closer || (closed_parse(ts) && match spec_parse(ts) {
        Some((r, _)) => r < ts.len() && closed_elems(ts.skip(ts.len() - r), closer),
        None => false,
    }))
}

/// The entries of a map up to its closing brace are complete and the brace is there.
pub open spec fn closed_pairs(ts: Seq<SpecToken>) -> bool
    decreases ts.len(), 1nat,
{
    ts.len() > 0 && (ts[0] == SpecToken::RightBrace || (closed_parse(ts) && match spec_parse(ts) {
        Some((r, _)) => r < ts.len() && {
            let rest = ts.skip(ts.len() - r);
            closed_parse(rest) && match spec_parse(rest) {
                Some((r2, _)) => r2 < rest.len() && closed_pairs(rest.skip(rest.len() - r2)),
                None => false,
            }
        },
        None => false,
    }))
}

/// Tokens that are a sequence of complete expressions.
pub open spec fn closed_all(ts: Seq<SpecToken>) -> bool
    decreases ts.len(),
{
    ts.len() == 0 || (closed_parse(ts) && match spec_parse(ts) {
        Some((r, _)) => r < ts.len() && closed_all(ts.skip(ts.len() - r)),
        None => false,
    })
}

/// A reading result with `n` more tokens left after it.
pub open spec fn shifted<T>(r: Option<(nat, T)>, n: nat) -> Option<(nat, T)> {
    match r {
        Some((k, x)) => Some(((k + n) as nat, x)),
        None => None,
    }
}

proof fn lemma_suffix(ts: Seq<SpecToken>, u: Seq<SpecToken>, k: int)
    requires
        0 <= k <= ts.len(),
    ensures
        (ts + u).skip(k) == ts.skip(k) + u,
{
    assert((ts + u).skip(k) =~= ts.skip(k) + u);
}

proof fn lemma_parse_prefix(ts: Seq<SpecToken>, u: Seq<SpecToken>)
    requires
        closed_parse(ts),
    ensures
        spec_parse(ts) is Some,
        spec_parse(ts + u) == shifted(spec_parse(ts), u.len()),
    decreases ts.len(), 0nat,
{
    let w = ts + u;
    assert(w[0] == ts[0]);
    lemma_suffix(ts, u, 1);
    match ts[0] {
        SpecToken::LeftParen => lemma_call_prefix(ts.skip(1), u),
        SpecToken::LeftBracket => {
            lemma_elems_prefix(ts.skip(1), SpecToken::RightBracket, seq![], u);
        },
        SpecToken::LeftBrace => lemma_pairs_prefix(ts.skip(1), seq![], u),
        SpecToken::Quote | SpecToken::Deref => lemma_parse_prefix(ts.skip(1), u),
        _ => {},
    }
}

proof fn lemma_call_prefix(ts: Seq<SpecToken>, u: Seq<SpecToken>)
    requires
        closed_call(ts),
    ensures
        spec_parse_call(ts) is Some,
        spec_parse_call(ts + u) == shifted(spec_parse_call(ts), u.len()),
    decreases ts.len(), 1nat,
{
    lemma_parse_prefix(ts, u);
    let (r, _) = spec_parse(ts)->0;
    let w = ts + u;
    lemma_suffix(ts, u, ts.len() - r);
    assert(w.len() - (r + u.len()) == ts.len() - r);
    lemma_elems_prefix(ts.skip(ts.len() - r), SpecToken::RightParen, seq![], u);
}

proof fn lemma_elems_prefix(ts: Seq<SpecToken>, closer: SpecToken, acc: Seq<SpecExpression>, u: Seq<SpecToken>)
    requires
        closed_elems(ts, closer),
    ensures
        spec_parse_elems(ts, closer, acc) is Some,
        spec_parse_elems(ts + u, closer, acc) == shifted(spec_parse_elems(ts, closer, acc), u.len()),
    decreases ts.len(), 1nat,
{
    let w = ts + u;
    assert(w[0] == ts[0]);
    if ts[0] != closer {
        lemma_parse_prefix(ts, u);
        let (r, e) = spec_parse(ts)->0;
        lemma_suffix(ts, u, ts.len() - r);
        assert(w.len() - (r + u.len()) == ts.len() - r);
        lemma_elems_prefix(ts.skip(ts.len() - r), closer, acc.push(e), u);
    }
}

proof fn lemma_pairs_prefix(ts: Seq<SpecToken>, acc: SpecPairs, u: Seq<SpecToken>)
    requires
        closed_pairs(ts),
    ensures
        spec_parse_pairs(ts, acc) is Some,
        spec_parse_pairs(ts + u, acc) == shifted(spec_parse_pairs(ts, acc), u.len()),
    decreases ts.len(), 1nat,
{
    let w = ts + u;
    assert(w[0] == ts[0]);
    if ts[0] != SpecToken::RightBrace {
        lemma_parse_prefix(ts, u);
        let (r, k) = spec_parse(ts)->0;
        let rest = ts.skip(ts.len() - r);
        lemma_suffix(ts, u, ts.len() - r);
        assert(w.len() - (r + u.len()) == ts.len() - r);
        let wrest = w.skip(w.len() - (r + u.len()));
        assert(wrest == rest + u);
        lemma_parse_prefix(rest, u);
        assert(spec_parse_inner(rest) == spec_parse(rest));
        assert(spec_parse_inner(wrest) == spec_parse(wrest));
        let (r2, v) = spec_parse(rest)->0;
        lemma_suffix(rest, u, rest.len() - r2);
        assert(wrest.len() - (r2 + u.len()) == rest.len() - r2);
        lemma_pairs_prefix(rest.skip(rest.len() - r2), map_insert(acc, k, v), u);
        assert(r2 < rest.len());
        assert(spec_parse_pairs(ts, acc) == spec_parse_pairs(rest.skip(rest.len() - r2), map_insert(acc, k, v)));
        assert(spec_parse_pairs(w, acc) == spec_parse_pairs(wrest.skip(wrest.len() - (r2 + u.len())), map_insert(acc, k, v)));
    }
}

/// Reading a sequence of complete expressions followed by more tokens reads the
/// expressions, then what the tokens after them hold: the reading of the whole is the
/// readings of the parts one after the other.
pub proof fn law_parse_all_concatenation(t1: Seq<SpecToken>, t2: Seq<SpecToken>)
    requires
        closed_all(t1),
    ensures
        spec_parse_all(t1) is Some,
        spec_parse_all(t1 + t2) == match spec_parse_all(t2) {
            Some(es2) => Some(spec_parse_all(t1)->0 + es2),
            None => None::<Seq<SpecExpression>>,
        },
    decreases t1.len(),
{
    if t1.len() == 0 {
        assert(t1 + t2 =~= t2);
        assert(Seq::<SpecExpression>::empty() + spec_parse_all(t2)->0 =~= spec_parse_all(t2)->0);
    } else {
        lemma_parse_prefix(t1, t2);
        let (r, e) = spec_parse(t1)->0;
        let w = t1 + t2;
        lemma_suffix(t1, t2, t1.len() - r);
        assert(w.len() - (r + t2.len()) == t1.len() - r);
        let rest = t1.skip(t1.len() - r);
        law_parse_all_concatenation(rest, t2);
        if let Some(es2) = spec_parse_all(t2) {
            assert(seq![e] + (spec_parse_all(rest)->0 + es2) =~= (seq![e] + spec_parse_all(rest)->0) + es2);
        }
    }
}

proof fn lemma_unreserved_all(w: Seq<char>)
    requires
        forall|i: int| 0 <= i < w.len() ==> !crate::lexer_spec::spec_reserved(#[trigger] w[i]),
    ensures
        crate::lexer_spec::unreserved_len(w) == w.len(),
    decreases w.len(),
{
    if w.len() > 0 {
        let t = w.skip(1);
        assert forall|i: int| 0 <= i < t.len() implies !crate::lexer_spec::spec_reserved(#[trigger] t[i]) by {
            assert(t[i] == w[i + 1]);
        }
        lemma_unreserved_all(t);
    }
}

proof fn lemma_split_single(w: Seq<char>)
    requires
        forall|i: int| 0 <= i < w.len() ==> #[trigger] w[i] != '/',
    ensures
        crate::lexer_spec::split_slash(w) == seq![w],
    decreases w.len(),
{
    if w.len() == 0 {
        assert(w =~= Seq::<char>::empty());
    } else {
        let d = w.drop_last();
        assert forall|i: int| 0 <= i < d.len() implies #[trigger] d[i] != '/' by {
            assert(d[i] == w[i]);
        }
        lemma_split_single(d);
        assert(w.last() == w[w.len() - 1]);
        assert(d.push(w.last()) =~= w);
        assert(seq![d].update(0, seq![d].last().push(w.last())) =~= seq![w]);
    }
}

/// A word the reader takes as one symbol: no character that ends a symbol or splits a
/// namespace, and a first character that starts nothing else (a number, a quote, ...).
pub open spec fn plain_word(w: Seq<char>) -> bool {
    &&& w.len() > 0
    &&& forall|i: int| 0 <= i < w.len() ==> !crate::lexer_spec::spec_reserved(#[trigger] w[i]) && w[i] != '/'
    &&& w[0] != '@' && w[0] != '\'' && w[0] != ';' && w[0] != '-' && !crate::numerics::is_digit(w[0])
}

/// A plain word reads as one symbol token, which the parser reads as the symbol's
/// expression.
pub proof fn law_plain_word_reads_back(w: Seq<char>)
    requires
        plain_word(w),
    ensures
        crate::lexer_spec::spec_tokenize(w) == Some(seq![SpecToken::Symbol(w)]),
        spec_parse(seq![SpecToken::Symbol(w)]) == Some((0nat, symbol_expression(w))),
{
    assert forall|i: int| 0 <= i < w.len() implies !crate::lexer_spec::spec_reserved(#[trigger] w[i]) by {}
    assert forall|i: int| 0 <= i < w.len() implies #[trigger] w[i] != '/' by {}
    lemma_unreserved_all(w);
    lemma_split_single(w);
    assert(w.take(w.len() as int) =~= w);
    assert(w.skip(w.len() as int) =~= Seq::<char>::empty());
    assert(crate::lexer_spec::spec_step(w) == Some((w.len(), seq![SpecToken::Symbol(w)])));
    assert(crate::lexer_spec::spec_tokenize(Seq::<char>::empty()) == Some(Seq::<SpecToken>::empty()));
    assert(crate::lexer_spec::spec_tokenize(w.skip(w.len() as int)) == Some(Seq::<SpecToken>::empty()));
    assert(seq![SpecToken::Symbol(w)] + Seq::<SpecToken>::empty() =~= seq![SpecToken::Symbol(w)]);
}

/// Printing a boolean or `nil` and reading the text back gives the same value.
pub proof fn law_literals_read_back(b: bool)
    ensures
        crate::lexer_spec::spec_tokenize(crate::printer::show(SpecExpression::Bool(b)))
            == Some(seq![SpecToken::Symbol(crate::printer::show(SpecExpression::Bool(b)))]),
        symbol_expression(crate::printer::show(SpecExpression::Bool(b))) == SpecExpression::Bool(b),
        crate::lexer_spec::spec_tokenize(crate::printer::show(SpecExpression::Nil))
            == Some(seq![SpecToken::Symbol(crate::printer::show(SpecExpression::Nil))]),
        symbol_expression(crate::printer::show(SpecExpression::Nil)) == SpecExpression::Nil,
{
    reveal_strlit("true");
    reveal_strlit("false");
    reveal_strlit("nil");
    let t = "true"@;
    let f = "false"@;
    let n = "nil"@;
    assert(t =~= seq!['t', 'r', 'u', 'e']);
    assert(f =~= seq!['f', 'a', 'l', 's', 'e']);
    assert(n =~= seq!['n', 'i', 'l']);
    assert forall|i: int| 0 <= i < t.len() implies !crate::lexer_spec::spec_reserved(#[trigger] t[i]) && t[i] != '/' by {
        if i == 0 {} else if i == 1 {} else if i == 2 {} else {}
    }
    assert forall|i: int| 0 <= i < f.len() implies !crate::lexer_spec::spec_reserved(#[trigger] f[i]) && f[i] != '/' by {
        if i == 0 {} else if i == 1 {} else if i == 2 {} else if i == 3 {} else {}
    }
    assert forall|i: int| 0 <= i < n.len() implies !crate::lexer_spec::spec_reserved(#[trigger] n[i]) && n[i] != '/' by {
        if i == 0 {} else if i == 1 {} else {}
    }
    assert(plain_word(t));
    assert(plain_word(f));
    assert(plain_word(n));
    law_plain_word_reads_back(t);
    law_plain_word_reads_back(f);
    law_plain_word_reads_back(n);
    assert(t != f && t != n && f != n);
}

/// A keyword whose name holds no character that ends a keyword reads back as itself.
pub proof fn law_keyword_reads_back(name: Seq<char>)
    requires
        forall|i: int| 0 <= i < name.len() ==> !crate::lexer_spec::spec_reserved(#[trigger] name[i]),
    ensures
        crate::lexer_spec::spec_tokenize(crate::printer::show(SpecExpression::Keyword(seq![':'] + name)))
            == Some(seq![SpecToken::Keyword(seq![':'] + name)]),
        spec_parse(seq![SpecToken::Keyword(seq![':'] + name)]) == Some((0nat, SpecExpression::Keyword(seq![':'] + name))),
{
    let k = seq![':'] + name;
    assert(crate::printer::show(SpecExpression::Keyword(k)) == k);
    lemma_unreserved_all(name);
    assert(k.skip(1) =~= name);
    assert(name.take(name.len() as int) =~= name);
    assert(k.skip(k.len() as int) =~= Seq::<char>::empty());
    assert(crate::lexer_spec::spec_step(k) == Some((k.len(), seq![SpecToken::Keyword(k)])));
    assert(crate::lexer_spec::spec_tokenize(Seq::<char>::empty()) == Some(Seq::<SpecToken>::empty()));
    assert(crate::lexer_spec::spec_tokenize(k.skip(k.len() as int)) == Some(Seq::<SpecToken>::empty()));
    assert(seq![SpecToken::Keyword(k)] + Seq::<SpecToken>::empty() =~= seq![SpecToken::Keyword(k)]);
}

/// The digits of a natural number are decimal digits whose value is the number.
proof fn lemma_decimal_digits(n: nat)
    ensures
        crate::numerics::all_digits(crate::numerics::nat_to_decimal(n)),
        crate::numerics::digits_value(crate::numerics::nat_to_decimal(n)) == n,
    decreases n,
{
    let d = crate::numerics::nat_to_decimal(n);
    if n < 10 {
        let c = crate::numerics::digit_char(n as int);
        assert(c as int == n + ('0' as int));
        assert(d == seq![c]);
        assert(d.drop_last() =~= Seq::<char>::empty());
        assert(d.last() == c);
        assert(crate::numerics::digit_value(c) == n);
        assert(crate::numerics::digits_value(d) == crate::numerics::digits_value(d.drop_last()) * 10 + n);
    } else {
        let h = (n / 10) as nat;
        let r = n % 10;
        lemma_decimal_digits(h);
        let c = crate::numerics::digit_char(r as int);
        assert(c as int == r + ('0' as int));
        let dh = crate::numerics::nat_to_decimal(h);
        assert(d == dh + seq![c]);
        assert(d.drop_last() =~= dh);
        assert(d.last() == c);
        assert(crate::numerics::digit_value(c) == r);
        assert forall|i: int| 0 <= i < d.len() implies crate::numerics::is_digit(#[trigger] d[i]) by {
            if i < dh.len() {
                assert(d[i] == dh[i]);
            } else {
                assert(d[i] == c);
            }
        }
        vstd::arithmetic::div_mod::lemma_fundamental_div_mod(n as int, 10);
        assert(crate::numerics::digits_value(d) == crate::numerics::digits_value(dh) * 10 + r);
        assert(h * 10 + r == n);
    }
}

/// A run of decimal digits is read whole as the text of a number, with no `.`.
proof fn lemma_scan_digits(s: Seq<char>)
    requires
        forall|i: int| 0 <= i < s.len() ==> crate::numerics::is_digit(#[trigger] s[i]),
    ensures
        crate::lexer_spec::number_scan(s, false, true) == (s.len(), s, false),
    decreases s.len(),
{
    if s.len() > 0 {
        let t = s.skip(1);
        assert forall|i: int| 0 <= i < t.len() implies crate::numerics::is_digit(#[trigger] t[i]) by {
            assert(t[i] == s[i + 1]);
        }
        lemma_scan_digits(t);
        assert(crate::numerics::is_digit(s[0]));
        assert(seq![s[0]] + t =~= s);
    }
}

/// Printing an integer and reading the text back gives the same integer.
pub proof fn law_integer_reads_back(i: int)
    ensures
        crate::lexer_spec::spec_tokenize(crate::printer::show(SpecExpression::Integer(i)))
            == Some(seq![SpecToken::Integer(i)]),
        spec_parse(seq![SpecToken::Integer(i)]) == Some((0nat, SpecExpression::Integer(i))),
{
    let text = crate::printer::show(SpecExpression::Integer(i));
    assert(text == crate::numerics::int_to_decimal(i));
    let m: nat = if i < 0 { (-i) as nat } else { i as nat };
    let digits = crate::numerics::nat_to_decimal(m);
    lemma_decimal_digits(m);
    assert(digits.len() > 0);
    assert(forall|k: int| 0 <= k < digits.len() ==> crate::numerics::is_digit(#[trigger] digits[k]));
    lemma_scan_digits(digits);
    assert(digits.skip(digits.len() as int) =~= Seq::<char>::empty());
    assert(crate::lexer_spec::spec_tokenize(Seq::<char>::empty()) == Some(Seq::<SpecToken>::empty()));
    assert(crate::numerics::is_digit(digits[0]));
    if i < 0 {
        assert(text == seq!['-'] + digits);
        assert(text[0] == '-');
        assert(text.skip(1) =~= digits);
        let t = seq!['-'] + digits;
        assert(t.skip(1) =~= digits);
        assert(crate::numerics::is_decimal_literal(t));
        assert(crate::numerics::decimal_value(t) == i);
        assert(crate::lexer_spec::spec_number(digits, true, true) == Some((digits.len(), SpecToken::Integer(i))));
        assert(crate::lexer_spec::spec_negative_number_or_symbol(digits) == Some((digits.len(), SpecToken::Integer(i))));
        assert(crate::lexer_spec::spec_step(text) == Some((digits.len() + 1, seq![SpecToken::Integer(i)])));
        assert(text.skip((digits.len() + 1) as int) =~= Seq::<char>::empty());
    } else {
        assert(text == digits);
        assert(crate::numerics::is_decimal_literal(digits));
        assert(crate::numerics::decimal_value(digits) == i);
        assert(crate::lexer_spec::spec_number(digits, false, true) == Some((digits.len(), SpecToken::Integer(i))));
        assert(crate::lexer_spec::spec_step(text) == Some((digits.len(), seq![SpecToken::Integer(i)])));
    }
    assert(seq![SpecToken::Integer(i)] + Seq::<SpecToken>::empty() =~= seq![SpecToken::Integer(i)]);
}

} // verus!
