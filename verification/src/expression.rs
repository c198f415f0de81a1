use vstd::prelude::*;
use crate::numerics::{Float, Integer, Ratio};
use crate::token::strings_view;

verus! {

/// The functions that the language provides itself.
#[derive(PartialEq, Eq, Structural, Clone, Copy, Debug)]
pub enum Builtin {
    Equal,
    Add,
    Subtract,
    Multiply,
    Divide,
    If,
    Def,
    Fn,
    Defn,
    Eval,
    ReadString,
    Assert,
    Let,
    For,
    Str,
    Bound,
    Do,
    ThreadFirst,
    When,
    Inc,
    Range,
    Assoc,
    Dissoc,
    Merge,
    Get,
    Nth,
    Count,
    SqlConnect,
    SqlString,
    SqlQuery,
    SqlExecute,
    SqlTables,
    IoReadFile,
    IoWriteFile,
    Import,
    HttpGet,
    HttpPost,
    ServerStart,
    ServerStop,
    JsonToString,
    JsonFromString,
    Atom,
    Reset,
    Swap,
    HtmlToString,
}

/// A function call: the function and its (unevaluated) arguments.
#[derive(Debug, PartialEq)]
pub struct Call {
    pub function: Box<Expression>,
    pub arguments: Vec<Expression>,
}

/// One clause of a function: the patterns its arguments must match, and its body.
#[derive(Debug, PartialEq)]
pub struct Pattern {
    pub parameters: Vec<Expression>,
    pub body: Vec<Expression>,
}

/// A function value: the environment it closes over and its clauses.
#[derive(Debug, PartialEq)]
pub struct Function {
    pub env: Environment,
    pub patterns: Vec<Pattern>,
}

/// Bindings from names to values, kept in increasing order of name.
#[derive(Debug, PartialEq)]
pub struct Environment {
    pub entries: Vec<(String, Expression)>,
}

/// A map from expressions to expressions, kept in increasing order of key.
#[derive(Debug, PartialEq)]
pub struct ExprMap {
    pub entries: Vec<(Expression, Expression)>,
}

/// An expression of the language, which is also its data.
#[derive(Debug, PartialEq)]
pub enum Expression {
    Symbol(String),
    NamespacedSymbol(Vec<String>),
    Keyword(String),
    String(String),
    Integer(Integer),
    Float(Float),
    Ratio(Ratio),
    Bool(bool),
    Nil,
    Array(Vec<Expression>),
    Mapping(ExprMap),
    Call(Call),
    Function(Function),
    Quote(Box<Expression>),
    Deref(Box<Expression>),
    NativeFunction(Builtin),
    Module(Environment),
    Atom(usize),
}

/// The mathematical content of an expression.
pub enum SpecExpression {
    Symbol(Seq<char>),
    NamespacedSymbol(Seq<Seq<char>>),
    Keyword(Seq<char>),
    String(Seq<char>),
    Integer(int),
    Float(Seq<char>),
    Ratio(int, int),
    Bool(bool),
    Nil,
    Array(Seq<SpecExpression>),
    Mapping(Seq<(SpecExpression, SpecExpression)>),
    Call(Box<SpecExpression>, Seq<SpecExpression>),
    Function(Seq<(Seq<char>, SpecExpression)>, Seq<(Seq<SpecExpression>, Seq<SpecExpression>)>),
    Quote(Box<SpecExpression>),
    Deref(Box<SpecExpression>),
    NativeFunction(Builtin),
    Module(Seq<(Seq<char>, SpecExpression)>),
    Atom(nat),
}

pub type SpecEnv = Seq<(Seq<char>, SpecExpression)>;

pub type SpecPairs = Seq<(SpecExpression, SpecExpression)>;

pub type SpecPatterns = Seq<(Seq<SpecExpression>, Seq<SpecExpression>)>;

pub open spec fn expr_view(e: &Expression) -> SpecExpression
    decreases e, 0nat,
{
    match e {
        Expression::Symbol(s) => SpecExpression::Symbol(s@),
        Expression::NamespacedSymbol(v) => SpecExpression::NamespacedSymbol(strings_view(v@)),
        Expression::Keyword(s) => SpecExpression::Keyword(s@),
        Expression::String(s) => SpecExpression::String(s@),
        Expression::Integer(i) => SpecExpression::Integer(i.value()),
        Expression::Float(f) => SpecExpression::Float(f.literal_view()),
        Expression::Ratio(r) => SpecExpression::Ratio(r.numer_value(), r.denom_value()),
        Expression::Bool(b) => SpecExpression::Bool(*b),
        Expression::Nil => SpecExpression::Nil,
        Expression::Array(v) => SpecExpression::Array(exprs_view(v@)),
        Expression::Mapping(m) => SpecExpression::Mapping(pairs_view(m.entries@)),
        Expression::Call(c) => SpecExpression::Call(
            Box::new(expr_view(&*c.function)),
            exprs_view(c.arguments@),
        ),
        Expression::Function(f) => SpecExpression::Function(
            env_view(f.env.entries@),
            patterns_view(f.patterns@),
        ),
        Expression::Quote(b) => SpecExpression::Quote(Box::new(expr_view(&**b))),
        Expression::Deref(b) => SpecExpression::Deref(Box::new(expr_view(&**b))),
        Expression::NativeFunction(f) => SpecExpression::NativeFunction(*f),
        Expression::Module(env) => SpecExpression::Module(env_view(env.entries@)),
        Expression::Atom(i) => SpecExpression::Atom(*i as nat),
    }
}

pub open spec fn exprs_view(s: Seq<Expression>) -> Seq<SpecExpression>
    decreases s, 1nat,
{
    if s.len() == 0 {
        seq![]
    } else {
        exprs_view(s.drop_last()).push(expr_view(&s.last()))
    }
}

pub open spec fn pairs_view(s: Seq<(Expression, Expression)>) -> SpecPairs
    decreases s, 1nat,
{
    if s.len() == 0 {
        seq![]
    } else {
        pairs_view(s.drop_last()).push((expr_view(&s.last().0), expr_view(&s.last().1)))
    }
}

pub open spec fn env_view(s: Seq<(String, Expression)>) -> SpecEnv
    decreases s, 1nat,
{
    if s.len() == 0 {
        seq![]
    } else {
        env_view(s.drop_last()).push((s.last().0@, expr_view(&s.last().1)))
    }
}

pub open spec fn patterns_view(s: Seq<Pattern>) -> SpecPatterns
    decreases s, 1nat,
{
    if s.len() == 0 {
        seq![]
    } else {
        patterns_view(s.drop_last()).push(
            (exprs_view(s.last().parameters@), exprs_view(s.last().body@)),
        )
    }
}

impl View for Expression {
    type V = SpecExpression;

    open spec fn view(&self) -> SpecExpression {
        expr_view(self)
    }
}

/// The position of a variant in the declaration of `Expression`, which orders
/// expressions of different kinds.
pub open spec fn rank(e: SpecExpression) -> int {
    match e {
        SpecExpression::Symbol(_) => 0,
        SpecExpression::NamespacedSymbol(_) => 1,
        SpecExpression::Keyword(_) => 2,
        SpecExpression::String(_) => 3,
        SpecExpression::Integer(_) => 4,
        SpecExpression::Float(_) => 5,
        SpecExpression::Ratio(_, _) => 6,
        SpecExpression::Bool(_) => 7,
        SpecExpression::Nil => 8,
        SpecExpression::Array(_) => 9,
        SpecExpression::Mapping(_) => 10,
        SpecExpression::Call(_, _) => 11,
        SpecExpression::Function(_, _) => 12,
        SpecExpression::Quote(_) => 13,
        SpecExpression::Deref(_) => 14,
        SpecExpression::NativeFunction(_) => 15,
        SpecExpression::Module(_) => 16,
        SpecExpression::Atom(_) => 17,
    }
}

pub open spec fn builtin_rank(b: Builtin) -> int {
    match b {
        Builtin::Equal => 0,
        Builtin::Add => 1,
        Builtin::Subtract => 2,
        Builtin::Multiply => 3,
        Builtin::Divide => 4,
        Builtin::If => 5,
        Builtin::Def => 6,
        Builtin::Fn => 7,
        Builtin::Defn => 8,
        Builtin::Eval => 9,
        Builtin::ReadString => 10,
        Builtin::Assert => 11,
        Builtin::Let => 12,
        Builtin::For => 13,
        Builtin::Str => 14,
        Builtin::Bound => 15,
        Builtin::Do => 16,
        Builtin::ThreadFirst => 17,
        Builtin::When => 18,
        Builtin::Inc => 19,
        Builtin::Range => 20,
        Builtin::Assoc => 21,
        Builtin::Dissoc => 22,
        Builtin::Merge => 23,
        Builtin::Get => 24,
        Builtin::Nth => 25,
        Builtin::Count => 26,
        Builtin::SqlConnect => 27,
        Builtin::SqlString => 28,
        Builtin::SqlQuery => 29,
        Builtin::SqlExecute => 30,
        Builtin::SqlTables => 31,
        Builtin::IoReadFile => 32,
        Builtin::IoWriteFile => 33,
        Builtin::Import => 34,
        Builtin::HttpGet => 35,
        Builtin::HttpPost => 36,
        Builtin::ServerStart => 37,
        Builtin::ServerStop => 38,
        Builtin::JsonToString => 39,
        Builtin::JsonFromString => 40,
        Builtin::Atom => 41,
        Builtin::Reset => 42,
        Builtin::Swap => 43,
        Builtin::HtmlToString => 44,
    }
}

/// -1, 0 or 1 as `a` is below, equal to or above `b`.
pub open spec fn sign_of(a: int, b: int) -> int {
    if a < b { -1 } else if a == b { 0 } else { 1 }
}

/// Lexicographic order on character sequences (the order of `String`).
pub open spec fn order_chars(a: Seq<char>, b: Seq<char>) -> int
    decreases a.len(),
{
    if a.len() == 0 && b.len() == 0 {
        0
    } else if a.len() == 0 {
        -1
    } else if b.len() == 0 {
        1
    } else if a[0] != b[0] {
        sign_of(a[0] as int, b[0] as int)
    } else {
        order_chars(a.skip(1), b.skip(1))
    }
}

/// Lexicographic order on sequences of names.
pub open spec fn order_names(a: Seq<Seq<char>>, b: Seq<Seq<char>>) -> int
    decreases a.len(),
{
    if a.len() == 0 && b.len() == 0 {
        0
    } else if a.len() == 0 {
        -1
    } else if b.len() == 0 {
        1
    } else if order_chars(a[0], b[0]) != 0 {
        order_chars(a[0], b[0])
    } else {
        order_names(a.skip(1), b.skip(1))
    }
}

/// The order of expressions: first by kind, in the order the kinds are declared,
/// then by content (numbers by value, sequences lexicographically).
pub open spec fn spec_order(a: SpecExpression, b: SpecExpression) -> int
    decreases a, 0nat,
{
    if rank(a) != rank(b) {
        sign_of(rank(a), rank(b))
    } else {
        match (a, b) {
            (SpecExpression::Symbol(x), SpecExpression::Symbol(y)) => order_chars(x, y),
            (SpecExpression::NamespacedSymbol(x), SpecExpression::NamespacedSymbol(y)) => order_names(x, y),
            (SpecExpression::Keyword(x), SpecExpression::Keyword(y)) => order_chars(x, y),
            (SpecExpression::String(x), SpecExpression::String(y)) => order_chars(x, y),
            (SpecExpression::Integer(x), SpecExpression::Integer(y)) => sign_of(x, y),
            (SpecExpression::Float(x), SpecExpression::Float(y)) => order_chars(x, y),
            (SpecExpression::Ratio(n1, d1), SpecExpression::Ratio(n2, d2)) => sign_of(n1 * d2, n2 * d1),
            (SpecExpression::Bool(x), SpecExpression::Bool(y)) => sign_of(
                if x { 1 } else { 0 },
                if y { 1 } else { 0 },
            ),
            (SpecExpression::Array(x), SpecExpression::Array(y)) => order_exprs(x, y),
            (SpecExpression::Mapping(x), SpecExpression::Mapping(y)) => order_pairs(x, y),
            (SpecExpression::Call(f1, a1), SpecExpression::Call(f2, a2)) => {
                let c = spec_order(*f1, *f2);
                if c != 0 { c } else { order_exprs(a1, a2) }
            },
            (SpecExpression::Function(e1, p1), SpecExpression::Function(e2, p2)) => {
                let c = order_env(e1, e2);
                if c != 0 { c } else { order_patterns(p1, p2) }
            },
            (SpecExpression::Quote(x), SpecExpression::Quote(y)) => spec_order(*x, *y),
            (SpecExpression::Deref(x), SpecExpression::Deref(y)) => spec_order(*x, *y),
            (SpecExpression::NativeFunction(x), SpecExpression::NativeFunction(y)) => sign_of(
                builtin_rank(x),
                builtin_rank(y),
            ),
            (SpecExpression::Module(x), SpecExpression::Module(y)) => order_env(x, y),
            (SpecExpression::Atom(x), SpecExpression::Atom(y)) => sign_of(x as int, y as int),
            _ => 0,
        }
    }
}

pub open spec fn order_exprs(a: Seq<SpecExpression>, b: Seq<SpecExpression>) -> int
    decreases a, 1nat,
{
    if a.len() == 0 && b.len() == 0 {
        0
    } else if a.len() == 0 {
        -1
    } else if b.len() == 0 {
        1
    } else if spec_order(a[0], b[0]) != 0 {
        spec_order(a[0], b[0])
    } else {
        order_exprs(a.skip(1), b.skip(1))
    }
}

pub open spec fn order_pairs(a: SpecPairs, b: SpecPairs) -> int
    decreases a, 1nat,
{
    if a.len() == 0 && b.len() == 0 {
        0
    } else if a.len() == 0 {
        -1
    } else if b.len() == 0 {
        1
    } else if spec_order(a[0].0, b[0].0) != 0 {
        spec_order(a[0].0, b[0].0)
    } else if spec_order(a[0].1, b[0].1) != 0 {
        spec_order(a[0].1, b[0].1)
    } else {
        order_pairs(a.skip(1), b.skip(1))
    }
}

pub open spec fn order_env(a: SpecEnv, b: SpecEnv) -> int
    decreases a, 1nat,
{
    if a.len() == 0 && b.len() == 0 {
        0
    } else if a.len() == 0 {
        -1
    } else if b.len() == 0 {
        1
    } else if order_chars(a[0].0, b[0].0) != 0 {
        order_chars(a[0].0, b[0].0)
    } else if spec_order(a[0].1, b[0].1) != 0 {
        spec_order(a[0].1, b[0].1)
    } else {
        order_env(a.skip(1), b.skip(1))
    }
}

pub open spec fn order_patterns(a: SpecPatterns, b: SpecPatterns) -> int
    decreases a, 1nat,
{
    if a.len() == 0 && b.len() == 0 {
        0
    } else if a.len() == 0 {
        -1
    } else if b.len() == 0 {
        1
    } else if order_exprs(a[0].0, b[0].0) != 0 {
        order_exprs(a[0].0, b[0].0)
    } else if order_exprs(a[0].1, b[0].1) != 0 {
        order_exprs(a[0].1, b[0].1)
    } else {
        order_patterns(a.skip(1), b.skip(1))
    }
}

pub proof fn lemma_exprs_view(s: Seq<Expression>)
    ensures
        exprs_view(s).len() == s.len(),
        forall|i: int| 0 <= i < s.len() ==> #[trigger] exprs_view(s)[i] == expr_view(&s[i]),
    decreases s.len(),
{
    if s.len() > 0 {
        lemma_exprs_view(s.drop_last());
    }
}

pub proof fn lemma_pairs_view(s: Seq<(Expression, Expression)>)
    ensures
        pairs_view(s).len() == s.len(),
        forall|i: int|
            0 <= i < s.len() ==> #[trigger] pairs_view(s)[i] == (expr_view(&s[i].0), expr_view(&s[i].1)),
    decreases s.len(),
{
    if s.len() > 0 {
        lemma_pairs_view(s.drop_last());
    }
}

pub proof fn lemma_env_view(s: Seq<(String, Expression)>)
    ensures
        env_view(s).len() == s.len(),
        forall|i: int| 0 <= i < s.len() ==> #[trigger] env_view(s)[i] == (s[i].0@, expr_view(&s[i].1)),
    decreases s.len(),
{
    if s.len() > 0 {
        lemma_env_view(s.drop_last());
    }
}

pub proof fn lemma_patterns_view(s: Seq<Pattern>)
    ensures
        patterns_view(s).len() == s.len(),
        forall|i: int|
            0 <= i < s.len() ==> #[trigger] patterns_view(s)[i] == (
                exprs_view(s[i].parameters@),
                exprs_view(s[i].body@),
            ),
    decreases s.len(),
{
    if s.len() > 0 {
        lemma_patterns_view(s.drop_last());
    }
}

/// Views of sequences built by pushing.
pub proof fn lemma_exprs_view_push(s: Seq<Expression>, e: Expression)
    ensures
        exprs_view(s.push(e)) == exprs_view(s).push(expr_view(&e)),
{
    assert(s.push(e).drop_last() =~= s);
}

pub proof fn lemma_pairs_view_push(s: Seq<(Expression, Expression)>, e: (Expression, Expression))
    ensures
        pairs_view(s.push(e)) == pairs_view(s).push((expr_view(&e.0), expr_view(&e.1))),
{
    assert(s.push(e).drop_last() =~= s);
}

pub proof fn lemma_env_view_push(s: Seq<(String, Expression)>, e: (String, Expression))
    ensures
        env_view(s.push(e)) == env_view(s).push((e.0@, expr_view(&e.1))),
{
    assert(s.push(e).drop_last() =~= s);
}

pub proof fn lemma_patterns_view_push(s: Seq<Pattern>, p: Pattern)
    ensures
        patterns_view(s.push(p)) == patterns_view(s).push(
            (exprs_view(p.parameters@), exprs_view(p.body@)),
        ),
{
    assert(s.push(p).drop_last() =~= s);
}

/// The order of two character sequences.
pub fn compare_chars(a: &Vec<char>, b: &Vec<char>) -> (r: i8)
    ensures
        r == order_chars(a@, b@),
{
    let mut i: usize = 0;
    assert(a@.skip(0) =~= a@);
    assert(b@.skip(0) =~= b@);
    while i < a.len() && i < b.len() && a[i] == b[i]
        invariant
            i <= a.len(),
            i <= b.len(),
            order_chars(a@, b@) == order_chars(a@.skip(i as int), b@.skip(i as int)),
        decreases a.len() - i,
    {
        proof {
            assert(a@.skip(i as int).skip(1) =~= a@.skip(i + 1));
            assert(b@.skip(i as int).skip(1) =~= b@.skip(i + 1));
            assert(a@.skip(i as int)[0] == a@[i as int]);
            assert(b@.skip(i as int)[0] == b@[i as int]);
        }
        i = i + 1;
    }
    proof {
        if i < a.len() {
            assert(a@.skip(i as int)[0] == a@[i as int]);
        }
        if i < b.len() {
            assert(b@.skip(i as int)[0] == b@[i as int]);
        }
    }
    if i == a.len() && i == b.len() {
        0
    } else if i == a.len() {
        -1
    } else if i == b.len() {
        1
    } else if a[i] < b[i] {
        -1
    } else {
        1
    }
}

/// The order of two strings.
pub fn compare_strings(a: &String, b: &String) -> (r: i8)
    ensures
        r == order_chars(a@, b@),
{
    let x = crate::strings::chars_of(a.as_str());
    let y = crate::strings::chars_of(b.as_str());
    compare_chars(&x, &y)
}

/// The order of two sequences of names.
pub fn compare_names(a: &Vec<String>, b: &Vec<String>) -> (r: i8)
    ensures
        r == order_names(strings_view(a@), strings_view(b@)),
{
    let ghost x = strings_view(a@);
    let ghost y = strings_view(b@);
    let mut i: usize = 0;
    assert(x.skip(0) =~= x);
    assert(y.skip(0) =~= y);
    while i < a.len() && i < b.len()
        invariant
            i <= a.len(),
            i <= b.len(),
            x == strings_view(a@),
            y == strings_view(b@),
            order_names(x, y) == order_names(x.skip(i as int), y.skip(i as int)),
        decreases a.len() - i,
    {
        let c = compare_strings(&a[i], &b[i]);
        proof {
            assert(x.skip(i as int)[0] == a@[i as int]@);
            assert(y.skip(i as int)[0] == b@[i as int]@);
        }
        if c != 0 {
            return c;
        }
        proof {
            assert(x.skip(i as int).skip(1) =~= x.skip(i + 1));
            assert(y.skip(i as int).skip(1) =~= y.skip(i + 1));
        }
        i = i + 1;
    }
    if i == a.len() && i == b.len() {
        0
    } else if i == a.len() {
        -1
    } else {
        1
    }
}

fn builtin_index(b: Builtin) -> (r: u8)
    ensures
        r == builtin_rank(b),
{
    match b {
        Builtin::Equal => 0,
        Builtin::Add => 1,
        Builtin::Subtract => 2,
        Builtin::Multiply => 3,
        Builtin::Divide => 4,
        Builtin::If => 5,
        Builtin::Def => 6,
        Builtin::Fn => 7,
        Builtin::Defn => 8,
        Builtin::Eval => 9,
        Builtin::ReadString => 10,
        Builtin::Assert => 11,
        Builtin::Let => 12,
        Builtin::For => 13,
        Builtin::Str => 14,
        Builtin::Bound => 15,
        Builtin::Do => 16,
        Builtin::ThreadFirst => 17,
        Builtin::When => 18,
        Builtin::Inc => 19,
        Builtin::Range => 20,
        Builtin::Assoc => 21,
        Builtin::Dissoc => 22,
        Builtin::Merge => 23,
        Builtin::Get => 24,
        Builtin::Nth => 25,
        Builtin::Count => 26,
        Builtin::SqlConnect => 27,
        Builtin::SqlString => 28,
        Builtin::SqlQuery => 29,
        Builtin::SqlExecute => 30,
        Builtin::SqlTables => 31,
        Builtin::IoReadFile => 32,
        Builtin::IoWriteFile => 33,
        Builtin::Import => 34,
        Builtin::HttpGet => 35,
        Builtin::HttpPost => 36,
        Builtin::ServerStart => 37,
        Builtin::ServerStop => 38,
        Builtin::JsonToString => 39,
        Builtin::JsonFromString => 40,
        Builtin::Atom => 41,
        Builtin::Reset => 42,
        Builtin::Swap => 43,
        Builtin::HtmlToString => 44,
    }
}

fn kind_index(e: &Expression) -> (r: u8)
    ensures
        r == rank(e@),
{
    match e {
        Expression::Symbol(_) => 0,
        Expression::NamespacedSymbol(_) => 1,
        Expression::Keyword(_) => 2,
        Expression::String(_) => 3,
        Expression::Integer(_) => 4,
        Expression::Float(_) => 5,
        Expression::Ratio(_) => 6,
        Expression::Bool(_) => 7,
        Expression::Nil => 8,
        Expression::Array(_) => 9,
        Expression::Mapping(_) => 10,
        Expression::Call(_) => 11,
        Expression::Function(_) => 12,
        Expression::Quote(_) => 13,
        Expression::Deref(_) => 14,
        Expression::NativeFunction(_) => 15,
        Expression::Module(_) => 16,
        Expression::Atom(_) => 17,
    }
}

fn sign_u8(a: u8, b: u8) -> (r: i8)
    ensures
        r == sign_of(a as int, b as int),
{
    if a < b {
        -1
    } else if a == b {
        0
    } else {
        1
    }
}

/// The order of two expressions: `-1`, `0` or `1` as `a` comes before, together with or
/// after `b`.
pub fn compare(a: &Expression, b: &Expression) -> (r: i8)
    ensures
        r == spec_order(a@, b@),
    decreases a, 0nat,
{
    let ka = kind_index(a);
    let kb = kind_index(b);
    if ka != kb {
        return sign_u8(ka, kb);
    }
    match (a, b) {
        (Expression::Symbol(x), Expression::Symbol(y)) => compare_strings(x, y),
        (Expression::NamespacedSymbol(x), Expression::NamespacedSymbol(y)) => compare_names(x, y),
        (Expression::Keyword(x), Expression::Keyword(y)) => compare_strings(x, y),
        (Expression::String(x), Expression::String(y)) => compare_strings(x, y),
        (Expression::Integer(x), Expression::Integer(y)) => crate::bignum::integer_order(x, y),
        (Expression::Float(x), Expression::Float(y)) => compare_strings(x.literal(), y.literal()),
        (Expression::Ratio(x), Expression::Ratio(y)) => {
            let l = crate::bignum::integer_mul(x.numer(), y.denom());
            let r = crate::bignum::integer_mul(y.numer(), x.denom());
            crate::bignum::integer_order(&l, &r)
        },
        (Expression::Bool(x), Expression::Bool(y)) => {
            if *x == *y {
                0
            } else if *y {
                -1
            } else {
                1
            }
        },
        (Expression::Nil, Expression::Nil) => 0,
        (Expression::Array(x), Expression::Array(y)) => compare_vecs(x, y),
        (Expression::Mapping(x), Expression::Mapping(y)) => compare_entries(&x.entries, &y.entries),
        (Expression::Call(x), Expression::Call(y)) => {
            let c = compare(&x.function, &y.function);
            if c != 0 {
                c
            } else {
                compare_vecs(&x.arguments, &y.arguments)
            }
        },
        (Expression::Function(x), Expression::Function(y)) => {
            let c = compare_bindings(&x.env.entries, &y.env.entries);
            if c != 0 {
                c
            } else {
                compare_clauses(&x.patterns, &y.patterns)
            }
        },
        (Expression::Quote(x), Expression::Quote(y)) => compare(x, y),
        (Expression::Deref(x), Expression::Deref(y)) => compare(x, y),
        (Expression::NativeFunction(x), Expression::NativeFunction(y)) => sign_u8(
            builtin_index(*x),
            builtin_index(*y),
        ),
        (Expression::Module(x), Expression::Module(y)) => compare_bindings(&x.entries, &y.entries),
        (Expression::Atom(x), Expression::Atom(y)) => if *x < *y { -1 } else if *x == *y { 0 } else { 1 },
        _ => 0,
    }
}

/// The lexicographic order of two sequences of expressions.
pub fn compare_vecs(a: &Vec<Expression>, b: &Vec<Expression>) -> (r: i8)
    ensures
        r == order_exprs(exprs_view(a@), exprs_view(b@)),
    decreases a@, 1nat,
{
    let ghost x = exprs_view(a@);
    let ghost y = exprs_view(b@);
    proof {
        lemma_exprs_view(a@);
        lemma_exprs_view(b@);
        assert(x.skip(0) =~= x);
        assert(y.skip(0) =~= y);
    }
    let mut i: usize = 0;
    while i < a.len() && i < b.len()
        invariant
            i <= a.len(),
            i <= b.len(),
            x == exprs_view(a@),
            y == exprs_view(b@),
            x.len() == a.len(),
            y.len() == b.len(),
            forall|j: int| 0 <= j < a.len() ==> #[trigger] x[j] == expr_view(&a@[j]),
            forall|j: int| 0 <= j < b.len() ==> #[trigger] y[j] == expr_view(&b@[j]),
            order_exprs(x, y) == order_exprs(x.skip(i as int), y.skip(i as int)),
        decreases a.len() - i,
    {
        let c = compare(&a[i], &b[i]);
        proof {
            assert(x.skip(i as int)[0] == x[i as int]);
            assert(y.skip(i as int)[0] == y[i as int]);
        }
        if c != 0 {
            return c;
        }
        proof {
            assert(x.skip(i as int).skip(1) =~= x.skip(i + 1));
            assert(y.skip(i as int).skip(1) =~= y.skip(i + 1));
        }
        i = i + 1;
    }
    if i == a.len() && i == b.len() {
        0
    } else if i == a.len() {
        -1
    } else {
        1
    }
}

/// The lexicographic order of two sequences of map entries.
pub fn compare_entries(a: &Vec<(Expression, Expression)>, b: &Vec<(Expression, Expression)>) -> (r: i8)
    ensures
        r == order_pairs(pairs_view(a@), pairs_view(b@)),
    decreases a@, 1nat,
{
    let ghost x = pairs_view(a@);
    let ghost y = pairs_view(b@);
    proof {
        lemma_pairs_view(a@);
        lemma_pairs_view(b@);
        assert(x.skip(0) =~= x);
        assert(y.skip(0) =~= y);
    }
    let mut i: usize = 0;
    while i < a.len() && i < b.len()
        invariant
            i <= a.len(),
            i <= b.len(),
            x == pairs_view(a@),
            y == pairs_view(b@),
            x.len() == a.len(),
            y.len() == b.len(),
            forall|j: int| 0 <= j < a.len() ==> #[trigger] x[j] == (expr_view(&a@[j].0), expr_view(&a@[j].1)),
            forall|j: int| 0 <= j < b.len() ==> #[trigger] y[j] == (expr_view(&b@[j].0), expr_view(&b@[j].1)),
            order_pairs(x, y) == order_pairs(x.skip(i as int), y.skip(i as int)),
        decreases a.len() - i,
    {
        proof {
            assert(x.skip(i as int)[0] == x[i as int]);
            assert(y.skip(i as int)[0] == y[i as int]);
        }
        let c = compare(&a[i].0, &b[i].0);
        if c != 0 {
            return c;
        }
        let d = compare(&a[i].1, &b[i].1);
        if d != 0 {
            return d;
        }
        proof {
            assert(x.skip(i as int).skip(1) =~= x.skip(i + 1));
            assert(y.skip(i as int).skip(1) =~= y.skip(i + 1));
        }
        i = i + 1;
    }
    if i == a.len() && i == b.len() {
        0
    } else if i == a.len() {
        -1
    } else {
        1
    }
}

/// The lexicographic order of two sequences of bindings.
pub fn compare_bindings(a: &Vec<(String, Expression)>, b: &Vec<(String, Expression)>) -> (r: i8)
    ensures
        r == order_env(env_view(a@), env_view(b@)),
    decreases a@, 1nat,
{
    let ghost x = env_view(a@);
    let ghost y = env_view(b@);
    proof {
        lemma_env_view(a@);
        lemma_env_view(b@);
        assert(x.skip(0) =~= x);
        assert(y.skip(0) =~= y);
    }
    let mut i: usize = 0;
    while i < a.len() && i < b.len()
        invariant
            i <= a.len(),
            i <= b.len(),
            x == env_view(a@),
            y == env_view(b@),
            x.len() == a.len(),
            y.len() == b.len(),
            forall|j: int| 0 <= j < a.len() ==> #[trigger] x[j] == (a@[j].0@, expr_view(&a@[j].1)),
            forall|j: int| 0 <= j < b.len() ==> #[trigger] y[j] == (b@[j].0@, expr_view(&b@[j].1)),
            order_env(x, y) == order_env(x.skip(i as int), y.skip(i as int)),
        decreases a.len() - i,
    {
        proof {
            assert(x.skip(i as int)[0] == x[i as int]);
            assert(y.skip(i as int)[0] == y[i as int]);
        }
        let c = compare_strings(&a[i].0, &b[i].0);
        if c != 0 {
            return c;
        }
        let d = compare(&a[i].1, &b[i].1);
        if d != 0 {
            return d;
        }
        proof {
            assert(x.skip(i as int).skip(1) =~= x.skip(i + 1));
            assert(y.skip(i as int).skip(1) =~= y.skip(i + 1));
        }
        i = i + 1;
    }
    if i == a.len() && i == b.len() {
        0
    } else if i == a.len() {
        -1
    } else {
        1
    }
}

/// The lexicographic order of two sequences of function clauses.
pub fn compare_clauses(a: &Vec<Pattern>, b: &Vec<Pattern>) -> (r: i8)
    ensures
        r == order_patterns(patterns_view(a@), patterns_view(b@)),
    decreases a@, 1nat,
{
    let ghost x = patterns_view(a@);
    let ghost y = patterns_view(b@);
    proof {
        lemma_patterns_view(a@);
        lemma_patterns_view(b@);
        assert(x.skip(0) =~= x);
        assert(y.skip(0) =~= y);
    }
    let mut i: usize = 0;
    while i < a.len() && i < b.len()
        invariant
            i <= a.len(),
            i <= b.len(),
            x == patterns_view(a@),
            y == patterns_view(b@),
            x.len() == a.len(),
            y.len() == b.len(),
            forall|j: int|
                0 <= j < a.len() ==> #[trigger] x[j] == (
                    exprs_view(a@[j].parameters@),
                    exprs_view(a@[j].body@),
                ),
            forall|j: int|
                0 <= j < b.len() ==> #[trigger] y[j] == (
                    exprs_view(b@[j].parameters@),
                    exprs_view(b@[j].body@),
                ),
            order_patterns(x, y) == order_patterns(x.skip(i as int), y.skip(i as int)),
        decreases a.len() - i,
    {
        proof {
            assert(x.skip(i as int)[0] == x[i as int]);
            assert(y.skip(i as int)[0] == y[i as int]);
        }
        let c = compare_vecs(&a[i].parameters, &b[i].parameters);
        if c != 0 {
            return c;
        }
        let d = compare_vecs(&a[i].body, &b[i].body);
        if d != 0 {
            return d;
        }
        proof {
            assert(x.skip(i as int).skip(1) =~= x.skip(i + 1));
            assert(y.skip(i as int).skip(1) =~= y.skip(i + 1));
        }
        i = i + 1;
    }
    if i == a.len() && i == b.len() {
        0
    } else if i == a.len() {
        -1
    } else {
        1
    }
}

impl Expression {
    /// A copy of the expression.
    pub fn clone(&self) -> (r: Expression)
        ensures
            r@ == self@,
        decreases self, 0nat,
    {
        match self {
            Expression::Symbol(s) => Expression::Symbol(s.clone()),
            Expression::NamespacedSymbol(v) => {
                let w = crate::strings::copy_strings(v);
                assert(strings_view(w@) =~= strings_view(v@));
                Expression::NamespacedSymbol(w)
            },
            Expression::Keyword(s) => Expression::Keyword(s.clone()),
            Expression::String(s) => Expression::String(s.clone()),
            Expression::Integer(i) => Expression::Integer(i.clone()),
            Expression::Float(f) => Expression::Float(f.clone()),
            Expression::Ratio(r) => Expression::Ratio(r.clone()),
            Expression::Bool(b) => Expression::Bool(*b),
            Expression::Nil => Expression::Nil,
            Expression::Array(v) => Expression::Array(clone_vec(v)),
            Expression::Mapping(m) => Expression::Mapping(ExprMap { entries: clone_entries(&m.entries) }),
            Expression::Call(c) => Expression::Call(
                Call { function: Box::new((*c.function).clone()), arguments: clone_vec(&c.arguments) },
            ),
            Expression::Function(f) => Expression::Function(
                Function {
                    env: Environment { entries: clone_bindings(&f.env.entries) },
                    patterns: clone_clauses(&f.patterns),
                },
            ),
            Expression::Quote(b) => Expression::Quote(Box::new((**b).clone())),
            Expression::Deref(b) => Expression::Deref(Box::new((**b).clone())),
            Expression::NativeFunction(f) => Expression::NativeFunction(*f),
            Expression::Module(env) => Expression::Module(Environment { entries: clone_bindings(&env.entries) }),
            Expression::Atom(i) => Expression::Atom(*i),
        }
    }
}

/// A copy of a sequence of expressions.
pub fn clone_vec(v: &Vec<Expression>) -> (r: Vec<Expression>)
    ensures
        exprs_view(r@) == exprs_view(v@),
    decreases v@, 1nat,
{
    let mut r: Vec<Expression> = Vec::new();
    let mut i: usize = 0;
    proof {
        lemma_exprs_view(v@);
        assert(v@.take(0) =~= Seq::<Expression>::empty());
    }
    while i < v.len()
        invariant
            i <= v.len(),
            exprs_view(r@) == exprs_view(v@.take(i as int)),
        decreases v.len() - i,
    {
        let e = v[i].clone();
        proof {
            lemma_exprs_view_push(r@, e);
            lemma_exprs_view_push(v@.take(i as int), v@[i as int]);
            assert(v@.take(i as int).push(v@[i as int]) =~= v@.take(i + 1));
        }
        r.push(e);
        i = i + 1;
    }
    assert(v@.take(v.len() as int) =~= v@);
    r
}

/// A copy of a sequence of map entries.
pub fn clone_entries(v: &Vec<(Expression, Expression)>) -> (r: Vec<(Expression, Expression)>)
    ensures
        pairs_view(r@) == pairs_view(v@),
    decreases v@, 1nat,
{
    let mut r: Vec<(Expression, Expression)> = Vec::new();
    let mut i: usize = 0;
    assert(v@.take(0) =~= Seq::<(Expression, Expression)>::empty());
    while i < v.len()
        invariant
            i <= v.len(),
            pairs_view(r@) == pairs_view(v@.take(i as int)),
        decreases v.len() - i,
    {
        let k = v[i].0.clone();
        let x = v[i].1.clone();
        proof {
            lemma_pairs_view_push(r@, (k, x));
            lemma_pairs_view_push(v@.take(i as int), v@[i as int]);
            assert(v@.take(i as int).push(v@[i as int]) =~= v@.take(i + 1));
        }
        r.push((k, x));
        i = i + 1;
    }
    assert(v@.take(v.len() as int) =~= v@);
    r
}

/// A copy of a sequence of bindings.
pub fn clone_bindings(v: &Vec<(String, Expression)>) -> (r: Vec<(String, Expression)>)
    ensures
        env_view(r@) == env_view(v@),
    decreases v@, 1nat,
{
    let mut r: Vec<(String, Expression)> = Vec::new();
    let mut i: usize = 0;
    assert(v@.take(0) =~= Seq::<(String, Expression)>::empty());
    while i < v.len()
        invariant
            i <= v.len(),
            env_view(r@) == env_view(v@.take(i as int)),
        decreases v.len() - i,
    {
        let k = v[i].0.clone();
        let x = v[i].1.clone();
        proof {
            lemma_env_view_push(r@, (k, x));
            lemma_env_view_push(v@.take(i as int), v@[i as int]);
            assert(v@.take(i as int).push(v@[i as int]) =~= v@.take(i + 1));
        }
        r.push((k, x));
        i = i + 1;
    }
    assert(v@.take(v.len() as int) =~= v@);
    r
}

/// A copy of a sequence of function clauses.
pub fn clone_clauses(v: &Vec<Pattern>) -> (r: Vec<Pattern>)
    ensures
        patterns_view(r@) == patterns_view(v@),
    decreases v@, 1nat,
{
    let mut r: Vec<Pattern> = Vec::new();
    let mut i: usize = 0;
    assert(v@.take(0) =~= Seq::<Pattern>::empty());
    while i < v.len()
        invariant
            i <= v.len(),
            patterns_view(r@) == patterns_view(v@.take(i as int)),
        decreases v.len() - i,
    {
        let p = Pattern { parameters: clone_vec(&v[i].parameters), body: clone_vec(&v[i].body) };
        proof {
            lemma_patterns_view_push(r@, p);
            lemma_patterns_view_push(v@.take(i as int), v@[i as int]);
            assert(v@.take(i as int).push(v@[i as int]) =~= v@.take(i + 1));
        }
        r.push(p);
        i = i + 1;
    }
    assert(v@.take(v.len() as int) =~= v@);
    r
}

} // verus!
