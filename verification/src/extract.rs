use vstd::prelude::*;
use crate::effect::{Effect, error};
use crate::expression::{Call, ExprMap, Expression, SpecExpression, exprs_view};
use crate::mapping::map_get;
use crate::numerics::Integer;

verus! {

/// The entries of a map; anything else is an error.
pub fn map(expr: Expression) -> (r: Result<ExprMap, Effect>)
    ensures
        match r {
            Ok(m) => expr@ == SpecExpression::Mapping(m@),
            Err(x) => !(expr@ is Mapping) && x@ == "Expected map"@,
        },
{
    match expr {
        Expression::Mapping(m) => Ok(m),
        _ => Err(error("Expected map")),
    }
}

/// The value bound to the keyword `key`; an error where there is none.
pub fn key(entries: &ExprMap, name: &str) -> (r: Result<Expression, Effect>)
    ensures
        match r {
            Ok(v) => map_get(entries@, SpecExpression::Keyword(name@)) == Some(v@),
            Err(x) => map_get(entries@, SpecExpression::Keyword(name@)) is None && x@ == "Expected keyword "@ + name@,
        },
{
    match entries.get(&Expression::Keyword(name.to_string())) {
        Some(v) => Ok(v.clone()),
        None => {
            let mut s = String::new();
            crate::printer::push_all(&mut s, "Expected keyword ");
            crate::printer::push_all(&mut s, name);
            Err(Effect::Error(s))
        },
    }
}

/// The text of a string; anything else is an error.
pub fn string(expr: Expression) -> (r: Result<String, Effect>)
    ensures
        match r {
            Ok(s) => expr@ == SpecExpression::String(s@),
            Err(x) => !(expr@ is String) && x@ == "Expected string"@,
        },
{
    match expr {
        Expression::String(s) => Ok(s),
        _ => Err(error("Expected string")),
    }
}

/// The text of a keyword; anything else is an error.
pub fn keyword(expr: Expression) -> (r: Result<String, Effect>)
    ensures
        match r {
            Ok(s) => expr@ == SpecExpression::Keyword(s@),
            Err(x) => !(expr@ is Keyword) && x@ == "Expected keyword"@,
        },
{
    match expr {
        Expression::Keyword(k) => Ok(k),
        _ => Err(error("Expected keyword")),
    }
}

/// The name of a symbol; anything else is an error.
pub fn symbol(expr: Expression) -> (r: Result<String, Effect>)
    ensures
        match r {
            Ok(s) => expr@ == SpecExpression::Symbol(s@),
            Err(x) => !(expr@ is Symbol) && x@ == "Expected keyword"@,
        },
{
    match expr {
        Expression::Symbol(s) => Ok(s),
        _ => Err(error("Expected keyword")),
    }
}

/// The elements of an array; anything else is an error.
pub fn array(expr: Expression) -> (r: Result<Vec<Expression>, Effect>)
    ensures
        match r {
            Ok(v) => expr@ == SpecExpression::Array(exprs_view(v@)),
            Err(x) => !(expr@ is Array) && x@ == "Expected array"@,
        },
{
    match expr {
        Expression::Array(v) => Ok(v),
        _ => Err(error("Expected array")),
    }
}

/// The function and arguments of a call; anything else is an error.
pub fn call(expr: Expression) -> (r: Result<Call, Effect>)
    ensures
        match r {
            Ok(c) => expr@ == SpecExpression::Call(Box::new(c.function@), exprs_view(c.arguments@)),
            Err(x) => !(expr@ is Call) && x@ == "Expected call"@,
        },
{
    match expr {
        Expression::Call(c) => Ok(c),
        _ => Err(error("Expected call")),
    }
}

/// The value of an integer; anything else is an error.
pub fn integer(expr: Expression) -> (r: Result<Integer, Effect>)
    ensures
        match r {
            Ok(i) => expr@ == SpecExpression::Integer(i.value()),
            Err(x) => !(expr@ is Integer) && x@ == "Expected integer"@,
        },
{
    match expr {
        Expression::Integer(i) => Ok(i),
        _ => Err(error("Expected integer")),
    }
}

} // verus!
