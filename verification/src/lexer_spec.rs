use vstd::prelude::*;
use crate::numerics::{decimal_value, is_decimal_literal, is_digit, reduced};
use crate::token::SpecToken;

verus! {

/// Unicode `White_Space`, the characters for which `char::is_whitespace` holds.
pub open spec fn unicode_white_space(c: char) -> bool {
    ||| '\u{9}' <= c <= '\u{d}'
    ||| c == ' '
    ||| c == '\u{85}'
    ||| c == '\u{a0}'
    ||| c == '\u{1680}'
    ||| '\u{2000}' <= c <= '\u{200a}'
    ||| c == '\u{2028}'
    ||| c == '\u{2029}'
    ||| c == '\u{202f}'
    ||| c == '\u{205f}'
    ||| c == '\u{3000}'
}

/// Characters that separate tokens: white space and commas.
pub open spec fn spec_is_whitespace(c: char) -> bool {
    unicode_white_space(c) || c == ','
}

/// Characters that end a symbol or keyword.
pub open spec fn spec_reserved(c: char) -> bool {
    ||| c == '('
    ||| c == ')'
    ||| c == '{'
    ||| c == '}'
    ||| c == '['
    ||| c == ']'
    ||| c == '"'
    ||| c == ':'
    ||| spec_is_whitespace(c)
}

/// The length of the longest prefix of `s` without a reserved character.
pub open spec fn unreserved_len(s: Seq<char>) -> nat
    decreases s.len(),
{
    if s.len() == 0 || spec_reserved(s[0]) {
        0
    } else {
        1 + unreserved_len(s.skip(1))
    }
}

/// What a backslash followed by `e` stands for inside a string literal.
pub open spec fn escape(e: char) -> Seq<char> {
    if e == 'n' {
        seq!['\n']
    } else if e == 't' {
        seq!['\t']
    } else if e == 'r' {
        seq!['\r']
    } else if e == '\\' {
        seq!['\\']
    } else if e == '"' {
        seq!['"']
    } else {
        seq!['\\', e]
    }
}

/// The body of a string literal whose opening quote has been read: its content, and
/// how many characters it takes up with the closing quote (if there is one).
pub open spec fn string_scan(s: Seq<char>) -> (Seq<char>, nat)
    decreases s.len(),
{
    if s.len() == 0 {
        (seq![], 0)
    } else if s[0] == '\\' {
        if s.len() == 1 {
            (seq!['\\'], 1)
        } else {
            let (c, n) = string_scan(s.skip(2));
            (escape(s[1]) + c, n + 2)
        }
    } else if s[0] == '"' {
        (seq![], 1)
    } else {
        let (c, n) = string_scan(s.skip(1));
        (seq![s[0]] + c, n + 1)
    }
}

/// How many characters a comment takes up after its `;`: through the end of the line.
pub open spec fn comment_len(s: Seq<char>) -> nat
    decreases s.len(),
{
    if s.len() == 0 {
        0
    } else if s[0] == '\n' {
        1
    } else {
        1 + comment_len(s.skip(1))
    }
}

/// `s` split at every `/`, as `str::split('/')` splits it.
pub open spec fn split_slash(s: Seq<char>) -> Seq<Seq<char>>
    decreases s.len(),
{
    if s.len() == 0 {
        seq![seq![]]
    } else {
        let p = split_slash(s.drop_last());
        if s.last() == '/' {
            p.push(seq![])
        } else {
            p.update(p.len() - 1, p.last().push(s.last()))
        }
    }
}

/// The token that a run of unreserved characters makes: a namespaced symbol when it holds
/// a `/`, else a symbol.
pub open spec fn symbol_token(sym: Seq<char>) -> SpecToken {
    let parts = split_slash(sym);
    if parts.len() > 1 {
        SpecToken::NamespacedSymbol(parts)
    } else {
        SpecToken::Symbol(sym)
    }
}

/// A symbol at the start of `s`: how many characters it takes, and its token.
pub open spec fn spec_symbol(s: Seq<char>) -> (nat, SpecToken) {
    let n = unreserved_len(s);
    (n, symbol_token(s.take(n as int)))
}

/// The characters of a number literal at the start of `s`: how many are read, the text
/// they spell once underscores are dropped, and whether a `.` was read.
/// With `one_dot`, reading stops at a second `.`; without it, every `.` is read.
pub open spec fn number_scan(s: Seq<char>, is_float: bool, one_dot: bool) -> (nat, Seq<char>, bool)
    decreases s.len(),
{
    if s.len() == 0 {
        (0, seq![], is_float)
    } else if s[0] == '.' && !(one_dot && is_float) {
        let (n, t, f) = number_scan(s.skip(1), true, one_dot);
        (n + 1, seq!['.'] + t, f)
    } else if is_digit(s[0]) || s[0] == '_' {
        let (n, t, f) = number_scan(s.skip(1), is_float, one_dot);
        (n + 1, if s[0] == '_' { t } else { seq![s[0]] + t }, f)
    } else {
        (0, seq![], is_float)
    }
}

/// The number of `.` characters in `s`.
pub open spec fn count_dots(s: Seq<char>) -> nat
    decreases s.len(),
{
    if s.len() == 0 {
        0
    } else {
        (if s[0] == '.' { 1nat } else { 0nat }) + count_dots(s.skip(1))
    }
}

/// The token for `numerator / denominator`: an integer when the fraction reduces to one.
pub open spec fn fraction_token(numerator: int, denominator: int) -> SpecToken {
    let (a, b) = reduced(numerator, denominator);
    if b == 1 {
        SpecToken::Integer(a)
    } else {
        SpecToken::Ratio(a, b)
    }
}

/// A number literal at the start of `s` (after its sign, which `negative` gives):
/// how many characters it takes and its token, or `None` where the literal is malformed
/// (a `/` not followed by an integer, a zero denominator, or a float with several `.`).
pub open spec fn spec_number(s: Seq<char>, negative: bool, one_dot: bool) -> Option<(nat, SpecToken)>
    decreases s.len(),
{
    let (n, t0, f) = number_scan(s, false, one_dot);
    let t = if negative { seq!['-'] + t0 } else { t0 };
    if f {
        if count_dots(t) <= 1 {
            Some((n, SpecToken::Float(t)))
        } else {
            None
        }
    } else if !is_decimal_literal(t) || n > s.len() {
        None
    } else {
        let rest = s.skip(n as int);
        let numerator = decimal_value(t);
        if rest.len() > 0 && rest[0] == '/' {
            let neg2 = rest.len() > 1 && rest[1] == '-';
            let k: nat = if neg2 { 2 } else { 1 };
            let r3 = rest.skip(k as int);
            if n == 0 {
                None
            } else {
                match spec_number(r3, neg2, one_dot) {
                    Some((m, SpecToken::Integer(denominator))) => if denominator == 0 {
                        None
                    } else {
                        Some((n + k + m, fraction_token(numerator, denominator)))
                    },
                    _ => None,
                }
            }
        } else {
            Some((n, SpecToken::Integer(numerator)))
        }
    }
}

/// After a `-`: a negative number when a digit follows, else a symbol whose name starts
/// with `-`; `None` where that symbol would be namespaced.
pub open spec fn spec_negative_number_or_symbol(s: Seq<char>) -> Option<(nat, SpecToken)> {
    if s.len() > 0 && is_digit(s[0]) {
        spec_number(s, true, true)
    } else {
        let (n, t) = spec_symbol(s);
        match t {
            SpecToken::Symbol(x) => Some((n, SpecToken::Symbol(seq!['-'] + x))),
            _ => None,
        }
    }
}

/// One step of `tokenize` on a non-empty input: how many characters are read and the
/// tokens (none or one) they make, or `None` where the input is malformed.
pub open spec fn spec_step(s: Seq<char>) -> Option<(nat, Seq<SpecToken>)>
    recommends
        s.len() > 0,
{
    let c = s[0];
    let rest = s.skip(1);
    if c == '@' {
        Some((1, seq![SpecToken::Deref]))
    } else if c == '(' {
        Some((1, seq![SpecToken::LeftParen]))
    } else if c == ')' {
        Some((1, seq![SpecToken::RightParen]))
    } else if c == '{' {
        Some((1, seq![SpecToken::LeftBrace]))
    } else if c == '}' {
        Some((1, seq![SpecToken::RightBrace]))
    } else if c == '[' {
        Some((1, seq![SpecToken::LeftBracket]))
    } else if c == ']' {
        Some((1, seq![SpecToken::RightBracket]))
    } else if c == '\'' {
        Some((1, seq![SpecToken::Quote]))
    } else if c == '"' {
        let (content, n) = string_scan(rest);
        Some((n + 1, seq![SpecToken::String(content)]))
    } else if c == ':' {
        let n = unreserved_len(rest);
        Some((n + 1, seq![SpecToken::Keyword(seq![':'] + rest.take(n as int))]))
    } else if c == ';' {
        Some((comment_len(rest) + 1, seq![]))
    } else if c == '/' {
        Some((1, seq![SpecToken::Symbol(seq!['/'])]))
    } else if c == '-' {
        match spec_negative_number_or_symbol(rest) {
            Some((n, t)) => Some((n + 1, seq![t])),
            None => None,
        }
    } else if spec_is_whitespace(c) {
        Some((1, seq![]))
    } else if is_digit(c) {
        match spec_number(s, false, true) {
            Some((n, t)) => Some((n, seq![t])),
            None => None,
        }
    } else {
        let (n, t) = spec_symbol(s);
        Some((n, seq![t]))
    }
}

/// The tokens of `s`, or `None` where `s` is malformed.
pub open spec fn spec_tokenize(s: Seq<char>) -> Option<Seq<SpecToken>>
    decreases s.len(),
{
    if s.len() == 0 {
        Some(seq![])
    } else {
        match spec_step(s) {
            Some((n, toks)) => if 0 < n <= s.len() {
                match spec_tokenize(s.skip(n as int)) {
                    Some(more) => Some(toks + more),
                    None => None,
                }
            } else {
                None
            },
            None => None,
        }
    }
}

} // verus!
