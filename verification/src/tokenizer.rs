use vstd::prelude::*;
use crate::bignum::{integer_parse, rational_parts};
use crate::lexer_spec::{comment_len, count_dots, escape, fraction_token, number_scan, spec_is_whitespace, spec_negative_number_or_symbol, spec_number, spec_reserved, spec_step, spec_symbol, spec_tokenize, split_slash, string_scan, symbol_token, unreserved_len};
use crate::numerics::{Float, Integer, Ratio, all_digits, decimal_value, is_decimal_literal, is_digit, reduced};
use crate::strings::string_from_chars;
use crate::token::{SpecToken, Token, tokens_view};

verus! {

pub proof fn lemma_skip_skip(s: Seq<char>, a: int, b: int)
    requires
        0 <= a,
        0 <= b,
        a + b <= s.len(),
    ensures
        s.skip(a).skip(b) == s.skip(a + b),
{
    assert(s.skip(a).skip(b) =~= s.skip(a + b));
}

/// White space or a comma.
pub fn is_whitespace(c: char) -> (r: bool)
    ensures
        r == spec_is_whitespace(c),
{
    ('\u{9}' <= c && c <= '\u{d}') || c == ' ' || c == '\u{85}' || c == '\u{a0}' || c == '\u{1680}'
        || ('\u{2000}' <= c && c <= '\u{200a}') || c == '\u{2028}' || c == '\u{2029}' || c
        == '\u{202f}' || c == '\u{205f}' || c == '\u{3000}' || c == ','
}

/// A character that ends a symbol or a keyword.
pub fn reserved_character(c: char) -> (r: bool)
    ensures
        r == spec_reserved(c),
{
    match c {
        '(' | ')' | '{' | '}' | '[' | ']' | '"' | ':' => true,
        _ => is_whitespace(c),
    }
}

pub fn is_decimal_digit(c: char) -> (r: bool)
    ensures
        r == is_digit(c),
{
    '0' <= c && c <= '9'
}

/// The position after the first character of `chars[pos..]`, if there is one.
fn rest(chars: &Vec<char>, pos: usize) -> (r: usize)
    requires
        pos <= chars.len(),
    ensures
        r == if pos < chars.len() { pos + 1 } else { pos as int },
{
    if pos < chars.len() {
        pos + 1
    } else {
        pos
    }
}

fn push_escape(s: &mut String, e: char)
    ensures
        final(s)@ == old(s)@ + escape(e),
{
    if e == 'n' {
        s.push('\n');
    } else if e == 't' {
        s.push('\t');
    } else if e == 'r' {
        s.push('\r');
    } else if e == '\\' {
        s.push('\\');
    } else if e == '"' {
        s.push('"');
    } else {
        s.push('\\');
        s.push(e);
    }
}

/// The string literal whose body starts at `pos`, after its opening quote.
pub(crate) fn string(chars: &Vec<char>, pos: usize) -> (r: (usize, Token))
    requires
        pos <= chars.len(),
    ensures
        r.0 == pos + string_scan(chars@.skip(pos as int)).1,
        r.0 <= chars.len(),
        r.1@ == SpecToken::String(string_scan(chars@.skip(pos as int)).0),
{
    let ghost whole = string_scan(chars@.skip(pos as int));
    let mut s = String::new();
    let mut i = pos;
    loop
        invariant_except_break
            pos <= i <= chars.len(),
            s@ + string_scan(chars@.skip(i as int)).0 == whole.0,
            (i - pos) + string_scan(chars@.skip(i as int)).1 == whole.1,
        ensures
            pos <= i <= chars.len(),
            s@ == whole.0,
            i - pos == whole.1,
        decreases chars.len() - i,
    {
        let ghost t = chars@.skip(i as int);
        if i >= chars.len() {
            assert(t.len() == 0);
            assert(s@ + seq![] == s@);
            break;
        }
        let c = chars[i];
        assert(t[0] == c);
        if c == '\\' {
            if i + 1 >= chars.len() {
                s.push('\\');
                i = i + 1;
                break;
            }
            let e = chars[i + 1];
            assert(t[1] == e);
            proof {
                lemma_skip_skip(chars@, i as int, 2);
            }
            let ghost s0 = s@;
            push_escape(&mut s, e);
            i = i + 2;
            proof {
                let (cc, nn) = string_scan(chars@.skip(i as int));
                assert(string_scan(t) == (escape(e) + cc, nn + 2));
                assert(s@ + cc =~= s0 + (escape(e) + cc));
            }
        } else if c == '"' {
            i = i + 1;
            assert(s@ + seq![] == s@);
            break;
        } else {
            proof {
                lemma_skip_skip(chars@, i as int, 1);
            }
            let ghost s0 = s@;
            s.push(c);
            i = i + 1;
            proof {
                let (cc, nn) = string_scan(chars@.skip(i as int));
                assert(string_scan(t) == (seq![c] + cc, nn + 1));
                assert(s@ + cc =~= s0 + (seq![c] + cc));
            }
        }
    }
    (i, Token::String(s))
}

/// The end of the run of unreserved characters that starts at `pos`.
fn unreserved_end(chars: &Vec<char>, pos: usize) -> (r: usize)
    requires
        pos <= chars.len(),
    ensures
        r == pos + unreserved_len(chars@.skip(pos as int)),
        r <= chars.len(),
{
    let mut i = pos;
    while i < chars.len() && !reserved_character(chars[i])
        invariant
            pos <= i <= chars.len(),
            unreserved_len(chars@.skip(pos as int)) == (i - pos) + unreserved_len(
                chars@.skip(i as int),
            ),
        decreases chars.len() - i,
    {
        proof {
            lemma_skip_skip(chars@, i as int, 1);
            assert(chars@.skip(i as int)[0] == chars[i as int]);
        }
        i = i + 1;
    }
    proof {
        if i < chars.len() {
            assert(chars@.skip(i as int)[0] == chars[i as int]);
        }
    }
    i
}

/// `chars[from..to]` split at every `/`.
fn split_slash_exec(chars: &Vec<char>, from: usize, to: usize) -> (r: Vec<String>)
    requires
        from <= to <= chars.len(),
    ensures
        crate::token::strings_view(r@) == split_slash(chars@.subrange(from as int, to as int)),
{
    let mut parts: Vec<String> = Vec::new();
    let mut current = String::new();
    let mut i = from;
    proof {
        assert(chars@.subrange(from as int, from as int) =~= Seq::<char>::empty());
        assert(crate::token::strings_view(parts@).push(current@) =~= seq![Seq::<char>::empty()]);
    }
    while i < to
        invariant
            from <= i <= to <= chars.len(),
            crate::token::strings_view(parts@).push(current@) == split_slash(
                chars@.subrange(from as int, i as int),
            ),
        decreases to - i,
    {
        let c = chars[i];
        let ghost sub = chars@.subrange(from as int, i as int + 1);
        proof {
            assert(sub.drop_last() =~= chars@.subrange(from as int, i as int));
            assert(sub.last() == c);
        }
        let ghost before = crate::token::strings_view(parts@).push(current@);
        if c == '/' {
            let finished = current;
            parts.push(finished);
            current = String::new();
            proof {
                assert(crate::token::strings_view(parts@) =~= before);
                assert(crate::token::strings_view(parts@).push(current@) =~= before.push(seq![]));
            }
        } else {
            current.push(c);
            proof {
                assert(crate::token::strings_view(parts@).push(current@) =~= before.update(
                    before.len() - 1,
                    before.last().push(c),
                ));
            }
        }
        i = i + 1;
    }
    parts.push(current);
    proof {
        assert(crate::token::strings_view(parts@) =~= split_slash(
            chars@.subrange(from as int, to as int),
        ));
    }
    parts
}

/// A keyword whose name starts at `pos`, after its `:`.
pub(crate) fn keyword(chars: &Vec<char>, pos: usize) -> (r: (usize, Token))
    requires
        pos <= chars.len(),
    ensures
        r.0 == pos + unreserved_len(chars@.skip(pos as int)),
        r.0 <= chars.len(),
        r.1@ == SpecToken::Keyword(
            seq![':'] + chars@.skip(pos as int).take(unreserved_len(chars@.skip(pos as int)) as int),
        ),
{
    let end = unreserved_end(chars, pos);
    let mut k = String::new();
    k.push(':');
    let mut i = pos;
    while i < end
        invariant
            pos <= i <= end <= chars.len(),
            k@ == seq![':'] + chars@.subrange(pos as int, i as int),
        decreases end - i,
    {
        k.push(chars[i]);
        i = i + 1;
        assert(k@ =~= seq![':'] + chars@.subrange(pos as int, i as int));
    }
    assert(chars@.subrange(pos as int, end as int) =~= chars@.skip(pos as int).take(
        (end - pos) as int,
    ));
    (end, Token::Keyword(k))
}

/// Skips a comment whose text starts at `pos`, after its `;`, through the end of the line.
fn comment(chars: &Vec<char>, pos: usize) -> (r: usize)
    requires
        pos <= chars.len(),
    ensures
        r == pos + comment_len(chars@.skip(pos as int)),
        r <= chars.len(),
{
    let mut i = pos;
    loop
        invariant_except_break
            pos <= i <= chars.len(),
            comment_len(chars@.skip(pos as int)) == (i - pos) + comment_len(chars@.skip(i as int)),
        ensures
            pos <= i <= chars.len(),
            comment_len(chars@.skip(pos as int)) == (i - pos),
        decreases chars.len() - i,
    {
        if i >= chars.len() {
            break;
        }
        let c = chars[i];
        assert(chars@.skip(i as int)[0] == c);
        proof {
            lemma_skip_skip(chars@, i as int, 1);
        }
        i = i + 1;
        if c == '\n' {
            break;
        }
    }
    i
}

/// A symbol that starts at `pos`: the run of unreserved characters there.
pub(crate) fn symbol(chars: &Vec<char>, pos: usize) -> (r: (usize, Token))
    requires
        pos <= chars.len(),
    ensures
        r.0 == pos + spec_symbol(chars@.skip(pos as int)).0,
        r.0 <= chars.len(),
        r.1@ == spec_symbol(chars@.skip(pos as int)).1,
{
    let end = unreserved_end(chars, pos);
    let parts = split_slash_exec(chars, pos, end);
    proof {
        assert(chars@.subrange(pos as int, end as int) =~= chars@.skip(pos as int).take(
            (end - pos) as int,
        ));
    }
    if parts.len() > 1 {
        (end, Token::NamespacedSymbol(parts))
    } else {
        (end, Token::Symbol(string_from_chars(chars, pos, end)))
    }
}

/// The characters of a number literal that start at `pos`, underscores dropped.
fn number_text(chars: &Vec<char>, pos: usize, one_dot: bool) -> (r: (usize, Vec<char>, bool))
    requires
        pos <= chars.len(),
    ensures
        pos <= r.0 <= chars.len(),
        number_scan(chars@.skip(pos as int), false, one_dot) == ((r.0 - pos) as nat, r.1@, r.2),
{
    let ghost whole = number_scan(chars@.skip(pos as int), false, one_dot);
    let mut i = pos;
    let mut text: Vec<char> = Vec::new();
    let mut is_float = false;
    loop
        invariant_except_break
            pos <= i <= chars.len(),
            whole.0 == (i - pos) + number_scan(chars@.skip(i as int), is_float, one_dot).0,
            whole.1 == text@ + number_scan(chars@.skip(i as int), is_float, one_dot).1,
            whole.2 == number_scan(chars@.skip(i as int), is_float, one_dot).2,
        ensures
            pos <= i <= chars.len(),
            whole == ((i - pos) as nat, text@, is_float),
        decreases chars.len() - i,
    {
        let ghost t = chars@.skip(i as int);
        if i >= chars.len() {
            assert(text@ + seq![] == text@);
            break;
        }
        let c = chars[i];
        assert(t[0] == c);
        proof {
            lemma_skip_skip(chars@, i as int, 1);
        }
        if c == '.' && !(one_dot && is_float) {
            let ghost t0 = text@;
            text.push(c);
            is_float = true;
            i = i + 1;
            proof {
                let (n1, t1, f1) = number_scan(chars@.skip(i as int), true, one_dot);
                assert(text@ + t1 =~= t0 + (seq!['.'] + t1));
            }
        } else if is_decimal_digit(c) || c == '_' {
            let ghost t0 = text@;
            if c != '_' {
                text.push(c);
            }
            i = i + 1;
            proof {
                let (n1, t1, f1) = number_scan(chars@.skip(i as int), is_float, one_dot);
                if c != '_' {
                    assert(text@ + t1 =~= t0 + (seq![c] + t1));
                }
            }
        } else {
            assert(text@ + seq![] == text@);
            break;
        }
    }
    (i, text, is_float)
}

fn count_dots_exec(s: &Vec<char>) -> (r: usize)
    ensures
        r == count_dots(s@),
{
    let mut i = s.len();
    let mut n: usize = 0;
    assert(s@.skip(s.len() as int) =~= Seq::<char>::empty());
    while i > 0
        invariant
            i <= s.len(),
            n == count_dots(s@.skip(i as int)),
            n <= s.len() - i,
        decreases i,
    {
        i = i - 1;
        proof {
            lemma_skip_skip(s@, i as int, 1);
            assert(s@.skip(i as int)[0] == s@[i as int]);
        }
        if s[i] == '.' {
            n = n + 1;
        }
    }
    assert(s@.skip(0) =~= s@);
    n
}

fn is_decimal_literal_exec(s: &Vec<char>) -> (r: bool)
    ensures
        r == is_decimal_literal(s@),
{
    let neg = s.len() > 1 && s[0] == '-';
    assert(neg == (s@.len() > 1 && s@[0] == '-'));
    let start: usize = if neg { 1 } else { 0 };
    if start >= s.len() {
        proof {
            if s@.len() > 1 && s@[0] == '-' {
            } else {
                assert(!crate::numerics::all_digits(s@));
            }
        }
        return false;
    }
    let mut i = start;
    while i < s.len()
        invariant
            start <= i <= s.len(),
            start < s.len(),
            start == (if neg { 1usize } else { 0usize }),
            neg == (s@.len() > 1 && s@[0] == '-'),
            forall|j: int| start <= j < i ==> is_digit(#[trigger] s@[j]),
        decreases s.len() - i,
    {
        if !is_decimal_digit(s[i]) {
            proof {
                assert(!is_digit(s@[i as int]));
                if start == 1 {
                    assert(s@.skip(1)[i - 1] == s@[i as int]);
                    assert(!is_digit(s@[0]));
                    assert(!all_digits(s@));
                    assert(!all_digits(s@.skip(1)));
                } else {
                    assert(!all_digits(s@));
                }
            }
            return false;
        }
        i = i + 1;
    }
    proof {
        if start == 1 {
            assert forall|j: int| 0 <= j < s@.skip(1).len() implies is_digit(#[trigger] s@.skip(1)[j]) by {
                assert(s@.skip(1)[j] == s@[j + 1]);
            }
        }
    }
    true
}

/// `text`, with a leading `-` when `negative`.
fn signed(negative: bool, text0: &Vec<char>) -> (text: Vec<char>)
    ensures
        text@ == (if negative { seq!['-'] + text0@ } else { text0@ }),
{
    let mut text: Vec<char> = Vec::new();
    if negative {
        text.push('-');
    }
    let mut j: usize = 0;
    while j < text0.len()
        invariant
            j <= text0.len(),
            text@ == (if negative { seq!['-'] } else { Seq::<char>::empty() }) + text0@.take(j as int),
        decreases text0.len() - j,
    {
        text.push(text0[j]);
        j = j + 1;
        assert(text@ =~= (if negative { seq!['-'] } else { Seq::<char>::empty() }) + text0@.take(j as int));
    }
    assert(text0@.take(text0.len() as int) =~= text0@);
    assert(text@ =~= (if negative { seq!['-'] + text0@ } else { text0@ }));
    text
}

/// The token for `numerator / denominator`.
fn fraction(numerator: &Integer, denominator: &Integer) -> (t: Token)
    requires
        denominator.value() != 0,
    ensures
        t@ == fraction_token(numerator.value(), denominator.value()),
{
    let (a, b) = rational_parts(numerator, denominator);
    let one = crate::bignum::integer_from_usize(1);
    if crate::bignum::integer_order(&b, &one) == 0 {
        Token::Integer(a)
    } else {
        Token::Ratio(Ratio::new(a, b))
    }
}

/// A number literal that starts at `pos`, after its sign (which `negative` gives).
/// `None` where the literal is malformed.
#[verifier::rlimit(40)]
pub(crate) fn number(chars: &Vec<char>, pos: usize, negative: bool, one_dot: bool) -> (r: Option<(usize, Token)>)
    requires
        pos <= chars.len(),
    ensures
        match spec_number(chars@.skip(pos as int), negative, one_dot) {
            Some((n, t)) => r matches Some((end, tok)) && end == pos + n && end <= chars.len() && tok@ == t,
            None => r is None,
        },
    decreases chars.len() - pos,
{
    let ghost s = chars@.skip(pos as int);
    let (end, text0, f) = number_text(chars, pos, one_dot);
    let text = signed(negative, &text0);
    let literal = string_from_chars(&text, 0, text.len());
    assert(text@.subrange(0, text.len() as int) =~= text@);
    if f {
        if count_dots_exec(&text) <= 1 {
            return Some((end, Token::Float(Float::from_str(literal.as_str()))));
        } else {
            return None;
        }
    }
    if !is_decimal_literal_exec(&text) || end == pos {
        return None;
    }
    let numerator = integer_parse(literal.as_str());
    if end < chars.len() && chars[end] == '/' {
        proof {
            lemma_skip_skip(chars@, pos as int, (end - pos) as int);
            assert(s.skip((end - pos) as int)[0] == chars@[end as int]);
        }
        let neg2 = end + 1 < chars.len() && chars[end + 1] == '-';
        let k: usize = if neg2 { 2 } else { 1 };
        proof {
            if end + 1 < chars.len() {
                assert(s.skip((end - pos) as int)[1] == chars@[end + 1]);
            }
            lemma_skip_skip(chars@, end as int, k as int);
        }
        match number(chars, end + k, neg2, one_dot) {
            Some((end2, Token::Integer(denominator))) => {
                let zero = crate::bignum::integer_from_usize(0);
                if crate::bignum::integer_order(&denominator, &zero) == 0 {
                    None
                } else {
                    Some((end2, fraction(&numerator, &denominator)))
                }
            },
            _ => None,
        }
    } else {
        proof {
            if end < chars.len() {
                lemma_skip_skip(chars@, pos as int, (end - pos) as int);
                assert(s.skip((end - pos) as int)[0] == chars@[end as int]);
            }
        }
        Some((end, Token::Integer(numerator)))
    }
}

/// After a `-` at `pos - 1`: a negative number when a digit follows, else a symbol
/// whose name starts with `-`. `None` where that symbol would be namespaced.
fn negative_number_or_symbol(chars: &Vec<char>, pos: usize) -> (r: Option<(usize, Token)>)
    requires
        pos <= chars.len(),
    ensures
        match spec_negative_number_or_symbol(chars@.skip(pos as int)) {
            Some((n, t)) => r matches Some((end, tok)) && end == pos + n && end <= chars.len() && tok@ == t,
            None => r is None,
        },
{
    proof {
        if pos < chars.len() {
            assert(chars@.skip(pos as int)[0] == chars@[pos as int]);
        }
    }
    if pos < chars.len() && is_decimal_digit(chars[pos]) {
        number(chars, pos, true, true)
    } else {
        let (end, t) = symbol(chars, pos);
        match t {
            Token::Symbol(x) => {
                let mut name = String::new();
                name.push('-');
                let xs = crate::strings::chars_of(x.as_str());
                let mut i: usize = 0;
                while i < xs.len()
                    invariant
                        i <= xs.len(),
                        name@ == seq!['-'] + xs@.take(i as int),
                    decreases xs.len() - i,
                {
                    name.push(xs[i]);
                    i = i + 1;
                    assert(name@ =~= seq!['-'] + xs@.take(i as int));
                }
                assert(xs@.take(xs.len() as int) =~= xs@);
                Some((end, Token::Symbol(name)))
            },
            _ => None,
        }
    }
}

/// One step of the tokenizer at `pos`: where it ends and the token it reads, if any.
/// `None` where the input is malformed.
fn next(chars: &Vec<char>, pos: usize) -> (r: Option<(usize, Option<Token>)>)
    requires
        pos < chars.len(),
    ensures
        match spec_step(chars@.skip(pos as int)) {
            Some((n, ts)) => r matches Some((end, tok)) && end == pos + n && end <= chars.len()
                && ts == (match tok { Some(t) => seq![t@], None => Seq::<SpecToken>::empty() }),
            None => r is None,
        },
{
    let ghost s = chars@.skip(pos as int);
    let c = chars[pos];
    assert(s[0] == c);
    let after = rest(chars, pos);
    proof {
        lemma_skip_skip(chars@, pos as int, 1);
    }
    if c == '@' {
        Some((after, Some(Token::Deref)))
    } else if c == '(' {
        Some((after, Some(Token::LeftParen)))
    } else if c == ')' {
        Some((after, Some(Token::RightParen)))
    } else if c == '{' {
        Some((after, Some(Token::LeftBrace)))
    } else if c == '}' {
        Some((after, Some(Token::RightBrace)))
    } else if c == '[' {
        Some((after, Some(Token::LeftBracket)))
    } else if c == ']' {
        Some((after, Some(Token::RightBracket)))
    } else if c == '\'' {
        Some((after, Some(Token::Quote)))
    } else if c == '"' {
        let (end, t) = string(chars, after);
        Some((end, Some(t)))
    } else if c == ':' {
        let (end, t) = keyword(chars, after);
        Some((end, Some(t)))
    } else if c == ';' {
        let end = comment(chars, after);
        Some((end, None))
    } else if c == '/' {
        let mut slash = String::new();
        slash.push('/');
        Some((after, Some(Token::Symbol(slash))))
    } else if c == '-' {
        match negative_number_or_symbol(chars, after) {
            Some((end, t)) => Some((end, Some(t))),
            None => None,
        }
    } else if is_whitespace(c) {
        Some((after, None))
    } else if is_decimal_digit(c) {
        match number(chars, pos, false, true) {
            Some((end, t)) => Some((end, Some(t))),
            None => None,
        }
    } else {
        let (end, t) = symbol(chars, pos);
        Some((end, Some(t)))
    }
}

/// `Some(prefix + s)` when `rest` is `Some(s)`, else `None`.
pub open spec fn prepend(prefix: Seq<SpecToken>, rest: Option<Seq<SpecToken>>) -> Option<Seq<SpecToken>> {
    match rest {
        Some(s) => Some(prefix + s),
        None => None,
    }
}

/// The tokens of `input`, or `None` where it is malformed: a `/` in a number literal that
/// no integer follows, a zero denominator, or a `-` followed by a namespaced symbol.
pub fn try_tokenize(input: &str) -> (r: Option<Vec<Token>>)
    ensures
        match spec_tokenize(input@) {
            Some(ts) => r matches Some(v) && tokens_view(v@) == ts,
            None => r is None,
        },
{
    let chars = crate::strings::chars_of(input);
    let mut tokens: Vec<Token> = Vec::new();
    let mut pos: usize = 0;
    assert(chars@.skip(0) =~= chars@);
    while pos < chars.len()
        invariant
            pos <= chars.len(),
            chars@ == input@,
            spec_tokenize(chars@) == prepend(tokens_view(tokens@), spec_tokenize(chars@.skip(pos as int))),
        decreases chars.len() - pos,
    {
        let ghost s = chars@.skip(pos as int);
        match next(chars_ref(&chars), pos) {
            Some((end, tok)) => {
                if end <= pos {
                    return None;
                }
                proof {
                    lemma_skip_skip(chars@, pos as int, (end - pos) as int);
                }
                let ghost before = tokens_view(tokens@);
                match tok {
                    Some(t) => {
                        tokens.push(t);
                        assert(tokens_view(tokens@) =~= before + seq![t@]);
                    },
                    None => {
                        assert(before + Seq::<SpecToken>::empty() =~= before);
                    },
                }
                proof {
                    let ts = (spec_step(s)->0).1;
                    match spec_tokenize(chars@.skip(end as int)) {
                        Some(more) => {
                            assert(before + (ts + more) =~= (before + ts) + more);
                        },
                        None => {},
                    }
                }
                pos = end;
            },
            None => {
                assert(s.len() > 0);
                assert(spec_tokenize(s) is None);
                assert(spec_tokenize(chars@) is None);
                assert(input@ == chars@);
                return None;
            },
        }
    }
    assert(chars@.skip(pos as int) =~= Seq::<char>::empty());
    assert(tokens_view(tokens@) + Seq::<SpecToken>::empty() =~= tokens_view(tokens@));
    Some(tokens)
}

fn chars_ref(v: &Vec<char>) -> (r: &Vec<char>)
    ensures
        r@ == v@,
{
    v
}

/// The tokens of `input`, which must be well formed (see `try_tokenize`).
pub fn tokenize(input: &str) -> (r: Vec<Token>)
    requires
        spec_tokenize(input@) is Some,
    ensures
        tokens_view(r@) == spec_tokenize(input@)->0,
{
    match try_tokenize(input) {
        Some(v) => v,
        None => Vec::new(),
    }
}

} // verus!
