use vstd::prelude::*;
use crate::lexer_spec::{spec_is_whitespace, spec_number, spec_symbol, string_scan, unreserved_len};
use crate::numerics::is_digit;
use crate::peeking_take_while::Peekable;
use crate::strings::chars_of;
use crate::token::{SpecToken, Token, tokens_view};

verus! {

/// The number of white space characters (commas included) that `s` starts with.
pub open spec fn leading_whitespace(s: Seq<char>) -> nat
    decreases s.len(),
{
    if s.len() > 0 && spec_is_whitespace(s[0]) {
        1 + leading_whitespace(s.skip(1))
    } else {
        0
    }
}

/// The token at the start of `s`, which starts with a character that is not white
/// space: how many characters it takes and the token, or `None` where the input is
/// malformed (a number that does not parse).
pub open spec fn stream_token(s: Seq<char>) -> Option<(nat, SpecToken)> {
    let c = s[0];
    let rest = s.skip(1);
    if c == '(' {
        Some((1, SpecToken::LeftParen))
    } else if c == ')' {
        Some((1, SpecToken::RightParen))
    } else if c == '{' {
        Some((1, SpecToken::LeftBrace))
    } else if c == '}' {
        Some((1, SpecToken::RightBrace))
    } else if c == '[' {
        Some((1, SpecToken::LeftBracket))
    } else if c == ']' {
        Some((1, SpecToken::RightBracket))
    } else if c == '\'' {
        Some((1, SpecToken::Quote))
    } else if c == '"' {
        let (content, n) = string_scan(rest);
        Some((n + 1, SpecToken::String(content)))
    } else if c == ':' {
        let n = unreserved_len(rest);
        Some((n + 1, SpecToken::Keyword(seq![':'] + rest.take(n as int))))
    } else if c == '/' {
        Some((1, SpecToken::Symbol(seq!['/'])))
    } else if c == '-' {
        if rest.len() > 0 && is_digit(rest[0]) {
            match spec_number(rest, true, false) {
                Some((n, t)) => Some((n + 1, t)),
                None => None,
            }
        } else {
            Some((1, SpecToken::Symbol(seq!['-'])))
        }
    } else if is_digit(c) {
        spec_number(s, false, false)
    } else {
        let (n, t) = spec_symbol(s);
        Some((n, t))
    }
}

/// The next token of `s` after any white space: how many characters are read and the
/// token, with no token at the end of the input; `None` where the input is malformed.
pub open spec fn stream_next(s: Seq<char>) -> Option<(nat, Option<SpecToken>)> {
    let w = leading_whitespace(s);
    let t = s.skip(w as int);
    if t.len() == 0 {
        Some((w, None))
    } else {
        match stream_token(t) {
            Some((n, tok)) => Some((w + n, Some(tok))),
            None => None,
        }
    }
}

/// Every token of `s`, in order; `None` where some token is malformed.
pub open spec fn stream_all(s: Seq<char>) -> Option<Seq<SpecToken>>
    decreases s.len(),
{
    match stream_next(s) {
        Some((n, Some(t))) => if 0 < n <= s.len() {
            match stream_all(s.skip(n as int)) {
                Some(more) => Some(seq![t] + more),
                None => None,
            }
        } else {
            None
        },
        Some((_, None)) => Some(seq![]),
        None => None,
    }
}

/// The tokens of a stream of characters, read one at a time.
pub struct Tokens {
    iterator: Peekable<char>,
}

impl Tokens {
    /// The characters not read yet.
    pub closed spec fn remaining(&self) -> Seq<char> {
        self.iterator.remaining()
    }

    /// How many characters have been read.
    pub closed spec fn offset(&self) -> nat {
        self.iterator.position()
    }

    fn read_count(&self) -> (n: usize)
        ensures
            n == self.offset(),
    {
        self.iterator.read_count()
    }

    /// The tokens of the characters `iterator`.
    pub fn new(iterator: Vec<char>) -> (t: Tokens)
        ensures
            t.remaining() == iterator@,
    {
        Tokens { iterator: Peekable::new(iterator) }
    }

    /// The tokens of `input`.
    pub fn from_str(input: &str) -> (t: Tokens)
        ensures
            t.remaining() == input@,
    {
        Tokens { iterator: Peekable::new(chars_of(input)) }
    }

    /// The next token, or `Some(None)` at the end of the input; `None` where the next
    /// token is malformed, in which case nothing is read.
    pub fn try_next(&mut self) -> (r: Option<Option<Token>>)
        ensures
            match stream_next(old(self).remaining()) {
                Some((n, t)) => r matches Some(tok) && n <= old(self).remaining().len()
                    && final(self).remaining() == old(self).remaining().skip(n as int)
                    && final(self).offset() == old(self).offset() + n
                    && t == (match tok { Some(x) => Some(x@), None => None::<SpecToken> }),
                None => r is None && final(self).remaining() == old(self).remaining(),
            },
    {
        let ghost s = self.remaining();
        let pos = self.iterator.read_count();
        let chars = self.iterator.source();
        let n = chars.len();
        let mut i = pos;
        assert(chars@.skip(pos as int) == s);
        assert(s.skip(0) =~= s);
        while i < n && crate::tokenizer::is_whitespace(chars[i])
            invariant
                pos <= i <= n == chars@.len(),
                chars@.skip(pos as int) == s,
                leading_whitespace(s) == (i - pos) + leading_whitespace(s.skip(i - pos)),
                s.skip(i - pos) == chars@.skip(i as int),
            decreases n - i,
        {
            proof {
                assert(s.skip(i - pos)[0] == chars@[i as int]);
                assert(s.skip(i - pos).skip(1) =~= s.skip(i + 1 - pos));
                assert(chars@.skip(i + 1) =~= s.skip(i + 1 - pos));
            }
            i = i + 1;
        }
        proof {
            if i < n {
                assert(s.skip(i - pos)[0] == chars@[i as int]);
            }
        }
        let ghost w = leading_whitespace(s);
        assert(w == i - pos);
        if i == n {
            assert(s.skip(w as int).len() == 0);
            self.iterator.advance_to(i);
            return Some(None);
        }
        let ghost t = s.skip(w as int);
        assert(t == chars@.skip(i as int));
        assert(t[0] == chars[i as int]);
        let c = chars[i];
        let next = i + 1;
        proof {
            assert(t.skip(1) =~= chars@.skip(next as int));
        }
        let r: Option<(usize, Token)> = if c == '(' {
            Some((next, Token::LeftParen))
        } else if c == ')' {
            Some((next, Token::RightParen))
        } else if c == '{' {
            Some((next, Token::LeftBrace))
        } else if c == '}' {
            Some((next, Token::RightBrace))
        } else if c == '[' {
            Some((next, Token::LeftBracket))
        } else if c == ']' {
            Some((next, Token::RightBracket))
        } else if c == '\'' {
            Some((next, Token::Quote))
        } else if c == '"' {
            Some(crate::tokenizer::string(chars, next))
        } else if c == ':' {
            Some(crate::tokenizer::keyword(chars, next))
        } else if c == '/' {
            let mut sym = String::new();
            sym.push('/');
            assert(sym@ =~= seq!['/']);
            Some((next, Token::Symbol(sym)))
        } else if c == '-' {
            if next < n && crate::tokenizer::is_decimal_digit(chars[next]) {
                assert(t.skip(1)[0] == chars[next as int]);
                crate::tokenizer::number(chars, next, true, false)
            } else {
                let mut sym = String::new();
                sym.push('-');
                assert(sym@ =~= seq!['-']);
                Some((next, Token::Symbol(sym)))
            }
        } else if crate::tokenizer::is_decimal_digit(c) {
            crate::tokenizer::number(chars, i, false, false)
        } else {
            Some(crate::tokenizer::symbol(chars, i))
        };
        match r {
            Some((end, tok)) => {
                self.iterator.advance_to(end);
                proof {
                    assert(s.skip(end - pos) =~= chars@.skip(end as int));
                }
                Some(Some(tok))
            },
            None => None,
        }
    }

    /// The next token, or `None` at the end of the input; the next token must not be
    /// malformed (see `try_next`).
    pub fn next(&mut self) -> (r: Option<Token>)
        requires
            stream_next(old(self).remaining()) is Some,
        ensures
            ({
                let (n, t) = stream_next(old(self).remaining())->0;
                &&& final(self).remaining() == old(self).remaining().skip(n as int)
                &&& t == (match r { Some(x) => Some(x@), None => None::<SpecToken> })
            }),
    {
        match self.try_next() {
            Some(t) => t,
            None => None,
        }
    }

    /// Every remaining token, in order; `None` where one of them is malformed.
    pub fn try_collect(&mut self) -> (r: Option<Vec<Token>>)
        ensures
            match stream_all(old(self).remaining()) {
                Some(ts) => r matches Some(v) && tokens_view(v@) == ts,
                None => r is None,
            },
    {
        let ghost s0 = self.remaining();
        let mut out: Vec<Token> = Vec::new();
        assert(tokens_view(out@) =~= Seq::<SpecToken>::empty());
        loop
            invariant
                s0 == old(self).remaining(),
                crate::tokenizer::prepend(tokens_view(out@), stream_all(self.remaining())) == stream_all(s0),
            decreases self.remaining().len(),
        {
            let ghost before = self.remaining();
            let p0 = self.read_count();
            match self.try_next() {
                Some(Some(tok)) => {
                    let p1 = self.read_count();
                    if p1 <= p0 {
                        return None;
                    }
                    proof {
                        let v0 = tokens_view(out@);
                        assert(tokens_view(out@.push(tok)) =~= v0.push(tok@));
                        if let Some(more) = stream_all(self.remaining()) {
                            assert(v0 + (seq![tok@] + more) =~= v0.push(tok@) + more);
                        }
                    }
                    out.push(tok);
                },
                Some(None) => {
                    assert(tokens_view(out@) + Seq::<SpecToken>::empty() =~= tokens_view(out@));
                    return Some(out);
                },
                None => {
                    return None;
                },
            }
        }
    }
}

/// Each token read takes at least one character: a stream yields at most as many tokens
/// as it has characters.
pub proof fn law_stream_all_length(s: Seq<char>)
    ensures
        stream_all(s) matches Some(ts) ==> ts.len() <= s.len(),
    decreases s.len(),
{
    if let Some((n, Some(t))) = stream_next(s) {
        if 0 < n <= s.len() {
            law_stream_all_length(s.skip(n as int));
        }
    }
}

/// Once a stream has reached its end, it stays there: reading again reads nothing and
/// gives no token.
pub proof fn law_stream_end_repeats(s: Seq<char>)
    ensures
        stream_next(s) matches Some((n, None)) ==> n <= s.len() && stream_next(s.skip(n as int)) == Some((0nat, None::<SpecToken>)),
{
    lemma_leading_whitespace_bound(s);
    let w = leading_whitespace(s);
    if s.skip(w as int).len() == 0 {
        let e = s.skip(w as int);
        assert(leading_whitespace(e) == 0);
        assert(e.skip(0) =~= e);
    }
}

proof fn lemma_leading_whitespace_bound(s: Seq<char>)
    ensures
        leading_whitespace(s) <= s.len(),
    decreases s.len(),
{
    if s.len() > 0 && spec_is_whitespace(s[0]) {
        lemma_leading_whitespace_bound(s.skip(1));
    }
}

} // verus!
