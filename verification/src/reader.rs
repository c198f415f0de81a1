use vstd::prelude::*;

verus! {

/// Characters that open a delimited form.
pub open spec fn is_opener(c: char) -> bool {
    c == '(' || c == '[' || c == '{' || c == '"'
}

/// The character that closes what `c` opens.
pub open spec fn closer_of(c: char) -> char {
    if c == '(' {
        ')'
    } else if c == '[' {
        ']'
    } else if c == '{' {
        '}'
    } else {
        '"'
    }
}

/// The delimiters still open after reading `line`, starting from `stack`. A quote closes
/// an open quote; a closing bracket closes the innermost form when it matches it and
/// stops the reading of the line when it does not.
pub open spec fn scan(stack: Seq<char>, line: Seq<char>) -> Seq<char>
    decreases line.len(),
{
    if line.len() == 0 {
        stack
    } else {
        let c = line[0];
        if is_opener(c) {
            if stack.len() > 0 && stack.last() == '"' && c == '"' {
                scan(stack.drop_last(), line.skip(1))
            } else {
                scan(stack.push(c), line.skip(1))
            }
        } else if c == ')' || c == ']' || c == '}' {
            if stack.len() > 0 {
                if closer_of(stack.last()) == c {
                    scan(stack.drop_last(), line.skip(1))
                } else {
                    stack
                }
            } else {
                scan(stack, line.skip(1))
            }
        } else {
            scan(stack, line.skip(1))
        }
    }
}

/// The input after `line` is added: lines are joined by a newline.
pub open spec fn joined(input: Seq<char>, line: Seq<char>) -> Seq<char> {
    if input.len() == 0 { line } else { input + seq!['\n'] + line }
}

/// Input is complete when every delimiter it opened is closed, or when it does not
/// start with an opening delimiter.
pub open spec fn complete(input: Seq<char>, stack: Seq<char>) -> bool {
    stack.len() == 0 || input.len() == 0 || !is_opener(input[0])
}

/// Collects lines of input until the forms they hold are complete.
pub struct LineReader {
    input: String,
    stack: Vec<char>,
}

impl LineReader {
    /// The text read so far.
    pub closed spec fn text(&self) -> Seq<char> {
        self.input@
    }

    /// The delimiters still open.
    pub closed spec fn open(&self) -> Seq<char> {
        self.stack@
    }

    /// A reader that has read nothing.
    pub fn new() -> (r: LineReader)
        ensures
            r.text() == Seq::<char>::empty(),
            r.open() == Seq::<char>::empty(),
    {
        LineReader { input: String::new(), stack: Vec::new() }
    }

    /// Adds one line; whether the input is now complete.
    pub fn feed(&mut self, line: &str) -> (done: bool)
        ensures
            final(self).text() == joined(old(self).text(), line@),
            final(self).open() == scan(old(self).open(), line@),
            done == complete(final(self).text(), final(self).open()),
    {
        if self.first_char().is_some() {
            self.input.push('\n');
        }
        let chars = crate::strings::chars_of(line);
        let mut i: usize = 0;
        let ghost stack0 = self.stack@;
        let ghost input0 = self.input@;
        assert(chars@.skip(0) =~= chars@);
        let mut stopped = false;
        while i < chars.len()
            invariant
                i <= chars.len(),
                chars@ == line@,
                self.input@ == input0,
                scan(stack0, line@) == if stopped { self.stack@ } else { scan(self.stack@, chars@.skip(i as int)) },
            decreases chars.len() - i,
        {
            let c = chars[i];
            proof {
                assert(chars@.skip(i as int)[0] == c);
                assert(chars@.skip(i as int).skip(1) =~= chars@.skip(i + 1));
            }
            if !stopped {
                if c == '(' || c == '[' || c == '{' || c == '"' {
                    let n = self.stack.len();
                    if n > 0 && self.stack[n - 1] == '"' && c == '"' {
                        self.stack.pop();
                    } else {
                        self.stack.push(c);
                    }
                } else if c == ')' || c == ']' || c == '}' {
                    let n = self.stack.len();
                    if n > 0 {
                        let top = self.stack[n - 1];
                        let matching = if top == '(' {
                            ')'
                        } else if top == '[' {
                            ']'
                        } else if top == '{' {
                            '}'
                        } else {
                            '"'
                        };
                        if matching == c {
                            self.stack.pop();
                        } else {
                            stopped = true;
                        }
                    }
                }
            }
            i = i + 1;
        }
        let ghost before = self.input@;
        crate::printer::push_all(&mut self.input, line);
        proof {
            assert(chars@.skip(i as int).len() == 0);
            if old(self).input@.len() == 0 {
                assert(self.input@ =~= line@);
            } else {
                assert(self.input@ =~= old(self).input@ + seq!['\n'] + line@);
            }
        }
        let first = self.first_char();
        let opener = match first {
            Some(c) => c == '(' || c == '[' || c == '{' || c == '"',
            None => false,
        };
        self.stack.len() == 0 || !opener
    }

    fn first_char(&self) -> (c: Option<char>)
        ensures
            match c {
                Some(x) => self.input@.len() > 0 && x == self.input@[0],
                None => self.input@.len() == 0,
            },
    {
        let chars = crate::strings::chars_of(self.input.as_str());
        if chars.len() == 0 {
            None
        } else {
            Some(chars[0])
        }
    }

    /// The text read, ending the reading.
    pub fn into_text(self) -> (s: String)
        ensures
            s@ == self.text(),
    {
        self.input
    }
}

} // verus!
