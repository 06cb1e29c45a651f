//! The scanner: from source text to tokens.

use crate::lexical::{
    is_alpha, is_alphanumeric, is_digit, keyword, keywords, lemma_step_advances, lemma_join_after,
    lookup, newlines, number_end, run_end, scan, scan_from, step, LexErrorKind, LexErrorModel,
    Outcome, Run, Scanned,
};
use crate::grammar::well_formed;
use crate::lexical_facts::lemma_scan_tokens;
use crate::text::{chars_of, string_of};
use crate::token::{Token, TokenModel, TokenType};
use vstd::prelude::*;
use vstd::string::StringExecFns;

verus! {

/// A lexical error: what is wrong, and the line on which it was found.
#[derive(Clone, Copy, Debug, PartialEq, Eq, Structural)]
pub struct LexError {
    pub kind: LexErrorKind,
    pub line: usize,
}

impl View for LexError {
    type V = LexErrorModel;

    open spec fn view(&self) -> LexErrorModel {
        LexErrorModel { kind: self.kind, line: self.line as nat }
    }
}

impl DeepView for LexError {
    type V = LexErrorModel;

    open spec fn deep_view(&self) -> LexErrorModel {
        self@
    }
}

/// The mathematical value of a keyword table.
pub open spec fn table_view(table: Seq<(String, TokenType)>) -> Seq<(Seq<char>, TokenType)> {
    Seq::new(table.len(), |i: int| (table[i].0@, table[i].1))
}

/// A scanner over one source text.
pub struct Scanner {
    source: Vec<char>,
    keywords: Vec<(String, TokenType)>,
    tokens: Vec<Token>,
    errors: Vec<LexError>,
    start: usize,
    current: usize,
    line: usize,
    done: bool,
}

impl Scanner {
    /// The source text.
    pub closed spec fn source(&self) -> Seq<char> {
        self.source@
    }

    /// The tokens and errors found so far.
    pub closed spec fn found(&self) -> Scanned {
        Scanned { tokens: self.tokens.deep_view(), errors: self.errors.deep_view() }
    }

    /// Whether this scanner's state is sound while it reads a lexeme.
    spec fn reading(&self) -> bool {
        &&& self.source@.len() < usize::MAX
        &&& table_view(self.keywords@) == keywords()
        &&& self.start <= self.current <= self.source@.len()
        &&& 1 <= self.line <= self.current + 1
    }

    /// Whether this scanner's state is sound: what it has found and what is
    /// left of the source make up the scan of the whole.
    pub closed spec fn wf(&self) -> bool {
        &&& self.reading()
        &&& if self.done {
            self.found() == scan(self.source@)
        } else {
            self.found().join(scan_from(self.source@, self.current as int, self.line as nat))
                == scan(self.source@)
        }
    }

    /// Whether `self` differs from `before` only in its cursor.
    spec fn moved_from(&self, before: &Scanner) -> bool {
        *self == (Scanner { current: self.current, ..*before })
    }

    /// Whether `self` is `before` after the step that `before` was about to
    /// take.
    spec fn stepped_from(&self, before: &Scanner) -> bool {
        let step = step(before.source@, before.start as int, before.line as nat);
        &&& self.source == before.source
        &&& self.keywords == before.keywords
        &&& self.done == before.done
        &&& self.start == before.start
        &&& self.current == step.end
        &&& self.line == step.line
        &&& self.found() == before.found().with(step.outcome)
    }

    /// A scanner at the start of `source`.
    pub fn new(source: &str) -> (scanner: Scanner)
        requires
            source@.len() < usize::MAX,
        ensures
            scanner.wf(),
            scanner.source() == source@,
            scanner.found() == Scanned::empty(),
    {
        let mut table: Vec<(String, TokenType)> = Vec::new();
        table.push((String::from_str("and"), TokenType::And));
        table.push((String::from_str("class"), TokenType::Class));
        table.push((String::from_str("else"), TokenType::Else));
        table.push((String::from_str("false"), TokenType::False));
        table.push((String::from_str("for"), TokenType::For));
        table.push((String::from_str("fun"), TokenType::Fun));
        table.push((String::from_str("if"), TokenType::If));
        table.push((String::from_str("nil"), TokenType::Nul));
        table.push((String::from_str("or"), TokenType::Or));
        table.push((String::from_str("print"), TokenType::Print));
        table.push((String::from_str("return"), TokenType::Return));
        table.push((String::from_str("super"), TokenType::Super));
        table.push((String::from_str("this"), TokenType::This));
        table.push((String::from_str("true"), TokenType::True));
        table.push((String::from_str("var"), TokenType::Var));
        table.push((String::from_str("while"), TokenType::While));
        let scanner = Scanner {
            source: chars_of(source),
            keywords: table,
            tokens: Vec::new(),
            errors: Vec::new(),
            start: 0,
            current: 0,
            line: 1,
            done: false,
        };
        proof {
            assert(table_view(scanner.keywords@) =~= keywords());
            assert(scanner.found().tokens =~= Seq::empty());
            assert(scanner.found().errors =~= Seq::empty());
            assert(scanner.found().join(scan(source@)).tokens =~= scan(source@).tokens);
            assert(scanner.found().join(scan(source@)).errors =~= scan(source@).errors);
        }
        scanner
    }

    /// Scans the source to its end and returns the tokens, the last of which
    /// marks the end of the input. The errors met on the way are kept for
    /// `errors`. A second call scans nothing and returns the same tokens.
    pub fn scan_tokens(&mut self) -> (tokens: &Vec<Token>)
        requires
            old(self).wf(),
        ensures
            final(self).wf(),
            final(self).source() == old(self).source(),
            final(self).found() == scan(old(self).source()),
            tokens.deep_view() == scan(old(self).source()).tokens,
            tokens.len() >= 1,
            tokens[tokens.len() - 1].token_type == TokenType::Eof,
            forall|i: int| 0 <= i < tokens.len() - 1 ==> tokens[i].token_type != TokenType::Eof,
            well_formed(tokens.deep_view()),
    {
        proof {
            lemma_scan_tokens(self.source@);
        }
        if !self.done {
            while !self.is_at_end()
                invariant
                    self.wf(),
                    !self.done,
                    self.source == old(self).source,
                decreases self.source@.len() - self.current,
            {
                self.start = self.current;
                let ghost before = *self;
                self.scan_token();
                proof {
                    let step = step(before.source@, before.start as int, before.line as nat);
                    lemma_step_advances(before.source@, before.start as int, before.line as nat);
                    lemma_join_after(
                        before.found(),
                        step.outcome,
                        scan_from(self.source@, step.end, step.line),
                    );
                }
            }
            let ghost before = *self;
            self.tokens.push(Token::new(TokenType::Eof, String::new(), String::new(), self.line));
            self.done = true;
            proof {
                let rest = scan_from(before.source@, before.current as int, before.line as nat);
                assert(self.found().tokens =~= before.found().join(rest).tokens);
                assert(self.found().errors =~= before.found().join(rest).errors);
            }
        }
        proof {
            let found = scan(self.source@).tokens;
            assert(self.tokens.len() == found.len());
            assert(found.last() == self.tokens[self.tokens.len() - 1]@);
            assert forall|i: int| 0 <= i < self.tokens.len() - 1 implies self.tokens[i].token_type
                != TokenType::Eof by {
                assert(found[i] == self.tokens[i]@);
            }
        }
        &self.tokens
    }

    /// The errors found so far, in the order of the source.
    pub fn errors(&self) -> (errors: &Vec<LexError>)
        ensures
            errors.deep_view() == self.found().errors,
    {
        &self.errors
    }

    /// Reads the lexeme that starts at the cursor.
    fn scan_token(&mut self)
        requires
            old(self).reading(),
            old(self).start == old(self).current,
            old(self).current < old(self).source@.len(),
        ensures
            final(self).reading(),
            final(self).stepped_from(old(self)),
    {
        proof {
            lemma_step_advances(self.source@, self.start as int, self.line as nat);
        }
        let c = match self.advance() {
            Some(c) => c,
            None => {
                return ;
            },
        };
        match c {
            '(' => self.add_token(TokenType::LeftParen, String::new()),
            ')' => self.add_token(TokenType::RightParen, String::new()),
            '{' => self.add_token(TokenType::LeftBrace, String::new()),
            '}' => self.add_token(TokenType::RightBrace, String::new()),
            ',' => self.add_token(TokenType::Comma, String::new()),
            '.' => self.add_token(TokenType::Dot, String::new()),
            '-' => self.add_token(TokenType::Minus, String::new()),
            '+' => self.add_token(TokenType::Plus, String::new()),
            ';' => self.add_token(TokenType::Semicolon, String::new()),
            '*' => self.add_token(TokenType::Star, String::new()),
            '!' => {
                if self.is_match('=') {
                    self.add_token(TokenType::BangEqual, String::new());
                } else {
                    self.add_token(TokenType::Bang, String::new());
                }
            },
            '=' => {
                if self.is_match('=') {
                    self.add_token(TokenType::EqualEqual, String::new());
                } else {
                    self.add_token(TokenType::Equal, String::new());
                }
            },
            '<' => {
                if self.is_match('=') {
                    self.add_token(TokenType::LessEqual, String::new());
                } else {
                    self.add_token(TokenType::Less, String::new());
                }
            },
            '>' => {
                if self.is_match('=') {
                    self.add_token(TokenType::GreaterEqual, String::new());
                } else {
                    self.add_token(TokenType::Greater, String::new());
                }
            },
            '/' => {
                if self.is_match('/') {
                    while self.peek() != '\n' && !self.is_at_end()
                        invariant
                            self.reading(),
                            self.moved_from(old(self)),
                            self.start + 2 <= self.current,
                            run_end(self.source@, self.current as int, Run::Comment) == run_end(
                                self.source@,
                                self.start + 2,
                                Run::Comment,
                            ),
                        decreases self.source@.len() - self.current,
                    {
                        self.advance();
                    }
                } else {
                    self.add_token(TokenType::Slash, String::new());
                }
            },
            ' ' => {},
            '\r' => {},
            '\n' => {
                self.line += 1;
            },
            '"' => self.string(),
            c => {
                if self.is_digit(c) {
                    self.number();
                } else if self.is_alpha(c) {
                    self.identifier();
                } else {
                    self.add_error(LexErrorKind::UnexpectedCharacter(c));
                }
            },
        }
    }

    /// Reads the rest of a number, whose first digit has been read.
    fn number(&mut self)
        requires
            old(self).reading(),
            old(self).start + 1 == old(self).current,
            is_digit(old(self).source@[old(self).start as int]),
        ensures
            final(self).reading(),
            final(self).stepped_from(old(self)),
    {
        while self.is_digit(self.peek())
            invariant
                self.reading(),
                self.moved_from(old(self)),
                self.start < self.current,
                run_end(self.source@, self.current as int, Run::Digits) == run_end(
                    self.source@,
                    self.start as int,
                    Run::Digits,
                ),
            decreases self.source@.len() - self.current,
        {
            self.advance();
        }
        if self.peek() == '.' && self.is_digit(self.peek_next()) {
            self.advance();
            while self.is_digit(self.peek())
                invariant
                    self.reading(),
                    self.moved_from(old(self)),
                    self.start < self.current,
                    run_end(self.source@, self.current as int, Run::Digits) == number_end(
                        self.source@,
                        self.start as int,
                    ),
                decreases self.source@.len() - self.current,
            {
                self.advance();
            }
        }
        let value = string_of(&self.source, self.start, self.current);
        self.add_token(TokenType::Number, value);
    }

    /// Reads the rest of a string literal, whose opening quote has been read.
    fn string(&mut self)
        requires
            old(self).reading(),
            old(self).start + 1 == old(self).current,
            old(self).source@[old(self).start as int] == '"',
        ensures
            final(self).reading(),
            final(self).stepped_from(old(self)),
    {
        let mut lines: usize = 0;
        while self.peek() != '"' && !self.is_at_end()
            invariant
                self.reading(),
                self.moved_from(old(self)),
                self.start < self.current,
                run_end(self.source@, self.current as int, Run::Body) == run_end(
                    self.source@,
                    self.start + 1,
                    Run::Body,
                ),
                lines == newlines(self.source@, self.start + 1, self.current as int),
                lines <= self.current - self.start - 1,
            decreases self.source@.len() - self.current,
        {
            if self.peek() == '\n' {
                lines += 1;
            }
            self.advance();
        }
        if self.is_at_end() {
            self.line += lines;
            self.add_error(LexErrorKind::UnterminatedString);
            return ;
        }
        let value = string_of(&self.source, self.start + 1, self.current);
        self.advance();
        self.add_token(TokenType::String, value);
        self.line += lines;
    }

    /// Reads the rest of an identifier or keyword, whose first character has
    /// been read.
    fn identifier(&mut self)
        requires
            old(self).reading(),
            old(self).start + 1 == old(self).current,
            is_alpha(old(self).source@[old(self).start as int]),
        ensures
            final(self).reading(),
            final(self).stepped_from(old(self)),
    {
        while self.is_alphanumeric(self.peek())
            invariant
                self.reading(),
                self.moved_from(old(self)),
                self.start < self.current,
                run_end(self.source@, self.current as int, Run::Word) == run_end(
                    self.source@,
                    self.start as int,
                    Run::Word,
                ),
            decreases self.source@.len() - self.current,
        {
            self.advance();
        }
        let word = string_of(&self.source, self.start, self.current);
        match self.keyword(&word) {
            Some(kind) => self.add_token(kind, String::new()),
            None => self.add_token(TokenType::Identifier, word),
        }
    }

    /// The kind of the keyword `word`, if the table holds it.
    fn keyword(&self, word: &String) -> (kind: Option<TokenType>)
        requires
            self.reading(),
        ensures
            kind == keyword(word@),
    {
        let mut i: usize = 0;
        while i < self.keywords.len()
            invariant
                self.reading(),
                i <= self.keywords.len(),
                keyword(word@) == lookup(keywords(), word@, i as int),
            decreases self.keywords.len() - i,
        {
            if self.keywords[i].0 == *word {
                return Some(self.keywords[i].1);
            }
            i += 1;
        }
        None
    }

    /// Reads the next character if it is `expected`.
    fn is_match(&mut self, expected: char) -> (matched: bool)
        requires
            old(self).reading(),
        ensures
            matched == (old(self).current < old(self).source@.len()
                && old(self).source@[old(self).current as int] == expected),
            final(self).moved_from(old(self)),
            final(self).current == old(self).current + if matched {
                1int
            } else {
                0int
            },
    {
        if self.is_at_end() {
            return false;
        }
        if self.source[self.current] != expected {
            return false;
        }
        self.advance();
        true
    }

    /// The character at the cursor, or the null character at the end of the
    /// source.
    fn peek(&self) -> (c: char)
        requires
            self.reading(),
        ensures
            c == if self.current < self.source@.len() {
                self.source@[self.current as int]
            } else {
                '\0'
            },
    {
        if self.is_at_end() {
            return '\0';
        }
        self.source[self.current]
    }

    /// The character after the one at the cursor, or the null character where
    /// the source has none.
    fn peek_next(&self) -> (c: char)
        requires
            self.reading(),
        ensures
            c == if self.current + 1 < self.source@.len() {
                self.source@[self.current + 1]
            } else {
                '\0'
            },
    {
        if self.current + 1 >= self.source.len() {
            return '\0';
        }
        self.source[self.current + 1]
    }

    fn is_digit(&self, c: char) -> (digit: bool)
        ensures
            digit == is_digit(c),
    {
        c >= '0' && c <= '9'
    }

    fn is_alpha(&self, c: char) -> (alpha: bool)
        ensures
            alpha == is_alpha(c),
    {
        (c >= 'a' && c <= 'z') || (c >= 'A' && c <= 'Z') || c == '_'
    }

    fn is_alphanumeric(&self, c: char) -> (alphanumeric: bool)
        ensures
            alphanumeric == is_alphanumeric(c),
    {
        self.is_alpha(c) || self.is_digit(c)
    }

    fn is_at_end(&self) -> (at_end: bool)
        ensures
            at_end == (self.current >= self.source@.len()),
    {
        self.current >= self.source.len()
    }

    /// Reads one character, if any is left.
    fn advance(&mut self) -> (c: Option<char>)
        requires
            old(self).reading(),
        ensures
            final(self).moved_from(old(self)),
            final(self).reading(),
            old(self).current < old(self).source@.len() ==> {
                &&& final(self).current == old(self).current + 1
                &&& c == Some(old(self).source@[old(self).current as int])
            },
            old(self).current >= old(self).source@.len() ==> {
                &&& final(self).current == old(self).current
                &&& c.is_none()
            },
    {
        if self.is_at_end() {
            return None;
        }
        let c = self.source[self.current];
        self.current += 1;
        Some(c)
    }

    /// Records an error of kind `kind` on the current line.
    fn add_error(&mut self, kind: LexErrorKind)
        requires
            old(self).reading(),
        ensures
            final(self).reading(),
            final(self).source == old(self).source,
            final(self).keywords == old(self).keywords,
            final(self).done == old(self).done,
            final(self).start == old(self).start,
            final(self).current == old(self).current,
            final(self).line == old(self).line,
            final(self).found() == old(self).found().with(
                Outcome::Error(LexErrorModel { kind, line: old(self).line as nat }),
            ),
    {
        self.errors.push(LexError { kind, line: self.line });
        proof {
            assert(self.found().errors =~= old(self).found().errors.push(
                (LexErrorModel { kind, line: self.line as nat }),
            ));
            assert(self.found().tokens =~= old(self).found().tokens);
        }
    }

    /// Adds the token of kind `token_type` whose lexeme is the text read since
    /// the start of the step.
    fn add_token(&mut self, token_type: TokenType, literal: String)
        requires
            old(self).reading(),
        ensures
            final(self).reading(),
            final(self).source == old(self).source,
            final(self).keywords == old(self).keywords,
            final(self).done == old(self).done,
            final(self).start == old(self).start,
            final(self).current == old(self).current,
            final(self).line == old(self).line,
            final(self).found() == old(self).found().with(
                Outcome::Token(
                    TokenModel {
                        kind: token_type,
                        lexeme: old(self).source@.subrange(
                            old(self).start as int,
                            old(self).current as int,
                        ),
                        literal: literal@,
                        line: old(self).line as nat,
                    },
                ),
            ),
    {
        let text = string_of(&self.source, self.start, self.current);
        self.tokens.push(Token::new(token_type, text, literal, self.line));
        proof {
            assert(self.found().tokens =~= old(self).found().tokens.push(
                (TokenModel {
                    kind: token_type,
                    lexeme: self.source@.subrange(self.start as int, self.current as int),
                    literal: literal@,
                    line: self.line as nat,
                }),
            ));
            assert(self.found().errors =~= old(self).found().errors);
        }
    }
}

} // verus!
