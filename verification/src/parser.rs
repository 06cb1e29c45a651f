//! The parser: from tokens to an expression tree, by recursive descent.

use crate::expr::{Expr, ExprModel, LiteralType};
use crate::grammar;
use crate::grammar::{Level, ParseErrorKind, ParseErrorModel, Parsed};
use crate::number::{is_numeral, Decimal};
use crate::token::{Token, TokenModel, TokenType};
use vstd::prelude::*;

verus! {

/// A syntax error: what was expected, and the line of the token that was found
/// in its place.
#[derive(Clone, Copy, Debug, PartialEq, Eq, Structural)]
pub struct ParseError {
    pub kind: ParseErrorKind,
    pub line: usize,
}

impl View for ParseError {
    type V = ParseErrorModel;

    open spec fn view(&self) -> ParseErrorModel {
        ParseErrorModel { kind: self.kind, line: self.line as nat }
    }
}

/// The mathematical value of what a production returns.
pub open spec fn result_view(result: Result<Box<Expr>, ParseError>) -> Result<
    ExprModel,
    ParseErrorModel,
> {
    match result {
        Ok(expr) => Ok(expr@),
        Err(error) => Err(error@),
    }
}

/// A parser over one sequence of tokens.
pub struct Parser {
    tokens: Vec<Token>,
    current: usize,
}

impl Parser {
    /// The tokens that this parser reads.
    pub closed spec fn stream(&self) -> Seq<TokenModel> {
        self.tokens.deep_view()
    }

    /// The index of the next token to read.
    pub closed spec fn cursor(&self) -> int {
        self.current as int
    }

    /// Whether this parser's state is sound: the cursor is on a token or just
    /// behind the last one, and every number token holds a numeral.
    pub closed spec fn wf(&self) -> bool {
        &&& self.current <= self.tokens.len()
        &&& grammar::well_formed(self.stream())
    }

    /// Whether `self` is `before` after a production that gave `result`, where
    /// the grammar gives `parsed`.
    pub open spec fn parsed_from(
        &self,
        before: &Parser,
        result: Result<Box<Expr>, ParseError>,
        parsed: Parsed,
    ) -> bool {
        &&& self.wf()
        &&& self.stream() == before.stream()
        &&& self.cursor() == before.cursor() + parsed.consumed
        &&& result_view(result) == parsed.value
    }

    /// Whether a parser can be made of `tokens`: whether every number token
    /// among them holds a numeral.
    pub fn accepts(tokens: &Vec<Token>) -> (accepted: bool)
        ensures
            accepted == grammar::well_formed(tokens.deep_view()),
    {
        let mut i: usize = 0;
        while i < tokens.len()
            invariant
                i <= tokens.len(),
                grammar::well_formed(tokens.deep_view().take(i as int)),
            decreases tokens.len() - i,
        {
            if tokens[i].token_type == TokenType::Number && Decimal::parse(
                tokens[i].text.as_str(),
            ).is_none() {
                proof {
                    assert(tokens.deep_view()[i as int] == tokens@[i as int]@);
                }
                return false;
            }
            proof {
                let read = tokens.deep_view().take(i + 1);
                assert forall|j: int|
                    0 <= j < read.len() && (#[trigger] read[j]).kind
                        == TokenType::Number implies is_numeral(read[j].lexeme) by {
                    if j < i {
                        assert(read[j] == tokens.deep_view().take(i as int)[j]);
                    }
                }
            }
            i += 1;
        }
        proof {
            assert(tokens.deep_view().take(i as int) =~= tokens.deep_view());
        }
        true
    }

    /// A parser at the start of `tokens`.
    pub fn new(tokens: Vec<Token>) -> (parser: Parser)
        requires
            grammar::well_formed(tokens.deep_view()),
        ensures
            parser.wf(),
            parser.stream() == tokens.deep_view(),
            parser.cursor() == 0,
    {
        Parser { tokens, current: 0 }
    }

    /// Parses one expression from the cursor on. On success the cursor is
    /// behind the expression; on failure it is on the token that was not
    /// expected.
    pub fn parse(&mut self) -> (result: Result<Box<Expr>, ParseError>)
        requires
            old(self).wf(),
        ensures
            final(self).parsed_from(
                old(self),
                result,
                grammar::expression(old(self).stream(), old(self).cursor()),
            ),
    {
        self.expression()
    }

    /// Gives up the token at the cursor and those behind it up to the next
    /// place where parsing may be taken up again: behind a semicolon, before a
    /// keyword that starts a statement, or at the end of the input.
    pub fn synchronize(&mut self)
        requires
            old(self).wf(),
        ensures
            final(self).wf(),
            final(self).stream() == old(self).stream(),
            final(self).cursor() == grammar::resume(old(self).stream(), old(self).cursor()),
            grammar::boundary(final(self).stream(), final(self).cursor()),
    {
        self.advance();
        while !self.is_at_end()
            invariant
                self.wf(),
                self.stream() == old(self).stream(),
                grammar::next_boundary(self.stream(), self.cursor()) == grammar::resume(
                    old(self).stream(),
                    old(self).cursor(),
                ),
            decreases grammar::remaining(self.stream(), self.cursor()),
        {
            match self.previous() {
                Some(token) => {
                    if token.token_type == TokenType::Semicolon {
                        return ;
                    }
                },
                None => {},
            }
            match self.peek() {
                Some(token) => {
                    match token.token_type {
                        TokenType::Class
                        | TokenType::Fun
                        | TokenType::Var
                        | TokenType::For
                        | TokenType::If
                        | TokenType::While
                        | TokenType::Print
                        | TokenType::Return => {
                            return ;
                        },
                        _ => {},
                    }
                },
                None => {},
            }
            self.advance();
        }
    }

    fn expression(&mut self) -> (result: Result<Box<Expr>, ParseError>)
        requires
            old(self).wf(),
        ensures
            final(self).parsed_from(
                old(self),
                result,
                grammar::expression(old(self).stream(), old(self).cursor()),
            ),
        decreases grammar::remaining(old(self).stream(), old(self).cursor()), 14nat,
    {
        self.equality()
    }

    fn equality(&mut self) -> (result: Result<Box<Expr>, ParseError>)
        requires
            old(self).wf(),
        ensures
            final(self).parsed_from(
                old(self),
                result,
                grammar::binary(old(self).stream(), old(self).cursor(), Level::Equality),
            ),
        decreases grammar::remaining(old(self).stream(), old(self).cursor()), 13nat,
    {
        let mut expr = match self.comparison() {
            Ok(expr) => expr,
            Err(error) => {
                return Err(error);
            },
        };
        while self.match_type(vec![TokenType::BangEqual, TokenType::EqualEqual])
            invariant
                self.wf(),
                self.stream() == old(self).stream(),
                old(self).cursor() <= self.cursor(),
                grammar::binary(old(self).stream(), old(self).cursor(), Level::Equality)
                    == grammar::tail(self.stream(), self.cursor(), Level::Equality, expr@).shift(
                    (self.cursor() - old(self).cursor()) as nat,
                ),
            decreases grammar::remaining(self.stream(), self.cursor()),
        {
            proof {
                let next = self.cursor();
                assert(grammar::operand(self.stream(), next, Level::Equality) == grammar::binary(
                    self.stream(),
                    next,
                    Level::Comparison,
                ));
            }
            let operator = self.previous().unwrap().clone();
            let right = match self.comparison() {
                Ok(right) => right,
                Err(error) => {
                    return Err(error);
                },
            };
            expr = Box::new(Expr::Binary { left: expr, operator, right });
        }
        Ok(expr)
    }

    fn comparison(&mut self) -> (result: Result<Box<Expr>, ParseError>)
        requires
            old(self).wf(),
        ensures
            final(self).parsed_from(
                old(self),
                result,
                grammar::binary(old(self).stream(), old(self).cursor(), Level::Comparison),
            ),
        decreases grammar::remaining(old(self).stream(), old(self).cursor()), 10nat,
    {
        let mut expr = match self.term() {
            Ok(expr) => expr,
            Err(error) => {
                return Err(error);
            },
        };
        while self.match_type(
            vec![
                TokenType::Greater,
                TokenType::GreaterEqual,
                TokenType::Less,
                TokenType::LessEqual,
            ],
        )
            invariant
                self.wf(),
                self.stream() == old(self).stream(),
                old(self).cursor() <= self.cursor(),
                grammar::binary(old(self).stream(), old(self).cursor(), Level::Comparison)
                    == grammar::tail(self.stream(), self.cursor(), Level::Comparison, expr@).shift(
                    (self.cursor() - old(self).cursor()) as nat,
                ),
            decreases grammar::remaining(self.stream(), self.cursor()),
        {
            proof {
                let next = self.cursor();
                assert(grammar::operand(self.stream(), next, Level::Comparison) == grammar::binary(
                    self.stream(),
                    next,
                    Level::Term,
                ));
            }
            let operator = self.previous().unwrap().clone();
            let right = match self.term() {
                Ok(right) => right,
                Err(error) => {
                    return Err(error);
                },
            };
            expr = Box::new(Expr::Binary { left: expr, operator, right });
        }
        Ok(expr)
    }

    fn term(&mut self) -> (result: Result<Box<Expr>, ParseError>)
        requires
            old(self).wf(),
        ensures
            final(self).parsed_from(
                old(self),
                result,
                grammar::binary(old(self).stream(), old(self).cursor(), Level::Term),
            ),
        decreases grammar::remaining(old(self).stream(), old(self).cursor()), 7nat,
    {
        let mut expr = match self.factor() {
            Ok(expr) => expr,
            Err(error) => {
                return Err(error);
            },
        };
        while self.match_type(vec![TokenType::Minus, TokenType::Plus])
            invariant
                self.wf(),
                self.stream() == old(self).stream(),
                old(self).cursor() <= self.cursor(),
                grammar::binary(old(self).stream(), old(self).cursor(), Level::Term)
                    == grammar::tail(self.stream(), self.cursor(), Level::Term, expr@).shift(
                    (self.cursor() - old(self).cursor()) as nat,
                ),
            decreases grammar::remaining(self.stream(), self.cursor()),
        {
            proof {
                let next = self.cursor();
                assert(grammar::operand(self.stream(), next, Level::Term) == grammar::binary(
                    self.stream(),
                    next,
                    Level::Factor,
                ));
            }
            let operator = self.previous().unwrap().clone();
            let right = match self.factor() {
                Ok(right) => right,
                Err(error) => {
                    return Err(error);
                },
            };
            expr = Box::new(Expr::Binary { left: expr, operator, right });
        }
        Ok(expr)
    }

    fn factor(&mut self) -> (result: Result<Box<Expr>, ParseError>)
        requires
            old(self).wf(),
        ensures
            final(self).parsed_from(
                old(self),
                result,
                grammar::binary(old(self).stream(), old(self).cursor(), Level::Factor),
            ),
        decreases grammar::remaining(old(self).stream(), old(self).cursor()), 4nat,
    {
        let mut expr = match self.unary() {
            Ok(expr) => expr,
            Err(error) => {
                return Err(error);
            },
        };
        while self.match_type(vec![TokenType::Slash, TokenType::Star])
            invariant
                self.wf(),
                self.stream() == old(self).stream(),
                old(self).cursor() <= self.cursor(),
                grammar::binary(old(self).stream(), old(self).cursor(), Level::Factor)
                    == grammar::tail(self.stream(), self.cursor(), Level::Factor, expr@).shift(
                    (self.cursor() - old(self).cursor()) as nat,
                ),
            decreases grammar::remaining(self.stream(), self.cursor()),
        {
            proof {
                let next = self.cursor();
                assert(grammar::operand(self.stream(), next, Level::Factor) == grammar::unary(
                    self.stream(),
                    next,
                ));
            }
            let operator = self.previous().unwrap().clone();
            let right = match self.unary() {
                Ok(right) => right,
                Err(error) => {
                    return Err(error);
                },
            };
            expr = Box::new(Expr::Binary { left: expr, operator, right });
        }
        Ok(expr)
    }

    fn unary(&mut self) -> (result: Result<Box<Expr>, ParseError>)
        requires
            old(self).wf(),
        ensures
            final(self).parsed_from(
                old(self),
                result,
                grammar::unary(old(self).stream(), old(self).cursor()),
            ),
        decreases grammar::remaining(old(self).stream(), old(self).cursor()), 1nat,
    {
        if self.match_type(vec![TokenType::Bang, TokenType::Minus]) {
            let operator = self.previous().unwrap().clone();
            let right = match self.unary() {
                Ok(right) => right,
                Err(error) => {
                    return Err(error);
                },
            };
            return Ok(Box::new(Expr::Unary { operator, right }));
        }
        self.primary()
    }

    fn primary(&mut self) -> (result: Result<Box<Expr>, ParseError>)
        requires
            old(self).wf(),
        ensures
            final(self).parsed_from(
                old(self),
                result,
                grammar::primary(old(self).stream(), old(self).cursor()),
            ),
        decreases grammar::remaining(old(self).stream(), old(self).cursor()), 0nat,
    {
        if self.match_type(vec![TokenType::False]) {
            return Ok(Box::new(Expr::Literal(LiteralType::False)));
        }
        if self.match_type(vec![TokenType::True]) {
            return Ok(Box::new(Expr::Literal(LiteralType::True)));
        }
        if self.match_type(vec![TokenType::Nul]) {
            return Ok(Box::new(Expr::Literal(LiteralType::Nil)));
        }
        if self.match_type(vec![TokenType::Number, TokenType::String]) {
            let previous = self.previous().unwrap();
            if previous.token_type == TokenType::Number {
                match Decimal::parse(previous.text.as_str()) {
                    Some(number) => {
                        return Ok(Box::new(Expr::Literal(LiteralType::Number(number))));
                    },
                    None => {
                        // The parser's tokens are well formed: this number
                        // token holds a numeral.
                        proof {
                            assert(false);
                        }
                    },
                }
            } else {
                return Ok(Box::new(Expr::Literal(LiteralType::String(previous.literal.clone()))));
            }
        }
        if self.match_type(vec![TokenType::LeftParen]) {
            let expr = match self.expression() {
                Ok(expr) => expr,
                Err(error) => {
                    return Err(error);
                },
            };
            match self.consume(TokenType::RightParen, ParseErrorKind::ExpectRightParen) {
                Ok(()) => {},
                Err(error) => {
                    return Err(error);
                },
            }
            return Ok(Box::new(Expr::Grouping(expr)));
        }
        Err(self.error(ParseErrorKind::ExpectExpression))
    }

    /// Reads the next token if its kind is one of `token_types`.
    fn match_type(&mut self, token_types: Vec<TokenType>) -> (matched: bool)
        requires
            old(self).wf(),
        ensures
            final(self).wf(),
            final(self).stream() == old(self).stream(),
            matched == (!grammar::at_end(old(self).stream(), old(self).cursor())
                && token_types@.contains(old(self).stream()[old(self).cursor()].kind)),
            final(self).cursor() == old(self).cursor() + if matched {
                1int
            } else {
                0int
            },
    {
        let mut i: usize = 0;
        while i < token_types.len()
            invariant
                i <= token_types.len(),
                *self == *old(self),
                self.wf(),
                forall|j: int|
                    0 <= j < i ==> !grammar::check(self.stream(), self.cursor(), token_types@[j]),
            decreases token_types.len() - i,
        {
            if self.check(token_types[i]) {
                self.advance();
                return true;
            }
            i += 1;
        }
        false
    }

    /// Whether the next token is there to be read and of kind `token_type`.
    fn check(&self, token_type: TokenType) -> (found: bool)
        requires
            self.wf(),
        ensures
            found == grammar::check(self.stream(), self.cursor(), token_type),
    {
        if self.is_at_end() {
            return false;
        }
        match self.peek() {
            Some(token) => token.token_type == token_type,
            None => false,
        }
    }

    /// Moves the cursor behind the next token, unless the tokens are used up,
    /// and returns the token before the cursor.
    fn advance(&mut self) -> (token: Option<&Token>)
        requires
            old(self).wf(),
        ensures
            final(self).wf(),
            final(self).stream() == old(self).stream(),
            final(self).cursor() == old(self).cursor() + if grammar::at_end(
                old(self).stream(),
                old(self).cursor(),
            ) {
                0int
            } else {
                1int
            },
            match token {
                Some(token) => final(self).cursor() > 0
                    && token@ == old(self).stream()[final(self).cursor() - 1],
                None => final(self).cursor() == 0,
            },
    {
        if !self.is_at_end() {
            self.current += 1;
        }
        self.previous()
    }

    /// Whether the tokens are used up.
    fn is_at_end(&self) -> (at_end: bool)
        requires
            self.wf(),
        ensures
            at_end == grammar::at_end(self.stream(), self.cursor()),
    {
        match self.peek() {
            Some(token) => token.token_type == TokenType::Eof,
            None => true,
        }
    }

    /// The token at the cursor, if there is one.
    fn peek(&self) -> (token: Option<&Token>)
        requires
            self.wf(),
        ensures
            match token {
                Some(token) => self.cursor() < self.stream().len() && token@
                    == self.stream()[self.cursor()],
                None => self.cursor() >= self.stream().len(),
            },
    {
        if self.current < self.tokens.len() {
            Some(&self.tokens[self.current])
        } else {
            None
        }
    }

    /// The token before the cursor, if there is one.
    fn previous(&self) -> (token: Option<&Token>)
        requires
            self.wf(),
        ensures
            match token {
                Some(token) => self.cursor() > 0 && token@ == self.stream()[self.cursor() - 1],
                None => self.cursor() == 0,
            },
    {
        if self.current > 0 {
            Some(&self.tokens[self.current - 1])
        } else {
            None
        }
    }

    /// Reads the next token if it is of kind `token_type`, and fails with an
    /// error of kind `kind` if it is not.
    fn consume(&mut self, token_type: TokenType, kind: ParseErrorKind) -> (result: Result<
        (),
        ParseError,
    >)
        requires
            old(self).wf(),
        ensures
            final(self).wf(),
            final(self).stream() == old(self).stream(),
            match result {
                Ok(_) => grammar::check(old(self).stream(), old(self).cursor(), token_type)
                    && final(self).cursor() == old(self).cursor() + 1,
                Err(error) => !grammar::check(old(self).stream(), old(self).cursor(), token_type)
                    && final(self).cursor() == old(self).cursor() && error@ == (ParseErrorModel {
                    kind,
                    line: grammar::line_at(old(self).stream(), old(self).cursor()),
                }),
            },
    {
        if self.check(token_type) {
            self.advance();
            return Ok(());
        }
        Err(self.error(kind))
    }

    /// The error of kind `kind` at the cursor.
    fn error(&self, kind: ParseErrorKind) -> (error: ParseError)
        requires
            self.wf(),
        ensures
            error@ == (ParseErrorModel {
                kind,
                line: grammar::line_at(self.stream(), self.cursor()),
            }),
    {
        let line = if self.current < self.tokens.len() {
            self.tokens[self.current].line
        } else if self.tokens.len() > 0 {
            self.tokens[self.tokens.len() - 1].line
        } else {
            1
        };
        ParseError { kind, line }
    }
}

} // verus!
