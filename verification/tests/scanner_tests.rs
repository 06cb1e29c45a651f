use rlox::scanner::{LexError, Scanner};
use rlox::lexical::LexErrorKind;
use rlox::token::{Token, TokenType};

type Seen = (TokenType, String, String, usize);

fn scan(source: &str) -> (Vec<Seen>, Vec<LexError>) {
    let mut scanner = Scanner::new(source);
    let tokens: Vec<Seen> = scanner
        .scan_tokens()
        .iter()
        .map(|t: &Token| (t.token_type, t.text.clone(), t.literal.clone(), t.line))
        .collect();
    let errors = scanner.errors().clone();
    (tokens, errors)
}

fn token(kind: TokenType, text: &str, literal: &str, line: usize) -> Seen {
    (kind, String::from(text), String::from(literal), line)
}

fn eof(line: usize) -> Seen {
    token(TokenType::Eof, "", "", line)
}

#[test]
fn single_character_punctuation_gives_one_token() {
    let cases = [
        ("(", TokenType::LeftParen),
        (")", TokenType::RightParen),
        ("{", TokenType::LeftBrace),
        ("}", TokenType::RightBrace),
        (",", TokenType::Comma),
        (".", TokenType::Dot),
        ("-", TokenType::Minus),
        ("+", TokenType::Plus),
        (";", TokenType::Semicolon),
        ("/", TokenType::Slash),
        ("*", TokenType::Star),
    ];
    for (source, kind) in cases {
        let (tokens, errors) = scan(source);
        assert_eq!(tokens, vec![token(kind, source, "", 1), eof(1)]);
        assert!(errors.is_empty());
    }
}

#[test]
fn empty_source_gives_only_the_end() {
    let (tokens, errors) = scan("");
    assert_eq!(tokens, vec![eof(1)]);
    assert!(errors.is_empty());
}

#[test]
fn whitespace_and_comments_give_only_the_end() {
    let (tokens, errors) = scan("  \r\n// a comment ( + \"\n \n// last");
    assert_eq!(tokens, vec![eof(4)]);
    assert!(errors.is_empty());
}

#[test]
fn comment_ends_at_the_newline() {
    let (tokens, errors) = scan("// note\n+");
    assert_eq!(tokens, vec![token(TokenType::Plus, "+", "", 2), eof(2)]);
    assert!(errors.is_empty());
}

#[test]
fn operators_look_one_character_ahead() {
    let cases = [
        ("!", TokenType::Bang, "!=", TokenType::BangEqual),
        ("=", TokenType::Equal, "==", TokenType::EqualEqual),
        ("<", TokenType::Less, "<=", TokenType::LessEqual),
        (">", TokenType::Greater, ">=", TokenType::GreaterEqual),
    ];
    for (short, short_kind, long, long_kind) in cases {
        let (tokens, _) = scan(short);
        assert_eq!(tokens, vec![token(short_kind, short, "", 1), eof(1)]);
        let (tokens, _) = scan(long);
        assert_eq!(tokens, vec![token(long_kind, long, "", 1), eof(1)]);
    }
}

#[test]
fn bang_before_another_character_is_a_bang() {
    let (tokens, _) = scan("!(");
    assert_eq!(
        tokens,
        vec![token(TokenType::Bang, "!", "", 1), token(TokenType::LeftParen, "(", "", 1), eof(1)]
    );
}

#[test]
fn three_equal_signs_are_two_tokens() {
    let (tokens, _) = scan("===");
    assert_eq!(
        tokens,
        vec![token(TokenType::EqualEqual, "==", "", 1), token(TokenType::Equal, "=", "", 1), eof(1)]
    );
}

#[test]
fn integer_is_one_number() {
    let (tokens, errors) = scan("123");
    assert_eq!(tokens, vec![token(TokenType::Number, "123", "123", 1), eof(1)]);
    assert!(errors.is_empty());
}

#[test]
fn fraction_is_one_number() {
    let (tokens, _) = scan("45.67");
    assert_eq!(tokens, vec![token(TokenType::Number, "45.67", "45.67", 1), eof(1)]);
}

#[test]
fn trailing_dot_is_no_fraction() {
    let (tokens, _) = scan("45.");
    assert_eq!(
        tokens,
        vec![token(TokenType::Number, "45", "45", 1), token(TokenType::Dot, ".", "", 1), eof(1)]
    );
}

#[test]
fn second_dot_ends_the_number() {
    let (tokens, _) = scan("1.2.3");
    assert_eq!(
        tokens,
        vec![
            token(TokenType::Number, "1.2", "1.2", 1),
            token(TokenType::Dot, ".", "", 1),
            token(TokenType::Number, "3", "3", 1),
            eof(1)
        ]
    );
}

#[test]
fn string_is_decoded() {
    let (tokens, errors) = scan("\"hello\"");
    assert_eq!(tokens, vec![token(TokenType::String, "\"hello\"", "hello", 1), eof(1)]);
    assert!(errors.is_empty());
}

#[test]
fn string_over_two_lines_starts_on_the_first() {
    let (tokens, _) = scan("\"a\nb\" +");
    assert_eq!(
        tokens,
        vec![
            token(TokenType::String, "\"a\nb\"", "a\nb", 1),
            token(TokenType::Plus, "+", "", 2),
            eof(2)
        ]
    );
}

#[test]
fn unterminated_string_is_one_error() {
    let (tokens, errors) = scan("\"abc");
    assert_eq!(tokens, vec![eof(1)]);
    assert_eq!(errors, vec![LexError { kind: LexErrorKind::UnterminatedString, line: 1 }]);
}

#[test]
fn unterminated_string_is_reported_on_its_last_line() {
    let (tokens, errors) = scan("1 \"abc\n\n");
    assert_eq!(tokens, vec![token(TokenType::Number, "1", "1", 1), eof(3)]);
    assert_eq!(errors, vec![LexError { kind: LexErrorKind::UnterminatedString, line: 3 }]);
}

#[test]
fn keyword_is_not_an_identifier() {
    let (tokens, _) = scan("and");
    assert_eq!(tokens, vec![token(TokenType::And, "and", "", 1), eof(1)]);
    let (tokens, _) = scan("andy");
    assert_eq!(tokens, vec![token(TokenType::Identifier, "andy", "andy", 1), eof(1)]);
}

#[test]
fn every_keyword_has_its_kind() {
    let cases = [
        ("and", TokenType::And),
        ("class", TokenType::Class),
        ("else", TokenType::Else),
        ("false", TokenType::False),
        ("fun", TokenType::Fun),
        ("for", TokenType::For),
        ("if", TokenType::If),
        ("nil", TokenType::Nul),
        ("or", TokenType::Or),
        ("print", TokenType::Print),
        ("return", TokenType::Return),
        ("super", TokenType::Super),
        ("this", TokenType::This),
        ("true", TokenType::True),
        ("var", TokenType::Var),
        ("while", TokenType::While),
    ];
    for (word, kind) in cases {
        let (tokens, errors) = scan(word);
        assert_eq!(tokens, vec![token(kind, word, "", 1), eof(1)]);
        assert!(errors.is_empty());
    }
}

#[test]
fn identifier_may_hold_digits_and_underscores() {
    let (tokens, _) = scan("_a1 b_2");
    assert_eq!(
        tokens,
        vec![
            token(TokenType::Identifier, "_a1", "_a1", 1),
            token(TokenType::Identifier, "b_2", "b_2", 1),
            eof(1)
        ]
    );
}

#[test]
fn unexpected_character_is_skipped() {
    let (tokens, errors) = scan("1 @ 2\n#");
    assert_eq!(
        tokens,
        vec![token(TokenType::Number, "1", "1", 1), token(TokenType::Number, "2", "2", 1), eof(2)]
    );
    assert_eq!(
        errors,
        vec![
            LexError { kind: LexErrorKind::UnexpectedCharacter('@'), line: 1 },
            LexError { kind: LexErrorKind::UnexpectedCharacter('#'), line: 2 },
        ]
    );
}

#[test]
fn tab_is_no_white_space() {
    let (tokens, errors) = scan("\t");
    assert_eq!(tokens, vec![eof(1)]);
    assert_eq!(errors, vec![LexError { kind: LexErrorKind::UnexpectedCharacter('\t'), line: 1 }]);
}

#[test]
fn character_outside_ascii_is_one_error() {
    let (tokens, errors) = scan("é+");
    assert_eq!(tokens, vec![token(TokenType::Plus, "+", "", 1), eof(1)]);
    assert_eq!(errors, vec![LexError { kind: LexErrorKind::UnexpectedCharacter('é'), line: 1 }]);
}

#[test]
fn expression_is_scanned_in_order() {
    let (tokens, errors) = scan("(1 + 2) * 3 >= x");
    let kinds: Vec<TokenType> = tokens.iter().map(|t| t.0).collect();
    assert_eq!(
        kinds,
        vec![
            TokenType::LeftParen,
            TokenType::Number,
            TokenType::Plus,
            TokenType::Number,
            TokenType::RightParen,
            TokenType::Star,
            TokenType::Number,
            TokenType::GreaterEqual,
            TokenType::Identifier,
            TokenType::Eof,
        ]
    );
    assert!(errors.is_empty());
}

#[test]
fn exactly_one_end_of_input_token() {
    let (tokens, _) = scan("a\nb\n\"x");
    let ends = tokens.iter().filter(|t| t.0 == TokenType::Eof).count();
    assert_eq!(ends, 1);
    assert_eq!(tokens.last().unwrap().0, TokenType::Eof);
}

#[test]
fn second_scan_returns_the_same_tokens() {
    let mut scanner = Scanner::new("1 + 2");
    let first = scanner.scan_tokens().len();
    let second = scanner.scan_tokens().len();
    assert_eq!(first, 4);
    assert_eq!(second, 4);
}

#[test]
fn token_new_keeps_its_arguments() {
    let token = Token::new(TokenType::Minus, String::from("-"), String::from("m"), 7);
    assert_eq!(token.token_type, TokenType::Minus);
    assert_eq!(token.text, "-");
    assert_eq!(token.literal, "m");
    assert_eq!(token.line, 7);
}
