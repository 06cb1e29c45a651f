//! Facts about scanning that hold of every source text.

use crate::grammar::well_formed;
use crate::lexical::{
    is_alphanumeric, LexErrorKind, LexErrorModel,
    spelling,
    end_of_input, followed_by, is_alpha, is_digit, keyword, keywords, lemma_run_end,
    lemma_run_ends_at, lemma_step_advances, lookup, newlines, number_end, operator, punctuation,
    run_end, scan, scan_from, step, Outcome, Run, Scanned,
};
use crate::number::{is_numeral, whole_len};
use crate::token::{TokenModel, TokenType};
use vstd::prelude::*;

verus! {

/// No reserved word stands twice in the table, so each is found with its own
/// kind.
pub proof fn lemma_keywords_distinct()
    ensures
        forall|i: int, j: int|
            0 <= i < j < keywords().len() ==> (#[trigger] keywords()[i]).0 != (
            #[trigger] keywords()[j]).0,
        forall|i: int|
            0 <= i < keywords().len() ==> keyword((#[trigger] keywords()[i]).0) == Some(
                keywords()[i].1,
            ),
{
    reveal_strlit("and");
    reveal_strlit("class");
    reveal_strlit("else");
    reveal_strlit("false");
    reveal_strlit("for");
    reveal_strlit("fun");
    reveal_strlit("if");
    reveal_strlit("nil");
    reveal_strlit("or");
    reveal_strlit("print");
    reveal_strlit("return");
    reveal_strlit("super");
    reveal_strlit("this");
    reveal_strlit("true");
    reveal_strlit("var");
    reveal_strlit("while");
    reveal_with_fuel(lookup, 17);
    let table = keywords();
    // Any two of the words differ in one of their first two characters.
    assert("and"@[0] == 'a' && "and"@[1] == 'n');
    assert("class"@[0] == 'c' && "class"@[1] == 'l');
    assert("else"@[0] == 'e' && "else"@[1] == 'l');
    assert("false"@[0] == 'f' && "false"@[1] == 'a');
    assert("for"@[0] == 'f' && "for"@[1] == 'o');
    assert("fun"@[0] == 'f' && "fun"@[1] == 'u');
    assert("if"@[0] == 'i' && "if"@[1] == 'f');
    assert("nil"@[0] == 'n' && "nil"@[1] == 'i');
    assert("or"@[0] == 'o' && "or"@[1] == 'r');
    assert("print"@[0] == 'p' && "print"@[1] == 'r');
    assert("return"@[0] == 'r' && "return"@[1] == 'e');
    assert("super"@[0] == 's' && "super"@[1] == 'u');
    assert("this"@[0] == 't' && "this"@[1] == 'h');
    assert("true"@[0] == 't' && "true"@[1] == 'r');
    assert("var"@[0] == 'v' && "var"@[1] == 'a');
    assert("while"@[0] == 'w' && "while"@[1] == 'h');
    assert(keyword("and"@) == Some(TokenType::And));
    assert(keyword("class"@) == Some(TokenType::Class));
    assert(keyword("else"@) == Some(TokenType::Else));
    assert(keyword("false"@) == Some(TokenType::False));
    assert(keyword("for"@) == Some(TokenType::For));
    assert(keyword("fun"@) == Some(TokenType::Fun));
    assert(keyword("if"@) == Some(TokenType::If));
    assert(keyword("nil"@) == Some(TokenType::Nul));
    assert(keyword("or"@) == Some(TokenType::Or));
    assert(keyword("print"@) == Some(TokenType::Print));
    assert(keyword("return"@) == Some(TokenType::Return));
    assert(keyword("super"@) == Some(TokenType::Super));
    assert(keyword("this"@) == Some(TokenType::This));
    assert(keyword("true"@) == Some(TokenType::True));
    assert(keyword("var"@) == Some(TokenType::Var));
    assert(keyword("while"@) == Some(TokenType::While));
    assert forall|i: int| 0 <= i < table.len() implies keyword((#[trigger] table[i]).0) == Some(
        table[i].1,
    ) by {}
    assert forall|i: int, j: int| 0 <= i < j < table.len() implies (#[trigger] table[i]).0 != (
    #[trigger] table[j]).0 by {
        assert(table[i].1 != table[j].1);
    }
}

/// A keyword's token is of a kind that only keywords have.
pub proof fn lemma_keyword_kind(word: Seq<char>)
    requires
        keyword(word) is Some,
    ensures
        keyword(word).unwrap() != TokenType::Eof,
        keyword(word).unwrap() != TokenType::Number,
        keyword(word).unwrap() != TokenType::String,
        keyword(word).unwrap() != TokenType::Identifier,
        spelling(keyword(word).unwrap()) is None,
{
    reveal_with_fuel(lookup, 17);
}

/// The text of a number token is a numeral.
pub proof fn lemma_number_lexeme(src: Seq<char>, pos: int)
    requires
        0 <= pos < src.len(),
        is_digit(src[pos]),
    ensures
        is_numeral(src.subrange(pos, number_end(src, pos))),
{
    let whole = run_end(src, pos, Run::Digits);
    let end = number_end(src, pos);
    lemma_run_end(src, pos, Run::Digits);
    if end != whole {
        lemma_run_end(src, whole + 1, Run::Digits);
    }
    let text = src.subrange(pos, end);
    assert forall|i: int| 0 <= i < whole - pos implies Run::Digits.holds(#[trigger] text[i]) by {
        assert(text[i] == src[pos + i]);
    }
    if end != whole {
        assert(text[whole - pos] == src[whole]);
        lemma_run_ends_at(text, 0, whole - pos, Run::Digits);
        assert forall|i: int| whole - pos + 1 <= i < text.len() implies Run::Digits.holds(
            #[trigger] text[i],
        ) by {
            assert(text[i] == src[pos + i]);
        }
        lemma_run_ends_at(text, whole - pos + 1, text.len() as int, Run::Digits);
    } else {
        lemma_run_ends_at(text, 0, whole - pos, Run::Digits);
    }
    assert(whole_len(text) == whole - pos);
}

/// No step makes an end-of-input token, and the text of every number token
/// that a step makes is a numeral.
pub proof fn lemma_step_token(src: Seq<char>, pos: int, line: nat)
    requires
        0 <= pos < src.len(),
    ensures
        match step(src, pos, line).outcome {
            Outcome::Token(token) => token.kind != TokenType::Eof && (token.kind
                == TokenType::Number ==> is_numeral(token.lexeme)),
            _ => true,
        },
{
    let c = src[pos];
    if is_digit(c) {
        lemma_number_lexeme(src, pos);
    }
    let word = src.subrange(pos, run_end(src, pos, Run::Word));
    if keyword(word) is Some {
        lemma_keyword_kind(word);
    }
}

/// The tokens of a scan end with the end-of-input token, hold no other, and
/// the text of each number token among them is a numeral.
pub proof fn lemma_scan_from_tokens(src: Seq<char>, pos: int, line: nat)
    ensures
        scan_from(src, pos, line).tokens.len() >= 1,
        scan_from(src, pos, line).tokens.last().kind == TokenType::Eof,
        forall|i: int|
            0 <= i < scan_from(src, pos, line).tokens.len() - 1 ==> (#[trigger] scan_from(
                src,
                pos,
                line,
            ).tokens[i]).kind != TokenType::Eof,
        well_formed(scan_from(src, pos, line).tokens),
    decreases src.len() - pos,
{
    if 0 <= pos < src.len() {
        let step = step(src, pos, line);
        lemma_step_advances(src, pos, line);
        lemma_step_token(src, pos, line);
        lemma_scan_from_tokens(src, step.end, step.line);
    }
}

/// Whether `token` is written as a scanner reads tokens of its kind:
/// punctuation and operators in their one spelling, and a string literal as
/// its body between two quotes.
pub open spec fn genuine(token: TokenModel) -> bool {
    &&& spelling(token.kind) matches Some(text) ==> token.lexeme == text
    &&& token.kind == TokenType::String ==> token.lexeme.len() == token.literal.len() + 2
}

/// Every token that a step makes is genuine.
pub proof fn lemma_step_genuine(src: Seq<char>, pos: int, line: nat)
    requires
        0 <= pos < src.len(),
    ensures
        match step(src, pos, line).outcome {
            Outcome::Token(token) => genuine(token),
            _ => true,
        },
{
    let c = src[pos];
    lemma_step_advances(src, pos, line);
    let word = src.subrange(pos, run_end(src, pos, Run::Word));
    if keyword(word) is Some {
        lemma_keyword_kind(word);
    }
    if c == '"' {
        lemma_run_end(src, pos + 1, Run::Body);
    }
    match step(src, pos, line).outcome {
        Outcome::Token(token) => {
            if spelling(token.kind) is Some {
                assert(token.lexeme =~= spelling(token.kind).unwrap());
            }
        },
        _ => {},
    }
}

/// Every token of a scan is genuine.
pub proof fn lemma_scan_from_genuine(src: Seq<char>, pos: int, line: nat)
    ensures
        forall|i: int|
            0 <= i < scan_from(src, pos, line).tokens.len() ==> genuine(
                #[trigger] scan_from(src, pos, line).tokens[i],
            ),
    decreases src.len() - pos,
{
    if 0 <= pos < src.len() {
        let step = step(src, pos, line);
        lemma_step_advances(src, pos, line);
        lemma_step_genuine(src, pos, line);
        lemma_scan_from_genuine(src, step.end, step.line);
        let tokens = scan_from(src, pos, line).tokens;
        let rest = scan_from(src, step.end, step.line).tokens;
        assert forall|i: int| 0 <= i < tokens.len() implies genuine(#[trigger] tokens[i]) by {
            if step.outcome is Token {
                if i > 0 {
                    assert(tokens[i] == rest[i - 1]);
                }
            } else {
                assert(tokens[i] == rest[i]);
            }
        }
    }
}

/// The token sequence of every source text ends with exactly one end-of-input
/// token, and the parser can read it: each number token holds a numeral.
pub proof fn lemma_scan_tokens(src: Seq<char>)
    ensures
        scan(src).tokens.len() >= 1,
        scan(src).tokens.last().kind == TokenType::Eof,
        forall|i: int|
            0 <= i < scan(src).tokens.len() - 1 ==> (#[trigger] scan(src).tokens[i]).kind
                != TokenType::Eof,
        well_formed(scan(src).tokens),
{
    lemma_scan_from_tokens(src, 0, 1);
}

/// A source text that is one punctuation character gives the token of that
/// character and the end-of-input token, and no error.
pub proof fn lemma_single_punctuation(c: char)
    requires
        punctuation(c) is Some,
    ensures
        scan(seq![c]) == (Scanned {
            tokens: seq![
                TokenModel {
                    kind: punctuation(c).unwrap(),
                    lexeme: seq![c],
                    literal: Seq::empty(),
                    line: 1,
                },
                end_of_input(1),
            ],
            errors: Seq::empty(),
        }),
{
    let src = seq![c];
    reveal_with_fuel(scan_from, 2);
    assert(src.subrange(0, 1) =~= src);
    assert(scan_from(src, 1, 1).tokens =~= seq![end_of_input(1)]);
    assert(scan(src).tokens =~= seq![
        TokenModel {
            kind: punctuation(c).unwrap(),
            lexeme: seq![c],
            literal: Seq::empty(),
            line: 1,
        },
        end_of_input(1),
    ]);
    assert(scan(src).errors =~= Seq::empty());
}

/// Where a source text starts with `!`, `=`, `<` or `>`, its first token is the
/// operator of two characters if `=` comes next, and the operator of one
/// character if anything else or nothing does.
pub proof fn lemma_operator_lookahead(src: Seq<char>)
    requires
        src.len() > 0,
        operator(src[0]) is Some,
    ensures
        followed_by(src, 0, '=') ==> scan(src) == scan_from(src, 2, 1).after(
            Outcome::Token(
                TokenModel {
                    kind: operator(src[0]).unwrap().1,
                    lexeme: seq![src[0], '='],
                    literal: Seq::empty(),
                    line: 1,
                },
            ),
        ),
        !followed_by(src, 0, '=') ==> scan(src) == scan_from(src, 1, 1).after(
            Outcome::Token(
                TokenModel {
                    kind: operator(src[0]).unwrap().0,
                    lexeme: seq![src[0]],
                    literal: Seq::empty(),
                    line: 1,
                },
            ),
        ),
{
    if followed_by(src, 0, '=') {
        assert(src.subrange(0, 2) =~= seq![src[0], '=']);
    } else {
        assert(src.subrange(0, 1) =~= seq![src[0]]);
    }
}

/// Whether `text` is a word: a letter or an underscore, and then letters,
/// digits and underscores.
pub open spec fn is_word(text: Seq<char>) -> bool {
    &&& text.len() > 0
    &&& is_alpha(text[0])
    &&& forall|i: int| 0 <= i < text.len() ==> is_alphanumeric(#[trigger] text[i])
}

/// The token that a word makes: the keyword's token if the word is a keyword,
/// and else an identifier that carries the word.
pub open spec fn word_token(word: Seq<char>, line: nat) -> TokenModel {
    match keyword(word) {
        Some(kind) => TokenModel { kind, lexeme: word, literal: Seq::empty(), line },
        None => TokenModel { kind: TokenType::Identifier, lexeme: word, literal: word, line },
    }
}

/// A source text that is one word gives the token of that word and the
/// end-of-input token.
pub proof fn lemma_scan_word(text: Seq<char>)
    requires
        is_word(text),
    ensures
        scan(text) == (Scanned {
            tokens: seq![word_token(text, 1), end_of_input(1)],
            errors: Seq::empty(),
        }),
{
    assert forall|i: int| 0 <= i < text.len() implies Run::Word.holds(#[trigger] text[i]) by {}
    lemma_run_ends_at(text, 0, text.len() as int, Run::Word);
    assert(text.subrange(0, text.len() as int) =~= text);
    let step = step(text, 0, 1);
    assert(step.end == text.len());
    assert(step.outcome is Token);
    assert(step.outcome->Token_0 == word_token(text, 1));
    assert(scan_from(text, text.len() as int, 1).tokens =~= seq![end_of_input(1)]);
    assert(scan(text).tokens =~= seq![word_token(text, 1), end_of_input(1)]);
    assert(scan(text).errors =~= Seq::empty());
}

/// A source text that is one numeral gives one number token that carries the
/// numeral, and the end-of-input token.
pub proof fn lemma_scan_numeral(text: Seq<char>)
    requires
        is_numeral(text),
    ensures
        scan(text) == (Scanned {
            tokens: seq![
                TokenModel { kind: TokenType::Number, lexeme: text, literal: text, line: 1 },
                end_of_input(1),
            ],
            errors: Seq::empty(),
        }),
{
    lemma_run_end(text, 0, Run::Digits);
    assert(is_digit(text[0]));
    assert(number_end(text, 0) == text.len()) by {
        let whole = whole_len(text);
        if whole < text.len() {
            lemma_run_end(text, whole + 1, Run::Digits);
            if !is_digit(text[whole + 1]) {
                assert(run_end(text, whole + 1, Run::Digits) == whole + 1);
            }
        }
    }
    assert(text.subrange(0, text.len() as int) =~= text);
    reveal_with_fuel(scan_from, 2);
    assert(scan_from(text, text.len() as int, 1).tokens =~= seq![end_of_input(1)]);
    assert(scan(text).tokens =~= seq![
        TokenModel { kind: TokenType::Number, lexeme: text, literal: text, line: 1 },
        end_of_input(1),
    ]);
    assert(scan(text).errors =~= Seq::empty());
}

/// A source text that is a string literal, a body without a quote between two
/// quotes, gives one string token that carries the body and starts on line 1,
/// and the end-of-input token on the line where the literal ends.
pub proof fn lemma_scan_string(body: Seq<char>)
    requires
        !body.contains('"'),
    ensures
        scan(seq!['"'] + body + seq!['"']) == (Scanned {
            tokens: seq![
                TokenModel {
                    kind: TokenType::String,
                    lexeme: seq!['"'] + body + seq!['"'],
                    literal: body,
                    line: 1,
                },
                end_of_input(1 + newlines(body, 0, body.len() as int)),
            ],
            errors: Seq::empty(),
        }),
{
    let text = seq!['"'] + body + seq!['"'];
    let close = body.len() as int + 1;
    assert forall|i: int| 1 <= i < close implies Run::Body.holds(#[trigger] text[i]) by {
        assert(text[i] == body[i - 1]);
        assert(body.contains(body[i - 1]));
    }
    lemma_run_ends_at(text, 1, close, Run::Body);
    assert(text.subrange(0, close + 1) =~= text);
    assert(text.subrange(1, close) =~= body);
    lemma_newlines_shifted(text, body, 1, body.len() as int);
    let step = step(text, 0, 1);
    assert(step.end == text.len());
    assert(scan_from(text, text.len() as int, step.line).tokens =~= seq![end_of_input(step.line)]);
    assert(scan(text).tokens =~= seq![step.outcome->Token_0, end_of_input(step.line)]);
    assert(scan(text).errors =~= Seq::empty());
}

/// A source text that is a string literal without its closing quote gives no
/// token but the end-of-input token, and one error, on the line where the
/// text ends.
pub proof fn lemma_scan_unterminated(body: Seq<char>)
    requires
        !body.contains('"'),
    ensures
        scan(seq!['"'] + body) == (Scanned {
            tokens: seq![end_of_input(1 + newlines(body, 0, body.len() as int))],
            errors: seq![
                LexErrorModel {
                    kind: LexErrorKind::UnterminatedString,
                    line: 1 + newlines(body, 0, body.len() as int),
                },
            ],
        }),
{
    let text = seq!['"'] + body;
    let close = body.len() as int + 1;
    assert forall|i: int| 1 <= i < close implies Run::Body.holds(#[trigger] text[i]) by {
        assert(text[i] == body[i - 1]);
        assert(body.contains(body[i - 1]));
    }
    lemma_run_ends_at(text, 1, close, Run::Body);
    lemma_newlines_shifted(text, body, 1, body.len() as int);
    let step = step(text, 0, 1);
    assert(step.end == text.len());
    assert(scan_from(text, text.len() as int, step.line).tokens =~= seq![end_of_input(step.line)]);
    assert(scan(text).tokens =~= seq![end_of_input(step.line)]);
    assert(scan(text).errors =~= seq![step.outcome->Error_0]);
}

/// A stretch holds as many newlines as the same characters elsewhere.
pub proof fn lemma_newlines_shifted(text: Seq<char>, part: Seq<char>, at: int, len: int)
    requires
        0 <= len <= part.len(),
        forall|i: int| 0 <= i < len ==> text[at + i] == #[trigger] part[i],
    ensures
        newlines(text, at, at + len) == newlines(part, 0, len),
    decreases len,
{
    if len > 0 {
        lemma_newlines_shifted(text, part, at, len - 1);
        assert(text[at + (len - 1)] == part[len - 1]);
    }
}

/// Whether `src[pos..]` holds nothing but white space and comments.
pub open spec fn blank_from(src: Seq<char>, pos: int) -> bool
    decreases src.len() - pos,
    via blank_from_decreases
{
    if 0 <= pos < src.len() {
        if src[pos] == ' ' || src[pos] == '\r' || src[pos] == '\n' {
            blank_from(src, pos + 1)
        } else if src[pos] == '/' && followed_by(src, pos, '/') {
            blank_from(src, run_end(src, pos + 2, Run::Comment))
        } else {
            false
        }
    } else {
        true
    }
}

#[via_fn]
proof fn blank_from_decreases(src: Seq<char>, pos: int) {
    if 0 <= pos < src.len() && src[pos] == '/' && followed_by(src, pos, '/') {
        lemma_run_end(src, pos + 2, Run::Comment);
    }
}

/// Whether `src` holds nothing but white space and comments.
pub open spec fn is_blank(src: Seq<char>) -> bool {
    blank_from(src, 0)
}

/// The newlines of two stretches that meet add up.
pub proof fn lemma_newlines_split(src: Seq<char>, from: int, mid: int, to: int)
    requires
        from <= mid <= to,
    ensures
        newlines(src, from, to) == newlines(src, from, mid) + newlines(src, mid, to),
    decreases to - mid,
{
    if mid < to {
        lemma_newlines_split(src, from, mid, to - 1);
    }
}

/// A stretch without a newline character holds no newline.
pub proof fn lemma_no_newlines(src: Seq<char>, from: int, to: int)
    requires
        forall|i: int| from <= i < to ==> #[trigger] src[i] != '\n',
    ensures
        newlines(src, from, to) == 0,
    decreases to - from,
{
    if from < to {
        lemma_no_newlines(src, from, to - 1);
    }
}

/// Where each token of `src[pos..]` starts in `src`; the end-of-input token
/// starts where the source ends.
pub open spec fn starts_from(src: Seq<char>, pos: int) -> Seq<int>
    decreases src.len() - pos,
    via starts_from_decreases
{
    if 0 <= pos < src.len() {
        let step = step(src, pos, 1);
        let rest = starts_from(src, step.end);
        if step.outcome is Token {
            seq![pos] + rest
        } else {
            rest
        }
    } else {
        seq![pos]
    }
}

#[via_fn]
proof fn starts_from_decreases(src: Seq<char>, pos: int) {
    if 0 <= pos < src.len() {
        lemma_step_advances(src, pos, 1);
    }
}

/// Where each token of `src` starts.
pub open spec fn starts(src: Seq<char>) -> Seq<int> {
    starts_from(src, 0)
}

/// The lexeme of a step's token is the stretch that the step has read, its
/// line is the line on which the step started, and the line goes up by the
/// newlines in that stretch.
pub proof fn lemma_step_image(src: Seq<char>, pos: int, line: nat)
    requires
        0 <= pos < src.len(),
    ensures
        step(src, pos, line).end == step(src, pos, 1).end,
        step(src, pos, line).outcome is Token <==> step(src, pos, 1).outcome is Token,
        step(src, pos, line).line == line + newlines(src, pos, step(src, pos, line).end),
        match step(src, pos, line).outcome {
            Outcome::Token(token) => token.line == line && token.lexeme == src.subrange(
                pos,
                step(src, pos, line).end,
            ),
            _ => true,
        },
{
    let c = src[pos];
    let end = step(src, pos, line).end;
    lemma_step_advances(src, pos, line);
    if c == '/' && followed_by(src, pos, '/') {
        lemma_run_end(src, pos + 2, Run::Comment);
        assert forall|i: int| pos <= i < end implies #[trigger] src[i] != '\n' by {
            if i >= pos + 2 {
                assert(Run::Comment.holds(src[i]));
            }
        }
        lemma_no_newlines(src, pos, end);
    } else if c == '"' {
        let close = run_end(src, pos + 1, Run::Body);
        lemma_run_end(src, pos + 1, Run::Body);
        lemma_newlines_split(src, pos, pos + 1, end);
        assert(newlines(src, pos, pos) == 0);
        if close < src.len() {
            lemma_newlines_split(src, pos + 1, close, end);
            assert(newlines(src, close, close) == 0);
        }
    } else if is_digit(c) {
        let whole = run_end(src, pos, Run::Digits);
        lemma_run_end(src, pos, Run::Digits);
        if end != whole {
            lemma_run_end(src, whole + 1, Run::Digits);
        }
        assert forall|i: int| pos <= i < end implies #[trigger] src[i] != '\n' by {
            if i < whole {
                assert(Run::Digits.holds(src[i]));
            } else if i > whole {
                assert(Run::Digits.holds(src[i]));
            }
        }
        lemma_no_newlines(src, pos, end);
    } else if is_alpha(c) {
        lemma_run_end(src, pos, Run::Word);
        assert forall|i: int| pos <= i < end implies #[trigger] src[i] != '\n' by {
            assert(Run::Word.holds(src[i]));
        }
        lemma_no_newlines(src, pos, end);
    } else {
        assert(newlines(src, pos, pos) == 0);
        if end == pos + 2 {
            assert(newlines(src, pos, pos + 1) == 0);
        }
    }
}

/// The tokens of `src[pos..]` are an image of it in order: each is the stretch
/// of the source at its start, no stretch begins before the one before it
/// ends, and the line of each is the line on which it starts.
pub proof fn lemma_scan_from_image(src: Seq<char>, pos: int, line: nat)
    requires
        0 <= pos <= src.len(),
    ensures
        starts_from(src, pos).len() == scan_from(src, pos, line).tokens.len(),
        forall|i: int|
            0 <= i < starts_from(src, pos).len() ==> {
                let start = #[trigger] starts_from(src, pos)[i];
                let token = scan_from(src, pos, line).tokens[i];
                &&& pos <= start
                &&& start + token.lexeme.len() <= src.len()
                &&& token.lexeme == src.subrange(start, start + token.lexeme.len())
                &&& token.line == line + newlines(src, pos, start)
                &&& i + 1 < starts_from(src, pos).len() ==> start + token.lexeme.len()
                    <= starts_from(src, pos)[i + 1]
            },
    decreases src.len() - pos,
{
    let starts = starts_from(src, pos);
    let tokens = scan_from(src, pos, line).tokens;
    if pos < src.len() {
        let step = step(src, pos, line);
        lemma_step_advances(src, pos, line);
        lemma_step_image(src, pos, line);
        lemma_scan_from_image(src, step.end, step.line);
        lemma_scan_from_tokens(src, step.end, step.line);
        let rest_starts = starts_from(src, step.end);
        let rest = scan_from(src, step.end, step.line).tokens;
        if step.outcome is Token {
            assert(starts == seq![pos] + rest_starts);
            assert(tokens == seq![step.outcome->Token_0] + rest);
        } else {
            assert(starts == rest_starts);
            assert(tokens == rest);
        }
        assert forall|i: int| 0 <= i < starts.len() implies {
            let start = #[trigger] starts[i];
            let token = tokens[i];
            &&& pos <= start
            &&& start + token.lexeme.len() <= src.len()
            &&& token.lexeme == src.subrange(start, start + token.lexeme.len())
            &&& token.line == line + newlines(src, pos, start)
            &&& i + 1 < starts.len() ==> start + token.lexeme.len() <= starts[i + 1]
        } by {
            if step.outcome is Token {
                if i == 0 {
                    assert(newlines(src, pos, pos) == 0);
                    assert(starts[1] == rest_starts[0]);
                } else {
                    assert(starts[i] == rest_starts[i - 1]);
                    assert(tokens[i] == rest[i - 1]);
                    lemma_newlines_split(src, pos, step.end, rest_starts[i - 1]);
                    if i + 1 < starts.len() {
                        assert(starts[i + 1] == rest_starts[i]);
                    }
                }
            } else {
                assert(starts[i] == rest_starts[i]);
                lemma_newlines_split(src, pos, step.end, rest_starts[i]);
            }
        }
    } else {
        assert(newlines(src, pos, pos) == 0);
        assert(tokens[0].lexeme =~= src.subrange(pos, pos));
    }
}

/// The tokens of a source text are an image of it in order: each token is the
/// stretch of the source at its start, no token begins before the one before
/// it ends, and the line of each is one more than the number of newlines
/// before its start.
pub proof fn lemma_scan_image(src: Seq<char>)
    ensures
        starts(src).len() == scan(src).tokens.len(),
        forall|i: int|
            0 <= i < starts(src).len() ==> {
                let start = #[trigger] starts(src)[i];
                let token = scan(src).tokens[i];
                &&& 0 <= start
                &&& start + token.lexeme.len() <= src.len()
                &&& token.lexeme == src.subrange(start, start + token.lexeme.len())
                &&& token.line == 1 + newlines(src, 0, start)
                &&& i + 1 < starts(src).len() ==> start + token.lexeme.len() <= starts(src)[i
                    + 1]
            },
{
    lemma_scan_from_image(src, 0, 1);
}

/// White space and comments give no token and no error: only the line goes up,
/// by the newlines among them.
pub proof fn lemma_blank_from(src: Seq<char>, pos: int, line: nat)
    requires
        0 <= pos <= src.len(),
        blank_from(src, pos),
    ensures
        scan_from(src, pos, line) == (Scanned {
            tokens: seq![end_of_input(line + newlines(src, pos, src.len() as int))],
            errors: Seq::empty(),
        }),
    decreases src.len() - pos,
{
    if pos < src.len() {
        let step = step(src, pos, line);
        lemma_step_advances(src, pos, line);
        lemma_blank_from(src, step.end, step.line);
        lemma_newlines_split(src, pos, step.end, src.len() as int);
        if src[pos] == '/' {
            lemma_run_end(src, pos + 2, Run::Comment);
            assert forall|i: int| pos <= i < step.end implies #[trigger] src[i] != '\n' by {
                if i >= pos + 2 {
                    assert(Run::Comment.holds(src[i]));
                }
            }
            lemma_no_newlines(src, pos, step.end);
        } else {
            assert(newlines(src, pos, pos) == 0);
        }
    }
}

/// A source text of nothing but white space and comments gives only the
/// end-of-input token, and no error.
pub proof fn lemma_blank_source(src: Seq<char>)
    requires
        is_blank(src),
    ensures
        scan(src) == (Scanned {
            tokens: seq![end_of_input(1 + newlines(src, 0, src.len() as int))],
            errors: Seq::empty(),
        }),
{
    lemma_blank_from(src, 0, 1);
}

} // verus!
