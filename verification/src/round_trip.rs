//! How printing and reading go together: which printed trees read back as
//! trees that print the same.

use crate::ast_printer::render;
use crate::expr::{ExprModel, LiteralModel};
use crate::grammar::{
    at_end, binary, expression, operand, parse, primary, unary, Level, ParseErrorModel,
};
use crate::ast_printer::{lemma_render_binary, lemma_render_one};
use crate::grammar_facts::{grows_from, is_binary_operator, lemma_binary_grows};
use crate::lexical::{
    end_of_input, is_digit, keyword, lemma_run_end, lemma_run_ends_at, lookup, number_end,
    run_end, scan, scan_from, spelling, step, Run, Scanned,
};
use crate::lexical_facts::{
    lemma_scan_numeral, genuine, lemma_scan_from_genuine, lemma_scan_image, lemma_scan_tokens, starts,
};
use crate::number::{
    canonical, is_canonical, is_numeral, lemma_canonical_is_canonical, whole_len,
};
use crate::token::{TokenModel, TokenType};
use vstd::prelude::*;

verus! {

/// Whether `text` is what a literal of the language looks like in a source
/// text: one of the keywords `true`, `false` and `nil`, or a numeral in
/// canonical form.
pub open spec fn is_literal_text(text: Seq<char>) -> bool {
    text == "true"@ || text == "false"@ || text == "nil"@ || is_canonical(text)
}

/// The tokens of a source text that is one keyword.
pub proof fn lemma_scan_keyword(text: Seq<char>)
    requires
        text == "true"@ || text == "false"@ || text == "nil"@,
    ensures
        keyword(text) == Some(
            if text == "true"@ {
                TokenType::True
            } else if text == "false"@ {
                TokenType::False
            } else {
                TokenType::Nul
            },
        ),
        scan(text) == (Scanned {
            tokens: seq![
                TokenModel {
                    kind: keyword(text).unwrap(),
                    lexeme: text,
                    literal: Seq::empty(),
                    line: 1,
                },
                end_of_input(1),
            ],
            errors: Seq::empty(),
        }),
{
    reveal_strlit("and");
    reveal_strlit("class");
    reveal_strlit("else");
    reveal_strlit("false");
    reveal_strlit("for");
    reveal_strlit("fun");
    reveal_strlit("if");
    reveal_strlit("nil");
    reveal_strlit("or");
    reveal_strlit("print");
    reveal_strlit("return");
    reveal_strlit("super");
    reveal_strlit("this");
    reveal_strlit("true");
    reveal_with_fuel(lookup, 17);
    reveal_with_fuel(run_end, 6);
    assert(run_end(text, 0, Run::Word) == text.len());
    assert(text.subrange(0, text.len() as int) =~= text);
    reveal_with_fuel(scan_from, 2);
    assert(scan_from(text, text.len() as int, 1).tokens =~= seq![end_of_input(1)]);
    assert(scan(text).tokens =~= seq![
        TokenModel { kind: keyword(text).unwrap(), lexeme: text, literal: Seq::empty(), line: 1 },
        end_of_input(1),
    ]);
    assert(scan(text).errors =~= Seq::empty());
}

/// An operand that no operator follows is the whole expression of its level.
pub proof fn lemma_lone_operand(tokens: Seq<TokenModel>, pos: int, level: Level)
    requires
        operand(tokens, pos, level).value is Ok,
        at_end(tokens, pos + operand(tokens, pos, level).consumed),
    ensures
        binary(tokens, pos, level) == operand(tokens, pos, level),
{
}

/// A literal that no operator follows is the whole expression.
pub proof fn lemma_lone_literal(tokens: Seq<TokenModel>, pos: int)
    requires
        0 <= pos < tokens.len(),
        tokens[pos].kind == TokenType::True || tokens[pos].kind == TokenType::False
            || tokens[pos].kind == TokenType::Nul || tokens[pos].kind == TokenType::Number
            || tokens[pos].kind == TokenType::String,
        at_end(tokens, pos + 1),
    ensures
        expression(tokens, pos) == primary(tokens, pos),
        primary(tokens, pos).value is Ok,
        primary(tokens, pos).consumed == 1,
{
    assert(unary(tokens, pos) == primary(tokens, pos));
    assert(operand(tokens, pos, Level::Factor) == unary(tokens, pos));
    lemma_lone_operand(tokens, pos, Level::Factor);
    assert(operand(tokens, pos, Level::Term) == binary(tokens, pos, Level::Factor));
    lemma_lone_operand(tokens, pos, Level::Term);
    assert(operand(tokens, pos, Level::Comparison) == binary(tokens, pos, Level::Term));
    lemma_lone_operand(tokens, pos, Level::Comparison);
    assert(operand(tokens, pos, Level::Equality) == binary(tokens, pos, Level::Comparison));
    lemma_lone_operand(tokens, pos, Level::Equality);
}

/// The text of a literal of the language reads back as that literal.
pub proof fn lemma_read_literal_text(text: Seq<char>)
    requires
        is_literal_text(text),
    ensures
        parse(scan(text).tokens) == Ok::<ExprModel, ParseErrorModel>(
            ExprModel::Literal(
                if text == "true"@ {
                    LiteralModel::True
                } else if text == "false"@ {
                    LiteralModel::False
                } else if text == "nil"@ {
                    LiteralModel::Nil
                } else {
                    LiteralModel::Number(text)
                },
            ),
        ),
{
    if text == "true"@ || text == "false"@ || text == "nil"@ {
        lemma_scan_keyword(text);
    } else {
        lemma_scan_numeral(text);
        assert(canonical(text) =~= text);
    }
    lemma_lone_literal(scan(text).tokens, 0);
}

/// Printing, scanning and parsing again, and printing once more gives the
/// first text again, for every tree whose text is that of a literal of the
/// language. The text of any other tree is no expression that prints like it:
/// a tree with an operator or a group prints as a pair of parentheses that
/// holds the operator's name first, which no expression starts with.
pub proof fn lemma_round_trip(expr: ExprModel)
    requires
        is_literal_text(render(expr)),
    ensures
        parse(scan(render(expr)).tokens) matches Ok(again) && render(again) == render(expr),
{
    lemma_read_literal_text(render(expr));
}

/// Whether `text` goes on from `at` with `part`.
pub open spec fn continues_with(text: Seq<char>, at: int, part: Seq<char>) -> bool {
    &&& 0 <= at
    &&& at + part.len() <= text.len()
    &&& forall|k: int| 0 <= k < part.len() ==> text[at + k] == #[trigger] part[k]
}

/// Where `unary` finds no operand, there is no expression.
pub proof fn lemma_no_operand(tokens: Seq<TokenModel>, pos: int)
    requires
        unary(tokens, pos).value is Err,
    ensures
        expression(tokens, pos).value is Err,
{
    if expression(tokens, pos).value is Ok {
        lemma_binary_grows(tokens, pos, Level::Equality);
    }
}

/// The first of the tokens from `index` on, and the tokens behind it.
pub proof fn lemma_first_token(
    tokens: Seq<TokenModel>,
    index: int,
    first: TokenModel,
    rest: Seq<TokenModel>,
)
    requires
        0 <= index <= tokens.len(),
        tokens.skip(index) == seq![first] + rest,
    ensures
        index < tokens.len(),
        tokens[index] == first,
        tokens.skip(index + 1) == rest,
{
    let from_index = tokens.skip(index);
    assert(from_index.len() == rest.len() + 1);
    assert(from_index[0] == first);
    assert(tokens.skip(index + 1) =~= from_index.skip(1));
    assert(from_index.skip(1) =~= rest);
}

/// `group` is no keyword.
pub proof fn lemma_group_is_no_keyword()
    ensures
        keyword("group"@) is None,
{
    reveal_strlit("group");
    reveal_strlit("and");
    reveal_strlit("class");
    reveal_strlit("else");
    reveal_strlit("false");
    reveal_strlit("for");
    reveal_strlit("fun");
    reveal_strlit("if");
    reveal_strlit("nil");
    reveal_strlit("or");
    reveal_strlit("print");
    reveal_strlit("return");
    reveal_strlit("super");
    reveal_strlit("this");
    reveal_strlit("true");
    reveal_strlit("var");
    reveal_strlit("while");
    assert("group"@[0] == 'g');
    assert("and"@[0] == 'a');
    assert("class"@[0] == 'c');
    assert("else"@[0] == 'e');
    assert("false"@[0] == 'f');
    assert("for"@[0] == 'f');
    assert("fun"@[0] == 'f');
    assert("if"@[0] == 'i');
    assert("nil"@[0] == 'n');
    assert("or"@[0] == 'o');
    assert("print"@[0] == 'p');
    assert("return"@[0] == 'r');
    assert("super"@[0] == 's');
    assert("this"@[0] == 't');
    assert("true"@[0] == 't');
    assert("var"@[0] == 'v');
    assert("while"@[0] == 'w');
    reveal_with_fuel(lookup, 17);
}

/// The tokens of a text that goes on with an opening parenthesis.
pub proof fn lemma_scan_paren(text: Seq<char>, at: int, line: nat)
    requires
        0 <= at < text.len(),
        text[at] == '(',
    ensures
        scan_from(text, at, line).tokens == seq![
            TokenModel {
                kind: TokenType::LeftParen,
                lexeme: text.subrange(at, at + 1),
                literal: Seq::empty(),
                line,
            },
        ] + scan_from(text, at + 1, line).tokens,
{
}

/// The tokens of a text that goes on with the word `group` and a space.
pub proof fn lemma_scan_group(text: Seq<char>, at: int, line: nat)
    requires
        continues_with(text, at, "group"@.push(' ')),
    ensures
        scan_from(text, at, line).tokens.len() >= 1,
        scan_from(text, at, line).tokens[0].kind == TokenType::Identifier,
{
    reveal_strlit("group");
    let part = "group"@.push(' ');
    assert(part.len() == 6);
    assert(text[at + 0] == part[0] && text[at + 1] == part[1] && text[at + 2] == part[2] && text[at
        + 3] == part[3] && text[at + 4] == part[4] && text[at + 5] == part[5]);
    assert forall|i: int| at <= i < at + 5 implies Run::Word.holds(#[trigger] text[i]) by {
        assert(text[i] == part[i - at]);
    }
    lemma_run_ends_at(text, at, at + 5, Run::Word);
    assert(text.subrange(at, at + 5) =~= "group"@);
    lemma_group_is_no_keyword();
    let step = step(text, at, line);
    assert(step.outcome is Token);
    assert(step.outcome->Token_0.kind == TokenType::Identifier);
    assert(scan_from(text, at, line).tokens =~= seq![step.outcome->Token_0] + scan_from(
        text,
        step.end,
        step.line,
    ).tokens);
}

/// The tokens of a text that goes on with a binary operator and a space.
pub proof fn lemma_scan_operator(text: Seq<char>, at: int, line: nat, kind: TokenType)
    requires
        is_binary_operator(kind),
        continues_with(text, at, spelling(kind).unwrap().push(' ')),
    ensures
        scan_from(text, at, line).tokens.len() >= 1,
        scan_from(text, at, line).tokens[0].kind == kind,
        kind == TokenType::Minus ==> scan_from(text, at, line).tokens == seq![
            scan_from(text, at, line).tokens[0],
        ] + scan_from(text, at + 2, line).tokens,
{
    let part = spelling(kind).unwrap().push(' ');
    assert(text[at + 0] == part[0] && text[at + 1] == part[1]);
    if part.len() > 2 {
        assert(text[at + 2] == part[2]);
    }
    let step = step(text, at, line);
    assert(step.outcome is Token);
    assert(step.outcome->Token_0.kind == kind);
    assert(scan_from(text, at, line).tokens =~= seq![step.outcome->Token_0] + scan_from(
        text,
        step.end,
        step.line,
    ).tokens);
    if kind == TokenType::Minus {
        assert(step.end == at + 1);
        assert(scan_from(text, at + 1, line).tokens == scan_from(text, at + 2, line).tokens);
    }
}

/// No expression starts where the text of a group or of a binary operation
/// has been scanned: behind its opening parenthesis comes the word `group`,
/// which is no expression, or a binary operator, which starts an expression
/// only as the prefix `-`, and then the text of another group or binary
/// operation follows.
pub proof fn lemma_printed_operation_fails(
    text: Seq<char>,
    at: int,
    line: nat,
    tokens: Seq<TokenModel>,
    index: int,
    tree: ExprModel,
    leaf: ExprModel,
)
    requires
        forall|i: int| 0 <= i < tokens.len() ==> genuine(#[trigger] tokens[i]),
        0 <= index <= tokens.len(),
        tokens.skip(index) == scan_from(text, at, line).tokens,
        continues_with(text, at, render(tree)),
        leaf is Grouping,
        grows_from(tree, leaf, tokens),
    ensures
        index < tokens.len(),
        tokens[index].kind == TokenType::LeftParen,
        primary(tokens, index).value is Err,
    decreases tree,
{
    let printed = render(tree);
    match tree {
        ExprModel::Grouping(inner) => {
            lemma_render_one("group"@, *inner);
            reveal_strlit("group");
            let word = "group"@.push(' ');
            assert(printed.len() >= 8);
            assert(printed[0] == '(');
            assert(text[at + 0] == printed[0]);
            assert forall|k: int| 0 <= k < word.len() implies text[at + 1 + k] == #[trigger] word[k] by {
                assert(text[at + (k + 1)] == printed[k + 1]);
            }
            lemma_scan_paren(text, at, line);
            lemma_first_token(
                tokens,
                index,
                scan_from(text, at, line).tokens[0],
                scan_from(text, at + 1, line).tokens,
            );
            lemma_scan_group(text, at + 1, line);
            let behind = scan_from(text, at + 1, line).tokens;
            assert(tokens.skip(index + 1)[0] == behind[0]);
            assert(tokens[index + 1].kind == TokenType::Identifier);
            assert(unary(tokens, index + 1) == primary(tokens, index + 1));
            assert(primary(tokens, index + 1).value is Err);
            lemma_no_operand(tokens, index + 1);
        },
        ExprModel::Binary { left, operator, right } => {
            assert(tree != leaf);
            lemma_render_binary(*left, operator, *right);
            let kind = operator.kind;
            let j = choose|j: int| 0 <= j < tokens.len() && tokens[j] == operator;
            assert(genuine(tokens[j]));
            let written = spelling(kind).unwrap();
            assert(operator.lexeme == written);
            let word = written.push(' ');
            assert(printed[0] == '(');
            assert(text[at + 0] == printed[0]);
            assert forall|k: int| 0 <= k < word.len() implies text[at + 1 + k] == #[trigger] word[k] by {
                assert(text[at + (k + 1)] == printed[k + 1]);
            }
            lemma_scan_paren(text, at, line);
            lemma_first_token(
                tokens,
                index,
                scan_from(text, at, line).tokens[0],
                scan_from(text, at + 1, line).tokens,
            );
            lemma_scan_operator(text, at + 1, line, kind);
            let behind = scan_from(text, at + 1, line).tokens;
            assert(tokens.skip(index + 1)[0] == behind[0]);
            assert(tokens[index + 1].kind == kind);
            if kind == TokenType::Minus {
                lemma_first_token(
                    tokens,
                    index + 1,
                    behind[0],
                    scan_from(text, at + 3, line).tokens,
                );
                let operand_text = render(*left);
                assert forall|k: int| 0 <= k < operand_text.len() implies text[at + 3 + k]
                    == #[trigger] operand_text[k] by {
                    assert(text[at + (k + 3)] == printed[k + 3]);
                }
                lemma_printed_operation_fails(text, at + 3, line, tokens, index + 2, *left, leaf);
                assert(unary(tokens, index + 2) == primary(tokens, index + 2));
                assert(unary(tokens, index + 1).value is Err);
            } else {
                assert(unary(tokens, index + 1) == primary(tokens, index + 1));
                assert(primary(tokens, index + 1).value is Err);
            }
            lemma_no_operand(tokens, index + 1);
        },
        _ => {},
    }
}

/// Only the text of a literal of the language reads back as a tree that
/// prints as that text.
pub proof fn lemma_reads_back_only(text: Seq<char>)
    requires
        parse(scan(text).tokens) matches Ok(again) && render(again) == text,
    ensures
        is_literal_text(text),
{
    let tokens = scan(text).tokens;
    let again = parse(tokens)->Ok_0;
    lemma_scan_tokens(text);
    lemma_scan_from_genuine(text, 0, 1);
    lemma_scan_image(text);
    lemma_binary_grows(tokens, 0, Level::Equality);
    let leaf = unary(tokens, 0).value->Ok_0;
    match again {
        ExprModel::Literal(literal) => {
            assert(again == leaf);
            assert(unary(tokens, 0) == primary(tokens, 0));
            match literal {
                LiteralModel::Number(numeral) => {
                    assert(tokens[0].kind == TokenType::Number);
                    lemma_canonical_is_canonical(tokens[0].lexeme);
                },
                LiteralModel::String(body) => {
                    assert(tokens[0].kind == TokenType::String);
                    assert(genuine(tokens[0]));
                    assert(starts(text)[0] + tokens[0].lexeme.len() <= text.len());
                },
                _ => {},
            }
        },
        _ => {
            // The text starts with an opening parenthesis, so the leftmost
            // operand is a group.
            match again {
                ExprModel::Binary { left, operator, right } => {
                    lemma_render_binary(*left, operator, *right);
                },
                ExprModel::Grouping(inner) => {
                    lemma_render_one("group"@, *inner);
                },
                ExprModel::Unary { operator, right } => {
                    lemma_render_one(operator.lexeme, *right);
                },
                _ => {},
            }
            assert(text[0] == '(');
            lemma_scan_paren(text, 0, 1);
            assert(tokens[0].kind == TokenType::LeftParen);
            assert(unary(tokens, 0) == primary(tokens, 0));
            assert(leaf is Grouping);
            assert(tokens.skip(0) =~= tokens);
            lemma_printed_operation_fails(text, 0, 1, tokens, 0, again, leaf);
        },
    }
}

/// Printing, scanning and parsing again, and printing once more gives the
/// first text again for the trees whose text is that of a literal of the
/// language, and for no others.
pub proof fn lemma_round_trip_exact(expr: ExprModel)
    ensures
        is_literal_text(render(expr)) <==> (parse(scan(render(expr)).tokens) matches Ok(again)
            && render(again) == render(expr)),
{
    if is_literal_text(render(expr)) {
        lemma_round_trip(expr);
    }
    if parse(scan(render(expr)).tokens) matches Ok(again) && render(again) == render(expr) {
        lemma_reads_back_only(render(expr));
    }
}

} // verus!
