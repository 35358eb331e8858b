//! The language that the parser accepts, stated without reference to how
//! it is parsed, and the laws that tie the parser to it.
//!
//! A sentence is a token sequence together with the tree it stands for.
//! Parentheses leave no trace in the tree, so one tree has many sentences.

use crate::ast::{
    expected_token, expected_tokens, parsed_expression, parsed_function, parsed_identifier,
    parsed_programme, parsed_statement, signature_tokens, Expression, FunctionView,
    ParseErrorView, ProgrammeView, Statement, UnaryOperator,
};
use crate::tokens::{is_operator, Keyword, TokenView};
use vstd::prelude::*;

verus! {

/// Whether the tokens are an expression that stands for the given tree:
/// a constant; an operator before an expression; or an expression between
/// parentheses, which stands for the same tree as the expression inside.
pub open spec fn is_expression(tokens: Seq<TokenView>, expression: Expression) -> bool
    decreases tokens.len(),
{
    tokens.len() > 0 && match tokens[0] {
        TokenView::Constant(value) => tokens.len() == 1 && expression == Expression::Constant(
            value,
        ),
        TokenView::Complement => expression matches Expression::Unary(unary) && unary.operator
            == UnaryOperator::Complement && is_expression(tokens.drop_first(), unary.expression),
        TokenView::Negation => expression matches Expression::Unary(unary) && unary.operator
            == UnaryOperator::Negate && is_expression(tokens.drop_first(), unary.expression),
        TokenView::OpenParen => tokens.len() >= 2 && tokens.last() == TokenView::CloseParen
            && is_expression(tokens.subrange(1, tokens.len() - 1), expression),
        _ => false,
    }
}

/// Whether a token can stand first in an expression.
pub open spec fn begins_expression(token: TokenView) -> bool {
    token is Constant || token is Complement || token is Negation || token is OpenParen
}

/// An expression followed by anything parses to its tree and leaves what
/// follows.
pub proof fn lemma_expression_accepted(
    tokens: Seq<TokenView>,
    expression: Expression,
    rest: Seq<TokenView>,
)
    requires
        is_expression(tokens, expression),
    ensures
        parsed_expression(tokens + rest) == Ok::<(Expression, Seq<TokenView>), ParseErrorView>(
            (expression, rest),
        ),
    decreases tokens.len(),
{
    let all = tokens + rest;
    assert(all[0] == tokens[0]);
    match tokens[0] {
        TokenView::Constant(value) => {
            assert(all.drop_first() =~= rest);
        },
        TokenView::Complement => {
            let unary = expression->Unary_0;
            assert(all.drop_first() =~= tokens.drop_first() + rest);
            lemma_expression_accepted(tokens.drop_first(), unary.expression, rest);
        },
        TokenView::Negation => {
            let unary = expression->Unary_0;
            assert(all.drop_first() =~= tokens.drop_first() + rest);
            lemma_expression_accepted(tokens.drop_first(), unary.expression, rest);
        },
        TokenView::OpenParen => {
            let inner = tokens.subrange(1, tokens.len() - 1);
            let closed = seq![TokenView::CloseParen] + rest;
            assert(all.drop_first() =~= inner + closed);
            lemma_expression_accepted(inner, expression, closed);
            assert(closed.drop_first() =~= rest);
        },
        _ => {},
    }
}

/// What the parser takes as an expression is one: the tokens it has
/// consumed are an expression that stands for the tree it returns.
pub proof fn lemma_expression_sound(tokens: Seq<TokenView>)
    ensures
        parsed_expression(tokens) matches Ok(parsed) ==> {
            let taken = tokens.len() - parsed.1.len();
            &&& 0 < taken <= tokens.len()
            &&& parsed.1 == tokens.skip(taken)
            &&& is_expression(tokens.take(taken), parsed.0)
        },
    decreases tokens.len(),
{
    if tokens.len() > 0 {
        let tail = tokens.drop_first();
        match tokens[0] {
            TokenView::Constant(value) => {
                assert(tokens.skip(1) =~= tail);
            },
            TokenView::Complement => {
                lemma_expression_sound(tail);
                if let Ok(parsed) = parsed_expression(tail) {
                    let taken = tail.len() - parsed.1.len();
                    assert(tokens.skip(taken + 1) =~= tail.skip(taken));
                    assert(tokens.take(taken + 1).drop_first() =~= tail.take(taken));
                }
            },
            TokenView::Negation => {
                lemma_expression_sound(tail);
                if let Ok(parsed) = parsed_expression(tail) {
                    let taken = tail.len() - parsed.1.len();
                    assert(tokens.skip(taken + 1) =~= tail.skip(taken));
                    assert(tokens.take(taken + 1).drop_first() =~= tail.take(taken));
                }
            },
            TokenView::OpenParen => {
                lemma_expression_sound(tail);
                if let Ok(parsed) = parsed_expression(tail) {
                    if let Ok(rest) = expected_token(TokenView::CloseParen, parsed.1) {
                        let taken = tail.len() - parsed.1.len();
                        let whole = tokens.take(taken + 2);
                        assert(tokens.skip(taken + 2) =~= rest);
                        assert(whole.last() == parsed.1[0]);
                        assert(whole.subrange(1, whole.len() - 1) =~= tail.take(taken));
                    }
                }
            },
            _ => {},
        }
    }
}

/// An expression begins with a token that can begin one.
pub proof fn lemma_expression_begins(tokens: Seq<TokenView>, expression: Expression)
    requires
        is_expression(tokens, expression),
    ensures
        tokens.len() > 0,
        begins_expression(tokens[0]),
{
}

/// An expression cut short ends where a token was needed.
pub proof fn lemma_expression_truncated(tokens: Seq<TokenView>, expression: Expression, kept: int)
    requires
        is_expression(tokens, expression),
        0 <= kept < tokens.len(),
    ensures
        parsed_expression(tokens.take(kept)) == Err::<(Expression, Seq<TokenView>), ParseErrorView>(
            ParseErrorView::UnexpectedEnd,
        ),
    decreases tokens.len(),
{
    let cut = tokens.take(kept);
    if kept > 0 {
        assert(cut[0] == tokens[0]);
        match tokens[0] {
            TokenView::Complement => {
                let unary = expression->Unary_0;
                assert(cut.drop_first() =~= tokens.drop_first().take(kept - 1));
                lemma_expression_truncated(tokens.drop_first(), unary.expression, kept - 1);
            },
            TokenView::Negation => {
                let unary = expression->Unary_0;
                assert(cut.drop_first() =~= tokens.drop_first().take(kept - 1));
                lemma_expression_truncated(tokens.drop_first(), unary.expression, kept - 1);
            },
            TokenView::OpenParen => {
                let inner = tokens.subrange(1, tokens.len() - 1);
                if kept - 1 < inner.len() {
                    assert(cut.drop_first() =~= inner.take(kept - 1));
                    lemma_expression_truncated(inner, expression, kept - 1);
                } else {
                    assert(cut.drop_first() =~= inner + Seq::<TokenView>::empty());
                    lemma_expression_accepted(inner, expression, Seq::empty());
                }
            },
            _ => {},
        }
    }
}

/// What parsing gives when one token is missing from an expression: an
/// error, or a tree with a closing parenthesis too many left over, or a
/// tree for which a closing parenthesis was taken from what follows.
pub open spec fn unbalanced(
    parsed: Result<(Expression, Seq<TokenView>), ParseErrorView>,
    rest: Seq<TokenView>,
) -> bool {
    match parsed {
        Err(_) => true,
        Ok(pair) => {
            ||| pair.1 == seq![TokenView::CloseParen] + rest
            ||| rest.len() > 0 && rest[0] == TokenView::CloseParen && pair.1 == rest.drop_first()
        },
    }
}

/// An expression with one token taken out, other than an operator, is
/// never parsed as if nothing were missing, provided that what follows
/// cannot itself begin an expression.
pub proof fn lemma_expression_with_gap(
    tokens: Seq<TokenView>,
    expression: Expression,
    gap: int,
    rest: Seq<TokenView>,
)
    requires
        is_expression(tokens, expression),
        0 <= gap < tokens.len(),
        !is_operator(tokens[gap]),
        rest.len() > 0 ==> !begins_expression(rest[0]),
    ensures
        unbalanced(parsed_expression(tokens.remove(gap) + rest), rest),
    decreases tokens.len(),
{
    let all = tokens.remove(gap) + rest;
    match tokens[0] {
        TokenView::Constant(value) => {
            assert(all =~= rest);
        },
        TokenView::Complement => {
            let unary = expression->Unary_0;
            let tail = tokens.drop_first();
            assert(all[0] == tokens[0]);
            assert(all.drop_first() =~= tail.remove(gap - 1) + rest);
            assert(tail[gap - 1] == tokens[gap]);
            lemma_expression_with_gap(tail, unary.expression, gap - 1, rest);
        },
        TokenView::Negation => {
            let unary = expression->Unary_0;
            let tail = tokens.drop_first();
            assert(all[0] == tokens[0]);
            assert(all.drop_first() =~= tail.remove(gap - 1) + rest);
            assert(tail[gap - 1] == tokens[gap]);
            lemma_expression_with_gap(tail, unary.expression, gap - 1, rest);
        },
        TokenView::OpenParen => {
            let inner = tokens.subrange(1, tokens.len() - 1);
            let closed = seq![TokenView::CloseParen] + rest;
            if gap == 0 {
                assert(all =~= inner + closed);
                lemma_expression_accepted(inner, expression, closed);
            } else if gap <= inner.len() {
                assert(all[0] == tokens[0]);
                assert(all.drop_first() =~= inner.remove(gap - 1) + closed);
                assert(inner[gap - 1] == tokens[gap]);
                lemma_expression_with_gap(inner, expression, gap - 1, closed);
                assert(closed.drop_first() =~= rest);
                assert((seq![TokenView::CloseParen] + closed).drop_first() =~= closed);
            } else {
                assert(all[0] == tokens[0]);
                assert(all.drop_first() =~= inner + rest);
                lemma_expression_accepted(inner, expression, rest);
            }
        },
        _ => {},
    }
}

/// Whether the tokens are a statement that stands for the given tree:
/// `return`, an expression, and a semicolon.
pub open spec fn is_statement(tokens: Seq<TokenView>, statement: Statement) -> bool {
    &&& tokens.len() >= 2
    &&& tokens[0] == TokenView::Keyword(Keyword::RETURN)
    &&& tokens.last() == TokenView::Semicolon
    &&& match statement {
        Statement::Return(expression) => is_expression(
            tokens.subrange(1, tokens.len() - 1),
            expression,
        ),
    }
}

/// A statement followed by anything parses to its tree and leaves what
/// follows.
pub proof fn lemma_statement_accepted(
    tokens: Seq<TokenView>,
    statement: Statement,
    rest: Seq<TokenView>,
)
    requires
        is_statement(tokens, statement),
    ensures
        parsed_statement(tokens + rest) == Ok::<(Statement, Seq<TokenView>), ParseErrorView>(
            (statement, rest),
        ),
{
    let all = tokens + rest;
    let inner = tokens.subrange(1, tokens.len() - 1);
    let ended = seq![TokenView::Semicolon] + rest;
    assert(all[0] == tokens[0]);
    assert(all.drop_first() =~= inner + ended);
    lemma_expression_accepted(inner, statement->Return_0, ended);
    assert(ended.drop_first() =~= rest);
}

/// What the parser takes as a statement is one.
pub proof fn lemma_statement_sound(tokens: Seq<TokenView>)
    ensures
        parsed_statement(tokens) matches Ok(parsed) ==> {
            let taken = tokens.len() - parsed.1.len();
            &&& 0 < taken <= tokens.len()
            &&& parsed.1 == tokens.skip(taken)
            &&& is_statement(tokens.take(taken), parsed.0)
        },
{
    if let Ok(parsed) = parsed_statement(tokens) {
        let tail = tokens.drop_first();
        lemma_expression_sound(tail);
        let inner = parsed_expression(tail)->Ok_0;
        let taken = tail.len() - inner.1.len();
        let whole = tokens.take(taken + 2);
        assert(tokens.skip(taken + 2) =~= parsed.1);
        assert(whole.last() == inner.1[0]);
        assert(whole.subrange(1, whole.len() - 1) =~= tail.take(taken));
    }
}

/// A statement cut short ends where a token was needed.
pub proof fn lemma_statement_truncated(tokens: Seq<TokenView>, statement: Statement, kept: int)
    requires
        is_statement(tokens, statement),
        0 <= kept < tokens.len(),
    ensures
        parsed_statement(tokens.take(kept)) == Err::<(Statement, Seq<TokenView>), ParseErrorView>(
            ParseErrorView::UnexpectedEnd,
        ),
{
    let cut = tokens.take(kept);
    let inner = tokens.subrange(1, tokens.len() - 1);
    if kept > 0 {
        assert(cut[0] == tokens[0]);
        if kept - 1 < inner.len() {
            assert(cut.drop_first() =~= inner.take(kept - 1));
            lemma_expression_truncated(inner, statement->Return_0, kept - 1);
        } else {
            assert(cut.drop_first() =~= inner + Seq::<TokenView>::empty());
            lemma_expression_accepted(inner, statement->Return_0, Seq::empty());
        }
    }
}

/// A statement with one token taken out, other than an operator, is
/// rejected, provided that no semicolon follows it.
pub proof fn lemma_statement_with_gap(
    tokens: Seq<TokenView>,
    statement: Statement,
    gap: int,
    rest: Seq<TokenView>,
)
    requires
        is_statement(tokens, statement),
        0 <= gap < tokens.len(),
        !is_operator(tokens[gap]),
        rest.len() > 0 ==> rest[0] != TokenView::Semicolon,
    ensures
        parsed_statement(tokens.remove(gap) + rest) is Err,
{
    let all = tokens.remove(gap) + rest;
    let inner = tokens.subrange(1, tokens.len() - 1);
    let ended = seq![TokenView::Semicolon] + rest;
    lemma_expression_begins(inner, statement->Return_0);
    if gap == 0 {
        assert(all[0] == inner[0]);
    } else if gap <= inner.len() {
        assert(all[0] == tokens[0]);
        assert(all.drop_first() =~= inner.remove(gap - 1) + ended);
        assert(inner[gap - 1] == tokens[gap]);
        lemma_expression_with_gap(inner, statement->Return_0, gap - 1, ended);
        assert((seq![TokenView::CloseParen] + ended)[0] == TokenView::CloseParen);
    } else {
        assert(all[0] == tokens[0]);
        assert(all.drop_first() =~= inner + rest);
        lemma_expression_accepted(inner, statement->Return_0, rest);
    }
}

/// Whether the tokens are a function definition that stands for the given
/// tree: `int`, the name, `( void ) {`, a statement, and `}`.
pub open spec fn is_function(tokens: Seq<TokenView>, function: FunctionView) -> bool {
    &&& tokens.len() >= 7
    &&& tokens[0] == TokenView::Keyword(Keyword::INT)
    &&& tokens[1] == TokenView::Identifier(function.name)
    &&& tokens.subrange(2, 6) =~= signature_tokens()
    &&& tokens.last() == TokenView::CloseBrace
    &&& is_statement(tokens.subrange(6, tokens.len() - 1), function.body)
}

/// Whether the tokens are a program that stands for the given tree: one
/// function definition.
pub open spec fn is_programme(tokens: Seq<TokenView>, programme: ProgrammeView) -> bool {
    is_function(tokens, programme.function)
}

/// The tokens of a function definition before its body match what the
/// parser expects there, and the parser comes to the body.
proof fn lemma_function_head(tokens: Seq<TokenView>, name: Seq<char>)
    requires
        tokens.len() >= 6,
        tokens[0] == TokenView::Keyword(Keyword::INT),
        tokens[1] == TokenView::Identifier(name),
        tokens.subrange(2, 6) =~= signature_tokens(),
    ensures
        expected_token(TokenView::Keyword(Keyword::INT), tokens) == Ok::<
            Seq<TokenView>,
            ParseErrorView,
        >(tokens.skip(1)),
        parsed_identifier(tokens.skip(1)) == Ok::<(Seq<char>, Seq<TokenView>), ParseErrorView>(
            (name, tokens.skip(2)),
        ),
        expected_tokens(signature_tokens(), tokens.skip(2)) == Ok::<
            Seq<TokenView>,
            ParseErrorView,
        >(tokens.skip(6)),
{
    let signature = signature_tokens();
    assert(tokens.drop_first() =~= tokens.skip(1));
    assert(tokens.skip(1).drop_first() =~= tokens.skip(2));
    assert(forall|i: int| 0 <= i < 4 ==> tokens.subrange(2, 6)[i] == tokens[i + 2]);
    reveal_with_fuel(expected_tokens, 5);
    assert(tokens.skip(2).drop_first() =~= tokens.skip(3));
    assert(tokens.skip(3).drop_first() =~= tokens.skip(4));
    assert(tokens.skip(4).drop_first() =~= tokens.skip(5));
    assert(tokens.skip(5).drop_first() =~= tokens.skip(6));
    assert(signature.drop_first().drop_first().drop_first().drop_first().len() == 0);
}

/// A function definition followed by anything parses to its tree and
/// leaves what follows.
pub proof fn lemma_function_accepted(
    tokens: Seq<TokenView>,
    function: FunctionView,
    rest: Seq<TokenView>,
)
    requires
        is_function(tokens, function),
    ensures
        parsed_function(tokens + rest) == Ok::<(FunctionView, Seq<TokenView>), ParseErrorView>(
            (function, rest),
        ),
{
    let all = tokens + rest;
    let body = tokens.subrange(6, tokens.len() - 1);
    let closed = seq![TokenView::CloseBrace] + rest;
    assert(all.subrange(2, 6) =~= tokens.subrange(2, 6));
    lemma_function_head(all, function.name);
    assert(all.skip(6) =~= body + closed);
    lemma_statement_accepted(body, function.body, closed);
    assert(closed.drop_first() =~= rest);
}

/// What the parser takes as a function definition is one.
pub proof fn lemma_function_sound(tokens: Seq<TokenView>)
    ensures
        parsed_function(tokens) matches Ok(parsed) ==> {
            let taken = tokens.len() - parsed.1.len();
            &&& 0 < taken <= tokens.len()
            &&& parsed.1 == tokens.skip(taken)
            &&& is_function(tokens.take(taken), parsed.0)
        },
{
    if let Ok(parsed) = parsed_function(tokens) {
        let signature = signature_tokens();
        reveal_with_fuel(expected_tokens, 5);
        assert(tokens.drop_first() =~= tokens.skip(1));
        assert(tokens.skip(1).drop_first() =~= tokens.skip(2));
        assert(tokens.skip(2).drop_first() =~= tokens.skip(3));
        assert(tokens.skip(3).drop_first() =~= tokens.skip(4));
        assert(tokens.skip(4).drop_first() =~= tokens.skip(5));
        assert(tokens.skip(5).drop_first() =~= tokens.skip(6));
        assert(signature.drop_first().drop_first().drop_first().drop_first().len() == 0);
        let body_on = tokens.skip(6);
        assert(expected_tokens(signature, tokens.skip(2)) == Ok::<Seq<TokenView>, ParseErrorView>(
            body_on,
        ));
        lemma_statement_sound(body_on);
        let body = parsed_statement(body_on)->Ok_0;
        let taken = body_on.len() - body.1.len();
        let whole = tokens.take(taken + 7);
        assert(tokens.skip(taken + 7) =~= parsed.1);
        assert(whole.last() == body.1[0]);
        assert(whole.subrange(6, whole.len() - 1) =~= body_on.take(taken));
        assert(whole.subrange(2, 6) =~= signature);
    }
}

/// A function definition cut short ends where a token was needed.
pub proof fn lemma_function_truncated(tokens: Seq<TokenView>, function: FunctionView, kept: int)
    requires
        is_function(tokens, function),
        0 <= kept < tokens.len(),
    ensures
        parsed_function(tokens.take(kept)) == Err::<(FunctionView, Seq<TokenView>), ParseErrorView>(
            ParseErrorView::UnexpectedEnd,
        ),
{
    let cut = tokens.take(kept);
    let body = tokens.subrange(6, tokens.len() - 1);
    if kept >= 6 {
        assert(cut.subrange(2, 6) =~= tokens.subrange(2, 6));
        lemma_function_head(cut, function.name);
        if kept - 6 < body.len() {
            assert(cut.skip(6) =~= body.take(kept - 6));
            lemma_statement_truncated(body, function.body, kept - 6);
        } else {
            assert(cut.skip(6) =~= body + Seq::<TokenView>::empty());
            lemma_statement_accepted(body, function.body, Seq::empty());
        }
    } else if kept >= 2 {
        let signature = signature_tokens();
        reveal_with_fuel(expected_tokens, 5);
        assert(forall|i: int| 0 <= i < 4 ==> tokens.subrange(2, 6)[i] == tokens[i + 2]);
        assert(cut.drop_first() =~= cut.skip(1));
        assert(cut.skip(1).drop_first() =~= cut.skip(2));
        if kept >= 3 {
            assert(cut.skip(2).drop_first() =~= cut.skip(3));
        }
        if kept >= 4 {
            assert(cut.skip(3).drop_first() =~= cut.skip(4));
        }
        if kept >= 5 {
            assert(cut.skip(4).drop_first() =~= cut.skip(5));
        }
    } else if kept == 1 {
        assert(cut.drop_first().len() == 0);
    }
}

/// A function definition with one token taken out, other than an
/// operator, is rejected, provided that no closing brace follows it.
pub proof fn lemma_function_with_gap(
    tokens: Seq<TokenView>,
    function: FunctionView,
    gap: int,
    rest: Seq<TokenView>,
)
    requires
        is_function(tokens, function),
        0 <= gap < tokens.len(),
        !is_operator(tokens[gap]),
        rest.len() > 0 ==> rest[0] != TokenView::CloseBrace,
    ensures
        parsed_function(tokens.remove(gap) + rest) is Err,
{
    let all = tokens.remove(gap) + rest;
    let body = tokens.subrange(6, tokens.len() - 1);
    let closed = seq![TokenView::CloseBrace] + rest;
    lemma_expression_begins(body.subrange(1, body.len() - 1), function.body->Return_0);
    assert(forall|i: int| 0 <= i < 4 ==> tokens.subrange(2, 6)[i] == tokens[i + 2]);
    assert(tokens[6] == body[0]);
    assert(forall|i: int| 0 <= i < gap ==> all[i] == tokens[i]);
    assert(forall|i: int| gap <= i < tokens.len() - 1 ==> all[i] == tokens[i + 1]);
    if gap >= 6 {
        assert(all.subrange(2, 6) =~= tokens.subrange(2, 6));
        lemma_function_head(all, function.name);
        if gap - 6 < body.len() {
            assert(all.skip(6) =~= body.remove(gap - 6) + closed);
            assert(body[gap - 6] == tokens[gap]);
            lemma_statement_with_gap(body, function.body, gap - 6, closed);
        } else {
            assert(all.skip(6) =~= body + rest);
            lemma_statement_accepted(body, function.body, rest);
        }
    } else {
        reveal_with_fuel(expected_tokens, 5);
        assert(all.drop_first() =~= all.skip(1));
        assert(all.skip(1).drop_first() =~= all.skip(2));
        assert(all.skip(2).drop_first() =~= all.skip(3));
        assert(all.skip(3).drop_first() =~= all.skip(4));
        assert(all.skip(4).drop_first() =~= all.skip(5));
        assert(all.skip(5).drop_first() =~= all.skip(6));
    }
}

/// Every program of the language is parsed to the tree it stands for,
/// with no token left over.
pub proof fn lemma_programme_accepted(tokens: Seq<TokenView>, programme: ProgrammeView)
    requires
        is_programme(tokens, programme),
    ensures
        parsed_programme(tokens) == Ok::<ProgrammeView, ParseErrorView>(programme),
{
    assert(tokens + Seq::<TokenView>::empty() =~= tokens);
    lemma_function_accepted(tokens, programme.function, Seq::empty());
}

/// Only the programs of the language are parsed, and each to the tree it
/// stands for.
pub proof fn lemma_accepted_is_programme(tokens: Seq<TokenView>)
    ensures
        parsed_programme(tokens) matches Ok(programme) ==> is_programme(tokens, programme),
{
    lemma_function_sound(tokens);
    if parsed_programme(tokens) is Ok {
        assert(tokens.take(tokens.len() as int) =~= tokens);
    }
}

/// A program with one more token after it is rejected for that token.
pub proof fn lemma_extra_token_rejected(
    tokens: Seq<TokenView>,
    programme: ProgrammeView,
    extra: TokenView,
)
    requires
        is_programme(tokens, programme),
    ensures
        parsed_programme(tokens.push(extra)) == Err::<ProgrammeView, ParseErrorView>(
            ParseErrorView::TrailingTokens { next: extra },
        ),
{
    assert(tokens.push(extra) =~= tokens + seq![extra]);
    lemma_function_accepted(tokens, programme.function, seq![extra]);
}

/// A program with one token taken out is rejected, unless the token is a
/// unary operator: without its operator an expression is still one.
pub proof fn lemma_missing_token_rejected(
    tokens: Seq<TokenView>,
    programme: ProgrammeView,
    gap: int,
)
    requires
        is_programme(tokens, programme),
        0 <= gap < tokens.len(),
        !is_operator(tokens[gap]),
    ensures
        parsed_programme(tokens.remove(gap)) is Err,
{
    assert(tokens.remove(gap) + Seq::<TokenView>::empty() =~= tokens.remove(gap));
    lemma_function_with_gap(tokens, programme.function, gap, Seq::empty());
}

/// A program cut short anywhere is rejected because the tokens end.
pub proof fn lemma_truncated_programme_rejected(
    tokens: Seq<TokenView>,
    programme: ProgrammeView,
    kept: int,
)
    requires
        is_programme(tokens, programme),
        0 <= kept < tokens.len(),
    ensures
        parsed_programme(tokens.take(kept)) == Err::<ProgrammeView, ParseErrorView>(
            ParseErrorView::UnexpectedEnd,
        ),
{
    lemma_function_truncated(tokens, programme.function, kept);
}

/// The shortest program: a function that returns a constant.
pub open spec fn smallest_programme(name: Seq<char>, value: i32) -> Seq<TokenView> {
    seq![
        TokenView::Keyword(Keyword::INT),
        TokenView::Identifier(name),
        TokenView::OpenParen,
        TokenView::Keyword(Keyword::VOID),
        TokenView::CloseParen,
        TokenView::OpenBrace,
        TokenView::Keyword(Keyword::RETURN),
        TokenView::Constant(value),
        TokenView::Semicolon,
        TokenView::CloseBrace,
    ]
}

/// The tree of a function that returns a constant.
pub open spec fn constant_programme(name: Seq<char>, value: i32) -> ProgrammeView {
    ProgrammeView {
        function: FunctionView { name, body: Statement::Return(Expression::Constant(value)) },
    }
}

/// A program has ten tokens or more, and with ten it is a function that
/// returns a constant.
pub proof fn lemma_programme_length(tokens: Seq<TokenView>, programme: ProgrammeView)
    requires
        is_programme(tokens, programme),
    ensures
        tokens.len() >= 10,
        tokens.len() == 10 ==> exists|value: i32|
            tokens == #[trigger] smallest_programme(programme.function.name, value) && programme
                == constant_programme(programme.function.name, value),
{
    let body = tokens.subrange(6, tokens.len() - 1);
    let inner = body.subrange(1, body.len() - 1);
    lemma_expression_begins(inner, programme.function.body->Return_0);
    assert(forall|i: int| 0 <= i < 4 ==> tokens.subrange(2, 6)[i] == tokens[i + 2]);
    assert(body[0] == tokens[6]);
    assert(body.last() == tokens[tokens.len() - 2]);
    assert(inner[0] == tokens[7]);
    if tokens.len() == 10 {
        assert(inner.len() == 1);
        let value = inner[0]->Constant_0;
        assert(inner[0] is Constant) by {
            reveal_with_fuel(is_expression, 2);
        }
        assert(tokens =~= smallest_programme(programme.function.name, value));
    }
}

/// Every function that returns a constant is a program of ten tokens.
pub proof fn lemma_smallest_programme(name: Seq<char>, value: i32)
    ensures
        smallest_programme(name, value).len() == 10,
        is_programme(smallest_programme(name, value), constant_programme(name, value)),
{
    let tokens = smallest_programme(name, value);
    let body = tokens.subrange(6, tokens.len() - 1);
    let inner = body.subrange(1, body.len() - 1);
    assert(tokens.subrange(2, 6) =~= signature_tokens());
    assert(inner =~= seq![TokenView::Constant(value)]);
    assert(body[0] == tokens[6]);
    assert(body.last() == tokens[8]);
}

/// No sequence of fewer than ten tokens is accepted.
pub proof fn lemma_short_sequence_rejected(tokens: Seq<TokenView>)
    requires
        tokens.len() < 10,
    ensures
        parsed_programme(tokens) is Err,
{
    lemma_accepted_is_programme(tokens);
    if let Ok(programme) = parsed_programme(tokens) {
        lemma_programme_length(tokens, programme);
    }
}

} // verus!
