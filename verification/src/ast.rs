//! Syntactic analysis: a token sequence to a syntax tree.
//!
//! ```text
//! Programme  ::= Function
//! Function   ::= 'int' Identifier '(' 'void' ')' '{' Statement '}'
//! Statement  ::= 'return' Expression ';'
//! Expression ::= '~' Expression | '-' Expression | '(' Expression ')' | Constant
//! ```

use crate::tokens::{token_views, Keyword, Token, TokenView};
use vstd::prelude::*;
use vstd::slice::slice_subrange;

verus! {

/// A name in the source program.
#[derive(Debug, PartialEq, Eq)]
pub enum Identifier {
    Var(String),
}

impl View for Identifier {
    type V = Seq<char>;

    open spec fn view(&self) -> Seq<char> {
        match self {
            Identifier::Var(name) => name@,
        }
    }
}

/// An operator with one operand.
#[derive(Debug, Clone, Copy, PartialEq, Eq)]
pub enum UnaryOperator {
    Complement,
    Negate,
}

/// An operator applied to an expression.
#[derive(Debug, PartialEq, Eq)]
pub struct Unary {
    pub operator: UnaryOperator,
    pub expression: Expression,
}

/// An expression: an integer constant, or an operator applied to one.
#[derive(Debug, PartialEq, Eq)]
pub enum Expression {
    Constant(i32),
    Unary(Box<Unary>),
}

/// A statement of a function body.
#[derive(Debug, PartialEq, Eq)]
pub enum Statement {
    Return(Expression),
}

/// A function definition.
#[derive(Debug, PartialEq, Eq)]
pub struct Function {
    pub name: Identifier,
    pub body: Statement,
}

/// A function definition with its name as a sequence of characters.
pub struct FunctionView {
    pub name: Seq<char>,
    pub body: Statement,
}

impl View for Function {
    type V = FunctionView;

    open spec fn view(&self) -> FunctionView {
        FunctionView { name: self.name@, body: self.body }
    }
}

/// A whole program: exactly one function.
#[derive(Debug, PartialEq, Eq)]
pub struct Programme {
    pub function: Function,
}

/// A program with its function's name as a sequence of characters.
pub struct ProgrammeView {
    pub function: FunctionView,
}

impl View for Programme {
    type V = ProgrammeView;

    open spec fn view(&self) -> ProgrammeView {
        ProgrammeView { function: self.function@ }
    }
}

/// Why a token sequence is not a program.
#[derive(Debug, PartialEq, Eq)]
pub enum ParseError {
    /// Another token stands where one was expected.
    UnexpectedToken { expected: Token, found: Token },
    /// The tokens end where one more was needed.
    UnexpectedEnd,
    /// The token cannot begin an expression.
    NotAConstant { found: Token },
    /// The token is not a name.
    NotAnIdentifier { found: Token },
    /// Tokens are left after a complete program; holds the first of them.
    TrailingTokens { next: Token },
}

/// What a parse error says, over the views of the tokens it holds.
pub enum ParseErrorView {
    UnexpectedToken { expected: TokenView, found: TokenView },
    UnexpectedEnd,
    NotAConstant { found: TokenView },
    NotAnIdentifier { found: TokenView },
    TrailingTokens { next: TokenView },
}

impl View for ParseError {
    type V = ParseErrorView;

    open spec fn view(&self) -> ParseErrorView {
        match self {
            ParseError::UnexpectedToken { expected, found } => ParseErrorView::UnexpectedToken {
                expected: expected@,
                found: found@,
            },
            ParseError::UnexpectedEnd => ParseErrorView::UnexpectedEnd,
            ParseError::NotAConstant { found } => ParseErrorView::NotAConstant { found: found@ },
            ParseError::NotAnIdentifier { found } => ParseErrorView::NotAnIdentifier {
                found: found@,
            },
            ParseError::TrailingTokens { next } => ParseErrorView::TrailingTokens { next: next@ },
        }
    }
}

/// Taking one expected token off the front of a sequence.
pub open spec fn expected_token(expected: TokenView, tokens: Seq<TokenView>) -> Result<
    Seq<TokenView>,
    ParseErrorView,
> {
    if tokens.len() == 0 {
        Err(ParseErrorView::UnexpectedEnd)
    } else if tokens[0] == expected {
        Ok(tokens.drop_first())
    } else {
        Err(ParseErrorView::UnexpectedToken { expected, found: tokens[0] })
    }
}

/// Taking a run of expected tokens off the front of a sequence, one by one.
pub open spec fn expected_tokens(expected: Seq<TokenView>, tokens: Seq<TokenView>) -> Result<
    Seq<TokenView>,
    ParseErrorView,
>
    decreases expected.len(),
{
    if expected.len() == 0 {
        Ok(tokens)
    } else {
        match expected_token(expected[0], tokens) {
            Ok(rest) => expected_tokens(expected.drop_first(), rest),
            Err(error) => Err(error),
        }
    }
}

/// The tail of a sequence of tokens has the tail of its views.
pub proof fn lemma_views_of_tail(tokens: Seq<Token>)
    requires
        tokens.len() > 0,
    ensures
        token_views(tokens.subrange(1, tokens.len() as int)) == token_views(tokens).drop_first(),
        token_views(tokens)[0] == tokens[0]@,
        token_views(tokens).len() == tokens.len(),
{
    assert(token_views(tokens.subrange(1, tokens.len() as int)) =~= token_views(
        tokens,
    ).drop_first());
}

/// Takes the expected tokens off the front of the sequence, one by one, and
/// returns what follows them.
pub fn expect<'a>(expected: &[Token], tokens: &'a [Token]) -> (rest: Result<&'a [Token], ParseError>)
    ensures
        match expected_tokens(token_views(expected@), token_views(tokens@)) {
            Ok(left) => rest matches Ok(r) && token_views(r@) == left,
            Err(error) => rest matches Err(e) && e@ == error,
        },
{
    let mut rest = tokens;
    let mut i: usize = 0;
    assert(token_views(expected@).skip(0) =~= token_views(expected@));
    while i < expected.len()
        invariant
            i <= expected.len(),
            expected_tokens(token_views(expected@), token_views(tokens@)) == expected_tokens(
                token_views(expected@).skip(i as int),
                token_views(rest@),
            ),
        decreases expected.len() - i,
    {
        proof {
            assert(token_views(expected@).skip(i as int)[0] == expected@[i as int]@);
            assert(token_views(expected@).skip(i as int).drop_first() =~= token_views(
                expected@,
            ).skip(i + 1));
        }
        if rest.len() == 0 {
            return Err(ParseError::UnexpectedEnd);
        }
        proof {
            lemma_views_of_tail(rest@);
        }
        if rest[0] == expected[i] {
            rest = slice_subrange(rest, 1, rest.len());
        } else {
            return Err(
                ParseError::UnexpectedToken { expected: expected[i].clone(), found: rest[0].clone() },
            );
        }
        i += 1;
    }
    Ok(rest)
}

/// An operator applied to the expression of a successful parse.
pub open spec fn with_operator(
    operator: UnaryOperator,
    operand: Result<(Expression, Seq<TokenView>), ParseErrorView>,
) -> Result<(Expression, Seq<TokenView>), ParseErrorView> {
    match operand {
        Ok(parsed) => Ok(
            (Expression::Unary(Box::new(Unary { operator, expression: parsed.0 })), parsed.1),
        ),
        Err(error) => Err(error),
    }
}

/// The closing parenthesis taken off what follows a successful parse.
pub open spec fn then_close_paren(
    inner: Result<(Expression, Seq<TokenView>), ParseErrorView>,
) -> Result<(Expression, Seq<TokenView>), ParseErrorView> {
    match inner {
        Ok(parsed) => match expected_token(TokenView::CloseParen, parsed.1) {
            Ok(rest) => Ok((parsed.0, rest)),
            Err(error) => Err(error),
        },
        Err(error) => Err(error),
    }
}

/// The expression at the front of a token sequence, and what follows it.
/// The first token decides: an operator, an opening parenthesis or a
/// constant; no other token begins an expression.
pub open spec fn parsed_expression(tokens: Seq<TokenView>) -> Result<
    (Expression, Seq<TokenView>),
    ParseErrorView,
>
    decreases tokens.len(),
{
    if tokens.len() == 0 {
        Err(ParseErrorView::UnexpectedEnd)
    } else {
        match tokens[0] {
            TokenView::Complement => with_operator(
                UnaryOperator::Complement,
                parsed_expression(tokens.drop_first()),
            ),
            TokenView::Negation => with_operator(
                UnaryOperator::Negate,
                parsed_expression(tokens.drop_first()),
            ),
            TokenView::OpenParen => then_close_paren(parsed_expression(tokens.drop_first())),
            TokenView::Constant(value) => Ok((Expression::Constant(value), tokens.drop_first())),
            other => Err(ParseErrorView::NotAConstant { found: other }),
        }
    }
}

/// The parenthesised expression at the front of a token sequence.
pub open spec fn parsed_matching_braces(tokens: Seq<TokenView>) -> Result<
    (Expression, Seq<TokenView>),
    ParseErrorView,
> {
    match expected_token(TokenView::OpenParen, tokens) {
        Ok(rest) => then_close_paren(parsed_expression(rest)),
        Err(error) => Err(error),
    }
}

/// The statement at the front of a token sequence, and what follows it.
pub open spec fn parsed_statement(tokens: Seq<TokenView>) -> Result<
    (Statement, Seq<TokenView>),
    ParseErrorView,
> {
    match expected_token(TokenView::Keyword(Keyword::RETURN), tokens) {
        Ok(rest) => match parsed_expression(rest) {
            Ok(parsed) => match expected_token(TokenView::Semicolon, parsed.1) {
                Ok(rest) => Ok((Statement::Return(parsed.0), rest)),
                Err(error) => Err(error),
            },
            Err(error) => Err(error),
        },
        Err(error) => Err(error),
    }
}

/// The name at the front of a token sequence, and what follows it.
pub open spec fn parsed_identifier(tokens: Seq<TokenView>) -> Result<
    (Seq<char>, Seq<TokenView>),
    ParseErrorView,
> {
    if tokens.len() == 0 {
        Err(ParseErrorView::UnexpectedEnd)
    } else {
        match tokens[0] {
            TokenView::Identifier(name) => Ok((name, tokens.drop_first())),
            other => Err(ParseErrorView::NotAnIdentifier { found: other }),
        }
    }
}

/// The tokens between a function's name and its body: `( void ) {`.
pub open spec fn signature_tokens() -> Seq<TokenView> {
    seq![
        TokenView::OpenParen,
        TokenView::Keyword(Keyword::VOID),
        TokenView::CloseParen,
        TokenView::OpenBrace,
    ]
}

/// The function definition at the front of a token sequence, and what
/// follows it.
pub open spec fn parsed_function(tokens: Seq<TokenView>) -> Result<
    (FunctionView, Seq<TokenView>),
    ParseErrorView,
> {
    match expected_token(TokenView::Keyword(Keyword::INT), tokens) {
        Ok(rest) => match parsed_identifier(rest) {
            Ok(named) => match expected_tokens(signature_tokens(), named.1) {
                Ok(rest) => match parsed_statement(rest) {
                    Ok(body) => match expected_token(TokenView::CloseBrace, body.1) {
                        Ok(rest) => Ok((FunctionView { name: named.0, body: body.0 }, rest)),
                        Err(error) => Err(error),
                    },
                    Err(error) => Err(error),
                },
                Err(error) => Err(error),
            },
            Err(error) => Err(error),
        },
        Err(error) => Err(error),
    }
}

/// The program that a token sequence is: one function definition, with
/// nothing after it.
pub open spec fn parsed_programme(tokens: Seq<TokenView>) -> Result<ProgrammeView, ParseErrorView> {
    match parsed_function(tokens) {
        Ok(parsed) => if parsed.1.len() == 0 {
            Ok(ProgrammeView { function: parsed.0 })
        } else {
            Err(ParseErrorView::TrailingTokens { next: parsed.1[0] })
        },
        Err(error) => Err(error),
    }
}

/// Whether an exec parse result says what the specification says.
pub open spec fn expression_result_is(
    parsed: Result<(Expression, &[Token]), ParseError>,
    wanted: Result<(Expression, Seq<TokenView>), ParseErrorView>,
) -> bool {
    match wanted {
        Ok(pair) => parsed matches Ok(p) && p.0 == pair.0 && token_views(p.1@) == pair.1,
        Err(error) => parsed matches Err(e) && e@ == error,
    }
}

/// Parses a parenthesised expression.
pub fn parse_matching_braces<'a>(tokens: &'a [Token]) -> (parsed: Result<
    (Expression, &'a [Token]),
    ParseError,
>)
    ensures
        expression_result_is(parsed, parsed_matching_braces(token_views(tokens@))),
    decreases tokens@.len(), 0nat,
{
    let opening = [Token::OpenParen];
    let closing = [Token::CloseParen];
    proof {
        assert(token_views(opening@) =~= seq![TokenView::OpenParen]);
        assert(token_views(closing@) =~= seq![TokenView::CloseParen]);
        reveal_with_fuel(expected_tokens, 2);
        assert(seq![TokenView::OpenParen].drop_first() =~= Seq::<TokenView>::empty());
        assert(seq![TokenView::CloseParen].drop_first() =~= Seq::<TokenView>::empty());
    }
    let tokens = expect(&opening, tokens)?;
    let (expression, tokens) = parse_expression(tokens)?;
    let tokens = expect(&closing, tokens)?;
    Ok((expression, tokens))
}

/// Parses the operand of a unary operator and applies the operator to it.
pub fn parse_unary<'a>(operator: UnaryOperator, tokens: &'a [Token]) -> (parsed: Result<
    (Expression, &'a [Token]),
    ParseError,
>)
    ensures
        expression_result_is(
            parsed,
            with_operator(operator, parsed_expression(token_views(tokens@))),
        ),
    decreases tokens@.len(), 2nat,
{
    let (expression, tokens) = parse_expression(tokens)?;
    Ok((Expression::Unary(Box::new(Unary { operator, expression })), tokens))
}

/// Parses an expression.
pub fn parse_expression<'a>(tokens: &'a [Token]) -> (parsed: Result<
    (Expression, &'a [Token]),
    ParseError,
>)
    ensures
        expression_result_is(parsed, parsed_expression(token_views(tokens@))),
    decreases tokens@.len(), 1nat,
{
    if tokens.len() == 0 {
        return Err(ParseError::UnexpectedEnd);
    }
    proof {
        lemma_views_of_tail(tokens@);
    }
    match &tokens[0] {
        Token::Complement => parse_unary(
            UnaryOperator::Complement,
            slice_subrange(tokens, 1, tokens.len()),
        ),
        Token::Negation => parse_unary(
            UnaryOperator::Negate,
            slice_subrange(tokens, 1, tokens.len()),
        ),
        Token::OpenParen => parse_matching_braces(tokens),
        Token::Constant(value) => Ok(
            (Expression::Constant(*value), slice_subrange(tokens, 1, tokens.len())),
        ),
        other => Err(ParseError::NotAConstant { found: other.clone() }),
    }
}

/// Parses a statement.
pub fn parse_statement<'a>(tokens: &'a [Token]) -> (parsed: Result<
    (Statement, &'a [Token]),
    ParseError,
>)
    ensures
        match parsed_statement(token_views(tokens@)) {
            Ok(pair) => parsed matches Ok(p) && p.0 == pair.0 && token_views(p.1@) == pair.1,
            Err(error) => parsed matches Err(e) && e@ == error,
        },
{
    let keyword = [Token::Keyword(Keyword::RETURN)];
    let semicolon = [Token::Semicolon];
    proof {
        assert(token_views(keyword@) =~= seq![TokenView::Keyword(Keyword::RETURN)]);
        assert(token_views(semicolon@) =~= seq![TokenView::Semicolon]);
        reveal_with_fuel(expected_tokens, 2);
        assert(seq![TokenView::Keyword(Keyword::RETURN)].drop_first() =~= Seq::<
            TokenView,
        >::empty());
        assert(seq![TokenView::Semicolon].drop_first() =~= Seq::<TokenView>::empty());
    }
    let tokens = expect(&keyword, tokens)?;
    let (expression, tokens) = parse_expression(tokens)?;
    let tokens = expect(&semicolon, tokens)?;
    Ok((Statement::Return(expression), tokens))
}

/// Parses a name.
pub fn parse_identifier<'a>(tokens: &'a [Token]) -> (parsed: Result<
    (Identifier, &'a [Token]),
    ParseError,
>)
    ensures
        match parsed_identifier(token_views(tokens@)) {
            Ok(pair) => parsed matches Ok(p) && p.0@ == pair.0 && token_views(p.1@) == pair.1,
            Err(error) => parsed matches Err(e) && e@ == error,
        },
{
    if tokens.len() == 0 {
        return Err(ParseError::UnexpectedEnd);
    }
    proof {
        lemma_views_of_tail(tokens@);
    }
    match &tokens[0] {
        Token::Identifier(name) => Ok(
            (Identifier::Var(name.clone()), slice_subrange(tokens, 1, tokens.len())),
        ),
        other => Err(ParseError::NotAnIdentifier { found: other.clone() }),
    }
}

/// Parses a function definition.
pub fn parse_function<'a>(tokens: &'a [Token]) -> (parsed: Result<
    (Function, &'a [Token]),
    ParseError,
>)
    ensures
        match parsed_function(token_views(tokens@)) {
            Ok(pair) => parsed matches Ok(p) && p.0@ == pair.0 && token_views(p.1@) == pair.1,
            Err(error) => parsed matches Err(e) && e@ == error,
        },
{
    let return_type = [Token::Keyword(Keyword::INT)];
    let signature = [
        Token::OpenParen,
        Token::Keyword(Keyword::VOID),
        Token::CloseParen,
        Token::OpenBrace,
    ];
    let closing = [Token::CloseBrace];
    proof {
        assert(token_views(return_type@) =~= seq![TokenView::Keyword(Keyword::INT)]);
        assert(token_views(signature@) =~= signature_tokens());
        assert(token_views(closing@) =~= seq![TokenView::CloseBrace]);
        reveal_with_fuel(expected_tokens, 2);
        assert(seq![TokenView::Keyword(Keyword::INT)].drop_first() =~= Seq::<TokenView>::empty());
        assert(seq![TokenView::CloseBrace].drop_first() =~= Seq::<TokenView>::empty());
    }
    let tokens = expect(&return_type, tokens)?;
    let (name, tokens) = parse_identifier(tokens)?;
    let tokens = expect(&signature, tokens)?;
    let (body, tokens) = parse_statement(tokens)?;
    let tokens = expect(&closing, tokens)?;
    Ok((Function { name, body }, tokens))
}

/// Parses a whole program: one function definition and nothing after it.
/// The tokens returned with the program are those left over, so none.
pub fn parse_programme<'a>(tokens: &'a [Token]) -> (parsed: Result<
    (Programme, &'a [Token]),
    ParseError,
>)
    ensures
        match parsed_programme(token_views(tokens@)) {
            Ok(programme) => parsed matches Ok(p) && p.0@ == programme && p.1@.len() == 0,
            Err(error) => parsed matches Err(e) && e@ == error,
        },
{
    let (function, tokens) = parse_function(tokens)?;
    if tokens.len() > 0 {
        return Err(ParseError::TrailingTokens { next: tokens[0].clone() });
    }
    Ok((Programme { function }, tokens))
}

} // verus!
