//! The stages in order, from source text up to the stage asked for.

use crate::args::Stage;
use crate::assembly::{
    generate_programme, lowerable, lowerable_expression, lowered_programme, print_programme,
    programme_text,
};
use crate::ast::{
    expected_token, expected_tokens, parse_programme, parsed_expression, parsed_identifier,
    parsed_programme, signature_tokens, ParseError, ParseErrorView, ProgrammeView,
};
use crate::grammar::{is_programme, lemma_missing_token_rejected, lemma_programme_accepted};
use crate::tokens::{
    is_operator, lemma_lex_is_operator_free, lex, operator_free, tokenize, Keyword, LexError,
    LexErrorView, TokenView,
};
use vstd::prelude::*;

verus! {

/// Why a compilation stopped: the error of the stage that failed.
#[derive(Debug, PartialEq, Eq)]
pub enum CompileError {
    Lex(LexError),
    Parse(ParseError),
}

/// A compilation error over the view of the stage's error.
pub enum CompileErrorView {
    Lex(LexErrorView),
    Parse(ParseErrorView),
}

impl View for CompileError {
    type V = CompileErrorView;

    open spec fn view(&self) -> CompileErrorView {
        match self {
            CompileError::Lex(error) => CompileErrorView::Lex(error@),
            CompileError::Parse(error) => CompileErrorView::Parse(error@),
        }
    }
}

/// What compiling a source text up to a stage gives: the error of the first
/// stage that fails; else the assembly text where the whole pipeline was
/// asked for, and nothing where it was to stop earlier.
pub open spec fn compiled(source: Seq<char>, stage: Stage) -> Result<
    Option<Seq<char>>,
    CompileErrorView,
> {
    match lex(source) {
        Err(error) => Err(CompileErrorView::Lex(error)),
        Ok(tokens) => if stage == Stage::Lex {
            Ok(None)
        } else {
            match parsed_programme(tokens) {
                Err(error) => Err(CompileErrorView::Parse(error)),
                Ok(programme) => if stage == Stage::Compile {
                    Ok(Some(programme_text(lowered_programme(programme))))
                } else {
                    Ok(None)
                },
            }
        },
    }
}

proof fn lemma_operator_free_tail(tokens: Seq<TokenView>)
    requires
        operator_free(tokens),
        tokens.len() > 0,
    ensures
        operator_free(tokens.drop_first()),
{
    let tail = tokens.drop_first();
    assert forall|i: int| 0 <= i < tail.len() implies !is_operator(#[trigger] tail[i]) by {
        assert(tail[i] == tokens[i + 1]);
    }
}

/// An expression parsed from tokens without operators is a constant,
/// whatever parentheses stand round it.
pub proof fn lemma_operator_free_expression(tokens: Seq<TokenView>)
    requires
        operator_free(tokens),
    ensures
        parsed_expression(tokens) matches Ok(parsed) ==> lowerable_expression(parsed.0),
    decreases tokens.len(),
{
    if tokens.len() > 0 {
        assert(!is_operator(tokens[0]));
        if tokens[0] == TokenView::OpenParen {
            lemma_operator_free_tail(tokens);
            lemma_operator_free_expression(tokens.drop_first());
        }
    }
}

proof fn lemma_operator_free_after_expected(expected: Seq<TokenView>, tokens: Seq<TokenView>)
    requires
        operator_free(tokens),
    ensures
        expected_tokens(expected, tokens) matches Ok(rest) ==> operator_free(rest),
    decreases expected.len(),
{
    if expected.len() > 0 && tokens.len() > 0 {
        lemma_operator_free_tail(tokens);
        lemma_operator_free_after_expected(expected.drop_first(), tokens.drop_first());
    }
}

/// A program parsed from tokens without operators can be lowered.
pub proof fn lemma_operator_free_programme(tokens: Seq<TokenView>)
    requires
        operator_free(tokens),
    ensures
        parsed_programme(tokens) matches Ok(programme) ==> lowerable(programme),
{
    if let Ok(after_type) = expected_token(TokenView::Keyword(Keyword::INT), tokens) {
        lemma_operator_free_tail(tokens);
        if let Ok(named) = parsed_identifier(after_type) {
            lemma_operator_free_tail(after_type);
            lemma_operator_free_after_expected(signature_tokens(), named.1);
            if let Ok(body) = expected_tokens(signature_tokens(), named.1) {
                if let Ok(returned) = expected_token(TokenView::Keyword(Keyword::RETURN), body) {
                    lemma_operator_free_tail(body);
                    lemma_operator_free_expression(returned);
                }
            }
        }
    }
}

/// The tokens of a source text always parse to a program that can be
/// lowered, if they parse at all: the stage of code generation cannot be
/// reached with an expression that it does not handle.
pub proof fn lemma_pipeline_reaches_only_lowerable(source: Seq<char>)
    ensures
        lex(source) matches Ok(tokens) ==> (parsed_programme(tokens) matches Ok(programme)
            ==> lowerable(programme)),
{
    lemma_lex_is_operator_free(source);
    if let Ok(tokens) = lex(source) {
        lemma_operator_free_programme(tokens);
    }
}

/// A source whose tokens are a program of the language passes every
/// stage, and compiled to the end it gives the text of its lowered tree.
pub proof fn lemma_programme_source_compiles(
    source: Seq<char>,
    tokens: Seq<TokenView>,
    programme: ProgrammeView,
    stage: Stage,
)
    requires
        lex(source) == Ok::<Seq<TokenView>, LexErrorView>(tokens),
        is_programme(tokens, programme),
    ensures
        compiled(source, stage) is Ok,
        lowerable(programme),
        compiled(source, Stage::Compile) == Ok::<Option<Seq<char>>, CompileErrorView>(
            Some(programme_text(lowered_programme(programme))),
        ),
{
    lemma_programme_accepted(tokens, programme);
    lemma_pipeline_reaches_only_lowerable(source);
}

/// Where the tokens of a source text are a program, none of them can be
/// missed: with any one token taken out, what is left is rejected. The
/// tokenizer makes no operator token, so no token is excepted here.
pub proof fn lemma_source_token_needed(
    source: Seq<char>,
    tokens: Seq<TokenView>,
    programme: ProgrammeView,
    gap: int,
)
    requires
        lex(source) == Ok::<Seq<TokenView>, LexErrorView>(tokens),
        is_programme(tokens, programme),
        0 <= gap < tokens.len(),
    ensures
        !is_operator(tokens[gap]),
        parsed_programme(tokens.remove(gap)) is Err,
{
    lemma_lex_is_operator_free(source);
    lemma_missing_token_rejected(tokens, programme, gap);
}

/// Compiles a source text up to the stage asked for. Stages beyond it are
/// not run. Assembly text is returned only where the whole pipeline was
/// asked for.
pub fn compile(source: &str, stage: Stage) -> (outcome: Result<Option<String>, CompileError>)
    ensures
        match compiled(source@, stage) {
            Ok(Some(text)) => outcome matches Ok(Some(produced)) && produced@ == text,
            Ok(None) => outcome matches Ok(None),
            Err(error) => outcome matches Err(e) && e@ == error,
        },
{
    let tokens = match tokenize(source) {
        Ok(tokens) => tokens,
        Err(error) => {
            return Err(CompileError::Lex(error));
        },
    };
    if stage == Stage::Lex {
        return Ok(None);
    }
    let programme = match parse_programme(tokens.as_slice()) {
        Ok(parsed) => parsed.0,
        Err(error) => {
            return Err(CompileError::Parse(error));
        },
    };
    if stage == Stage::Parse {
        return Ok(None);
    }
    proof {
        lemma_pipeline_reaches_only_lowerable(source@);
    }
    let assembly = generate_programme(programme);
    if stage == Stage::CodeGen {
        return Ok(None);
    }
    Ok(Some(print_programme(assembly)))
}

} // verus!
