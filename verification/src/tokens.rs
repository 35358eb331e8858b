//! Lexical analysis: source text to an ordered sequence of tokens.

use crate::decimal::{decimal_i32, parse_i32};
use crate::pattern::{find_first, first_match, pattern_accepted};
use crate::text::{
    lemma_cut, lemma_trimmed_len, on_boundary, split_text, text_before, text_from, trim, trimmed,
};
use vstd::prelude::*;
use vstd::std_specs::cmp::PartialEqSpecImpl;

verus! {

/// A reserved word of the language.
#[allow(non_camel_case_types)]
#[derive(Debug, Clone, Copy, PartialEq, Eq, Structural)]
pub enum Keyword {
    INT,
    VOID,
    RETURN,
}

/// A classified lexical unit.
///
/// The two operator tokens are understood by the parser, but the tokenizer
/// has no rule that makes them: they reach the parser only from a caller
/// that builds its token sequence by hand.
#[derive(Debug)]
pub enum Token {
    /// A name, with its text.
    Identifier(String),
    /// An integer constant, with its value.
    Constant(i32),
    /// A reserved word.
    Keyword(Keyword),
    /// `(`
    OpenParen,
    /// `)`
    CloseParen,
    /// `{`
    OpenBrace,
    /// `}`
    CloseBrace,
    /// `;`
    Semicolon,
    /// The operator `~`.
    Complement,
    /// The operator `-`.
    Negation,
}

/// What a token is, with the identifier's name as a sequence of characters.
pub enum TokenView {
    Identifier(Seq<char>),
    Constant(i32),
    Keyword(Keyword),
    OpenParen,
    CloseParen,
    OpenBrace,
    CloseBrace,
    Semicolon,
    Complement,
    Negation,
}

impl View for Token {
    type V = TokenView;

    open spec fn view(&self) -> TokenView {
        match self {
            Token::Identifier(name) => TokenView::Identifier(name@),
            Token::Constant(value) => TokenView::Constant(*value),
            Token::Keyword(keyword) => TokenView::Keyword(*keyword),
            Token::OpenParen => TokenView::OpenParen,
            Token::CloseParen => TokenView::CloseParen,
            Token::OpenBrace => TokenView::OpenBrace,
            Token::CloseBrace => TokenView::CloseBrace,
            Token::Semicolon => TokenView::Semicolon,
            Token::Complement => TokenView::Complement,
            Token::Negation => TokenView::Negation,
        }
    }
}

impl PartialEq for Token {
    fn eq(&self, other: &Token) -> (equal: bool) {
        match self {
            Token::Identifier(a) => match other {
                Token::Identifier(b) => *a == *b,
                _ => false,
            },
            Token::Constant(a) => match other {
                Token::Constant(b) => *a == *b,
                _ => false,
            },
            Token::Keyword(a) => match other {
                Token::Keyword(b) => *a == *b,
                _ => false,
            },
            Token::OpenParen => matches!(other, Token::OpenParen),
            Token::CloseParen => matches!(other, Token::CloseParen),
            Token::OpenBrace => matches!(other, Token::OpenBrace),
            Token::CloseBrace => matches!(other, Token::CloseBrace),
            Token::Semicolon => matches!(other, Token::Semicolon),
            Token::Complement => matches!(other, Token::Complement),
            Token::Negation => matches!(other, Token::Negation),
        }
    }
}

impl Eq for Token {

}

impl PartialEqSpecImpl for Token {
    open spec fn obeys_eq_spec() -> bool {
        true
    }

    open spec fn eq_spec(&self, other: &Token) -> bool {
        self@ == other@
    }
}

impl Clone for Token {
    fn clone(&self) -> (copy: Token)
        ensures
            copy@ == self@,
    {
        match self {
            Token::Identifier(name) => Token::Identifier(name.clone()),
            Token::Constant(value) => Token::Constant(*value),
            Token::Keyword(keyword) => Token::Keyword(*keyword),
            Token::OpenParen => Token::OpenParen,
            Token::CloseParen => Token::CloseParen,
            Token::OpenBrace => Token::OpenBrace,
            Token::CloseBrace => Token::CloseBrace,
            Token::Semicolon => Token::Semicolon,
            Token::Complement => Token::Complement,
            Token::Negation => Token::Negation,
        }
    }
}

/// The views of a sequence of tokens, in order.
pub open spec fn token_views(tokens: Seq<Token>) -> Seq<TokenView> {
    tokens.map_values(|token: Token| token@)
}

/// Why a text could not be split into tokens.
#[derive(Debug, PartialEq, Eq)]
pub enum LexError {
    /// No rule matches at the scan position; holds the text that remains.
    UnrecognisedToken { remaining: String },
    /// An integer constant does not denote a 32-bit integer; holds its text.
    InvalidInteger { literal: String },
    /// The pattern of a rule was rejected by the regex engine.
    InvalidRule { pattern: String },
}

/// What a lexical error says, with its text as a sequence of characters.
pub enum LexErrorView {
    UnrecognisedToken { remaining: Seq<char> },
    InvalidInteger { literal: Seq<char> },
    InvalidRule { pattern: Seq<char> },
}

impl View for LexError {
    type V = LexErrorView;

    open spec fn view(&self) -> LexErrorView {
        match self {
            LexError::UnrecognisedToken { remaining } => LexErrorView::UnrecognisedToken {
                remaining: remaining@,
            },
            LexError::InvalidInteger { literal } => LexErrorView::InvalidInteger {
                literal: literal@,
            },
            LexError::InvalidRule { pattern } => LexErrorView::InvalidRule { pattern: pattern@ },
        }
    }
}

/// The token that a rule makes of the text it has matched.
#[derive(Debug, Clone, Copy, PartialEq, Eq, Structural)]
pub enum RuleKind {
    OpenParen,
    CloseParen,
    OpenBrace,
    CloseBrace,
    Semicolon,
    Constant,
    KeywordInt,
    KeywordVoid,
    KeywordReturn,
    Identifier,
}

/// A token-recognition rule: a pattern for a prefix of the text, and the
/// kind of token made of what it matches.
#[derive(Debug, Clone, Copy)]
pub struct TokenExtractor {
    pub pattern: &'static str,
    pub kind: RuleKind,
}

/// A rule with its pattern as a sequence of characters.
pub struct Rule {
    pub pattern: Seq<char>,
    pub kind: RuleKind,
}

impl View for TokenExtractor {
    type V = Rule;

    open spec fn view(&self) -> Rule {
        Rule { pattern: self.pattern@, kind: self.kind }
    }
}

/// The views of a sequence of rules, in order.
pub open spec fn rule_views(rules: Seq<TokenExtractor>) -> Seq<Rule> {
    rules.map_values(|rule: TokenExtractor| rule@)
}

/// The rules in priority order: punctuation first, then integer constants,
/// then the reserved words, and identifiers last.
pub open spec fn rule_table() -> Seq<Rule> {
    seq![
        Rule { pattern: "^\\("@, kind: RuleKind::OpenParen },
        Rule { pattern: "^\\)"@, kind: RuleKind::CloseParen },
        Rule { pattern: "^\\{"@, kind: RuleKind::OpenBrace },
        Rule { pattern: "^\\}"@, kind: RuleKind::CloseBrace },
        Rule { pattern: "^;"@, kind: RuleKind::Semicolon },
        Rule { pattern: "^[0-9]+\\b"@, kind: RuleKind::Constant },
        Rule { pattern: "^int\\b"@, kind: RuleKind::KeywordInt },
        Rule { pattern: "^void\\b"@, kind: RuleKind::KeywordVoid },
        Rule { pattern: "^return\\b"@, kind: RuleKind::KeywordReturn },
        Rule { pattern: "^[a-zA-Z_]+\\b"@, kind: RuleKind::Identifier },
    ]
}

/// Builds the rule table.
pub fn token_extractors() -> (extractors: Vec<TokenExtractor>)
    ensures
        rule_views(extractors@) == rule_table(),
{
    let extractors = vec![
        TokenExtractor { pattern: "^\\(", kind: RuleKind::OpenParen },
        TokenExtractor { pattern: "^\\)", kind: RuleKind::CloseParen },
        TokenExtractor { pattern: "^\\{", kind: RuleKind::OpenBrace },
        TokenExtractor { pattern: "^\\}", kind: RuleKind::CloseBrace },
        TokenExtractor { pattern: "^;", kind: RuleKind::Semicolon },
        TokenExtractor { pattern: "^[0-9]+\\b", kind: RuleKind::Constant },
        TokenExtractor { pattern: "^int\\b", kind: RuleKind::KeywordInt },
        TokenExtractor { pattern: "^void\\b", kind: RuleKind::KeywordVoid },
        TokenExtractor { pattern: "^return\\b", kind: RuleKind::KeywordReturn },
        TokenExtractor { pattern: "^[a-zA-Z_]+\\b", kind: RuleKind::Identifier },
    ];
    assert(rule_views(extractors@) =~= rule_table());
    extractors
}

/// The token that a rule of the given kind makes of the text it matched.
pub open spec fn token_for(kind: RuleKind, lexeme: Seq<char>) -> Result<TokenView, LexErrorView> {
    match kind {
        RuleKind::OpenParen => Ok(TokenView::OpenParen),
        RuleKind::CloseParen => Ok(TokenView::CloseParen),
        RuleKind::OpenBrace => Ok(TokenView::OpenBrace),
        RuleKind::CloseBrace => Ok(TokenView::CloseBrace),
        RuleKind::Semicolon => Ok(TokenView::Semicolon),
        RuleKind::Constant => match decimal_i32(lexeme) {
            Some(value) => Ok(TokenView::Constant(value)),
            None => Err(LexErrorView::InvalidInteger { literal: lexeme }),
        },
        RuleKind::KeywordInt => Ok(TokenView::Keyword(Keyword::INT)),
        RuleKind::KeywordVoid => Ok(TokenView::Keyword(Keyword::VOID)),
        RuleKind::KeywordReturn => Ok(TokenView::Keyword(Keyword::RETURN)),
        RuleKind::Identifier => Ok(TokenView::Identifier(lexeme)),
    }
}

/// Makes the token of a rule from the text that the rule matched.
pub fn token_from_text(kind: RuleKind, text: &str) -> (made: Result<Token, LexError>)
    ensures
        match made {
            Ok(token) => token_for(kind, text@) == Ok::<TokenView, LexErrorView>(token@),
            Err(error) => token_for(kind, text@) == Err::<TokenView, LexErrorView>(error@),
        },
{
    match kind {
        RuleKind::OpenParen => Ok(Token::OpenParen),
        RuleKind::CloseParen => Ok(Token::CloseParen),
        RuleKind::OpenBrace => Ok(Token::OpenBrace),
        RuleKind::CloseBrace => Ok(Token::CloseBrace),
        RuleKind::Semicolon => Ok(Token::Semicolon),
        RuleKind::Constant => match parse_i32(text) {
            Some(value) => Ok(Token::Constant(value)),
            None => Err(LexError::InvalidInteger { literal: text.to_owned() }),
        },
        RuleKind::KeywordInt => Ok(Token::Keyword(Keyword::INT)),
        RuleKind::KeywordVoid => Ok(Token::Keyword(Keyword::VOID)),
        RuleKind::KeywordReturn => Ok(Token::Keyword(Keyword::RETURN)),
        RuleKind::Identifier => Ok(Token::Identifier(text.to_owned())),
    }
}

/// The state of a scan: the text still to be scanned, and the tokens made
/// so far.
pub struct Programme<'a> {
    pub text: &'a str,
    pub tokens: Vec<Token>,
}

/// The state of a scan over characters and token views.
pub struct ScanView {
    pub text: Seq<char>,
    pub tokens: Seq<TokenView>,
}

impl<'a> View for Programme<'a> {
    type V = ScanView;

    open spec fn view(&self) -> ScanView {
        ScanView { text: self.text@, tokens: token_views(self.tokens@) }
    }
}

/// A span of byte offsets as mathematical integers.
pub open spec fn span_of(found: Option<(usize, usize)>) -> Option<(int, int)> {
    match found {
        Some(span) => Some((span.0 as int, span.1 as int)),
        None => None,
    }
}

/// Whether a span of byte offsets covers a prefix of the text that is not
/// empty: it starts at the first byte and ends later, between two
/// characters or at the end of the text.
pub open spec fn is_prefix_span(text: Seq<char>, span: (int, int)) -> bool {
    span.0 == 0 && span.1 > 0 && on_boundary(text, span.1)
}

/// What a rule of the given kind makes of a text once the search for its
/// pattern has answered: nothing unless a prefix was matched, else the
/// token for the prefix with the text that follows it, or the error of
/// making that token.
pub open spec fn token_at(kind: RuleKind, text: Seq<char>, found: Option<(int, int)>) -> Result<
    Option<(TokenView, Seq<char>)>,
    LexErrorView,
> {
    match found {
        Some(span) => if is_prefix_span(text, span) {
            match token_for(kind, text_before(text, span.1)) {
                Ok(token) => Ok(Some((token, text_from(text, span.1)))),
                Err(error) => Err(error),
            }
        } else {
            Ok(None)
        },
        None => Ok(None),
    }
}

/// What one rule makes of a text.
pub open spec fn try_rule(rule: Rule, text: Seq<char>) -> Result<
    Option<(TokenView, Seq<char>)>,
    LexErrorView,
> {
    if pattern_accepted(rule.pattern) {
        token_at(rule.kind, text, first_match(rule.pattern, text))
    } else {
        Err(LexErrorView::InvalidRule { pattern: rule.pattern })
    }
}

/// The first token of a text: what the first rule that applies makes of
/// it, with the text that follows. Fails when a rule fails, or when no
/// rule applies.
pub open spec fn scan_token(rules: Seq<Rule>, text: Seq<char>) -> Result<
    (TokenView, Seq<char>),
    LexErrorView,
>
    decreases rules.len(),
{
    if rules.len() == 0 {
        Err(LexErrorView::UnrecognisedToken { remaining: text })
    } else {
        match try_rule(rules[0], text) {
            Ok(Some(step)) => Ok(step),
            Ok(None) => scan_token(rules.drop_first(), text),
            Err(error) => Err(error),
        }
    }
}

/// A token is only made of a prefix that is not empty, so the text that
/// follows is shorter.
pub proof fn lemma_scan_token_advances(rules: Seq<Rule>, text: Seq<char>)
    ensures
        scan_token(rules, text) matches Ok(step) ==> step.1.len() < text.len(),
    decreases rules.len(),
{
    if rules.len() > 0 {
        let rule = rules[0];
        if pattern_accepted(rule.pattern) {
            match first_match(rule.pattern, text) {
                Some(span) => {
                    if is_prefix_span(text, span) {
                        lemma_cut(text, span.1);
                    }
                },
                None => {},
            }
        }
        lemma_scan_token_advances(rules.drop_first(), text);
    }
}

/// The tokens of a text: trim it, stop if nothing is left, else take the
/// first token and go on with what follows it.
pub open spec fn lex(text: Seq<char>) -> Result<Seq<TokenView>, LexErrorView>
    decreases text.len(),
{
    let rest = trimmed(text);
    if rest.len() == 0 {
        Ok(Seq::empty())
    } else {
        match scan_token(rule_table(), rest) {
            Ok(step) => {
                proof {
                    lemma_trimmed_len(text);
                    lemma_scan_token_advances(rule_table(), rest);
                }
                match lex(step.1) {
                    Ok(tokens) => Ok(seq![step.0] + tokens),
                    Err(error) => Err(error),
                }
            },
            Err(error) => Err(error),
        }
    }
}

/// Whether trying a rule has done to the scan what the rule's outcome
/// says: a token taken is added and the text moves past it; otherwise the
/// scan stays as it was, and an error is handed on.
pub open spec fn scan_stepped(
    before: ScanView,
    after: ScanView,
    taken: Result<bool, LexError>,
    outcome: Result<Option<(TokenView, Seq<char>)>, LexErrorView>,
) -> bool {
    match outcome {
        Ok(Some(step)) => {
            &&& taken == Ok::<bool, LexError>(true)
            &&& after.text == step.1
            &&& after.tokens == before.tokens.push(step.0)
        },
        Ok(None) => {
            &&& taken == Ok::<bool, LexError>(false)
            &&& after == before
        },
        Err(error) => {
            &&& taken matches Err(e)
            &&& e@ == error
            &&& after == before
        },
    }
}

/// Applies the answer of a pattern search to the scan: where the span
/// found covers a prefix of the text, the token of that prefix is added and
/// the text moves past it.
pub fn apply_match(kind: RuleKind, found: Option<(usize, usize)>, programme: &mut Programme) -> (taken:
    Result<bool, LexError>)
    ensures
        scan_stepped(
            old(programme)@,
            final(programme)@,
            taken,
            token_at(kind, old(programme).text@, span_of(found)),
        ),
{
    let Some(span) = found else {
        return Ok(false);
    };
    if span.0 != 0 || span.1 == 0 || !programme.text.is_char_boundary(span.1) {
        return Ok(false);
    }
    let (lexeme, rest) = split_text(programme.text, span.1);
    let token = token_from_text(kind, lexeme)?;
    proof {
        assert(token_views(programme.tokens@.push(token)) =~= token_views(programme.tokens@).push(
            token@,
        ));
    }
    programme.tokens.push(token);
    programme.text = rest;
    Ok(true)
}

/// Tries one rule at the scan position. Says whether the rule took a token.
pub fn extract_token(extractor: &TokenExtractor, programme: &mut Programme) -> (taken: Result<
    bool,
    LexError,
>)
    ensures
        scan_stepped(
            old(programme)@,
            final(programme)@,
            taken,
            try_rule(extractor@, old(programme).text@),
        ),
{
    match find_first(extractor.pattern, programme.text) {
        Ok(found) => apply_match(extractor.kind, found, programme),
        Err(_) => Err(LexError::InvalidRule { pattern: extractor.pattern.to_owned() }),
    }
}

/// Scans the rest of the text, adding its tokens to those made so far.
/// On success no text is left.
pub fn tokenize_programme(programme: &mut Programme) -> (done: Result<(), LexError>)
    ensures
        match lex(old(programme).text@) {
            Ok(tokens) => {
                &&& done is Ok
                &&& final(programme)@.text.len() == 0
                &&& final(programme)@.tokens == old(programme)@.tokens + tokens
            },
            Err(error) => done matches Err(e) && e@ == error,
        },
    decreases old(programme).text@.len(),
{
    programme.text = trim(programme.text);
    if programme.text.is_empty() {
        return Ok(());
    }
    let ghost start = programme@;
    proof {
        lemma_trimmed_len(old(programme).text@);
        lemma_scan_token_advances(rule_table(), start.text);
    }
    let extractors = token_extractors();
    let mut i: usize = 0;
    assert(rule_table().skip(0) =~= rule_table());
    while i < extractors.len()
        invariant
            i <= extractors.len(),
            rule_views(extractors@) == rule_table(),
            programme@ == start,
            start.tokens == old(programme)@.tokens,
            start.text == trimmed(old(programme).text@),
            0 < start.text.len() <= old(programme).text@.len(),
            scan_token(rule_table(), start.text) == scan_token(
                rule_table().skip(i as int),
                start.text,
            ),
            scan_token(rule_table(), start.text) matches Ok(step) ==> step.1.len()
                < start.text.len(),
        decreases extractors.len() - i,
    {
        proof {
            assert(rule_table().skip(i as int)[0] == extractors@[i as int]@);
            assert(rule_table().skip(i as int).drop_first() =~= rule_table().skip(i + 1));
        }
        match extract_token(&extractors[i], programme) {
            Ok(true) => {
                let ghost step = scan_token(rule_table(), start.text)->Ok_0;
                let done = tokenize_programme(programme);
                proof {
                    if lex(step.1) is Ok {
                        assert(start.tokens.push(step.0) + lex(step.1)->Ok_0 =~= start.tokens + (
                        seq![step.0] + lex(step.1)->Ok_0));
                    }
                }
                return done;
            },
            Ok(false) => {},
            Err(error) => {
                return Err(error);
            },
        }
        i += 1;
    }
    Err(LexError::UnrecognisedToken { remaining: programme.text.to_owned() })
}

/// Splits a source text into its tokens.
pub fn tokenize(text: &str) -> (tokens: Result<Vec<Token>, LexError>)
    ensures
        match tokens {
            Ok(tokens) => lex(text@) == Ok::<Seq<TokenView>, LexErrorView>(token_views(tokens@)),
            Err(error) => lex(text@) == Err::<Seq<TokenView>, LexErrorView>(error@),
        },
{
    let mut programme = Programme { text, tokens: Vec::new() };
    match tokenize_programme(&mut programme) {
        Ok(()) => {
            assert(token_views(Seq::<Token>::empty()) + lex(text@)->Ok_0 =~= lex(text@)->Ok_0);
            Ok(programme.tokens)
        },
        Err(error) => Err(error),
    }
}

/// Whether a token is one of the unary operators.
pub open spec fn is_operator(token: TokenView) -> bool {
    token is Complement || token is Negation
}

/// Whether no token of the sequence is a unary operator.
pub open spec fn operator_free(tokens: Seq<TokenView>) -> bool {
    forall|i: int| 0 <= i < tokens.len() ==> !is_operator(#[trigger] tokens[i])
}

/// No rule makes an operator token, so the tokens of a text hold none.
pub proof fn lemma_lex_is_operator_free(text: Seq<char>)
    ensures
        lex(text) matches Ok(tokens) ==> operator_free(tokens),
    decreases text.len(),
{
    let rest = trimmed(text);
    if rest.len() > 0 {
        match scan_token(rule_table(), rest) {
            Ok(step) => {
                lemma_trimmed_len(text);
                lemma_scan_token_advances(rule_table(), rest);
                lemma_scan_token_is_no_operator(rule_table(), rest);
                lemma_lex_is_operator_free(step.1);
            },
            Err(_) => {},
        }
    }
}

proof fn lemma_scan_token_is_no_operator(rules: Seq<Rule>, text: Seq<char>)
    ensures
        scan_token(rules, text) matches Ok(step) ==> !is_operator(step.0),
    decreases rules.len(),
{
    if rules.len() > 0 {
        lemma_scan_token_is_no_operator(rules.drop_first(), text);
    }
}

/// Whether no rule of the table applies to the text: every pattern is
/// searched for, and none matches a prefix.
pub open spec fn matches_no_rule(text: Seq<char>) -> bool {
    forall|i: int|
        0 <= i < rule_table().len() ==> try_rule(#[trigger] rule_table()[i], text) == Ok::<
            Option<(TokenView, Seq<char>)>,
            LexErrorView,
        >(None)
}

/// Whether scanning a text comes to stand before the given remainder:
/// the text trimmed is the remainder, or a first token is taken and
/// scanning what follows it comes there.
pub open spec fn scan_reaches(text: Seq<char>, remainder: Seq<char>) -> bool
    decreases text.len(),
{
    let rest = trimmed(text);
    rest == remainder || (rest.len() > 0 && match scan_token(rule_table(), rest) {
        Ok(step) => {
            proof {
                lemma_trimmed_len(text);
                lemma_scan_token_advances(rule_table(), rest);
            }
            scan_reaches(step.1, remainder)
        },
        Err(_) => false,
    })
}

proof fn lemma_no_rule_no_token(rules: Seq<Rule>, text: Seq<char>)
    requires
        forall|i: int|
            0 <= i < rules.len() ==> try_rule(#[trigger] rules[i], text) == Ok::<
                Option<(TokenView, Seq<char>)>,
                LexErrorView,
            >(None),
    ensures
        scan_token(rules, text) == Err::<(TokenView, Seq<char>), LexErrorView>(
            LexErrorView::UnrecognisedToken { remaining: text },
        ),
    decreases rules.len(),
{
    if rules.len() > 0 {
        let tail = rules.drop_first();
        assert forall|i: int| 0 <= i < tail.len() implies try_rule(#[trigger] tail[i], text)
            == Ok::<Option<(TokenView, Seq<char>)>, LexErrorView>(None) by {
            assert(tail[i] == rules[i + 1]);
        }
        lemma_no_rule_no_token(tail, text);
    }
}

/// Wherever scanning comes to stand before text that no rule matches, the
/// whole tokenization fails, and the error holds that text.
pub proof fn lemma_unmatched_text_fails(text: Seq<char>, remainder: Seq<char>)
    requires
        scan_reaches(text, remainder),
        remainder.len() > 0,
        matches_no_rule(remainder),
    ensures
        lex(text) == Err::<Seq<TokenView>, LexErrorView>(
            LexErrorView::UnrecognisedToken { remaining: remainder },
        ),
    decreases text.len(),
{
    let rest = trimmed(text);
    lemma_no_rule_no_token(rule_table(), remainder);
    if rest != remainder {
        let step = scan_token(rule_table(), rest)->Ok_0;
        lemma_trimmed_len(text);
        lemma_scan_token_advances(rule_table(), rest);
        lemma_unmatched_text_fails(step.1, remainder);
    }
}

} // verus!
