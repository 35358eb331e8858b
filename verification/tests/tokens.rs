use mwpb_compiler::tokens::{
    apply_match, extract_token, token_extractors, token_from_text, tokenize, tokenize_programme,
    Keyword, LexError, Programme, RuleKind, Token, TokenExtractor,
};

fn identifier(name: &str) -> Token {
    Token::Identifier(name.to_string())
}

#[test]
fn test_tokenize() {
    let raw_text = "int main()";
    let tokens = tokenize(raw_text).unwrap();
    assert_eq!(
        tokens,
        vec![
            Token::Keyword(Keyword::INT),
            identifier("main"),
            Token::OpenParen,
            Token::CloseParen
        ]
    )
}

#[test]
fn tokenize_spaced_programme() {
    let tokens = tokenize("int main ( void ) { return 5 ; }").unwrap();
    assert_eq!(
        tokens,
        vec![
            Token::Keyword(Keyword::INT),
            identifier("main"),
            Token::OpenParen,
            Token::Keyword(Keyword::VOID),
            Token::CloseParen,
            Token::OpenBrace,
            Token::Keyword(Keyword::RETURN),
            Token::Constant(5),
            Token::Semicolon,
            Token::CloseBrace,
        ]
    );
}

#[test]
fn tokenize_dense_programme() {
    let tokens = tokenize("int main(void){return 2;}").unwrap();
    assert_eq!(
        tokens,
        vec![
            Token::Keyword(Keyword::INT),
            identifier("main"),
            Token::OpenParen,
            Token::Keyword(Keyword::VOID),
            Token::CloseParen,
            Token::OpenBrace,
            Token::Keyword(Keyword::RETURN),
            Token::Constant(2),
            Token::Semicolon,
            Token::CloseBrace,
        ]
    );
}

#[test]
fn tokenize_empty_text() {
    assert_eq!(tokenize("").unwrap(), vec![]);
}

#[test]
fn tokenize_whitespace_only() {
    assert_eq!(tokenize(" \t\r\n  \n").unwrap(), vec![]);
}

#[test]
fn tokenize_trims_around_tokens() {
    assert_eq!(
        tokenize("\n\t return\n\n;\t ").unwrap(),
        vec![Token::Keyword(Keyword::RETURN), Token::Semicolon]
    );
}

#[test]
fn tokenize_unrecognised_character() {
    assert_eq!(
        tokenize("@"),
        Err(LexError::UnrecognisedToken { remaining: "@".to_string() })
    );
}

#[test]
fn tokenize_unrecognised_after_tokens() {
    assert_eq!(
        tokenize("int main @ ( void )  "),
        Err(LexError::UnrecognisedToken { remaining: "@ ( void )".to_string() })
    );
}

#[test]
fn tokenize_has_no_rule_for_operators() {
    assert_eq!(
        tokenize("return ~5;"),
        Err(LexError::UnrecognisedToken { remaining: "~5;".to_string() })
    );
    assert_eq!(
        tokenize("-5"),
        Err(LexError::UnrecognisedToken { remaining: "-5".to_string() })
    );
}

#[test]
fn tokenize_word_boundary_after_digits() {
    assert_eq!(
        tokenize("12ab"),
        Err(LexError::UnrecognisedToken { remaining: "12ab".to_string() })
    );
}

#[test]
fn tokenize_identifier_with_digit_is_rejected() {
    assert_eq!(
        tokenize("a1"),
        Err(LexError::UnrecognisedToken { remaining: "a1".to_string() })
    );
}

#[test]
fn tokenize_reserved_word_prefix_is_identifier() {
    assert_eq!(
        tokenize("integer voidy returned int_ _return").unwrap(),
        vec![
            identifier("integer"),
            identifier("voidy"),
            identifier("returned"),
            identifier("int_"),
            identifier("_return"),
        ]
    );
}

#[test]
fn tokenize_reserved_words() {
    assert_eq!(
        tokenize("int void return").unwrap(),
        vec![
            Token::Keyword(Keyword::INT),
            Token::Keyword(Keyword::VOID),
            Token::Keyword(Keyword::RETURN),
        ]
    );
}

#[test]
fn tokenize_reserved_words_are_case_sensitive() {
    assert_eq!(
        tokenize("Int VOID").unwrap(),
        vec![identifier("Int"), identifier("VOID")]
    );
}

#[test]
fn tokenize_punctuation_without_spaces() {
    assert_eq!(
        tokenize("(){};").unwrap(),
        vec![
            Token::OpenParen,
            Token::CloseParen,
            Token::OpenBrace,
            Token::CloseBrace,
            Token::Semicolon,
        ]
    );
}

#[test]
fn tokenize_integer_limits() {
    assert_eq!(
        tokenize("2147483647 0 007").unwrap(),
        vec![Token::Constant(2147483647), Token::Constant(0), Token::Constant(7)]
    );
}

#[test]
fn tokenize_integer_out_of_range() {
    assert_eq!(
        tokenize("return 2147483648;"),
        Err(LexError::InvalidInteger { literal: "2147483648".to_string() })
    );
    assert_eq!(
        tokenize("99999999999999999999999999"),
        Err(LexError::InvalidInteger { literal: "99999999999999999999999999".to_string() })
    );
}

#[test]
fn tokenize_non_ascii_text() {
    assert_eq!(
        tokenize("int \u{e9}t\u{e9}"),
        Err(LexError::UnrecognisedToken { remaining: "\u{e9}t\u{e9}".to_string() })
    );
    // A letter outside ASCII still counts as part of a word.
    assert_eq!(
        tokenize("int\u{e9}"),
        Err(LexError::UnrecognisedToken { remaining: "int\u{e9}".to_string() })
    );
}

#[test]
fn tokenize_trims_unicode_whitespace() {
    assert_eq!(
        tokenize("\u{a0}int\u{2003}main\u{3000}").unwrap(),
        vec![Token::Keyword(Keyword::INT), identifier("main")]
    );
}

#[test]
fn tokenize_programme_appends_to_tokens() {
    let mut programme = Programme { text: " ( ) ", tokens: vec![Token::Semicolon] };
    assert_eq!(tokenize_programme(&mut programme), Ok(()));
    assert_eq!(programme.text, "");
    assert_eq!(
        programme.tokens,
        vec![Token::Semicolon, Token::OpenParen, Token::CloseParen]
    );
}

#[test]
fn tokenize_programme_reports_remaining_text() {
    let mut programme = Programme { text: "  ; # ;  ", tokens: vec![] };
    assert_eq!(
        tokenize_programme(&mut programme),
        Err(LexError::UnrecognisedToken { remaining: "# ;".to_string() })
    );
}

#[test]
fn rule_table_order() {
    let kinds: Vec<RuleKind> = token_extractors().iter().map(|rule| rule.kind).collect();
    assert_eq!(
        kinds,
        vec![
            RuleKind::OpenParen,
            RuleKind::CloseParen,
            RuleKind::OpenBrace,
            RuleKind::CloseBrace,
            RuleKind::Semicolon,
            RuleKind::Constant,
            RuleKind::KeywordInt,
            RuleKind::KeywordVoid,
            RuleKind::KeywordReturn,
            RuleKind::Identifier,
        ]
    );
    let patterns: Vec<&str> = token_extractors().iter().map(|rule| rule.pattern).collect();
    assert_eq!(
        patterns,
        vec![
            r"^\(",
            r"^\)",
            r"^\{",
            r"^\}",
            r"^;",
            r"^[0-9]+\b",
            r"^int\b",
            r"^void\b",
            r"^return\b",
            r"^[a-zA-Z_]+\b",
        ]
    );
}

#[test]
fn token_from_text_of_each_kind() {
    assert_eq!(token_from_text(RuleKind::OpenParen, "("), Ok(Token::OpenParen));
    assert_eq!(token_from_text(RuleKind::CloseParen, ")"), Ok(Token::CloseParen));
    assert_eq!(token_from_text(RuleKind::OpenBrace, "{"), Ok(Token::OpenBrace));
    assert_eq!(token_from_text(RuleKind::CloseBrace, "}"), Ok(Token::CloseBrace));
    assert_eq!(token_from_text(RuleKind::Semicolon, ";"), Ok(Token::Semicolon));
    assert_eq!(token_from_text(RuleKind::Constant, "42"), Ok(Token::Constant(42)));
    assert_eq!(token_from_text(RuleKind::KeywordInt, "int"), Ok(Token::Keyword(Keyword::INT)));
    assert_eq!(token_from_text(RuleKind::KeywordVoid, "void"), Ok(Token::Keyword(Keyword::VOID)));
    assert_eq!(
        token_from_text(RuleKind::KeywordReturn, "return"),
        Ok(Token::Keyword(Keyword::RETURN))
    );
    assert_eq!(token_from_text(RuleKind::Identifier, "main"), Ok(identifier("main")));
}

#[test]
fn token_from_text_rejects_bad_integer() {
    assert_eq!(
        token_from_text(RuleKind::Constant, "4x"),
        Err(LexError::InvalidInteger { literal: "4x".to_string() })
    );
    assert_eq!(
        token_from_text(RuleKind::Constant, ""),
        Err(LexError::InvalidInteger { literal: "".to_string() })
    );
}

#[test]
fn apply_match_takes_prefix() {
    let mut programme = Programme { text: "main(void)", tokens: vec![Token::Keyword(Keyword::INT)] };
    assert_eq!(apply_match(RuleKind::Identifier, Some((0, 4)), &mut programme), Ok(true));
    assert_eq!(programme.text, "(void)");
    assert_eq!(programme.tokens, vec![Token::Keyword(Keyword::INT), identifier("main")]);
}

#[test]
fn apply_match_without_match() {
    let mut programme = Programme { text: "main", tokens: vec![] };
    assert_eq!(apply_match(RuleKind::Identifier, None, &mut programme), Ok(false));
    assert_eq!(programme.text, "main");
    assert_eq!(programme.tokens, vec![]);
}

#[test]
fn apply_match_ignores_match_that_is_no_prefix() {
    let mut programme = Programme { text: "@main", tokens: vec![] };
    assert_eq!(apply_match(RuleKind::Identifier, Some((1, 5)), &mut programme), Ok(false));
    assert_eq!(programme.text, "@main");
    assert_eq!(programme.tokens, vec![]);
}

#[test]
fn apply_match_ignores_empty_match() {
    let mut programme = Programme { text: "main", tokens: vec![] };
    assert_eq!(apply_match(RuleKind::Identifier, Some((0, 0)), &mut programme), Ok(false));
    assert_eq!(programme.text, "main");
    assert_eq!(programme.tokens, vec![]);
}

#[test]
fn apply_match_ignores_span_off_boundary() {
    let mut programme = Programme { text: "\u{e9}t\u{e9}", tokens: vec![] };
    assert_eq!(apply_match(RuleKind::Identifier, Some((0, 1)), &mut programme), Ok(false));
    assert_eq!(apply_match(RuleKind::Identifier, Some((0, 9)), &mut programme), Ok(false));
    assert_eq!(programme.text, "\u{e9}t\u{e9}");
    assert_eq!(apply_match(RuleKind::Identifier, Some((0, 2)), &mut programme), Ok(true));
    assert_eq!(programme.text, "t\u{e9}");
    assert_eq!(programme.tokens, vec![identifier("\u{e9}")]);
}

#[test]
fn apply_match_takes_whole_text() {
    let mut programme = Programme { text: "17", tokens: vec![] };
    assert_eq!(apply_match(RuleKind::Constant, Some((0, 2)), &mut programme), Ok(true));
    assert_eq!(programme.text, "");
    assert_eq!(programme.tokens, vec![Token::Constant(17)]);
}

#[test]
fn apply_match_keeps_state_on_error() {
    let mut programme = Programme { text: "4000000000;", tokens: vec![Token::OpenBrace] };
    assert_eq!(
        apply_match(RuleKind::Constant, Some((0, 10)), &mut programme),
        Err(LexError::InvalidInteger { literal: "4000000000".to_string() })
    );
    assert_eq!(programme.text, "4000000000;");
    assert_eq!(programme.tokens, vec![Token::OpenBrace]);
}

#[test]
fn extract_token_applies_one_rule() {
    let rules = token_extractors();
    let mut programme = Programme { text: "return 1;", tokens: vec![] };
    assert_eq!(extract_token(&rules[0], &mut programme), Ok(false));
    assert_eq!(extract_token(&rules[6], &mut programme), Ok(false));
    assert_eq!(programme.text, "return 1;");
    assert_eq!(extract_token(&rules[8], &mut programme), Ok(true));
    assert_eq!(programme.text, " 1;");
    assert_eq!(programme.tokens, vec![Token::Keyword(Keyword::RETURN)]);
}

#[test]
fn extract_token_does_not_skip_whitespace() {
    let rules = token_extractors();
    let mut programme = Programme { text: " 1;", tokens: vec![] };
    assert_eq!(extract_token(&rules[5], &mut programme), Ok(false));
    assert_eq!(programme.text, " 1;");
}

#[test]
fn extract_token_ignores_match_past_the_start() {
    let rule = TokenExtractor { pattern: "[0-9]+", kind: RuleKind::Constant };
    let mut programme = Programme { text: "ab12", tokens: vec![] };
    assert_eq!(extract_token(&rule, &mut programme), Ok(false));
    assert_eq!(programme.text, "ab12");
    let mut programme = Programme { text: "12ab", tokens: vec![] };
    assert_eq!(extract_token(&rule, &mut programme), Ok(true));
    assert_eq!(programme.text, "ab");
    assert_eq!(programme.tokens, vec![Token::Constant(12)]);
}

#[test]
fn extract_token_ignores_empty_match() {
    let rule = TokenExtractor { pattern: "^[0-9]*", kind: RuleKind::Constant };
    let mut programme = Programme { text: "ab", tokens: vec![] };
    assert_eq!(extract_token(&rule, &mut programme), Ok(false));
    assert_eq!(programme.tokens, vec![]);
}

#[test]
fn extract_token_rejected_pattern() {
    let rule = TokenExtractor { pattern: "^(", kind: RuleKind::OpenParen };
    let mut programme = Programme { text: "(", tokens: vec![] };
    assert_eq!(
        extract_token(&rule, &mut programme),
        Err(LexError::InvalidRule { pattern: "^(".to_string() })
    );
    assert_eq!(programme.text, "(");
    assert_eq!(programme.tokens, vec![]);
}

#[test]
fn token_equality() {
    assert_eq!(identifier("a"), identifier("a"));
    assert_ne!(identifier("a"), identifier("b"));
    assert_ne!(Token::Constant(1), Token::Constant(2));
    assert_ne!(Token::Keyword(Keyword::INT), Token::Keyword(Keyword::VOID));
    assert_ne!(Token::OpenParen, Token::CloseParen);
    assert_ne!(Token::Complement, Token::Negation);
    assert_eq!(Token::Negation.clone(), Token::Negation);
    assert_eq!(identifier("main").clone(), identifier("main"));
}
