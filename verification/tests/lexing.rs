use zakaria::tokenize;
use zakaria::TokenType;

fn kinds(src: &str) -> Vec<TokenType> {
    tokenize(src).into_iter().map(|t| t.token_type).collect()
}

fn values(src: &str) -> Vec<Option<String>> {
    tokenize(src).into_iter().map(|t| t.value).collect()
}

#[test]
fn empty_input_yields_no_tokens() {
    assert!(tokenize("").is_empty());
}

#[test]
fn blank_and_unrecognized_input_yields_no_tokens() {
    assert!(tokenize(" \t\n\r").is_empty());
    assert!(tokenize("!@#$%^&*()[]{}.,<>?/\\|-+=\"'`~").is_empty());
    assert!(tokenize("  \t ?? \n\r !! ").is_empty());
}

#[test]
fn keyword_is_recognized() {
    let toks = tokenize("kharrej");
    assert_eq!(toks.len(), 1);
    assert_eq!(toks[0].token_type, TokenType::Return);
    assert_eq!(toks[0].value, None);
}

#[test]
fn unknown_identifier_is_silently_dropped() {
    assert!(tokenize("hello").is_empty());
    assert_eq!(kinds("hello kharrej"), vec![TokenType::Return]);
}

#[test]
fn keyword_with_extra_letters_is_not_the_keyword() {
    assert!(tokenize("kharrejs").is_empty());
    assert!(tokenize("akharrej").is_empty());
}

#[test]
fn keyword_is_case_sensitive() {
    assert!(tokenize("Kharrej").is_empty());
    assert!(tokenize("KHARREJ").is_empty());
}

#[test]
fn digit_run_becomes_one_literal_with_its_text() {
    let toks = tokenize("12345");
    assert_eq!(toks.len(), 1);
    assert_eq!(toks[0].token_type, TokenType::Number);
    assert_eq!(toks[0].value.as_deref(), Some("12345"));
}

#[test]
fn separate_digit_runs_become_separate_literals() {
    assert_eq!(
        values("123 45"),
        vec![Some("123".to_string()), Some("45".to_string())]
    );
}

#[test]
fn semicolon_becomes_a_terminator_token() {
    let toks = tokenize(";;");
    assert_eq!(
        kinds(";;"),
        vec![TokenType::Semi, TokenType::Semi]
    );
    assert_eq!(toks[0].value, None);
}

#[test]
fn statement_tokenizes_to_keyword_literal_terminator() {
    let toks = tokenize("kharrej 7;");
    assert_eq!(toks.len(), 3);
    assert_eq!(toks[0].token_type, TokenType::Return);
    assert_eq!(toks[0].value, None);
    assert_eq!(toks[1].token_type, TokenType::Number);
    assert_eq!(toks[1].value.as_deref(), Some("7"));
    assert_eq!(toks[2].token_type, TokenType::Semi);
    assert_eq!(toks[2].value, None);
}

#[test]
fn adjacent_tokens_need_no_spaces() {
    assert_eq!(
        kinds("kharrej7;"),
        vec![TokenType::Return, TokenType::Number, TokenType::Semi]
    );
    assert_eq!(tokenize("kharrej7;")[1].value.as_deref(), Some("7"));
}

#[test]
fn tokens_keep_source_order() {
    assert_eq!(
        kinds("1;kharrej"),
        vec![TokenType::Number, TokenType::Semi, TokenType::Return]
    );
    assert_eq!(
        kinds("; 9 kharrej ; 4"),
        vec![
            TokenType::Semi,
            TokenType::Number,
            TokenType::Return,
            TokenType::Semi,
            TokenType::Number
        ]
    );
}

#[test]
fn skipped_text_does_not_merge_neighbouring_runs() {
    assert_eq!(
        values("12!34"),
        vec![Some("12".to_string()), Some("34".to_string())]
    );
}
