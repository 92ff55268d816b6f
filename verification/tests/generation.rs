use zakaria::tokenize;
use zakaria::tokens_to_asm;
use zakaria::Token;
use zakaria::TokenType;

fn ret() -> Token {
    Token { token_type: TokenType::Return, value: None }
}

fn num(text: &str) -> Token {
    Token { token_type: TokenType::Number, value: Some(text.to_string()) }
}

fn semi() -> Token {
    Token { token_type: TokenType::Semi, value: None }
}

const HEADER: &str = "global _start\nsection .text\n_start:\n";

fn block(code: &str) -> String {
    format!("    mov rax, 60     ; sys_exit\n    mov rdi, {}    ; exit code\n    syscall\n", code)
}

#[test]
fn empty_token_sequence_fails_with_no_statement_found() {
    assert_eq!(
        tokens_to_asm(vec![]),
        Err("No 'kharrej' statement found".to_string())
    );
}

#[test]
fn tokens_without_keyword_fail_with_no_statement_found() {
    assert_eq!(
        tokens_to_asm(vec![num("4"), semi()]),
        Err("No 'kharrej' statement found".to_string())
    );
}

#[test]
fn single_statement_emits_header_and_one_exit_block() {
    let out = tokens_to_asm(vec![ret(), num("42"), semi()]).unwrap();
    assert_eq!(out, format!("{}{}", HEADER, block("42")));
    assert!(out.contains("mov rdi, 42"));
    assert_eq!(out.matches("syscall").count(), 1);
}

#[test]
fn exit_code_255_is_accepted() {
    let out = tokens_to_asm(vec![ret(), num("255"), semi()]).unwrap();
    assert_eq!(out, format!("{}{}", HEADER, block("255")));
}

#[test]
fn exit_code_256_is_out_of_range() {
    assert_eq!(
        tokens_to_asm(vec![ret(), num("256"), semi()]),
        Err("Exit code must be between 0 and 255, got 256".to_string())
    );
}

#[test]
fn negative_exit_code_is_out_of_range() {
    assert_eq!(
        tokens_to_asm(vec![ret(), num("-1"), semi()]),
        Err("Exit code must be between 0 and 255, got -1".to_string())
    );
}

#[test]
fn keyword_then_terminator_is_incomplete() {
    assert_eq!(
        tokens_to_asm(vec![ret(), semi()]),
        Err("Incomplete return statement: expected 'kharrej <number>;'".to_string())
    );
}

#[test]
fn non_literal_after_keyword_is_missing_number() {
    assert_eq!(
        tokens_to_asm(vec![ret(), semi(), semi()]),
        Err("Expected number after 'kharrej'".to_string())
    );
}

#[test]
fn keyword_and_literal_without_terminator_is_incomplete() {
    assert_eq!(
        tokens_to_asm(vec![ret(), num("5")]),
        Err("Incomplete return statement: expected 'kharrej <number>;'".to_string())
    );
}

#[test]
fn non_terminator_after_literal_is_missing_semicolon() {
    assert_eq!(
        tokens_to_asm(vec![ret(), num("5"), ret()]),
        Err("Expected semicolon after number".to_string())
    );
}

#[test]
fn unparseable_literal_is_invalid_number() {
    assert_eq!(
        tokens_to_asm(vec![ret(), num("nine"), semi()]),
        Err("Invalid number: 'nine'".to_string())
    );
}

#[test]
fn literal_overflowing_32_bits_is_invalid_number() {
    assert_eq!(
        tokens_to_asm(vec![ret(), num("99999999999"), semi()]),
        Err("Invalid number: '99999999999'".to_string())
    );
}

#[test]
fn literal_with_plus_sign_is_accepted() {
    let out = tokens_to_asm(vec![ret(), num("+5"), semi()]).unwrap();
    assert_eq!(out, format!("{}{}", HEADER, block("5")));
}

#[test]
fn literal_with_leading_zeros_uses_parsed_value() {
    let out = tokens_to_asm(vec![ret(), num("007"), semi()]).unwrap();
    assert_eq!(out, format!("{}{}", HEADER, block("7")));
}

#[test]
fn first_violation_aborts_the_whole_unit() {
    assert_eq!(
        tokens_to_asm(vec![ret(), num("256"), semi(), ret(), num("1"), semi()]),
        Err("Exit code must be between 0 and 255, got 256".to_string())
    );
}

#[test]
fn tokens_outside_statements_are_skipped() {
    let out = tokens_to_asm(vec![num("9"), semi(), ret(), num("3"), semi()]).unwrap();
    assert_eq!(out, format!("{}{}", HEADER, block("3")));
}

#[test]
fn round_trip_from_source_text() {
    let toks = tokenize("kharrej 7;");
    let out = tokens_to_asm(toks).unwrap();
    assert_eq!(out, format!("{}{}", HEADER, block("7")));
    assert!(out.contains("mov rdi, 7    ; exit code"));
}

#[test]
fn two_statements_emit_two_blocks_in_source_order() {
    let toks = tokenize("kharrej 1; kharrej 2;");
    let out = tokens_to_asm(toks).unwrap();
    assert_eq!(out, format!("{}{}{}", HEADER, block("1"), block("2")));
    let first = out.find("mov rdi, 1").unwrap();
    let second = out.find("mov rdi, 2").unwrap();
    assert!(first < second);
    assert_eq!(out.matches("syscall").count(), 2);
}

#[test]
fn failing_source_produces_no_assembly() {
    assert!(tokens_to_asm(tokenize("kharrej;")).is_err());
    assert!(tokens_to_asm(tokenize("kharrej 300;")).is_err());
    assert!(tokens_to_asm(tokenize("...")).is_err());
}
