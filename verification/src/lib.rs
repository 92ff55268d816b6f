//! A tiny source-to-assembly translator for a one-statement language.
//!
//! The pipeline has two stages: `tokenize` turns raw text into a sequence
//! of classified tokens, and `tokens_to_asm` turns that sequence into a
//! textual assembly program that performs one process-exit syscall per
//! recognized statement, or reports the first violation it finds.

mod chars;
mod codegen;
mod lexer;
mod numbers;
mod token;

pub use chars::is_digit_char;
pub use chars::is_space_char;
pub use chars::is_word_char;
pub use codegen::asm_header;
pub use codegen::exit_block;
pub use codegen::gen_at;
pub use codegen::blocks_for;
pub use codegen::lemma_generate_no_statement;
pub use codegen::lemma_generate_ok_iff;
pub use codegen::lemma_generate_one_block_per_statement;
pub use codegen::return_positions_from;
pub use codegen::stmt_value;
pub use codegen::msg_incomplete;
pub use codegen::msg_invalid_number;
pub use codegen::msg_missing_number;
pub use codegen::msg_missing_semicolon;
pub use codegen::msg_no_statement;
pub use codegen::msg_out_of_range;
pub use codegen::spec_generate;
pub use codegen::stmt_ok_at;
pub use codegen::tokens_to_asm;
pub use lexer::keyword;
pub use lexer::lemma_blank_input;
pub use lexer::lemma_tokens_in_source_order;
pub use lexer::lemma_whitespace_only_input;
pub use lexer::spec_spans;
pub use lexer::spec_tokens;
pub use lexer::spans_of_at;
pub use lexer::token_from_span;
pub use lexer::tokenize;
pub use lexer::tokens_of_at;
pub use numbers::dec_digits;
pub use numbers::digits_val;
pub use numbers::int_str;
pub use numbers::parse_i32;
pub use numbers::spec_parse_i32;
pub use token::Token;
pub use token::TokenType;
pub use token::TokView;
pub use token::views;
