//! Tokens: the classified lexical units that the lexer produces and the
//! code generator consumes, together with their mathematical view.

use vstd::prelude::*;

verus! {

/// The closed set of token categories the grammar recognizes.
#[derive(Debug, Clone, PartialEq, Eq, Structural)]
pub enum TokenType {
    Return,
    Number,
    Semi,
}

/// A classified lexical unit. The payload is present exactly for
/// number literals, and holds the literal digits as written.
#[derive(Debug, Clone)]
pub struct Token {
    pub token_type: TokenType,
    pub value: Option<String>,
}

/// The mathematical value of a token: its category, and for a number
/// literal the characters of its text.
pub enum TokView {
    Return,
    Number(Seq<char>),
    Semi,
}

impl Token {
    /// A token is well formed when it carries a payload exactly if it
    /// is a number literal.
    pub open spec fn wf(self) -> bool {
        match self.token_type {
            TokenType::Number => self.value is Some,
            _ => self.value is None,
        }
    }
}

impl View for Token {
    type V = TokView;

    open spec fn view(&self) -> TokView {
        match self.token_type {
            TokenType::Return => TokView::Return,
            TokenType::Semi => TokView::Semi,
            TokenType::Number => TokView::Number(
                match self.value {
                    Option::Some(s) => s@,
                    Option::None => Seq::empty(),
                },
            ),
        }
    }
}

/// The views of a sequence of tokens, in order.
pub open spec fn views(ts: Seq<Token>) -> Seq<TokView> {
    ts.map_values(|t: Token| t@)
}

} // verus!
