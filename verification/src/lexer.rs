//! Lexical analysis: one left-to-right pass that turns source text into
//! a token sequence. Identifiers other than the sole keyword, whitespace
//! and unrecognized characters produce no token and no error.

use vstd::prelude::*;
use crate::chars::is_digit_char;
use crate::chars::is_space_char;
use crate::chars::is_word_char;
use crate::chars::is_digit;
use crate::chars::is_word;
use crate::token::Token;
use crate::token::TokenType;
use crate::token::TokView;
use crate::token::views;

verus! {

/// The sole keyword of the language.
pub open spec fn keyword() -> Seq<char> {
    seq!['k', 'h', 'a', 'r', 'r', 'e', 'j']
}

/// The end of the maximal run of identifier characters starting at `i`.
pub open spec fn word_end(s: Seq<char>, i: int) -> int
    decreases s.len() - i,
{
    if 0 <= i < s.len() && is_word_char(s[i]) {
        word_end(s, i + 1)
    } else {
        i
    }
}

/// The end of the maximal run of digit characters starting at `i`.
pub open spec fn digit_end(s: Seq<char>, i: int) -> int
    decreases s.len() - i,
{
    if 0 <= i < s.len() && is_digit_char(s[i]) {
        digit_end(s, i + 1)
    } else {
        i
    }
}

pub proof fn lemma_word_end(s: Seq<char>, i: int)
    requires
        0 <= i <= s.len(),
    ensures
        i <= word_end(s, i) <= s.len(),
        forall|k: int| i <= k < word_end(s, i) ==> is_word_char(#[trigger] s[k]),
        word_end(s, i) < s.len() ==> !is_word_char(s[word_end(s, i)]),
    decreases s.len() - i,
{
    if i < s.len() && is_word_char(s[i]) {
        lemma_word_end(s, i + 1);
    }
}

pub proof fn lemma_digit_end(s: Seq<char>, i: int)
    requires
        0 <= i <= s.len(),
    ensures
        i <= digit_end(s, i) <= s.len(),
        forall|k: int| i <= k < digit_end(s, i) ==> is_digit_char(#[trigger] s[k]),
        digit_end(s, i) < s.len() ==> !is_digit_char(s[digit_end(s, i)]),
    decreases s.len() - i,
{
    if i < s.len() && is_digit_char(s[i]) {
        lemma_digit_end(s, i + 1);
    }
}

/// The tokens produced from position `i` onward. An identifier run is
/// consumed whole and yields a token only when it is the keyword; a
/// digit run yields a number literal carrying its text; a semicolon
/// yields a terminator; every other character is skipped.
pub open spec fn tokens_of_at(s: Seq<char>, i: int) -> Seq<TokView>
    decreases s.len() - i,
{
    if !(0 <= i < s.len()) {
        Seq::empty()
    } else if is_word_char(s[i]) {
        proof {
            lemma_word_end(s, i + 1);
        }
        let j = word_end(s, i);
        if s.subrange(i, j) == keyword() {
            seq![TokView::Return] + tokens_of_at(s, j)
        } else {
            tokens_of_at(s, j)
        }
    } else if is_digit_char(s[i]) {
        proof {
            lemma_digit_end(s, i + 1);
        }
        let j = digit_end(s, i);
        seq![TokView::Number(s.subrange(i, j))] + tokens_of_at(s, j)
    } else if s[i] == ';' {
        seq![TokView::Semi] + tokens_of_at(s, i + 1)
    } else {
        tokens_of_at(s, i + 1)
    }
}

/// The token sequence of a whole source text.
pub open spec fn spec_tokens(s: Seq<char>) -> Seq<TokView> {
    tokens_of_at(s, 0)
}

/// The source span (start, end) responsible for each emitted token,
/// in emission order: the identifier run of a keyword, the digit run
/// of a number literal, the single character of a terminator.
pub open spec fn spans_of_at(s: Seq<char>, i: int) -> Seq<(int, int)>
    decreases s.len() - i,
{
    if !(0 <= i < s.len()) {
        Seq::empty()
    } else if is_word_char(s[i]) {
        proof {
            lemma_word_end(s, i + 1);
        }
        let j = word_end(s, i);
        if s.subrange(i, j) == keyword() {
            seq![(i, j)] + spans_of_at(s, j)
        } else {
            spans_of_at(s, j)
        }
    } else if is_digit_char(s[i]) {
        proof {
            lemma_digit_end(s, i + 1);
        }
        let j = digit_end(s, i);
        seq![(i, j)] + spans_of_at(s, j)
    } else if s[i] == ';' {
        seq![(i, i + 1)] + spans_of_at(s, i + 1)
    } else {
        spans_of_at(s, i + 1)
    }
}

/// The spans of a whole source text.
pub open spec fn spec_spans(s: Seq<char>) -> Seq<(int, int)> {
    spans_of_at(s, 0)
}

/// What a token owes to its source span: a keyword token's span reads
/// as the keyword, a number literal's text is exactly its span, and a
/// terminator's span is the one semicolon character.
pub open spec fn token_from_span(s: Seq<char>, t: TokView, sp: (int, int)) -> bool {
    match t {
        TokView::Return => s.subrange(sp.0, sp.1) == keyword(),
        TokView::Number(lit) => lit == s.subrange(sp.0, sp.1),
        TokView::Semi => s.subrange(sp.0, sp.1) == seq![';'],
    }
}

proof fn lemma_spans_from(s: Seq<char>, i: int)
    requires
        0 <= i <= s.len(),
    ensures
        spans_of_at(s, i).len() == tokens_of_at(s, i).len(),
        forall|k: int|
            0 <= k < spans_of_at(s, i).len() ==> i <= (#[trigger] spans_of_at(s, i)[k]).0
                < spans_of_at(s, i)[k].1 <= s.len(),
        forall|k: int|
            0 <= k < spans_of_at(s, i).len() - 1 ==> (#[trigger] spans_of_at(s, i)[k]).1
                <= spans_of_at(s, i)[k + 1].0,
        forall|k: int|
            0 <= k < tokens_of_at(s, i).len() ==> token_from_span(
                s,
                tokens_of_at(s, i)[k],
                #[trigger] spans_of_at(s, i)[k],
            ),
    decreases s.len() - i,
{
    if !(0 <= i < s.len()) {
    } else if is_word_char(s[i]) {
        lemma_word_end(s, i + 1);
        let j = word_end(s, i);
        lemma_spans_from(s, j);
        if s.subrange(i, j) == keyword() {
            assert(spans_of_at(s, i) == seq![(i, j)] + spans_of_at(s, j));
            assert(spans_of_at(s, i)[0] == (i, j));
        }
    } else if is_digit_char(s[i]) {
        lemma_digit_end(s, i + 1);
        let j = digit_end(s, i);
        lemma_spans_from(s, j);
        assert(spans_of_at(s, i)[0] == (i, j));
    } else if s[i] == ';' {
        lemma_spans_from(s, i + 1);
        assert(spans_of_at(s, i)[0] == (i, i + 1));
        assert(s.subrange(i, i + 1) =~= seq![';']);
    } else {
        lemma_spans_from(s, i + 1);
    }
}

/// Tokens follow source order. Each emitted token answers to one span
/// of the source; the spans lie within the text, do not overlap, and
/// appear in strictly left-to-right order, so concatenating them
/// reproduces the matched substrings in their original order.
pub proof fn lemma_tokens_in_source_order(s: Seq<char>)
    ensures
        spec_spans(s).len() == spec_tokens(s).len(),
        forall|k: int|
            0 <= k < spec_spans(s).len() ==> 0 <= (#[trigger] spec_spans(s)[k]).0 < spec_spans(
                s,
            )[k].1 <= s.len(),
        forall|k: int|
            0 <= k < spec_spans(s).len() - 1 ==> (#[trigger] spec_spans(s)[k]).1 <= spec_spans(
                s,
            )[k + 1].0,
        forall|k: int|
            0 <= k < spec_tokens(s).len() ==> token_from_span(
                s,
                spec_tokens(s)[k],
                #[trigger] spec_spans(s)[k],
            ),
{
    lemma_spans_from(s, 0);
}

proof fn lemma_blank_from(s: Seq<char>, i: int)
    requires
        0 <= i,
        forall|k: int|
            0 <= k < s.len() ==> !is_word_char(#[trigger] s[k]) && !is_digit_char(s[k]) && s[k]
                != ';',
    ensures
        tokens_of_at(s, i) == Seq::<TokView>::empty(),
    decreases s.len() - i,
{
    if i < s.len() {
        lemma_blank_from(s, i + 1);
    }
}

/// Input with no letters, no digits and no terminator — whitespace
/// and unrecognized characters alone — yields an empty token sequence.
pub proof fn lemma_blank_input(s: Seq<char>)
    requires
        forall|k: int|
            0 <= k < s.len() ==> !is_word_char(#[trigger] s[k]) && !is_digit_char(s[k]) && s[k]
                != ';',
    ensures
        spec_tokens(s) == Seq::<TokView>::empty(),
{
    lemma_blank_from(s, 0);
}

/// In particular, input of whitespace alone yields an empty token
/// sequence.
pub proof fn lemma_whitespace_only_input(s: Seq<char>)
    requires
        forall|k: int| 0 <= k < s.len() ==> is_space_char(#[trigger] s[k]),
    ensures
        spec_tokens(s) == Seq::<TokView>::empty(),
{
    assert forall|k: int| 0 <= k < s.len() implies !is_word_char(#[trigger] s[k])
        && !is_digit_char(s[k]) && s[k] != ';' by {
        assert(is_space_char(s[k]));
    }
    lemma_blank_input(s);
}

/// Lexical analysis. Total: never fails; text that matches no token
/// form is silently dropped. The result is exactly the token sequence
/// that `spec_tokens` assigns to the input, and every token is well
/// formed.
pub fn tokenize(input: &str) -> (tokens: Vec<Token>)
    ensures
        views(tokens@) == spec_tokens(input@),
        forall|k: int| 0 <= k < tokens@.len() ==> (#[trigger] tokens@[k]).wf(),
{
    let n = input.unicode_len();
    let mut tokens: Vec<Token> = Vec::new();
    let mut i: usize = 0;
    while i < n
        invariant
            n == input@.len(),
            i <= n,
            forall|k: int| 0 <= k < tokens@.len() ==> (#[trigger] tokens@[k]).wf(),
            views(tokens@) + tokens_of_at(input@, i as int) == spec_tokens(input@),
        decreases n - i,
    {
        let ghost s = input@;
        let ghost prev = tokens@;
        let c = input.get_char(i);
        if is_word(c) {
            let start = i;
            let mut j = i + 1;
            while j < n && is_word(input.get_char(j))
                invariant
                    n == input@.len(),
                    start < j <= n,
                    word_end(input@, start as int) == word_end(input@, j as int),
                decreases n - j,
            {
                proof {
                    assert(word_end(input@, j as int) == word_end(input@, j as int + 1));
                }
                j = j + 1;
            }
            proof {
                assert(word_end(s, start as int) == j as int);
                assert(word_end(s, start as int + 1) == j as int);
            }
            let is_kw = j - start == 7 && input.get_char(start) == 'k' && input.get_char(start + 1)
                == 'h' && input.get_char(start + 2) == 'a' && input.get_char(start + 3) == 'r'
                && input.get_char(start + 4) == 'r' && input.get_char(start + 5) == 'e'
                && input.get_char(start + 6) == 'j';
            proof {
                let sub = s.subrange(start as int, j as int);
                assert(keyword().len() == 7);
                if is_kw {
                    assert(sub =~= keyword());
                } else {
                    if sub == keyword() {
                        assert(sub[0] == s[start as int] && sub[0] == 'k');
                        assert(sub[1] == s[start as int + 1] && sub[1] == 'h');
                        assert(sub[2] == s[start as int + 2] && sub[2] == 'a');
                        assert(sub[3] == s[start as int + 3] && sub[3] == 'r');
                        assert(sub[4] == s[start as int + 4] && sub[4] == 'r');
                        assert(sub[5] == s[start as int + 5] && sub[5] == 'e');
                        assert(sub[6] == s[start as int + 6] && sub[6] == 'j');
                        assert(false);
                    }
                }
            }
            if is_kw {
                tokens.push(Token { token_type: TokenType::Return, value: None });
                proof {
                    assert(views(tokens@) =~= views(prev) + seq![TokView::Return]);
                    assert(views(prev) + (seq![TokView::Return] + tokens_of_at(s, j as int))
                        =~= views(tokens@) + tokens_of_at(s, j as int));
                }
            }
            i = j;
        } else if is_digit(c) {
            let start = i;
            let mut j = i + 1;
            while j < n && is_digit(input.get_char(j))
                invariant
                    n == input@.len(),
                    start < j <= n,
                    digit_end(input@, start as int) == digit_end(input@, j as int),
                decreases n - j,
            {
                proof {
                    assert(digit_end(input@, j as int) == digit_end(input@, j as int + 1));
                }
                j = j + 1;
            }
            proof {
                assert(digit_end(s, start as int) == j as int);
                assert(digit_end(s, start as int + 1) == j as int);
            }
            let text = String::from_str(input.substring_char(start, j));
            tokens.push(Token { token_type: TokenType::Number, value: Some(text) });
            proof {
                let lit = s.subrange(start as int, j as int);
                assert(views(tokens@) =~= views(prev) + seq![TokView::Number(lit)]);
                assert(views(prev) + (seq![TokView::Number(lit)] + tokens_of_at(s, j as int))
                    =~= views(tokens@) + tokens_of_at(s, j as int));
            }
            i = j;
        } else if c == ';' {
            tokens.push(Token { token_type: TokenType::Semi, value: None });
            proof {
                assert(views(tokens@) =~= views(prev) + seq![TokView::Semi]);
                assert(views(prev) + (seq![TokView::Semi] + tokens_of_at(s, i as int + 1))
                    =~= views(tokens@) + tokens_of_at(s, i as int + 1));
            }
            i = i + 1;
        } else {
            i = i + 1;
        }
    }
    proof {
        assert(views(tokens@) + tokens_of_at(input@, n as int) =~= views(tokens@));
    }
    tokens
}

} // verus!
