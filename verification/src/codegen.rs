//! Code generation: scans the token sequence for return statements and
//! emits one exit-syscall block per statement, or fails with the first
//! violation found. No partial output is ever returned on failure.

use vstd::prelude::*;
use crate::numbers::dec_digits;
use crate::numbers::int_str;
use crate::numbers::append_dec;
use crate::numbers::i32_string;
use crate::numbers::parse_i32;
use crate::numbers::spec_parse_i32;
use crate::token::Token;
use crate::token::TokenType;
use crate::token::TokView;
use crate::token::views;

verus! {

/// The fixed lines every assembly program starts with: entry-point
/// declaration, code section, entry label.
pub open spec fn asm_header() -> Seq<char> {
    "global _start\nsection .text\n_start:\n"@
}

/// The three-instruction exit sequence for one validated exit code.
pub open spec fn exit_block(v: int) -> Seq<char> {
    "    mov rax, 60     ; sys_exit\n    mov rdi, "@ + dec_digits(v)
        + "    ; exit code\n    syscall\n"@
}

/// A return keyword with fewer than two tokens after it.
pub open spec fn msg_incomplete() -> Seq<char> {
    "Incomplete return statement: expected 'kharrej <number>;'"@
}

/// The token after the keyword is not a number literal.
pub open spec fn msg_missing_number() -> Seq<char> {
    "Expected number after 'kharrej'"@
}

/// The token after the number literal is not a terminator.
pub open spec fn msg_missing_semicolon() -> Seq<char> {
    "Expected semicolon after number"@
}

/// The literal text does not parse as a signed 32-bit integer.
pub open spec fn msg_invalid_number(lit: Seq<char>) -> Seq<char> {
    "Invalid number: '"@ + lit + "'"@
}

/// The parsed value lies outside the closed interval from 0 to 255.
pub open spec fn msg_out_of_range(v: int) -> Seq<char> {
    "Exit code must be between 0 and 255, got "@ + int_str(v)
}

/// No return keyword occurs anywhere in the token sequence.
pub open spec fn msg_no_statement() -> Seq<char> {
    "No 'kharrej' statement found"@
}

/// The scan from position `i` onward: the concatenated exit blocks of
/// the statements it matches, or the first violation. `found` records
/// whether a statement was already matched earlier in the scan.
pub open spec fn gen_at(toks: Seq<TokView>, i: int, found: bool) -> Result<Seq<char>, Seq<char>>
    decreases toks.len() - i,
{
    if !(0 <= i < toks.len()) {
        if found {
            Ok(Seq::empty())
        } else {
            Err(msg_no_statement())
        }
    } else if toks[i] is Return {
        if i + 2 >= toks.len() {
            Err(msg_incomplete())
        } else if !(toks[i + 1] is Number) {
            Err(msg_missing_number())
        } else if !(toks[i + 2] is Semi) {
            Err(msg_missing_semicolon())
        } else {
            let lit = toks[i + 1]->Number_0;
            match spec_parse_i32(lit) {
                None => Err(msg_invalid_number(lit)),
                Some(v) => if !(0 <= v <= 255) {
                    Err(msg_out_of_range(v))
                } else {
                    match gen_at(toks, i + 3, true) {
                        Ok(rest) => Ok(exit_block(v) + rest),
                        Err(e) => Err(e),
                    }
                },
            }
        }
    } else {
        gen_at(toks, i + 1, found)
    }
}

/// What code generation returns for a token sequence: the fixed header
/// followed by the matched statements' exit blocks, or the first
/// violation the left-to-right scan meets.
pub open spec fn spec_generate(toks: Seq<TokView>) -> Result<Seq<char>, Seq<char>> {
    match gen_at(toks, 0, false) {
        Ok(body) => Ok(asm_header() + body),
        Err(e) => Err(e),
    }
}

/// A return keyword at position `p` begins a valid statement: a number
/// literal follows, then a terminator, and the literal parses to a
/// value between 0 and 255.
pub open spec fn stmt_ok_at(toks: Seq<TokView>, p: int) -> bool {
    &&& p + 2 < toks.len()
    &&& toks[p + 1] is Number
    &&& toks[p + 2] is Semi
    &&& spec_parse_i32(toks[p + 1]->Number_0) matches Some(v) && 0 <= v <= 255
}

proof fn lemma_gen_ok_from(toks: Seq<TokView>, i: int, found: bool)
    requires
        0 <= i <= toks.len(),
    ensures
        gen_at(toks, i, found) is Ok <==> ((found || exists|p: int|
            i <= p < toks.len() && (#[trigger] toks[p]) is Return) && (forall|p: int|
            i <= p < toks.len() && (#[trigger] toks[p]) is Return ==> stmt_ok_at(toks, p))),
    decreases toks.len() - i,
{
    if i == toks.len() {
    } else if toks[i] is Return {
        if stmt_ok_at(toks, i) {
            lemma_gen_ok_from(toks, i + 3, true);
        }
    } else {
        lemma_gen_ok_from(toks, i + 1, found);
    }
}

/// When success is owed: generation succeeds exactly when the sequence
/// holds at least one return keyword and every return keyword begins a
/// valid statement.
pub proof fn lemma_generate_ok_iff(toks: Seq<TokView>)
    ensures
        spec_generate(toks) is Ok <==> ((exists|p: int|
            0 <= p < toks.len() && (#[trigger] toks[p]) is Return) && (forall|p: int|
            0 <= p < toks.len() && (#[trigger] toks[p]) is Return ==> stmt_ok_at(toks, p))),
{
    lemma_gen_ok_from(toks, 0, false);
}

proof fn lemma_no_return_from(toks: Seq<TokView>, i: int)
    requires
        0 <= i,
        forall|p: int| 0 <= p < toks.len() ==> !((#[trigger] toks[p]) is Return),
    ensures
        gen_at(toks, i, false) == Err::<Seq<char>, Seq<char>>(msg_no_statement()),
    decreases toks.len() - i,
{
    if i < toks.len() {
        lemma_no_return_from(toks, i + 1);
    }
}

/// A sequence without a single return keyword is invalid as a whole:
/// generation fails with the no-statement error.
pub proof fn lemma_generate_no_statement(toks: Seq<TokView>)
    requires
        forall|p: int| 0 <= p < toks.len() ==> !((#[trigger] toks[p]) is Return),
    ensures
        spec_generate(toks) == Err::<Seq<char>, Seq<char>>(msg_no_statement()),
{
    lemma_no_return_from(toks, 0);
}

/// The positions of the return keywords from `i` onward, ascending.
pub open spec fn return_positions_from(toks: Seq<TokView>, i: int) -> Seq<int>
    decreases toks.len() - i,
{
    if !(0 <= i < toks.len()) {
        Seq::empty()
    } else if toks[i] is Return {
        seq![i] + return_positions_from(toks, i + 1)
    } else {
        return_positions_from(toks, i + 1)
    }
}

/// The value of the statement whose return keyword stands at `p`.
pub open spec fn stmt_value(toks: Seq<TokView>, p: int) -> int {
    spec_parse_i32(toks[p + 1]->Number_0)->0
}

/// One exit block for each listed statement position, concatenated in
/// the order the positions are listed.
pub open spec fn blocks_for(toks: Seq<TokView>, ps: Seq<int>) -> Seq<char>
    decreases ps.len(),
{
    if ps.len() == 0 {
        Seq::empty()
    } else {
        exit_block(stmt_value(toks, ps[0])) + blocks_for(toks, ps.drop_first())
    }
}

proof fn lemma_gen_blocks_from(toks: Seq<TokView>, i: int, found: bool)
    requires
        0 <= i <= toks.len(),
        gen_at(toks, i, found) is Ok,
    ensures
        gen_at(toks, i, found)->Ok_0 == blocks_for(toks, return_positions_from(toks, i)),
    decreases toks.len() - i,
{
    if i == toks.len() {
        assert(blocks_for(toks, Seq::empty()) == Seq::<char>::empty());
    } else if toks[i] is Return {
        lemma_gen_ok_from(toks, i, found);
        assert(stmt_ok_at(toks, i));
        lemma_gen_blocks_from(toks, i + 3, true);
        assert(return_positions_from(toks, i + 1) == return_positions_from(toks, i + 2));
        assert(return_positions_from(toks, i + 2) == return_positions_from(toks, i + 3));
        let ps = return_positions_from(toks, i);
        assert(ps == seq![i] + return_positions_from(toks, i + 3));
        assert(ps[0] == i);
        assert(ps.drop_first() =~= return_positions_from(toks, i + 3));
    } else {
        lemma_gen_blocks_from(toks, i + 1, found);
    }
}

/// No deduplication, no reordering: when generation succeeds, its
/// output is the fixed header followed by exactly one exit block per
/// return keyword, carrying that statement's value, in source order.
pub proof fn lemma_generate_one_block_per_statement(toks: Seq<TokView>)
    requires
        spec_generate(toks) is Ok,
    ensures
        spec_generate(toks)->Ok_0 == asm_header() + blocks_for(
            toks,
            return_positions_from(toks, 0),
        ),
{
    lemma_gen_blocks_from(toks, 0, false);
}

/// Code generation. Succeeds exactly when the scan `spec_generate`
/// describes succeeds, with exactly its text; fails with exactly the
/// message of the first violation otherwise.
pub fn tokens_to_asm(tokens: Vec<Token>) -> (r: Result<String, String>)
    requires
        forall|k: int| 0 <= k < tokens@.len() ==> (#[trigger] tokens@[k]).wf(),
    ensures
        r is Ok <==> spec_generate(views(tokens@)) is Ok,
        r is Ok ==> r->Ok_0@ == spec_generate(views(tokens@))->Ok_0,
        r is Err ==> r->Err_0@ == spec_generate(views(tokens@))->Err_0,
{
    let ghost tv = views(tokens@);
    let mut asm_code = String::from_str("global _start\nsection .text\n_start:\n");
    let ghost mut blocks: Seq<char> = Seq::empty();
    let n = tokens.len();
    let mut i: usize = 0;
    let mut found: bool = false;
    proof {
        if gen_at(tv, 0, false) is Ok {
            assert(Seq::<char>::empty() + gen_at(tv, 0, false)->Ok_0 =~= gen_at(
                tv,
                0,
                false,
            )->Ok_0);
        }
    }
    while i < n
        invariant
            n == tokens@.len(),
            i <= n,
            tv == views(tokens@),
            forall|k: int| 0 <= k < tokens@.len() ==> (#[trigger] tokens@[k]).wf(),
            asm_code@ == asm_header() + blocks,
            gen_at(tv, i as int, found) is Ok ==> gen_at(tv, 0, false) is Ok && gen_at(
                tv,
                0,
                false,
            )->Ok_0 == blocks + gen_at(tv, i as int, found)->Ok_0,
            gen_at(tv, i as int, found) is Err ==> gen_at(tv, 0, false) is Err && gen_at(
                tv,
                0,
                false,
            )->Err_0 == gen_at(tv, i as int, found)->Err_0,
        decreases n - i,
    {
        proof {
            assert(tv[i as int] == tokens@[i as int]@);
        }
        if tokens[i].token_type == TokenType::Return {
            if n - i <= 2 {
                return Err(String::from_str(
                    "Incomplete return statement: expected 'kharrej <number>;'",
                ));
            }
            proof {
                assert(tv[i as int + 1] == tokens@[i as int + 1]@);
                assert(tv[i as int + 2] == tokens@[i as int + 2]@);
            }
            if !(tokens[i + 1].token_type == TokenType::Number) {
                return Err(String::from_str("Expected number after 'kharrej'"));
            }
            if !(tokens[i + 2].token_type == TokenType::Semi) {
                return Err(String::from_str("Expected semicolon after number"));
            }
            let value = tokens[i + 1].value.as_ref().unwrap();
            proof {
                assert(tv[i as int + 1]->Number_0 == value@);
            }
            match parse_i32(value.as_str()) {
                None => {
                    let mut msg = String::from_str("Invalid number: '");
                    msg.append(value.as_str());
                    msg.append("'");
                    proof {
                        assert(msg@ =~= msg_invalid_number(value@));
                    }
                    return Err(msg);
                },
                Some(exit_code) => {
                    if exit_code < 0 || exit_code > 255 {
                        let mut msg = String::from_str(
                            "Exit code must be between 0 and 255, got ",
                        );
                        let num = i32_string(exit_code);
                        msg.append(num.as_str());
                        proof {
                            assert(msg@ =~= msg_out_of_range(exit_code as int));
                        }
                        return Err(msg);
                    }
                    let ghost before = blocks;
                    asm_code.append("    mov rax, 60     ; sys_exit\n    mov rdi, ");
                    append_dec(&mut asm_code, exit_code as u32);
                    asm_code.append("    ; exit code\n    syscall\n");
                    proof {
                        blocks = before + exit_block(exit_code as int);
                        assert(asm_code@ =~= asm_header() + blocks);
                        if gen_at(tv, i as int + 3, true) is Ok {
                            assert(before + (exit_block(exit_code as int) + gen_at(
                                tv,
                                i as int + 3,
                                true,
                            )->Ok_0) =~= blocks + gen_at(tv, i as int + 3, true)->Ok_0);
                        }
                    }
                    found = true;
                    i = i + 3;
                },
            }
        } else {
            i = i + 1;
        }
    }
    if found {
        proof {
            assert(blocks + Seq::<char>::empty() =~= blocks);
        }
        Ok(asm_code)
    } else {
        Err(String::from_str("No 'kharrej' statement found"))
    }
}

} // verus!
