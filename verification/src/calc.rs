//! The tiny calculator front end: it reads `number op number` lines, hands
//! each problem to `dc` in postfix form and prints `dc`'s answer.

use vstd::prelude::*;
use crate::text::{
    chars_of, dec_int, is_ws, law_words_are_words, parse_i32, parse_i32_spec, push_char,
    push_dec_i64, push_str, split_words, string_of, trim, trim_chars, words,
};

verus! {

/// One line read as a problem: the two numbers, the operator, and how many
/// of the numbers did not parse (each one that does not parse reads as 0
/// and is reported as a syntax error).
pub struct BcProblem {
    pub num1: i32,
    pub op: char,
    pub num2: i32,
    pub bad_numbers: usize,
}

/// A word read as a number; `0` when it is not one.
pub open spec fn number_or_zero(w: Seq<char>) -> i32 {
    match parse_i32_spec(w) {
        Some(v) => v,
        None => 0i32,
    }
}

/// 1 when the word is not a number, else 0.
pub open spec fn bad_number(w: Seq<char>) -> nat {
    if parse_i32_spec(w) is None {
        1
    } else {
        0
    }
}

/// The problem on a line: its first three words are the first number, the
/// operator (its first character) and the second number; `None` (a syntax
/// error) when the line has fewer than three words.
pub open spec fn problem_of(line: Seq<char>) -> Option<(i32, char, i32, nat)> {
    let ws = words(line);
    if ws.len() < 3 {
        None
    } else {
        Some(
            (
                number_or_zero(ws[0]),
                ws[1][0],
                number_or_zero(ws[2]),
                bad_number(ws[0]) + bad_number(ws[2]),
            ),
        )
    }
}

/// Reads a line as a problem.  The operator is never whitespace, so every
/// line with three words is sent to `dc`.
pub fn bc_parse(line: &str) -> (r: Option<BcProblem>)
    ensures
        match r {
            Some(p) => problem_of(line@) == Some((p.num1, p.op, p.num2, p.bad_numbers as nat))
                && !is_ws(p.op),
            None => problem_of(line@) is None,
        },
{
    let cs = chars_of(line);
    let ws = split_words(&cs);
    proof {
        law_words_are_words(line@);
    }
    if ws.len() < 3 {
        return None;
    }
    let w0 = chars_of(ws[0].as_str());
    let w1 = chars_of(ws[1].as_str());
    let w2 = chars_of(ws[2].as_str());
    assert(w1@ == words(line@)[1]);
    let mut bad: usize = 0;
    let num1: i32 = match parse_i32(&w0) {
        Some(v) => v,
        None => {
            bad = bad + 1;
            0
        },
    };
    let num2: i32 = match parse_i32(&w2) {
        Some(v) => v,
        None => {
            bad = bad + 1;
            0
        },
    };
    let op = w1[0];
    Some(BcProblem { num1, op, num2, bad_numbers: bad })
}

/// What is written to `dc` for a problem: the two numbers and the operator
/// on lines of their own, then `p` to print the result.
pub open spec fn dc_request_text(num1: i32, op: char, num2: i32) -> Seq<char> {
    dec_int(num1 as int) + "\n"@ + dec_int(num2 as int) + "\n"@ + seq![op] + "\np\n"@
}

/// The postfix program that asks `dc` for the answer.
pub fn dc_request(p: &BcProblem) -> (r: String)
    ensures
        r@ == dc_request_text(p.num1, p.op, p.num2),
        r@ == dec_int(p.num1 as int) + "\n"@ + dec_int(p.num2 as int) + "\n"@ + seq![p.op] + "\np\n"@,
{
    let mut s = String::new();
    push_dec_i64(&mut s, p.num1 as i64);
    push_str(&mut s, "\n");
    push_dec_i64(&mut s, p.num2 as i64);
    push_str(&mut s, "\n");
    push_char(&mut s, p.op);
    push_str(&mut s, "\np\n");
    proof {
        reveal_strlit("\n");
        reveal_strlit("\np\n");
    }
    s
}

/// The line printed for a problem, given the line `dc` answered.
pub open spec fn answer_text(num1: i32, op: char, num2: i32, dc_line: Seq<char>) -> Seq<char> {
    dec_int(num1 as int) + " "@ + seq![op] + " "@ + dec_int(num2 as int) + " = "@ + trim(dc_line)
}

/// `num1 op num2 = answer`, with `dc`'s line trimmed.
pub fn bc_answer(p: &BcProblem, dc_line: &str) -> (r: String)
    ensures
        r@ == answer_text(p.num1, p.op, p.num2, dc_line@),
{
    let mut s = String::new();
    push_dec_i64(&mut s, p.num1 as i64);
    push_str(&mut s, " ");
    push_char(&mut s, p.op);
    push_str(&mut s, " ");
    push_dec_i64(&mut s, p.num2 as i64);
    push_str(&mut s, " = ");
    let d = chars_of(dc_line);
    let t = trim_chars(&d);
    let ts = string_of(&t);
    push_str(&mut s, ts.as_str());
    proof {
        reveal_strlit(" ");
        reveal_strlit(" = ");
    }
    s
}

/// The program sent to `dc` is postfix with the operands in the order
/// they were typed, whatever the operator: the first number, a newline,
/// the second number, a newline, the operator, then `p` to print. So two
/// problems with the same numbers differ only in the operator's character.
pub proof fn law_dc_program_keeps_operand_order(num1: i32, op: char, num2: i32, op2: char)
    ensures
        dc_request_text(num1, op, num2) == dec_int(num1 as int) + "\n"@ + dec_int(num2 as int)
            + "\n"@ + seq![op] + "\np\n"@,
        dc_request_text(num1, op, num2).take(dec_int(num1 as int).len() as int) == dec_int(
            num1 as int,
        ),
        dc_request_text(num1, op2, num2) == dc_request_text(num1, op, num2).update(
            (dec_int(num1 as int).len() + dec_int(num2 as int).len() + 2) as int,
            op2,
        ),
{
    reveal_strlit("\n");
    reveal_strlit("\np\n");
    let a = dec_int(num1 as int);
    let b = dec_int(num2 as int);
    let t = dc_request_text(num1, op, num2);
    assert(t.take(a.len() as int) =~= a);
    assert(dc_request_text(num1, op2, num2) =~= t.update((a.len() + b.len() + 2) as int, op2));
}

} // verus!
