//! Evaluation: an expression tree becomes a 32-bit signed integer.
//!
//! A leaf evaluates to the base-10 signed integer its atom text denotes. A
//! group applies its first child, which must be an atom holding a recognized
//! operator symbol, to the remaining children, evaluated left to right:
//! `+` sums its operands (zero operands yield 0), `-` subtracts every later
//! operand from the first and demands at least one operand. Every
//! accumulation step is checked against the `i32` range and fails with
//! [`EvalError::ArithmeticOverflow`] rather than wrapping.

use vstd::prelude::*;
use vstd::string::StrSliceExecFns;

use crate::ast::Ast;
use crate::ast::AstModel;
use crate::ast::BuildOutcome;
use crate::ast::build_spec;
use crate::ast::models_of;
use crate::tokens::scan_spec;
use crate::tokens::Token;
use crate::tokens::TokenModel;

verus! {

/// Failure of evaluation.
#[derive(Debug, PartialEq, Eq)]
pub enum EvalError {
    /// A group's first child is missing, is itself a group, or is an atom
    /// whose text is not a recognized operator symbol.
    InvalidOperator,
    /// `-` received zero operands.
    MissingOperand,
    /// An operand atom's text does not denote an integer in the `i32` range.
    NotANumber,
    /// An accumulation step left the `i32` range.
    ArithmeticOverflow,
}

/// A base-10 digit.
pub open spec fn is_ascii_digit(c: char) -> bool {
    '0' as int <= c as int <= '9' as int
}

/// The value of a base-10 digit.
pub open spec fn digit_value(c: char) -> int {
    c as int - '0' as int
}

/// Whether every character of `s` is a base-10 digit.
pub open spec fn all_digits(s: Seq<char>) -> bool {
    forall|i: int| 0 <= i < s.len() ==> is_ascii_digit(#[trigger] s[i])
}

/// The non-negative value denoted by a digit string, most significant first.
pub open spec fn digits_value(s: Seq<char>) -> int
    decreases s.len(),
{
    if s.len() == 0 {
        0
    } else {
        digits_value(s.drop_last()) * 10 + digit_value(s.last())
    }
}

/// The signed base-10 integer that a piece of text denotes: an optional
/// leading sign followed by at least one digit and nothing else. `None`
/// when the text has any other shape.
pub open spec fn parse_int_spec(text: Seq<char>) -> Option<int> {
    if text.len() > 0 && (text[0] == '-' || text[0] == '+') {
        if text.len() > 1 && all_digits(text.skip(1)) {
            if text[0] == '-' {
                Some(-digits_value(text.skip(1)))
            } else {
                Some(digits_value(text.skip(1)))
            }
        } else {
            None
        }
    } else if text.len() > 0 && all_digits(text) {
        Some(digits_value(text))
    } else {
        None
    }
}

/// A digit string denotes a non-negative value.
proof fn lemma_digits_value_nonneg(s: Seq<char>)
    requires
        all_digits(s),
    ensures
        digits_value(s) >= 0,
    decreases s.len(),
{
    if s.len() > 0 {
        assert(all_digits(s.drop_last())) by {
            assert(forall|i: int| 0 <= i < s.len() - 1 ==> s.drop_last()[i] == s[i]);
        }
        lemma_digits_value_nonneg(s.drop_last());
        assert(is_ascii_digit(s.last()));
    }
}

/// Taking one more digit multiplies the value by ten and adds that digit,
/// so the value never shrinks as digits are taken.
proof fn lemma_digits_value_extend(s: Seq<char>, i: int)
    requires
        0 < i <= s.len(),
        all_digits(s.take(i - 1)),
        is_ascii_digit(s[i - 1]),
    ensures
        digits_value(s.take(i)) == digits_value(s.take(i - 1)) * 10 + digit_value(s[i - 1]),
        digits_value(s.take(i)) >= digits_value(s.take(i - 1)),
{
    assert(s.take(i).drop_last() =~= s.take(i - 1));
    assert(s.take(i).last() == s[i - 1]);
    lemma_digits_value_nonneg(s.take(i - 1));
}

/// Parses atom text as a base-10 signed integer, as the evaluator reads an
/// operand: `Some` exactly when the text denotes an integer that fits in
/// `i32`, and then that integer.
pub fn parse_atom_value(text: &str) -> (r: Option<i32>)
    ensures
        match parse_int_spec(text@) {
            Some(v) => if i32::MIN as int <= v <= i32::MAX as int {
                r == Some(v as i32)
            } else {
                r is None
            },
            None => r is None,
        },
{
    let length = text.unicode_len();
    let mut start: usize = 0;
    let mut negative = false;
    if length > 0 {
        let c0 = text.get_char(0);
        if c0 == '-' {
            negative = true;
            start = 1;
        } else if c0 == '+' {
            start = 1;
        }
    }
    if start >= length {
        // the empty text, or a bare sign with no digits
        return None;
    }
    let ghost digits = text@.skip(start as int);
    proof {
        if start == 0 {
            assert(digits =~= text@);
        }
    }
    // The magnitude so far, tracked exactly while it can still fit an i32;
    // once it passes 2^31 only the fact that it stays too large matters.
    let mut magnitude: u64 = 0;
    let mut i: usize = start;
    proof {
        assert(digits.take(0) =~= Seq::<char>::empty());
    }
    while i < length
        invariant
            start <= i <= length,
            start < length,
            length == text@.len(),
            negative <==> (text@.len() > 0 && text@[0] == '-'),
            start == (if text@.len() > 0 && (text@[0] == '-' || text@[0] == '+') {
                1int
            } else {
                0int
            }),
            digits == text@.skip(start as int),
            all_digits(digits.take(i - start)),
            digits_value(digits.take(i - start)) <= 0x8000_0000 ==> magnitude == digits_value(
                digits.take(i - start),
            ),
            digits_value(digits.take(i - start)) > 0x8000_0000 ==> 0x8000_0000 < magnitude
                <= digits_value(digits.take(i - start)),
        decreases length - i,
    {
        let c = text.get_char(i);
        let code = c as u32;
        proof {
            assert(digits[i - start] == text@[i as int]);
        }
        if code < 48 || code > 57 {
            // a non-digit after the optional sign: the text denotes nothing
            proof {
                assert(!is_ascii_digit(digits[i - start]));
                assert(!all_digits(digits));
            }
            return None;
        }
        let d = (code - 48) as u64;
        proof {
            lemma_digits_value_extend(digits, i - start + 1);
            assert(digits.take(i - start + 1).take(i - start) =~= digits.take(i - start));
        }
        if magnitude <= 0x8000_0000 {
            magnitude = magnitude * 10 + d;
        }
        i = i + 1;
    }
    proof {
        assert(digits.take(i - start) =~= digits);
    }
    let limit: u64 = if negative {
        0x8000_0000
    } else {
        0x7fff_ffff
    };
    if magnitude > limit {
        // the digits denote a value outside the i32 range
        return None;
    }
    if negative {
        Some((-(magnitude as i64)) as i32)
    } else {
        Some(magnitude as i32)
    }
}


/// The value or error that evaluating an expression yields. A leaf is its
/// atom text read as an `i32`; a group applies its operator, `+` or `-`,
/// to its operands, evaluated left to right.
pub open spec fn eval_spec(node: AstModel) -> Result<int, EvalError>
    decreases node,
{
    match node {
        AstModel::Atom(token) => match token {
            TokenModel::Atom(text) => match parse_int_spec(text) {
                Some(v) => if i32::MIN as int <= v <= i32::MAX as int {
                    Result::Ok(v)
                } else {
                    Result::Err(EvalError::NotANumber)
                },
                None => Result::Err(EvalError::NotANumber),
            },
            _ => Result::Err(EvalError::NotANumber),
        },
        AstModel::Group(children) => {
            if children.len() == 0 {
                Result::Err(EvalError::InvalidOperator)
            } else {
                match children[0] {
                    AstModel::Atom(TokenModel::Atom(text)) => {
                        if text == seq!['+'] {
                            eval_sum(children, 1, 0)
                        } else if text == seq!['-'] {
                            if children.len() < 2 {
                                Result::Err(EvalError::MissingOperand)
                            } else {
                                match eval_spec(children[1]) {
                                    Result::Ok(first) => eval_diff(children, 2, first),
                                    Result::Err(e) => Result::Err(e),
                                }
                            }
                        } else {
                            Result::Err(EvalError::InvalidOperator)
                        }
                    },
                    _ => Result::Err(EvalError::InvalidOperator),
                }
            }
        },
    }
}

/// `acc` plus the operands from position `i` on, left to right, each
/// step checked against the `i32` range.
pub open spec fn eval_sum(children: Seq<AstModel>, i: int, acc: int) -> Result<int, EvalError>
    decreases children, children.len() - i,
{
    if i < 0 || i >= children.len() {
        Result::Ok(acc)
    } else {
        match eval_spec(children[i]) {
            Result::Ok(v) => if i32::MIN as int <= acc + v <= i32::MAX as int {
                eval_sum(children, i + 1, acc + v)
            } else {
                Result::Err(EvalError::ArithmeticOverflow)
            },
            Result::Err(e) => Result::Err(e),
        }
    }
}

/// `acc` minus the operands from position `i` on, left to right, each
/// step checked against the `i32` range.
pub open spec fn eval_diff(children: Seq<AstModel>, i: int, acc: int) -> Result<int, EvalError>
    decreases children, children.len() - i,
{
    if i < 0 || i >= children.len() {
        Result::Ok(acc)
    } else {
        match eval_spec(children[i]) {
            Result::Ok(v) => if i32::MIN as int <= acc - v <= i32::MAX as int {
                eval_diff(children, i + 1, acc - v)
            } else {
                Result::Err(EvalError::ArithmeticOverflow)
            },
            Result::Err(e) => Result::Err(e),
        }
    }
}

/// Relates an executable evaluation result to the value the model demands.
pub open spec fn eval_matches(r: Result<i32, EvalError>, v: Result<int, EvalError>) -> bool {
    match r {
        Result::Ok(n) => v == Result::<int, EvalError>::Ok(n as int),
        Result::Err(e) => v == Result::<int, EvalError>::Err(e),
    }
}

/// Whether the text is exactly the one given character.
fn is_single_char(text: &String, c: char) -> (b: bool)
    ensures
        b == (text@ == seq![c]),
{
    if text.as_str().unicode_len() == 1 {
        let got = text.as_str().get_char(0);
        if got == c {
            proof {
                assert(text@ =~= seq![c]);
            }
            true
        } else {
            proof {
                assert(seq![c][0] == c);
            }
            false
        }
    } else {
        proof {
            assert(seq![c].len() == 1);
        }
        false
    }
}

/// Evaluates one expression tree.
fn eval_node(node: &Ast) -> (r: Result<i32, EvalError>)
    ensures
        eval_matches(r, eval_spec(node.model())),
    decreases node,
{
    match node {
        Ast::Atom(token) => match token {
            Token::Atom(text) => match parse_atom_value(text.as_str()) {
                Some(v) => Ok(v),
                None => Err(EvalError::NotANumber),
            },
            _ => Err(EvalError::NotANumber),
        },
        Ast::Group(children) => {
            if children.len() == 0 {
                return Err(EvalError::InvalidOperator);
            }
            let ghost cs = models_of(children@);
            proof {
                assert(node.model() == AstModel::Group(cs));
            }
            let operator = &children[0];
            match operator {
                Ast::Group(_) => Err(EvalError::InvalidOperator),
                Ast::Atom(token) => match token {
                    Token::Atom(text) => {
                        if is_single_char(text, '+') {
                            let mut sum: i32 = 0;
                            let mut k: usize = 1;
                            proof {
                                assert(eval_spec(node.model()) == eval_sum(cs, 1, 0));
                            }
                            while k < children.len()
                                invariant
                                    1 <= k <= children@.len(),
                                    *node == Ast::Group(*children),
                                    cs == models_of(children@),
                                    eval_spec(node.model()) == eval_sum(cs, 1, 0),
                                    eval_sum(cs, k as int, sum as int) == eval_sum(cs, 1, 0),
                                decreases children@.len() - k,
                            {
                                let v = match eval_node(&children[k]) {
                                    Ok(v) => v,
                                    Err(e) => {
                                        return Err(e);
                                    },
                                };
                                let next: i64 = sum as i64 + v as i64;
                                if next < -0x8000_0000i64 || next > 0x7fff_ffffi64 {
                                    return Err(EvalError::ArithmeticOverflow);
                                }
                                sum = next as i32;
                                k = k + 1;
                            }
                            Ok(sum)
                        } else if is_single_char(text, '-') {
                            if children.len() < 2 {
                                return Err(EvalError::MissingOperand);
                            }
                            let first = match eval_node(&children[1]) {
                                Ok(v) => v,
                                Err(e) => {
                                    return Err(e);
                                },
                            };
                            let mut acc: i32 = first;
                            let mut k: usize = 2;
                            proof {
                                assert(eval_spec(node.model()) == eval_diff(cs, 2, first as int));
                            }
                            while k < children.len()
                                invariant
                                    2 <= k <= children@.len(),
                                    *node == Ast::Group(*children),
                                    cs == models_of(children@),
                                    eval_spec(node.model()) == eval_diff(cs, 2, first as int),
                                    eval_diff(cs, k as int, acc as int) == eval_diff(
                                        cs,
                                        2,
                                        first as int,
                                    ),
                                decreases children@.len() - k,
                            {
                                let v = match eval_node(&children[k]) {
                                    Ok(v) => v,
                                    Err(e) => {
                                        return Err(e);
                                    },
                                };
                                let next: i64 = acc as i64 - v as i64;
                                if next < -0x8000_0000i64 || next > 0x7fff_ffffi64 {
                                    return Err(EvalError::ArithmeticOverflow);
                                }
                                acc = next as i32;
                                k = k + 1;
                            }
                            Ok(acc)
                        } else {
                            Err(EvalError::InvalidOperator)
                        }
                    },
                    _ => Err(EvalError::InvalidOperator),
                },
            }
        },
    }
}

pub trait Interpreter {
    /// The value or error that evaluation must yield for this expression.
    spec fn eval_model(&self) -> Result<int, EvalError>;

    /// Evaluates the expression to a 32-bit signed integer, or reports why
    /// it has none.
    fn interpret(&self) -> (r: Result<i32, EvalError>)
        ensures
            eval_matches(r, self.eval_model()),
    ;
}

impl Interpreter for Ast {
    open spec fn eval_model(&self) -> Result<int, EvalError> {
        eval_spec(self.model())
    }

    fn interpret(&self) -> (r: Result<i32, EvalError>) {
        eval_node(self)
    }
}


/// The pipeline is deterministic. Scanning, tree building and evaluation
/// are functions of the input text alone: equal texts scan to equal token
/// sequences, build equal outcomes, and, root for root, evaluate to equal
/// results.
pub proof fn lemma_pipeline_deterministic(first: Seq<char>, second: Seq<char>)
    requires
        first == second,
    ensures
        scan_spec(first) == scan_spec(second),
        build_spec(scan_spec(first)) == build_spec(scan_spec(second)),
        build_spec(scan_spec(first)) matches BuildOutcome::Roots(roots) ==> (build_spec(
            scan_spec(second),
        ) matches BuildOutcome::Roots(others) && roots == others && forall|i: int|
            0 <= i < roots.len() ==> eval_spec(roots[i]) == eval_spec(#[trigger] others[i])),
{
}

} // verus!
