//! Convert the expression AST to `i128`
//!
//! Division truncates toward zero; when that loses precision the result
//! carries a flag in place of a printed warning, and the caller decides
//! what to show. Division by zero, and a result outside the `i128` range,
//! are faults: no value is produced for them.
//!
//! The evaluation contract is stated against [`eval_int`], the exact
//! mathematical value of a tree, and [`eval_fault`], which fixes which
//! fault (if any) an evaluation runs into and in which order faults are
//! found.

use crate::lexer::Token;
use crate::parser::ast::AST;
use crate::parser::ast::Expr;
use vstd::math::abs;
use vstd::prelude::*;

verus! {

/// Truncating division, as machine division computes it: the quotient of
/// the magnitudes, with a negative sign when exactly one operand is
/// negative. Only meaningful for `b != 0`.
pub open spec fn tdiv(a: int, b: int) -> int {
    if a == 0 {
        0
    } else if (a < 0) == (b < 0) {
        abs(a) as int / abs(b) as int
    } else {
        -(abs(a) as int / abs(b) as int)
    }
}

/// Whether truncating division loses precision: the divisor does not
/// divide the dividend evenly.
pub open spec fn div_truncates(a: int, b: int) -> bool {
    abs(a) as int % abs(b) as int != 0
}

/// Every operator in the tree is one of `+` `-` `*` `/`. The parser only
/// builds such trees; any other token in an operator position would be a
/// contract violation, which the original treats as fatal.
pub open spec fn ops_valid(e: Expr) -> bool
    decreases e,
{
    match e {
        Expr::Num(_) => true,
        Expr::Pair(p) => ops_valid(*p.expr),
        Expr::Neg(n) => ops_valid(*n.expr),
        Expr::BinOp(b) => (b.op == Token::Plus || b.op == Token::Minus || b.op == Token::Times
            || b.op == Token::Division) && ops_valid(*b.lhs) && ops_valid(*b.rhs),
    }
}

/// The exact mathematical value of a tree, over unbounded integers.
pub open spec fn eval_int(e: Expr) -> int
    decreases e,
{
    match e {
        Expr::Num(n) => n.num as int,
        Expr::Pair(p) => eval_int(*p.expr),
        Expr::Neg(n) => -eval_int(*n.expr),
        Expr::BinOp(b) => {
            let l = eval_int(*b.lhs);
            let r = eval_int(*b.rhs);
            if b.op == Token::Plus {
                l + r
            } else if b.op == Token::Minus {
                l - r
            } else if b.op == Token::Times {
                l * r
            } else if b.op == Token::Division {
                tdiv(l, r)
            } else {
                0
            }
        },
    }
}

/// A condition that stops an integer evaluation without a result.
#[derive(Debug, PartialEq, Eq, Structural, Clone, Copy)]
pub enum EvalFault {
    /// The right operand of a `/` evaluated to zero.
    DivisionByZero,
    /// An intermediate value left the `i128` range.
    Overflow,
}

pub open spec fn in_i128(v: int) -> bool {
    i128::MIN <= v <= i128::MAX
}

/// The first fault an evaluation of `e` runs into, if any: subtrees are
/// evaluated left before right, and each node checks division by zero
/// before its own result.
pub open spec fn eval_fault(e: Expr) -> Option<EvalFault>
    decreases e,
{
    match e {
        Expr::Num(_) => None,
        Expr::Pair(p) => eval_fault(*p.expr),
        Expr::Neg(n) => match eval_fault(*n.expr) {
            Some(f) => Some(f),
            None => {
                if in_i128(-eval_int(*n.expr)) {
                    None
                } else {
                    Some(EvalFault::Overflow)
                }
            },
        },
        Expr::BinOp(b) => match eval_fault(*b.lhs) {
            Some(f) => Some(f),
            None => match eval_fault(*b.rhs) {
                Some(f) => Some(f),
                None => {
                    let r = eval_int(*b.rhs);
                    if b.op == Token::Division && r == 0 {
                        Some(EvalFault::DivisionByZero)
                    } else if in_i128(eval_int(e)) {
                        None
                    } else {
                        Some(EvalFault::Overflow)
                    }
                },
            },
        },
    }
}

/// Whether a fault-free evaluation of `e` meets a truncating division
/// somewhere, and so deserves a warning.
pub open spec fn has_truncation(e: Expr) -> bool
    decreases e,
{
    match e {
        Expr::Num(_) => false,
        Expr::Pair(p) => has_truncation(*p.expr),
        Expr::Neg(n) => has_truncation(*n.expr),
        Expr::BinOp(b) => has_truncation(*b.lhs) || has_truncation(*b.rhs) || (b.op
            == Token::Division && eval_int(*b.rhs) != 0 && div_truncates(
            eval_int(*b.lhs),
            eval_int(*b.rhs),
        )),
    }
}

/// A completed integer evaluation: the value, and whether some division
/// on the way truncated.
#[derive(Debug, PartialEq, Eq, Structural, Clone, Copy)]
pub struct Evaluation {
    pub value: i128,
    pub truncated: bool,
}

#[verifier::rlimit(60)]
fn eval_expr(e: &Expr) -> (r: Result<Evaluation, EvalFault>)
    requires
        ops_valid(*e),
    ensures
        eval_fault(*e) is None ==> r is Ok && r->Ok_0.value == eval_int(*e) && r->Ok_0.truncated
            == has_truncation(*e),
        eval_fault(*e) matches Some(f) ==> r is Err && r->Err_0 == f,
    decreases *e,
{
    match e {
        Expr::Num(n) => Ok(Evaluation { value: n.num as i128, truncated: false }),
        Expr::Pair(p) => eval_expr(&p.expr),
        Expr::Neg(n) => {
            let inner = match eval_expr(&n.expr) {
                Ok(v) => v,
                Err(f) => {
                    return Err(f);
                },
            };
            match (0i128).checked_sub(inner.value) {
                Some(v) => Ok(Evaluation { value: v, truncated: inner.truncated }),
                None => Err(EvalFault::Overflow),
            }
        },
        Expr::BinOp(b) => {
            let lhs = match eval_expr(&b.lhs) {
                Ok(v) => v,
                Err(f) => {
                    return Err(f);
                },
            };
            let rhs = match eval_expr(&b.rhs) {
                Ok(v) => v,
                Err(f) => {
                    return Err(f);
                },
            };
            let truncated = lhs.truncated || rhs.truncated;
            match b.op {
                Token::Plus => match lhs.value.checked_add(rhs.value) {
                    Some(v) => Ok(Evaluation { value: v, truncated }),
                    None => Err(EvalFault::Overflow),
                },
                Token::Minus => match lhs.value.checked_sub(rhs.value) {
                    Some(v) => Ok(Evaluation { value: v, truncated }),
                    None => Err(EvalFault::Overflow),
                },
                Token::Times => match lhs.value.checked_mul(rhs.value) {
                    Some(v) => Ok(Evaluation { value: v, truncated }),
                    None => Err(EvalFault::Overflow),
                },
                Token::Division => {
                    if rhs.value == 0 {
                        return Err(EvalFault::DivisionByZero);
                    }
                    proof {
                        let x = lhs.value as int;
                        let d = rhs.value as int;
                        assert(tdiv(x, d) == (if x == 0 {
                            0int
                        } else if x > 0 && d > 0 {
                            x / d
                        } else if x < 0 && d < 0 {
                            (x * -1) / (d * -1)
                        } else if x < 0 {
                            ((x * -1) / d) * -1
                        } else {
                            (x / (d * -1)) * -1
                        }));
                        assert(div_truncates(x, d) == ((if x == 0 {
                            0int
                        } else if x > 0 && d > 0 {
                            x % d
                        } else if x < 0 && d < 0 {
                            ((x * -1) % (d * -1)) * -1
                        } else if x < 0 {
                            ((x * -1) % d) * -1
                        } else {
                            x % (d * -1)
                        }) != 0));
                    }
                    match lhs.value.checked_rem(rhs.value) {
                        Some(rem) => match lhs.value.checked_div(rhs.value) {
                            Some(q) => Ok(
                                Evaluation { value: q, truncated: truncated || rem != 0 },
                            ),
                            None => Err(EvalFault::Overflow),
                        },
                        // Only `i128::MIN / -1`, whose quotient overflows.
                        None => {
                            proof {
                                let x = lhs.value as int;
                                assert(abs(x) as int / 1int == abs(x) as int) by (nonlinear_arith);
                                assert(eval_fault(*e) == Some(EvalFault::Overflow));
                            }
                            Err(EvalFault::Overflow)
                        },
                    }
                },
                // Excluded by `ops_valid`.
                _ => {
                    proof {
                        assert(false);
                    }
                    Err(EvalFault::Overflow)
                },
            }
        },
    }
}

/// Decides [`ops_valid`] at run time, so an unverified caller can test a
/// tree it did not get from the parser before evaluating it.
pub fn ops_supported(e: &Expr) -> (r: bool)
    ensures
        r == ops_valid(*e),
    decreases *e,
{
    match e {
        Expr::Num(_) => true,
        Expr::Pair(p) => ops_supported(&p.expr),
        Expr::Neg(n) => ops_supported(&n.expr),
        Expr::BinOp(b) => {
            let op_ok = b.op == Token::Plus || b.op == Token::Minus || b.op == Token::Times || b.op
                == Token::Division;
            op_ok && ops_supported(&b.lhs) && ops_supported(&b.rhs)
        },
    }
}

/// The outcome an integer evaluation of `e` settles on: its value and
/// truncation flag, or the fault that stops it.
pub open spec fn int_outcome(e: Expr) -> Result<Evaluation, EvalFault> {
    match eval_fault(e) {
        Some(f) => Err(f),
        None => Ok(Evaluation { value: eval_int(e) as i128, truncated: has_truncation(e) }),
    }
}

/// Evaluates the tree, reporting the fault instead of aborting when the
/// evaluation divides by zero or leaves the `i128` range. The result says
/// whether a truncating division happened, so the caller can warn.
pub fn try_calculate(ast: &AST) -> (r: Result<Evaluation, EvalFault>)
    requires
        ops_valid(ast.root),
    ensures
        r == int_outcome(ast.root),
{
    let r = eval_expr(&ast.root);
    proof {
        if eval_fault(ast.root) is None {
            assert(in_i128(eval_int(ast.root)));
        }
    }
    r
}

/// Calculate the expression's AST to `i128`
pub fn calculate(ast: AST) -> (r: i128)
    requires
        ops_valid(ast.root),
        eval_fault(ast.root) is None,
    ensures
        r == eval_int(ast.root),
{
    match eval_expr(&ast.root) {
        Ok(v) => v.value,
        // Excluded by the caller's obligation that no fault occurs.
        Err(_) => 0,
    }
}

impl AST {
    /// Calculate the result from the AST.
    pub fn calculate(&self) -> (r: i128)
        requires
            ops_valid(self.root),
            eval_fault(self.root) is None,
        ensures
            r == eval_int(self.root),
    {
        match eval_expr(&self.root) {
            Ok(v) => v.value,
            // Excluded by the caller's obligation that no fault occurs.
            Err(_) => 0,
        }
    }
}

// ---------------------------------------------------------------------------
// Laws of evaluation
// ---------------------------------------------------------------------------

/// Shaped trees carry only arithmetic operators: whatever [`parse`]
/// accepts, the evaluators take without a contract violation.
///
/// [`parse`]: crate::parser::top_down_parser::parse
pub proof fn lemma_shape_ops_valid(e: Expr)
    ensures
        crate::parser::ast::is_expr_shape(e) ==> ops_valid(e),
        crate::parser::ast::is_term_shape(e) ==> ops_valid(e),
        crate::parser::ast::is_factor_shape(e) ==> ops_valid(e),
    decreases e,
{
    reveal_with_fuel(crate::parser::ast::is_expr_shape, 4);
    reveal_with_fuel(crate::parser::ast::is_term_shape, 4);
    reveal_with_fuel(crate::parser::ast::is_factor_shape, 4);
    match e {
        Expr::Num(_) => {},
        Expr::Pair(p) => {
            lemma_shape_ops_valid(*p.expr);
        },
        Expr::Neg(n) => {
            lemma_shape_ops_valid(*n.expr);
        },
        Expr::BinOp(b) => {
            lemma_shape_ops_valid(*b.lhs);
            lemma_shape_ops_valid(*b.rhs);
        },
    }
}

} // verus!
