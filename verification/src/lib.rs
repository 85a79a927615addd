//! An arithmetic calculator.
//!
//! Allowed operators: `+` `-` `*` `/` `(` `)`; numeric literals may be
//! written in decimal, binary (`0b`), octal (`0o`) or hexadecimal (`0x`),
//! with `_` separators.
//!
//! The calculator works in three steps:
//! * the lexer turns one line of input into tokens,
//! * a top-down parser turns the tokens into an abstract syntax tree,
//! * a generator folds the tree into a numeric result.
//!
//! Each step carries a contract that pins down its result: the lexer and
//! parser against spec-level models of the lexical and syntactic grammar,
//! the integer generator against a mathematical evaluation function.

pub mod generator;
pub mod lexer;
pub mod parser;

use crate::generator::calculator::EvalFault;
use crate::generator::calculator::Evaluation;
use crate::generator::calculator::int_outcome;
use crate::generator::calculator::lemma_shape_ops_valid;
use crate::lexer::scan_error_message;
use crate::lexer::spec_lex;
use crate::parser::ast::Expr;
use crate::parser::ast::is_expr_shape;
use crate::parser::ast::tokens_of;
use crate::parser::top_down_parser::spec_expr;
use crate::parser::top_down_parser::syntax_error_message;
use vstd::prelude::*;

verus! {

/// Use the lexer, the top-down parser and the integer generator in turn
/// on one line of input.
///
/// The outer result reports what lexing or parsing rejected, with exactly
/// the message those stages give. The inner result separates a computed
/// value (with its truncation flag) from an evaluation fault — division
/// by zero, or a value outside the `i128` range — which the caller may
/// treat as fatal. The tree the value comes from is the well-shaped
/// parse of the input's tokens.
pub fn calculator(expr: &str) -> (r: Result<Result<Evaluation, EvalFault>, String>)
    ensures
        spec_lex(expr@) matches Err(le) ==> r is Err && r->Err_0@ == scan_error_message(le),
        (spec_lex(expr@) matches Ok(toks) ==> match spec_expr(toks, 0) {
            Err(pe) => r is Err && r->Err_0@ == syntax_error_message(pe),
            Ok(j) => {
                if j == toks.len() {
                    r is Ok && (exists|root: Expr|
                        #[trigger] is_expr_shape(root) && tokens_of(root) == toks && r->Ok_0
                            == int_outcome(root))
                } else {
                    r is Err && r->Err_0@ == "Invalid expression"@
                }
            },
        }),
{
    let tokens = match lexer::lexer(expr) {
        Ok(t) => t,
        Err(m) => {
            return Err(m);
        },
    };
    let ghost toks = tokens@;
    let ast = match parser::top_down_parser::parse(tokens) {
        Ok(a) => a,
        Err(m) => {
            return Err(m);
        },
    };
    proof {
        lemma_shape_ops_valid(ast.root);
    }
    let out = generator::calculator::try_calculate(&ast);
    proof {
        assert(is_expr_shape(ast.root) && tokens_of(ast.root) == toks && out == int_outcome(
            ast.root,
        ));
    }
    Ok(out)
}

} // verus!
