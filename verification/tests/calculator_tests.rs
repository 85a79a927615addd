use wcal::generator::calculator;
use wcal::generator::calculator::EvalFault;
use wcal::generator::calculator::Evaluation;
use wcal::lexer::Token;
use wcal::parser::ast::AST;
use wcal::parser::ast::BinOp;
use wcal::parser::ast::Expr;
use wcal::parser::ast::Neg;
use wcal::parser::ast::Number;
use wcal::parser::ast::Pair;

/// Floating-point evaluation of the same trees, with IEEE-754 division
/// semantics; the library keeps its integer generator, this mirror stands
/// in for the floating-point one the binary ships.
fn calculate_f(e: &Expr) -> f64 {
    match e {
        Expr::Pair(p) => calculate_f(&p.expr),
        Expr::BinOp(b) => {
            let lval = calculate_f(&b.lhs);
            let rval = calculate_f(&b.rhs);
            match b.op {
                Token::Plus => lval + rval,
                Token::Minus => lval - rval,
                Token::Times => lval * rval,
                Token::Division => lval / rval,
                _ => panic!("Unknown operator"),
            }
        }
        Expr::Neg(n) => -calculate_f(&n.expr),
        Expr::Num(n) => n.num as f64,
    }
}

#[test]
fn calculator_test_num() {
    let res = calculator::calculate(AST { root: Number::new(3) });
    assert_eq!(res, 3);
}

#[test]
fn calculator_test_add() {
    let res = calculator::calculate(AST {
        root: BinOp::new(Number::new(1), Number::new(2), Token::Plus),
    });
    assert_eq!(res, 3);
}

#[test]
fn calculator_test_minus() {
    let res = calculator::calculate(AST {
        root: BinOp::new(Number::new(1), Number::new(2), Token::Minus),
    });
    assert_eq!(res, -1);
}

#[test]
fn calculator_test_times() {
    let res = calculator::calculate(AST {
        root: BinOp::new(Number::new(1), Number::new(2), Token::Times),
    });
    assert_eq!(res, 2);
}

#[test]
fn calculator_test_division() {
    let res = calculator::calculate(AST {
        root: BinOp::new(Number::new(4), Number::new(2), Token::Division),
    });
    assert_eq!(res, 2);
}

#[test]
fn calculator_test_division_cast() {
    let res = calculator::calculate(AST {
        root: BinOp::new(Number::new(3), Number::new(2), Token::Division),
    });
    assert_eq!(res, 1);
}

#[test]
fn calculator_test_division_zero_faults() {
    let ast = AST { root: BinOp::new(Number::new(3), Number::new(0), Token::Division) };
    let res = calculator::try_calculate(&ast);
    assert_eq!(res, Err(EvalFault::DivisionByZero));
}

#[test]
fn calculator_test_neg() {
    // -3
    let res = calculator::calculate(AST { root: Neg::new(Number::new(3)) });
    assert_eq!(res, -3);
    // --3
    let res = calculator::calculate(AST { root: Neg::new(Neg::new(Number::new(3))) });
    assert_eq!(res, 3);
    // --3---3
    let res = calculator::calculate(AST {
        root: BinOp::new(
            Neg::new(Neg::new(Number::new(3))),
            Neg::new(Neg::new(Number::new(3))),
            Token::Minus,
        ),
    });
    assert_eq!(res, 0);
}

#[test]
fn calculator_test_pair() {
    // (3)
    let res = calculator::calculate(AST { root: Pair::new(Number::new(3)) });
    assert_eq!(res, 3);
    // ((3))
    let res = calculator::calculate(AST { root: Pair::new(Pair::new(Number::new(3))) });
    assert_eq!(res, 3);
}

#[test]
fn calculator_test_truncation_flag() {
    let ast = AST { root: BinOp::new(Number::new(7), Number::new(2), Token::Division) };
    let res = calculator::try_calculate(&ast);
    assert_eq!(res, Ok(Evaluation { value: 3, truncated: true }));

    let ast = AST { root: BinOp::new(Number::new(12), Number::new(3), Token::Division) };
    let res = calculator::try_calculate(&ast);
    assert_eq!(res, Ok(Evaluation { value: 4, truncated: false }));
}

#[test]
fn calculator_test_overflow_faults() {
    // 2^63 * 2^63 * 2^63 leaves the i128 range.
    let big = 0x8000_0000_0000_0000u64;
    let ast = AST {
        root: BinOp::new(
            BinOp::new(Number::new(big), Number::new(big), Token::Times),
            Number::new(big),
            Token::Times,
        ),
    };
    let res = calculator::try_calculate(&ast);
    assert_eq!(res, Err(EvalFault::Overflow));
}

#[test]
fn calculator_f_test_num() {
    let res = calculate_f(&Number::new(3));
    assert_eq!(res, 3f64);
}

#[test]
fn calculator_f_test_add() {
    let res = calculate_f(&BinOp::new(Number::new(1), Number::new(2), Token::Plus));
    assert_eq!(res, 3f64);
}

#[test]
fn calculator_f_test_minus() {
    let res = calculate_f(&BinOp::new(Number::new(1), Number::new(2), Token::Minus));
    assert_eq!(res, -1f64);
}

#[test]
fn calculator_f_test_times() {
    let res = calculate_f(&BinOp::new(Number::new(1), Number::new(2), Token::Times));
    assert_eq!(res, 2f64);
}

#[test]
fn calculator_f_test_division() {
    let res = calculate_f(&BinOp::new(Number::new(4), Number::new(2), Token::Division));
    assert_eq!(res, 2f64);
}

#[test]
fn calculator_f_test_division_cast() {
    let res = calculate_f(&BinOp::new(Number::new(3), Number::new(2), Token::Division));
    assert_eq!(res, 1.5f64);
}

#[test]
fn calculator_f_test_division_zero() {
    let res = calculate_f(&BinOp::new(Number::new(3), Number::new(0), Token::Division));
    assert_eq!(res, f64::INFINITY);
}

#[test]
fn calculator_f_test_neg() {
    // -3
    let res = calculate_f(&Neg::new(Number::new(3)));
    assert_eq!(res, -3f64);
    // --3
    let res = calculate_f(&Neg::new(Neg::new(Number::new(3))));
    assert_eq!(res, 3f64);
    // --3---3
    let res = calculate_f(&BinOp::new(
        Neg::new(Neg::new(Number::new(3))),
        Neg::new(Neg::new(Number::new(3))),
        Token::Minus,
    ));
    assert_eq!(res, 0f64);
}

#[test]
fn calculator_f_test_pair() {
    // (3)
    let res = calculate_f(&Pair::new(Number::new(3)));
    assert_eq!(res, 3f64);
    // ((3))
    let res = calculate_f(&Pair::new(Pair::new(Number::new(3))));
    assert_eq!(res, 3f64);
}
