use wcal::lexer;
use wcal::lexer::Token;
use wcal::parser::ast::AST;
use wcal::parser::ast::BinOp;
use wcal::parser::ast::Expr;
use wcal::parser::ast::Neg;
use wcal::parser::ast::Number;
use wcal::parser::ast::Pair;
use wcal::parser::top_down_parser::parse;

/// Floating-point evaluation of parsed trees, with IEEE-754 division
/// semantics, standing in for the floating-point generator the binary
/// ships.
fn calculate_f(e: &Expr) -> f64 {
    match e {
        Expr::Pair(p) => calculate_f(&p.expr),
        Expr::BinOp(b) => {
            let lval = calculate_f(&b.lhs);
            let rval = calculate_f(&b.rhs);
            match b.op {
                Token::Plus => lval + rval,
                Token::Minus => lval - rval,
                Token::Times => lval * rval,
                Token::Division => lval / rval,
                _ => panic!("Unknown operator"),
            }
        }
        Expr::Neg(n) => -calculate_f(&n.expr),
        Expr::Num(n) => n.num as f64,
    }
}

#[test]
fn top_down_parser_test_add() -> Result<(), String> {
    let tokens = lexer::lexer("12+3")?;
    let ast = parse(tokens)?;
    assert_eq!(calculate_f(&ast.root), 15f64);
    assert_eq!(ast.calculate(), 15i128);
    Ok(())
}

#[test]
fn test_sub() -> Result<(), String> {
    let tokens = lexer::lexer("12-3")?;
    let ast = parse(tokens)?;
    assert_eq!(calculate_f(&ast.root), 9f64);
    assert_eq!(ast.calculate(), 9i128);
    Ok(())
}

#[test]
fn top_down_parser_test_times() -> Result<(), String> {
    let tokens = lexer::lexer("12*3")?;
    let ast = parse(tokens)?;
    assert_eq!(calculate_f(&ast.root), 36f64);
    assert_eq!(ast.calculate(), 36i128);
    Ok(())
}

#[test]
fn test_div() -> Result<(), String> {
    let tokens = lexer::lexer("12/3")?;
    let ast = parse(tokens)?;
    assert_eq!(calculate_f(&ast.root), 4f64);
    assert_eq!(ast.calculate(), 4i128);
    Ok(())
}

#[test]
fn test_div_cast() -> Result<(), String> {
    let tokens = lexer::lexer("7/2")?;
    let ast = parse(tokens)?;
    assert_eq!(calculate_f(&ast.root), 3.5f64);
    assert_eq!(ast.calculate(), 3i128);
    Ok(())
}

#[test]
fn top_down_parser_test_num() -> Result<(), String> {
    let tokens = lexer::lexer("12")?;
    let ast = parse(tokens)?;
    assert_eq!(calculate_f(&ast.root), 12f64);
    assert_eq!(ast.calculate(), 12i128);

    let tokens = lexer::lexer("-12")?;
    let ast = parse(tokens)?;
    assert_eq!(calculate_f(&ast.root), -12f64);
    assert_eq!(ast.calculate(), -12i128);
    Ok(())
}

#[test]
fn top_down_parser_test_pair() -> Result<(), String> {
    let tokens = lexer::lexer("(12)")?;
    let ast = parse(tokens)?;
    assert_eq!(calculate_f(&ast.root), 12f64);
    assert_eq!(ast.calculate(), 12i128);

    let tokens = lexer::lexer("(((((((12))))))+(((1))))")?;
    let ast = parse(tokens)?;
    assert_eq!(calculate_f(&ast.root), 13f64);
    assert_eq!(ast.calculate(), 13i128);
    Ok(())
}

#[test]
fn test_div_zero_f() -> Result<(), String> {
    let tokens = lexer::lexer("5/0")?;
    let ast = parse(tokens)?;
    assert_eq!(calculate_f(&ast.root), f64::INFINITY);
    Ok(())
}

#[test]
fn top_down_parser_test_neg() -> Result<(), String> {
    let tokens = lexer::lexer("-------7-------2")?;
    let ast = parse(tokens)?;
    assert_eq!(calculate_f(&ast.root), -9f64);
    assert_eq!(ast.calculate(), -9i128);

    let tokens = lexer::lexer("-------7------2")?;
    let ast = parse(tokens)?;
    assert_eq!(calculate_f(&ast.root), -5f64);
    assert_eq!(ast.calculate(), -5i128);

    let tokens = lexer::lexer("------7------2")?;
    let ast = parse(tokens)?;
    assert_eq!(calculate_f(&ast.root), 9f64);
    assert_eq!(ast.calculate(), 9i128);

    let tokens = lexer::lexer("-(1+2)")?;
    let ast = parse(tokens)?;
    assert_eq!(calculate_f(&ast.root), -3f64);
    assert_eq!(ast.calculate(), -3i128);

    Ok(())
}

#[test]
fn test_priority() -> Result<(), String> {
    let tokens = lexer::lexer("1+3*6/2-3*-1")?;
    let ast = parse(tokens)?;
    assert_eq!(ast.calculate(), 13i128);

    let tokens = lexer::lexer("1+3*6/(2-3)*-1")?;
    let ast = parse(tokens)?;
    assert_eq!(ast.calculate(), 19i128);

    Ok(())
}

#[test]
fn test_expect_num() {
    let tokens = lexer::lexer("1+").unwrap();
    let err = parse(tokens).err().unwrap();
    assert_eq!(err, "Expect number, got nothing");

    let tokens = lexer::lexer("+").unwrap();
    let err = parse(tokens).err().unwrap();
    assert_eq!(err, "Expect number, got +");

    let tokens = lexer::lexer("(").unwrap();
    let err = parse(tokens).err().unwrap();
    assert_eq!(err, "Expect number, got nothing");
}

#[test]
fn test_pair_error() {
    let tokens = lexer::lexer("(((2))").unwrap();
    let err = parse(tokens).err().unwrap();
    assert_eq!(err, "Expect ), got nothing");

    let tokens = lexer::lexer("(2)(1)").unwrap();
    let err = parse(tokens).err().unwrap();
    assert_eq!(err, "Invalid expression");

    let tokens = lexer::lexer("(())").unwrap();
    let err = parse(tokens).err().unwrap();
    assert_eq!(err, "Expect number, got )");
}

#[test]
fn test_unclosed_group_names_token() {
    let tokens = lexer::lexer("(1 2").unwrap();
    let err = parse(tokens).err().unwrap();
    assert_eq!(err, "Expect ), got 2");
}

#[test]
fn test_one_line() -> Result<(), String> {
    let tokens = lexer::lexer("1+3*6/2-3*-1\n-1*2")?;
    let ast = parse(tokens)?;
    assert_eq!(ast.calculate(), 13i128);
    Ok(())
}

#[test]
fn test_left_associative_tree() -> Result<(), String> {
    // 12-3-2 folds as (12-3)-2, never 12-(3-2).
    let tokens = lexer::lexer("12-3-2")?;
    let ast = parse(tokens)?;
    let expected = AST {
        root: BinOp::new(
            BinOp::new(Number::new(12), Number::new(3), Token::Minus),
            Number::new(2),
            Token::Minus,
        ),
    };
    assert_eq!(ast, expected);
    assert_eq!(ast.calculate(), 7i128);
    Ok(())
}

#[test]
fn test_negation_chain_tree() -> Result<(), String> {
    let tokens = lexer::lexer("---7")?;
    let ast = parse(tokens)?;
    let expected = AST { root: Neg::new(Neg::new(Neg::new(Number::new(7)))) };
    assert_eq!(ast, expected);
    assert_eq!(ast.calculate(), -7i128);
    Ok(())
}

#[test]
fn test_precedence_tree() -> Result<(), String> {
    // 1+3*6 keeps the product under the sum and evaluates to 19, not 24.
    let tokens = lexer::lexer("1+3*6")?;
    let ast = parse(tokens)?;
    let expected = AST {
        root: BinOp::new(
            Number::new(1),
            BinOp::new(Number::new(3), Number::new(6), Token::Times),
            Token::Plus,
        ),
    };
    assert_eq!(ast, expected);
    assert_eq!(ast.calculate(), 19i128);
    Ok(())
}

#[test]
fn test_grouping_tree() -> Result<(), String> {
    // The parenthesized group stays an explicit node in the tree.
    let tokens = lexer::lexer("6/(2-3)")?;
    let ast = parse(tokens)?;
    let expected = AST {
        root: BinOp::new(
            Number::new(6),
            Pair::new(BinOp::new(Number::new(2), Number::new(3), Token::Minus)),
            Token::Division,
        ),
    };
    assert_eq!(ast, expected);
    assert_eq!(ast.calculate(), -6i128);
    Ok(())
}

#[test]
fn test_evaluators_share_one_tree() -> Result<(), String> {
    // Evaluating under either interpretation, in any order, leaves the
    // tree as parsed and gives the same answers each time.
    let tokens = lexer::lexer("7/2")?;
    let ast = parse(tokens)?;
    let f1 = calculate_f(&ast.root);
    let i1 = ast.calculate();
    let f2 = calculate_f(&ast.root);
    let i2 = ast.calculate();
    assert_eq!(f1, 3.5f64);
    assert_eq!(f2, 3.5f64);
    assert_eq!(i1, 3i128);
    assert_eq!(i2, 3i128);
    let reparsed = parse(lexer::lexer("7/2")?)?;
    assert_eq!(ast, reparsed);
    Ok(())
}
