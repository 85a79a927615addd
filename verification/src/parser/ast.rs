//! Abstract syntax tree
//!
//! ```text
//! Expr   -> expr
//!
//! BinOp  -> expr + expr
//!         | expr - expr
//!         | expr * expr
//!         | expr / expr
//!
//! Neg    -> - expr
//!
//! Pair   -> ( expr )
//!
//! Number -> number
//! ```
//!
//! Besides the tree itself, this module states what a well-formed parse
//! looks like: the shape predicates [`is_expr_shape`], [`is_term_shape`] and
//! [`is_factor_shape`] encode precedence and associativity, and
//! [`tokens_of`] linearizes a tree back into the token sequence it was
//! parsed from.

use crate::lexer::Token;
use vstd::prelude::*;

verus! {

/// `expr`
#[derive(Debug, PartialEq)]
pub enum Expr {
    Pair(Pair),
    BinOp(BinOp),
    Neg(Neg),
    Num(Number),
}

/// `( expr )`
#[derive(Debug, PartialEq)]
pub struct Pair {
    pub expr: Box<Expr>,
}

impl Pair {
    pub fn new(expr: Expr) -> (r: Expr)
        ensures
            (r matches Expr::Pair(p) && *p.expr == expr),
    {
        Expr::Pair(Pair { expr: Box::new(expr) })
    }
}

/// `lhs op rhs`
///
/// op is `+` `-` `*` or `/`
#[derive(Debug, PartialEq)]
pub struct BinOp {
    pub lhs: Box<Expr>,
    pub rhs: Box<Expr>,
    pub op: Token,
}

impl BinOp {
    pub fn new(lhs: Expr, rhs: Expr, token: Token) -> (r: Expr)
        ensures
            (r matches Expr::BinOp(b) && *b.lhs == lhs && *b.rhs == rhs && b.op == token),
    {
        Expr::BinOp(BinOp { lhs: Box::new(lhs), rhs: Box::new(rhs), op: token })
    }
}

/// `- expr`
#[derive(Debug, PartialEq)]
pub struct Neg {
    pub expr: Box<Expr>,
}

impl Neg {
    pub fn new(expr: Expr) -> (r: Expr)
        ensures
            (r matches Expr::Neg(n) && *n.expr == expr),
    {
        Expr::Neg(Neg { expr: Box::new(expr) })
    }
}

/// number store as `u64`
#[derive(Debug, PartialEq)]
pub struct Number {
    pub num: u64,
}

impl Number {
    pub fn new(num: u64) -> (r: Expr)
        ensures
            r == Expr::Num(Number { num }),
    {
        Expr::Num(Number { num })
    }
}

/// A parsed expression, ready for a generator to fold.
#[derive(Debug, PartialEq)]
pub struct AST {
    pub root: Expr,
}

// ---------------------------------------------------------------------------
// Shape of a well-formed parse
// ---------------------------------------------------------------------------

/// The shape the grammar's `expr` level produces: a chain of `+`/`-`
/// operators folded to the left over terms. In particular the right
/// operand of a `+` or `-` node is always one level down — that is what
/// left associativity means structurally.
pub open spec fn is_expr_shape(e: Expr) -> bool
    decreases e, 2int,
{
    match e {
        Expr::BinOp(b) => {
            if b.op == Token::Plus || b.op == Token::Minus {
                is_expr_shape(*b.lhs) && is_term_shape(*b.rhs)
            } else {
                is_term_shape(e)
            }
        },
        _ => is_term_shape(e),
    }
}

/// The shape the grammar's `term` level produces: a chain of `*`/`/`
/// operators folded to the left over factors. A bare `+`/`-` node is not a
/// term: addition binds more loosely than multiplication.
pub open spec fn is_term_shape(e: Expr) -> bool
    decreases e, 1int,
{
    match e {
        Expr::BinOp(b) => {
            if b.op == Token::Times || b.op == Token::Division {
                is_term_shape(*b.lhs) && is_factor_shape(*b.rhs)
            } else {
                false
            }
        },
        _ => is_factor_shape(e),
    }
}

/// The shape the grammar's `factor` level produces: a number, a
/// parenthesized expression, or a negation of another factor (so unary
/// minus chains, each negation wrapping the factor to its right).
pub open spec fn is_factor_shape(e: Expr) -> bool
    decreases e, 0int,
{
    match e {
        Expr::Num(_) => true,
        Expr::Pair(p) => is_expr_shape(*p.expr),
        Expr::Neg(n) => is_factor_shape(*n.expr),
        Expr::BinOp(_) => false,
    }
}

/// The token sequence a tree linearizes back to. The parser returns a tree
/// whose linearization is exactly its input.
pub open spec fn tokens_of(e: Expr) -> Seq<Token>
    decreases e,
{
    match e {
        Expr::Num(n) => seq![Token::Number(n.num)],
        Expr::Neg(n) => seq![Token::Minus] + tokens_of(*n.expr),
        Expr::Pair(p) => seq![Token::LP] + tokens_of(*p.expr) + seq![Token::RP],
        Expr::BinOp(b) => tokens_of(*b.lhs) + seq![b.op] + tokens_of(*b.rhs),
    }
}

// ---------------------------------------------------------------------------
// Laws of the shape
// ---------------------------------------------------------------------------

/// Binary operators are left-associative: in a well-formed tree, the right
/// operand of a `+` or `-` node never is another `+` or `-` node — a chain
/// like `a-b-c` can only fold as `(a-b)-c`, never as `a-(b-c)`.
pub proof fn lemma_left_associative(b: BinOp)
    requires
        is_expr_shape(Expr::BinOp(b)),
        b.op == Token::Plus || b.op == Token::Minus,
    ensures
        is_expr_shape(*b.lhs),
        is_term_shape(*b.rhs),
        *b.rhs matches Expr::BinOp(r) ==> (r.op == Token::Times || r.op == Token::Division),
{
    assert(is_expr_shape(*b.lhs) && is_term_shape(*b.rhs));
}

/// Multiplication binds tighter than addition: in a well-formed tree, a
/// `*` or `/` node never has a bare `+` or `-` node as either operand —
/// grouping the looser operator under the tighter one takes explicit
/// parentheses.
pub proof fn lemma_precedence(b: BinOp)
    requires
        is_term_shape(Expr::BinOp(b)),
    ensures
        b.op == Token::Times || b.op == Token::Division,
        is_term_shape(*b.lhs),
        is_factor_shape(*b.rhs),
        *b.lhs matches Expr::BinOp(l) ==> (l.op == Token::Times || l.op == Token::Division),
        !(*b.rhs matches Expr::BinOp(_)),
{
}

/// Unary minus chains: a negation wraps exactly another factor, so any
/// run of `-` signs nests to the right, one `Neg` node per sign.
pub proof fn lemma_negation_chains(n: Neg)
    requires
        is_factor_shape(Expr::Neg(n)),
    ensures
        is_factor_shape(*n.expr),
{
}

} // verus!
