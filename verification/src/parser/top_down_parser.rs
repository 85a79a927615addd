//! Use top-down method to parse.
//!
//! Convert the grammar to the following grammar
//! to solve priority:
//! ```text
//! S ::= expr
//!
//! <expr> ::= <term> <expr_tail>
//! <expr_tail> ::= Plus <term> <expr_tail>
//!               | Minus <term> <expr_tail>
//!               | <empty>
//!
//! <term> ::= <factor> <term_tail>
//! <term_tail> ::= Times <factor> <term_tail>
//!               | Division <factor> <term_tail>
//!               | <empty>
//!
//! <factor> ::= LP <expr> RP
//!          | Number
//!          | Minus <factor>
//! ```
//!
//! The parser is verified against the spec-level cursor model below
//! ([`spec_expr`] and its companions), which fixes exactly which token
//! sequences parse and which diagnostic every rejected sequence gets. On
//! success the tree itself is pinned by its shape
//! ([`is_expr_shape`](crate::parser::ast::is_expr_shape)) and by
//! linearizing back to the input
//! ([`tokens_of`](crate::parser::ast::tokens_of)).

use crate::lexer::Token;
use crate::lexer::token_text;
use crate::parser::ast::AST;
use crate::parser::ast::BinOp;
use crate::parser::ast::Expr;
use crate::parser::ast::Neg;
use crate::parser::ast::Number;
use crate::parser::ast::Pair;
use crate::parser::ast::is_expr_shape;
use crate::parser::ast::is_factor_shape;
use crate::parser::ast::is_term_shape;
use crate::parser::ast::tokens_of;
use vstd::prelude::*;
use vstd::string::StringExecFns;

verus! {

// ---------------------------------------------------------------------------
// The syntactic model
// ---------------------------------------------------------------------------

/// A syntax failure: what the parser expected, and the token it found
/// instead (`None` when the stream was exhausted).
pub struct SyntaxError {
    pub expected: Seq<char>,
    pub got: Option<Token>,
}

/// The message [`parse`] reports for a syntax failure.
pub open spec fn syntax_error_message(e: SyntaxError) -> Seq<char> {
    "Expect "@ + e.expected + ", got "@ + (match e.got {
        None => "nothing"@,
        Some(t) => token_text(t),
    })
}

/// The cursor after parsing a `factor` at `i`, or the syntax failure.
pub open spec fn spec_factor(ts: Seq<Token>, i: int) -> Result<int, SyntaxError>
    decreases ts.len() - i, 0int,
{
    if !(0 <= i < ts.len()) {
        Err(SyntaxError { expected: "number"@, got: None })
    } else {
        match ts[i] {
            Token::LP => match spec_expr(ts, i + 1) {
                Ok(j) => {
                    if 0 <= j < ts.len() && ts[j] == Token::RP {
                        Ok(j + 1)
                    } else {
                        Err(
                            SyntaxError {
                                expected: ")"@,
                                got: if 0 <= j < ts.len() {
                                    Some(ts[j])
                                } else {
                                    None
                                },
                            },
                        )
                    }
                },
                Err(e) => Err(e),
            },
            Token::Minus => spec_factor(ts, i + 1),
            Token::Number(_) => Ok(i + 1),
            t => Err(SyntaxError { expected: "number"@, got: Some(t) }),
        }
    }
}

/// The cursor after parsing a `term_tail` at `i`: zero or more `*`/`/`
/// steps, each followed by a factor.
pub open spec fn spec_term_tail(ts: Seq<Token>, i: int) -> Result<int, SyntaxError>
    decreases ts.len() - i, 3int,
{
    if 0 <= i < ts.len() && (ts[i] == Token::Times || ts[i] == Token::Division) {
        match spec_factor(ts, i + 1) {
            Ok(j) => {
                // A level only ever succeeds past its start and within
                // bounds, so the guard always holds; it makes termination
                // of the mutual recursion evident.
                if i + 1 < j <= ts.len() {
                    spec_term_tail(ts, j)
                } else {
                    Ok(j)
                }
            },
            Err(e) => Err(e),
        }
    } else {
        Ok(i)
    }
}

/// The cursor after parsing a `term` at `i`: a factor and its tail.
pub open spec fn spec_term(ts: Seq<Token>, i: int) -> Result<int, SyntaxError>
    decreases ts.len() - i, 1int,
{
    match spec_factor(ts, i) {
        Ok(j) => {
            if i < j <= ts.len() {
                spec_term_tail(ts, j)
            } else {
                Ok(j)
            }
        },
        Err(e) => Err(e),
    }
}

/// The cursor after parsing an `expr_tail` at `i`: zero or more `+`/`-`
/// steps, each followed by a term.
pub open spec fn spec_expr_tail(ts: Seq<Token>, i: int) -> Result<int, SyntaxError>
    decreases ts.len() - i, 3int,
{
    if 0 <= i < ts.len() && (ts[i] == Token::Plus || ts[i] == Token::Minus) {
        match spec_term(ts, i + 1) {
            Ok(j) => {
                if i + 1 < j <= ts.len() {
                    spec_expr_tail(ts, j)
                } else {
                    Ok(j)
                }
            },
            Err(e) => Err(e),
        }
    } else {
        Ok(i)
    }
}

/// The cursor after parsing an `expr` at `i`: a term and its tail.
pub open spec fn spec_expr(ts: Seq<Token>, i: int) -> Result<int, SyntaxError>
    decreases ts.len() - i, 2int,
{
    match spec_term(ts, i) {
        Ok(j) => {
            if i < j <= ts.len() {
                spec_expr_tail(ts, j)
            } else {
                Ok(j)
            }
        },
        Err(e) => Err(e),
    }
}

proof fn lemma_subrange_join(ts: Seq<Token>, a: int, b: int, c: int)
    requires
        0 <= a <= b <= c <= ts.len(),
    ensures
        ts.subrange(a, b) + ts.subrange(b, c) == ts.subrange(a, c),
{
    assert(ts.subrange(a, b) + ts.subrange(b, c) =~= ts.subrange(a, c));
}

proof fn lemma_got_nothing_split()
    ensures
        ", got nothing"@ == ", got "@ + "nothing"@,
{
    reveal_strlit(", got nothing");
    reveal_strlit(", got ");
    reveal_strlit("nothing");
    assert(", got nothing"@ =~= ", got "@ + "nothing"@);
}

proof fn lemma_expect_number_split()
    ensures
        "Expect number, got "@ == "Expect "@ + "number"@ + ", got "@,
{
    reveal_strlit("Expect number, got ");
    reveal_strlit("Expect ");
    reveal_strlit("number");
    reveal_strlit(", got ");
    assert("Expect number, got "@ =~= "Expect "@ + "number"@ + ", got "@);
}

proof fn lemma_expect_rp_split()
    ensures
        "Expect ), got "@ == "Expect "@ + ")"@ + ", got "@,
{
    reveal_strlit("Expect ), got ");
    reveal_strlit("Expect ");
    reveal_strlit(")");
    reveal_strlit(", got ");
    assert("Expect ), got "@ =~= "Expect "@ + ")"@ + ", got "@);
}

// ---------------------------------------------------------------------------
// The parser
// ---------------------------------------------------------------------------

/// A cursor over the token sequence, with one-token lookahead and no
/// backtracking.
pub struct Parser {
    tokens: Vec<Token>,
    pos: usize,
}

impl Parser {
    /// The tokens being parsed.
    pub closed spec fn toks(&self) -> Seq<Token> {
        self.tokens@
    }

    /// The cursor: how many tokens are consumed.
    pub closed spec fn at(&self) -> int {
        self.pos as int
    }

    /// The cursor never passes the end of the tokens.
    pub open spec fn wf(&self) -> bool {
        0 <= self.at() <= self.toks().len()
    }

    /// Whether every token is consumed.
    pub fn eof(&self) -> (r: bool)
        ensures
            r == (self.at() == self.toks().len()),
    {
        self.pos == self.tokens.len()
    }

    /// Takes the next token; `expect` only names, for the diagnostic, what
    /// the caller hoped to find if the stream is already exhausted.
    pub fn get_token(&mut self, expect: &str) -> (r: Result<Token, String>)
        ensures
            old(self).at() < old(self).toks().len() ==> r is Ok && r->Ok_0 == old(self).toks()[old(
                self,
            ).at()] && final(self).toks() == old(self).toks() && final(self).at() == old(self).at()
                + 1,
            old(self).at() >= old(self).toks().len() ==> r is Err && *final(self) == *old(self)
                && r->Err_0@ == "Expect "@ + expect@ + ", got nothing"@,
    {
        if self.pos < self.tokens.len() {
            let t = self.tokens[self.pos];
            self.pos = self.pos + 1;
            Ok(t)
        } else {
            let mut msg = String::from_str("Expect ");
            msg.append(expect);
            msg.append(", got nothing");
            Err(msg)
        }
    }

    /// The next token, if any, without consuming it.
    fn peek(&self) -> (r: Option<Token>)
        ensures
            self.at() < self.toks().len() ==> r == Some(self.toks()[self.at()]),
            self.at() >= self.toks().len() ==> r is None,
    {
        if self.pos < self.tokens.len() {
            Some(self.tokens[self.pos])
        } else {
            None
        }
    }

    fn s(&mut self) -> (r: Result<Expr, String>)
        requires
            old(self).wf(),
        ensures
            final(self).wf(),
            final(self).toks() == old(self).toks(),
            (match spec_expr(old(self).toks(), old(self).at()) {
                Ok(j) => r is Ok && final(self).at() == j && old(self).at() < j && is_expr_shape(
                    r->Ok_0,
                ) && tokens_of(r->Ok_0) == old(self).toks().subrange(old(self).at(), j),
                Err(e) => r is Err && r->Err_0@ == syntax_error_message(e),
            }),
        decreases self.toks().len() - self.at(), 4int,
    {
        self.expr()
    }

    fn expr(&mut self) -> (r: Result<Expr, String>)
        requires
            old(self).wf(),
        ensures
            final(self).wf(),
            final(self).toks() == old(self).toks(),
            (match spec_expr(old(self).toks(), old(self).at()) {
                Ok(j) => r is Ok && final(self).at() == j && old(self).at() < j && is_expr_shape(
                    r->Ok_0,
                ) && tokens_of(r->Ok_0) == old(self).toks().subrange(old(self).at(), j),
                Err(e) => r is Err && r->Err_0@ == syntax_error_message(e),
            }),
        decreases self.toks().len() - self.at(), 2int,
    {
        let ghost ts = self.toks();
        let ghost i = self.at();
        let lhs = match self.term() {
            Ok(e) => e,
            Err(m) => {
                return Err(m);
            },
        };
        proof {
            let j = spec_term(ts, i)->Ok_0;
            assert(i < j <= ts.len());
        }
        self.expr_tail(lhs)
    }

    fn expr_tail(&mut self, lhs: Expr) -> (r: Result<Expr, String>)
        requires
            old(self).wf(),
            is_expr_shape(lhs),
        ensures
            final(self).wf(),
            final(self).toks() == old(self).toks(),
            (match spec_expr_tail(old(self).toks(), old(self).at()) {
                Ok(j) => r is Ok && final(self).at() == j && old(self).at() <= j && is_expr_shape(
                    r->Ok_0,
                ) && tokens_of(r->Ok_0) == tokens_of(lhs) + old(self).toks().subrange(
                    old(self).at(),
                    j,
                ),
                Err(e) => r is Err && r->Err_0@ == syntax_error_message(e),
            }),
        decreases self.toks().len() - self.at(), 3int,
    {
        let ghost ts = self.toks();
        let ghost i = self.at();
        let token = self.peek();
        match token {
            Some(Token::Plus) => {
                let _ = self.get_token("+");
                let rhs = match self.term() {
                    Ok(e) => e,
                    Err(m) => {
                        return Err(m);
                    },
                };
                let ghost j = spec_term(ts, i + 1)->Ok_0;
                let folded = BinOp::new(lhs, rhs, Token::Plus);
                proof {
                    assert(i + 1 < j <= ts.len());
                    assert(ts.subrange(i, i + 1) =~= seq![Token::Plus]);
                    lemma_subrange_join(ts, i, i + 1, j);
                    assert(tokens_of(folded) == tokens_of(lhs) + ts.subrange(i, j));
                }
                let r = self.expr_tail(folded);
                proof {
                    if spec_expr_tail(ts, i) is Ok {
                        let jf = spec_expr_tail(ts, i)->Ok_0;
                        lemma_subrange_join(ts, i, j, jf);
                    }
                }
                r
            },
            Some(Token::Minus) => {
                let _ = self.get_token("-");
                let rhs = match self.term() {
                    Ok(e) => e,
                    Err(m) => {
                        return Err(m);
                    },
                };
                let ghost j = spec_term(ts, i + 1)->Ok_0;
                let folded = BinOp::new(lhs, rhs, Token::Minus);
                proof {
                    assert(i + 1 < j <= ts.len());
                    assert(ts.subrange(i, i + 1) =~= seq![Token::Minus]);
                    lemma_subrange_join(ts, i, i + 1, j);
                    assert(tokens_of(folded) == tokens_of(lhs) + ts.subrange(i, j));
                }
                let r = self.expr_tail(folded);
                proof {
                    if spec_expr_tail(ts, i) is Ok {
                        let jf = spec_expr_tail(ts, i)->Ok_0;
                        lemma_subrange_join(ts, i, j, jf);
                    }
                }
                r
            },
            _ => {
                proof {
                    assert(ts.subrange(i, i) =~= Seq::<Token>::empty());
                    assert(tokens_of(lhs) + ts.subrange(i, i) =~= tokens_of(lhs));
                }
                Ok(lhs)
            },
        }
    }

    fn term(&mut self) -> (r: Result<Expr, String>)
        requires
            old(self).wf(),
        ensures
            final(self).wf(),
            final(self).toks() == old(self).toks(),
            (match spec_term(old(self).toks(), old(self).at()) {
                Ok(j) => r is Ok && final(self).at() == j && old(self).at() < j && is_term_shape(
                    r->Ok_0,
                ) && tokens_of(r->Ok_0) == old(self).toks().subrange(old(self).at(), j),
                Err(e) => r is Err && r->Err_0@ == syntax_error_message(e),
            }),
        decreases self.toks().len() - self.at(), 1int,
    {
        let ghost ts = self.toks();
        let ghost i = self.at();
        let lval = match self.factor() {
            Ok(e) => e,
            Err(m) => {
                return Err(m);
            },
        };
        proof {
            let j = spec_factor(ts, i)->Ok_0;
            assert(i < j <= ts.len());
        }
        self.term_tail(lval)
    }

    fn term_tail(&mut self, lhs: Expr) -> (r: Result<Expr, String>)
        requires
            old(self).wf(),
            is_term_shape(lhs),
        ensures
            final(self).wf(),
            final(self).toks() == old(self).toks(),
            (match spec_term_tail(old(self).toks(), old(self).at()) {
                Ok(j) => r is Ok && final(self).at() == j && old(self).at() <= j && is_term_shape(
                    r->Ok_0,
                ) && tokens_of(r->Ok_0) == tokens_of(lhs) + old(self).toks().subrange(
                    old(self).at(),
                    j,
                ),
                Err(e) => r is Err && r->Err_0@ == syntax_error_message(e),
            }),
        decreases self.toks().len() - self.at(), 3int,
    {
        let ghost ts = self.toks();
        let ghost i = self.at();
        let token = self.peek();
        match token {
            Some(Token::Times) => {
                let _ = self.get_token("*");
                let rhs = match self.factor() {
                    Ok(e) => e,
                    Err(m) => {
                        return Err(m);
                    },
                };
                let ghost j = spec_factor(ts, i + 1)->Ok_0;
                let folded = BinOp::new(lhs, rhs, Token::Times);
                proof {
                    assert(i + 1 < j <= ts.len());
                    assert(ts.subrange(i, i + 1) =~= seq![Token::Times]);
                    lemma_subrange_join(ts, i, i + 1, j);
                    assert(tokens_of(folded) == tokens_of(lhs) + ts.subrange(i, j));
                }
                let r = self.term_tail(folded);
                proof {
                    if spec_term_tail(ts, i) is Ok {
                        let jf = spec_term_tail(ts, i)->Ok_0;
                        lemma_subrange_join(ts, i, j, jf);
                    }
                }
                r
            },
            Some(Token::Division) => {
                let _ = self.get_token("/");
                let rhs = match self.factor() {
                    Ok(e) => e,
                    Err(m) => {
                        return Err(m);
                    },
                };
                let ghost j = spec_factor(ts, i + 1)->Ok_0;
                let folded = BinOp::new(lhs, rhs, Token::Division);
                proof {
                    assert(i + 1 < j <= ts.len());
                    assert(ts.subrange(i, i + 1) =~= seq![Token::Division]);
                    lemma_subrange_join(ts, i, i + 1, j);
                    assert(tokens_of(folded) == tokens_of(lhs) + ts.subrange(i, j));
                }
                let r = self.term_tail(folded);
                proof {
                    if spec_term_tail(ts, i) is Ok {
                        let jf = spec_term_tail(ts, i)->Ok_0;
                        lemma_subrange_join(ts, i, j, jf);
                    }
                }
                r
            },
            _ => {
                proof {
                    assert(ts.subrange(i, i) =~= Seq::<Token>::empty());
                    assert(tokens_of(lhs) + ts.subrange(i, i) =~= tokens_of(lhs));
                }
                Ok(lhs)
            },
        }
    }

    fn factor(&mut self) -> (r: Result<Expr, String>)
        requires
            old(self).wf(),
        ensures
            final(self).wf(),
            final(self).toks() == old(self).toks(),
            (match spec_factor(old(self).toks(), old(self).at()) {
                Ok(j) => r is Ok && final(self).at() == j && old(self).at() < j && is_factor_shape(
                    r->Ok_0,
                ) && tokens_of(r->Ok_0) == old(self).toks().subrange(old(self).at(), j),
                Err(e) => r is Err && r->Err_0@ == syntax_error_message(e),
            }),
        decreases self.toks().len() - self.at(), 0int,
    {
        let ghost ts = self.toks();
        let ghost i = self.at();
        let token = match self.get_token("number") {
            Ok(t) => t,
            Err(m) => {
                proof {
                    lemma_got_nothing_split();
                }
                return Err(m);
            },
        };
        match token {
            Token::LP => {
                let expr = match self.expr() {
                    Ok(e) => e,
                    Err(m) => {
                        return Err(m);
                    },
                };
                let ghost j = spec_expr(ts, i + 1)->Ok_0;
                let close = match self.get_token(")") {
                    Ok(t) => t,
                    Err(m) => {
                        proof {
                            lemma_got_nothing_split();
                        }
                        return Err(m);
                    },
                };
                if close == Token::RP {
                    let wrapped = Pair::new(expr);
                    proof {
                        assert(ts.subrange(i, i + 1) =~= seq![Token::LP]);
                        assert(ts.subrange(j, j + 1) =~= seq![Token::RP]);
                        lemma_subrange_join(ts, i, i + 1, j);
                        lemma_subrange_join(ts, i, j, j + 1);
                        assert(tokens_of(wrapped) == ts.subrange(i, j + 1));
                    }
                    Ok(wrapped)
                } else {
                    let mut msg = String::from_str("Expect ), got ");
                    let shown = close.text();
                    msg.append(shown.as_str());
                    proof {
                        lemma_expect_rp_split();
                    }
                    Err(msg)
                }
            },
            Token::Minus => {
                let inner = match self.factor() {
                    Ok(e) => e,
                    Err(m) => {
                        return Err(m);
                    },
                };
                let ghost j = spec_factor(ts, i + 1)->Ok_0;
                let negated = Neg::new(inner);
                proof {
                    assert(ts.subrange(i, i + 1) =~= seq![Token::Minus]);
                    lemma_subrange_join(ts, i, i + 1, j);
                    assert(tokens_of(negated) == ts.subrange(i, j));
                }
                Ok(negated)
            },
            Token::Number(num) => {
                let leaf = Number::new(num);
                proof {
                    assert(ts.subrange(i, i + 1) =~= seq![Token::Number(num)]);
                }
                Ok(leaf)
            },
            _ => {
                let mut msg = String::from_str("Expect number, got ");
                let shown = token.text();
                msg.append(shown.as_str());
                proof {
                    lemma_expect_number_split();
                }
                Err(msg)
            },
        }
    }
}

/// Parse tokens to AST.
///
/// Succeeds exactly when the tokens form one complete expression of the
/// grammar; the tree then linearizes back to the tokens, with precedence
/// and left associativity captured by its shape. Every rejection carries
/// the diagnostic fixed by the syntactic model: what was expected and what
/// stood there instead, or `Invalid expression` when tokens remain after a
/// complete expression.
pub fn parse(tokens: Vec<Token>) -> (r: Result<AST, String>)
    ensures
        (match spec_expr(tokens@, 0) {
            Ok(j) => {
                if j == tokens@.len() {
                    r is Ok && is_expr_shape(r->Ok_0.root) && tokens_of(r->Ok_0.root) == tokens@
                } else {
                    r is Err && r->Err_0@ == "Invalid expression"@
                }
            },
            Err(e) => r is Err && r->Err_0@ == syntax_error_message(e),
        }),
{
    let ghost ts = tokens@;
    let mut parser = Parser { tokens, pos: 0 };
    let root = match parser.s() {
        Ok(e) => e,
        Err(m) => {
            return Err(m);
        },
    };
    if parser.eof() {
        proof {
            assert(ts.subrange(0, ts.len() as int) =~= ts);
        }
        Ok(AST { root })
    } else {
        Err(String::from_str("Invalid expression"))
    }
}

} // verus!
