//! Lexer for the calculator's lexical structure.
//!
//! ```text
//! Plus: +
//! Minus: -
//! Times: *
//! Division: /
//! LP: (
//! RP: )
//! Number :
//!   DEC_LITERAL | BIN_LITERAL | OCT_LITERAL | HEX_LITERAL
//! DEC_LITERAL :
//!   DEC_DIGIT (DEC_DIGIT|_)*
//! BIN_LITERAL :
//!   0b(BIN_DIGIT|_)*
//! OCT_LITERAL :
//!   0o(OCT_DIGIT|_)*
//! HEX_LITERAL :
//!   0x(HEX_DIGIT|_)*
//!
//! BIN_DIGIT : [0-1]
//! OCT_DIGIT : [0-7]
//! DEC_DIGIT : [0-9]
//! HEX_DIGIT : [0-9 a-f A-F]
//! ```
//!
//! The whole scanner is written here directly and verified against the
//! spec-level model [`spec_lex`]: no lexing library stands behind it.

use vstd::prelude::*;
use vstd::string::StrSliceExecFns;
use vstd::string::StringExecFns;
use vstd::string::StringSliceAdditionalSpecFns;

verus! {

/// Token of the calculator lexical structure.
#[derive(Debug, PartialEq, Eq, Structural, Clone, Copy)]
pub enum Token {
    /// Marks a scanning failure; never handed out by [`lexer`].
    Error,
    /// The lexer stops when it meets a `NewLine`.
    NewLine,
    Plus,
    Minus,
    Times,
    Division,
    LP,
    RP,
    /// A numeric literal; its value must fit in a `u64`.
    Number(u64),
}

// ---------------------------------------------------------------------------
// Decimal rendering
// ---------------------------------------------------------------------------

/// The character for one decimal digit value.
pub open spec fn digit_char(d: nat) -> char {
    if d == 0 {
        '0'
    } else if d == 1 {
        '1'
    } else if d == 2 {
        '2'
    } else if d == 3 {
        '3'
    } else if d == 4 {
        '4'
    } else if d == 5 {
        '5'
    } else if d == 6 {
        '6'
    } else if d == 7 {
        '7'
    } else if d == 8 {
        '8'
    } else {
        '9'
    }
}

/// The usual decimal rendering of `n`, with no leading zeros (except for 0
/// itself).
pub open spec fn dec_rep(n: nat) -> Seq<char>
    decreases n,
{
    if n < 10 {
        seq![digit_char(n)]
    } else {
        dec_rep(n / 10).push(digit_char(n % 10))
    }
}

/// One decimal digit as a string slice.
fn digit_str(d: u64) -> (r: &'static str)
    requires
        d < 10,
    ensures
        r@ == seq![digit_char(d as nat)],
{
    proof {
        reveal_strlit("0");
        reveal_strlit("1");
        reveal_strlit("2");
        reveal_strlit("3");
        reveal_strlit("4");
        reveal_strlit("5");
        reveal_strlit("6");
        reveal_strlit("7");
        reveal_strlit("8");
        reveal_strlit("9");
    }
    if d == 0 {
        "0"
    } else if d == 1 {
        "1"
    } else if d == 2 {
        "2"
    } else if d == 3 {
        "3"
    } else if d == 4 {
        "4"
    } else if d == 5 {
        "5"
    } else if d == 6 {
        "6"
    } else if d == 7 {
        "7"
    } else if d == 8 {
        "8"
    } else {
        "9"
    }
}

/// Renders `n` in decimal.
pub fn decimal_string(n: u64) -> (s: String)
    ensures
        s@ == dec_rep(n as nat),
    decreases n,
{
    if n < 10 {
        String::from_str(digit_str(n))
    } else {
        let mut s = decimal_string(n / 10);
        s.append(digit_str(n % 10));
        proof {
            assert(s@ =~= dec_rep((n / 10) as nat).push(digit_char((n % 10) as nat)));
        }
        s
    }
}

// ---------------------------------------------------------------------------
// Token rendering
// ---------------------------------------------------------------------------

/// The text a token shows in diagnostics: the symbol itself, or the decimal
/// value of a number.
pub open spec fn token_text(t: Token) -> Seq<char> {
    match t {
        Token::Plus => "+"@,
        Token::Minus => "-"@,
        Token::Times => "*"@,
        Token::Division => "/"@,
        Token::LP => "("@,
        Token::RP => ")"@,
        Token::Number(n) => dec_rep(n as nat),
        Token::NewLine => "NewLine"@,
        Token::Error => "Error"@,
    }
}

impl Token {
    /// Renders the token as it appears in diagnostics.
    pub fn text(&self) -> (s: String)
        ensures
            s@ == token_text(*self),
    {
        match self {
            Token::Plus => String::from_str("+"),
            Token::Minus => String::from_str("-"),
            Token::Times => String::from_str("*"),
            Token::Division => String::from_str("/"),
            Token::LP => String::from_str("("),
            Token::RP => String::from_str(")"),
            Token::Number(n) => decimal_string(*n),
            Token::NewLine => String::from_str("NewLine"),
            Token::Error => String::from_str("Error"),
        }
    }
}

// ---------------------------------------------------------------------------
// The lexical model
// ---------------------------------------------------------------------------

/// Horizontal whitespace, skipped between tokens.
pub open spec fn is_space_char(c: char) -> bool {
    c == ' ' || c == '\t'
}

/// Line end: scanning stops here without consuming the rest.
pub open spec fn is_stop_char(c: char) -> bool {
    c == '\n' || c == '\u{000c}'
}

/// The token of a single-character symbol, if `c` is one.
pub open spec fn symbol_token(c: char) -> Option<Token> {
    if c == '+' {
        Some(Token::Plus)
    } else if c == '-' {
        Some(Token::Minus)
    } else if c == '*' {
        Some(Token::Times)
    } else if c == '/' {
        Some(Token::Division)
    } else if c == '(' {
        Some(Token::LP)
    } else if c == ')' {
        Some(Token::RP)
    } else {
        None
    }
}

pub open spec fn is_dec_digit(c: char) -> bool {
    '0' as int <= c as int && c as int <= '9' as int
}

/// Whether `c` is a digit of the given radix (2, 8, 10 or 16).
pub open spec fn is_radix_digit(c: char, radix: int) -> bool {
    if radix == 2 {
        '0' as int <= c as int && c as int <= '1' as int
    } else if radix == 8 {
        '0' as int <= c as int && c as int <= '7' as int
    } else if radix == 16 {
        is_dec_digit(c) || ('a' as int <= c as int && c as int <= 'f' as int) || ('A' as int
            <= c as int && c as int <= 'F' as int)
    } else {
        is_dec_digit(c)
    }
}

/// A character that may continue a numeric literal: a digit or a `_`
/// separator.
pub open spec fn is_literal_char(c: char, radix: int) -> bool {
    c == '_' || is_radix_digit(c, radix)
}

/// The numeric value of one digit character.
pub open spec fn digit_value(c: char) -> int {
    if is_dec_digit(c) {
        c as int - '0' as int
    } else if 'a' as int <= c as int && c as int <= 'f' as int {
        10 + c as int - 'a' as int
    } else {
        10 + c as int - 'A' as int
    }
}

/// A literal starting with `0b`, `0o` or `0x` carries a radix prefix.
pub open spec fn has_radix_prefix(s: Seq<char>, i: int) -> bool {
    s[i] == '0' && i + 1 < s.len() && (s[i + 1] == 'b' || s[i + 1] == 'o' || s[i + 1] == 'x')
}

/// The radix of the literal starting at `i`.
pub open spec fn literal_radix(s: Seq<char>, i: int) -> int {
    if has_radix_prefix(s, i) {
        if s[i + 1] == 'b' {
            2
        } else if s[i + 1] == 'o' {
            8
        } else {
            16
        }
    } else {
        10
    }
}

/// Where the digit run of the literal starting at `i` begins: after the
/// radix prefix, if there is one.
pub open spec fn literal_digits_start(s: Seq<char>, i: int) -> int {
    if has_radix_prefix(s, i) {
        i + 2
    } else {
        i
    }
}

/// The first position at or after `i` that does not continue a digit run.
pub open spec fn run_end(s: Seq<char>, i: int, radix: int) -> int
    decreases s.len() - i,
{
    if 0 <= i && i < s.len() && is_literal_char(s[i], radix) {
        run_end(s, i + 1, radix)
    } else {
        i
    }
}

/// The numeric value of the digit run `s[i..j]`, `_` separators skipped.
/// An empty or all-underscore run has value 0.
pub open spec fn run_value(s: Seq<char>, i: int, j: int, radix: int) -> int
    decreases j - i,
{
    if j <= i {
        0
    } else if s[j - 1] == '_' {
        run_value(s, i, j - 1, radix)
    } else {
        run_value(s, i, j - 1, radix) * radix + digit_value(s[j - 1])
    }
}

/// The byte offset of character position `i`, as spans report it.
pub open spec fn byte_offset(s: Seq<char>, i: int) -> int {
    (vstd::utf8::encode_utf8(s.subrange(0, i)).len() as usize) as int
}

/// A scanning failure: an unrecognized character, or a literal whose value
/// does not fit in a `u64`. Spans are byte offsets into the input.
pub enum ScanError {
    InvalidChar { byte_start: int, byte_end: int, ch: char },
    IntOverflow { byte_start: int, byte_end: int, raw: Seq<char> },
}

/// The message [`lexer`] reports for a scanning failure.
pub open spec fn scan_error_message(e: ScanError) -> Seq<char> {
    match e {
        ScanError::InvalidChar { byte_start, byte_end, ch } => "Invalid character near "@ + dec_rep(
            byte_start as nat,
        ) + ".."@ + dec_rep(byte_end as nat) + ": "@ + seq![ch],
        ScanError::IntOverflow { byte_start, byte_end, raw } => "Parse int failed: number too large to fit in target type\nNear "@
            + dec_rep(byte_start as nat) + ".."@ + dec_rep(byte_end as nat) + ": "@ + raw,
    }
}

pub proof fn lemma_run_end_bounds(s: Seq<char>, i: int, radix: int)
    requires
        0 <= i <= s.len(),
    ensures
        i <= run_end(s, i, radix) <= s.len(),
        forall|k: int|
            i <= k < run_end(s, i, radix) ==> #[trigger] is_literal_char(s[k], radix),
        run_end(s, i, radix) < s.len() ==> !is_literal_char(s[run_end(s, i, radix)], radix),
        i < s.len() && is_literal_char(s[i], radix) ==> run_end(s, i, radix) > i,
    decreases s.len() - i,
{
    if i < s.len() && is_literal_char(s[i], radix) {
        lemma_run_end_bounds(s, i + 1, radix);
    }
}

/// The tokens of the input from character position `i` on, or the first
/// scanning failure. This is the lexical model the scanner is verified
/// against: maximal-munch digit runs, whitespace skipped, scanning stopped
/// at a line end.
pub open spec fn spec_lex_from(s: Seq<char>, i: int) -> Result<Seq<Token>, ScanError>
    decreases s.len() - i,
{
    if !(0 <= i < s.len()) {
        Ok(Seq::empty())
    } else {
        let c = s[i];
        if is_stop_char(c) {
            Ok(Seq::empty())
        } else if is_space_char(c) {
            spec_lex_from(s, i + 1)
        } else if symbol_token(c) is Some {
            match spec_lex_from(s, i + 1) {
                Ok(rest) => Ok(seq![symbol_token(c)->Some_0] + rest),
                Err(e) => Err(e),
            }
        } else if is_dec_digit(c) {
            let radix = literal_radix(s, i);
            let ds = literal_digits_start(s, i);
            let j = run_end(s, ds, radix);
            if run_value(s, ds, j, radix) > u64::MAX {
                Err(
                    ScanError::IntOverflow {
                        byte_start: byte_offset(s, i),
                        byte_end: byte_offset(s, j),
                        raw: s.subrange(i, j),
                    },
                )
            } else {
                proof {
                    lemma_run_end_bounds(s, ds, radix);
                }
                match spec_lex_from(s, j) {
                    Ok(rest) => Ok(seq![Token::Number(run_value(s, ds, j, radix) as u64)] + rest),
                    Err(e) => Err(e),
                }
            }
        } else {
            Err(
                ScanError::InvalidChar {
                    byte_start: byte_offset(s, i),
                    byte_end: byte_offset(s, i + 1),
                    ch: c,
                },
            )
        }
    }
}

/// The lexical model of a whole input line.
pub open spec fn spec_lex(s: Seq<char>) -> Result<Seq<Token>, ScanError> {
    spec_lex_from(s, 0)
}

// ---------------------------------------------------------------------------
// The scanner
// ---------------------------------------------------------------------------

fn is_dec_digit_exec(c: char) -> (r: bool)
    ensures
        r == is_dec_digit(c),
{
    let u = c as u32;
    ('0' as u32) <= u && u <= ('9' as u32)
}

fn is_literal_char_exec(c: char, radix: u64) -> (r: bool)
    ensures
        r == is_literal_char(c, radix as int),
{
    if c == '_' {
        true
    } else {
        let u = c as u32;
        if radix == 2 {
            ('0' as u32) <= u && u <= ('1' as u32)
        } else if radix == 8 {
            ('0' as u32) <= u && u <= ('7' as u32)
        } else if radix == 16 {
            (('0' as u32) <= u && u <= ('9' as u32)) || (('a' as u32) <= u && u <= ('f' as u32))
                || (('A' as u32) <= u && u <= ('F' as u32))
        } else {
            ('0' as u32) <= u && u <= ('9' as u32)
        }
    }
}

fn digit_value_exec(c: char) -> (d: u64)
    requires
        is_radix_digit(c, 16),
    ensures
        d as int == digit_value(c),
        d < 16,
{
    let u = c as u32;
    if ('0' as u32) <= u && u <= ('9' as u32) {
        (u - ('0' as u32)) as u64
    } else if ('a' as u32) <= u && u <= ('f' as u32) {
        (u - ('a' as u32) + 10) as u64
    } else {
        (u - ('A' as u32) + 10) as u64
    }
}

fn symbol_token_exec(c: char) -> (r: Option<Token>)
    ensures
        r == symbol_token(c),
{
    if c == '+' {
        Some(Token::Plus)
    } else if c == '-' {
        Some(Token::Minus)
    } else if c == '*' {
        Some(Token::Times)
    } else if c == '/' {
        Some(Token::Division)
    } else if c == '(' {
        Some(Token::LP)
    } else if c == ')' {
        Some(Token::RP)
    } else {
        None
    }
}

/// The byte offset of character position `i` of `input`, computed for a
/// span in a diagnostic.
fn byte_offset_exec(input: &str, i: usize) -> (b: usize)
    requires
        i <= input@.len(),
    ensures
        b == byte_offset(input@, i as int),
{
    let sub = input.substring_char(0, i);
    proof {
        assert(sub.spec_bytes() == vstd::utf8::encode_utf8(sub@));
    }
    sub.len()
}

/// Parse string into tokens. Only parse one line input.
///
/// Parse will stop while meet `\n` or `\f`.
///
/// Return `Err(String)` while input is invalid: the message names an
/// unrecognized character, or reports a literal too large for a `u64`,
/// together with its byte span.
pub fn lexer(input: &str) -> (r: Result<Vec<Token>, String>)
    ensures
        spec_lex(input@) is Ok ==> r is Ok && r->Ok_0@ == spec_lex(input@)->Ok_0,
        spec_lex(input@) is Err ==> r is Err && r->Err_0@ == scan_error_message(
            spec_lex(input@)->Err_0,
        ),
{
    let ghost s = input@;
    let n = input.unicode_len();
    let mut tokens: Vec<Token> = Vec::new();
    let mut i: usize = 0;
    loop
        invariant
            input@ == s,
            n == s.len(),
            i <= n,
            spec_lex_from(s, i as int) is Ok ==> spec_lex(s) is Ok && spec_lex(s)->Ok_0 == tokens@
                + spec_lex_from(s, i as int)->Ok_0,
            spec_lex_from(s, i as int) is Err ==> spec_lex(s) == spec_lex_from(s, i as int),
        decreases n - i,
    {
        if i >= n {
            proof {
                assert(tokens@ + spec_lex_from(s, i as int)->Ok_0 =~= tokens@);
            }
            return Ok(tokens);
        }
        let c = input.get_char(i);
        if c == '\n' || c == '\u{000c}' {
            proof {
                assert(tokens@ + spec_lex_from(s, i as int)->Ok_0 =~= tokens@);
            }
            return Ok(tokens);
        } else if c == ' ' || c == '\t' {
            i += 1;
        } else if let Some(t) = symbol_token_exec(c) {
            tokens.push(t);
            proof {
                let rest = spec_lex_from(s, i + 1);
                if rest is Ok {
                    assert(tokens@ + rest->Ok_0 =~= (tokens@.drop_last() + (seq![t]
                        + rest->Ok_0)));
                }
            }
            i += 1;
        } else if is_dec_digit_exec(c) {
            let start = i;
            let mut radix: u64 = 10;
            let mut ds = i;
            if c == '0' && i + 1 < n {
                let c1 = input.get_char(i + 1);
                if c1 == 'b' {
                    radix = 2;
                    ds = i + 2;
                } else if c1 == 'o' {
                    radix = 8;
                    ds = i + 2;
                } else if c1 == 'x' {
                    radix = 16;
                    ds = i + 2;
                }
            }
            proof {
                assert(radix as int == literal_radix(s, i as int));
                assert(ds as int == literal_digits_start(s, i as int));
            }
            // Find where the digit run ends.
            let mut j = ds;
            loop
                invariant
                    input@ == s,
                    n == s.len(),
                    ds <= j <= n,
                    run_end(s, ds as int, radix as int) == run_end(s, j as int, radix as int),
                    forall|k: int|
                        ds <= k < j ==> #[trigger] is_literal_char(s[k], radix as int),
                ensures
                    j as int == run_end(s, ds as int, radix as int),
                    ds <= j <= n,
                decreases n - j,
            {
                if j >= n {
                    break ;
                }
                let cj = input.get_char(j);
                if !is_literal_char_exec(cj, radix) {
                    break ;
                }
                j += 1;
            }
            // Accumulate the run's value, watching for overflow.
            let mut acc: u64 = 0;
            let mut overflow = false;
            let mut k = ds;
            while k < j
                invariant
                    input@ == s,
                    n == s.len(),
                    ds <= k <= j <= n,
                    radix == 2 || radix == 8 || radix == 10 || radix == 16,
                    forall|m: int|
                        ds <= m < j ==> #[trigger] is_literal_char(s[m], radix as int),
                    !overflow ==> acc as int == run_value(s, ds as int, k as int, radix as int),
                    overflow ==> run_value(s, ds as int, k as int, radix as int) > u64::MAX,
                decreases j - k,
            {
                let ck = input.get_char(k);
                proof {
                    assert(is_literal_char(s[k as int], radix as int));
                }
                if ck == '_' {
                    k += 1;
                } else {
                    let d = digit_value_exec(ck);
                    let ghost prev = run_value(s, ds as int, k as int, radix as int);
                    proof {
                        assert(run_value(s, ds as int, k + 1, radix as int) == prev * (
                        radix as int) + digit_value(s[k as int]));
                    }
                    if overflow {
                        proof {
                            assert(prev * (radix as int) >= prev) by (nonlinear_arith)
                                requires
                                    prev > u64::MAX,
                                    radix >= 2,
                            ;
                        }
                    } else {
                        let next = match acc.checked_mul(radix) {
                            Some(m) => m.checked_add(d),
                            None => None,
                        };
                        match next {
                            Some(v) => {
                                acc = v;
                            },
                            None => {
                                overflow = true;
                            },
                        }
                    }
                    k += 1;
                }
            }
            proof {
                assert(k as int == run_end(s, ds as int, radix as int));
                lemma_run_end_bounds(s, ds as int, radix as int);
            }
            if overflow {
                let bstart = byte_offset_exec(input, start);
                let bend = byte_offset_exec(input, j);
                let mut msg = String::from_str(
                    "Parse int failed: number too large to fit in target type\nNear ",
                );
                let d1 = decimal_string(bstart as u64);
                msg.append(d1.as_str());
                msg.append("..");
                let d2 = decimal_string(bend as u64);
                msg.append(d2.as_str());
                msg.append(": ");
                msg.append(input.substring_char(start, j));
                return Err(msg);
            } else {
                tokens.push(Token::Number(acc));
                proof {
                    let rest = spec_lex_from(s, j as int);
                    if rest is Ok {
                        assert(tokens@ + rest->Ok_0 =~= (tokens@.drop_last() + (seq![
                            Token::Number(acc),
                        ] + rest->Ok_0)));
                    }
                }
                i = j;
            }
        } else {
            let bstart = byte_offset_exec(input, i);
            let bend = byte_offset_exec(input, i + 1);
            let mut msg = String::from_str("Invalid character near ");
            let d1 = decimal_string(bstart as u64);
            msg.append(d1.as_str());
            msg.append("..");
            let d2 = decimal_string(bend as u64);
            msg.append(d2.as_str());
            msg.append(": ");
            msg.append(input.substring_char(i, i + 1));
            proof {
                assert(input@.subrange(i as int, i + 1) =~= seq![c]);
            }
            return Err(msg);
        }
    }
}

} // verus!
