use wcal::lexer::Token;
use wcal::lexer::lexer;

#[test]
fn test_number() {
    let tokens = lexer("12_3 0b0000_1111 0o00_13 0x00_1a 0x____").unwrap();
    assert_eq!(
        tokens,
        vec![
            Token::Number(123),
            Token::Number(15),
            Token::Number(11),
            Token::Number(26),
            Token::Number(0)
        ]
    );
}

#[test]
fn test_symbol() {
    let tokens = lexer("+- * / ()").unwrap();
    assert_eq!(
        tokens,
        vec![
            Token::Plus,
            Token::Minus,
            Token::Times,
            Token::Division,
            Token::LP,
            Token::RP
        ]
    );
}

#[test]
fn test_overflow() {
    let res = lexer("123456789123456789123456789123456789");
    assert!(res.is_err());
    assert_eq!(
        res.unwrap_err(),
        "Parse int failed: number too large to fit in target type\nNear 0..36: 123456789123456789123456789123456789"
    );
}

#[test]
fn test_mismatch() {
    let res = lexer("0abc");
    assert!(res.is_err());
    assert_eq!(res.unwrap_err(), "Invalid character near 1..2: a");
}

#[test]
fn test_lexer() -> Result<(), String> {
    let tokens = lexer("12*(0x_1A-0b01)+-0o12/0\n123")?;
    assert_eq!(
        tokens,
        [
            Token::Number(12),
            Token::Times,
            Token::LP,
            Token::Number(26),
            Token::Minus,
            Token::Number(1),
            Token::RP,
            Token::Plus,
            Token::Minus,
            Token::Number(10),
            Token::Division,
            Token::Number(0)
        ]
    );

    Ok(())
}

#[test]
fn test_lexer_error() {
    let res = lexer("123456789123456789123456789123456789");
    assert!(res.is_err());
    assert_eq!(
        res.unwrap_err(),
        "Parse int failed: number too large to fit in target type\nNear 0..36: 123456789123456789123456789123456789"
    );

    let res = lexer("0+a");
    assert!(res.is_err());
    assert_eq!(res.unwrap_err(), "Invalid character near 2..3: a");
}

#[test]
fn test_overflow_just_past_u64() {
    let res = lexer("0x10000000000000000");
    assert!(res.is_err());
    assert_eq!(
        res.unwrap_err(),
        "Parse int failed: number too large to fit in target type\nNear 0..19: 0x10000000000000000"
    );
}

#[test]
fn test_u64_max_fits() {
    let tokens = lexer("0xffff_ffff_ffff_ffff 18446744073709551615").unwrap();
    assert_eq!(tokens, vec![Token::Number(u64::MAX), Token::Number(u64::MAX)]);
}

#[test]
fn test_invalid_char_byte_span() {
    let res = lexer("1+λ");
    assert!(res.is_err());
    assert_eq!(res.unwrap_err(), "Invalid character near 2..4: λ");
}

#[test]
fn test_stops_at_line_end() {
    let tokens = lexer("1+2\u{c}3*4").unwrap();
    assert_eq!(tokens, vec![Token::Number(1), Token::Plus, Token::Number(2)]);
}

#[test]
fn test_token_text() {
    assert_eq!(Token::Plus.text(), "+");
    assert_eq!(Token::RP.text(), ")");
    assert_eq!(Token::Number(0).text(), "0");
    assert_eq!(Token::Number(26).text(), "26");
    assert_eq!(Token::Number(18446744073709551615).text(), "18446744073709551615");
}
