use pickle_risc::asm_error::AsmError;
use pickle_risc::expr::{eval_binary_operator, expression, NoSymbols};
use pickle_risc::symbols::{Symbol, SymbolTable};
use pickle_risc::lexer::{tokenize, Token};

fn tokens(s: &str) -> Vec<Token> {
    tokenize(s).into_iter().map(|t| t.token).collect()
}

fn eval(s: &str) -> Result<i32, AsmError> {
    expression(&tokens(s), &NoSymbols).map(|(v, _)| v)
}

fn foo_table() -> SymbolTable {
    let mut t = SymbolTable::new();
    t.define_symbol("foo", Symbol::Free { value: 13 }, 0).unwrap();
    t
}

#[test]
fn bitmask_expression() {
    assert_eq!(eval("0xabcd & ~((1 << 8) - 1)"), Ok(0xab00));
    assert_eq!(eval("(1 << 8) - 1"), Ok(255));
}

#[test]
fn division_by_zero() {
    assert!(matches!(eval("1/0"), Err(AsmError::ValueOutOfRange { .. })));
    assert!(matches!(eval("1%0"), Err(AsmError::ValueOutOfRange { .. })));
}

#[test]
fn negative_shift() {
    assert_eq!(eval("1 << -2"), Err(AsmError::NegativeShiftAmount { position: 2 }));
    assert_eq!(eval("1 >> -2"), Err(AsmError::NegativeShiftAmount { position: 2 }));
}

#[test]
fn overflow() {
    assert!(matches!(eval("0xffffff * 0xffffff"), Err(AsmError::ValueOutOfRange { .. })));
    assert!(matches!(eval("2_147_483_647 + 1"), Err(AsmError::ValueOutOfRange { .. })));
    assert!(matches!(eval("-(-2_147_483_647 - 1)"), Err(AsmError::ValueOutOfRange { .. })));
    assert!(matches!(eval("1 << 32"), Err(AsmError::ValueOutOfRange { .. })));
    assert_eq!(eval("1 << 31"), Err(AsmError::ValueOutOfRange { position: 1 }));
    assert_eq!(eval("1 << 30"), Ok(1 << 30));
    assert_eq!(eval("-1 << 31"), Ok(i32::MIN));
    assert!(matches!(eval("0x10000 << 16"), Err(AsmError::ValueOutOfRange { .. })));
    assert!(matches!(eval("(-2_147_483_647 - 1) / -1"), Err(AsmError::ValueOutOfRange { .. })));
    assert_eq!(eval("-2_147_483_647 - 1"), Ok(i32::MIN));
}

#[test]
fn precedence_and_associativity() {
    assert_eq!(eval("1+2*3"), Ok(7));
    assert_eq!(eval("3*2+1"), Ok(7));
    assert_eq!(eval("5*2/3"), Ok(3));
    assert_eq!(eval("2*3 - 4*5 + 6/3"), Ok(-12));
    assert_eq!(eval("1 + 1 == 3 - 1"), Ok(1));
    assert_eq!(eval("(1+2)*3"), Ok(9));
    assert_eq!(eval("1 || 0 && 0"), Ok(1));
    assert_eq!(eval("1 | 2 == 2"), Ok(1));
    assert_eq!(eval("1 << 2 + 1"), Ok(8));
    assert_eq!(eval("10 - 3 - 2"), Ok(5));
}

#[test]
fn unary_operators() {
    assert_eq!(eval("!42"), Ok(0));
    assert_eq!(eval("!0"), Ok(1));
    assert_eq!(eval("~1"), Ok(-2));
    assert_eq!(eval("--19"), Ok(19));
    assert_eq!(eval("+-~!0"), Ok(2));
    assert_eq!(eval("-(18)"), Ok(-18));
}

#[test]
fn symbols_and_rest() {
    let t = tokens("foo * 2 + 1 junk");
    assert_eq!(expression(&t, &foo_table()), Ok((27, 5)));
    assert!(matches!(expression(&tokens("bar"), &foo_table()), Err(AsmError::UndefinedSymbol { position: 0 })));
    assert_eq!(expression(&tokens("!foo"), &foo_table()), Ok((0, 2)));
}

#[test]
fn malformed_expressions() {
    assert_eq!(eval(""), Err(AsmError::UnexpectedEof));
    assert_eq!(eval("1+"), Err(AsmError::UnexpectedEof));
    assert_eq!(eval("(1"), Err(AsmError::UnexpectedEof));
    assert!(matches!(eval("()"), Err(AsmError::UnexpectedToken { position: 1 })));
    assert!(matches!(eval("/1"), Err(AsmError::UnexpectedToken { position: 0 })));
}

#[test]
fn binary_operator_table() {
    let cases: [(i32, Token, i32, i32); 12] = [
        (2, Token::Asterisk, 4, 8),
        (4, Token::Slash, 2, 2),
        (11, Token::Percent, 4, 3),
        (1, Token::Minus, 9, -8),
        (0b110010, Token::Shl, 4, 0b1100100000),
        (0b110010, Token::Shr, 3, 0b110),
        (2, Token::Le, 2, 1),
        (2, Token::Gt, 2, 0),
        (0b110010, Token::BitXor, 0b101010, 0b011000),
        (100, Token::LogicalAnd, 0, 0),
        (0, Token::LogicalOr, 100, 1),
        (-8, Token::Shr, 1, -4),
    ];
    for (l, op, r, expected) in cases {
        assert_eq!(eval_binary_operator(l, r, &op, 1, 2), Ok(expected));
    }
}
