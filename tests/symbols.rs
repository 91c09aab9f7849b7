use pickle_risc::asm_error::AsmError;
use pickle_risc::expr::{expression, SymbolLookup};
use pickle_risc::lexer::{tokenize, Token};
use pickle_risc::symbols::{Symbol, SymbolTable};

#[test]
fn redefinition_in_first_pass() {
    let mut t = SymbolTable::new();
    assert_eq!(t.define_symbol("foo", Symbol::Free { value: 1 }, 7), Ok(()));
    assert_eq!(
        t.define_symbol("foo", Symbol::Free { value: 1 }, 7),
        Err(AsmError::SymbolRedefinition { position: 7 })
    );
}

#[test]
fn changed_value_in_second_pass() {
    let mut t = SymbolTable::new();
    t.define_symbol("foo", Symbol::Free { value: 1 }, 7).unwrap();
    t.start_second_pass();
    assert_eq!(
        t.define_symbol("foo", Symbol::Free { value: 2 }, 7),
        Err(AsmError::SymbolChangedValue { position: 7 })
    );
    assert_eq!(t.define_symbol("foo", Symbol::Free { value: 1 }, 7), Ok(()));
}

#[test]
fn separator_in_name_is_refused() {
    let mut t = SymbolTable::new();
    assert_eq!(
        t.define_symbol("a:b", Symbol::Free { value: 1 }, 7),
        Err(AsmError::InvalidSymbolName { position: 7 })
    );
}

#[test]
fn nested_scopes_shadow_and_unwind() {
    let mut t = SymbolTable::new();
    t.define_symbol("x", Symbol::Free { value: 1 }, 7).unwrap();
    let inner = t.push_scope();
    assert_eq!(inner, 1);
    t.define_symbol("x", Symbol::Free { value: 2 }, 7).unwrap();
    t.define_symbol("y", Symbol::Location { section: 0, offset: 0x10, attached_scope: None }, 7).unwrap();
    assert_eq!(t.lookup("x"), Some(2));
    assert_eq!(t.lookup("y"), Some(0x10));
    t.pop_scope();
    assert_eq!(t.lookup("x"), Some(1));
    assert_eq!(t.lookup("y"), None);

    t.start_second_pass();
    assert_eq!(t.push_scope(), 1);
    assert_eq!(t.define_symbol("x", Symbol::Free { value: 2 }, 7), Ok(()));
}

#[test]
fn expressions_see_symbols() {
    let mut t = SymbolTable::new();
    t.define_symbol("def", Symbol::Free { value: 3 }, 7).unwrap();
    let tokens: Vec<Token> = tokenize("def * 7").into_iter().map(|s| s.token).collect();
    assert_eq!(expression(&tokens, &t), Ok((21, 3)));
}
