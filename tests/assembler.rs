use pickle_risc::asm_error::AsmError;
use pickle_risc::assembler::{assemble, AssemblerState};
use pickle_risc::instruction::{ControlRegister, Gpr, Instruction};
use pickle_risc::lexer::{tokenize, Token};
use pickle_risc::symbols::Symbol;

fn toks(s: &str) -> Vec<Token> {
    tokenize(s).into_iter().map(|t| t.token).collect()
}

#[test]
fn assignment_simple() {
    let t = toks("abc = 123");
    let mut state = AssemblerState::new();
    assert_eq!(state.assignment(&t, 0), Ok(3));
    assert_eq!(state.symbols().lookup_symbol("abc"), Some(Symbol::Free { value: 123 }));
}

#[test]
fn assignment_expression() {
    let mut state = AssemblerState::new();
    let d = toks("def = 3");
    state.assignment(&d, 0).unwrap();
    let t = toks("abc = def * 7");
    assert_eq!(state.assignment(&t, 0), Ok(5));
    assert_eq!(state.symbols().lookup_symbol("abc"), Some(Symbol::Free { value: 21 }));
}

#[test]
fn label_simple() {
    let t = toks("abc:");
    let mut state = AssemblerState::new();
    assert_eq!(state.label(&t, 0), Ok(2));
    assert_eq!(
        state.symbols().lookup_symbol("abc"),
        Some(Symbol::Location { section: 0, offset: 0, attached_scope: None })
    );
}

#[test]
fn assembles_a_program() {
    let src = "start:\n  ldi r1, 5\n  addi r1, -2 # decrement\n  st r0, end - start, r1\n  stcr IntBase, r1; break\nend:\n";
    let words = assemble(&toks(src)).unwrap();
    assert_eq!(
        words,
        vec![
            Instruction::Ldi { r: Gpr::new(1), immediate: 5 }.encode(),
            Instruction::Addi { r: Gpr::new(1), immediate: -2 }.encode(),
            Instruction::St { address: Gpr::new(0), offset: 5, rs: Gpr::new(1) }.encode(),
            Instruction::Stcr { cr: ControlRegister::IntBase, rs: Gpr::new(1) }.encode(),
            Instruction::Break.encode(),
        ]
    );
}

#[test]
fn scopes_shadow_outer_symbols() {
    let src = "x = 1\nouter: {\n x = 2\n ldi r1, x\n}\n{ ldi r2, x }\nldi r3, x\n";
    let words = assemble(&toks(src)).unwrap();
    assert_eq!(
        words,
        vec![
            Instruction::Ldi { r: Gpr::new(1), immediate: 2 }.encode(),
            Instruction::Ldi { r: Gpr::new(2), immediate: 1 }.encode(),
            Instruction::Ldi { r: Gpr::new(3), immediate: 1 }.encode(),
        ]
    );
}

#[test]
fn redefinition_is_an_error() {
    assert_eq!(
        assemble(&toks("foo = 1\nfoo = 1\n")),
        Err(vec![AsmError::SymbolRedefinition { position: 4 }])
    );
}

#[test]
fn value_that_changes_between_passes() {
    // In the first pass `later` is not defined yet and reads as 0.
    assert_eq!(
        assemble(&toks("foo = later + 1\nlater = 1\n")),
        Err(vec![AsmError::SymbolChangedValue { position: 0 }])
    );
}

fn first_error(src: &str) -> AsmError {
    assemble(&toks(src)).unwrap_err().remove(0)
}

#[test]
fn argument_errors() {
    assert!(matches!(first_error("add r1, r2, r8"), AsmError::InvalidGprName { .. }));
    assert!(matches!(first_error("ldcr r1, cpustatus"), AsmError::InvalidCrName { .. }));
    assert!(matches!(first_error("addi r1, 128"), AsmError::ValueOutOfRange { .. }));
    assert!(matches!(first_error("ld r1, r2, -65"), AsmError::ValueOutOfRange { .. }));
    assert!(matches!(first_error("frob r1"), AsmError::UnexpectedInstructionMnemonic { .. }));
    assert!(matches!(first_error("add r1 r2, r3"), AsmError::UnexpectedToken { .. }));
    assert_eq!(first_error("}"), AsmError::UnexpectedToken { position: 0 });
    assert_eq!(first_error("{ break"), AsmError::UnexpectedEof);
    assert!(matches!(first_error("undefined_symbol_use = nope"), AsmError::UndefinedSymbol { .. }));
}

#[test]
fn errors_are_collected_per_statement() {
    let errors = assemble(&toks("addi r1, 300\nbreak\nfrob\nldi r9, 1\n")).unwrap_err();
    assert_eq!(errors.len(), 3);
    assert!(matches!(errors[0], AsmError::ValueOutOfRange { .. }));
    assert!(matches!(errors[1], AsmError::UnexpectedInstructionMnemonic { .. }));
    assert!(matches!(errors[2], AsmError::InvalidGprName { .. }));
}
