use pickle_risc::disassembler::{Disassembler, Item, ItemContent};
use pickle_risc::instruction::{Gpr, Instruction};
use pickle_risc::isa::{
    make_opcode_table, parse_arg_type, InstructionDef, InstructionDefinitionError,
    InstructionEncodingArgType, InstructionEncodingPiece, OneOrMany,
};
use pickle_risc::names::{AssemblerTable, QualifiedName};

fn def(args: Vec<(&str, InstructionEncodingArgType)>, pieces: Vec<&str>) -> InstructionDef {
    InstructionDef {
        title: "t".to_string(),
        args: args.into_iter().map(|(n, t)| (n.to_string(), t)).collect(),
        encoding_pieces: pieces.into_iter().map(|p| InstructionEncodingPiece::from_string(p.to_string())).collect(),
        pseudocode: None,
        note: None,
        microcode: None,
    }
}

#[test]
fn argument_types() {
    assert_eq!(parse_arg_type("gpr"), Ok(InstructionEncodingArgType::Gpr));
    assert_eq!(parse_arg_type("cr"), Ok(InstructionEncodingArgType::ControlRegister));
    assert_eq!(parse_arg_type("s7"), Ok(InstructionEncodingArgType::Immediate { signed: true, bits: 7 }));
    assert_eq!(parse_arg_type("u12"), Ok(InstructionEncodingArgType::Immediate { signed: false, bits: 12 }));
    assert_eq!(parse_arg_type("x7"), Err(InstructionDefinitionError::BadArgumentType("x7".to_string())));
    assert_eq!(parse_arg_type("s"), Err(InstructionDefinitionError::BadArgumentType("s".to_string())));
    assert_eq!(parse_arg_type("s1a"), Err(InstructionDefinitionError::BadArgumentType("s1a".to_string())));
    assert_eq!(InstructionEncodingArgType::Immediate { signed: true, bits: 7 }.bits(), 7);
    assert_eq!(InstructionEncodingArgType::Gpr.bits(), 3);
}

#[test]
fn encoding_pieces() {
    assert_eq!(InstructionEncodingPiece::from_string("0101".into()), InstructionEncodingPiece::Literal("0101".into()));
    assert_eq!(InstructionEncodingPiece::from_string("xxx".into()), InstructionEncodingPiece::Ignored(3));
    assert_eq!(InstructionEncodingPiece::from_string("rd".into()), InstructionEncodingPiece::Arg("rd".into()));
}

#[test]
fn encoding_patterns() {
    let add = def(
        vec![("rd", InstructionEncodingArgType::Gpr), ("ra", InstructionEncodingArgType::Gpr), ("rb", InstructionEncodingArgType::Gpr)],
        vec!["0000000", "rd", "ra", "rb"],
    );
    assert_eq!(add.encoding("add"), Ok("0000000xxxxxxxxx".to_string()));
    let bad = def(vec![], vec!["0000000", "rd"]);
    assert_eq!(
        bad.encoding("bad"),
        Err(InstructionDefinitionError::UndefinedArgument { mnemonic: "bad".into(), arg_name: "rd".into() })
    );
    let short = def(vec![], vec!["0000000", "xx"]);
    assert_eq!(
        short.encoding("short"),
        Err(InstructionDefinitionError::WrongEncodingLength { mnemonic: "short".into(), bits: 9 })
    );
}

#[test]
fn opcode_table() {
    let p = |s: &str| s.chars().collect::<Vec<char>>();
    let table = make_opcode_table(&vec![p("0000000xxxxxxxxx"), p("0001xxxxxxxxxxxx"), p("1111111111111111")]).unwrap();
    assert_eq!(table.len(), 128);
    assert_eq!(table[0], Some(0));
    assert_eq!(table[1], None);
    assert_eq!(table[0x08], Some(1));
    assert_eq!(table[0x0f], Some(1));
    assert_eq!(table[0x7f], Some(2));
    assert_eq!(
        make_opcode_table(&vec![p("000xxxxxxxxxxxxx"), p("0001xxxxxxxxxxxx")]),
        Err(InstructionDefinitionError::OpcodeCollision { opcode: 0x08, first: 0, second: 1 })
    );
}

#[test]
fn one_or_many() {
    assert_eq!(OneOrMany::One(3).into_vec(), vec![3]);
    assert_eq!(OneOrMany::Many(vec![1, 2]).into_vec(), vec![1, 2]);
}

#[test]
fn qualified_names_and_tables() {
    let mut n = QualifiedName::new_anonymous(4);
    n.push_name("inner".to_string());
    let mut m = QualifiedName::new_anonymous(4);
    assert!(!n.same_as(&m));
    m.push_name("inner".to_string());
    assert!(n.same_as(&m));
    m.pop();
    m.push_anonymous(1);
    assert!(!n.same_as(&m));

    let mut table: AssemblerTable<u32> = AssemblerTable::new();
    table.insert(n.clone(), 1);
    table.insert(m.clone(), 2);
    table.insert(n.clone(), 3);
    assert_eq!(table.get(&n), Some(&3));
    assert_eq!(table.get(&m), Some(&2));
    assert_eq!(table.get(&QualifiedName::new()), None);
}

#[test]
fn disassembler_walks_words() {
    let mut d = Disassembler::new(vec![0x0000, 0xe000, 0xffff]);
    assert_eq!(
        d.next(),
        Some(Item {
            address: 0,
            content: ItemContent::Instruction(Instruction::Add { rd: Gpr::new(0), ra: Gpr::new(0), rb: Gpr::new(0) })
        })
    );
    assert_eq!(d.next(), Some(Item { address: 1, content: ItemContent::InvalidInstruction }));
    assert_eq!(d.next(), Some(Item { address: 2, content: ItemContent::Instruction(Instruction::Break) }));
    assert_eq!(d.next(), None);
}

use pickle_risc::isa::InstructionSet;
use pickle_risc::microcode::{translate_step, AluOp, MicroOp};

fn small_set() -> InstructionSet {
    let gpr = InstructionEncodingArgType::Gpr;
    InstructionSet {
        instructions: vec![
            ("add".to_string(), def(vec![("rd", gpr), ("ra", gpr), ("rb", gpr)], vec!["0000000", "rd", "ra", "rb"])),
            (
                "addi".to_string(),
                def(
                    vec![("r", gpr), ("immediate", InstructionEncodingArgType::Immediate { signed: true, bits: 8 })],
                    vec!["0001", "x", "r", "immediate"],
                ),
            ),
            ("break".to_string(), def(vec![], vec!["1111111", "111111111"])),
        ],
        invalid_instruction_microcode: None,
        substitutions: vec![("fetch".to_string(), vec!["pc->addr_base".to_string(), "end_instruction".to_string()])],
    }
}

#[test]
fn instruction_set_opcode_table() {
    let table = small_set().opcode_table().unwrap();
    assert_eq!(table[0], Some(0));
    assert_eq!(table[0x0c], Some(1));
    assert_eq!(table[0x7f], Some(2));
    assert_eq!(table[0x70], None);
}

#[test]
fn microcode_translation() {
    let set = small_set();
    let step: Vec<String> = ["$fetch", "alu_add->result", "f3->left"].iter().map(|s| s.to_string()).collect();
    assert_eq!(
        translate_step(&step, &set.substitutions),
        Ok(vec![
            MicroOp::PcToAddrBase,
            MicroOp::GprToLeft { shift: 3 },
            MicroOp::Alu { op: AluOp::Add },
            MicroOp::EndInstruction,
        ])
    );
    let bad: Vec<String> = vec!["$nothing".to_string()];
    assert_eq!(
        translate_step(&bad, &set.substitutions),
        Err(InstructionDefinitionError::BadSubstitution("$nothing".to_string()))
    );
    let unknown: Vec<String> = vec!["teleport".to_string()];
    assert_eq!(
        translate_step(&unknown, &set.substitutions),
        Err(InstructionDefinitionError::UnknownMicroinstruction("teleport".to_string()))
    );
}

#[test]
fn qualified_name_text() {
    let mut n = QualifiedName::new_anonymous(42);
    n.push_name("inner".to_string());
    n.push_anonymous(7);
    assert_eq!(n.to_text(), "<anonymous 42>.inner.<anonymous 7>");
    assert_eq!(QualifiedName::new().to_text(), "");
}

#[test]
fn opcode_table_refuses_bad_encodings() {
    let mut set = small_set();
    set.instructions.push(("bad".to_string(), def(vec![], vec!["0000000", "xx"])));
    assert_eq!(
        set.opcode_table(),
        Err(InstructionDefinitionError::WrongEncodingLength { mnemonic: "bad".into(), bits: 9 })
    );
}
