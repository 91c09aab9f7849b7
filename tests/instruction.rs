use std::str::FromStr;

use pickle_risc::instruction::{ControlRegister, Gpr, Instruction, InvalidInstructionError, Opcode};

#[test]
fn instruction_instruction_from_word_invalid_opcode() {
    assert_eq!(
        Instruction::decode(0xe000u16).unwrap_err(),
        InvalidInstructionError::InvalidOpcode(0xe000)
    );
}

#[test]
fn instruction_control_register_bad_str() {
    ControlRegister::from_str("xxxxxxxxx").unwrap_err();
}

#[test]
fn instruction_control_register_bad_str_lowercase() {
    let string = ControlRegister::CpuStatus.name().to_ascii_lowercase();
    ControlRegister::from_str(&string).unwrap_err();
}

#[test]
fn control_register_names_round_trip() {
    for i in 0u16..8 {
        let cr = ControlRegister::try_from_u16(i).unwrap();
        assert_eq!(ControlRegister::from_str(&cr.name()), Ok(cr));
        assert_eq!(cr.index(), i);
    }
    assert_eq!(ControlRegister::try_from_u16(8), None);
}

#[test]
fn zero_word_is_add_of_r0() {
    let i = Instruction::decode(0x0000).unwrap();
    assert_eq!(i, Instruction::Add { rd: Gpr::new(0), ra: Gpr::new(0), rb: Gpr::new(0) });
    assert_eq!(i.encode(), 0x0000);
}

#[test]
fn all_ones_word_is_break() {
    let i = Instruction::decode(0xffff).unwrap();
    assert_eq!(i, Instruction::Break);
    assert_eq!(i.encode(), 0xffff);
}

#[test]
fn examples_round_trip() {
    let examples = [
        Instruction::Addi { r: Gpr::new(0), immediate: 1 },
        Instruction::Addi { r: Gpr::new(7), immediate: -128 },
        Instruction::Ldi { r: Gpr::new(3), immediate: 0xff },
        Instruction::Ld { rd: Gpr::new(3), address: Gpr::new(4), offset: -14 },
        Instruction::St { address: Gpr::new(1), offset: 63, rs: Gpr::new(2) },
        Instruction::Stcr { cr: ControlRegister::CpuStatus, rs: Gpr::new(7) },
        Instruction::Ldcr { rd: Gpr::new(5), cr: ControlRegister::MMUData },
        Instruction::Sub { rd: Gpr::new(1), ra: Gpr::new(2), rb: Gpr::new(3) },
        Instruction::Jal { rd: Gpr::new(7), address: Gpr::new(6) },
        Instruction::Bnz { cond: Gpr::new(2), address: Gpr::new(1) },
    ];
    for i in examples {
        assert_eq!(Instruction::decode(i.encode()), Ok(i));
    }
}

#[test]
fn exact_encodings() {
    assert_eq!(
        Instruction::Sub { rd: Gpr::new(1), ra: Gpr::new(2), rb: Gpr::new(3) }.encode(),
        0x0200 | (1 << 6) | (2 << 3) | 3
    );
    assert_eq!(Instruction::Ld { rd: Gpr::new(3), address: Gpr::new(4), offset: -14 }.encode(), 0x4e72);
    assert_eq!(Instruction::Stcr { cr: ControlRegister::CpuStatus, rs: Gpr::new(7) }.encode(), 0x820f);
}

#[test]
fn ignored_bits_are_dropped_on_reencode() {
    // Bit 11 of `addi` and bits 8..6 of `ldcr` are ignored.
    let i = Instruction::decode(0x1805).unwrap();
    assert_eq!(i, Instruction::Addi { r: Gpr::new(0), immediate: 5 });
    assert_eq!(i.encode(), 0x1005);
    let i = Instruction::decode(0x81c9).unwrap();
    assert_eq!(i.encode(), 0x8009);
}

#[test]
fn every_word_decodes_or_is_invalid() {
    for w in 0..=u16::MAX {
        match Instruction::decode(w) {
            Ok(i) => {
                assert_eq!(Instruction::decode(i.encode()), Ok(i));
                assert!(Opcode::from_word(w).is_ok());
            }
            Err(e) => {
                assert_eq!(e, InvalidInstructionError::InvalidOpcode(w));
                assert!(Opcode::from_word(w).is_err());
            }
        }
    }
}

#[test]
fn gpr_bounds() {
    assert_eq!(Gpr::try_from_u16(7).map(|g| g.to_u16()), Some(7));
    assert!(Gpr::try_from_u16(8).is_none());
}

#[test]
fn gpr_names() {
    assert_eq!(Gpr::from_str("r7"), Ok(Gpr::new(7)));
    assert_eq!(Gpr::from_str("r0"), Ok(Gpr::new(0)));
    for bad in ["xxxx", "rx", "r99", "s0", "r8", "r"] {
        assert!(Gpr::from_str(bad).is_err());
    }
}
