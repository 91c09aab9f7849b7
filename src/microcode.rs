//! Microinstructions, their phases, and the microcode of each instruction.
//!
//! A step of an instruction is a list of microinstructions. They run in
//! order of phase, so that values are on the buses before anything reads
//! them:
//!
//! | phase | microinstructions                                              |
//! |-------|----------------------------------------------------------------|
//! | 0     | register, program counter and immediate reads onto the buses   |
//! | 1     | bus to bus moves and ALU operations                            |
//! | 2     | effective address: base plus offset; segment choice            |
//! | 3     | memory read or write; program counter update                   |
//! | 4     | memory data to the next instruction or to the result bus       |
//! | 5     | result written to a register                                   |
//! | 6     | end of instruction                                             |
//! | 7     | break                                                          |
use vstd::prelude::*;

use crate::instruction::Opcode;
use crate::isa::InstructionDefinitionError;
use crate::util::str_eq;

verus! {

#[derive(Clone, Copy, Debug, PartialEq, Eq, Structural)]
pub enum AluOp {
    Add,
    And,
    Or,
    Xor,
    Sub,
    /// Low byte of the left bus below the low byte of the right bus.
    Upsample,
}

/// Datapath actions. A `shift` names the lowest bit of a three bit register
/// field of the instruction word.
#[derive(Clone, Copy, Debug, PartialEq, Eq, Structural)]
pub enum MicroOp {
    PcToLeft,
    PcToAddrBase,
    ZeroToLeft,
    ZeroToRight,
    GprToLeft { shift: u16 },
    GprToRight { shift: u16 },
    CrToRight { shift: u16 },
    /// Low eight bits of the instruction, sign extended.
    Imm8ToRight,
    /// Low eight bits of the instruction, zero extended.
    Uimm8ToRight,
    RightToAddrBase,
    LeftToMemData,
    Alu { op: AluOp },
    /// Seven bit signed field at `shift` as the address offset.
    Imm7ToAddrOffset { shift: u16 },
    ZeroToAddrOffset,
    OneToAddrOffset,
    ProgramSegment,
    MemAddressToPc,
    /// Program counter set just past the memory address.
    MemAddressNextToPc,
    ReadMemData,
    WriteMemData,
    MemDataToInstruction,
    MemDataToResult,
    ResultToGpr { shift: u16 },
    ResultToCr { shift: u16 },
    EndInstruction,
    Break,
}

pub open spec fn spec_phase(op: MicroOp) -> u8 {
    match op {
        MicroOp::PcToLeft | MicroOp::PcToAddrBase | MicroOp::ZeroToLeft | MicroOp::ZeroToRight
        | MicroOp::GprToLeft { .. } | MicroOp::GprToRight { .. } | MicroOp::CrToRight { .. }
        | MicroOp::Imm8ToRight | MicroOp::Uimm8ToRight => 0,
        MicroOp::RightToAddrBase | MicroOp::LeftToMemData | MicroOp::Alu { .. } => 1,
        MicroOp::Imm7ToAddrOffset { .. } | MicroOp::ZeroToAddrOffset | MicroOp::OneToAddrOffset
        | MicroOp::ProgramSegment => 2,
        MicroOp::MemAddressToPc | MicroOp::MemAddressNextToPc | MicroOp::ReadMemData
        | MicroOp::WriteMemData => 3,
        MicroOp::MemDataToInstruction | MicroOp::MemDataToResult => 4,
        MicroOp::ResultToGpr { .. } | MicroOp::ResultToCr { .. } => 5,
        MicroOp::EndInstruction => 6,
        MicroOp::Break => 7,
    }
}

/// Phase of a microinstruction.
pub fn phase(op: &MicroOp) -> (r: u8)
    ensures
        r == spec_phase(*op),
{
    match op {
        MicroOp::PcToLeft | MicroOp::PcToAddrBase | MicroOp::ZeroToLeft | MicroOp::ZeroToRight
        | MicroOp::GprToLeft { .. } | MicroOp::GprToRight { .. } | MicroOp::CrToRight { .. }
        | MicroOp::Imm8ToRight | MicroOp::Uimm8ToRight => 0,
        MicroOp::RightToAddrBase | MicroOp::LeftToMemData | MicroOp::Alu { .. } => 1,
        MicroOp::Imm7ToAddrOffset { .. } | MicroOp::ZeroToAddrOffset | MicroOp::OneToAddrOffset
        | MicroOp::ProgramSegment => 2,
        MicroOp::MemAddressToPc | MicroOp::MemAddressNextToPc | MicroOp::ReadMemData
        | MicroOp::WriteMemData => 3,
        MicroOp::MemDataToInstruction | MicroOp::MemDataToResult => 4,
        MicroOp::ResultToGpr { .. } | MicroOp::ResultToCr { .. } => 5,
        MicroOp::EndInstruction => 6,
        MicroOp::Break => 7,
    }
}

pub open spec fn phase_sorted(s: Seq<MicroOp>) -> bool {
    forall|i: int, j: int| 0 <= i < j < s.len() ==> spec_phase(#[trigger] s[i]) <= spec_phase(#[trigger] s[j])
}

pub open spec fn phase_is(p: u8) -> spec_fn(MicroOp) -> bool {
    |o: MicroOp| spec_phase(o) == p
}

/// Microinstructions of phase `p`, in their order.
pub open spec fn of_phase(ops: Seq<MicroOp>, p: u8) -> Seq<MicroOp> {
    ops.filter(phase_is(p))
}

/// Those of phase 0, then those of phase 1, and so on below `p`.
pub open spec fn by_phase(ops: Seq<MicroOp>, p: u8) -> Seq<MicroOp>
    decreases p,
{
    if p == 0 {
        seq![]
    } else {
        by_phase(ops, (p - 1) as u8) + of_phase(ops, (p - 1) as u8)
    }
}

/// The same microinstructions in order of phase; within a phase they keep
/// their order.
pub fn order_by_phase(ops: &Vec<MicroOp>) -> (r: Vec<MicroOp>)
    ensures
        r@ == by_phase(ops@, 8),
        phase_sorted(r@),
{
    broadcast use vstd::seq_lib::group_filter_ensures, Seq::lemma_filter_push;

    let mut r: Vec<MicroOp> = Vec::new();
    let mut p: u8 = 0;
    while p < 8
        invariant
            p <= 8,
            forall|i: int| 0 <= i < r@.len() ==> spec_phase(#[trigger] r@[i]) < p,
            phase_sorted(r@),
            r@ == by_phase(ops@, p),
        decreases 8 - p,
    {
        let mut i: usize = 0;
        let ghost start = r@;
        assert(ops@.subrange(0, 0).filter(phase_is(p)) =~= seq![]);
        assert(r@ =~= start + ops@.subrange(0, 0).filter(phase_is(p)));
        while i < ops.len()
            invariant
                i <= ops@.len(),
                p < 8,
                start == by_phase(ops@, p),
                forall|k: int| 0 <= k < start.len() ==> spec_phase(#[trigger] start[k]) < p,
                phase_sorted(start),
                r@ == start + ops@.subrange(0, i as int).filter(phase_is(p)),
            decreases ops@.len() - i,
        {
            proof {
                assert(ops@.subrange(0, i + 1) =~= ops@.subrange(0, i as int).push(ops@[i as int]));
                ops@.subrange(0, i as int).lemma_filter_push(ops@[i as int], phase_is(p));
            }
            if phase(&ops[i]) == p {
                r.push(ops[i]);
            }
            i = i + 1;
            proof {
                assert(r@ =~= start + ops@.subrange(0, i as int).filter(phase_is(p)));
            }
        }
        proof {
            assert(ops@.subrange(0, ops@.len() as int) =~= ops@);
            let added = of_phase(ops@, p);
            assert(r@ =~= start + added);
            assert forall|k: int| 0 <= k < added.len() implies spec_phase(#[trigger] added[k]) == p by {
            }
            assert forall|a: int, b: int| 0 <= a < b < r@.len() implies spec_phase(#[trigger] r@[a]) <= spec_phase(#[trigger] r@[b]) by {
                if b >= start.len() {
                    assert(r@[b] == added[b - start.len()]);
                    if a >= start.len() {
                        assert(r@[a] == added[a - start.len()]);
                    }
                }
            }
            assert forall|k: int| 0 <= k < r@.len() implies spec_phase(#[trigger] r@[k]) < p + 1 by {
                if k >= start.len() {
                    assert(r@[k] == added[k - start.len()]);
                }
            }
        }
        p = p + 1;
    }
    r
}

/// The names of the microinstructions, as the instruction set definition
/// writes them.
pub open spec fn vocabulary() -> Seq<(Seq<char>, MicroOp)> {
    seq![
        ("pc->left"@, MicroOp::PcToLeft),
        ("pc->addr_base"@, MicroOp::PcToAddrBase),
        ("zero->left"@, MicroOp::ZeroToLeft),
        ("zero->right"@, MicroOp::ZeroToRight),
        ("f0->left"@, MicroOp::GprToLeft { shift: 0 }),
        ("f3->left"@, MicroOp::GprToLeft { shift: 3 }),
        ("f6->left"@, MicroOp::GprToLeft { shift: 6 }),
        ("f7->left"@, MicroOp::GprToLeft { shift: 7 }),
        ("f8->left"@, MicroOp::GprToLeft { shift: 8 }),
        ("f10->left"@, MicroOp::GprToLeft { shift: 10 }),
        ("f0->right"@, MicroOp::GprToRight { shift: 0 }),
        ("f3->right"@, MicroOp::GprToRight { shift: 3 }),
        ("f6->right"@, MicroOp::GprToRight { shift: 6 }),
        ("f7->right"@, MicroOp::GprToRight { shift: 7 }),
        ("f8->right"@, MicroOp::GprToRight { shift: 8 }),
        ("f10->right"@, MicroOp::GprToRight { shift: 10 }),
        ("cr0->right"@, MicroOp::CrToRight { shift: 0 }),
        ("cr3->right"@, MicroOp::CrToRight { shift: 3 }),
        ("imm8->right"@, MicroOp::Imm8ToRight),
        ("uimm8->right"@, MicroOp::Uimm8ToRight),
        ("right->addr_base"@, MicroOp::RightToAddrBase),
        ("left->mem_data"@, MicroOp::LeftToMemData),
        ("alu_add->result"@, MicroOp::Alu { op: AluOp::Add }),
        ("alu_and->result"@, MicroOp::Alu { op: AluOp::And }),
        ("alu_or->result"@, MicroOp::Alu { op: AluOp::Or }),
        ("alu_xor->result"@, MicroOp::Alu { op: AluOp::Xor }),
        ("alu_sub->result"@, MicroOp::Alu { op: AluOp::Sub }),
        ("alu_upsample->result"@, MicroOp::Alu { op: AluOp::Upsample }),
        ("imm7_0->addr_offset"@, MicroOp::Imm7ToAddrOffset { shift: 0 }),
        ("imm7_3->addr_offset"@, MicroOp::Imm7ToAddrOffset { shift: 3 }),
        ("zero->addr_offset"@, MicroOp::ZeroToAddrOffset),
        ("one->addr_offset"@, MicroOp::OneToAddrOffset),
        ("program_segment"@, MicroOp::ProgramSegment),
        ("mem_address->pc"@, MicroOp::MemAddressToPc),
        ("mem_address+1->pc"@, MicroOp::MemAddressNextToPc),
        ("read_mem_data"@, MicroOp::ReadMemData),
        ("write_mem_data"@, MicroOp::WriteMemData),
        ("mem_data->instruction"@, MicroOp::MemDataToInstruction),
        ("mem_data->result"@, MicroOp::MemDataToResult),
        ("result->f0"@, MicroOp::ResultToGpr { shift: 0 }),
        ("result->f3"@, MicroOp::ResultToGpr { shift: 3 }),
        ("result->f6"@, MicroOp::ResultToGpr { shift: 6 }),
        ("result->f8"@, MicroOp::ResultToGpr { shift: 8 }),
        ("result->f10"@, MicroOp::ResultToGpr { shift: 10 }),
        ("result->cr0"@, MicroOp::ResultToCr { shift: 0 }),
        ("result->cr3"@, MicroOp::ResultToCr { shift: 3 }),
        ("end_instruction"@, MicroOp::EndInstruction),
        ("break"@, MicroOp::Break),
    ]
}

/// The microinstruction that a name stands for.
pub open spec fn micro_of_name(s: Seq<char>) -> Option<MicroOp> {
    if s == "pc->left"@ {
        Some(MicroOp::PcToLeft)
    } else if s == "pc->addr_base"@ {
        Some(MicroOp::PcToAddrBase)
    } else if s == "zero->left"@ {
        Some(MicroOp::ZeroToLeft)
    } else if s == "zero->right"@ {
        Some(MicroOp::ZeroToRight)
    } else if s == "f0->left"@ {
        Some(MicroOp::GprToLeft { shift: 0 })
    } else if s == "f3->left"@ {
        Some(MicroOp::GprToLeft { shift: 3 })
    } else if s == "f6->left"@ {
        Some(MicroOp::GprToLeft { shift: 6 })
    } else if s == "f7->left"@ {
        Some(MicroOp::GprToLeft { shift: 7 })
    } else if s == "f8->left"@ {
        Some(MicroOp::GprToLeft { shift: 8 })
    } else if s == "f10->left"@ {
        Some(MicroOp::GprToLeft { shift: 10 })
    } else if s == "f0->right"@ {
        Some(MicroOp::GprToRight { shift: 0 })
    } else if s == "f3->right"@ {
        Some(MicroOp::GprToRight { shift: 3 })
    } else if s == "f6->right"@ {
        Some(MicroOp::GprToRight { shift: 6 })
    } else if s == "f7->right"@ {
        Some(MicroOp::GprToRight { shift: 7 })
    } else if s == "f8->right"@ {
        Some(MicroOp::GprToRight { shift: 8 })
    } else if s == "f10->right"@ {
        Some(MicroOp::GprToRight { shift: 10 })
    } else if s == "cr0->right"@ {
        Some(MicroOp::CrToRight { shift: 0 })
    } else if s == "cr3->right"@ {
        Some(MicroOp::CrToRight { shift: 3 })
    } else if s == "imm8->right"@ {
        Some(MicroOp::Imm8ToRight)
    } else if s == "uimm8->right"@ {
        Some(MicroOp::Uimm8ToRight)
    } else if s == "right->addr_base"@ {
        Some(MicroOp::RightToAddrBase)
    } else if s == "left->mem_data"@ {
        Some(MicroOp::LeftToMemData)
    } else if s == "alu_add->result"@ {
        Some(MicroOp::Alu { op: AluOp::Add })
    } else if s == "alu_and->result"@ {
        Some(MicroOp::Alu { op: AluOp::And })
    } else if s == "alu_or->result"@ {
        Some(MicroOp::Alu { op: AluOp::Or })
    } else if s == "alu_xor->result"@ {
        Some(MicroOp::Alu { op: AluOp::Xor })
    } else if s == "alu_sub->result"@ {
        Some(MicroOp::Alu { op: AluOp::Sub })
    } else if s == "alu_upsample->result"@ {
        Some(MicroOp::Alu { op: AluOp::Upsample })
    } else if s == "imm7_0->addr_offset"@ {
        Some(MicroOp::Imm7ToAddrOffset { shift: 0 })
    } else if s == "imm7_3->addr_offset"@ {
        Some(MicroOp::Imm7ToAddrOffset { shift: 3 })
    } else if s == "zero->addr_offset"@ {
        Some(MicroOp::ZeroToAddrOffset)
    } else if s == "one->addr_offset"@ {
        Some(MicroOp::OneToAddrOffset)
    } else if s == "program_segment"@ {
        Some(MicroOp::ProgramSegment)
    } else if s == "mem_address->pc"@ {
        Some(MicroOp::MemAddressToPc)
    } else if s == "mem_address+1->pc"@ {
        Some(MicroOp::MemAddressNextToPc)
    } else if s == "read_mem_data"@ {
        Some(MicroOp::ReadMemData)
    } else if s == "write_mem_data"@ {
        Some(MicroOp::WriteMemData)
    } else if s == "mem_data->instruction"@ {
        Some(MicroOp::MemDataToInstruction)
    } else if s == "mem_data->result"@ {
        Some(MicroOp::MemDataToResult)
    } else if s == "result->f0"@ {
        Some(MicroOp::ResultToGpr { shift: 0 })
    } else if s == "result->f3"@ {
        Some(MicroOp::ResultToGpr { shift: 3 })
    } else if s == "result->f6"@ {
        Some(MicroOp::ResultToGpr { shift: 6 })
    } else if s == "result->f8"@ {
        Some(MicroOp::ResultToGpr { shift: 8 })
    } else if s == "result->f10"@ {
        Some(MicroOp::ResultToGpr { shift: 10 })
    } else if s == "result->cr0"@ {
        Some(MicroOp::ResultToCr { shift: 0 })
    } else if s == "result->cr3"@ {
        Some(MicroOp::ResultToCr { shift: 3 })
    } else if s == "end_instruction"@ {
        Some(MicroOp::EndInstruction)
    } else if s == "break"@ {
        Some(MicroOp::Break)
    } else {
        None
    }
}

/// The microinstruction of a name, or `None` for a name outside the
/// vocabulary.
pub fn parse_microinstruction(s: &str) -> (r: Option<MicroOp>)
    ensures
        r == micro_of_name(s@),
        r matches Some(op) ==> exists|i: int| 0 <= i < vocabulary().len() && vocabulary()[i] == (s@, op),
        r is None ==> forall|i: int| 0 <= i < vocabulary().len() ==> (#[trigger] vocabulary()[i]).0 != s@,
{
    if str_eq(s, "pc->left") {
        assert(vocabulary()[0] == (s@, MicroOp::PcToLeft));
        Some(MicroOp::PcToLeft)
    } else if str_eq(s, "pc->addr_base") {
        assert(vocabulary()[1] == (s@, MicroOp::PcToAddrBase));
        Some(MicroOp::PcToAddrBase)
    } else if str_eq(s, "zero->left") {
        assert(vocabulary()[2] == (s@, MicroOp::ZeroToLeft));
        Some(MicroOp::ZeroToLeft)
    } else if str_eq(s, "zero->right") {
        assert(vocabulary()[3] == (s@, MicroOp::ZeroToRight));
        Some(MicroOp::ZeroToRight)
    } else if str_eq(s, "f0->left") {
        assert(vocabulary()[4] == (s@, MicroOp::GprToLeft { shift: 0 }));
        Some(MicroOp::GprToLeft { shift: 0 })
    } else if str_eq(s, "f3->left") {
        assert(vocabulary()[5] == (s@, MicroOp::GprToLeft { shift: 3 }));
        Some(MicroOp::GprToLeft { shift: 3 })
    } else if str_eq(s, "f6->left") {
        assert(vocabulary()[6] == (s@, MicroOp::GprToLeft { shift: 6 }));
        Some(MicroOp::GprToLeft { shift: 6 })
    } else if str_eq(s, "f7->left") {
        assert(vocabulary()[7] == (s@, MicroOp::GprToLeft { shift: 7 }));
        Some(MicroOp::GprToLeft { shift: 7 })
    } else if str_eq(s, "f8->left") {
        assert(vocabulary()[8] == (s@, MicroOp::GprToLeft { shift: 8 }));
        Some(MicroOp::GprToLeft { shift: 8 })
    } else if str_eq(s, "f10->left") {
        assert(vocabulary()[9] == (s@, MicroOp::GprToLeft { shift: 10 }));
        Some(MicroOp::GprToLeft { shift: 10 })
    } else if str_eq(s, "f0->right") {
        assert(vocabulary()[10] == (s@, MicroOp::GprToRight { shift: 0 }));
        Some(MicroOp::GprToRight { shift: 0 })
    } else if str_eq(s, "f3->right") {
        assert(vocabulary()[11] == (s@, MicroOp::GprToRight { shift: 3 }));
        Some(MicroOp::GprToRight { shift: 3 })
    } else if str_eq(s, "f6->right") {
        assert(vocabulary()[12] == (s@, MicroOp::GprToRight { shift: 6 }));
        Some(MicroOp::GprToRight { shift: 6 })
    } else if str_eq(s, "f7->right") {
        assert(vocabulary()[13] == (s@, MicroOp::GprToRight { shift: 7 }));
        Some(MicroOp::GprToRight { shift: 7 })
    } else if str_eq(s, "f8->right") {
        assert(vocabulary()[14] == (s@, MicroOp::GprToRight { shift: 8 }));
        Some(MicroOp::GprToRight { shift: 8 })
    } else if str_eq(s, "f10->right") {
        assert(vocabulary()[15] == (s@, MicroOp::GprToRight { shift: 10 }));
        Some(MicroOp::GprToRight { shift: 10 })
    } else if str_eq(s, "cr0->right") {
        assert(vocabulary()[16] == (s@, MicroOp::CrToRight { shift: 0 }));
        Some(MicroOp::CrToRight { shift: 0 })
    } else if str_eq(s, "cr3->right") {
        assert(vocabulary()[17] == (s@, MicroOp::CrToRight { shift: 3 }));
        Some(MicroOp::CrToRight { shift: 3 })
    } else if str_eq(s, "imm8->right") {
        assert(vocabulary()[18] == (s@, MicroOp::Imm8ToRight));
        Some(MicroOp::Imm8ToRight)
    } else if str_eq(s, "uimm8->right") {
        assert(vocabulary()[19] == (s@, MicroOp::Uimm8ToRight));
        Some(MicroOp::Uimm8ToRight)
    } else if str_eq(s, "right->addr_base") {
        assert(vocabulary()[20] == (s@, MicroOp::RightToAddrBase));
        Some(MicroOp::RightToAddrBase)
    } else if str_eq(s, "left->mem_data") {
        assert(vocabulary()[21] == (s@, MicroOp::LeftToMemData));
        Some(MicroOp::LeftToMemData)
    } else if str_eq(s, "alu_add->result") {
        assert(vocabulary()[22] == (s@, MicroOp::Alu { op: AluOp::Add }));
        Some(MicroOp::Alu { op: AluOp::Add })
    } else if str_eq(s, "alu_and->result") {
        assert(vocabulary()[23] == (s@, MicroOp::Alu { op: AluOp::And }));
        Some(MicroOp::Alu { op: AluOp::And })
    } else if str_eq(s, "alu_or->result") {
        assert(vocabulary()[24] == (s@, MicroOp::Alu { op: AluOp::Or }));
        Some(MicroOp::Alu { op: AluOp::Or })
    } else if str_eq(s, "alu_xor->result") {
        assert(vocabulary()[25] == (s@, MicroOp::Alu { op: AluOp::Xor }));
        Some(MicroOp::Alu { op: AluOp::Xor })
    } else if str_eq(s, "alu_sub->result") {
        assert(vocabulary()[26] == (s@, MicroOp::Alu { op: AluOp::Sub }));
        Some(MicroOp::Alu { op: AluOp::Sub })
    } else if str_eq(s, "alu_upsample->result") {
        assert(vocabulary()[27] == (s@, MicroOp::Alu { op: AluOp::Upsample }));
        Some(MicroOp::Alu { op: AluOp::Upsample })
    } else if str_eq(s, "imm7_0->addr_offset") {
        assert(vocabulary()[28] == (s@, MicroOp::Imm7ToAddrOffset { shift: 0 }));
        Some(MicroOp::Imm7ToAddrOffset { shift: 0 })
    } else if str_eq(s, "imm7_3->addr_offset") {
        assert(vocabulary()[29] == (s@, MicroOp::Imm7ToAddrOffset { shift: 3 }));
        Some(MicroOp::Imm7ToAddrOffset { shift: 3 })
    } else if str_eq(s, "zero->addr_offset") {
        assert(vocabulary()[30] == (s@, MicroOp::ZeroToAddrOffset));
        Some(MicroOp::ZeroToAddrOffset)
    } else if str_eq(s, "one->addr_offset") {
        assert(vocabulary()[31] == (s@, MicroOp::OneToAddrOffset));
        Some(MicroOp::OneToAddrOffset)
    } else if str_eq(s, "program_segment") {
        assert(vocabulary()[32] == (s@, MicroOp::ProgramSegment));
        Some(MicroOp::ProgramSegment)
    } else if str_eq(s, "mem_address->pc") {
        assert(vocabulary()[33] == (s@, MicroOp::MemAddressToPc));
        Some(MicroOp::MemAddressToPc)
    } else if str_eq(s, "mem_address+1->pc") {
        assert(vocabulary()[34] == (s@, MicroOp::MemAddressNextToPc));
        Some(MicroOp::MemAddressNextToPc)
    } else if str_eq(s, "read_mem_data") {
        assert(vocabulary()[35] == (s@, MicroOp::ReadMemData));
        Some(MicroOp::ReadMemData)
    } else if str_eq(s, "write_mem_data") {
        assert(vocabulary()[36] == (s@, MicroOp::WriteMemData));
        Some(MicroOp::WriteMemData)
    } else if str_eq(s, "mem_data->instruction") {
        assert(vocabulary()[37] == (s@, MicroOp::MemDataToInstruction));
        Some(MicroOp::MemDataToInstruction)
    } else if str_eq(s, "mem_data->result") {
        assert(vocabulary()[38] == (s@, MicroOp::MemDataToResult));
        Some(MicroOp::MemDataToResult)
    } else if str_eq(s, "result->f0") {
        assert(vocabulary()[39] == (s@, MicroOp::ResultToGpr { shift: 0 }));
        Some(MicroOp::ResultToGpr { shift: 0 })
    } else if str_eq(s, "result->f3") {
        assert(vocabulary()[40] == (s@, MicroOp::ResultToGpr { shift: 3 }));
        Some(MicroOp::ResultToGpr { shift: 3 })
    } else if str_eq(s, "result->f6") {
        assert(vocabulary()[41] == (s@, MicroOp::ResultToGpr { shift: 6 }));
        Some(MicroOp::ResultToGpr { shift: 6 })
    } else if str_eq(s, "result->f8") {
        assert(vocabulary()[42] == (s@, MicroOp::ResultToGpr { shift: 8 }));
        Some(MicroOp::ResultToGpr { shift: 8 })
    } else if str_eq(s, "result->f10") {
        assert(vocabulary()[43] == (s@, MicroOp::ResultToGpr { shift: 10 }));
        Some(MicroOp::ResultToGpr { shift: 10 })
    } else if str_eq(s, "result->cr0") {
        assert(vocabulary()[44] == (s@, MicroOp::ResultToCr { shift: 0 }));
        Some(MicroOp::ResultToCr { shift: 0 })
    } else if str_eq(s, "result->cr3") {
        assert(vocabulary()[45] == (s@, MicroOp::ResultToCr { shift: 3 }));
        Some(MicroOp::ResultToCr { shift: 3 })
    } else if str_eq(s, "end_instruction") {
        assert(vocabulary()[46] == (s@, MicroOp::EndInstruction));
        Some(MicroOp::EndInstruction)
    } else if str_eq(s, "break") {
        assert(vocabulary()[47] == (s@, MicroOp::Break));
        Some(MicroOp::Break)
    } else {
        None
    }
}

/// Microcode of each instruction: its steps, each a list of
/// microinstructions in the order written; they run in order of phase.
/// Conditional branches have none yet.
pub open spec fn microcode_of(op: Opcode) -> Option<Seq<Seq<MicroOp>>> {
    match op {
        Opcode::Add => Some(seq![seq![MicroOp::GprToLeft { shift: 3 }, MicroOp::GprToRight { shift: 0 }, MicroOp::Alu { op: AluOp::Add }, MicroOp::ResultToGpr { shift: 6 }, MicroOp::PcToAddrBase, MicroOp::ZeroToAddrOffset, MicroOp::ProgramSegment, MicroOp::ReadMemData, MicroOp::MemDataToInstruction, MicroOp::MemAddressNextToPc, MicroOp::EndInstruction]]),
        Opcode::Sub => Some(seq![seq![MicroOp::GprToLeft { shift: 3 }, MicroOp::GprToRight { shift: 0 }, MicroOp::Alu { op: AluOp::Sub }, MicroOp::ResultToGpr { shift: 6 }, MicroOp::PcToAddrBase, MicroOp::ZeroToAddrOffset, MicroOp::ProgramSegment, MicroOp::ReadMemData, MicroOp::MemDataToInstruction, MicroOp::MemAddressNextToPc, MicroOp::EndInstruction]]),
        Opcode::And => Some(seq![seq![MicroOp::GprToLeft { shift: 3 }, MicroOp::GprToRight { shift: 0 }, MicroOp::Alu { op: AluOp::And }, MicroOp::ResultToGpr { shift: 6 }, MicroOp::PcToAddrBase, MicroOp::ZeroToAddrOffset, MicroOp::ProgramSegment, MicroOp::ReadMemData, MicroOp::MemDataToInstruction, MicroOp::MemAddressNextToPc, MicroOp::EndInstruction]]),
        Opcode::Or => Some(seq![seq![MicroOp::GprToLeft { shift: 3 }, MicroOp::GprToRight { shift: 0 }, MicroOp::Alu { op: AluOp::Or }, MicroOp::ResultToGpr { shift: 6 }, MicroOp::PcToAddrBase, MicroOp::ZeroToAddrOffset, MicroOp::ProgramSegment, MicroOp::ReadMemData, MicroOp::MemDataToInstruction, MicroOp::MemAddressNextToPc, MicroOp::EndInstruction]]),
        Opcode::Xor => Some(seq![seq![MicroOp::GprToLeft { shift: 3 }, MicroOp::GprToRight { shift: 0 }, MicroOp::Alu { op: AluOp::Xor }, MicroOp::ResultToGpr { shift: 6 }, MicroOp::PcToAddrBase, MicroOp::ZeroToAddrOffset, MicroOp::ProgramSegment, MicroOp::ReadMemData, MicroOp::MemDataToInstruction, MicroOp::MemAddressNextToPc, MicroOp::EndInstruction]]),
        Opcode::Upsample => Some(seq![seq![MicroOp::GprToLeft { shift: 3 }, MicroOp::GprToRight { shift: 0 }, MicroOp::Alu { op: AluOp::Upsample }, MicroOp::ResultToGpr { shift: 6 }, MicroOp::PcToAddrBase, MicroOp::ZeroToAddrOffset, MicroOp::ProgramSegment, MicroOp::ReadMemData, MicroOp::MemDataToInstruction, MicroOp::MemAddressNextToPc, MicroOp::EndInstruction]]),
        Opcode::Addi => Some(seq![seq![MicroOp::GprToLeft { shift: 8 }, MicroOp::Imm8ToRight, MicroOp::Alu { op: AluOp::Add }, MicroOp::ResultToGpr { shift: 8 }, MicroOp::PcToAddrBase, MicroOp::ZeroToAddrOffset, MicroOp::ProgramSegment, MicroOp::ReadMemData, MicroOp::MemDataToInstruction, MicroOp::MemAddressNextToPc, MicroOp::EndInstruction]]),
        Opcode::Ldi => Some(seq![seq![MicroOp::ZeroToLeft, MicroOp::Uimm8ToRight, MicroOp::Alu { op: AluOp::Or }, MicroOp::ResultToGpr { shift: 8 }, MicroOp::PcToAddrBase, MicroOp::ZeroToAddrOffset, MicroOp::ProgramSegment, MicroOp::ReadMemData, MicroOp::MemDataToInstruction, MicroOp::MemAddressNextToPc, MicroOp::EndInstruction]]),
        Opcode::Ld => Some(seq![seq![MicroOp::GprToRight { shift: 7 }, MicroOp::RightToAddrBase, MicroOp::Imm7ToAddrOffset { shift: 0 }, MicroOp::ReadMemData, MicroOp::MemDataToResult, MicroOp::ResultToGpr { shift: 10 }], seq![MicroOp::PcToAddrBase, MicroOp::ZeroToAddrOffset, MicroOp::ProgramSegment, MicroOp::ReadMemData, MicroOp::MemDataToInstruction, MicroOp::MemAddressNextToPc, MicroOp::EndInstruction]]),
        Opcode::St => Some(seq![seq![MicroOp::GprToLeft { shift: 0 }, MicroOp::LeftToMemData, MicroOp::GprToRight { shift: 10 }, MicroOp::RightToAddrBase, MicroOp::Imm7ToAddrOffset { shift: 3 }, MicroOp::WriteMemData], seq![MicroOp::PcToAddrBase, MicroOp::ZeroToAddrOffset, MicroOp::ProgramSegment, MicroOp::ReadMemData, MicroOp::MemDataToInstruction, MicroOp::MemAddressNextToPc, MicroOp::EndInstruction]]),
        Opcode::Ldcr => Some(seq![seq![MicroOp::ZeroToLeft, MicroOp::CrToRight { shift: 0 }, MicroOp::Alu { op: AluOp::Or }, MicroOp::ResultToGpr { shift: 3 }, MicroOp::PcToAddrBase, MicroOp::ZeroToAddrOffset, MicroOp::ProgramSegment, MicroOp::ReadMemData, MicroOp::MemDataToInstruction, MicroOp::MemAddressNextToPc, MicroOp::EndInstruction]]),
        Opcode::Stcr => Some(seq![seq![MicroOp::ZeroToLeft, MicroOp::GprToRight { shift: 0 }, MicroOp::Alu { op: AluOp::Or }, MicroOp::ResultToCr { shift: 3 }, MicroOp::PcToAddrBase, MicroOp::ZeroToAddrOffset, MicroOp::ProgramSegment, MicroOp::ReadMemData, MicroOp::MemDataToInstruction, MicroOp::MemAddressNextToPc, MicroOp::EndInstruction]]),
        Opcode::Jal => Some(seq![seq![MicroOp::PcToLeft, MicroOp::ZeroToRight, MicroOp::Alu { op: AluOp::Or }, MicroOp::ResultToGpr { shift: 3 }, MicroOp::GprToRight { shift: 0 }, MicroOp::RightToAddrBase, MicroOp::ZeroToAddrOffset, MicroOp::ProgramSegment, MicroOp::ReadMemData, MicroOp::MemDataToInstruction, MicroOp::MemAddressNextToPc, MicroOp::EndInstruction]]),
        Opcode::Bz => None,
        Opcode::Bnz => None,
        Opcode::Break => Some(seq![seq![MicroOp::Break]]),
    }
}

/// Microcode of one step of an instruction.
pub enum StepCode {
    Ops(Vec<MicroOp>),
    /// The instruction has fewer steps.
    PastEnd,
    /// The instruction has no microcode.
    Missing,
}

fn ops_of(ops: &[MicroOp]) -> (r: Vec<MicroOp>)
    ensures
        r@ == ops@,
{
    let mut r: Vec<MicroOp> = Vec::new();
    let mut i: usize = 0;
    while i < ops.len()
        invariant
            i <= ops@.len(),
            r@ == ops@.subrange(0, i as int),
        decreases ops@.len() - i,
    {
        r.push(ops[i]);
        i = i + 1;
        assert(r@ =~= ops@.subrange(0, i as int));
    }
    assert(ops@.subrange(0, ops@.len() as int) =~= ops@);
    r
}

/// Microinstructions of step `step` of an instruction, in the order written.
pub fn microcode_step(op: Opcode, step: u8) -> (r: StepCode)
    ensures
        match microcode_of(op) {
            None => r is Missing,
            Some(steps) => if step < steps.len() {
                r matches StepCode::Ops(v) && v@ == steps[step as int]
            } else {
                r is PastEnd
            },
        },
{
    match op {
        Opcode::Add => {
            if step == 0 {
                let ops = ops_of(&[MicroOp::GprToLeft { shift: 3 }, MicroOp::GprToRight { shift: 0 }, MicroOp::Alu { op: AluOp::Add }, MicroOp::ResultToGpr { shift: 6 }, MicroOp::PcToAddrBase, MicroOp::ZeroToAddrOffset, MicroOp::ProgramSegment, MicroOp::ReadMemData, MicroOp::MemDataToInstruction, MicroOp::MemAddressNextToPc, MicroOp::EndInstruction]);
                assert(ops@ =~= seq![seq![MicroOp::GprToLeft { shift: 3 }, MicroOp::GprToRight { shift: 0 }, MicroOp::Alu { op: AluOp::Add }, MicroOp::ResultToGpr { shift: 6 }, MicroOp::PcToAddrBase, MicroOp::ZeroToAddrOffset, MicroOp::ProgramSegment, MicroOp::ReadMemData, MicroOp::MemDataToInstruction, MicroOp::MemAddressNextToPc, MicroOp::EndInstruction]][0]);
                StepCode::Ops(ops)
            } else {
                StepCode::PastEnd
            }
        },
        Opcode::Sub => {
            if step == 0 {
                let ops = ops_of(&[MicroOp::GprToLeft { shift: 3 }, MicroOp::GprToRight { shift: 0 }, MicroOp::Alu { op: AluOp::Sub }, MicroOp::ResultToGpr { shift: 6 }, MicroOp::PcToAddrBase, MicroOp::ZeroToAddrOffset, MicroOp::ProgramSegment, MicroOp::ReadMemData, MicroOp::MemDataToInstruction, MicroOp::MemAddressNextToPc, MicroOp::EndInstruction]);
                assert(ops@ =~= seq![seq![MicroOp::GprToLeft { shift: 3 }, MicroOp::GprToRight { shift: 0 }, MicroOp::Alu { op: AluOp::Sub }, MicroOp::ResultToGpr { shift: 6 }, MicroOp::PcToAddrBase, MicroOp::ZeroToAddrOffset, MicroOp::ProgramSegment, MicroOp::ReadMemData, MicroOp::MemDataToInstruction, MicroOp::MemAddressNextToPc, MicroOp::EndInstruction]][0]);
                StepCode::Ops(ops)
            } else {
                StepCode::PastEnd
            }
        },
        Opcode::And => {
            if step == 0 {
                let ops = ops_of(&[MicroOp::GprToLeft { shift: 3 }, MicroOp::GprToRight { shift: 0 }, MicroOp::Alu { op: AluOp::And }, MicroOp::ResultToGpr { shift: 6 }, MicroOp::PcToAddrBase, MicroOp::ZeroToAddrOffset, MicroOp::ProgramSegment, MicroOp::ReadMemData, MicroOp::MemDataToInstruction, MicroOp::MemAddressNextToPc, MicroOp::EndInstruction]);
                assert(ops@ =~= seq![seq![MicroOp::GprToLeft { shift: 3 }, MicroOp::GprToRight { shift: 0 }, MicroOp::Alu { op: AluOp::And }, MicroOp::ResultToGpr { shift: 6 }, MicroOp::PcToAddrBase, MicroOp::ZeroToAddrOffset, MicroOp::ProgramSegment, MicroOp::ReadMemData, MicroOp::MemDataToInstruction, MicroOp::MemAddressNextToPc, MicroOp::EndInstruction]][0]);
                StepCode::Ops(ops)
            } else {
                StepCode::PastEnd
            }
        },
        Opcode::Or => {
            if step == 0 {
                let ops = ops_of(&[MicroOp::GprToLeft { shift: 3 }, MicroOp::GprToRight { shift: 0 }, MicroOp::Alu { op: AluOp::Or }, MicroOp::ResultToGpr { shift: 6 }, MicroOp::PcToAddrBase, MicroOp::ZeroToAddrOffset, MicroOp::ProgramSegment, MicroOp::ReadMemData, MicroOp::MemDataToInstruction, MicroOp::MemAddressNextToPc, MicroOp::EndInstruction]);
                assert(ops@ =~= seq![seq![MicroOp::GprToLeft { shift: 3 }, MicroOp::GprToRight { shift: 0 }, MicroOp::Alu { op: AluOp::Or }, MicroOp::ResultToGpr { shift: 6 }, MicroOp::PcToAddrBase, MicroOp::ZeroToAddrOffset, MicroOp::ProgramSegment, MicroOp::ReadMemData, MicroOp::MemDataToInstruction, MicroOp::MemAddressNextToPc, MicroOp::EndInstruction]][0]);
                StepCode::Ops(ops)
            } else {
                StepCode::PastEnd
            }
        },
        Opcode::Xor => {
            if step == 0 {
                let ops = ops_of(&[MicroOp::GprToLeft { shift: 3 }, MicroOp::GprToRight { shift: 0 }, MicroOp::Alu { op: AluOp::Xor }, MicroOp::ResultToGpr { shift: 6 }, MicroOp::PcToAddrBase, MicroOp::ZeroToAddrOffset, MicroOp::ProgramSegment, MicroOp::ReadMemData, MicroOp::MemDataToInstruction, MicroOp::MemAddressNextToPc, MicroOp::EndInstruction]);
                assert(ops@ =~= seq![seq![MicroOp::GprToLeft { shift: 3 }, MicroOp::GprToRight { shift: 0 }, MicroOp::Alu { op: AluOp::Xor }, MicroOp::ResultToGpr { shift: 6 }, MicroOp::PcToAddrBase, MicroOp::ZeroToAddrOffset, MicroOp::ProgramSegment, MicroOp::ReadMemData, MicroOp::MemDataToInstruction, MicroOp::MemAddressNextToPc, MicroOp::EndInstruction]][0]);
                StepCode::Ops(ops)
            } else {
                StepCode::PastEnd
            }
        },
        Opcode::Upsample => {
            if step == 0 {
                let ops = ops_of(&[MicroOp::GprToLeft { shift: 3 }, MicroOp::GprToRight { shift: 0 }, MicroOp::Alu { op: AluOp::Upsample }, MicroOp::ResultToGpr { shift: 6 }, MicroOp::PcToAddrBase, MicroOp::ZeroToAddrOffset, MicroOp::ProgramSegment, MicroOp::ReadMemData, MicroOp::MemDataToInstruction, MicroOp::MemAddressNextToPc, MicroOp::EndInstruction]);
                assert(ops@ =~= seq![seq![MicroOp::GprToLeft { shift: 3 }, MicroOp::GprToRight { shift: 0 }, MicroOp::Alu { op: AluOp::Upsample }, MicroOp::ResultToGpr { shift: 6 }, MicroOp::PcToAddrBase, MicroOp::ZeroToAddrOffset, MicroOp::ProgramSegment, MicroOp::ReadMemData, MicroOp::MemDataToInstruction, MicroOp::MemAddressNextToPc, MicroOp::EndInstruction]][0]);
                StepCode::Ops(ops)
            } else {
                StepCode::PastEnd
            }
        },
        Opcode::Addi => {
            if step == 0 {
                let ops = ops_of(&[MicroOp::GprToLeft { shift: 8 }, MicroOp::Imm8ToRight, MicroOp::Alu { op: AluOp::Add }, MicroOp::ResultToGpr { shift: 8 }, MicroOp::PcToAddrBase, MicroOp::ZeroToAddrOffset, MicroOp::ProgramSegment, MicroOp::ReadMemData, MicroOp::MemDataToInstruction, MicroOp::MemAddressNextToPc, MicroOp::EndInstruction]);
                assert(ops@ =~= seq![seq![MicroOp::GprToLeft { shift: 8 }, MicroOp::Imm8ToRight, MicroOp::Alu { op: AluOp::Add }, MicroOp::ResultToGpr { shift: 8 }, MicroOp::PcToAddrBase, MicroOp::ZeroToAddrOffset, MicroOp::ProgramSegment, MicroOp::ReadMemData, MicroOp::MemDataToInstruction, MicroOp::MemAddressNextToPc, MicroOp::EndInstruction]][0]);
                StepCode::Ops(ops)
            } else {
                StepCode::PastEnd
            }
        },
        Opcode::Ldi => {
            if step == 0 {
                let ops = ops_of(&[MicroOp::ZeroToLeft, MicroOp::Uimm8ToRight, MicroOp::Alu { op: AluOp::Or }, MicroOp::ResultToGpr { shift: 8 }, MicroOp::PcToAddrBase, MicroOp::ZeroToAddrOffset, MicroOp::ProgramSegment, MicroOp::ReadMemData, MicroOp::MemDataToInstruction, MicroOp::MemAddressNextToPc, MicroOp::EndInstruction]);
                assert(ops@ =~= seq![seq![MicroOp::ZeroToLeft, MicroOp::Uimm8ToRight, MicroOp::Alu { op: AluOp::Or }, MicroOp::ResultToGpr { shift: 8 }, MicroOp::PcToAddrBase, MicroOp::ZeroToAddrOffset, MicroOp::ProgramSegment, MicroOp::ReadMemData, MicroOp::MemDataToInstruction, MicroOp::MemAddressNextToPc, MicroOp::EndInstruction]][0]);
                StepCode::Ops(ops)
            } else {
                StepCode::PastEnd
            }
        },
        Opcode::Ld => {
            if step == 0 {
                let ops = ops_of(&[MicroOp::GprToRight { shift: 7 }, MicroOp::RightToAddrBase, MicroOp::Imm7ToAddrOffset { shift: 0 }, MicroOp::ReadMemData, MicroOp::MemDataToResult, MicroOp::ResultToGpr { shift: 10 }]);
                assert(ops@ =~= seq![seq![MicroOp::GprToRight { shift: 7 }, MicroOp::RightToAddrBase, MicroOp::Imm7ToAddrOffset { shift: 0 }, MicroOp::ReadMemData, MicroOp::MemDataToResult, MicroOp::ResultToGpr { shift: 10 }]][0]);
                StepCode::Ops(ops)
            } else if step == 1 {
                let ops = ops_of(&[MicroOp::PcToAddrBase, MicroOp::ZeroToAddrOffset, MicroOp::ProgramSegment, MicroOp::ReadMemData, MicroOp::MemDataToInstruction, MicroOp::MemAddressNextToPc, MicroOp::EndInstruction]);
                assert(ops@ =~= seq![seq![MicroOp::PcToAddrBase, MicroOp::ZeroToAddrOffset, MicroOp::ProgramSegment, MicroOp::ReadMemData, MicroOp::MemDataToInstruction, MicroOp::MemAddressNextToPc, MicroOp::EndInstruction]][0]);
                StepCode::Ops(ops)
            } else {
                StepCode::PastEnd
            }
        },
        Opcode::St => {
            if step == 0 {
                let ops = ops_of(&[MicroOp::GprToLeft { shift: 0 }, MicroOp::LeftToMemData, MicroOp::GprToRight { shift: 10 }, MicroOp::RightToAddrBase, MicroOp::Imm7ToAddrOffset { shift: 3 }, MicroOp::WriteMemData]);
                assert(ops@ =~= seq![seq![MicroOp::GprToLeft { shift: 0 }, MicroOp::LeftToMemData, MicroOp::GprToRight { shift: 10 }, MicroOp::RightToAddrBase, MicroOp::Imm7ToAddrOffset { shift: 3 }, MicroOp::WriteMemData]][0]);
                StepCode::Ops(ops)
            } else if step == 1 {
                let ops = ops_of(&[MicroOp::PcToAddrBase, MicroOp::ZeroToAddrOffset, MicroOp::ProgramSegment, MicroOp::ReadMemData, MicroOp::MemDataToInstruction, MicroOp::MemAddressNextToPc, MicroOp::EndInstruction]);
                assert(ops@ =~= seq![seq![MicroOp::PcToAddrBase, MicroOp::ZeroToAddrOffset, MicroOp::ProgramSegment, MicroOp::ReadMemData, MicroOp::MemDataToInstruction, MicroOp::MemAddressNextToPc, MicroOp::EndInstruction]][0]);
                StepCode::Ops(ops)
            } else {
                StepCode::PastEnd
            }
        },
        Opcode::Ldcr => {
            if step == 0 {
                let ops = ops_of(&[MicroOp::ZeroToLeft, MicroOp::CrToRight { shift: 0 }, MicroOp::Alu { op: AluOp::Or }, MicroOp::ResultToGpr { shift: 3 }, MicroOp::PcToAddrBase, MicroOp::ZeroToAddrOffset, MicroOp::ProgramSegment, MicroOp::ReadMemData, MicroOp::MemDataToInstruction, MicroOp::MemAddressNextToPc, MicroOp::EndInstruction]);
                assert(ops@ =~= seq![seq![MicroOp::ZeroToLeft, MicroOp::CrToRight { shift: 0 }, MicroOp::Alu { op: AluOp::Or }, MicroOp::ResultToGpr { shift: 3 }, MicroOp::PcToAddrBase, MicroOp::ZeroToAddrOffset, MicroOp::ProgramSegment, MicroOp::ReadMemData, MicroOp::MemDataToInstruction, MicroOp::MemAddressNextToPc, MicroOp::EndInstruction]][0]);
                StepCode::Ops(ops)
            } else {
                StepCode::PastEnd
            }
        },
        Opcode::Stcr => {
            if step == 0 {
                let ops = ops_of(&[MicroOp::ZeroToLeft, MicroOp::GprToRight { shift: 0 }, MicroOp::Alu { op: AluOp::Or }, MicroOp::ResultToCr { shift: 3 }, MicroOp::PcToAddrBase, MicroOp::ZeroToAddrOffset, MicroOp::ProgramSegment, MicroOp::ReadMemData, MicroOp::MemDataToInstruction, MicroOp::MemAddressNextToPc, MicroOp::EndInstruction]);
                assert(ops@ =~= seq![seq![MicroOp::ZeroToLeft, MicroOp::GprToRight { shift: 0 }, MicroOp::Alu { op: AluOp::Or }, MicroOp::ResultToCr { shift: 3 }, MicroOp::PcToAddrBase, MicroOp::ZeroToAddrOffset, MicroOp::ProgramSegment, MicroOp::ReadMemData, MicroOp::MemDataToInstruction, MicroOp::MemAddressNextToPc, MicroOp::EndInstruction]][0]);
                StepCode::Ops(ops)
            } else {
                StepCode::PastEnd
            }
        },
        Opcode::Jal => {
            if step == 0 {
                let ops = ops_of(&[MicroOp::PcToLeft, MicroOp::ZeroToRight, MicroOp::Alu { op: AluOp::Or }, MicroOp::ResultToGpr { shift: 3 }, MicroOp::GprToRight { shift: 0 }, MicroOp::RightToAddrBase, MicroOp::ZeroToAddrOffset, MicroOp::ProgramSegment, MicroOp::ReadMemData, MicroOp::MemDataToInstruction, MicroOp::MemAddressNextToPc, MicroOp::EndInstruction]);
                assert(ops@ =~= seq![seq![MicroOp::PcToLeft, MicroOp::ZeroToRight, MicroOp::Alu { op: AluOp::Or }, MicroOp::ResultToGpr { shift: 3 }, MicroOp::GprToRight { shift: 0 }, MicroOp::RightToAddrBase, MicroOp::ZeroToAddrOffset, MicroOp::ProgramSegment, MicroOp::ReadMemData, MicroOp::MemDataToInstruction, MicroOp::MemAddressNextToPc, MicroOp::EndInstruction]][0]);
                StepCode::Ops(ops)
            } else {
                StepCode::PastEnd
            }
        },
        Opcode::Bz => StepCode::Missing,
        Opcode::Bnz => StepCode::Missing,
        Opcode::Break => {
            if step == 0 {
                let ops = ops_of(&[MicroOp::Break]);
                assert(ops@ =~= seq![seq![MicroOp::Break]][0]);
                StepCode::Ops(ops)
            } else {
                StepCode::PastEnd
            }
        },
    }
}

/// Tokens of `subs[name]` for the first substitution called `name`.
pub open spec fn substitution_of(subs: Seq<(String, Vec<String>)>, name: Seq<char>) -> Option<Seq<String>>
    decreases subs.len(),
{
    if subs.len() == 0 {
        None
    } else if subs[0].0@ == name {
        Some(subs[0].1@)
    } else {
        substitution_of(subs.drop_first(), name)
    }
}

fn find_substitution(subs: &Vec<(String, Vec<String>)>, name: &str) -> (r: Option<usize>)
    ensures
        r matches Some(i) ==> i < subs@.len() && substitution_of(subs@, name@) == Some(subs@[i as int].1@),
        r is None ==> substitution_of(subs@, name@) is None,
{
    let mut i: usize = 0;
    assert(subs@.subrange(0, subs@.len() as int) =~= subs@);
    while i < subs.len()
        invariant
            i <= subs@.len(),
            substitution_of(subs@, name@) == substitution_of(subs@.subrange(i as int, subs@.len() as int), name@),
        decreases subs@.len() - i,
    {
        let ghost rest = subs@.subrange(i as int, subs@.len() as int);
        assert(rest.drop_first() =~= subs@.subrange(i + 1, subs@.len() as int));
        assert(rest[0] == subs@[i as int]);
        if str_eq(subs[i].0.as_str(), name) {
            return Some(i);
        }
        i = i + 1;
    }
    None
}

/// The microinstructions of the names in `list` from `j` on; on failure,
/// the first name outside the vocabulary.
pub open spec fn names_to_ops(list: Seq<String>, j: int) -> Result<Seq<MicroOp>, Seq<char>>
    decreases list.len() - j,
{
    if j < 0 || j >= list.len() {
        Ok(seq![])
    } else {
        match micro_of_name(list[j]@) {
            None => Err(list[j]@),
            Some(op) => match names_to_ops(list, j + 1) {
                Err(n) => Err(n),
                Ok(rest) => Ok(seq![op] + rest),
            },
        }
    }
}

/// The microinstructions of the tokens from `i` on, each `$name` replaced by
/// its substitution. On failure, whether a substitution was missing (else
/// a name was unknown) and the offending token.
pub open spec fn expand_tokens(tokens: Seq<String>, subs: Seq<(String, Vec<String>)>, i: int) -> Result<Seq<MicroOp>, (bool, Seq<char>)>
    decreases tokens.len() - i,
{
    if i < 0 || i >= tokens.len() {
        Ok(seq![])
    } else {
        let tok = tokens[i]@;
        let head: Result<Seq<MicroOp>, (bool, Seq<char>)> = if tok.len() > 0 && tok[0] == '$' {
            match substitution_of(subs, tok.drop_first()) {
                None => Err((true, tok)),
                Some(list) => match names_to_ops(list, 0) {
                    Err(n) => Err((false, n)),
                    Ok(ops) => Ok(ops),
                },
            }
        } else {
            match micro_of_name(tok) {
                None => Err((false, tok)),
                Some(op) => Ok(seq![op]),
            }
        };
        match head {
            Err(e) => Err(e),
            Ok(h) => match expand_tokens(tokens, subs, i + 1) {
                Err(e) => Err(e),
                Ok(rest) => Ok(h + rest),
            },
        }
    }
}

/// Translate one step of microcode as the definition writes it: each
/// `$name` token is replaced by the tokens of its substitution, each name
/// becomes its microinstruction, and the result is put in order of phase.
/// The first failing token decides the error: `BadSubstitution` for a
/// missing substitution, `UnknownMicroinstruction` for a name outside the
/// vocabulary.
pub fn translate_step(tokens: &Vec<String>, subs: &Vec<(String, Vec<String>)>) -> (r: Result<Vec<MicroOp>, InstructionDefinitionError>)
    ensures
        match expand_tokens(tokens@, subs@, 0) {
            Ok(ops) => r matches Ok(v) && v@ == by_phase(ops, 8),
            Err((true, n)) => r matches Err(InstructionDefinitionError::BadSubstitution(m)) && m@ == n,
            Err((false, n)) => r matches Err(InstructionDefinitionError::UnknownMicroinstruction(m)) && m@ == n,
        },
        r matches Ok(v) ==> phase_sorted(v@),
{
    let mut ops: Vec<MicroOp> = Vec::new();
    let mut i: usize = 0;
    while i < tokens.len()
        invariant
            i <= tokens@.len(),
            expand_tokens(tokens@, subs@, 0) == match expand_tokens(tokens@, subs@, i as int) {
                Err(e) => Err::<Seq<MicroOp>, (bool, Seq<char>)>(e),
                Ok(rest) => Ok(ops@ + rest),
            },
        decreases tokens@.len() - i,
    {
        let tok = tokens[i].as_str();
        let n = tok.unicode_len();
        let ghost before = ops@;
        let ghost mut h: Seq<MicroOp> = seq![];
        if n > 0 && tok.get_char(0) == '$' {
            let name = tok.substring_char(1, n);
            assert(name@ =~= tok@.drop_first());
            match find_substitution(subs, name) {
                None => {
                    return Err(InstructionDefinitionError::BadSubstitution(tok.to_owned()));
                },
                Some(k) => {
                    let list = &subs[k].1;
                    let mut j: usize = 0;
                    assert(ops@ =~= before + seq![]);
                    while j < list.len()
                        invariant
                            j <= list@.len(),
                            names_to_ops(list@, 0) == match names_to_ops(list@, j as int) {
                                Err(e) => Err::<Seq<MicroOp>, Seq<char>>(e),
                                Ok(rest) => Ok(ops@.subrange(before.len() as int, ops@.len() as int) + rest),
                            },
                            ops@.subrange(0, before.len() as int) == before,
                            ops@.len() >= before.len(),
                            i < tokens@.len(),
                            tok@ == tokens@[i as int]@,
                            tok@.len() > 0 && tok@[0] == '$',
                            substitution_of(subs@, tok@.drop_first()) == Some(list@),
                            expand_tokens(tokens@, subs@, 0) == match expand_tokens(tokens@, subs@, i as int) {
                                Err(e) => Err::<Seq<MicroOp>, (bool, Seq<char>)>(e),
                                Ok(rest) => Ok(before + rest),
                            },
                        decreases list@.len() - j,
                    {
                        match parse_microinstruction(list[j].as_str()) {
                            Some(op) => {
                                let ghost prev = ops@;
                                ops.push(op);
                                proof {
                                    assert(ops@.subrange(0, before.len() as int) =~= prev.subrange(0, before.len() as int));
                                    assert(ops@.subrange(before.len() as int, ops@.len() as int) =~= prev.subrange(before.len() as int, prev.len() as int) + seq![op]);
                                    assert forall|rest: Seq<MicroOp>| #[trigger] (prev.subrange(before.len() as int, prev.len() as int) + (seq![op] + rest))
                                        == ops@.subrange(before.len() as int, ops@.len() as int) + rest by {
                                        assert(prev.subrange(before.len() as int, prev.len() as int) + (seq![op] + rest)
                                            =~= ops@.subrange(before.len() as int, ops@.len() as int) + rest);
                                    }
                                }
                            },
                            None => {
                                proof {
                                    assert(names_to_ops(list@, j as int) == Err::<Seq<MicroOp>, Seq<char>>(list@[j as int]@));
                                    assert(expand_tokens(tokens@, subs@, i as int) == Err::<Seq<MicroOp>, (bool, Seq<char>)>((false, list@[j as int]@)));
                                }
                                return Err(InstructionDefinitionError::UnknownMicroinstruction(list[j].clone()));
                            },
                        }
                        j = j + 1;
                    }
                    proof {
                        h = ops@.subrange(before.len() as int, ops@.len() as int);
                        assert(h + seq![] =~= h);
                        assert(ops@ =~= before + h);
                    }
                },
            }
        } else {
            match parse_microinstruction(tok) {
                Some(op) => {
                    ops.push(op);
                    proof {
                        h = seq![op];
                    }
                },
                None => {
                    return Err(InstructionDefinitionError::UnknownMicroinstruction(tok.to_owned()));
                },
            }
        }
        proof {
            assert(ops@ =~= before + h);
            assert forall|rest: Seq<MicroOp>| #[trigger] (before + (h + rest)) == ops@ + rest by {
                assert(before + (h + rest) =~= ops@ + rest);
            }
        }
        i = i + 1;
    }
    proof {
        assert(ops@ + seq![] =~= ops@);
    }
    let sorted = order_by_phase(&ops);
    Ok(sorted)
}

} // verus!
