//! Instruction words: registers, opcodes, decoding and encoding.
//!
//! A word is 16 bits, most significant bit first. Its top seven bits are the
//! opcode prefix; the remaining nine hold the arguments, in the order listed
//! for each instruction below. `x` marks bits that are ignored on decode and
//! written as zero on encode.
//!
//! | mnemonic   | encoding                               | prefixes    |
//! |------------|----------------------------------------|-------------|
//! | `add`      | `0000000 rd ra rb`                     | 0x00        |
//! | `sub`      | `0000001 rd ra rb`                     | 0x01        |
//! | `and`      | `0000010 rd ra rb`                     | 0x02        |
//! | `or`       | `0000011 rd ra rb`                     | 0x03        |
//! | `xor`      | `0000100 rd ra rb`                     | 0x04        |
//! | `upsample` | `0000101 rd ra rb`                     | 0x05        |
//! | `addi`     | `0001 x r immediate:s8`                | 0x08-0x0f   |
//! | `ldi`      | `0010 x r immediate:u8`                | 0x10-0x17   |
//! | `ld`       | `010 rd address offset:s7`             | 0x20-0x2f   |
//! | `st`       | `011 address offset:s7 rs`             | 0x30-0x3f   |
//! | `ldcr`     | `1000000 xxx rd cr`                    | 0x40        |
//! | `stcr`     | `1000001 xxx cr rs`                    | 0x41        |
//! | `jal`      | `1000010 xxx rd address`               | 0x42        |
//! | `bz`       | `1000011 xxx cond address`             | 0x43        |
//! | `bnz`      | `1000100 xxx cond address`             | 0x44        |
//! | `break`    | `1111111 111111111`                    | 0x7f        |
//!
//! Every other prefix is an invalid opcode.
use vstd::prelude::*;

use crate::util::{field_mask, sign_extend_field, sign_extended, str_eq};

verus! {

pub type Word = u16;

/// A general purpose register index, `r0` to `r7`.
#[derive(Clone, Copy, Debug, PartialEq, Eq, Structural)]
pub struct Gpr(u8);

impl Gpr {
    pub closed spec fn index(self) -> u8 {
        self.0
    }

    pub open spec fn wf(self) -> bool {
        self.index() < 8
    }

    pub closed spec fn from_spec(i: u8) -> Gpr {
        Gpr(i)
    }

    /// Registers with the same index are the same register.
    pub proof fn lemma_index_determines(a: Gpr, b: Gpr)
        ensures
            a.index() == b.index() <==> a == b,
            Gpr::from_spec(a.index()) == a,
            Gpr::from_spec(a.index()).index() == a.index(),
    {
    }

    /// Register with the given index; the index must be below 8.
    pub fn new(i: usize) -> (r: Gpr)
        requires
            i < 8,
        ensures
            r.index() == i,
            r.wf(),
            r == Gpr::from_spec(i as u8),
    {
        Gpr(i as u8)
    }

    /// Register with the given index, or `None` when it is 8 or more.
    pub fn try_from_u16(v: u16) -> (r: Option<Gpr>)
        ensures
            r matches Some(g) ==> g.index() == v && g.wf(),
            r is None <==> v >= 8,
    {
        if v < 8 {
            Some(Gpr(v as u8))
        } else {
            None
        }
    }

    pub fn to_u16(&self) -> (r: u16)
        ensures
            r == self.index(),
    {
        self.0 as u16
    }

    /// The register written `r0` to `r7`.
    pub fn from_name(s: &str) -> (r: Option<Gpr>)
        ensures
            r matches Some(g) ==> g.wf() && s@.len() == 2 && s@[0] == 'r' && s@[1] as u32 == '0' as u32 + g.index(),
            r is None ==> !(s@.len() == 2 && s@[0] == 'r' && '0' <= s@[1] <= '7'),
    {
        if s.unicode_len() == 2 && s.get_char(0) == 'r' {
            let c = s.get_char(1);
            if '0' <= c && c <= '7' {
                return Some(Gpr((c as u32 - '0' as u32) as u8));
            }
        }
        None
    }
}

impl std::str::FromStr for Gpr {
    type Err = ();

    fn from_str(s: &str) -> Result<Gpr, ()> {
        match Gpr::from_name(s) {
            Some(g) => Ok(g),
            None => Err(()),
        }
    }
}

/// The eight control registers, numbered 0 to 7 in declaration order.
#[derive(Clone, Copy, Debug, PartialEq, Eq, Structural)]
pub enum ControlRegister {
    AluStatus,
    CpuStatus,
    ContextID,
    IntCause,
    IntBase,
    IntPc,
    MMUAddr,
    MMUData,
}

impl ControlRegister {
    pub open spec fn spec_index(self) -> u16 {
        match self {
            ControlRegister::AluStatus => 0,
            ControlRegister::CpuStatus => 1,
            ControlRegister::ContextID => 2,
            ControlRegister::IntCause => 3,
            ControlRegister::IntBase => 4,
            ControlRegister::IntPc => 5,
            ControlRegister::MMUAddr => 6,
            ControlRegister::MMUData => 7,
        }
    }

    pub open spec fn spec_from_index(i: u16) -> Option<ControlRegister> {
        if i == 0 {
            Some(ControlRegister::AluStatus)
        } else if i == 1 {
            Some(ControlRegister::CpuStatus)
        } else if i == 2 {
            Some(ControlRegister::ContextID)
        } else if i == 3 {
            Some(ControlRegister::IntCause)
        } else if i == 4 {
            Some(ControlRegister::IntBase)
        } else if i == 5 {
            Some(ControlRegister::IntPc)
        } else if i == 6 {
            Some(ControlRegister::MMUAddr)
        } else if i == 7 {
            Some(ControlRegister::MMUData)
        } else {
            None
        }
    }

    /// Number of the register.
    pub fn index(&self) -> (r: u16)
        ensures
            r == self.spec_index(),
            r < 8,
    {
        match self {
            ControlRegister::AluStatus => 0,
            ControlRegister::CpuStatus => 1,
            ControlRegister::ContextID => 2,
            ControlRegister::IntCause => 3,
            ControlRegister::IntBase => 4,
            ControlRegister::IntPc => 5,
            ControlRegister::MMUAddr => 6,
            ControlRegister::MMUData => 7,
        }
    }

    /// Register with the given number, or `None` when it is 8 or more.
    pub fn try_from_u16(i: u16) -> (r: Option<ControlRegister>)
        ensures
            r == Self::spec_from_index(i),
            r is None <==> i >= 8,
            r matches Some(c) ==> c.spec_index() == i,
    {
        if i == 0 {
            Some(ControlRegister::AluStatus)
        } else if i == 1 {
            Some(ControlRegister::CpuStatus)
        } else if i == 2 {
            Some(ControlRegister::ContextID)
        } else if i == 3 {
            Some(ControlRegister::IntCause)
        } else if i == 4 {
            Some(ControlRegister::IntBase)
        } else if i == 5 {
            Some(ControlRegister::IntPc)
        } else if i == 6 {
            Some(ControlRegister::MMUAddr)
        } else if i == 7 {
            Some(ControlRegister::MMUData)
        } else {
            None
        }
    }
}

impl ControlRegister {
    /// The register's name as the assembler writes it.
    pub open spec fn spec_name(self) -> Seq<char> {
        match self {
            ControlRegister::AluStatus => "AluStatus"@,
            ControlRegister::CpuStatus => "CpuStatus"@,
            ControlRegister::ContextID => "ContextID"@,
            ControlRegister::IntCause => "IntCause"@,
            ControlRegister::IntBase => "IntBase"@,
            ControlRegister::IntPc => "IntPc"@,
            ControlRegister::MMUAddr => "MMUAddr"@,
            ControlRegister::MMUData => "MMUData"@,
        }
    }

    pub fn name(&self) -> (r: String)
        ensures
            r@ == self.spec_name(),
    {
        match self {
            ControlRegister::AluStatus => "AluStatus".to_owned(),
            ControlRegister::CpuStatus => "CpuStatus".to_owned(),
            ControlRegister::ContextID => "ContextID".to_owned(),
            ControlRegister::IntCause => "IntCause".to_owned(),
            ControlRegister::IntBase => "IntBase".to_owned(),
            ControlRegister::IntPc => "IntPc".to_owned(),
            ControlRegister::MMUAddr => "MMUAddr".to_owned(),
            ControlRegister::MMUData => "MMUData".to_owned(),
        }
    }

    /// The register with exactly this name.
    pub open spec fn spec_from_name(s: Seq<char>) -> Option<ControlRegister> {
        if s == "AluStatus"@ {
            Some(ControlRegister::AluStatus)
        } else if s == "CpuStatus"@ {
            Some(ControlRegister::CpuStatus)
        } else if s == "ContextID"@ {
            Some(ControlRegister::ContextID)
        } else if s == "IntCause"@ {
            Some(ControlRegister::IntCause)
        } else if s == "IntBase"@ {
            Some(ControlRegister::IntBase)
        } else if s == "IntPc"@ {
            Some(ControlRegister::IntPc)
        } else if s == "MMUAddr"@ {
            Some(ControlRegister::MMUAddr)
        } else if s == "MMUData"@ {
            Some(ControlRegister::MMUData)
        } else {
            None
        }
    }

    /// The register with exactly this name; case matters.
    pub fn from_name(s: &str) -> (r: Option<ControlRegister>)
        ensures
            r == Self::spec_from_name(s@),
            r matches Some(c) ==> c.spec_name() == s@,
            r is None ==> forall|c: ControlRegister| #[trigger] c.spec_name() != s@,
    {
        if str_eq(s, "AluStatus") {
            Some(ControlRegister::AluStatus)
        } else if str_eq(s, "CpuStatus") {
            Some(ControlRegister::CpuStatus)
        } else if str_eq(s, "ContextID") {
            Some(ControlRegister::ContextID)
        } else if str_eq(s, "IntCause") {
            Some(ControlRegister::IntCause)
        } else if str_eq(s, "IntBase") {
            Some(ControlRegister::IntBase)
        } else if str_eq(s, "IntPc") {
            Some(ControlRegister::IntPc)
        } else if str_eq(s, "MMUAddr") {
            Some(ControlRegister::MMUAddr)
        } else if str_eq(s, "MMUData") {
            Some(ControlRegister::MMUData)
        } else {
            None
        }
    }
}

impl std::str::FromStr for ControlRegister {
    type Err = ();

    fn from_str(s: &str) -> Result<ControlRegister, ()> {
        match ControlRegister::from_name(s) {
            Some(c) => Ok(c),
            None => Err(()),
        }
    }
}


#[derive(Clone, Copy, Debug, PartialEq, Eq, Structural)]
pub enum InvalidInstructionError {
    InvalidOpcode(u16),
}

/// Instruction families, one per mnemonic.
#[derive(Clone, Copy, Debug, PartialEq, Eq, Structural)]
pub enum Opcode {
    Add,
    Sub,
    And,
    Or,
    Xor,
    Upsample,
    Addi,
    Ldi,
    Ld,
    St,
    Ldcr,
    Stcr,
    Jal,
    Bz,
    Bnz,
    Break,
}

/// The top seven bits of a word.
pub open spec fn prefix_of(w: u16) -> u16 {
    (w >> 9u16) & 0x7fu16
}

/// Which instruction family a seven bit prefix selects.
pub open spec fn opcode_of_prefix(p: u16) -> Option<Opcode> {
    if p == 0x00 {
        Some(Opcode::Add)
    } else if p == 0x01 {
        Some(Opcode::Sub)
    } else if p == 0x02 {
        Some(Opcode::And)
    } else if p == 0x03 {
        Some(Opcode::Or)
    } else if p == 0x04 {
        Some(Opcode::Xor)
    } else if p == 0x05 {
        Some(Opcode::Upsample)
    } else if 0x08 <= p <= 0x0f {
        Some(Opcode::Addi)
    } else if 0x10 <= p <= 0x17 {
        Some(Opcode::Ldi)
    } else if 0x20 <= p <= 0x2f {
        Some(Opcode::Ld)
    } else if 0x30 <= p <= 0x3f {
        Some(Opcode::St)
    } else if p == 0x40 {
        Some(Opcode::Ldcr)
    } else if p == 0x41 {
        Some(Opcode::Stcr)
    } else if p == 0x42 {
        Some(Opcode::Jal)
    } else if p == 0x43 {
        Some(Opcode::Bz)
    } else if p == 0x44 {
        Some(Opcode::Bnz)
    } else if p == 0x7f {
        Some(Opcode::Break)
    } else {
        None
    }
}

/// Bits of a word that its instruction family ignores.
pub open spec fn ignored_bits(op: Opcode) -> u16 {
    match op {
        Opcode::Addi | Opcode::Ldi => 0x0800,
        Opcode::Ldcr | Opcode::Stcr | Opcode::Jal | Opcode::Bz | Opcode::Bnz => 0x01c0,
        _ => 0,
    }
}

impl Opcode {
    /// Instruction family of a word, read from its top seven bits.
    pub fn from_word(w: Word) -> (r: Result<Opcode, InvalidInstructionError>)
        ensures
            r == (match opcode_of_prefix(prefix_of(w)) {
                Some(op) => Ok(op),
                None => Err(InvalidInstructionError::InvalidOpcode(w)),
            }),
    {
        let p: u16 = (w >> 9u16) & 0x7fu16;
        if p == 0x00 {
            Ok(Opcode::Add)
        } else if p == 0x01 {
            Ok(Opcode::Sub)
        } else if p == 0x02 {
            Ok(Opcode::And)
        } else if p == 0x03 {
            Ok(Opcode::Or)
        } else if p == 0x04 {
            Ok(Opcode::Xor)
        } else if p == 0x05 {
            Ok(Opcode::Upsample)
        } else if 0x08 <= p && p <= 0x0f {
            Ok(Opcode::Addi)
        } else if 0x10 <= p && p <= 0x17 {
            Ok(Opcode::Ldi)
        } else if 0x20 <= p && p <= 0x2f {
            Ok(Opcode::Ld)
        } else if 0x30 <= p && p <= 0x3f {
            Ok(Opcode::St)
        } else if p == 0x40 {
            Ok(Opcode::Ldcr)
        } else if p == 0x41 {
            Ok(Opcode::Stcr)
        } else if p == 0x42 {
            Ok(Opcode::Jal)
        } else if p == 0x43 {
            Ok(Opcode::Bz)
        } else if p == 0x44 {
            Ok(Opcode::Bnz)
        } else if p == 0x7f {
            Ok(Opcode::Break)
        } else {
            Err(InvalidInstructionError::InvalidOpcode(w))
        }
    }
}

#[derive(Clone, Copy, Debug, PartialEq, Eq, Structural)]
#[allow(inconsistent_fields)]
pub enum Instruction {
    Add { rd: Gpr, ra: Gpr, rb: Gpr },
    Sub { rd: Gpr, ra: Gpr, rb: Gpr },
    And { rd: Gpr, ra: Gpr, rb: Gpr },
    Or { rd: Gpr, ra: Gpr, rb: Gpr },
    Xor { rd: Gpr, ra: Gpr, rb: Gpr },
    Upsample { rd: Gpr, ra: Gpr, rb: Gpr },
    Addi { r: Gpr, immediate: i8 },
    Ldi { r: Gpr, immediate: u8 },
    Ld { rd: Gpr, address: Gpr, offset: i8 },
    St { address: Gpr, offset: i8, rs: Gpr },
    Ldcr { rd: Gpr, cr: ControlRegister },
    Stcr { cr: ControlRegister, rs: Gpr },
    Jal { rd: Gpr, address: Gpr },
    Bz { cond: Gpr, address: Gpr },
    Bnz { cond: Gpr, address: Gpr },
    Break,
}

/// Register held in the three bits of `w` starting at bit `shift`.
pub open spec fn gpr_at(w: u16, shift: u16) -> Gpr {
    Gpr::from_spec(((w >> shift) & 7u16) as u8)
}

/// Control register held in the low three bits of `w`.
pub open spec fn cr_at(w: u16) -> ControlRegister {
    ControlRegister::spec_from_index(w & 7u16).unwrap()
}

/// A seven bit signed field starting at bit `shift`, sign extended.
pub open spec fn imm7_at(w: u16, shift: u16) -> i8 {
    (sign_extended(w >> shift, 7) as i16) as i8
}

/// Register fields of a three register instruction: `rd`, `ra`, `rb`.
pub open spec fn rrr_bits(rd: Gpr, ra: Gpr, rb: Gpr) -> u16 {
    ((rd.index() as u16) << 6u16) | ((ra.index() as u16) << 3u16) | (rb.index() as u16)
}

/// Two three-bit fields in the low six bits.
pub open spec fn pair_bits(hi: u16, lo: u16) -> u16 {
    (hi << 3u16) | lo
}

/// Word of an instruction.
pub open spec fn spec_encode(i: Instruction) -> u16 {
    match i {
        Instruction::Add { rd, ra, rb } => 0x0000u16 | rrr_bits(rd, ra, rb),
        Instruction::Sub { rd, ra, rb } => 0x0200u16 | rrr_bits(rd, ra, rb),
        Instruction::And { rd, ra, rb } => 0x0400u16 | rrr_bits(rd, ra, rb),
        Instruction::Or { rd, ra, rb } => 0x0600u16 | rrr_bits(rd, ra, rb),
        Instruction::Xor { rd, ra, rb } => 0x0800u16 | rrr_bits(rd, ra, rb),
        Instruction::Upsample { rd, ra, rb } => 0x0a00u16 | rrr_bits(rd, ra, rb),
        Instruction::Addi { r, immediate } => 0x1000u16 | ((r.index() as u16) << 8u16) | (
        immediate as u8 as u16),
        Instruction::Ldi { r, immediate } => 0x2000u16 | ((r.index() as u16) << 8u16) | (
        immediate as u16),
        Instruction::Ld { rd, address, offset } => 0x4000u16 | ((rd.index() as u16) << 10u16) | ((
        address.index() as u16) << 7u16) | ((offset as u16) & 0x7fu16),
        Instruction::St { address, offset, rs } => 0x6000u16 | ((address.index() as u16)
            << 10u16) | (((offset as u16) & 0x7fu16) << 3u16) | (rs.index() as u16),
        Instruction::Ldcr { rd, cr } => 0x8000u16 | pair_bits(rd.index() as u16, cr.spec_index()),
        Instruction::Stcr { cr, rs } => 0x8200u16 | pair_bits(cr.spec_index(), rs.index() as u16),
        Instruction::Jal { rd, address } => 0x8400u16 | pair_bits(
            rd.index() as u16,
            address.index() as u16,
        ),
        Instruction::Bz { cond, address } => 0x8600u16 | pair_bits(
            cond.index() as u16,
            address.index() as u16,
        ),
        Instruction::Bnz { cond, address } => 0x8800u16 | pair_bits(
            cond.index() as u16,
            address.index() as u16,
        ),
        Instruction::Break => 0xffffu16,
    }
}

/// Instruction of a word, or the invalid opcode error.
pub open spec fn spec_decode(w: u16) -> Result<Instruction, InvalidInstructionError> {
    match opcode_of_prefix(prefix_of(w)) {
        None => Err(InvalidInstructionError::InvalidOpcode(w)),
        Some(op) => Ok(
            match op {
                Opcode::Add => Instruction::Add {
                    rd: gpr_at(w, 6),
                    ra: gpr_at(w, 3),
                    rb: gpr_at(w, 0),
                },
                Opcode::Sub => Instruction::Sub {
                    rd: gpr_at(w, 6),
                    ra: gpr_at(w, 3),
                    rb: gpr_at(w, 0),
                },
                Opcode::And => Instruction::And {
                    rd: gpr_at(w, 6),
                    ra: gpr_at(w, 3),
                    rb: gpr_at(w, 0),
                },
                Opcode::Or => Instruction::Or {
                    rd: gpr_at(w, 6),
                    ra: gpr_at(w, 3),
                    rb: gpr_at(w, 0),
                },
                Opcode::Xor => Instruction::Xor {
                    rd: gpr_at(w, 6),
                    ra: gpr_at(w, 3),
                    rb: gpr_at(w, 0),
                },
                Opcode::Upsample => Instruction::Upsample {
                    rd: gpr_at(w, 6),
                    ra: gpr_at(w, 3),
                    rb: gpr_at(w, 0),
                },
                Opcode::Addi => Instruction::Addi {
                    r: gpr_at(w, 8),
                    immediate: (w & 0xffu16) as u8 as i8,
                },
                Opcode::Ldi => Instruction::Ldi { r: gpr_at(w, 8), immediate: (w & 0xffu16) as u8 },
                Opcode::Ld => Instruction::Ld {
                    rd: gpr_at(w, 10),
                    address: gpr_at(w, 7),
                    offset: imm7_at(w, 0),
                },
                Opcode::St => Instruction::St {
                    address: gpr_at(w, 10),
                    offset: imm7_at(w, 3),
                    rs: gpr_at(w, 0),
                },
                Opcode::Ldcr => Instruction::Ldcr { rd: gpr_at(w, 3), cr: cr_at(w) },
                Opcode::Stcr => Instruction::Stcr { cr: cr_at(w >> 3u16), rs: gpr_at(w, 0) },
                Opcode::Jal => Instruction::Jal { rd: gpr_at(w, 3), address: gpr_at(w, 0) },
                Opcode::Bz => Instruction::Bz { cond: gpr_at(w, 3), address: gpr_at(w, 0) },
                Opcode::Bnz => Instruction::Bnz { cond: gpr_at(w, 3), address: gpr_at(w, 0) },
                Opcode::Break => Instruction::Break,
            },
        ),
    }
}

impl Instruction {
    /// Every register index is below 8 and every seven bit offset fits its field.
    pub open spec fn wf(self) -> bool {
        match self {
            Instruction::Add { rd, ra, rb }
            | Instruction::Sub { rd, ra, rb }
            | Instruction::And { rd, ra, rb }
            | Instruction::Or { rd, ra, rb }
            | Instruction::Xor { rd, ra, rb }
            | Instruction::Upsample { rd, ra, rb } => rd.wf() && ra.wf() && rb.wf(),
            Instruction::Addi { r, .. } | Instruction::Ldi { r, .. } => r.wf(),
            Instruction::Ld { rd, address, offset } => rd.wf() && address.wf() && -64 <= offset
                <= 63,
            Instruction::St { address, offset, rs } => address.wf() && rs.wf() && -64 <= offset
                <= 63,
            Instruction::Ldcr { rd, .. } => rd.wf(),
            Instruction::Stcr { rs, .. } => rs.wf(),
            Instruction::Jal { rd, address } => rd.wf() && address.wf(),
            Instruction::Bz { cond, address } | Instruction::Bnz { cond, address } => cond.wf()
                && address.wf(),
            Instruction::Break => true,
        }
    }
}


/// Register held in the three bits of `w` starting at bit `shift`.
fn gpr_field(w: u16, shift: u16) -> (r: Gpr)
    requires
        shift <= 13,
    ensures
        r == gpr_at(w, shift),
        r.wf(),
{
    let v: u16 = (w >> shift) & 7u16;
    assert(v < 8) by (bit_vector)
        requires
            v == (w >> shift) & 7u16,
    ;
    Gpr(v as u8)
}

/// Control register held in the low three bits of `w`.
fn cr_field(w: u16) -> (r: ControlRegister)
    ensures
        r == cr_at(w),
{
    let v: u16 = w & 7u16;
    assert(v < 8) by (bit_vector)
        requires
            v == w & 7u16,
    ;
    ControlRegister::try_from_u16(v).unwrap()
}

proof fn lemma_sext7_range(x: u16)
    ensures
        sign_extended(x, 7) < 64 || sign_extended(x, 7) >= 0xffc0,
        sign_extended(x, 7) & 0x7fu16 == x & 0x7fu16,
{
    assert(sign_extended(x, 7) < 64 || sign_extended(x, 7) >= 0xffc0) by (bit_vector);
    assert(sign_extended(x, 7) & 0x7fu16 == x & 0x7fu16) by (bit_vector);
}

/// A seven bit signed field starting at bit `shift`.
fn imm7_field(w: u16, shift: u16) -> (r: i8)
    requires
        shift <= 9,
    ensures
        r == imm7_at(w, shift),
        -64 <= r <= 63,
{
    let v: i16 = sign_extend_field(w >> shift, 7);
    let ghost s = sign_extended(w >> shift, 7);
    proof {
        lemma_sext7_range(w >> shift);
        assert(-64 <= v <= 63 && s as i16 == v) by (bit_vector)
            requires
                v as u16 == s,
                s < 64 || s >= 0xffc0,
        ;
    }
    v as i8
}

impl Instruction {
    /// The instruction's word; ignored bits are zero.
    pub fn encode(&self) -> (r: Word)
        requires
            self.wf(),
        ensures
            r == spec_encode(*self),
    {
        match *self {
            Instruction::Add { rd, ra, rb } => 0x0000u16 | rrr(rd, ra, rb),
            Instruction::Sub { rd, ra, rb } => 0x0200u16 | rrr(rd, ra, rb),
            Instruction::And { rd, ra, rb } => 0x0400u16 | rrr(rd, ra, rb),
            Instruction::Or { rd, ra, rb } => 0x0600u16 | rrr(rd, ra, rb),
            Instruction::Xor { rd, ra, rb } => 0x0800u16 | rrr(rd, ra, rb),
            Instruction::Upsample { rd, ra, rb } => 0x0a00u16 | rrr(rd, ra, rb),
            Instruction::Addi { r, immediate } => 0x1000u16 | ((r.0 as u16) << 8u16) | (
            immediate as u8 as u16),
            Instruction::Ldi { r, immediate } => 0x2000u16 | ((r.0 as u16) << 8u16) | (
            immediate as u16),
            Instruction::Ld { rd, address, offset } => 0x4000u16 | ((rd.0 as u16) << 10u16) | ((
            address.0 as u16) << 7u16) | ((offset as u16) & 0x7fu16),
            Instruction::St { address, offset, rs } => 0x6000u16 | ((address.0 as u16) << 10u16)
                | (((offset as u16) & 0x7fu16) << 3u16) | (rs.0 as u16),
            Instruction::Ldcr { rd, cr } => 0x8000u16 | (((rd.0 as u16) << 3u16) | cr.index()),
            Instruction::Stcr { cr, rs } => 0x8200u16 | ((cr.index() << 3u16) | (rs.0 as u16)),
            Instruction::Jal { rd, address } => 0x8400u16 | (((rd.0 as u16) << 3u16) | (
            address.0 as u16)),
            Instruction::Bz { cond, address } => 0x8600u16 | (((cond.0 as u16) << 3u16) | (
            address.0 as u16)),
            Instruction::Bnz { cond, address } => 0x8800u16 | (((cond.0 as u16) << 3u16) | (
            address.0 as u16)),
            Instruction::Break => 0xffffu16,
        }
    }

    /// The instruction held in a word, or `InvalidOpcode` when its prefix
    /// selects no instruction.
    pub fn decode(w: Word) -> (r: Result<Instruction, InvalidInstructionError>)
        ensures
            r == spec_decode(w),
            r matches Ok(i) ==> i.wf(),
    {
        let op = Opcode::from_word(w)?;
        let i = match op {
            Opcode::Add => Instruction::Add {
                rd: gpr_field(w, 6),
                ra: gpr_field(w, 3),
                rb: gpr_field(w, 0),
            },
            Opcode::Sub => Instruction::Sub {
                rd: gpr_field(w, 6),
                ra: gpr_field(w, 3),
                rb: gpr_field(w, 0),
            },
            Opcode::And => Instruction::And {
                rd: gpr_field(w, 6),
                ra: gpr_field(w, 3),
                rb: gpr_field(w, 0),
            },
            Opcode::Or => Instruction::Or {
                rd: gpr_field(w, 6),
                ra: gpr_field(w, 3),
                rb: gpr_field(w, 0),
            },
            Opcode::Xor => Instruction::Xor {
                rd: gpr_field(w, 6),
                ra: gpr_field(w, 3),
                rb: gpr_field(w, 0),
            },
            Opcode::Upsample => Instruction::Upsample {
                rd: gpr_field(w, 6),
                ra: gpr_field(w, 3),
                rb: gpr_field(w, 0),
            },
            Opcode::Addi => Instruction::Addi {
                r: gpr_field(w, 8),
                immediate: (w & 0xffu16) as u8 as i8,
            },
            Opcode::Ldi => Instruction::Ldi { r: gpr_field(w, 8), immediate: (w & 0xffu16) as u8 },
            Opcode::Ld => Instruction::Ld {
                rd: gpr_field(w, 10),
                address: gpr_field(w, 7),
                offset: imm7_field(w, 0),
            },
            Opcode::St => Instruction::St {
                address: gpr_field(w, 10),
                offset: imm7_field(w, 3),
                rs: gpr_field(w, 0),
            },
            Opcode::Ldcr => Instruction::Ldcr { rd: gpr_field(w, 3), cr: cr_field(w) },
            Opcode::Stcr => Instruction::Stcr { cr: cr_field(w >> 3u16), rs: gpr_field(w, 0) },
            Opcode::Jal => Instruction::Jal { rd: gpr_field(w, 3), address: gpr_field(w, 0) },
            Opcode::Bz => Instruction::Bz { cond: gpr_field(w, 3), address: gpr_field(w, 0) },
            Opcode::Bnz => Instruction::Bnz { cond: gpr_field(w, 3), address: gpr_field(w, 0) },
            Opcode::Break => Instruction::Break,
        };
        Ok(i)
    }
}

fn rrr(rd: Gpr, ra: Gpr, rb: Gpr) -> (r: u16)
    ensures
        r == rrr_bits(rd, ra, rb),
{
    ((rd.0 as u16) << 6u16) | ((ra.0 as u16) << 3u16) | (rb.0 as u16)
}


/// A register is determined by its index: registers with equal indices
/// are equal, and `from_spec` of an index gives that index back.
pub proof fn lemma_gpr_eta(g: Gpr)
    ensures
        Gpr::from_spec(g.index()) == g,
        Gpr::from_spec(g.index()).index() == g.index(),
{
}

proof fn lemma_gpr_of_bits(v: u16)
    requires
        v < 8,
    ensures
        Gpr::from_spec(v as u8).index() as u16 == v,
        Gpr::from_spec(v as u8).wf(),
{
}

proof fn lemma_cr_round_trip(c: ControlRegister)
    ensures
        ControlRegister::spec_from_index(c.spec_index()) == Some(c),
        c.spec_index() < 8,
{
}

proof fn lemma_rrr_fields(base: u16, a: u16, b: u16, c: u16)
    by (bit_vector)
    requires
        base == 0x0000u16 || base == 0x0200u16 || base == 0x0400u16 || base == 0x0600u16 || base
            == 0x0800u16 || base == 0x0a00u16,
        a < 8,
        b < 8,
        c < 8,
    ensures
        prefix_of(base | ((a << 6u16) | (b << 3u16) | c)) == base / 512u16,
        ((base | ((a << 6u16) | (b << 3u16) | c)) >> 6u16) & 7u16 == a,
        ((base | ((a << 6u16) | (b << 3u16) | c)) >> 3u16) & 7u16 == b,
        ((base | ((a << 6u16) | (b << 3u16) | c)) >> 0u16) & 7u16 == c,
{
}

proof fn lemma_rrr_word(w: u16)
    by (bit_vector)
    ensures
        prefix_of(w) == 0 ==> w & !0u16 == 0x0000u16 | ((((w >> 6u16) & 7u16) << 6u16) | (((w >> 3u16) & 7u16) << 3u16) | ((w >> 0u16) & 7u16)),
        prefix_of(w) == 1 ==> w & !0u16 == 0x0200u16 | ((((w >> 6u16) & 7u16) << 6u16) | (((w >> 3u16) & 7u16) << 3u16) | ((w >> 0u16) & 7u16)),
        prefix_of(w) == 2 ==> w & !0u16 == 0x0400u16 | ((((w >> 6u16) & 7u16) << 6u16) | (((w >> 3u16) & 7u16) << 3u16) | ((w >> 0u16) & 7u16)),
        prefix_of(w) == 3 ==> w & !0u16 == 0x0600u16 | ((((w >> 6u16) & 7u16) << 6u16) | (((w >> 3u16) & 7u16) << 3u16) | ((w >> 0u16) & 7u16)),
        prefix_of(w) == 4 ==> w & !0u16 == 0x0800u16 | ((((w >> 6u16) & 7u16) << 6u16) | (((w >> 3u16) & 7u16) << 3u16) | ((w >> 0u16) & 7u16)),
        prefix_of(w) == 5 ==> w & !0u16 == 0x0a00u16 | ((((w >> 6u16) & 7u16) << 6u16) | (((w >> 3u16) & 7u16) << 3u16) | ((w >> 0u16) & 7u16)),
{
}

proof fn lemma_r8_fields(base: u16, r: u16, v: u8)
    by (bit_vector)
    requires
        base == 0x1000u16 || base == 0x2000u16,
        r < 8,
    ensures
        base == 0x1000u16 ==> 0x08 <= prefix_of(base | (r << 8u16) | (v as u16)) <= 0x0f,
        base == 0x2000u16 ==> 0x10 <= prefix_of(base | (r << 8u16) | (v as u16)) <= 0x17,
        ((base | (r << 8u16) | (v as u16)) >> 8u16) & 7u16 == r,
        ((base | (r << 8u16) | (v as u16)) & 0xffu16) as u8 == v,
{
}

proof fn lemma_r8_word(w: u16)
    by (bit_vector)
    ensures
        0x08 <= prefix_of(w) <= 0x0f ==> w & !0x0800u16 == 0x1000u16 | (((w >> 8u16) & 7u16)
            << 8u16) | ((w & 0xffu16) as u8 as u16),
        0x10 <= prefix_of(w) <= 0x17 ==> w & !0x0800u16 == 0x2000u16 | (((w >> 8u16) & 7u16)
            << 8u16) | ((w & 0xffu16) as u8 as u16),
        ((w & 0xffu16) as u8 as i8) as u8 == (w & 0xffu16) as u8,
{
}

proof fn lemma_ld_fields(r1: u16, r2: u16, o: u16)
    by (bit_vector)
    requires
        r1 < 8,
        r2 < 8,
    ensures
        0x20 <= prefix_of(0x4000u16 | (r1 << 10u16) | (r2 << 7u16) | (o & 0x7fu16)) <= 0x2f,
        ((0x4000u16 | (r1 << 10u16) | (r2 << 7u16) | (o & 0x7fu16)) >> 10u16) & 7u16 == r1,
        ((0x4000u16 | (r1 << 10u16) | (r2 << 7u16) | (o & 0x7fu16)) >> 7u16) & 7u16 == r2,
        (0x4000u16 | (r1 << 10u16) | (r2 << 7u16) | (o & 0x7fu16)) >> 0u16 & 0x7fu16 == o
            & 0x7fu16,
        0x30 <= prefix_of(0x6000u16 | (r1 << 10u16) | ((o & 0x7fu16) << 3u16) | r2) <= 0x3f,
        ((0x6000u16 | (r1 << 10u16) | ((o & 0x7fu16) << 3u16) | r2) >> 10u16) & 7u16 == r1,
        ((0x6000u16 | (r1 << 10u16) | ((o & 0x7fu16) << 3u16) | r2) >> 0u16) & 7u16 == r2,
        ((0x6000u16 | (r1 << 10u16) | ((o & 0x7fu16) << 3u16) | r2) >> 3u16) & 0x7fu16 == o
            & 0x7fu16,
{
}

proof fn lemma_ld_word(w: u16)
    by (bit_vector)
    ensures
        0x20 <= prefix_of(w) <= 0x2f ==> w & !0u16 == 0x4000u16 | (((w >> 10u16) & 7u16)
            << 10u16) | (((w >> 7u16) & 7u16) << 7u16) | ((w >> 0u16) & 0x7fu16),
        0x30 <= prefix_of(w) <= 0x3f ==> w & !0u16 == 0x6000u16 | (((w >> 10u16) & 7u16)
            << 10u16) | (((w >> 3u16) & 0x7fu16) << 3u16) | ((w >> 0u16) & 7u16),
{
}

proof fn lemma_pair_fields(base: u16, h: u16, l: u16)
    by (bit_vector)
    requires
        base == 0x8000u16 || base == 0x8200u16 || base == 0x8400u16 || base == 0x8600u16 || base
            == 0x8800u16,
        h < 8,
        l < 8,
    ensures
        prefix_of(base | ((h << 3u16) | l)) == base / 512u16,
        ((base | ((h << 3u16) | l)) >> 3u16) & 7u16 == h,
        ((base | ((h << 3u16) | l)) >> 0u16) & 7u16 == l,
        (base | ((h << 3u16) | l)) & 7u16 == l,
{
}

proof fn lemma_pair_word(w: u16)
    by (bit_vector)
    ensures
        prefix_of(w) == 0x40 ==> w & !0x01c0u16 == 0x8000u16 | ((((w >> 3u16) & 7u16) << 3u16) | ((w >> 0u16) & 7u16)),
        prefix_of(w) == 0x41 ==> w & !0x01c0u16 == 0x8200u16 | ((((w >> 3u16) & 7u16) << 3u16) | ((w >> 0u16) & 7u16)),
        prefix_of(w) == 0x42 ==> w & !0x01c0u16 == 0x8400u16 | ((((w >> 3u16) & 7u16) << 3u16) | ((w >> 0u16) & 7u16)),
        prefix_of(w) == 0x43 ==> w & !0x01c0u16 == 0x8600u16 | ((((w >> 3u16) & 7u16) << 3u16) | ((w >> 0u16) & 7u16)),
        prefix_of(w) == 0x44 ==> w & !0x01c0u16 == 0x8800u16 | ((((w >> 3u16) & 7u16) << 3u16) | ((w >> 0u16) & 7u16)),
        w & 7u16 == (w >> 0u16) & 7u16,
        (w >> 3u16) & 7u16 < 8,
        w & 7u16 < 8,
        (w >> 0u16) & 7u16 < 8,
        (w >> 6u16) & 7u16 < 8,
        (w >> 8u16) & 7u16 < 8,
        (w >> 7u16) & 7u16 < 8,
        (w >> 10u16) & 7u16 < 8,
{
}

/// A seven bit offset survives being written to its field and read back.
proof fn lemma_imm7_round_trip(o: i8, w: u16, shift: u16)
    requires
        -64 <= o <= 63,
        shift <= 9,
        (w >> shift) & 0x7fu16 == (o as u16) & 0x7fu16,
    ensures
        imm7_at(w, shift) == o,
{
    let x = w >> shift;
    let ou = o as u16;
    assert(ou < 64 || ou >= 0xffc0) by (bit_vector)
        requires
            ou == o as u16,
            -64 <= o <= 63,
    ;
    assert(sign_extended(x, 7) == ou) by (bit_vector)
        requires
            x & 0x7fu16 == ou & 0x7fu16,
            ou < 64 || ou >= 0xffc0,
    ;
    assert((ou as i16) as i8 == o) by (bit_vector)
        requires
            ou == o as u16,
    ;
}

/// What any seven bit field reads back as, written again, gives the same bits.
proof fn lemma_imm7_bits(w: u16, shift: u16)
    requires
        shift <= 9,
    ensures
        (imm7_at(w, shift) as u16) & 0x7fu16 == (w >> shift) & 0x7fu16,
        -64 <= imm7_at(w, shift) <= 63,
{
    let x = w >> shift;
    let s = sign_extended(x, 7);
    lemma_sext7_range(x);
    assert(((s as i16) as i8) as u16 & 0x7fu16 == s & 0x7fu16 && -64 <= ((s as i16) as i8) <= 63)
        by (bit_vector)
        requires
            s < 64 || s >= 0xffc0,
    ;
}

/// Decoding the word of a well-formed instruction gives the instruction back.
pub proof fn lemma_decode_encode(i: Instruction)
    requires
        i.wf(),
    ensures
        spec_decode(spec_encode(i)) == Ok::<Instruction, InvalidInstructionError>(i),
{
    let w = spec_encode(i);
    match i {
        Instruction::Add { rd, ra, rb } => {
            lemma_rrr_fields(0x0000, rd.index() as u16, ra.index() as u16, rb.index() as u16);
            lemma_gpr_eta(rd);
            lemma_gpr_eta(ra);
            lemma_gpr_eta(rb);
            assert(spec_decode(w) == Ok::<Instruction, InvalidInstructionError>(i));
        },
        Instruction::Sub { rd, ra, rb } => {
            lemma_rrr_fields(0x0200, rd.index() as u16, ra.index() as u16, rb.index() as u16);
            lemma_gpr_eta(rd);
            lemma_gpr_eta(ra);
            lemma_gpr_eta(rb);
            assert(spec_decode(w) == Ok::<Instruction, InvalidInstructionError>(i));
        },
        Instruction::And { rd, ra, rb } => {
            lemma_rrr_fields(0x0400, rd.index() as u16, ra.index() as u16, rb.index() as u16);
            lemma_gpr_eta(rd);
            lemma_gpr_eta(ra);
            lemma_gpr_eta(rb);
            assert(spec_decode(w) == Ok::<Instruction, InvalidInstructionError>(i));
        },
        Instruction::Or { rd, ra, rb } => {
            lemma_rrr_fields(0x0600, rd.index() as u16, ra.index() as u16, rb.index() as u16);
            lemma_gpr_eta(rd);
            lemma_gpr_eta(ra);
            lemma_gpr_eta(rb);
            assert(spec_decode(w) == Ok::<Instruction, InvalidInstructionError>(i));
        },
        Instruction::Xor { rd, ra, rb } => {
            lemma_rrr_fields(0x0800, rd.index() as u16, ra.index() as u16, rb.index() as u16);
            lemma_gpr_eta(rd);
            lemma_gpr_eta(ra);
            lemma_gpr_eta(rb);
            assert(spec_decode(w) == Ok::<Instruction, InvalidInstructionError>(i));
        },
        Instruction::Upsample { rd, ra, rb } => {
            lemma_rrr_fields(0x0a00, rd.index() as u16, ra.index() as u16, rb.index() as u16);
            lemma_gpr_eta(rd);
            lemma_gpr_eta(ra);
            lemma_gpr_eta(rb);
            assert(spec_decode(w) == Ok::<Instruction, InvalidInstructionError>(i));
        },
        Instruction::Addi { r, immediate } => {
            lemma_r8_fields(0x1000, r.index() as u16, immediate as u8);
            assert((immediate as u8) as i8 == immediate) by (bit_vector);
            lemma_gpr_eta(r);
            assert(opcode_of_prefix(prefix_of(w)) == Some(Opcode::Addi));
            assert(spec_decode(w) == Ok::<Instruction, InvalidInstructionError>(i));
        },
        Instruction::Ldi { r, immediate } => {
            lemma_r8_fields(0x2000, r.index() as u16, immediate);
            lemma_gpr_eta(r);
            assert(opcode_of_prefix(prefix_of(w)) == Some(Opcode::Ldi));
            assert(spec_decode(w) == Ok::<Instruction, InvalidInstructionError>(i));
        },
        Instruction::Ld { rd, address, offset } => {
            lemma_ld_fields(rd.index() as u16, address.index() as u16, offset as u16);
            lemma_imm7_round_trip(offset, w, 0);
            lemma_gpr_eta(rd);
            lemma_gpr_eta(address);
            assert(opcode_of_prefix(prefix_of(w)) == Some(Opcode::Ld));
            assert(spec_decode(w) == Ok::<Instruction, InvalidInstructionError>(i));
        },
        Instruction::St { address, offset, rs } => {
            lemma_ld_fields(address.index() as u16, rs.index() as u16, offset as u16);
            lemma_imm7_round_trip(offset, w, 3);
            lemma_gpr_eta(rs);
            lemma_gpr_eta(address);
            assert(opcode_of_prefix(prefix_of(w)) == Some(Opcode::St));
            assert(spec_decode(w) == Ok::<Instruction, InvalidInstructionError>(i));
        },
        Instruction::Ldcr { rd, cr } => {
            lemma_cr_round_trip(cr);
            lemma_pair_fields(0x8000, rd.index() as u16, cr.spec_index());
            lemma_gpr_eta(rd);
            assert(opcode_of_prefix(prefix_of(w)) == Some(Opcode::Ldcr));
            assert(spec_decode(w) == Ok::<Instruction, InvalidInstructionError>(i));
        },
        Instruction::Stcr { cr, rs } => {
            lemma_cr_round_trip(cr);
            lemma_pair_fields(0x8200, cr.spec_index(), rs.index() as u16);
            lemma_gpr_eta(rs);
            assert(opcode_of_prefix(prefix_of(w)) == Some(Opcode::Stcr));
            assert(spec_decode(w) == Ok::<Instruction, InvalidInstructionError>(i));
        },
        Instruction::Jal { rd, address } => {
            lemma_pair_fields(0x8400, rd.index() as u16, address.index() as u16);
            lemma_gpr_eta(rd);
            lemma_gpr_eta(address);
            assert(opcode_of_prefix(prefix_of(w)) == Some(Opcode::Jal));
            assert(spec_decode(w) == Ok::<Instruction, InvalidInstructionError>(i));
        },
        Instruction::Bz { cond, address } => {
            lemma_pair_fields(0x8600, cond.index() as u16, address.index() as u16);
            lemma_gpr_eta(cond);
            lemma_gpr_eta(address);
            assert(opcode_of_prefix(prefix_of(w)) == Some(Opcode::Bz));
            assert(spec_decode(w) == Ok::<Instruction, InvalidInstructionError>(i));
        },
        Instruction::Bnz { cond, address } => {
            lemma_pair_fields(0x8800, cond.index() as u16, address.index() as u16);
            lemma_gpr_eta(cond);
            lemma_gpr_eta(address);
            assert(opcode_of_prefix(prefix_of(w)) == Some(Opcode::Bnz));
            assert(spec_decode(w) == Ok::<Instruction, InvalidInstructionError>(i));
        },
        Instruction::Break => {
            assert(prefix_of(0xffffu16) == 0x7f) by (bit_vector);
            assert(w == 0xffffu16);
            assert(prefix_of(w) == 0x7f);
            assert(opcode_of_prefix(0x7f) == Some(Opcode::Break));
            assert(opcode_of_prefix(prefix_of(w)) == Some(Opcode::Break));
            assert(spec_decode(w) == Ok::<Instruction, InvalidInstructionError>(i));
        },
    }
}


/// Reading a word and writing the instruction back restores every bit that
/// the instruction family does not ignore. The one family with fixed bits
/// beyond its prefix, `break`, round-trips only from its own word.
pub proof fn lemma_encode_decode(w: u16)
    requires
        opcode_of_prefix(prefix_of(w)) is Some,
        prefix_of(w) == 0x7f ==> w == 0xffff,
    ensures
        spec_decode(w) is Ok,
        spec_decode(w)->Ok_0.wf(),
        spec_encode(spec_decode(w)->Ok_0) == w & !ignored_bits(
            opcode_of_prefix(prefix_of(w))->Some_0,
        ),
{
    let op = opcode_of_prefix(prefix_of(w))->Some_0;
    let i = spec_decode(w)->Ok_0;
    lemma_pair_word(w);
    lemma_gpr_of_bits((w >> 6u16) & 7u16);
    lemma_gpr_of_bits((w >> 3u16) & 7u16);
    lemma_gpr_of_bits((w >> 0u16) & 7u16);
    lemma_gpr_of_bits((w >> 8u16) & 7u16);
    lemma_gpr_of_bits((w >> 7u16) & 7u16);
    lemma_gpr_of_bits((w >> 10u16) & 7u16);
    match op {
        Opcode::Add => {
            lemma_rrr_word(w);
            assert(spec_encode(i) == w & !ignored_bits(op));
        },
        Opcode::Sub => {
            lemma_rrr_word(w);
            assert(spec_encode(i) == w & !ignored_bits(op));
        },
        Opcode::And => {
            lemma_rrr_word(w);
            assert(spec_encode(i) == w & !ignored_bits(op));
        },
        Opcode::Or => {
            lemma_rrr_word(w);
            assert(spec_encode(i) == w & !ignored_bits(op));
        },
        Opcode::Xor => {
            lemma_rrr_word(w);
            assert(spec_encode(i) == w & !ignored_bits(op));
        },
        Opcode::Upsample => {
            lemma_rrr_word(w);
            assert(spec_encode(i) == w & !ignored_bits(op));
        },
        Opcode::Addi => {
            lemma_r8_word(w);
            assert(spec_encode(i) == w & !ignored_bits(op));
        },
        Opcode::Ldi => {
            lemma_r8_word(w);
            assert(spec_encode(i) == w & !ignored_bits(op));
        },
        Opcode::Ld => {
            lemma_ld_word(w);
            lemma_imm7_bits(w, 0);
            assert(spec_encode(i) == w & !ignored_bits(op));
        },
        Opcode::St => {
            lemma_ld_word(w);
            lemma_imm7_bits(w, 3);
            assert(spec_encode(i) == w & !ignored_bits(op));
        },
        Opcode::Ldcr => {
            assert(ControlRegister::spec_from_index(w & 7u16)->Some_0.spec_index() == w & 7u16);
            assert(spec_encode(i) == w & !ignored_bits(op));
        },
        Opcode::Stcr => {
            assert(ControlRegister::spec_from_index((w >> 3u16) & 7u16)->Some_0.spec_index() == (w
                >> 3u16) & 7u16);
            assert(spec_encode(i) == w & !ignored_bits(op));
        },
        Opcode::Jal => {
            assert(spec_encode(i) == w & !ignored_bits(op));
        },
        Opcode::Bz => {
            assert(spec_encode(i) == w & !ignored_bits(op));
        },
        Opcode::Bnz => {
            assert(spec_encode(i) == w & !ignored_bits(op));
        },
        Opcode::Break => {
            assert(0xffffu16 & !0u16 == 0xffffu16) by (bit_vector);
            assert(spec_encode(i) == w & !ignored_bits(op));
        },
    }
}

proof fn lemma_flip_fields(w: u16, m: u16)
    by (bit_vector)
    ensures
        m & !0u16 == 0 ==> w ^ m == w,
        m & !0x0800u16 == 0 ==> (0x08 <= prefix_of(w ^ m) <= 0x0f) == (0x08 <= prefix_of(w) <= 0x0f)
            && (0x10 <= prefix_of(w ^ m) <= 0x17) == (0x10 <= prefix_of(w) <= 0x17)
            && ((w ^ m) >> 8u16) & 7u16 == (w >> 8u16) & 7u16 && (w ^ m) & 0xffu16 == w & 0xffu16,
        m & !0x01c0u16 == 0 ==> prefix_of(w ^ m) == prefix_of(w) && ((w ^ m) >> 3u16) & 7u16 == (w
            >> 3u16) & 7u16 && ((w ^ m) >> 0u16) & 7u16 == (w >> 0u16) & 7u16 && (w ^ m) & 7u16 == w
            & 7u16,
{
}

/// Ignored bit positions may hold anything: flipping any of them leaves the
/// decoded instruction as it is.
pub proof fn lemma_ignored_bits_ignored(w: u16, m: u16)
    requires
        opcode_of_prefix(prefix_of(w)) is Some,
        m & !ignored_bits(opcode_of_prefix(prefix_of(w))->Some_0) == 0,
    ensures
        spec_decode(w ^ m) == spec_decode(w),
{
    lemma_flip_fields(w, m);
    let op = opcode_of_prefix(prefix_of(w))->Some_0;
    match op {
        Opcode::Addi | Opcode::Ldi => {
            assert(opcode_of_prefix(prefix_of(w ^ m)) == Some(op));
        },
        Opcode::Ldcr | Opcode::Stcr | Opcode::Jal | Opcode::Bz | Opcode::Bnz => {
            assert(prefix_of(w ^ m) == prefix_of(w));
        },
        _ => {
            assert(w ^ m == w);
        },
    }
}

/// A word whose prefix selects no instruction decodes to the invalid opcode
/// error carrying the word.
pub proof fn lemma_invalid_prefix(w: u16)
    requires
        opcode_of_prefix(prefix_of(w)) is None,
    ensures
        spec_decode(w) == Err::<Instruction, InvalidInstructionError>(
            InvalidInstructionError::InvalidOpcode(w),
        ),
{
}

} // verus!
