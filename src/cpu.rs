//! The CPU state machine: registers, the page table and address translation.
use vstd::prelude::*;

use crate::cpu_types::{
    lemma_virtual_address_round_trip, CpuStatus, EmulatorError, PageTableIndex, PageTableRecord, PhysicalMemoryAddress,
    VirtualMemoryAddress, VirtualMemorySegment,
};
use crate::instruction::{cr_at, opcode_of_prefix, prefix_of, ControlRegister, Gpr, Opcode, Word};
use crate::memory::PhysicaMemory;
use crate::microcode::{
    by_phase, microcode_of, microcode_step, order_by_phase, AluOp, MicroOp, StepCode,
};
use crate::util::{sign_extend_field, sign_extended};

verus! {

/// Number of page table records: one per 13 bit index.
pub const PAGE_TABLE_SIZE: usize = 0x2000;

/// Frame that the program segment maps to while the MMU is off: the first
/// frame of the boot ROM.
pub const PROGRAM_FRAME_WITHOUT_MMU: u16 = 0x2000;

/// The whole state of the CPU, as the contracts see it.
pub struct CpuView {
    /// `r1` to `r7`.
    pub gpr: Seq<Word>,
    pub pc: Word,
    pub alu_flags: Word,
    pub cpu_status: CpuStatus,
    pub context_id: u16,
    pub int_cause: Word,
    pub int_base: Word,
    pub int_pc: Word,
    pub mmu_addr: Word,
    pub step: u8,
    pub current_instruction: Word,
    pub next_instruction: Word,
    pub page_table: Seq<PageTableRecord>,
}

impl CpuView {
    pub open spec fn wf(self) -> bool {
        &&& self.gpr.len() == 7
        &&& self.context_id < 64
        &&& self.step < 4
        &&& self.page_table.len() == PAGE_TABLE_SIZE
        &&& forall|i: int| 0 <= i < PAGE_TABLE_SIZE ==> #[trigger] self.page_table[i].wf()
    }

    /// Value of a general purpose register; `r0` is always zero.
    pub open spec fn gpr_value(self, index: u8) -> Word {
        if index == 0 {
            0
        } else {
            self.gpr[index - 1]
        }
    }

    /// State after writing a general purpose register; writes to `r0` are
    /// discarded.
    pub open spec fn with_gpr(self, index: u8, value: Word) -> CpuView {
        if index == 0 {
            self
        } else {
            CpuView { gpr: self.gpr.update(index - 1, value), ..self }
        }
    }

    /// State after a reset: program counter, status, step and current
    /// instruction cleared, everything else kept.
    pub open spec fn after_reset(self) -> CpuView {
        CpuView {
            pc: 0,
            cpu_status: CpuStatus {
                interrupt_enabled: false,
                kernel_mode: false,
                mmu_enabled: false,
            },
            step: 0,
            current_instruction: 0,
            ..self
        }
    }

    /// Index of the page table record that `MMUData` reads and writes.
    pub open spec fn mmu_index(self) -> int {
        (self.mmu_addr & 0x1fffu16) as int
    }

    /// Value that reading a control register gives.
    pub open spec fn cr_value(self, cr: ControlRegister) -> Word {
        match cr {
            ControlRegister::AluStatus => self.alu_flags,
            ControlRegister::CpuStatus => self.cpu_status.spec_word(),
            ControlRegister::ContextID => self.context_id,
            ControlRegister::IntCause => self.int_cause,
            ControlRegister::IntBase => self.int_base,
            ControlRegister::IntPc => self.int_pc,
            ControlRegister::MMUAddr => self.mmu_addr,
            ControlRegister::MMUData => self.page_table[self.mmu_index()].spec_word(),
        }
    }

    /// State after a successful write of `value` to a control register.
    pub open spec fn with_cr(self, cr: ControlRegister, value: Word) -> CpuView {
        match cr {
            ControlRegister::AluStatus => CpuView { alu_flags: value, ..self },
            ControlRegister::CpuStatus => CpuView {
                cpu_status: CpuStatus::spec_from_word(value),
                ..self
            },
            ControlRegister::ContextID => CpuView { context_id: value, ..self },
            ControlRegister::IntCause => CpuView { int_cause: value, ..self },
            ControlRegister::IntBase => CpuView { int_base: value, ..self },
            ControlRegister::IntPc => CpuView { int_pc: value, ..self },
            ControlRegister::MMUAddr => CpuView { mmu_addr: value, ..self },
            ControlRegister::MMUData => CpuView {
                page_table: self.page_table.update(
                    self.mmu_index(),
                    PageTableRecord::spec_from_word(value),
                ),
                ..self
            },
        }
    }

    /// Whether a control register write is refused: reserved status bits or
    /// a context id of more than six bits.
    pub open spec fn cr_write_refused(cr: ControlRegister, value: Word) -> bool {
        (cr == ControlRegister::CpuStatus && value & !7u16 != 0) || (cr
            == ControlRegister::ContextID && value >= 64)
    }

    /// Physical address of a virtual one, or `None` for a page fault.
    pub open spec fn translate(
        self,
        address: VirtualMemoryAddress,
        segment: VirtualMemorySegment,
        write: bool,
    ) -> Option<PhysicalMemoryAddress> {
        if self.cpu_status.mmu_enabled {
            let index = PageTableIndex {
                context_id: self.context_id,
                segment,
                page_number: address.page_number,
            };
            let record = self.page_table[index.spec_word() as int];
            if (write && !record.writable) || (!write && !record.readable) {
                None
            } else {
                Some(PhysicalMemoryAddress { frame_number: record.frame_number, offset: address.offset })
            }
        } else {
            Some(
                PhysicalMemoryAddress {
                    frame_number: match segment {
                        VirtualMemorySegment::Data => 0,
                        VirtualMemorySegment::Program => PROGRAM_FRAME_WITHOUT_MMU,
                    },
                    offset: address.offset,
                },
            )
        }
    }
}

pub struct CpuState {
    gpr: Vec<Word>,
    pc: Word,
    alu_flags: Word,
    cpu_status: CpuStatus,
    context_id: u16,
    int_cause: Word,
    int_base: Word,
    int_pc: Word,
    mmu_addr: Word,
    step: u8,
    current_instruction: Word,
    next_instruction: Word,
    page_table: Vec<PageTableRecord>,
}

impl View for CpuState {
    type V = CpuView;

    closed spec fn view(&self) -> CpuView {
        CpuView {
            gpr: self.gpr@,
            pc: self.pc,
            alu_flags: self.alu_flags,
            cpu_status: self.cpu_status,
            context_id: self.context_id,
            int_cause: self.int_cause,
            int_base: self.int_base,
            int_pc: self.int_pc,
            mmu_addr: self.mmu_addr,
            step: self.step,
            current_instruction: self.current_instruction,
            next_instruction: self.next_instruction,
            page_table: self.page_table@,
        }
    }
}

impl CpuState {
    /// A CPU in the reset state with every other register, and the page
    /// table, zero.
    pub fn new() -> (r: CpuState)
        ensures
            r@.wf(),
            r@ == (CpuView {
                gpr: Seq::new(7, |i: int| 0u16),
                pc: 0,
                alu_flags: 0,
                cpu_status: CpuStatus {
                    interrupt_enabled: false,
                    kernel_mode: false,
                    mmu_enabled: false,
                },
                context_id: 0,
                int_cause: 0,
                int_base: 0,
                int_pc: 0,
                mmu_addr: 0,
                step: 0,
                current_instruction: 0,
                next_instruction: 0,
                page_table: Seq::new(PAGE_TABLE_SIZE as nat, |i: int| PageTableRecord::spec_from_word(0)),
            }),
    {
        let mut gpr: Vec<Word> = Vec::new();
        let mut i: usize = 0;
        while i < 7
            invariant
                i <= 7,
                gpr@ == Seq::new(i as nat, |j: int| 0u16),
            decreases 7 - i,
        {
            gpr.push(0);
            i = i + 1;
        }
        let mut page_table: Vec<PageTableRecord> = Vec::new();
        let mut k: usize = 0;
        while k < PAGE_TABLE_SIZE
            invariant
                k <= PAGE_TABLE_SIZE,
                page_table@ == Seq::new(k as nat, |j: int| PageTableRecord::spec_from_word(0)),
            decreases PAGE_TABLE_SIZE - k,
        {
            page_table.push(PageTableRecord::from_word(0));
            k = k + 1;
        }
        let mut r = CpuState {
            gpr,
            pc: 0,
            alu_flags: 0,
            cpu_status: CpuStatus::cleared(),
            context_id: 0,
            int_cause: 0,
            int_base: 0,
            int_pc: 0,
            mmu_addr: 0,
            step: 0,
            current_instruction: 0,
            next_instruction: 0,
            page_table,
        };
        proof {
            assert(PageTableRecord::spec_from_word(0).wf()) by (bit_vector);
        }
        r
    }

    /// Bring the CPU back to its startup state: program counter, status,
    /// microcode step and current instruction are cleared; the rest stays.
    pub fn reset(&mut self)
        requires
            old(self)@.wf(),
        ensures
            final(self)@ == old(self)@.after_reset(),
            final(self)@.wf(),
    {
        self.pc = 0;
        self.cpu_status = CpuStatus::cleared();
        self.step = 0;
        self.current_instruction = 0;
    }

    pub fn get_next_instruction(&self) -> (r: Word)
        ensures
            r == self@.next_instruction,
    {
        self.next_instruction
    }

    pub fn get_pc(&self) -> (r: Word)
        ensures
            r == self@.pc,
    {
        self.pc
    }

    pub fn get_step(&self) -> (r: u8)
        ensures
            r == self@.step,
    {
        self.step
    }

    /// Value of a general purpose register; `r0` reads as zero.
    pub fn get_gpr(&self, index: Gpr) -> (r: Word)
        requires
            self@.wf(),
            index.wf(),
        ensures
            r == self@.gpr_value(index.index()),
    {
        let i = index.to_u16();
        if i == 0 {
            0
        } else {
            self.gpr[(i - 1) as usize]
        }
    }

    /// Write a general purpose register; writes to `r0` are discarded.
    pub fn set_gpr(&mut self, index: Gpr, value: Word)
        requires
            old(self)@.wf(),
            index.wf(),
        ensures
            final(self)@.wf(),
            final(self)@ == old(self)@.with_gpr(index.index(), value),
    {
        let i = index.to_u16();
        if i > 0 {
            self.gpr.set((i - 1) as usize, value);
        }
    }

    /// Value of a control register.
    pub fn get_cr(&self, cr: ControlRegister) -> (r: Word)
        requires
            self@.wf(),
        ensures
            r == self@.cr_value(cr),
    {
        match cr {
            ControlRegister::AluStatus => self.alu_flags,
            ControlRegister::CpuStatus => self.cpu_status.to_word(),
            ControlRegister::ContextID => self.context_id,
            ControlRegister::IntCause => self.int_cause,
            ControlRegister::IntBase => self.int_base,
            ControlRegister::IntPc => self.int_pc,
            ControlRegister::MMUAddr => self.mmu_addr,
            ControlRegister::MMUData => {
                let a = self.mmu_addr;
                assert(a & 0x1fffu16 < 0x2000) by (bit_vector);
                let i = (a & 0x1fffu16) as usize;
                self.page_table[i].to_word()
            },
        }
    }
}

impl CpuState {
    /// Write a control register. A status word with reserved bits set, or a
    /// context id wider than six bits, is refused with `ReservedBitNonzero`
    /// and changes nothing. Writing `MMUData` stores the value as the page
    /// table record at the index held in `MMUAddr`.
    pub fn set_cr(&mut self, cr: ControlRegister, value: Word) -> (r: Result<(), EmulatorError>)
        requires
            old(self)@.wf(),
        ensures
            final(self)@.wf(),
            r is Err <==> CpuView::cr_write_refused(cr, value),
            r is Err ==> final(self)@ == old(self)@,
            r is Ok ==> final(self)@ == old(self)@.with_cr(cr, value),
            r matches Err(e) ==> (e == (EmulatorError::ReservedBitNonzero { t: cr, value })),
    {
        match cr {
            ControlRegister::AluStatus => self.alu_flags = value,
            ControlRegister::CpuStatus => {
                self.cpu_status = CpuStatus::try_from_word(value)?;
            },
            ControlRegister::ContextID => {
                if value >= 64 {
                    return Err(
                        EmulatorError::ReservedBitNonzero { t: ControlRegister::ContextID, value },
                    );
                }
                self.context_id = value;
            },
            ControlRegister::IntCause => self.int_cause = value,
            ControlRegister::IntBase => self.int_base = value,
            ControlRegister::IntPc => self.int_pc = value,
            ControlRegister::MMUAddr => self.mmu_addr = value,
            ControlRegister::MMUData => {
                let a = self.mmu_addr;
                assert(a & 0x1fffu16 < 0x2000) by (bit_vector);
                let i = (a & 0x1fffu16) as usize;
                self.page_table.set(i, PageTableRecord::from_word(value));
                proof {
                    assert forall|k: int| 0 <= k < PAGE_TABLE_SIZE implies #[trigger] self.page_table@[k].wf() by {
                        if k != i as int {
                            assert(old(self)@.page_table[k].wf());
                        }
                    }
                }
            },
        }
        Ok(())
    }

    /// Physical address of a virtual one, or `None` when the page table
    /// denies the access (a page fault). With the MMU off, data maps to frame
    /// 0 and program to the first ROM frame.
    pub fn virtual_to_physical(
        &self,
        address: VirtualMemoryAddress,
        segment: VirtualMemorySegment,
        write: bool,
    ) -> (r: Option<PhysicalMemoryAddress>)
        requires
            self@.wf(),
            address.wf(),
        ensures
            r == self@.translate(address, segment, write),
            r matches Some(p) ==> p.wf(),
    {
        if self.cpu_status.mmu_enabled {
            let index = PageTableIndex {
                context_id: self.context_id,
                segment,
                page_number: address.page_number,
            };
            let i = index.to_word() as usize;
            let record = self.page_table[i];
            assert(self@.page_table[i as int].wf());
            if (write && !record.writable) || (!write && !record.readable) {
                None
            } else {
                Some(PhysicalMemoryAddress { frame_number: record.frame_number, offset: address.offset })
            }
        } else {
            Some(
                PhysicalMemoryAddress {
                    frame_number: match segment {
                        VirtualMemorySegment::Data => 0,
                        VirtualMemorySegment::Program => PROGRAM_FRAME_WITHOUT_MMU,
                    },
                    offset: address.offset,
                },
            )
        }
    }

    /// Read a word through the MMU. A denied access is a `PageFault`; a
    /// physical address that the memory does not answer is
    /// `NonMappedPhysicalMemory`.
    pub fn read_memory<M: PhysicaMemory>(
        &self,
        address: VirtualMemoryAddress,
        segment: VirtualMemorySegment,
        memory: &M,
    ) -> (r: Result<Word, EmulatorError>)
        requires
            self@.wf(),
            address.wf(),
        ensures
            r == (match self@.translate(address, segment, false) {
                None => Err(EmulatorError::PageFault { address: address.spec_word(), pc: self@.pc }),
                Some(p) => if p.spec_u24() <= memory.spec_max_address() && memory.spec_read(
                    p.spec_u24(),
                ) is Some {
                    Ok(memory.spec_read(p.spec_u24())->Some_0)
                } else {
                    Err(EmulatorError::NonMappedPhysicalMemory { address: p, pc: self@.pc })
                },
            }),
    {
        match self.virtual_to_physical(address, segment, false) {
            None => Err(EmulatorError::PageFault { address: address.to_word(), pc: self.pc }),
            Some(p) => {
                let a = p.to_u24();
                if a <= memory.max_address() {
                    match memory.read(a) {
                        Some(v) => Ok(v),
                        None => Err(EmulatorError::NonMappedPhysicalMemory { address: p, pc: self.pc }),
                    }
                } else {
                    Err(EmulatorError::NonMappedPhysicalMemory { address: p, pc: self.pc })
                }
            },
        }
    }

    /// Write a word through the MMU, with the errors of `read_memory`.
    pub fn write_memory<M: PhysicaMemory>(
        &self,
        address: VirtualMemoryAddress,
        segment: VirtualMemorySegment,
        memory: &mut M,
        value: Word,
    ) -> (r: Result<(), EmulatorError>)
        requires
            self@.wf(),
            address.wf(),
        ensures
            r == (match self@.translate(address, segment, true) {
                None => Err(EmulatorError::PageFault { address: address.spec_word(), pc: self@.pc }),
                Some(p) => if p.spec_u24() <= old(memory).spec_max_address() && old(
                    memory,
                ).spec_writable(p.spec_u24()) {
                    Ok(())
                } else {
                    Err(EmulatorError::NonMappedPhysicalMemory { address: p, pc: self@.pc })
                },
            }),
            r is Ok ==> final(memory).spec_read(
                self@.translate(address, segment, true)->Some_0.spec_u24(),
            ) == Some(value),
            r is Err ==> forall|a: u32| #[trigger]
                final(memory).spec_read(a) == old(memory).spec_read(a),
            forall|a: u32|
                (self@.translate(address, segment, true) is None || a != self@.translate(
                    address,
                    segment,
                    true,
                )->Some_0.spec_u24()) ==> #[trigger] final(memory).spec_read(a) == old(
                    memory,
                ).spec_read(a),
    {
        match self.virtual_to_physical(address, segment, true) {
            None => Err(EmulatorError::PageFault { address: address.to_word(), pc: self.pc }),
            Some(p) => {
                let a = p.to_u24();
                if a <= memory.max_address() {
                    match memory.write(a, value) {
                        Some(()) => Ok(()),
                        None => Err(EmulatorError::NonMappedPhysicalMemory { address: p, pc: self.pc }),
                    }
                } else {
                    Err(EmulatorError::NonMappedPhysicalMemory { address: p, pc: self.pc })
                }
            },
        }
    }
}

/// Translation through the page table: with the MMU on, context 3, and the
/// record for (context 3, data, page 5) readable but not writable with frame
/// 0x2A, reading page 5 offset 0x123 goes to physical address 0x00A923 and
/// writing it is a page fault.
pub proof fn lemma_mmu_translation_example(v: CpuView)
    requires
        v.wf(),
        v.cpu_status.mmu_enabled,
        v.context_id == 3,
        v.page_table[(PageTableIndex {
            context_id: 3,
            segment: VirtualMemorySegment::Data,
            page_number: 5,
        }).spec_word() as int] == (PageTableRecord { readable: true, writable: false, frame_number: 0x2a }),
    ensures
        v.translate(
            VirtualMemoryAddress { page_number: 5, offset: 0x123 },
            VirtualMemorySegment::Data,
            false,
        ) == Some(PhysicalMemoryAddress { frame_number: 0x2a, offset: 0x123 }),
        (PhysicalMemoryAddress { frame_number: 0x2a, offset: 0x123 }).spec_u24() == 0x00a923,
        v.translate(
            VirtualMemoryAddress { page_number: 5, offset: 0x123 },
            VirtualMemorySegment::Data,
            true,
        ) is None,
{
    assert(((0x2au16 as u32) << 10u32) | (0x123u16 as u32) == 0x00a923u32) by (bit_vector);
}

/// `r0` reads as zero, whatever was written to it or to any other register.
pub proof fn lemma_r0_reads_zero(v: CpuView, index: u8, value: Word)
    requires
        v.wf(),
        index < 8,
    ensures
        v.gpr_value(0) == 0,
        v.with_gpr(index, value).gpr_value(0) == 0,
        v.with_gpr(index, value).wf(),
{
}

/// Buses and latches of one microcode step; `None` until a microinstruction
/// of the step sets them.
#[derive(Clone, Copy, Debug)]
pub struct Datapath {
    pub left: Option<Word>,
    pub right: Option<Word>,
    pub addr_base: Option<Word>,
    pub mem_address: Option<Word>,
    pub mem_data: Option<Word>,
    pub result: Option<Word>,
    pub segment: VirtualMemorySegment,
    /// Memory was accessed in this step.
    pub accessed: bool,
    /// A write that this step made: physical address and value.
    pub written: Option<(u32, Word)>,
    /// The instruction ended in this step.
    pub ended: bool,
}

impl Datapath {
    pub open spec fn empty() -> Datapath {
        Datapath {
            left: None,
            right: None,
            addr_base: None,
            mem_address: None,
            mem_data: None,
            result: None,
            segment: VirtualMemorySegment::Data,
            accessed: false,
            written: None,
            ended: false,
        }
    }
}

pub open spec fn alu(op: AluOp, l: Word, r: Word) -> Word {
    match op {
        AluOp::Add => l.wrapping_add(r),
        AluOp::And => l & r,
        AluOp::Or => l | r,
        AluOp::Xor => l ^ r,
        AluOp::Sub => l.wrapping_sub(r),
        AluOp::Upsample => (l & 0xffu16) | ((r & 0xffu16) << 8u16),
    }
}

/// Register field of the instruction word at `shift`.
pub open spec fn field_index(w: Word, shift: u16) -> u8 {
    ((w >> shift) & 7u16) as u8
}

/// Effect of one microinstruction on the CPU and the datapath. Reads go to
/// `mem`; a second memory access in a step, or a bus read before anything
/// set it, is a `MicrocodeFault`.
pub open spec fn apply_op<M: PhysicaMemory>(v: CpuView, d: Datapath, op: MicroOp, mem: M) -> Result<(CpuView, Datapath), EmulatorError> {
    let iw = v.current_instruction;
    let fault = EmulatorError::MicrocodeFault { pc: v.pc };
    match op {
        MicroOp::PcToLeft => Ok((v, Datapath { left: Some(v.pc), ..d })),
        MicroOp::PcToAddrBase => Ok((v, Datapath { addr_base: Some(v.pc), ..d })),
        MicroOp::ZeroToLeft => Ok((v, Datapath { left: Some(0), ..d })),
        MicroOp::ZeroToRight => Ok((v, Datapath { right: Some(0), ..d })),
        MicroOp::GprToLeft { shift } => if shift <= 13 {
            Ok((v, Datapath { left: Some(v.gpr_value(field_index(iw, shift))), ..d }))
        } else {
            Err(fault)
        },
        MicroOp::GprToRight { shift } => if shift <= 13 {
            Ok((v, Datapath { right: Some(v.gpr_value(field_index(iw, shift))), ..d }))
        } else {
            Err(fault)
        },
        MicroOp::CrToRight { shift } => if shift <= 13 {
            Ok((v, Datapath { right: Some(v.cr_value(cr_at(iw >> shift))), ..d }))
        } else {
            Err(fault)
        },
        MicroOp::Imm8ToRight => Ok((v, Datapath { right: Some(sign_extended(iw, 8)), ..d })),
        MicroOp::Uimm8ToRight => Ok((v, Datapath { right: Some(iw & 0xffu16), ..d })),
        MicroOp::RightToAddrBase => match d.right {
            Some(x) => Ok((v, Datapath { addr_base: Some(x), ..d })),
            None => Err(fault),
        },
        MicroOp::LeftToMemData => match d.left {
            Some(x) => Ok((v, Datapath { mem_data: Some(x), ..d })),
            None => Err(fault),
        },
        MicroOp::Alu { op } => match (d.left, d.right) {
            (Some(l), Some(r)) => Ok((v, Datapath { result: Some(alu(op, l, r)), ..d })),
            _ => Err(fault),
        },
        MicroOp::Imm7ToAddrOffset { shift } => match d.addr_base {
            Some(b) => if shift <= 9 {
                Ok((v, Datapath { mem_address: Some(b.wrapping_add(sign_extended(iw >> shift, 7))), ..d }))
            } else {
                Err(fault)
            },
            None => Err(fault),
        },
        MicroOp::ZeroToAddrOffset => match d.addr_base {
            Some(b) => Ok((v, Datapath { mem_address: Some(b), ..d })),
            None => Err(fault),
        },
        MicroOp::OneToAddrOffset => match d.addr_base {
            Some(b) => Ok((v, Datapath { mem_address: Some(b.wrapping_add(1)), ..d })),
            None => Err(fault),
        },
        MicroOp::ProgramSegment => Ok((v, Datapath { segment: VirtualMemorySegment::Program, ..d })),
        MicroOp::MemAddressToPc => match d.mem_address {
            Some(a) => Ok((CpuView { pc: a, ..v }, d)),
            None => Err(fault),
        },
        MicroOp::MemAddressNextToPc => match d.mem_address {
            Some(a) => Ok((CpuView { pc: a.wrapping_add(1), ..v }, d)),
            None => Err(fault),
        },
        MicroOp::ReadMemData => match d.mem_address {
            Some(a) => if d.accessed {
                Err(fault)
            } else {
                let va = VirtualMemoryAddress::spec_from_word(a);
                match v.translate(va, d.segment, false) {
                    None => Err(EmulatorError::PageFault { address: a, pc: v.pc }),
                    Some(p) => if p.spec_u24() <= mem.spec_max_address() && mem.spec_read(p.spec_u24()) is Some {
                        Ok((v, Datapath { mem_data: mem.spec_read(p.spec_u24()), accessed: true, ..d }))
                    } else {
                        Err(EmulatorError::NonMappedPhysicalMemory { address: p, pc: v.pc })
                    },
                }
            },
            None => Err(fault),
        },
        MicroOp::WriteMemData => match (d.mem_address, d.mem_data) {
            (Some(a), Some(x)) => if d.accessed {
                Err(fault)
            } else {
                let va = VirtualMemoryAddress::spec_from_word(a);
                match v.translate(va, d.segment, true) {
                    None => Err(EmulatorError::PageFault { address: a, pc: v.pc }),
                    Some(p) => if p.spec_u24() <= mem.spec_max_address() && mem.spec_writable(p.spec_u24()) {
                        Ok((v, Datapath { accessed: true, written: Some((p.spec_u24(), x)), ..d }))
                    } else {
                        Err(EmulatorError::NonMappedPhysicalMemory { address: p, pc: v.pc })
                    },
                }
            },
            _ => Err(fault),
        },
        MicroOp::MemDataToInstruction => match d.mem_data {
            Some(x) => Ok((CpuView { next_instruction: x, ..v }, d)),
            None => Err(fault),
        },
        MicroOp::MemDataToResult => match d.mem_data {
            Some(x) => Ok((v, Datapath { result: Some(x), ..d })),
            None => Err(fault),
        },
        MicroOp::ResultToGpr { shift } => match d.result {
            Some(x) => if shift <= 13 {
                Ok((v.with_gpr(field_index(iw, shift), x), d))
            } else {
                Err(fault)
            },
            None => Err(fault),
        },
        MicroOp::ResultToCr { shift } => match d.result {
            Some(x) => if shift > 13 {
                Err(fault)
            } else if CpuView::cr_write_refused(cr_at(iw >> shift), x) {
                Err(EmulatorError::ReservedBitNonzero { t: cr_at(iw >> shift), value: x })
            } else {
                Ok((v.with_cr(cr_at(iw >> shift), x), d))
            },
            None => Err(fault),
        },
        MicroOp::EndInstruction => Ok((
            CpuView { current_instruction: v.next_instruction, step: 0, ..v },
            Datapath { ended: true, ..d },
        )),
        MicroOp::Break => Err(EmulatorError::Break),
    }
}

/// The microinstructions from `i` on, one after another.
pub open spec fn run_ops<M: PhysicaMemory>(v: CpuView, d: Datapath, ops: Seq<MicroOp>, i: int, mem: M) -> Result<(CpuView, Datapath), EmulatorError>
    decreases ops.len() - i,
{
    if i < 0 || i >= ops.len() {
        Ok((v, d))
    } else {
        match apply_op(v, d, ops[i], mem) {
            Err(e) => Err(e),
            Ok((v2, d2)) => run_ops(v2, d2, ops, i + 1, mem),
        }
    }
}

/// Microinstructions of the current step, in order of phase: `MissingMicrocode`
/// for an invalid opcode or an instruction without microcode,
/// `MicrocodeFault` past the last step.
pub open spec fn current_ops(v: CpuView) -> Result<Seq<MicroOp>, EmulatorError> {
    match opcode_of_prefix(prefix_of(v.current_instruction)) {
        None => Err(EmulatorError::MissingMicrocode { pc: v.pc }),
        Some(op) => match microcode_of(op) {
            None => Err(EmulatorError::MissingMicrocode { pc: v.pc }),
            Some(steps) => if v.step < steps.len() {
                Ok(by_phase(steps[v.step as int], 8))
            } else {
                Err(EmulatorError::MicrocodeFault { pc: v.pc })
            },
        },
    }
}

/// One microcode step: the state after it and what it wrote to memory. A
/// step that does not end its instruction moves to the next step.
pub open spec fn spec_step<M: PhysicaMemory>(v: CpuView, mem: M) -> Result<(CpuView, Option<(u32, Word)>), EmulatorError> {
    match current_ops(v) {
        Err(e) => Err(e),
        Ok(ops) => match run_ops(v, Datapath::empty(), ops, 0, mem) {
            Err(e) => Err(e),
            Ok((v2, d)) => if d.ended {
                Ok((v2, d.written))
            } else if v2.step < 3 {
                Ok((CpuView { step: (v2.step + 1) as u8, ..v2 }, d.written))
            } else {
                Err(EmulatorError::MicrocodeFault { pc: v2.pc })
            },
        },
    }
}

impl CpuState {
    /// Carry out one microinstruction.
    fn exec_op<M: PhysicaMemory>(&mut self, d: Datapath, op: MicroOp, memory: &mut M) -> (r: Result<Datapath, EmulatorError>)
        requires
            old(self)@.wf(),
        ensures
            final(self)@.wf(),
            match apply_op(old(self)@, d, op, *old(memory)) {
                Err(e) => r == Err::<Datapath, EmulatorError>(e),
                Ok((v2, d2)) => r matches Ok(d3) && d3 == d2 && final(self)@ == v2,
            },
            !(op is WriteMemData) ==> *final(memory) == *old(memory),
            op is WriteMemData && r is Ok ==> ({
                let (a, x) = r->Ok_0.written->Some_0;
                &&& r->Ok_0.written is Some
                &&& final(memory).spec_read(a) == Some(x)
                &&& forall|b: u32| b != a ==> #[trigger] final(memory).spec_read(b) == old(memory).spec_read(b)
            }),
    {
        let iw = self.current_instruction;
        let fault = EmulatorError::MicrocodeFault { pc: self.pc };
        match op {
            MicroOp::PcToLeft => Ok(Datapath { left: Some(self.pc), ..d }),
            MicroOp::PcToAddrBase => Ok(Datapath { addr_base: Some(self.pc), ..d }),
            MicroOp::ZeroToLeft => Ok(Datapath { left: Some(0), ..d }),
            MicroOp::ZeroToRight => Ok(Datapath { right: Some(0), ..d }),
            MicroOp::GprToLeft { shift } => {
                if shift > 13 {
                    return Err(fault);
                }
                let g = self.gpr_at_field(iw, shift);
                Ok(Datapath { left: Some(g), ..d })
            },
            MicroOp::GprToRight { shift } => {
                if shift > 13 {
                    return Err(fault);
                }
                let g = self.gpr_at_field(iw, shift);
                Ok(Datapath { right: Some(g), ..d })
            },
            MicroOp::CrToRight { shift } => {
                if shift > 13 {
                    return Err(fault);
                }
                let cr = cr_of_field(iw >> shift);
                Ok(Datapath { right: Some(self.get_cr(cr)), ..d })
            },
            MicroOp::Imm8ToRight => Ok(Datapath { right: Some(sign_extend_field(iw, 8) as u16), ..d }),
            MicroOp::Uimm8ToRight => Ok(Datapath { right: Some(iw & 0xffu16), ..d }),
            MicroOp::RightToAddrBase => match d.right {
                Some(x) => Ok(Datapath { addr_base: Some(x), ..d }),
                None => Err(fault),
            },
            MicroOp::LeftToMemData => match d.left {
                Some(x) => Ok(Datapath { mem_data: Some(x), ..d }),
                None => Err(fault),
            },
            MicroOp::Alu { op } => match (d.left, d.right) {
                (Some(l), Some(r)) => Ok(Datapath { result: Some(alu_exec(op, l, r)), ..d }),
                _ => Err(fault),
            },
            MicroOp::Imm7ToAddrOffset { shift } => match d.addr_base {
                Some(b) => {
                    if shift > 9 {
                        return Err(fault);
                    }
                    let off = sign_extend_field(iw >> shift, 7) as u16;
                    Ok(Datapath { mem_address: Some(b.wrapping_add(off)), ..d })
                },
                None => Err(fault),
            },
            MicroOp::ZeroToAddrOffset => match d.addr_base {
                Some(b) => Ok(Datapath { mem_address: Some(b), ..d }),
                None => Err(fault),
            },
            MicroOp::OneToAddrOffset => match d.addr_base {
                Some(b) => Ok(Datapath { mem_address: Some(b.wrapping_add(1)), ..d }),
                None => Err(fault),
            },
            MicroOp::ProgramSegment => Ok(Datapath { segment: VirtualMemorySegment::Program, ..d }),
            MicroOp::MemAddressToPc => match d.mem_address {
                Some(a) => {
                    self.pc = a;
                    Ok(d)
                },
                None => Err(fault),
            },
            MicroOp::MemAddressNextToPc => match d.mem_address {
                Some(a) => {
                    self.pc = a.wrapping_add(1);
                    Ok(d)
                },
                None => Err(fault),
            },
            MicroOp::ReadMemData => match d.mem_address {
                Some(a) => {
                    if d.accessed {
                        return Err(fault);
                    }
                    let va = VirtualMemoryAddress::from_word(a);
                    proof {
                        lemma_virtual_address_round_trip(va, a);
                    }
                    let x = self.read_memory(va, d.segment, memory)?;
                    Ok(Datapath { mem_data: Some(x), accessed: true, ..d })
                },
                None => Err(fault),
            },
            MicroOp::WriteMemData => match (d.mem_address, d.mem_data) {
                (Some(a), Some(x)) => {
                    if d.accessed {
                        return Err(fault);
                    }
                    let va = VirtualMemoryAddress::from_word(a);
                    proof {
                        lemma_virtual_address_round_trip(va, a);
                    }
                    let p = self.virtual_to_physical(va, d.segment, true);
                    self.write_memory(va, d.segment, memory, x)?;
                    let pa = p.unwrap().to_u24();
                    Ok(Datapath { accessed: true, written: Some((pa, x)), ..d })
                },
                _ => Err(fault),
            },
            MicroOp::MemDataToInstruction => match d.mem_data {
                Some(x) => {
                    self.next_instruction = x;
                    Ok(d)
                },
                None => Err(fault),
            },
            MicroOp::MemDataToResult => match d.mem_data {
                Some(x) => Ok(Datapath { result: Some(x), ..d }),
                None => Err(fault),
            },
            MicroOp::ResultToGpr { shift } => match d.result {
                Some(x) => {
                    if shift > 13 {
                        return Err(fault);
                    }
                    let g = gpr_of_field(iw, shift);
                    self.set_gpr(g, x);
                    Ok(d)
                },
                None => Err(fault),
            },
            MicroOp::ResultToCr { shift } => match d.result {
                Some(x) => {
                    if shift > 13 {
                        return Err(fault);
                    }
                    let cr = cr_of_field(iw >> shift);
                    self.set_cr(cr, x)?;
                    Ok(d)
                },
                None => Err(fault),
            },
            MicroOp::EndInstruction => {
                self.current_instruction = self.next_instruction;
                self.step = 0;
                Ok(Datapath { ended: true, ..d })
            },
            MicroOp::Break => Err(EmulatorError::Break),
        }
    }

    fn gpr_at_field(&self, iw: Word, shift: u16) -> (r: Word)
        requires
            self@.wf(),
            shift <= 13,
        ensures
            r == self@.gpr_value(field_index(iw, shift)),
    {
        let g = gpr_of_field(iw, shift);
        self.get_gpr(g)
    }

    /// Advance one microcode step: run the current step's microinstructions
    /// in order of phase, then move to the next step unless the instruction
    /// ended. Errors as `spec_step` gives them; `Break` halts cleanly.
    pub fn step<M: PhysicaMemory>(&mut self, memory: &mut M) -> (r: Result<(), EmulatorError>)
        requires
            old(self)@.wf(),
        ensures
            final(self)@.wf(),
            match spec_step(old(self)@, *old(memory)) {
                Err(e) => r == Err::<(), EmulatorError>(e),
                Ok((v2, w)) => {
                    &&& r is Ok
                    &&& final(self)@ == v2
                    &&& w is None ==> *final(memory) == *old(memory)
                    &&& w matches Some((a, x)) ==> final(memory).spec_read(a) == Some(x)
                    &&& w matches Some((a, x)) ==> forall|b: u32| b != a ==> #[trigger] final(memory).spec_read(b) == old(memory).spec_read(b)
                },
            },
    {
        let ghost v0 = self@;
        let ghost m0 = *memory;
        let op = match Opcode::from_word(self.current_instruction) {
            Ok(op) => op,
            Err(_) => {
                return Err(EmulatorError::MissingMicrocode { pc: self.pc });
            },
        };
        let written_ops = match microcode_step(op, self.step) {
            StepCode::Ops(v) => v,
            StepCode::PastEnd => {
                return Err(EmulatorError::MicrocodeFault { pc: self.pc });
            },
            StepCode::Missing => {
                return Err(EmulatorError::MissingMicrocode { pc: self.pc });
            },
        };
        let ops = order_by_phase(&written_ops);
        assert(current_ops(v0) == Ok::<Seq<MicroOp>, EmulatorError>(ops@));
        let mut d = Datapath {
            left: None,
            right: None,
            addr_base: None,
            mem_address: None,
            mem_data: None,
            result: None,
            segment: VirtualMemorySegment::Data,
            accessed: false,
            written: None,
            ended: false,
        };
        let mut i: usize = 0;
        while i < ops.len()
            invariant
                i <= ops@.len(),
                self@.wf(),
                v0 == old(self)@,
                m0 == *old(memory),
                current_ops(v0) == Ok::<Seq<MicroOp>, EmulatorError>(ops@),
                run_ops(v0, Datapath::empty(), ops@, 0, m0) == run_ops(self@, d, ops@, i as int, m0),
                !d.accessed ==> d.written is None,
                d.written is None ==> *memory == m0,
                d.written matches Some((a, x)) ==> memory.spec_read(a) == Some(x),
                d.written matches Some((a, x)) ==> forall|b: u32| b != a ==> #[trigger] memory.spec_read(b) == m0.spec_read(b),
            decreases ops@.len() - i,
        {
            let op = ops[i];
            proof {
                assert(d.accessed || *memory == m0);
                assert(apply_op(self@, d, op, *memory) == apply_op(self@, d, op, m0));
            }
            let ghost before = *memory;
            let ghost v_before = self@;
            let ghost d_before = d;
            match self.exec_op(d, op, memory) {
                Ok(d2) => {
                    d = d2;
                },
                Err(e) => {
                    proof {
                        assert(ops@[i as int] == op);
                        assert(run_ops(v_before, d_before, ops@, i as int, m0) == Err::<(CpuView, Datapath), EmulatorError>(e));
                    }
                    return Err(e);
                },
            }
            proof {
                if op is WriteMemData {
                    assert(before == m0);
                }
            }
            i = i + 1;
        }
        if d.ended {
            Ok(())
        } else if self.step < 3 {
            self.step = self.step + 1;
            Ok(())
        } else {
            Err(EmulatorError::MicrocodeFault { pc: self.pc })
        }
    }
}

/// Number of words that seed a CPU: seven registers, eleven other words
/// of state, and one per page table record.
pub const SEED_WORDS: usize = 18 + PAGE_TABLE_SIZE;

/// State drawn from seed words, before the reset.
pub open spec fn seeded(w: Seq<Word>) -> CpuView {
    CpuView {
        gpr: w.subrange(0, 7),
        pc: w[7],
        alu_flags: w[8],
        cpu_status: CpuStatus::spec_from_word(w[9] & 7u16),
        context_id: w[10] & 0x3fu16,
        int_cause: w[11],
        int_base: w[12],
        int_pc: w[13],
        mmu_addr: w[14],
        step: (w[15] & 3u16) as u8,
        current_instruction: w[16],
        next_instruction: w[17],
        page_table: Seq::new(PAGE_TABLE_SIZE as nat, |i: int| PageTableRecord::spec_from_word(w[18 + i])),
    }
}

impl CpuState {
    /// A CPU whose state comes from the given words, for instance random
    /// ones, and is then reset.
    pub fn from_seed(words: &Vec<Word>) -> (r: CpuState)
        requires
            words@.len() == SEED_WORDS,
        ensures
            r@.wf(),
            r@ == seeded(words@).after_reset(),
    {
        let mut gpr: Vec<Word> = Vec::new();
        let mut i: usize = 0;
        while i < 7
            invariant
                i <= 7,
                words@.len() == SEED_WORDS,
                gpr@ == words@.subrange(0, i as int),
            decreases 7 - i,
        {
            gpr.push(words[i]);
            i = i + 1;
            assert(gpr@ =~= words@.subrange(0, i as int));
        }
        let mut page_table: Vec<PageTableRecord> = Vec::new();
        let mut k: usize = 0;
        while k < PAGE_TABLE_SIZE
            invariant
                k <= PAGE_TABLE_SIZE,
                words@.len() == SEED_WORDS,
                page_table@ == Seq::new(k as nat, |j: int| PageTableRecord::spec_from_word(words@[18 + j])),
                forall|j: int| 0 <= j < k ==> (#[trigger] page_table@[j]).wf(),
            decreases PAGE_TABLE_SIZE - k,
        {
            page_table.push(PageTableRecord::from_word(words[18 + k]));
            k = k + 1;
            assert(page_table@ =~= Seq::new(k as nat, |j: int| PageTableRecord::spec_from_word(words@[18 + j])));
        }
        let (w9, w10, w15) = (words[9], words[10], words[15]);
        let status_word = w9 & 7u16;
        let ctx = w10 & 0x3fu16;
        let step_word = w15 & 3u16;
        assert(status_word & !7u16 == 0 && ctx < 64 && step_word < 4) by (bit_vector)
            requires
                status_word == w9 & 7u16,
                ctx == w10 & 0x3fu16,
                step_word == w15 & 3u16,
        ;
        let cpu_status = match CpuStatus::try_from_word(status_word) {
            Ok(s) => s,
            Err(_) => CpuStatus::cleared(),
        };
        let mut r = CpuState {
            gpr,
            pc: words[7],
            alu_flags: words[8],
            cpu_status,
            context_id: ctx,
            int_cause: words[11],
            int_base: words[12],
            int_pc: words[13],
            mmu_addr: words[14],
            step: step_word as u8,
            current_instruction: words[16],
            next_instruction: words[17],
            page_table,
        };
        r.reset();
        r
    }
}

fn alu_exec(op: AluOp, l: Word, r: Word) -> (x: Word)
    ensures
        x == alu(op, l, r),
{
    match op {
        AluOp::Add => l.wrapping_add(r),
        AluOp::And => l & r,
        AluOp::Or => l | r,
        AluOp::Xor => l ^ r,
        AluOp::Sub => l.wrapping_sub(r),
        AluOp::Upsample => (l & 0xffu16) | ((r & 0xffu16) << 8u16),
    }
}

fn gpr_of_field(iw: Word, shift: u16) -> (g: Gpr)
    requires
        shift <= 13,
    ensures
        g.index() == field_index(iw, shift),
        g.wf(),
{
    let v: u16 = (iw >> shift) & 7u16;
    assert(v < 8) by (bit_vector)
        requires
            v == (iw >> shift) & 7u16,
    ;
    Gpr::new(v as usize)
}

fn cr_of_field(w: Word) -> (cr: ControlRegister)
    ensures
        cr == cr_at(w),
{
    let v: u16 = w & 7u16;
    assert(v < 8) by (bit_vector)
        requires
            v == w & 7u16,
    ;
    ControlRegister::try_from_u16(v).unwrap()
}

} // verus!
