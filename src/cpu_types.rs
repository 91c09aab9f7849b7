//! Values that the CPU packs into words: status flags, virtual and physical
//! addresses, page table indices and records.
use vstd::prelude::*;

use crate::instruction::{ControlRegister, Word};

verus! {

/// A value does not fit the bits that its type has.
#[derive(Clone, Copy, Debug, PartialEq, Eq, Structural)]
pub enum OutOfRangeError {
    OutOfRange(u32),
}

#[derive(Clone, Copy, Debug, PartialEq, Eq, Structural)]
pub enum EmulatorError {
    /// A physical address that no device answers.
    NonMappedPhysicalMemory { address: PhysicalMemoryAddress, pc: Word },
    /// The current instruction has no microcode.
    MissingMicrocode { pc: Word },
    /// A memory access failed for another reason.
    MemoryAccessError { pc: Word },
    /// A write to control register `t` set bits that must stay zero.
    ReservedBitNonzero { t: ControlRegister, value: Word },
    /// The microcode read a bus that no earlier microinstruction of the
    /// step set, accessed memory twice in one step, or ran past its steps.
    MicrocodeFault { pc: Word },
    /// The page table denies the access; interrupts that would handle it
    /// are not modelled, so the access stops the CPU.
    PageFault { address: Word, pc: Word },
    /// The program asked the emulator to stop.
    Break,
}

pub open spec fn bit(b: bool, v: u16) -> u16 {
    if b {
        v
    } else {
        0
    }
}

#[derive(Clone, Copy, Debug, PartialEq, Eq, Structural)]
pub struct CpuStatus {
    pub interrupt_enabled: bool,
    pub kernel_mode: bool,
    pub mmu_enabled: bool,
}

impl CpuStatus {
    /// Bit 0 interrupt enable, bit 1 kernel mode, bit 2 MMU enable.
    pub open spec fn spec_word(self) -> u16 {
        bit(self.interrupt_enabled, 1) | bit(self.kernel_mode, 2) | bit(self.mmu_enabled, 4)
    }

    pub open spec fn spec_from_word(w: u16) -> CpuStatus {
        CpuStatus {
            interrupt_enabled: w & 1 != 0,
            kernel_mode: w & 2 != 0,
            mmu_enabled: w & 4 != 0,
        }
    }

    pub fn cleared() -> (r: CpuStatus)
        ensures
            !r.interrupt_enabled && !r.kernel_mode && !r.mmu_enabled,
    {
        CpuStatus { interrupt_enabled: false, kernel_mode: false, mmu_enabled: false }
    }

    pub fn to_word(&self) -> (r: Word)
        ensures
            r == self.spec_word(),
    {
        (if self.interrupt_enabled {
            1u16
        } else {
            0u16
        }) | (if self.kernel_mode {
            2u16
        } else {
            0u16
        }) | (if self.mmu_enabled {
            4u16
        } else {
            0u16
        })
    }

    /// Status held in the low three bits of `w`; any higher bit set is
    /// `ReservedBitNonzero`.
    pub fn try_from_word(w: Word) -> (r: Result<CpuStatus, EmulatorError>)
        ensures
            w & !7u16 == 0 <==> r is Ok,
            r matches Ok(s) ==> s == Self::spec_from_word(w),
            r matches Err(e) ==> (e == (EmulatorError::ReservedBitNonzero {
                t: ControlRegister::CpuStatus,
                value: w,
            })),
    {
        if w & !7u16 != 0 {
            Err(EmulatorError::ReservedBitNonzero { t: ControlRegister::CpuStatus, value: w })
        } else {
            Ok(CpuStatus {
                interrupt_enabled: w & 1 != 0,
                kernel_mode: w & 2 != 0,
                mmu_enabled: w & 4 != 0,
            })
        }
    }
}

/// A status survives being packed into a word and read back, and a word
/// within the three status bits survives being read and packed again.
pub proof fn lemma_cpu_status_round_trip(s: CpuStatus, w: u16)
    ensures
        s.spec_word() & !7u16 == 0,
        CpuStatus::spec_from_word(s.spec_word()) == s,
        w & !7u16 == 0 ==> CpuStatus::spec_from_word(w).spec_word() == w,
{
    let (a, b, c) = (s.interrupt_enabled, s.kernel_mode, s.mmu_enabled);
    assert(({
        let x = bit(a, 1) | bit(b, 2) | bit(c, 4);
        x & !7u16 == 0 && (x & 1 != 0) == a && (x & 2 != 0) == b && (x & 4 != 0) == c
    })) by (bit_vector);
    assert(w & !7u16 == 0 ==> w == bit(w & 1 != 0, 1) | bit(w & 2 != 0, 2) | bit(w & 4 != 0, 4))
        by (bit_vector);
}

#[derive(Clone, Copy, Debug, PartialEq, Eq, Structural)]
pub struct VirtualMemoryAddress {
    /// Six bits.
    pub page_number: u16,
    /// Ten bits.
    pub offset: u16,
}

impl VirtualMemoryAddress {
    pub open spec fn wf(self) -> bool {
        self.page_number < 64 && self.offset < 1024
    }

    pub open spec fn spec_word(self) -> u16 {
        (self.page_number << 10u16) | self.offset
    }

    pub open spec fn spec_from_word(w: u16) -> VirtualMemoryAddress {
        VirtualMemoryAddress { page_number: w >> 10u16, offset: w & 0x3ffu16 }
    }

    /// Page number from the top six bits, offset from the low ten.
    pub fn from_word(w: Word) -> (r: VirtualMemoryAddress)
        ensures
            r == Self::spec_from_word(w),
            r.wf(),
    {
        let r = VirtualMemoryAddress { page_number: w >> 10u16, offset: w & 0x3ffu16 };
        assert(w >> 10u16 < 64 && w & 0x3ffu16 < 1024) by (bit_vector);
        r
    }

    pub fn to_word(&self) -> (r: Word)
        ensures
            r == self.spec_word(),
    {
        (self.page_number << 10u16) | self.offset
    }
}

/// An address survives being packed into a word and read back, and so does
/// any word.
pub proof fn lemma_virtual_address_round_trip(a: VirtualMemoryAddress, w: u16)
    ensures
        a.wf() ==> VirtualMemoryAddress::spec_from_word(a.spec_word()) == a,
        VirtualMemoryAddress::spec_from_word(w).spec_word() == w,
{
    let (p, o) = (a.page_number, a.offset);
    assert(p < 64 && o < 1024 ==> ((p << 10u16) | o) >> 10u16 == p && ((p << 10u16) | o)
        & 0x3ffu16 == o) by (bit_vector);
    assert(((w >> 10u16) << 10u16) | (w & 0x3ffu16) == w) by (bit_vector);
}

#[derive(Clone, Copy, Debug, PartialEq, Eq, Structural)]
pub enum VirtualMemorySegment {
    Data,
    Program,
}

impl VirtualMemorySegment {
    pub open spec fn spec_word(self) -> u16 {
        match self {
            VirtualMemorySegment::Data => 0,
            VirtualMemorySegment::Program => 1,
        }
    }

    pub fn to_word(&self) -> (r: Word)
        ensures
            r == self.spec_word(),
    {
        match self {
            VirtualMemorySegment::Data => 0,
            VirtualMemorySegment::Program => 1,
        }
    }

    /// 0 is data, 1 is program; anything else is out of range.
    pub fn try_from_word(w: Word) -> (r: Result<VirtualMemorySegment, OutOfRangeError>)
        ensures
            r is Ok <==> w < 2,
            r matches Ok(s) ==> s.spec_word() == w,
            r matches Err(e) ==> e == OutOfRangeError::OutOfRange(w as u32),
    {
        if w == 0 {
            Ok(VirtualMemorySegment::Data)
        } else if w == 1 {
            Ok(VirtualMemorySegment::Program)
        } else {
            Err(OutOfRangeError::OutOfRange(w as u32))
        }
    }
}

#[derive(Clone, Copy, Debug, PartialEq, Eq, Structural)]
pub struct PhysicalMemoryAddress {
    /// Fourteen bits.
    pub frame_number: u16,
    /// Ten bits.
    pub offset: u16,
}

impl PhysicalMemoryAddress {
    pub open spec fn wf(self) -> bool {
        self.frame_number < 0x4000 && self.offset < 1024
    }

    /// The 24 bit address: frame number above the offset.
    pub open spec fn spec_u24(self) -> u32 {
        ((self.frame_number as u32) << 10u32) | (self.offset as u32)
    }

    pub open spec fn spec_from_u24(v: u32) -> PhysicalMemoryAddress {
        PhysicalMemoryAddress { frame_number: (v >> 10u32) as u16, offset: (v & 0x3ffu32) as u16 }
    }

    pub fn to_u24(&self) -> (r: u32)
        requires
            self.wf(),
        ensures
            r == self.spec_u24(),
            r < 0x100_0000,
    {
        let (f, o) = (self.frame_number, self.offset);
        assert(f < 0x4000 && o < 1024 ==> ((f as u32) << 10u32) | (o as u32) < 0x100_0000)
            by (bit_vector);
        ((self.frame_number as u32) << 10u32) | (self.offset as u32)
    }

    /// Address of a 24 bit value; a value of 2^24 or more is out of range.
    pub fn try_from_u24(v: u32) -> (r: Result<PhysicalMemoryAddress, OutOfRangeError>)
        ensures
            r is Ok <==> v < 0x100_0000,
            r matches Ok(a) ==> a == Self::spec_from_u24(v) && a.wf(),
            r matches Err(e) ==> e == OutOfRangeError::OutOfRange(v),
    {
        if v >= 0x100_0000 {
            return Err(OutOfRangeError::OutOfRange(v));
        }
        assert(v < 0x100_0000 ==> (v >> 10u32) < 0x4000 && (v & 0x3ffu32) < 1024) by (bit_vector);
        Ok(PhysicalMemoryAddress { frame_number: (v >> 10u32) as u16, offset: (v & 0x3ffu32) as u16 })
    }
}

/// A physical address survives being packed into 24 bits and read back, and
/// so does any 24 bit value.
pub proof fn lemma_physical_address_round_trip(a: PhysicalMemoryAddress, v: u32)
    ensures
        a.wf() ==> PhysicalMemoryAddress::spec_from_u24(a.spec_u24()) == a,
        v < 0x100_0000 ==> PhysicalMemoryAddress::spec_from_u24(v).spec_u24() == v,
{
    let (f, o) = (a.frame_number, a.offset);
    assert(f < 0x4000 && o < 1024 ==> (((((f as u32) << 10u32) | (o as u32)) >> 10u32) as u16)
        == f && (((((f as u32) << 10u32) | (o as u32)) & 0x3ffu32) as u16) == o) by (bit_vector);
    assert(v < 0x100_0000 ==> ((((v >> 10u32) as u16) as u32) << 10u32) | (((v & 0x3ffu32)
        as u16) as u32) == v) by (bit_vector);
}

#[derive(Clone, Copy, Debug, PartialEq, Eq, Structural)]
pub struct PageTableIndex {
    /// Six bits.
    pub context_id: u16,
    pub segment: VirtualMemorySegment,
    /// Six bits.
    pub page_number: u16,
}

impl PageTableIndex {
    pub open spec fn wf(self) -> bool {
        self.context_id < 64 && self.page_number < 64
    }

    /// Context id in bits 12 to 7, segment in bit 6, page number below.
    pub open spec fn spec_word(self) -> u16 {
        (self.context_id << 7u16) | (self.segment.spec_word() << 6u16) | self.page_number
    }

    pub open spec fn spec_from_word(w: u16) -> PageTableIndex {
        PageTableIndex {
            context_id: w >> 7u16,
            segment: if (w >> 6u16) & 1 == 0 {
                VirtualMemorySegment::Data
            } else {
                VirtualMemorySegment::Program
            },
            page_number: w & 0x3fu16,
        }
    }

    pub fn to_word(&self) -> (r: Word)
        requires
            self.wf(),
        ensures
            r == self.spec_word(),
            r < 0x2000,
    {
        let (c, s, p) = (self.context_id, self.segment.to_word(), self.page_number);
        assert(c < 64 && s < 2 && p < 64 ==> (c << 7u16) | (s << 6u16) | p < 0x2000)
            by (bit_vector);
        (self.context_id << 7u16) | (self.segment.to_word() << 6u16) | self.page_number
    }

    /// Index of a word below 2^13; a larger word is out of range.
    pub fn try_from_word(w: Word) -> (r: Result<PageTableIndex, OutOfRangeError>)
        ensures
            r is Ok <==> w < 0x2000,
            r matches Ok(i) ==> i == Self::spec_from_word(w) && i.wf(),
            r matches Err(e) ==> e == OutOfRangeError::OutOfRange(w as u32),
    {
        if w >= 0x2000 {
            return Err(OutOfRangeError::OutOfRange(w as u32));
        }
        assert(w < 0x2000 ==> w >> 7u16 < 64 && w & 0x3fu16 < 64) by (bit_vector);
        Ok(PageTableIndex {
            context_id: w >> 7u16,
            segment: if (w >> 6u16) & 1 == 0 {
                VirtualMemorySegment::Data
            } else {
                VirtualMemorySegment::Program
            },
            page_number: w & 0x3fu16,
        })
    }
}

/// An index survives being packed into a word and read back, and so does any
/// word below 2^13.
pub proof fn lemma_page_table_index_round_trip(i: PageTableIndex, w: u16)
    ensures
        i.wf() ==> PageTableIndex::spec_from_word(i.spec_word()) == i,
        i.wf() ==> i.spec_word() < 0x2000,
        w < 0x2000 ==> PageTableIndex::spec_from_word(w).spec_word() == w,
{
    let (c, s, p) = (i.context_id, i.segment.spec_word(), i.page_number);
    assert(c < 64 && s < 2 && p < 64 ==> ({
        let x = (c << 7u16) | (s << 6u16) | p;
        x >> 7u16 == c && (x >> 6u16) & 1 == s && x & 0x3fu16 == p && x < 0x2000
    })) by (bit_vector);
    assert((w >> 6u16) & 1 == 0 || (w >> 6u16) & 1 == 1) by (bit_vector);
    assert(w < 0x2000 ==> ((w >> 7u16) << 7u16) | (((w >> 6u16) & 1) << 6u16) | (w & 0x3fu16)
        == w) by (bit_vector);
}

#[derive(Clone, Copy, Debug, PartialEq, Eq, Structural)]
pub struct PageTableRecord {
    pub readable: bool,
    pub writable: bool,
    /// Fourteen bits.
    pub frame_number: u16,
}

impl PageTableRecord {
    pub open spec fn wf(self) -> bool {
        self.frame_number < 0x4000
    }

    /// Readable in bit 15, writable in bit 14, frame number below.
    pub open spec fn spec_word(self) -> u16 {
        bit(self.readable, 0x8000) | bit(self.writable, 0x4000) | self.frame_number
    }

    pub open spec fn spec_from_word(w: u16) -> PageTableRecord {
        PageTableRecord {
            readable: (w >> 15u16) & 1 != 0,
            writable: (w >> 14u16) & 1 != 0,
            frame_number: w & 0x3fffu16,
        }
    }

    pub fn empty() -> (r: PageTableRecord)
        ensures
            !r.readable && !r.writable && r.frame_number == 0,
            r.wf(),
    {
        PageTableRecord { readable: false, writable: false, frame_number: 0 }
    }

    pub fn to_word(&self) -> (r: Word)
        ensures
            r == self.spec_word(),
    {
        (if self.readable {
            0x8000u16
        } else {
            0u16
        }) | (if self.writable {
            0x4000u16
        } else {
            0u16
        }) | self.frame_number
    }

    /// Every word is a record: flags from the top two bits, frame number
    /// from the rest.
    pub fn from_word(w: Word) -> (r: PageTableRecord)
        ensures
            r == Self::spec_from_word(w),
            r.wf(),
    {
        assert(w & 0x3fffu16 < 0x4000) by (bit_vector);
        PageTableRecord {
            readable: (w >> 15u16) & 1 != 0,
            writable: (w >> 14u16) & 1 != 0,
            frame_number: w & 0x3fffu16,
        }
    }
}

/// A record survives being packed into a word and read back, and so does any
/// word.
pub proof fn lemma_page_table_record_round_trip(r: PageTableRecord, w: u16)
    ensures
        r.wf() ==> PageTableRecord::spec_from_word(r.spec_word()) == r,
        PageTableRecord::spec_from_word(w).spec_word() == w,
{
    let (a, b, f) = (r.readable, r.writable, r.frame_number);
    assert(f < 0x4000 ==> ({
        let x = bit(a, 0x8000) | bit(b, 0x4000) | f;
        ((x >> 15u16) & 1 != 0) == a && ((x >> 14u16) & 1 != 0) == b && x & 0x3fffu16 == f
    })) by (bit_vector);
    assert(bit((w >> 15u16) & 1 != 0, 0x8000) | bit((w >> 14u16) & 1 != 0, 0x4000) | (w
        & 0x3fffu16) == w) by (bit_vector);
}

} // verus!
