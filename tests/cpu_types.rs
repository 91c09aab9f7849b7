use pickle_risc::instruction::ControlRegister;
use pickle_risc::cpu_types::{
    CpuStatus, EmulatorError, OutOfRangeError, PageTableIndex, PageTableRecord,
    PhysicalMemoryAddress, VirtualMemoryAddress, VirtualMemorySegment,
};

#[test]
fn cpu_types_test_virtual_memory_address_from_word_example() {
    let a = VirtualMemoryAddress::from_word(0b101010__1100110011);
    assert_eq!(a.page_number, 0b101010);
    assert_eq!(a.offset, 0b1100110011);
}

#[test]
fn cpu_types_test_physical_memory_address_from_word_example() {
    let a = PhysicalMemoryAddress::try_from_u24(0b10101010101010__1100110011).unwrap();
    assert_eq!(a.frame_number, 0b10101010101010);
    assert_eq!(a.offset, 0b1100110011);
}

#[test]
fn cpu_types_test_page_table_index_from_word_example() {
    let i = PageTableIndex::try_from_word(0b111000_1_110011).unwrap();
    assert_eq!(i.context_id, 0b111000);
    assert_eq!(i.segment, VirtualMemorySegment::Program);
    assert_eq!(i.page_number, 0b110011);
}

#[test]
fn cpu_types_test_page_table_record_from_word_example() {
    let r = PageTableRecord::from_word(0b1_0_11001100110011);
    assert!(r.readable);
    assert!(!r.writable);
    assert_eq!(r.frame_number, 0b11001100110011);
}

#[test]
fn cpu_status_round_trips_every_status() {
    for w in 0u16..8 {
        let s = CpuStatus::try_from_word(w).unwrap();
        assert_eq!(s.to_word(), w);
    }
    let s = CpuStatus { interrupt_enabled: true, kernel_mode: false, mmu_enabled: true };
    assert_eq!(s.to_word(), 0b101);
    assert_eq!(CpuStatus::try_from_word(s.to_word()).unwrap(), s);
}

#[test]
fn cpu_status_reserved_bits_are_refused() {
    match CpuStatus::try_from_word(0x0008) {
        Err(EmulatorError::ReservedBitNonzero { t, value }) => {
            assert_eq!(t, ControlRegister::CpuStatus);
            assert_eq!(value, 0x0008);
        }
        other => panic!("unexpected {:?}", other),
    }
    assert!(CpuStatus::try_from_word(0xffff).is_err());
}

#[test]
fn virtual_address_round_trips() {
    for w in [0u16, 1, 0x03ff, 0x0400, 0xabcd, 0xffff] {
        assert_eq!(VirtualMemoryAddress::from_word(w).to_word(), w);
    }
}

#[test]
fn physical_address_round_trips_and_bounds() {
    let a = PhysicalMemoryAddress { frame_number: 0x2a, offset: 0x123 };
    assert_eq!(a.to_u24(), 0x00a923);
    assert_eq!(PhysicalMemoryAddress::try_from_u24(0x00a923).unwrap(), a);
    assert_eq!(
        PhysicalMemoryAddress::try_from_u24(0x0100_0000),
        Err(OutOfRangeError::OutOfRange(0x0100_0000))
    );
    assert!(PhysicalMemoryAddress::try_from_u24(0x00ff_ffff).is_ok());
}

#[test]
fn page_table_index_round_trips_and_bounds() {
    let i = PageTableIndex { context_id: 3, segment: VirtualMemorySegment::Data, page_number: 5 };
    assert_eq!(i.to_word(), (3 << 7) | 5);
    assert_eq!(PageTableIndex::try_from_word(i.to_word()).unwrap(), i);
    assert_eq!(PageTableIndex::try_from_word(0x1fff).unwrap().to_word(), 0x1fff);
    assert_eq!(PageTableIndex::try_from_word(0x2000), Err(OutOfRangeError::OutOfRange(0x2000)));
}

#[test]
fn page_table_record_round_trips() {
    for w in [0u16, 0x8000, 0x4000, 0x3fff, 0xffff, 0x802a] {
        assert_eq!(PageTableRecord::from_word(w).to_word(), w);
    }
}

#[test]
fn segment_conversion() {
    assert_eq!(VirtualMemorySegment::try_from_word(1), Ok(VirtualMemorySegment::Program));
    assert_eq!(VirtualMemorySegment::Data.to_word(), 0);
    assert_eq!(VirtualMemorySegment::try_from_word(2), Err(OutOfRangeError::OutOfRange(2)));
}
