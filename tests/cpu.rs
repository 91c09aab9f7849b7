use pickle_risc::cpu::CpuState;
use pickle_risc::cpu_types::{
    EmulatorError, PageTableIndex, PageTableRecord, PhysicalMemoryAddress, VirtualMemoryAddress,
    VirtualMemorySegment,
};
use pickle_risc::instruction::{ControlRegister, Gpr};
use pickle_risc::memory::{MappingError, PhysicaMemory, Ram, Rom, SystemBus};

fn mmu_cpu() -> CpuState {
    let mut cpu = CpuState::new();
    cpu.set_cr(ControlRegister::ContextID, 3).unwrap();
    let index = PageTableIndex { context_id: 3, segment: VirtualMemorySegment::Data, page_number: 5 };
    cpu.set_cr(ControlRegister::MMUAddr, index.to_word()).unwrap();
    let record = PageTableRecord { readable: true, writable: false, frame_number: 0x2a };
    cpu.set_cr(ControlRegister::MMUData, record.to_word()).unwrap();
    cpu.set_cr(ControlRegister::CpuStatus, 0b100).unwrap();
    cpu
}

#[test]
fn mmu_translation_scenario() {
    let cpu = mmu_cpu();
    let address = VirtualMemoryAddress { page_number: 5, offset: 0x123 };
    let p = cpu.virtual_to_physical(address, VirtualMemorySegment::Data, false).unwrap();
    assert_eq!(p.to_u24(), 0x00a923);
    assert_eq!(cpu.virtual_to_physical(address, VirtualMemorySegment::Data, true), None);

    let mut ram = Ram::new(0x10000);
    assert_eq!(ram.write(0x00a923, 0xbeef), Some(()));
    assert_eq!(cpu.read_memory(address, VirtualMemorySegment::Data, &ram), Ok(0xbeef));
    match cpu.write_memory(address, VirtualMemorySegment::Data, &mut ram, 1) {
        Err(EmulatorError::PageFault { address: a, pc }) => {
            assert_eq!(a, (5 << 10) | 0x123);
            assert_eq!(pc, 0);
        }
        other => panic!("unexpected {:?}", other),
    }
    assert_eq!(ram.read(0x00a923), Some(0xbeef));
}

#[test]
fn unmapped_physical_memory() {
    let cpu = mmu_cpu();
    let address = VirtualMemoryAddress { page_number: 5, offset: 0x123 };
    let ram = Ram::new(16);
    assert_eq!(
        cpu.read_memory(address, VirtualMemorySegment::Data, &ram),
        Err(EmulatorError::NonMappedPhysicalMemory {
            address: PhysicalMemoryAddress { frame_number: 0x2a, offset: 0x123 },
            pc: 0
        })
    );
}

#[test]
fn translation_without_mmu() {
    let cpu = CpuState::new();
    let address = VirtualMemoryAddress { page_number: 1, offset: 7 };
    let p = cpu.virtual_to_physical(address, VirtualMemorySegment::Data, true).unwrap();
    assert_eq!(p, PhysicalMemoryAddress { frame_number: 0, offset: 7 });
    let p = cpu.virtual_to_physical(address, VirtualMemorySegment::Program, false).unwrap();
    assert_eq!(p.to_u24(), 0x80_0007);
}

#[test]
fn r0_reads_zero_after_writes() {
    let mut cpu = CpuState::new();
    cpu.set_gpr(Gpr::new(0), 0x1234);
    assert_eq!(cpu.get_gpr(Gpr::new(0)), 0);
    cpu.set_gpr(Gpr::new(3), 0x1234);
    assert_eq!(cpu.get_gpr(Gpr::new(3)), 0x1234);
    assert_eq!(cpu.get_gpr(Gpr::new(0)), 0);
}

#[test]
fn control_register_writes() {
    let mut cpu = CpuState::new();
    assert!(matches!(
        cpu.set_cr(ControlRegister::CpuStatus, 0x0010),
        Err(EmulatorError::ReservedBitNonzero { value: 0x0010, .. })
    ));
    assert!(matches!(
        cpu.set_cr(ControlRegister::ContextID, 64),
        Err(EmulatorError::ReservedBitNonzero { value: 64, .. })
    ));
    cpu.set_cr(ControlRegister::IntBase, 0x4444).unwrap();
    assert_eq!(cpu.get_cr(ControlRegister::IntBase), 0x4444);
    cpu.set_cr(ControlRegister::MMUAddr, 0xe005).unwrap();
    cpu.set_cr(ControlRegister::MMUData, 0x8123).unwrap();
    // The page table index is the low 13 bits of MMUAddr.
    cpu.set_cr(ControlRegister::MMUAddr, 0x0005).unwrap();
    assert_eq!(cpu.get_cr(ControlRegister::MMUData), 0x8123);
}

#[test]
fn reset_clears_startup_state() {
    let mut cpu = CpuState::new();
    cpu.set_cr(ControlRegister::CpuStatus, 0b111).unwrap();
    cpu.set_gpr(Gpr::new(2), 9);
    cpu.reset();
    assert_eq!(cpu.get_pc(), 0);
    assert_eq!(cpu.get_step(), 0);
    assert_eq!(cpu.get_cr(ControlRegister::CpuStatus), 0);
    assert_eq!(cpu.get_gpr(Gpr::new(2)), 9);
}

#[test]
fn system_bus_routing() {
    let mut ram_words = vec![0u16; 8];
    ram_words[3] = 0x3333;
    let bus = SystemBus::new(Ram::from_words(ram_words), Rom::from_words(vec![0xaaaa, 0xbbbb])).unwrap();
    let mut bus = bus;
    assert_eq!(bus.read(3), Some(0x3333));
    assert_eq!(bus.read(8), None);
    assert_eq!(bus.read(0x80_0001), Some(0xbbbb));
    assert_eq!(bus.read(0x80_0002), None);
    assert_eq!(bus.read(0x90_0000), None);
    assert_eq!(bus.write(0x80_0000, 1), None);
    assert_eq!(bus.write(2, 7), Some(()));
    assert_eq!(bus.read(2), Some(7));
    assert_eq!(bus.max_address(), 0xff_ffff);
}

#[test]
fn system_bus_refuses_overlap() {
    assert!(matches!(
        SystemBus::new(Ram::new(0x80_0001), Rom::from_words(vec![0])),
        Err(MappingError::RamOverlapsDevices)
    ));
    assert!(matches!(
        SystemBus::new(Ram::new(16), Rom::from_words(vec![0; 0x10_0001])),
        Err(MappingError::RomTooLarge)
    ));
}

#[test]
fn rom_refuses_writes() {
    let mut rom = Rom::from_words(vec![1, 2, 3]);
    assert_eq!(rom.write(0, 5), None);
    assert_eq!(rom.read(0), Some(1));
    assert_eq!(rom.max_address(), 2);
}

use pickle_risc::cpu::SEED_WORDS;
use pickle_risc::instruction::Instruction;
use pickle_risc::microcode::{order_by_phase, parse_microinstruction, AluOp, MicroOp};

fn program_bus(program: &[Instruction]) -> SystemBus {
    let words: Vec<u16> = program.iter().map(|i| i.encode()).collect();
    SystemBus::new(Ram::new(1024), Rom::from_words(words)).unwrap()
}

#[test]
fn runs_a_small_program() {
    let program = [
        Instruction::Ldi { r: Gpr::new(1), immediate: 5 },
        Instruction::Addi { r: Gpr::new(1), immediate: -2 },
        Instruction::St { address: Gpr::new(0), offset: 10, rs: Gpr::new(1) },
        Instruction::Ld { rd: Gpr::new(2), address: Gpr::new(0), offset: 10 },
        Instruction::Add { rd: Gpr::new(3), ra: Gpr::new(1), rb: Gpr::new(2) },
        Instruction::Stcr { cr: ControlRegister::IntBase, rs: Gpr::new(3) },
        Instruction::Break,
    ];
    let mut bus = program_bus(&program);
    let mut cpu = CpuState::new();
    let mut result = Ok(());
    for _ in 0..20 {
        result = cpu.step(&mut bus);
        if result.is_err() {
            break;
        }
    }
    assert_eq!(result, Err(EmulatorError::Break));
    assert_eq!(cpu.get_gpr(Gpr::new(1)), 3);
    assert_eq!(bus.read(10), Some(3));
    assert_eq!(cpu.get_gpr(Gpr::new(2)), 3);
    assert_eq!(cpu.get_gpr(Gpr::new(3)), 6);
    assert_eq!(cpu.get_cr(ControlRegister::IntBase), 6);
}

#[test]
fn first_step_fetches_from_rom() {
    let mut bus = program_bus(&[Instruction::Break]);
    let mut cpu = CpuState::new();
    assert_eq!(cpu.step(&mut bus), Ok(()));
    assert_eq!(cpu.get_pc(), 1);
    assert_eq!(cpu.get_next_instruction(), 0xffff);
    assert_eq!(cpu.step(&mut bus), Err(EmulatorError::Break));
}

#[test]
fn missing_microcode() {
    let mut bus = program_bus(&[Instruction::Bz { cond: Gpr::new(1), address: Gpr::new(2) }]);
    let mut cpu = CpuState::new();
    cpu.step(&mut bus).unwrap();
    assert_eq!(cpu.step(&mut bus), Err(EmulatorError::MissingMicrocode { pc: 1 }));
}

#[test]
fn seeded_cpu_is_reset() {
    let words: Vec<u16> = (0..SEED_WORDS).map(|i| (i as u16).wrapping_mul(7919)).collect();
    let cpu = CpuState::from_seed(&words);
    assert_eq!(cpu.get_pc(), 0);
    assert_eq!(cpu.get_step(), 0);
    assert_eq!(cpu.get_gpr(Gpr::new(1)), words[0]);
    assert_eq!(cpu.get_next_instruction(), words[17]);
    assert_eq!(cpu.get_cr(ControlRegister::CpuStatus), 0);
}

#[test]
fn microinstructions_parse_and_order() {
    assert_eq!(parse_microinstruction("alu_add->result"), Some(MicroOp::Alu { op: AluOp::Add }));
    assert_eq!(parse_microinstruction("f6->left"), Some(MicroOp::GprToLeft { shift: 6 }));
    assert_eq!(parse_microinstruction("nonsense"), None);
    let ops = vec![
        MicroOp::EndInstruction,
        MicroOp::ResultToGpr { shift: 6 },
        MicroOp::Alu { op: AluOp::Add },
        MicroOp::GprToLeft { shift: 3 },
        MicroOp::GprToRight { shift: 0 },
    ];
    assert_eq!(
        order_by_phase(&ops),
        vec![
            MicroOp::GprToLeft { shift: 3 },
            MicroOp::GprToRight { shift: 0 },
            MicroOp::Alu { op: AluOp::Add },
            MicroOp::ResultToGpr { shift: 6 },
            MicroOp::EndInstruction,
        ]
    );
}
