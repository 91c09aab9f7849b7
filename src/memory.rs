//! Physical memory devices and the system bus that maps them into the 24 bit
//! physical address space.
use vstd::prelude::*;

use crate::instruction::Word;

verus! {

/// Highest 24 bit physical address.
pub const MAX_PHYSICAL_ADDRESS: u32 = 0xff_ffff;

/// Words of memory addressed by 24 bit physical addresses. An access above
/// `max_address` is a caller error; an access that the device does not map
/// answers `None`.
pub trait PhysicaMemory {
    spec fn spec_max_address(&self) -> u32;

    /// What a read of `address` answers.
    spec fn spec_read(&self, address: u32) -> Option<Word>;

    /// Whether a write to `address` is accepted.
    spec fn spec_writable(&self, address: u32) -> bool;

    fn max_address(&self) -> (r: u32)
        ensures
            r == self.spec_max_address(),
    ;

    fn read(&self, address: u32) -> (r: Option<Word>)
        requires
            address <= self.spec_max_address(),
        ensures
            r == self.spec_read(address),
    ;

    fn write(&mut self, address: u32, value: Word) -> (r: Option<()>)
        requires
            address <= old(self).spec_max_address(),
        ensures
            r is Some <==> old(self).spec_writable(address),
            final(self).spec_max_address() == old(self).spec_max_address(),
            forall|a: u32| #[trigger] final(self).spec_writable(a) == old(self).spec_writable(a),
            r is Some ==> final(self).spec_read(address) == Some(value),
            forall|a: u32|
                a != address ==> #[trigger] final(self).spec_read(a) == old(self).spec_read(a),
            r is None ==> final(self).spec_read(address) == old(self).spec_read(address),
    ;
}

/// Address of the last of `len` words; 0 when there are none.
pub open spec fn last_address(len: usize) -> u32 {
    if len == 0 {
        0
    } else if len > 0x1_0000_0000 {
        0xffff_ffff
    } else {
        (len - 1) as u32
    }
}

fn last_address_of(len: usize) -> (r: u32)
    ensures
        r == last_address(len),
{
    if len == 0 {
        0
    } else if len as u64 > 0x1_0000_0000u64 {
        0xffff_ffff
    } else {
        (len - 1) as u32
    }
}

/// Read-write memory.
#[derive(Clone, Debug)]
pub struct Ram {
    data: Vec<Word>,
}

impl Ram {
    pub closed spec fn view(&self) -> Seq<Word> {
        self.data@
    }

    /// Zero filled memory of `size` words, 1 to 2^24 of them.
    pub fn new(size: u32) -> (r: Ram)
        requires
            1 <= size <= 0x100_0000,
        ensures
            r@ == Seq::new(size as nat, |i: int| 0u16),
    {
        let mut data: Vec<Word> = Vec::new();
        let mut i: u32 = 0;
        while i < size
            invariant
                i <= size,
                data@ == Seq::new(i as nat, |j: int| 0u16),
            decreases size - i,
        {
            data.push(0);
            i = i + 1;
        }
        Ram { data }
    }

    /// Memory holding the given words, 1 to 2^24 of them.
    pub fn from_words(data: Vec<Word>) -> (r: Ram)
        requires
            1 <= data.len() <= 0x100_0000,
        ensures
            r@ == data@,
    {
        Ram { data }
    }
}

impl PhysicaMemory for Ram {
    closed spec fn spec_max_address(&self) -> u32 {
        last_address(self.data.len())
    }

    closed spec fn spec_read(&self, address: u32) -> Option<Word> {
        if address < self.data.len() {
            Some(self.data[address as int])
        } else {
            None
        }
    }

    closed spec fn spec_writable(&self, address: u32) -> bool {
        address < self.data.len()
    }

    fn max_address(&self) -> (r: u32) {
        last_address_of(self.data.len())
    }

    fn read(&self, address: u32) -> (r: Option<Word>) {
        if (address as usize) < self.data.len() {
            Some(self.data[address as usize])
        } else {
            None
        }
    }

    fn write(&mut self, address: u32, value: Word) -> (r: Option<()>) {
        if (address as usize) < self.data.len() {
            self.data.set(address as usize, value);
            Some(())
        } else {
            None
        }
    }
}


/// Read-only memory, such as the boot image.
#[derive(Clone, Debug)]
pub struct Rom {
    data: Vec<Word>,
}

impl Rom {
    pub closed spec fn view(&self) -> Seq<Word> {
        self.data@
    }

    /// Memory holding the given words.
    pub fn from_words(data: Vec<Word>) -> (r: Rom)
        ensures
            r@ == data@,
    {
        Rom { data }
    }
}

impl PhysicaMemory for Rom {
    closed spec fn spec_max_address(&self) -> u32 {
        last_address(self.data.len())
    }

    closed spec fn spec_read(&self, address: u32) -> Option<Word> {
        if address < self.data.len() {
            Some(self.data[address as int])
        } else {
            None
        }
    }

    closed spec fn spec_writable(&self, address: u32) -> bool {
        false
    }

    fn max_address(&self) -> (r: u32) {
        last_address_of(self.data.len())
    }

    fn read(&self, address: u32) -> (r: Option<Word>) {
        if (address as usize) < self.data.len() {
            Some(self.data[address as usize])
        } else {
            None
        }
    }

    fn write(&mut self, address: u32, value: Word) -> (r: Option<()>) {
        None
    }
}

/// First address of the boot ROM window.
pub const ROM_BASE: u32 = 0x80_0000;

/// Size of each device window, the ROM's included.
pub const DEVICE_WINDOW: u32 = 0x10_0000;

#[derive(Clone, Copy, Debug, PartialEq, Eq, Structural)]
pub enum MappingError {
    /// RAM reaches into the device windows.
    RamOverlapsDevices,
    /// The ROM is larger than its window.
    RomTooLarge,
}

/// RAM at the bottom of the physical address space, the boot ROM in the
/// first device window above it, and fifteen further device windows that
/// nothing answers yet.
#[derive(Clone, Debug)]
pub struct SystemBus {
    ram: Ram,
    rom: Rom,
}

impl SystemBus {
    /// Bus over the two memories; fails when their windows would overlap.
    pub fn new(ram: Ram, rom: Rom) -> (r: Result<SystemBus, MappingError>)
        ensures
            r is Ok <==> ram.spec_max_address() < ROM_BASE && rom.spec_max_address()
                < DEVICE_WINDOW,
            r matches Ok(b) ==> b.ram_part() == ram && b.rom_part() == rom && b.wf(),
            r matches Err(e) ==> (e == MappingError::RamOverlapsDevices <==> ram.spec_max_address()
                >= ROM_BASE),
    {
        if ram.max_address() >= ROM_BASE {
            Err(MappingError::RamOverlapsDevices)
        } else if rom.max_address() >= DEVICE_WINDOW {
            Err(MappingError::RomTooLarge)
        } else {
            Ok(SystemBus { ram, rom })
        }
    }
}

/// What a bus over `ram` and `rom` answers for a read of `address`: RAM
/// below the ROM window, the ROM in its window, nothing elsewhere.
pub open spec fn bus_read(ram: Ram, rom: Rom, address: u32) -> Option<Word> {
    if address < ROM_BASE {
        if address <= ram.spec_max_address() {
            ram.spec_read(address)
        } else {
            None
        }
    } else if address < ROM_BASE + DEVICE_WINDOW {
        if address - ROM_BASE <= rom.spec_max_address() {
            rom.spec_read((address - ROM_BASE) as u32)
        } else {
            None
        }
    } else {
        None
    }
}

/// Whether a bus over `ram` accepts a write to `address`: RAM only.
pub open spec fn bus_writable(ram: Ram, address: u32) -> bool {
    address < ROM_BASE && address <= ram.spec_max_address() && ram.spec_writable(address)
}

impl SystemBus {
    pub closed spec fn ram_part(&self) -> Ram {
        self.ram
    }

    pub closed spec fn rom_part(&self) -> Rom {
        self.rom
    }

    /// The bus keeps its RAM and ROM apart, as `new` checked.
    pub closed spec fn wf(&self) -> bool {
        self.ram.spec_max_address() < ROM_BASE && self.rom.spec_max_address() < DEVICE_WINDOW
    }

    /// Reads and writes of the bus go where `bus_read` and `bus_writable`
    /// say.
    pub proof fn lemma_routing(&self, address: u32)
        ensures
            self.spec_read(address) == bus_read(self.ram_part(), self.rom_part(), address),
            self.spec_writable(address) == bus_writable(self.ram_part(), address),
            self.spec_max_address() == MAX_PHYSICAL_ADDRESS,
    {
    }
}

impl PhysicaMemory for SystemBus {
    closed spec fn spec_max_address(&self) -> u32 {
        MAX_PHYSICAL_ADDRESS
    }

    closed spec fn spec_read(&self, address: u32) -> Option<Word> {
        bus_read(self.ram, self.rom, address)
    }

    closed spec fn spec_writable(&self, address: u32) -> bool {
        bus_writable(self.ram, address)
    }

    fn max_address(&self) -> (r: u32) {
        MAX_PHYSICAL_ADDRESS
    }

    fn read(&self, address: u32) -> (r: Option<Word>) {
        if address < ROM_BASE {
            if address <= self.ram.max_address() {
                self.ram.read(address)
            } else {
                None
            }
        } else if address < ROM_BASE + DEVICE_WINDOW {
            if address - ROM_BASE <= self.rom.max_address() {
                self.rom.read(address - ROM_BASE)
            } else {
                None
            }
        } else {
            None
        }
    }

    fn write(&mut self, address: u32, value: Word) -> (r: Option<()>) {
        if address < ROM_BASE && address <= self.ram.max_address() {
            self.ram.write(address, value)
        } else {
            None
        }
    }
}

} // verus!
