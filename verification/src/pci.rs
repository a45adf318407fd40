//! The root complex: bus 0 and the two I/O ports through which a guest
//! reaches every configuration register behind it.

use vstd::prelude::*;
use crate::bus::{BusView, PciBus};
use crate::byte_order::{read_le_u16, read_le_u32};
use crate::device::PciDevice;
use crate::register::{
    from_lanes, lanes, lemma_from_lanes_of_lanes, lemma_lanes_of_from_lanes, overlay, read_lane,
    word_lanes, write_half, write_lane,
};

verus! {

/// The first I/O port of the configuration mechanism.
pub const PCI_IO_PORT: usize = 0xCF8;

/// The number of I/O ports that the configuration mechanism claims.
pub const PCI_IO_PORT_SIZE: usize = 0x8;

/// Offsets of the address port (port 0xCF8) within the claimed window.
pub const OFFSET_ADDRESS: u64 = 0;

pub const OFFSET_ADDRESS_END: u64 = 3;

/// Offsets of the data port (port 0xCFC) within the claimed window.
pub const OFFSET_DATA: u64 = 4;

pub const OFFSET_DATA_END: u64 = 7;

/// What a read gives where nothing answers.
pub const ALL_ONES: u32 = 0xFFFF_FFFF;

/// Whether the enable bit, bit 31, is set in a configuration address.
pub open spec fn enabled(address: u32) -> bool {
    address >= 0x8000_0000
}

/// The bus (bits 23:16), device (bits 15:11), function (bits 10:8) and
/// register (bits 7:2) that a configuration address names.
pub open spec fn decode(address: u32) -> (usize, usize, usize, usize) {
    (
        (address / 0x1_0000 % 0x100) as usize,
        (address / 0x800 % 0x20) as usize,
        (address / 0x100 % 0x8) as usize,
        (address / 0x4 % 0x40) as usize,
    )
}

/// The configuration address that carries the enable bit and the given bus,
/// device, function and register number in their fields.
pub open spec fn encode(bus: usize, device: usize, function: usize, register: usize) -> u32
    recommends
        bus < 0x100,
        device < 0x20,
        function < 0x8,
        register < 0x40,
{
    (0x8000_0000 + bus * 0x1_0000 + device * 0x800 + function * 0x100 + register * 0x4) as u32
}

/// What the root complex is: bus 0 with all that hangs below it, and the
/// last value of the address port.
pub ghost struct RootComplexView {
    pub bus: BusView,
    pub config_address: u32,
}

impl RootComplexView {
    /// The root bus is bus 0 and is well formed.
    pub open spec fn wf(self) -> bool {
        self.bus.number == 0 && self.bus.wf()
    }

    /// The root complex after `data` was written at byte `offset` of the
    /// address register. One, two or four bytes replace exactly the lanes
    /// they cover; bytes that would pass the end of the register, and any
    /// other length, are dropped.
    pub open spec fn set_address(self, offset: u64, data: Seq<u8>) -> RootComplexView {
        if offset + data.len() > 4 {
            self
        } else if data.len() == 1 || data.len() == 2 || data.len() == 4 {
            RootComplexView {
                config_address: from_lanes(
                    overlay(lanes(self.config_address), offset as int, data),
                ),
                ..self
            }
        } else {
            self
        }
    }

    /// What a read of the configuration space gives: all ones while the
    /// mechanism is disabled or where the address reaches nothing, else the
    /// register that the address names.
    pub open spec fn read_space(self) -> u32 {
        let (bus, device, function, register) = decode(self.config_address);
        if !enabled(self.config_address) {
            ALL_ONES
        } else {
            match self.bus.read(bus, device, function, register) {
                Some(value) => value,
                None => ALL_ONES,
            }
        }
    }

    /// The root complex after `data` was written at byte `offset` of the
    /// register that the address names. Nothing changes while the mechanism
    /// is disabled or where the bytes would pass the end of the register.
    pub open spec fn write_space(self, offset: u64, data: Seq<u8>) -> RootComplexView {
        let (bus, device, function, register) = decode(self.config_address);
        if offset + data.len() > 4 || !enabled(self.config_address) {
            self
        } else {
            RootComplexView {
                bus: self.bus.write(bus, device, function, register, offset as usize, data),
                ..self
            }
        }
    }

    /// The dword behind the port at `offset` of the window: the address
    /// register for 0 to 3, the addressed register for 4 to 7, all ones
    /// beyond.
    pub open spec fn port_value(self, offset: u64) -> u32 {
        if offset <= OFFSET_ADDRESS_END {
            self.config_address
        } else if offset <= OFFSET_DATA_END {
            self.read_space()
        } else {
            ALL_ONES
        }
    }

    /// The bytes that a read of `length` bytes at `offset` of the window
    /// gives: the lanes of the port's dword from lane `offset % 4` on, or
    /// all 0xFF where the span would leave the port.
    pub open spec fn port_read(self, offset: u64, length: nat) -> Seq<u8> {
        if offset % 4 + length <= 4 {
            lanes(self.port_value(offset)).subrange((offset % 4) as int, offset % 4 + length)
        } else {
            Seq::new(length, |i: int| 0xFFu8)
        }
    }

    /// The root complex after a write of `data` at `offset` of the window:
    /// to the address register for 0 to 3, to the addressed register for 4 to
    /// 7, nowhere beyond.
    pub open spec fn port_write(self, offset: u64, data: Seq<u8>) -> RootComplexView {
        if offset <= OFFSET_ADDRESS_END {
            self.set_address(offset, data)
        } else if offset <= OFFSET_DATA_END {
            self.write_space((offset - 4) as u64, data)
        } else {
            self
        }
    }
}

/// The root complex of the topology. It holds bus 0 and answers the two
/// I/O ports of the configuration mechanism.
pub struct PciRootComplex {
    /// The bus connected to the root complex (bus number 0).
    bus: PciBus,
    /// The last value written to the port 0xCF8.
    config_address: u32,
}

impl View for PciRootComplex {
    type V = RootComplexView;

    closed spec fn view(&self) -> RootComplexView {
        RootComplexView { bus: self.bus@, config_address: self.config_address }
    }
}

/// The enable bit is set exactly in the upper half of the address range.
proof fn lemma_enable_bit(address: u32)
    by (bit_vector)
    ensures
        (address & 0x8000_0000 != 0) == (address >= 0x8000_0000),
{
}

/// The fields that shifting and masking cut out of an address.
proof fn lemma_fields(address: u32)
    by (bit_vector)
    ensures
        (address >> 16) & 0xFF == address / 0x1_0000 % 0x100,
        (address >> 11) & 0x1F == address / 0x800 % 0x20,
        (address >> 8) & 0x07 == address / 0x100 % 0x8,
        (address >> 2) & 0x3F == address / 0x4 % 0x40,
{
}

/// The fields of an address that was put together from them.
proof fn lemma_layout(bus: u32, device: u32, function: u32, register: u32)
    by (bit_vector)
    requires
        bus < 0x100,
        device < 0x20,
        function < 0x8,
        register < 0x40,
    ensures
        ({
            let address = 0x8000_0000u32 + bus * 0x1_0000 + device * 0x800 + function * 0x100
                + register * 0x4;
            &&& 0x8000_0000 <= address < 0x1_0000_0000
            &&& address / 0x1_0000 % 0x100 == bus
            &&& address / 0x800 % 0x20 == device
            &&& address / 0x100 % 0x8 == function
            &&& address / 0x4 % 0x40 == register
        }),
{
}

impl PciRootComplex {
    /// Creates a root complex whose bus 0 holds the dummy host bridge at
    /// device 0, function 0, and whose address register is zero.
    pub fn new() -> (root: PciRootComplex)
        ensures
            root@ == (RootComplexView {
                bus: BusView {
                    number: 0,
                    buses: Map::empty(),
                    devices: map![0usize => PciDevice::dummy_host_bridge_view(0)],
                },
                config_address: 0,
            }),
            root@.wf(),
    {
        let mut bus = PciBus::new(0);
        // The host bridge is device 0, function 0 of bus 0.
        bus.add_device(PciDevice::new_dummy_host_bridge(0)).unwrap();
        assert(bus@.devices =~= map![0usize => PciDevice::dummy_host_bridge_view(0)]);
        PciRootComplex { bus, config_address: 0x0000_0000 }
    }

    /// Bus 0, to look at what hangs below the root complex.
    pub fn get_bus(&self) -> (bus: &PciBus)
        ensures
            bus@ == self@.bus,
    {
        &self.bus
    }

    /// Bus 0, to attach buses and devices below the root complex. The root
    /// complex is well formed afterwards if the bus still is and has kept
    /// the number 0.
    pub fn get_mut_bus(&mut self) -> (bus: &mut PciBus)
        ensures
            bus@ == old(self)@.bus,
            final(self)@ == (RootComplexView { bus: final(bus)@, ..old(self)@ }),
            final(bus)@.wf() && final(bus)@.number == 0 ==> final(self)@.wf(),
    {
        &mut self.bus
    }

    /// The last value written to the address port.
    pub fn get_configuration_address(&self) -> (address: u32)
        ensures
            address == self@.config_address,
    {
        self.config_address
    }

    /// Writes `data` at byte `offset` of the address register. One, two or
    /// four bytes replace the lanes they cover and leave the others as they
    /// were; bytes that would pass the end of the register, and any other
    /// length, are dropped.
    pub fn set_configuration_address(&mut self, offset: u64, data: &[u8])
        ensures
            final(self)@ == old(self)@.set_address(offset, data@),
            old(self)@.wf() ==> final(self)@.wf(),
    {
        let length = data.len();
        if offset > 4 || length > 4 - (offset as usize) {
            return ;
        }
        let lane = offset as usize;
        let ghost before = lanes(self.config_address);
        if length == 1 {
            assert(overlay(before, lane as int, data@) =~= before.update(lane as int, data@[0]));
            self.config_address = write_lane(self.config_address, lane, data[0]);
        } else if length == 2 {
            if lane % 2 == 0 {
                let word = read_le_u16(data);
                assert(word_lanes(word) =~= data@);
                self.config_address = write_half(self.config_address, lane / 2, word);
            } else {
                // The two bytes lie across the halves: lane by lane.
                let low: u32 = write_lane(self.config_address, lane, data[0]);
                self.config_address = write_lane(low, lane + 1, data[1]);
                assert(before.update(lane as int, data@[0]).update(lane + 1, data@[1]) =~= overlay(
                    before,
                    lane as int,
                    data@,
                ));
            }
        } else if length == 4 {
            assert(overlay(before, 0, data@) =~= data@);
            self.config_address = read_le_u32(data);
        }
    }

    /// Reads the register that the address register names. While the enable
    /// bit is clear no access is made and the result is all ones; so it is
    /// where the address reaches nothing.
    pub fn read_configuration_space(&self) -> (value: u32)
        ensures
            value == self@.read_space(),
            !enabled(self@.config_address) ==> value == ALL_ONES,
    {
        proof {
            lemma_enable_bit(self.config_address);
        }
        let enabled = (self.config_address & 0x8000_0000) != 0;
        if !enabled {
            return ALL_ONES;
        }
        let (bus, device, function, register) = self.parse_configuration_address();

        match self.bus.read_configuration_register(bus, device, function, register) {
            Some(value) => value,
            None => ALL_ONES,
        }
    }

    /// Writes `data` at byte `offset` of the register that the address
    /// register names. While the enable bit is clear nothing is written; nor
    /// is it where the bytes would pass the end of the register or the
    /// address reaches nothing.
    pub fn write_configuration_space(&mut self, offset: u64, data: &[u8])
        ensures
            final(self)@ == old(self)@.write_space(offset, data@),
            !enabled(old(self)@.config_address) ==> final(self)@ == old(self)@,
            old(self)@.wf() ==> final(self)@.wf(),
    {
        if offset > 4 || data.len() > 4 - (offset as usize) {
            return ;
        }
        proof {
            lemma_enable_bit(self.config_address);
        }
        let enabled = (self.config_address & 0x8000_0000) != 0;
        if !enabled {
            return ;
        }
        let (bus, device, function, register) = self.parse_configuration_address();

        self.bus.write_configuration_register(
            bus,
            device,
            function,
            register,
            offset as usize,
            data,
        );
    }

    /// Splits the address register into bus, device, function and register
    /// number.
    pub fn parse_configuration_address(&self) -> (fields: (usize, usize, usize, usize))
        ensures
            fields == decode(self@.config_address),
            fields.0 < 256,
            fields.1 < 32,
            fields.2 < 8,
            fields.3 < 64,
    {
        proof {
            lemma_fields(self.config_address);
        }
        (
            ((self.config_address >> 16) & 0xFF) as usize,
            ((self.config_address >> 11) & 0x1F) as usize,
            ((self.config_address >> 8) & 0x07) as usize,
            ((self.config_address >> 2) & 0x3F) as usize,
        )
    }

    /// Answers a read of `data.len()` bytes at `offset` of the port window.
    pub fn read(&self, offset: u64, data: &mut [u8])
        ensures
            final(data)@ == self@.port_read(offset, old(data)@.len()),
    {
        let result: u32 = if offset <= OFFSET_ADDRESS_END {
            self.config_address
        } else if offset <= OFFSET_DATA_END {
            self.read_configuration_space()
        } else {
            ALL_ONES
        };
        let start: usize = (offset % 4) as usize;
        let length = data.len();
        if length <= 4 - start {
            let mut index: usize = 0;
            while index < length
                invariant
                    index <= length,
                    start + length <= 4,
                    data@.len() == length,
                    forall|i: int| 0 <= i < index ==> data@[i] == lanes(result)[start + i],
                decreases length - index,
            {
                data[index] = read_lane(result, start + index);
                index += 1;
            }
            assert(data@ =~= lanes(result).subrange(start as int, start + length));
        } else {
            let mut index: usize = 0;
            while index < length
                invariant
                    index <= length,
                    data@.len() == length,
                    forall|i: int| 0 <= i < index ==> data@[i] == 0xFFu8,
                decreases length - index,
            {
                data[index] = 0xFF;
                index += 1;
            }
            assert(data@ =~= Seq::new(length as nat, |i: int| 0xFFu8));
        }
    }

    /// Takes a write of `data` at `offset` of the port window.
    pub fn write(&mut self, offset: u64, data: &[u8])
        ensures
            final(self)@ == old(self)@.port_write(offset, data@),
            old(self)@.wf() ==> final(self)@.wf(),
    {
        if offset <= OFFSET_ADDRESS_END {
            self.set_configuration_address(offset, data);
        } else if offset <= OFFSET_DATA_END {
            self.write_configuration_space(offset - 4, data);
        }
    }
}

/// A write to the address register replaces exactly the lanes it covers:
/// one, two or four bytes that stay within the register stand afterwards in
/// lanes `offset` to `offset + data.len()`, the other lanes hold their old
/// bytes, and nothing behind bus 0 changes.
pub proof fn lemma_address_write_replaces_covered_lanes(
    root: RootComplexView,
    offset: u64,
    data: Seq<u8>,
)
    requires
        data.len() == 1 || data.len() == 2 || data.len() == 4,
        offset + data.len() <= 4,
    ensures
        lanes(root.set_address(offset, data).config_address) == overlay(
            lanes(root.config_address),
            offset as int,
            data,
        ),
        root.set_address(offset, data).bus == root.bus,
        root.port_write(offset, data) == root.set_address(offset, data),
{
    lemma_lanes_of_from_lanes(overlay(lanes(root.config_address), offset as int, data));
}

/// Decoding inverts the field layout: an address built from a bus, device,
/// function and register number is enabled and names exactly those.
pub proof fn lemma_decode_of_encode(bus: usize, device: usize, function: usize, register: usize)
    requires
        bus < 0x100,
        device < 0x20,
        function < 0x8,
        register < 0x40,
    ensures
        enabled(encode(bus, device, function, register)),
        decode(encode(bus, device, function, register)) == (bus, device, function, register),
{
    lemma_layout(bus as u32, device as u32, function as u32, register as u32);
}

/// Through the ports: once the address of a register was written to the
/// address port, a read of the data port gives the little-endian bytes of
/// that register as bus 0 routes it, or all ones where the address reaches
/// nothing.
pub proof fn lemma_address_then_data(
    root: RootComplexView,
    bus: usize,
    device: usize,
    function: usize,
    register: usize,
)
    requires
        bus < 0x100,
        device < 0x20,
        function < 0x8,
        register < 0x40,
    ensures
        root.port_write(OFFSET_ADDRESS, lanes(encode(bus, device, function, register))).port_read(
            OFFSET_DATA,
            4,
        ) == lanes(
            match root.bus.read(bus, device, function, register) {
                Some(value) => value,
                None => ALL_ONES,
            },
        ),
{
    let address = encode(bus, device, function, register);
    lemma_decode_of_encode(bus, device, function, register);
    lemma_from_lanes_of_lanes(address);
    assert(overlay(lanes(root.config_address), 0, lanes(address)) =~= lanes(address));
    let after = root.port_write(OFFSET_ADDRESS, lanes(address));
    assert(after.config_address == address);
    assert(lanes(after.read_space()).subrange(0, 4) =~= lanes(after.read_space()));
}

/// While the enable bit is clear, a read of the data port gives all ones,
/// whatever else the address register holds.
pub proof fn lemma_disabled_reads_all_ones(root: RootComplexView, offset: u64, length: nat)
    requires
        !enabled(root.config_address),
        OFFSET_DATA <= offset <= OFFSET_DATA_END,
    ensures
        root.read_space() == ALL_ONES,
        root.port_read(offset, length) == Seq::new(length, |i: int| 0xFFu8),
{
    assert(root.port_read(offset, length) =~= Seq::new(length, |i: int| 0xFFu8));
}

/// While the enable bit is clear, a write to the data port changes nothing:
/// the address register and every register behind bus 0 stay as they were,
/// so whatever is read once the mechanism is enabled again is what would have
/// been read without the write.
pub proof fn lemma_disabled_write_changes_nothing(root: RootComplexView, offset: u64, data: Seq<u8>)
    requires
        !enabled(root.config_address),
        OFFSET_DATA <= offset <= OFFSET_DATA_END,
    ensures
        root.port_write(offset, data) == root,
        forall|address: u32|
            root.port_write(offset, data).set_address(0, #[trigger] lanes(address)).read_space()
                == root.set_address(0, lanes(address)).read_space(),
{
}

} // verus!
