//! One PCI function: its number and its configuration space.

use vstd::prelude::*;
use crate::byte_order::le_u16;
use crate::constants::PciHeaderType;
use crate::register::{
    from_lanes, lanes, lemma_from_lanes_of_lanes, lemma_halves_of_lanes, lemma_lanes_of_from_lanes, overlay, read_half,
    read_lane, word_lanes, write_half, write_lane,
};

verus! {

/// The configuration header has a length of 64 bytes, so 16 dwords.
pub const CONFIGURATION_HEADER_SIZE: usize = 16;

/// The device-specific registers have a length of 192 bytes, so 48 dwords.
pub const CAPABILITY_REGISTERS_SIZE: usize = 48;

/// The extended configuration space has a length of 3840 bytes, so 960 dwords.
pub const EXTENDED_CONFIGURATION_SIZE: usize = 960;

/// The whole configuration space of a function: 1024 dwords.
pub const CONFIGURATION_SPACE_SIZE: usize = CONFIGURATION_HEADER_SIZE + CAPABILITY_REGISTERS_SIZE
    + EXTENDED_CONFIGURATION_SIZE;

// Where the header fields stand: the register of each, and the byte offset of
// the field within that register.
pub const VENDOR_ID_REGISTER: usize = 0;

pub const VENDOR_ID_OFFSET: usize = 0;

pub const DEVICE_ID_REGISTER: usize = 0;

pub const DEVICE_ID_OFFSET: usize = 2;

pub const COMMAND_REGISTER: usize = 1;

pub const COMMAND_OFFSET: usize = 0;

pub const STATUS_REGISTER: usize = 1;

pub const STATUS_OFFSET: usize = 2;

pub const CLASS_CODE_REGISTER: usize = 2;

pub const REVISION_ID_REGISTER: usize = 2;

pub const REVISION_ID_OFFSET: usize = 0;

pub const HEADER_TYPE_REGISTER: usize = 3;

pub const HEADER_TYPE_OFFSET: usize = 2;

pub const SUBSYSTEM_ID_REGISTER: usize = 11;

pub const SUBSYSTEM_ID_OFFSET: usize = 2;

pub const SUBSYSTEM_VENDOR_ID_REGISTER: usize = 11;

pub const SUBSYSTEM_VENDOR_ID_OFFSET: usize = 0;

/// Bridge header: primary, secondary and subordinate bus numbers.
pub const BUS_NUMBER_REGISTER: usize = 6;

/// Bridge header: the secondary status is the upper half of this register.
pub const SECONDARY_STATUS_REGISTER: usize = 7;

/// Bridge header: memory base (lower half) and memory limit (upper half).
pub const MEMORY_WINDOW_REGISTER: usize = 8;

/// Bridge header: the bridge control is the upper half of this register.
pub const BRIDGE_CONTROL_REGISTER: usize = 15;

/// What a bridge field holds while no window is configured.
pub const NO_WINDOW: u16 = 0xFFFF;

pub const VENDOR_ID_DUMMY_HOST_BRIDGE: u16 = 0x1D94;

pub const DEVICE_ID_DUMMY_HOST_BRIDGE: u16 = 0x1452;

/// A class code as it stands in the class-code register: base class in the
/// top byte, then subclass, then programming interface; the low byte, which
/// the revision takes, is zero.
#[derive(Clone, Copy, Debug, PartialEq, Eq)]
pub enum PciClassCode {
    AllImplementedExceptVGACompatible,
    VGAComptabile,
    HostBridge,
    IsaBridge,
    EisaBRidge,
    McaBridge,
    PciToPciBridge,
    SubstractivePciToPciBridge,
    PcmciaBridge,
    NuBusBridge,
    CardBusBridge,
    RacewayBridge,
    PrimaryProcessorPciToPciBridge,
    SecondaryProcessorPciToPciBridge,
    InfiniBandToPciHostBridge,
    AdvancedSwitchingToPciHostCustom,
    AdvancedSwitchingToPciHostAsiSig,
    OtherBridgeDevice,
    KeyboardController,
    DigitizerPen,
    MouseController,
    ScannerController,
    GameportControllerGeneric,
    GameportController,
    OtherInputController,
}

impl PciClassCode {
    /// The register value assigned to each class code.
    pub open spec fn register_value(self) -> u32 {
        match self {
            PciClassCode::AllImplementedExceptVGACompatible => 0x00_00_00_00,
            PciClassCode::VGAComptabile => 0x00_01_00_00,
            PciClassCode::HostBridge => 0x06_00_00_00,
            PciClassCode::IsaBridge => 0x06_01_00_00,
            PciClassCode::EisaBRidge => 0x06_02_00_00,
            PciClassCode::McaBridge => 0x06_03_00_00,
            PciClassCode::PciToPciBridge => 0x06_04_00_00,
            PciClassCode::SubstractivePciToPciBridge => 0x06_04_01_00,
            PciClassCode::PcmciaBridge => 0x06_05_00_00,
            PciClassCode::NuBusBridge => 0x06_06_00_00,
            PciClassCode::CardBusBridge => 0x06_07_00_00,
            PciClassCode::RacewayBridge => 0x06_08_00_00,
            PciClassCode::PrimaryProcessorPciToPciBridge => 0x06_09_40_00,
            PciClassCode::SecondaryProcessorPciToPciBridge => 0x06_09_80_00,
            PciClassCode::InfiniBandToPciHostBridge => 0x06_0A_00_00,
            PciClassCode::AdvancedSwitchingToPciHostCustom => 0x06_0B_00_00,
            PciClassCode::AdvancedSwitchingToPciHostAsiSig => 0x06_0B_01_00,
            PciClassCode::OtherBridgeDevice => 0x06_80_00_00,
            PciClassCode::KeyboardController => 0x09_00_00_00,
            PciClassCode::DigitizerPen => 0x09_01_00_00,
            PciClassCode::MouseController => 0x09_02_00_00,
            PciClassCode::ScannerController => 0x09_03_00_00,
            PciClassCode::GameportControllerGeneric => 0x09_04_00_00,
            PciClassCode::GameportController => 0x09_04_10_00,
            PciClassCode::OtherInputController => 0x09_80_00_00,
        }
    }

    pub fn get_register_value(self) -> (value: u32)
        ensures
            value == self.register_value(),
            value % 0x100 == 0,
    {
        match self {
            PciClassCode::AllImplementedExceptVGACompatible => 0x00_00_00_00,
            PciClassCode::VGAComptabile => 0x00_01_00_00,
            PciClassCode::HostBridge => 0x06_00_00_00,
            PciClassCode::IsaBridge => 0x06_01_00_00,
            PciClassCode::EisaBRidge => 0x06_02_00_00,
            PciClassCode::McaBridge => 0x06_03_00_00,
            PciClassCode::PciToPciBridge => 0x06_04_00_00,
            PciClassCode::SubstractivePciToPciBridge => 0x06_04_01_00,
            PciClassCode::PcmciaBridge => 0x06_05_00_00,
            PciClassCode::NuBusBridge => 0x06_06_00_00,
            PciClassCode::CardBusBridge => 0x06_07_00_00,
            PciClassCode::RacewayBridge => 0x06_08_00_00,
            PciClassCode::PrimaryProcessorPciToPciBridge => 0x06_09_40_00,
            PciClassCode::SecondaryProcessorPciToPciBridge => 0x06_09_80_00,
            PciClassCode::InfiniBandToPciHostBridge => 0x06_0A_00_00,
            PciClassCode::AdvancedSwitchingToPciHostCustom => 0x06_0B_00_00,
            PciClassCode::AdvancedSwitchingToPciHostAsiSig => 0x06_0B_01_00,
            PciClassCode::OtherBridgeDevice => 0x06_80_00_00,
            PciClassCode::KeyboardController => 0x09_00_00_00,
            PciClassCode::DigitizerPen => 0x09_01_00_00,
            PciClassCode::MouseController => 0x09_02_00_00,
            PciClassCode::ScannerController => 0x09_03_00_00,
            PciClassCode::GameportControllerGeneric => 0x09_04_00_00,
            PciClassCode::GameportController => 0x09_04_10_00,
            PciClassCode::OtherInputController => 0x09_80_00_00,
        }
    }
}

/// What a function is: its number within the device and its registers.
pub ghost struct FunctionView {
    pub number: usize,
    pub registers: Seq<u32>,
}

impl FunctionView {
    /// The configuration space has exactly its 1024 registers.
    pub open spec fn wf(self) -> bool {
        self.registers.len() == CONFIGURATION_SPACE_SIZE
    }

    /// The register at `register`, absent outside the space.
    pub open spec fn read_dword(self, register: usize) -> Option<u32> {
        if register < self.registers.len() {
            Some(self.registers[register as int])
        } else {
            None
        }
    }

    /// Byte lane `offset` of the register, absent for an offset beyond 3 or
    /// a register outside the space.
    pub open spec fn read_byte(self, register: usize, offset: usize) -> Option<u8> {
        if offset < 4 && register < self.registers.len() {
            Some(lanes(self.registers[register as int])[offset as int])
        } else {
            None
        }
    }

    /// Half-word `offset` (0 the lower, 1 the upper) of the register, absent
    /// for any other offset or a register outside the space.
    pub open spec fn read_word(self, register: usize, offset: usize) -> Option<u16> {
        if offset < 2 && register < self.registers.len() {
            Some(le_u16(lanes(self.registers[register as int]).subrange(2 * offset, 2 * offset + 2)))
        } else {
            None
        }
    }

    /// The function after `data` was laid over the lanes of the register
    /// from lane `offset` on. Nothing changes where the register is outside
    /// the space or the bytes would pass the register's end.
    pub open spec fn write_lanes(self, register: usize, offset: int, data: Seq<u8>) -> FunctionView {
        if register < self.registers.len() && 0 <= offset && offset + data.len() <= 4 {
            FunctionView {
                registers: self.registers.update(
                    register as int,
                    from_lanes(overlay(lanes(self.registers[register as int]), offset, data)),
                ),
                ..self
            }
        } else {
            self
        }
    }

    /// The function after one byte lane was written.
    pub open spec fn write_byte(self, register: usize, offset: usize, data: u8) -> FunctionView {
        self.write_lanes(register, offset as int, seq![data])
    }

    /// The function after half-word `offset` (0 or 1) was written; any other
    /// offset changes nothing.
    pub open spec fn write_word(self, register: usize, offset: usize, data: u16) -> FunctionView {
        if offset < 2 {
            self.write_lanes(register, 2 * offset, word_lanes(data))
        } else {
            self
        }
    }

    /// The function after a whole register was written.
    pub open spec fn write_dword(self, register: usize, data: u32) -> FunctionView {
        if register < self.registers.len() {
            FunctionView { registers: self.registers.update(register as int, data), ..self }
        } else {
            self
        }
    }

    /// The function after a guest wrote `data` at byte `offset` of the
    /// register. Bytes that would pass the register's end are dropped; every
    /// other write replaces exactly the lanes `offset` to `offset + data.len()`
    /// and leaves the others as they were.
    pub open spec fn write(self, register: usize, offset: usize, data: Seq<u8>) -> FunctionView {
        if offset + data.len() > 4 {
            self
        } else {
            self.write_lanes(register, offset as int, data)
        }
    }
}

/// The registers of a function that was just created: all zero but for the
/// header fields that its identity fills.
pub open spec fn initial_registers(
    device_id: u16,
    vendor_id: u16,
    class_code: PciClassCode,
    revision_id: u8,
    header_type: PciHeaderType,
    subsystem_id: u16,
    subsystem_vendor_id: u16,
) -> Seq<u32> {
    Seq::new(
        CONFIGURATION_SPACE_SIZE as nat,
        |i: int|
            if i == DEVICE_ID_REGISTER {
                (device_id * 0x1_0000 + vendor_id) as u32
            } else if i == CLASS_CODE_REGISTER {
                (class_code.register_value() + revision_id) as u32
            } else if i == HEADER_TYPE_REGISTER {
                (header_type.register_value() * 0x1_0000) as u32
            } else {
                match header_type {
                    PciHeaderType::Type0 => if i == SUBSYSTEM_ID_REGISTER {
                        (subsystem_id * 0x1_0000 + subsystem_vendor_id) as u32
                    } else {
                        0u32
                    },
                    PciHeaderType::Type1 => if i == MEMORY_WINDOW_REGISTER {
                        (NO_WINDOW * 0x1_0000 + NO_WINDOW) as u32
                    } else if i == BRIDGE_CONTROL_REGISTER {
                        (NO_WINDOW * 0x1_0000) as u32
                    } else {
                        0u32
                    },
                }
            },
    )
}

/// A function of a device, with its own configuration space.
pub struct PciFunction {
    /// The number of the function within the device.
    number: usize,
    /// The configuration space, one entry per dword: the header (16 dwords),
    /// the device-specific registers (48) and the extended space (960).
    configuration_space: Vec<u32>,
}

impl View for PciFunction {
    type V = FunctionView;

    closed spec fn view(&self) -> FunctionView {
        FunctionView { number: self.number, registers: self.configuration_space@ }
    }
}

impl PciFunction {
    /// Creates a function and fills the header fields that identify it.
    pub fn new(
        number: usize,
        device_id: u16,
        vendor_id: u16,
        class_code: PciClassCode,
        revision_id: u8,
        header_type: PciHeaderType,
        subsystem_id: u16,
        subsystem_vendor_id: u16,
    ) -> (function: PciFunction)
        ensures
            function@ == (FunctionView {
                number,
                registers: initial_registers(
                    device_id,
                    vendor_id,
                    class_code,
                    revision_id,
                    header_type,
                    subsystem_id,
                    subsystem_vendor_id,
                ),
            }),
            function@.wf(),
    {
        let mut function = PciFunction { number, configuration_space: zeroed_space() };

        let identity: u32 = (device_id as u32) * 0x1_0000 + (vendor_id as u32);
        function.write_configuration_dword(DEVICE_ID_REGISTER, identity);

        let class: u32 = class_code.get_register_value() + (revision_id as u32);
        function.write_configuration_dword(CLASS_CODE_REGISTER, class);

        match header_type {
            PciHeaderType::Type0 => {
                function.write_configuration_byte(HEADER_TYPE_REGISTER, HEADER_TYPE_OFFSET, 0x00);
                let subsystem: u32 = (subsystem_id as u32) * 0x1_0000 + (subsystem_vendor_id as u32);
                function.write_configuration_dword(SUBSYSTEM_ID_REGISTER, subsystem);
            },
            PciHeaderType::Type1 => {
                function.write_configuration_byte(HEADER_TYPE_REGISTER, HEADER_TYPE_OFFSET, 0x01);
                function.write_configuration_byte(BUS_NUMBER_REGISTER, 0, 0x00);
                function.write_configuration_byte(BUS_NUMBER_REGISTER, 1, 0x00);
                function.write_configuration_byte(BUS_NUMBER_REGISTER, 2, 0x00);
                function.write_configuration_word(SECONDARY_STATUS_REGISTER, 1, 0x0000);
                function.write_configuration_word(MEMORY_WINDOW_REGISTER, 0, NO_WINDOW);
                function.write_configuration_word(MEMORY_WINDOW_REGISTER, 1, NO_WINDOW);
                function.write_configuration_word(BRIDGE_CONTROL_REGISTER, 1, NO_WINDOW);
            },
        }
        proof {
            assert(overlay(lanes(0u32), 2, seq![0x00u8]) =~= seq![0u8, 0u8, 0u8, 0u8]);
            assert(overlay(lanes(0u32), 2, seq![0x01u8]) =~= seq![0u8, 0u8, 1u8, 0u8]);
            assert(overlay(lanes(0u32), 0, seq![0x00u8]) =~= seq![0u8, 0u8, 0u8, 0u8]);
            assert(overlay(lanes(0u32), 1, seq![0x00u8]) =~= seq![0u8, 0u8, 0u8, 0u8]);
            assert(overlay(lanes(0u32), 2, word_lanes(0u16)) =~= seq![0u8, 0u8, 0u8, 0u8]);
            assert(overlay(lanes(0u32), 0, word_lanes(0xFFFFu16)) =~= seq![0xFFu8, 0xFFu8, 0u8, 0u8]);
            assert(overlay(lanes(0xFFFFu32), 2, word_lanes(0xFFFFu16)) =~= seq![
                0xFFu8,
                0xFFu8,
                0xFFu8,
                0xFFu8,
            ]);
            assert(overlay(lanes(0u32), 2, word_lanes(0xFFFFu16)) =~= seq![0u8, 0u8, 0xFFu8, 0xFFu8]);
            assert(function@.registers =~= initial_registers(
                device_id,
                vendor_id,
                class_code,
                revision_id,
                header_type,
                subsystem_id,
                subsystem_vendor_id,
            ));
        }
        function
    }

    /// The dummy host bridge function with the given number.
    pub open spec fn dummy_host_bridge_view(number: usize) -> FunctionView {
        FunctionView {
            number,
            registers: initial_registers(
                DEVICE_ID_DUMMY_HOST_BRIDGE,
                VENDOR_ID_DUMMY_HOST_BRIDGE,
                PciClassCode::HostBridge,
                0,
                PciHeaderType::Type0,
                0,
                0,
            ),
        }
    }

    /// Creates the dummy host bridge function with the given number.
    pub fn new_dummy_host_bridge(number: usize) -> (function: PciFunction)
        ensures
            function@ == PciFunction::dummy_host_bridge_view(number),
            function@.wf(),
    {
        PciFunction::new(
            number,
            DEVICE_ID_DUMMY_HOST_BRIDGE,
            VENDOR_ID_DUMMY_HOST_BRIDGE,
            PciClassCode::HostBridge,
            0,
            PciHeaderType::Type0,
            0,
            0,
        )
    }

    /// The number of this function.
    pub fn get_number(&self) -> (number: usize)
        ensures
            number == self@.number,
    {
        self.number
    }

    /// Reads byte lane `offset` (0 to 3) of a register.
    pub fn read_configuration_byte(&self, register: usize, offset: usize) -> (value: Option<u8>)
        ensures
            value == self@.read_byte(register, offset),
    {
        if offset > 3 {
            return None;
        }
        if register < self.configuration_space.len() {
            Some(read_lane(self.configuration_space[register], offset))
        } else {
            None
        }
    }

    /// Reads half-word `offset` (0 the lower, 1 the upper) of a register.
    pub fn read_configuration_word(&self, register: usize, offset: usize) -> (value: Option<u16>)
        ensures
            value == self@.read_word(register, offset),
    {
        if offset > 1 {
            return None;
        }
        if register < self.configuration_space.len() {
            Some(read_half(self.configuration_space[register], offset))
        } else {
            None
        }
    }

    /// Reads a whole register.
    pub fn read_configuration_dword(&self, register: usize) -> (value: Option<u32>)
        ensures
            value == self@.read_dword(register),
            self@.wf() && register >= CONFIGURATION_SPACE_SIZE ==> value is None,
    {
        if register < self.configuration_space.len() {
            Some(self.configuration_space[register])
        } else {
            None
        }
    }

    /// Writes byte lane `offset` (0 to 3) of a register and leaves its other
    /// lanes as they were.
    pub fn write_configuration_byte(&mut self, register: usize, offset: usize, data: u8)
        ensures
            final(self)@ == old(self)@.write_byte(register, offset, data),
            old(self)@.wf() ==> final(self)@.wf(),
    {
        if offset > 3 {
            return ;
        }
        if register < self.configuration_space.len() {
            let value: u32 = self.configuration_space[register];
            let updated: u32 = write_lane(value, offset, data);
            proof {
                assert(overlay(lanes(value), offset as int, seq![data]) =~= lanes(value).update(
                    offset as int,
                    data,
                ));
            }
            self.configuration_space.set(register, updated);
        }
    }

    /// Writes half-word `offset` (0 the lower, 1 the upper) of a register and
    /// leaves its other half as it was.
    pub fn write_configuration_word(&mut self, register: usize, offset: usize, data: u16)
        ensures
            final(self)@ == old(self)@.write_word(register, offset, data),
            old(self)@.wf() ==> final(self)@.wf(),
    {
        if offset > 1 {
            return ;
        }
        if register < self.configuration_space.len() {
            let value: u32 = self.configuration_space[register];
            let updated: u32 = write_half(value, offset, data);
            self.configuration_space.set(register, updated);
        }
    }

    /// Writes a whole register.
    pub fn write_configuration_dword(&mut self, register: usize, data: u32)
        ensures
            final(self)@ == old(self)@.write_dword(register, data),
            old(self)@.wf() ==> final(self)@.wf(),
            old(self)@.wf() && register >= CONFIGURATION_SPACE_SIZE ==> final(self)@ == old(self)@,
    {
        if register < self.configuration_space.len() {
            self.configuration_space.set(register, data);
        }
    }
}

/// Round trip and non-interference of a byte write: within the space and
/// for an offset of 0 to 3, the byte written is the byte read back at the same
/// place, and every other lane of every register reads as it did before.
pub proof fn lemma_write_byte_read_back(
    function: FunctionView,
    register: usize,
    offset: usize,
    value: u8,
)
    requires
        function.wf(),
        register < CONFIGURATION_SPACE_SIZE,
        offset < 4,
    ensures
        function.write_byte(register, offset, value).wf(),
        function.write_byte(register, offset, value).read_byte(register, offset) == Some(value),
        forall|r: usize, o: usize|
            r != register || o != offset ==> #[trigger] function.write_byte(
                register,
                offset,
                value,
            ).read_byte(r, o) == function.read_byte(r, o),
{
    let old_lanes = lanes(function.registers[register as int]);
    let new_lanes = overlay(old_lanes, offset as int, seq![value]);
    lemma_lanes_of_from_lanes(new_lanes);
}

/// A register index at or beyond the end of the space reads as absent, and a
/// write to it changes nothing.
pub proof fn lemma_outside_the_space(function: FunctionView, register: usize, data: u32)
    requires
        function.wf(),
        register >= CONFIGURATION_SPACE_SIZE,
    ensures
        function.read_dword(register) is None,
        function.write_dword(register, data) == function,
{
}

/// Byte writes compose to a dword: after the four lanes of a register were
/// written with the little-endian bytes of `value`, the register reads as
/// `value`.
pub proof fn lemma_byte_writes_compose(function: FunctionView, register: usize, value: u32)
    requires
        function.wf(),
        register < CONFIGURATION_SPACE_SIZE,
    ensures
        function.write_byte(register, 0, lanes(value)[0]).write_byte(
            register,
            1,
            lanes(value)[1],
        ).write_byte(register, 2, lanes(value)[2]).write_byte(
            register,
            3,
            lanes(value)[3],
        ).read_dword(register) == Some(value),
{
    let bytes = lanes(value);
    let f1 = function.write_byte(register, 0, bytes[0]);
    let f2 = f1.write_byte(register, 1, bytes[1]);
    let f3 = f2.write_byte(register, 2, bytes[2]);
    let f4 = f3.write_byte(register, 3, bytes[3]);
    let l0 = lanes(function.registers[register as int]);
    let l1 = overlay(l0, 0, seq![bytes[0]]);
    lemma_lanes_of_from_lanes(l1);
    let l2 = overlay(l1, 1, seq![bytes[1]]);
    lemma_lanes_of_from_lanes(l2);
    let l3 = overlay(l2, 2, seq![bytes[2]]);
    lemma_lanes_of_from_lanes(l3);
    let l4 = overlay(l3, 3, seq![bytes[3]]);
    assert(l4 =~= bytes);
    lemma_from_lanes_of_lanes(value);
}

/// Word writes compose to a dword: after both halves of a register were
/// written with the halves of `value`, the register reads as `value`.
pub proof fn lemma_word_writes_compose(function: FunctionView, register: usize, value: u32)
    requires
        function.wf(),
        register < CONFIGURATION_SPACE_SIZE,
    ensures
        function.write_word(register, 0, (value % 0x1_0000) as u16).write_word(
            register,
            1,
            (value / 0x1_0000) as u16,
        ).read_dword(register) == Some(value),
{
    let low = (value % 0x1_0000) as u16;
    let high = (value / 0x1_0000) as u16;
    let l0 = lanes(function.registers[register as int]);
    let l1 = overlay(l0, 0, word_lanes(low));
    lemma_lanes_of_from_lanes(l1);
    let l2 = overlay(l1, 2, word_lanes(high));
    assert(l2 == lanes(value)) by {
        lemma_halves_of_lanes(value);
        assert(word_lanes(low) == lanes(value).subrange(0, 2));
        assert(word_lanes(high) == lanes(value).subrange(2, 4));
        assert(l2 =~= lanes(value));
    }
    lemma_from_lanes_of_lanes(value);
}

/// Laying no bytes over a register changes nothing.
pub proof fn lemma_write_lanes_nothing(function: FunctionView, register: usize, offset: int)
    ensures
        function.write_lanes(register, offset, Seq::empty()) == function,
{
    if register < function.registers.len() && 0 <= offset && offset <= 4 {
        let value = function.registers[register as int];
        assert(overlay(lanes(value), offset, Seq::empty()) =~= lanes(value));
        lemma_from_lanes_of_lanes(value);
        assert(function.registers.update(register as int, value) =~= function.registers);
    }
}

/// Laying `count` bytes over a register and then writing the next byte
/// behind them lays `count + 1` bytes over it.
pub proof fn lemma_write_lanes_one_more(
    function: FunctionView,
    register: usize,
    offset: usize,
    data: Seq<u8>,
    count: int,
)
    requires
        0 <= count < data.len(),
        offset + data.len() <= 4,
    ensures
        function.write_lanes(register, offset as int, data.subrange(0, count)).write_byte(
            register,
            (offset + count) as usize,
            data[count],
        ) == function.write_lanes(register, offset as int, data.subrange(0, count + 1)),
{
    if register < function.registers.len() {
        let start = lanes(function.registers[register as int]);
        let partial = overlay(start, offset as int, data.subrange(0, count));
        lemma_lanes_of_from_lanes(partial);
        assert(overlay(partial, offset + count, seq![data[count]]) =~= overlay(
            start,
            offset as int,
            data.subrange(0, count + 1),
        ));
        let before = function.write_lanes(register, offset as int, data.subrange(0, count));
        let after = before.write_byte(register, (offset + count) as usize, data[count]);
        assert(after.registers =~= function.write_lanes(
            register,
            offset as int,
            data.subrange(0, count + 1),
        ).registers);
    }
}

/// A configuration space in which every register is zero.
fn zeroed_space() -> (space: Vec<u32>)
    ensures
        space@ == Seq::new(CONFIGURATION_SPACE_SIZE as nat, |i: int| 0u32),
{
    let mut space: Vec<u32> = Vec::with_capacity(CONFIGURATION_SPACE_SIZE);
    while space.len() < CONFIGURATION_SPACE_SIZE
        invariant
            space@.len() <= CONFIGURATION_SPACE_SIZE,
            forall|i: int| 0 <= i < space@.len() ==> space@[i] == 0u32,
        decreases CONFIGURATION_SPACE_SIZE - space@.len(),
    {
        space.push(0);
    }
    assert(space@ =~= Seq::new(CONFIGURATION_SPACE_SIZE as nat, |i: int| 0u32));
    space
}

} // verus!
