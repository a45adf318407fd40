//! Limits of the topology and the class-code vocabulary.

use vstd::prelude::*;

verus! {

/// There are up to 256 bus numbers that can be assigned.
pub const MAX_BUS_NUMBER: usize = 256;

/// There are up to 32 device attachments on a single bus.
pub const MAX_DEVICE_NUMBER: usize = 32;

/// A device can implement up to 8 functions, not necessarily in sequence.
pub const MAX_FUNCTION_NUMBER: usize = 8;

/// Type 0 is the header of every function but a bridge; type 1 is the
/// header of a bridge function.
#[derive(Clone, Copy, Debug, PartialEq, Eq)]
pub enum PciHeaderType {
    Type0,
    Type1,
}

impl PciHeaderType {
    /// The byte that stands for this layout in the header-type field.
    pub open spec fn register_value(self) -> u8 {
        match self {
            PciHeaderType::Type0 => 0x00,
            PciHeaderType::Type1 => 0x01,
        }
    }
}

/// The upper byte of a class code: the broad kind of functionality that a
/// function provides.
#[derive(Clone, Copy, Debug, PartialEq, Eq)]
pub enum PciBaseClass {
    UnclassifiedDevice,
    MassStorageController,
    NetworkController,
    DisplayController,
    MultimediaController,
    MemoryController,
    BridgeDevice,
    SimpleCommunicationController,
    BaseSystemPeripheral,
    InputDeviceController,
    DockingStation,
    Processor,
    SerialBusController,
    WirelessController,
    IntelligentIOController,
    SatelliteCommunicationController,
    EncryptionController,
    SignalProcessingController,
    ProcessingAccelerator,
    NonEssentialInstrumentation,
    Other,
}

impl PciBaseClass {
    /// The byte assigned to each base class.
    pub open spec fn register_value(self) -> u8 {
        match self {
            PciBaseClass::UnclassifiedDevice => 0x00,
            PciBaseClass::MassStorageController => 0x01,
            PciBaseClass::NetworkController => 0x02,
            PciBaseClass::DisplayController => 0x03,
            PciBaseClass::MultimediaController => 0x04,
            PciBaseClass::MemoryController => 0x05,
            PciBaseClass::BridgeDevice => 0x06,
            PciBaseClass::SimpleCommunicationController => 0x07,
            PciBaseClass::BaseSystemPeripheral => 0x08,
            PciBaseClass::InputDeviceController => 0x09,
            PciBaseClass::DockingStation => 0x0A,
            PciBaseClass::Processor => 0x0B,
            PciBaseClass::SerialBusController => 0x0C,
            PciBaseClass::WirelessController => 0x0D,
            PciBaseClass::IntelligentIOController => 0x0E,
            PciBaseClass::SatelliteCommunicationController => 0x0F,
            PciBaseClass::EncryptionController => 0x10,
            PciBaseClass::SignalProcessingController => 0x11,
            PciBaseClass::ProcessingAccelerator => 0x12,
            PciBaseClass::NonEssentialInstrumentation => 0x13,
            PciBaseClass::Other => 0xFF,
        }
    }

    pub fn get_register_value(self) -> (value: u8)
        ensures
            value == self.register_value(),
    {
        match self {
            PciBaseClass::UnclassifiedDevice => 0x00,
            PciBaseClass::MassStorageController => 0x01,
            PciBaseClass::NetworkController => 0x02,
            PciBaseClass::DisplayController => 0x03,
            PciBaseClass::MultimediaController => 0x04,
            PciBaseClass::MemoryController => 0x05,
            PciBaseClass::BridgeDevice => 0x06,
            PciBaseClass::SimpleCommunicationController => 0x07,
            PciBaseClass::BaseSystemPeripheral => 0x08,
            PciBaseClass::InputDeviceController => 0x09,
            PciBaseClass::DockingStation => 0x0A,
            PciBaseClass::Processor => 0x0B,
            PciBaseClass::SerialBusController => 0x0C,
            PciBaseClass::WirelessController => 0x0D,
            PciBaseClass::IntelligentIOController => 0x0E,
            PciBaseClass::SatelliteCommunicationController => 0x0F,
            PciBaseClass::EncryptionController => 0x10,
            PciBaseClass::SignalProcessingController => 0x11,
            PciBaseClass::ProcessingAccelerator => 0x12,
            PciBaseClass::NonEssentialInstrumentation => 0x13,
            PciBaseClass::Other => 0xFF,
        }
    }
}

/// The middle byte of a class code: the narrower kind of functionality
/// within a base class.
pub trait PciSubclass {
    fn get_register_value(&self) -> u8;
}

/// Subclasses of the bridge base class.
#[derive(Clone, Copy, Debug, PartialEq, Eq)]
pub enum PciBridgeSubclass {
    HostBridge,
    IsaBridge,
    EisaBridge,
    McaBridge,
    PciToPciBridge,
    PcmciaBridge,
    NuBusBridge,
    CardBusBridge,
    RACEwayBridge,
    PciToPciSemiTransparentBridge,
    InfiniBandToPciHostBridge,
    OtherBridgeDevice,
}

impl PciBridgeSubclass {
    /// The byte assigned to each bridge subclass.
    pub open spec fn register_value(self) -> u8 {
        match self {
            PciBridgeSubclass::HostBridge => 0x00,
            PciBridgeSubclass::IsaBridge => 0x01,
            PciBridgeSubclass::EisaBridge => 0x02,
            PciBridgeSubclass::McaBridge => 0x03,
            PciBridgeSubclass::PciToPciBridge => 0x04,
            PciBridgeSubclass::PcmciaBridge => 0x05,
            PciBridgeSubclass::NuBusBridge => 0x06,
            PciBridgeSubclass::CardBusBridge => 0x07,
            PciBridgeSubclass::RACEwayBridge => 0x08,
            PciBridgeSubclass::PciToPciSemiTransparentBridge => 0x09,
            PciBridgeSubclass::InfiniBandToPciHostBridge => 0x0A,
            PciBridgeSubclass::OtherBridgeDevice => 0x80,
        }
    }
}

impl PciSubclass for PciBridgeSubclass {
    fn get_register_value(&self) -> (value: u8)
        ensures
            value == self.register_value(),
    {
        match self {
            PciBridgeSubclass::HostBridge => 0x00,
            PciBridgeSubclass::IsaBridge => 0x01,
            PciBridgeSubclass::EisaBridge => 0x02,
            PciBridgeSubclass::McaBridge => 0x03,
            PciBridgeSubclass::PciToPciBridge => 0x04,
            PciBridgeSubclass::PcmciaBridge => 0x05,
            PciBridgeSubclass::NuBusBridge => 0x06,
            PciBridgeSubclass::CardBusBridge => 0x07,
            PciBridgeSubclass::RACEwayBridge => 0x08,
            PciBridgeSubclass::PciToPciSemiTransparentBridge => 0x09,
            PciBridgeSubclass::InfiniBandToPciHostBridge => 0x0A,
            PciBridgeSubclass::OtherBridgeDevice => 0x80,
        }
    }
}

/// The lower byte of a class code: the register-level interface of a
/// function, if it has one.
pub trait PciProgrammingInterface {
    fn get_register_value(&self) -> u8;
}

} // verus!
