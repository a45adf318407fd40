//! Emulation of the PCI configuration mechanism of a virtual machine: the
//! bus / device / function tree, the register storage of each function and
//! the two-port protocol through which a guest reaches it.
//!
//! Every type has a mathematical view (`FunctionView`, `DeviceView`,
//! `BusView`, `RootComplexView`), and every operation states what it does to
//! that view. Absence is never an error: a register, function, device or bus
//! that is not there reads as `None` below the root complex and as all ones
//! at its ports, and a write to it changes nothing.

pub mod bus;
pub mod byte_order;
pub mod constants;
pub mod device;
pub mod function;
pub mod pci;
pub mod register;

pub use self::bus::PciBus;
pub use self::device::PciDevice;
pub use self::function::PciFunction;
pub use self::pci::{PciRootComplex, PCI_IO_PORT, PCI_IO_PORT_SIZE};
