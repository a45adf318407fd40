use pci::bus::{PciBus, PciBusError};
use pci::constants::{
    PciBaseClass, PciBridgeSubclass, PciSubclass, MAX_BUS_NUMBER, MAX_DEVICE_NUMBER,
};
use pci::device::PciDevice;
use pci::function::PciFunction;

#[test]
fn bus_bus_add_get_remove() {
    let mut main_bus = PciBus::new(0);

    for bus in 0..MAX_BUS_NUMBER {
        assert!(main_bus.add_bus(PciBus::new_dummy(bus)).is_ok());
        assert!(main_bus.get_bus(bus).is_some());
    }

    assert!(main_bus.add_bus(PciBus::new_dummy(MAX_BUS_NUMBER)).is_err());

    for bus in 0..MAX_BUS_NUMBER {
        main_bus.remove_bus(bus);
        assert!(main_bus.get_bus(bus).is_none());
    }
}

#[test]
fn bus_device_add_get_remove() {
    let mut bus = PciBus::new(0);

    for device in 0..MAX_DEVICE_NUMBER {
        assert!(bus
            .add_device(PciDevice::new_dummy_host_bridge(device))
            .is_ok());
        assert!(bus.get_device(device).is_some());
    }

    assert!(bus
        .add_device(PciDevice::new_dummy_host_bridge(MAX_DEVICE_NUMBER))
        .is_err());

    for device in 0..MAX_DEVICE_NUMBER {
        bus.remove_device(device);
        assert!(bus.get_device(device).is_none());
    }
}

#[test]
fn limits() {
    assert_eq!(MAX_BUS_NUMBER, 256);
    assert_eq!(MAX_DEVICE_NUMBER, 32);
}

#[test]
fn base_class_register_values() {
    assert_eq!(PciBaseClass::UnclassifiedDevice.get_register_value(), 0x00);
    assert_eq!(PciBaseClass::BridgeDevice.get_register_value(), 0x06);
    assert_eq!(PciBaseClass::DockingStation.get_register_value(), 0x0A);
    assert_eq!(
        PciBaseClass::NonEssentialInstrumentation.get_register_value(),
        0x13
    );
    assert_eq!(PciBaseClass::Other.get_register_value(), 0xFF);
}

#[test]
fn bridge_subclass_register_values() {
    assert_eq!(PciBridgeSubclass::HostBridge.get_register_value(), 0x00);
    assert_eq!(PciBridgeSubclass::PciToPciBridge.get_register_value(), 0x04);
    assert_eq!(
        PciBridgeSubclass::InfiniBandToPciHostBridge.get_register_value(),
        0x0A
    );
    assert_eq!(
        PciBridgeSubclass::OtherBridgeDevice.get_register_value(),
        0x80
    );
}

#[test]
fn bus_number_is_kept() {
    assert_eq!(PciBus::new(200).get_number(), 200);
    assert_eq!(PciBus::new_dummy(3).get_number(), 3);
}

#[test]
fn dummy_bus_holds_the_host_bridge() {
    let bus = PciBus::new_dummy(3);

    assert!(bus.get_device(0).is_some());
    assert!(bus.get_device(1).is_none());
    assert!(bus.get_bus(0).is_none());
    assert_eq!(bus.get_device(0).unwrap().get_number(), 0);
    assert_eq!(
        bus.read_configuration_register(3, 0, 0, 0),
        Some(0x1452_1D94)
    );
}

#[test]
fn add_bus_errors() {
    let mut bus = PciBus::new(0);

    assert!(matches!(
        bus.add_bus(PciBus::new(256)),
        Err(PciBusError::InvalidPciBusNumber(256))
    ));
    assert!(bus.add_bus(PciBus::new(255)).is_ok());
    assert!(matches!(
        bus.add_bus(PciBus::new(255)),
        Err(PciBusError::AlreadyInUsePciBusSlot(255))
    ));
}

#[test]
fn add_device_errors() {
    let mut bus = PciBus::new(0);

    assert!(matches!(
        bus.add_device(PciDevice::new(32)),
        Err(PciBusError::InvalidPciDeviceNumber(32))
    ));
    assert!(bus.add_device(PciDevice::new(31)).is_ok());
    assert!(matches!(
        bus.add_device(PciDevice::new(31)),
        Err(PciBusError::AlreadyInUsePciDeviceSlot(31))
    ));
}

#[test]
fn full_bus_rejects_and_removal_frees_the_slot() {
    let mut bus = PciBus::new(0);
    for device in 0..MAX_DEVICE_NUMBER {
        assert!(bus.add_device(PciDevice::new(device)).is_ok());
    }

    // The 33rd device finds no slot, whatever its number.
    for device in 0..=MAX_DEVICE_NUMBER {
        assert!(bus.add_device(PciDevice::new(device)).is_err());
    }

    for device in 0..MAX_DEVICE_NUMBER {
        let removed = bus.remove_device(device).unwrap();
        assert_eq!(removed.get_number(), device);
        assert!(bus.remove_device(device).is_none());
        assert!(bus.add_device(PciDevice::new(device)).is_ok());
        assert!(bus.add_device(PciDevice::new(device)).is_err());
    }
}

fn child_with_device() -> PciBus {
    let mut device = PciDevice::new(2);
    device
        .add_function(PciFunction::new_dummy_host_bridge(0))
        .unwrap();
    device.write_configuration_register(0, 1, 0, &[0xEF, 0xBE, 0xAD, 0xDE]);
    let mut child = PciBus::new(1);
    child.add_device(device).unwrap();
    child
}

#[test]
fn read_is_routed_to_the_child_bus() {
    let direct = child_with_device();
    let mut root = PciBus::new(0);
    root.add_bus(child_with_device()).unwrap();

    for register in [0usize, 1, 2, 3, 11, 63, 1023, 1024] {
        assert_eq!(
            root.read_configuration_register(1, 2, 0, register),
            direct.read_configuration_register(1, 2, 0, register)
        );
    }
    assert_eq!(
        root.read_configuration_register(1, 2, 0, 0),
        Some(0x1452_1D94)
    );
    assert_eq!(
        root.read_configuration_register(1, 2, 0, 1),
        Some(0xDEAD_BEEF)
    );
}

#[test]
fn read_of_what_is_not_attached_is_absent() {
    let mut root = PciBus::new(0);
    root.add_bus(child_with_device()).unwrap();

    for register in [0usize, 1, 1023] {
        assert_eq!(root.read_configuration_register(5, 0, 0, register), None);
    }
    assert_eq!(root.read_configuration_register(0, 2, 0, 0), None);
    assert_eq!(root.read_configuration_register(1, 3, 0, 0), None);
    assert_eq!(root.read_configuration_register(1, 2, 1, 0), None);
    assert_eq!(root.read_configuration_register(1, 2, 0, 1024), None);
}

#[test]
fn write_is_routed_to_the_child_bus() {
    let mut root = PciBus::new_dummy(0);
    root.add_bus(child_with_device()).unwrap();

    root.write_configuration_register(1, 2, 0, 7, 0, &[0x78, 0x56, 0x34, 0x12]);
    root.write_configuration_register(1, 2, 0, 7, 3, &[0xFF]);
    root.write_configuration_register(0, 0, 0, 7, 2, &[0xAA, 0xBB]);

    assert_eq!(
        root.read_configuration_register(1, 2, 0, 7),
        Some(0xFF34_5678)
    );
    assert_eq!(
        root.get_bus(1)
            .unwrap()
            .read_configuration_register(1, 2, 0, 7),
        Some(0xFF34_5678)
    );
    assert_eq!(
        root.read_configuration_register(0, 0, 0, 7),
        Some(0xBBAA_0000)
    );
}

#[test]
fn routed_write_replaces_the_lanes_it_covers() {
    let old: u32 = 0x1122_3344;
    let data = [0xA1u8, 0xB2, 0xC3, 0xD4];

    for length in [1usize, 2, 4] {
        for offset in 0..=(4 - length) {
            let mut root = PciBus::new_dummy(0);
            root.add_bus(child_with_device()).unwrap();
            root.write_configuration_register(1, 2, 0, 9, 0, &old.to_le_bytes());
            root.write_configuration_register(1, 2, 0, 9, offset, &data[..length]);

            let mut expected = old.to_le_bytes();
            expected[offset..offset + length].copy_from_slice(&data[..length]);
            assert_eq!(
                root.read_configuration_register(1, 2, 0, 9),
                Some(u32::from_le_bytes(expected))
            );
            // Every other place reads as before, and nothing was attached.
            assert_eq!(
                root.read_configuration_register(1, 2, 0, 1),
                Some(0xDEAD_BEEF)
            );
            assert_eq!(root.read_configuration_register(1, 2, 0, 8), Some(0));
            assert_eq!(root.read_configuration_register(0, 0, 0, 9), Some(0));
            assert_eq!(root.read_configuration_register(1, 2, 1, 9), None);
            assert!(root.get_bus(2).is_none());
        }
    }
}

#[test]
fn routed_two_bytes_across_the_halves() {
    let mut root = PciBus::new_dummy(0);
    root.add_bus(child_with_device()).unwrap();
    root.write_configuration_register(1, 2, 0, 4, 0, &[0x44, 0x33, 0x22, 0x11]);

    root.write_configuration_register(1, 2, 0, 4, 1, &[0xAA, 0xBB]);

    assert_eq!(
        root.read_configuration_register(1, 2, 0, 4),
        Some(0x11BB_AA44)
    );
}

#[test]
fn write_that_reaches_nothing_changes_nothing() {
    let mut root = PciBus::new_dummy(0);
    root.add_bus(child_with_device()).unwrap();

    root.write_configuration_register(5, 0, 0, 1, 0, &[1, 2, 3, 4]);
    root.write_configuration_register(0, 9, 0, 1, 0, &[1, 2, 3, 4]);
    root.write_configuration_register(1, 2, 4, 1, 0, &[1, 2, 3, 4]);
    root.write_configuration_register(1, 2, 0, 1, 1, &[1, 2, 3, 4]);

    assert_eq!(root.read_configuration_register(0, 0, 0, 1), Some(0));
    assert_eq!(
        root.read_configuration_register(1, 2, 0, 1),
        Some(0xDEAD_BEEF)
    );
    assert!(root.get_bus(5).is_none());
    assert!(root.get_device(9).is_none());
}

#[test]
fn child_bus_and_device_changed_in_place() {
    let mut root = PciBus::new_dummy(0);
    root.add_bus(child_with_device()).unwrap();

    assert!(root.get_mut_bus(2).is_none());
    assert!(root.get_mut_device(1).is_none());

    let child = root.get_mut_bus(1).unwrap();
    child.write_configuration_register(1, 2, 0, 40, 0, &[0x0D, 0xF0, 0xFE, 0xCA]);
    let device = root.get_mut_device(0).unwrap();
    device.write_configuration_register(0, 41, 0, &[0x01]);

    assert_eq!(
        root.read_configuration_register(1, 2, 0, 40),
        Some(0xCAFE_F00D)
    );
    assert_eq!(root.read_configuration_register(0, 0, 0, 41), Some(1));
}

#[test]
fn removed_bus_is_returned() {
    let mut root = PciBus::new(0);
    root.add_bus(child_with_device()).unwrap();

    let child = root.remove_bus(1).unwrap();
    assert_eq!(child.get_number(), 1);
    assert_eq!(
        child.read_configuration_register(1, 2, 0, 1),
        Some(0xDEAD_BEEF)
    );
    assert!(root.remove_bus(1).is_none());
    assert_eq!(root.read_configuration_register(1, 2, 0, 1), None);
    assert!(root.add_bus(child).is_ok());
    assert_eq!(
        root.read_configuration_register(1, 2, 0, 1),
        Some(0xDEAD_BEEF)
    );
}
