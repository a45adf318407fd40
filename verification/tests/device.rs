use pci::byte_order::{read_le_u16, read_le_u32};
use pci::constants::MAX_FUNCTION_NUMBER;
use pci::device::{PciDevice, PciDeviceError};
use pci::function::PciFunction;
use std::time::{SystemTime, UNIX_EPOCH};

/// A 32-bit value that differs from run to run.
fn xor_rng_u32() -> u32 {
    let nanos = SystemTime::now()
        .duration_since(UNIX_EPOCH)
        .map(|elapsed| elapsed.subsec_nanos())
        .unwrap_or(0x9E37_79B9);
    let mut state = nanos | 1;
    state ^= state << 13;
    state ^= state >> 17;
    state ^= state << 5;
    state
}

fn get_function(function: usize) -> PciFunction {
    PciFunction::new_dummy_host_bridge(function)
}

#[test]
fn device_function_add_get_remove() {
    let mut device = PciDevice::new(0);

    for function in 0..MAX_FUNCTION_NUMBER {
        assert!(device.add_function(get_function(function)).is_ok());
        assert!(device.get_function(function).is_some());
    }

    assert!(device
        .add_function(PciFunction::new_dummy_host_bridge(MAX_FUNCTION_NUMBER))
        .is_err());

    for function in 0..MAX_FUNCTION_NUMBER {
        device.remove_function(function);
        assert!(device.get_function(function).is_none());
    }
}

#[test]
fn device_configuration_normal_read() {
    let mut device = PciDevice::new(0);
    let data = [xor_rng_u32() as u8; 4];

    device.add_function(get_function(0)).unwrap();
    device.write_configuration_register(0, 1, 0, &data);

    assert_eq!(
        device.read_configuration_register(0, 1),
        Some(read_le_u32(&data))
    );
}

#[test]
fn device_configuration_function_read() {
    let mut device = PciDevice::new(0);
    let data = [xor_rng_u32() as u8; 4];

    device.add_function(get_function(0)).unwrap();
    device.write_configuration_register(0, 1, 0, &data);

    let function = device.get_function(0).unwrap();
    assert_eq!(
        function.read_configuration_dword(1),
        Some(read_le_u32(&data))
    );
}

#[test]
fn little_endian_decoding() {
    assert_eq!(read_le_u16(&[0x34, 0x12]), 0x1234);
    assert_eq!(read_le_u16(&[0xFF, 0x00, 0x77]), 0x00FF);
    assert_eq!(read_le_u32(&[0x78, 0x56, 0x34, 0x12]), 0x1234_5678);
    assert_eq!(read_le_u32(&[0xFF, 0xFF, 0xFF, 0xFF]), 0xFFFF_FFFF);
    assert_eq!(read_le_u32(&[0x01, 0x00, 0x00, 0x80, 0x55]), 0x8000_0001);
}

#[test]
fn device_number_is_kept() {
    assert_eq!(PciDevice::new(17).get_number(), 17);
    assert_eq!(PciDevice::new_dummy_host_bridge(4).get_number(), 4);
}

#[test]
fn dummy_host_bridge_device_holds_function_zero() {
    let device = PciDevice::new_dummy_host_bridge(9);

    assert!(device.get_function(0).is_some());
    for function in 1..MAX_FUNCTION_NUMBER {
        assert!(device.get_function(function).is_none());
    }
    assert_eq!(device.read_configuration_register(0, 0), Some(0x1452_1D94));
    assert_eq!(device.read_configuration_register(0, 2), Some(0x0600_0000));
}

#[test]
fn add_function_errors() {
    let mut device = PciDevice::new(0);

    assert!(matches!(
        device.add_function(get_function(8)),
        Err(PciDeviceError::InvalidPciFunctionNumber(8))
    ));
    assert!(matches!(
        device.add_function(get_function(usize::MAX)),
        Err(PciDeviceError::InvalidPciFunctionNumber(usize::MAX))
    ));
    assert!(device.add_function(get_function(7)).is_ok());
    assert!(matches!(
        device.add_function(get_function(7)),
        Err(PciDeviceError::AlreadyInUsePciFunctionSlot(7))
    ));
    assert!(device.get_function(7).is_some());
}

#[test]
fn removed_function_is_returned_and_slot_reusable() {
    let mut device = PciDevice::new(0);
    device.add_function(get_function(2)).unwrap();
    device.write_configuration_register(2, 5, 0, &[1, 2, 3, 4]);

    let removed = device.remove_function(2).unwrap();
    assert_eq!(removed.get_number(), 2);
    assert_eq!(removed.read_configuration_dword(5), Some(0x0403_0201));
    assert!(device.remove_function(2).is_none());
    assert!(device.get_function(2).is_none());

    assert!(device.add_function(get_function(2)).is_ok());
    assert_eq!(device.read_configuration_register(2, 5), Some(0));
}

#[test]
fn sparse_function_numbers() {
    let mut device = PciDevice::new(0);
    for function in [0usize, 2, 7] {
        device.add_function(get_function(function)).unwrap();
    }

    for function in 0..MAX_FUNCTION_NUMBER {
        let present = function == 0 || function == 2 || function == 7;
        assert_eq!(device.get_function(function).is_some(), present);
        assert_eq!(
            device.read_configuration_register(function, 0).is_some(),
            present
        );
    }
}

#[test]
fn read_of_missing_function_or_register_is_absent() {
    let device = PciDevice::new_dummy_host_bridge(0);

    assert_eq!(device.read_configuration_register(1, 0), None);
    assert_eq!(device.read_configuration_register(0, 1024), None);
    assert_eq!(device.read_configuration_register(0, 1023), Some(0));
}

#[test]
fn write_dispatch_by_length() {
    let mut device = PciDevice::new_dummy_host_bridge(0);
    device.write_configuration_register(0, 4, 0, &[0x44, 0x33, 0x22, 0x11]);
    assert_eq!(device.read_configuration_register(0, 4), Some(0x1122_3344));

    // One byte, at each offset.
    device.write_configuration_register(0, 4, 1, &[0xAA]);
    assert_eq!(device.read_configuration_register(0, 4), Some(0x1122_AA44));
    device.write_configuration_register(0, 4, 3, &[0xBB]);
    assert_eq!(device.read_configuration_register(0, 4), Some(0xBB22_AA44));

    // Two bytes, at each offset.
    device.write_configuration_register(0, 4, 0, &[0xCD, 0xAB]);
    assert_eq!(device.read_configuration_register(0, 4), Some(0xBB22_ABCD));
    device.write_configuration_register(0, 4, 2, &[0x21, 0x43]);
    assert_eq!(device.read_configuration_register(0, 4), Some(0x4321_ABCD));
    device.write_configuration_register(0, 4, 1, &[0x66, 0x77]);
    assert_eq!(device.read_configuration_register(0, 4), Some(0x4377_66CD));
    device.write_configuration_register(0, 4, 0, &[0xCD, 0xAB]);
    device.write_configuration_register(0, 4, 2, &[0x21, 0x43]);
    assert_eq!(device.read_configuration_register(0, 4), Some(0x4321_ABCD));

    // Three bytes go byte by byte.
    device.write_configuration_register(0, 4, 0, &[0x01, 0x02, 0x03]);
    assert_eq!(device.read_configuration_register(0, 4), Some(0x4303_0201));
    device.write_configuration_register(0, 4, 1, &[0x0A, 0x0B, 0x0C]);
    assert_eq!(device.read_configuration_register(0, 4), Some(0x0C0B_0A01));

    // No bytes change nothing.
    device.write_configuration_register(0, 4, 0, &[]);
    device.write_configuration_register(0, 4, 4, &[]);
    assert_eq!(device.read_configuration_register(0, 4), Some(0x0C0B_0A01));
}

#[test]
fn two_bytes_across_the_halves() {
    let mut device = PciDevice::new_dummy_host_bridge(0);
    device.write_configuration_register(0, 4, 0, &[0x44, 0x33, 0x22, 0x11]);
    device.write_configuration_register(0, 5, 0, &[0x88, 0x77, 0x66, 0x55]);

    device.write_configuration_register(0, 4, 1, &[0xAA, 0xBB]);

    assert_eq!(device.read_configuration_register(0, 4), Some(0x11BB_AA44));
    assert_eq!(device.read_configuration_register(0, 5), Some(0x5566_7788));
    assert_eq!(device.read_configuration_register(0, 0), Some(0x1452_1D94));
}

#[test]
fn every_write_of_one_two_or_four_bytes_replaces_its_lanes() {
    let old: u32 = 0x1122_3344;
    let data = [0xA1u8, 0xB2, 0xC3, 0xD4];

    for length in [1usize, 2, 4] {
        for offset in 0..=(4 - length) {
            let mut device = PciDevice::new_dummy_host_bridge(0);
            device.write_configuration_register(0, 4, 0, &old.to_le_bytes());
            device.write_configuration_register(0, 4, offset, &data[..length]);

            let mut expected = old.to_le_bytes();
            expected[offset..offset + length].copy_from_slice(&data[..length]);
            assert_eq!(
                device.read_configuration_register(0, 4),
                Some(u32::from_le_bytes(expected))
            );
            assert_eq!(device.read_configuration_register(0, 3), Some(0));
            assert_eq!(device.read_configuration_register(0, 5), Some(0));
        }
    }
}

#[test]
fn malformed_writes_are_dropped() {
    let mut device = PciDevice::new_dummy_host_bridge(0);
    device.write_configuration_register(0, 4, 0, &[0x44, 0x33, 0x22, 0x11]);

    // Bytes that would pass the end of the register.
    device.write_configuration_register(0, 4, 1, &[1, 2, 3, 4]);
    device.write_configuration_register(0, 4, 3, &[1, 2]);
    device.write_configuration_register(0, 4, 4, &[1]);
    device.write_configuration_register(0, 4, 2, &[1, 2, 3]);
    device.write_configuration_register(0, 4, 0, &[1, 2, 3, 4, 5]);
    device.write_configuration_register(0, 4, usize::MAX, &[1]);
    // A function or a register that is not there.
    device.write_configuration_register(1, 4, 0, &[1, 2, 3, 4]);
    device.write_configuration_register(0, 1024, 0, &[1, 2, 3, 4]);

    assert_eq!(device.read_configuration_register(0, 4), Some(0x1122_3344));
    assert_eq!(device.read_configuration_register(0, 5), Some(0));
    assert!(device.get_function(1).is_none());
}

#[test]
fn function_changed_in_place() {
    let mut device = PciDevice::new_dummy_host_bridge(0);

    assert!(device.get_mut_function(3).is_none());
    let function = device.get_mut_function(0).unwrap();
    function.write_configuration_dword(30, 0xCAFE_F00D);

    assert_eq!(device.read_configuration_register(0, 30), Some(0xCAFE_F00D));
}
