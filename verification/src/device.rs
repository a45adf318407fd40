//! One PCI device: a slot of a bus that holds up to eight functions.

use vstd::prelude::*;
use std::collections::HashMap;
use std::collections::hash_map::Entry;
use crate::byte_order::{le_u32, read_le_u16, read_le_u32};
use crate::constants::MAX_FUNCTION_NUMBER;
use crate::function::{
    lemma_write_lanes_nothing, lemma_write_lanes_one_more, FunctionView, PciFunction,
};
use crate::register::{lanes, lemma_lanes_of_from_lanes, overlay, word_lanes};

verus! {

broadcast use vstd::std_specs::hash::group_hash_axioms;

/// Why a function could not be added to a device.
#[derive(Debug)]
pub enum PciDeviceError {
    /// The function's number is not below 8.
    InvalidPciFunctionNumber(usize),
    /// The device already holds a function with that number.
    AlreadyInUsePciFunctionSlot(usize),
}

/// What a device is: its number within the bus and its functions, each
/// under its function number.
pub ghost struct DeviceView {
    pub number: usize,
    pub functions: Map<usize, FunctionView>,
}

impl DeviceView {
    /// Every function stands under its own number, which is below 8, and has
    /// its whole configuration space.
    pub open spec fn wf(self) -> bool {
        &&& self.functions.dom().finite()
        &&& forall|k: usize| #[trigger]
            self.functions.contains_key(k) ==> {
                &&& k < MAX_FUNCTION_NUMBER
                &&& self.functions[k].number == k
                &&& self.functions[k].wf()
            }
    }

    /// The device with `function` added under its number, or the reason why
    /// it cannot be added.
    pub open spec fn add_function(self, function: FunctionView) -> Result<
        DeviceView,
        PciDeviceError,
    > {
        if function.number >= MAX_FUNCTION_NUMBER {
            Err(PciDeviceError::InvalidPciFunctionNumber(function.number))
        } else if self.functions.contains_key(function.number) {
            Err(PciDeviceError::AlreadyInUsePciFunctionSlot(function.number))
        } else {
            Ok(DeviceView { functions: self.functions.insert(function.number, function), ..self })
        }
    }

    /// The device without the function numbered `function`.
    pub open spec fn remove_function(self, function: usize) -> DeviceView {
        DeviceView { functions: self.functions.remove(function), ..self }
    }

    /// The register of the function, absent where the device has no such
    /// function or the function no such register.
    pub open spec fn read(self, function: usize, register: usize) -> Option<u32> {
        if self.functions.contains_key(function) {
            self.functions[function].read_dword(register)
        } else {
            None
        }
    }

    /// The device after a guest wrote `data` at byte `offset` of the
    /// register of the function. A device without that function stays as it
    /// is.
    pub open spec fn write(
        self,
        function: usize,
        register: usize,
        offset: usize,
        data: Seq<u8>,
    ) -> DeviceView {
        if self.functions.contains_key(function) {
            DeviceView {
                functions: self.functions.insert(
                    function,
                    self.functions[function].write(register, offset, data),
                ),
                ..self
            }
        } else {
            self
        }
    }
}

/// Each device must implement function 0 and may hold up to 8 functions,
/// which need not be numbered in sequence.
pub struct PciDevice {
    /// The number of the device within the bus.
    number: usize,
    /// The functions of this device, each under its number.
    functions: HashMap<usize, PciFunction>,
}

impl View for PciDevice {
    type V = DeviceView;

    closed spec fn view(&self) -> DeviceView {
        DeviceView {
            number: self.number,
            functions: function_views(self.functions@),
        }
    }
}

/// The functions of a device, each by its view.
spec fn function_views(functions: Map<usize, PciFunction>) -> Map<usize, FunctionView> {
    functions.map_values(|function: PciFunction| function@)
}

/// The views of the functions follow an insertion, and each function is
/// seen by its own view.
proof fn lemma_function_views_insert(
    functions: Map<usize, PciFunction>,
    number: usize,
    function: PciFunction,
)
    ensures
        function_views(functions.insert(number, function)) == function_views(functions).insert(
            number,
            function@,
        ),
        functions.contains_key(number) ==> function_views(functions)[number] == functions[number]@,
{
    assert(function_views(functions.insert(number, function)) =~= function_views(functions).insert(
        number,
        function@,
    ));
}

impl PciDevice {
    /// Creates a device without functions.
    pub fn new(number: usize) -> (device: PciDevice)
        ensures
            device@ == (DeviceView { number, functions: Map::empty() }),
            device@.wf(),
    {
        let device = PciDevice { number, functions: HashMap::new() };
        assert(device@.functions =~= Map::empty());
        device
    }

    /// The device numbered `number` whose only function is the dummy host
    /// bridge, as function 0.
    pub open spec fn dummy_host_bridge_view(number: usize) -> DeviceView {
        DeviceView {
            number,
            functions: map![0usize => PciFunction::dummy_host_bridge_view(0)],
        }
    }

    /// Creates a device whose function 0 is the dummy host bridge.
    pub fn new_dummy_host_bridge(number: usize) -> (device: PciDevice)
        ensures
            device@ == PciDevice::dummy_host_bridge_view(number),
            device@.wf(),
    {
        let mut device = PciDevice::new(number);
        let function = PciFunction::new_dummy_host_bridge(0);
        device.add_function(function).unwrap();
        assert(device@.functions =~= map![0usize => PciFunction::dummy_host_bridge_view(0)]);
        device
    }

    /// The number of this device.
    pub fn get_number(&self) -> (number: usize)
        ensures
            number == self@.number,
    {
        self.number
    }

    /// Adds a function to this device under the function's own number.
    pub fn add_function(&mut self, function: PciFunction) -> (result: Result<(), PciDeviceError>)
        ensures
            match old(self)@.add_function(function@) {
                Ok(device) => result is Ok && final(self)@ == device,
                Err(error) => result == Err::<(), PciDeviceError>(error) && final(self)@ == old(
                    self,
                )@,
            },
            old(self)@.wf() && function@.wf() ==> final(self)@.wf(),
    {
        let function_number = function.get_number();

        if function_number >= MAX_FUNCTION_NUMBER {
            return Err(PciDeviceError::InvalidPciFunctionNumber(function_number));
        }
        if self.functions.contains_key(&function_number) {
            return Err(PciDeviceError::AlreadyInUsePciFunctionSlot(function_number));
        }
        self.functions.insert(function_number, function);
        assert(self@.functions =~= old(self)@.functions.insert(function_number, function@));
        Ok(())
    }

    /// The function numbered `function`, if the device holds one.
    pub fn get_function(&self, function: usize) -> (result: Option<&PciFunction>)
        ensures
            result is Some <==> self@.functions.contains_key(function),
            result is Some ==> result->Some_0@ == self@.functions[function],
    {
        self.functions.get(&function)
    }

    /// The function numbered `function`, if the device holds one, to be
    /// changed in place. The device is well formed afterwards if the function
    /// still is and has kept its number.
    pub fn get_mut_function(&mut self, function: usize) -> (result: Option<&mut PciFunction>)
        ensures
            result is Some <==> old(self)@.functions.contains_key(function),
            match result {
                Some(target) => {
                    &&& target@ == old(self)@.functions[function]
                    &&& final(self)@ == (DeviceView {
                        functions: old(self)@.functions.insert(function, final(target)@),
                        ..old(self)@
                    })
                    &&& old(self)@.wf() && final(target)@.wf() && final(target)@.number
                        == function ==> final(self)@.wf()
                },
                None => final(self)@ == old(self)@,
            },
    {
        if !self.functions.contains_key(&function) {
            return None;
        }
        match self.functions.entry(function) {
            Entry::Occupied(entry) => {
                let target = entry.into_mut();
                proof {
                    lemma_function_views_insert(old(self).functions@, function, *final(target));
                }
                Some(target)
            },
            Entry::Vacant(_) => None,
        }
    }

    /// Takes the function numbered `function` out of the device and returns
    /// it, if the device holds one.
    pub fn remove_function(&mut self, function: usize) -> (result: Option<PciFunction>)
        ensures
            final(self)@ == old(self)@.remove_function(function),
            result is Some <==> old(self)@.functions.contains_key(function),
            result is Some ==> result->Some_0@ == old(self)@.functions[function],
            old(self)@.wf() ==> final(self)@.wf(),
    {
        let result = self.functions.remove(&function);
        assert(self@.functions =~= old(self)@.functions.remove(function));
        result
    }

    /// Reads a register of a function of this device.
    pub fn read_configuration_register(&self, function: usize, register: usize) -> (value: Option<
        u32,
    >)
        ensures
            value == self@.read(function, register),
    {
        match self.functions.get(&function) {
            Some(function) => function.read_configuration_dword(register),
            None => None,
        }
    }

    /// Writes `data` at byte `offset` of a register of a function of this
    /// device: the bytes replace the lanes they cover, and the other lanes
    /// stay as they were. Nothing is written where the bytes would pass the
    /// end of the register or where the device has no such function.
    pub fn write_configuration_register(
        &mut self,
        function: usize,
        register: usize,
        offset: usize,
        data: &[u8],
    )
        ensures
            final(self)@ == old(self)@.write(function, register, offset, data@),
            old(self)@.wf() ==> final(self)@.wf(),
            offset + data@.len() <= 4 && old(self)@.read(function, register) is Some ==> {
                &&& final(self)@.read(function, register) is Some
                &&& lanes(final(self)@.read(function, register)->Some_0) == overlay(
                    lanes(old(self)@.read(function, register)->Some_0),
                    offset as int,
                    data@,
                )
            },
    {
        proof {
            if offset + data@.len() <= 4 && self@.read(function, register) is Some {
                lemma_write_replaces_covered_lanes(self@, function, register, offset, data@);
            }
        }
        // Bytes that would pass the end of the register are dropped.
        if offset > 4 || data.len() > 4 - offset {
            assert(self@.functions =~= old(self)@.write(
                function,
                register,
                offset,
                data@,
            ).functions);
            return ;
        }
        match self.functions.entry(function) {
            Entry::Occupied(entry) => {
                let target = entry.into_mut();
                write_function_register(target, register, offset, data);
            },
            Entry::Vacant(_) => {},
        }
        assert(self@.functions =~= old(self)@.write(function, register, offset, data@).functions);
    }
}

/// Writes `data` at byte `offset` of a register of `function`, by the
/// writer that fits the shape: one byte, one half-word where the two bytes
/// fill a half, one dword, or else byte by byte.
fn write_function_register(function: &mut PciFunction, register: usize, offset: usize, data: &[u8])
    requires
        offset + data@.len() <= 4,
    ensures
        final(function)@ == old(function)@.write(register, offset, data@),
        old(function)@.wf() ==> final(function)@.wf(),
{
    let length = data.len();
    let ghost before = function@;
    if length == 1 {
        assert(data@ =~= seq![data@[0]]);
        function.write_configuration_byte(register, offset, data[0]);
    } else if length == 2 && offset % 2 == 0 {
        let word = read_le_u16(data);
        assert(word_lanes(word) =~= data@);
        function.write_configuration_word(register, offset / 2, word);
    } else if length == 4 {
        let dword = read_le_u32(data);
        proof {
            if register < before.registers.len() {
                assert(overlay(lanes(before.registers[register as int]), 0, data@) =~= data@);
            }
        }
        function.write_configuration_dword(register, dword);
    } else {
        let mut index: usize = 0;
        proof {
            lemma_write_lanes_nothing(before, register, offset as int);
            assert(data@.subrange(0, 0) =~= Seq::<u8>::empty());
        }
        while index < length
            invariant
                index <= length,
                length == data@.len(),
                offset + length <= 4,
                function@ == before.write_lanes(
                    register,
                    offset as int,
                    data@.subrange(0, index as int),
                ),
                before.wf() ==> function@.wf(),
            decreases length - index,
        {
            proof {
                lemma_write_lanes_one_more(before, register, offset, data@, index as int);
            }
            function.write_configuration_byte(register, offset + index, data[index]);
            index += 1;
        }
        assert(data@.subrange(0, length as int) =~= data@);
    }
}

impl DeviceView {
    /// Whether `other` has the same number and the same functions under the
    /// same numbers, each with as many registers.
    pub open spec fn same_slots(self, other: DeviceView) -> bool {
        &&& self.number == other.number
        &&& self.functions.dom() == other.functions.dom()
        &&& forall|k: usize| #[trigger]
            self.functions.contains_key(k) ==> {
                &&& self.functions[k].number == other.functions[k].number
                &&& self.functions[k].registers.len() == other.functions[k].registers.len()
            }
    }
}

/// A write through the device replaces exactly the lanes it covers. Where
/// the bytes stay within a register that the device has, the register
/// afterwards holds them in lanes `offset` to `offset + data.len()` and its
/// old bytes in the other lanes; every other register of every function
/// reads as before, and the device holds the same functions. Four bytes make
/// the register their little-endian value.
pub proof fn lemma_write_replaces_covered_lanes(
    device: DeviceView,
    function: usize,
    register: usize,
    offset: usize,
    data: Seq<u8>,
)
    requires
        offset + data.len() <= 4,
        device.read(function, register) is Some,
    ensures
        ({
            let before = device.read(function, register)->Some_0;
            let after = device.write(function, register, offset, data);
            &&& after.read(function, register) is Some
            &&& lanes(after.read(function, register)->Some_0) == overlay(
                lanes(before),
                offset as int,
                data,
            )
            &&& forall|f: usize, r: usize|
                f != function || r != register ==> #[trigger] after.read(f, r) == device.read(f, r)
            &&& device.same_slots(after)
            &&& data.len() == 4 ==> after.read(function, register) == Some(le_u32(data))
        }),
{
    let before = device.functions[function].registers[register as int];
    let after = device.write(function, register, offset, data);
    lemma_lanes_of_from_lanes(overlay(lanes(before), offset as int, data));
    assert(after.functions.dom() =~= device.functions.dom());
    if data.len() == 4 {
        assert(overlay(lanes(before), 0, data) =~= data);
    }
}

} // verus!
