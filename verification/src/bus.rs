//! One PCI bus: a numbered node of the topology that holds devices and
//! bridges to further buses.

use vstd::prelude::*;
use vstd::set_lib::{lemma_len_subset, lemma_subset_equality};
use std::collections::HashMap;
use std::collections::hash_map::Entry;
use crate::constants::{MAX_BUS_NUMBER, MAX_DEVICE_NUMBER};
use crate::device::{lemma_write_replaces_covered_lanes, DeviceView, PciDevice};
use crate::register::{lanes, overlay};

verus! {

broadcast use vstd::std_specs::hash::group_hash_axioms;

/// Why a bus or a device could not be added to a bus.
#[derive(Debug)]
pub enum PciBusError {
    /// The bus's number is not below 256.
    InvalidPciBusNumber(usize),
    /// The bus already bridges to a bus with that number.
    AlreadyInUsePciBusSlot(usize),
    /// The device's number is not below 32.
    InvalidPciDeviceNumber(usize),
    /// The bus already holds a device with that number.
    AlreadyInUsePciDeviceSlot(usize),
}

/// What a bus is: its number, the buses behind it and its devices, each
/// under its own number.
pub ghost struct BusView {
    pub number: usize,
    pub buses: Map<usize, BusView>,
    pub devices: Map<usize, DeviceView>,
}

impl BusView {
    /// Every child bus and every device stands under its own number, which is
    /// below its limit, and is itself well formed.
    pub open spec fn wf(self) -> bool
        decreases self,
    {
        &&& self.buses.dom().finite()
        &&& self.devices.dom().finite()
        &&& forall|k: usize| #[trigger]
            self.buses.contains_key(k) ==> {
                &&& k < MAX_BUS_NUMBER
                &&& self.buses[k].number == k
                &&& self.buses[k].wf()
            }
        &&& forall|k: usize| #[trigger]
            self.devices.contains_key(k) ==> {
                &&& k < MAX_DEVICE_NUMBER
                &&& self.devices[k].number == k
                &&& self.devices[k].wf()
            }
    }

    /// The bus with `bus` added behind it under its number, or the reason why
    /// it cannot be added.
    pub open spec fn add_bus(self, bus: BusView) -> Result<BusView, PciBusError> {
        if bus.number >= MAX_BUS_NUMBER {
            Err(PciBusError::InvalidPciBusNumber(bus.number))
        } else if self.buses.contains_key(bus.number) {
            Err(PciBusError::AlreadyInUsePciBusSlot(bus.number))
        } else {
            Ok(BusView { buses: self.buses.insert(bus.number, bus), ..self })
        }
    }

    /// The bus without the child bus numbered `bus`.
    pub open spec fn remove_bus(self, bus: usize) -> BusView {
        BusView { buses: self.buses.remove(bus), ..self }
    }

    /// The bus with `device` added under its number, or the reason why it
    /// cannot be added.
    pub open spec fn add_device(self, device: DeviceView) -> Result<BusView, PciBusError> {
        if device.number >= MAX_DEVICE_NUMBER {
            Err(PciBusError::InvalidPciDeviceNumber(device.number))
        } else if self.devices.contains_key(device.number) {
            Err(PciBusError::AlreadyInUsePciDeviceSlot(device.number))
        } else {
            Ok(BusView { devices: self.devices.insert(device.number, device), ..self })
        }
    }

    /// The bus without the device numbered `device`.
    pub open spec fn remove_device(self, device: usize) -> BusView {
        BusView { devices: self.devices.remove(device), ..self }
    }

    /// The register that an access to (`bus`, `device`, `function`,
    /// `register`) reaches from this bus. An access to this bus's own number
    /// is resolved among its devices; any other goes to the child bus of that
    /// number, which resolves it in the same way; without such a child it
    /// reaches nothing.
    pub open spec fn read(self, bus: usize, device: usize, function: usize, register: usize) -> Option<
        u32,
    >
        decreases self,
    {
        if bus == self.number {
            if self.devices.contains_key(device) {
                self.devices[device].read(function, register)
            } else {
                None
            }
        } else if self.buses.contains_key(bus) {
            self.buses[bus].read(bus, device, function, register)
        } else {
            None
        }
    }

    /// The bus after a guest wrote `data` at byte `offset` of the register
    /// that the access reaches, routed as a read is. A write that reaches
    /// nothing changes nothing.
    pub open spec fn write(
        self,
        bus: usize,
        device: usize,
        function: usize,
        register: usize,
        offset: usize,
        data: Seq<u8>,
    ) -> BusView
        decreases self,
    {
        if bus == self.number {
            if self.devices.contains_key(device) {
                BusView {
                    devices: self.devices.insert(
                        device,
                        self.devices[device].write(function, register, offset, data),
                    ),
                    ..self
                }
            } else {
                self
            }
        } else if self.buses.contains_key(bus) {
            BusView {
                buses: self.buses.insert(
                    bus,
                    self.buses[bus].write(bus, device, function, register, offset, data),
                ),
                ..self
            }
        } else {
            self
        }
    }
}

/// Each bus has a number of its own. Bus 0 is the one that the root complex
/// holds.
pub struct PciBus {
    /// The number of the bus.
    number: usize,
    /// The buses behind this bus, each under its number.
    buses: HashMap<usize, PciBus>,
    /// The devices on this bus, each under its number.
    devices: HashMap<usize, PciDevice>,
}

impl View for PciBus {
    type V = BusView;

    closed spec fn view(&self) -> BusView
        decreases self,
    {
        BusView {
            number: self.number,
            buses: bus_views(self.buses@),
            devices: device_views(self.devices@),
        }
    }
}

/// The child buses of a bus, each by its view.
spec fn bus_views(buses: Map<usize, PciBus>) -> Map<usize, BusView>
    decreases buses,
{
    Map::new(
        |k: usize| buses.contains_key(k),
        |k: usize|
            if buses.dom().finite() && buses.contains_key(k) {
                buses[k].view()
            } else {
                arbitrary()
            },
    )
}

/// The devices of a bus, each by its view.
spec fn device_views(devices: Map<usize, PciDevice>) -> Map<usize, DeviceView> {
    devices.map_values(|device: PciDevice| device@)
}

/// The views of the child buses follow an insertion, and each child is
/// seen by its own view.
proof fn lemma_bus_views_insert(buses: Map<usize, PciBus>, number: usize, bus: PciBus)
    requires
        buses.dom().finite(),
    ensures
        bus_views(buses.insert(number, bus)) == bus_views(buses).insert(number, bus@),
        bus_views(buses).dom() == buses.dom(),
        buses.contains_key(number) ==> bus_views(buses)[number] == buses[number]@,
{
    assert(bus_views(buses.insert(number, bus)) =~= bus_views(buses).insert(number, bus@));
    assert(bus_views(buses).dom() =~= buses.dom());
}

/// The views of the child buses stand under the same numbers as the buses.
proof fn lemma_bus_views_domain(buses: Map<usize, PciBus>)
    ensures
        bus_views(buses).dom() == buses.dom(),
{
    assert(bus_views(buses).dom() =~= buses.dom());
}

/// The views of the child buses follow a removal.
proof fn lemma_bus_views_remove(buses: Map<usize, PciBus>, number: usize)
    requires
        buses.dom().finite(),
    ensures
        bus_views(buses.remove(number)) == bus_views(buses).remove(number),
{
    assert(bus_views(buses.remove(number)) =~= bus_views(buses).remove(number));
}

/// The views of the devices follow an insertion, and each device is seen by
/// its own view.
proof fn lemma_device_views_insert(
    devices: Map<usize, PciDevice>,
    number: usize,
    device: PciDevice,
)
    ensures
        device_views(devices.insert(number, device)) == device_views(devices).insert(
            number,
            device@,
        ),
        device_views(devices).dom() == devices.dom(),
        devices.contains_key(number) ==> device_views(devices)[number] == devices[number]@,
{
    assert(device_views(devices.insert(number, device)) =~= device_views(devices).insert(
        number,
        device@,
    ));
    assert(device_views(devices).dom() =~= devices.dom());
}

impl PciBus {
    /// Creates a bus without devices and without buses behind it.
    pub fn new(number: usize) -> (bus: PciBus)
        ensures
            bus@ == (BusView { number, buses: Map::empty(), devices: Map::empty() }),
            bus@.wf(),
    {
        let bus = PciBus { number, buses: HashMap::new(), devices: HashMap::new() };
        assert(bus@.buses =~= Map::empty());
        assert(bus@.devices =~= Map::empty());
        bus
    }

    /// Creates a bus whose slot 0 holds the dummy host bridge device.
    pub fn new_dummy(number: usize) -> (bus: PciBus)
        ensures
            bus@ == (BusView {
                number,
                buses: Map::empty(),
                devices: map![0usize => PciDevice::dummy_host_bridge_view(0)],
            }),
            bus@.wf(),
    {
        let mut bus = PciBus::new(number);
        let device = PciDevice::new_dummy_host_bridge(0);
        bus.add_device(device).unwrap();
        assert(bus@.devices =~= map![0usize => PciDevice::dummy_host_bridge_view(0)]);
        bus
    }

    /// The number of this bus.
    pub fn get_number(&self) -> (number: usize)
        ensures
            number == self@.number,
    {
        self.number
    }

    /// Adds a bus behind this bus under the new bus's own number.
    pub fn add_bus(&mut self, bus: PciBus) -> (result: Result<(), PciBusError>)
        ensures
            match old(self)@.add_bus(bus@) {
                Ok(parent) => result is Ok && final(self)@ == parent,
                Err(error) => result == Err::<(), PciBusError>(error) && final(self)@ == old(self)@,
            },
            old(self)@.wf() && bus@.wf() ==> final(self)@.wf(),
    {
        let bus_number = bus.get_number();

        if bus_number >= MAX_BUS_NUMBER {
            return Err(PciBusError::InvalidPciBusNumber(bus_number));
        }
        proof {
            lemma_bus_views_insert(self.buses@, bus_number, bus);
        }
        if self.buses.contains_key(&bus_number) {
            return Err(PciBusError::AlreadyInUsePciBusSlot(bus_number));
        }
        self.buses.insert(bus_number, bus);
        Ok(())
    }

    /// The child bus numbered `bus`, if there is one.
    pub fn get_bus(&self, bus: usize) -> (result: Option<&PciBus>)
        ensures
            result is Some <==> self@.buses.contains_key(bus),
            result is Some ==> result->Some_0@ == self@.buses[bus],
    {
        let result = self.buses.get(&bus);
        proof {
            if let Some(child) = result {
                lemma_bus_views_insert(self.buses@, bus, *child);
            } else {
                lemma_bus_views_domain(self.buses@);
            }
        }
        result
    }

    /// The child bus numbered `bus`, if there is one, to be changed in
    /// place. This bus is well formed afterwards if the child still is and
    /// has kept its number.
    pub fn get_mut_bus(&mut self, bus: usize) -> (result: Option<&mut PciBus>)
        ensures
            result is Some <==> old(self)@.buses.contains_key(bus),
            match result {
                Some(child) => {
                    &&& child@ == old(self)@.buses[bus]
                    &&& final(self)@ == (BusView {
                        buses: old(self)@.buses.insert(bus, final(child)@),
                        ..old(self)@
                    })
                    &&& old(self)@.wf() && final(child)@.wf() && final(child)@.number == bus
                        ==> final(self)@.wf()
                },
                None => final(self)@ == old(self)@,
            },
    {
        if !self.buses.contains_key(&bus) {
            proof {
                lemma_bus_views_domain(self.buses@);
            }
            return None;
        }
        match self.buses.entry(bus) {
            Entry::Occupied(entry) => {
                let child = entry.into_mut();
                proof {
                    lemma_bus_views_insert(old(self).buses@, bus, *final(child));
                }
                Some(child)
            },
            Entry::Vacant(_) => None,
        }
    }

    /// Takes the child bus numbered `bus` away and returns it, if there is
    /// one.
    pub fn remove_bus(&mut self, bus: usize) -> (result: Option<PciBus>)
        ensures
            final(self)@ == old(self)@.remove_bus(bus),
            result is Some <==> old(self)@.buses.contains_key(bus),
            result is Some ==> result->Some_0@ == old(self)@.buses[bus],
            old(self)@.wf() ==> final(self)@.wf(),
    {
        proof {
            lemma_bus_views_remove(self.buses@, bus);
            if self.buses@.contains_key(bus) {
                lemma_bus_views_insert(self.buses@, bus, self.buses@[bus]);
            } else {
                lemma_bus_views_domain(self.buses@);
            }
        }
        self.buses.remove(&bus)
    }

    /// Adds a device to this bus under the device's own number.
    pub fn add_device(&mut self, device: PciDevice) -> (result: Result<(), PciBusError>)
        ensures
            match old(self)@.add_device(device@) {
                Ok(bus) => result is Ok && final(self)@ == bus,
                Err(error) => result == Err::<(), PciBusError>(error) && final(self)@ == old(self)@,
            },
            old(self)@.wf() && device@.wf() ==> final(self)@.wf(),
    {
        let device_number = device.get_number();

        if device_number >= MAX_DEVICE_NUMBER {
            return Err(PciBusError::InvalidPciDeviceNumber(device_number));
        }
        proof {
            lemma_device_views_insert(self.devices@, device_number, device);
        }
        if self.devices.contains_key(&device_number) {
            return Err(PciBusError::AlreadyInUsePciDeviceSlot(device_number));
        }
        self.devices.insert(device_number, device);
        Ok(())
    }

    /// The device numbered `device`, if the bus holds one.
    pub fn get_device(&self, device: usize) -> (result: Option<&PciDevice>)
        ensures
            result is Some <==> self@.devices.contains_key(device),
            result is Some ==> result->Some_0@ == self@.devices[device],
    {
        self.devices.get(&device)
    }

    /// The device numbered `device`, if the bus holds one, to be changed in
    /// place. This bus is well formed afterwards if the device still is and
    /// has kept its number.
    pub fn get_mut_device(&mut self, device: usize) -> (result: Option<&mut PciDevice>)
        ensures
            result is Some <==> old(self)@.devices.contains_key(device),
            match result {
                Some(target) => {
                    &&& target@ == old(self)@.devices[device]
                    &&& final(self)@ == (BusView {
                        devices: old(self)@.devices.insert(device, final(target)@),
                        ..old(self)@
                    })
                    &&& old(self)@.wf() && final(target)@.wf() && final(target)@.number
                        == device ==> final(self)@.wf()
                },
                None => final(self)@ == old(self)@,
            },
    {
        if !self.devices.contains_key(&device) {
            return None;
        }
        match self.devices.entry(device) {
            Entry::Occupied(entry) => {
                let target = entry.into_mut();
                proof {
                    lemma_device_views_insert(old(self).devices@, device, *final(target));
                }
                Some(target)
            },
            Entry::Vacant(_) => None,
        }
    }

    /// Takes the device numbered `device` off the bus and returns it, if the
    /// bus holds one.
    pub fn remove_device(&mut self, device: usize) -> (result: Option<PciDevice>)
        ensures
            final(self)@ == old(self)@.remove_device(device),
            result is Some <==> old(self)@.devices.contains_key(device),
            result is Some ==> result->Some_0@ == old(self)@.devices[device],
            old(self)@.wf() ==> final(self)@.wf(),
    {
        let result = self.devices.remove(&device);
        assert(self@.devices =~= old(self)@.devices.remove(device));
        result
    }

    /// Reads the register that the access reaches: on this bus if `bus` is
    /// its number, else behind the child bus of that number.
    pub fn read_configuration_register(
        &self,
        bus: usize,
        device: usize,
        function: usize,
        register: usize,
    ) -> (value: Option<u32>)
        ensures
            value == self@.read(bus, device, function, register),
        decreases self,
    {
        if bus == self.number {
            return match self.devices.get(&device) {
                Some(device) => device.read_configuration_register(function, register),
                None => None,
            };
        }
        match self.buses.get(&bus) {
            Some(bridge) => {
                proof {
                    lemma_bus_views_insert(self.buses@, bus, *bridge);
                }
                bridge.read_configuration_register(bus, device, function, register)
            },
            None => {
                proof {
                    lemma_bus_views_domain(self.buses@);
                }
                None
            },
        }
    }

    /// Writes `data` at byte `offset` of the register that the access
    /// reaches, routed as a read is. Nothing is written where the access
    /// reaches nothing.
    pub fn write_configuration_register(
        &mut self,
        bus: usize,
        device: usize,
        function: usize,
        register: usize,
        offset: usize,
        data: &[u8],
    )
        ensures
            final(self)@ == old(self)@.write(bus, device, function, register, offset, data@),
            old(self)@.wf() ==> final(self)@.wf(),
            offset + data@.len() <= 4 && old(self)@.read(bus, device, function, register) is Some
                ==> {
                &&& final(self)@.read(bus, device, function, register) is Some
                &&& lanes(final(self)@.read(bus, device, function, register)->Some_0) == overlay(
                    lanes(old(self)@.read(bus, device, function, register)->Some_0),
                    offset as int,
                    data@,
                )
            },
        decreases *old(self),
    {
        proof {
            if offset + data@.len() <= 4 && self@.read(bus, device, function, register) is Some {
                lemma_routed_write_replaces_covered_lanes(
                    self@,
                    bus,
                    device,
                    function,
                    register,
                    offset,
                    data@,
                );
            }
        }
        if bus == self.number {
            match self.devices.entry(device) {
                Entry::Occupied(entry) => {
                    let target = entry.into_mut();
                    target.write_configuration_register(function, register, offset, data);
                },
                Entry::Vacant(_) => {},
            }
            assert(self@.devices =~= old(self)@.write(
                bus,
                device,
                function,
                register,
                offset,
                data@,
            ).devices);
            return ;
        }
        match self.buses.entry(bus) {
            Entry::Occupied(entry) => {
                let bridge = entry.into_mut();
                bridge.write_configuration_register(bus, device, function, register, offset, data);
                proof {
                    lemma_bus_views_insert(old(self).buses@, bus, *bridge);
                }
            },
            Entry::Vacant(_) => {
                proof {
                    lemma_bus_views_domain(old(self).buses@);
                }
            },
        }
        proof {
            if !old(self).buses@.contains_key(bus) {
                assert(self.buses@ =~= old(self).buses@);
            }
        }
        assert(self@.buses =~= old(self)@.write(
            bus,
            device,
            function,
            register,
            offset,
            data@,
        ).buses);
    }
}

/// Routing of a read that is not for this bus's own number: it gives what
/// the same read gives at the child bus of that number, and nothing where no
/// such child is attached.
pub proof fn lemma_read_is_routed(
    bus: BusView,
    target: usize,
    device: usize,
    function: usize,
    register: usize,
)
    requires
        target != bus.number,
    ensures
        bus.buses.contains_key(target) ==> bus.read(target, device, function, register)
            == bus.buses[target].read(target, device, function, register),
        !bus.buses.contains_key(target) ==> bus.read(target, device, function, register) is None,
{
}

/// In a well-formed bus a child stands under its own number, so an access
/// that is routed to a child is resolved among that child's devices.
pub proof fn lemma_routed_read_ends_at_the_child(
    bus: BusView,
    target: usize,
    device: usize,
    function: usize,
    register: usize,
)
    requires
        bus.wf(),
        target != bus.number,
        bus.buses.contains_key(target),
    ensures
        bus.read(target, device, function, register) == (if bus.buses[target].devices.contains_key(
            device,
        ) {
            bus.buses[target].devices[device].read(function, register)
        } else {
            None
        }),
{
    let child = bus.buses[target];
    assert(child.number == target);
    assert(bus.read(target, device, function, register) == child.read(
        target,
        device,
        function,
        register,
    ));
}

impl BusView {
    /// Whether `other` has the same number, the same devices with the same
    /// functions, and behind it the same buses, each with the same topology
    /// in turn.
    pub open spec fn same_topology(self, other: BusView) -> bool
        decreases self,
    {
        &&& self.number == other.number
        &&& self.devices.dom() == other.devices.dom()
        &&& forall|k: usize| #[trigger]
            self.devices.contains_key(k) ==> self.devices[k].same_slots(other.devices[k])
        &&& self.buses.dom() == other.buses.dom()
        &&& forall|k: usize| #[trigger]
            self.buses.contains_key(k) ==> self.buses[k].same_topology(other.buses[k])
    }
}

/// Every bus has the topology that it has.
pub proof fn lemma_same_topology_reflexive(bus: BusView)
    ensures
        bus.same_topology(bus),
    decreases bus,
{
    assert forall|k: usize| #[trigger] bus.buses.contains_key(k) implies bus.buses[k].same_topology(
        bus.buses[k],
    ) by {
        lemma_same_topology_reflexive(bus.buses[k]);
    }
}

/// A write that is routed through a bus replaces exactly the lanes it
/// covers. Where the access reaches a register and the bytes stay within it,
/// the register afterwards holds them in lanes `offset` to
/// `offset + data.len()` and its old bytes in the other lanes; every other
/// access reads as before, and the topology is the same.
pub proof fn lemma_routed_write_replaces_covered_lanes(
    bus: BusView,
    target: usize,
    device: usize,
    function: usize,
    register: usize,
    offset: usize,
    data: Seq<u8>,
)
    requires
        offset + data.len() <= 4,
        bus.read(target, device, function, register) is Some,
    ensures
        ({
            let before = bus.read(target, device, function, register)->Some_0;
            let after = bus.write(target, device, function, register, offset, data);
            &&& after.read(target, device, function, register) is Some
            &&& lanes(after.read(target, device, function, register)->Some_0) == overlay(
                lanes(before),
                offset as int,
                data,
            )
            &&& forall|b: usize, d: usize, f: usize, r: usize|
                b != target || d != device || f != function || r != register
                    ==> #[trigger] after.read(b, d, f, r) == bus.read(b, d, f, r)
            &&& bus.same_topology(after)
        }),
    decreases bus,
{
    let after = bus.write(target, device, function, register, offset, data);
    if target == bus.number {
        let slot = bus.devices[device];
        lemma_write_replaces_covered_lanes(slot, function, register, offset, data);
        assert(after.devices.dom() =~= bus.devices.dom());
        assert forall|k: usize| #[trigger] bus.buses.contains_key(k) implies bus.buses[k].same_topology(
            after.buses[k],
        ) by {
            lemma_same_topology_reflexive(bus.buses[k]);
        }
        assert forall|k: usize| #[trigger] bus.devices.contains_key(k) implies bus.devices[k].same_slots(
            after.devices[k],
        ) by {}
        assert forall|b: usize, d: usize, f: usize, r: usize|
            b != target || d != device || f != function || r != register implies #[trigger] after.read(
            b,
            d,
            f,
            r,
        ) == bus.read(b, d, f, r) by {
            if b == bus.number && d == device {
                assert(after.devices[device].read(f, r) == slot.read(f, r));
            }
        }
    } else {
        let child = bus.buses[target];
        let changed = child.write(target, device, function, register, offset, data);
        lemma_routed_write_replaces_covered_lanes(
            child,
            target,
            device,
            function,
            register,
            offset,
            data,
        );
        assert(after.buses.dom() =~= bus.buses.dom());
        assert(after.buses[target] == changed);
        assert forall|k: usize| #[trigger] bus.buses.contains_key(k) implies bus.buses[k].same_topology(
            after.buses[k],
        ) by {
            if k != target {
                lemma_same_topology_reflexive(bus.buses[k]);
            }
        }
        assert forall|b: usize, d: usize, f: usize, r: usize|
            b != target || d != device || f != function || r != register implies #[trigger] after.read(
            b,
            d,
            f,
            r,
        ) == bus.read(b, d, f, r) by {
            if b == target {
                assert(changed.read(b, d, f, r) == child.read(b, d, f, r));
            }
        }
    }
}

/// A bus with a device in each of its 32 slots takes no further device.
pub proof fn lemma_full_bus_takes_no_device(bus: BusView, device: DeviceView)
    requires
        forall|number: usize| number < MAX_DEVICE_NUMBER ==> bus.devices.contains_key(number),
    ensures
        bus.add_device(device) is Err,
{
}

/// A bus takes a device whose number is below 32 and not in use, and holds
/// it under that number afterwards.
pub proof fn lemma_free_slot_takes_device(bus: BusView, device: DeviceView)
    requires
        device.number < MAX_DEVICE_NUMBER,
        !bus.devices.contains_key(device.number),
    ensures
        bus.add_device(device) is Ok,
        bus.add_device(device)->Ok_0.devices.contains_key(device.number),
        bus.add_device(device)->Ok_0.devices[device.number] == device,
{
}

/// Removing a device frees its slot: a device with that number can be added
/// again. Removing it once more changes nothing.
pub proof fn lemma_removed_slot_is_free(bus: BusView, device: DeviceView)
    requires
        device.number < MAX_DEVICE_NUMBER,
    ensures
        bus.remove_device(device.number).add_device(device) is Ok,
        bus.remove_device(device.number).remove_device(device.number) == bus.remove_device(
            device.number,
        ),
{
    assert(bus.devices.remove(device.number).remove(device.number) =~= bus.devices.remove(
        device.number,
    ));
}

/// The slot numbers below `limit`.
pub open spec fn slots_below(limit: usize) -> Set<usize> {
    Set::new(|number: usize| number < limit)
}

/// There are `limit` slot numbers below `limit`.
proof fn lemma_slots_below(limit: usize)
    ensures
        slots_below(limit).finite(),
        slots_below(limit).len() == limit,
    decreases limit,
{
    if limit == 0 {
        assert(slots_below(limit) =~= Set::<usize>::empty());
    } else {
        let last = (limit - 1) as usize;
        lemma_slots_below(last);
        assert(slots_below(limit) =~= slots_below(last).insert(last));
    }
}

/// A well-formed bus holds at most 32 devices, and once it holds 32 it has
/// one in every slot.
pub proof fn lemma_device_slots(bus: BusView)
    requires
        bus.wf(),
    ensures
        bus.devices.dom().len() <= MAX_DEVICE_NUMBER,
        bus.devices.dom().len() == MAX_DEVICE_NUMBER ==> bus.devices.dom() == slots_below(
            MAX_DEVICE_NUMBER,
        ),
{
    let taken = bus.devices.dom();
    let slots = slots_below(MAX_DEVICE_NUMBER);
    lemma_slots_below(MAX_DEVICE_NUMBER);
    assert(taken.subset_of(slots)) by {
        assert forall|number: usize| taken.contains(number) implies slots.contains(number) by {
            assert(bus.devices.contains_key(number));
        }
    }
    lemma_len_subset(taken, slots);
    if taken.len() == MAX_DEVICE_NUMBER {
        lemma_subset_equality(taken, slots);
    }
}

/// After 32 devices were added to a well-formed bus, the 33rd is rejected,
/// whatever its number.
pub proof fn lemma_no_room_for_another_device(bus: BusView, device: DeviceView)
    requires
        bus.wf(),
        bus.devices.dom().len() == MAX_DEVICE_NUMBER,
    ensures
        bus.add_device(device) is Err,
{
    lemma_device_slots(bus);
    assert forall|number: usize| number < MAX_DEVICE_NUMBER implies bus.devices.contains_key(
        number,
    ) by {
        assert(slots_below(MAX_DEVICE_NUMBER).contains(number));
    }
    lemma_full_bus_takes_no_device(bus, device);
}

/// Each device that a bus takes fills one more slot.
pub proof fn lemma_added_device_fills_a_slot(bus: BusView, device: DeviceView)
    requires
        bus.wf(),
        bus.add_device(device) is Ok,
    ensures
        bus.add_device(device)->Ok_0.devices.dom().len() == bus.devices.dom().len() + 1,
{
}

} // verus!
