//! The table of registered backends and the devices that they reported:
//! enumeration by filter, and the opening and closing of devices.

use vstd::prelude::*;
use crate::args::{includes, parsed, same_pairs, DeviceArgs, Pairs, Text};
use crate::channel::{DeviceDescriptor, DeviceModel};
use crate::device::{DeviceHandle, HandleModel};
use crate::error::{HalError, OpenFailure};

verus! {

/// What the driver said when it was asked to initialise a device.
#[derive(Clone, Copy, Debug, PartialEq, Eq, Structural)]
pub enum DriverProbe {
    /// The device is initialised.
    Ready,
    /// Another process holds the device.
    Busy,
    /// The operating system denied access.
    PermissionDenied,
    /// The firmware does not match the driver.
    FirmwareMismatch,
    /// The hardware refused for another reason.
    Rejected,
}

impl DriverProbe {
    /// The failure that the probe stands for, `None` for `Ready`.
    pub open spec fn failure(self) -> Option<HalError> {
        match self {
            DriverProbe::Ready => None,
            DriverProbe::Busy => Some(HalError::DeviceBusy),
            DriverProbe::PermissionDenied => Some(HalError::DeviceOpen(OpenFailure::PermissionDenied)),
            DriverProbe::FirmwareMismatch => Some(HalError::DeviceOpen(OpenFailure::FirmwareMismatch)),
            DriverProbe::Rejected => Some(HalError::DeviceOpen(OpenFailure::Rejected)),
        }
    }
}

/// The arguments of those devices that meet `filter`, in the devices' order.
pub open spec fn matching(devices: Seq<DeviceModel>, filter: Pairs) -> Seq<Pairs>
    decreases devices.len(),
{
    if devices.len() == 0 {
        Seq::empty()
    } else {
        let rest = matching(devices.drop_last(), filter);
        if includes(devices.last().args, filter) {
            rest.push(devices.last().args)
        } else {
            rest
        }
    }
}

/// The mathematical value of a [`DeviceRegistry`].
pub struct RegistryModel {
    /// The names of the registered backends, in the order of registration.
    pub backends: Seq<Text>,
    /// The devices that the backends reported, in the order of registration.
    pub devices: Seq<DeviceModel>,
    /// For each device, the number of handles that are open on it.
    pub open_handles: Seq<usize>,
}

impl RegistryModel {
    /// One count of open handles per device.
    pub open spec fn wf(self) -> bool {
        self.open_handles.len() == self.devices.len()
    }

    /// The registry after the backend `name` was registered with `devices`:
    /// unchanged where the name was taken.
    pub open spec fn registered(self, name: Text, devices: Seq<DeviceModel>) -> RegistryModel {
        if self.backends.contains(name) {
            self
        } else {
            RegistryModel {
                backends: self.backends.push(name),
                devices: self.devices + devices,
                open_handles: self.open_handles + Seq::new(devices.len(), |i: int| 0usize),
            }
        }
    }

    /// The device `index` has the arguments `args`, pair for pair.
    pub open spec fn is_match(self, index: int, args: Pairs) -> bool {
        0 <= index < self.devices.len() && same_pairs(self.devices[index].args, args)
    }

    /// No device has the arguments `args`.
    pub open spec fn unknown(self, args: Pairs) -> bool {
        forall|i: int| !#[trigger] self.is_match(i, args)
    }

    /// More than one device has the arguments `args`.
    pub open spec fn ambiguous(self, args: Pairs) -> bool {
        exists|i: int, j: int| i != j && #[trigger] self.is_match(i, args) && #[trigger] self.is_match(j, args)
    }

    /// The device that `args` names.
    pub open spec fn resolved(self, args: Pairs) -> int {
        choose|i: int| #[trigger] self.is_match(i, args)
    }

    /// Why `args` names no one device, if it does not.
    pub open spec fn resolve_error(self, args: Pairs) -> Option<HalError> {
        if self.unknown(args) {
            Some(HalError::DeviceOpen(OpenFailure::NotFound))
        } else if self.ambiguous(args) {
            Some(HalError::DeviceOpen(OpenFailure::Ambiguous))
        } else {
            None
        }
    }

    /// Why the device that `args` names cannot be opened, if it cannot,
    /// given what the driver said.
    pub open spec fn open_error(self, args: Pairs, probe: DriverProbe) -> Option<HalError> {
        if self.resolve_error(args) is Some {
            self.resolve_error(args)
        } else {
            let i = self.resolved(args);
            if self.devices[i].exclusive && self.open_handles[i] > 0 {
                Some(HalError::DeviceBusy)
            } else if self.open_handles[i] == usize::MAX {
                Some(HalError::DeviceBusy)
            } else {
                probe.failure()
            }
        }
    }

    /// The registry after `open` was called.
    pub open spec fn opened(self, args: Pairs, probe: DriverProbe) -> RegistryModel {
        if self.open_error(args, probe) is None {
            let i = self.resolved(args);
            RegistryModel {
                open_handles: self.open_handles.update(i, (self.open_handles[i] + 1) as usize),
                ..self
            }
        } else {
            self
        }
    }

    /// The registry after a handle on the device `args` was closed.
    pub open spec fn closed(self, args: Pairs) -> RegistryModel {
        if self.resolve_error(args) is None && self.open_handles[self.resolved(args)] > 0 {
            let i = self.resolved(args);
            RegistryModel {
                open_handles: self.open_handles.update(i, (self.open_handles[i] - 1) as usize),
                ..self
            }
        } else {
            self
        }
    }
}

/// One device of the table.
#[derive(Debug)]
struct DeviceEntry {
    descriptor: DeviceDescriptor,
    open_handles: usize,
}

/// The backends that are registered and the devices that they reported.
#[derive(Debug)]
pub struct DeviceRegistry {
    backends: Vec<String>,
    devices: Vec<DeviceEntry>,
}

impl View for DeviceRegistry {
    type V = RegistryModel;

    closed spec fn view(&self) -> RegistryModel {
        RegistryModel {
            backends: Seq::new(self.backends@.len(), |i: int| self.backends@[i]@),
            devices: Seq::new(self.devices@.len(), |i: int| self.devices@[i].descriptor@),
            open_handles: Seq::new(self.devices@.len(), |i: int| self.devices@[i].open_handles),
        }
    }
}

/// The arguments that a list holds.
pub open spec fn arg_views(v: Seq<DeviceArgs>) -> Seq<Pairs> {
    Seq::new(v.len(), |i: int| v[i]@)
}

/// The mathematical values of a list of descriptors.
pub open spec fn device_models(v: Seq<DeviceDescriptor>) -> Seq<DeviceModel> {
    Seq::new(v.len(), |i: int| v[i]@)
}

impl DeviceRegistry {
    /// A registry with no backend.
    pub fn new() -> (registry: DeviceRegistry)
        ensures
            registry@ == (RegistryModel {
                backends: Seq::empty(),
                devices: Seq::empty(),
                open_handles: Seq::empty(),
            }),
    {
        let registry = DeviceRegistry { backends: Vec::new(), devices: Vec::new() };
        assert(registry@.backends =~= Seq::empty());
        assert(registry@.devices =~= Seq::empty());
        assert(registry@.open_handles =~= Seq::empty());
        registry
    }

    /// The number of registered backends.
    pub fn num_backends(&self) -> (n: usize)
        ensures
            n == self@.backends.len(),
            self@.wf(),
    {
        self.backends.len()
    }

    /// The number of known devices.
    pub fn num_devices(&self) -> (n: usize)
        ensures
            n == self@.devices.len(),
    {
        self.devices.len()
    }

    /// Whether a backend goes by `name`.
    pub fn has_backend(&self, name: &str) -> (b: bool)
        ensures
            b == self@.backends.contains(name@),
    {
        let owned = name.to_owned();
        let mut i: usize = 0;
        while i < self.backends.len()
            invariant
                i <= self.backends@.len(),
                owned@ == name@,
                forall|k: int| 0 <= k < i ==> self@.backends[k] != name@,
            decreases self.backends@.len() - i,
        {
            if self.backends[i] == owned {
                assert(self@.backends[i as int] == name@);
                return true;
            }
            i += 1;
        }
        false
    }

    /// Registers the backend `name` with the devices that it reported.
    /// Returns false, and changes nothing, where a backend of that name is
    /// registered already.
    pub fn register(&mut self, name: &str, devices: &Vec<DeviceDescriptor>) -> (added: bool)
        ensures
            added == !old(self)@.backends.contains(name@),
            final(self)@ == old(self)@.registered(name@, device_models(devices@)),
    {
        if self.has_backend(name) {
            return false;
        }
        let ghost before = self@;
        self.backends.push(name.to_owned());
        assert(self@.backends =~= before.backends.push(name@));
        assert(self@.devices =~= before.devices + device_models(devices@).take(0));
        assert(self@.open_handles =~= before.open_handles + Seq::new(0, |k: int| 0usize));
        let mut i: usize = 0;
        while i < devices.len()
            invariant
                i <= devices@.len(),
                before.wf(),
                self@.backends == before.backends.push(name@),
                self@.devices == before.devices + device_models(devices@).take(i as int),
                self@.open_handles == before.open_handles + Seq::new(i as nat, |k: int| 0usize),
            decreases devices@.len() - i,
        {
            let ghost seen = self@;
            self.devices.push(DeviceEntry { descriptor: devices[i].clone(), open_handles: 0 });
            proof {
                let base = before.devices.len() as int;
                let given = device_models(devices@);
                assert(before.open_handles.len() == base);
                assert(seen.devices.len() == base + i);
                assert(self@.backends =~= seen.backends);
                let grown = before.devices + given.take(i + 1);
                assert(self@.devices.len() == grown.len());
                assert forall|k: int| 0 <= k < grown.len() implies self@.devices[k] == grown[k] by {
                    if k < base + i {
                        assert(self@.devices[k] == seen.devices[k]);
                    } else {
                        assert(given.take(i + 1)[i as int] == devices@[i as int]@);
                    }
                }
                assert(self@.devices =~= grown);
                let counts = before.open_handles + Seq::new((i + 1) as nat, |k: int| 0usize);
                assert(self@.open_handles.len() == counts.len());
                assert forall|k: int| 0 <= k < counts.len() implies self@.open_handles[k]
                    == counts[k] by {
                    if k < base + i {
                        assert(self@.open_handles[k] == seen.open_handles[k]);
                    }
                }
                assert(self@.open_handles =~= counts);
            }
            i += 1;
        }
        assert(device_models(devices@).take(i as int) =~= device_models(devices@));
        true
    }

    /// The arguments of the known devices that meet `filter`, in the order
    /// of registration. No device is no failure: the list is then empty.
    /// Fails with `Discovery` where no backend is registered.
    pub fn enumerate(&self, filter: &DeviceArgs) -> (res: Result<Vec<DeviceArgs>, HalError>)
        ensures
            res is Ok <==> self@.backends.len() > 0,
            res matches Ok(list) ==> arg_views(list@) == matching(self@.devices, filter@),
            res matches Err(e) ==> e == HalError::Discovery,
    {
        if self.backends.len() == 0 {
            return Err(HalError::Discovery);
        }
        let mut list: Vec<DeviceArgs> = Vec::new();
        let mut i: usize = 0;
        assert(arg_views(list@) =~= matching(self@.devices.take(0), filter@));
        while i < self.devices.len()
            invariant
                i <= self.devices@.len(),
                arg_views(list@) == matching(self@.devices.take(i as int), filter@),
            decreases self.devices@.len() - i,
        {
            let ghost seen = arg_views(list@);
            assert(self@.devices.take(i + 1).drop_last() =~= self@.devices.take(i as int));
            assert(self@.devices.take(i + 1).last() == self.devices@[i as int].descriptor@);
            if self.devices[i].descriptor.args.matches(filter) {
                list.push(self.devices[i].descriptor.args.clone());
                assert(arg_views(list@) =~= seen.push(self.devices@[i as int].descriptor@.args));
            }
            i += 1;
        }
        assert(self@.devices.take(i as int) =~= self@.devices);
        Ok(list)
    }

    /// The arguments of the known devices that meet the filter that `text`
    /// stands for: `key=value` segments separated by commas, the empty text
    /// for no filter.
    pub fn enumerate_text(&self, text: &str) -> (res: Result<Vec<DeviceArgs>, HalError>)
        ensures
            res is Ok <==> self@.backends.len() > 0,
            res matches Ok(list) ==> arg_views(list@) == matching(self@.devices, parsed(text@)),
            res matches Err(e) ==> e == HalError::Discovery,
    {
        let filter = DeviceArgs::parse(text);
        self.enumerate(&filter)
    }

    /// The index of the one device that has the arguments `args`, pair for
    /// pair. Fails with `DeviceOpen(NotFound)` where there is none and with
    /// `DeviceOpen(Ambiguous)` where there are several.
    pub fn resolve(&self, args: &DeviceArgs) -> (res: Result<usize, HalError>)
        ensures
            res is Ok <==> self@.resolve_error(args@) is None,
            res matches Ok(i) ==> i == self@.resolved(args@) && self@.is_match(i as int, args@),
            res matches Err(e) ==> Some(e) == self@.resolve_error(args@),
    {
        let mut found: Option<usize> = None;
        let mut i: usize = 0;
        while i < self.devices.len()
            invariant
                i <= self.devices@.len(),
                found is None ==> forall|k: int| 0 <= k < i ==> !#[trigger] self@.is_match(k, args@),
                found matches Some(f) ==> f < i && self@.is_match(f as int, args@) && forall|k: int|
                    0 <= k < i && k != f ==> !#[trigger] self@.is_match(k, args@),
            decreases self.devices@.len() - i,
        {
            if self.devices[i].descriptor.args.same_as(args) {
                assert(self@.is_match(i as int, args@));
                match found {
                    Some(f) => {
                        assert(self@.is_match(f as int, args@));
                        return Err(HalError::DeviceOpen(OpenFailure::Ambiguous));
                    },
                    None => {
                        found = Some(i);
                    },
                }
            } else {
                assert(!self@.is_match(i as int, args@));
            }
            i += 1;
        }
        match found {
            Some(f) => {
                assert(self@.is_match(f as int, args@));
                assert(!self@.ambiguous(args@));
                Ok(f)
            },
            None => Err(HalError::DeviceOpen(OpenFailure::NotFound)),
        }
    }

    /// Opens the device that `args` names, given what the driver said when
    /// it was asked to initialise it. Fails with `DeviceOpen` where `args`
    /// names no one device or the hardware refused, and with `DeviceBusy`
    /// where the device admits one handle only and a handle is open on it,
    /// or the driver found it held elsewhere.
    pub fn open(&mut self, args: &DeviceArgs, probe: DriverProbe) -> (res: Result<DeviceHandle, HalError>)
        ensures
            res is Ok <==> old(self)@.open_error(args@, probe) is None,
            res matches Err(e) ==> Some(e) == old(self)@.open_error(args@, probe),
            res matches Ok(handle) ==> handle@ == HandleModel::opened(
                old(self)@.devices[old(self)@.resolved(args@)],
            ),
            final(self)@ == old(self)@.opened(args@, probe),
    {
        let i = match self.resolve(args) {
            Ok(i) => i,
            Err(e) => { return Err(e); },
        };
        let count = self.devices[i].open_handles;
        if self.devices[i].descriptor.exclusive && count > 0 {
            return Err(HalError::DeviceBusy);
        }
        if count == usize::MAX {
            return Err(HalError::DeviceBusy);
        }
        match probe {
            DriverProbe::Ready => {},
            DriverProbe::Busy => { return Err(HalError::DeviceBusy); },
            DriverProbe::PermissionDenied => {
                return Err(HalError::DeviceOpen(OpenFailure::PermissionDenied));
            },
            DriverProbe::FirmwareMismatch => {
                return Err(HalError::DeviceOpen(OpenFailure::FirmwareMismatch));
            },
            DriverProbe::Rejected => { return Err(HalError::DeviceOpen(OpenFailure::Rejected)); },
        }
        let ghost before = self@;
        let descriptor = self.devices[i].descriptor.clone();
        let entry = DeviceEntry { descriptor: self.devices[i].descriptor.clone(), open_handles: count + 1 };
        self.devices.set(i, entry);
        assert(self@.backends =~= before.backends);
        assert(self@.devices =~= before.devices);
        assert(self@.open_handles =~= before.open_handles.update(i as int, (count + 1) as usize));
        Ok(DeviceHandle::new(descriptor))
    }

    /// Closes `handle`. Sessions that are still active are deactivated by
    /// force, and their identifiers returned in ascending order. The device
    /// that the handle was opened on has one open handle less.
    pub fn close(&mut self, handle: DeviceHandle) -> (forced: Vec<usize>)
        ensures
            final(self)@ == old(self)@.closed(handle@.device.args),
            forall|id: int| handle@.active(id) <==> exists|k: int|
                0 <= k < forced@.len() && #[trigger] forced@[k] == id,
            forall|j: int, k: int|
                0 <= j < k < forced@.len() ==> (#[trigger] forced@[j]) < (#[trigger] forced@[k]),
    {
        let ghost before = self@;
        match self.resolve(&handle.descriptor().args) {
            Ok(i) => {
                let count = self.devices[i].open_handles;
                if count > 0 {
                    let entry = DeviceEntry {
                        descriptor: self.devices[i].descriptor.clone(),
                        open_handles: count - 1,
                    };
                    self.devices.set(i, entry);
                    assert(self@.backends =~= before.backends);
                    assert(self@.devices =~= before.devices);
                    assert(self@.open_handles =~= before.open_handles.update(
                        i as int,
                        (count - 1) as usize,
                    ));
                }
            },
            Err(_) => {},
        }
        handle.close()
    }
}

/// With no filter, every device is listed.
pub proof fn lemma_empty_filter_lists_all(devices: Seq<DeviceModel>)
    ensures
        matching(devices, Seq::empty()).len() == devices.len(),
        forall|i: int| 0 <= i < devices.len() ==> #[trigger] matching(devices, Seq::empty())[i] == devices[i].args,
    decreases devices.len(),
{
    if devices.len() > 0 {
        lemma_empty_filter_lists_all(devices.drop_last());
        assert(includes(devices.last().args, Seq::empty()));
    }
}

/// Arguments that no enumeration returns, whatever its filter, cannot be
/// opened: `open` fails with `DeviceOpen`, whatever the driver said.
pub proof fn lemma_unlisted_cannot_be_opened(r: RegistryModel, args: Pairs, probe: DriverProbe)
    requires
        forall|filter: Pairs, k: int|
            0 <= k < matching(r.devices, filter).len() ==> !same_pairs(
                #[trigger] matching(r.devices, filter)[k],
                args,
            ),
    ensures
        r.open_error(args, probe) == Some(HalError::DeviceOpen(OpenFailure::NotFound)),
        r.opened(args, probe) == r,
{
    lemma_empty_filter_lists_all(r.devices);
    let all = matching(r.devices, Seq::empty());
    assert forall|i: int| !#[trigger] r.is_match(i, args) by {
        if 0 <= i < r.devices.len() {
            assert(all[i] == r.devices[i].args);
            assert(!same_pairs(all[i], args));
        }
    }
}

/// A device that is listed under some filter meets that filter.
pub proof fn lemma_listed_meets_filter(devices: Seq<DeviceModel>, filter: Pairs, k: int)
    requires
        0 <= k < matching(devices, filter).len(),
    ensures
        includes(matching(devices, filter)[k], filter),
        exists|i: int| 0 <= i < devices.len() && (#[trigger] devices[i]).args == matching(devices, filter)[k],
    decreases devices.len(),
{
    if devices.len() > 0 {
        let rest = matching(devices.drop_last(), filter);
        if k < rest.len() {
            lemma_listed_meets_filter(devices.drop_last(), filter, k);
            let i = choose|i: int|
                0 <= i < devices.drop_last().len() && (#[trigger] devices.drop_last()[i]).args == rest[k];
            assert(devices[i].args == matching(devices, filter)[k]);
        } else {
            assert(devices[devices.len() - 1].args == matching(devices, filter)[k]);
        }
    }
}

} // verus!
