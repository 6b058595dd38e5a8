//! Hubs: which hub drives a device, and what a hub sends or reads for a
//! request. The Bluetooth work itself is done by the caller; the functions
//! here decide what it is.

use vstd::prelude::*;
use crate::api::control_options::{strings_view, ControlOptionsView, ControllerType};
use crate::api::device::{
    device_map, devices_view, load, with_devices, Device, DeviceType, DeviceView,
    lemma_with_devices,
};
use crate::string_map::{text_map, StringMap};

verus! {

/// Why a hub refused a request.
#[derive(Clone, Copy, PartialEq, Eq, Structural, Debug)]
pub enum HubError {
    /// The hub has no live connection.
    NotConnected,
    /// A command was sent to a device that is not commandable.
    NotCommandable,
    /// A reading was asked of a device that is not readable.
    NotReadable,
    /// No loaded hub drives the device.
    DeviceNotFound,
}

impl HubError {
    pub open spec fn spec_message(&self) -> Seq<char> {
        match self {
            HubError::NotConnected => "Device isn't connected"@,
            HubError::NotCommandable => "Only Commandable Devices can run this function"@,
            HubError::NotReadable => "Only Readable Devices can run this function"@,
            HubError::DeviceNotFound => "Couldn't find device"@,
        }
    }

    /// The message the server reports.
    pub fn message(&self) -> (res: String)
        ensures
            res@ == self.spec_message(),
    {
        match self {
            HubError::NotConnected => "Device isn't connected".to_owned(),
            HubError::NotCommandable => "Only Commandable Devices can run this function".to_owned(),
            HubError::NotReadable => "Only Readable Devices can run this function".to_owned(),
            HubError::DeviceNotFound => "Couldn't find device".to_owned(),
        }
    }
}

/// Whether a hub has a device of id `id`.
pub open spec fn hub_has(hub: Seq<DeviceView>, id: Seq<char>) -> bool {
    exists|j: int| 0 <= j < hub.len() && hub[j].id == id
}

/// The first hub that has a device of id `id`.
#[verifier::opaque]
pub open spec fn hub_of(hubs: Seq<Seq<DeviceView>>, id: Seq<char>) -> Option<int> {
    if exists|i: int| 0 <= i < hubs.len() && hub_has(hubs[i], id) {
        Some(
            choose|i: int|
                0 <= i < hubs.len() && hub_has(hubs[i], id) && forall|k: int|
                    0 <= k < i ==> !hub_has(hubs[k], id),
        )
    } else {
        None
    }
}

proof fn lemma_first_hub(hubs: Seq<Seq<DeviceView>>, id: Seq<char>, w: int)
    requires
        0 <= w < hubs.len(),
        hub_has(hubs[w], id),
    ensures
        exists|i: int|
            0 <= i < hubs.len() && hub_has(hubs[i], id) && forall|k: int|
                0 <= k < i ==> !hub_has(hubs[k], id),
    decreases w,
{
    if exists|k: int| 0 <= k < w && hub_has(hubs[k], id) {
        let k = choose|k: int| 0 <= k < w && hub_has(hubs[k], id);
        lemma_first_hub(hubs, id, k);
    }
}

/// What [`hub_of`] finds: the first hub with the device, if any.
pub proof fn lemma_hub_of(hubs: Seq<Seq<DeviceView>>, id: Seq<char>)
    ensures
        match hub_of(hubs, id) {
            Some(i) => 0 <= i < hubs.len() && hub_has(hubs[i], id) && forall|k: int|
                0 <= k < i ==> !hub_has(hubs[k], id),
            None => forall|k: int| 0 <= k < hubs.len() ==> !hub_has(hubs[k], id),
        },
{
    reveal(hub_of);
    if exists|i: int| 0 <= i < hubs.len() && hub_has(hubs[i], id) {
        let w = choose|i: int| 0 <= i < hubs.len() && hub_has(hubs[i], id);
        lemma_first_hub(hubs, id, w);
    }
}

/// The views of the device lists of hubs.
pub open spec fn hubs_view(h: Seq<Vec<Device>>) -> Seq<Seq<DeviceView>> {
    h.map_values(|x: Vec<Device>| devices_view(x@))
}

/// The loaded hubs, each by the devices it drives, and every loaded device
/// by id.
pub struct Registry {
    devices: StringMap<Device>,
    hubs: Vec<Vec<Device>>,
}

impl Registry {
    /// The devices of each loaded hub, in load order.
    pub closed spec fn hubs(&self) -> Seq<Seq<DeviceView>> {
        hubs_view(self.hubs@)
    }

    /// Every loaded device by id.
    pub closed spec fn devices(&self) -> Map<Seq<char>, DeviceView> {
        device_map(&self.devices)
    }

    /// A device id is known exactly when some loaded hub has a device of
    /// that id.
    #[verifier::type_invariant]
    closed spec fn inv(&self) -> bool {
        &&& forall|id: Seq<char>|
            #![trigger self.devices@.contains_key(id)]
            self.devices@.contains_key(id) <==> exists|i: int|
                0 <= i < self.hubs().len() && hub_has(self.hubs()[i], id)
        &&& forall|id: Seq<char>| #[trigger]
            self.devices().contains_key(id) ==> self.devices()[id].id == id
    }

    /// No hub loaded.
    pub fn new() -> (r: Registry)
        ensures
            r.hubs() == Seq::<Seq<DeviceView>>::empty(),
            r.devices() == Map::<Seq<char>, DeviceView>::empty(),
    {
        let r = Registry { devices: StringMap::new(), hubs: Vec::new() };
        assert(r.hubs() =~= Seq::<Seq<DeviceView>>::empty());
        assert(r.devices() =~= Map::<Seq<char>, DeviceView>::empty());
        r
    }

    /// The map of devices by id.
    pub fn device_map(&self) -> (m: &StringMap<Device>)
        ensures
            device_map(m) == self.devices(),
            forall|id: Seq<char>| #[trigger]
                self.devices().contains_key(id) ==> self.devices()[id].id == id,
            forall|id: Seq<char>| #[trigger]
                self.devices().contains_key(id) <==> hub_of(self.hubs(), id) is Some,
    {
        proof {
            use_type_invariant(self);
            assert forall|id: Seq<char>| #[trigger]
                self.devices().contains_key(id) <==> hub_of(self.hubs(), id) is Some by {
                lemma_hub_of(self.hubs(), id);
                assert(self.devices().contains_key(id) == self.devices@.contains_key(id));
                if self.devices@.contains_key(id) {
                    let i = choose|i: int| 0 <= i < self.hubs().len() && hub_has(self.hubs()[i], id);
                    if hub_of(self.hubs(), id) is None {
                        assert(!hub_has(self.hubs()[i], id));
                    }
                }
                if hub_of(self.hubs(), id) is Some {
                    let i = hub_of(self.hubs(), id)->0;
                    assert(hub_has(self.hubs()[i], id));
                }
            }
        }
        &self.devices
    }

    /// Whether a device of id `id` is known; it is exactly when some hub has
    /// it.
    pub fn has_device(&self, id: &String) -> (b: bool)
        ensures
            b == self.devices().contains_key(id@),
            b == (hub_of(self.hubs(), id@) is Some),
    {
        let m = self.device_map();
        assert(self.devices().contains_key(id@) == m@.contains_key(id@));
        m.contains_key(id)
    }
}

proof fn lemma_with_devices_keys(m: Map<Seq<char>, DeviceView>, ds: Seq<DeviceView>, id: Seq<char>)
    ensures
        with_devices(m, ds).contains_key(id) <==> (m.contains_key(id) || hub_has(ds, id)),
{
    lemma_with_devices(m, ds, id);
}

/// Loads a hub: enters its devices by id, in order, and appends it to the
/// hubs. Returns the new hub's position.
pub fn load_hub_and_devices(registry: &mut Registry, hub_devices: Vec<Device>) -> (index: usize)
    ensures
        final(registry).devices() == with_devices(old(registry).devices(), devices_view(hub_devices@)),
        final(registry).hubs() == old(registry).hubs().push(devices_view(hub_devices@)),
        index == old(registry).hubs().len(),
{
    proof {
        use_type_invariant(&*registry);
    }
    let ghost old_hubs = registry.hubs();
    let ghost old_devices = registry.devices();
    let ghost old_map = registry.devices@;
    let ghost dv = devices_view(hub_devices@);
    let mut taken = Registry::new();
    std::mem::swap(&mut taken, registry);
    let Registry { mut devices, mut hubs } = taken;
    load(&mut devices, &hub_devices);
    let index = hubs.len();
    hubs.push(hub_devices);
    let ghost new_hubs = hubs_view(hubs@);
    assert(new_hubs =~= old_hubs.push(dv));
    proof {
        assert forall|id: Seq<char>|
            #![trigger devices@.contains_key(id)]
            devices@.contains_key(id) <==> exists|i: int|
                0 <= i < new_hubs.len() && hub_has(new_hubs[i], id) by {
            lemma_with_devices_keys(old_devices, dv, id);
            assert(device_map(&devices).contains_key(id) == devices@.contains_key(id));
            assert(old_devices.contains_key(id) == old_map.contains_key(id));
            if old_map.contains_key(id) {
                let i = choose|i: int| 0 <= i < old_hubs.len() && hub_has(old_hubs[i], id);
                assert(new_hubs[i] == old_hubs[i]);
            }
            if hub_has(dv, id) {
                assert(new_hubs[index as int] == dv);
            }
            if exists|i: int| 0 <= i < new_hubs.len() && hub_has(new_hubs[i], id) {
                let i = choose|i: int| 0 <= i < new_hubs.len() && hub_has(new_hubs[i], id);
                if i < old_hubs.len() {
                    assert(new_hubs[i] == old_hubs[i]);
                    assert(old_map.contains_key(id));
                } else {
                    assert(new_hubs[i] == dv);
                }
            }
        }
    }
    assert(Registry { devices: devices, hubs: hubs }.hubs() == new_hubs);
    assert forall|id: Seq<char>| #[trigger]
        device_map(&devices).contains_key(id) implies device_map(&devices)[id].id == id by {
        lemma_with_devices(old_devices, dv, id);
    }
    assert(Registry { devices: devices, hubs: hubs }.inv());
    *registry = Registry { devices, hubs };
    index
}

fn hub_has_exec(hub: &Vec<Device>, id: &String) -> (b: bool)
    ensures
        b == hub_has(devices_view(hub@), id@),
{
    let ghost hv = devices_view(hub@);
    let n = hub.len();
    let mut j: usize = 0;
    while j < n
        invariant
            n == hub@.len(),
            hv == devices_view(hub@),
            j <= n,
            forall|k: int| 0 <= k < j ==> hv[k].id != id@,
        decreases n - j,
    {
        if hub[j].id == *id {
            assert(hv[j as int].id == id@);
            return true;
        }
        j = j + 1;
    }
    false
}

/// The first loaded hub that drives a device of the same id as `device`.
fn find_hub(registry: &Registry, device: &Device) -> (res: Result<usize, HubError>)
    ensures
        match hub_of(registry.hubs(), device.id@) {
            Some(i) => res matches Ok(j) && j as int == i,
            None => res == Err::<usize, HubError>(HubError::DeviceNotFound),
        },
{
    let ghost hv = registry.hubs();
    proof {
        lemma_hub_of(hv, device.id@);
    }
    let n = registry.hubs.len();
    let mut i: usize = 0;
    while i < n
        invariant
            n == hv.len(),
            hv == registry.hubs(),
            i <= n,
            forall|k: int| 0 <= k < i ==> !hub_has(hv[k], device.id@),
            match hub_of(hv, device.id@) {
                Some(i) => 0 <= i < hv.len() && hub_has(hv[i], device.id@) && forall|k: int|
                    0 <= k < i ==> !hub_has(hv[k], device.id@),
                None => forall|k: int| 0 <= k < hv.len() ==> !hub_has(hv[k], device.id@),
            },
        decreases n - i,
    {
        if hub_has_exec(&registry.hubs[i], &device.id) {
            proof {
                assert(hv[i as int] == devices_view(registry.hubs@[i as int]@));
                let c = hub_of(hv, device.id@);
                if c is None {
                    assert(!hub_has(hv[i as int], device.id@));
                } else {
                    let c = c->0;
                    if c < i {
                        assert(!hub_has(hv[c], device.id@));
                    } else if c > i {
                        assert(!hub_has(hv[i as int], device.id@));
                    }
                }
            }
            return Ok(i);
        }
        assert(hv[i as int] == devices_view(registry.hubs@[i as int]@));
        i = i + 1;
    }
    proof {
        if hub_of(hv, device.id@) is Some {
            let c = hub_of(hv, device.id@)->0;
            assert(!hub_has(hv[c], device.id@));
        }
    }
    Err(HubError::DeviceNotFound)
}

/// The hub to send a control request for `device` to: the first loaded hub
/// that drives a device of its id, or `DeviceNotFound`.
pub fn access_hub(registry: &Registry, device: &Device) -> (res: Result<usize, HubError>)
    ensures
        match hub_of(registry.hubs(), device.id@) {
            Some(i) => res matches Ok(j) && j as int == i,
            None => res == Err::<usize, HubError>(HubError::DeviceNotFound),
        },
{
    find_hub(registry, device)
}

/// The hub to read `device` from: the first loaded hub that drives a device
/// of its id, or `DeviceNotFound`.
pub fn read_hub(registry: &Registry, device: &Device) -> (res: Result<usize, HubError>)
    ensures
        match hub_of(registry.hubs(), device.id@) {
            Some(i) => res matches Ok(j) && j as int == i,
            None => res == Err::<usize, HubError>(HubError::DeviceNotFound),
        },
{
    find_hub(registry, device)
}

/// The payloads a hub that forwards values sends for a control request: for
/// each option of the device in order, the request's value for it, if any.
pub open spec fn forwarded_values(
    opts: Seq<ControlOptionsView>,
    data: Map<Seq<char>, Seq<char>>,
) -> Seq<Seq<char>>
    decreases opts.len(),
{
    if opts.len() == 0 {
        Seq::<Seq<char>>::empty()
    } else {
        let prev = forwarded_values(opts.drop_last(), data);
        let name = opts.last().name;
        if data.contains_key(name) {
            prev.push(data[name])
        } else {
            prev
        }
    }
}

/// The checks a hub makes before it sends commands: a live connection and a
/// commandable device.
pub open spec fn command_check(connected: bool, target: DeviceView) -> Option<HubError> {
    if !connected {
        Some(HubError::NotConnected)
    } else if target.dev_type != DeviceType::Commandable {
        Some(HubError::NotCommandable)
    } else {
        None
    }
}

/// The checks a hub makes before it reads: a live connection and a readable
/// device.
pub open spec fn read_check(connected: bool, target: DeviceView) -> Option<HubError> {
    if !connected {
        Some(HubError::NotConnected)
    } else if target.dev_type != DeviceType::Readable {
        Some(HubError::NotReadable)
    } else {
        None
    }
}

/// What the main hub sends, in order, for a control request `data` to
/// `target`, given whether its connection is alive; the caller sends each
/// payload and stops at the first failed send.
pub fn main_hub_commands(connected: bool, target: &Device, data: &StringMap<String>) -> (res: Result<
    Vec<String>,
    HubError,
>)
    ensures
        match command_check(connected, target@) {
            Some(e) => res == Err::<Vec<String>, HubError>(e),
            None => res is Ok && strings_view(res->Ok_0@) == forwarded_values(
                target@.ctrl_opts,
                text_map(data),
            ),
        },
{
    if !connected {
        return Err(HubError::NotConnected);
    }
    if target.dev_type != DeviceType::Commandable {
        return Err(HubError::NotCommandable);
    }
    let ghost opts = target@.ctrl_opts;
    let mut out: Vec<String> = Vec::new();
    let n = target.ctrl_opts.len();
    let mut i: usize = 0;
    assert(opts.take(0) =~= Seq::<ControlOptionsView>::empty());
    while i < n
        invariant
            n == target.ctrl_opts@.len(),
            opts == target@.ctrl_opts,
            i <= n,
            strings_view(out@) == forwarded_values(opts.take(i as int), text_map(data)),
        decreases n - i,
    {
        let name = &target.ctrl_opts[i].name;
        assert(opts.take(i + 1).drop_last() =~= opts.take(i as int));
        assert(opts.take(i + 1).last() == target.ctrl_opts@[i as int]@);
        match data.get(name) {
            Some(v) => {
                let payload = v.clone();
                let ghost before = out@;
                out.push(payload);
                assert(strings_view(out@) =~= strings_view(before).push(payload@));
            },
            None => {},
        }
        i = i + 1;
    }
    assert(opts.take(n as int) =~= opts);
    Ok(out)
}

/// The names of the options a hub reads, in order: those of type `Read`.
pub open spec fn read_names(opts: Seq<ControlOptionsView>) -> Seq<Seq<char>>
    decreases opts.len(),
{
    if opts.len() == 0 {
        Seq::<Seq<char>>::empty()
    } else {
        let prev = read_names(opts.drop_last());
        if opts.last().opt_type == ControllerType::Read {
            prev.push(opts.last().name)
        } else {
            prev
        }
    }
}

/// The options a hub reads from `target`, in order, given whether its
/// connection is alive; the caller asks the device once for each.
pub fn read_plan(connected: bool, target: &Device) -> (res: Result<Vec<String>, HubError>)
    ensures
        match read_check(connected, target@) {
            Some(e) => res == Err::<Vec<String>, HubError>(e),
            None => res is Ok && strings_view(res->Ok_0@) == read_names(target@.ctrl_opts),
        },
{
    if !connected {
        return Err(HubError::NotConnected);
    }
    if target.dev_type != DeviceType::Readable {
        return Err(HubError::NotReadable);
    }
    let ghost opts = target@.ctrl_opts;
    let mut out: Vec<String> = Vec::new();
    let n = target.ctrl_opts.len();
    let mut i: usize = 0;
    assert(opts.take(0) =~= Seq::<ControlOptionsView>::empty());
    while i < n
        invariant
            n == target.ctrl_opts@.len(),
            opts == target@.ctrl_opts,
            i <= n,
            strings_view(out@) == read_names(opts.take(i as int)),
        decreases n - i,
    {
        let opt = &target.ctrl_opts[i];
        assert(opts.take(i + 1).drop_last() =~= opts.take(i as int));
        assert(opts.take(i + 1).last() == target.ctrl_opts@[i as int]@);
        if opt.opt_type == ControllerType::Read {
            let name = opt.name.clone();
            let ghost before = out@;
            out.push(name);
            assert(strings_view(out@) =~= strings_view(before).push(name@));
        }
        i = i + 1;
    }
    assert(opts.take(n as int) =~= opts);
    Ok(out)
}

/// The readings that answers give: each name whose answer arrived maps to
/// it, a later answer for the same name replacing an earlier one.
pub open spec fn readings(names: Seq<Seq<char>>, answers: Seq<Option<Seq<char>>>) -> Map<
    Seq<char>,
    Seq<char>,
>
    decreases names.len(),
{
    if names.len() == 0 || answers.len() == 0 {
        Map::empty()
    } else {
        let prev = readings(names.drop_last(), answers.drop_last());
        match answers.last() {
            Some(a) => prev.insert(names.last(), a),
            None => prev,
        }
    }
}

/// The views of optional strings.
pub open spec fn answers_view(v: Seq<Option<String>>) -> Seq<Option<Seq<char>>> {
    v.map_values(|a: Option<String>| match a {
        Some(s) => Some(s@),
        None => None,
    })
}

/// Collects the answers to the reads of [`read_plan`]: `answers[i]` is what
/// reading `names[i]` gave, `None` where the read failed.
pub fn collect_readings(names: &Vec<String>, answers: Vec<Option<String>>) -> (res: StringMap<String>)
    requires
        names@.len() == answers@.len(),
    ensures
        text_map(&res) == readings(strings_view(names@), answers_view(answers@)),
{
    let ghost nv = strings_view(names@);
    let ghost av = answers_view(answers@);
    let mut res: StringMap<String> = StringMap::new();
    let n = names.len();
    let mut i: usize = 0;
    assert(text_map(&res) =~= readings(nv.take(0), av.take(0)));
    while i < n
        invariant
            n == names@.len(),
            n == answers@.len(),
            nv == strings_view(names@),
            av == answers_view(answers@),
            i <= n,
            text_map(&res) == readings(nv.take(i as int), av.take(i as int)),
        decreases n - i,
    {
        assert(nv.take(i + 1).drop_last() =~= nv.take(i as int));
        assert(av.take(i + 1).drop_last() =~= av.take(i as int));
        assert(av.take(i + 1).last() == av[i as int]);
        match &answers[i] {
            Some(a) => {
                let ghost before = text_map(&res);
                res.insert(names[i].clone(), a.clone());
                assert(text_map(&res) =~= before.insert(nv[i as int], a@));
            },
            None => {},
        }
        i = i + 1;
    }
    assert(nv.take(n as int) =~= nv);
    assert(av.take(n as int) =~= av);
    res
}

/// The name the main hub gives itself.
pub fn main_hub_name() -> (res: &'static str)
    ensures
        res@ == "MainHub"@,
{
    "MainHub"
}

} // verus!

verus! {

/// After a hub is loaded, each of its devices is found by id, and the id
/// gives the last of the hub's devices with that id; ids the hub does not
/// have keep what they had.
pub proof fn lemma_loaded_devices_found(
    before: Map<Seq<char>, DeviceView>,
    hub: Seq<DeviceView>,
    id: Seq<char>,
)
    ensures
        hub_has(hub, id) ==> {
            &&& with_devices(before, hub).contains_key(id)
            &&& exists|j: int|
                0 <= j < hub.len() && hub[j].id == id && with_devices(before, hub)[id] == hub[j]
                    && forall|k: int| j < k < hub.len() ==> hub[k].id != id
        },
        !hub_has(hub, id) ==> with_devices(before, hub).contains_key(id) == before.contains_key(id)
            && (before.contains_key(id) ==> with_devices(before, hub)[id] == before[id]),
{
    lemma_with_devices(before, hub, id);
    if hub_has(hub, id) {
        lemma_last_with_id(hub, id);
        let j = crate::api::device::last_with_id(hub, id);
        assert(0 <= j < hub.len() && hub[j].id == id && with_devices(before, hub)[id] == hub[j]);
    }
}

proof fn lemma_last_with_id(hub: Seq<DeviceView>, id: Seq<char>)
    requires
        hub_has(hub, id),
    ensures
        forall|k: int|
            crate::api::device::last_with_id(hub, id) < k < hub.len() ==> hub[k].id != id,
    decreases hub.len(),
{
    let init = hub.drop_last();
    if hub.last().id != id {
        let j = choose|j: int| 0 <= j < hub.len() && hub[j].id == id;
        assert(j != hub.len() - 1);
        assert(init[j].id == id);
        lemma_last_with_id(init, id);
        assert forall|k: int|
            crate::api::device::last_with_id(hub, id) < k < hub.len() implies hub[k].id != id by {
            if k < hub.len() - 1 {
                assert(init[k] == hub[k]);
            }
        }
    }
}

/// A hub whose connection is not alive refuses every request with
/// `NotConnected`, whatever the device; a live hub sends commands exactly to
/// commandable devices and reads exactly readable ones, refusing the others
/// with `NotCommandable` and `NotReadable`.
pub proof fn lemma_hub_checks(connected: bool, target: DeviceView)
    ensures
        !connected ==> command_check(connected, target) == Some(HubError::NotConnected),
        !connected ==> read_check(connected, target) == Some(HubError::NotConnected),
        connected ==> (command_check(connected, target) is None <==> target.dev_type
            == DeviceType::Commandable),
        connected && target.dev_type != DeviceType::Commandable ==> command_check(connected, target)
            == Some(HubError::NotCommandable),
        connected ==> (read_check(connected, target) is None <==> target.dev_type
            == DeviceType::Readable),
        connected && target.dev_type != DeviceType::Readable ==> read_check(connected, target)
            == Some(HubError::NotReadable),
{
}

/// The payloads for the options `p` then `q` are those for `p` followed by
/// those for `q`.
pub proof fn lemma_forwarded_values_concat(
    p: Seq<ControlOptionsView>,
    q: Seq<ControlOptionsView>,
    data: Map<Seq<char>, Seq<char>>,
)
    ensures
        forwarded_values(p + q, data) == forwarded_values(p, data) + forwarded_values(q, data),
    decreases q.len(),
{
    if q.len() == 0 {
        assert(p + q =~= p);
        assert(forwarded_values(p, data) + forwarded_values(q, data) =~= forwarded_values(p, data));
    } else {
        lemma_forwarded_values_concat(p, q.drop_last(), data);
        assert((p + q).drop_last() =~= p + q.drop_last());
        assert((p + q).last() == q.last());
        assert(forwarded_values(p + q, data) =~= forwarded_values(p, data) + forwarded_values(
            q,
            data,
        ));
    }
}

/// One option, of any type, gives the request's value for it if the request
/// holds its name, and nothing otherwise.
pub proof fn lemma_forwarded_values_single(o: ControlOptionsView, data: Map<Seq<char>, Seq<char>>)
    ensures
        forwarded_values(seq![o], data) == if data.contains_key(o.name) {
            seq![data[o.name]]
        } else {
            Seq::<Seq<char>>::empty()
        },
{
    assert(seq![o].drop_last() =~= Seq::<ControlOptionsView>::empty());
    assert(seq![o].last() == o);
    assert(forwarded_values(Seq::<ControlOptionsView>::empty(), data) == Seq::<Seq<char>>::empty());
    assert(Seq::<Seq<char>>::empty().push(data[o.name]) =~= seq![data[o.name]]);
    assert(forwarded_values(seq![o], data) =~= if data.contains_key(o.name) {
        seq![data[o.name]]
    } else {
        Seq::<Seq<char>>::empty()
    });
}

/// The options read from `p` then `q` are those read from `p` followed by
/// those read from `q`, and one option is read exactly when it is of type
/// `Read`.
pub proof fn lemma_read_names(p: Seq<ControlOptionsView>, q: Seq<ControlOptionsView>, o: ControlOptionsView)
    ensures
        read_names(p + q) == read_names(p) + read_names(q),
        read_names(seq![o]) == if o.opt_type == ControllerType::Read {
            seq![o.name]
        } else {
            Seq::<Seq<char>>::empty()
        },
    decreases q.len(),
{
    assert(seq![o].drop_last() =~= Seq::<ControlOptionsView>::empty());
    assert(seq![o].last() == o);
    assert(read_names(Seq::<ControlOptionsView>::empty()) == Seq::<Seq<char>>::empty());
    assert(Seq::<Seq<char>>::empty().push(o.name) =~= seq![o.name]);
    assert(read_names(seq![o]) =~= if o.opt_type == ControllerType::Read {
        seq![o.name]
    } else {
        Seq::<Seq<char>>::empty()
    });
    if q.len() == 0 {
        assert(p + q =~= p);
        assert(read_names(p) + read_names(q) =~= read_names(p));
    } else {
        lemma_read_names(p, q.drop_last(), o);
        assert((p + q).drop_last() =~= p + q.drop_last());
        assert((p + q).last() == q.last());
        assert(read_names(p + q) =~= read_names(p) + read_names(q));
    }
}

/// The readings hold exactly the names that got an answer, and each such
/// name maps to its last answer: for every `i` answered with no later answer
/// for the same name, `names[i]` maps to `answers[i]`.
pub proof fn lemma_readings_record_answers(names: Seq<Seq<char>>, answers: Seq<Option<Seq<char>>>)
    requires
        names.len() == answers.len(),
    ensures
        forall|k: Seq<char>|
            #[trigger] readings(names, answers).contains_key(k) <==> exists|i: int|
                0 <= i < names.len() && names[i] == k && answers[i] is Some,
        forall|i: int|
            0 <= i < names.len() && answers[i] is Some && (forall|j: int|
                i < j < names.len() && names[j] == names[i] ==> answers[j] is None) ==> readings(
                names,
                answers,
            )[#[trigger] names[i]] == answers[i]->0,
    decreases names.len(),
{
    if names.len() > 0 {
        let n = names.len() - 1;
        let ni = names.drop_last();
        let ai = answers.drop_last();
        lemma_readings_record_answers(ni, ai);
        let prev = readings(ni, ai);
        let cur = readings(names, answers);
        assert forall|k: Seq<char>| #[trigger] cur.contains_key(k) <==> exists|i: int|
            0 <= i < names.len() && names[i] == k && answers[i] is Some by {
            if cur.contains_key(k) {
                if answers[n] is Some && names[n] == k {
                } else {
                    assert(prev.contains_key(k));
                    let i = choose|i: int| 0 <= i < ni.len() && ni[i] == k && ai[i] is Some;
                    assert(names[i] == k && answers[i] is Some);
                }
            }
            if exists|i: int| 0 <= i < names.len() && names[i] == k && answers[i] is Some {
                let i = choose|i: int| 0 <= i < names.len() && names[i] == k && answers[i] is Some;
                if i < n {
                    assert(ni[i] == k && ai[i] is Some);
                    assert(prev.contains_key(k));
                }
            }
        }
        assert forall|i: int|
            0 <= i < names.len() && answers[i] is Some && (forall|j: int|
                i < j < names.len() && names[j] == names[i] ==> answers[j] is None) implies cur[
            #[trigger] names[i]] == answers[i]->0 by {
            if i < n {
                assert(ni[i] == names[i] && ai[i] == answers[i]);
                assert forall|j: int| i < j < ni.len() && ni[j] == ni[i] implies ai[j] is None by {
                    assert(names[j] == names[i]);
                }
                assert(prev[ni[i]] == ai[i]->0);
                if answers[n] is Some {
                    assert(names[n] != names[i]);
                }
            }
        }
    }
}

} // verus!
