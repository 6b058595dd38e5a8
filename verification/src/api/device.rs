//! Devices and the map of devices by id.

use vstd::prelude::*;
use crate::api::control_options::{clone_options, options_view, ControlOptions, ControlOptionsView};
use crate::string_map::StringMap;

verus! {

/// Whether a device is read from or commanded.
#[derive(Clone, Copy, PartialEq, Eq, Structural, Debug)]
pub enum DeviceType {
    Readable,
    Commandable,
}

/// A device that a hub drives.
#[derive(Debug, PartialEq)]
pub struct Device {
    pub id: String,
    pub dev_type: DeviceType,
    pub name: String,
    pub desc: String,
    pub img: String,
    pub ctrl_opts: Vec<ControlOptions>,
}

/// The mathematical value of a [`Device`].
pub struct DeviceView {
    pub id: Seq<char>,
    pub dev_type: DeviceType,
    pub name: Seq<char>,
    pub desc: Seq<char>,
    pub img: Seq<char>,
    pub ctrl_opts: Seq<ControlOptionsView>,
}

impl View for Device {
    type V = DeviceView;

    open spec fn view(&self) -> DeviceView {
        DeviceView {
            id: self.id@,
            dev_type: self.dev_type,
            name: self.name@,
            desc: self.desc@,
            img: self.img@,
            ctrl_opts: options_view(self.ctrl_opts@),
        }
    }
}

impl Clone for Device {
    fn clone(&self) -> (res: Self)
        ensures
            res@ == self@,
    {
        Device {
            id: self.id.clone(),
            dev_type: self.dev_type,
            name: self.name.clone(),
            desc: self.desc.clone(),
            img: self.img.clone(),
            ctrl_opts: clone_options(&self.ctrl_opts),
        }
    }
}

/// The views of a sequence of devices.
pub open spec fn devices_view(v: Seq<Device>) -> Seq<DeviceView> {
    v.map_values(|d: Device| d@)
}

/// A copy of a vector of devices.
pub fn clone_devices(v: &Vec<Device>) -> (res: Vec<Device>)
    ensures
        devices_view(res@) == devices_view(v@),
{
    let mut res: Vec<Device> = Vec::new();
    let n = v.len();
    let mut i: usize = 0;
    while i < n
        invariant
            n == v@.len(),
            i <= n,
            devices_view(res@) == devices_view(v@.take(i as int)),
        decreases n - i,
    {
        let c = v[i].clone();
        let ghost before = res@;
        res.push(c);
        assert(res@ == before.push(c));
        assert(devices_view(res@) =~= devices_view(before).push(c@));
        assert(v@.take(i + 1) =~= v@.take(i as int).push(v@[i as int]));
        assert(devices_view(v@.take(i + 1)) =~= devices_view(v@.take(i as int)).push(
            v@[i as int]@,
        ));
        i = i + 1;
    }
    assert(v@.take(n as int) =~= v@);
    res
}

/// The devices of a map by id, taken by their view.
pub open spec fn device_map(m: &StringMap<Device>) -> Map<Seq<char>, DeviceView> {
    m@.map_values(|d: Device| d@)
}

/// `m` with each of `devices` entered under its id, in order, so that a later
/// device replaces an earlier one of the same id.
pub open spec fn with_devices(m: Map<Seq<char>, DeviceView>, devices: Seq<DeviceView>) -> Map<
    Seq<char>,
    DeviceView,
>
    decreases devices.len(),
{
    if devices.len() == 0 {
        m
    } else {
        with_devices(m, devices.drop_last()).insert(devices.last().id, devices.last())
    }
}

/// Enters each of `devices` in `map` under its id, in order.
pub fn load(map: &mut StringMap<Device>, devices: &Vec<Device>)
    ensures
        device_map(final(map)) == with_devices(device_map(old(map)), devices_view(devices@)),
{
    let ghost start = device_map(map);
    let ghost dv = devices_view(devices@);
    let n = devices.len();
    let mut i: usize = 0;
    assert(dv.take(0) =~= Seq::<DeviceView>::empty());
    while i < n
        invariant
            n == devices@.len(),
            dv == devices_view(devices@),
            i <= n,
            device_map(map) == with_devices(start, dv.take(i as int)),
        decreases n - i,
    {
        let d = devices[i].clone();
        let id = d.id.clone();
        let ghost before = device_map(map);
        map.insert(id, d);
        assert(dv.take(i + 1).drop_last() =~= dv.take(i as int));
        assert(device_map(map) =~= before.insert(d@.id, d@));
        i = i + 1;
    }
    assert(dv.take(n as int) =~= dv);
}

/// The device of id `uuid`, which must have been entered.
pub fn search_device(devices: &StringMap<Device>, uuid: &String) -> (res: Device)
    requires
        devices@.contains_key(uuid@),
    ensures
        res@ == device_map(devices)[uuid@],
{
    devices.get(uuid).unwrap().clone()
}

/// What entering devices in order does to a map: an id among them maps to the
/// last device with that id, any other id keeps its device.
pub proof fn lemma_with_devices(m: Map<Seq<char>, DeviceView>, devices: Seq<DeviceView>, id: Seq<char>)
    ensures
        (exists|j: int| 0 <= j < devices.len() && devices[j].id == id) ==> {
            &&& 0 <= last_with_id(devices, id) < devices.len()
            &&& devices[last_with_id(devices, id)].id == id
            &&& with_devices(m, devices).contains_key(id)
            &&& with_devices(m, devices)[id] == devices[last_with_id(devices, id)]
        },
        !(exists|j: int| 0 <= j < devices.len() && devices[j].id == id) ==> {
            &&& with_devices(m, devices).contains_key(id) == m.contains_key(id)
            &&& m.contains_key(id) ==> with_devices(m, devices)[id] == m[id]
        },
    decreases devices.len(),
{
    if devices.len() > 0 {
        let init = devices.drop_last();
        lemma_with_devices(m, init, id);
        if devices.last().id != id {
            if exists|j: int| 0 <= j < devices.len() && devices[j].id == id {
                let j = choose|j: int| 0 <= j < devices.len() && devices[j].id == id;
                assert(j != devices.len() - 1);
                assert(init[j].id == id);
                assert(last_with_id(devices, id) == last_with_id(init, id));
                assert(init[last_with_id(init, id)] == devices[last_with_id(init, id)]);
            } else {
                assert forall|j: int| 0 <= j < init.len() implies init[j].id != id by {
                    assert(devices[j].id != id);
                }
            }
        } else {
            assert(devices[devices.len() - 1].id == id);
        }
    }
}

/// The position of the last device with id `id`.
pub open spec fn last_with_id(devices: Seq<DeviceView>, id: Seq<char>) -> int
    decreases devices.len(),
{
    if devices.len() == 0 {
        -1
    } else if devices.last().id == id {
        devices.len() - 1
    } else {
        last_with_id(devices.drop_last(), id)
    }
}

} // verus!
