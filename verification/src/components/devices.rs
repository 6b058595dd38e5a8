//! The built-in devices: the LED and the distance checker of the main hub,
//! and the LED driven through a command template.

use vstd::prelude::*;
use crate::api::control_options::{ControlOptions, ControlOptionsView, ControllerType, F32_ZERO_BITS};
use crate::api::device::{Device, DeviceType, DeviceView};
use crate::api::dynamic::DynamicDevice;
use crate::string_map::{text_map, StringMap};

verus! {

/// The main hub's LED: commandable, with a picker `status` of `on` and `off`.
pub fn new_led_device() -> (res: Device)
    ensures
        res@.id == "287a47cc-f0fa-4575-948a-ffec1e1c7c7b"@,
        res@.dev_type == DeviceType::Commandable,
        res@.name == "LED"@,
        res@.desc == "방 불을 켜거나 끕니다"@,
        res@.img == "/lightbulb.png"@,
        res@.ctrl_opts == seq![
            ControlOptionsView {
                name: "status"@,
                opt_type: ControllerType::Picker,
                values: seq!["on"@, "off"@],
                range_min: F32_ZERO_BITS,
                range_max: F32_ZERO_BITS,
            },
        ],
{
    let mut values: Vec<&str> = Vec::new();
    values.push("on");
    values.push("off");
    let opt = ControlOptions::new_picker("status", values);
    let mut ctrl_opts = Vec::new();
    ctrl_opts.push(opt);
    let res = Device {
        id: "287a47cc-f0fa-4575-948a-ffec1e1c7c7b".to_owned(),
        dev_type: DeviceType::Commandable,
        name: "LED".to_owned(),
        desc: "방 불을 켜거나 끕니다".to_owned(),
        img: "/lightbulb.png".to_owned(),
        ctrl_opts,
    };
    assert(res@.ctrl_opts[0].values =~= seq!["on"@, "off"@]);
    assert(res@.ctrl_opts =~= seq![res@.ctrl_opts[0]]);
    res
}

/// The main hub's distance checker: readable, with a reading `dist_read`.
pub fn new_dist_checker() -> (res: Device)
    ensures
        res@.id == "718b88cf-5df5-418f-aa19-3815cfcdde05"@,
        res@.dev_type == DeviceType::Readable,
        res@.name == "Dist Checker"@,
        res@.desc == "거리를 확인합니다"@,
        res@.img == "/lightbulb.png"@,
        res@.ctrl_opts == seq![
            ControlOptionsView {
                name: "dist_read"@,
                opt_type: ControllerType::Read,
                values: Seq::<Seq<char>>::empty(),
                range_min: F32_ZERO_BITS,
                range_max: F32_ZERO_BITS,
            },
        ],
{
    let opt = ControlOptions::new_read("dist_read");
    let mut ctrl_opts = Vec::new();
    ctrl_opts.push(opt);
    let res = Device {
        id: "718b88cf-5df5-418f-aa19-3815cfcdde05".to_owned(),
        dev_type: DeviceType::Readable,
        name: "Dist Checker".to_owned(),
        desc: "거리를 확인합니다".to_owned(),
        img: "/lightbulb.png".to_owned(),
        ctrl_opts,
    };
    assert(res@.ctrl_opts =~= seq![res@.ctrl_opts[0]]);
    res
}

/// The devices of the main hub: the LED, then the distance checker.
pub fn main_hub_devices() -> (res: Vec<Device>)
    ensures
        res@.len() == 2,
        res@[0]@ == new_led_device_view(),
        res@[1]@ == new_dist_checker_view(),
{
    let mut res = Vec::new();
    res.push(new_led_device());
    res.push(new_dist_checker());
    res
}

/// The view of [`new_led_device`].
pub open spec fn new_led_device_view() -> DeviceView {
    DeviceView {
        id: "287a47cc-f0fa-4575-948a-ffec1e1c7c7b"@,
        dev_type: DeviceType::Commandable,
        name: "LED"@,
        desc: "방 불을 켜거나 끕니다"@,
        img: "/lightbulb.png"@,
        ctrl_opts: seq![
            ControlOptionsView {
                name: "status"@,
                opt_type: ControllerType::Picker,
                values: seq!["on"@, "off"@],
                range_min: F32_ZERO_BITS,
                range_max: F32_ZERO_BITS,
            },
        ],
    }
}

/// The view of [`new_dist_checker`].
pub open spec fn new_dist_checker_view() -> DeviceView {
    DeviceView {
        id: "718b88cf-5df5-418f-aa19-3815cfcdde05"@,
        dev_type: DeviceType::Readable,
        name: "Dist Checker"@,
        desc: "거리를 확인합니다"@,
        img: "/lightbulb.png"@,
        ctrl_opts: seq![
            ControlOptionsView {
                name: "dist_read"@,
                opt_type: ControllerType::Read,
                values: Seq::<Seq<char>>::empty(),
                range_min: F32_ZERO_BITS,
                range_max: F32_ZERO_BITS,
            },
        ],
    }
}

/// The LED driven through a template: a commandable device with a picker
/// `power` of `on` and `off`, at Bluetooth address `50:33:8B:2A:8D:3C`,
/// whose `power` command is `led:{power}`.
pub fn dynamic_led_device() -> (res: DynamicDevice)
    ensures
        res.device@.id == "7b80a948-37a2-48c9-b2f8-417257a786de"@,
        res.device@.dev_type == DeviceType::Commandable,
        res.device@.name == "[Dyn] LED"@,
        res.device@.desc == "빛!"@,
        res.device@.img == "lightbulb.png"@,
        res.device@.ctrl_opts == seq![
            ControlOptionsView {
                name: "power"@,
                opt_type: ControllerType::Picker,
                values: seq!["on"@, "off"@],
                range_min: F32_ZERO_BITS,
                range_max: F32_ZERO_BITS,
            },
        ],
        res.bluetooth@ == "50:33:8B:2A:8D:3C"@,
        text_map(&res.handlers) == Map::<Seq<char>, Seq<char>>::empty().insert(
            "power"@,
            "led:{power}"@,
        ),
{
    let mut values: Vec<&str> = Vec::new();
    values.push("on");
    values.push("off");
    let opt = ControlOptions::new_picker("power", values);
    let mut ctrl_opts = Vec::new();
    ctrl_opts.push(opt);
    let device = Device {
        id: "7b80a948-37a2-48c9-b2f8-417257a786de".to_owned(),
        dev_type: DeviceType::Commandable,
        name: "[Dyn] LED".to_owned(),
        desc: "빛!".to_owned(),
        img: "lightbulb.png".to_owned(),
        ctrl_opts,
    };
    assert(device@.ctrl_opts[0].values =~= seq!["on"@, "off"@]);
    assert(device@.ctrl_opts =~= seq![device@.ctrl_opts[0]]);
    let mut handlers = StringMap::new();
    handlers.insert("power".to_owned(), "led:{power}".to_owned());
    assert(text_map(&handlers) =~= Map::<Seq<char>, Seq<char>>::empty().insert(
        "power"@,
        "led:{power}"@,
    ));
    DynamicDevice { device, bluetooth: "50:33:8B:2A:8D:3C".to_owned(), handlers }
}

} // verus!
