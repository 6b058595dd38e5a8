use home_control_backend::api::control_options::ControlOptions;
use home_control_backend::api::device::{search_device, Device, DeviceType};
use home_control_backend::api::dynamic::dynamic_hub_commands;
use home_control_backend::api::hub::{
    access_hub, collect_readings, load_hub_and_devices, main_hub_commands, read_hub, read_plan,
    HubError, Registry,
};
use home_control_backend::api::routes::{control_device, fetch_info, DeviceControlRequest, DeviceFetchInfoRequest, RouteError};
use home_control_backend::components::devices::{
    dynamic_led_device, main_hub_devices, new_dist_checker, new_led_device,
};
use home_control_backend::string_map::StringMap;

fn text_map(entries: &[(&str, &str)]) -> StringMap<String> {
    let mut m = StringMap::new();
    for (k, v) in entries {
        m.insert(k.to_string(), v.to_string());
    }
    m
}

fn device(id: &str, dev_type: DeviceType, opts: Vec<ControlOptions>) -> Device {
    Device {
        id: id.to_string(),
        dev_type,
        name: format!("device {}", id),
        desc: String::new(),
        img: String::new(),
        ctrl_opts: opts,
    }
}

#[test]
fn built_in_devices() {
    let led = new_led_device();
    assert_eq!(led.id, "287a47cc-f0fa-4575-948a-ffec1e1c7c7b");
    assert_eq!(led.dev_type, DeviceType::Commandable);
    assert_eq!(led.ctrl_opts, vec![ControlOptions::new_picker("status", vec!["on", "off"])]);
    let dist = new_dist_checker();
    assert_eq!(dist.dev_type, DeviceType::Readable);
    assert_eq!(dist.desc, "거리를 확인합니다");
    assert_eq!(dist.ctrl_opts, vec![ControlOptions::new_read("dist_read")]);
    assert_eq!(main_hub_devices(), vec![new_led_device(), new_dist_checker()]);
}

#[test]
fn loaded_devices_are_found() {
    let mut r = Registry::new();
    assert_eq!(load_hub_and_devices(&mut r, main_hub_devices()), 0);
    let led = search_device(r.device_map(), &new_led_device().id);
    assert_eq!(led, new_led_device());
    assert!(r.has_device(&new_dist_checker().id));
    assert!(!r.has_device(&"nope".to_string()));
}

#[test]
fn later_device_of_an_id_replaces_earlier() {
    let mut r = Registry::new();
    let a = device("x", DeviceType::Readable, vec![]);
    let b = device("x", DeviceType::Commandable, vec![]);
    load_hub_and_devices(&mut r, vec![a]);
    assert_eq!(load_hub_and_devices(&mut r, vec![b.clone()]), 1);
    assert_eq!(search_device(r.device_map(), &"x".to_string()), b);
    // the first hub that has the id is the one asked
    assert_eq!(access_hub(&r, &b), Ok(0));
}

#[test]
fn hubs_are_found_by_device() {
    let mut r = Registry::new();
    load_hub_and_devices(&mut r, main_hub_devices());
    let dynamic = dynamic_led_device();
    load_hub_and_devices(&mut r, dynamic.devices());
    assert_eq!(access_hub(&r, &new_led_device()), Ok(0));
    assert_eq!(read_hub(&r, &new_dist_checker()), Ok(0));
    assert_eq!(access_hub(&r, &dynamic.device), Ok(1));
    let stranger = device("nobody", DeviceType::Commandable, vec![]);
    assert_eq!(access_hub(&r, &stranger), Err(HubError::DeviceNotFound));
    assert_eq!(HubError::DeviceNotFound.message(), "Couldn't find device");
}

#[test]
fn main_hub_forwards_values_in_option_order() {
    let d = device(
        "d",
        DeviceType::Commandable,
        vec![
            ControlOptions::new_picker("a", vec!["1"]),
            ControlOptions::new_input("b"),
            ControlOptions::new_input("c"),
        ],
    );
    let data = text_map(&[("c", "third"), ("a", "first"), ("z", "ignored")]);
    assert_eq!(main_hub_commands(true, &d, &data), Ok(vec!["first".to_string(), "third".to_string()]));
}

#[test]
fn hubs_check_connection_then_type() {
    let cmd = device("c", DeviceType::Commandable, vec![ControlOptions::new_read("r")]);
    let rd = device("r", DeviceType::Readable, vec![ControlOptions::new_read("r")]);
    let data = text_map(&[]);
    assert_eq!(main_hub_commands(false, &rd, &data), Err(HubError::NotConnected));
    assert_eq!(main_hub_commands(true, &rd, &data), Err(HubError::NotCommandable));
    assert_eq!(read_plan(false, &cmd), Err(HubError::NotConnected));
    assert_eq!(read_plan(true, &cmd), Err(HubError::NotReadable));
    assert_eq!(HubError::NotConnected.message(), "Device isn't connected");
    assert_eq!(HubError::NotCommandable.message(), "Only Commandable Devices can run this function");
    assert_eq!(HubError::NotReadable.message(), "Only Readable Devices can run this function");
}

#[test]
fn reads_go_to_read_options() {
    let d = device(
        "r",
        DeviceType::Readable,
        vec![
            ControlOptions::new_read("t1"),
            ControlOptions::new_input("x"),
            ControlOptions::new_read("t2"),
        ],
    );
    let names = read_plan(true, &d).unwrap();
    assert_eq!(names, vec!["t1".to_string(), "t2".to_string()]);
    let got = collect_readings(&names, vec![Some("20".to_string()), None]);
    assert_eq!(got.len(), 1);
    assert_eq!(got.get(&"t1".to_string()), Some(&"20".to_string()));
    assert!(!got.contains_key(&"t2".to_string()));
}

#[test]
fn dynamic_hub_fills_templates() {
    let dynamic = dynamic_led_device();
    let data = text_map(&[("power", "on")]);
    assert_eq!(
        dynamic_hub_commands(true, &dynamic.device, &dynamic.handlers, &data),
        Ok(vec!["led:on".to_string()])
    );
    let none = text_map(&[("other", "on")]);
    assert_eq!(dynamic_hub_commands(true, &dynamic.device, &dynamic.handlers, &none), Ok(vec![]));
    assert_eq!(
        dynamic_hub_commands(false, &dynamic.device, &dynamic.handlers, &data),
        Err(HubError::NotConnected)
    );
}

#[test]
fn dynamic_templates_replace_every_placeholder() {
    let d = device("d", DeviceType::Commandable, vec![ControlOptions::new_input("v")]);
    let handlers = text_map(&[("v", "{v}-{v}-{w}")]);
    let data = text_map(&[("v", "7")]);
    assert_eq!(dynamic_hub_commands(true, &d, &handlers, &data), Ok(vec!["7-7-{w}".to_string()]));
}

#[test]
fn routes_refuse_wrong_device_types() {
    let mut r = Registry::new();
    load_hub_and_devices(&mut r, main_hub_devices());
    let led = new_led_device();
    let dist = new_dist_checker();
    let control_dist = DeviceControlRequest { device_id: dist.id.clone(), data: StringMap::new() };
    assert_eq!(control_device(&r, &control_dist).err(), Some(RouteError::NotCommandable));
    assert_eq!(RouteError::NotCommandable.message(), "device is not commandable");
    let fetch_led = DeviceFetchInfoRequest { device_id: led.id.clone() };
    assert_eq!(fetch_info(&r, &fetch_led).err(), Some(RouteError::NotReadable));
    assert_eq!(RouteError::NotReadable.message(), "device is not readable");
    assert!(RouteError::NotReadable.is_bad_request());
    assert!(!RouteError::Hub(HubError::NotConnected).is_bad_request());
    let control_led = DeviceControlRequest { device_id: led.id.clone(), data: StringMap::new() };
    let (found, hub) = control_device(&r, &control_led).ok().unwrap();
    assert_eq!(found, led);
    assert_eq!(hub, 0);
}
