//! The decisions of the device routes: which device and hub a request goes
//! to, and which requests are refused before any hub is asked.

use vstd::prelude::*;
use crate::api::device::{search_device, DeviceType, Device};
use crate::api::hub::{access_hub, hub_of, HubError, Registry};
use crate::string_map::StringMap;
use crate::api::auth::CookieToken;

verus! {

/// A device to create, with the Bluetooth address of its peripheral.
pub struct CreateDeviceRequest {
    pub device: Device,
    pub bluetooth: String,
}

/// A control request: values for options of a device.
pub struct DeviceControlRequest {
    pub device_id: String,
    pub data: StringMap<String>,
}

/// A request for the readings of a device.
pub struct DeviceFetchInfoRequest {
    pub device_id: String,
}

/// A control request that names its device by number.
pub struct DataControlRequest {
    pub device_id: u32,
    pub data: StringMap<String>,
}

/// Why a device route refused a request.
#[derive(Clone, Copy, PartialEq, Eq, Structural, Debug)]
pub enum RouteError {
    /// A control request for a device that is not commandable (bad request).
    NotCommandable,
    /// A reading request for a device that is not readable (bad request).
    NotReadable,
    /// The hub failed (server error).
    Hub(HubError),
}

impl RouteError {
    pub open spec fn spec_message(&self) -> Seq<char> {
        match self {
            RouteError::NotCommandable => "device is not commandable"@,
            RouteError::NotReadable => "device is not readable"@,
            RouteError::Hub(e) => e.spec_message(),
        }
    }

    /// The message the server answers with.
    pub fn message(&self) -> (res: String)
        ensures
            res@ == self.spec_message(),
    {
        match self {
            RouteError::NotCommandable => "device is not commandable".to_owned(),
            RouteError::NotReadable => "device is not readable".to_owned(),
            RouteError::Hub(e) => e.message(),
        }
    }

    /// Whether the request itself was at fault (else the server was).
    pub fn is_bad_request(&self) -> (res: bool)
        ensures
            res == !(self is Hub),
    {
        match self {
            RouteError::Hub(_) => false,
            _ => true,
        }
    }
}

/// Where a request for `device_id` needing a device of type `wanted` goes:
/// the device and the position of the hub that drives it.
fn route_to(registry: &Registry, device_id: &String, wanted: DeviceType, refusal: RouteError) -> (res: Result<(Device, usize), RouteError>)
    requires
        registry.devices().contains_key(device_id@),
    ensures
        registry.devices()[device_id@].dev_type != wanted ==> res == Err::<(Device, usize), RouteError>(refusal),
        registry.devices()[device_id@].dev_type == wanted ==> (res matches Ok((d, i)) && d@ == registry.devices()[device_id@]
            && hub_of(registry.hubs(), device_id@) == Some(i as int)),
{
    let map = registry.device_map();
    let device = search_device(map, device_id);
    assert(registry.devices().contains_key(device_id@));
    assert(device.id@ == device_id@);
    if device.dev_type != wanted {
        return Err(refusal);
    }
    assert(hub_of(registry.hubs(), device_id@) is Some);
    match access_hub(registry, &device) {
        Ok(i) => Ok((device, i)),
        Err(e) => Err(RouteError::Hub(e)),
    }
}

/// Where a control request goes: the device and the position of its hub.
/// A device that is not commandable is refused. Requests for an unknown
/// device are left out (the server stops on them). A known device always has
/// a hub.
pub fn control_device(registry: &Registry, request: &DeviceControlRequest) -> (res: Result<
    (Device, usize),
    RouteError,
>)
    requires
        registry.devices().contains_key(request.device_id@),
    ensures
        registry.devices()[request.device_id@].dev_type != DeviceType::Commandable ==> res
            == Err::<(Device, usize), RouteError>(RouteError::NotCommandable),
        registry.devices()[request.device_id@].dev_type == DeviceType::Commandable ==> (res matches Ok(
            (d, i),
        ) && d@ == registry.devices()[request.device_id@] && hub_of(
            registry.hubs(),
            request.device_id@,
        ) == Some(i as int)),
{
    route_to(registry, &request.device_id, DeviceType::Commandable, RouteError::NotCommandable)
}

/// Where a reading request goes: the device and the position of its hub.
/// A device that is not readable is refused. Requests for an unknown device
/// are left out (the server stops on them). A known device always has a hub.
pub fn fetch_info(registry: &Registry, request: &DeviceFetchInfoRequest) -> (res: Result<
    (Device, usize),
    RouteError,
>)
    requires
        registry.devices().contains_key(request.device_id@),
    ensures
        registry.devices()[request.device_id@].dev_type != DeviceType::Readable ==> res
            == Err::<(Device, usize), RouteError>(RouteError::NotReadable),
        registry.devices()[request.device_id@].dev_type == DeviceType::Readable ==> (res matches Ok(
            (d, i),
        ) && d@ == registry.devices()[request.device_id@] && hub_of(
            registry.hubs(),
            request.device_id@,
        ) == Some(i as int)),
{
    route_to(registry, &request.device_id, DeviceType::Readable, RouteError::NotReadable)
}

/// The pages of the web front end.
#[derive(Clone, Copy, PartialEq, Eq, Structural, Debug)]
pub enum Page {
    /// `/login`
    Login,
    /// `/`
    Home,
    /// `/devices`
    Devices,
    /// `/logout`
    Logout,
}

/// How a page request is answered.
#[derive(Clone, Copy, PartialEq, Eq, Structural, Debug)]
pub enum PageAction {
    /// Serve the front end's index page.
    ServeFrontend,
    /// Redirect permanently to the login page.
    RedirectToLogin,
    /// Redirect permanently to the home page.
    RedirectToHome,
}

/// How a page request is answered: the login page is served only to a
/// visitor without a valid access key (others go home), the home and devices
/// pages only to one with a valid key (others go to the login page), and
/// logging out goes to the login page.
pub fn page_action(page: Page, cookie: &CookieToken) -> (res: PageAction)
    ensures
        res == match page {
            Page::Login => if cookie.authorized {
                PageAction::RedirectToHome
            } else {
                PageAction::ServeFrontend
            },
            Page::Home | Page::Devices => if cookie.authorized {
                PageAction::ServeFrontend
            } else {
                PageAction::RedirectToLogin
            },
            Page::Logout => PageAction::RedirectToLogin,
        },
{
    match page {
        Page::Login => if cookie.authorized {
            PageAction::RedirectToHome
        } else {
            PageAction::ServeFrontend
        },
        Page::Home | Page::Devices => if cookie.authorized {
            PageAction::ServeFrontend
        } else {
            PageAction::RedirectToLogin
        },
        Page::Logout => PageAction::RedirectToLogin,
    }
}

} // verus!
