//! Upload of the image that a panel shows while the system starts.
//!
//! An upload that is interrupted can leave a panel in need of a power cycle. Its panel is
//! therefore written down before the upload touches the device, and left alone until it was
//! seen disconnected for a while or the user clears it.
use vstd::prelude::*;
use vstd::string::*;

use crate::bytes::same_mac;
use crate::media::{indices, is_blocked, RECOVERY_MESSAGE};
use crate::refresh::{candidate_of, DetectedLcd};
use crate::registry::{
    lemma_picked_from, lemma_picked_push, picked, DeviceFamily, DiscoveredDevice, FanDeviceInfo,
    Registry, UsbDevice,
};
use crate::selection::ids_match;
use crate::service::{ActiveTarget, ServiceManager, StartupImageState, StartupImageStatus};
use crate::table::Table;
use crate::text::{has_prefix, strip_prefix};
use crate::topology::{flex_receiver_slot, flex_slot, UsbLocation};

verus! {

/// How long a blocked panel must be gone before it is trusted again, in nanoseconds.
pub const ABSENCE_REQUIRED: u64 = 10_000_000_000;

/// How long the receiver may take to confirm its display mode, in nanoseconds.
pub const THEME_ACK_TIMEOUT: u64 = 3_000_000_000;

/// Why no USB display could be picked for a wireless upload.
#[derive(Clone, Copy, Debug, PartialEq, Eq, Structural)]
pub enum TargetError {
    /// A display does not know its wireless address yet.
    IdentityPending,
    /// Several displays report the address.
    Ambiguous,
}

/// The display that is linked to the address, looking at the candidates in their order.
pub open spec fn linked_target(mac: [u8; 6], candidates: Seq<(usize, Option<[u8; 6]>)>) -> Result<
    Option<usize>,
    TargetError,
>
    decreases candidates.len(),
{
    if candidates.len() == 0 {
        Ok(None)
    } else {
        match linked_target(mac, candidates.drop_last()) {
            Err(error) => Err(error),
            Ok(found) => match candidates.last().1 {
                None => Err(TargetError::IdentityPending),
                Some(link) => if link != mac {
                    Ok(found)
                } else if found is Some {
                    Err(TargetError::Ambiguous)
                } else {
                    Ok(Some(candidates.last().0))
                },
            },
        }
    }
}

proof fn lemma_linked_error_stays(mac: [u8; 6], candidates: Seq<(usize, Option<[u8; 6]>)>, n: int)
    requires
        0 <= n <= candidates.len(),
        linked_target(mac, candidates.take(n)) is Err,
    ensures
        linked_target(mac, candidates) == linked_target(mac, candidates.take(n)),
    decreases candidates.len(),
{
    if n == candidates.len() {
        assert(candidates.take(n) =~= candidates);
    } else {
        assert(candidates.drop_last().take(n) =~= candidates.take(n));
        lemma_linked_error_stays(mac, candidates.drop_last(), n);
    }
}

/// Picks the display that is linked to the address.
pub fn wireless_target_index(
    mac: [u8; 6],
    candidates: &Vec<(usize, Option<[u8; 6]>)>,
) -> (index: Result<Option<usize>, TargetError>)
    ensures
        index == linked_target(mac, candidates@),
{
    let mut matching: Option<usize> = None;
    let mut i: usize = 0;
    while i < candidates.len()
        invariant
            i <= candidates@.len(),
            linked_target(mac, candidates@.take(i as int)) == Ok::<Option<usize>, TargetError>(
                matching,
            ),
        decreases candidates@.len() - i,
    {
        assert(candidates@.take(i + 1).drop_last() =~= candidates@.take(i as int));
        let (index, linked) = candidates[i];
        let link = match linked {
            Some(link) => link,
            None => {
                proof {
                    lemma_linked_error_stays(mac, candidates@, i + 1);
                }
                return Err(TargetError::IdentityPending);
            },
        };
        if same_mac(&link, &mac) {
            if matching.is_some() {
                proof {
                    lemma_linked_error_stays(mac, candidates@, i + 1);
                }
                return Err(TargetError::Ambiguous);
            }
            matching = Some(index);
        }
        i += 1;
    }
    assert(candidates@.take(i as int) =~= candidates@);
    Ok(matching)
}

/// Why an upload cannot start.
#[derive(Clone, Copy, Debug, PartialEq, Eq, Structural)]
pub enum StartError {
    OtherOperation,
    RecoveryRequired,
    PixelCleaning,
    MediaBusy,
    NotBound,
    TargetsBusy,
    DesktopMode,
    IdentityPending,
    AmbiguousIdentity,
    NotConnected,
    NoTopology,
    NoReceiver,
    AmbiguousReceiver,
    NotConfigured,
    DimensionsChanged,
}

impl StartError {
    /// What the user is told.
    pub fn message(&self) -> (text: &'static str)
        ensures
            text@ == match self {
                StartError::OtherOperation => "Another LCD operation is running"@,
                StartError::RecoveryRequired => RECOVERY_MESSAGE@,
                StartError::PixelCleaning => "Stop pixel cleaning before uploading a startup image"@,
                StartError::MediaBusy => "Wait for LCD media preparation to finish"@,
                StartError::NotBound => "A bound HydroShift II Circle or Square is required"@,
                StartError::TargetsBusy => "LCD targets are busy"@,
                StartError::DesktopMode =>
                    "Switch H2 from Desktop to LCD mode before uploading a startup image"@,
                StartError::IdentityPending =>
                    "H2 USB-to-wireless identity is not available yet. Wait for device telemetry and retry"@,
                StartError::AmbiguousIdentity =>
                    "Multiple USB displays report the same H2 wireless identity"@,
                StartError::NotConnected => "LCD is no longer in the current USB inventory"@,
                StartError::NoTopology => "Flex LCD USB parent topology is unavailable"@,
                StartError::NoReceiver =>
                    "Connect the matching Flex LCD receiver on the same USB hub before uploading"@,
                StartError::AmbiguousReceiver =>
                    "Flex receiver topology is ambiguous; startup upload was not started"@,
                StartError::NotConfigured =>
                    "Configure a live image for this LCD in LCD settings before uploading its startup image"@,
                StartError::DimensionsChanged =>
                    "LCD identity or dimensions changed; refresh devices"@,
            },
    {
        match self {
            StartError::OtherOperation => "Another LCD operation is running",
            StartError::RecoveryRequired => RECOVERY_MESSAGE,
            StartError::PixelCleaning => "Stop pixel cleaning before uploading a startup image",
            StartError::MediaBusy => "Wait for LCD media preparation to finish",
            StartError::NotBound => "A bound HydroShift II Circle or Square is required",
            StartError::TargetsBusy => "LCD targets are busy",
            StartError::DesktopMode =>
                "Switch H2 from Desktop to LCD mode before uploading a startup image",
            StartError::IdentityPending =>
                "H2 USB-to-wireless identity is not available yet. Wait for device telemetry and retry",
            StartError::AmbiguousIdentity =>
                "Multiple USB displays report the same H2 wireless identity",
            StartError::NotConnected => "LCD is no longer in the current USB inventory",
            StartError::NoTopology => "Flex LCD USB parent topology is unavailable",
            StartError::NoReceiver =>
                "Connect the matching Flex LCD receiver on the same USB hub before uploading",
            StartError::AmbiguousReceiver =>
                "Flex receiver topology is ambiguous; startup upload was not started",
            StartError::NotConfigured =>
                "Configure a live image for this LCD in LCD settings before uploading its startup image",
            StartError::DimensionsChanged => "LCD identity or dimensions changed; refresh devices",
        }
    }
}

/// The first device of that identity, from `from` on.
pub open spec fn device_from(devices: Seq<UsbDevice>, id: Seq<char>, from: int) -> Option<UsbDevice>
    decreases devices.len() - from,
{
    if from >= devices.len() {
        None
    } else if devices[from].device_id@ == id {
        Some(devices[from])
    } else {
        device_from(devices, id, from + 1)
    }
}

/// The slot in which a receiver drives the panel.
pub open spec fn slot_of(
    registry: Registry,
    lcd_pid: u16,
    location: (u8, Seq<u8>),
    receiver: FanDeviceInfo,
) -> Option<(Seq<char>, u8)> {
    let id = receiver.device_id@;
    if receiver.vid != 0x43a8 || !registry.fan_devices@.contains_key(id)
        || !registry.usb_locations@.contains_key(id) {
        None
    } else {
        match flex_slot(lcd_pid, location, receiver.pid, registry.usb_locations@[id]@) {
            Some(slot) => Some((id, slot)),
            None => None,
        }
    }
}

/// The receivers that drive the panel, each with the slot.
pub open spec fn flex_receivers(
    registry: Registry,
    lcd_pid: u16,
    location: (u8, Seq<u8>),
) -> Seq<(Seq<char>, u8)> {
    picked(
        registry.fan_device_info@,
        |receiver: FanDeviceInfo| slot_of(registry, lcd_pid, location, receiver),
    )
}

/// The receiver that must be told about a new startup image of the panel, with the slot; none
/// for a panel that is not a Flex one.
pub open spec fn startup_receiver(registry: Registry, identity: Seq<char>) -> Result<
    Option<(Seq<char>, u8)>,
    StartError,
> {
    match device_from(registry.cached_usb_devices@, identity, 0) {
        None => Err(StartError::NotConnected),
        Some(lcd) => if lcd.vid != 0x1cbe || (lcd.pid != 0xa018 && lcd.pid != 0xa019) {
            Ok(None)
        } else if !registry.usb_locations@.contains_key(identity) {
            Err(StartError::NoTopology)
        } else {
            let found = flex_receivers(registry, lcd.pid, registry.usb_locations@[identity]@);
            if found.len() == 0 {
                Err(StartError::NoReceiver)
            } else if found.len() > 1 {
                Err(StartError::AmbiguousReceiver)
            } else {
                Ok(Some(found[0]))
            }
        },
    }
}

/// What a receiver and slot stand for.
pub open spec fn receiver_view(receiver: Option<(String, u8)>) -> Option<(Seq<char>, u8)> {
    match receiver {
        Some(receiver) => Some((receiver.0@, receiver.1)),
        None => None,
    }
}

impl Registry {
    fn device(&self, id: &String) -> (device: Option<&UsbDevice>)
        ensures
            device is Some <==> device_from(self.cached_usb_devices@, id@, 0) is Some,
            device matches Some(device) ==> device_from(self.cached_usb_devices@, id@, 0) == Some(
                *device,
            ),
    {
        let mut i: usize = 0;
        while i < self.cached_usb_devices.len()
            invariant
                i <= self.cached_usb_devices@.len(),
                device_from(self.cached_usb_devices@, id@, 0) == device_from(
                    self.cached_usb_devices@,
                    id@,
                    i as int,
                ),
            decreases self.cached_usb_devices@.len() - i,
        {
            if self.cached_usb_devices[i].device_id == *id {
                return Some(&self.cached_usb_devices[i]);
            }
            i += 1;
        }
        None
    }

    fn receiver_slot(&self, lcd_pid: u16, location: &UsbLocation, receiver: &FanDeviceInfo) -> (slot:
        Option<u8>)
        ensures
            match slot {
                Some(slot) => slot_of(*self, lcd_pid, location@, *receiver) == Some(
                    (receiver.device_id@, slot),
                ),
                None => slot_of(*self, lcd_pid, location@, *receiver) is None,
            },
    {
        if receiver.vid != 0x43a8 || !self.fan_devices.contains(&receiver.device_id) {
            return None;
        }
        match self.usb_locations.get(&receiver.device_id) {
            Some(place) => flex_receiver_slot(lcd_pid, location, receiver.pid, place),
            None => None,
        }
    }

    /// The receiver that must be told about a new startup image of the panel, with the slot;
    /// none for a panel that is not a Flex one.
    pub fn flex_startup_receiver(&self, identity: &String) -> (receiver: Result<
        Option<(String, u8)>,
        StartError,
    >)
        ensures
            match receiver {
                Ok(receiver) => startup_receiver(*self, identity@) == Ok::<
                    Option<(Seq<char>, u8)>,
                    StartError,
                >(receiver_view(receiver)),
                Err(error) => startup_receiver(*self, identity@) == Err::<
                    Option<(Seq<char>, u8)>,
                    StartError,
                >(error),
            },
    {
        let lcd_pid: u16 = match self.device(identity) {
            Some(lcd) => if lcd.vid != 0x1cbe || (lcd.pid != 0xa018 && lcd.pid != 0xa019) {
                return Ok(None);
            } else {
                lcd.pid
            },
            None => {
                return Err(StartError::NotConnected);
            },
        };
        let location = match self.usb_locations.get(identity) {
            Some(location) => location,
            None => {
                return Err(StartError::NoTopology);
            },
        };
        let ghost pick = |receiver: FanDeviceInfo|
            slot_of(*self, lcd_pid, location@, receiver);
        let mut found: Option<(String, u8)> = None;
        let mut several = false;
        let mut i: usize = 0;
        while i < self.fan_device_info.len()
            invariant
                i <= self.fan_device_info@.len(),
                pick == (|receiver: FanDeviceInfo|
                    slot_of(*self, lcd_pid, location@, receiver)),
                ({
                    let seen = picked(self.fan_device_info@.take(i as int), pick);
                    &&& found is None <==> seen.len() == 0
                    &&& found matches Some(found) ==> seen[0] == (found.0@, found.1)
                    &&& several <==> seen.len() > 1
                }),
            decreases self.fan_device_info@.len() - i,
        {
            proof {
                lemma_picked_push(self.fan_device_info@, i as int, pick);
            }
            let receiver = &self.fan_device_info[i];
            if let Some(slot) = self.receiver_slot(lcd_pid, location, receiver) {
                if found.is_some() {
                    several = true;
                } else {
                    found = Some((receiver.device_id.clone(), slot));
                }
            }
            i += 1;
        }
        assert(self.fan_device_info@.take(i as int) =~= self.fan_device_info@);
        if found.is_none() {
            Err(StartError::NoReceiver)
        } else if several {
            Err(StartError::AmbiguousReceiver)
        } else {
            Ok(found)
        }
    }
}

/// The first target on the device, in the order of the table, from `from` on.
pub open spec fn target_on(
    targets: Table<usize, ActiveTarget>,
    identity: Seq<char>,
    from: int,
) -> Option<usize>
    decreases targets.size() - from,
{
    if from >= targets.size() {
        None
    } else if targets@[targets.key(from)].device_identity@ == identity {
        Some(targets.key(from))
    } else {
        target_on(targets, identity, from + 1)
    }
}

/// The device is a HydroShift II panel on USB.
pub open spec fn is_h2_panel(registry: Registry, identity: Seq<char>) -> bool {
    exists|i: int|
        0 <= i < registry.cached_usb_devices@.len() && (
        #[trigger] registry.cached_usb_devices@[i]).device_id@ == identity
            && registry.cached_usb_devices@[i].family is HydroShift2Lcd
}

/// The target at this position of the table, with the wireless address that it is linked to, if
/// it is a HydroShift II panel.
pub open spec fn h2_target(
    registry: Registry,
    targets: Table<usize, ActiveTarget>,
    position: int,
) -> Option<(usize, Option<[u8; 6]>)> {
    let index = targets.key(position);
    let identity = targets@[index].device_identity@;
    if is_h2_panel(registry, identity) {
        Some(
            (
                index,
                if registry.fan_devices@.contains_key(identity) {
                    registry.fan_devices@[identity].wireless_link_mac
                } else {
                    None
                },
            ),
        )
    } else {
        None
    }
}

/// All targets on HydroShift II panels, with the wireless addresses that they are linked to.
pub open spec fn h2_targets(registry: Registry, targets: Table<usize, ActiveTarget>) -> Seq<
    (usize, Option<[u8; 6]>),
> {
    picked(indices(targets.size()), |position: int| h2_target(registry, targets, position))
}

proof fn lemma_target_on(targets: Table<usize, ActiveTarget>, identity: Seq<char>, from: int)
    requires
        0 <= from,
        target_on(targets, identity, from) is Some,
    ensures
        targets@.contains_key(target_on(targets, identity, from)->0),
        targets@[target_on(targets, identity, from)->0].device_identity@ == identity,
    decreases targets.size() - from,
{
    if targets@[targets.key(from)].device_identity@ == identity {
        targets.lemma_key_at(from);
    } else {
        lemma_target_on(targets, identity, from + 1);
    }
}

proof fn lemma_linked_target(
    mac: [u8; 6],
    candidates: Seq<(usize, Option<[u8; 6]>)>,
) -> (k: int)
    requires
        linked_target(mac, candidates) matches Ok(Some(display)),
    ensures
        0 <= k < candidates.len(),
        candidates[k] == (linked_target(mac, candidates)->Ok_0->0, Some(mac)),
    decreases candidates.len(),
{
    if candidates.last().1 == Some(mac) {
        candidates.len() - 1
    } else {
        lemma_linked_target(mac, candidates.drop_last())
    }
}

/// The target is a HydroShift II panel that is linked to the wireless address.
pub open spec fn is_linked(
    registry: Registry,
    targets: Map<usize, ActiveTarget>,
    target: usize,
    mac: [u8; 6],
) -> bool {
    let identity = targets[target].device_identity@;
    &&& targets.contains_key(target)
    &&& is_h2_panel(registry, identity)
    &&& registry.fan_devices@.contains_key(identity)
    &&& registry.fan_devices@[identity].wireless_link_mac == Some(mac)
}

/// A bound HydroShift II receiver has this address.
pub open spec fn h2_bound(wireless: Seq<DiscoveredDevice>, mac: [u8; 6]) -> bool {
    exists|i: int|
        0 <= i < wireless.len() && (#[trigger] wireless[i]).mac == mac && (wireless[i].device_type
            == 10 || wireless[i].device_type == 11)
}

/// A HydroShift II display is in desktop mode.
pub open spec fn in_desktop_mode(devices: Seq<UsbDevice>) -> bool {
    exists|i: int|
        0 <= i < devices.len() && (#[trigger] devices[i]).vid == 0x1a86 && (devices[i].pid == 0xad20
            || devices[i].pid == 0xad22)
}

/// How an upload is carried out.
pub enum StartRoute {
    /// Over the radio. The USB display of the receiver, if there is one, is paused.
    Wireless { mac: [u8; 6], display: Option<usize> },
    /// Over USB, with the receiver that is told about the new image.
    Wired { target: usize, receiver: Option<(String, u8)> },
}

/// What a route stands for.
pub enum RouteView {
    Wireless { mac: [u8; 6], display: Option<usize> },
    Wired { target: usize, receiver: Option<(Seq<char>, u8)> },
}

impl View for StartRoute {
    type V = RouteView;

    open spec fn view(&self) -> RouteView {
        match self {
            StartRoute::Wireless { mac, display } => RouteView::Wireless {
                mac: *mac,
                display: *display,
            },
            StartRoute::Wired { target, receiver } => RouteView::Wired {
                target: *target,
                receiver: receiver_view(*receiver),
            },
        }
    }
}

/// What is asked for: an image of these dimensions for this panel.
pub struct StartRequest {
    pub identity: String,
    /// The address that the identity spells, if it is that of a wireless receiver.
    pub mac: Option<[u8; 6]>,
    pub width: u32,
    pub height: u32,
}

/// The part of a wireless identity that spells the address.
pub fn wireless_address(identity: &str) -> (address: Option<&str>)
    ensures
        address is Some <==> has_prefix(identity@, "wireless:"@),
        address matches Some(address) ==> address@ == identity@.skip("wireless:"@.len() as int),
{
    strip_prefix(identity, "wireless:")
}

impl ServiceManager {
    /// Why no upload can start at all right now, if so.
    pub open spec fn upload_barred(self, identity: Seq<char>, media_busy: bool) -> Option<
        StartError,
    > {
        if self.startup_image_job is Some || self.display_switching
            || self.lcd_group_recovery.is_busy() {
            Some(StartError::OtherOperation)
        } else if self.startup_image_quarantine@.contains(identity) {
            Some(StartError::RecoveryRequired)
        } else if self.pixel_cleaning {
            Some(StartError::PixelCleaning)
        } else if media_busy {
            Some(StartError::MediaBusy)
        } else {
            None
        }
    }

    /// How an upload over the radio is carried out.
    pub open spec fn wireless_route(
        self,
        mac: [u8; 6],
        wireless: Seq<DiscoveredDevice>,
        targets_locked: bool,
    ) -> Result<RouteView, StartError> {
        if !h2_bound(wireless, mac) {
            Err(StartError::NotBound)
        } else if !targets_locked {
            Err(StartError::TargetsBusy)
        } else if in_desktop_mode(self.registry.cached_usb_devices@) {
            Err(StartError::DesktopMode)
        } else {
            match linked_target(mac, h2_targets(self.registry, self.targets)) {
                Ok(display) => Ok(RouteView::Wireless { mac, display }),
                Err(TargetError::IdentityPending) => Err(StartError::IdentityPending),
                Err(TargetError::Ambiguous) => Err(StartError::AmbiguousIdentity),
            }
        }
    }

    /// How an upload over USB is carried out.
    pub open spec fn wired_route(self, request: StartRequest, targets_locked: bool) -> Result<
        RouteView,
        StartError,
    > {
        match startup_receiver(self.registry, request.identity@) {
            Err(error) => Err(error),
            Ok(receiver) => if !targets_locked {
                Err(StartError::TargetsBusy)
            } else {
                match target_on(self.targets, request.identity@, 0) {
                    None => Err(StartError::NotConfigured),
                    Some(target) => if self.targets@[target].screen.width != request.width
                        || self.targets@[target].screen.height != request.height {
                        Err(StartError::DimensionsChanged)
                    } else {
                        Ok(RouteView::Wired { target, receiver })
                    },
                }
            },
        }
    }

    /// The route leads to connected targets: the panel that was asked for, in the dimensions that
    /// were asked for, or the display that is linked to the receiver that was asked for.
    pub open spec fn leads_to_targets(self, request: StartRequest, route: RouteView) -> bool {
        match route {
            RouteView::Wired { target, receiver } => {
                &&& self.targets@.contains_key(target)
                &&& self.targets@[target].device_identity@ == request.identity@
                &&& self.targets@[target].screen.width == request.width
                &&& self.targets@[target].screen.height == request.height
            },
            RouteView::Wireless { mac, display } => {
                &&& request.mac == Some(mac)
                &&& display matches Some(target) ==> is_linked(
                    self.registry,
                    self.targets@,
                    target,
                    mac,
                )
            },
        }
    }

    /// Every upload that can start leads to connected targets.
    pub proof fn lemma_uploads_lead_to_targets(
        self,
        request: StartRequest,
        wireless: Seq<DiscoveredDevice>,
        media_busy: bool,
        targets_locked: bool,
    )
        ensures
            self.upload_route(request, wireless, media_busy, targets_locked) matches Ok(route)
                ==> self.leads_to_targets(request, route),
    {
        let route = self.upload_route(request, wireless, media_busy, targets_locked);
        if route is Ok {
            match route->Ok_0 {
                RouteView::Wired { target, receiver } => {
                    lemma_target_on(self.targets, request.identity@, 0);
                },
                RouteView::Wireless { mac, display } => {
                    if display is Some {
                        let pick = |position: int|
                            h2_target(self.registry, self.targets, position);
                        let all = indices(self.targets.size());
                        let k = lemma_linked_target(mac, h2_targets(self.registry, self.targets));
                        let position = lemma_picked_from(all, pick, k);
                        assert(all[position] == position);
                        self.targets.lemma_key_at(position);
                    }
                },
            }
        }
    }

    /// How an upload is carried out, or why it cannot start.
    pub open spec fn upload_route(
        self,
        request: StartRequest,
        wireless: Seq<DiscoveredDevice>,
        media_busy: bool,
        targets_locked: bool,
    ) -> Result<RouteView, StartError> {
        match self.upload_barred(request.identity@, media_busy) {
            Some(error) => Err(error),
            None => if has_prefix(request.identity@, "wireless:"@) && request.mac is Some {
                self.wireless_route(request.mac->0, wireless, targets_locked)
            } else {
                self.wired_route(request, targets_locked)
            },
        }
    }

    fn find_target(&self, identity: &String) -> (index: Option<usize>)
        ensures
            index == target_on(self.targets, identity@, 0),
            index matches Some(index) ==> self.targets@.contains_key(index),
    {
        let n: usize = self.targets.len();
        let mut i: usize = 0;
        while i < n
            invariant
                i <= n,
                n == self.targets.size(),
                target_on(self.targets, identity@, 0) == target_on(
                    self.targets,
                    identity@,
                    i as int,
                ),
            decreases n - i,
        {
            let (index, target) = self.targets.entry(i);
            if target.device_identity == *identity {
                return Some(*index);
            }
            i += 1;
        }
        None
    }

    fn is_h2(&self, identity: &String) -> (h2: bool)
        ensures
            h2 == is_h2_panel(self.registry, identity@),
    {
        let devices = &self.registry.cached_usb_devices;
        let mut i: usize = 0;
        while i < devices.len()
            invariant
                i <= devices@.len(),
                *devices == self.registry.cached_usb_devices,
                forall|j: int|
                    0 <= j < i ==> !((#[trigger] devices@[j]).device_id@ == identity@
                        && devices@[j].family is HydroShift2Lcd),
            decreases devices@.len() - i,
        {
            if devices[i].device_id == *identity && devices[i].family
                == DeviceFamily::HydroShift2Lcd {
                return true;
            }
            i += 1;
        }
        false
    }

    fn linked_displays(&self) -> (displays: Vec<(usize, Option<[u8; 6]>)>)
        ensures
            displays@ == h2_targets(self.registry, self.targets),
    {
        let ghost pick = |position: int| h2_target(self.registry, self.targets, position);
        let ghost all = indices(self.targets.size());
        let mut displays: Vec<(usize, Option<[u8; 6]>)> = Vec::new();
        let n: usize = self.targets.len();
        let mut i: usize = 0;
        assert(displays@ =~= picked(all.take(0), pick));
        while i < n
            invariant
                i <= n,
                n == self.targets.size(),
                all == indices(self.targets.size()),
                pick == (|position: int| h2_target(self.registry, self.targets, position)),
                displays@ == picked(all.take(i as int), pick),
            decreases n - i,
        {
            proof {
                lemma_picked_push(all, i as int, pick);
                assert(all[i as int] == i as int);
            }
            let (index, target) = self.targets.entry(i);
            if self.is_h2(&target.device_identity) {
                let link = match self.registry.fan_devices.get(&target.device_identity) {
                    Some(device) => device.wireless_link_mac,
                    None => None,
                };
                displays.push((*index, link));
            }
            i += 1;
        }
        assert(all.take(i as int) =~= all);
        displays
    }

    fn start_wireless_startup_image(
        &self,
        mac: [u8; 6],
        wireless: &Vec<DiscoveredDevice>,
        targets_locked: bool,
    ) -> (route: Result<StartRoute, StartError>)
        ensures
            match route {
                Ok(route) => self.wireless_route(mac, wireless@, targets_locked) == Ok::<
                    RouteView,
                    StartError,
                >(route@),
                Err(error) => self.wireless_route(mac, wireless@, targets_locked) == Err::<
                    RouteView,
                    StartError,
                >(error),
            },
    {
        let mut bound = false;
        let mut i: usize = 0;
        while i < wireless.len()
            invariant
                i <= wireless@.len(),
                bound == exists|j: int|
                    0 <= j < i && (#[trigger] wireless@[j]).mac == mac && (wireless@[j].device_type
                        == 10 || wireless@[j].device_type == 11),
            decreases wireless@.len() - i,
        {
            let kind: u8 = wireless[i].device_type;
            if same_mac(&wireless[i].mac, &mac) && (kind == 10 || kind == 11) {
                bound = true;
            }
            i += 1;
        }
        if !bound {
            return Err(StartError::NotBound);
        }
        if !targets_locked {
            return Err(StartError::TargetsBusy);
        }
        let devices = &self.registry.cached_usb_devices;
        let mut k: usize = 0;
        while k < devices.len()
            invariant
                k <= devices@.len(),
                *devices == self.registry.cached_usb_devices,
                targets_locked,
                h2_bound(wireless@, mac),
                forall|j: int|
                    0 <= j < k ==> !((#[trigger] devices@[j]).vid == 0x1a86 && (devices@[j].pid
                        == 0xad20 || devices@[j].pid == 0xad22)),
            decreases devices@.len() - k,
        {
            let pid: u16 = devices[k].pid;
            if devices[k].vid == 0x1a86 && (pid == 0xad20 || pid == 0xad22) {
                assert(in_desktop_mode(devices@));
                return Err(StartError::DesktopMode);
            }
            k += 1;
        }
        assert(!in_desktop_mode(devices@));
        match wireless_target_index(mac, &self.linked_displays()) {
            Ok(display) => Ok(StartRoute::Wireless { mac, display }),
            Err(TargetError::IdentityPending) => Err(StartError::IdentityPending),
            Err(TargetError::Ambiguous) => Err(StartError::AmbiguousIdentity),
        }
    }

    /// Finds out how an upload is carried out, or why it cannot start. `targets_locked` says
    /// whether the targets could be had.
    pub fn start_startup_image(
        &self,
        request: &StartRequest,
        wireless: &Vec<DiscoveredDevice>,
        media_busy: bool,
        targets_locked: bool,
    ) -> (route: Result<StartRoute, StartError>)
        ensures
            match route {
                Ok(route) => self.upload_route(*request, wireless@, media_busy, targets_locked)
                    == Ok::<RouteView, StartError>(route@),
                Err(error) => self.upload_route(*request, wireless@, media_busy, targets_locked)
                    == Err::<RouteView, StartError>(error),
            },
            route matches Ok(route) ==> self.leads_to_targets(*request, route@),
    {
        proof {
            self.lemma_uploads_lead_to_targets(*request, wireless@, media_busy, targets_locked);
        }
        if self.startup_image_job.is_some() || self.display_switching
            || self.lcd_group_recovery.busy() {
            return Err(StartError::OtherOperation);
        }
        if self.startup_image_quarantine.contains(&request.identity) {
            return Err(StartError::RecoveryRequired);
        }
        if self.pixel_cleaning {
            return Err(StartError::PixelCleaning);
        }
        if media_busy {
            return Err(StartError::MediaBusy);
        }
        if wireless_address(&request.identity).is_some() {
            if let Some(mac) = request.mac {
                return self.start_wireless_startup_image(mac, wireless, targets_locked);
            }
        }
        let receiver = match self.registry.flex_startup_receiver(&request.identity) {
            Ok(receiver) => receiver,
            Err(error) => {
                return Err(error);
            },
        };
        if !targets_locked {
            return Err(StartError::TargetsBusy);
        }
        match self.find_target(&request.identity) {
            None => Err(StartError::NotConfigured),
            Some(target) => match self.targets.get(&target) {
                Some(active) => if active.screen.width != request.width || active.screen.height
                    != request.height {
                    Err(StartError::DimensionsChanged)
                } else {
                    Ok(StartRoute::Wired { target, receiver })
                },
                None => Err(StartError::NotConfigured),
            },
        }
    }

    /// Reports the state of the upload `id`, if it is the one that clients see. It can no longer
    /// be cancelled then.
    pub fn finish_startup_status(&mut self, id: u64, status: StartupImageState)
        ensures
            *final(self) == if old(self).startup_image is Some && old(self).startup_image->0.id
                == id {
                ServiceManager {
                    startup_image: Some(StartupImageStatus { id, status }),
                    startup_image_cancel: false,
                    ..*old(self)
                }
            } else {
                *old(self)
            },
    {
        let ours = match &self.startup_image {
            Some(job) => job.id == id,
            None => false,
        };
        if ours {
            self.startup_image = Some(StartupImageStatus { id, status });
            self.startup_image_cancel = false;
        }
    }

    /// Reports that the upload `id` is being transferred.
    pub fn announce_transfer(&mut self, id: u64)
        ensures
            *final(self) == if old(self).startup_image is Some && old(self).startup_image->0.id
                == id {
                ServiceManager {
                    startup_image: Some(
                        StartupImageStatus { id, status: StartupImageState::Transferring },
                    ),
                    ..*old(self)
                }
            } else {
                *old(self)
            },
    {
        let ours = match &self.startup_image {
            Some(job) => job.id == id,
            None => false,
        };
        if ours {
            self.startup_image = Some(
                StartupImageStatus { id, status: StartupImageState::Transferring },
            );
        }
    }
}

/// A blocked panel is left alone: no upload to it starts, it is no candidate for playback, and a
/// setting that names it is reported as in need of recovery.
pub proof fn lemma_blocked_panel_is_left_alone(
    service: ServiceManager,
    request: StartRequest,
    wireless: Seq<DiscoveredDevice>,
    media_busy: bool,
    targets_locked: bool,
    device: DetectedLcd,
    serial: String,
)
    requires
        service.startup_image_quarantine@.contains(request.identity@),
        device.device_id@ == request.identity@,
        ids_match(serial@, request.identity@),
    ensures
        service.upload_route(request, wireless, media_busy, targets_locked) is Err,
        candidate_of(service.startup_image_quarantine@, device) is None,
        is_blocked(service.startup_image_quarantine@, Some(serial)),
{
    let named = Some(serial);
    assert(named->0 == serial);
    assert(ids_match(named->0@, request.identity@));
}

/// While an upload runs, no other upload starts and no group is rebooted.
pub proof fn lemma_upload_runs_alone(
    service: ServiceManager,
    request: StartRequest,
    wireless: Seq<DiscoveredDevice>,
    media_busy: bool,
    targets_locked: bool,
    shutting_down: bool,
)
    requires
        service.startup_image_job is Some,
    ensures
        service.upload_route(request, wireless, media_busy, targets_locked) == Err::<
            RouteView,
            StartError,
        >(StartError::OtherOperation),
        service.recovery_barred(shutting_down),
{
}

proof fn lemma_linked_known(
    mac: [u8; 6],
    candidates: Seq<(usize, Option<[u8; 6]>)>,
    a: int,
    b: int,
)
    requires
        forall|i: int| 0 <= i < candidates.len() ==> (#[trigger] candidates[i]).1 is Some,
    ensures
        linked_target(mac, candidates) != Err::<Option<usize>, TargetError>(
            TargetError::IdentityPending,
        ),
        (forall|i: int| 0 <= i < candidates.len() ==> (#[trigger] candidates[i]).1 != Some(mac))
            ==> linked_target(mac, candidates) == Ok::<Option<usize>, TargetError>(None),
        0 <= a < candidates.len() && candidates[a].1 == Some(mac) ==> linked_target(mac, candidates)
            != Ok::<Option<usize>, TargetError>(None),
        0 <= a < candidates.len() && candidates[a].1 == Some(mac) && (forall|i: int|
            0 <= i < candidates.len() && i != a ==> (#[trigger] candidates[i]).1 != Some(mac))
            ==> linked_target(mac, candidates) == Ok::<Option<usize>, TargetError>(
            Some(candidates[a].0),
        ),
        0 <= a < b < candidates.len() && candidates[a].1 == Some(mac) && candidates[b].1 == Some(mac)
            ==> linked_target(mac, candidates) == Err::<Option<usize>, TargetError>(
            TargetError::Ambiguous,
        ),
    decreases candidates.len(),
{
    if candidates.len() > 0 {
        let before = candidates.drop_last();
        let last = candidates.len() - 1;
        assert forall|i: int| 0 <= i < before.len() implies (#[trigger] before[i]).1 is Some by {
            assert(before[i] == candidates[i]);
        }
        assert forall|i: int| 0 <= i < before.len() implies #[trigger] before[i]
            == candidates[i] by {}
        assert(candidates[last].1 is Some);
        lemma_linked_known(mac, before, a, b);
        if 0 <= a < last {
            assert(before[a] == candidates[a]);
        }
        if 0 <= b < last {
            assert(before[b] == candidates[b]);
        }
        if a == last {
            lemma_linked_known(mac, before, -1, -1);
        }
    }
}

/// An upload over the radio finds the one display that is linked to the address, or that none is.
/// Looking at the displays one after the other, it fails at the first that does not know its
/// address yet, or at the second that is linked.
pub proof fn lemma_displays_are_found_by_address(
    mac: [u8; 6],
    candidates: &Vec<(usize, Option<[u8; 6]>)>,
    index: Result<Option<usize>, TargetError>,
    p: int,
    a: int,
    b: int,
)
    requires
        call_ensures(wireless_target_index, (mac, candidates), index),
        0 <= p <= candidates@.len(),
        forall|i: int| 0 <= i < p ==> (#[trigger] candidates@[i]).1 is Some,
        p < candidates@.len() ==> candidates@[p].1 is None,
    ensures
        0 <= a < b < p && candidates@[a].1 == Some(mac) && candidates@[b].1 == Some(mac) ==> index
            == Err::<Option<usize>, TargetError>(TargetError::Ambiguous),
        0 <= a < p && candidates@[a].1 == Some(mac) && (forall|i: int|
            0 <= i < p && i != a ==> (#[trigger] candidates@[i]).1 != Some(mac)) ==> {
            &&& p < candidates@.len() ==> index == Err::<Option<usize>, TargetError>(
                TargetError::IdentityPending,
            )
            &&& p == candidates@.len() ==> index == Ok::<Option<usize>, TargetError>(
                Some(candidates@[a].0),
            )
        },
        (forall|i: int| 0 <= i < p ==> (#[trigger] candidates@[i]).1 != Some(mac)) ==> {
            &&& p < candidates@.len() ==> index == Err::<Option<usize>, TargetError>(
                TargetError::IdentityPending,
            )
            &&& p == candidates@.len() ==> index == Ok::<Option<usize>, TargetError>(None)
        },
{
    let all = candidates@;
    let known = all.take(p);
    assert forall|i: int| 0 <= i < p implies #[trigger] known[i] == all[i] by {}
    lemma_linked_known(mac, known, a, b);
    if 0 <= a < p {
        assert(known[a] == all[a]);
    }
    if 0 <= b < p {
        assert(known[b] == all[b]);
    }
    if p < all.len() {
        assert(all.take(p + 1).drop_last() =~= known);
        assert(all.take(p + 1).last() == all[p]);
        lemma_linked_error_stays(mac, all, p + 1);
    } else {
        assert(known =~= all);
    }
}

proof fn lemma_first_device(devices: Seq<UsbDevice>, id: Seq<char>, from: int, at: int)
    requires
        0 <= from <= at <= devices.len(),
        forall|i: int| from <= i < at ==> (#[trigger] devices[i]).device_id@ != id,
        at < devices.len() ==> devices[at].device_id@ == id,
    ensures
        device_from(devices, id, from) == if at < devices.len() {
            Some(devices[at])
        } else {
            None
        },
    decreases at - from,
{
    if from < at {
        assert(devices[from].device_id@ != id);
        lemma_first_device(devices, id, from + 1, at);
    }
}

/// A receiver drives the panel of a product at a place: it is connected, of the matching product,
/// and on another port of the same hub, and the panel is on one of the first four ports.
pub open spec fn drives(registry: Registry, panel: UsbDevice, receiver: FanDeviceInfo) -> bool {
    let here = registry.usb_locations@[panel.device_id@]@;
    let there = registry.usb_locations@[receiver.device_id@]@;
    &&& receiver.vid == 0x43a8
    &&& panel.pid == 0xa018 && receiver.pid == 0x0102 || panel.pid == 0xa019 && receiver.pid
        == 0x0104
    &&& registry.fan_devices@.contains_key(receiver.device_id@)
    &&& registry.usb_locations@.contains_key(receiver.device_id@)
    &&& here.0 == there.0
    &&& here.1.len() > 0 && there.1.len() > 0
    &&& here.1.drop_last() == there.1.drop_last()
    &&& 1 <= here.1.last() <= 4
}

/// The receiver that is told of a new startup image is the only open one 43a8 of the product that
/// goes with the panel, 0102 with a018 and 0104 with a019, on the panel's hub; its slot is the
/// panel's port, one to four, less one. Other panels have none. A panel that is not connected, has
/// no known place, or has no such receiver, or more than one, is refused.
pub proof fn lemma_one_receiver_is_told(
    registry: Registry,
    identity: &String,
    receiver: Result<Option<(String, u8)>, StartError>,
    at: int,
    r: int,
    s: int,
)
    requires
        call_ensures(Registry::flex_startup_receiver, (&registry, identity), receiver),
        0 <= at <= registry.cached_usb_devices@.len(),
        forall|i: int|
            0 <= i < at ==> (#[trigger] registry.cached_usb_devices@[i]).device_id@ != identity@,
        at < registry.cached_usb_devices@.len() ==> registry.cached_usb_devices@[at].device_id@
            == identity@,
    ensures
        ({
            let connected = at < registry.cached_usb_devices@.len();
            let panel = registry.cached_usb_devices@[at];
            let flex = panel.vid == 0x1cbe && (panel.pid == 0xa018 || panel.pid == 0xa019);
            let placed = registry.usb_locations@.contains_key(identity@);
            let place = registry.usb_locations@[identity@]@;
            let fans = registry.fan_device_info@;
            &&& receiver == Err::<Option<(String, u8)>, StartError>(StartError::NotConnected)
                <==> !connected
            &&& receiver == Ok::<Option<(String, u8)>, StartError>(None) <==> connected && !flex
            &&& receiver == Err::<Option<(String, u8)>, StartError>(StartError::NoTopology)
                <==> connected && flex && !placed
            &&& connected && flex && placed ==> {
                &&& 0 <= r < fans.len() && 0 <= s < fans.len() && s != r && drives(
                    registry,
                    panel,
                    fans[r],
                ) && drives(registry, panel, fans[s]) ==> receiver == Err::<
                    Option<(String, u8)>,
                    StartError,
                >(StartError::AmbiguousReceiver)
                &&& 0 <= r < fans.len() && drives(registry, panel, fans[r]) && (forall|k: int|
                    0 <= k < fans.len() && k != r ==> !drives(
                        registry,
                        panel,
                        #[trigger] fans[k],
                    )) ==> {
                    &&& receiver is Ok && receiver->Ok_0 is Some
                    &&& (receiver->Ok_0->0).0@ == fans[r].device_id@
                    &&& (receiver->Ok_0->0).1 + 1 == place.1.last()
                }
                &&& (forall|k: int|
                    0 <= k < fans.len() ==> !drives(registry, panel, #[trigger] fans[k]))
                    ==> receiver == Err::<Option<(String, u8)>, StartError>(StartError::NoReceiver)
            }
        }),
{
    lemma_first_device(registry.cached_usb_devices@, identity@, 0, at);
    let panel = registry.cached_usb_devices@[at];
    let flex = panel.vid == 0x1cbe && (panel.pid == 0xa018 || panel.pid == 0xa019);
    if at < registry.cached_usb_devices@.len() && flex && registry.usb_locations@.contains_key(
        identity@,
    ) {
        let place = registry.usb_locations@[identity@]@;
        let fans = registry.fan_device_info@;
        let pick = |receiver: FanDeviceInfo| slot_of(registry, panel.pid, place, receiver);
        assert(flex_receivers(registry, panel.pid, place) == picked(fans, pick));
        assert forall|k: int| 0 <= k < fans.len() implies (pick(#[trigger] fans[k]) is Some
            <==> drives(registry, panel, fans[k])) && (pick(fans[k]) is Some ==> pick(fans[k])
            == Some((fans[k].device_id@, (place.1.last() - 1) as u8))) by {}
        if 0 <= r < fans.len() && drives(registry, panel, fans[r]) {
            assert(pick(fans[r]) is Some);
            if 0 <= s < fans.len() && s != r && drives(registry, panel, fans[s]) {
                assert(pick(fans[s]) is Some);
                if r < s {
                    crate::registry::lemma_picked_two(fans, pick, r, s);
                } else {
                    crate::registry::lemma_picked_two(fans, pick, s, r);
                }
            }
            if forall|k: int|
                0 <= k < fans.len() && k != r ==> !drives(registry, panel, #[trigger] fans[k]) {
                crate::registry::lemma_picked_only(fans, pick, r);
            }
        }
        if forall|k: int| 0 <= k < fans.len() ==> !drives(registry, panel, #[trigger] fans[k]) {
            crate::registry::lemma_picked_none(fans, pick);
        }
    }
}

/// Nothing can be uploaded while another operation runs, to a panel that is blocked, during pixel
/// cleaning, or while media is prepared; the first of these is named. To a wireless receiver it
/// can only be uploaded when it is bound and of kind ten or eleven, the targets can be had, and no
/// display 1a86:ad20 or 1a86:ad22 shows a desktop, in this order.
pub proof fn lemma_wireless_uploads_need_a_bound_receiver(
    service: ServiceManager,
    request: &StartRequest,
    wireless: &Vec<DiscoveredDevice>,
    media_busy: bool,
    targets_locked: bool,
    route: Result<StartRoute, StartError>,
    rest: Seq<char>,
)
    requires
        call_ensures(
            ServiceManager::start_startup_image,
            (&service, request, wireless, media_busy, targets_locked),
            route,
        ),
        request.identity@ == "wireless:"@ + rest,
        request.mac is Some,
    ensures
        ({
            let mac = request.mac->0;
            let busy = service.startup_image_job is Some || service.display_switching
                || service.lcd_group_recovery.job is Some
                || service.lcd_group_recovery.settle_until is Some;
            let blocked = service.startup_image_quarantine@.contains(request.identity@);
            let barred = busy || blocked || service.pixel_cleaning || media_busy;
            let bound = exists|i: int|
                0 <= i < wireless@.len() && (#[trigger] wireless@[i]).mac == mac && (
                wireless@[i].device_type == 10 || wireless@[i].device_type == 11);
            let devices = service.registry.cached_usb_devices@;
            let desktop = exists|i: int|
                0 <= i < devices.len() && (#[trigger] devices[i]).vid == 0x1a86 && (devices[i].pid
                    == 0xad20 || devices[i].pid == 0xad22);
            let open = !barred && bound && targets_locked && !desktop;
            &&& route matches Err(error) ==> {
                &&& error is OtherOperation <==> busy
                &&& error is RecoveryRequired <==> !busy && blocked
                &&& error is PixelCleaning <==> !busy && !blocked && service.pixel_cleaning
                &&& error is MediaBusy <==> !busy && !blocked && !service.pixel_cleaning
                    && media_busy
                &&& error is NotBound <==> !barred && !bound
                &&& error is TargetsBusy <==> !barred && bound && !targets_locked
                &&& error is DesktopMode <==> !barred && bound && targets_locked && desktop
                &&& error is IdentityPending || error is AmbiguousIdentity <==> open
            }
            &&& !open ==> route is Err
            &&& route matches Ok(route) ==> {
                &&& route is Wireless
                &&& route->mac == mac
                &&& route->display matches Some(display) ==> {
                    let target = service.targets@[display];
                    &&& service.targets@.contains_key(display)
                    &&& service.registry.fan_devices@.contains_key(target.device_identity@)
                    &&& service.registry.fan_devices@[target.device_identity@].wireless_link_mac
                        == Some(mac)
                    &&& exists|i: int|
                        0 <= i < devices.len() && (#[trigger] devices[i]).device_id@
                            == target.device_identity@ && devices[i].family is HydroShift2Lcd
                }
            }
        }),
{
    let words = "wireless:"@;
    assert(request.identity@.take(words.len() as int) =~= words);
    assert(has_prefix(request.identity@, words));
    assert(h2_bound(wireless@, request.mac->0) == exists|i: int|
        0 <= i < wireless@.len() && (#[trigger] wireless@[i]).mac == request.mac->0 && (
        wireless@[i].device_type == 10 || wireless@[i].device_type == 11));
}

/// To a panel on USB an image can be uploaded under the same conditions, when the receiver that
/// must be told of it is known, the targets can be had, and one of them is on the panel and has
/// the dimensions that were asked for, in this order.
pub proof fn lemma_wired_uploads_need_a_target(
    service: ServiceManager,
    request: &StartRequest,
    wireless: &Vec<DiscoveredDevice>,
    media_busy: bool,
    targets_locked: bool,
    route: Result<StartRoute, StartError>,
    receiver: Result<Option<(String, u8)>, StartError>,
    index: usize,
)
    requires
        call_ensures(
            ServiceManager::start_startup_image,
            (&service, request, wireless, media_busy, targets_locked),
            route,
        ),
        call_ensures(
            Registry::flex_startup_receiver,
            (&service.registry, &request.identity),
            receiver,
        ),
        !has_prefix(request.identity@, "wireless:"@) || request.mac is None,
    ensures
        ({
            let busy = service.startup_image_job is Some || service.display_switching
                || service.lcd_group_recovery.job is Some
                || service.lcd_group_recovery.settle_until is Some;
            let blocked = service.startup_image_quarantine@.contains(request.identity@);
            let barred = busy || blocked || service.pixel_cleaning || media_busy;
            let driven = service.targets@.contains_key(index)
                && service.targets@[index].device_identity@ == request.identity@;
            let fits = service.targets@[index].screen.width == request.width
                && service.targets@[index].screen.height == request.height;
            &&& route matches Err(error) ==> {
                &&& error is OtherOperation <==> busy
                &&& error is RecoveryRequired <==> !busy && blocked
                &&& error is PixelCleaning <==> !busy && !blocked && service.pixel_cleaning
                &&& error is MediaBusy <==> !busy && !blocked && !service.pixel_cleaning
                    && media_busy
                &&& !barred && receiver is Err ==> error == receiver->Err_0
                &&& error is TargetsBusy <==> !barred && receiver is Ok && !targets_locked
                &&& error is NotConfigured ==> !barred && receiver is Ok && targets_locked
                    && !driven
                &&& error is DimensionsChanged ==> !barred && receiver is Ok && targets_locked
                &&& !barred && receiver is Ok && targets_locked ==> error is NotConfigured
                    || error is DimensionsChanged
            }
            &&& barred || receiver is Err || !targets_locked ==> route is Err
            &&& route matches Ok(route) ==> {
                &&& route is Wired
                &&& service.targets@.contains_key(route->target)
                &&& service.targets@[route->target].device_identity@ == request.identity@
                &&& service.targets@[route->target].screen.width == request.width
                &&& service.targets@[route->target].screen.height == request.height
                &&& receiver_view(route->receiver) == receiver_view(receiver->Ok_0)
            }
        }),
{
    if target_on(service.targets, request.identity@, 0) is None && service.targets@.contains_key(
        index,
    ) {
        let k = service.targets.lemma_entry_of(index);
        lemma_no_target_on(service.targets, request.identity@, 0, k);
    }
}

proof fn lemma_no_target_on(
    targets: Table<usize, ActiveTarget>,
    identity: Seq<char>,
    from: int,
    k: int,
)
    requires
        0 <= from <= k < targets.size(),
        target_on(targets, identity, from) is None,
    ensures
        targets@[targets.key(k)].device_identity@ != identity,
    decreases k - from,
{
    if from < k {
        lemma_no_target_on(targets, identity, from + 1, k);
    }
}

/// Where no two targets are on one panel, an image of other dimensions than the panel's is refused
/// for that reason, and one of its own is accepted.
pub proof fn lemma_dimensions_decide(
    service: ServiceManager,
    request: &StartRequest,
    wireless: &Vec<DiscoveredDevice>,
    route: Result<StartRoute, StartError>,
    receiver: Result<Option<(String, u8)>, StartError>,
    index: usize,
)
    requires
        call_ensures(
            ServiceManager::start_startup_image,
            (&service, request, wireless, false, true),
            route,
        ),
        call_ensures(
            Registry::flex_startup_receiver,
            (&service.registry, &request.identity),
            receiver,
        ),
        receiver is Ok,
        !has_prefix(request.identity@, "wireless:"@) || request.mac is None,
        service.startup_image_job is None && !service.display_switching
            && service.lcd_group_recovery.job is None
            && service.lcd_group_recovery.settle_until is None && !service.pixel_cleaning,
        !service.startup_image_quarantine@.contains(request.identity@),
        service.targets@.contains_key(index),
        service.targets@[index].device_identity@ == request.identity@,
        forall|k: usize| #[trigger]
            service.targets@.contains_key(k) && service.targets@[k].device_identity@
                == request.identity@ ==> k == index,
    ensures
        service.targets@[index].screen.width == request.width
            && service.targets@[index].screen.height == request.height <==> route is Ok,
        route matches Err(error) ==> error is DimensionsChanged,
        route matches Ok(route) ==> route->target == index,
{
    lemma_wired_uploads_need_a_target(
        service,
        request,
        wireless,
        false,
        true,
        route,
        receiver,
        index,
    );
    if target_on(service.targets, request.identity@, 0) is Some {
        lemma_target_on(service.targets, request.identity@, 0);
    }
}

/// Only the upload that clients see is reported on. Its end can no longer be cancelled; its
/// transfer can.
pub proof fn lemma_seen_uploads_are_reported(id: u64, status: StartupImageState)
    ensures
        forall|service: &mut ServiceManager| #[trigger]
            call_ensures(ServiceManager::finish_startup_status, (service, id, status), ()) ==> {
                let seen = service.startup_image is Some && service.startup_image->0.id == id;
                &&& seen ==> {
                    &&& final(service).startup_image is Some
                    &&& final(service).startup_image->0.id == id
                    &&& final(service).startup_image->0.status == status
                    &&& !final(service).startup_image_cancel
                }
                &&& !seen ==> *final(service) == *service
                &&& final(service).startup_image_job == service.startup_image_job
            },
        forall|service: &mut ServiceManager| #[trigger]
            call_ensures(ServiceManager::announce_transfer, (service, id), ()) ==> {
                let seen = service.startup_image is Some && service.startup_image->0.id == id;
                &&& seen ==> {
                    &&& final(service).startup_image is Some
                    &&& final(service).startup_image->0.id == id
                    &&& final(service).startup_image->0.status is Transferring
                    &&& final(service).startup_image_cancel == service.startup_image_cancel
                }
                &&& !seen ==> *final(service) == *service
                &&& final(service).startup_image_job == service.startup_image_job
            },
{
}

/// What follows the word `wireless:` is the address, and no other identity has one.
pub proof fn lemma_addresses_follow_the_word(identity: &str, address: Option<&str>, rest: Seq<char>)
    requires
        call_ensures(wireless_address, (identity,), address),
    ensures
        identity@ == "wireless:"@ + rest ==> address is Some && address->0@ == rest,
        address is Some ==> identity@ == "wireless:"@ + address->0@,
{
    let words = "wireless:"@;
    if identity@ == words + rest {
        assert(identity@.take(words.len() as int) =~= words);
        assert(identity@.skip(words.len() as int) =~= rest);
    }
    if address is Some {
        assert(identity@ =~= words + address->0@);
    }
}

} // verus!
