//! Which LCD groups the current inventory shows, and which panels each of them has.
use vstd::prelude::*;
use vstd::string::*;

use crate::bytes::{copy_bytes, same_mac};
use crate::group_recovery::{Group, GroupView, Owner, OwnerView};
use crate::registry::{
    lemma_picked_from, lemma_picked_push, picked, DiscoveredDevice, Registry, UsbDevice,
    V2HidEntry, WirelessFanType,
};
use crate::table::{lemma_filter_push, IdSet};
use crate::text::joined;
use crate::topology::{
    copy_location, lemma_same_hub_symmetric, lemma_same_hub_transitive, on_same_hub, same_hub,
};

verus! {

/// The LCD product that a wired receiver drives.
pub open spec fn receiver_lcd_pid(vid: u16, pid: u16) -> Option<u16> {
    if vid == 0x43a8 && pid == 0x0102 {
        Some(0xa018u16)
    } else if vid == 0x43a8 && pid == 0x0104 {
        Some(0xa019u16)
    } else {
        None
    }
}

/// The LCD product on the fans of a wireless receiver.
pub open spec fn fan_lcd_pid(fan_type: WirelessFanType) -> Option<u16> {
    match fan_type {
        WirelessFanType::Slv3Led | WirelessFanType::Slv3Lcd => Some(0x0005u16),
        WirelessFanType::Tlv2Led | WirelessFanType::Tlv2Lcd => Some(0x0006u16),
        WirelessFanType::TlV3 => Some(0xa018u16),
        WirelessFanType::SlInfV3 => Some(0xa019u16),
        WirelessFanType::Other => None,
    }
}

/// The group of a wired receiver, without its panels.
pub open spec fn wired_candidate(registry: Registry, receiver: UsbDevice) -> Option<GroupView> {
    let id = receiver.device_id@;
    match receiver_lcd_pid(receiver.vid, receiver.pid) {
        Some(lcd_pid) if registry.fan_devices@.contains_key(id)
            && registry.usb_locations@.contains_key(id) => match registry.fan_devices@[id].lcd_group_size {
            Some(expected) if expected > 0 => Some(
                GroupView {
                    id,
                    owner: OwnerView::Wired(id),
                    location: registry.usb_locations@[id]@,
                    lcd_pid,
                    expected,
                    members: Set::empty(),
                },
            ),
            _ => None,
        },
        _ => None,
    }
}

/// The group of the wired receiver is linked to this wireless address.
pub open spec fn covers(registry: Registry, receiver: UsbDevice, mac: [u8; 6]) -> bool {
    &&& wired_candidate(registry, receiver) is Some
    &&& registry.fan_devices@[receiver.device_id@].wireless_link_mac == Some(mac)
}

/// Some wired receiver stands for this wireless address.
pub open spec fn covered(registry: Registry, mac: [u8; 6]) -> bool {
    exists|i: int|
        0 <= i < registry.cached_usb_devices@.len() && covers(
            registry,
            #[trigger] registry.cached_usb_devices@[i],
            mac,
        )
}

/// The USB companions that report this wireless address.
pub open spec fn mappings(entries: Seq<V2HidEntry>, mac: [u8; 6]) -> Seq<V2HidEntry> {
    entries.filter(|entry: V2HidEntry| entry.mac == mac)
}

/// The group of a wireless receiver, without its panels. A receiver that a wired one stands for
/// has none, nor has one whose USB companion is missing or not unique.
pub open spec fn wireless_candidate(registry: Registry, device: DiscoveredDevice) -> Option<
    GroupView,
> {
    let found = mappings(registry.v2_hid_entries@, device.mac);
    match (device.lcd_group_size, fan_lcd_pid(device.fan_type)) {
        (Some(expected), Some(lcd_pid)) if expected > 0 && !covered(registry, device.mac)
            && found.len() == 1 => Some(
            GroupView {
                id: "wireless:"@ + device.mac_text@,
                owner: OwnerView::Wireless(device.mac),
                location: (found[0].bus, found[0].port_numbers@),
                lcd_pid,
                expected,
                members: Set::empty(),
            },
        ),
        _ => None,
    }
}

/// Every group that the inventory shows, wired receivers first.
pub open spec fn candidates(registry: Registry, wireless: Seq<DiscoveredDevice>) -> Seq<GroupView> {
    picked(registry.cached_usb_devices@, |receiver: UsbDevice| wired_candidate(registry, receiver))
        + picked(wireless, |device: DiscoveredDevice| wireless_candidate(registry, device))
}

/// A group of this identity shares its hub with a group of another identity.
pub open spec fn ambiguous(groups: Seq<GroupView>, id: Seq<char>) -> bool {
    exists|i: int, j: int|
        0 <= i < groups.len() && 0 <= j < groups.len() && (#[trigger] groups[i]).id == id && (
        #[trigger] groups[j]).id != id && on_same_hub(groups[i].location, groups[j].location)
}

/// The device is a panel of the group's product.
pub open spec fn is_panel(group: GroupView, device: UsbDevice) -> bool {
    device.vid == 0x1cbe && device.pid == group.lcd_pid
}

/// The place of every panel of the group's product is known.
pub open spec fn panels_located(registry: Registry, group: GroupView) -> bool {
    forall|i: int|
        0 <= i < registry.cached_usb_devices@.len() && is_panel(
            group,
            #[trigger] registry.cached_usb_devices@[i],
        ) ==> registry.usb_locations@.contains_key(registry.cached_usb_devices@[i].device_id@)
}

/// The panels behind the hub of the group.
pub open spec fn panels(registry: Registry, group: GroupView) -> Set<Seq<char>> {
    panels_among(registry, group, registry.cached_usb_devices@)
}

/// Those of the listed devices that are panels behind the hub of the group.
pub open spec fn panels_among(
    registry: Registry,
    group: GroupView,
    devices: Seq<UsbDevice>,
) -> Set<Seq<char>> {
    Set::new(
        |id: Seq<char>|
            exists|i: int|
                0 <= i < devices.len() && is_panel(group, #[trigger] devices[i])
                    && devices[i].device_id@ == id && on_same_hub(
                    group.location,
                    registry.usb_locations@[id]@,
                ),
    )
}

/// The candidate with its panels, if it can be told apart from the others and all places are
/// known.
pub open spec fn accepted(
    registry: Registry,
    groups: Seq<GroupView>,
    group: GroupView,
) -> Option<GroupView> {
    if !ambiguous(groups, group.id) && group.location.1.len() > 1 && panels_located(
        registry,
        group,
    ) {
        Some(GroupView { members: panels(registry, group), ..group })
    } else {
        None
    }
}

/// The groups that can be recovered.
pub open spec fn recovery_groups(registry: Registry, wireless: Seq<DiscoveredDevice>) -> Seq<
    GroupView,
> {
    let groups = candidates(registry, wireless);
    picked(groups, |group: GroupView| accepted(registry, groups, group))
}

/// What a list of groups stands for.
pub open spec fn group_views(groups: Seq<Group>) -> Seq<GroupView> {
    groups.map_values(|group: Group| group@)
}

/// What an optional group stands for.
pub open spec fn optional_view(group: Option<Group>) -> Option<GroupView> {
    match group {
        Some(group) => Some(group@),
        None => None,
    }
}

proof fn lemma_views_push(groups: Seq<Group>, group: Group)
    ensures
        group_views(groups.push(group)) == group_views(groups).push(group@),
{
    assert(group_views(groups.push(group)) =~= group_views(groups).push(group@));
}

/// Two groups to recover that have different identities never share a hub, so no panel belongs to
/// both.
pub proof fn lemma_recovery_groups_are_apart(
    registry: Registry,
    wireless: Seq<DiscoveredDevice>,
    i: int,
    j: int,
)
    requires
        0 <= i < recovery_groups(registry, wireless).len(),
        0 <= j < recovery_groups(registry, wireless).len(),
        recovery_groups(registry, wireless)[i].id != recovery_groups(registry, wireless)[j].id,
    ensures
        !on_same_hub(
            recovery_groups(registry, wireless)[i].location,
            recovery_groups(registry, wireless)[j].location,
        ),
        recovery_groups(registry, wireless)[i].members.disjoint(
            recovery_groups(registry, wireless)[j].members,
        ),
{
    let groups = candidates(registry, wireless);
    let pick = |group: GroupView| accepted(registry, groups, group);
    let a = lemma_picked_from(groups, pick, i);
    let b = lemma_picked_from(groups, pick, j);
    assert(!on_same_hub(groups[a].location, groups[b].location));
    assert forall|id: Seq<char>| panels(registry, groups[a]).contains(id) implies !panels(
        registry,
        groups[b],
    ).contains(id) by {
        if panels(registry, groups[b]).contains(id) {
            let place = registry.usb_locations@[id]@;
            lemma_same_hub_symmetric(groups[b].location, place);
            lemma_same_hub_transitive(groups[a].location, place, groups[b].location);
        }
    }
}

impl Registry {
    fn wired_group(&self, receiver: &UsbDevice) -> (group: Option<Group>)
        ensures
            optional_view(group) == wired_candidate(*self, *receiver),
            group matches Some(group) ==> receiver.vid == 0x43a8 && (receiver.pid == 0x0102
                && group.lcd_pid == 0xa018 || receiver.pid == 0x0104 && group.lcd_pid == 0xa019),
    {
        let lcd_pid: u16 = if receiver.vid == 0x43a8 && receiver.pid == 0x0102 {
            0xa018
        } else if receiver.vid == 0x43a8 && receiver.pid == 0x0104 {
            0xa019
        } else {
            return None;
        };
        let device = match self.fan_devices.get(&receiver.device_id) {
            Some(device) => device,
            None => {
                return None;
            },
        };
        let expected: u8 = match device.lcd_group_size {
            Some(expected) if expected > 0 => expected,
            _ => {
                return None;
            },
        };
        match self.usb_locations.get(&receiver.device_id) {
            Some(location) => Some(
                Group {
                    id: receiver.device_id.clone(),
                    owner: Owner::Wired(receiver.device_id.clone()),
                    location: copy_location(location),
                    lcd_pid,
                    expected,
                    members: IdSet::new(),
                },
            ),
            None => None,
        }
    }

    fn covers(&self, mac: &[u8; 6]) -> (found: bool)
        ensures
            found == covered(*self, *mac),
    {
        let mut i: usize = 0;
        while i < self.cached_usb_devices.len()
            invariant
                i <= self.cached_usb_devices@.len(),
                forall|j: int|
                    0 <= j < i ==> !covers(*self, #[trigger] self.cached_usb_devices@[j], *mac),
            decreases self.cached_usb_devices@.len() - i,
        {
            let receiver = &self.cached_usb_devices[i];
            if self.wired_group(receiver).is_some() {
                if let Some(device) = self.fan_devices.get(&receiver.device_id) {
                    if let Some(link) = &device.wireless_link_mac {
                        if same_mac(link, mac) {
                            return true;
                        }
                    }
                }
            }
            i += 1;
        }
        false
    }

    fn wireless_group(&self, device: &DiscoveredDevice) -> (group: Option<Group>)
        ensures
            optional_view(group) == wireless_candidate(*self, *device),
            group matches Some(group) ==> match device.fan_type {
                WirelessFanType::Slv3Led | WirelessFanType::Slv3Lcd => group.lcd_pid == 0x0005,
                WirelessFanType::Tlv2Led | WirelessFanType::Tlv2Lcd => group.lcd_pid == 0x0006,
                WirelessFanType::TlV3 => group.lcd_pid == 0xa018,
                WirelessFanType::SlInfV3 => group.lcd_pid == 0xa019,
                WirelessFanType::Other => false,
            },
    {
        if self.covers(&device.mac) {
            return None;
        }
        let expected: u8 = match device.lcd_group_size {
            Some(expected) if expected > 0 => expected,
            _ => {
                return None;
            },
        };
        let lcd_pid: u16 = match device.fan_type {
            WirelessFanType::Slv3Led | WirelessFanType::Slv3Lcd => 0x0005,
            WirelessFanType::Tlv2Led | WirelessFanType::Tlv2Lcd => 0x0006,
            WirelessFanType::TlV3 => 0xa018,
            WirelessFanType::SlInfV3 => 0xa019,
            WirelessFanType::Other => {
                return None;
            },
        };
        match only_mapping(&self.v2_hid_entries, &device.mac) {
            Some(mapping) => Some(
                Group {
                    id: joined("wireless:", &device.mac_text),
                    owner: Owner::Wireless(device.mac),
                    location: (mapping.bus, copy_bytes(&mapping.port_numbers)),
                    lcd_pid,
                    expected,
                    members: IdSet::new(),
                },
            ),
            None => None,
        }
    }

    fn panels_of(&self, group: &Group) -> (members: Option<IdSet>)
        ensures
            members is Some <==> panels_located(*self, group@),
            members matches Some(members) ==> members@ == panels(*self, group@),
    {
        let mut members = IdSet::new();
        assert(members@ =~= panels_among(*self, group@, self.cached_usb_devices@.take(0)));
        let mut i: usize = 0;
        while i < self.cached_usb_devices.len()
            invariant
                i <= self.cached_usb_devices@.len(),
                forall|j: int|
                    0 <= j < i && is_panel(group@, #[trigger] self.cached_usb_devices@[j])
                        ==> self.usb_locations@.contains_key(
                        self.cached_usb_devices@[j].device_id@,
                    ),
                members@ == panels_among(*self, group@, self.cached_usb_devices@.take(i as int)),
            decreases self.cached_usb_devices@.len() - i,
        {
            let lcd = &self.cached_usb_devices[i];
            let ghost before = self.cached_usb_devices@.take(i as int);
            let ghost upto = self.cached_usb_devices@.take(i + 1);
            let ghost seen = members@;
            if lcd.vid == 0x1cbe && lcd.pid == group.lcd_pid {
                assert(is_panel(group@, *lcd));
                match self.usb_locations.get(&lcd.device_id) {
                    Some(location) => {
                        if same_hub(&group.location, location) {
                            members.insert(lcd.device_id.clone());
                        }
                    },
                    None => {
                        return None;
                    },
                }
            }
            proof {
                assert forall|id: Seq<char>|
                    members@.contains(id) == panels_among(*self, group@, upto).contains(id) by {
                    if panels_among(*self, group@, before).contains(id) {
                        let j = choose|j: int|
                            0 <= j < before.len() && is_panel(group@, #[trigger] before[j])
                                && before[j].device_id@ == id && on_same_hub(
                                group@.location,
                                self.usb_locations@[id]@,
                            );
                        assert(upto[j] == before[j]);
                    }
                    if panels_among(*self, group@, upto).contains(id) {
                        let j = choose|j: int|
                            0 <= j < upto.len() && is_panel(group@, #[trigger] upto[j])
                                && upto[j].device_id@ == id && on_same_hub(
                                group@.location,
                                self.usb_locations@[id]@,
                            );
                        if j < i {
                            assert(before[j] == upto[j]);
                        } else {
                            assert(upto[j] == *lcd);
                        }
                    }
                    if members@.contains(id) && !seen.contains(id) {
                        assert(upto[i as int] == *lcd);
                    }
                }
                assert(members@ =~= panels_among(*self, group@, upto));
            }
            i += 1;
        }
        assert(self.cached_usb_devices@.take(i as int) =~= self.cached_usb_devices@);
        Some(members)
    }

    fn candidate_groups(&self, wireless: &Vec<DiscoveredDevice>) -> (groups: Vec<Group>)
        ensures
            group_views(groups@) == candidates(*self, wireless@),
    {
        let ghost wired = |receiver: UsbDevice| wired_candidate(*self, receiver);
        let ghost radio = |device: DiscoveredDevice| wireless_candidate(*self, device);
        let mut groups: Vec<Group> = Vec::new();
        let mut i: usize = 0;
        assert(group_views(groups@) =~= picked(self.cached_usb_devices@.take(0), wired));
        while i < self.cached_usb_devices.len()
            invariant
                i <= self.cached_usb_devices@.len(),
                wired == (|receiver: UsbDevice| wired_candidate(*self, receiver)),
                group_views(groups@) == picked(self.cached_usb_devices@.take(i as int), wired),
            decreases self.cached_usb_devices@.len() - i,
        {
            proof {
                lemma_picked_push(self.cached_usb_devices@, i as int, wired);
            }
            if let Some(group) = self.wired_group(&self.cached_usb_devices[i]) {
                proof {
                    lemma_views_push(groups@, group);
                }
                groups.push(group);
            }
            i += 1;
        }
        assert(self.cached_usb_devices@.take(i as int) =~= self.cached_usb_devices@);
        let ghost first = group_views(groups@);
        let mut k: usize = 0;
        assert(first =~= first + picked(wireless@.take(0), radio));
        while k < wireless.len()
            invariant
                k <= wireless@.len(),
                radio == (|device: DiscoveredDevice| wireless_candidate(*self, device)),
                group_views(groups@) == first + picked(wireless@.take(k as int), radio),
            decreases wireless@.len() - k,
        {
            proof {
                lemma_picked_push(wireless@, k as int, radio);
            }
            if let Some(group) = self.wireless_group(&wireless[k]) {
                proof {
                    lemma_views_push(groups@, group);
                }
                groups.push(group);
                assert(group_views(groups@) =~= first + picked(wireless@.take(k + 1), radio));
            }
            k += 1;
        }
        assert(wireless@.take(k as int) =~= wireless@);
        groups
    }

    /// The groups that can be recovered, wired receivers first.
    pub fn lcd_recovery_groups(&self, wireless: &Vec<DiscoveredDevice>) -> (groups: Vec<Group>)
        ensures
            group_views(groups@) == recovery_groups(*self, wireless@),
    {
        let found = self.candidate_groups(wireless);
        let ghost all = group_views(found@);
        let ghost accept = |group: GroupView| accepted(*self, all, group);
        let mut groups: Vec<Group> = Vec::new();
        let mut i: usize = 0;
        assert(group_views(groups@) =~= picked(all.take(0), accept));
        while i < found.len()
            invariant
                i <= found@.len(),
                all == group_views(found@),
                accept == (|group: GroupView| accepted(*self, all, group)),
                group_views(groups@) == picked(all.take(i as int), accept),
            decreases found@.len() - i,
        {
            proof {
                lemma_picked_push(all, i as int, accept);
            }
            let group = &found[i];
            assert(all[i as int] == group@);
            if !id_is_ambiguous(&found, &group.id) && group.location.1.len() > 1 {
                if let Some(members) = self.panels_of(group) {
                    let whole = Group {
                        id: group.id.clone(),
                        owner: group.owner.copy(),
                        location: copy_location(&group.location),
                        lcd_pid: group.lcd_pid,
                        expected: group.expected,
                        members,
                    };
                    proof {
                        lemma_views_push(groups@, whole);
                    }
                    groups.push(whole);
                }
            }
            i += 1;
        }
        assert(all.take(i as int) =~= all);
        groups
    }
}

/// The USB companion that reports the address, if exactly one does.
pub fn only_mapping<'a>(entries: &'a Vec<V2HidEntry>, mac: &[u8; 6]) -> (mapping: Option<
    &'a V2HidEntry,
>)
    ensures
        mapping is Some <==> mappings(entries@, *mac).len() == 1,
        mapping matches Some(mapping) ==> *mapping == mappings(entries@, *mac)[0],
{
    let ghost keep = |entry: V2HidEntry| entry.mac == *mac;
    let mut found: Option<usize> = None;
    let mut several = false;
    let mut i: usize = 0;
    proof {
        reveal(Seq::filter);
    }
    assert(entries@.take(0).filter(keep).len() == 0);
    while i < entries.len()
        invariant
            i <= entries@.len(),
            keep == (|entry: V2HidEntry| entry.mac == *mac),
            found is None ==> entries@.take(i as int).filter(keep).len() == 0 && !several,
            found matches Some(k) ==> k < i && entries@.take(i as int).filter(keep).len() >= 1
                && entries@.take(i as int).filter(keep)[0] == entries@[k as int],
            several == (entries@.take(i as int).filter(keep).len() > 1),
        decreases entries@.len() - i,
    {
        proof {
            lemma_filter_push(entries@.take(i as int), entries@[i as int], keep);
            assert(entries@.take(i + 1) =~= entries@.take(i as int).push(entries@[i as int]));
        }
        if same_mac(&entries[i].mac, mac) {
            if found.is_none() {
                found = Some(i);
            } else {
                several = true;
            }
        }
        i += 1;
    }
    assert(entries@.take(i as int) =~= entries@);
    if several {
        return None;
    }
    match found {
        Some(k) => Some(&entries[k]),
        None => None,
    }
}

fn id_is_ambiguous(groups: &Vec<Group>, id: &String) -> (found: bool)
    ensures
        found == ambiguous(group_views(groups@), id@),
{
    let ghost all = group_views(groups@);
    let mut i: usize = 0;
    while i < groups.len()
        invariant
            i <= groups@.len(),
            all == group_views(groups@),
            forall|a: int, b: int|
                0 <= a < i && 0 <= b < all.len() && (#[trigger] all[a]).id == id@ && (
                #[trigger] all[b]).id != id@ ==> !on_same_hub(all[a].location, all[b].location),
        decreases groups@.len() - i,
    {
        if groups[i].id == *id {
            let mut j: usize = 0;
            while j < groups.len()
                invariant
                    i < groups@.len(),
                    j <= groups@.len(),
                    all == group_views(groups@),
                    all[i as int].id == id@,
                    forall|b: int|
                        0 <= b < j && (#[trigger] all[b]).id != id@ ==> !on_same_hub(
                            all[i as int].location,
                            all[b].location,
                        ),
                decreases groups@.len() - j,
            {
                if !(groups[j].id == *id) && same_hub(&groups[i].location, &groups[j].location) {
                    assert(all[j as int].id != id@);
                    return true;
                }
                j += 1;
            }
        }
        i += 1;
    }
    false
}

/// Entries of this address: none, or at least one.
proof fn lemma_mappings_found(entries: Seq<V2HidEntry>, mac: [u8; 6])
    ensures
        mappings(entries, mac).len() == 0 <==> forall|e: int|
            0 <= e < entries.len() ==> (#[trigger] entries[e]).mac != mac,
    decreases entries.len(),
{
    reveal(Seq::filter);
    if entries.len() > 0 {
        let before = entries.drop_last();
        lemma_mappings_found(before, mac);
        assert(entries =~= before.push(entries.last()));
        lemma_filter_push(before, entries.last(), |entry: V2HidEntry| entry.mac == mac);
        assert forall|e: int| 0 <= e < before.len() implies before[e] == entries[e] by {}
        if forall|e: int| 0 <= e < before.len() ==> (#[trigger] before[e]).mac != mac {
            if entries.last().mac != mac {
                assert forall|e: int| 0 <= e < entries.len() implies (
                #[trigger] entries[e]).mac != mac by {
                    if e < before.len() {
                        assert(before[e].mac != mac);
                    }
                }
            } else {
                assert(entries[entries.len() - 1].mac == mac);
            }
        } else {
            let e = choose|e: int| 0 <= e < before.len() && (#[trigger] before[e]).mac == mac;
            assert(entries[e].mac == mac);
        }
    }
}

/// An address has one companion exactly when one entry has the address and no other has.
proof fn lemma_only_entry(entries: Seq<V2HidEntry>, mac: [u8; 6], e: int)
    requires
        0 <= e < entries.len(),
        entries[e].mac == mac,
    ensures
        mappings(entries, mac).len() == 1 <==> forall|k: int|
            0 <= k < entries.len() && k != e ==> (#[trigger] entries[k]).mac != mac,
        mappings(entries, mac).len() == 1 ==> mappings(entries, mac)[0] == entries[e],
    decreases entries.len(),
{
    reveal(Seq::filter);
    let before = entries.drop_last();
    let last = entries.len() - 1;
    assert(entries =~= before.push(entries.last()));
    lemma_filter_push(before, entries.last(), |entry: V2HidEntry| entry.mac == mac);
    assert forall|k: int| 0 <= k < before.len() implies before[k] == entries[k] by {}
    lemma_mappings_found(before, mac);
    if e == last {
        if mappings(before, mac).len() == 0 {
            assert forall|k: int| 0 <= k < entries.len() && k != e implies (
            #[trigger] entries[k]).mac != mac by {
                assert(before[k].mac != mac);
            }
        } else {
            let k = choose|k: int| 0 <= k < before.len() && (#[trigger] before[k]).mac == mac;
            assert(entries[k].mac == mac);
        }
    } else {
        lemma_only_entry(before, mac, e);
        if mappings(entries, mac).len() == 1 {
            assert(entries[last].mac != mac);
            assert forall|k: int| 0 <= k < entries.len() && k != e implies (
            #[trigger] entries[k]).mac != mac by {
                if k < last {
                    assert(before[k].mac != mac);
                }
            }
        } else if forall|k: int|
            0 <= k < entries.len() && k != e ==> (#[trigger] entries[k]).mac != mac {
            assert(entries[last].mac != mac);
            assert forall|k: int| 0 <= k < before.len() && k != e implies (
            #[trigger] before[k]).mac != mac by {
                assert(entries[k].mac != mac);
            }
        }
    }
}

/// The group of a wireless receiver has the panel product of its fans: 0x0005 for SL V3, 0x0006
/// for TL V2, 0xa018 for TL V3 and 0xa019 for SL-INF V3. It expects as many panels as the receiver
/// reports, goes by the receiver's address, and sits where its one USB companion sits.
pub proof fn lemma_wireless_groups_match_their_receiver(
    registry: Registry,
    device: DiscoveredDevice,
    e: int,
)
    ensures
        wireless_candidate(registry, device) matches Some(group) ==> {
            &&& device.lcd_group_size == Some(group.expected) && group.expected > 0
            &&& group.owner == OwnerView::Wireless(device.mac)
            &&& group.id == "wireless:"@ + device.mac_text@
            &&& group.members == Set::<Seq<char>>::empty()
            &&& device.fan_type is Slv3Led || device.fan_type is Slv3Lcd <==> group.lcd_pid == 0x0005
            &&& device.fan_type is Tlv2Led || device.fan_type is Tlv2Lcd <==> group.lcd_pid == 0x0006
            &&& device.fan_type is TlV3 <==> group.lcd_pid == 0xa018
            &&& device.fan_type is SlInfV3 <==> group.lcd_pid == 0xa019
            &&& !(device.fan_type is Other)
            &&& 0 <= e < registry.v2_hid_entries@.len() && registry.v2_hid_entries@[e].mac
                == device.mac ==> group.location == (
                registry.v2_hid_entries@[e].bus,
                registry.v2_hid_entries@[e].port_numbers@,
            )
        },
        0 <= e < registry.v2_hid_entries@.len() && registry.v2_hid_entries@[e].mac == device.mac
            ==> (wireless_candidate(registry, device) is Some <==> {
            &&& device.lcd_group_size is Some && device.lcd_group_size->0 > 0
            &&& !(device.fan_type is Other)
            &&& forall|k: int|
                0 <= k < registry.v2_hid_entries@.len() && k != e ==> (
                #[trigger] registry.v2_hid_entries@[k]).mac != device.mac
            &&& !exists|r: int|
                0 <= r < registry.cached_usb_devices@.len() && (
                #[trigger] registry.cached_usb_devices@[r]).vid == 0x43a8 && (
                registry.cached_usb_devices@[r].pid == 0x0102
                    || registry.cached_usb_devices@[r].pid == 0x0104)
                    && registry.usb_locations@.contains_key(
                    registry.cached_usb_devices@[r].device_id@,
                ) && registry.fan_devices@.contains_key(registry.cached_usb_devices@[r].device_id@)
                    && (registry.fan_devices@[registry.cached_usb_devices@[r].device_id@].lcd_group_size matches Some(
                    size,
                ) && size > 0)
                    && registry.fan_devices@[registry.cached_usb_devices@[r].device_id@].wireless_link_mac
                    == Some(device.mac)
        }),
        (forall|k: int|
            0 <= k < registry.v2_hid_entries@.len() ==> (#[trigger] registry.v2_hid_entries@[k]).mac
                != device.mac) ==> wireless_candidate(registry, device) is None,
{
    lemma_mappings_found(registry.v2_hid_entries@, device.mac);
    if 0 <= e < registry.v2_hid_entries@.len() && registry.v2_hid_entries@[e].mac == device.mac {
        lemma_only_entry(registry.v2_hid_entries@, device.mac, e);
        if covered(registry, device.mac) {
            let r = choose|r: int|
                0 <= r < registry.cached_usb_devices@.len() && covers(
                    registry,
                    #[trigger] registry.cached_usb_devices@[r],
                    device.mac,
                );
            assert(registry.cached_usb_devices@[r].vid == 0x43a8);
        } else {
            assert forall|r: int| 0 <= r < registry.cached_usb_devices@.len() implies !covers(
                registry,
                #[trigger] registry.cached_usb_devices@[r],
                device.mac,
            ) by {}
        }
    }
}

/// The group of a wired receiver is that of a product 43a8:0102, with panels 0xa018, or 43a8:0104,
/// with panels 0xa019. It expects as many panels as the receiver reports, goes by the receiver's
/// identity, and sits where the receiver sits.
pub proof fn lemma_wired_groups_match_their_receiver(registry: Registry, receiver: UsbDevice)
    ensures
        wired_candidate(registry, receiver) matches Some(group) ==> {
            &&& receiver.vid == 0x43a8
            &&& receiver.pid == 0x0102 <==> group.lcd_pid == 0xa018
            &&& receiver.pid == 0x0104 <==> group.lcd_pid == 0xa019
            &&& group.lcd_pid == 0xa018 || group.lcd_pid == 0xa019
            &&& group.id == receiver.device_id@
            &&& group.owner == OwnerView::Wired(receiver.device_id@)
            &&& group.location == registry.usb_locations@[receiver.device_id@]@
            &&& registry.fan_devices@[receiver.device_id@].lcd_group_size == Some(group.expected)
            &&& group.expected > 0
            &&& group.members == Set::<Seq<char>>::empty()
        },
        wired_candidate(registry, receiver) is Some <==> {
            &&& receiver.vid == 0x43a8 && (receiver.pid == 0x0102 || receiver.pid == 0x0104)
            &&& registry.usb_locations@.contains_key(receiver.device_id@)
            &&& registry.fan_devices@.contains_key(receiver.device_id@)
            &&& registry.fan_devices@[receiver.device_id@].lcd_group_size is Some
            &&& registry.fan_devices@[receiver.device_id@].lcd_group_size->0 > 0
        },
{
}

/// A group to recover has the panel product of its receiver, expects as many panels as that
/// reports, and its members are exactly the panels 1cbe of that product that sit on the same hub:
/// on the same bus, with the same path but for the last port, and not on a root port.
pub proof fn lemma_recovered_groups_match_the_inventory(
    registry: Registry,
    wireless: &Vec<DiscoveredDevice>,
    groups: Vec<Group>,
    i: int,
)
    requires
        call_ensures(Registry::lcd_recovery_groups, (&registry, wireless), groups),
        0 <= i < groups@.len(),
    ensures
        ({
            let group = groups@[i]@;
            let devices = registry.cached_usb_devices@;
            &&& group.location.1.len() > 1
            &&& forall|id: Seq<char>| #[trigger]
                group.members.contains(id) <==> exists|d: int|
                    0 <= d < devices.len() && (#[trigger] devices[d]).device_id@ == id
                        && devices[d].vid == 0x1cbe && devices[d].pid == group.lcd_pid && {
                        let place = registry.usb_locations@[id]@;
                        place.0 == group.location.0 && place.1.len() > 1 && place.1.drop_last()
                            == group.location.1.drop_last()
                    }
            &&& match group.owner {
                OwnerView::Wired(id) => exists|d: int|
                    0 <= d < devices.len() && (#[trigger] devices[d]).device_id@ == id
                        && devices[d].vid == 0x43a8 && (devices[d].pid == 0x0102 && group.lcd_pid
                        == 0xa018 || devices[d].pid == 0x0104 && group.lcd_pid == 0xa019)
                        && registry.fan_devices@[id].lcd_group_size == Some(group.expected)
                        && group.location == registry.usb_locations@[id]@ && group.id == id,
                OwnerView::Wireless(mac) => exists|w: int|
                    0 <= w < wireless@.len() && (#[trigger] wireless@[w]).mac == mac
                        && wireless@[w].lcd_group_size == Some(group.expected) && group.id
                        == "wireless:"@ + wireless@[w].mac_text@ && match wireless@[w].fan_type {
                        WirelessFanType::Slv3Led | WirelessFanType::Slv3Lcd => group.lcd_pid
                            == 0x0005,
                        WirelessFanType::Tlv2Led | WirelessFanType::Tlv2Lcd => group.lcd_pid
                            == 0x0006,
                        WirelessFanType::TlV3 => group.lcd_pid == 0xa018,
                        WirelessFanType::SlInfV3 => group.lcd_pid == 0xa019,
                        WirelessFanType::Other => false,
                    },
            }
        }),
{
    let all = candidates(registry, wireless@);
    let accept = |group: GroupView| accepted(registry, all, group);
    assert(group_views(groups@)[i] == groups@[i]@);
    let c = lemma_picked_from(all, accept, i);
    let found = all[c];
    let group = groups@[i]@;
    assert(group == (GroupView { members: panels(registry, found), ..found }));
    let wired = |receiver: UsbDevice| wired_candidate(registry, receiver);
    let radio = |device: DiscoveredDevice| wireless_candidate(registry, device);
    let first = picked(registry.cached_usb_devices@, wired);
    if c < first.len() {
        let d = lemma_picked_from(registry.cached_usb_devices@, wired, c);
        lemma_wired_groups_match_their_receiver(registry, registry.cached_usb_devices@[d]);
        assert(registry.cached_usb_devices@[d].device_id@ == group.id);
    } else {
        let w = lemma_picked_from(wireless@, radio, c - first.len());
        lemma_wireless_groups_match_their_receiver(registry, wireless@[w], 0);
        assert(wireless@[w].lcd_group_size == Some(group.expected));
    }
    let devices = registry.cached_usb_devices@;
    assert forall|id: Seq<char>| #[trigger] group.members.contains(id) implies exists|d: int|
        0 <= d < devices.len() && (#[trigger] devices[d]).device_id@ == id && devices[d].vid
            == 0x1cbe && devices[d].pid == group.lcd_pid && {
            let place = registry.usb_locations@[id]@;
            place.0 == group.location.0 && place.1.len() > 1 && place.1.drop_last()
                == group.location.1.drop_last()
        } by {
        let d = choose|d: int|
            0 <= d < devices.len() && is_panel(found, #[trigger] devices[d])
                && devices[d].device_id@ == id && on_same_hub(
                found.location,
                registry.usb_locations@[id]@,
            );
        assert(devices[d].device_id@ == id);
    }
    assert forall|id: Seq<char>|
        (exists|d: int|
            0 <= d < devices.len() && (#[trigger] devices[d]).device_id@ == id && devices[d].vid
                == 0x1cbe && devices[d].pid == group.lcd_pid && {
                let place = registry.usb_locations@[id]@;
                place.0 == group.location.0 && place.1.len() > 1 && place.1.drop_last()
                    == group.location.1.drop_last()
            }) implies #[trigger] group.members.contains(id) by {
        let d = choose|d: int|
            0 <= d < devices.len() && (#[trigger] devices[d]).device_id@ == id && devices[d].vid
                == 0x1cbe && devices[d].pid == group.lcd_pid && {
                let place = registry.usb_locations@[id]@;
                place.0 == group.location.0 && place.1.len() > 1 && place.1.drop_last()
                    == group.location.1.drop_last()
            };
        assert(is_panel(found, devices[d]));
    }
}

/// Every group of the inventory is recovered that is on no root port, shares its hub with no group
/// of another identity, and whose panels all have a known place.
pub proof fn lemma_clear_groups_are_recovered(
    registry: Registry,
    wireless: &Vec<DiscoveredDevice>,
    groups: Vec<Group>,
    found: GroupView,
    c: int,
)
    requires
        call_ensures(Registry::lcd_recovery_groups, (&registry, wireless), groups),
        ({
            let wired = picked(
                registry.cached_usb_devices@,
                |receiver: UsbDevice| wired_candidate(registry, receiver),
            );
            let radio = picked(
                wireless@,
                |device: DiscoveredDevice| wireless_candidate(registry, device),
            );
            let all = wired + radio;
            &&& 0 <= c < all.len() && all[c] == found
            &&& forall|k: int|
                0 <= k < all.len() && (#[trigger] all[k]).id != found.id ==> !on_same_hub(
                    found.location,
                    all[k].location,
                )
            &&& forall|k: int|
                0 <= k < all.len() && (#[trigger] all[k]).id == found.id ==> all[k].location
                    == found.location
        }),
        found.location.1.len() > 1,
        forall|d: int|
            0 <= d < registry.cached_usb_devices@.len() && (
            #[trigger] registry.cached_usb_devices@[d]).vid == 0x1cbe
                && registry.cached_usb_devices@[d].pid == found.lcd_pid
                ==> registry.usb_locations@.contains_key(
                registry.cached_usb_devices@[d].device_id@,
            ),
    ensures
        exists|i: int|
            0 <= i < groups@.len() && (#[trigger] groups@[i])@ == (GroupView {
                members: groups@[i]@.members,
                ..found
            }),
{
    let all = candidates(registry, wireless@);
    let accept = |group: GroupView| accepted(registry, all, group);
    assert(!ambiguous(all, found.id));
    assert forall|d: int|
        0 <= d < registry.cached_usb_devices@.len() && is_panel(
            found,
            #[trigger] registry.cached_usb_devices@[d],
        ) implies registry.usb_locations@.contains_key(registry.cached_usb_devices@[d].device_id@) by {
        assert(registry.cached_usb_devices@[d].vid == 0x1cbe);
    }
    assert(accept(all[c]) is Some);
    crate::registry::lemma_picked_has(all, accept, c);
    let whole = accept(all[c])->0;
    let i = choose|i: int|
        0 <= i < recovery_groups(registry, wireless@).len() && recovery_groups(
            registry,
            wireless@,
        )[i] == whole;
    assert(group_views(groups@)[i] == groups@[i]@);
}

/// A companion is found exactly when one entry has the address and no other has; it is that entry.
pub proof fn lemma_companions_are_unique(
    entries: &Vec<V2HidEntry>,
    mac: &[u8; 6],
    mapping: Option<&V2HidEntry>,
    e: int,
    f: int,
)
    requires
        call_ensures(only_mapping, (entries, mac), mapping),
        0 <= e < entries@.len(),
    ensures
        entries@[e].mac == *mac && (forall|k: int|
            0 <= k < entries@.len() && k != e ==> (#[trigger] entries@[k]).mac != *mac)
            ==> mapping is Some && *(mapping->0) == entries@[e],
        entries@[e].mac == *mac && 0 <= f < entries@.len() && f != e && entries@[f].mac == *mac
            ==> mapping is None,
        (forall|k: int| 0 <= k < entries@.len() ==> (#[trigger] entries@[k]).mac != *mac)
            ==> mapping is None,
{
    lemma_mappings_found(entries@, *mac);
    if entries@[e].mac == *mac {
        lemma_only_entry(entries@, *mac, e);
    }
}

} // verus!
