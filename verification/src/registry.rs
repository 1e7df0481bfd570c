//! What device discovery last saw.
use vstd::prelude::*;

use crate::table::Table;
use crate::topology::UsbLocation;

verus! {

/// The device families that the daemon treats differently.
#[derive(Clone, Copy, Debug, PartialEq, Eq, Structural)]
pub enum DeviceFamily {
    Slv3Lcd,
    Tlv2Lcd,
    HydroShift2Lcd,
    HydroShift2OledCurveLcd,
    Lancool207,
    UniversalScreen,
    Vision9p2,
    TlFlexLcd,
    SlInfFlexLcd,
    HydroShiftLcd,
    Galahad2Lcd,
    TlLcd,
    WirelessAio,
    Other,
}

/// A USB device in the current inventory.
pub struct UsbDevice {
    pub device_id: String,
    pub vid: u16,
    pub pid: u16,
    pub family: DeviceFamily,
}

/// What an open fan controller reports about itself.
pub struct FanDevice {
    /// How many LCD fans hang off it, if it drives any.
    pub lcd_group_size: Option<u8>,
    /// The wireless address it is linked to, once known.
    pub wireless_link_mac: Option<[u8; 6]>,
}

/// How an open fan controller was found.
pub struct FanDeviceInfo {
    pub device_id: String,
    pub vid: u16,
    pub pid: u16,
}

/// The USB companion of a wireless fan group.
pub struct V2HidEntry {
    pub mac: [u8; 6],
    pub bus: u8,
    pub port_numbers: Vec<u8>,
}

/// The fan types that a wireless receiver can report.
#[derive(Clone, Copy, Debug, PartialEq, Eq, Structural)]
pub enum WirelessFanType {
    Slv3Led,
    Slv3Lcd,
    Tlv2Led,
    Tlv2Lcd,
    TlV3,
    SlInfV3,
    Other,
}

/// A receiver that answered wireless discovery.
pub struct DiscoveredDevice {
    pub mac: [u8; 6],
    /// The address as it is written in identities.
    pub mac_text: String,
    pub channel: u8,
    pub rx_type: u8,
    pub device_type: u8,
    pub cmd_seq: u8,
    pub fan_type: WirelessFanType,
    /// How many LCD fans hang off it, if it drives any.
    pub lcd_group_size: Option<u8>,
}

impl DiscoveredDevice {
    /// The same receiver once more.
    pub fn copy(&self) -> (copy: Self)
        ensures
            copy == *self,
    {
        DiscoveredDevice {
            mac: self.mac,
            mac_text: self.mac_text.clone(),
            channel: self.channel,
            rx_type: self.rx_type,
            device_type: self.device_type,
            cmd_seq: self.cmd_seq,
            fan_type: self.fan_type,
            lcd_group_size: self.lcd_group_size,
        }
    }
}

/// The current inventory.
pub struct Registry {
    pub cached_usb_devices: Vec<UsbDevice>,
    pub usb_locations: Table<String, UsbLocation>,
    pub fan_devices: Table<String, FanDevice>,
    pub fan_device_info: Vec<FanDeviceInfo>,
    pub v2_hid_entries: Vec<V2HidEntry>,
}

/// The results of `pick` on the items of `list` for which it has one, in order.
pub open spec fn picked<A, B>(list: Seq<A>, pick: spec_fn(A) -> Option<B>) -> Seq<B>
    decreases list.len(),
{
    if list.len() == 0 {
        Seq::empty()
    } else {
        let before = picked(list.drop_last(), pick);
        match pick(list.last()) {
            Some(item) => before.push(item),
            None => before,
        }
    }
}

/// Picking from one item more.
pub proof fn lemma_picked_push<A, B>(list: Seq<A>, i: int, pick: spec_fn(A) -> Option<B>)
    requires
        0 <= i < list.len(),
    ensures
        picked(list.take(i + 1), pick) == match pick(list[i]) {
            Some(item) => picked(list.take(i), pick).push(item),
            None => picked(list.take(i), pick),
        },
{
    assert(list.take(i + 1).drop_last() =~= list.take(i));
}

/// What is picked for an item of the list is in the result.
pub proof fn lemma_picked_has<A, B>(list: Seq<A>, pick: spec_fn(A) -> Option<B>, i: int)
    requires
        0 <= i < list.len(),
        pick(list[i]) is Some,
    ensures
        picked(list, pick).contains(pick(list[i])->0),
    decreases list.len(),
{
    let before = picked(list.drop_last(), pick);
    let item = pick(list[i])->0;
    if i == list.len() - 1 {
        assert(picked(list, pick)[before.len() as int] == item);
    } else {
        assert(list.drop_last()[i] == list[i]);
        lemma_picked_has(list.drop_last(), pick, i);
        let k = choose|k: int| 0 <= k < before.len() && before[k] == item;
        assert(picked(list, pick)[k] == item);
    }
}

/// Everything in the result was picked for some item of the list.
pub proof fn lemma_picked_from<A, B>(list: Seq<A>, pick: spec_fn(A) -> Option<B>, k: int) -> (i: int)
    requires
        0 <= k < picked(list, pick).len(),
    ensures
        0 <= i < list.len(),
        pick(list[i]) == Some(picked(list, pick)[k]),
    decreases list.len(),
{
    let before = picked(list.drop_last(), pick);
    if k < before.len() {
        let i = lemma_picked_from(list.drop_last(), pick, k);
        assert(list.drop_last()[i] == list[i]);
        i
    } else {
        list.len() - 1
    }
}

/// Picking depends only on what is picked for the items of the list.
pub proof fn lemma_picked_same<A, B>(
    list: Seq<A>,
    first: spec_fn(A) -> Option<B>,
    second: spec_fn(A) -> Option<B>,
)
    requires
        forall|i: int| 0 <= i < list.len() ==> first(#[trigger] list[i]) == second(list[i]),
    ensures
        picked(list, first) == picked(list, second),
    decreases list.len(),
{
    if list.len() > 0 {
        assert forall|i: int| 0 <= i < list.drop_last().len() implies first(
            #[trigger] list.drop_last()[i],
        ) == second(list.drop_last()[i]) by {
            assert(list.drop_last()[i] == list[i]);
        }
        lemma_picked_same(list.drop_last(), first, second);
        assert(first(list[list.len() - 1]) == second(list[list.len() - 1]));
    }
}

/// Where something is picked for one item only, that is all that is picked.
pub proof fn lemma_picked_only<A, B>(list: Seq<A>, pick: spec_fn(A) -> Option<B>, i: int)
    requires
        0 <= i < list.len(),
        pick(list[i]) is Some,
        forall|k: int| 0 <= k < list.len() && k != i ==> pick(#[trigger] list[k]) is None,
    ensures
        picked(list, pick) == seq![pick(list[i])->0],
    decreases list.len(),
{
    let before = list.drop_last();
    assert forall|k: int| 0 <= k < before.len() && k != i implies pick(#[trigger] before[k]) is None by {
        assert(before[k] == list[k]);
    }
    if i < before.len() {
        assert(before[i] == list[i]);
        lemma_picked_only(before, pick, i);
        assert(pick(list[list.len() - 1]) is None);
    } else {
        lemma_picked_none(before, pick);
        assert(picked(list, pick) =~= seq![pick(list[i])->0]);
    }
}

/// Where nothing is picked for any item, nothing is picked.
pub proof fn lemma_picked_none<A, B>(list: Seq<A>, pick: spec_fn(A) -> Option<B>)
    requires
        forall|k: int| 0 <= k < list.len() ==> pick(#[trigger] list[k]) is None,
    ensures
        picked(list, pick).len() == 0,
    decreases list.len(),
{
    if list.len() > 0 {
        let before = list.drop_last();
        assert forall|k: int| 0 <= k < before.len() implies pick(#[trigger] before[k]) is None by {
            assert(before[k] == list[k]);
        }
        lemma_picked_none(before, pick);
        assert(pick(list[list.len() - 1]) is None);
    }
}

/// Where something is picked for two items, at least two things are picked.
pub proof fn lemma_picked_two<A, B>(list: Seq<A>, pick: spec_fn(A) -> Option<B>, i: int, j: int)
    requires
        0 <= i < j < list.len(),
        pick(list[i]) is Some,
        pick(list[j]) is Some,
    ensures
        picked(list, pick).len() >= 2,
    decreases list.len(),
{
    let before = list.drop_last();
    assert(before[i] == list[i]);
    if j < before.len() {
        assert(before[j] == list[j]);
        lemma_picked_two(before, pick, i, j);
    } else {
        lemma_picked_has(before, pick, i);
        assert(picked(before, pick).len() > 0);
    }
}

} // verus!
