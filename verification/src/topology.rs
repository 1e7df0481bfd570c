//! Where devices sit on the USB tree.
use vstd::prelude::*;

use crate::bytes::same_bytes;

verus! {

/// A bus number and the port path from the root hub to the device.
pub type UsbLocation = (u8, Vec<u8>);

/// Two locations hang off one hub: they share the bus and the whole path but its last port, and
/// neither is on a root port.
pub open spec fn on_same_hub(first: (u8, Seq<u8>), second: (u8, Seq<u8>)) -> bool {
    &&& first.0 == second.0
    &&& first.1.len() > 1
    &&& second.1.len() > 1
    &&& first.1.drop_last() == second.1.drop_last()
}

/// Whether two locations hang off one hub.
pub fn same_hub(first: &UsbLocation, second: &UsbLocation) -> (same: bool)
    ensures
        same == on_same_hub(first@, second@),
{
    if first.0 != second.0 || first.1.len() <= 1 || second.1.len() <= 1 {
        return false;
    }
    let a = first.1.as_slice();
    let b = second.1.as_slice();
    let a_parent = vstd::slice::slice_subrange(a, 0, a.len() - 1);
    let b_parent = vstd::slice::slice_subrange(b, 0, b.len() - 1);
    assert(a_parent@ =~= first.1@.drop_last());
    assert(b_parent@ =~= second.1@.drop_last());
    same_bytes(a_parent, b_parent)
}

/// Whether two locations are the same place.
pub fn same_location(first: &UsbLocation, second: &UsbLocation) -> (same: bool)
    ensures
        same == (first@ == second@),
{
    first.0 == second.0 && same_bytes(first.1.as_slice(), second.1.as_slice())
}

/// A location once more.
pub fn copy_location(location: &UsbLocation) -> (copy: UsbLocation)
    ensures
        copy@ == location@,
{
    (location.0, crate::bytes::copy_bytes(&location.1))
}

/// Sharing a hub is symmetric.
pub proof fn lemma_same_hub_symmetric(first: (u8, Seq<u8>), second: (u8, Seq<u8>))
    ensures
        on_same_hub(first, second) == on_same_hub(second, first),
{
}

/// Devices that share a hub with a third one share it with each other.
pub proof fn lemma_same_hub_transitive(
    first: (u8, Seq<u8>),
    second: (u8, Seq<u8>),
    third: (u8, Seq<u8>),
)
    requires
        on_same_hub(first, second),
        on_same_hub(second, third),
    ensures
        on_same_hub(first, third),
{
}

/// The receiver product that drives a Flex LCD product.
pub open spec fn flex_receiver_pid(lcd_pid: u16) -> Option<u16> {
    if lcd_pid == 0xa018 {
        Some(0x0102u16)
    } else if lcd_pid == 0xa019 {
        Some(0x0104u16)
    } else {
        None
    }
}

/// The receiver slot of a Flex LCD: its port on the hub that it shares with the matching
/// receiver, counted from zero, for the first four ports.
pub open spec fn flex_slot(
    lcd_pid: u16,
    lcd: (u8, Seq<u8>),
    receiver_pid: u16,
    receiver: (u8, Seq<u8>),
) -> Option<u8> {
    if flex_receiver_pid(lcd_pid) == Some(receiver_pid) && lcd.0 == receiver.0 && lcd.1.len() > 0
        && receiver.1.len() > 0 && lcd.1.drop_last() == receiver.1.drop_last() && 1
        <= lcd.1.last() <= 4 {
        Some((lcd.1.last() - 1) as u8)
    } else {
        None
    }
}

/// The slot in which the receiver at `receiver` drives the LCD at `lcd`, if it does.
pub fn flex_receiver_slot(
    lcd_pid: u16,
    lcd: &UsbLocation,
    receiver_pid: u16,
    receiver: &UsbLocation,
) -> (slot: Option<u8>)
    ensures
        slot == flex_slot(lcd_pid, lcd@, receiver_pid, receiver@),
{
    let paired = (lcd_pid == 0xa018 && receiver_pid == 0x0102) || (lcd_pid == 0xa019
        && receiver_pid == 0x0104);
    if !paired || lcd.0 != receiver.0 || lcd.1.len() == 0 || receiver.1.len() == 0 {
        return None;
    }
    let a = lcd.1.as_slice();
    let b = receiver.1.as_slice();
    let a_parent = vstd::slice::slice_subrange(a, 0, a.len() - 1);
    let b_parent = vstd::slice::slice_subrange(b, 0, b.len() - 1);
    assert(a_parent@ =~= lcd.1@.drop_last());
    assert(b_parent@ =~= receiver.1@.drop_last());
    let port: u8 = a[a.len() - 1];
    if !same_bytes(a_parent, b_parent) || port < 1 || port > 4 {
        return None;
    }
    Some(port - 1)
}

/// Two places share a hub exactly when they agree in the bus and in every port but the last, and
/// neither is on a root port.
pub proof fn lemma_hubs_agree_port_by_port(first: &UsbLocation, second: &UsbLocation, same: bool)
    requires
        call_ensures(same_hub, (first, second), same),
    ensures
        same <==> {
            &&& first.0 == second.0
            &&& first.1@.len() == second.1@.len()
            &&& first.1@.len() > 1
            &&& forall|k: int| 0 <= k < first.1@.len() - 1 ==> first.1@[k] == second.1@[k]
        },
{
    if same {
        assert forall|k: int| 0 <= k < first.1@.len() - 1 implies first.1@[k] == second.1@[k] by {
            assert(first.1@.drop_last()[k] == second.1@.drop_last()[k]);
        }
    } else if first.1@.len() == second.1@.len() && first.1@.len() > 1 && (forall|k: int|
        0 <= k < first.1@.len() - 1 ==> first.1@[k] == second.1@[k]) {
        assert(first.1@.drop_last() =~= second.1@.drop_last());
    }
}

/// Two places are the same exactly when they agree in the bus and in every port.
pub proof fn lemma_locations_agree_port_by_port(
    first: &UsbLocation,
    second: &UsbLocation,
    same: bool,
)
    requires
        call_ensures(same_location, (first, second), same),
    ensures
        same <==> {
            &&& first.0 == second.0
            &&& first.1@.len() == second.1@.len()
            &&& forall|k: int| 0 <= k < first.1@.len() ==> first.1@[k] == second.1@[k]
        },
{
    if first.1@.len() == second.1@.len() && (forall|k: int|
        0 <= k < first.1@.len() ==> first.1@[k] == second.1@[k]) {
        assert(first.1@ =~= second.1@);
    }
}

/// A panel a018 has a slot at a receiver 0102, and a panel a019 at a receiver 0104, when both are
/// on one bus and on ports of one hub. The slot is the panel's port, one to four, less one.
pub proof fn lemma_slots_follow_the_ports(
    lcd_pid: u16,
    lcd: &UsbLocation,
    receiver_pid: u16,
    receiver: &UsbLocation,
    slot: Option<u8>,
)
    requires
        call_ensures(flex_receiver_slot, (lcd_pid, lcd, receiver_pid, receiver), slot),
    ensures
        slot is Some <==> {
            &&& lcd_pid == 0xa018 && receiver_pid == 0x0102 || lcd_pid == 0xa019 && receiver_pid
                == 0x0104
            &&& lcd.0 == receiver.0
            &&& lcd.1@.len() == receiver.1@.len()
            &&& lcd.1@.len() > 0
            &&& forall|k: int| 0 <= k < lcd.1@.len() - 1 ==> lcd.1@[k] == receiver.1@[k]
            &&& 1 <= lcd.1@[lcd.1@.len() - 1] <= 4
        },
        slot matches Some(slot) ==> lcd.1@[lcd.1@.len() - 1] == slot + 1,
{
    if slot is Some {
        assert forall|k: int| 0 <= k < lcd.1@.len() - 1 implies lcd.1@[k] == receiver.1@[k] by {
            assert(lcd.1@.drop_last()[k] == receiver.1@.drop_last()[k]);
        }
        assert(lcd.1@.drop_last().len() == receiver.1@.drop_last().len());
    } else if lcd.1@.len() == receiver.1@.len() && lcd.1@.len() > 0 && (forall|k: int|
        0 <= k < lcd.1@.len() - 1 ==> lcd.1@[k] == receiver.1@[k]) {
        assert(lcd.1@.drop_last() =~= receiver.1@.drop_last());
    }
}

} // verus!
