use lianli_link::group_recovery::{
    elapsed, Decision, Group, Owner, RecoveryState, DISCOVERY_GRACE, RETRY_DELAY, SETTLE_TIME,
};
use lianli_link::group_watch::{
    after_teardown, after_verify, device_disconnected, finish_report, group_still_missing,
    present_receivers, teardown_error, Cause, LcdGroupRecovery, Report, ScanError, ScannedDevice,
    Teardown, UsbError, WorkerOutcome, WorkerStep,
};
use lianli_link::lcd_groups::only_mapping;
use lianli_link::registry::{
    DeviceFamily, DiscoveredDevice, FanDevice, Registry, UsbDevice, V2HidEntry, WirelessFanType,
};
use lianli_link::service::{ActiveTarget, ScreenInfo, ServiceManager, StartupImageJob};
use lianli_link::table::{IdSet, Table};
use lianli_link::topology::same_hub;

const MILLISECOND: u64 = 1_000_000;
const SECOND: u64 = 1_000 * MILLISECOND;

fn group(owner: Owner, location: (u8, Vec<u8>), lcd_pid: u16, expected: u8) -> Group {
    Group {
        id: "receiver".to_string(),
        owner,
        location,
        lcd_pid,
        expected,
        members: IdSet::new(),
    }
}

fn usb(device_id: &str, vid: u16, pid: u16) -> UsbDevice {
    UsbDevice { device_id: device_id.to_string(), vid, pid, family: DeviceFamily::Other }
}

fn radio(mac: [u8; 6], text: &str, size: Option<u8>, fan_type: WirelessFanType) -> DiscoveredDevice {
    DiscoveredDevice {
        mac,
        mac_text: text.to_string(),
        channel: 1,
        rx_type: 2,
        device_type: 10,
        cmd_seq: 0,
        fan_type,
        lcd_group_size: size,
    }
}

fn registry(devices: Vec<UsbDevice>) -> Registry {
    Registry {
        cached_usb_devices: devices,
        usb_locations: Table::new(),
        fan_devices: Table::new(),
        fan_device_info: Vec::new(),
        v2_hid_entries: Vec::new(),
    }
}

fn target(index: usize, identity: &str) -> ActiveTarget {
    ActiveTarget {
        index,
        device_identity: identity.to_string(),
        key: "key".to_string(),
        screen: ScreenInfo { width: 480, height: 480, model: 1 },
        handle: index as u64,
    }
}

#[test]
fn disconnected_screen_does_not_prevent_group_recovery() {
    let missing = vec![Cause::Other, Cause::Transport(UsbError::NoDevice)];
    assert!(device_disconnected(&missing));
    assert!(device_disconnected(&vec![Cause::Usb(UsbError::NoDevice)]));
    assert!(!device_disconnected(&vec![Cause::Usb(UsbError::Timeout)]));
    assert!(!device_disconnected(&vec![Cause::Other]));
}

#[test]
fn missing_group_gets_grace_and_only_one_delayed_retry() {
    let now: u64 = 5 * SECOND;
    let mut state = RecoveryState::default();
    assert_eq!(state.observe(now, true), Decision::Wait);
    assert_eq!(state.observe(now + DISCOVERY_GRACE - MILLISECOND, true), Decision::Wait);
    let first = now + DISCOVERY_GRACE;
    assert_eq!(state.observe(first, true), Decision::Reboot);
    state.attempted(first);
    assert_eq!(state.observe(first + RETRY_DELAY - MILLISECOND, true), Decision::Wait);
    let second = first + RETRY_DELAY;
    assert_eq!(state.observe(second, true), Decision::Reboot);
    state.attempted(second);
    assert_eq!(state.observe(second + RETRY_DELAY, true), Decision::Exhausted);
    assert_eq!(state.observe(second + RETRY_DELAY * 100, true), Decision::Wait);
}

#[test]
fn healthy_scan_restarts_grace_without_replenishing_attempts() {
    let now: u64 = 7 * SECOND;
    let mut state = RecoveryState::default();
    state.observe(now, true);
    state.attempted(now + DISCOVERY_GRACE);
    state.observe(now + DISCOVERY_GRACE + SECOND, false);
    let later = now + RETRY_DELAY * 2;
    assert_eq!(state.observe(later, true), Decision::Wait);
    assert_eq!(state.observe(later + DISCOVERY_GRACE, true), Decision::Reboot);
    state.attempted(later + DISCOVERY_GRACE);
    assert_eq!(
        state.observe(later + DISCOVERY_GRACE + RETRY_DELAY, true),
        Decision::Exhausted
    );
}

#[test]
fn matching_hubs_require_bus_and_parent_path() {
    assert!(same_hub(&(3, vec![2, 7, 5]), &(3, vec![2, 7, 1])));
    assert!(!same_hub(&(3, vec![2, 7, 5]), &(3, vec![2, 8, 1])));
    assert!(!same_hub(&(3, vec![2, 7, 5]), &(4, vec![2, 7, 1])));
    assert!(!same_hub(&(3, vec![]), &(3, vec![])));
    assert!(!same_hub(&(3, vec![1]), &(3, vec![2])));
}

#[test]
fn recovery_stops_only_sibling_screens_including_previously_missing_targets() {
    let group = Group {
        id: "receiver".into(),
        owner: Owner::Wired("receiver".into()),
        location: (3, vec![2, 7, 5]),
        lcd_pid: 0xa018,
        expected: 3,
        members: IdSet::new(),
    };
    assert!(group.owns_target("hid:1cbe:a018:3-2.7.1"));
    assert!(group.owns_target("hid:1cbe:a018:3-2.7.3"));
    for unrelated in [
        "hid:1cbe:a018:4-2.7.1",
        "hid:1cbe:a018:3-2.8.1",
        "hid:1cbe:a018:3-2.7.1.2",
        "hid:1cbe:a019:3-2.7.1",
        "hid:1cbe:a018:3-2.7.invalid",
        "hid:serial",
    ] {
        assert!(!group.owns_target(unrelated), "{unrelated}");
    }
}

#[test]
fn port_numbers_are_read_as_bytes() {
    let group = group(Owner::Wired("receiver".into()), (12, vec![200, 5]), 0x0005, 1);
    assert!(group.owns_target("hid:1cbe:0005:12-200.1"));
    assert!(group.owns_target("hid:1cbe:0005:12-+200.1"));
    assert!(group.owns_target("hid:1cbe:0005:12-0200.255"));
    assert!(!group.owns_target("hid:1cbe:0005:12-200.256"));
    assert!(!group.owns_target("hid:1cbe:0005:12-200."));
    assert!(!group.owns_target("hid:1cbe:0005:12-200.-1"));
    assert!(!group.owns_target("hid:1cbe:0005:12-"));
    assert!(!group.owns_target("hid:1cbe:0005:1-200.1"));
}

#[test]
fn elapsed_time_is_never_negative() {
    assert_eq!(elapsed(10, 4), 6);
    assert_eq!(elapsed(4, 10), 0);
}

#[test]
fn wired_groups_collect_the_panels_behind_their_hub() {
    let mut registry = registry(vec![
        usb("receiver", 0x43a8, 0x0102),
        usb("lcd-a", 0x1cbe, 0xa018),
        usb("lcd-b", 0x1cbe, 0xa018),
        usb("lcd-other-hub", 0x1cbe, 0xa018),
        usb("lcd-other-model", 0x1cbe, 0xa019),
    ]);
    registry.fan_devices.insert(
        "receiver".to_string(),
        FanDevice { lcd_group_size: Some(3), wireless_link_mac: Some([7; 6]) },
    );
    registry.usb_locations.insert("receiver".to_string(), (3, vec![2, 5]));
    registry.usb_locations.insert("lcd-a".to_string(), (3, vec![2, 1]));
    registry.usb_locations.insert("lcd-b".to_string(), (3, vec![2, 2]));
    registry.usb_locations.insert("lcd-other-hub".to_string(), (3, vec![4, 1]));
    // The wired receiver stands for the wireless one with the same address.
    let wireless = vec![radio([7; 6], "07", Some(2), WirelessFanType::TlV3)];
    let groups = registry.lcd_recovery_groups(&wireless);
    assert_eq!(groups.len(), 1);
    assert_eq!(groups[0].id, "receiver");
    assert_eq!(groups[0].lcd_pid, 0xa018);
    assert_eq!(groups[0].expected, 3);
    assert_eq!(groups[0].members.len(), 2);
    assert!(groups[0].members.contains("lcd-a"));
    assert!(groups[0].members.contains("lcd-b"));
    assert!(groups[0].incomplete());
}

#[test]
fn a_panel_of_unknown_place_hides_its_groups() {
    let mut registry = registry(vec![
        usb("receiver", 0x43a8, 0x0104),
        usb("lcd", 0x1cbe, 0xa019),
    ]);
    registry.fan_devices.insert(
        "receiver".to_string(),
        FanDevice { lcd_group_size: Some(1), wireless_link_mac: None },
    );
    registry.usb_locations.insert("receiver".to_string(), (1, vec![1, 2]));
    assert_eq!(registry.lcd_recovery_groups(&Vec::new()).len(), 0);
    registry.usb_locations.insert("lcd".to_string(), (1, vec![1, 3]));
    let groups = registry.lcd_recovery_groups(&Vec::new());
    assert_eq!(groups.len(), 1);
    assert!(!groups[0].incomplete());
}

#[test]
fn receivers_on_one_hub_are_ambiguous() {
    let mut registry = registry(vec![
        usb("first", 0x43a8, 0x0102),
        usb("second", 0x43a8, 0x0102),
        usb("apart", 0x43a8, 0x0102),
        usb("on-root", 0x43a8, 0x0102),
        usb("unsized", 0x43a8, 0x0102),
    ]);
    for (id, path) in [
        ("first", vec![2, 1]),
        ("second", vec![2, 2]),
        ("apart", vec![3, 1]),
        ("on-root", vec![4]),
        ("unsized", vec![5, 1]),
    ] {
        let size = if id == "unsized" { Some(0) } else { Some(1) };
        registry.fan_devices.insert(
            id.to_string(),
            FanDevice { lcd_group_size: size, wireless_link_mac: None },
        );
        registry.usb_locations.insert(id.to_string(), (1, path));
    }
    let groups = registry.lcd_recovery_groups(&Vec::new());
    assert_eq!(groups.len(), 1);
    assert_eq!(groups[0].id, "apart");
}

#[test]
fn wireless_groups_need_one_matching_companion() {
    let mut registry = registry(Vec::new());
    let entry = |mac: [u8; 6], port: u8| V2HidEntry { mac, bus: 2, port_numbers: vec![1, port] };
    registry.v2_hid_entries = vec![entry([1; 6], 1), entry([2; 6], 2), entry([2; 6], 3)];
    let wireless = vec![
        radio([1; 6], "01:01", Some(2), WirelessFanType::Slv3Led),
        radio([2; 6], "02:02", Some(2), WirelessFanType::Slv3Lcd),
        radio([3; 6], "03:03", Some(2), WirelessFanType::Tlv2Led),
        radio([1; 6], "no fan", Some(2), WirelessFanType::Other),
        radio([1; 6], "no size", None, WirelessFanType::Slv3Led),
    ];
    let groups = registry.lcd_recovery_groups(&wireless);
    assert_eq!(groups.len(), 1);
    assert_eq!(groups[0].id, "wireless:01:01");
    assert_eq!(groups[0].location, (2, vec![1, 1]));
    assert_eq!(groups[0].lcd_pid, 0x0005);
    assert!(only_mapping(&registry.v2_hid_entries, &[1; 6]).is_some());
    assert!(only_mapping(&registry.v2_hid_entries, &[2; 6]).is_none());
    assert!(only_mapping(&registry.v2_hid_entries, &[3; 6]).is_none());
}

#[test]
fn forgotten_receivers_start_over() {
    let mut recovery = LcdGroupRecovery::new();
    let groups = vec![
        group(Owner::Wired("receiver".into()), (1, vec![1, 2]), 0xa018, 2),
    ];
    assert!(recovery.scan(&groups, 0, 0).reboot.is_none());
    let scan = recovery.scan(&groups, 0, DISCOVERY_GRACE);
    assert_eq!(scan.reboot, Some(0));
    recovery.attempt(&groups[0].id, DISCOVERY_GRACE);
    assert_eq!(recovery.states.get(&"receiver".to_string()).unwrap().attempts, 1);
    let mut present = IdSet::new();
    present.insert("receiver".to_string());
    recovery.retain_present(&present);
    assert_eq!(recovery.states.len(), 1);
    recovery.retain_present(&IdSet::new());
    assert_eq!(recovery.states.len(), 0);
}

#[test]
fn exhausted_groups_are_reported_once_and_passed_over() {
    let mut recovery = LcdGroupRecovery::new();
    let mut other = group(Owner::Wired("other".into()), (1, vec![3, 2]), 0xa018, 2);
    other.id = "other".to_string();
    let groups = vec![
        group(Owner::Wired("receiver".into()), (1, vec![1, 2]), 0xa018, 2),
        other,
    ];
    recovery.scan(&groups, 0, 0);
    let mut now = DISCOVERY_GRACE;
    for _ in 0..2 {
        assert_eq!(recovery.scan(&groups, 0, now).reboot, Some(0));
        recovery.attempt(&groups[0].id, now);
        now += RETRY_DELAY;
    }
    let scan = recovery.scan(&groups, 0, now);
    assert_eq!(scan.exhausted, vec![0]);
    assert_eq!(scan.reboot, Some(1));
    let scan = recovery.scan(&groups, 0, now);
    assert!(scan.exhausted.is_empty());
    assert_eq!(scan.reboot, Some(1));
    assert_eq!(recovery.scan(&groups, 2, now).reboot, None);
}

#[test]
fn usb_settles_after_a_worker_ends() {
    let mut recovery = LcdGroupRecovery::new();
    assert!(!recovery.busy());
    recovery.started("receiver".to_string(), false);
    assert!(!recovery.busy());
    recovery.started("receiver".to_string(), true);
    assert!(recovery.busy());
    assert!(recovery.poll(SECOND, None).is_none());
    assert!(recovery.busy());
    let log = recovery.poll(2 * SECOND, Some(WorkerOutcome::Sent)).unwrap();
    assert_eq!(log.0, "receiver");
    assert_eq!(log.1, Report::RebootSent);
    assert_eq!(recovery.settle_until, Some(2 * SECOND + SETTLE_TIME));
    recovery.poll(2 * SECOND + SETTLE_TIME - 1, None);
    assert!(recovery.busy());
    recovery.poll(2 * SECOND + SETTLE_TIME, None);
    assert!(!recovery.busy());
}

#[test]
fn stopping_releases_the_attempt() {
    let mut recovery = LcdGroupRecovery::new();
    recovery.started("receiver".to_string(), true);
    recovery.settle_until = Some(SETTLE_TIME);
    let log = recovery.stop(WorkerOutcome::Failed).unwrap();
    assert_eq!(log.1, Report::Silent);
    assert!(!recovery.busy());
    assert!(recovery.stop(WorkerOutcome::Panicked).is_none());
}

#[test]
fn worker_ends_are_reported_by_kind() {
    assert_eq!(finish_report(WorkerOutcome::Sent, true), Report::RebootSent);
    assert_eq!(finish_report(WorkerOutcome::NotNeeded, false), Report::Silent);
    assert_eq!(finish_report(WorkerOutcome::Failed, false), Report::RecoveryFailed);
    assert_eq!(finish_report(WorkerOutcome::Failed, true), Report::Silent);
    assert_eq!(finish_report(WorkerOutcome::Panicked, true), Report::WorkerPanicked);
}

#[test]
fn connected_receivers_are_known_by_both_kinds_of_identity() {
    let present = present_receivers(
        &vec![usb("a", 1, 2), usb("b", 1, 2), usb("a", 1, 2)],
        &vec![radio([1; 6], "01:02", None, WirelessFanType::Other)],
    );
    assert_eq!(present.len(), 3);
    assert!(present.contains("a"));
    assert!(present.contains("b"));
    assert!(present.contains("wireless:01:02"));
    assert!(!present.contains("01:02"));
}

fn found(vid: u16, pid: u16, ports: Vec<u8>) -> ScannedDevice {
    ScannedDevice::Found { vid, pid, bus: 1, ports: Some(ports) }
}

#[test]
fn a_fresh_scan_decides_whether_panels_are_missing() {
    let group = group(Owner::Wired("receiver".into()), (1, vec![2, 5]), 0xa018, 2);
    let entries = Vec::new();
    let check = |devices: Vec<ScannedDevice>| group_still_missing(&group, &entries, &Ok(devices));
    let anchor = || found(0x43a8, 0x0102, vec![2, 5]);
    let panel = |port: u8| found(0x1cbe, 0xa018, vec![2, port]);
    assert_eq!(check(vec![anchor(), panel(1)]), Ok(true));
    assert_eq!(check(vec![anchor(), panel(1), panel(2)]), Ok(false));
    assert_eq!(check(vec![panel(1)]), Ok(false));
    // Another receiver behind the same hub makes the group ambiguous.
    assert_eq!(check(vec![anchor(), found(0x1a86, 0x2107, vec![2, 6])]), Ok(false));
    // One elsewhere does not, nor does an unrelated device of unknown place.
    assert_eq!(check(vec![anchor(), found(0x1a86, 0x2107, vec![3, 6])]), Ok(true));
    assert_eq!(
        check(vec![
            anchor(),
            ScannedDevice::Found { vid: 1, pid: 1, bus: 1, ports: None },
        ]),
        Ok(true)
    );
    assert_eq!(
        check(vec![anchor(), ScannedDevice::Unreadable]),
        Err(ScanError::Descriptor(1))
    );
    assert_eq!(
        check(vec![ScannedDevice::Found { vid: 0x1cbe, pid: 0xa018, bus: 1, ports: None }]),
        Err(ScanError::Ports(0))
    );
    assert_eq!(
        group_still_missing(&group, &entries, &Err(ScanError::List)),
        Err(ScanError::List)
    );
}

#[test]
fn a_moved_companion_ends_wireless_recovery() {
    let group = group(Owner::Wireless([9; 6]), (1, vec![2, 5]), 0x0005, 2);
    let devices = || Ok(vec![found(0x1a86, 0x2107, vec![2, 5])]);
    let entry = |port: u8| V2HidEntry { mac: [9; 6], bus: 1, port_numbers: vec![2, port] };
    assert_eq!(group_still_missing(&group, &vec![entry(5)], &devices()), Ok(true));
    assert_eq!(group_still_missing(&group, &vec![entry(6)], &devices()), Ok(false));
    assert_eq!(
        group_still_missing(&group, &vec![entry(5), entry(5)], &devices()),
        Ok(false)
    );
    assert_eq!(
        group_still_missing(&group, &Vec::new(), &Err(ScanError::List)),
        Ok(false)
    );
}

#[test]
fn teardown_errors_stop_the_worker_unless_the_panel_is_gone() {
    let gone = || Teardown::Failed(vec![Cause::Usb(UsbError::NoDevice)]);
    let stuck = || Teardown::Failed(vec![Cause::Usb(UsbError::Timeout)]);
    assert_eq!(teardown_error(&vec![Teardown::Stopped, gone()]), None);
    assert_eq!(teardown_error(&vec![gone(), stuck(), stuck()]), Some(1));
    assert_eq!(after_teardown(&vec![gone()], false), WorkerStep::Verify);
    assert_eq!(after_teardown(&vec![gone()], true), WorkerStep::Leave);
    assert_eq!(after_teardown(&vec![stuck()], true), WorkerStep::Fail);
    assert_eq!(after_verify(Ok(true), false), WorkerStep::Reboot);
    assert_eq!(after_verify(Ok(true), true), WorkerStep::Leave);
    assert_eq!(after_verify(Ok(false), false), WorkerStep::Leave);
    assert_eq!(after_verify(Err(ScanError::List), true), WorkerStep::Fail);
}

#[test]
fn other_operations_come_before_recovery() {
    let wireless = Vec::new();
    let mut service = ServiceManager::new();
    assert!(service.recover_lcd_groups(&wireless, 0, None, false).groups.is_some());
    assert!(service.recover_lcd_groups(&wireless, 0, None, true).groups.is_none());
    service.pixel_cleaning = true;
    assert!(service.recover_lcd_groups(&wireless, 0, None, false).groups.is_none());
    service.pixel_cleaning = false;
    service.display_switching = true;
    assert!(service.recover_lcd_groups(&wireless, 0, None, false).groups.is_none());
    service.display_switching = false;
    service.startup_image_quarantine.insert("lcd".to_string());
    assert!(service.recover_lcd_groups(&wireless, 0, None, false).groups.is_none());
    service.startup_image_quarantine.remove("lcd");
    service.startup_image_job = Some(StartupImageJob { id: 1, identity: "lcd".to_string() });
    assert!(service.recover_lcd_groups(&wireless, 0, None, false).groups.is_none());
    service.startup_image_job = None;
    assert!(service.recover_lcd_groups(&wireless, 0, None, false).groups.is_some());
}

#[test]
fn rebooting_a_group_leaves_the_other_targets() {
    let mut service = ServiceManager::new();
    service.targets.insert(0, target(0, "hid:1cbe:a018:3-2.7.1"));
    service.targets.insert(1, target(1, "hid:1cbe:a018:3-2.8.1"));
    service.targets.insert(2, target(2, "hid:1cbe:a018:3-2.7.2"));
    let group = group(Owner::Wired("receiver".into()), (3, vec![2, 7, 5]), 0xa018, 3);
    let retired = service.retire_lcd_group(&group, 4);
    let mut indices: Vec<usize> = retired.iter().map(|target| target.index).collect();
    indices.sort();
    assert_eq!(indices, vec![0, 2]);
    assert_eq!(service.targets.len(), 1);
    assert!(service.targets.contains(&1));
    let state = service.lcd_group_recovery.states.get(&"receiver".to_string()).unwrap();
    assert_eq!(state.attempts, 1);
    assert_eq!(state.last_attempt, Some(4));
}
