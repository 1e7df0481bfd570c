use lianli_link::journal::{load_quarantine, write_quarantine, JournalError, JOURNAL_LIMIT};
use lianli_link::media::{Preparation, RECOVERY_MESSAGE};
use lianli_link::quarantine::ClearError;
use lianli_link::refresh::DetectedLcd;
use lianli_link::registry::{
    DeviceFamily, DiscoveredDevice, FanDevice, FanDeviceInfo, UsbDevice, WirelessFanType,
};
use lianli_link::service::{
    ActiveTarget, AppConfig, LcdConfig, MediaPreparationState, MediaPreparationStatus, MediaType,
    ScreenInfo, ServiceManager, StartupImageJob, StartupImageState, StartupImageStatus,
};
use lianli_link::startup_image::{
    wireless_address, wireless_target_index, StartError, StartRequest, StartRoute, TargetError,
};
use lianli_link::table::IdSet;
use lianli_link::topology::flex_receiver_slot;
use lianli_link::upload::{
    next_radio_step, next_upload_step, theme_wait, RadioStep, ReturnedTarget, ThemeWait,
    UploadOutcome, UploadStep,
};

const SECOND: u64 = 1_000_000_000;

fn ids(list: &[&str]) -> IdSet {
    let mut ids = IdSet::new();
    for id in list {
        ids.insert(id.to_string());
    }
    ids
}

fn lcd(serial: Option<&str>, device_id: &str) -> LcdConfig {
    LcdConfig {
        serial: serial.map(|text| text.to_string()),
        index: None,
        device_id: device_id.to_string(),
        identity: "identity".to_string(),
        media_type: MediaType::Color,
        template_id: None,
        rgb: Some([0, 0, 0]),
        custom_h264: false,
    }
}

fn usb(device_id: &str, vid: u16, pid: u16, family: DeviceFamily) -> UsbDevice {
    UsbDevice { device_id: device_id.to_string(), vid, pid, family }
}

fn target(index: usize, identity: &str) -> ActiveTarget {
    ActiveTarget {
        index,
        device_identity: identity.to_string(),
        key: "key".to_string(),
        screen: ScreenInfo { width: 480, height: 480, model: 1 },
        handle: index as u64,
    }
}

fn status(device_id: &str) -> MediaPreparationStatus {
    MediaPreparationStatus {
        startup_recovery_required: true,
        runtime: None,
        last_playback_error: None,
        generation: 1,
        device_id: device_id.to_string(),
        state: MediaPreparationState::Failed,
        error: Some(RECOVERY_MESSAGE.to_string()),
    }
}

fn request(identity: &str, mac: Option<[u8; 6]>) -> StartRequest {
    StartRequest { identity: identity.to_string(), mac, width: 480, height: 480 }
}

fn bound(mac: [u8; 6], device_type: u8) -> DiscoveredDevice {
    DiscoveredDevice {
        mac,
        mac_text: "mac".to_string(),
        channel: 1,
        rx_type: 1,
        device_type,
        cmd_seq: 0,
        fan_type: WirelessFanType::Other,
        lcd_group_size: None,
    }
}

#[test]
fn h2_upload_selects_only_the_usb_display_with_the_receiver_mac() {
    assert_eq!(
        wireless_target_index([2; 6], &vec![(0, Some([1; 6])), (3, Some([2; 6]))]).unwrap(),
        Some(3)
    );
    assert_eq!(
        wireless_target_index([2; 6], &vec![(0, Some([1; 6]))]).unwrap(),
        None
    );
    assert_eq!(wireless_target_index([2; 6], &vec![]).unwrap(), None);
    assert!(wireless_target_index([2; 6], &vec![(0, None)]).is_err());
    assert!(
        wireless_target_index([2; 6], &vec![(0, Some([2; 6])), (3, Some([2; 6]))]).is_err()
    );
}

#[test]
fn flex_startup_routing_requires_the_matching_model_and_usb_parent() {
    let lcd = (3, vec![2, 7, 3]);
    let receiver = (3, vec![2, 7, 5]);
    assert_eq!(flex_receiver_slot(0xa018, &lcd, 0x0102, &receiver), Some(2));
    assert_eq!(flex_receiver_slot(0xa019, &lcd, 0x0104, &receiver), Some(2));
    assert_eq!(flex_receiver_slot(0xa018, &lcd, 0x0104, &receiver), None);
    assert_eq!(flex_receiver_slot(0xa018, &lcd, 0x0101, &receiver), None);
    assert_eq!(
        flex_receiver_slot(0xa018, &lcd, 0x0102, &(4, receiver.1.clone())),
        None
    );
    assert_eq!(
        flex_receiver_slot(0xa018, &lcd, 0x0102, &(3, vec![2, 8, 5])),
        None
    );
    assert_eq!(
        flex_receiver_slot(0xa018, &(3, vec![2, 7, 5]), 0x0102, &receiver),
        None
    );
    assert_eq!(
        flex_receiver_slot(0xa018, &(3, vec![]), 0x0102, &receiver),
        None
    );
}

/// Looks at which panels are present, and writes down what stays blocked, as the service does.
fn reconcile(service: &mut ServiceManager, journal: &mut Vec<u8>, present: &IdSet, now: u64) {
    if let Some(remaining) = service.reconcile_startup_quarantine(present, now) {
        *journal = write_quarantine(&remaining);
        service.quarantine_written(remaining, true);
    }
}

#[test]
fn quarantine_requires_sustained_absence_and_persists_clearance() {
    let present = ids(&["lcd"]);
    let mut journal = write_quarantine(&present);
    let mut service = ServiceManager::new();
    service.startup_image_quarantine = present.copy();
    let now = 60 * SECOND;
    reconcile(&mut service, &mut journal, &IdSet::new(), now);
    assert!(service.startup_image_quarantine.same(&present));
    reconcile(&mut service, &mut journal, &present, now);
    assert_eq!(service.startup_absent_since.len(), 0);
    service.startup_absent_since.insert("lcd".into(), now - 11 * SECOND);
    reconcile(&mut service, &mut journal, &IdSet::new(), now);
    assert!(service.startup_image_quarantine.is_empty());
    assert!(load_quarantine(Some(&journal)).ok().unwrap().is_empty());
}

#[test]
fn quarantine_clears_when_device_returns_after_observed_absence() {
    let present = ids(&["hid:lcd"]);
    let mut journal = write_quarantine(&present);
    let mut service = ServiceManager::new();
    service.startup_image_quarantine = present.copy();
    let now = 60 * SECOND;
    reconcile(&mut service, &mut journal, &present, now);
    assert!(service.startup_image_quarantine.same(&present));
    reconcile(&mut service, &mut journal, &IdSet::new(), now);
    service.startup_absent_since.insert("hid:lcd".into(), now - 11 * SECOND);
    reconcile(&mut service, &mut journal, &present, now);
    assert!(service.startup_image_quarantine.is_empty());
    assert!(load_quarantine(Some(&journal)).ok().unwrap().is_empty());
}

#[test]
fn quarantined_media_reports_recovery_instead_of_waiting_for_device() {
    let mut service = ServiceManager::new();
    service.startup_image_quarantine.insert("hid:lcd".into());
    service.config = Some(AppConfig {
        lcds: vec![lcd(Some("hid:lcd"), "serial:hid:lcd")],
        default_fps: "24".to_string(),
        hardware_video: false,
    });
    let Preparation::Submit(jobs) = service.prepare_media_assets(&Vec::new(), false) else {
        panic!("expected jobs");
    };
    assert!(jobs.is_empty());
    service.media_submitted(&Vec::new(), 1);
    let status = service.media_preparation.get(&0).unwrap();
    assert_eq!(status.state, MediaPreparationState::Failed);
    assert_eq!(status.error.as_deref(), Some(RECOVERY_MESSAGE));
    assert!(status.startup_recovery_required);
}

#[test]
fn manual_recovery_clears_only_the_selected_lcd() {
    let mut service = ServiceManager::new();
    service.startup_image_quarantine = ids(&["hid:a", "hid:b"]);
    let clearance = service.startup_clearance("serial:hid:a").ok().unwrap();
    let journal = write_quarantine(&clearance.remaining);
    service.clear_startup_recovery(clearance);
    assert!(service.startup_image_quarantine.same(&ids(&["hid:b"])));
    assert!(load_quarantine(Some(&journal)).ok().unwrap().same(&service.startup_image_quarantine));
    assert!(service.media_reload_pending);
    assert!(service.startup_image_job.is_none());
    assert!(service.startup_clearance("serial:hid:a").is_err());
}

#[test]
fn clearing_resets_the_reports_of_the_panel() {
    let mut service = ServiceManager::new();
    service.startup_image_quarantine = ids(&["hid:a"]);
    service.startup_absent_since.insert("hid:a".to_string(), 3);
    service.media_preparation.insert(0, status("serial:a"));
    service.media_preparation.insert(1, status("hid:a"));
    service.media_preparation.insert(2, status("serial:b"));
    let clearance = service.startup_clearance("a").ok().unwrap();
    assert_eq!(clearance.identity, "hid:a");
    service.clear_startup_recovery(clearance);
    for index in [0, 1] {
        let status = service.media_preparation.get(&index).unwrap();
        assert!(!status.startup_recovery_required);
        assert_eq!(status.error, None);
        assert_eq!(status.state, MediaPreparationState::WaitingForDevice);
    }
    assert!(service.media_preparation.get(&2).unwrap().startup_recovery_required);
    assert_eq!(service.startup_absent_since.len(), 0);
}

#[test]
fn nothing_is_cleared_during_an_upload() {
    let mut service = ServiceManager::new();
    service.startup_image_job = Some(StartupImageJob { id: 1, identity: "h2".into() });
    service.startup_image_quarantine.insert("h2".into());
    assert_eq!(service.startup_clearance("h2").err(), Some(ClearError::UploadRunning));
    assert!(service.reconcile_startup_quarantine(&IdSet::new(), 100 * SECOND).is_none());
    assert_eq!(service.startup_absent_since.len(), 0);
    assert!(service.startup_image_quarantine.contains("h2"));
    service.startup_image_job = None;
    assert_eq!(service.startup_clearance("h3").err(), Some(ClearError::NotBlocked));
}

#[test]
fn what_cannot_be_written_down_does_not_take_effect() {
    let mut service = ServiceManager::new();
    service.startup_image_quarantine = ids(&["a", "b"]);
    service.startup_absent_since.insert("a".to_string(), 0);
    let remaining = service.reconcile_startup_quarantine(&IdSet::new(), 10 * SECOND).unwrap();
    assert!(remaining.same(&ids(&["b"])));
    service.quarantine_written(remaining.copy(), false);
    assert!(service.startup_image_quarantine.same(&ids(&["a", "b"])));
    service.quarantine_written(remaining, true);
    assert!(service.startup_image_quarantine.same(&ids(&["b"])));
    assert_eq!(service.startup_absent_since.len(), 1);
    assert_eq!(service.startup_absent_since.get(&"b".to_string()), Some(&(10 * SECOND)));
}

#[test]
fn journals_are_read_back_as_written() {
    let odd = ids(&["hid:lcd", "quote \" and \\", "line\nbreak", "\u{754c}"]);
    let journal = write_quarantine(&odd);
    assert!(load_quarantine(Some(&journal)).ok().unwrap().same(&odd));
    assert!(load_quarantine(Some(b"[\"x\", \"y\", \"x\"]")).ok().unwrap().same(&ids(&["y", "x"])));
    assert_eq!(load_quarantine(Some(b"")).err(), Some(JournalError::Invalid));
    assert_eq!(load_quarantine(Some(b"{}")).err(), Some(JournalError::Invalid));
    assert_eq!(load_quarantine(Some(b"[1]")).err(), Some(JournalError::Invalid));
    let mut padded = b"[]".to_vec();
    padded.resize(JOURNAL_LIMIT, b' ');
    assert!(load_quarantine(Some(&padded)).ok().unwrap().is_empty());
    padded.push(b' ');
    assert_eq!(load_quarantine(Some(&padded)).err(), Some(JournalError::Oversized));
}

#[test]
fn daemon_restart_clears_previous_recovery_without_reuploading() {
    let mut journal: Option<Vec<u8>> = None;
    assert!(load_quarantine(journal.as_deref()).ok().unwrap().is_empty());
    let devices = ids(&["lcd"]);
    journal = Some(write_quarantine(&devices));
    assert!(load_quarantine(journal.as_deref()).ok().unwrap().same(&devices));
    // A daemon that starts takes the journal away.
    journal = None;
    let service = ServiceManager::new();
    assert!(service.startup_image_quarantine.is_empty());
    assert!(service.startup_image_job.is_none());
    assert!(load_quarantine(journal.as_deref()).ok().unwrap().is_empty());
}

#[test]
fn a_new_service_blocks_no_panel() {
    let service = ServiceManager::new();
    assert!(service.startup_image_quarantine.is_empty());
    assert!(service.startup_image_job.is_none());
    let with = service.quarantine_with(&"lcd".to_string());
    assert!(with.same(&ids(&["lcd"])));
}

#[test]
fn pending_identities_and_duplicates_are_told_apart() {
    assert_eq!(
        wireless_target_index([2; 6], &vec![(0, Some([2; 6])), (1, None), (2, Some([2; 6]))]),
        Err(TargetError::IdentityPending)
    );
    assert_eq!(
        wireless_target_index([2; 6], &vec![(0, Some([2; 6])), (2, Some([2; 6])), (1, None)]),
        Err(TargetError::Ambiguous)
    );
}

fn wired_service() -> ServiceManager {
    let mut service = ServiceManager::new();
    service.registry.cached_usb_devices = vec![
        usb("plain", 0x1cbe, 0x0005, DeviceFamily::Slv3Lcd),
        usb("flex", 0x1cbe, 0xa018, DeviceFamily::TlFlexLcd),
    ];
    service.targets.insert(4, target(4, "plain"));
    service.targets.insert(6, target(6, "flex"));
    service
}

#[test]
fn wired_uploads_find_their_target() {
    let mut service = wired_service();
    let none = Vec::new();
    let Ok(StartRoute::Wired { target, receiver }) =
        service.start_startup_image(&request("plain", None), &none, false, true)
    else {
        panic!("expected a wired route");
    };
    assert_eq!(target, 4);
    assert_eq!(service.targets.get(&target).unwrap().device_identity, "plain");
    assert_eq!(receiver, None);
    let start = |service: &ServiceManager, request: &StartRequest, locked: bool| {
        service.start_startup_image(request, &none, false, locked).err()
    };
    assert_eq!(start(&service, &request("gone", None), true), Some(StartError::NotConnected));
    assert_eq!(start(&service, &request("plain", None), false), Some(StartError::TargetsBusy));
    let mut wide = request("plain", None);
    wide.width = 800;
    assert_eq!(start(&service, &wide, true), Some(StartError::DimensionsChanged));
    assert!(service.take_target(4).is_some());
    assert_eq!(start(&service, &request("plain", None), true), Some(StartError::NotConfigured));
    // An address that cannot be read makes the upload a wired one.
    assert_eq!(
        start(&service, &request("wireless:what", None), true),
        Some(StartError::NotConnected)
    );
}

#[test]
fn flex_uploads_need_exactly_one_receiver() {
    let mut service = wired_service();
    let none = Vec::new();
    let start = |service: &ServiceManager| {
        service.start_startup_image(&request("flex", None), &none, false, true)
    };
    assert_eq!(start(&service).err(), Some(StartError::NoTopology));
    service.registry.usb_locations.insert("flex".to_string(), (1, vec![2, 3]));
    assert_eq!(start(&service).err(), Some(StartError::NoReceiver));
    for id in ["first", "second"] {
        service.registry.fan_device_info.push(FanDeviceInfo {
            device_id: id.to_string(),
            vid: 0x43a8,
            pid: 0x0102,
        });
        service.registry.usb_locations.insert(id.to_string(), (1, vec![2, 5]));
    }
    assert_eq!(start(&service).err(), Some(StartError::NoReceiver));
    let fan = || FanDevice { lcd_group_size: None, wireless_link_mac: None };
    service.registry.fan_devices.insert("second".to_string(), fan());
    let Ok(StartRoute::Wired { target, receiver }) = start(&service) else {
        panic!("expected a wired route");
    };
    assert_eq!(target, 6);
    assert_eq!(receiver, Some(("second".to_string(), 2)));
    service.registry.fan_devices.insert("first".to_string(), fan());
    assert_eq!(start(&service).err(), Some(StartError::AmbiguousReceiver));
}

#[test]
fn wireless_uploads_pause_the_linked_display() {
    let mac = [7; 6];
    let mut service = ServiceManager::new();
    service.registry.cached_usb_devices =
        vec![usb("h2", 0x1cbe, 0xa034, DeviceFamily::HydroShift2Lcd)];
    service.targets.insert(2, target(2, "h2"));
    let ask = request("wireless:07", Some(mac));
    let radios = vec![bound(mac, 10)];
    let start = |service: &ServiceManager, radios: &Vec<DiscoveredDevice>, locked: bool| {
        service.start_startup_image(&ask, radios, false, locked)
    };
    assert_eq!(start(&service, &vec![bound(mac, 23)], true).err(), Some(StartError::NotBound));
    assert_eq!(start(&service, &radios, false).err(), Some(StartError::TargetsBusy));
    assert_eq!(start(&service, &radios, true).err(), Some(StartError::IdentityPending));
    service.registry.fan_devices.insert(
        "h2".to_string(),
        FanDevice { lcd_group_size: None, wireless_link_mac: Some([8; 6]) },
    );
    assert!(matches!(
        start(&service, &radios, true),
        Ok(StartRoute::Wireless { display: None, .. })
    ));
    service.registry.fan_devices.insert(
        "h2".to_string(),
        FanDevice { lcd_group_size: None, wireless_link_mac: Some(mac) },
    );
    assert!(matches!(
        start(&service, &radios, true),
        Ok(StartRoute::Wireless { display: Some(2), mac: [7, 7, 7, 7, 7, 7] })
    ));
    service.targets.insert(3, target(3, "h2"));
    assert_eq!(start(&service, &radios, true).err(), Some(StartError::AmbiguousIdentity));
    service.registry.cached_usb_devices.push(usb("d", 0x1a86, 0xad22, DeviceFamily::Other));
    assert_eq!(start(&service, &radios, true).err(), Some(StartError::DesktopMode));
    assert_eq!(wireless_address("wireless:07"), Some("07"));
    assert_eq!(wireless_address("hid:07"), None);
}

#[test]
fn uploads_are_barred_in_order() {
    let mut service = wired_service();
    let none = Vec::new();
    let start = |service: &ServiceManager, busy: bool| {
        service.start_startup_image(&request("plain", None), &none, busy, true).err()
    };
    assert_eq!(start(&service, true), Some(StartError::MediaBusy));
    service.pixel_cleaning = true;
    assert_eq!(start(&service, true), Some(StartError::PixelCleaning));
    service.startup_image_quarantine.insert("plain".to_string());
    assert_eq!(start(&service, true), Some(StartError::RecoveryRequired));
    assert_eq!(StartError::RecoveryRequired.message(), RECOVERY_MESSAGE);
    service.display_switching = true;
    assert_eq!(start(&service, true), Some(StartError::OtherOperation));
    assert_eq!(
        StartError::OtherOperation.message(),
        "Another LCD operation is running"
    );
}

#[test]
fn a_blocked_panel_is_left_alone_and_an_upload_runs_alone() {
    let mut service = wired_service();
    let none = Vec::new();
    let found = || {
        vec![DetectedLcd {
            device_id: "plain".to_string(),
            family: DeviceFamily::Slv3Lcd,
            has_lcd: true,
            desktop_mode: false,
            suppressed: false,
            screen: None,
        }]
    };
    assert_eq!(service.lcd_candidates(&found()).len(), 1);
    service.startup_image_quarantine.insert("plain".to_string());
    assert!(service.lcd_candidates(&found()).is_empty());
    assert!(service.start_startup_image(&request("plain", None), &none, false, true).is_err());
    service.startup_image_quarantine.remove("plain");
    service.startup_image_job = Some(StartupImageJob { id: 1, identity: "plain".to_string() });
    assert_eq!(
        service.start_startup_image(&request("flex", None), &none, false, true).err(),
        Some(StartError::OtherOperation)
    );
    assert!(service.recover_lcd_groups(&none, 0, None, false).groups.is_none());
}

#[test]
fn an_upload_is_recorded_before_it_touches_the_device() {
    let mut step = UploadStep::Begin;
    let mut seen = vec![step];
    while step != UploadStep::Done {
        step = next_upload_step(step, true, false, true);
        seen.push(step);
    }
    assert_eq!(
        seen,
        vec![
            UploadStep::Begin,
            UploadStep::Prepare,
            UploadStep::CheckPanel,
            UploadStep::Record,
            UploadStep::Recorded,
            UploadStep::StopPlayback,
            UploadStep::Stopped,
            UploadStep::Announce,
            UploadStep::SelectImage,
            UploadStep::Transfer,
            UploadStep::Done,
        ]
    );
    assert_eq!(
        next_upload_step(UploadStep::Announce, true, false, false),
        UploadStep::Transfer
    );
    assert_eq!(
        next_upload_step(UploadStep::Record, false, false, true),
        UploadStep::Failed
    );
    assert_eq!(
        next_upload_step(UploadStep::Recorded, true, true, true),
        UploadStep::Failed
    );
}

#[test]
fn a_radio_upload_pauses_a_display_only_if_there_is_one() {
    let run = |display: bool| {
        let mut step = RadioStep::Capabilities;
        let mut count = 0;
        while step != RadioStep::Done {
            step = next_radio_step(step, true, false, display);
            count += 1;
        }
        count
    };
    assert_eq!(run(true), 9);
    assert_eq!(run(false), 8);
    assert_eq!(next_radio_step(RadioStep::Paused, true, true, true), RadioStep::Failed);
    assert_eq!(next_radio_step(RadioStep::Send, false, false, true), RadioStep::Failed);
    assert_eq!(theme_wait(true, true, 0, 9 * SECOND), ThemeWait::Confirmed);
    assert_eq!(theme_wait(false, true, 0, 9 * SECOND), ThemeWait::Cancelled);
    assert_eq!(theme_wait(false, false, 0, 3 * SECOND), ThemeWait::TimedOut);
    assert_eq!(theme_wait(false, false, 0, 3 * SECOND - 1), ThemeWait::Wait);
}

fn running(identity: &str) -> ServiceManager {
    let mut service = ServiceManager::new();
    service.targets.insert(2, target(2, identity));
    service.startup_image =
        Some(StartupImageStatus { id: 5, status: StartupImageState::Queued });
    service.startup_image_cancel = true;
    service.startup_config_pending = true;
    let lent = service.startup_image_started(5, identity.to_string(), Some(2)).unwrap();
    assert_eq!(lent.index, 2);
    assert_eq!(service.targets.len(), 0);
    service
}

fn ended(result: Result<bool, String>, recovery_required: bool) -> UploadOutcome {
    UploadOutcome::Ended { target: Some(target(2, "lcd")), result, stopped: true, recovery_required }
}

#[test]
fn a_finished_upload_gives_its_target_back() {
    let mut service = running("lcd");
    service.announce_transfer(5);
    assert!(matches!(
        service.startup_image.as_ref().unwrap().status,
        StartupImageState::Transferring
    ));
    let end = service.poll_startup_image(ended(Ok(true), true), false).unwrap();
    assert_eq!(end.identity, "lcd");
    assert_eq!(end.failure, None);
    assert!(end.apply_config);
    assert!(matches!(end.target, ReturnedTarget::Resume { index: 2, reload: true }));
    assert_eq!(service.targets.len(), 1);
    assert!(service.startup_image_quarantine.is_empty());
    assert!(!service.startup_image_cancel);
    assert!(!service.startup_config_pending);
    assert!(matches!(
        service.startup_image.as_ref().unwrap().status,
        StartupImageState::Transferred { response_received: true }
    ));
    assert!(service.poll_startup_image(UploadOutcome::Panicked, false).is_none());
}

#[test]
fn an_interrupted_upload_blocks_its_panel() {
    let mut service = running("lcd");
    let end = service.poll_startup_image(ended(Err("write failed".into()), true), true).unwrap();
    let message = format!("write failed. {RECOVERY_MESSAGE}");
    assert_eq!(end.failure, Some(message));
    assert!(matches!(end.target, ReturnedTarget::Stop(_)));
    assert!(service.startup_image_quarantine.contains("lcd"));
    assert_eq!(service.targets.len(), 0);
    let mut service = running("lcd");
    let end = service.poll_startup_image(UploadOutcome::Panicked, false).unwrap();
    let message = format!("Startup upload worker failed. {RECOVERY_MESSAGE}");
    assert_eq!(end.failure, Some(message));
    assert!(service.startup_image_quarantine.contains("lcd"));
}

#[test]
fn a_cancelled_upload_that_wrote_nothing_is_harmless() {
    let mut service = running("lcd");
    let end = service.poll_startup_image(ended(Err("stopped".into()), false), true).unwrap();
    assert_eq!(end.failure, None);
    assert!(service.startup_image_quarantine.is_empty());
    assert!(matches!(
        service.startup_image.as_ref().unwrap().status,
        StartupImageState::Cancelled
    ));
    let mut service = running("lcd");
    service.startup_image.as_mut().unwrap().id = 6;
    let end = service.poll_startup_image(ended(Err("no".into()), false), false).unwrap();
    assert_eq!(end.failure.as_deref(), Some("no"));
    // Clients look at another upload by now.
    assert!(matches!(
        service.startup_image.as_ref().unwrap().status,
        StartupImageState::Queued
    ));
    assert!(service.startup_image_cancel);
}
