use lianli_link::group_watch::WorkerOutcome;
use lianli_link::media::{job_indices, Preparation, PreparedMedia, STALLED_MESSAGE};
use lianli_link::refresh::{
    attach_route, initialization, AttachRoute, DetectedLcd, Initialization, LcdCandidate, Refresh,
    RefreshAction, RefreshGate, SERIAL_REWRITE_RETRY_INTERVAL,
};
use lianli_link::registry::DeviceFamily;
use lianli_link::selection::{
    asset_cache_key, hid_id_norm, is_streamable_lcd, is_wired_aio_lcd, lcd_backend_kind,
    lcd_id_matches, same_selection, selection_key, written_target, LcdBackendKind, LcdTemplate,
};
use lianli_link::service::{
    ActiveTarget, AppConfig, LcdConfig, MediaAsset, MediaPreparationState, MediaPreparationStatus,
    MediaTarget, MediaType, ScreenInfo, ServiceManager, StartupImageJob,
};
use lianli_link::table::Table;

const SCREEN: ScreenInfo = ScreenInfo { width: 480, height: 480, model: 1 };

fn config(serial: &str, rgb: [u8; 3]) -> LcdConfig {
    LcdConfig {
        serial: Some(serial.to_string()),
        index: None,
        device_id: format!("serial:{serial}"),
        identity: format!("color {rgb:?}"),
        media_type: MediaType::Color,
        template_id: None,
        rgb: Some(rgb),
        custom_h264: false,
    }
}

fn asset(key: &str, handle: u64) -> MediaAsset {
    MediaAsset { config_key: key.to_string(), handle }
}

fn target() -> MediaTarget {
    MediaTarget {
        selection: "serial:panel-a".to_string(),
        device_id: "hid:panel-a".to_string(),
        screen: SCREEN,
    }
}

fn status(generation: u64) -> MediaPreparationStatus {
    MediaPreparationStatus {
        startup_recovery_required: false,
        runtime: None,
        last_playback_error: None,
        generation,
        device_id: "hid:panel-a".to_string(),
        state: MediaPreparationState::Preparing,
        error: None,
    }
}

fn app(lcds: Vec<LcdConfig>) -> AppConfig {
    AppConfig { lcds, default_fps: "24".to_string(), hardware_video: false }
}

#[test]
fn stale_or_failed_preparation_preserves_the_working_asset() {
    let mut service = ServiceManager::new();
    let old_config = config("hid:panel-a", [0, 0, 0]);
    let new_config = || config("hid:panel-a", [255, 0, 0]);
    service.media_assets.insert(0, asset("old", 1));
    service.media_settings.insert(0, old_config);
    service.media_preparation.insert(0, status(2));
    service.media_requested_keys = vec!["new".into()];
    service.record_playback_failure(0, "old", "stale failure");
    assert!(service.media_preparation.get(&0).unwrap().last_playback_error.is_none());
    service.record_playback_failure(0, "new", &"界".repeat(3000));
    assert_eq!(
        service
            .media_preparation
            .get(&0)
            .unwrap()
            .last_playback_error
            .as_ref()
            .unwrap()
            .chars()
            .count(),
        2048
    );
    assert_eq!(service.targets.len(), 0);
    service.apply_prepared_results(vec![PreparedMedia {
        generation: 1,
        index: 0,
        config: new_config(),
        result: Ok(asset("stale", 2)),
        target: target(),
    }]);
    assert_eq!(service.media_assets.get(&0).unwrap().handle, 1);
    service.apply_prepared_results(vec![PreparedMedia {
        generation: 2,
        index: 0,
        config: new_config(),
        result: Err("unreadable child video".into()),
        target: target(),
    }]);
    assert_eq!(service.media_assets.get(&0).unwrap().handle, 1);
    assert_eq!(
        service.media_preparation.get(&0).unwrap().state,
        MediaPreparationState::Failed
    );
    service.apply_prepared_results(vec![PreparedMedia {
        generation: 2,
        index: 0,
        config: new_config(),
        result: Ok(asset("new", 3)),
        target: target(),
    }]);
    assert_eq!(service.media_assets.get(&0).unwrap().handle, 3);
    assert_eq!(service.media_settings.get(&0).unwrap().rgb, Some([255, 0, 0]));
    assert_eq!(
        service.media_preparation.get(&0).unwrap().state,
        MediaPreparationState::Ready
    );
}

#[test]
fn retention_requires_the_same_physical_selection() {
    let old = config("hid:panel-a", [0, 0, 0]);
    assert!(same_selection(&old, &config("panel-a", [255, 0, 0])));
    assert!(!same_selection(&old, &config("hid:panel-b", [0, 0, 0])));
}

#[test]
fn hardware_video_changes_media_identity_in_both_directions() {
    let mut device = config("panel", [0, 0, 0]);
    device.media_type = MediaType::Video;
    device.identity = "video /example/video.mp4".to_string();
    let software = asset_cache_key(&device, &Vec::new(), "30", false);
    let hardware = asset_cache_key(&device, &Vec::new(), "30", true);
    assert_ne!(software, hardware);
    assert_eq!(software, asset_cache_key(&device, &Vec::new(), "30", false));
    assert_eq!(hardware, "video /example/video.mp4|fps:30|hw:true");
}

#[test]
fn keys_tell_the_connected_panel() {
    assert_eq!(written_target(None), "None");
    let plain = target();
    let quoted = MediaTarget { device_id: "a\"\\b".to_string(), ..target() };
    let wide = MediaTarget { screen: ScreenInfo { width: 1920, ..SCREEN }, ..target() };
    let other = MediaTarget { screen: ScreenInfo { model: 12, ..SCREEN }, ..target() };
    assert_eq!(
        written_target(Some(&plain)),
        "Some(MediaTarget { selection: \"serial:panel-a\", device_id: \"hid:panel-a\", \
         screen: ScreenInfo { width: 480, height: 480, model: 1 } })"
    );
    for target in [&plain, &quoted, &wide, &other] {
        assert_eq!(
            written_target(Some(target)),
            format!(
                "Some(MediaTarget {{ selection: {:?}, device_id: {:?}, screen: {:?} }})",
                target.selection, target.device_id, target.screen
            )
        );
    }
}

#[test]
fn a_changed_panel_is_prepared_anew() {
    let mut service = ServiceManager::new();
    service.config = Some(app(vec![config("panel-a", [0; 3])]));
    service.media_targets.insert(0, target());
    let templates = Vec::new();
    assert!(matches!(service.prepare_media_assets(&templates, true), Preparation::Submit(_)));
    assert!(matches!(service.prepare_media_assets(&templates, true), Preparation::Unchanged));
    for changed in [
        MediaTarget { device_id: "hid:panel-b".to_string(), ..target() },
        MediaTarget { screen: ScreenInfo { width: 481, ..SCREEN }, ..target() },
        MediaTarget { screen: ScreenInfo { height: 400, ..SCREEN }, ..target() },
        MediaTarget { screen: ScreenInfo { model: 2, ..SCREEN }, ..target() },
    ] {
        service.media_targets.insert(0, changed);
        assert!(matches!(service.prepare_media_assets(&templates, true), Preparation::Submit(_)));
        assert!(matches!(service.prepare_media_assets(&templates, true), Preparation::Unchanged));
    }
    service.media_targets = Table::new();
    assert!(matches!(service.prepare_media_assets(&templates, true), Preparation::Submit(_)));
}

#[test]
fn all_streamable_lcds_have_backends() {
    let known_devices = [
        (DeviceFamily::Slv3Lcd, true, false),
        (DeviceFamily::Tlv2Lcd, true, false),
        (DeviceFamily::HydroShift2Lcd, true, false),
        (DeviceFamily::HydroShift2OledCurveLcd, true, false),
        (DeviceFamily::Lancool207, true, false),
        (DeviceFamily::UniversalScreen, true, false),
        (DeviceFamily::Vision9p2, true, false),
        (DeviceFamily::TlFlexLcd, true, false),
        (DeviceFamily::SlInfFlexLcd, true, false),
        (DeviceFamily::HydroShiftLcd, true, false),
        (DeviceFamily::Galahad2Lcd, true, false),
        (DeviceFamily::TlLcd, true, false),
        (DeviceFamily::WirelessAio, false, false),
        (DeviceFamily::Other, true, true),
    ];
    for (family, has_lcd, desktop_mode) in known_devices {
        if is_streamable_lcd(has_lcd, desktop_mode) {
            assert!(
                lcd_backend_kind(family).is_some(),
                "{:?} is streamable but lcd_backend_kind returns None",
                family
            );
        } else {
            assert!(lcd_backend_kind(family).is_none());
        }
    }
}

#[test]
fn identities_match_across_transports() {
    assert_eq!(hid_id_norm("hid:x"), "x");
    assert_eq!(hid_id_norm("x"), "x");
    assert_eq!(hid_id_norm("hid:hid:x"), "hid:x");
    assert!(lcd_id_matches("hid:x", "x"));
    assert!(!lcd_id_matches("hid:x", "y"));
    assert_eq!(selection_key(&config("hid:x", [0; 3])), "serial:x");
    let mut by_index = config("x", [0; 3]);
    by_index.serial = None;
    by_index.index = Some(0);
    by_index.device_id = "index:0".to_string();
    assert_eq!(selection_key(&by_index), "index:0");
    assert!(!same_selection(&by_index, &config("x", [0; 3])));
    let other = LcdConfig { index: Some(1), ..by_index.copy() };
    assert!(!same_selection(&by_index, &other));
    assert!(same_selection(&by_index, &by_index.copy()));
}

#[test]
fn custom_media_is_known_by_its_template() {
    let mut device = config("panel", [0; 3]);
    device.identity = "id".to_string();
    device.template_id = Some("tpl".to_string());
    let templates = vec![
        LcdTemplate { id: "other".to_string(), body: "1".to_string() },
        LcdTemplate { id: "tpl".to_string(), body: "2".to_string() },
        LcdTemplate { id: "tpl".to_string(), body: "3".to_string() },
    ];
    assert_eq!(asset_cache_key(&device, &templates, "24.5", false), "id|fps:24.5|hw:false");
    device.media_type = MediaType::Custom;
    assert_eq!(
        asset_cache_key(&device, &templates, "24.5", false),
        "id|fps:24.5|hw:false|tpl:2"
    );
    device.template_id = Some("none".to_string());
    assert_eq!(asset_cache_key(&device, &templates, "24.5", false), "id|fps:24.5|hw:false");
}

#[test]
fn offline_media_waits_until_its_panel_is_there() {
    let mut service = ServiceManager::new();
    assert!(matches!(
        service.prepare_media_assets(&Vec::new(), false),
        Preparation::Unconfigured
    ));
    let mut lcd = config("x", [255, 0, 0]);
    lcd.serial = None;
    lcd.index = Some(0);
    lcd.device_id = "index:0".to_string();
    service.config = Some(app(vec![lcd]));
    let Preparation::Submit(jobs) = service.prepare_media_assets(&Vec::new(), false) else {
        panic!("expected jobs");
    };
    assert!(jobs.is_empty());
    service.media_submitted(&job_indices(&jobs), 1);
    assert_eq!(
        service.media_preparation.get(&0).unwrap().state,
        MediaPreparationState::WaitingForDevice
    );
    service.media_targets.insert(0, MediaTarget { selection: "index:0".into(), ..target() });
    service.pixel_cleaning = true;
    assert!(matches!(
        service.prepare_media_assets(&Vec::new(), false),
        Preparation::Postponed
    ));
    assert!(service.media_reload_pending);
    service.media_retry_pending = true;
    let poll = service.begin_media_poll(false);
    assert!(!poll.prepare);
    service.media_poll_prepared(&poll);
    assert!(service.media_retry_pending);
    service.pixel_cleaning = false;
    let poll = service.begin_media_poll(false);
    assert!(poll.prepare && poll.retry_ready);
    let Preparation::Submit(jobs) = service.prepare_media_assets(&Vec::new(), false) else {
        panic!("expected jobs");
    };
    service.media_poll_prepared(&poll);
    assert!(!service.media_retry_pending);
    assert_eq!(jobs.len(), 1);
    assert_eq!(jobs[0].index, 0);
    assert_eq!(jobs[0].target.screen, SCREEN);
    assert_eq!(
        jobs[0].key,
        "color [255, 0, 0]|fps:24|hw:false|target:Some(MediaTarget { selection: \"index:0\", \
         device_id: \"hid:panel-a\", screen: ScreenInfo { width: 480, height: 480, model: 1 } })"
    );
    service.media_submitted(&job_indices(&jobs), 2);
    assert_eq!(
        service.media_preparation.get(&0).unwrap().state,
        MediaPreparationState::Preparing
    );
    assert!(matches!(
        service.prepare_media_assets(&Vec::new(), true),
        Preparation::Unchanged
    ));
    let job = jobs.into_iter().next().unwrap();
    service.apply_prepared_results(vec![PreparedMedia {
        generation: 2,
        index: 0,
        config: job.config,
        target: job.target,
        result: Ok(MediaAsset { config_key: job.key, handle: 8 }),
    }]);
    // What is at hand is neither prepared again nor lost.
    let Preparation::Submit(jobs) = service.prepare_media_assets(&Vec::new(), false) else {
        panic!("expected jobs");
    };
    assert!(jobs.is_empty());
    assert_eq!(service.media_assets.get(&0).unwrap().handle, 8);
    service.media_submitted(&job_indices(&jobs), 3);
    assert_eq!(
        service.media_preparation.get(&0).unwrap().state,
        MediaPreparationState::Ready
    );
}

#[test]
fn media_for_another_panel_is_let_go() {
    let mut service = ServiceManager::new();
    service.config = Some(app(vec![config("panel-a", [0; 3]), config("panel-b", [0; 3])]));
    service.media_targets.insert(0, target());
    for index in [0, 1] {
        service.media_assets.insert(index, asset("old", 1));
        service.media_settings.insert(index, config("panel-a", [0; 3]));
        service.media_asset_targets.insert(index, target());
    }
    let Preparation::Submit(jobs) = service.prepare_media_assets(&Vec::new(), false) else {
        panic!("expected jobs");
    };
    assert_eq!(job_indices(&jobs), vec![0]);
    assert!(service.media_assets.contains(&0));
    assert!(!service.media_assets.contains(&1));
    assert!(!service.media_settings.contains(&1));
    assert!(!service.media_asset_targets.contains(&1));
    assert_eq!(service.media_requested_keys.len(), 2);
    assert!(service.media_requested_keys[1].ends_with("|target:None"));
}

#[test]
fn preparation_that_stops_is_reported_as_failed() {
    let mut service = ServiceManager::new();
    service.media_preparation.insert(0, status(1));
    service.media_preparation.insert(
        1,
        MediaPreparationStatus { state: MediaPreparationState::Ready, ..status(1) },
    );
    service.fail_stalled_media(true);
    assert_eq!(
        service.media_preparation.get(&0).unwrap().state,
        MediaPreparationState::Preparing
    );
    service.fail_stalled_media(false);
    let failed = service.media_preparation.get(&0).unwrap();
    assert_eq!(failed.state, MediaPreparationState::Failed);
    assert_eq!(failed.error.as_deref(), Some(STALLED_MESSAGE));
    assert_eq!(
        service.media_preparation.get(&1).unwrap().state,
        MediaPreparationState::Ready
    );
}

fn active(index: usize, identity: &str, key: &str) -> ActiveTarget {
    ActiveTarget {
        index,
        device_identity: identity.to_string(),
        key: key.to_string(),
        screen: SCREEN,
        handle: 40 + index as u64,
    }
}

fn candidate(device_id: &str) -> LcdCandidate {
    LcdCandidate {
        device_id: device_id.to_string(),
        family: DeviceFamily::TlLcd,
        screen: Some(SCREEN),
    }
}

#[test]
fn panels_are_looked_for_when_nothing_else_runs() {
    let mut service = ServiceManager::new();
    assert_eq!(service.refresh_gate(), RefreshGate::Idle);
    service.config = Some(app(vec![config("a", [0; 3])]));
    assert_eq!(service.refresh_gate(), RefreshGate::Enumerate);
    service.config = None;
    service.targets.insert(0, active(0, "a", "k"));
    assert_eq!(service.refresh_gate(), RefreshGate::Enumerate);
    service.lcd_group_recovery.started("receiver".to_string(), true);
    assert_eq!(service.refresh_gate(), RefreshGate::Blocked);
    service.lcd_group_recovery.stop(WorkerOutcome::NotNeeded);
    service.startup_image_job = Some(StartupImageJob { id: 1, identity: "a".to_string() });
    assert_eq!(service.refresh_gate(), RefreshGate::Blocked);
}

#[test]
fn blocked_and_suppressed_panels_are_no_candidates() {
    let mut service = ServiceManager::new();
    service.startup_image_quarantine.insert("blocked".to_string());
    let found = |id: &str, has_lcd: bool, desktop_mode: bool, suppressed: bool| DetectedLcd {
        device_id: id.to_string(),
        family: DeviceFamily::TlLcd,
        has_lcd,
        desktop_mode,
        suppressed,
        screen: None,
    };
    let candidates = service.lcd_candidates(&vec![
        found("first", true, false, false),
        found("no lcd", false, false, false),
        found("desktop", true, true, false),
        found("blocked", true, false, false),
        found("switching", true, false, true),
        found("last", true, false, false),
    ]);
    let ids: Vec<&str> = candidates.iter().map(|c| c.device_id.as_str()).collect();
    assert_eq!(ids, vec!["first", "last"]);
    service.mode_switch_suppression.insert("over".to_string(), 5);
    service.mode_switch_suppression.insert("running".to_string(), 6);
    service.expire_mode_switches(5);
    assert_eq!(service.mode_switch_suppression.len(), 1);
    assert!(service.mode_switch_suppression.contains(&"running".to_string()));
}

#[test]
fn no_candidate_is_claimed_twice() {
    let by_index = |index: usize| LcdConfig {
        serial: None,
        index: Some(index),
        ..config("x", [0; 3])
    };
    let settings = vec![
        config("b", [0; 3]),
        config("hid:b", [0; 3]),
        by_index(1),
        by_index(7),
        by_index(2),
        config("a", [0; 3]),
        LcdConfig { serial: None, ..config("x", [0; 3]) },
    ];
    let mut refresh =
        Refresh::new(settings, vec![candidate("hid:a"), candidate("b"), candidate("c")]);
    for expected in [Some(1), None, None, None, Some(2), Some(0), None] {
        assert!(!refresh.is_done());
        assert_eq!(refresh.claim(), expected);
        let id = refresh.candidate().map(|candidate| candidate.device_id.as_str());
        assert_eq!(id, expected.map(|at| ["hid:a", "b", "c"][at]));
    }
    assert!(refresh.is_done());
    assert_eq!(refresh.setting().serial, None);
}

fn prepared_service() -> ServiceManager {
    let mut service = ServiceManager::new();
    service.config = Some(app(vec![config("panel-a", [0; 3])]));
    service.media_assets.insert(0, asset("key", 9));
    service.media_asset_targets.insert(0, target());
    service.media_settings.insert(0, LcdConfig { custom_h264: true, ..config("panel-a", [0; 3]) });
    service
}

/// A refresh of the one setting in which it has had its turn.
fn refresh_with(candidates: Vec<LcdCandidate>) -> Refresh {
    let mut refresh = Refresh::new(vec![config("panel-a", [0; 3])], candidates);
    refresh.claim();
    refresh
}

#[test]
fn a_setting_without_a_panel_loses_its_target() {
    let mut service = prepared_service();
    service.targets.insert(0, active(0, "hid:panel-a", "key"));
    for mut refresh in [refresh_with(Vec::new()), refresh_with(vec![candidate("hid:panel-b")])] {
        service.targets.insert(0, active(0, "hid:panel-a", "key"));
        let RefreshAction::Detached(Some(gone)) =
            service.refresh_step(&mut refresh)
        else {
            panic!("expected a detached target");
        };
        assert_eq!(gone.handle, 40);
        assert_eq!(service.targets.len(), 0);
    }
    let mut refresh = refresh_with(vec![LcdCandidate { screen: None, ..candidate("panel-a") }]);
    service.targets.insert(0, active(0, "hid:panel-a", "key"));
    assert!(matches!(
        service.refresh_step(&mut refresh),
        RefreshAction::Unknown
    ));
    assert_eq!(service.targets.len(), 1);
    let (left, changed) = service.finish_refresh(refresh);
    assert_eq!(left.len(), 1);
    assert!(!changed);
    assert_eq!(service.media_targets.len(), 0);
}

#[test]
fn targets_are_kept_swapped_or_opened() {
    let step = |service: &mut ServiceManager, refresh: &mut Refresh| {
        service.refresh_step(refresh)
    };
    let candidates = || refresh_with(vec![candidate("hid:panel-a")]);
    let mut service = prepared_service();
    service.targets.insert(0, active(0, "hid:panel-a", "key"));
    let mut refresh = candidates();
    assert!(matches!(
        step(&mut service, &mut refresh),
        RefreshAction::Keep { handle: 40, custom_h264: true }
    ));
    assert_eq!(refresh.rewrites().len(), 1);
    assert_eq!(refresh.rewrites()[0].0, "panel-a");
    assert_eq!(refresh.rewrites()[0].1, "hid:panel-a");
    service.finish_refresh(refresh);
    assert_eq!(service.targets.len(), 1);
    let mut service = prepared_service();
    service.targets.insert(0, active(0, "hid:panel-a", "other"));
    let mut refresh = candidates();
    let RefreshAction::Swap { handle: 40, asset, .. } = step(&mut service, &mut refresh) else {
        panic!("expected a swap");
    };
    assert_eq!(asset.handle, 9);
    service.finish_refresh(refresh);
    assert_eq!(service.targets.get(&0).unwrap().key, "key");
    let mut service = prepared_service();
    service.targets.insert(0, active(0, "elsewhere", "key"));
    let mut refresh = candidates();
    let RefreshAction::Open { replaced: Some(_), asset, .. } = step(&mut service, &mut refresh)
    else {
        panic!("expected a panel to open");
    };
    refresh.opened(&asset, 77);
    service.finish_refresh(refresh);
    assert_eq!(service.targets.len(), 1);
    let opened = service.targets.get(&0).unwrap();
    assert_eq!((opened.index, opened.handle), (0, 77));
    assert_eq!(opened.device_identity, "hid:panel-a");
    assert_eq!(opened.key, "key");
    assert_eq!(Some(opened.screen), candidate("hid:panel-a").screen);
    let mut service = prepared_service();
    assert!(matches!(
        step(&mut service, &mut candidates()),
        RefreshAction::Open { replaced: None, .. }
    ));
    service.media_asset_targets.insert(
        0,
        MediaTarget { device_id: "hid:other".to_string(), ..target() },
    );
    service.targets.insert(0, active(0, "hid:panel-a", "key"));
    let mut refresh = candidates();
    assert!(matches!(
        step(&mut service, &mut refresh),
        RefreshAction::AwaitMedia(Some(_))
    ));
    assert!(refresh.rewrites().is_empty());
    service.finish_refresh(refresh);
    assert_eq!(service.media_targets.len(), 1);
}

#[test]
fn a_refresh_drives_the_named_panels_and_no_other() {
    let mut service = ServiceManager::new();
    service.config = Some(app(vec![
        config("panel-b", [0; 3]),
        config("panel-gone", [0; 3]),
        config("hid:panel-a", [0; 3]),
        config("panel-blocked", [0; 3]),
    ]));
    service.startup_image_quarantine.insert("panel-blocked".to_string());
    let screen = candidate("x").screen;
    for index in 0..4 {
        service.media_assets.insert(index, asset("key", 9));
    }
    for (index, selection, id) in [(0, "serial:panel-b", "hid:panel-b"), (2, "serial:panel-a", "hid:panel-a")] {
        service.media_asset_targets.insert(
            index,
            MediaTarget {
                selection: selection.to_string(),
                device_id: id.to_string(),
                screen: screen.unwrap(),
            },
        );
    }
    let found = |device_id: &str| DetectedLcd {
        device_id: device_id.to_string(),
        family: DeviceFamily::Vision9p2,
        has_lcd: true,
        desktop_mode: false,
        suppressed: false,
        screen,
    };
    let detected = vec![found("hid:panel-a"), found("panel-blocked"), found("hid:panel-b")];
    let mut refresh = service.begin_refresh(&detected);
    assert_eq!(refresh.candidates().len(), 2);
    let mut handle = 100;
    while !refresh.is_done() {
        refresh.claim();
        if let RefreshAction::Open { asset, .. } =
            service.refresh_step(&mut refresh)
        {
            handle += 1;
            refresh.opened(&asset, handle);
        }
    }
    service.finish_refresh(refresh);
    assert_eq!(service.targets.len(), 2);
    assert_eq!(service.targets.get(&0).unwrap().device_identity, "hid:panel-b");
    assert_eq!(service.targets.get(&2).unwrap().device_identity, "hid:panel-a");
}

#[test]
fn serials_are_rewritten_once_they_can_be_saved() {
    let mut service = ServiceManager::new();
    let rewrites = vec![("a".to_string(), "hid:a".to_string())];
    assert!(service.rewritten_config(&rewrites, 0).is_none());
    service.config = Some(app(vec![config("a", [0; 3]), config("b", [0; 3])]));
    service.ipc_config = Some(app(vec![config("a", [9; 3])]));
    assert!(service.rewritten_config(&Vec::new(), 0).is_none());
    let changed = service.rewritten_config(&rewrites, 0).unwrap();
    assert_eq!(changed.lcds.len(), 1);
    assert_eq!(changed.lcds[0].serial.as_deref(), Some("hid:a"));
    assert_eq!(changed.lcds[0].rgb, Some([9; 3]));
    service.config_rewritten(changed, false, 7);
    assert_eq!(service.serial_rewrite_backoff, Some(7));
    assert_eq!(service.config.as_ref().unwrap().lcds.len(), 2);
    assert!(service
        .rewritten_config(&rewrites, 7 + SERIAL_REWRITE_RETRY_INTERVAL - 1)
        .is_none());
    let changed = service
        .rewritten_config(&rewrites, 7 + SERIAL_REWRITE_RETRY_INTERVAL)
        .unwrap();
    service.config_rewritten(changed, true, 8);
    assert_eq!(service.serial_rewrite_backoff, None);
    assert_eq!(
        service.config.as_ref().unwrap().lcds[0].serial.as_deref(),
        Some("hid:a")
    );
    assert_eq!(
        service.ipc_config.as_ref().unwrap().lcds[0].serial.as_deref(),
        Some("hid:a")
    );
    assert!(service.rewritten_config(&rewrites, 9).is_none());
}

#[test]
fn a_refresh_hands_out_what_is_left_over() {
    let mut service = prepared_service();
    service.targets.insert(3, active(3, "old", "key"));
    let run = |service: &mut ServiceManager| {
        let mut refresh = refresh_with(vec![candidate("hid:panel-a")]);
        if let RefreshAction::Open { asset, .. } =
            service.refresh_step(&mut refresh)
        {
            refresh.opened(&asset, 5);
        }
        service.finish_refresh(refresh)
    };
    let (left, changed) = run(&mut service);
    assert_eq!(left.len(), 1);
    assert_eq!(left[0].index, 3);
    assert!(changed);
    assert_eq!(service.targets.len(), 1);
    assert!(service.media_targets.contains(&0));
    let (left, changed) = run(&mut service);
    assert!(left.is_empty());
    assert!(!changed);
    let (left, changed) = service.finish_refresh(Refresh::new(Vec::new(), Vec::new()));
    assert_eq!(left.len(), 1);
    assert!(changed);
    assert_eq!(service.media_targets.len(), 0);
}

#[test]
fn panels_are_opened_over_what_is_open_already() {
    assert_eq!(attach_route(DeviceFamily::Slv3Lcd, true, true, true), AttachRoute::OpenSlv3);
    assert_eq!(attach_route(DeviceFamily::HydroShift2Lcd, true, false, false), AttachRoute::SharedTransport);
    assert_eq!(attach_route(DeviceFamily::HydroShift2Lcd, false, false, false), AttachRoute::OpenWinUsb);
    assert_eq!(attach_route(DeviceFamily::Vision9p2, true, true, true), AttachRoute::OpenWinUsb);
    assert_eq!(attach_route(DeviceFamily::Galahad2Lcd, false, true, true), AttachRoute::TakeAio);
    assert_eq!(attach_route(DeviceFamily::Galahad2Lcd, false, false, true), AttachRoute::HidBackend);
    assert_eq!(attach_route(DeviceFamily::Galahad2Lcd, false, false, false), AttachRoute::Deferred);
    assert_eq!(attach_route(DeviceFamily::TlLcd, false, true, false), AttachRoute::OpenHid);
    assert_eq!(attach_route(DeviceFamily::TlLcd, false, false, true), AttachRoute::HidBackend);
    assert_eq!(attach_route(DeviceFamily::WirelessAio, true, true, true), AttachRoute::NoBackend);
    assert_eq!(lcd_backend_kind(DeviceFamily::TlLcd), Some(LcdBackendKind::HidTl));
    assert!(is_wired_aio_lcd(DeviceFamily::HydroShiftLcd));
    assert!(!is_wired_aio_lcd(DeviceFamily::TlLcd));
    assert_eq!(initialization(AttachRoute::TakeAio, DeviceFamily::Galahad2Lcd), Initialization::Background);
    assert_eq!(initialization(AttachRoute::OpenHid, DeviceFamily::TlLcd), Initialization::Immediate);
    assert_eq!(
        initialization(AttachRoute::SharedTransport, DeviceFamily::HydroShift2Lcd),
        Initialization::NotNeeded
    );
}

#[test]
fn a_playback_error_stays_until_media_is_requested_again() {
    let mut service = ServiceManager::new();
    service.config = Some(app(vec![config("panel-a", [0; 3])]));
    service.media_requested_keys = vec!["key".to_string()];
    service.media_preparation.insert(0, status(4));
    service.record_playback_failure(0, "key", "sender stopped");
    let shown = |service: &ServiceManager| {
        service.media_preparation.get(&0).unwrap().last_playback_error.clone()
    };
    service.apply_prepared_results(vec![PreparedMedia {
        generation: 4,
        index: 0,
        config: config("panel-a", [0; 3]),
        target: target(),
        result: Ok(asset("key", 1)),
    }]);
    service.fail_stalled_media(false);
    service.startup_image_quarantine.insert("hid:panel-a".to_string());
    let clearance = service.startup_clearance("panel-a").ok().unwrap();
    service.clear_startup_recovery(clearance);
    assert_eq!(shown(&service).as_deref(), Some("sender stopped"));
    service.media_submitted(&Vec::new(), 5);
    assert_eq!(shown(&service), None);
}
