use lianli_link::h2_aio::{
    control_gate, control_write_allowed, parse_h2_params, pwm_refresh_due, selected_duties,
    ControlGate, ExchangeEvent, H2AioController, ParamsError, ParamsProgress, ParamsSource,
    LIVE_READING, PARAMS_CACHE_TTL, PARAMS_FAILURE_BACKOFF, STALE_PARAMS_LOG_INTERVAL,
};
use lianli_link::h2_pwm::{duty_to_pwm, pump_max_rpm, rpm_to_pwm, scale_brightness};
use lianli_link::h2_ring::{
    frame_interval, h2_playback_fields, ring_command, ring_data, ring_payload, ring_route,
    sync_command, AnimationError, RgbPlaybackTiming, RingRefusal, RingRequest, RingRoute,
};
use lianli_link::lcd_link::{LcdLink, LinkError};
use std::sync::atomic::{AtomicBool, Ordering};
use std::sync::Arc;

const MILLISECOND: u64 = 1_000_000;
const SECOND: u64 = 1_000 * MILLISECOND;

fn idle_link() -> LcdLink {
    let mut link = LcdLink::new(true);
    link.set_software_cooling_active(false);
    link
}

#[test]
fn fallback_preserves_unselected_fans_and_ignores_the_pump_slot() {
    assert_eq!(
        selected_duties([50, 80, 120], &[None, Some(255), None, Some(0)]),
        [50, 255, 120]
    );
    assert_eq!(
        selected_duties([50, 80, 120], &[Some(0), None, None]),
        [0, 80, 120]
    );
}

#[test]
fn full_speed_transition_bypasses_deadband_without_repeated_refreshes() {
    assert!(pwm_refresh_due(0, 250, [250; 3], 255, [250; 3]));
    for index in 0..3 {
        let mut fans = [250; 3];
        fans[index] = 255;
        assert!(pwm_refresh_due(0, 250, [250; 3], 250, fans));
    }
    assert!(!pwm_refresh_due(3599 * MILLISECOND, 255, [255; 3], 255, [255; 3]));
    assert!(pwm_refresh_due(3600 * MILLISECOND, 255, [255; 3], 255, [255; 3]));
    assert!(!pwm_refresh_due(0, 250, [250; 3], 254, [251; 3]));
    assert!(pwm_refresh_due(0, 100, [100; 3], 108, [100; 3]));
}

#[test]
fn uses_full_frame_count_and_one_byte_tick_fields() {
    let timing = RgbPlaybackTiming {
        interval_hundredths: 2_000,
        ..RgbPlaybackTiming::default()
    };
    assert_eq!(h2_playback_fields(120, timing).unwrap(), (120, 20));
    assert_eq!(
        h2_playback_fields(u16::MAX as usize, timing).unwrap(),
        (u16::MAX, 20)
    );
    assert!(h2_playback_fields(0, timing).is_err());
    assert!(h2_playback_fields(u16::MAX as usize + 1, timing).is_err());
}

#[test]
fn rejects_timing_the_h2_footer_cannot_encode() {
    let fractional = RgbPlaybackTiming {
        interval_hundredths: 2_050,
        ..RgbPlaybackTiming::default()
    };
    assert!(h2_playback_fields(1, fractional).is_err());

    let secondary = RgbPlaybackTiming {
        interval_hundredths: 2_000,
        secondary_interval_ticks: 1,
        ..RgbPlaybackTiming::default()
    };
    assert!(h2_playback_fields(1, secondary).is_err());

    let too_slow = RgbPlaybackTiming {
        interval_hundredths: 25_600,
        ..RgbPlaybackTiming::default()
    };
    assert!(h2_playback_fields(1, too_slow).is_err());
}

#[test]
fn timings_are_refused_for_each_reason() {
    let timing = |interval_hundredths: u32| RgbPlaybackTiming {
        interval_hundredths,
        ..RgbPlaybackTiming::default()
    };
    assert_eq!(h2_playback_fields(0, timing(100)), Err(AnimationError::NoFrames));
    assert_eq!(h2_playback_fields(65_536, timing(100)), Err(AnimationError::TooManyFrames));
    assert_eq!(h2_playback_fields(1, timing(150)), Err(AnimationError::FractionalTicks));
    assert_eq!(h2_playback_fields(1, timing(25_600)), Err(AnimationError::IntervalTooLong));
    assert_eq!(h2_playback_fields(1, timing(0)), Err(AnimationError::ZeroInterval));
    assert_eq!(h2_playback_fields(1, timing(25_500)), Ok((1, 255)));
    let mut outer = timing(100);
    outer.outer_longest = true;
    assert_eq!(h2_playback_fields(1, outer), Err(AnimationError::SecondaryTiming));
    assert_eq!(frame_interval(10).interval_hundredths, 1_600);
    assert_eq!(frame_interval(1).interval_hundredths, 200);
    assert_eq!(frame_interval(0).interval_hundredths, 0);
}

/// The pump curve in floating point.
fn float_pwm(is_square: bool, rpm: u16) -> u16 {
    let rpm = rpm.clamp(1600, if is_square { 3200 } else { 2500 }) as f32;
    let pwm = if is_square {
        if rpm <= 1800.0 {
            1590.0 - (rpm - 1600.0) * 0.95
        } else if rpm <= 2000.0 {
            1400.0 - (rpm - 1800.0)
        } else if rpm <= 2200.0 {
            1200.0 - (rpm - 2000.0)
        } else if rpm <= 2400.0 {
            1000.0 - (rpm - 2200.0)
        } else if rpm <= 2600.0 {
            800.0 - (rpm - 2400.0)
        } else if rpm <= 2800.0 {
            580.0 - (rpm - 2600.0) * 1.11
        } else if rpm <= 3000.0 {
            330.0 - (rpm - 2800.0) * 1.2
        } else {
            90.0 - (rpm - 3000.0) * 0.45
        }
    } else if rpm < 1720.0 {
        1500.0 - (rpm - 1600.0) * 1.625
    } else if rpm < 1870.0 {
        1300.0 - (rpm - 1720.0) * 2.0
    } else if rpm < 2000.0 {
        1000.0 - (rpm - 1870.0) * 1.23
    } else if rpm < 2300.0 {
        840.0 - (rpm - 2000.0) * 2.0
    } else if rpm < 2400.0 {
        240.0 - (rpm - 2300.0) * 1.8
    } else {
        60.0 - (rpm - 2400.0) * 0.5
    };
    pwm.round() as u16
}

#[test]
fn the_pump_curve_agrees_with_floating_point_everywhere() {
    for is_square in [false, true] {
        for rpm in 0..=u16::MAX {
            assert_eq!(rpm_to_pwm(is_square, rpm), float_pwm(is_square, rpm), "{is_square} {rpm}");
        }
        for duty in 0..=u8::MAX {
            let share = (duty as f32 / 255.0).clamp(0.0, 1.0);
            let rpm = 1600.0 + share * (pump_max_rpm(is_square) - 1600) as f32;
            assert_eq!(
                duty_to_pwm(is_square, duty),
                float_pwm(is_square, rpm.round() as u16),
                "{is_square} {duty}"
            );
        }
    }
}

#[test]
fn the_pump_curve_falls_from_slow_to_fast() {
    assert_eq!(duty_to_pwm(false, 0), 1500);
    assert_eq!(duty_to_pwm(false, 255), 10);
    assert_eq!(duty_to_pwm(true, 0), 1590);
    assert_eq!(duty_to_pwm(true, 255), 0);
    assert_eq!(rpm_to_pwm(true, 1610), 1581);
    for is_square in [false, true] {
        for duty in 0..255u8 {
            assert!(duty_to_pwm(is_square, duty + 1) <= duty_to_pwm(is_square, duty));
        }
    }
}

#[test]
fn colours_are_scaled_by_quarters_as_in_floating_point() {
    for quarters in 0..=8u8 {
        for value in 0..=u8::MAX {
            let expected = (value as f32 * (quarters as f32 / 4.0)).round() as u8;
            assert_eq!(scale_brightness([value, 0, 255], quarters)[0], expected);
        }
    }
    assert_eq!(scale_brightness([100, 3, 255], 2), [50, 2, 128]);
    assert_eq!(scale_brightness([100, 3, 255], 4), [100, 3, 255]);
}

fn reply() -> [u8; 512] {
    let mut reply = [0u8; 512];
    reply[13] = 26;
    reply[14..22].copy_from_slice(&[1, 2, 3, 4, 5, 6, 7, 8]);
    reply
}

#[test]
fn telemetry_is_read_at_its_places() {
    let mut bytes = reply();
    let params = parse_h2_params(&bytes, 42);
    assert_eq!(params.observed_at, 42);
    assert_eq!(params.coolant_temp, 26);
    assert_eq!(params.fan_rpm, [0x0102, 0x0304, 0x0506]);
    assert_eq!(params.pump_rpm, 0x0708);
    assert_eq!(params.mac, None);
    bytes[27] = 9;
    assert_eq!(parse_h2_params(&bytes, 0).mac, Some([0, 0, 0, 0, 0, 9]));
}

#[test]
fn telemetry_is_cached_and_withheld_during_streams() {
    let mut controller = H2AioController::new(0xA034);
    assert!(controller.is_square);
    let mut link = idle_link();
    assert!(matches!(
        controller.get_h2_params(&link, 0),
        Ok(ParamsSource::Exchange)
    ));
    link.set_streaming(true);
    assert_eq!(controller.get_h2_params(&link, 0).err(), Some(ParamsError::Withheld));
    link.set_streaming(false);
    let mut bytes = reply();
    bytes[22] = 5;
    let progress = controller.params_exchanged(0, ExchangeEvent::Reply(32), &bytes, SECOND);
    assert!(matches!(progress, ParamsProgress::Reading { log: false, .. }));
    assert_eq!(controller.mac(), Some([5, 0, 0, 0, 0, 0]));
    assert!(matches!(
        controller.get_h2_params(&link, SECOND + PARAMS_CACHE_TTL - 1),
        Ok(ParamsSource::Cached { log: false, .. })
    ));
    assert!(matches!(
        controller.get_h2_params(&link, SECOND + PARAMS_CACHE_TTL),
        Ok(ParamsSource::Exchange)
    ));
    link.set_streaming(true);
    let later = 100 * SECOND;
    assert!(matches!(
        controller.get_h2_params(&link, later),
        Ok(ParamsSource::Cached { log: true, .. })
    ));
    assert!(matches!(
        controller.get_h2_params(&link, later + STALE_PARAMS_LOG_INTERVAL - 1),
        Ok(ParamsSource::Cached { log: false, .. })
    ));
    // A later reply without an address does not forget it.
    controller.params_exchanged(0, ExchangeEvent::Reply(32), &reply(), later);
    assert_eq!(controller.mac(), Some([5, 0, 0, 0, 0, 0]));
    link.ring.begin((vec![1], 1));
    assert_eq!(
        controller.get_h2_params(&link, later).err(),
        Some(ParamsError::RecoveryPending)
    );
    link.storage_transfer_begun();
    assert_eq!(
        controller.get_h2_params(&link, later).err(),
        Some(ParamsError::StorageInterrupted)
    );
}

#[test]
fn a_short_reply_is_retried_once_and_failures_back_off() {
    let mut controller = H2AioController::new(0);
    assert!(!controller.is_square);
    let link = idle_link();
    let bytes = reply();
    assert!(matches!(
        controller.params_exchanged(0, ExchangeEvent::Reply(31), &bytes, 0),
        ParamsProgress::Retry
    ));
    assert!(controller.params_failed_at.is_none());
    assert!(matches!(
        controller.params_exchanged(1, ExchangeEvent::Reply(31), &bytes, SECOND),
        ParamsProgress::Fail(ParamsError::ShortReply(31))
    ));
    assert_eq!(
        controller.get_h2_params(&link, SECOND + PARAMS_FAILURE_BACKOFF - 1).err(),
        Some(ParamsError::BackingOff)
    );
    assert!(controller.get_h2_params(&link, SECOND + PARAMS_FAILURE_BACKOFF).is_ok());
    assert!(matches!(
        controller.params_exchanged(0, ExchangeEvent::Busy, &bytes, 0),
        ParamsProgress::Fail(ParamsError::Busy)
    ));
    assert!(matches!(
        controller.params_exchanged(0, ExchangeEvent::Failed, &bytes, 0),
        ParamsProgress::Fail(ParamsError::Exchange)
    ));
    assert!(matches!(
        controller.params_exchanged(0, ExchangeEvent::StreamBegan, &bytes, 0),
        ParamsProgress::Fail(ParamsError::StreamBegan)
    ));
    assert!(matches!(
        controller.params_exchanged(0, ExchangeEvent::StorageInterrupted, &bytes, 0),
        ParamsProgress::Fail(ParamsError::StorageInterrupted)
    ));
    controller.params_exchanged(0, ExchangeEvent::Reply(512), &bytes, 0);
    assert!(matches!(
        controller.params_exchanged(0, ExchangeEvent::StreamBegan, &bytes, 0),
        ParamsProgress::Reading { log: true, .. }
    ));
}

#[test]
fn duties_are_sent_once_and_then_refreshed() {
    let mut controller = H2AioController::new(0);
    let sync = controller.set_pump_speed(255, 0).unwrap();
    assert_eq!(sync.pump_pwm, 10);
    assert_eq!(sync.fans, [50, 50, 50]);
    controller.note_sync(&sync, 0);
    assert!(controller.set_pump_speed(255, SECOND).is_none());
    let sync = controller.set_fan_speed(4, 200, SECOND).unwrap();
    assert_eq!(sync.fans, [50, 200, 50]);
    let sync = controller.set_fan_speeds(&[1, 2], SECOND).unwrap();
    assert_eq!(sync.fans, [1, 2, 0]);
    assert!(controller.set_selected_fan_speeds(&[None, None, None, Some(9)], SECOND).is_none());
    assert_eq!(controller.last_fan_duties, [1, 2, 0]);
    let sync = controller.set_selected_fan_speeds(&[None, Some(90)], SECOND).unwrap();
    assert_eq!(sync.fans, [1, 90, 0]);
    controller.set_wireless_mode(true);
    assert!(controller.is_wireless_mode());
    assert!(controller.sync_pump_fan(0, [0; 3], 100 * SECOND).is_none());
}

#[test]
fn readings_expire_and_belong_to_the_wired_cooler() {
    let mut controller = H2AioController::new(0);
    let params = parse_h2_params(&reply(), SECOND);
    assert_eq!(controller.read_fan_rpm(&params), vec![0x0102, 0x0304, 0x0506]);
    assert_eq!(controller.read_pump_rpm(&params, SECOND + LIVE_READING - 1), Some(0x0708));
    assert_eq!(controller.read_pump_rpm(&params, SECOND + LIVE_READING), None);
    assert_eq!(controller.coolant_temp(&params, SECOND), Some(26));
    let late = SECOND + 2 * LIVE_READING;
    assert_eq!(controller.coolant_temp(&params, late), None);
    assert_eq!(controller.coolant_reading(&params), Some((26, SECOND)));
    assert_eq!(controller.last_pump_rpm(&params), 0x0708);
    assert_eq!(controller.read_coolant_temp(&params), 26);
    controller.set_wireless_mode(true);
    assert_eq!(controller.coolant_reading(&params), None);
    assert_eq!(controller.last_pump_rpm(&params), 0);
    assert_eq!(controller.read_coolant_temp(&params), 0);
    assert!(controller.read_fan_rpm(&params).is_empty());
    assert_eq!(controller.read_pump_rpm(&params, SECOND), None);
    assert_eq!(controller.coolant_temp(&params, SECOND), None);
}

#[test]
fn control_waits_for_streams_and_recovery() {
    let mut link = idle_link();
    assert_eq!(control_gate(&link, 0), ControlGate::Write);
    assert_eq!(control_write_allowed(&link), Ok(true));
    link.ring.begin((vec![1], 1));
    assert_eq!(control_gate(&link, 0), ControlGate::Recover);
    assert_eq!(control_write_allowed(&link), Ok(false));
    link.last_hold = Some(0);
    assert_eq!(control_gate(&link, 1), ControlGate::CoolingDown);
    link.set_streaming(true);
    assert_eq!(control_gate(&link, 1), ControlGate::Queue);
    link.storage_transfer_begun();
    assert_eq!(control_write_allowed(&link), Err(LinkError::StorageInterrupted));
}

#[test]
fn ring_frames_are_padded_to_the_ring() {
    let raw = ring_data(&vec![vec![[1, 2, 3], [4, 5, 6]], vec![[7, 8, 9]; 30]]);
    assert_eq!(raw.len(), 144);
    assert_eq!(&raw[..6], &[1, 2, 3, 4, 5, 6]);
    assert!(raw[6..72].iter().all(|&byte| byte == 0));
    assert_eq!(&raw[72..75], &[7, 8, 9]);
    assert_eq!(&raw[141..], &[7, 8, 9]);
    assert_eq!(ring_payload(vec![9, 9], 0x0102, 20), vec![9, 9, 1, 2, 20, 24]);
}

#[test]
fn ring_requests_are_decided_in_order() {
    let mut controller = H2AioController::new(0);
    let mut link = LcdLink::new(true);
    let frames = vec![vec![[1, 2, 3]; 24]];
    assert_eq!(
        controller
            .send_rgb_frames_with_stop(&link, &frames, 20, &Arc::new(AtomicBool::new(true)))
            .err(),
        Some(RingRefusal::Cancelled)
    );
    assert!(matches!(
        controller.send_rgb_frames(&link, &Vec::new(), 20),
        Ok(RingRequest::Nothing)
    ));
    assert_eq!(
        controller.send_rgb_frames(&link, &frames, 20).err(),
        Some(RingRefusal::CoolingActive)
    );
    assert_eq!(
        controller.deferred_reason(&link),
        Some("RGB changes wait while software fan or pump control uses this device.")
    );
    link.set_software_cooling_active(false);
    assert_eq!(controller.deferred_reason(&link), None);
    let Ok(RingRequest::Upload { key, frames: count }) =
        controller.send_rgb_frames(&link, &frames, 20)
    else {
        panic!("expected an upload");
    };
    assert_eq!(key, (ring_data(&frames), 20));
    assert_eq!(count, 1);
    let stop = Arc::new(AtomicBool::new(false));
    let command = ring_command(vec![1], (key.0.clone(), key.1), stop.clone(), 7);
    assert_eq!(command.label, "PushRgbData");
    assert!(!command.play_safe);
    assert_eq!(command.queued_at, 7);
    link.set_streaming(true);
    link.defer(command);
    let refusal = controller.send_rgb_frames(&link, &frames, 20).err().unwrap();
    assert_eq!(refusal, RingRefusal::AlreadyQueued);
    assert_eq!(refusal.retry_after(), Some(SECOND));
    assert_eq!(RingRefusal::CoolingActive.retry_after(), Some(10 * SECOND));
    assert_eq!(RingRefusal::Cancelled.retry_after(), None);
    assert_eq!(RingRefusal::Cancelled.message(), "H2 RGB request cancelled");
    stop.store(true, Ordering::Release);
    assert!(controller.send_rgb_frames(&link, &frames, 20).is_ok());
    link.set_streaming(false);
    assert!(controller.send_rgb_frames(&link, &frames, 20).is_ok());
    let live = Arc::new(AtomicBool::new(false));
    assert!(controller.send_rgb_frames_with_stop(&link, &frames, 20, &live).is_ok());
    link.ring.begin(key);
    assert_eq!(
        controller.deferred_reason(&link),
        Some("The LCD connection has not recovered from an RGB upload. Further uploads are waiting.")
    );
    link.ring.written();
    link.ring.recovered();
    assert!(matches!(
        controller.send_rgb_frames(&link, &frames, 20),
        Ok(RingRequest::Nothing)
    ));
    assert!(matches!(
        controller.send_rgb_frames(&link, &frames, 21),
        Ok(RingRequest::Upload { .. })
    ));
    controller.set_wireless_mode(true);
    assert!(matches!(
        controller.send_rgb_frames(&link, &frames, 21),
        Ok(RingRequest::Nothing)
    ));
    assert_eq!(
        controller.send_rgb_frames(&link, &vec![Vec::new(); 65_536], 21).err(),
        Some(RingRefusal::TooManyFrames)
    );
}

#[test]
fn uploads_take_the_way_that_the_link_allows() {
    let mut link = idle_link();
    assert_eq!(ring_route(&link, 0), RingRoute::Cycle);
    link.last_hold = Some(0);
    assert_eq!(ring_route(&link, 1), RingRoute::Throttled);
    link.set_streaming(true);
    assert_eq!(ring_route(&link, 1), RingRoute::StreamThread);
    let command = sync_command(vec![3], 4);
    assert!(command.play_safe);
    assert_eq!(command.label, "SyncPumpFan");
    assert_eq!(command.reply_wait, 250 * MILLISECOND);
}

#[test]
fn animations_need_every_led_and_a_wired_ring() {
    let mut controller = H2AioController::new(0);
    let timing = RgbPlaybackTiming {
        interval_hundredths: 2_000,
        ..RgbPlaybackTiming::default()
    };
    let whole = vec![vec![[1, 2, 3]; 24]; 2];
    let short = vec![vec![[1, 2, 3]; 24], vec![[1, 2, 3]; 23]];
    assert_eq!(controller.validate_software_animation(&whole, timing), Ok(20));
    assert_eq!(
        controller.validate_software_animation(&short, timing),
        Err(AnimationError::WrongLedCount)
    );
    assert_eq!(controller.set_software_animation(&whole, timing), Ok(20));
    controller.set_wireless_mode(true);
    assert_eq!(
        controller.set_software_animation(&whole, timing),
        Err(AnimationError::RadioOwned)
    );
}

#[test]
fn effects_fill_the_only_zone() {
    let controller = H2AioController::new(0);
    assert_eq!(
        controller.set_zone_effect(1, false, &[], 4),
        Err(AnimationError::NoSuchZone)
    );
    assert_eq!(
        controller.set_zone_effect(0, false, &[[10, 20, 30], [1, 1, 1]], 2).unwrap(),
        vec![[5, 10, 15]; 24]
    );
    assert_eq!(controller.set_zone_effect(0, false, &[], 4).unwrap(), vec![[255; 3]; 24]);
    assert_eq!(controller.set_zone_effect(0, true, &[[9; 3]], 4).unwrap(), vec![[0; 3]; 24]);
    assert_eq!(
        controller.set_direct_colors(0, vec![[1, 2, 3]]).unwrap(),
        vec![[1, 2, 3]]
    );
    assert_eq!(
        controller.set_direct_colors(2, Vec::new()),
        Err(AnimationError::NoSuchZone)
    );
}
