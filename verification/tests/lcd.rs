use lianli_link::group_watch::UsbError;
use lianli_link::lcd_core::{
    after_chunk, after_drain, after_read, after_rewind, clear_jpg_layer, clear_png_layer,
    frame_fits, framed_packet, h2_control_init, is_last_chunk, must_drain, next_deadline,
    panel_serial, reinit_due, stops_playback, sysfs_serial, wait_before_chunk, BufferWait, ChunkStep, FrameStep,
    InitGate, PanelError, PanelState, ReadStep, SysfsDevice, WaitStep,
};
use lianli_link::lcd_link::{
    probe_length, LcdLink, LinkError, RingDelivery, CONTROL_RELAX_AFTER, HOLD_MIN_INTERVAL,
};
use lianli_link::lcd_reply::{
    block_reply, buffer_level, firmware_text, named_firmware, valid_firmware_reply,
    validate_h264_chunk_size, BlockReply, LcdResponse, NegotiatedH264ChunkSize,
    DEFAULT_H264_CHUNK_SIZE, MAX_H264_CHUNK_SIZE,
};
use lianli_link::pending::{
    cancelled_flags, enqueue, longest_wait, queue_control, same_key, split_unsafe, PendingCmd,
};
use lianli_link::ring_cycle::{
    remaining_timeout, CycleAction, CycleError, CycleEvent, CyclePhase, PANEL_POLL_GAP,
    PANEL_POLL_READ, REOPEN_DELAY, RING_TRANSACTION_BUDGET, WAKE_REPLY_WAIT,
};
use lianli_link::stream::{
    reinit_and_flush_unsafe, stream_h264, ReinitResult, ReinitStep, StreamEvent, StreamStep,
    WriteStep,
};
use std::io::{Cursor, Read, Seek, SeekFrom};
use std::sync::atomic::{AtomicBool, Ordering};
use std::sync::Arc;

const MILLISECOND: u64 = 1_000_000;
const SECOND: u64 = 1_000 * MILLISECOND;

/// Reads the next chunk of a stream as the stream thread does.
fn read_stream_chunk(
    reader: &mut Cursor<Vec<u8>>,
    buffer: &mut [u8],
    looping: bool,
    length: u64,
) -> Result<Option<(usize, bool)>, PanelError> {
    let mut count = reader.read(buffer).unwrap();
    match after_read(count, looping) {
        ReadStep::End => return Ok(None),
        ReadStep::Rewind => {
            reader.seek(SeekFrom::Start(0)).unwrap();
            count = reader.read(buffer).unwrap();
            after_rewind(count)?;
        }
        ReadStep::Send => {}
    }
    Ok(Some((count, is_last_chunk(looping, reader.position(), length))))
}

#[test]
fn cancelled_and_older_ring_requests_cannot_replace_the_latest_colour() {
    let now: u64 = 100 * SECOND;
    let make = |value: u8, queued_at: u64, cancelled: bool| PendingCmd {
        label: "PushRgbData",
        packet: vec![value],
        reply_wait: 0,
        queued_at,
        play_safe: false,
        ring_key: Some((vec![value], 1)),
        cancelled: Some(Arc::new(AtomicBool::new(cancelled))),
    };
    let mut queue = Vec::new();
    queue_control(&mut queue, make(2, now, false));
    queue_control(&mut queue, make(1, now - SECOND, false));
    queue_control(&mut queue, make(3, now + SECOND, true));
    assert_eq!(queue.len(), 1);
    assert_eq!(queue[0].packet, vec![2]);
}

#[test]
fn ring_recovery_requires_full_firmware_reply_and_a_live_deadline() {
    let mut response = [0; 512];
    response[0] = 0x0a;
    response[8..11].copy_from_slice(b"1.7");
    assert!(valid_firmware_reply(&response[..40]));
    assert!(!valid_firmware_reply(&response[..39]));
    response[0] = 0xfc;
    assert!(!valid_firmware_reply(&response));
    let now: u64 = 9 * SECOND;
    assert!(remaining_timeout(now, now, SECOND).is_err());
}

#[test]
fn replacement_cooling_commands_keep_the_original_wait_deadline() {
    let now: u64 = 50 * SECOND;
    let mut queue = Vec::new();
    for second in 0..5u64 {
        queue_control(
            &mut queue,
            PendingCmd {
                label: "SyncPumpFan",
                packet: vec![second as u8],
                reply_wait: 250 * MILLISECOND,
                queued_at: now + second * SECOND,
                play_safe: true,
                ring_key: None,
                cancelled: None,
            },
        );
        assert_eq!(queue.len(), 1);
        assert_eq!(queue[0].packet, vec![second as u8]);
        assert_eq!(queue[0].queued_at, now);
    }
    assert!(now + 4 * SECOND - queue[0].queued_at >= CONTROL_RELAX_AFTER);
}

#[test]
fn looping_chunks_never_signal_end_of_playback() {
    let mut source = Cursor::new(vec![1, 2, 3]);
    let mut buffer = [0; 2];
    assert_eq!(
        read_stream_chunk(&mut source, &mut buffer, true, 3).unwrap(),
        Some((2, false))
    );
    assert_eq!(buffer, [1, 2]);
    assert_eq!(
        read_stream_chunk(&mut source, &mut buffer, true, 3).unwrap(),
        Some((1, false))
    );
    assert_eq!(buffer[0], 3);
    assert_eq!(
        read_stream_chunk(&mut source, &mut buffer, true, 3).unwrap(),
        Some((2, false))
    );
    assert_eq!(buffer, [1, 2]);
}

#[test]
fn finite_stream_signals_last_chunk_then_finishes() {
    let mut source = Cursor::new(vec![1, 2, 3]);
    let mut buffer = [0; 2];
    assert_eq!(
        read_stream_chunk(&mut source, &mut buffer, false, 3).unwrap(),
        Some((2, false))
    );
    assert_eq!(
        read_stream_chunk(&mut source, &mut buffer, false, 3).unwrap(),
        Some((1, true))
    );
    assert_eq!(
        read_stream_chunk(&mut source, &mut buffer, false, 3).unwrap(),
        None
    );
}

#[test]
fn empty_loop_returns_an_error_instead_of_spinning() {
    assert!(
        read_stream_chunk(&mut Cursor::new(Vec::<u8>::new()), &mut [0; 2], true, 0).is_err()
    );
}

#[test]
fn short_replies_do_not_fabricate_empty_buffer_credit() {
    for length in 0..9 {
        let response = LcdResponse { bytes: [0; 512], length };
        assert_eq!(response.reply().len(), length);
        assert_eq!(buffer_level(response.reply()), None);
    }
    let mut bytes = [0; 512];
    bytes[8] = 4;
    let response = LcdResponse { bytes, length: 9 };
    assert_eq!(buffer_level(response.reply()), Some(4));
    bytes[8] = 0;
    assert_eq!(
        buffer_level(LcdResponse { bytes, length: 9 }.reply()),
        Some(0)
    );
}

fn response(size: u32) -> [u8; 12] {
    let mut response = [0; 12];
    response[8..12].copy_from_slice(&size.to_be_bytes());
    response
}

#[test]
fn negotiated_size_uses_only_complete_bounded_device_values() {
    let mut state = NegotiatedH264ChunkSize::default();
    assert_eq!(state.get(), None);
    for size in [1, 32_768, DEFAULT_H264_CHUNK_SIZE, MAX_H264_CHUNK_SIZE] {
        assert_eq!(state.update(&response(size as u32)), Some(size));
        assert_eq!(state.get(), Some(size));
    }
    for size in [0, MAX_H264_CHUNK_SIZE as u32 + 1, u32::MAX] {
        assert_eq!(state.update(&response(size)), None);
        assert_eq!(state.get(), None);
    }
    let reply = response(DEFAULT_H264_CHUNK_SIZE as u32);
    for length in 0..12 {
        state.update(&reply);
        assert_eq!(state.update(&reply[..length]), None);
        assert_eq!(state.get(), None);
    }
}

#[test]
fn tiny_negotiated_blocks_are_preserved_but_cannot_start_streaming() {
    let mut state = NegotiatedH264ChunkSize::default();
    for size in [1, 4, 4095] {
        assert_eq!(state.update(&response(size)), Some(size as usize));
        let effective = state.get().unwrap_or(DEFAULT_H264_CHUNK_SIZE);
        assert_eq!(effective, size as usize);
        assert!(validate_h264_chunk_size(effective).is_err());
    }
    for size in [4096, DEFAULT_H264_CHUNK_SIZE, MAX_H264_CHUNK_SIZE] {
        assert_eq!(validate_h264_chunk_size(size).unwrap(), size);
    }
}

#[test]
fn snapshot_is_invalidated_before_a_new_negotiation() {
    let mut link = LcdLink::new(true);
    assert_eq!(link.h264_chunk_size(), 202_752);
    assert_eq!(
        link.query_h264_block(Some(&response(65_536))),
        Some(BlockReply::Size(65_536))
    );
    assert_eq!(link.negotiated_h264_chunk_size(), Some(65_536));
    assert_eq!(link.query_h264_block(None), None);
    assert_eq!(link.negotiated_h264_chunk_size(), None);
    assert_eq!(link.h264_chunk_size(), 202_752);
    assert_eq!(
        link.query_h264_block(Some(&response(0))),
        Some(BlockReply::Default)
    );
    link.query_h264_block(Some(&response(32_768)));
    assert_eq!(link.h264_chunk_size(), 32_768);
    link.reopened();
    assert_eq!(link.negotiated_h264_chunk_size(), None);
    assert_eq!(block_reply(&[0; 11]), BlockReply::Invalid);
    assert_eq!(block_reply(&response(u32::MAX)), BlockReply::Invalid);
}

#[test]
fn firmware_is_read_up_to_the_first_zero() {
    let mut reply = [0u8; 512];
    reply[8..15].copy_from_slice(b"1.7 rc1");
    assert_eq!(firmware_text(&reply).unwrap(), "1.7 rc1");
    assert_eq!(firmware_text(&reply[..11]).unwrap(), "1.7");
    assert_eq!(firmware_text(&reply[..8]), None);
    assert_eq!(firmware_text(&reply[..3]), None);
    reply[9] = 0xff;
    assert_eq!(firmware_text(&reply).unwrap(), "1\u{fffd}7 rc1");
    assert_eq!(named_firmware(String::new()), None);
    let mut state = PanelState::new();
    state.read_firmware(&reply);
    assert_eq!(state.firmware.as_deref(), Some("1\u{fffd}7 rc1"));
    state.read_firmware(&[0; 512]);
    assert_eq!(state.firmware.as_deref(), Some("1\u{fffd}7 rc1"));
}

#[test]
fn firmware_replies_must_be_printable() {
    let mut reply = [0u8; 40];
    reply[0] = 0x0a;
    assert!(!valid_firmware_reply(&reply));
    reply[8] = b'1';
    assert!(valid_firmware_reply(&reply));
    reply[9] = 0x7f;
    assert!(!valid_firmware_reply(&reply));
    reply[9] = b' ';
    assert!(valid_firmware_reply(&reply));
}

#[test]
fn timeouts_are_bounded_by_the_deadline() {
    assert_eq!(remaining_timeout(10, 4, 3), Ok(3));
    assert_eq!(remaining_timeout(10, 8, 3), Ok(2));
    assert!(remaining_timeout(10, 11, 3).is_err());
}

fn ring(value: u8, queued_at: u64) -> PendingCmd {
    PendingCmd {
        label: "PushRgbData",
        packet: vec![value],
        reply_wait: 100 * MILLISECOND,
        queued_at,
        play_safe: false,
        ring_key: Some((vec![value], 1)),
        cancelled: None,
    }
}

fn sync(queued_at: u64) -> PendingCmd {
    PendingCmd {
        label: "SyncPumpFan",
        packet: vec![9],
        reply_wait: 250 * MILLISECOND,
        queued_at,
        play_safe: true,
        ring_key: None,
        cancelled: None,
    }
}

#[test]
fn a_cancelled_ring_upload_gives_way_to_an_older_one() {
    let mut queue = vec![ring(1, 10)];
    enqueue(&mut queue, ring(2, 5), false, false);
    assert_eq!(queue[0].packet, vec![1]);
    enqueue(&mut queue, ring(2, 5), false, true);
    assert_eq!(queue.len(), 1);
    assert_eq!(queue[0].packet, vec![2]);
    assert_eq!(queue[0].queued_at, 5);
    enqueue(&mut queue, ring(3, 20), true, false);
    assert_eq!(queue[0].packet, vec![2]);
    enqueue(&mut queue, sync(7), false, false);
    assert_eq!(queue.len(), 2);
}

#[test]
fn queues_are_split_by_what_the_panel_can_take() {
    let mut link = LcdLink::new(false);
    assert!(!link.has_pending());
    link.defer(ring(1, 3));
    link.defer(sync(4));
    assert!(link.has_pending());
    assert!(link.has_play_safe_pending());
    assert!(link.has_unsafe_pending());
    assert!(link.ring_is_queued(&(vec![1], 1)));
    assert!(!link.ring_is_queued(&(vec![1], 2)));
    assert_eq!(link.oldest_play_safe_age(10), Some(6));
    let safe = link.take_play_safe();
    assert_eq!(safe.len(), 1);
    assert_eq!(safe[0].label, "SyncPumpFan");
    assert_eq!(link.oldest_play_safe_age(10), None);
    let taken = link.take_unsafe();
    assert_eq!(taken.len(), 1);
    assert_eq!(taken[0].packet, vec![1]);
    assert!(!link.has_pending());
}

#[test]
fn cancelled_uploads_are_dropped_when_taken() {
    let stop = Arc::new(AtomicBool::new(false));
    let mut command = ring(1, 3);
    command.cancelled = Some(stop.clone());
    let mut link = LcdLink::new(false);
    link.defer(command);
    assert!(link.has_unsafe_pending());
    stop.store(true, Ordering::Release);
    assert!(!link.has_unsafe_pending());
    assert!(!link.ring_is_queued(&(vec![1], 1)));
    assert!(link.take_unsafe().is_empty());
    assert!(!link.has_pending());
    let mut queue = vec![ring(1, 1), sync(2), ring(3, 3)];
    assert_eq!(cancelled_flags(&queue), vec![false, false, false]);
    let taken = split_unsafe(&mut queue, &vec![true, false, false]);
    assert_eq!(taken.len(), 1);
    assert_eq!(taken[0].packet, vec![3]);
    assert_eq!(queue.len(), 1);
    assert_eq!(longest_wait(&queue, 5), Some(3));
}

#[test]
fn control_goes_out_at_low_levels_and_relaxes_with_time() {
    let mut link = LcdLink::new(false);
    assert!(link.flush_pending_control(Some(0), 0).is_empty());
    link.defer(sync(0));
    assert!(link.flush_pending_control(None, 0).is_empty());
    assert!(link.flush_pending_control(Some(2), CONTROL_RELAX_AFTER - 1).is_empty());
    assert!(link.flush_pending_control(Some(3), CONTROL_RELAX_AFTER).is_empty());
    assert_eq!(link.flush_pending_control(Some(2), CONTROL_RELAX_AFTER).len(), 1);
    link.defer(sync(0));
    assert_eq!(link.flush_pending_control(Some(1), 0).len(), 1);
}

#[test]
fn an_unclean_end_drops_control_but_keeps_uploads() {
    let mut link = LcdLink::new(false);
    link.set_streaming(true);
    link.defer(sync(0));
    link.defer(ring(1, 0));
    assert!(link.stream_end(false, true, false).is_empty());
    assert!(!link.is_streaming());
    assert!(!link.has_play_safe_pending());
    assert!(link.has_unsafe_pending());
    link.set_streaming(true);
    link.defer(sync(0));
    assert_eq!(link.stream_end(true, true, false).len(), 1);
    for (stopped, shutting_down) in [(false, false), (true, true)] {
        link.defer(sync(0));
        assert!(link.stream_end(true, stopped, shutting_down).is_empty());
        assert!(!link.has_play_safe_pending());
    }
    assert!(link.has_unsafe_pending());
}

#[test]
fn a_startup_image_needs_an_idle_and_healthy_panel() {
    let mut link = LcdLink::new(true);
    assert_eq!(link.startup_image_ready(false), Ok(()));
    assert_eq!(link.startup_image_ready(true), Err(LinkError::CoolingActive));
    link.set_software_cooling_active(false);
    assert_eq!(link.startup_image_ready(true), Ok(()));
    link.ring.begin((vec![1], 2));
    assert_eq!(link.startup_image_ready(true), Err(LinkError::RecoveryPending));
    link.ring.recovered();
    link.set_streaming(true);
    assert_eq!(link.upload_startup_image(false), Err(LinkError::PlaybackActive));
    link.set_streaming(false);
    assert_eq!(link.upload_startup_image(true), Err(LinkError::Cancelled));
    assert!(!link.needs_init);
    assert_eq!(link.upload_startup_image(false), Ok(()));
    assert!(link.needs_init);
    link.storage_transfer_begun();
    assert_eq!(link.ensure_storage_ready(), Err(LinkError::StorageInterrupted));
    assert_eq!(link.storage_written(None, 5), Err(LinkError::TransferInterrupted));
    assert_eq!(link.storage_written(Some(4), 5), Err(LinkError::TransferIncomplete));
    assert_eq!(link.startup_image_ready(false), Err(LinkError::StorageInterrupted));
    assert_eq!(link.storage_written(Some(5), 5), Ok(()));
    assert!(link.storage_transfer_done(Some(8)));
    assert_eq!(link.ensure_storage_ready(), Ok(()));
    assert!(!link.storage_transfer_done(Some(0)));
    assert!(!link.storage_transfer_done(None));
    assert_eq!(
        LinkError::PlaybackActive.message(),
        "LCD playback or recovery is still active"
    );
}

#[test]
fn a_silent_probe_counts_as_empty() {
    assert_eq!(probe_length(Ok(7)), Ok(7));
    assert_eq!(probe_length(Err(UsbError::Timeout)), Ok(0));
    assert_eq!(probe_length(Err(UsbError::NoDevice)), Err(UsbError::NoDevice));
}

#[test]
fn ring_uploads_are_spaced_and_yield_to_cooling() {
    let mut link = LcdLink::new(true);
    assert!(!link.hold_allowed(0));
    link.set_software_cooling_active(false);
    assert!(link.hold_allowed(0));
    assert_eq!(link.ring_retry_delay(0), 250 * MILLISECOND);
    link.last_hold = Some(10 * SECOND);
    assert!(!link.hold_allowed(10 * SECOND + HOLD_MIN_INTERVAL - 1));
    assert!(link.hold_allowed(10 * SECOND + HOLD_MIN_INTERVAL));
    assert_eq!(link.ring_retry_delay(11 * SECOND), 2 * SECOND);
    assert_eq!(link.ring_retry_delay(20 * SECOND), 250 * MILLISECOND);
    assert!(!reinit_due(&link, false, 20 * SECOND));
    assert!(reinit_due(&link, true, 20 * SECOND));
    link.set_software_cooling_active(true);
    assert!(!reinit_due(&link, true, 20 * SECOND));
    link.ring.begin((vec![1], 2));
    assert!(reinit_due(&link, false, 20 * SECOND));
}

#[test]
fn a_ring_payload_counts_once_written_and_recovered() {
    let mut ring = RingDelivery::new();
    ring.begin((vec![1], 2));
    ring.recovered();
    assert!(same_key(&ring.applied, &None));
    ring.begin((vec![1], 2));
    ring.written();
    assert!(ring.applied.is_none());
    ring.recovered();
    assert!(same_key(&ring.applied, &Some((vec![1], 2))));
    assert!(ring.attempted.is_none());
    ring.begin((vec![3], 2));
    ring.recovered();
    assert!(same_key(&ring.applied, &Some((vec![1], 2))));
}

#[test]
fn an_upload_cycle_stops_writes_reopens_and_asks() {
    let mut link = LcdLink::new(true);
    link.set_software_cooling_active(false);
    link.query_h264_block(Some(&response(65_536)));
    let commands = vec![ring(4, 0)];
    let timeout = 200 * MILLISECOND;
    let (cycle, action) = link
        .start_cycle(1, &commands, false, false, timeout, false, false, SECOND)
        .unwrap()
        .unwrap();
    assert_eq!(action, CycleAction::WritePreamble { index: 0, timeout });
    assert_eq!(cycle.deadline, SECOND + RING_TRANSACTION_BUDGET);
    assert_eq!(link.last_hold, Some(SECOND));
    let (cycle, action) = link.cycle_step(cycle, &commands, CycleEvent::Wrote(true), false, SECOND);
    assert_eq!(action, CycleAction::ReadReply { timeout: WAKE_REPLY_WAIT });
    let (cycle, action) = link.cycle_step(cycle, &commands, CycleEvent::Read, false, SECOND);
    assert_eq!(action, CycleAction::WriteCommand { index: 0, timeout });
    assert!(link.ring_recovery_pending());
    let (cycle, action) = link.cycle_step(cycle, &commands, CycleEvent::Wrote(true), false, SECOND);
    assert_eq!(action, CycleAction::ReadReply { timeout: 100 * MILLISECOND });
    assert!(!link.needs_init);
    let (cycle, action) = link.cycle_step(cycle, &commands, CycleEvent::Read, false, SECOND);
    assert_eq!(action, CycleAction::Release);
    assert!(link.needs_init);
    let (cycle, action) = link.cycle_step(cycle, &commands, CycleEvent::Released, false, SECOND);
    assert_eq!(action, CycleAction::Reopen { delay: REOPEN_DELAY });
    assert_eq!(link.negotiated_h264_chunk_size(), Some(65_536));
    let (cycle, action) =
        link.cycle_step(cycle, &commands, CycleEvent::Reopened(true), false, 2 * SECOND);
    assert_eq!(action, CycleAction::WriteQuery { timeout });
    assert_eq!(link.negotiated_h264_chunk_size(), None);
    let (cycle, action) =
        link.cycle_step(cycle, &commands, CycleEvent::Wrote(true), false, 2 * SECOND);
    assert_eq!(action, CycleAction::ReadQuery { timeout: PANEL_POLL_READ });
    let (cycle, action) =
        link.cycle_step(cycle, &commands, CycleEvent::Answered(false), false, 2 * SECOND);
    assert_eq!(action, CycleAction::Sleep { time: PANEL_POLL_GAP });
    let (cycle, action) = link.cycle_step(cycle, &commands, CycleEvent::Slept, false, 3 * SECOND);
    assert_eq!(action, CycleAction::WriteQuery { timeout });
    let (cycle, _) = link.cycle_step(cycle, &commands, CycleEvent::Wrote(true), false, 3 * SECOND);
    let (cycle, action) =
        link.cycle_step(cycle, &commands, CycleEvent::Answered(true), false, 3 * SECOND);
    assert_eq!(action, CycleAction::Done(true));
    assert_eq!(cycle.phase, CyclePhase::Over);
    assert!(!link.ring_recovery_pending());
    assert!(link.ring_shows(&(vec![4], 1)));
    assert_eq!(link.last_ring_payload(), Some((vec![4], 1)));
}

#[test]
fn an_unrecovered_panel_is_recovered_before_anything_is_written() {
    let mut link = LcdLink::new(true);
    link.set_software_cooling_active(false);
    let commands = vec![ring(4, 0)];
    let (cycle, _) = link
        .start_cycle(0, &commands, false, false, SECOND, true, false, SECOND)
        .unwrap()
        .unwrap();
    // The write fails half way: the panel is reopened and does not answer in time.
    let (cycle, action) = link.cycle_step(cycle, &commands, CycleEvent::Wrote(false), false, SECOND);
    assert_eq!(action, CycleAction::Release);
    let (cycle, action) =
        link.cycle_step(cycle, &commands, CycleEvent::Released, false, 4 * SECOND);
    assert_eq!(action, CycleAction::Fail(CycleError::NotRecovered));
    assert_eq!(cycle.phase, CyclePhase::Over);
    assert!(link.ring_recovery_pending());
    // The next cycle only recovers, even while software cooling is active.
    link.set_software_cooling_active(true);
    let (cycle, action) = link
        .start_cycle(2, &commands, true, true, SECOND, false, false, 9 * SECOND)
        .unwrap()
        .unwrap();
    assert_eq!(action, CycleAction::Release);
    let (cycle, _) = link.cycle_step(cycle, &commands, CycleEvent::Released, false, 9 * SECOND);
    let (cycle, _) =
        link.cycle_step(cycle, &commands, CycleEvent::Reopened(true), false, 9 * SECOND);
    let (cycle, _) = link.cycle_step(cycle, &commands, CycleEvent::Wrote(true), false, 9 * SECOND);
    let (_, action) =
        link.cycle_step(cycle, &commands, CycleEvent::Answered(true), false, 9 * SECOND);
    // The upload was never written completely, so it is not shown.
    assert_eq!(action, CycleAction::Done(false));
    assert!(!link.ring_recovery_pending());
    assert!(!link.ring_shows(&(vec![4], 1)));
}

#[test]
fn an_incomplete_write_is_reported_after_recovery() {
    let mut link = LcdLink::new(true);
    link.set_software_cooling_active(false);
    let commands = vec![ring(4, 0)];
    let (cycle, _) = link
        .start_cycle(0, &commands, false, false, SECOND, true, false, SECOND)
        .unwrap()
        .unwrap();
    let (cycle, _) = link.cycle_step(cycle, &commands, CycleEvent::Wrote(false), false, SECOND);
    let (cycle, _) = link.cycle_step(cycle, &commands, CycleEvent::Released, false, SECOND);
    let (cycle, _) = link.cycle_step(cycle, &commands, CycleEvent::Reopened(true), false, SECOND);
    let (cycle, _) = link.cycle_step(cycle, &commands, CycleEvent::Wrote(true), false, SECOND);
    let (_, action) = link.cycle_step(cycle, &commands, CycleEvent::Answered(true), false, SECOND);
    assert_eq!(action, CycleAction::Fail(CycleError::WriteIncomplete));
}

#[test]
fn cycles_do_not_start_against_the_rules() {
    let commands = vec![ring(4, 0)];
    let start = |link: &mut LcdLink, cancelled: bool, stream_thread: bool, down: bool| {
        link.start_cycle(0, &commands, cancelled, cancelled, SECOND, stream_thread, down, 0)
    };
    let mut link = LcdLink::new(true);
    // Software cooling is on.
    assert_eq!(start(&mut link, false, true, false), Ok(None));
    link.set_software_cooling_active(false);
    assert_eq!(start(&mut link, true, true, false), Ok(None));
    assert_eq!(start(&mut link, false, true, true), Err(CycleError::ShuttingDown));
    link.set_streaming(true);
    assert_eq!(start(&mut link, false, false, false), Ok(None));
    assert_eq!(link.last_hold, None);
    link.storage_transfer_begun();
    assert_eq!(start(&mut link, false, true, false), Err(CycleError::StorageInterrupted));
    let mut fixed = LcdLink::new(false);
    fixed.set_software_cooling_active(false);
    let (cycle, action) = fixed
        .start_cycle(0, &commands, false, true, SECOND, true, false, 0)
        .unwrap()
        .unwrap();
    assert_eq!(action, CycleAction::Done(false));
    assert_eq!(cycle.phase, CyclePhase::Over);
    let (cycle, _) = fixed
        .start_cycle(0, &commands, false, false, SECOND, true, false, 0)
        .unwrap()
        .unwrap();
    let (_, action) = fixed.cycle_step(cycle, &commands, CycleEvent::Wrote(false), false, 0);
    assert_eq!(action, CycleAction::Fail(CycleError::NotRecovered));
}

#[test]
fn cycles_end_early_for_each_reason() {
    let mut link = LcdLink::new(true);
    link.set_software_cooling_active(false);
    let mut keyless = ring(1, 0);
    keyless.ring_key = None;
    let (_, action) = link
        .start_cycle(0, &vec![keyless], false, false, SECOND, true, false, 0)
        .unwrap()
        .unwrap();
    assert_eq!(action, CycleAction::Fail(CycleError::MissingKey));
    let commands = vec![ring(1, 0)];
    let (cycle, _) = link
        .start_cycle(1, &commands, false, false, SECOND, true, false, 0)
        .unwrap()
        .unwrap();
    let (_, action) = link.cycle_step(cycle, &commands, CycleEvent::Wrote(false), false, 0);
    assert_eq!(action, CycleAction::Fail(CycleError::Preamble));
    let (_, action) = link.cycle_step(cycle, &commands, CycleEvent::Wrote(true), false, 4 * SECOND);
    assert_eq!(action, CycleAction::Fail(CycleError::Deadline));
}

#[test]
fn a_cycle_reads_whether_its_uploads_were_given_up() {
    let stop = Arc::new(AtomicBool::new(false));
    let uploads = |count: u8| -> Vec<PendingCmd> {
        (1..=count)
            .map(|value| PendingCmd { cancelled: Some(stop.clone()), ..ring(value, 0) })
            .collect()
    };
    let start = |commands: &Vec<PendingCmd>| {
        let mut link = LcdLink::new(true);
        link.set_software_cooling_active(false);
        let start = link.push_and_recover(0, commands, SECOND, true, false, 0).unwrap();
        (link, start)
    };
    let commands = uploads(2);
    let (mut link, started) = start(&commands);
    let (cycle, action) = started.unwrap();
    assert_eq!(action, CycleAction::WriteCommand { index: 0, timeout: SECOND });
    let (cycle, _) = link.cycle_next(cycle, &commands, CycleEvent::Wrote(true), 0);
    stop.store(true, Ordering::Release);
    let (_, action) = link.cycle_next(cycle, &commands, CycleEvent::Read, 0);
    assert_eq!(action, CycleAction::Done(false));
    let (link, started) = start(&commands);
    assert!(started.is_none());
    assert!(link.last_hold.is_none());
}

#[test]
fn packets_carry_their_payload_behind_the_head() {
    let packet = framed_packet(&[7; 512], &[1, 2, 3]);
    assert_eq!(packet.len(), 515);
    assert!(packet[..512].iter().all(|&byte| byte == 7));
    assert_eq!(&packet[512..], &[1, 2, 3]);
}

#[test]
fn blank_layers_are_real_pictures() {
    let jpeg = clear_jpg_layer(24, 16, 80).unwrap();
    assert_eq!(&jpeg[..2], &[0xff, 0xd8]);
    assert_eq!(&jpeg[jpeg.len() - 2..], &[0xff, 0xd9]);
    let picture = image::load_from_memory(&jpeg).unwrap().to_rgb8();
    assert_eq!(picture.dimensions(), (24, 16));
    assert!(picture.pixels().all(|pixel| pixel.0 == [0, 0, 0]));
    assert_eq!(clear_jpg_layer(24, 16, 80).unwrap(), jpeg);
    assert!(clear_jpg_layer(0, 16, 80).is_none());
    assert!(clear_jpg_layer(70_000, 1, 80).is_none());
    let png = clear_png_layer(24, 16).unwrap();
    let overlay = image::load_from_memory(&png).unwrap().to_rgba8();
    assert_eq!(overlay.dimensions(), (24, 16));
    assert!(overlay.pixels().all(|pixel| pixel.0 == [0, 0, 0, 0]));
    assert_eq!(clear_png_layer(24, 16).unwrap(), png);
    assert!(clear_png_layer(1, 1).is_some());
    assert!(clear_png_layer(0, 16).is_none());
    assert!(clear_png_layer(24, 0).is_none());
}

#[test]
fn recovery_gives_a_panel_up_after_repeated_stalls() {
    let mut state = PanelState::new();
    assert_eq!(state.begin_recovery(true), Err(PanelError::ShuttingDown));
    for _ in 0..5 {
        assert_eq!(state.begin_recovery(false), Ok(()));
        assert_eq!(state.try_recover(false, true), Ok(()));
    }
    assert_eq!(state.begin_recovery(false), Ok(()));
    assert_eq!(state.try_recover(false, true), Err(PanelError::Unresponsive));
    assert!(state.device_gone);
    assert_eq!(state.begin_recovery(false), Err(PanelError::Stale));
    state.reset_failure_state();
    assert_eq!(state.begin_recovery(false), Ok(()));
    assert_eq!(state.try_recover(true, false), Ok(()));
    assert_eq!(state.consecutive_failures, 0);
    assert_eq!(state.begin_recovery(false), Ok(()));
    state.note_write_success();
    assert_eq!(state.consecutive_failures, 0);
    assert_eq!(state.try_recover(false, false), Err(PanelError::Unresponsive));
}

#[test]
fn frames_are_tried_three_times() {
    let mut state = PanelState::new();
    state.initialized = true;
    assert_eq!(state.send_frame_verified(0, true), FrameStep::Done);
    assert!(state.initialized);
    assert_eq!(state.send_frame_verified(0, false), FrameStep::Retry);
    assert!(!state.initialized);
    assert_eq!(state.send_frame_verified(1, false), FrameStep::Retry);
    assert_eq!(state.send_frame_verified(2, false), FrameStep::Fail);
    assert_eq!(frame_fits(5, 5), Ok(()));
    assert_eq!(frame_fits(6, 5), Err(PanelError::FrameTooLarge));
}

#[test]
fn waiting_for_the_buffer_is_bounded() {
    assert!(must_drain(Some(4)));
    assert!(!must_drain(Some(3)));
    assert!(!must_drain(None));
    let mut wait = BufferWait::new(2, 0);
    assert_eq!(wait.before_poll(false, 0), WaitStep::Poll);
    assert_eq!(wait.after_poll(Some(4)), WaitStep::Sleep);
    assert_eq!(wait.before_poll(true, 0), WaitStep::Over(Some(4)));
    assert_eq!(wait.before_poll(false, 30 * SECOND), WaitStep::Over(Some(4)));
    assert_eq!(wait.after_poll(None), WaitStep::Over(Some(4)));
    assert_eq!(wait.after_poll(Some(2)), WaitStep::Over(Some(2)));
    let mut polls = 1;
    while wait.before_poll(false, 0) == WaitStep::Poll {
        polls += 1;
    }
    assert_eq!(polls, 600);
}

#[test]
fn chunks_need_feedback_and_room() {
    assert_eq!(after_chunk(Some(3), None), ChunkStep::Go(3));
    assert_eq!(after_chunk(None, Some(1)), ChunkStep::Go(1));
    assert_eq!(after_chunk(Some(4), Some(0)), ChunkStep::Drain);
    assert_eq!(after_chunk(None, None), ChunkStep::Fail(PanelError::NoFeedback));
    assert_eq!(after_drain(Some(2)), ChunkStep::Go(2));
    assert_eq!(after_drain(Some(3)), ChunkStep::Fail(PanelError::NotDraining));
    assert_eq!(after_drain(None), ChunkStep::Fail(PanelError::NotDraining));
    assert!(!stops_playback(false, false, false, false));
    assert!(stops_playback(true, false, false, false));
    assert!(stops_playback(false, false, false, true));
}

#[test]
fn streams_that_fall_behind_start_a_new_pace() {
    assert_eq!(wait_before_chunk(10, 4), 6);
    assert_eq!(wait_before_chunk(10, 12), 0);
    assert_eq!(next_deadline(10, 5, 12), 15);
    assert_eq!(next_deadline(10, 5, 15), 15);
    assert_eq!(next_deadline(10, 5, 16), 21);
}

#[test]
fn initialisation_waits_for_recovery() {
    let mut link = LcdLink::new(true);
    assert_eq!(h2_control_init(&link, 0), InitGate::Run);
    link.ring.begin((vec![1], 2));
    assert_eq!(h2_control_init(&link, 0), InitGate::Recover);
    link.last_hold = Some(0);
    assert_eq!(h2_control_init(&link, 1), InitGate::CoolingDown);
    link.storage_transfer_begun();
    assert_eq!(h2_control_init(&link, 1), InitGate::StorageInterrupted);
}

fn sysfs(bus: &str, dev: &str, serial: Option<&str>) -> SysfsDevice {
    SysfsDevice {
        busnum: Some(bus.to_string()),
        devnum: Some(dev.to_string()),
        serial: serial.map(|text| text.to_string()),
    }
}

#[test]
fn the_kernel_serial_is_found_by_bus_and_address() {
    let entries = vec![
        SysfsDevice { busnum: None, devnum: None, serial: Some("x".to_string()) },
        sysfs("1\n", "7\n", Some("other\n")),
        sysfs("3\n", "7\n", Some("  \n")),
        sysfs(" 3\n", "\u{a0}7\n", Some(" abc 1\u{2003}\n")),
    ];
    assert_eq!(sysfs_serial(&entries, 3, 7).as_deref(), Some("abc 1"));
    assert_eq!(sysfs_serial(&entries, 1, 7).as_deref(), Some("other"));
    assert_eq!(sysfs_serial(&entries, 1, 8), None);
    let unreadable = vec![sysfs("3", "7", None), sysfs("3", "7", Some("late"))];
    assert_eq!(sysfs_serial(&unreadable, 3, 7), None);
}

#[test]
fn a_panel_is_known_by_the_kernel_or_itself_or_its_place() {
    let text = |text: &str| Some(text.to_string());
    assert_eq!(panel_serial(text("k"), text("d"), 3, 17), "k");
    assert_eq!(panel_serial(None, text("d"), 3, 17), "d");
    assert_eq!(panel_serial(None, None, 3, 17), "bus3-addr17");
    assert_eq!(panel_serial(None, None, 0, 255), "bus0-addr255");
}

#[test]
fn a_write_is_tried_twice_with_a_recovery_between() {
    let mut state = PanelState::new();
    state.consecutive_failures = 4;
    let step = state.write_step(WriteStep::First, false);
    assert_eq!(step, WriteStep::Recover);
    let step = state.write_step(step, true);
    assert_eq!(step, WriteStep::Second);
    assert_eq!(state.consecutive_failures, 4);
    assert_eq!(state.write_step(step, false), WriteStep::GivenUp);
    assert_eq!(state.write_step(WriteStep::Recover, false), WriteStep::GivenUp);
    assert_eq!(state.consecutive_failures, 4);
    assert_eq!(state.write_step(step, true), WriteStep::Written);
    assert_eq!(state.consecutive_failures, 0);
    assert_eq!(state.write_step(WriteStep::First, true), WriteStep::Written);
    assert_eq!(state.write_step(WriteStep::Written, false), WriteStep::Written);
    assert_eq!(state.write_step(WriteStep::GivenUp, true), WriteStep::GivenUp);
}

fn reinit_run(ok: bool, shown: bool, recovering: bool, has_rate: bool) -> Vec<ReinitStep> {
    let mut steps = vec![ReinitStep::Begin];
    loop {
        let step = steps[steps.len() - 1];
        if matches!(step, ReinitStep::Done | ReinitStep::Failed) {
            return steps;
        }
        let ok = ok || step != ReinitStep::Push;
        steps.push(reinit_and_flush_unsafe(
            step,
            ReinitResult { ok, shown, recovering, has_rate },
        ));
    }
}

#[test]
fn uploads_that_are_not_shown_go_back_into_the_queue() {
    check_steps(
        reinit_run(true, true, false, true),
        &[
            ReinitStep::Begin,
            ReinitStep::StopPlayback,
            ReinitStep::TakeUploads,
            ReinitStep::StopClock,
            ReinitStep::Push,
            ReinitStep::Init,
            ReinitStep::RestoreRate,
            ReinitStep::Done,
        ],
    );
    check_steps(
        reinit_run(true, false, true, false),
        &[
            ReinitStep::Begin,
            ReinitStep::TakeUploads,
            ReinitStep::Push,
            ReinitStep::Requeue,
            ReinitStep::Init,
            ReinitStep::Done,
        ],
    );
    check_steps(
        reinit_run(false, false, true, false),
        &[
            ReinitStep::Begin,
            ReinitStep::TakeUploads,
            ReinitStep::Push,
            ReinitStep::RequeueFailed,
            ReinitStep::Failed,
        ],
    );
    let failed = ReinitResult { ok: false, shown: false, recovering: false, has_rate: true };
    assert_eq!(reinit_and_flush_unsafe(ReinitStep::StopPlayback, failed), ReinitStep::Failed);
    assert_eq!(reinit_and_flush_unsafe(ReinitStep::Init, failed), ReinitStep::Failed);
}

fn check_steps(steps: Vec<ReinitStep>, expected: &[ReinitStep]) {
    assert_eq!(steps, expected);
}

#[test]
fn a_file_starts_again_after_a_hold_and_a_live_stream_goes_on() {
    let next = stream_h264;
    assert_eq!(next(StreamStep::Check, StreamEvent::Stopping(true), false), StreamStep::Over);
    assert_eq!(next(StreamStep::Check, StreamEvent::Stopping(false), false), StreamStep::Read);
    assert_eq!(next(StreamStep::Read, StreamEvent::Chunk(false), false), StreamStep::Over);
    assert_eq!(next(StreamStep::Read, StreamEvent::Failed, false), StreamStep::Failed);
    assert_eq!(next(StreamStep::Read, StreamEvent::Chunk(true), false), StreamStep::Recheck);
    assert_eq!(next(StreamStep::Recheck, StreamEvent::Stopping(true), false), StreamStep::Over);
    assert_eq!(next(StreamStep::Recheck, StreamEvent::Stopping(false), false), StreamStep::Send);
    assert_eq!(next(StreamStep::Send, StreamEvent::Sent, false), StreamStep::Hold);
    assert_eq!(next(StreamStep::Send, StreamEvent::Failed, true), StreamStep::Failed);
    assert_eq!(next(StreamStep::Hold, StreamEvent::Held(true), false), StreamStep::Restart);
    assert_eq!(next(StreamStep::Hold, StreamEvent::Held(false), false), StreamStep::Pace);
    assert_eq!(next(StreamStep::Hold, StreamEvent::Held(true), true), StreamStep::Check);
    assert_eq!(next(StreamStep::Restart, StreamEvent::Restarted, false), StreamStep::Check);
    assert_eq!(next(StreamStep::Pace, StreamEvent::Paced, false), StreamStep::Check);
    assert_eq!(next(StreamStep::Over, StreamEvent::Failed, false), StreamStep::Over);
}
