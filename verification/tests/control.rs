use lianli_link::control::{
    send_control, write_control, ControlEvent, ControlStep, ControlWrite, ControlWriteEvent,
    WriteOutcome,
};
use lianli_link::h2_aio::{control_gate, control_write_allowed, ControlGate};
use lianli_link::h2_ring::{ring_command, sync_command, RingUnsent};
use lianli_link::lcd_link::{LcdLink, LinkError, HOLD_MIN_INTERVAL, RING_RETRY_FLOOR};
use lianli_link::pending::PendingCmd;
use lianli_link::ring_cycle::CycleError;
use std::sync::atomic::{AtomicBool, Ordering};
use std::sync::Arc;

/// What came of a step of a write.
type Did = ControlWriteEvent;

/// What came of a step of sending a command.
type Saw = ControlEvent;

fn idle_link() -> LcdLink {
    let mut link = LcdLink::new(true);
    link.set_software_cooling_active(false);
    link
}

fn upload(value: u8, queued_at: u64) -> PendingCmd {
    ring_command(vec![value], (vec![value], 1), Arc::new(AtomicBool::new(false)), queued_at)
}

fn waiting(link: &LcdLink) -> Vec<(&'static str, u8)> {
    link.pending.iter().map(|command| (command.label, command.packet[0])).collect()
}

fn written(events: &[Did]) -> ControlWrite {
    events.iter().fold(ControlWrite::Gate, |step, &event| write_control(step, event))
}

fn sent(events: &[Saw]) -> ControlStep {
    events.iter().fold(ControlStep::Begin, |step, &event| send_control(step, event))
}

#[test]
fn a_control_write_is_checked_with_the_link_held() {
    let over = ControlWrite::Over;
    assert_eq!(written(&[Did::Gate(ControlGate::Write)]), ControlWrite::Check);
    assert_eq!(written(&[Did::Gate(ControlGate::Queue)]), ControlWrite::Check);
    assert_eq!(written(&[Did::Gate(ControlGate::CoolingDown)]), over(WriteOutcome::Failed));
    assert_eq!(written(&[Did::Gate(ControlGate::Recover)]), ControlWrite::Recover);
    assert_eq!(
        written(&[Did::Gate(ControlGate::Recover), Did::Recovered(false)]),
        over(WriteOutcome::Failed)
    );
    let ready = [Did::Gate(ControlGate::Recover), Did::Recovered(true)];
    assert_eq!(written(&ready), ControlWrite::Check);
    for (allowed, next) in [
        (Ok(true), ControlWrite::Write),
        (Ok(false), over(WriteOutcome::Withheld)),
        (Err(LinkError::StorageInterrupted), over(WriteOutcome::Failed)),
    ] {
        assert_eq!(written(&[ready[0], ready[1], Did::Checked(allowed)]), next);
    }
    let checked = [Did::Gate(ControlGate::Write), Did::Checked(Ok(true))];
    assert_eq!(written(&[checked[0], checked[1], Did::Wrote(true)]), over(WriteOutcome::Written));
    assert_eq!(written(&[checked[0], checked[1], Did::Wrote(false)]), over(WriteOutcome::Failed));
    assert_eq!(written(&[Did::Wrote(true)]), ControlWrite::Gate);
    assert_eq!(
        written(&[checked[0], checked[1], Did::Wrote(true), Did::Wrote(false)]),
        over(WriteOutcome::Written)
    );
}

#[test]
fn a_command_is_sent_or_queued() {
    assert_eq!(sent(&[]), ControlStep::Begin);
    assert_eq!(sent(&[Saw::Streaming(true)]), ControlStep::Queue);
    assert_eq!(sent(&[Saw::Streaming(true), Saw::Queued(0)]), ControlStep::Queued);
    assert_eq!(sent(&[Saw::Streaming(false)]), ControlStep::Write);
    assert_eq!(sent(&[Saw::Streaming(false), Saw::Wrote(WriteOutcome::Written)]), ControlStep::Sent);
    assert_eq!(sent(&[Saw::Streaming(false), Saw::Wrote(WriteOutcome::Failed)]), ControlStep::Failed);
    assert_eq!(
        sent(&[Saw::Streaming(false), Saw::Wrote(WriteOutcome::Withheld)]),
        ControlStep::Queue
    );
    assert_eq!(sent(&[Saw::Streaming(false), Saw::Queued(3)]), ControlStep::Write);
}

#[test]
fn stranded_commands_are_written_or_put_back() {
    let mut events = vec![Saw::Streaming(true), Saw::Queued(3)];
    assert_eq!(sent(&events), ControlStep::WriteStranded(3));
    events.push(Saw::Wrote(WriteOutcome::Written));
    assert_eq!(sent(&events), ControlStep::WriteStranded(2));
    events.push(Saw::Wrote(WriteOutcome::Failed));
    assert_eq!(sent(&events), ControlStep::WriteStranded(1));
    events.push(Saw::Wrote(WriteOutcome::Withheld));
    assert_eq!(sent(&events), ControlStep::Requeue(1));
    events.push(Saw::Requeued);
    assert_eq!(sent(&events), ControlStep::Queued);
    events.push(Saw::Requeued);
    assert_eq!(sent(&events), ControlStep::Queued);
    assert_eq!(
        sent(&[
            Saw::Streaming(true),
            Saw::Queued(2),
            Saw::Wrote(WriteOutcome::Withheld),
            Saw::Requeued,
        ]),
        ControlStep::WriteStranded(1)
    );
}

#[test]
fn a_command_is_taken_out_again_where_no_stream_is_left_to_send_it() {
    let mut link = idle_link();
    link.defer(upload(5, 1));
    link.set_streaming(true);
    assert!(link.queue_command(sync_command(vec![1], 2)).is_empty());
    assert_eq!(waiting(&link), [("PushRgbData", 5), ("SyncPumpFan", 1)]);
    link.set_streaming(false);
    let stranded = link.queue_command(sync_command(vec![2], 9));
    assert_eq!(stranded.len(), 1);
    assert_eq!(stranded[0].packet, [2]);
    assert_eq!(stranded[0].queued_at, 2);
    assert_eq!(waiting(&link), [("PushRgbData", 5)]);
}

#[test]
fn a_new_stream_gets_a_stranded_command_back() {
    let mut link = idle_link();
    let mut stranded = link.queue_command(sync_command(vec![1], 2));
    let mut step = send_control(ControlStep::Queue, Saw::Queued(stranded.len()));
    assert_eq!(step, ControlStep::WriteStranded(1));
    link.set_streaming(true);
    let mut write = ControlWrite::Gate;
    write = write_control(write, Did::Gate(control_gate(&link, 3)));
    write = write_control(write, Did::Checked(control_write_allowed(&link)));
    assert_eq!(write, ControlWrite::Over(WriteOutcome::Withheld));
    step = send_control(step, Saw::Wrote(WriteOutcome::Withheld));
    assert_eq!(step, ControlStep::Requeue(1));
    link.defer(stranded.remove(0));
    assert_eq!(send_control(step, Saw::Requeued), ControlStep::Queued);
    assert_eq!(waiting(&link), [("SyncPumpFan", 1)]);
}

#[test]
fn an_upload_waits_for_its_turn_or_replaces_what_waits() {
    let mut link = idle_link();
    link.defer(upload(1, 1));
    link.defer(sync_command(vec![9], 1));
    link.last_hold = Some(100);
    let now = 100 + HOLD_MIN_INTERVAL - 1_000_000_000;
    assert_eq!(
        link.begin_upload(upload(2, 2), now).err(),
        Some(RingUnsent::Deferred { retry_after: 1_000_000_000 })
    );
    assert_eq!(waiting(&link), [("SyncPumpFan", 9), ("PushRgbData", 2)]);
    let now = 100 + HOLD_MIN_INTERVAL;
    link.set_streaming(true);
    assert_eq!(
        link.begin_upload(upload(3, 3), now).err(),
        Some(RingUnsent::Deferred { retry_after: RING_RETRY_FLOOR })
    );
    assert_eq!(waiting(&link), [("SyncPumpFan", 9), ("PushRgbData", 3)]);
    link.set_streaming(false);
    let begun = link.begin_upload(upload(4, 4), now).ok().unwrap();
    assert_eq!(begun.packet, [4]);
    assert_eq!(waiting(&link), [("SyncPumpFan", 9)]);
}

#[test]
fn an_upload_that_is_not_shown_waits() {
    let mut link = idle_link();
    assert_eq!(link.ring_pushed(upload(1, 1), Ok(true), 5), Ok(()));
    assert!(!link.has_pending());
    assert_eq!(
        link.ring_pushed(upload(2, 2), Ok(false), 5),
        Err(RingUnsent::Deferred { retry_after: RING_RETRY_FLOOR })
    );
    assert_eq!(waiting(&link), [("PushRgbData", 2)]);
    assert_eq!(
        link.ring_pushed(upload(3, 3), Err(CycleError::NotRecovered), 5),
        Err(RingUnsent::Failed(CycleError::NotRecovered))
    );
    assert_eq!(waiting(&link), [("PushRgbData", 3)]);
    assert_eq!(
        link.ring_pushed(upload(4, 2), Err(CycleError::Busy), 5),
        Err(RingUnsent::Failed(CycleError::Busy))
    );
    assert_eq!(waiting(&link), [("PushRgbData", 3)]);
    let given_up = upload(5, 9);
    given_up.cancelled.as_ref().unwrap().store(true, Ordering::Release);
    assert!(link.ring_pushed(given_up, Ok(false), 5).is_err());
    assert_eq!(waiting(&link), [("PushRgbData", 3)]);
}
