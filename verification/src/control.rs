//! The course of a control command, step by step.
//!
//! A command that is not written waits in the queue for the stream to end. The stream may end just
//! before the command is queued, and has then emptied the queue already; the command is taken out
//! again in that case, so that it does not wait for the end of the next stream.
use vstd::prelude::*;

use crate::h2_aio::ControlGate;
use crate::lcd_link::{LcdLink, LinkError};
use crate::pending::{is_queued, labelled, without_label, PendingCmd};
use crate::table::lemma_filter_push;

verus! {

/// What came of a write.
#[derive(Clone, Copy, Debug, PartialEq, Eq, Structural)]
pub enum WriteOutcome {
    Written,
    /// Nothing was written: a stream runs, or the panel has not recovered.
    Withheld,
    Failed,
}

/// A step of the write of one command.
#[derive(Clone, Copy, Debug, PartialEq, Eq, Structural)]
pub enum ControlWrite {
    /// See whether the panel must recover first.
    Gate,
    /// Recover the panel.
    Recover,
    /// See, with the link held, whether the command may be written.
    Check,
    /// Write it, with the link still held.
    Write,
    Over(WriteOutcome),
}

/// What came of a step of a write.
#[derive(Clone, Copy, Debug)]
pub enum ControlWriteEvent {
    Gate(ControlGate),
    /// Whether the panel has recovered.
    Recovered(bool),
    /// Whether the command may be written.
    Checked(Result<bool, LinkError>),
    /// Whether it could be written.
    Wrote(bool),
}

/// What follows a step of a write. Whether a stream runs is decided only once the link is held.
/// What does not answer the step changes nothing.
pub open spec fn control_write_after(step: ControlWrite, event: ControlWriteEvent) -> ControlWrite {
    match (step, event) {
        (ControlWrite::Gate, ControlWriteEvent::Gate(gate)) => match gate {
            ControlGate::Queue => ControlWrite::Check,
            ControlGate::Write => ControlWrite::Check,
            ControlGate::Recover => ControlWrite::Recover,
            ControlGate::CoolingDown => ControlWrite::Over(WriteOutcome::Failed),
        },
        (ControlWrite::Recover, ControlWriteEvent::Recovered(recovered)) => if recovered {
            ControlWrite::Check
        } else {
            ControlWrite::Over(WriteOutcome::Failed)
        },
        (ControlWrite::Check, ControlWriteEvent::Checked(allowed)) => match allowed {
            Ok(true) => ControlWrite::Write,
            Ok(false) => ControlWrite::Over(WriteOutcome::Withheld),
            Err(_) => ControlWrite::Over(WriteOutcome::Failed),
        },
        (ControlWrite::Write, ControlWriteEvent::Wrote(written)) => if written {
            ControlWrite::Over(WriteOutcome::Written)
        } else {
            ControlWrite::Over(WriteOutcome::Failed)
        },
        _ => step,
    }
}

/// What follows a step of the write of one command.
pub fn write_control(step: ControlWrite, event: ControlWriteEvent) -> (next: ControlWrite)
    ensures
        next == control_write_after(step, event),
{
    match step {
        ControlWrite::Gate => match event {
            ControlWriteEvent::Gate(gate) => match gate {
                ControlGate::Queue | ControlGate::Write => ControlWrite::Check,
                ControlGate::Recover => ControlWrite::Recover,
                ControlGate::CoolingDown => ControlWrite::Over(WriteOutcome::Failed),
            },
            _ => step,
        },
        ControlWrite::Recover => match event {
            ControlWriteEvent::Recovered(true) => ControlWrite::Check,
            ControlWriteEvent::Recovered(false) => ControlWrite::Over(WriteOutcome::Failed),
            _ => step,
        },
        ControlWrite::Check => match event {
            ControlWriteEvent::Checked(Ok(true)) => ControlWrite::Write,
            ControlWriteEvent::Checked(Ok(false)) => ControlWrite::Over(WriteOutcome::Withheld),
            ControlWriteEvent::Checked(Err(_)) => ControlWrite::Over(WriteOutcome::Failed),
            _ => step,
        },
        ControlWrite::Write => match event {
            ControlWriteEvent::Wrote(true) => ControlWrite::Over(WriteOutcome::Written),
            ControlWriteEvent::Wrote(false) => ControlWrite::Over(WriteOutcome::Failed),
            _ => step,
        },
        ControlWrite::Over(_) => step,
    }
}

/// A command is written only right after it was seen, with the link held, that it may be, and is
/// withheld only where that was seen not to be so.
pub proof fn lemma_writes_are_checked(step: ControlWrite, event: ControlWriteEvent)
    ensures
        control_write_after(step, event) is Write && !(step is Write) <==> step is Check && event
            == ControlWriteEvent::Checked(Ok(true)),
        control_write_after(step, event) == ControlWrite::Over(WriteOutcome::Withheld) && !(
        step is Over) <==> step is Check && event == ControlWriteEvent::Checked(Ok(false)),
        control_write_after(step, event) == ControlWrite::Over(WriteOutcome::Written) && !(
        step is Over) <==> step is Write && event == ControlWriteEvent::Wrote(true),
{
}

/// A step of sending a command.
#[derive(Clone, Copy, Debug, PartialEq, Eq, Structural)]
pub enum ControlStep {
    /// See whether a stream runs.
    Begin,
    /// Write the command.
    Write,
    /// Put the command into the queue, and take out again what no stream is left to send.
    Queue,
    /// Write the first of the commands that were taken out; so many are at hand.
    WriteStranded(usize),
    /// Put that command into the queue again.
    Requeue(usize),
    Sent,
    Queued,
    Failed,
}

/// What came of a step of sending a command.
#[derive(Clone, Copy, Debug, PartialEq, Eq, Structural)]
pub enum ControlEvent {
    /// Whether a stream runs.
    Streaming(bool),
    Wrote(WriteOutcome),
    /// The command was queued, and so many were taken out again.
    Queued(usize),
    Requeued,
}

/// What follows when so many commands are at hand.
pub open spec fn stranded_step(left: int) -> ControlStep {
    if left <= 0 {
        ControlStep::Queued
    } else {
        ControlStep::WriteStranded(left as usize)
    }
}

/// What follows a step of sending a command. A command whose write failed is not tried again: the
/// next one of its kind is due soon. What does not answer the step changes nothing.
pub open spec fn control_after(step: ControlStep, event: ControlEvent) -> ControlStep {
    match (step, event) {
        (ControlStep::Begin, ControlEvent::Streaming(streaming)) => if streaming {
            ControlStep::Queue
        } else {
            ControlStep::Write
        },
        (ControlStep::Write, ControlEvent::Wrote(outcome)) => match outcome {
            WriteOutcome::Written => ControlStep::Sent,
            WriteOutcome::Withheld => ControlStep::Queue,
            WriteOutcome::Failed => ControlStep::Failed,
        },
        (ControlStep::Queue, ControlEvent::Queued(stranded)) => stranded_step(stranded as int),
        (ControlStep::WriteStranded(left), ControlEvent::Wrote(outcome)) => match outcome {
            WriteOutcome::Withheld => ControlStep::Requeue(left),
            _ => stranded_step(left - 1),
        },
        (ControlStep::Requeue(left), ControlEvent::Requeued) => stranded_step(left - 1),
        _ => step,
    }
}

fn next_stranded(left: usize) -> (next: ControlStep)
    ensures
        next == stranded_step(left - 1),
{
    if left <= 1 {
        ControlStep::Queued
    } else {
        ControlStep::WriteStranded(left - 1)
    }
}

/// What follows a step of sending a command.
pub fn send_control(step: ControlStep, event: ControlEvent) -> (next: ControlStep)
    ensures
        next == control_after(step, event),
{
    match step {
        ControlStep::Begin => match event {
            ControlEvent::Streaming(true) => ControlStep::Queue,
            ControlEvent::Streaming(false) => ControlStep::Write,
            _ => step,
        },
        ControlStep::Write => match event {
            ControlEvent::Wrote(WriteOutcome::Written) => ControlStep::Sent,
            ControlEvent::Wrote(WriteOutcome::Withheld) => ControlStep::Queue,
            ControlEvent::Wrote(WriteOutcome::Failed) => ControlStep::Failed,
            _ => step,
        },
        ControlStep::Queue => match event {
            ControlEvent::Queued(0) => ControlStep::Queued,
            ControlEvent::Queued(stranded) => ControlStep::WriteStranded(stranded),
            _ => step,
        },
        ControlStep::WriteStranded(left) => match event {
            ControlEvent::Wrote(WriteOutcome::Withheld) => ControlStep::Requeue(left),
            ControlEvent::Wrote(_) => next_stranded(left),
            _ => step,
        },
        ControlStep::Requeue(left) => match event {
            ControlEvent::Requeued => next_stranded(left),
            _ => step,
        },
        ControlStep::Sent | ControlStep::Queued | ControlStep::Failed => step,
    }
}

/// Where sending a command is after these events.
pub open spec fn control_at(events: Seq<ControlEvent>) -> ControlStep
    decreases events.len(),
{
    if events.len() == 0 {
        ControlStep::Begin
    } else {
        control_after(control_at(events.drop_last()), events.last())
    }
}

/// How many commands have been taken out of the queue and neither put back nor written, nor failed
/// to be written.
pub open spec fn at_hand(events: Seq<ControlEvent>) -> int
    decreases events.len(),
{
    if events.len() == 0 {
        0
    } else {
        let before = at_hand(events.drop_last());
        match (control_at(events.drop_last()), events.last()) {
            (ControlStep::Queue, ControlEvent::Queued(stranded)) => before + stranded,
            (ControlStep::WriteStranded(_), ControlEvent::Wrote(WriteOutcome::Withheld)) => before,
            (ControlStep::WriteStranded(_), ControlEvent::Wrote(_)) => before - 1,
            (ControlStep::Requeue(_), ControlEvent::Requeued) => before - 1,
            _ => before,
        }
    }
}

proof fn lemma_at_hand(events: Seq<ControlEvent>)
    ensures
        match control_at(events) {
            ControlStep::WriteStranded(left) => left > 0 && at_hand(events) == left,
            ControlStep::Requeue(left) => left > 0 && at_hand(events) == left,
            _ => at_hand(events) == 0,
        },
    decreases events.len(),
{
    if events.len() > 0 {
        lemma_at_hand(events.drop_last());
    }
}

/// No command is left behind: when sending a command is over, well or not, each command that was
/// taken out of the queue was written, failed to be written, or waits in the queue again.
pub proof fn lemma_no_command_is_left_behind(events: Seq<ControlEvent>)
    requires
        control_at(events) is Sent || control_at(events) is Queued || control_at(events) is Failed,
    ensures
        at_hand(events) == 0,
{
    lemma_at_hand(events);
}

/// A command is put into the queue, for the first time or again, only right after a stream was
/// seen to run or its write was withheld.
pub proof fn lemma_only_withheld_commands_wait(step: ControlStep, event: ControlEvent)
    ensures
        control_after(step, event) is Queue && !(step is Queue) ==> event
            == ControlEvent::Streaming(true) || event == ControlEvent::Wrote(
            WriteOutcome::Withheld,
        ),
        control_after(step, event) is Requeue && !(step is Requeue) ==> event
            == ControlEvent::Wrote(WriteOutcome::Withheld),
        step is Queue && event is Queued ==> control_after(step, event) is Queued || control_after(
            step,
            event,
        ) is WriteStranded,
{
}

impl LcdLink {
    /// Puts a control command into the queue. Where no stream runs that would send it, the commands
    /// that may be sent during play are taken out again, to be written at once. Which commands were
    /// given up is read off them.
    pub fn queue_command(&mut self, command: PendingCmd) -> (stranded: Vec<PendingCmd>)
        ensures
            exists|queue: Seq<PendingCmd>| #[trigger]
                is_queued(old(self).pending@, command, queue) && if old(self).streaming {
                    stranded@.len() == 0 && final(self).pending@ == queue
                } else {
                    &&& stranded@ == queue.filter(|c: PendingCmd| c.play_safe)
                    &&& final(self).pending@ == queue.filter(|c: PendingCmd| !c.play_safe)
                },
            !old(self).streaming ==> forall|i: int|
                0 <= i < final(self).pending@.len() ==> !(
                #[trigger] final(self).pending@[i]).play_safe,
            *final(self) == (LcdLink { pending: final(self).pending, ..*old(self) }),
    {
        self.defer(command);
        if self.streaming {
            return Vec::new();
        }
        let ghost queue = self.pending@;
        assert(is_queued(old(self).pending@, command, queue));
        let stranded = self.take_play_safe();
        assert forall|i: int| 0 <= i < self.pending@.len() implies !(
        #[trigger] self.pending@[i]).play_safe by {
            queue.lemma_filter_pred(|c: PendingCmd| !c.play_safe, i);
        }
        stranded
    }
}

/// A command that may be sent during play, and that nobody can give up, is itself among the commands
/// that are taken out again, with the time since which one of its label has waited.
pub proof fn lemma_queued_command_is_taken_out(
    queue: Seq<PendingCmd>,
    command: PendingCmd,
    after: Seq<PendingCmd>,
)
    requires
        is_queued(queue, command, after),
        command.play_safe,
        command.ring_key is None,
        command.cancelled is None,
    ensures
        ({
            let stranded = after.filter(|c: PendingCmd| c.play_safe);
            stranded.len() > 0 && stranded.last() == (PendingCmd {
                queued_at: match labelled(queue, command.label@, 0) {
                    Some(i) => queue[i].queued_at,
                    None => command.queued_at,
                },
                ..command
            })
        }),
{
    let rest = without_label(queue, command.label@);
    assert(after =~= rest.push(after.last()));
    lemma_filter_push(rest, after.last(), |c: PendingCmd| c.play_safe);
}

/// The write of a command ends in one way for each thing that can come of it, and nothing but what
/// answers a step moves it.
pub proof fn lemma_control_write_steps_follow(
    step: ControlWrite,
    event: ControlWriteEvent,
    next: ControlWrite,
)
    requires
        call_ensures(write_control, (step, event), next),
    ensures
        next is Recover && !(step is Recover) <==> step is Gate && event == ControlWriteEvent::Gate(
            ControlGate::Recover,
        ),
        next is Check && !(step is Check) <==> (step is Gate && (event == ControlWriteEvent::Gate(
            ControlGate::Queue,
        ) || event == ControlWriteEvent::Gate(ControlGate::Write))) || (step is Recover && event
            == ControlWriteEvent::Recovered(true)),
        next is Write && !(step is Write) <==> step is Check && event == ControlWriteEvent::Checked(
            Ok(true),
        ),
        next == ControlWrite::Over(WriteOutcome::Written) && next != step <==> step is Write
            && event == ControlWriteEvent::Wrote(true),
        next == ControlWrite::Over(WriteOutcome::Withheld) && next != step <==> step is Check
            && event == ControlWriteEvent::Checked(Ok(false)),
        next == ControlWrite::Over(WriteOutcome::Failed) && next != step <==> (step is Gate && event
            == ControlWriteEvent::Gate(ControlGate::CoolingDown)) || (step is Recover && event
            == ControlWriteEvent::Recovered(false)) || (step is Check && (event matches
            ControlWriteEvent::Checked(allowed) && allowed is Err)) || (step is Write && event
            == ControlWriteEvent::Wrote(false)),
        next is Gate ==> step is Gate,
        step is Over ==> next == step,
{
}

/// A command is sent, queued or given up, for each thing that can come of it; and of the commands
/// that were taken out of the queue one after the other is written or put back, until none is
/// left.
pub proof fn lemma_control_steps_follow(step: ControlStep, event: ControlEvent, next: ControlStep)
    requires
        call_ensures(send_control, (step, event), next),
    ensures
        next is Write && !(step is Write) <==> step is Begin && event == ControlEvent::Streaming(
            false,
        ),
        next is Sent && !(step is Sent) <==> step is Write && event == ControlEvent::Wrote(
            WriteOutcome::Written,
        ),
        next is Failed && !(step is Failed) <==> step is Write && event == ControlEvent::Wrote(
            WriteOutcome::Failed,
        ),
        next is Queue && !(step is Queue) <==> (step is Begin && event == ControlEvent::Streaming(
            true,
        )) || (step is Write && event == ControlEvent::Wrote(WriteOutcome::Withheld)),
        step is Queue && (event matches ControlEvent::Queued(stranded)) ==> next == (
        if event->Queued_0 == 0 {
            ControlStep::Queued
        } else {
            ControlStep::WriteStranded(event->Queued_0)
        }),
        step matches ControlStep::WriteStranded(left) && event == ControlEvent::Wrote(
            WriteOutcome::Withheld,
        ) ==> next == ControlStep::Requeue(step->WriteStranded_0),
        (step matches ControlStep::WriteStranded(left) && left > 1 && event is Wrote && event
            != ControlEvent::Wrote(WriteOutcome::Withheld)) ==> next == ControlStep::WriteStranded(
            (step->WriteStranded_0 - 1) as usize,
        ),
        (step == ControlStep::WriteStranded(1) && event is Wrote && event != ControlEvent::Wrote(
            WriteOutcome::Withheld,
        )) ==> next is Queued,
        (step matches ControlStep::Requeue(left) && left > 1 && event is Requeued) ==> next
            == ControlStep::WriteStranded((step->Requeue_0 - 1) as usize),
        step == ControlStep::Requeue(1) && event is Requeued ==> next is Queued,
        step is Sent || step is Queued || step is Failed ==> next == step,
{
}

/// A command of a new label, which nobody can give up, waits for the stream while one runs.
/// Without a stream it is handed out at once if it may be sent during play, and waits if not; and
/// no command that may be sent during play is left behind.
pub proof fn lemma_commands_wait_for_a_stream_only(command: PendingCmd)
    requires
        command.cancelled is None,
    ensures
        forall|link: &mut LcdLink, stranded: Vec<PendingCmd>| #[trigger]
            call_ensures(LcdLink::queue_command, (link, command), stranded) && (forall|i: int|
                0 <= i < link.pending@.len() ==> (#[trigger] link.pending@[i]).label@
                    != command.label@) ==> {
                let after = final(link).pending@;
                &&& link.streaming ==> stranded@.len() == 0 && after == link.pending@.push(command)
                &&& !link.streaming ==> {
                    &&& stranded@.len() + after.len() == link.pending@.len() + 1
                    &&& command.play_safe ==> stranded@.contains(command)
                    &&& !command.play_safe ==> after.contains(command)
                }
                &&& final(link).ring == link.ring
                &&& final(link).streaming == link.streaming
            },
{
    assert forall|link: &mut LcdLink, stranded: Vec<PendingCmd>| #[trigger]
        call_ensures(LcdLink::queue_command, (link, command), stranded) && (forall|i: int|
            0 <= i < link.pending@.len() ==> (#[trigger] link.pending@[i]).label@
                != command.label@) implies {
        let after = final(link).pending@;
        &&& link.streaming ==> stranded@.len() == 0 && after == link.pending@.push(command)
        &&& !link.streaming ==> {
            &&& stranded@.len() + after.len() == link.pending@.len() + 1
            &&& command.play_safe ==> stranded@.contains(command)
            &&& !command.play_safe ==> after.contains(command)
        }
    } by {
        let queue = choose|queue: Seq<PendingCmd>| #[trigger]
            is_queued(link.pending@, command, queue) && if link.streaming {
                stranded@.len() == 0 && final(link).pending@ == queue
            } else {
                &&& stranded@ == queue.filter(|c: PendingCmd| c.play_safe)
                &&& final(link).pending@ == queue.filter(|c: PendingCmd| !c.play_safe)
            };
        crate::pending::lemma_new_labels_are_added(link.pending@, command, queue);
        let last = queue.len() - 1;
        assert(queue[last] == command);
        crate::pending::lemma_parts_make_up_the_queue(queue, last);
    }
}

} // verus!
