//! The course of writes and streams to a panel, step by step.
use vstd::prelude::*;

use crate::lcd_core::PanelState;

verus! {

/// A step of a write that is tried once more after a recovery.
#[derive(Clone, Copy, Debug, PartialEq, Eq, Structural)]
pub enum WriteStep {
    /// Write.
    First,
    /// Recover the panel.
    Recover,
    /// Write once more.
    Second,
    Written,
    GivenUp,
}

/// What follows a step of a write that succeeded or not.
pub open spec fn write_after(step: WriteStep, ok: bool) -> WriteStep {
    match step {
        WriteStep::First => if ok {
            WriteStep::Written
        } else {
            WriteStep::Recover
        },
        WriteStep::Recover => if ok {
            WriteStep::Second
        } else {
            WriteStep::GivenUp
        },
        WriteStep::Second => if ok {
            WriteStep::Written
        } else {
            WriteStep::GivenUp
        },
        WriteStep::Written => WriteStep::Written,
        WriteStep::GivenUp => WriteStep::GivenUp,
    }
}

impl PanelState {
    /// Takes note of how a step of a write went, and says what follows. A write that succeeds
    /// ends the series of failures.
    pub fn write_step(&mut self, step: WriteStep, ok: bool) -> (next: WriteStep)
        ensures
            next == write_after(step, ok),
            *final(self) == if ok && (step is First || step is Second) {
                PanelState { consecutive_failures: 0, ..*old(self) }
            } else {
                *old(self)
            },
    {
        match step {
            WriteStep::First | WriteStep::Second => {
                if ok {
                    self.note_write_success();
                    WriteStep::Written
                } else if step == WriteStep::First {
                    WriteStep::Recover
                } else {
                    WriteStep::GivenUp
                }
            },
            WriteStep::Recover => if ok {
                WriteStep::Second
            } else {
                WriteStep::GivenUp
            },
            _ => step,
        }
    }
}

/// How the steps of a write went, one after the other.
pub open spec fn write_at(results: Seq<bool>) -> WriteStep
    decreases results.len(),
{
    if results.len() == 0 {
        WriteStep::First
    } else {
        write_after(write_at(results.drop_last()), results.last())
    }
}

/// A write is tried at most twice, with a recovery in between: after three steps it is over.
pub proof fn lemma_writes_end(results: Seq<bool>)
    ensures
        results.len() >= 3 ==> write_at(results) is Written || write_at(results) is GivenUp,
        results.len() == 2 ==> !(write_at(results) is First || write_at(results) is Recover),
        results.len() == 1 ==> !(write_at(results) is First || write_at(results) is Second),
    decreases results.len(),
{
    if results.len() > 0 {
        lemma_writes_end(results.drop_last());
    }
}

/// A step of stopping the panel for ring uploads.
#[derive(Clone, Copy, Debug, PartialEq, Eq, Structural)]
pub enum ReinitStep {
    /// Nothing was done yet.
    Begin,
    StopPlayback,
    /// Take the uploads out of the queue.
    TakeUploads,
    StopClock,
    /// Run the cycle.
    Push,
    /// Put the uploads back into the queue.
    Requeue,
    /// Put the uploads back into the queue; the cycle failed.
    RequeueFailed,
    /// Initialise the panel.
    Init,
    /// Set the frame rate of the stream again.
    RestoreRate,
    Done,
    Failed,
}

/// How a step went.
#[derive(Clone, Copy, Debug, PartialEq, Eq, Structural)]
pub struct ReinitResult {
    pub ok: bool,
    /// The cycle reported that all uploads are shown.
    pub shown: bool,
    /// The panel has not recovered from an earlier upload.
    pub recovering: bool,
    /// The stream has a frame rate of its own.
    pub has_rate: bool,
}

/// What follows a step. A panel that has not recovered is not told to stop; uploads that are not
/// shown are put back; and the frame rate is restored, because the initialisation reset it.
pub open spec fn reinit_after(step: ReinitStep, result: ReinitResult) -> ReinitStep {
    match step {
        ReinitStep::Begin => if result.recovering {
            ReinitStep::TakeUploads
        } else {
            ReinitStep::StopPlayback
        },
        ReinitStep::StopPlayback => if result.ok {
            ReinitStep::TakeUploads
        } else {
            ReinitStep::Failed
        },
        ReinitStep::TakeUploads => if result.recovering {
            ReinitStep::Push
        } else {
            ReinitStep::StopClock
        },
        ReinitStep::StopClock => ReinitStep::Push,
        ReinitStep::Push => if !result.ok {
            ReinitStep::RequeueFailed
        } else if !result.shown {
            ReinitStep::Requeue
        } else {
            ReinitStep::Init
        },
        ReinitStep::Requeue => ReinitStep::Init,
        ReinitStep::RequeueFailed => ReinitStep::Failed,
        ReinitStep::Init => if !result.ok {
            ReinitStep::Failed
        } else if result.has_rate {
            ReinitStep::RestoreRate
        } else {
            ReinitStep::Done
        },
        ReinitStep::RestoreRate => ReinitStep::Done,
        ReinitStep::Done => ReinitStep::Done,
        ReinitStep::Failed => ReinitStep::Failed,
    }
}

/// What follows a step of stopping the panel for ring uploads.
pub fn reinit_and_flush_unsafe(step: ReinitStep, result: ReinitResult) -> (next: ReinitStep)
    ensures
        next == reinit_after(step, result),
{
    let fails = match step {
        ReinitStep::StopPlayback | ReinitStep::Init => !result.ok,
        ReinitStep::RequeueFailed | ReinitStep::Failed => true,
        _ => false,
    };
    if fails {
        return ReinitStep::Failed;
    }
    match step {
        ReinitStep::Begin => if result.recovering {
            ReinitStep::TakeUploads
        } else {
            ReinitStep::StopPlayback
        },
        ReinitStep::StopPlayback => ReinitStep::TakeUploads,
        ReinitStep::TakeUploads => if result.recovering {
            ReinitStep::Push
        } else {
            ReinitStep::StopClock
        },
        ReinitStep::StopClock => ReinitStep::Push,
        ReinitStep::Push => if !result.ok {
            ReinitStep::RequeueFailed
        } else if !result.shown {
            ReinitStep::Requeue
        } else {
            ReinitStep::Init
        },
        ReinitStep::Requeue => ReinitStep::Init,
        ReinitStep::Init => if result.has_rate {
            ReinitStep::RestoreRate
        } else {
            ReinitStep::Done
        },
        _ => ReinitStep::Done,
    }
}

/// Where stopping the panel is after these step results.
pub open spec fn reinit_at(results: Seq<ReinitResult>) -> ReinitStep
    decreases results.len(),
{
    if results.len() == 0 {
        ReinitStep::Begin
    } else {
        reinit_after(reinit_at(results.drop_last()), results.last())
    }
}

/// The uploads have been taken out of the queue and were not put back, nor are they shown.
pub open spec fn holds_uploads(results: Seq<ReinitResult>) -> bool
    decreases results.len(),
{
    if results.len() == 0 {
        false
    } else {
        let step = reinit_at(results.drop_last());
        if step is TakeUploads {
            true
        } else if step is Requeue || step is RequeueFailed {
            false
        } else if step is Push && results.last().ok && results.last().shown {
            false
        } else {
            holds_uploads(results.drop_last())
        }
    }
}

proof fn lemma_where_uploads_are(results: Seq<ReinitResult>)
    ensures
        holds_uploads(results) ==> reinit_at(results) is StopClock || reinit_at(results) is Push
            || reinit_at(results) is Requeue || reinit_at(results) is RequeueFailed,
    decreases results.len(),
{
    if results.len() > 0 {
        lemma_where_uploads_are(results.drop_last());
    }
}

/// No upload is lost: when stopping the panel for uploads is over, well or not, each of them is
/// shown or waits in the queue again.
pub proof fn lemma_no_upload_is_lost(results: Seq<ReinitResult>)
    requires
        reinit_at(results) is Done || reinit_at(results) is Failed,
    ensures
        !holds_uploads(results),
{
    lemma_where_uploads_are(results);
}

/// A step of a stream.
#[derive(Clone, Copy, Debug, PartialEq, Eq, Structural)]
pub enum StreamStep {
    /// See whether the stream is to end.
    Check,
    /// Read a chunk.
    Read,
    /// See once more whether the stream is to end.
    Recheck,
    /// Send the chunk.
    Send,
    /// Stop the panel for ring uploads, if any wait.
    Hold,
    /// Start again from the beginning.
    Restart,
    /// Wait for the time of the next chunk.
    Pace,
    Over,
    Failed,
}

/// What came of a step.
#[derive(Clone, Copy, Debug, PartialEq, Eq, Structural)]
pub enum StreamEvent {
    /// Whether the stream is to end.
    Stopping(bool),
    /// Whether there was a chunk.
    Chunk(bool),
    Sent,
    /// Whether the panel was stopped.
    Held(bool),
    Restarted,
    Paced,
    Failed,
}

/// What follows a step. After the panel was stopped, a file starts from its first frame rather
/// than somewhere between two; a live stream goes on, and is not paced.
pub open spec fn stream_after(step: StreamStep, event: StreamEvent, live: bool) -> StreamStep {
    match (step, event) {
        (StreamStep::Check, StreamEvent::Stopping(stopping)) => if stopping {
            StreamStep::Over
        } else {
            StreamStep::Read
        },
        (StreamStep::Read, StreamEvent::Chunk(found)) => if found {
            StreamStep::Recheck
        } else {
            StreamStep::Over
        },
        (StreamStep::Recheck, StreamEvent::Stopping(stopping)) => if stopping {
            StreamStep::Over
        } else {
            StreamStep::Send
        },
        (StreamStep::Send, StreamEvent::Sent) => StreamStep::Hold,
        (StreamStep::Hold, StreamEvent::Held(held)) => if live {
            StreamStep::Check
        } else if held {
            StreamStep::Restart
        } else {
            StreamStep::Pace
        },
        (StreamStep::Restart, StreamEvent::Restarted) => StreamStep::Check,
        (StreamStep::Pace, StreamEvent::Paced) => StreamStep::Check,
        (StreamStep::Over, _) => StreamStep::Over,
        _ => StreamStep::Failed,
    }
}

/// What follows a step of a stream; `live` says whether it is fed by an encoder rather than a
/// file.
pub fn stream_h264(step: StreamStep, event: StreamEvent, live: bool) -> (next: StreamStep)
    ensures
        next == stream_after(step, event, live),
{
    match step {
        StreamStep::Check | StreamStep::Recheck => match event {
            StreamEvent::Stopping(stopping) => if stopping {
                StreamStep::Over
            } else if step == StreamStep::Check {
                StreamStep::Read
            } else {
                StreamStep::Send
            },
            _ => StreamStep::Failed,
        },
        StreamStep::Read => match event {
            StreamEvent::Chunk(found) => if found {
                StreamStep::Recheck
            } else {
                StreamStep::Over
            },
            _ => StreamStep::Failed,
        },
        StreamStep::Send => if event == StreamEvent::Sent {
            StreamStep::Hold
        } else {
            StreamStep::Failed
        },
        StreamStep::Hold => match event {
            StreamEvent::Held(held) => if live {
                StreamStep::Check
            } else if held {
                StreamStep::Restart
            } else {
                StreamStep::Pace
            },
            _ => StreamStep::Failed,
        },
        StreamStep::Restart => if event == StreamEvent::Restarted {
            StreamStep::Check
        } else {
            StreamStep::Failed
        },
        StreamStep::Pace => if event == StreamEvent::Paced {
            StreamStep::Check
        } else {
            StreamStep::Failed
        },
        StreamStep::Over => StreamStep::Over,
        StreamStep::Failed => StreamStep::Failed,
    }
}

/// A chunk is sent only right after it was seen that the stream is not to end, and between two
/// chunks the ring uploads get their turn.
pub proof fn lemma_no_chunk_after_the_end(
    step: StreamStep,
    first: StreamEvent,
    second: StreamEvent,
    live: bool,
)
    ensures
        stream_after(step, first, live) is Send <==> step is Recheck && first
            == StreamEvent::Stopping(false),
        step is Send && !(stream_after(step, first, live) is Failed) ==> stream_after(
            step,
            first,
            live,
        ) is Hold,
        stream_after(step, first, live) is Over ==> stream_after(
            stream_after(step, first, live),
            second,
            live,
        ) is Over,
{
}

/// A write is tried first as it is, and a second time only after a recovery that succeeded; it
/// ends well only with a write that succeeded, and any such write ends the series of failures.
pub proof fn lemma_write_steps_follow(step: WriteStep, ok: bool)
    ensures
        forall|panel: &mut PanelState, next: WriteStep| #[trigger]
            call_ensures(PanelState::write_step, (panel, step, ok), next) ==> {
                &&& next is Written && !(step is Written) <==> ok && (step is First
                    || step is Second)
                &&& next is Recover && !(step is Recover) <==> step is First && !ok
                &&& next is Second && !(step is Second) <==> step is Recover && ok
                &&& next is GivenUp && !(step is GivenUp) <==> !ok && (step is Recover
                    || step is Second)
                &&& !(next is First)
                &&& final(panel).consecutive_failures == if ok && (step is First || step is Second) {
                    0
                } else {
                    panel.consecutive_failures
                }
                &&& final(panel).initialized == panel.initialized
                &&& final(panel).device_gone == panel.device_gone
                &&& final(panel).firmware == panel.firmware
            },
{
}

/// Stopping the panel for ring uploads goes through its steps in one order only: playback is
/// stopped, the uploads are taken out, the clock is stopped, the cycle runs, uploads that are not
/// shown are put back, the panel is initialised, and the frame rate is restored. A panel that has
/// not recovered is not told to stop. It ends well only after the initialisation did.
pub proof fn lemma_reinit_steps_follow(step: ReinitStep, result: ReinitResult, next: ReinitStep)
    requires
        call_ensures(reinit_and_flush_unsafe, (step, result), next),
    ensures
        next is StopPlayback <==> step is Begin && !result.recovering,
        next is TakeUploads <==> step is Begin && result.recovering || step is StopPlayback
            && result.ok,
        next is StopClock <==> step is TakeUploads && !result.recovering,
        next is Push <==> step is StopClock || step is TakeUploads && result.recovering,
        next is RequeueFailed <==> step is Push && !result.ok,
        next is Requeue <==> step is Push && result.ok && !result.shown,
        next is Init <==> step is Requeue || step is Push && result.ok && result.shown,
        next is RestoreRate <==> step is Init && result.ok && result.has_rate,
        next is Done <==> step is Done || step is RestoreRate || step is Init && result.ok
            && !result.has_rate,
        next is Failed <==> step is Failed || step is RequeueFailed || !result.ok && (
        step is StopPlayback || step is Init),
        !(next is Begin),
{
}

/// A stream is over only right after it was seen that it is to end, or a read found no chunk. Each
/// chunk is read, looked at once more and sent, and after each the ring uploads get their turn. A
/// live stream then goes on, whether the panel was stopped or not; a file starts again after a stop
/// and is paced otherwise.
pub proof fn lemma_stream_steps_follow(
    step: StreamStep,
    event: StreamEvent,
    live: bool,
    next: StreamStep,
)
    requires
        call_ensures(stream_h264, (step, event, live), next),
    ensures
        next is Over && !(step is Over) <==> ((step is Check || step is Recheck) && event
            == StreamEvent::Stopping(true)) || (step is Read && event == StreamEvent::Chunk(false)),
        next is Read <==> step is Check && event == StreamEvent::Stopping(false),
        next is Recheck <==> step is Read && event == StreamEvent::Chunk(true),
        next is Send <==> step is Recheck && event == StreamEvent::Stopping(false),
        next is Hold <==> step is Send && event is Sent,
        next is Restart <==> step is Hold && event == StreamEvent::Held(true) && !live,
        next is Pace <==> step is Hold && event == StreamEvent::Held(false) && !live,
        next is Check <==> (step is Hold && event is Held && live) || (step is Restart
            && event is Restarted) || (step is Pace && event is Paced),
        step is Over ==> next is Over,
        step is Failed ==> next is Failed,
        event is Failed && !(step is Over) ==> next is Failed,
{
}

/// Where a stream is after these events.
pub open spec fn stream_at(events: Seq<StreamEvent>, live: bool) -> StreamStep
    decreases events.len(),
{
    if events.len() == 0 {
        StreamStep::Check
    } else {
        stream_after(stream_at(events.drop_last(), live), events.last(), live)
    }
}

/// A stream that nobody ends, and whose reads all find a chunk, is never over.
pub proof fn lemma_stream_goes_on(events: Seq<StreamEvent>, live: bool)
    requires
        forall|i: int|
            0 <= i < events.len() ==> (#[trigger] events[i]) != StreamEvent::Stopping(true)
                && events[i] != StreamEvent::Chunk(false),
    ensures
        !(stream_at(events, live) is Over),
    decreases events.len(),
{
    if events.len() > 0 {
        let before = events.drop_last();
        assert forall|i: int| 0 <= i < before.len() implies (#[trigger] before[i])
            != StreamEvent::Stopping(true) && before[i] != StreamEvent::Chunk(false) by {
            assert(before[i] == events[i]);
        }
        lemma_stream_goes_on(before, live);
        assert(events[events.len() - 1] == events.last());
    }
}

} // verus!
