//! The upload of ring colours.
//!
//! After such an upload the panel goes silent until its handle is closed and opened again. The
//! whole cycle therefore runs as one transaction under a deadline: stop the panel, write the
//! upload, open the handle again, and ask for the firmware version until the panel answers.
use vstd::prelude::*;
use vstd::string::*;

use crate::lcd_link::{LcdLink, RingView};
use crate::pending::{cancelled_flags, copy_key, key_of, read_off, readable, same_key, PendingCmd};

verus! {

/// How long a cycle may take, in nanoseconds.
pub const RING_TRANSACTION_BUDGET: u64 = 3_000_000_000;

/// How long the commands that stop the panel wait for their replies, in nanoseconds.
pub const WAKE_REPLY_WAIT: u64 = 100_000_000;

/// How long the handle stays closed, in nanoseconds.
pub const REOPEN_DELAY: u64 = 100_000_000;

/// The pause between two questions to the panel, in nanoseconds.
pub const PANEL_POLL_GAP: u64 = 250_000_000;

/// How long a question waits for its answer, in nanoseconds.
pub const PANEL_POLL_READ: u64 = 500_000_000;

/// The deadline of a transaction has passed.
#[derive(Clone, Copy, Debug, PartialEq, Eq, Structural)]
pub struct DeadlineExpired;

/// The time left until the deadline, at most `maximum`; none once it has passed.
pub open spec fn time_left(deadline: u64, now: u64, maximum: u64) -> Option<u64> {
    if deadline <= now {
        None
    } else if deadline - now < maximum {
        Some((deadline - now) as u64)
    } else {
        Some(maximum)
    }
}

/// The time left until the deadline, at most `maximum`.
pub fn remaining_timeout(deadline: u64, now: u64, maximum: u64) -> (timeout: Result<
    u64,
    DeadlineExpired,
>)
    ensures
        timeout == match time_left(deadline, now, maximum) {
            Some(time) => Ok::<u64, DeadlineExpired>(time),
            None => Err(DeadlineExpired),
        },
{
    if deadline <= now {
        Err(DeadlineExpired)
    } else if deadline - now < maximum {
        Ok(deadline - now)
    } else {
        Ok(maximum)
    }
}

/// Where a cycle is.
#[derive(Clone, Copy, Debug, PartialEq, Eq, Structural)]
pub enum CyclePhase {
    /// A command that stops the panel is being written.
    WritingPreamble(usize),
    ReadingPreamble(usize),
    /// An upload is being written.
    WritingCommand(usize),
    ReadingCommand(usize),
    /// The handle is being closed.
    Releasing,
    /// The handle is being opened again.
    Reopening,
    /// The panel is being asked whether it is back.
    WritingQuery,
    ReadingQuery,
    /// The next question waits.
    Waiting,
    Over,
}

/// A cycle. Times are in nanoseconds.
#[derive(Clone, Copy, Debug, PartialEq, Eq, Structural)]
pub struct PushCycle {
    pub phase: CyclePhase,
    pub deadline: u64,
    pub write_timeout: u64,
    /// How many commands stop the panel.
    pub preamble: usize,
    /// The handle can be opened again.
    pub reopenable: bool,
    /// An upload could not be written completely.
    pub write_error: bool,
}

/// Why a cycle ended without a result.
#[derive(Clone, Copy, Debug, PartialEq, Eq, Structural)]
pub enum CycleError {
    /// The link could not be had in time, so that no cycle began.
    Busy,
    StorageInterrupted,
    ShuttingDown,
    /// Time ran out before the upload.
    Deadline,
    /// The panel could not be stopped.
    Preamble,
    /// An upload without a payload.
    MissingKey,
    /// The panel did not come back.
    NotRecovered,
    /// The upload was not written completely, but the panel is back.
    WriteIncomplete,
}

/// What is to be done next.
#[derive(Clone, Copy, Debug, PartialEq, Eq, Structural)]
pub enum CycleAction {
    WritePreamble { index: usize, timeout: u64 },
    WriteCommand { index: usize, timeout: u64 },
    /// Read a reply and discard it.
    ReadReply { timeout: u64 },
    /// Close the handle.
    Release,
    /// Wait, then open the handle again.
    Reopen { delay: u64 },
    /// Ask for the firmware version.
    WriteQuery { timeout: u64 },
    ReadQuery { timeout: u64 },
    Sleep { time: u64 },
    /// The cycle is over: whether all uploads are shown.
    Done(bool),
    Fail(CycleError),
}

/// What came of an action.
#[derive(Clone, Copy, Debug, PartialEq, Eq, Structural)]
pub enum CycleEvent {
    Wrote(bool),
    /// A reply was read, or none came.
    Read,
    Released,
    Reopened(bool),
    /// The panel answered the question: with a complete firmware version or not.
    Answered(bool),
    Slept,
}

/// The cycle, what it did to the link, and what is to be done next.
pub struct CycleState {
    pub cycle: PushCycle,
    pub ring: RingView,
    pub needs_init: bool,
    /// What was negotiated with the panel no longer holds.
    pub reopened: bool,
    pub action: CycleAction,
}

/// The cycle goes on with a timed action, or ends with an error once its deadline has passed.
pub open spec fn timed(
    state: CycleState,
    now: u64,
    maximum: u64,
    phase: CyclePhase,
    act: spec_fn(u64) -> CycleAction,
    error: CycleError,
) -> CycleState {
    match time_left(state.cycle.deadline, now, maximum) {
        Some(time) => CycleState {
            cycle: PushCycle { phase, ..state.cycle },
            action: act(time),
            ..state
        },
        None => ended(state, CycleAction::Fail(error)),
    }
}

/// The cycle ends.
pub open spec fn ended(state: CycleState, action: CycleAction) -> CycleState {
    CycleState { cycle: PushCycle { phase: CyclePhase::Over, ..state.cycle }, action, ..state }
}

/// The cycle turns to the commands that stop the panel, from `index` on.
pub open spec fn to_preamble(
    state: CycleState,
    commands: Seq<PendingCmd>,
    cancelled: bool,
    index: int,
    now: u64,
) -> CycleState {
    if index < state.cycle.preamble {
        timed(
            state,
            now,
            state.cycle.write_timeout,
            CyclePhase::WritingPreamble(index as usize),
            |timeout: u64| CycleAction::WritePreamble { index: index as usize, timeout },
            CycleError::Deadline,
        )
    } else {
        to_command(state, commands, cancelled, 0, now)
    }
}

/// The cycle turns to the uploads, from `index` on. An upload that was given up ends it.
pub open spec fn to_command(
    state: CycleState,
    commands: Seq<PendingCmd>,
    cancelled: bool,
    index: int,
    now: u64,
) -> CycleState {
    if index >= commands.len() {
        to_release(state)
    } else if cancelled {
        ended(state, CycleAction::Done(false))
    } else {
        match key_of(commands[index].ring_key) {
            None => ended(state, CycleAction::Fail(CycleError::MissingKey)),
            Some(key) => match time_left(state.cycle.deadline, now, state.cycle.write_timeout) {
                None => ended(state, CycleAction::Fail(CycleError::Deadline)),
                Some(timeout) => CycleState {
                    cycle: PushCycle {
                        phase: CyclePhase::WritingCommand(index as usize),
                        ..state.cycle
                    },
                    ring: state.ring.begun(key),
                    action: CycleAction::WriteCommand { index: index as usize, timeout },
                    ..state
                },
            },
        }
    }
}

/// The cycle turns to opening the handle again. The panel must be initialised afterwards.
pub open spec fn to_release(state: CycleState) -> CycleState {
    let marked = CycleState { needs_init: true, ..state };
    if state.cycle.reopenable {
        CycleState {
            cycle: PushCycle { phase: CyclePhase::Releasing, ..state.cycle },
            action: CycleAction::Release,
            ..marked
        }
    } else {
        ended(marked, CycleAction::Fail(CycleError::NotRecovered))
    }
}

/// The cycle turns to asking the panel whether it is back.
pub open spec fn to_query(state: CycleState, now: u64) -> CycleState {
    timed(
        state,
        now,
        state.cycle.write_timeout,
        CyclePhase::WritingQuery,
        |timeout: u64| CycleAction::WriteQuery { timeout },
        CycleError::NotRecovered,
    )
}

/// All uploads are shown.
pub open spec fn all_applied(commands: Seq<PendingCmd>, applied: Option<(Seq<u8>, u8)>) -> bool {
    forall|i: int|
        0 <= i < commands.len() ==> key_of((#[trigger] commands[i]).ring_key) == applied
}

/// The panel is back: the cycle ends.
pub open spec fn to_end(state: CycleState, commands: Seq<PendingCmd>) -> CycleState {
    let back = CycleState { ring: state.ring.recovered(), ..state };
    if state.cycle.write_error {
        ended(back, CycleAction::Fail(CycleError::WriteIncomplete))
    } else {
        ended(back, CycleAction::Done(all_applied(commands, back.ring.applied)))
    }
}

/// The cycle after an event. `cancelled` says whether the upload that would be written next was
/// given up.
pub open spec fn cycle_after(
    state: CycleState,
    commands: Seq<PendingCmd>,
    event: CycleEvent,
    cancelled: bool,
    now: u64,
) -> CycleState {
    match (state.cycle.phase, event) {
        (CyclePhase::WritingPreamble(index), CycleEvent::Wrote(ok)) => if ok {
            timed(
                state,
                now,
                WAKE_REPLY_WAIT,
                CyclePhase::ReadingPreamble(index),
                |timeout: u64| CycleAction::ReadReply { timeout },
                CycleError::Deadline,
            )
        } else {
            ended(state, CycleAction::Fail(CycleError::Preamble))
        },
        (CyclePhase::ReadingPreamble(index), CycleEvent::Read) => to_preamble(
            state,
            commands,
            cancelled,
            index + 1,
            now,
        ),
        (CyclePhase::WritingCommand(index), CycleEvent::Wrote(ok)) => if ok {
            let written = CycleState { ring: state.ring.written(), ..state };
            match time_left(state.cycle.deadline, now, commands[index as int].reply_wait) {
                Some(timeout) => CycleState {
                    cycle: PushCycle { phase: CyclePhase::ReadingCommand(index), ..state.cycle },
                    action: CycleAction::ReadReply { timeout },
                    ..written
                },
                None => to_command(written, commands, cancelled, index + 1, now),
            }
        } else {
            to_release(
                CycleState { cycle: PushCycle { write_error: true, ..state.cycle }, ..state },
            )
        },
        (CyclePhase::ReadingCommand(index), CycleEvent::Read) => to_command(
            state,
            commands,
            cancelled,
            index + 1,
            now,
        ),
        (CyclePhase::Releasing, CycleEvent::Released) => timed(
            state,
            now,
            REOPEN_DELAY,
            CyclePhase::Reopening,
            |delay: u64| CycleAction::Reopen { delay },
            CycleError::NotRecovered,
        ),
        (CyclePhase::Reopening, CycleEvent::Reopened(ok)) => if ok {
            to_query(CycleState { reopened: true, ..state }, now)
        } else {
            ended(state, CycleAction::Fail(CycleError::NotRecovered))
        },
        (CyclePhase::WritingQuery, CycleEvent::Wrote(ok)) => if ok {
            timed(
                state,
                now,
                PANEL_POLL_READ,
                CyclePhase::ReadingQuery,
                |timeout: u64| CycleAction::ReadQuery { timeout },
                CycleError::NotRecovered,
            )
        } else {
            ended(state, CycleAction::Fail(CycleError::NotRecovered))
        },
        (CyclePhase::ReadingQuery, CycleEvent::Answered(valid)) => if valid {
            to_end(state, commands)
        } else {
            timed(
                state,
                now,
                PANEL_POLL_GAP,
                CyclePhase::Waiting,
                |time: u64| CycleAction::Sleep { time },
                CycleError::NotRecovered,
            )
        },
        (CyclePhase::Waiting, CycleEvent::Slept) => to_query(state, now),
        _ => ended(state, CycleAction::Fail(CycleError::NotRecovered)),
    }
}

/// The start of a cycle on a link.
pub open spec fn started(link: LcdLink, cycle: PushCycle) -> CycleState {
    CycleState {
        cycle,
        ring: link.ring@,
        needs_init: link.needs_init,
        reopened: false,
        action: CycleAction::Done(false),
    }
}

/// The link after a step of a cycle.
pub open spec fn link_after(before: LcdLink, after: LcdLink, state: CycleState) -> bool {
    &&& after.ring@ == state.ring
    &&& after.needs_init == state.needs_init
    &&& if state.reopened {
        after.h264_chunk_size.negotiated() is None
    } else {
        after.h264_chunk_size == before.h264_chunk_size
    }
    &&& after == (LcdLink {
        ring: after.ring,
        needs_init: after.needs_init,
        h264_chunk_size: after.h264_chunk_size,
        ..before
    })
}

impl PushCycle {
    /// The positions that the cycle holds exist.
    pub open spec fn wf(self, commands: Seq<PendingCmd>) -> bool {
        match self.phase {
            CyclePhase::WritingPreamble(index) | CyclePhase::ReadingPreamble(index) => index
                < self.preamble,
            CyclePhase::WritingCommand(index) | CyclePhase::ReadingCommand(index) => index
                < commands.len(),
            _ => true,
        }
    }
}

fn over(cycle: PushCycle, action: CycleAction) -> (step: (PushCycle, CycleAction))
    ensures
        step.0 == (PushCycle { phase: CyclePhase::Over, ..cycle }),
        step.1 == action,
{
    let cycle = PushCycle { phase: CyclePhase::Over, ..cycle };
    (cycle, action)
}

/// Why a cycle does not start, if so: without an error when the uploads must wait.
pub open spec fn not_started(
    link: LcdLink,
    any_cancelled: bool,
    from_stream_thread: bool,
    shutting_down: bool,
) -> Option<Option<CycleError>> {
    if !from_stream_thread && link.streaming {
        Some(None)
    } else if link.storage_interrupted {
        Some(Some(CycleError::StorageInterrupted))
    } else if !link.recovering() && (link.software_cooling || any_cancelled) {
        Some(None)
    } else if shutting_down {
        Some(Some(CycleError::ShuttingDown))
    } else {
        None
    }
}

/// What a cycle that does not start comes to.
pub open spec fn refused_start(refusal: Option<CycleError>) -> Result<
    Option<(PushCycle, CycleAction)>,
    CycleError,
> {
    match refusal {
        Some(error) => Err(error),
        None => Ok(None),
    }
}

/// What a cycle that starts comes to.
pub open spec fn begun_start(state: CycleState) -> Result<
    Option<(PushCycle, CycleAction)>,
    CycleError,
> {
    Ok(Some((state.cycle, state.action)))
}

/// The first step of a cycle.
pub open spec fn first_step(
    link: LcdLink,
    preamble: usize,
    commands: Seq<PendingCmd>,
    cancelled: bool,
    write_timeout: u64,
    now: u64,
) -> CycleState {
    let first = started(
        link,
        PushCycle {
            phase: CyclePhase::Over,
            deadline: (now + RING_TRANSACTION_BUDGET) as u64,
            write_timeout,
            preamble,
            reopenable: link.reopenable,
            write_error: false,
        },
    );
    if link.recovering() {
        to_release(first)
    } else {
        to_preamble(first, commands, cancelled, 0, now)
    }
}

/// The upload that a cycle in this phase would write next.
pub open spec fn upcoming(phase: CyclePhase) -> int {
    match phase {
        CyclePhase::WritingCommand(index) | CyclePhase::ReadingCommand(index) => index + 1,
        _ => 0,
    }
}

/// The flag could have been read off the upload at `index`, and is not set where there is none.
pub open spec fn upload_read_off(commands: Seq<PendingCmd>, index: int, flag: bool) -> bool {
    if 0 <= index < commands.len() {
        read_off(commands[index], flag)
    } else {
        !flag
    }
}

/// Some flag is set.
pub open spec fn any_set(flags: Seq<bool>) -> bool {
    exists|i: int| 0 <= i < flags.len() && #[trigger] flags[i]
}

fn some_set(flags: &Vec<bool>) -> (some: bool)
    ensures
        some == any_set(flags@),
{
    let mut i: usize = 0;
    while i < flags.len()
        invariant
            i <= flags@.len(),
            forall|j: int| 0 <= j < i ==> !(#[trigger] flags@[j]),
        decreases flags@.len() - i,
    {
        if flags[i] {
            return true;
        }
        i += 1;
    }
    false
}

fn given_up(commands: &Vec<PendingCmd>, index: usize) -> (cancelled: bool)
    ensures
        upload_read_off(commands@, index as int, cancelled),
{
    if index < commands.len() {
        commands[index].is_cancelled()
    } else {
        false
    }
}

impl LcdLink {
    fn cycle_release(&mut self, cycle: PushCycle) -> (step: (PushCycle, CycleAction))
        ensures
            step.0 == to_release(started(*old(self), cycle)).cycle,
            step.1 == to_release(started(*old(self), cycle)).action,
            *final(self) == (LcdLink { needs_init: true, ..*old(self) }),
    {
        self.needs_init = true;
        if cycle.reopenable {
            let cycle = PushCycle { phase: CyclePhase::Releasing, ..cycle };
            (cycle, CycleAction::Release)
        } else {
            over(cycle, CycleAction::Fail(CycleError::NotRecovered))
        }
    }

    fn cycle_command(
        &mut self,
        cycle: PushCycle,
        commands: &Vec<PendingCmd>,
        cancelled: bool,
        index: usize,
        now: u64,
    ) -> (step: (PushCycle, CycleAction))
        ensures
            ({
                let after = to_command(
                    started(*old(self), cycle),
                    commands@,
                    cancelled,
                    index as int,
                    now,
                );
                &&& step.0 == after.cycle
                &&& step.1 == after.action
                &&& link_after(*old(self), *final(self), after)
                &&& step.0.wf(commands@)
            }),
    {
        if index >= commands.len() {
            return self.cycle_release(cycle);
        }
        if cancelled {
            return over(cycle, CycleAction::Done(false));
        }
        let key = match &commands[index].ring_key {
            Some(key) => copy_key(key),
            None => {
                return over(cycle, CycleAction::Fail(CycleError::MissingKey));
            },
        };
        match remaining_timeout(cycle.deadline, now, cycle.write_timeout) {
            Ok(timeout) => {
                self.ring.begin(key);
                let cycle = PushCycle { phase: CyclePhase::WritingCommand(index), ..cycle };
                (cycle, CycleAction::WriteCommand { index, timeout })
            },
            Err(_) => over(cycle, CycleAction::Fail(CycleError::Deadline)),
        }
    }

    fn cycle_preamble(
        &mut self,
        cycle: PushCycle,
        commands: &Vec<PendingCmd>,
        cancelled: bool,
        index: usize,
        now: u64,
    ) -> (step: (PushCycle, CycleAction))
        ensures
            ({
                let after = to_preamble(
                    started(*old(self), cycle),
                    commands@,
                    cancelled,
                    index as int,
                    now,
                );
                &&& step.0 == after.cycle
                &&& step.1 == after.action
                &&& link_after(*old(self), *final(self), after)
                &&& step.0.wf(commands@)
            }),
    {
        if index >= cycle.preamble {
            return self.cycle_command(cycle, commands, cancelled, 0, now);
        }
        match remaining_timeout(cycle.deadline, now, cycle.write_timeout) {
            Ok(timeout) => {
                let cycle = PushCycle { phase: CyclePhase::WritingPreamble(index), ..cycle };
                (cycle, CycleAction::WritePreamble { index, timeout })
            },
            Err(_) => over(cycle, CycleAction::Fail(CycleError::Deadline)),
        }
    }

    /// Starts a cycle, unless something stands against it. While the panel has not recovered
    /// from an earlier upload the cycle only recovers it, and writes nothing else.
    /// `any_cancelled` says whether one of the uploads was given up, `cancelled` whether the
    /// first was by now.
    pub fn start_cycle(
        &mut self,
        preamble: usize,
        commands: &Vec<PendingCmd>,
        any_cancelled: bool,
        cancelled: bool,
        write_timeout: u64,
        from_stream_thread: bool,
        shutting_down: bool,
        now: u64,
    ) -> (start: Result<Option<(PushCycle, CycleAction)>, CycleError>)
        requires
            now + RING_TRANSACTION_BUDGET <= u64::MAX,
        ensures
            match not_started(*old(self), any_cancelled, from_stream_thread, shutting_down) {
                Some(refusal) => start == refused_start(refusal) && *final(self) == *old(self),
                None => {
                    let held = LcdLink { last_hold: Some(now), ..*old(self) };
                    let after = first_step(held, preamble, commands@, cancelled, write_timeout, now);
                    &&& start == begun_start(after)
                    &&& link_after(held, *final(self), after)
                    &&& after.cycle.wf(commands@)
                },
            },
    {
        if !from_stream_thread && self.streaming {
            return Ok(None);
        }
        let recovering = self.ring_recovery_pending();
        if self.storage_interrupted {
            return Err(CycleError::StorageInterrupted);
        }
        if !recovering && (self.software_cooling || any_cancelled) {
            return Ok(None);
        }
        if shutting_down {
            return Err(CycleError::ShuttingDown);
        }
        self.last_hold = Some(now);
        let cycle = PushCycle {
            phase: CyclePhase::Over,
            deadline: now + RING_TRANSACTION_BUDGET,
            write_timeout,
            preamble,
            reopenable: self.reopenable,
            write_error: false,
        };
        let step = if recovering {
            self.cycle_release(cycle)
        } else {
            self.cycle_preamble(cycle, commands, cancelled, 0, now)
        };
        Ok(Some(step))
    }

    /// Starts a cycle, unless something stands against it. Which uploads were given up is read off
    /// them; the first one is read once more before it is written.
    pub fn push_and_recover(
        &mut self,
        preamble: usize,
        commands: &Vec<PendingCmd>,
        write_timeout: u64,
        from_stream_thread: bool,
        shutting_down: bool,
        now: u64,
    ) -> (start: Result<Option<(PushCycle, CycleAction)>, CycleError>)
        requires
            now + RING_TRANSACTION_BUDGET <= u64::MAX,
        ensures
            exists|flags: Seq<bool>, cancelled: bool|
                readable(commands@, flags) && #[trigger] upload_read_off(commands@, 0, cancelled)
                    && match not_started(
                    *old(self),
                    #[trigger] any_set(flags),
                    from_stream_thread,
                    shutting_down,
                ) {
                    Some(refusal) => start == refused_start(refusal) && *final(self) == *old(self),
                    None => {
                        let held = LcdLink { last_hold: Some(now), ..*old(self) };
                        let after = first_step(
                            held,
                            preamble,
                            commands@,
                            cancelled,
                            write_timeout,
                            now,
                        );
                        &&& start == begun_start(after)
                        &&& link_after(held, *final(self), after)
                        &&& after.cycle.wf(commands@)
                    },
                },
    {
        let flags = cancelled_flags(commands);
        let any_cancelled = some_set(&flags);
        let cancelled = given_up(commands, 0);
        proof {
            assert(any_set(flags@) == any_cancelled);
            assert(upload_read_off(commands@, 0, cancelled));
        }
        self.start_cycle(
            preamble,
            commands,
            any_cancelled,
            cancelled,
            write_timeout,
            from_stream_thread,
            shutting_down,
            now,
        )
    }

    /// Takes a cycle one step further. Whether the upload that would be written next was given up
    /// is read off it.
    pub fn cycle_next(
        &mut self,
        cycle: PushCycle,
        commands: &Vec<PendingCmd>,
        event: CycleEvent,
        now: u64,
    ) -> (step: (PushCycle, CycleAction))
        requires
            cycle.wf(commands@),
        ensures
            step.0.wf(commands@),
            exists|cancelled: bool|
                #[trigger] upload_read_off(commands@, upcoming(cycle.phase), cancelled) && {
                    let after = cycle_after(
                        started(*old(self), cycle),
                        commands@,
                        event,
                        cancelled,
                        now,
                    );
                    &&& step.0 == after.cycle
                    &&& step.1 == after.action
                    &&& link_after(*old(self), *final(self), after)
                },
    {
        let count: usize = commands.len();
        assert(count == commands@.len());
        let next: usize = match cycle.phase {
            CyclePhase::WritingCommand(index) | CyclePhase::ReadingCommand(index) => index + 1,
            _ => 0,
        };
        let cancelled = given_up(commands, next);
        assert(upload_read_off(commands@, upcoming(cycle.phase), cancelled));
        self.cycle_step(cycle, commands, event, cancelled, now)
    }

    /// Takes a cycle one step further. `cancelled` says whether the upload that would be written
    /// next was given up.
    pub fn cycle_step(
        &mut self,
        cycle: PushCycle,
        commands: &Vec<PendingCmd>,
        event: CycleEvent,
        cancelled: bool,
        now: u64,
    ) -> (step: (PushCycle, CycleAction))
        requires
            cycle.wf(commands@),
        ensures
            ({
                let after = cycle_after(
                    started(*old(self), cycle),
                    commands@,
                    event,
                    cancelled,
                    now,
                );
                &&& step.0 == after.cycle
                &&& step.1 == after.action
                &&& link_after(*old(self), *final(self), after)
                &&& step.0.wf(commands@)
            }),
    {
        let count: usize = commands.len();
        assert(count == commands@.len());
        let lost = CycleAction::Fail(CycleError::NotRecovered);
        match (cycle.phase, event) {
            (CyclePhase::WritingPreamble(index), CycleEvent::Wrote(ok)) => {
                if !ok {
                    return over(cycle, CycleAction::Fail(CycleError::Preamble));
                }
                match remaining_timeout(cycle.deadline, now, WAKE_REPLY_WAIT) {
                    Ok(timeout) => {
                        let cycle = PushCycle { phase: CyclePhase::ReadingPreamble(index), ..cycle };
                        (cycle, CycleAction::ReadReply { timeout })
                    },
                    Err(_) => over(cycle, CycleAction::Fail(CycleError::Deadline)),
                }
            },
            (CyclePhase::ReadingPreamble(index), CycleEvent::Read) => self.cycle_preamble(
                cycle,
                commands,
                cancelled,
                index + 1,
                now,
            ),
            (CyclePhase::WritingCommand(index), CycleEvent::Wrote(ok)) => {
                if !ok {
                    let cycle = PushCycle { write_error: true, ..cycle };
                    return self.cycle_release(cycle);
                }
                self.ring.written();
                match remaining_timeout(cycle.deadline, now, commands[index].reply_wait) {
                    Ok(timeout) => {
                        let cycle = PushCycle { phase: CyclePhase::ReadingCommand(index), ..cycle };
                        (cycle, CycleAction::ReadReply { timeout })
                    },
                    Err(_) => self.cycle_command(cycle, commands, cancelled, index + 1, now),
                }
            },
            (CyclePhase::ReadingCommand(index), CycleEvent::Read) => self.cycle_command(
                cycle,
                commands,
                cancelled,
                index + 1,
                now,
            ),
            (CyclePhase::Releasing, CycleEvent::Released) => match remaining_timeout(
                cycle.deadline,
                now,
                REOPEN_DELAY,
            ) {
                Ok(delay) => {
                    let cycle = PushCycle { phase: CyclePhase::Reopening, ..cycle };
                    (cycle, CycleAction::Reopen { delay })
                },
                Err(_) => over(cycle, lost),
            },
            (CyclePhase::Reopening, CycleEvent::Reopened(ok)) => {
                if !ok {
                    return over(cycle, lost);
                }
                self.reopened();
                query(cycle, now)
            },
            (CyclePhase::WritingQuery, CycleEvent::Wrote(ok)) => {
                if !ok {
                    return over(cycle, lost);
                }
                match remaining_timeout(cycle.deadline, now, PANEL_POLL_READ) {
                    Ok(timeout) => {
                        let cycle = PushCycle { phase: CyclePhase::ReadingQuery, ..cycle };
                        (cycle, CycleAction::ReadQuery { timeout })
                    },
                    Err(_) => over(cycle, lost),
                }
            },
            (CyclePhase::ReadingQuery, CycleEvent::Answered(valid)) => {
                if valid {
                    self.ring.recovered();
                    if cycle.write_error {
                        return over(cycle, CycleAction::Fail(CycleError::WriteIncomplete));
                    }
                    let shown = self.shows_all(commands);
                    return over(cycle, CycleAction::Done(shown));
                }
                match remaining_timeout(cycle.deadline, now, PANEL_POLL_GAP) {
                    Ok(time) => {
                        let cycle = PushCycle { phase: CyclePhase::Waiting, ..cycle };
                        (cycle, CycleAction::Sleep { time })
                    },
                    Err(_) => over(cycle, lost),
                }
            },
            (CyclePhase::Waiting, CycleEvent::Slept) => query(cycle, now),
            _ => over(cycle, lost),
        }
    }

    fn shows_all(&self, commands: &Vec<PendingCmd>) -> (shown: bool)
        ensures
            shown == all_applied(commands@, self.ring@.applied),
    {
        let mut i: usize = 0;
        while i < commands.len()
            invariant
                i <= commands@.len(),
                forall|j: int|
                    0 <= j < i ==> key_of((#[trigger] commands@[j]).ring_key)
                        == self.ring@.applied,
            decreases commands@.len() - i,
        {
            if !same_key(&commands[i].ring_key, &self.ring.applied) {
                return false;
            }
            i += 1;
        }
        true
    }
}

fn query(cycle: PushCycle, now: u64) -> (step: (PushCycle, CycleAction))
    ensures
        match time_left(cycle.deadline, now, cycle.write_timeout) {
            Some(timeout) => step == (
                PushCycle { phase: CyclePhase::WritingQuery, ..cycle },
                CycleAction::WriteQuery { timeout },
            ),
            None => step == (
                PushCycle { phase: CyclePhase::Over, ..cycle },
                CycleAction::Fail(CycleError::NotRecovered),
            ),
        },
{
    match remaining_timeout(cycle.deadline, now, cycle.write_timeout) {
        Ok(timeout) => {
            let cycle = PushCycle { phase: CyclePhase::WritingQuery, ..cycle };
            (cycle, CycleAction::WriteQuery { timeout })
        },
        Err(_) => over(cycle, CycleAction::Fail(CycleError::NotRecovered)),
    }
}

/// How long an action takes at most.
pub open spec fn duration_of(action: CycleAction) -> u64 {
    match action {
        CycleAction::WritePreamble { index, timeout } => timeout,
        CycleAction::WriteCommand { index, timeout } => timeout,
        CycleAction::ReadReply { timeout } => timeout,
        CycleAction::Reopen { delay } => delay,
        CycleAction::WriteQuery { timeout } => timeout,
        CycleAction::ReadQuery { timeout } => timeout,
        CycleAction::Sleep { time } => time,
        _ => 0,
    }
}

/// Whatever happens, no action of a cycle may run past its deadline, which never moves.
pub proof fn lemma_cycle_keeps_its_deadline(
    state: CycleState,
    commands: Seq<PendingCmd>,
    event: CycleEvent,
    cancelled: bool,
    now: u64,
)
    ensures
        ({
            let after = cycle_after(state, commands, event, cancelled, now);
            &&& after.cycle.deadline == state.cycle.deadline
            &&& duration_of(after.action) == 0 || now + duration_of(after.action)
                <= state.cycle.deadline
        }),
{
}

/// The cycle has written all that it writes, and is getting the panel back.
pub open spec fn is_recovery(phase: CyclePhase) -> bool {
    phase is Releasing || phase is Reopening || phase is WritingQuery || phase is ReadingQuery
        || phase is Waiting || phase is Over
}

/// Once a cycle gets the panel back it writes no upload, and it ends with the panel back or with
/// the upload still counted as not recovered. So no upload is repeated before the panel is back.
pub proof fn lemma_recovery_writes_nothing(
    state: CycleState,
    commands: Seq<PendingCmd>,
    event: CycleEvent,
    cancelled: bool,
    now: u64,
)
    requires
        is_recovery(state.cycle.phase),
    ensures
        ({
            let after = cycle_after(state, commands, event, cancelled, now);
            &&& is_recovery(after.cycle.phase)
            &&& !(after.action is WriteCommand || after.action is WritePreamble)
            &&& after.ring == state.ring || after.ring == state.ring.recovered()
        }),
{
}

/// A cycle reports its uploads as shown only when the panel is back and shows them.
pub proof fn lemma_success_means_shown(
    state: CycleState,
    commands: Seq<PendingCmd>,
    event: CycleEvent,
    cancelled: bool,
    now: u64,
)
    requires
        cycle_after(state, commands, event, cancelled, now).action == CycleAction::Done(true),
    ensures
        ({
            let after = cycle_after(state, commands, event, cancelled, now);
            &&& after.ring.attempted is None
            &&& all_applied(commands, after.ring.applied)
            &&& !after.cycle.write_error
        }),
{
}

/// A timeout ends at the deadline or earlier, and takes no longer than it may. Once the deadline
/// has come there is none.
pub proof fn lemma_timeouts_end_at_the_deadline(
    deadline: u64,
    now: u64,
    maximum: u64,
    timeout: Result<u64, DeadlineExpired>,
)
    requires
        call_ensures(remaining_timeout, (deadline, now, maximum), timeout),
    ensures
        timeout is Ok <==> now < deadline,
        timeout matches Ok(time) ==> {
            &&& now + time <= deadline
            &&& time <= maximum
            &&& now + time == deadline || time == maximum
        },
{
}

/// A cycle does not start beside a stream of another thread, after a storage transfer that was cut
/// off, or when the service ends. Unless it is to recover, it does not start under software
/// cooling or with an upload that was given up either. A cycle that starts has three seconds,
/// counts as the latest upload, and first recovers the panel where that is due.
pub proof fn lemma_cycles_start_when_nothing_is_against_it(
    preamble: usize,
    commands: &Vec<PendingCmd>,
    any_cancelled: bool,
    cancelled: bool,
    write_timeout: u64,
    from_stream_thread: bool,
    shutting_down: bool,
    now: u64,
)
    requires
        now + 3_000_000_000 <= u64::MAX,
    ensures
        forall|link: &mut LcdLink, start: Result<Option<(PushCycle, CycleAction)>, CycleError>|
            #[trigger]
            call_ensures(
                LcdLink::start_cycle,
                (
                    link,
                    preamble,
                    commands,
                    any_cancelled,
                    cancelled,
                    write_timeout,
                    from_stream_thread,
                    shutting_down,
                    now,
                ),
                start,
            ) ==> {
                let apart = link.streaming && !from_stream_thread;
                let recovers = link.ring.attempted is Some;
                let waits = !recovers && (link.software_cooling || any_cancelled);
                &&& start == Err::<Option<(PushCycle, CycleAction)>, CycleError>(
                    CycleError::StorageInterrupted,
                ) <==> !apart && link.storage_interrupted
                &&& start == Err::<Option<(PushCycle, CycleAction)>, CycleError>(
                    CycleError::ShuttingDown,
                ) <==> !apart && !link.storage_interrupted && !waits && shutting_down
                &&& start is Err ==> start->Err_0 is StorageInterrupted
                    || start->Err_0 is ShuttingDown
                &&& start is Ok && start->Ok_0 is None <==> apart || !link.storage_interrupted
                    && waits
                &&& start is Err || start->Ok_0 is None ==> *final(link) == *link
                &&& start is Ok && start->Ok_0 is Some ==> {
                    let cycle = (start->Ok_0->0).0;
                    let action = (start->Ok_0->0).1;
                    &&& cycle.deadline - now == 3_000_000_000
                    &&& cycle.write_timeout == write_timeout
                    &&& cycle.preamble == preamble
                    &&& cycle.reopenable == link.reopenable
                    &&& !cycle.write_error
                    &&& final(link).last_hold == Some(now)
                    &&& final(link).pending == link.pending
                    &&& final(link).streaming == link.streaming
                    &&& recovers && link.reopenable ==> action is Release
                        && cycle.phase is Releasing
                    &&& recovers && !link.reopenable ==> action == CycleAction::Fail(
                        CycleError::NotRecovered,
                    )
                    &&& recovers ==> final(link).needs_init && final(link).ring@ == link.ring@
                    &&& !recovers && preamble > 0 ==> {
                        &&& action is WritePreamble
                        &&& action->WritePreamble_index == 0
                        &&& action->WritePreamble_timeout <= write_timeout
                        &&& action->WritePreamble_timeout == write_timeout
                            || action->WritePreamble_timeout == 3_000_000_000
                        &&& write_timeout > 3_000_000_000 ==> action->WritePreamble_timeout
                            == 3_000_000_000
                        &&& cycle.phase == CyclePhase::WritingPreamble(0)
                        &&& final(link).ring@ == link.ring@
                        &&& final(link).needs_init == link.needs_init
                    }
                    &&& !recovers && preamble == 0 && commands@.len() > 0 && !cancelled
                        && commands@[0].ring_key is Some ==> {
                        &&& action is WriteCommand
                        &&& action->WriteCommand_index == 0
                        &&& cycle.phase == CyclePhase::WritingCommand(0)
                        &&& key_of(final(link).ring.attempted) == key_of(commands@[0].ring_key)
                    }
                }
            },
{
}

/// While the panel is being stopped: each command is written, its reply is awaited for a tenth of
/// a second, and the next one follows. One that cannot be written ends the cycle, and so does the
/// deadline. Nothing on the link changes.
pub proof fn lemma_panels_are_stopped_command_by_command(
    cycle: PushCycle,
    commands: &Vec<PendingCmd>,
    event: CycleEvent,
    cancelled: bool,
    now: u64,
    index: usize,
)
    requires
        index < cycle.preamble,
    ensures
        forall|link: &mut LcdLink, step: (PushCycle, CycleAction)| #[trigger]
            call_ensures(
                LcdLink::cycle_step,
                (link, cycle, commands, event, cancelled, now),
                step,
            ) ==> {
                let left = cycle.deadline - now;
                let action = step.1;
                &&& cycle.phase == CyclePhase::WritingPreamble(index) ==> {
                    &&& event == CycleEvent::Wrote(false) ==> action == CycleAction::Fail(
                        CycleError::Preamble,
                    )
                    &&& event == CycleEvent::Wrote(true) && left <= 0 ==> action
                        == CycleAction::Fail(CycleError::Deadline)
                    &&& event == CycleEvent::Wrote(true) && left > 0 ==> {
                        &&& step.0.phase == CyclePhase::ReadingPreamble(index)
                        &&& action is ReadReply
                        &&& left >= 100_000_000 ==> action->ReadReply_timeout == 100_000_000
                        &&& left < 100_000_000 ==> action->ReadReply_timeout == left
                    }
                    &&& final(link).ring@ == link.ring@
                    &&& final(link).needs_init == link.needs_init
                }
                &&& cycle.phase == CyclePhase::ReadingPreamble(index) && event is Read && index + 1
                    < cycle.preamble ==> {
                    &&& left <= 0 ==> action == CycleAction::Fail(CycleError::Deadline)
                    &&& left > 0 ==> {
                        &&& step.0.phase == CyclePhase::WritingPreamble((index + 1) as usize)
                        &&& action is WritePreamble
                        &&& action->WritePreamble_index == index + 1
                        &&& left >= cycle.write_timeout ==> action->WritePreamble_timeout
                            == cycle.write_timeout
                        &&& left < cycle.write_timeout ==> action->WritePreamble_timeout == left
                    }
                    &&& final(link).ring@ == link.ring@
                    &&& final(link).needs_init == link.needs_init
                }
            },
{
}

/// Once the panel is stopped, or an upload was answered, the next upload is written, unless it was
/// given up, has no payload, or the deadline has come. From then on it counts as attempted. After
/// the last one the handle is released.
pub proof fn lemma_uploads_follow_one_another(
    cycle: PushCycle,
    commands: &Vec<PendingCmd>,
    cancelled: bool,
    now: u64,
    index: usize,
)
    requires
        cycle.preamble > 0 && cycle.phase == CyclePhase::ReadingPreamble(
            (cycle.preamble - 1) as usize,
        ) && index == 0 || index > 0 && index <= commands@.len() && cycle.phase
            == CyclePhase::ReadingCommand((index - 1) as usize),
    ensures
        forall|link: &mut LcdLink, step: (PushCycle, CycleAction)| #[trigger]
            call_ensures(
                LcdLink::cycle_step,
                (link, cycle, commands, CycleEvent::Read, cancelled, now),
                step,
            ) ==> {
                let left = cycle.deadline - now;
                let action = step.1;
                let given_out = index < commands@.len() && !cancelled
                    && commands@[index as int].ring_key is Some && left > 0;
                &&& action is WriteCommand <==> given_out
                &&& given_out ==> {
                    &&& action->WriteCommand_index == index
                    &&& left >= cycle.write_timeout ==> action->WriteCommand_timeout
                        == cycle.write_timeout
                    &&& left < cycle.write_timeout ==> action->WriteCommand_timeout == left
                    &&& step.0.phase == CyclePhase::WritingCommand(index)
                    &&& key_of(final(link).ring.attempted) == key_of(
                        commands@[index as int].ring_key,
                    )
                    &&& !final(link).ring.complete
                    &&& key_of(final(link).ring.applied) == key_of(link.ring.applied)
                }
                &&& !given_out ==> final(link).ring@ == link.ring@
                &&& index < commands@.len() ==> {
                    &&& action == CycleAction::Done(false) <==> cancelled
                    &&& action == CycleAction::Fail(CycleError::MissingKey) <==> !cancelled
                        && commands@[index as int].ring_key is None
                    &&& action == CycleAction::Fail(CycleError::Deadline) <==> !cancelled
                        && commands@[index as int].ring_key is Some && left <= 0
                    &&& final(link).needs_init == link.needs_init
                }
                &&& index >= commands@.len() ==> {
                    &&& final(link).needs_init
                    &&& cycle.reopenable ==> action is Release && step.0.phase is Releasing
                    &&& !cycle.reopenable ==> action == CycleAction::Fail(CycleError::NotRecovered)
                }
                &&& step.0.write_error == cycle.write_error
            },
{
}

/// An upload that was written completely counts as complete, and its reply is awaited as long as
/// it asks for, up to the deadline. One that was not marks the cycle, and the handle is released.
pub proof fn lemma_written_uploads_are_complete(
    cycle: PushCycle,
    commands: &Vec<PendingCmd>,
    cancelled: bool,
    now: u64,
    index: usize,
    ok: bool,
)
    requires
        cycle.phase == CyclePhase::WritingCommand(index),
        index < commands@.len(),
    ensures
        forall|link: &mut LcdLink, step: (PushCycle, CycleAction)| #[trigger]
            call_ensures(
                LcdLink::cycle_step,
                (link, cycle, commands, CycleEvent::Wrote(ok), cancelled, now),
                step,
            ) ==> {
                let left = cycle.deadline - now;
                let action = step.1;
                let wait = commands@[index as int].reply_wait;
                &&& ok && left > 0 ==> {
                    &&& action is ReadReply
                    &&& left >= wait ==> action->ReadReply_timeout == wait
                    &&& left < wait ==> action->ReadReply_timeout == left
                    &&& step.0.phase == CyclePhase::ReadingCommand(index)
                    &&& final(link).ring.complete
                    &&& key_of(final(link).ring.attempted) == key_of(link.ring.attempted)
                    &&& final(link).needs_init == link.needs_init
                }
                &&& ok && left <= 0 ==> {
                    &&& !(action is WriteCommand)
                    &&& final(link).ring.complete
                    &&& key_of(final(link).ring.attempted) == key_of(link.ring.attempted)
                    &&& index + 1 == commands@.len() && cycle.reopenable ==> action is Release
                    &&& index + 1 < commands@.len() && cancelled ==> action == CycleAction::Done(
                        false,
                    )
                    &&& index + 1 < commands@.len() && !cancelled ==> action is Fail
                }
                &&& !ok ==> {
                    &&& step.0.write_error
                    &&& final(link).needs_init
                    &&& final(link).ring@ == link.ring@
                    &&& cycle.reopenable ==> action is Release && step.0.phase is Releasing
                    &&& !cycle.reopenable ==> action == CycleAction::Fail(CycleError::NotRecovered)
                }
                &&& ok ==> step.0.write_error == cycle.write_error
                &&& key_of(final(link).ring.applied) == key_of(link.ring.applied)
            },
{
}

/// To get the panel back, the handle is opened again after a tenth of a second, and the panel is
/// asked every quarter of a second, with half a second for each answer. What fails or is out of
/// time ends the cycle without it. Opening the handle again voids what was negotiated.
pub proof fn lemma_panels_are_asked_until_they_answer(
    cycle: PushCycle,
    commands: &Vec<PendingCmd>,
    event: CycleEvent,
    cancelled: bool,
    now: u64,
)
    requires
        cycle.phase is Releasing || cycle.phase is Reopening || cycle.phase is WritingQuery
            || cycle.phase is ReadingQuery || cycle.phase is Waiting || cycle.phase is Over,
    ensures
        forall|link: &mut LcdLink, step: (PushCycle, CycleAction)| #[trigger]
            call_ensures(
                LcdLink::cycle_step,
                (link, cycle, commands, event, cancelled, now),
                step,
            ) ==> {
                let left = cycle.deadline - now;
                let action = step.1;
                let asks = cycle.phase is Reopening && event == CycleEvent::Reopened(true)
                    || cycle.phase is Waiting && event is Slept;
                let answered = cycle.phase is ReadingQuery && event == CycleEvent::Answered(true);
                &&& action is Reopen <==> cycle.phase is Releasing && event is Released && left > 0
                &&& action is Reopen ==> {
                    &&& step.0.phase is Reopening
                    &&& left >= 100_000_000 ==> action->Reopen_delay == 100_000_000
                    &&& left < 100_000_000 ==> action->Reopen_delay == left
                }
                &&& action is WriteQuery <==> asks && left > 0
                &&& action is WriteQuery ==> {
                    &&& step.0.phase is WritingQuery
                    &&& left >= cycle.write_timeout ==> action->WriteQuery_timeout
                        == cycle.write_timeout
                    &&& left < cycle.write_timeout ==> action->WriteQuery_timeout == left
                }
                &&& action is ReadQuery <==> cycle.phase is WritingQuery && event
                    == CycleEvent::Wrote(true) && left > 0
                &&& action is ReadQuery ==> {
                    &&& step.0.phase is ReadingQuery
                    &&& left >= 500_000_000 ==> action->ReadQuery_timeout == 500_000_000
                    &&& left < 500_000_000 ==> action->ReadQuery_timeout == left
                }
                &&& action is Sleep <==> cycle.phase is ReadingQuery && event
                    == CycleEvent::Answered(false) && left > 0
                &&& action is Sleep ==> {
                    &&& step.0.phase is Waiting
                    &&& left >= 250_000_000 ==> action->Sleep_time == 250_000_000
                    &&& left < 250_000_000 ==> action->Sleep_time == left
                }
                &&& action is Done <==> answered && !cycle.write_error
                &&& action == CycleAction::Fail(CycleError::WriteIncomplete) <==> answered
                    && cycle.write_error
                &&& action is Fail && !answered ==> action == CycleAction::Fail(
                    CycleError::NotRecovered,
                )
                &&& !(action is Release || action is WritePreamble || action is WriteCommand
                    || action is ReadReply)
                &&& answered ==> {
                    &&& final(link).ring.attempted is None
                    &&& key_of(final(link).ring.applied) == if link.ring.complete {
                        key_of(link.ring.attempted)
                    } else {
                        key_of(link.ring.applied)
                    }
                }
                &&& !answered ==> final(link).ring@ == link.ring@
                &&& cycle.phase is Reopening && event == CycleEvent::Reopened(true) ==> final(link).h264_chunk_size.negotiated() is None
                &&& final(link).needs_init == link.needs_init
                &&& step.0.deadline == cycle.deadline
            },
{
}

/// The uploads are reported as shown exactly when the ring shows the payload of every one of them
/// once the panel is back.
pub proof fn lemma_shown_means_every_upload(
    cycle: PushCycle,
    commands: &Vec<PendingCmd>,
    cancelled: bool,
    now: u64,
    i: int,
)
    requires
        cycle.phase is ReadingQuery,
        !cycle.write_error,
        0 <= i < commands@.len(),
    ensures
        forall|link: &mut LcdLink, step: (PushCycle, CycleAction)| #[trigger]
            call_ensures(
                LcdLink::cycle_step,
                (link, cycle, commands, CycleEvent::Answered(true), cancelled, now),
                step,
            ) ==> {
                &&& step.1 == CycleAction::Done(true) ==> key_of(commands@[i].ring_key) == key_of(
                    final(link).ring.applied,
                )
                &&& step.1 == CycleAction::Done(false) ==> exists|k: int|
                    0 <= k < commands@.len() && key_of((#[trigger] commands@[k]).ring_key)
                        != key_of(final(link).ring.applied)
                &&& step.1 == CycleAction::Done(true) || step.1 == CycleAction::Done(false)
            },
{
}

/// A cycle whose uploads have no owner that could give them up starts exactly when no other thread
/// streams, no storage transfer was cut off, the service goes on, and software cooling is off or
/// the panel is to be recovered.
pub proof fn lemma_unowned_uploads_are_not_given_up(
    preamble: usize,
    commands: &Vec<PendingCmd>,
    write_timeout: u64,
    from_stream_thread: bool,
    shutting_down: bool,
    now: u64,
)
    requires
        now + 3_000_000_000 <= u64::MAX,
        forall|i: int| 0 <= i < commands@.len() ==> (#[trigger] commands@[i]).cancelled is None,
    ensures
        forall|link: &mut LcdLink, start: Result<Option<(PushCycle, CycleAction)>, CycleError>|
            #[trigger]
            call_ensures(
                LcdLink::push_and_recover,
                (
                    link,
                    preamble,
                    commands,
                    write_timeout,
                    from_stream_thread,
                    shutting_down,
                    now,
                ),
                start,
            ) ==> {
                let apart = link.streaming && !from_stream_thread;
                let recovers = link.ring.attempted is Some;
                let waits = !recovers && link.software_cooling;
                &&& start is Ok && start->Ok_0 is None <==> apart || !link.storage_interrupted
                    && waits
                &&& start is Err <==> !apart && (link.storage_interrupted || !waits
                    && shutting_down)
                &&& start is Ok && start->Ok_0 is Some ==> {
                    let cycle = (start->Ok_0->0).0;
                    let action = (start->Ok_0->0).1;
                    &&& cycle.deadline - now == 3_000_000_000
                    &&& final(link).last_hold == Some(now)
                    &&& !recovers && preamble > 0 ==> action is WritePreamble
                    &&& !recovers && preamble == 0 && commands@.len() > 0
                        && commands@[0].ring_key is Some ==> action is WriteCommand
                    &&& recovers && link.reopenable ==> action is Release
                }
            },
{
    assert forall|flags: Seq<bool>| #[trigger] any_set(flags) implies !readable(
        commands@,
        flags,
    ) by {
        let i = choose|i: int| 0 <= i < flags.len() && #[trigger] flags[i];
        if readable(commands@, flags) {
            assert(read_off(commands@[i], flags[i]));
            assert(commands@[i].cancelled is None);
        }
    }
    assert forall|cancelled: bool| #[trigger]
        upload_read_off(commands@, 0, cancelled) implies !cancelled by {
        if commands@.len() > 0 {
            assert(commands@[0].cancelled is None);
        }
    }
}

/// Whether an upload was given up is read off the upload that would be written next, and off no
/// other: one without an owner is written, once the panel is stopped or the one before it was
/// answered, as long as there is time.
pub proof fn lemma_the_next_upload_is_asked_for(
    cycle: PushCycle,
    commands: &Vec<PendingCmd>,
    now: u64,
    index: usize,
)
    requires
        cycle.preamble > 0 && cycle.phase == CyclePhase::ReadingPreamble(
            (cycle.preamble - 1) as usize,
        ) && index == 0 || index > 0 && cycle.phase == CyclePhase::ReadingCommand(
            (index - 1) as usize,
        ),
        index < commands@.len(),
    ensures
        forall|link: &mut LcdLink, step: (PushCycle, CycleAction)| #[trigger]
            call_ensures(
                LcdLink::cycle_next,
                (link, cycle, commands, CycleEvent::Read, now),
                step,
            ) ==> {
                let next = commands@[index as int];
                &&& next.cancelled is None && next.ring_key is Some && now < cycle.deadline ==> {
                    &&& step.1 is WriteCommand
                    &&& step.1->WriteCommand_index == index
                    &&& key_of(final(link).ring.attempted) == key_of(next.ring_key)
                }
                &&& next.cancelled is None ==> step.1 != CycleAction::Done(false)
                &&& step.1 == CycleAction::Done(false) ==> read_off(next, true)
                &&& step.1 is WriteCommand ==> read_off(next, false)
            },
{
}

} // verus!
