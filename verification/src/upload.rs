//! The course of a startup image upload, and its end.
use vstd::prelude::*;
use vstd::string::*;

use crate::group_recovery::{elapsed, time_since};
use crate::media::RECOVERY_MESSAGE;
use crate::service::{
    ActiveTarget, ServiceManager, StartupImageJob, StartupImageState, StartupStateView,
};
use crate::startup_image::THEME_ACK_TIMEOUT;
use crate::text::joined;

verus! {

/// A step of an upload over USB.
#[derive(Clone, Copy, Debug, PartialEq, Eq, Structural)]
pub enum UploadStep {
    /// Nothing was done yet.
    Begin,
    /// Bring the image into the form that the panel takes.
    Prepare,
    /// See whether the panel can take an image now.
    CheckPanel,
    /// Write down that an upload to the panel begins.
    Record,
    /// It was written down.
    Recorded,
    /// Stop playback on the panel.
    StopPlayback,
    /// Playback was stopped.
    Stopped,
    /// Report the transfer.
    Announce,
    /// Tell the receiver to show the new image.
    SelectImage,
    /// Transfer the image.
    Transfer,
    Done,
    Failed,
}

/// What follows a step that succeeded or not. Before the panel is touched, and before each
/// irreversible step, a cancelled upload ends.
pub open spec fn upload_after(step: UploadStep, ok: bool, cancelled: bool, receiver: bool) -> UploadStep {
    match step {
        UploadStep::Begin => if cancelled {
            UploadStep::Failed
        } else {
            UploadStep::Prepare
        },
        UploadStep::Prepare => if ok {
            UploadStep::CheckPanel
        } else {
            UploadStep::Failed
        },
        UploadStep::CheckPanel => if ok {
            UploadStep::Record
        } else {
            UploadStep::Failed
        },
        UploadStep::Record => if ok {
            UploadStep::Recorded
        } else {
            UploadStep::Failed
        },
        UploadStep::Recorded => if cancelled {
            UploadStep::Failed
        } else {
            UploadStep::StopPlayback
        },
        UploadStep::StopPlayback => UploadStep::Stopped,
        UploadStep::Stopped => if cancelled {
            UploadStep::Failed
        } else {
            UploadStep::Announce
        },
        UploadStep::Announce => if receiver {
            UploadStep::SelectImage
        } else {
            UploadStep::Transfer
        },
        UploadStep::SelectImage => if ok {
            UploadStep::Transfer
        } else {
            UploadStep::Failed
        },
        UploadStep::Transfer => if ok {
            UploadStep::Done
        } else {
            UploadStep::Failed
        },
        UploadStep::Done => UploadStep::Done,
        UploadStep::Failed => UploadStep::Failed,
    }
}

/// The step that follows one that succeeded or not.
pub fn next_upload_step(step: UploadStep, ok: bool, cancelled: bool, receiver: bool) -> (next:
    UploadStep)
    ensures
        next == upload_after(step, ok, cancelled, receiver),
{
    let go_on = match step {
        UploadStep::Begin | UploadStep::Recorded | UploadStep::Stopped => !cancelled,
        UploadStep::StopPlayback | UploadStep::Announce | UploadStep::Done | UploadStep::Failed =>
            true,
        _ => ok,
    };
    if !go_on {
        return UploadStep::Failed;
    }
    match step {
        UploadStep::Begin => UploadStep::Prepare,
        UploadStep::Prepare => UploadStep::CheckPanel,
        UploadStep::CheckPanel => UploadStep::Record,
        UploadStep::Record => UploadStep::Recorded,
        UploadStep::Recorded => UploadStep::StopPlayback,
        UploadStep::StopPlayback => UploadStep::Stopped,
        UploadStep::Stopped => UploadStep::Announce,
        UploadStep::Announce => if receiver {
            UploadStep::SelectImage
        } else {
            UploadStep::Transfer
        },
        UploadStep::SelectImage => UploadStep::Transfer,
        UploadStep::Transfer => UploadStep::Done,
        UploadStep::Done => UploadStep::Done,
        UploadStep::Failed => UploadStep::Failed,
    }
}

/// How a step went: whether it succeeded, and whether the upload was cancelled by then.
pub struct StepResult {
    pub ok: bool,
    pub cancelled: bool,
}

/// Where an upload is after these step results.
pub open spec fn upload_at(results: Seq<StepResult>, receiver: bool) -> UploadStep
    decreases results.len(),
{
    if results.len() == 0 {
        UploadStep::Begin
    } else {
        upload_after(
            upload_at(results.drop_last(), receiver),
            results.last().ok,
            results.last().cancelled,
            receiver,
        )
    }
}

/// The step touches the panel or its receiver, or comes after one that did.
pub open spec fn touches_device(step: UploadStep) -> bool {
    step is StopPlayback || step is Stopped || step is Announce || step is SelectImage
        || step is Transfer || step is Done
}

/// The upload was written down somewhere in its course.
pub open spec fn was_recorded(results: Seq<StepResult>, receiver: bool) -> bool {
    exists|i: int|
        0 <= i < results.len() && (#[trigger] results[i]).ok && upload_at(
            results.take(i),
            receiver,
        ) is Record
}

/// No upload touches the device before it was written down.
pub proof fn lemma_recorded_before_touching(results: Seq<StepResult>, receiver: bool)
    requires
        touches_device(upload_at(results, receiver)),
    ensures
        was_recorded(results, receiver),
{
    lemma_recorded(results, receiver);
}

proof fn lemma_recorded(results: Seq<StepResult>, receiver: bool)
    ensures
        touches_device(upload_at(results, receiver)) || upload_at(results, receiver) is Recorded
            ==> was_recorded(results, receiver),
    decreases results.len(),
{
    if results.len() > 0 {
        let before = results.drop_last();
        lemma_recorded(before, receiver);
        if was_recorded(before, receiver) {
            let i = choose|i: int|
                0 <= i < before.len() && (#[trigger] before[i]).ok && upload_at(
                    before.take(i),
                    receiver,
                ) is Record;
            assert(results[i] == before[i]);
            assert(results.take(i) =~= before.take(i));
        }
        if upload_at(before, receiver) is Record && results.last().ok {
            let i = results.len() - 1;
            assert(results.take(i) =~= before);
            assert(results[i].ok);
        }
    }
}

/// A step of an upload over the radio.
#[derive(Clone, Copy, Debug, PartialEq, Eq, Structural)]
pub enum RadioStep {
    /// Find out what the receiver takes.
    Capabilities,
    /// Bring the image into that form.
    Prepare,
    /// Nothing was sent yet.
    Prepared,
    /// Stop playback on the USB display and make it wait.
    PauseDisplay,
    /// The display does not interfere.
    Paused,
    /// Switch the receiver to its wireless display mode.
    SwitchTheme,
    /// Wait until the receiver confirms it.
    AwaitTheme,
    /// Report the transfer.
    Announce,
    /// Send the image.
    Send,
    Done,
    Failed,
}

/// What follows a step of an upload over the radio.
pub open spec fn radio_after(step: RadioStep, ok: bool, cancelled: bool, display: bool) -> RadioStep {
    match step {
        RadioStep::Capabilities => if ok {
            RadioStep::Prepare
        } else {
            RadioStep::Failed
        },
        RadioStep::Prepare => if ok {
            RadioStep::Prepared
        } else {
            RadioStep::Failed
        },
        RadioStep::Prepared => if cancelled {
            RadioStep::Failed
        } else if display {
            RadioStep::PauseDisplay
        } else {
            RadioStep::Paused
        },
        RadioStep::PauseDisplay => if ok {
            RadioStep::Paused
        } else {
            RadioStep::Failed
        },
        RadioStep::Paused => if cancelled {
            RadioStep::Failed
        } else {
            RadioStep::SwitchTheme
        },
        RadioStep::SwitchTheme => if ok {
            RadioStep::AwaitTheme
        } else {
            RadioStep::Failed
        },
        RadioStep::AwaitTheme => if ok {
            RadioStep::Announce
        } else {
            RadioStep::Failed
        },
        RadioStep::Announce => RadioStep::Send,
        RadioStep::Send => if ok {
            RadioStep::Done
        } else {
            RadioStep::Failed
        },
        RadioStep::Done => RadioStep::Done,
        RadioStep::Failed => RadioStep::Failed,
    }
}

/// The step that follows a step of an upload over the radio.
pub fn next_radio_step(step: RadioStep, ok: bool, cancelled: bool, display: bool) -> (next:
    RadioStep)
    ensures
        next == radio_after(step, ok, cancelled, display),
{
    let go_on = match step {
        RadioStep::Prepared | RadioStep::Paused => !cancelled,
        RadioStep::Announce | RadioStep::Done | RadioStep::Failed => true,
        _ => ok,
    };
    if !go_on {
        return RadioStep::Failed;
    }
    match step {
        RadioStep::Capabilities => RadioStep::Prepare,
        RadioStep::Prepare => RadioStep::Prepared,
        RadioStep::Prepared => if display {
            RadioStep::PauseDisplay
        } else {
            RadioStep::Paused
        },
        RadioStep::PauseDisplay => RadioStep::Paused,
        RadioStep::Paused => RadioStep::SwitchTheme,
        RadioStep::SwitchTheme => RadioStep::AwaitTheme,
        RadioStep::AwaitTheme => RadioStep::Announce,
        RadioStep::Announce => RadioStep::Send,
        RadioStep::Send => RadioStep::Done,
        RadioStep::Done => RadioStep::Done,
        RadioStep::Failed => RadioStep::Failed,
    }
}

/// What waiting for the receiver's confirmation comes to.
#[derive(Clone, Copy, Debug, PartialEq, Eq, Structural)]
pub enum ThemeWait {
    Confirmed,
    Cancelled,
    TimedOut,
    Wait,
}

/// What waiting for the receiver's confirmation comes to at `now`.
pub fn theme_wait(acked: bool, cancelled: bool, sent_at: u64, now: u64) -> (wait: ThemeWait)
    ensures
        wait == if acked {
            ThemeWait::Confirmed
        } else if cancelled {
            ThemeWait::Cancelled
        } else if time_since(now, sent_at) >= THEME_ACK_TIMEOUT {
            ThemeWait::TimedOut
        } else {
            ThemeWait::Wait
        },
{
    if acked {
        ThemeWait::Confirmed
    } else if cancelled {
        ThemeWait::Cancelled
    } else if elapsed(now, sent_at) >= THEME_ACK_TIMEOUT {
        ThemeWait::TimedOut
    } else {
        ThemeWait::Wait
    }
}

/// How an upload ended.
pub enum UploadOutcome {
    Ended {
        /// The target that the upload was lent.
        target: Option<ActiveTarget>,
        /// Whether the panel answered, or the error in words.
        result: Result<bool, String>,
        /// Playback was stopped.
        stopped: bool,
        /// The device was written to, and may need a power cycle.
        recovery_required: bool,
    },
    /// The worker died.
    Panicked,
}

/// What clients are told of the end.
pub open spec fn final_status(outcome: UploadOutcome, cancelled: bool) -> StartupStateView {
    match outcome {
        UploadOutcome::Ended { target, result, stopped, recovery_required } => match result {
            Ok(response_received) => StartupStateView::Transferred { response_received },
            Err(error) => if !recovery_required && cancelled {
                StartupStateView::Cancelled
            } else if recovery_required {
                StartupStateView::Failed { message: error@ + ". "@ + RECOVERY_MESSAGE@ }
            } else {
                StartupStateView::Failed { message: error@ }
            },
        },
        UploadOutcome::Panicked => StartupStateView::Failed {
            message: "Startup upload worker failed. "@ + RECOVERY_MESSAGE@,
        },
    }
}

/// The panel must be left alone from now on.
pub open spec fn blocks_panel(outcome: UploadOutcome) -> bool {
    match outcome {
        UploadOutcome::Ended { target, result, stopped, recovery_required } => target is Some
            && recovery_required && result is Err,
        UploadOutcome::Panicked => true,
    }
}

/// What happens to the target that the upload was lent.
pub enum ReturnedTarget {
    Nothing,
    /// Stop it: its panel is left alone.
    Stop(ActiveTarget),
    /// It goes on; it must be given its media again when playback was stopped.
    Resume { index: usize, reload: bool },
}

/// The end of an upload.
pub struct UploadEnd {
    pub identity: String,
    /// The error to log.
    pub failure: Option<String>,
    pub target: ReturnedTarget,
    /// Settings arrived meanwhile and are to be applied now.
    pub apply_config: bool,
}

fn describe(outcome: &UploadOutcome, cancelled: bool) -> (status: StartupImageState)
    ensures
        status@ == final_status(*outcome, cancelled),
{
    match outcome {
        UploadOutcome::Ended { target, result, stopped, recovery_required } => match result {
            Ok(response_received) => StartupImageState::Transferred {
                response_received: *response_received,
            },
            Err(error) => if !*recovery_required && cancelled {
                StartupImageState::Cancelled
            } else if *recovery_required {
                StartupImageState::Failed {
                    message: joined(error, ". ").concat(RECOVERY_MESSAGE),
                }
            } else {
                StartupImageState::Failed { message: error.clone() }
            },
        },
        UploadOutcome::Panicked => StartupImageState::Failed {
            message: joined("Startup upload worker failed. ", RECOVERY_MESSAGE),
        },
    }
}

impl ServiceManager {
    /// Notes that an upload began, and lends it its target.
    pub fn startup_image_started(&mut self, id: u64, identity: String, target: Option<usize>) -> (lent:
        Option<ActiveTarget>)
        ensures
            final(self).startup_image_job == Some(StartupImageJob { id, identity }),
            match target {
                Some(index) => {
                    &&& lent is Some <==> old(self).targets@.contains_key(index)
                    &&& lent matches Some(lent) ==> lent == old(self).targets@[index]
                    &&& final(self).targets@ == old(self).targets@.remove(index)
                },
                None => lent is None && final(self).targets == old(self).targets,
            },
            *final(self) == (ServiceManager {
                startup_image_job: final(self).startup_image_job,
                targets: final(self).targets,
                ..*old(self)
            }),
    {
        let lent = match target {
            Some(index) => self.targets.remove(&index),
            None => None,
        };
        self.startup_image_job = Some(StartupImageJob { id, identity });
        lent
    }

    /// Takes note of how the upload ended. Its panel is blocked when the device was written to
    /// without success, or when that cannot be known.
    pub fn poll_startup_image(&mut self, outcome: UploadOutcome, cancelled: bool) -> (end: Option<
        UploadEnd,
    >)
        ensures
            end is Some <==> old(self).startup_image_job is Some,
            end is None ==> *final(self) == *old(self),
            end matches Some(end) ==> {
                let job = old(self).startup_image_job->0;
                let status = final_status(outcome, cancelled);
                &&& end.identity@ == job.identity@
                &&& crate::service::text_of(end.failure) == match status {
                    StartupStateView::Failed { message } => Some(message),
                    _ => None::<Seq<char>>,
                }
                &&& end.apply_config == old(self).startup_config_pending
                &&& final(self).startup_image_quarantine@ == if blocks_panel(outcome) {
                    old(self).startup_image_quarantine@.insert(job.identity@)
                } else {
                    old(self).startup_image_quarantine@
                }
                &&& match outcome {
                    UploadOutcome::Ended {
                        target: Some(target),
                        result,
                        stopped,
                        recovery_required,
                    } => if blocks_panel(outcome) {
                        &&& end.target == ReturnedTarget::Stop(target)
                        &&& final(self).targets@ == old(self).targets@
                    } else {
                        &&& end.target == (ReturnedTarget::Resume {
                            index: target.index,
                            reload: stopped,
                        })
                        &&& final(self).targets@ == old(self).targets@.insert(target.index, target)
                    },
                    _ => end.target is Nothing && final(self).targets@ == old(self).targets@,
                }
                &&& if old(self).startup_image is Some && old(self).startup_image->0.id == job.id {
                    &&& final(self).startup_image matches Some(shown) && shown.id == job.id
                        && shown.status@ == status
                    &&& !final(self).startup_image_cancel
                } else {
                    &&& final(self).startup_image == old(self).startup_image
                    &&& final(self).startup_image_cancel == old(self).startup_image_cancel
                }
                &&& *final(self) == (ServiceManager {
                    startup_image_job: None,
                    startup_image_quarantine: final(self).startup_image_quarantine,
                    targets: final(self).targets,
                    startup_image: final(self).startup_image,
                    startup_image_cancel: final(self).startup_image_cancel,
                    startup_config_pending: false,
                    ..*old(self)
                })
            },
    {
        let job = match self.startup_image_job.take() {
            Some(job) => job,
            None => {
                return None;
            },
        };
        let status = describe(&outcome, cancelled);
        let mut returned = ReturnedTarget::Nothing;
        match outcome {
            UploadOutcome::Ended { target, result, stopped, recovery_required } => {
                if let Some(target) = target {
                    if recovery_required && result.is_err() {
                        self.startup_image_quarantine.insert(job.identity.clone());
                        returned = ReturnedTarget::Stop(target);
                    } else {
                        let index: usize = target.index;
                        self.targets.insert(index, target);
                        returned = ReturnedTarget::Resume { index, reload: stopped };
                    }
                }
            },
            UploadOutcome::Panicked => {
                self.startup_image_quarantine.insert(job.identity.clone());
            },
        }
        let failure = match &status {
            StartupImageState::Failed { message } => Some(message.clone()),
            _ => None,
        };
        self.finish_startup_status(job.id, status);
        let apply_config = self.startup_config_pending;
        self.startup_config_pending = false;
        Some(UploadEnd { identity: job.identity, failure, target: returned, apply_config })
    }
}

/// Every step of an upload has its one way in. The panel is prepared for, asked and written down
/// in that order, each only when the one before succeeded. A cancelled upload goes no further from
/// its beginning, once it is written down, or once playback stopped. The receiver, where there is
/// one, is told before the transfer.
pub proof fn lemma_upload_steps_follow(
    step: UploadStep,
    ok: bool,
    cancelled: bool,
    receiver: bool,
    next: UploadStep,
)
    requires
        call_ensures(next_upload_step, (step, ok, cancelled, receiver), next),
    ensures
        !(next is Begin),
        next is Prepare <==> step is Begin && !cancelled,
        next is CheckPanel <==> step is Prepare && ok,
        next is Record <==> step is CheckPanel && ok,
        next is Recorded <==> step is Record && ok,
        next is StopPlayback <==> step is Recorded && !cancelled,
        next is Stopped <==> step is StopPlayback,
        next is Announce <==> step is Stopped && !cancelled,
        next is SelectImage <==> step is Announce && receiver,
        next is Transfer <==> step is Announce && !receiver || step is SelectImage && ok,
        next is Done <==> step is Transfer && ok || step is Done,
{
}

/// Every step of an upload over the radio has its one way in. A display is paused before the
/// receiver is switched, and the switch is confirmed before the image is sent. A cancelled upload
/// goes no further once the image is prepared, or once the display does not interfere.
pub proof fn lemma_radio_steps_follow(
    step: RadioStep,
    ok: bool,
    cancelled: bool,
    display: bool,
    next: RadioStep,
)
    requires
        call_ensures(next_radio_step, (step, ok, cancelled, display), next),
    ensures
        !(next is Capabilities),
        next is Prepare <==> step is Capabilities && ok,
        next is Prepared <==> step is Prepare && ok,
        next is PauseDisplay <==> step is Prepared && !cancelled && display,
        next is Paused <==> step is Prepared && !cancelled && !display || step is PauseDisplay && ok,
        next is SwitchTheme <==> step is Paused && !cancelled,
        next is AwaitTheme <==> step is SwitchTheme && ok,
        next is Announce <==> step is AwaitTheme && ok,
        next is Send <==> step is Announce,
        next is Done <==> step is Send && ok || step is Done,
{
}

/// A confirmation counts whenever it comes. Without one, a wait that was not cancelled lasts three
/// seconds.
pub proof fn lemma_confirmations_have_three_seconds(
    acked: bool,
    cancelled: bool,
    sent_at: u64,
    now: u64,
    wait: ThemeWait,
)
    requires
        call_ensures(theme_wait, (acked, cancelled, sent_at, now), wait),
    ensures
        wait is Confirmed <==> acked,
        wait is Cancelled <==> !acked && cancelled,
        wait is TimedOut <==> !acked && !cancelled && now - sent_at >= 3_000_000_000,
        wait is Wait <==> !acked && !cancelled && now - sent_at < 3_000_000_000,
{
}

/// An upload that begins is the running one, and takes its own target, and no other, out of the
/// active ones.
pub proof fn lemma_uploads_borrow_their_target(
    id: u64,
    identity: String,
    target: Option<usize>,
    index: usize,
)
    ensures
        forall|service: &mut ServiceManager, lent: Option<ActiveTarget>| #[trigger]
            call_ensures(
                ServiceManager::startup_image_started,
                (service, id, identity, target),
                lent,
            ) ==> {
                &&& final(service).startup_image_job is Some
                &&& final(service).startup_image_job->0.id == id
                &&& final(service).startup_image_job->0.identity == identity
                &&& target == Some(index) ==> {
                    &&& !final(service).targets@.contains_key(index)
                    &&& lent is Some <==> service.targets@.contains_key(index)
                    &&& lent is Some ==> lent->0 == service.targets@[index]
                }
                &&& target != Some(index) ==> {
                    &&& final(service).targets@.contains_key(index)
                        <==> service.targets@.contains_key(index)
                    &&& final(service).targets@[index] == service.targets@[index]
                }
                &&& target is None ==> lent is None
                &&& final(service).startup_image_quarantine == service.startup_image_quarantine
                &&& final(service).startup_image == service.startup_image
            },
{
}

/// When an upload ends, the panel it was for, and no other, is blocked if the worker died, or if
/// the lent target may need a power cycle and the upload failed. That target is then stopped; any
/// other lent target goes back to its place. Nothing is running any more.
pub proof fn lemma_ended_uploads_return_or_block(
    outcome: UploadOutcome,
    cancelled: bool,
    id: Seq<char>,
    index: usize,
)
    ensures
        forall|service: &mut ServiceManager, end: Option<UploadEnd>| #[trigger]
            call_ensures(
                ServiceManager::poll_startup_image,
                (service, outcome, cancelled),
                end,
            ) ==> {
                let blocked = final(service).startup_image_quarantine@.contains(id);
                let was_blocked = service.startup_image_quarantine@.contains(id);
                &&& end is Some <==> service.startup_image_job is Some
                &&& end is None ==> *final(service) == *service
                &&& end is Some ==> {
                    let job = service.startup_image_job->0;
                    &&& final(service).startup_image_job is None
                    &&& !final(service).startup_config_pending
                    &&& end->0.apply_config == service.startup_config_pending
                    &&& end->0.identity@ == job.identity@
                    &&& match outcome {
                        UploadOutcome::Panicked => {
                            &&& blocked <==> was_blocked || id == job.identity@
                            &&& end->0.target is Nothing
                            &&& final(service).targets@ == service.targets@
                        },
                        UploadOutcome::Ended { target, result, stopped, recovery_required } => {
                            let lost = target is Some && recovery_required && result is Err;
                            &&& blocked <==> was_blocked || lost && id == job.identity@
                            &&& target is None ==> end->0.target is Nothing
                            &&& lost ==> end->0.target == ReturnedTarget::Stop(target->0)
                            &&& target is Some && !lost ==> {
                                &&& end->0.target is Resume
                                &&& end->0.target->Resume_index == target->0.index
                                &&& end->0.target->Resume_reload == stopped
                                &&& final(service).targets@.contains_key(target->0.index)
                                &&& final(service).targets@[target->0.index] == target->0
                            }
                            &&& target is None || lost || index != target->0.index ==> {
                                &&& final(service).targets@.contains_key(index)
                                    <==> service.targets@.contains_key(index)
                                &&& final(service).targets@[index] == service.targets@[index]
                            }
                        },
                    }
                }
            },
{
}

/// Clients are told of the upload that they see: that it was transferred, and whether the panel
/// answered; that it was cancelled, when it failed after being cancelled and the panel is well; or
/// else the error, with advice where the panel may need a power cycle.
pub proof fn lemma_clients_learn_the_end(outcome: UploadOutcome, cancelled: bool)
    ensures
        forall|service: &mut ServiceManager, end: Option<UploadEnd>| #[trigger]
            call_ensures(
                ServiceManager::poll_startup_image,
                (service, outcome, cancelled),
                end,
            ) && end is Some ==> {
                let job = service.startup_image_job->0;
                let seen = service.startup_image is Some && service.startup_image->0.id == job.id;
                let status = final(service).startup_image->0.status@;
                let advice =
                    "Playback paused after an interrupted upload. Clear recovery in Installation Health or restart the daemon. Power-cycle the screen if it remains unresponsive."@;
                &&& !seen ==> final(service).startup_image == service.startup_image
                    && final(service).startup_image_cancel == service.startup_image_cancel
                &&& seen ==> {
                    &&& final(service).startup_image is Some
                    &&& final(service).startup_image->0.id == job.id
                    &&& !final(service).startup_image_cancel
                }
                &&& match outcome {
                    UploadOutcome::Panicked => {
                        &&& end->0.failure is Some
                        &&& end->0.failure->0@ == "Startup upload worker failed. "@ + advice
                        &&& seen ==> status == (StartupStateView::Failed {
                            message: "Startup upload worker failed. "@ + advice,
                        })
                    },
                    UploadOutcome::Ended { target, result, stopped, recovery_required } => match result {
                        Ok(answered) => {
                            &&& end->0.failure is None
                            &&& seen ==> status == (StartupStateView::Transferred {
                                response_received: answered,
                            })
                        },
                        Err(error) => {
                            &&& cancelled && !recovery_required ==> end->0.failure is None && (seen
                                ==> status is Cancelled)
                            &&& !cancelled && !recovery_required ==> end->0.failure is Some
                                && end->0.failure->0@ == error@ && (seen ==> status == (
                            StartupStateView::Failed { message: error@ }))
                            &&& recovery_required ==> end->0.failure is Some && end->0.failure->0@
                                == error@ + ". "@ + advice && (seen ==> status == (
                            StartupStateView::Failed { message: error@ + ". "@ + advice }))
                        },
                    },
                }
            },
{
}

} // verus!
