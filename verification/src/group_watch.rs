//! The recovery of LCD groups over time: one attempt at a time, with what each step decides.
use vstd::prelude::*;
use vstd::string::*;

use crate::bytes::copy_bytes;
use crate::group_recovery::{
    Decision, Group, GroupView, Owner, OwnerView, RecoveryState, MAX_ATTEMPTS, RETRY_DELAY,
    SETTLE_TIME,
};
use crate::lcd_groups::{group_views, mappings, only_mapping};
use crate::registry::{DiscoveredDevice, UsbDevice, V2HidEntry};
use crate::table::{IdSet, Table};
use crate::text::joined;
use crate::topology::{on_same_hub, same_hub, same_location, UsbLocation};

verus! {

/// How a recovery worker ended.
#[derive(Clone, Copy, Debug, PartialEq, Eq, Structural)]
pub enum WorkerOutcome {
    /// The reboot was sent.
    Sent,
    /// No reboot was needed any more.
    NotNeeded,
    Failed,
    Panicked,
}

/// What the end of a recovery worker is worth to the log.
#[derive(Clone, Copy, Debug, PartialEq, Eq, Structural)]
pub enum Report {
    Silent,
    RebootSent,
    RecoveryFailed,
    WorkerPanicked,
}

/// What is logged of a worker's end: a failure only when the worker was not cancelled.
pub open spec fn report_of(outcome: WorkerOutcome, cancelled: bool) -> Report {
    match outcome {
        WorkerOutcome::Sent => Report::RebootSent,
        WorkerOutcome::NotNeeded => Report::Silent,
        WorkerOutcome::Failed => if cancelled {
            Report::Silent
        } else {
            Report::RecoveryFailed
        },
        WorkerOutcome::Panicked => Report::WorkerPanicked,
    }
}

/// What to log of a worker's end.
pub fn finish_report(outcome: WorkerOutcome, cancelled: bool) -> (report: Report)
    ensures
        report == report_of(outcome, cancelled),
{
    match outcome {
        WorkerOutcome::Sent => Report::RebootSent,
        WorkerOutcome::NotNeeded => Report::Silent,
        WorkerOutcome::Failed => if cancelled {
            Report::Silent
        } else {
            Report::RecoveryFailed
        },
        WorkerOutcome::Panicked => Report::WorkerPanicked,
    }
}

/// The groups under observation and the attempt that is running.
pub struct LcdGroupRecovery {
    pub states: Table<String, RecoveryState>,
    /// The group that a worker is rebooting.
    pub job: Option<String>,
    pub settle_until: Option<u64>,
}

/// What is remembered of a group, new ones included.
pub open spec fn state_of(states: Map<Seq<char>, RecoveryState>, id: Seq<char>) -> RecoveryState {
    if states.contains_key(id) {
        states[id]
    } else {
        RecoveryState::initial()
    }
}

/// The result of looking at groups until one of them calls for a reboot.
#[verifier::ext_equal]
pub struct ScanView {
    pub states: Map<Seq<char>, RecoveryState>,
    pub exhausted: Seq<int>,
    pub reboot: Option<int>,
}

/// Looks at the groups from `from` on until one calls for a reboot.
pub open spec fn scan_from(
    states: Map<Seq<char>, RecoveryState>,
    groups: Seq<GroupView>,
    from: int,
    now: u64,
) -> ScanView
    decreases groups.len() - from,
{
    if from < 0 || from >= groups.len() {
        ScanView { states, exhausted: Seq::empty(), reboot: None }
    } else {
        let group = groups[from];
        let state = state_of(states, group.id);
        let missing = group.members.len() < group.expected;
        let seen = states.insert(group.id, state.observed(now, missing));
        match state.decision(now, missing) {
            Decision::Reboot => ScanView {
                states: seen,
                exhausted: Seq::empty(),
                reboot: Some(from),
            },
            Decision::Exhausted => {
                let rest = scan_from(seen, groups, from + 1, now);
                ScanView { exhausted: seq![from] + rest.exhausted, ..rest }
            },
            Decision::Wait => scan_from(seen, groups, from + 1, now),
        }
    }
}

/// Positions, as integers.
pub open spec fn positions(list: Seq<usize>) -> Seq<int> {
    list.map_values(|i: usize| i as int)
}

/// What a look at the groups found.
pub struct Scan {
    /// The groups whose attempts are used up, reported now.
    pub exhausted: Vec<usize>,
    /// The group to reboot.
    pub reboot: Option<usize>,
}

impl Scan {
    /// The group to reboot, as an integer.
    pub open spec fn reboot_view(self) -> Option<int> {
        match self.reboot {
            Some(i) => Some(i as int),
            None => None,
        }
    }
}

impl LcdGroupRecovery {
    /// Nothing observed yet.
    pub fn new() -> (recovery: Self)
        ensures
            recovery.states@ == Map::<Seq<char>, RecoveryState>::empty(),
            recovery.job is None,
            recovery.settle_until is None,
    {
        LcdGroupRecovery { states: Table::new(), job: None, settle_until: None }
    }

    /// An attempt is running, or USB is settling after one.
    pub open spec fn is_busy(self) -> bool {
        self.job is Some || self.settle_until is Some
    }

    /// Whether an attempt is running or USB is settling after one.
    pub fn busy(&self) -> (busy: bool)
        ensures
            busy == self.is_busy(),
    {
        self.job.is_some() || self.settle_until.is_some()
    }

    /// Notes the end of the running worker, if `finished` holds one, and lets USB settle after
    /// it. The result says what to log of which group.
    pub fn poll(&mut self, now: u64, finished: Option<WorkerOutcome>) -> (log: Option<
        (String, Report),
    >)
        requires
            old(self).job is Some && finished is Some ==> now + SETTLE_TIME <= u64::MAX,
        ensures
            final(self).states == old(self).states,
            old(self).job is Some && finished is Some ==> {
                &&& final(self).job is None
                &&& final(self).settle_until == Some((now + SETTLE_TIME) as u64)
                &&& log matches Some(entry) && entry.0 == old(self).job->0 && entry.1 == report_of(
                    finished->0,
                    false,
                )
            },
            !(old(self).job is Some && finished is Some) ==> {
                &&& log is None
                &&& final(self).job == old(self).job
                &&& final(self).settle_until == match old(self).settle_until {
                    Some(until) if now < until => Some(until),
                    _ => None::<u64>,
                }
            },
    {
        let mut log = None;
        if let Some(outcome) = finished {
            if self.job.is_some() {
                let job = self.job.take();
                if let Some(id) = job {
                    log = Some((id, finish_report(outcome, false)));
                }
                self.settle_until = Some(now + SETTLE_TIME);
            }
        }
        if let Some(until) = self.settle_until {
            if now >= until {
                self.settle_until = None;
            }
        }
        log
    }

    /// Gives up the running attempt, whose worker was cancelled and ended as `outcome` says.
    pub fn stop(&mut self, outcome: WorkerOutcome) -> (log: Option<(String, Report)>)
        ensures
            !final(self).is_busy(),
            final(self).states == old(self).states,
            log is Some <==> old(self).job is Some,
            log matches Some(entry) ==> entry.0 == old(self).job->0 && entry.1 == report_of(
                outcome,
                true,
            ),
    {
        let job = self.job.take();
        self.settle_until = None;
        match job {
            Some(id) => Some((id, finish_report(outcome, true))),
            None => None,
        }
    }

    /// Forgets every group whose receiver is gone.
    pub fn retain_present(&mut self, present: &IdSet)
        ensures
            final(self).states@ == old(self).states@.restrict(present@),
            final(self).job == old(self).job,
            final(self).settle_until == old(self).settle_until,
    {
        let ghost passes = |id: Seq<char>, state: RecoveryState| present@.contains(id);
        let keep = |id: &String, state: &RecoveryState| -> (stays: bool)
            ensures
                stays == present@.contains(id@),
            { present.contains(id) };
        self.states.retain(keep, Ghost(passes));
        assert(self.states@ =~= old(self).states@.restrict(present@));
    }

    /// Looks at the groups from `from` on, until one of them calls for a reboot.
    pub fn scan(&mut self, groups: &Vec<Group>, from: usize, now: u64) -> (scan: Scan)
        requires
            from <= groups@.len(),
        ensures
            ({
                let seen = scan_from(old(self).states@, group_views(groups@), from as int, now);
                &&& final(self).states@ == seen.states
                &&& positions(scan.exhausted@) == seen.exhausted
                &&& scan.reboot_view() == seen.reboot
            }),
            scan.reboot matches Some(i) ==> from <= i < groups@.len(),
            final(self).job == old(self).job,
            final(self).settle_until == old(self).settle_until,
    {
        let ghost all = group_views(groups@);
        let ghost goal = scan_from(self.states@, all, from as int, now);
        let mut exhausted: Vec<usize> = Vec::new();
        let mut i: usize = from;
        assert(positions(exhausted@) + goal.exhausted =~= goal.exhausted);
        while i < groups.len()
            invariant
                from <= i <= groups@.len(),
                all == group_views(groups@),
                goal == scan_from(old(self).states@, all, from as int, now),
                self.job == old(self).job,
                self.settle_until == old(self).settle_until,
                scan_from(self.states@, all, i as int, now).states == goal.states,
                scan_from(self.states@, all, i as int, now).reboot == goal.reboot,
                positions(exhausted@) + scan_from(self.states@, all, i as int, now).exhausted
                    == goal.exhausted,
            decreases groups@.len() - i,
        {
            let group = &groups[i];
            assert(all[i as int] == group@);
            let ghost states = self.states@;
            let mut state: RecoveryState = match self.states.get(&group.id) {
                Some(state) => *state,
                None => RecoveryState::default(),
            };
            let decision = state.observe(now, group.incomplete());
            self.states.insert(group.id.clone(), state);
            match decision {
                Decision::Wait => {},
                Decision::Exhausted => {
                    let ghost rest = scan_from(self.states@, all, i + 1, now);
                    let ghost reported = exhausted@;
                    exhausted.push(i);
                    assert(positions(exhausted@) + rest.exhausted =~= positions(reported) + (
                    seq![i as int] + rest.exhausted));
                },
                Decision::Reboot => {
                    assert(positions(exhausted@) + Seq::<int>::empty() =~= positions(exhausted@));
                    return Scan { exhausted, reboot: Some(i) };
                },
            }
            i += 1;
        }
        assert(positions(exhausted@) + Seq::<int>::empty() =~= positions(exhausted@));
        Scan { exhausted, reboot: None }
    }

    /// Notes that the panels of the group are being stopped for a reboot.
    pub fn attempt(&mut self, id: &String, now: u64)
        requires
            state_of(old(self).states@, id@).attempts < u8::MAX,
        ensures
            final(self).states@ == old(self).states@.insert(
                id@,
                state_of(old(self).states@, id@).after_attempt(now),
            ),
            final(self).job == old(self).job,
            final(self).settle_until == old(self).settle_until,
    {
        let mut state: RecoveryState = match self.states.get(id) {
            Some(state) => *state,
            None => RecoveryState::default(),
        };
        state.attempted(now);
        self.states.insert(id.clone(), state);
    }

    /// Notes whether the worker for the group could be started.
    pub fn started(&mut self, id: String, spawned: bool)
        ensures
            final(self).states == old(self).states,
            final(self).settle_until == old(self).settle_until,
            final(self).job == if spawned { Some(id) } else { old(self).job },
    {
        if spawned {
            self.job = Some(id);
        }
    }
}

/// A group that a scan wants to reboot has attempts left, was found incomplete, and is the first
/// such group: those before it were left waiting.
pub proof fn lemma_scan_picks_a_ripe_group(
    states: Map<Seq<char>, RecoveryState>,
    groups: Seq<GroupView>,
    from: int,
    now: u64,
)
    requires
        0 <= from <= groups.len(),
    ensures
        ({
            let scan = scan_from(states, groups, from, now);
            scan.reboot matches Some(i) ==> {
                &&& from <= i < groups.len()
                &&& groups[i].members.len() < groups[i].expected
                &&& state_of(scan.states, groups[i].id).attempts
                    < MAX_ATTEMPTS
                &&& state_of(scan.states, groups[i].id).ripe(now)
            }
        }),
    decreases groups.len() - from,
{
    if from < groups.len() {
        let group = groups[from];
        let state = state_of(states, group.id);
        let missing = group.members.len() < group.expected;
        let seen = states.insert(group.id, state.observed(now, missing));
        lemma_scan_picks_a_ripe_group(seen, groups, from + 1, now);
    }
}

/// A scan counts no attempts: that only starting one does.
pub proof fn lemma_scan_keeps_attempts(
    states: Map<Seq<char>, RecoveryState>,
    groups: Seq<GroupView>,
    from: int,
    now: u64,
    id: Seq<char>,
)
    requires
        0 <= from <= groups.len(),
    ensures
        state_of(scan_from(states, groups, from, now).states, id).attempts == state_of(
            states,
            id,
        ).attempts,
        state_of(scan_from(states, groups, from, now).states, id).last_attempt == state_of(
            states,
            id,
        ).last_attempt,
    decreases groups.len() - from,
{
    if from < groups.len() {
        let group = groups[from];
        let state = state_of(states, group.id);
        let missing = group.members.len() < group.expected;
        let seen = states.insert(group.id, state.observed(now, missing));
        assert(state_of(seen, id).attempts == state_of(states, id).attempts);
        assert(state_of(seen, id).last_attempt == state_of(states, id).last_attempt);
        lemma_scan_keeps_attempts(seen, groups, from + 1, now, id);
    }
}

/// When a scan calls for the reboot of a group that was rebooted before, the retry delay has
/// passed since.
pub proof fn lemma_scan_keeps_the_retry_delay(
    states: Map<Seq<char>, RecoveryState>,
    groups: Seq<GroupView>,
    from: int,
    now: u64,
)
    requires
        0 <= from <= groups.len(),
    ensures
        ({
            let scan = scan_from(states, groups, from, now);
            scan.reboot matches Some(i) ==> {
                &&& 0 <= i < groups.len()
                &&& state_of(states, groups[i].id).attempts < MAX_ATTEMPTS
                &&& state_of(states, groups[i].id).last_attempt matches Some(last) ==> last
                    + RETRY_DELAY <= now
            }
        }),
{
    lemma_scan_picks_a_ripe_group(states, groups, from, now);
    let scan = scan_from(states, groups, from, now);
    if let Some(i) = scan.reboot {
        lemma_scan_keeps_attempts(states, groups, from, now, groups[i].id);
    }
}

/// No group has used up more attempts than it gets.
pub open spec fn attempts_bounded(states: Map<Seq<char>, RecoveryState>) -> bool {
    forall|id: Seq<char>| #[trigger]
        states.contains_key(id) ==> states[id].attempts <= MAX_ATTEMPTS
}

/// No group ever uses up more attempts than it gets: not by a scan, not by the attempt that a
/// scan calls for, and not when other receivers are forgotten.
pub proof fn lemma_attempts_stay_bounded(
    states: Map<Seq<char>, RecoveryState>,
    groups: Seq<GroupView>,
    from: int,
    now: u64,
    present: Set<Seq<char>>,
)
    requires
        0 <= from <= groups.len(),
        attempts_bounded(states),
    ensures
        ({
            let scan = scan_from(states, groups, from, now);
            &&& attempts_bounded(states.restrict(present))
            &&& attempts_bounded(scan.states)
            &&& scan.reboot matches Some(i) ==> attempts_bounded(
                scan.states.insert(
                    groups[i].id,
                    state_of(scan.states, groups[i].id).after_attempt(now),
                ),
            )
        }),
{
    let scan = scan_from(states, groups, from, now);
    assert forall|id: Seq<char>| #[trigger] scan.states.contains_key(id) implies scan.states[id].attempts <= MAX_ATTEMPTS by {
        lemma_scan_keeps_attempts(states, groups, from, now, id);
    }
    lemma_scan_picks_a_ripe_group(states, groups, from, now);
}

/// The identities of the receivers that are connected.
pub open spec fn present_ids(devices: Seq<UsbDevice>, wireless: Seq<DiscoveredDevice>) -> Set<
    Seq<char>,
> {
    Set::new(
        |id: Seq<char>|
            {
                ||| exists|i: int| 0 <= i < devices.len() && (#[trigger] devices[i]).device_id@ == id
                ||| exists|i: int|
                    0 <= i < wireless.len() && "wireless:"@ + (#[trigger] wireless[i]).mac_text@
                        == id
            },
    )
}

/// Collects the identities of the receivers that are connected.
pub fn present_receivers(devices: &Vec<UsbDevice>, wireless: &Vec<DiscoveredDevice>) -> (present:
    IdSet)
    ensures
        present@ == present_ids(devices@, wireless@),
{
    let mut present = IdSet::new();
    let mut i: usize = 0;
    while i < devices.len()
        invariant
            i <= devices@.len(),
            forall|id: Seq<char>| #[trigger]
                present@.contains(id) <==> exists|j: int|
                    0 <= j < i && (#[trigger] devices@[j]).device_id@ == id,
        decreases devices@.len() - i,
    {
        let ghost before = present@;
        present.insert(devices[i].device_id.clone());
        assert forall|id: Seq<char>| #[trigger] present@.contains(id) implies exists|j: int|
            0 <= j < i + 1 && (#[trigger] devices@[j]).device_id@ == id by {
            if !before.contains(id) {
                assert(devices@[i as int].device_id@ == id);
            }
        }
        i += 1;
    }
    let ghost wired = present@;
    let mut k: usize = 0;
    while k < wireless.len()
        invariant
            k <= wireless@.len(),
            forall|id: Seq<char>| #[trigger]
                present@.contains(id) <==> wired.contains(id) || exists|j: int|
                    0 <= j < k && "wireless:"@ + (#[trigger] wireless@[j]).mac_text@ == id,
        decreases wireless@.len() - k,
    {
        let ghost before = present@;
        present.insert(joined("wireless:", &wireless[k].mac_text));
        assert forall|id: Seq<char>| #[trigger] present@.contains(id) implies wired.contains(id)
            || exists|j: int|
            0 <= j < k + 1 && "wireless:"@ + (#[trigger] wireless@[j]).mac_text@ == id by {
            if !before.contains(id) {
                assert("wireless:"@ + wireless@[k as int].mac_text@ == id);
            }
        }
        k += 1;
    }
    assert(present@ =~= present_ids(devices@, wireless@));
    present
}

/// What a USB call can fail with, as far as it matters here.
#[derive(Clone, Copy, Debug, PartialEq, Eq, Structural)]
pub enum UsbError {
    NoDevice,
    Timeout,
    Pipe,
    Other,
}

/// One link in the chain of causes of an error.
#[derive(Clone, Copy, Debug, PartialEq, Eq, Structural)]
pub enum Cause {
    /// A USB error.
    Usb(UsbError),
    /// A transport error that stems from a USB error.
    Transport(UsbError),
    Other,
}

/// The error comes from a device that is gone.
pub open spec fn stems_from_no_device(causes: Seq<Cause>) -> bool {
    causes.contains(Cause::Usb(UsbError::NoDevice)) || causes.contains(
        Cause::Transport(UsbError::NoDevice),
    )
}

/// Whether an error, given by its chain of causes, comes from a device that is gone.
pub fn device_disconnected(causes: &Vec<Cause>) -> (gone: bool)
    ensures
        gone == stems_from_no_device(causes@),
{
    let mut i: usize = 0;
    while i < causes.len()
        invariant
            i <= causes@.len(),
            forall|j: int|
                0 <= j < i ==> causes@[j] != Cause::Usb(UsbError::NoDevice) && causes@[j]
                    != Cause::Transport(UsbError::NoDevice),
        decreases causes@.len() - i,
    {
        if causes[i] == Cause::Usb(UsbError::NoDevice) || causes[i] == Cause::Transport(
            UsbError::NoDevice,
        ) {
            assert(causes@.contains(causes@[i as int]));
            return true;
        }
        i += 1;
    }
    false
}

/// How stopping one panel ended: not at all badly, or with an error of these causes.
pub enum Teardown {
    Stopped,
    Failed(Vec<Cause>),
}

/// Stopping the panel failed, and not because it is gone.
pub open spec fn teardown_failed(teardown: Teardown) -> bool {
    teardown matches Teardown::Failed(causes) && !stems_from_no_device(causes@)
}

/// Some panel could not be stopped although it is there.
pub open spec fn some_teardown_failed(teardowns: Seq<Teardown>) -> bool {
    exists|i: int| 0 <= i < teardowns.len() && teardown_failed(#[trigger] teardowns[i])
}

/// The first panel that could not be stopped although it is there.
pub fn teardown_error(teardowns: &Vec<Teardown>) -> (first: Option<usize>)
    ensures
        first is Some <==> some_teardown_failed(teardowns@),
        first is None <==> forall|i: int|
            0 <= i < teardowns@.len() ==> !teardown_failed(#[trigger] teardowns@[i]),
        first matches Some(k) ==> {
            &&& k < teardowns@.len()
            &&& teardown_failed(teardowns@[k as int])
            &&& forall|i: int| 0 <= i < k ==> !teardown_failed(#[trigger] teardowns@[i])
        },
{
    let mut i: usize = 0;
    while i < teardowns.len()
        invariant
            i <= teardowns@.len(),
            forall|j: int| 0 <= j < i ==> !teardown_failed(#[trigger] teardowns@[j]),
        decreases teardowns@.len() - i,
    {
        if let Teardown::Failed(causes) = &teardowns[i] {
            if !device_disconnected(causes) {
                assert(teardown_failed(teardowns@[i as int]));
                return Some(i);
            }
        }
        i += 1;
    }
    None
}

/// Why the USB tree could not be read.
#[derive(Clone, Copy, Debug, PartialEq, Eq, Structural)]
pub enum ScanError {
    /// The devices could not be listed.
    List,
    /// The descriptor of the device at this position could not be read.
    Descriptor(usize),
    /// The port path of the device at this position could not be read.
    Ports(usize),
}

/// A device on the USB tree.
pub enum ScannedDevice {
    /// Its descriptor could not be read.
    Unreadable,
    /// Its port path is missing when it could not be read.
    Found { vid: u16, pid: u16, bus: u8, ports: Option<Vec<u8>> },
}

/// The device is a receiver that anchors groups.
pub open spec fn is_anchor(vid: u16, pid: u16) -> bool {
    ||| vid == 0x43a8 && (pid == 0x0102 || pid == 0x0104)
    ||| vid == 0x1a86 && pid == 0x2107
}

/// The device bears on the group: it is one of its product's panels, or a receiver.
pub open spec fn is_relevant(group: GroupView, vid: u16, pid: u16) -> bool {
    vid == 0x1cbe && pid == group.lcd_pid || is_anchor(vid, pid)
}

/// What the device alone settles about the group, if anything: it cannot be read, or it is
/// another receiver behind the same hub.
pub open spec fn settles(group: GroupView, device: ScannedDevice, at: usize) -> Option<
    Result<bool, ScanError>,
> {
    match device {
        ScannedDevice::Unreadable => Some(Err(ScanError::Descriptor(at))),
        ScannedDevice::Found { vid, pid, bus, ports } => if !is_relevant(group, vid, pid) {
            None
        } else {
            match ports {
                None => Some(Err(ScanError::Ports(at))),
                Some(ports) => if vid != 0x1cbe && (bus, ports@) != group.location && on_same_hub(
                    group.location,
                    (bus, ports@),
                ) {
                    Some(Ok(false))
                } else {
                    None
                },
            }
        },
    }
}

/// The device is the receiver of the group, at its place.
pub open spec fn anchors(group: GroupView, device: ScannedDevice) -> bool {
    device matches ScannedDevice::Found { vid, pid, bus, ports: Some(ports) } && is_anchor(vid, pid)
        && (bus, ports@) == group.location
}

/// The device is a panel of the group.
pub open spec fn is_member(group: GroupView, device: ScannedDevice) -> bool {
    device matches ScannedDevice::Found { vid, pid, bus, ports: Some(ports) } && vid == 0x1cbe
        && pid == group.lcd_pid && on_same_hub(group.location, (bus, ports@))
}

/// The panels of the group among the listed devices.
pub open spec fn member_count(group: GroupView, devices: Seq<ScannedDevice>) -> nat {
    devices.filter(|device: ScannedDevice| is_member(group, device)).len()
}

/// A position from which no earlier device settles anything.
pub open spec fn unsettled_before(group: GroupView, devices: Seq<ScannedDevice>, at: int) -> bool {
    forall|i: int| 0 <= i < at ==> settles(group, #[trigger] devices[i], i as usize) is None
}

/// The USB companion of a wireless group is still the one, at the place, that it was.
pub open spec fn still_mapped(group: GroupView, entries: Seq<V2HidEntry>) -> bool {
    group.owner matches OwnerView::Wireless(mac) ==> {
        &&& mappings(entries, mac).len() == 1
        &&& (mappings(entries, mac)[0].bus, mappings(entries, mac)[0].port_numbers@)
            == group.location
    }
}

fn companion_unmoved(group: &Group, entries: &Vec<V2HidEntry>) -> (unmoved: bool)
    ensures
        unmoved == still_mapped(group@, entries@),
{
    match &group.owner {
        Owner::Wired(_) => true,
        Owner::Wireless(mac) => match only_mapping(entries, mac) {
            Some(entry) => {
                let place: UsbLocation = (entry.bus, copy_bytes(&entry.port_numbers));
                same_location(&place, &group.location)
            },
            None => false,
        },
    }
}

/// What the listed devices say of the group: the first device that settles the question decides;
/// without one, the group is missing panels when its receiver is there and too few panels are.
pub open spec fn tree_shows(
    group: GroupView,
    devices: Seq<ScannedDevice>,
    missing: Result<bool, ScanError>,
) -> bool {
    if unsettled_before(group, devices, devices.len() as int) {
        missing == Ok::<bool, ScanError>(
            (exists|i: int| 0 <= i < devices.len() && anchors(group, #[trigger] devices[i]))
                && member_count(group, devices) < group.expected,
        )
    } else {
        exists|i: int|
            0 <= i < devices.len() && unsettled_before(group, devices, i) && (#[trigger] settles(
                group,
                devices[i],
                i as usize,
            )) == Some(missing)
    }
}

/// Whether a fresh look at the USB tree still shows the receiver of the group, alone behind its
/// hub, with fewer panels than it reports.
pub fn group_still_missing(
    group: &Group,
    entries: &Vec<V2HidEntry>,
    devices: &Result<Vec<ScannedDevice>, ScanError>,
) -> (missing: Result<bool, ScanError>)
    requires
        devices matches Ok(devices) ==> member_count(group@, devices@) <= u8::MAX,
    ensures
        !still_mapped(group@, entries@) ==> missing == Ok::<bool, ScanError>(false),
        still_mapped(group@, entries@) ==> match devices {
            Err(error) => missing == Err::<bool, ScanError>(*error),
            Ok(devices) => tree_shows(group@, devices@, missing),
        },
{
    if !companion_unmoved(group, entries) {
        return Ok(false);
    }
    match devices {
        Ok(devices) => read_tree(group, devices),
        Err(error) => Err(*error),
    }
}

fn read_tree(group: &Group, devices: &Vec<ScannedDevice>) -> (missing: Result<bool, ScanError>)
    requires
        member_count(group@, devices@) <= u8::MAX,
    ensures
        tree_shows(group@, devices@, missing),
{
    let ghost keep = |device: ScannedDevice| is_member(group@, device);
    let mut present: u8 = 0;
    let mut anchor_present = false;
    let mut i: usize = 0;
    proof {
        reveal(Seq::filter);
    }
    assert(devices@.take(0).filter(keep).len() == 0);
    while i < devices.len()
        invariant
            i <= devices@.len(),
            keep == (|device: ScannedDevice| is_member(group@, device)),
            devices@.filter(keep).len() <= u8::MAX,
            unsettled_before(group@, devices@, i as int),
            present == devices@.take(i as int).filter(keep).len(),
            anchor_present == exists|j: int|
                0 <= j < i && anchors(group@, #[trigger] devices@[j]),
        decreases devices@.len() - i,
    {
        let ghost at = i;
        let ghost anchored = anchor_present;
        proof {
            crate::table::lemma_filter_push(devices@.take(i as int), devices@[i as int], keep);
            assert(devices@.take(i + 1) =~= devices@.take(i as int).push(devices@[i as int]));
            lemma_filter_of_prefix(devices@, i + 1, keep);
        }
        match &devices[i] {
            ScannedDevice::Unreadable => {
                assert(settles(group@, devices@[i as int], i) == Some(
                    Err::<bool, ScanError>(ScanError::Descriptor(i)),
                ));
                return Err(ScanError::Descriptor(i));
            },
            ScannedDevice::Found { vid, pid, bus, ports } => {
                let vid: u16 = *vid;
                let pid: u16 = *pid;
                let panel = vid == 0x1cbe && pid == group.lcd_pid;
                let receiver = (vid == 0x43a8 && (pid == 0x0102 || pid == 0x0104)) || (vid == 0x1a86
                    && pid == 0x2107);
                if panel || receiver {
                    let place: UsbLocation = match ports {
                        Some(ports) => (*bus, copy_bytes(ports)),
                        None => {
                            assert(settles(group@, devices@[i as int], i) == Some(
                                Err::<bool, ScanError>(ScanError::Ports(i)),
                            ));
                            return Err(ScanError::Ports(i));
                        },
                    };
                    let here = same_location(&place, &group.location);
                    let sibling = same_hub(&group.location, &place);
                    if receiver && !here && sibling {
                        assert(settles(group@, devices@[i as int], i) == Some(
                            Ok::<bool, ScanError>(false),
                        ));
                        return Ok(false);
                    }
                    if receiver && here {
                        assert(anchors(group@, devices@[i as int]));
                        anchor_present = true;
                    }
                    if panel && sibling {
                        present = present + 1;
                    }
                }
            },
        }
        i += 1;
        proof {
            assert(anchors(group@, devices@[at as int]) || anchored == anchor_present);
        }
    }
    assert(devices@.take(i as int) =~= devices@);
    Ok(anchor_present && present < group.expected)
}

proof fn lemma_filter_of_prefix<A>(list: Seq<A>, n: int, keep: spec_fn(A) -> bool)
    requires
        0 <= n <= list.len(),
    ensures
        list.take(n).filter(keep).len() <= list.filter(keep).len(),
    decreases list.len() - n,
{
    if n == list.len() {
        assert(list.take(n) =~= list);
    } else {
        crate::table::lemma_filter_push(list.take(n), list[n], keep);
        assert(list.take(n + 1) =~= list.take(n).push(list[n]));
        lemma_filter_of_prefix(list, n + 1, keep);
    }
}

/// What the recovery worker does next.
#[derive(Clone, Copy, Debug, PartialEq, Eq, Structural)]
pub enum WorkerStep {
    /// Look at the USB tree once more.
    Verify,
    /// Send the reboot.
    Reboot,
    /// End: nothing was sent.
    Leave,
    /// End with the error at hand.
    Fail,
}

/// What follows once the panels of the group were told to stop.
pub fn after_teardown(teardowns: &Vec<Teardown>, stopping: bool) -> (step: WorkerStep)
    ensures
        step == if exists|i: int|
            0 <= i < teardowns@.len() && teardown_failed(#[trigger] teardowns@[i]) {
            WorkerStep::Fail
        } else if stopping {
            WorkerStep::Leave
        } else {
            WorkerStep::Verify
        },
        step is Fail <==> some_teardown_failed(teardowns@),
        step is Leave <==> !some_teardown_failed(teardowns@) && stopping,
{
    if teardown_error(teardowns).is_some() {
        WorkerStep::Fail
    } else if stopping {
        WorkerStep::Leave
    } else {
        WorkerStep::Verify
    }
}

/// What follows a fresh look at the USB tree.
pub fn after_verify(missing: Result<bool, ScanError>, stopping: bool) -> (step: WorkerStep)
    ensures
        step == match missing {
            Err(_) => WorkerStep::Fail,
            Ok(missing) => if missing && !stopping {
                WorkerStep::Reboot
            } else {
                WorkerStep::Leave
            },
        },
{
    match missing {
        Err(_) => WorkerStep::Fail,
        Ok(missing) => if missing && !stopping {
            WorkerStep::Reboot
        } else {
            WorkerStep::Leave
        },
    }
}

/// A sent reboot and a panic are always reported, a failure unless the worker was cancelled, and a
/// reboot that was not needed never.
pub proof fn lemma_failures_are_reported_unless_cancelled(
    outcome: WorkerOutcome,
    cancelled: bool,
    report: Report,
)
    requires
        call_ensures(finish_report, (outcome, cancelled), report),
    ensures
        report is RebootSent <==> outcome is Sent,
        report is WorkerPanicked <==> outcome is Panicked,
        report is RecoveryFailed <==> outcome is Failed && !cancelled,
        report is Silent <==> outcome is NotNeeded || outcome is Failed && cancelled,
{
}

/// A worker that ended leaves USB six seconds to settle and is reported under the group that it
/// was for. Without one, the settling ends when its time has come.
pub proof fn lemma_usb_settles_after_a_worker(now: u64, finished: Option<WorkerOutcome>)
    ensures
        forall|recovery: &mut LcdGroupRecovery, log: Option<(String, Report)>| #[trigger]
            call_ensures(LcdGroupRecovery::poll, (recovery, now, finished), log) && now
                + 6_000_000_000 <= u64::MAX ==> {
                let ended = recovery.job is Some && finished is Some;
                let entry = log->0;
                &&& log is Some <==> ended
                &&& ended ==> {
                    &&& entry.0 == recovery.job->0
                    &&& entry.1 is RebootSent <==> finished->0 is Sent
                    &&& entry.1 is Silent <==> finished->0 is NotNeeded
                    &&& entry.1 is RecoveryFailed <==> finished->0 is Failed
                    &&& final(recovery).job is None
                    &&& final(recovery).settle_until is Some
                    &&& final(recovery).settle_until->0 - now == 6_000_000_000
                }
                &&& !ended ==> {
                    &&& final(recovery).job == recovery.job
                    &&& final(recovery).settle_until is Some <==> recovery.settle_until is Some
                        && recovery.settle_until->0 > now
                    &&& final(recovery).settle_until is Some ==> final(recovery).settle_until
                        == recovery.settle_until
                }
                &&& final(recovery).states == recovery.states
            },
{
}

/// A stopped attempt leaves nothing running and nothing to wait for. Only a running one is
/// reported, and a failure of it is not.
pub proof fn lemma_stopping_ends_the_attempt(outcome: WorkerOutcome)
    ensures
        forall|recovery: &mut LcdGroupRecovery, log: Option<(String, Report)>| #[trigger]
            call_ensures(LcdGroupRecovery::stop, (recovery, outcome), log) ==> {
                let entry = log->0;
                &&& final(recovery).job is None && final(recovery).settle_until is None
                &&& final(recovery).states == recovery.states
                &&& log is Some <==> recovery.job is Some
                &&& log is Some ==> {
                    &&& entry.0 == recovery.job->0
                    &&& entry.1 is RebootSent <==> outcome is Sent
                    &&& entry.1 is WorkerPanicked <==> outcome is Panicked
                    &&& entry.1 is Silent <==> outcome is NotNeeded || outcome is Failed
                }
            },
{
}

/// The recovery is busy exactly while a worker runs or USB settles.
pub proof fn lemma_busy_while_running_or_settling(recovery: LcdGroupRecovery, busy: bool)
    requires
        call_ensures(LcdGroupRecovery::busy, (&recovery,), busy),
    ensures
        !busy <==> recovery.job is None && recovery.settle_until is None,
{
}

/// A receiver that is present keeps what is remembered of it; one that is gone is forgotten.
pub proof fn lemma_only_absent_receivers_are_forgotten(present: &IdSet, id: Seq<char>)
    ensures
        forall|recovery: &mut LcdGroupRecovery| #[trigger]
            call_ensures(LcdGroupRecovery::retain_present, (recovery, present), ()) ==> {
                &&& final(recovery).states@.contains_key(id) <==> recovery.states@.contains_key(id)
                    && present@.contains(id)
                &&& final(recovery).states@.contains_key(id) ==> final(recovery).states@[id]
                    == recovery.states@[id]
            },
{
}

proof fn lemma_scan_at(
    states: Map<Seq<char>, RecoveryState>,
    groups: Seq<GroupView>,
    from: int,
    now: u64,
    i: int,
)
    requires
        0 <= from <= i < groups.len(),
        forall|a: int, b: int|
            from <= a < b < groups.len() ==> (#[trigger] groups[a]).id != (#[trigger] groups[b]).id,
    ensures
        ({
            let scan = scan_from(states, groups, from, now);
            let id = groups[i].id;
            let state = state_of(states, id);
            let decision = state.decision(now, groups[i].members.len() < groups[i].expected);
            &&& scan.reboot matches Some(r) ==> (r < i ==> {
                &&& scan.states.contains_key(id) <==> states.contains_key(id)
                &&& scan.states[id] == states[id]
                &&& !scan.exhausted.contains(i)
            })
            &&& (scan.reboot is None || scan.reboot->0 >= i) ==> {
                &&& scan.states.contains_key(id)
                &&& scan.states[id] == state.observed(
                    now,
                    groups[i].members.len() < groups[i].expected,
                )
                &&& scan.exhausted.contains(i) <==> decision is Exhausted
                &&& scan.reboot == Some(i) <==> decision is Reboot
            }
            &&& forall|k: int| scan.exhausted.contains(k) ==> from <= k < groups.len()
            &&& scan.reboot matches Some(r) ==> from <= r < groups.len()
        }),
    decreases groups.len() - from,
{
    let group = groups[from];
    let state = state_of(states, group.id);
    let missing = group.members.len() < group.expected;
    let seen = states.insert(group.id, state.observed(now, missing));
    let rest = scan_from(seen, groups, from + 1, now);
    let scan = scan_from(states, groups, from, now);
    if from + 1 < groups.len() && from < i {
        lemma_scan_at(seen, groups, from + 1, now, i);
        assert(groups[from].id != groups[i].id);
    } else if from + 1 < groups.len() {
        lemma_scan_keeps_others(seen, groups, from + 1, now, group.id);
    }
    if state.decision(now, missing) is Exhausted {
        assert(scan.exhausted =~= seq![from] + rest.exhausted);
        assert(scan.exhausted[0] == from);
        assert forall|k: int| scan.exhausted.contains(k) implies k == from
            || rest.exhausted.contains(k) by {
            let at = choose|at: int| 0 <= at < scan.exhausted.len() && scan.exhausted[at] == k;
            if at > 0 {
                assert(rest.exhausted[at - 1] == k);
            }
        }
        assert forall|k: int| rest.exhausted.contains(k) implies scan.exhausted.contains(k) by {
            let at = choose|at: int| 0 <= at < rest.exhausted.len() && rest.exhausted[at] == k;
            assert(scan.exhausted[at + 1] == k);
        }
    }
}

proof fn lemma_scan_keeps_others(
    states: Map<Seq<char>, RecoveryState>,
    groups: Seq<GroupView>,
    from: int,
    now: u64,
    id: Seq<char>,
)
    requires
        0 <= from <= groups.len(),
        forall|a: int| from <= a < groups.len() ==> (#[trigger] groups[a]).id != id,
    ensures
        ({
            let scan = scan_from(states, groups, from, now);
            &&& scan.states.contains_key(id) <==> states.contains_key(id)
            &&& scan.states[id] == states[id]
            &&& forall|k: int| scan.exhausted.contains(k) ==> from <= k < groups.len()
            &&& scan.reboot matches Some(r) ==> from <= r < groups.len()
        }),
    decreases groups.len() - from,
{
    if from < groups.len() {
        let group = groups[from];
        let state = state_of(states, group.id);
        let missing = group.members.len() < group.expected;
        let seen = states.insert(group.id, state.observed(now, missing));
        lemma_scan_keeps_others(seen, groups, from + 1, now, id);
        let rest = scan_from(seen, groups, from + 1, now);
        let scan = scan_from(states, groups, from, now);
        assert forall|k: int| scan.exhausted.contains(k) implies from <= k < groups.len() by {
            if state.decision(now, missing) is Exhausted {
                assert(scan.exhausted =~= seq![from] + rest.exhausted);
                let at = choose|at: int| 0 <= at < scan.exhausted.len() && scan.exhausted[at] == k;
                if at > 0 {
                    assert(rest.exhausted[at - 1] == k);
                    assert(rest.exhausted.contains(k));
                }
            } else if state.decision(now, missing) is Wait {
                assert(rest.exhausted.contains(k));
            }
        }
    }
}

/// A scan looks at one group after the other, up to the first that is due for a reboot, and at no
/// group behind that. A group is due when it has had fewer panels than expected for ten seconds
/// and its last attempt is thirty seconds past. Due with both attempts made, it is reported, once.
pub proof fn lemma_scans_stop_at_the_first_reboot(
    groups: &Vec<Group>,
    from: usize,
    now: u64,
    i: int,
)
    requires
        0 <= from <= i < groups@.len(),
        forall|a: int, b: int|
            from <= a < b < groups@.len() ==> (#[trigger] groups@[a]).id@ != (
            #[trigger] groups@[b]).id@,
    ensures
        forall|recovery: &mut LcdGroupRecovery, scan: Scan| #[trigger]
            call_ensures(LcdGroupRecovery::scan, (recovery, groups, from, now), scan) ==> {
                let id = groups@[i].id@;
                let known = recovery.states@.contains_key(id);
                let before = recovery.states@[id];
                let missing = groups@[i].members@.len() < groups@[i].expected;
                let since = if known && before.missing_since is Some {
                    before.missing_since->0
                } else {
                    now
                };
                let attempts = if known {
                    before.attempts as int
                } else {
                    0
                };
                let due = missing && now - since >= 10_000_000_000 && (!known
                    || before.last_attempt is None || now - before.last_attempt->0
                    >= 30_000_000_000);
                let after = final(recovery).states@[id];
                let passed = scan.reboot is Some && scan.reboot->0 < i;
                &&& passed ==> {
                    &&& final(recovery).states@.contains_key(id) <==> known
                    &&& after == before
                    &&& forall|k: int| 0 <= k < scan.exhausted@.len() ==> scan.exhausted@[k] != i
                }
                &&& !passed ==> {
                    &&& final(recovery).states@.contains_key(id)
                    &&& after.missing_since == if missing {
                        Some(since)
                    } else {
                        None
                    }
                    &&& after.attempts == attempts
                    &&& after.last_attempt == if known {
                        before.last_attempt
                    } else {
                        None
                    }
                    &&& (scan.reboot is Some && scan.reboot->0 == i) <==> due && attempts < 2
                    &&& (exists|k: int|
                        0 <= k < scan.exhausted@.len() && #[trigger] scan.exhausted@[k] == i)
                        <==> due && attempts >= 2 && !(known && before.exhausted)
                    &&& after.exhausted <==> known && before.exhausted || due && attempts >= 2
                }
                &&& final(recovery).job == recovery.job
                &&& final(recovery).settle_until == recovery.settle_until
            },
{
    let all = group_views(groups@);
    assert forall|a: int, b: int| from <= a < b < all.len() implies (#[trigger] all[a]).id != (
    #[trigger] all[b]).id by {
        assert(groups@[a].id@ != groups@[b].id@);
    }
    assert(all[i] == groups@[i]@);
    assert forall|recovery: &mut LcdGroupRecovery, scan: Scan| #[trigger]
        call_ensures(LcdGroupRecovery::scan, (recovery, groups, from, now), scan) implies {
        let seen = scan_from(recovery.states@, all, from as int, now);
        &&& (exists|k: int| 0 <= k < scan.exhausted@.len() && #[trigger] scan.exhausted@[k] == i)
            <==> seen.exhausted.contains(i)
        &&& seen.reboot == scan.reboot_view()
        &&& final(recovery).states@ == seen.states
    } by {
        let seen = scan_from(recovery.states@, all, from as int, now);
        assert(positions(scan.exhausted@) == seen.exhausted);
        if seen.exhausted.contains(i) {
            let k = choose|k: int| 0 <= k < seen.exhausted.len() && seen.exhausted[k] == i;
            assert(scan.exhausted@[k] == i);
        }
        if exists|k: int| 0 <= k < scan.exhausted@.len() && #[trigger] scan.exhausted@[k] == i {
            let k = choose|k: int| 0 <= k < scan.exhausted@.len() && #[trigger] scan.exhausted@[k]
                == i;
            assert(seen.exhausted[k] == i);
        }
    }
    assert forall|states: Map<Seq<char>, RecoveryState>| {
        let scan = #[trigger] scan_from(states, all, from as int, now);
        let id = all[i].id;
        let state = state_of(states, id);
        let missing = all[i].members.len() < all[i].expected;
        let decision = state.decision(now, missing);
        &&& scan.reboot matches Some(r) ==> (r < i ==> {
            &&& scan.states.contains_key(id) <==> states.contains_key(id)
            &&& scan.states[id] == states[id]
            &&& !scan.exhausted.contains(i)
        })
        &&& (scan.reboot is None || scan.reboot->0 >= i) ==> {
            &&& scan.states.contains_key(id)
            &&& scan.states[id] == state.observed(now, missing)
            &&& scan.exhausted.contains(i) <==> decision is Exhausted
            &&& scan.reboot == Some(i) <==> decision is Reboot
        }
    } by {
        lemma_scan_at(states, all, from as int, now, i);
    }
}

/// An attempt on a group is counted for that group, from the first on, and for no other.
pub proof fn lemma_attempts_are_counted_per_group(id: &String, now: u64, other: Seq<char>)
    ensures
        forall|recovery: &mut LcdGroupRecovery| #[trigger]
            call_ensures(LcdGroupRecovery::attempt, (recovery, id, now), ()) ==> {
                let known = recovery.states@.contains_key(id@);
                let before = recovery.states@[id@];
                let after = final(recovery).states@[id@];
                &&& final(recovery).states@.contains_key(id@)
                &&& known && before.attempts < 255 ==> after.attempts == before.attempts + 1
                &&& !known ==> after.attempts == 1
                &&& after.last_attempt == Some(now)
                &&& after.missing_since == if known {
                    before.missing_since
                } else {
                    None
                }
                &&& after.exhausted <==> known && before.exhausted
                &&& other != id@ ==> {
                    &&& final(recovery).states@.contains_key(other)
                        <==> recovery.states@.contains_key(other)
                    &&& final(recovery).states@[other] == recovery.states@[other]
                }
                &&& final(recovery).job == recovery.job
                &&& final(recovery).settle_until == recovery.settle_until
            },
{
}

/// A worker that was started is the running one; one that was not changes nothing.
pub proof fn lemma_a_started_worker_is_the_job(id: String, spawned: bool)
    ensures
        forall|recovery: &mut LcdGroupRecovery| #[trigger]
            call_ensures(LcdGroupRecovery::started, (recovery, id, spawned), ()) ==> {
                &&& spawned ==> final(recovery).job == Some(id)
                &&& !spawned ==> final(recovery).job == recovery.job
                &&& final(recovery).states == recovery.states
                &&& final(recovery).settle_until == recovery.settle_until
            },
{
}

/// The connected receivers are the USB devices and the wireless ones, and nothing else.
pub proof fn lemma_present_receivers_are_listed(
    devices: &Vec<UsbDevice>,
    wireless: &Vec<DiscoveredDevice>,
    present: IdSet,
    id: Seq<char>,
)
    requires
        call_ensures(present_receivers, (devices, wireless), present),
    ensures
        present@.contains(id) <==> {
            ||| exists|i: int| 0 <= i < devices@.len() && (#[trigger] devices@[i]).device_id@ == id
            ||| exists|i: int|
                0 <= i < wireless@.len() && "wireless:"@ + (#[trigger] wireless@[i]).mac_text@ == id
        },
{
}

/// A device is gone when one of the causes is the USB error that says so, by itself or inside a
/// transport error.
pub proof fn lemma_gone_devices_are_recognised(causes: &Vec<Cause>, gone: bool)
    requires
        call_ensures(device_disconnected, (causes,), gone),
    ensures
        gone <==> exists|i: int|
            0 <= i < causes@.len() && (#[trigger] causes@[i] == Cause::Usb(UsbError::NoDevice)
                || causes@[i] == Cause::Transport(UsbError::NoDevice)),
{
    if gone {
        if causes@.contains(Cause::Usb(UsbError::NoDevice)) {
            let i = choose|i: int|
                0 <= i < causes@.len() && causes@[i] == Cause::Usb(UsbError::NoDevice);
            assert(causes@[i] == Cause::Usb(UsbError::NoDevice));
        } else {
            let i = choose|i: int|
                0 <= i < causes@.len() && causes@[i] == Cause::Transport(UsbError::NoDevice);
            assert(causes@[i] == Cause::Transport(UsbError::NoDevice));
        }
    }
}

/// The worker goes on to verify only when every panel stopped or was gone already. The first panel
/// that failed otherwise is the one that is reported.
pub proof fn lemma_teardowns_are_forgiven_for_gone_panels(
    teardowns: &Vec<Teardown>,
    stopping: bool,
    step: WorkerStep,
    first: Option<usize>,
    i: int,
)
    requires
        call_ensures(after_teardown, (teardowns, stopping), step),
        call_ensures(teardown_error, (teardowns,), first),
        0 <= i < teardowns@.len(),
    ensures
        step is Fail <==> first is Some,
        step is Leave <==> first is None && stopping,
        step is Verify <==> first is None && !stopping,
        ({
            let bad = teardowns@[i] matches Teardown::Failed(causes) && forall|k: int|
                0 <= k < causes@.len() ==> (#[trigger] causes@[k]) != Cause::Usb(
                    UsbError::NoDevice,
                ) && causes@[k] != Cause::Transport(UsbError::NoDevice);
            &&& bad ==> first is Some && first->0 <= i
            &&& !bad ==> first != Some(i as usize)
        }),
        first matches Some(k) ==> k < teardowns@.len(),
{
    assert(teardowns.len() == teardowns@.len());
    if let Teardown::Failed(causes) = teardowns@[i] {
        if stems_from_no_device(causes@) {
            if causes@.contains(Cause::Usb(UsbError::NoDevice)) {
                let k = choose|k: int|
                    0 <= k < causes@.len() && causes@[k] == Cause::Usb(UsbError::NoDevice);
                assert(causes@[k] == Cause::Usb(UsbError::NoDevice));
            } else {
                let k = choose|k: int|
                    0 <= k < causes@.len() && causes@[k] == Cause::Transport(UsbError::NoDevice);
                assert(causes@[k] == Cause::Transport(UsbError::NoDevice));
            }
            assert(!teardown_failed(teardowns@[i]));
        } else {
            assert forall|k: int| 0 <= k < causes@.len() implies (#[trigger] causes@[k])
                != Cause::Usb(UsbError::NoDevice) && causes@[k] != Cause::Transport(
                UsbError::NoDevice,
            ) by {
                assert(causes@.contains(causes@[k]));
            }
            assert(teardown_failed(teardowns@[i]));
        }
    }
}

/// A reboot is sent exactly when the fresh look shows the group still incomplete and nothing asks
/// the worker to stop.
pub proof fn lemma_reboots_are_verified(
    missing: Result<bool, ScanError>,
    stopping: bool,
    step: WorkerStep,
)
    requires
        call_ensures(after_verify, (missing, stopping), step),
    ensures
        step is Reboot <==> missing == Ok::<bool, ScanError>(true) && !stopping,
        step is Fail <==> missing is Err,
        step is Leave <==> missing is Ok && (missing == Ok::<bool, ScanError>(false) || stopping),
{
}

/// A group that has its own panels counted counts each panel 1cbe of its product behind its hub
/// once, and nothing else.
pub proof fn lemma_panels_are_counted_one_by_one(
    group: GroupView,
    devices: Seq<ScannedDevice>,
    last: ScannedDevice,
)
    ensures
        member_count(group, Seq::<ScannedDevice>::empty()) == 0,
        ({
            let counts = last matches ScannedDevice::Found { vid, pid, bus, ports: Some(ports) }
                && vid == 0x1cbe && pid == group.lcd_pid && bus == group.location.0 && ports@.len()
                > 1 && group.location.1.len() > 1 && ports@.drop_last()
                == group.location.1.drop_last();
            &&& counts ==> member_count(group, devices.push(last)) == member_count(group, devices)
                + 1
            &&& !counts ==> member_count(group, devices.push(last)) == member_count(group, devices)
        }),
{
    reveal(Seq::filter);
    crate::table::lemma_filter_push(
        devices,
        last,
        |device: ScannedDevice| is_member(group, device),
    );
}

/// A group is found incomplete exactly when its receiver, a 43a8:0102, 43a8:0104 or 1a86:2107, is
/// still at its place, no other receiver sits behind the same hub, every device could be read, and
/// fewer panels than expected are counted. A wireless group must also have one USB companion, and
/// that at its place.
pub proof fn lemma_incomplete_groups_have_their_receiver(
    group: &Group,
    entries: &Vec<V2HidEntry>,
    devices: &Result<Vec<ScannedDevice>, ScanError>,
    missing: Result<bool, ScanError>,
)
    requires
        call_ensures(group_still_missing, (group, entries, devices), missing),
    ensures
        missing == Ok::<bool, ScanError>(true) <==> {
            &&& group@.owner matches OwnerView::Wireless(mac) ==> {
                &&& mappings(entries@, mac).len() == 1
                &&& mappings(entries@, mac)[0].bus == group.location.0
                &&& mappings(entries@, mac)[0].port_numbers@ == group.location.1@
            }
            &&& devices is Ok
            &&& member_count(group@, devices->Ok_0@) < group.expected
            &&& exists|i: int|
                0 <= i < devices->Ok_0@.len() && (#[trigger] devices->Ok_0@[i] matches
                ScannedDevice::Found { vid, pid, bus, ports: Some(ports) } && (vid == 0x43a8 && (pid
                    == 0x0102 || pid == 0x0104) || vid == 0x1a86 && pid == 0x2107) && bus
                    == group.location.0 && ports@ == group.location.1@)
            &&& forall|i: int|
                0 <= i < devices->Ok_0@.len() ==> match #[trigger] devices->Ok_0@[i] {
                    ScannedDevice::Unreadable => false,
                    ScannedDevice::Found { vid, pid, bus, ports } => {
                        let receiver = vid == 0x43a8 && (pid == 0x0102 || pid == 0x0104) || vid
                            == 0x1a86 && pid == 0x2107;
                        let panel = vid == 0x1cbe && pid == group.lcd_pid;
                        &&& receiver || panel ==> ports is Some
                        &&& receiver ==> {
                            ||| (bus, ports->0@) == (group.location.0, group.location.1@)
                            ||| bus != group.location.0
                            ||| ports->0@.len() <= 1
                            ||| group.location.1@.len() <= 1
                            ||| ports->0@.drop_last() != group.location.1@.drop_last()
                        }
                    },
                }
        },
        devices matches Err(error) ==> (missing matches Err(refused) ==> refused == error),
{
    if let Ok(devices) = devices {
        let all = devices@;
        assert(devices.len() == all.len());
        if still_mapped(group@, entries@) {
            if unsettled_before(group@, all, all.len() as int) {
                assert forall|i: int| 0 <= i < all.len() implies settles(
                    group@,
                    #[trigger] all[i],
                    i as usize,
                ) is None by {}
                if exists|i: int| 0 <= i < all.len() && anchors(group@, #[trigger] all[i]) {
                    let i = choose|i: int| 0 <= i < all.len() && anchors(group@, #[trigger] all[i]);
                    assert(all[i] is Found);
                }
            } else {
                let i = choose|i: int|
                    0 <= i < all.len() && unsettled_before(group@, all, i) && (#[trigger] settles(
                        group@,
                        all[i],
                        i as usize,
                    )) == Some(missing);
                assert(settles(group@, all[i], i as usize) is Some);
            }
        }
    }
}

/// The first device that cannot be read, when no receiver before it settles the matter, is the one
/// that is reported.
pub proof fn lemma_unreadable_devices_are_reported(
    group: &Group,
    entries: &Vec<V2HidEntry>,
    devices: &Result<Vec<ScannedDevice>, ScanError>,
    missing: Result<bool, ScanError>,
)
    requires
        call_ensures(group_still_missing, (group, entries, devices), missing),
    ensures
        missing matches Err(ScanError::Descriptor(at)) ==> (devices is Ok ==> at
            < devices->Ok_0@.len() && devices->Ok_0@[at as int] is Unreadable),
        missing matches Err(ScanError::Ports(at)) ==> (devices is Ok ==> at < devices->Ok_0@.len()
            && (devices->Ok_0@[at as int] matches ScannedDevice::Found {
            vid,
            pid,
            bus,
            ports: None,
        } && (vid == 0x1cbe && pid == group.lcd_pid || vid == 0x43a8 && (pid == 0x0102 || pid
            == 0x0104) || vid == 0x1a86 && pid == 0x2107))),
{
    if let Ok(devices) = devices {
        let all = devices@;
        assert(devices.len() == all.len());
        if missing is Err {
            let i = choose|i: int|
                0 <= i < all.len() && unsettled_before(group@, all, i) && (#[trigger] settles(
                    group@,
                    all[i],
                    i as usize,
                )) == Some(missing);
            assert(settles(group@, all[i], i as usize) is Some);
        }
    }
}

} // verus!
