//! Recovery of LCD groups whose panels did not all appear on USB.
//!
//! A receiver knows how many panels it drives. When fewer of them show up, the daemon waits for
//! a grace period, reboots the group, and gives it a second attempt after a delay.
use vstd::prelude::*;
use vstd::string::*;

use crate::table::IdSet;
use crate::text::{
    decimal, decimal_text, has_prefix, hex4, hex4_text, joined, lemma_decimal_tells_apart,
    lemma_hex4_tells_apart, lemma_path_reads_back, parse_ports,
    path_ports, port_path, strip_prefix,
};
use crate::topology::{on_same_hub, same_hub, UsbLocation};

verus! {

/// How long a group may be incomplete before it is rebooted, in nanoseconds.
pub const DISCOVERY_GRACE: u64 = 10_000_000_000;

/// How long to wait between two attempts on a group, in nanoseconds.
pub const RETRY_DELAY: u64 = 30_000_000_000;

/// How many attempts a group gets while its receiver stays connected.
pub const MAX_ATTEMPTS: u8 = 2;

/// How long USB rediscovery may take after a reboot, in nanoseconds.
pub const SETTLE_TIME: u64 = 6_000_000_000;

/// The time from `earlier` to `later`, zero when it is not later.
pub open spec fn time_since(later: u64, earlier: u64) -> int {
    if later >= earlier {
        later - earlier
    } else {
        0
    }
}

/// The time from `earlier` to `later` in nanoseconds, zero when it is not later.
pub fn elapsed(later: u64, earlier: u64) -> (time: u64)
    ensures
        time == time_since(later, earlier),
{
    if later >= earlier {
        later - earlier
    } else {
        0
    }
}

/// What is remembered of one group between scans. Times are readings of one monotonic clock, in
/// nanoseconds.
#[derive(Clone, Copy, Debug, PartialEq, Eq, Structural)]
pub struct RecoveryState {
    pub missing_since: Option<u64>,
    pub last_attempt: Option<u64>,
    pub attempts: u8,
    pub exhausted: bool,
}

/// What a scan of a group calls for.
#[derive(Clone, Copy, Debug, PartialEq, Eq, Structural)]
pub enum Decision {
    Wait,
    Reboot,
    Exhausted,
}

impl Default for RecoveryState {
    fn default() -> (state: Self)
        ensures
            state == RecoveryState::initial(),
            state.missing_since is None && state.last_attempt is None,
            state.attempts == 0 && !state.exhausted,
    {
        RecoveryState { missing_since: None, last_attempt: None, attempts: 0, exhausted: false }
    }
}

impl RecoveryState {
    /// A group that was never seen incomplete.
    pub open spec fn initial() -> RecoveryState {
        RecoveryState { missing_since: None, last_attempt: None, attempts: 0, exhausted: false }
    }

    /// When the group was first seen incomplete, if it is incomplete now.
    pub open spec fn missing_from(self, now: u64) -> u64 {
        match self.missing_since {
            Some(since) => since,
            None => now,
        }
    }

    /// The grace period is over, and so is the delay after the last attempt.
    pub open spec fn ripe(self, now: u64) -> bool {
        &&& time_since(now, self.missing_from(now)) >= DISCOVERY_GRACE
        &&& self.last_attempt matches Some(last) ==> time_since(now, last) >= RETRY_DELAY
    }

    /// What an observation calls for.
    pub open spec fn decision(self, now: u64, missing: bool) -> Decision {
        if !missing || !self.ripe(now) {
            Decision::Wait
        } else if self.attempts < MAX_ATTEMPTS {
            Decision::Reboot
        } else if !self.exhausted {
            Decision::Exhausted
        } else {
            Decision::Wait
        }
    }

    /// What is remembered after an observation.
    pub open spec fn observed(self, now: u64, missing: bool) -> RecoveryState {
        RecoveryState {
            missing_since: if missing { Some(self.missing_from(now)) } else { None },
            exhausted: self.exhausted || self.decision(now, missing) is Exhausted,
            ..self
        }
    }

    /// What is remembered after an attempt.
    pub open spec fn after_attempt(self, now: u64) -> RecoveryState {
        RecoveryState { attempts: (self.attempts + 1) as u8, last_attempt: Some(now), ..self }
    }

    /// Takes note of a scan and says what it calls for.
    pub fn observe(&mut self, now: u64, missing: bool) -> (decision: Decision)
        ensures
            decision == old(self).decision(now, missing),
            *final(self) == old(self).observed(now, missing),
    {
        if !missing {
            self.missing_since = None;
            return Decision::Wait;
        }
        let since: u64 = match self.missing_since {
            Some(since) => since,
            None => now,
        };
        self.missing_since = Some(since);
        let retry_too_soon = match self.last_attempt {
            Some(last) => elapsed(now, last) < RETRY_DELAY,
            None => false,
        };
        if elapsed(now, since) < DISCOVERY_GRACE || retry_too_soon {
            return Decision::Wait;
        }
        if self.attempts < MAX_ATTEMPTS {
            Decision::Reboot
        } else if !self.exhausted {
            self.exhausted = true;
            Decision::Exhausted
        } else {
            Decision::Wait
        }
    }

    /// Takes note of an attempt.
    pub fn attempted(&mut self, now: u64)
        requires
            old(self).attempts < u8::MAX,
        ensures
            *final(self) == old(self).after_attempt(now),
    {
        self.attempts = self.attempts + 1;
        self.last_attempt = Some(now);
    }
}

/// One scan of a group: when it happened, whether the group was incomplete, and whether a reboot
/// was started if it was called for.
pub struct Observation {
    pub now: u64,
    pub missing: bool,
    pub started: bool,
}

/// The state after one scan, with the attempt that it led to.
pub open spec fn scanned(state: RecoveryState, scan: Observation) -> RecoveryState {
    let seen = state.observed(scan.now, scan.missing);
    if state.decision(scan.now, scan.missing) is Reboot && scan.started {
        seen.after_attempt(scan.now)
    } else {
        seen
    }
}

/// The state after a series of scans.
pub open spec fn history(scans: Seq<Observation>) -> RecoveryState
    decreases scans.len(),
{
    if scans.len() == 0 {
        RecoveryState::initial()
    } else {
        scanned(history(scans.drop_last()), scans.last())
    }
}

/// The times at which a series of scans started a reboot.
pub open spec fn attempt_times(scans: Seq<Observation>) -> Seq<u64>
    decreases scans.len(),
{
    if scans.len() == 0 {
        Seq::empty()
    } else {
        let before = attempt_times(scans.drop_last());
        let scan = scans.last();
        if history(scans.drop_last()).decision(scan.now, scan.missing) is Reboot && scan.started {
            before.push(scan.now)
        } else {
            before
        }
    }
}

/// How many scans of a series reported that the attempts are used up.
pub open spec fn exhausted_reports(scans: Seq<Observation>) -> nat
    decreases scans.len(),
{
    if scans.len() == 0 {
        0
    } else {
        let scan = scans.last();
        exhausted_reports(scans.drop_last()) + if history(scans.drop_last()).decision(
            scan.now,
            scan.missing,
        ) is Exhausted {
            1nat
        } else {
            0nat
        }
    }
}

proof fn lemma_history(scans: Seq<Observation>)
    ensures
        history(scans).attempts == attempt_times(scans).len(),
        attempt_times(scans).len() <= MAX_ATTEMPTS,
        history(scans).last_attempt == if attempt_times(scans).len() == 0 {
            None::<u64>
        } else {
            Some(attempt_times(scans).last())
        },
        forall|i: int|
            0 < i < attempt_times(scans).len() ==> attempt_times(scans)[i - 1] + RETRY_DELAY
                <= #[trigger] attempt_times(scans)[i],
        exhausted_reports(scans) == if history(scans).exhausted { 1nat } else { 0nat },
    decreases scans.len(),
{
    if scans.len() > 0 {
        lemma_history(scans.drop_last());
    }
}

/// A group gets at most two attempts, whatever the scans show: a healthy scan in between does
/// not replenish them. Two attempts are at least the retry delay apart.
pub proof fn lemma_attempts_are_few_and_spaced(scans: Seq<Observation>)
    ensures
        attempt_times(scans).len() <= MAX_ATTEMPTS,
        forall|i: int|
            0 < i < attempt_times(scans).len() ==> attempt_times(scans)[i - 1] + RETRY_DELAY
                <= #[trigger] attempt_times(scans)[i],
{
    lemma_history(scans);
}

/// That the attempts are used up is reported at most once.
pub proof fn lemma_exhaustion_is_reported_once(scans: Seq<Observation>)
    ensures
        exhausted_reports(scans) <= 1,
{
    lemma_history(scans);
}

proof fn lemma_missing_run(scans: Seq<Observation>) -> (start: int)
    ensures
        history(scans).missing_since matches Some(since) ==> {
            &&& 0 <= start < scans.len()
            &&& scans[start].now == since
            &&& forall|i: int| start <= i < scans.len() ==> (#[trigger] scans[i]).missing
        },
    decreases scans.len(),
{
    if scans.len() == 0 {
        0
    } else {
        let before = scans.drop_last();
        let start = lemma_missing_run(before);
        assert forall|i: int| 0 <= i < before.len() implies scans[i] == before[i] by {}
        if history(before).missing_since is Some {
            start
        } else {
            scans.len() - 1
        }
    }
}

/// A reboot is called for only when every scan over the whole grace period, this one included,
/// found the group incomplete.
pub proof fn lemma_reboot_follows_grace(scans: Seq<Observation>, now: u64)
    requires
        history(scans).decision(now, true) is Reboot,
    ensures
        exists|start: int|
            0 <= start < scans.len() && (#[trigger] scans[start]).now + DISCOVERY_GRACE <= now
                && forall|i: int| start <= i < scans.len() ==> (#[trigger] scans[i]).missing,
{
    let start = lemma_missing_run(scans);
    assert(history(scans).missing_since is Some);
    assert(scans[start].now + DISCOVERY_GRACE <= now);
}

/// Who reboots a group.
pub enum Owner {
    /// The wired receiver with this identity.
    Wired(String),
    /// The wireless receiver with this address.
    Wireless([u8; 6]),
}

/// An LCD group that could be rebooted.
pub struct Group {
    pub id: String,
    pub owner: Owner,
    pub location: UsbLocation,
    pub lcd_pid: u16,
    pub expected: u8,
    pub members: IdSet,
}

/// What an owner stands for.
pub enum OwnerView {
    Wired(Seq<char>),
    Wireless([u8; 6]),
}

impl View for Owner {
    type V = OwnerView;

    open spec fn view(&self) -> OwnerView {
        match self {
            Owner::Wired(id) => OwnerView::Wired(id@),
            Owner::Wireless(mac) => OwnerView::Wireless(*mac),
        }
    }
}

impl Owner {
    /// The same owner once more.
    pub fn copy(&self) -> (owner: Owner)
        ensures
            owner@ == self@,
    {
        match self {
            Owner::Wired(id) => Owner::Wired(id.clone()),
            Owner::Wireless(mac) => Owner::Wireless(*mac),
        }
    }
}

/// What a group stands for.
pub struct GroupView {
    pub id: Seq<char>,
    pub owner: OwnerView,
    pub location: (u8, Seq<u8>),
    pub lcd_pid: u16,
    pub expected: u8,
    pub members: Set<Seq<char>>,
}

impl View for Group {
    type V = GroupView;

    open spec fn view(&self) -> GroupView {
        GroupView {
            id: self.id@,
            owner: self.owner@,
            location: self.location@,
            lcd_pid: self.lcd_pid,
            expected: self.expected,
            members: self.members@,
        }
    }
}

/// How the identity of every panel of one product on one bus begins.
pub open spec fn panel_prefix(lcd_pid: u16, bus: u8) -> Seq<char> {
    "hid:1cbe:"@ + hex4(lcd_pid) + ":"@ + decimal(bus as nat) + "-"@
}

impl GroupView {
    /// The identity names a panel of this group's product behind this group's hub.
    pub open spec fn owns(self, identity: Seq<char>) -> bool {
        let prefix = panel_prefix(self.lcd_pid, self.location.0);
        &&& has_prefix(identity, prefix)
        &&& path_ports(identity.skip(prefix.len() as int)) matches Some(ports) && on_same_hub(
            self.location,
            (self.location.0, ports),
        )
    }
}

/// An identity begins as those of one product on one bus only.
pub proof fn lemma_prefix_tells_apart(
    identity: Seq<char>,
    first_pid: u16,
    first_bus: u8,
    second_pid: u16,
    second_bus: u8,
)
    requires
        has_prefix(identity, panel_prefix(first_pid, first_bus)),
        has_prefix(identity, panel_prefix(second_pid, second_bus)),
    ensures
        first_pid == second_pid,
        first_bus == second_bus,
{
    reveal_strlit("hid:1cbe:");
    reveal_strlit(":");
    reveal_strlit("-");
    let first = panel_prefix(first_pid, first_bus);
    let second = panel_prefix(second_pid, second_bus);
    assert(identity.take(first.len() as int) == first);
    assert(identity.take(second.len() as int) == second);
    assert(first.subrange(9, 13) =~= hex4(first_pid));
    assert(second.subrange(9, 13) =~= hex4(second_pid));
    assert(identity.subrange(9, 13) =~= first.subrange(9, 13));
    assert(identity.subrange(9, 13) =~= second.subrange(9, 13));
    lemma_hex4_tells_apart(first_pid, second_pid);
    let rest = identity.skip(14);
    let first_number = decimal(first_bus as nat).push('-');
    let second_number = decimal(second_bus as nat).push('-');
    assert(first.skip(14) =~= first_number);
    assert(second.skip(14) =~= second_number);
    assert(rest.take(first_number.len() as int) =~= first.skip(14));
    assert(rest.take(second_number.len() as int) =~= second.skip(14));
    lemma_decimal_tells_apart(first_bus as nat, second_bus as nat, '-', rest);
}

/// A panel identity, as discovery writes it, belongs to the group exactly when the panel sits
/// behind the hub of the group.
pub proof fn lemma_group_owns_its_hub(group: GroupView, ports: Seq<u8>)
    requires
        ports.len() > 0,
    ensures
        group.owns(panel_prefix(group.lcd_pid, group.location.0) + port_path(ports))
            == on_same_hub(group.location, (group.location.0, ports)),
{
    let prefix = panel_prefix(group.lcd_pid, group.location.0);
    let identity = prefix + port_path(ports);
    assert(identity.take(prefix.len() as int) =~= prefix);
    assert(identity.skip(prefix.len() as int) =~= port_path(ports));
    lemma_path_reads_back(ports);
}

impl Group {
    /// Whether the identity names a panel of this group.
    pub fn owns_target(&self, identity: &str) -> (owned: bool)
        ensures
            owned == self@.owns(identity@),
    {
        let prefix = joined("hid:1cbe:", &hex4_text(self.lcd_pid)).concat(":").concat(
            &decimal_text(self.location.0 as u32),
        ).concat("-");
        assert(prefix@ == panel_prefix(self.lcd_pid, self.location.0));
        let path = match strip_prefix(identity, &prefix) {
            Some(path) => path,
            None => {
                return false;
            },
        };
        match parse_ports(path) {
            Some(ports) => same_hub(&self.location, &(self.location.0, ports)),
            None => false,
        }
    }

    /// Whether the group has fewer panels than its receiver reports.
    pub fn incomplete(&self) -> (missing: bool)
        ensures
            missing == (self@.members.len() < self.expected),
    {
        self.members.len() < self.expected as usize
    }
}

/// A scan asks for a reboot when the group has been incomplete for ten seconds, the last attempt
/// is thirty seconds past, and fewer than two attempts were made. With both attempts made it says
/// so once. A scan remembers since when the group is incomplete and counts no attempt.
pub proof fn lemma_scans_are_judged_by_the_clock(now: u64, missing: bool)
    ensures
        forall|state: &mut RecoveryState, decision: Decision| #[trigger]
            call_ensures(RecoveryState::observe, (state, now, missing), decision) ==> {
                let since = if state.missing_since is Some {
                    state.missing_since->0
                } else {
                    now
                };
                let due = missing && now - since >= 10_000_000_000 && (state.last_attempt is None
                    || now - state.last_attempt->0 >= 30_000_000_000);
                &&& decision is Reboot <==> due && state.attempts < 2
                &&& decision is Exhausted <==> due && state.attempts >= 2 && !state.exhausted
                &&& final(state).missing_since == if missing {
                    Some(since)
                } else {
                    None
                }
                &&& final(state).attempts == state.attempts
                &&& final(state).last_attempt == state.last_attempt
                &&& final(state).exhausted == (state.exhausted || decision is Exhausted)
            },
{
}

/// An attempt is counted and dated, and changes nothing else.
pub proof fn lemma_attempts_are_counted(now: u64)
    ensures
        forall|state: &mut RecoveryState| #[trigger]
            call_ensures(RecoveryState::attempted, (state, now), ()) && state.attempts < u8::MAX
                ==> {
                &&& final(state).attempts == state.attempts + 1
                &&& final(state).last_attempt == Some(now)
                &&& final(state).missing_since == state.missing_since
                &&& final(state).exhausted == state.exhausted
            },
{
}

/// The time that passed, added to the earlier reading, gives the later one. A clock that did not
/// move on shows none.
pub proof fn lemma_elapsed_adds_up(later: u64, earlier: u64, time: u64)
    requires
        call_ensures(elapsed, (later, earlier), time),
    ensures
        later >= earlier ==> earlier + time == later,
        later < earlier ==> time == 0,
{
}

/// A panel identity with any product, bus and ports belongs to the group exactly when the product
/// and the bus are the group's and the panel sits behind the group's hub.
pub proof fn lemma_identities_belong_by_place(
    group: Group,
    identity: &str,
    lcd_pid: u16,
    bus: u8,
    ports: Seq<u8>,
    owned: bool,
)
    requires
        call_ensures(Group::owns_target, (&group, identity), owned),
        ports.len() > 0,
        identity@ == "hid:1cbe:"@ + hex4(lcd_pid) + ":"@ + decimal(bus as nat) + "-"@ + port_path(
            ports,
        ),
    ensures
        owned <==> {
            &&& lcd_pid == group.lcd_pid
            &&& bus == group.location.0
            &&& ports.len() > 1
            &&& ports.len() == group.location.1@.len()
            &&& forall|k: int| 0 <= k < ports.len() - 1 ==> ports[k] == group.location.1@[k]
        },
{
    let prefix = panel_prefix(lcd_pid, bus);
    assert(identity@ =~= prefix + port_path(ports));
    assert(identity@.take(prefix.len() as int) =~= prefix);
    if has_prefix(identity@, panel_prefix(group.lcd_pid, group.location.0)) {
        lemma_prefix_tells_apart(
            identity@,
            lcd_pid,
            bus,
            group.lcd_pid,
            group.location.0,
        );
        lemma_group_owns_its_hub(group@, ports);
        assert(identity@ == panel_prefix(group@.lcd_pid, group@.location.0) + port_path(ports));
        assert(group@.location.1 == group.location.1@);
        if owned {
            assert(ports.drop_last() == group.location.1@.drop_last());
            assert(ports.drop_last().len() == group.location.1@.drop_last().len());
            assert forall|k: int| 0 <= k < ports.len() - 1 implies ports[k]
                == group.location.1@[k] by {
                assert(ports.drop_last()[k] == group.location.1@.drop_last()[k]);
            }
        }
        if ports.len() > 1 && ports.len() == group.location.1@.len() && (forall|k: int|
            0 <= k < ports.len() - 1 ==> ports[k] == group.location.1@[k]) {
            assert(ports.drop_last() =~= group.location.1@.drop_last());
        }
    }
}

} // verus!
