//! The service's part in the recovery of LCD groups.
use vstd::prelude::*;
use vstd::string::*;

use crate::group_recovery::{panel_prefix, Group, GroupView, MAX_ATTEMPTS, SETTLE_TIME};
use crate::group_watch::{present_ids, present_receivers, state_of, Report, WorkerOutcome};
use crate::lcd_groups::{group_views, recovery_groups};
use crate::registry::DiscoveredDevice;
use crate::service::{ActiveTarget, ServiceManager};
use crate::table::{kept, lists_values};
use crate::text::path_ports;
use crate::topology::on_same_hub;

verus! {

/// The outcome of looking after the groups.
pub struct GroupCheck {
    /// What to log of a worker that ended.
    pub log: Option<(String, Report)>,
    /// The groups to look at, unless something else comes first.
    pub groups: Option<Vec<Group>>,
}

/// A target is on a panel of the group.
pub open spec fn owned_by(group: GroupView) -> spec_fn(usize, ActiveTarget) -> bool {
    |index: usize, target: ActiveTarget| group.owns(target.device_identity@)
}

impl ServiceManager {
    /// Something else comes before the recovery of groups.
    pub open spec fn recovery_barred(self, shutting_down: bool) -> bool {
        ||| self.lcd_group_recovery.is_busy()
        ||| self.startup_image_job is Some
        ||| self.startup_image_quarantine@ != Set::<Seq<char>>::empty()
        ||| self.display_switching
        ||| self.pixel_cleaning
        ||| shutting_down
    }

    /// Looks after the running attempt, and finds the groups to look at. Receivers that are gone
    /// are forgotten, with the attempts that they had.
    pub fn recover_lcd_groups(
        &mut self,
        wireless: &Vec<DiscoveredDevice>,
        now: u64,
        finished: Option<WorkerOutcome>,
        shutting_down: bool,
    ) -> (check: GroupCheck)
        requires
            old(self).lcd_group_recovery.job is Some && finished is Some ==> now + SETTLE_TIME
                <= u64::MAX,
        ensures
            check.log is Some <==> old(self).lcd_group_recovery.job is Some && finished is Some,
            check.log matches Some(log) ==> log.0 == old(self).lcd_group_recovery.job->0 && log.1
                == crate::group_watch::report_of(finished->0, false),
            final(self).lcd_group_recovery.job == if finished is Some {
                None::<String>
            } else {
                old(self).lcd_group_recovery.job
            },
            final(self).lcd_group_recovery.settle_until == if check.log is Some {
                Some((now + SETTLE_TIME) as u64)
            } else {
                match old(self).lcd_group_recovery.settle_until {
                    Some(until) if now < until => Some(until),
                    _ => None::<u64>,
                }
            },
            check.groups is None <==> final(self).recovery_barred(shutting_down),
            check.groups is None ==> final(self).lcd_group_recovery.states == old(self).lcd_group_recovery.states,
            check.groups matches Some(groups) ==> {
                &&& group_views(groups@) == recovery_groups(old(self).registry, wireless@)
                &&& final(self).lcd_group_recovery.states@
                    == old(self).lcd_group_recovery.states@.restrict(
                    present_ids(old(self).registry.cached_usb_devices@, wireless@),
                )
            },
            *final(self) == (ServiceManager {
                lcd_group_recovery: final(self).lcd_group_recovery,
                ..*old(self)
            }),
    {
        let log = self.lcd_group_recovery.poll(now, finished);
        if self.lcd_group_recovery.busy() || self.startup_image_job.is_some()
            || !self.startup_image_quarantine.is_empty() || self.display_switching
            || self.pixel_cleaning || shutting_down {
            return GroupCheck { log, groups: None };
        }
        let present = present_receivers(&self.registry.cached_usb_devices, wireless);
        self.lcd_group_recovery.retain_present(&present);
        let groups = self.registry.lcd_recovery_groups(wireless);
        GroupCheck { log, groups: Some(groups) }
    }

    /// Takes the targets on the panels of the group out of the active ones, so that the group
    /// can be rebooted, and counts the attempt. All other targets stay.
    pub fn retire_lcd_group(&mut self, group: &Group, now: u64) -> (retired: Vec<ActiveTarget>)
        requires
            state_of(old(self).lcd_group_recovery.states@, group.id@).attempts < MAX_ATTEMPTS,
        ensures
            final(self).targets@ == kept(
                old(self).targets@,
                |index: usize, target: ActiveTarget| !owned_by(group@)(index, target),
            ),
            lists_values(old(self).targets@, owned_by(group@), retired@),
            final(self).lcd_group_recovery.states@
                == old(self).lcd_group_recovery.states@.insert(
                group.id@,
                state_of(old(self).lcd_group_recovery.states@, group.id@).after_attempt(now),
            ),
            final(self).lcd_group_recovery.job == old(self).lcd_group_recovery.job,
            final(self).lcd_group_recovery.settle_until
                == old(self).lcd_group_recovery.settle_until,
            *final(self) == (ServiceManager {
                lcd_group_recovery: final(self).lcd_group_recovery,
                targets: final(self).targets,
                ..*old(self)
            }),
    {
        let owned = |index: &usize, target: &ActiveTarget| -> (owned: bool)
            ensures
                owned == group@.owns(target.device_identity@),
            { group.owns_target(&target.device_identity) };
        let retired = self.targets.take_out(owned, Ghost(owned_by(group@)));
        self.lcd_group_recovery.attempt(&group.id, now);
        retired
    }
}

/// A panel identity belongs to at most one of two groups that do not share a hub, so rebooting
/// one of them leaves the panels of the other playing.
pub proof fn lemma_other_groups_keep_playing(first: GroupView, second: GroupView, identity: Seq<char>)
    requires
        !on_same_hub(first.location, second.location),
        first.owns(identity),
    ensures
        !second.owns(identity),
{
    if second.owns(identity) {
        crate::group_recovery::lemma_prefix_tells_apart(
            identity,
            first.lcd_pid,
            first.location.0,
            second.lcd_pid,
            second.location.0,
        );
        let ports = path_ports(
            identity.skip(panel_prefix(first.lcd_pid, first.location.0).len() as int),
        )->0;
        crate::topology::lemma_same_hub_symmetric(second.location, (second.location.0, ports));
        crate::topology::lemma_same_hub_transitive(
            first.location,
            (first.location.0, ports),
            second.location,
        );
    }
}

/// Groups are looked at only while no attempt runs or settles, no startup image is being stored or
/// was cut off, no panel is switched or cleaned, and the service goes on. What is remembered of a
/// receiver then lasts while it is connected.
pub proof fn lemma_groups_wait_for_everything_else(
    wireless: &Vec<DiscoveredDevice>,
    now: u64,
    finished: Option<WorkerOutcome>,
    shutting_down: bool,
    id: Seq<char>,
)
    ensures
        forall|service: &mut ServiceManager, check: GroupCheck| #[trigger]
            call_ensures(
                ServiceManager::recover_lcd_groups,
                (service, wireless, now, finished, shutting_down),
                check,
            ) && now + 6_000_000_000 <= u64::MAX ==> {
                let before = service.lcd_group_recovery;
                let after = final(service).lcd_group_recovery;
                let ended = before.job is Some && finished is Some;
                &&& check.groups is Some <==> {
                    &&& before.job is None
                    &&& before.settle_until is None || before.settle_until->0 <= now
                    &&& service.startup_image_job is None
                    &&& service.startup_image_quarantine@ == Set::<Seq<char>>::empty()
                    &&& !service.display_switching
                    &&& !service.pixel_cleaning
                    &&& !shutting_down
                }
                &&& check.log is Some <==> ended
                &&& check.log matches Some(log) ==> {
                    &&& log.0 == before.job->0
                    &&& log.1 is RebootSent <==> finished->0 is Sent
                    &&& log.1 is Silent <==> finished->0 is NotNeeded
                    &&& log.1 is RecoveryFailed <==> finished->0 is Failed
                }
                &&& ended ==> after.job is None && after.settle_until is Some
                    && after.settle_until->0 - now == 6_000_000_000
                &&& check.groups is None ==> after.states == before.states
                &&& check.groups is Some ==> {
                    &&& after.states@.contains_key(id) ==> before.states@.contains_key(id)
                        && after.states@[id] == before.states@[id]
                    &&& after.states@.contains_key(id) <==> before.states@.contains_key(id) && {
                        ||| exists|i: int|
                            0 <= i < service.registry.cached_usb_devices@.len() && (
                            #[trigger] service.registry.cached_usb_devices@[i]).device_id@ == id
                        ||| exists|i: int|
                            0 <= i < wireless@.len() && "wireless:"@ + (
                            #[trigger] wireless@[i]).mac_text@ == id
                    }
                }
                &&& final(service).targets == service.targets
            },
{
}

/// Rebooting a group takes exactly the targets on its panels out of the active ones, hands each of
/// them out, and counts one attempt for that group alone.
pub proof fn lemma_rebooted_groups_stop_playing(
    group: &Group,
    now: u64,
    index: usize,
    id: Seq<char>,
)
    ensures
        forall|service: &mut ServiceManager, retired: Vec<ActiveTarget>| #[trigger]
            call_ensures(ServiceManager::retire_lcd_group, (service, group, now), retired) ==> {
                let before = service.lcd_group_recovery.states@;
                let after = final(service).lcd_group_recovery.states@;
                &&& final(service).targets@.contains_key(index) <==> {
                    &&& service.targets@.contains_key(index)
                    &&& !group@.owns(service.targets@[index].device_identity@)
                }
                &&& final(service).targets@.contains_key(index) ==> final(service).targets@[index]
                    == service.targets@[index]
                &&& after.contains_key(group.id@)
                &&& after[group.id@].last_attempt == Some(now)
                &&& before.contains_key(group.id@) && before[group.id@].attempts < 2
                    ==> after[group.id@].attempts == before[group.id@].attempts + 1
                &&& !before.contains_key(group.id@) ==> after[group.id@].attempts == 1
                &&& id != group.id@ ==> {
                    &&& after.contains_key(id) <==> before.contains_key(id)
                    &&& after[id] == before[id]
                }
                &&& final(service).registry == service.registry
                &&& final(service).startup_image_job == service.startup_image_job
            },
{
}

/// Every target that was taken out for a reboot was active on a panel of the group, and every
/// active one on such a panel was taken out.
pub proof fn lemma_retired_targets_are_the_groups(
    group: &Group,
    service: ServiceManager,
    retired: Vec<ActiveTarget>,
)
    requires
        lists_values(service.targets@, owned_by(group@), retired@),
    ensures
        forall|k: int|
            0 <= k < retired@.len() ==> group@.owns((#[trigger] retired@[k]).device_identity@),
        forall|k: int|
            0 <= k < retired@.len() ==> service.targets@.contains_value(#[trigger] retired@[k]),
        forall|index: usize| #[trigger]
            service.targets@.contains_key(index) && group@.owns(
                service.targets@[index].device_identity@,
            ) ==> retired@.contains(service.targets@[index]),
{
    let passes = owned_by(group@);
    let order = choose|order: Seq<usize>|
        crate::table::in_order(service.targets@, passes, retired@, order);
    assert forall|k: int| 0 <= k < retired@.len() implies group@.owns(
        (#[trigger] retired@[k]).device_identity@,
    ) && service.targets@.contains_value(retired@[k]) by {
        assert(order.contains(order[k]));
        assert(service.targets@[order[k]] == retired@[k]);
    }
    assert forall|index: usize| #[trigger]
        service.targets@.contains_key(index) && group@.owns(
            service.targets@[index].device_identity@,
        ) implies retired@.contains(service.targets@[index]) by {
        assert(passes(index, service.targets@[index]));
        assert(order.contains(index));
        let k = choose|k: int| 0 <= k < order.len() && order[k] == index;
        assert(retired@[k] == service.targets@[index]);
    }
}

} // verus!
