//! Panels that are left alone after an interrupted startup image upload.
use vstd::prelude::*;
use vstd::string::*;

use crate::group_recovery::{elapsed, time_since};
use crate::media::{
    absorbed, absorbed_all, find_matching, names_blocked, stalled, MediaState, PreparedMedia,
};
use crate::selection::{ids_match, lcd_id_matches};
use crate::service::{
    MediaPreparationState, MediaPreparationStatus, ServiceManager, StatusView,
};
use crate::startup_image::ABSENCE_REQUIRED;
use crate::table::{IdSet, Table};
use crate::text::{has_prefix, strip_prefix, trim_prefix, without_prefix};

verus! {

/// The panel has been gone long enough to be trusted again.
pub open spec fn absence_served(absent: Map<Seq<char>, u64>, id: Seq<char>, now: u64) -> bool {
    absent.contains_key(id) && time_since(now, absent[id]) >= ABSENCE_REQUIRED
}

/// The panels that stay blocked.
pub open spec fn still_blocked(
    quarantine: Set<Seq<char>>,
    absent: Map<Seq<char>, u64>,
    now: u64,
) -> Set<Seq<char>> {
    quarantine.filter(|id: Seq<char>| !absence_served(absent, id, now))
}

/// Since when each panel is gone, after a look at which ones are present.
pub open spec fn absences(
    quarantine: Set<Seq<char>>,
    absent: Map<Seq<char>, u64>,
    present: Set<Seq<char>>,
    now: u64,
) -> Map<Seq<char>, u64> {
    let waiting = still_blocked(quarantine, absent, now);
    Map::new(
        |id: Seq<char>|
            if waiting.contains(id) {
                !present.contains(id)
            } else {
                absent.contains_key(id)
            },
        |id: Seq<char>|
            if absent.contains_key(id) {
                absent[id]
            } else {
                now
            },
    )
}

/// One look at a blocked panel: when, and whether it was present.
pub struct Sighting {
    pub now: u64,
    pub present: bool,
}

/// Since when a blocked panel is gone, after a series of looks at it.
pub open spec fn gone_since(sightings: Seq<Sighting>) -> Option<u64>
    decreases sightings.len(),
{
    if sightings.len() == 0 {
        None
    } else {
        let last = sightings.last();
        let before = gone_since(sightings.drop_last());
        if before matches Some(since) && time_since(last.now, since) >= ABSENCE_REQUIRED {
            before
        } else if last.present {
            None
        } else if before is Some {
            before
        } else {
            Some(last.now)
        }
    }
}

/// The series of looks frees the panel at its last one.
pub open spec fn freed(sightings: Seq<Sighting>) -> bool {
    sightings.len() > 0 && (gone_since(sightings.drop_last()) matches Some(since) && time_since(
        sightings.last().now,
        since,
    ) >= ABSENCE_REQUIRED)
}

proof fn lemma_gone_run(sightings: Seq<Sighting>) -> (start: int)
    requires
        forall|i: int| 0 <= i < sightings.len() ==> !freed(#[trigger] sightings.take(i + 1)),
    ensures
        gone_since(sightings) matches Some(since) ==> {
            &&& 0 <= start < sightings.len()
            &&& sightings[start].now == since
            &&& forall|i: int| start <= i < sightings.len() ==> !(#[trigger] sightings[i]).present
        },
    decreases sightings.len(),
{
    if sightings.len() == 0 {
        0
    } else {
        let before = sightings.drop_last();
        assert forall|i: int| 0 <= i < before.len() implies !freed(#[trigger] before.take(i + 1)) by {
            assert(before.take(i + 1) =~= sightings.take(i + 1));
        }
        assert(sightings.take(sightings.len() - 1 + 1) =~= sightings);
        assert(!freed(sightings));
        let start = lemma_gone_run(before);
        assert forall|i: int| 0 <= i < before.len() implies sightings[i] == before[i] by {}
        if gone_since(before) is Some {
            start
        } else {
            sightings.len() - 1
        }
    }
}

/// A blocked panel is freed only after it was seen gone, without being seen in between, for the
/// whole time required. It may be back by then.
pub proof fn lemma_freed_after_absence(sightings: Seq<Sighting>)
    requires
        freed(sightings),
        forall|i: int| 0 <= i < sightings.len() - 1 ==> !freed(#[trigger] sightings.take(i + 1)),
    ensures
        exists|start: int|
            0 <= start < sightings.len() - 1 && (#[trigger] sightings[start]).now + ABSENCE_REQUIRED
                <= sightings.last().now && forall|i: int|
                start <= i < sightings.len() - 1 ==> !(#[trigger] sightings[i]).present,
{
    let before = sightings.drop_last();
    assert forall|i: int| 0 <= i < before.len() implies !freed(#[trigger] before.take(i + 1)) by {
        assert(before.take(i + 1) =~= sightings.take(i + 1));
    }
    let start = lemma_gone_run(before);
    assert forall|i: int| 0 <= i < before.len() implies sightings[i] == before[i] by {}
    assert(sightings[start].now + ABSENCE_REQUIRED <= sightings.last().now);
}

/// What the series of looks says of a blocked panel is what the service remembers of it.
pub proof fn lemma_sighting_is_remembered(
    quarantine: Set<Seq<char>>,
    absent: Map<Seq<char>, u64>,
    present: Set<Seq<char>>,
    now: u64,
    id: Seq<char>,
    sightings: Seq<Sighting>,
)
    requires
        quarantine.contains(id),
        absent.contains_key(id) == (gone_since(sightings) is Some),
        gone_since(sightings) matches Some(since) ==> absent[id] == since,
    ensures
        ({
            let longer = sightings.push(Sighting { now, present: present.contains(id) });
            let after = absences(quarantine, absent, present, now);
            &&& after.contains_key(id) == (gone_since(longer) is Some)
            &&& gone_since(longer) matches Some(since) ==> after[id] == since
            &&& still_blocked(quarantine, absent, now).contains(id) == !freed(longer)
        }),
{
    let longer = sightings.push(Sighting { now, present: present.contains(id) });
    assert(longer.drop_last() =~= sightings);
}

/// Why a panel cannot be cleared.
#[derive(Clone, Copy, Debug, PartialEq, Eq, Structural)]
pub enum ClearError {
    /// Wait for the startup upload to finish.
    UploadRunning,
    /// The panel is not blocked.
    NotBlocked,
}

/// The panel that a selection names.
pub open spec fn selected(selection: Seq<char>) -> Seq<char> {
    without_prefix(selection, "serial:"@)
}

/// The status belongs to the panel.
pub open spec fn reports_on(device_id: Seq<char>, identity: Seq<char>) -> bool {
    ids_match(device_id, identity) || has_prefix(device_id, "serial:"@) && ids_match(
        without_prefix(device_id, "serial:"@),
        identity,
    )
}

/// What is reported of a panel once it is cleared.
pub open spec fn cleared(status: StatusView, identity: Seq<char>) -> StatusView {
    if reports_on(status.device_id, identity) {
        StatusView {
            startup_recovery_required: false,
            error: None,
            state: MediaPreparationState::WaitingForDevice,
            ..status
        }
    } else {
        status
    }
}

/// A blocked panel to clear, and what stays blocked.
pub struct Clearance {
    pub identity: String,
    pub remaining: IdSet,
}

impl ServiceManager {
    /// Takes note of which panels are present. The result, if any, is what stays blocked; it is
    /// to be written down before it takes effect.
    pub fn reconcile_startup_quarantine(&mut self, present: &IdSet, now: u64) -> (remaining: Option<
        IdSet,
    >)
        ensures
            *final(self) == (ServiceManager {
                startup_absent_since: final(self).startup_absent_since,
                ..*old(self)
            }),
            old(self).startup_image_job is Some ==> remaining is None
                && final(self).startup_absent_since == old(self).startup_absent_since,
            old(self).startup_image_job is None ==> {
                let blocked = still_blocked(
                    old(self).startup_image_quarantine@,
                    old(self).startup_absent_since@,
                    now,
                );
                &&& final(self).startup_absent_since@ == absences(
                    old(self).startup_image_quarantine@,
                    old(self).startup_absent_since@,
                    present@,
                    now,
                )
                &&& remaining is Some <==> blocked != old(self).startup_image_quarantine@
                &&& remaining matches Some(remaining) ==> remaining@ == blocked
            },
    {
        if self.startup_image_job.is_some() {
            return None;
        }
        let ghost quarantine = self.startup_image_quarantine@;
        let ghost before = self.startup_absent_since@;
        let n: usize = self.startup_image_quarantine.len();
        let ghost order = self.startup_image_quarantine.order();
        let mut remaining = IdSet::new();
        let mut i: usize = 0;
        assert(order.take(0).to_set() =~= Set::<Seq<char>>::empty());
        assert(before =~= absences(order.take(0).to_set(), before, present@, now));
        assert(remaining@ =~= still_blocked(order.take(0).to_set(), before, now));
        while i < n
            invariant
                i <= n,
                n == order.len(),
                order == self.startup_image_quarantine.order(),
                order.no_duplicates(),
                *self == (ServiceManager {
                    startup_absent_since: self.startup_absent_since,
                    ..*old(self)
                }),
                self.startup_absent_since@ == absences(
                    order.take(i as int).to_set(),
                    before,
                    present@,
                    now,
                ),
                remaining@ == still_blocked(order.take(i as int).to_set(), before, now),
            decreases n - i,
        {
            let id = self.startup_image_quarantine.id(i).clone();
            let ghost seen = order.take(i as int).to_set();
            let ghost upto = order.take(i + 1).to_set();
            proof {
                lemma_set_of_longer_prefix(order, i as int);
                assert(!seen.contains(id@)) by {
                    if order.take(i as int).contains(id@) {
                        let j = choose|j: int|
                            0 <= j < i && order.take(i as int)[j] == id@;
                        assert(order[j] == order[i as int]);
                    }
                }
            }
            let served = match self.startup_absent_since.get(&id) {
                Some(since) => elapsed(now, *since) >= ABSENCE_REQUIRED,
                None => false,
            };
            if !served {
                if present.contains(&id) {
                    let _ = self.startup_absent_since.remove(&id);
                } else if !self.startup_absent_since.contains(&id) {
                    self.startup_absent_since.insert(id.clone(), now);
                }
                remaining.insert(id);
            }
            assert(self.startup_absent_since@ =~= absences(upto, before, present@, now));
            assert(remaining@ =~= still_blocked(upto, before, now));
            i += 1;
        }
        assert(order.take(i as int) =~= order);
        if remaining.same(&self.startup_image_quarantine) {
            None
        } else {
            Some(remaining)
        }
    }

    /// Puts into effect what stays blocked, if it could be written down.
    pub fn quarantine_written(&mut self, remaining: IdSet, written: bool)
        ensures
            !written ==> *final(self) == *old(self),
            written ==> {
                &&& final(self).startup_image_quarantine@ == remaining@
                &&& final(self).startup_absent_since@ == old(self).startup_absent_since@.restrict(
                    remaining@,
                )
                &&& *final(self) == (ServiceManager {
                    startup_image_quarantine: final(self).startup_image_quarantine,
                    startup_absent_since: final(self).startup_absent_since,
                    ..*old(self)
                })
            },
    {
        if !written {
            return;
        }
        let ghost passes = |id: Seq<char>, since: u64| remaining@.contains(id);
        let keep = |id: &String, since: &u64| -> (stays: bool)
            ensures
                stays == remaining@.contains(id@),
            { remaining.contains(id) };
        self.startup_absent_since.retain(keep, Ghost(passes));
        assert(self.startup_absent_since@ =~= old(self).startup_absent_since@.restrict(remaining@));
        self.startup_image_quarantine = remaining;
    }

    /// The blocked panel that the selection names, and what stays blocked without it.
    pub fn startup_clearance(&self, selection: &str) -> (clearance: Result<Clearance, ClearError>)
        ensures
            clearance == Err::<Clearance, ClearError>(ClearError::UploadRunning)
                <==> self.startup_image_job is Some,
            clearance == Err::<Clearance, ClearError>(ClearError::NotBlocked)
                <==> self.startup_image_job is None && !exists|id: Seq<char>|
                self.startup_image_quarantine@.contains(id) && #[trigger] ids_match(
                    selected(selection@),
                    id,
                ),
            clearance == Err::<Clearance, ClearError>(ClearError::NotBlocked)
                <==> self.startup_image_job is None && !names_blocked(
                self.startup_image_quarantine@,
                selected(selection@),
            ),
            clearance matches Ok(clearance) ==> {
                &&& self.startup_image_quarantine@.contains(clearance.identity@)
                &&& ids_match(selected(selection@), clearance.identity@)
                &&& clearance.remaining@ == self.startup_image_quarantine@.remove(
                    clearance.identity@,
                )
            },
    {
        if self.startup_image_job.is_some() {
            return Err(ClearError::UploadRunning);
        }
        let panel = trim_prefix(selection, "serial:");
        assert(panel@ == selected(selection@));
        match find_matching(&self.startup_image_quarantine, panel) {
            Some(identity) => {
                let mut remaining = self.startup_image_quarantine.copy();
                remaining.remove(identity);
                assert(ids_match(selected(selection@), identity@));
                Ok(Clearance { identity: identity.clone(), remaining })
            },
            None => Err(ClearError::NotBlocked),
        }
    }

    /// Clears the panel, once what stays blocked was written down.
    pub fn clear_startup_recovery(&mut self, clearance: Clearance)
        ensures
            final(self).startup_image_quarantine@ == clearance.remaining@,
            final(self).startup_absent_since@ == old(self).startup_absent_since@.remove(
                clearance.identity@,
            ),
            final(self).media_reload_pending,
            final(self).media_preparation@.dom() == old(self).media_preparation@.dom(),
            forall|index: usize| #[trigger]
                old(self).media_preparation@.contains_key(index)
                    ==> final(self).media_preparation@[index]@ == cleared(
                    old(self).media_preparation@[index]@,
                    clearance.identity@,
                ),
            *final(self) == (ServiceManager {
                startup_image_quarantine: final(self).startup_image_quarantine,
                startup_absent_since: final(self).startup_absent_since,
                media_preparation: final(self).media_preparation,
                media_reload_pending: true,
                ..*old(self)
            }),
    {
        let ghost before = self.media_preparation@;
        let identity = clearance.identity;
        let mut statuses: Table<usize, MediaPreparationStatus> = Table::new();
        loop
            invariant
                *self == (ServiceManager {
                    media_preparation: self.media_preparation,
                    ..*old(self)
                }),
                forall|index: usize| #[trigger]
                    before.contains_key(index) <==> statuses@.contains_key(index)
                        || self.media_preparation@.contains_key(index),
                forall|index: usize| #[trigger]
                    self.media_preparation@.contains_key(index) ==> before[index]
                        == self.media_preparation@[index] && !statuses@.contains_key(index),
                forall|index: usize| #[trigger]
                    statuses@.contains_key(index) ==> statuses@[index]@ == cleared(
                        before[index]@,
                        identity@,
                    ),
            ensures
                *self == (ServiceManager {
                    media_preparation: self.media_preparation,
                    ..*old(self)
                }),
                statuses@.dom() == before.dom(),
                forall|index: usize| #[trigger]
                    statuses@.contains_key(index) ==> statuses@[index]@ == cleared(
                        before[index]@,
                        identity@,
                    ),
            decreases self.media_preparation.size(),
        {
            match self.media_preparation.pop() {
                Some((index, status)) => {
                    let by_serial = match strip_prefix(&status.device_id, "serial:") {
                        Some(id) => lcd_id_matches(id, &identity),
                        None => false,
                    };
                    if by_serial || lcd_id_matches(&status.device_id, &identity) {
                        statuses.insert(
                            index,
                            MediaPreparationStatus {
                                startup_recovery_required: false,
                                error: None,
                                state: MediaPreparationState::WaitingForDevice,
                                ..status
                            },
                        );
                    } else {
                        statuses.insert(index, status);
                    }
                },
                None => {
                    assert(statuses@.dom() =~= before.dom());
                    break;
                },
            }
        }
        self.media_preparation = statuses;
        let _ = self.startup_absent_since.remove(&identity);
        self.startup_image_quarantine = clearance.remaining;
        self.media_reload_pending = true;
    }

    /// What is written down before an upload to the panel touches the device.
    pub fn quarantine_with(&self, identity: &String) -> (ids: IdSet)
        ensures
            ids@ == self.startup_image_quarantine@.insert(identity@),
    {
        let mut ids = self.startup_image_quarantine.copy();
        ids.insert(identity.clone());
        ids
    }
}

/// The playback error of a panel stays until media is requested again: neither the results of
/// jobs, nor the end of preparation, nor clearing a blocked panel touches it.
pub proof fn lemma_playback_error_stays(
    state: MediaState,
    results: Seq<PreparedMedia>,
    index: usize,
    busy: bool,
    identity: Seq<char>,
)
    requires
        state.statuses.contains_key(index),
    ensures
        ({
            let status = state.statuses[index]@;
            let after = absorbed_all(state, results);
            &&& after.statuses.contains_key(index)
            &&& after.statuses[index]@.last_playback_error == status.last_playback_error
            &&& stalled(status, busy).last_playback_error == status.last_playback_error
            &&& cleared(status, identity).last_playback_error == status.last_playback_error
        }),
    decreases results.len(),
{
    if results.len() > 0 {
        lemma_playback_error_stays(
            absorbed(state, results[0]),
            results.skip(1),
            index,
            busy,
            identity,
        );
    }
}

proof fn lemma_set_of_longer_prefix(list: Seq<Seq<char>>, i: int)
    requires
        0 <= i < list.len(),
    ensures
        list.take(i + 1).to_set() == list.take(i).to_set().insert(list[i]),
{
    let shorter = list.take(i);
    let longer = list.take(i + 1);
    assert forall|x: Seq<char>| longer.to_set().contains(x) == shorter.to_set().insert(
        list[i],
    ).contains(x) by {
        if shorter.contains(x) {
            let j = choose|j: int| 0 <= j < shorter.len() && shorter[j] == x;
            assert(longer[j] == x);
        }
        if x == list[i] {
            assert(longer[i] == x);
        }
    }
    assert(longer.to_set() =~= shorter.to_set().insert(list[i]));
}

/// A blocked panel is freed exactly when it has been gone for ten seconds. While it is blocked,
/// being seen starts its absence anew, and not being seen leaves it running from when it began.
/// During an upload nothing changes.
pub proof fn lemma_absent_panels_are_freed(present: &IdSet, now: u64, id: Seq<char>)
    ensures
        forall|service: &mut ServiceManager, remaining: Option<IdSet>| #[trigger]
            call_ensures(
                ServiceManager::reconcile_startup_quarantine,
                (service, present, now),
                remaining,
            ) ==> {
                let blocked = service.startup_image_quarantine@.contains(id);
                let before = service.startup_absent_since@;
                let after = final(service).startup_absent_since@;
                let served = before.contains_key(id) && now - before[id] >= 10_000_000_000;
                &&& service.startup_image_job is Some ==> remaining is None && after == before
                &&& service.startup_image_job is None ==> {
                    &&& remaining is Some ==> (remaining->0@.contains(id) <==> blocked && !served)
                    &&& remaining is None ==> !(blocked && served)
                    &&& blocked && !served ==> {
                        &&& after.contains_key(id) <==> !present@.contains(id)
                        &&& after.contains_key(id) && before.contains_key(id) ==> after[id]
                            == before[id]
                        &&& after.contains_key(id) && !before.contains_key(id) ==> after[id] == now
                    }
                    &&& !blocked || served ==> {
                        &&& after.contains_key(id) <==> before.contains_key(id)
                        &&& after.contains_key(id) ==> after[id] == before[id]
                    }
                }
                &&& final(service).startup_image_quarantine == service.startup_image_quarantine
                &&& final(service).targets == service.targets
            },
{
    assert forall|service: &mut ServiceManager, remaining: Option<IdSet>| #[trigger]
        call_ensures(
            ServiceManager::reconcile_startup_quarantine,
            (service, present, now),
            remaining,
        ) && service.startup_image_job is None && remaining is None implies !(
    service.startup_image_quarantine@.contains(id) && service.startup_absent_since@.contains_key(id)
        && now - service.startup_absent_since@[id] >= 10_000_000_000) by {
        let blocked = still_blocked(
            service.startup_image_quarantine@,
            service.startup_absent_since@,
            now,
        );
        assert(blocked.contains(id) == service.startup_image_quarantine@.contains(id));
    }
}

/// What stays blocked takes effect only once it was written down. Then the absence of every other
/// panel is forgotten.
pub proof fn lemma_blocks_are_written_down_first(remaining: IdSet, written: bool, id: Seq<char>)
    ensures
        forall|service: &mut ServiceManager| #[trigger]
            call_ensures(ServiceManager::quarantine_written, (service, remaining, written), ()) ==> {
                let before = service.startup_absent_since@;
                let after = final(service).startup_absent_since@;
                &&& !written ==> *final(service) == *service
                &&& written ==> {
                    &&& final(service).startup_image_quarantine@.contains(id)
                        <==> remaining@.contains(id)
                    &&& after.contains_key(id) <==> before.contains_key(id) && remaining@.contains(
                        id,
                    )
                    &&& after.contains_key(id) ==> after[id] == before[id]
                    &&& final(service).targets == service.targets
                    &&& final(service).startup_image_job == service.startup_image_job
                }
            },
{
}

/// A panel is cleared only while no upload runs. It is one that is blocked, and all other blocked
/// panels stay so.
pub proof fn lemma_one_panel_is_cleared(
    service: ServiceManager,
    selection: &str,
    clearance: Result<Clearance, ClearError>,
    id: Seq<char>,
)
    requires
        call_ensures(ServiceManager::startup_clearance, (&service, selection), clearance),
    ensures
        service.startup_image_job is Some <==> clearance == Err::<Clearance, ClearError>(
            ClearError::UploadRunning,
        ),
        clearance matches Ok(clearance) ==> {
            &&& service.startup_image_quarantine@.contains(clearance.identity@)
            &&& clearance.remaining@.contains(id) <==> service.startup_image_quarantine@.contains(
                id,
            ) && id != clearance.identity@
            &&& ids_match(without_prefix(selection@, "serial:"@), clearance.identity@)
        },
        clearance == Err::<Clearance, ClearError>(ClearError::NotBlocked)
            && service.startup_image_quarantine@.contains(id) ==> !ids_match(
            without_prefix(selection@, "serial:"@),
            id,
        ),
{
    assert(selected(selection@) == without_prefix(selection@, "serial:"@));
}

/// Clearing a panel frees it, forgets its absence, and asks for its media again. Of the panels
/// that are reported on, those that go by its identity wait for it without an error.
pub proof fn lemma_cleared_panels_wait_for_media(
    clearance: Clearance,
    id: Seq<char>,
    index: usize,
)
    ensures
        forall|service: &mut ServiceManager| #[trigger]
            call_ensures(ServiceManager::clear_startup_recovery, (service, clearance), ()) ==> {
                let before = service.startup_absent_since@;
                let after = final(service).startup_absent_since@;
                &&& final(service).startup_image_quarantine@.contains(id)
                    <==> clearance.remaining@.contains(id)
                &&& after.contains_key(id) <==> before.contains_key(id) && id
                    != clearance.identity@
                &&& after.contains_key(id) ==> after[id] == before[id]
                &&& final(service).media_preparation@.contains_key(index)
                    <==> service.media_preparation@.contains_key(index)
                &&& service.media_preparation@.contains_key(index) ==> final(service).media_preparation@[index]@ == cleared(
                    service.media_preparation@[index]@,
                    clearance.identity@,
                )
                &&& final(service).media_reload_pending
                &&& final(service).targets == service.targets
            },
{
}

/// What is said of a panel that goes by the identity, with or without the words that say it is a
/// serial, no longer asks for recovery; nothing else that is said of it changes, and nothing that
/// is said of any other.
pub proof fn lemma_cleared_reports(status: StatusView, identity: Seq<char>)
    ensures
        ({
            let after = cleared(status, identity);
            let same = ids_match(status.device_id, identity) || exists|rest: Seq<char>|
                status.device_id == "serial:"@ + rest && #[trigger] ids_match(rest, identity);
            &&& same ==> !after.startup_recovery_required && after.error is None
                && after.state is WaitingForDevice
            &&& !same ==> after == status
            &&& after.device_id == status.device_id
            &&& after.generation == status.generation
            &&& after.runtime == status.runtime
            &&& after.last_playback_error == status.last_playback_error
        }),
{
    let words = "serial:"@;
    let id = status.device_id;
    if has_prefix(id, words) {
        let rest = id.skip(words.len() as int);
        assert(id =~= words + rest);
        if ids_match(rest, identity) {
            assert(id == words + rest && ids_match(rest, identity));
        }
    }
    if exists|rest: Seq<char>| id == words + rest && #[trigger] ids_match(rest, identity) {
        let rest = choose|rest: Seq<char>| id == words + rest && #[trigger] ids_match(rest, identity);
        assert(id.take(words.len() as int) =~= words);
        assert(id.skip(words.len() as int) =~= rest);
    }
}

/// What is written down before an upload is what is blocked already, and the panel.
pub proof fn lemma_uploads_are_announced_in_writing(
    service: ServiceManager,
    identity: &String,
    ids: IdSet,
    id: Seq<char>,
)
    requires
        call_ensures(ServiceManager::quarantine_with, (&service, identity), ids),
    ensures
        ids@.contains(id) <==> service.startup_image_quarantine@.contains(id) || id == identity@,
{
}

} // verus!
