//! Matching of the configured panels with the connected ones.
use vstd::prelude::*;
use vstd::string::*;

use crate::group_recovery::{elapsed, time_since};
use crate::registry::{lemma_picked_from, lemma_picked_push, picked, DeviceFamily};
use crate::selection::{
    hid_id_norm, ids_match, is_streamable_lcd, lcd_id_matches, norm, selection_key, selection_of,
    LcdBackendKind,
};
use crate::service::{
    ActiveTarget, AppConfig, LcdConfig, MediaAsset, MediaTarget, ScreenInfo, ServiceManager,
};
use crate::table::{kept, lists_values, Table};
use crate::text::same_text;

verus! {

/// How long to wait after settings could not be written, in nanoseconds.
pub const SERIAL_REWRITE_RETRY_INTERVAL: u64 = 60_000_000_000;

/// A USB device that was found.
pub struct DetectedLcd {
    pub device_id: String,
    pub family: DeviceFamily,
    pub has_lcd: bool,
    pub desktop_mode: bool,
    /// It was switched to another mode a moment ago.
    pub suppressed: bool,
    pub screen: Option<ScreenInfo>,
}

/// A panel that could be driven.
pub struct LcdCandidate {
    pub device_id: String,
    pub family: DeviceFamily,
    pub screen: Option<ScreenInfo>,
}

/// The candidate that a found device is, if it is one.
pub open spec fn candidate_of(quarantine: Set<Seq<char>>, device: DetectedLcd) -> Option<
    LcdCandidate,
> {
    if device.has_lcd && !device.desktop_mode && !quarantine.contains(device.device_id@)
        && !device.suppressed {
        Some(
            LcdCandidate {
                device_id: device.device_id,
                family: device.family,
                screen: device.screen,
            },
        )
    } else {
        None
    }
}

/// Which candidate a found device is, while these panels are blocked.
pub open spec fn as_candidate(quarantine: Set<Seq<char>>) -> spec_fn(DetectedLcd) -> Option<
    LcdCandidate,
> {
    |device: DetectedLcd| candidate_of(quarantine, device)
}

/// Whether panels are looked for now.
#[derive(Clone, Copy, Debug, PartialEq, Eq, Structural)]
pub enum RefreshGate {
    /// Another LCD operation is running.
    Blocked,
    /// There is nothing to drive, and nothing is driven.
    Idle,
    /// Look for panels.
    Enumerate,
}

/// The setting means the candidate at `i`.
pub open spec fn means(config: LcdConfig, candidates: Seq<LcdCandidate>, i: int) -> bool {
    &&& 0 <= i < candidates.len()
    &&& match config.serial {
        Some(serial) => ids_match(serial@, candidates[i].device_id@),
        None => config.index matches Some(index) && index == i,
    }
}

/// The candidate at `i` is free and the one that the setting means.
pub open spec fn claimable(
    config: LcdConfig,
    candidates: Seq<LcdCandidate>,
    claimed: Seq<bool>,
    i: int,
) -> bool {
    means(config, candidates, i) && !claimed[i]
}

/// The first free candidate, from `from` on, that the setting means.
pub open spec fn first_claim(
    config: LcdConfig,
    candidates: Seq<LcdCandidate>,
    claimed: Seq<bool>,
    from: int,
) -> Option<int>
    decreases candidates.len() - from,
{
    if from >= candidates.len() {
        None
    } else if claimable(config, candidates, claimed, from) {
        Some(from)
    } else {
        first_claim(config, candidates, claimed, from + 1)
    }
}

/// Which candidates are taken after a claim.
pub open spec fn after_claim(claimed: Seq<bool>, claim: Option<int>) -> Seq<bool> {
    match claim {
        Some(i) => claimed.update(i, true),
        None => claimed,
    }
}

/// Which candidates are taken once the settings have claimed, one after the other.
pub open spec fn taken(configs: Seq<LcdConfig>, candidates: Seq<LcdCandidate>) -> Seq<bool>
    decreases configs.len(),
{
    if configs.len() == 0 {
        Seq::new(candidates.len(), |i: int| false)
    } else {
        let before = taken(configs.drop_last(), candidates);
        after_claim(before, first_claim(configs.last(), candidates, before, 0))
    }
}

/// The candidate that the last of the settings claims after the others.
pub open spec fn last_claim(configs: Seq<LcdConfig>, candidates: Seq<LcdCandidate>) -> Option<int>
{
    first_claim(configs.last(), candidates, taken(configs.drop_last(), candidates), 0)
}

/// The candidates that the settings claim one after the other.
pub open spec fn claims(configs: Seq<LcdConfig>, candidates: Seq<LcdCandidate>) -> Seq<Option<int>>
    decreases configs.len(),
{
    if configs.len() == 0 {
        Seq::empty()
    } else {
        claims(configs.drop_last(), candidates).push(last_claim(configs, candidates))
    }
}

proof fn lemma_first_claim(
    config: LcdConfig,
    candidates: Seq<LcdCandidate>,
    claimed: Seq<bool>,
    from: int,
)
    requires
        0 <= from <= candidates.len(),
    ensures
        match first_claim(config, candidates, claimed, from) {
            Some(i) => claimable(config, candidates, claimed, i),
            None => forall|i: int| from <= i < candidates.len() ==> !claimable(config, candidates, claimed, i),
        },
    decreases candidates.len() - from,
{
    if from < candidates.len() && !claimable(config, candidates, claimed, from) {
        lemma_first_claim(config, candidates, claimed, from + 1);
    }
}

/// Each setting claims a candidate that it means, and no two claim one. A setting claims none only
/// where settings before it have claimed all that it means.
pub proof fn lemma_claims_are_distinct(configs: Seq<LcdConfig>, candidates: Seq<LcdCandidate>)
    ensures
        claims(configs, candidates).len() == configs.len(),
        taken(configs, candidates).len() == candidates.len(),
        forall|i: int|
            0 <= i < configs.len() ==> (#[trigger] claims(configs, candidates)[i] matches Some(c)
                ==> means(configs[i], candidates, c) && taken(configs, candidates)[c]),
        forall|i: int, j: int|
            0 <= i < j < configs.len() && claims(configs, candidates)[i] is Some ==> (
            #[trigger] claims(configs, candidates)[i]) != (
            #[trigger] claims(configs, candidates)[j]),
        forall|c: int|
            0 <= c < candidates.len() && #[trigger] taken(configs, candidates)[c] ==> claims(
                configs,
                candidates,
            ).contains(Some(c)),
        forall|i: int, c: int|
            #![trigger claims(configs, candidates)[i], means(configs[i], candidates, c)]
            0 <= i < configs.len() && claims(configs, candidates)[i] is None && means(
                configs[i],
                candidates,
                c,
            ) ==> claims(configs, candidates).take(i).contains(Some(c)),
    decreases configs.len(),
{
    if configs.len() > 0 {
        let rest = configs.drop_last();
        let n = rest.len() as int;
        let before = claims(rest, candidates);
        let all = claims(configs, candidates);
        let claimed = taken(rest, candidates);
        let claim = last_claim(configs, candidates);
        lemma_claims_are_distinct(rest, candidates);
        lemma_first_claim(configs.last(), candidates, claimed, 0);
        assert(all == before.push(claim));
        assert forall|i: int| 0 <= i < configs.len() implies (#[trigger] all[i] matches Some(c)
            ==> means(configs[i], candidates, c) && taken(configs, candidates)[c]) by {
            if i < n {
                assert(all[i] == before[i]);
                assert(rest[i] == configs[i]);
            }
        }
        assert forall|i: int, j: int|
            0 <= i < j < configs.len() && all[i] is Some implies #[trigger] all[i]
            != #[trigger] all[j] by {
            assert(all[i] == before[i]);
            if j < n {
                assert(all[j] == before[j]);
            } else {
                assert(claimed[before[i]->0]);
            }
        }
        assert forall|c: int|
            0 <= c < candidates.len() && #[trigger] taken(configs, candidates)[c] implies all.contains(
            Some(c),
        ) by {
            if claim == Some(c) {
                assert(all[n] == Some(c));
            } else {
                assert(claimed[c]);
                let k = choose|k: int| 0 <= k < before.len() && before[k] == Some(c);
                assert(all[k] == Some(c));
            }
        }
        assert forall|i: int, c: int|
            #![trigger all[i], means(configs[i], candidates, c)]
            0 <= i < configs.len() && all[i] is None && means(
                configs[i],
                candidates,
                c,
            ) implies all.take(i).contains(Some(c)) by {
            if i < n {
                assert(all[i] == before[i]);
                assert(rest[i] == configs[i]);
                assert(means(rest[i], candidates, c));
                assert(all.take(i) =~= before.take(i));
            } else {
                assert(!claimable(configs.last(), candidates, claimed, c));
                assert(claimed[c]);
                assert(all.take(i) =~= before);
            }
        }
    }
}

/// What came of matching the configured panels with the connected ones so far: the settings are
/// gone through in their order, and each claims a panel, is decided on, and may have its panel
/// opened.
pub struct Refresh {
    lcds: Vec<LcdConfig>,
    candidates: Vec<LcdCandidate>,
    claimed: Vec<bool>,
    claims: Vec<Option<usize>>,
    targets: Table<usize, ActiveTarget>,
    media_targets: Table<usize, MediaTarget>,
    canonicalize: Vec<(String, String)>,
}

/// What a refresh stands for.
#[verifier::ext_equal]
pub struct RefreshView {
    /// The settings.
    pub lcds: Seq<LcdConfig>,
    /// The panels that could be driven.
    pub candidates: Seq<LcdCandidate>,
    /// What the settings that had their turn have claimed.
    pub claims: Seq<Option<int>>,
    /// The targets that are driven from now on.
    pub targets: Map<usize, ActiveTarget>,
    pub media_targets: Map<usize, MediaTarget>,
    /// Serials in the settings, each with the form in which it should be written.
    pub canonicalize: Seq<(String, String)>,
}

impl RefreshView {
    /// Every setting had its turn.
    pub open spec fn is_done(self) -> bool {
        self.claims.len() == self.lcds.len()
    }

    /// The position of the setting whose turn it is.
    pub open spec fn index(self) -> usize {
        (self.claims.len() - 1) as usize
    }

    /// The setting whose turn it is.
    pub open spec fn setting(self) -> LcdConfig {
        self.lcds[self.claims.len() - 1]
    }

    /// The candidate at this position is what the setting at `index` has claimed.
    pub open spec fn has_claimed(self, index: usize, c: int) -> bool {
        index < self.claims.len() && self.claims[index as int] == Some(c)
    }

    /// The setting at `index` has claimed a candidate of this identity.
    pub open spec fn holds(self, index: usize, identity: Seq<char>) -> bool {
        exists|c: int| #[trigger]
            self.has_claimed(index, c) && self.candidates[c].device_id@ == identity
    }

    /// The claims follow from the settings; and every target is on the candidate that its setting
    /// has claimed.
    pub open spec fn sound(self) -> bool {
        &&& self.claims.len() <= self.lcds.len()
        &&& self.claims == claims(self.lcds.take(self.claims.len() as int), self.candidates)
        &&& forall|index: usize| #[trigger]
            self.targets.contains_key(index) ==> self.holds(
                index,
                self.targets[index].device_identity@,
            )
        &&& forall|index: usize| #[trigger]
            self.media_targets.contains_key(index) ==> self.holds(
                index,
                self.media_targets[index].device_id@,
            )
    }
}

/// The position of a claim, as an integer.
pub open spec fn claim_view(claim: Option<usize>) -> Option<int> {
    match claim {
        Some(i) => Some(i as int),
        None => None,
    }
}

impl View for Refresh {
    type V = RefreshView;

    closed spec fn view(&self) -> RefreshView {
        RefreshView {
            lcds: self.lcds@,
            candidates: self.candidates@,
            claims: self.claims@.map_values(|claim: Option<usize>| claim_view(claim)),
            targets: self.targets@,
            media_targets: self.media_targets@,
            canonicalize: self.canonicalize@,
        }
    }
}

impl Refresh {
    /// It is known which candidates are taken.
    pub closed spec fn knows_taken(self) -> bool {
        &&& self.claimed@ == taken(self@.lcds.take(self@.claims.len() as int), self@.candidates)
        &&& self.claimed@.len() == self.candidates@.len()
        &&& forall|i: int|
            0 <= i < self.claims@.len() ==> (#[trigger] self.claims@[i] matches Some(c) ==> c
                < self.candidates@.len())
    }

    /// The refresh is sound.
    pub open spec fn wf(self) -> bool {
        self@.sound() && self.knows_taken()
    }

    /// No setting had its turn yet.
    pub fn new(lcds: Vec<LcdConfig>, candidates: Vec<LcdCandidate>) -> (refresh: Self)
        ensures
            refresh.wf(),
            refresh@ == (RefreshView {
                lcds: lcds@,
                candidates: candidates@,
                claims: Seq::empty(),
                targets: Map::empty(),
                media_targets: Map::empty(),
                canonicalize: Seq::empty(),
            }),
    {
        let mut claimed: Vec<bool> = Vec::new();
        let mut i: usize = 0;
        while i < candidates.len()
            invariant
                i <= candidates@.len(),
                claimed@.len() == i,
                forall|j: int| 0 <= j < i ==> !(#[trigger] claimed@[j]),
            decreases candidates@.len() - i,
        {
            claimed.push(false);
            i += 1;
        }
        let refresh = Refresh {
            lcds,
            candidates,
            claimed,
            claims: Vec::new(),
            targets: Table::new(),
            media_targets: Table::new(),
            canonicalize: Vec::new(),
        };
        proof {
            let none = refresh@.lcds.take(0);
            assert(refresh@.claims =~= Seq::<Option<int>>::empty());
            assert(claims(none, refresh@.candidates) =~= Seq::<Option<int>>::empty());
            assert(refresh.claimed@ =~= taken(none, refresh@.candidates));
            assert(refresh@.canonicalize =~= Seq::<(String, String)>::empty());
        }
        refresh
    }

    /// Whether every setting had its turn.
    pub fn is_done(&self) -> (done: bool)
        ensures
            done == self@.is_done(),
    {
        self.claims.len() == self.lcds.len()
    }

    /// The panels that could be driven.
    pub fn candidates(&self) -> (candidates: &Vec<LcdCandidate>)
        ensures
            candidates@ == self@.candidates,
    {
        &self.candidates
    }

    /// The serials in the settings that should be written in another form, each with that form.
    pub fn rewrites(&self) -> (rewrites: &Vec<(String, String)>)
        ensures
            rewrites@ == self@.canonicalize,
    {
        &self.canonicalize
    }

    /// The setting whose turn it is.
    pub fn setting(&self) -> (setting: &LcdConfig)
        requires
            self.wf(),
            self@.claims.len() > 0,
        ensures
            *setting == self@.setting(),
    {
        &self.lcds[self.claims.len() - 1]
    }

    /// The candidate that the setting whose turn it is has claimed.
    pub fn candidate(&self) -> (candidate: Option<&LcdCandidate>)
        requires
            self.wf(),
            self@.claims.len() > 0,
        ensures
            match self@.claims.last() {
                Some(c) => candidate == Some(&self@.candidates[c]),
                None => candidate is None,
            },
    {
        match self.claims[self.claims.len() - 1] {
            Some(at) => Some(&self.candidates[at]),
            None => None,
        }
    }

    /// The next setting has its turn: it claims the candidate that it means, if one is free.
    pub fn claim(&mut self) -> (claim: Option<usize>)
        requires
            old(self).wf(),
            !old(self)@.is_done(),
        ensures
            final(self).wf(),
            final(self)@ == (RefreshView {
                claims: old(self)@.claims.push(claim_view(claim)),
                ..old(self)@
            }),
            claim_view(claim) == last_claim(
                old(self)@.lcds.take(old(self)@.claims.len() as int + 1),
                old(self)@.candidates,
            ),
    {
        let turn: usize = self.claims.len();
        let ghost upto = self@.lcds.take(turn + 1);
        let ghost config = self@.lcds[turn as int];
        let mut claim: Option<usize> = None;
        let mut i: usize = 0;
        proof {
            assert(upto.drop_last() =~= self@.lcds.take(turn as int));
            assert(upto.last() == config);
            lemma_first_claim(config, self@.candidates, self.claimed@, 0);
        }
        while i < self.candidates.len() && claim.is_none()
            invariant
                i <= self.candidates@.len(),
                turn < self.lcds@.len(),
                self.lcds@[turn as int] == config,
                self.claimed@.len() == self.candidates@.len(),
                *self == *old(self),
                match claim {
                    Some(at) => at < self.candidates@.len() && first_claim(
                        config,
                        self.candidates@,
                        self.claimed@,
                        0,
                    ) == Some(at as int),
                    None => first_claim(config, self.candidates@, self.claimed@, 0) == first_claim(
                        config,
                        self.candidates@,
                        self.claimed@,
                        i as int,
                    ),
                },
            decreases self.candidates@.len() - i,
        {
            let setting = &self.lcds[turn];
            let meant = match &setting.serial {
                Some(serial) => lcd_id_matches(serial, &self.candidates[i].device_id),
                None => match setting.index {
                    Some(index) => index == i,
                    None => false,
                },
            };
            if meant && !self.claimed[i] {
                claim = Some(i);
            }
            i += 1;
        }
        if let Some(at) = claim {
            self.claimed.set(at, true);
        }
        self.claims.push(claim);
        proof {
            let before = old(self)@;
            let after = self@;
            assert(after.claims =~= before.claims.push(claim_view(claim)));
            assert(claim_view(claim) == last_claim(upto, before.candidates));
            assert(claims(upto, before.candidates) == before.claims.push(claim_view(claim)));
            assert(after.lcds.take(after.claims.len() as int) == upto);
            assert(taken(upto, before.candidates) =~= self.claimed@);
            assert forall|k: usize| #[trigger] after.targets.contains_key(k) implies after.holds(
                k,
                after.targets[k].device_identity@,
            ) by {
                lemma_holds_stays(before, after, k, after.targets[k].device_identity@);
            }
            assert forall|k: usize| #[trigger]
                after.media_targets.contains_key(k) implies after.holds(
                k,
                after.media_targets[k].device_id@,
            ) by {
                lemma_holds_stays(before, after, k, after.media_targets[k].device_id@);
            }
        }
        claim
    }

    /// The panel of the setting whose turn it is was opened for this media, under this handle.
    pub fn opened(&mut self, asset: &MediaAsset, handle: u64)
        requires
            old(self).wf(),
            old(self)@.claims.len() > 0,
            old(self)@.claims.last() matches Some(c) && old(self)@.candidates[c].screen is Some,
        ensures
            final(self).wf(),
            ({
                let index = old(self)@.index();
                let candidate = old(self)@.candidates[old(self)@.claims.last()->0];
                let target = final(self)@.targets[index];
                &&& target.index == index
                &&& target.device_identity@ == candidate.device_id@
                &&& target.key@ == asset.config_key@
                &&& Some(target.screen) == candidate.screen
                &&& target.handle == handle
                &&& final(self)@ == (RefreshView {
                    targets: old(self)@.targets.insert(index, target),
                    ..old(self)@
                })
            }),
    {
        let index: usize = self.claims.len() - 1;
        let ghost before = self@;
        assert(before.claims[index as int] == claim_view(self.claims@[index as int]));
        if let Some(at) = self.claims[index] {
            if let Some(screen) = self.candidates[at].screen {
                let target = ActiveTarget {
                    index,
                    device_identity: self.candidates[at].device_id.clone(),
                    key: asset.config_key.clone(),
                    screen,
                    handle,
                };
                self.targets.insert(index, target);
                proof {
                    assert(self@.has_claimed(index, at as int));
                    lemma_stays_sound(before, self@, index, at as int);
                }
            }
        }
    }
}

/// What a setting has claimed does not change when others claim.
proof fn lemma_holds_stays(before: RefreshView, after: RefreshView, index: usize, identity: Seq<char>)
    requires
        before.candidates == after.candidates,
        before.claims.len() <= after.claims.len(),
        forall|i: int| 0 <= i < before.claims.len() ==> before.claims[i] == #[trigger] after.claims[i],
        before.holds(index, identity),
    ensures
        after.holds(index, identity),
{
    let c = choose|c: int| #[trigger]
        before.has_claimed(index, c) && before.candidates[c].device_id@ == identity;
    assert(after.claims[index as int] == Some(c));
    assert(after.has_claimed(index, c));
}

/// Targets that stay where they were, and new ones on what their setting has claimed, are sound.
proof fn lemma_stays_sound(before: RefreshView, after: RefreshView, index: usize, c: int)
    requires
        before.sound(),
        after.lcds == before.lcds,
        after.candidates == before.candidates,
        after.claims == before.claims,
        after.has_claimed(index, c),
        forall|k: usize| #[trigger]
            after.targets.contains_key(k) ==> (k == index && after.targets[k].device_identity@
                == after.candidates[c].device_id@) || (before.targets.contains_key(k)
                && before.targets[k] == after.targets[k]),
        forall|k: usize| #[trigger]
            after.media_targets.contains_key(k) ==> (k == index && after.media_targets[k].device_id@
                == after.candidates[c].device_id@) || (before.media_targets.contains_key(k)
                && before.media_targets[k] == after.media_targets[k]),
    ensures
        after.sound(),
{
    assert forall|k: usize| #[trigger] after.targets.contains_key(k) implies after.holds(
        k,
        after.targets[k].device_identity@,
    ) by {
        if before.targets.contains_key(k) && before.targets[k] == after.targets[k] {
            lemma_holds_stays(before, after, k, after.targets[k].device_identity@);
        }
    }
    assert forall|k: usize| #[trigger] after.media_targets.contains_key(k) implies after.holds(
        k,
        after.media_targets[k].device_id@,
    ) by {
        if before.media_targets.contains_key(k) && before.media_targets[k]
            == after.media_targets[k] {
            lemma_holds_stays(before, after, k, after.media_targets[k].device_id@);
        }
    }
}

/// What is to be done for one setting.
pub enum RefreshAction {
    /// Its panel is gone: stop the target.
    Detached(Option<ActiveTarget>),
    /// Its panel has no known screen.
    Unknown,
    /// Its media is not prepared yet: stop the target.
    AwaitMedia(Option<ActiveTarget>),
    /// The target goes on with the same media.
    Keep { handle: u64, custom_h264: bool },
    /// The target goes on with other media.
    Swap { handle: u64, asset: MediaAsset, custom_h264: bool },
    /// Stop the target, if there is one, and open the panel.
    Open { replaced: Option<ActiveTarget>, asset: MediaAsset, custom_h264: bool },
}

/// The connected panel of a setting.
pub open spec fn target_for(config: LcdConfig, candidate: LcdCandidate, target: MediaTarget) -> bool {
    &&& target.selection@ == selection_of(config)
    &&& target.device_id@ == candidate.device_id@
    &&& candidate.screen == Some(target.screen)
}

/// The serial should be written in the form in which the panel reports it.
pub open spec fn needs_rewrite(serial: Option<String>, device_id: Seq<char>) -> bool {
    serial matches Some(serial) && serial@ != device_id && norm(serial@) == norm(device_id)
}

impl ServiceManager {
    /// Whether panels are looked for now.
    pub fn refresh_gate(&self) -> (gate: RefreshGate)
        ensures
            gate == if self.startup_image_job is Some || self.lcd_group_recovery.is_busy() {
                RefreshGate::Blocked
            } else if self.lcds().len() == 0 && self.targets@ == Map::<
                usize,
                ActiveTarget,
            >::empty() {
                RefreshGate::Idle
            } else {
                RefreshGate::Enumerate
            },
    {
        if self.startup_image_job.is_some() || self.lcd_group_recovery.busy() {
            return RefreshGate::Blocked;
        }
        let none_configured = match &self.config {
            Some(config) => config.lcds.len() == 0,
            None => true,
        };
        if none_configured && self.targets.len() == 0 {
            RefreshGate::Idle
        } else {
            RefreshGate::Enumerate
        }
    }

    /// Forgets the mode switches that are over.
    pub fn expire_mode_switches(&mut self, now: u64)
        ensures
            final(self).mode_switch_suppression@ == kept(
                old(self).mode_switch_suppression@,
                |id: Seq<char>, until: u64| now < until,
            ),
            *final(self) == (ServiceManager {
                mode_switch_suppression: final(self).mode_switch_suppression,
                ..*old(self)
            }),
    {
        let ghost passes = |id: Seq<char>, until: u64| now < until;
        let keep = |id: &String, until: &u64| -> (running: bool)
            ensures
                running == (now < *until),
            { now < *until };
        self.mode_switch_suppression.retain(keep, Ghost(passes));
    }

    /// The panels among the devices that were found, in their order.
    pub open spec fn found(self, detected: Seq<DetectedLcd>) -> Seq<LcdCandidate> {
        picked(detected, as_candidate(self.startup_image_quarantine@))
    }

    /// The panels among the devices that were found, in their order.
    pub fn lcd_candidates(&self, detected: &Vec<DetectedLcd>) -> (candidates: Vec<LcdCandidate>)
        ensures
            candidates@ == self.found(detected@),
    {
        let ghost pick = as_candidate(self.startup_image_quarantine@);
        let mut candidates: Vec<LcdCandidate> = Vec::new();
        let mut i: usize = 0;
        assert(candidates@ =~= picked(detected@.take(0), pick));
        while i < detected.len()
            invariant
                i <= detected@.len(),
                pick == as_candidate(self.startup_image_quarantine@),
                candidates@ == picked(detected@.take(i as int), pick),
            decreases detected@.len() - i,
        {
            proof {
                lemma_picked_push(detected@, i as int, pick);
            }
            let device = &detected[i];
            if is_streamable_lcd(device.has_lcd, device.desktop_mode)
                && !self.startup_image_quarantine.contains(&device.device_id)
                && !device.suppressed {
                candidates.push(
                    LcdCandidate {
                        device_id: device.device_id.clone(),
                        family: device.family,
                        screen: device.screen,
                    },
                );
            }
            i += 1;
        }
        assert(detected@.take(i as int) =~= detected@);
        candidates
    }

    /// Begins to match the settings with the devices that were found.
    pub fn begin_refresh(&self, detected: &Vec<DetectedLcd>) -> (refresh: Refresh)
        ensures
            refresh.wf(),
            refresh@ == (RefreshView {
                lcds: self.lcds(),
                candidates: self.found(detected@),
                claims: Seq::empty(),
                targets: Map::empty(),
                media_targets: Map::empty(),
                canonicalize: Seq::empty(),
            }),
    {
        let lcds: Vec<LcdConfig> = match &self.config {
            Some(config) => config.copy().lcds,
            None => Vec::new(),
        };
        assert(lcds@ =~= self.lcds());
        Refresh::new(lcds, self.lcd_candidates(detected))
    }

    /// The prepared media for the setting, if it was prepared for this panel.
    pub open spec fn asset_for(self, index: usize, target: MediaTarget) -> Option<MediaAsset> {
        if self.media_assets@.contains_key(index) && self.media_asset_targets@.contains_key(index)
            && self.media_asset_targets@[index]@ == target@ {
            Some(self.media_assets@[index])
        } else {
            None
        }
    }

    /// Whether the prepared media of the setting is encoded on the fly; `own` is what the setting
    /// itself says.
    pub open spec fn applied_h264(self, index: usize, own: bool) -> bool {
        if self.media_settings@.contains_key(index) {
            self.media_settings@[index].custom_h264
        } else {
            own
        }
    }

    /// The target that is driven for the setting.
    pub open spec fn target_at(self, index: usize) -> Option<ActiveTarget> {
        if self.targets@.contains_key(index) {
            Some(self.targets@[index])
        } else {
            None
        }
    }

    /// Decides what to do for the setting whose turn it is. A setting without a panel, or without
    /// prepared media for it, loses its target; a target on another device is replaced; one on
    /// the same device goes on.
    pub fn refresh_step(&mut self, refresh: &mut Refresh) -> (action: RefreshAction)
        requires
            old(refresh).wf(),
            old(refresh)@.claims.len() > 0,
        ensures
            final(refresh).wf(),
            *final(self) == (ServiceManager { targets: final(self).targets, ..*old(self) }),
            final(self).targets@ == if action is Unknown {
                old(self).targets@
            } else {
                old(self).targets@.remove(old(refresh)@.index())
            },
            final(refresh)@ == (RefreshView {
                targets: final(refresh)@.targets,
                media_targets: final(refresh)@.media_targets,
                canonicalize: final(refresh)@.canonicalize,
                ..old(refresh)@
            }),
            action matches RefreshAction::Detached(existing) ==> existing == old(self).target_at(
                old(refresh)@.index(),
            ),
            action is Detached <==> old(refresh)@.claims.last() is None,
            action is Unknown <==> old(refresh)@.claims.last() is Some && old(refresh)@.candidates[old(refresh)@.claims.last()->0].screen is None,
            action is Detached || action is Unknown ==> final(refresh)@ == old(refresh)@,
            !(action is Detached || action is Unknown) ==> {
                let index = old(refresh)@.index();
                let config = old(refresh)@.setting();
                let candidate = old(refresh)@.candidates[old(refresh)@.claims.last()->0];
                let target = final(refresh)@.media_targets[index];
                &&& final(refresh)@.media_targets == old(refresh)@.media_targets.insert(
                    index,
                    target,
                )
                &&& target_for(config, candidate, target)
                &&& action is AwaitMedia <==> old(self).asset_for(index, target) is None
                &&& action matches RefreshAction::AwaitMedia(existing) ==> {
                    &&& existing == old(self).target_at(index)
                    &&& final(refresh)@.targets == old(refresh)@.targets
                    &&& final(refresh)@.canonicalize == old(refresh)@.canonicalize
                }
                &&& old(self).asset_for(index, target) matches Some(asset) ==> {
                    let existing = old(self).target_at(index);
                    let h264 = old(self).applied_h264(index, config.custom_h264);
                    &&& final(refresh)@.canonicalize == if needs_rewrite(
                        config.serial,
                        candidate.device_id@,
                    ) {
                        old(refresh)@.canonicalize.push((config.serial->0, candidate.device_id))
                    } else {
                        old(refresh)@.canonicalize
                    }
                    &&& if existing is Some && existing->0.shows(
                        candidate.device_id@,
                        asset.config_key@,
                    ) {
                        &&& action == (RefreshAction::Keep {
                            handle: existing->0.handle,
                            custom_h264: h264,
                        })
                        &&& final(refresh)@.targets == old(refresh)@.targets.insert(
                            index,
                            existing->0,
                        )
                    } else if existing is Some && existing->0.device_identity@
                        == candidate.device_id@ {
                        &&& action == (RefreshAction::Swap {
                            handle: existing->0.handle,
                            asset,
                            custom_h264: h264,
                        })
                        &&& final(refresh)@.targets == old(refresh)@.targets.insert(
                            index,
                            ActiveTarget { key: asset.config_key, ..existing->0 },
                        )
                    } else {
                        &&& action == (RefreshAction::Open {
                            replaced: existing,
                            asset,
                            custom_h264: h264,
                        })
                        &&& final(refresh)@.targets == old(refresh)@.targets
                    }
                }
            },
    {
        let index: usize = refresh.claims.len() - 1;
        let ghost before = refresh@;
        assert(before.claims[index as int] == claim_view(refresh.claims@[index as int]));
        let at: usize = match refresh.claims[index] {
            Some(at) => at,
            None => {
                return RefreshAction::Detached(self.take_target(index));
            },
        };
        assert(before.has_claimed(index, at as int));
        let screen = match refresh.candidates[at].screen {
            Some(screen) => screen,
            None => {
                return RefreshAction::Unknown;
            },
        };
        let device_id = refresh.candidates[at].device_id.clone();
        let lcd = &refresh.lcds[index];
        let selection = selection_key(lcd);
        let serial = crate::service::copy_text(&lcd.serial);
        let own_h264 = lcd.custom_h264;
        let target = MediaTarget { selection, device_id: device_id.clone(), screen };
        refresh.media_targets.insert(index, target.copy());
        proof {
            assert(refresh@.has_claimed(index, at as int));
            lemma_stays_sound(before, refresh@, index, at as int);
        }
        let prepared = match self.media_asset_targets.get(&index) {
            Some(other) => other.same(&target),
            None => false,
        };
        let found = match self.media_assets.get(&index) {
            Some(asset) => Some(asset.copy()),
            None => None,
        };
        if !prepared {
            return RefreshAction::AwaitMedia(self.take_target(index));
        }
        let asset = match found {
            Some(asset) => asset,
            None => {
                return RefreshAction::AwaitMedia(self.take_target(index));
            },
        };
        let custom_h264 = match self.media_settings.get(&index) {
            Some(config) => config.custom_h264,
            None => own_h264,
        };
        if let Some(serial) = serial {
            if !(serial == device_id) && same_text(hid_id_norm(&serial), hid_id_norm(&device_id)) {
                refresh.canonicalize.push((serial, device_id.clone()));
            }
        }
        let action = match self.take_target(index) {
            Some(existing) => {
                if existing.matches(&device_id, &asset.config_key) {
                    let handle: u64 = existing.handle;
                    refresh.targets.insert(index, existing);
                    RefreshAction::Keep { handle, custom_h264 }
                } else if existing.device_identity == device_id {
                    let handle: u64 = existing.handle;
                    let swapped = ActiveTarget { key: asset.config_key.clone(), ..existing };
                    refresh.targets.insert(index, swapped);
                    RefreshAction::Swap { handle, asset, custom_h264 }
                } else {
                    RefreshAction::Open { replaced: Some(existing), asset, custom_h264 }
                }
            },
            None => RefreshAction::Open { replaced: None, asset, custom_h264 },
        };
        proof {
            assert(refresh@.has_claimed(index, at as int));
            lemma_stays_sound(before, refresh@, index, at as int);
        }
        action
    }
}

/// No two of the found devices have one identity.
pub open spec fn distinct_devices(detected: Seq<DetectedLcd>) -> bool {
    forall|i: int, j: int|
        0 <= i < j < detected.len() ==> (#[trigger] detected[i]).device_id@ != (
        #[trigger] detected[j]).device_id@
}

/// The found device is a panel that can be driven, of this identity.
pub open spec fn drivable(
    device: DetectedLcd,
    quarantine: Set<Seq<char>>,
    identity: Seq<char>,
) -> bool {
    &&& device.device_id@ == identity
    &&& device.has_lcd && !device.desktop_mode && !device.suppressed
    &&& !quarantine.contains(identity)
}

proof fn lemma_candidates_are_distinct(detected: Seq<DetectedLcd>, quarantine: Set<Seq<char>>)
    requires
        distinct_devices(detected),
    ensures
        forall|c: int, d: int|
            0 <= c < d < picked(detected, as_candidate(quarantine)).len() ==> (
            #[trigger] picked(detected, as_candidate(quarantine))[c]).device_id@ != (
            #[trigger] picked(detected, as_candidate(quarantine))[d]).device_id@,
    decreases detected.len(),
{
    if detected.len() > 0 {
        let pick = as_candidate(quarantine);
        let rest = detected.drop_last();
        let before = picked(rest, pick);
        let all = picked(detected, pick);
        lemma_candidates_are_distinct(rest, quarantine);
        assert forall|c: int, d: int| 0 <= c < d < all.len() implies (
        #[trigger] all[c]).device_id@ != (#[trigger] all[d]).device_id@ by {
            assert(all[c] == before[c]);
            if d < before.len() {
                assert(all[d] == before[d]);
            } else {
                let i = lemma_picked_from(rest, pick, c);
                assert(rest[i] == detected[i]);
                assert(detected[i].device_id@ != detected[detected.len() - 1].device_id@);
            }
        }
    }
}

/// A refresh drives the right panels: every driven panel is the one that its setting names, is
/// among the found devices and not blocked; no two settings drive one panel; and a setting that
/// names none of the panels that were found and can be driven drives none.
pub proof fn lemma_refresh_drives_the_right_panels(
    service: ServiceManager,
    detected: Seq<DetectedLcd>,
    refresh: RefreshView,
)
    requires
        refresh.sound(),
        refresh.lcds == service.lcds(),
        refresh.candidates == service.found(detected),
        distinct_devices(detected),
    ensures
        forall|index: usize| #[trigger]
            refresh.targets.contains_key(index) ==> {
                let identity = refresh.targets[index].device_identity@;
                &&& index < service.lcds().len()
                &&& service.lcds()[index as int].serial matches Some(serial) ==> ids_match(
                    serial@,
                    identity,
                )
                &&& exists|k: int|
                    0 <= k < detected.len() && drivable(
                        #[trigger] detected[k],
                        service.startup_image_quarantine@,
                        identity,
                    )
            },
        forall|i: usize, j: usize|
            i != j && #[trigger] refresh.targets.contains_key(i)
                && #[trigger] refresh.targets.contains_key(j)
                ==> refresh.targets[i].device_identity@ != refresh.targets[j].device_identity@,
        forall|index: usize|
            index < service.lcds().len() && (service.lcds()[index as int].serial matches Some(serial)
                && forall|k: int|
                    0 <= k < detected.len() && drivable(
                        #[trigger] detected[k],
                        service.startup_image_quarantine@,
                        detected[k].device_id@,
                    ) ==> !ids_match(serial@, detected[k].device_id@)) ==> !#[trigger] refresh.targets.contains_key(index),
{
    let quarantine = service.startup_image_quarantine@;
    let pick = as_candidate(quarantine);
    let turns = refresh.lcds.take(refresh.claims.len() as int);
    lemma_claims_are_distinct(turns, refresh.candidates);
    lemma_candidates_are_distinct(detected, quarantine);
    assert forall|index: usize| #[trigger] refresh.targets.contains_key(index) implies {
        let identity = refresh.targets[index].device_identity@;
        &&& index < service.lcds().len()
        &&& service.lcds()[index as int].serial matches Some(serial) ==> ids_match(serial@, identity)
        &&& exists|k: int|
            0 <= k < detected.len() && drivable(#[trigger] detected[k], quarantine, identity)
    } by {
        let identity = refresh.targets[index].device_identity@;
        assert(refresh.holds(index, identity));
        let c = choose|c: int| #[trigger]
            refresh.has_claimed(index, c) && refresh.candidates[c].device_id@ == identity;
        assert(claims(turns, refresh.candidates)[index as int] == Some(c));
        assert(means(turns[index as int], refresh.candidates, c));
        let k = lemma_picked_from(detected, pick, c);
        assert(drivable(detected[k], quarantine, identity));
    }
    assert forall|i: usize, j: usize|
        i != j && #[trigger] refresh.targets.contains_key(i)
            && #[trigger] refresh.targets.contains_key(j) implies refresh.targets[i].device_identity@
        != refresh.targets[j].device_identity@ by {
        let first = refresh.targets[i].device_identity@;
        let second = refresh.targets[j].device_identity@;
        assert(refresh.holds(i, first) && refresh.holds(j, second));
        let c = choose|c: int| #[trigger]
            refresh.has_claimed(i, c) && refresh.candidates[c].device_id@ == first;
        let d = choose|d: int| #[trigger]
            refresh.has_claimed(j, d) && refresh.candidates[d].device_id@ == second;
        let all = claims(turns, refresh.candidates);
        assert(all[i as int] == Some(c) && all[j as int] == Some(d));
        assert(means(turns[i as int], refresh.candidates, c));
        assert(means(turns[j as int], refresh.candidates, d));
        assert(c != d) by {
            if i < j {
                assert(all[i as int] != all[j as int]);
            } else {
                assert(all[j as int] != all[i as int]);
            }
        }
        if c < d {
            assert(refresh.candidates[c].device_id@ != refresh.candidates[d].device_id@);
        } else {
            assert(refresh.candidates[d].device_id@ != refresh.candidates[c].device_id@);
        }
    }
}

/// What became of one serial: the form it has now, and whether it was rewritten.
pub struct Rewritten {
    pub serial: Option<Seq<char>>,
    pub changed: bool,
}

/// The serial after the rewrites in the list, one after the other.
pub open spec fn rewritten(serial: Option<Seq<char>>, rewrites: Seq<(String, String)>) -> Rewritten
    decreases rewrites.len(),
{
    if rewrites.len() == 0 {
        Rewritten { serial, changed: false }
    } else {
        let before = rewritten(serial, rewrites.drop_last());
        let last = rewrites.last();
        if before.serial == Some(last.0@) {
            Rewritten { serial: Some(last.1@), changed: true }
        } else {
            before
        }
    }
}

/// The settings after the rewrites: only serials change, each as the list says.
pub open spec fn serials_rewritten(
    before: Seq<LcdConfig>,
    after: Seq<LcdConfig>,
    rewrites: Seq<(String, String)>,
) -> bool {
    &&& after.len() == before.len()
    &&& forall|i: int|
        #![trigger after[i]]
        0 <= i < before.len() ==> {
            &&& crate::service::text_of(after[i].serial) == rewritten(
                crate::service::text_of(before[i].serial),
                rewrites,
            ).serial
            &&& after[i] == (LcdConfig { serial: after[i].serial, ..before[i] })
        }
}

/// Some serial is rewritten.
pub open spec fn any_rewritten(lcds: Seq<LcdConfig>, rewrites: Seq<(String, String)>) -> bool {
    exists|i: int|
        0 <= i < lcds.len() && rewritten(
            crate::service::text_of((#[trigger] lcds[i]).serial),
            rewrites,
        ).changed
}

/// A serial that no rewrite names keeps its form.
pub proof fn lemma_other_serials_stay(serial: Option<Seq<char>>, rewrites: Seq<(String, String)>)
    requires
        forall|i: int| 0 <= i < rewrites.len() ==> serial != Some((#[trigger] rewrites[i]).0@),
    ensures
        rewritten(serial, rewrites).serial == serial,
        !rewritten(serial, rewrites).changed,
    decreases rewrites.len(),
{
    if rewrites.len() > 0 {
        assert forall|i: int| 0 <= i < rewrites.drop_last().len() implies serial != Some(
            (#[trigger] rewrites.drop_last()[i]).0@,
        ) by {
            assert(rewrites.drop_last()[i] == rewrites[i]);
        }
        lemma_other_serials_stay(serial, rewrites.drop_last());
        assert(serial != Some(rewrites[rewrites.len() - 1].0@));
    }
}

fn rewrite_serial(serial: &Option<String>, rewrites: &Vec<(String, String)>) -> (result: (
    Option<String>,
    bool,
))
    ensures
        crate::service::text_of(result.0) == rewritten(
            crate::service::text_of(*serial),
            rewrites@,
        ).serial,
        result.1 == rewritten(crate::service::text_of(*serial), rewrites@).changed,
{
    let ghost start = crate::service::text_of(*serial);
    let mut current = crate::service::copy_text(serial);
    let mut changed = false;
    let mut i: usize = 0;
    while i < rewrites.len()
        invariant
            i <= rewrites@.len(),
            crate::service::text_of(current) == rewritten(
                start,
                rewrites@.take(i as int),
            ).serial,
            changed == rewritten(start, rewrites@.take(i as int)).changed,
        decreases rewrites@.len() - i,
    {
        assert(rewrites@.take(i + 1).drop_last() =~= rewrites@.take(i as int));
        let hit = match &current {
            Some(text) => *text == rewrites[i].0,
            None => false,
        };
        if hit {
            current = Some(rewrites[i].1.clone());
            changed = true;
        }
        i += 1;
    }
    assert(rewrites@.take(i as int) =~= rewrites@);
    (current, changed)
}

/// How an open panel is come by.
#[derive(Clone, Copy, Debug, PartialEq, Eq, Structural)]
pub enum AttachRoute {
    OpenSlv3,
    /// Over the transport that the cooler has open.
    SharedTransport,
    OpenWinUsb,
    /// The LCD half of the cooler that is open.
    TakeAio,
    /// Over the HID connection that is open.
    HidBackend,
    OpenHid,
    /// The cooler is not open yet.
    Deferred,
    NoBackend,
}

/// How a panel of the family is opened, given what is open already.
pub open spec fn route_to(
    family: DeviceFamily,
    shared_transport: bool,
    aio_open: bool,
    hid_open: bool,
) -> AttachRoute {
    match crate::selection::backend_of(family) {
        Some(LcdBackendKind::Slv3) => AttachRoute::OpenSlv3,
        Some(LcdBackendKind::WinUsbShared) => if shared_transport {
            AttachRoute::SharedTransport
        } else {
            AttachRoute::OpenWinUsb
        },
        Some(LcdBackendKind::WinUsb) => AttachRoute::OpenWinUsb,
        Some(LcdBackendKind::HidAio) => if aio_open {
            AttachRoute::TakeAio
        } else if hid_open {
            AttachRoute::HidBackend
        } else {
            AttachRoute::Deferred
        },
        Some(LcdBackendKind::HidTl) => if hid_open {
            AttachRoute::HidBackend
        } else {
            AttachRoute::OpenHid
        },
        None => AttachRoute::NoBackend,
    }
}

/// How a panel of the family is opened, given what is open already.
pub fn attach_route(
    family: DeviceFamily,
    shared_transport: bool,
    aio_open: bool,
    hid_open: bool,
) -> (route: AttachRoute)
    ensures
        route == route_to(family, shared_transport, aio_open, hid_open),
{
    match crate::selection::lcd_backend_kind(family) {
        Some(LcdBackendKind::Slv3) => AttachRoute::OpenSlv3,
        Some(LcdBackendKind::WinUsbShared) => if shared_transport {
            AttachRoute::SharedTransport
        } else {
            AttachRoute::OpenWinUsb
        },
        Some(LcdBackendKind::WinUsb) => AttachRoute::OpenWinUsb,
        Some(LcdBackendKind::HidAio) => if aio_open {
            AttachRoute::TakeAio
        } else if hid_open {
            AttachRoute::HidBackend
        } else {
            AttachRoute::Deferred
        },
        Some(LcdBackendKind::HidTl) => if hid_open {
            AttachRoute::HidBackend
        } else {
            AttachRoute::OpenHid
        },
        None => AttachRoute::NoBackend,
    }
}

/// When a panel that was just opened is initialised.
#[derive(Clone, Copy, Debug, PartialEq, Eq, Structural)]
pub enum Initialization {
    NotNeeded,
    /// Off the main loop, because it takes long.
    Background,
    Immediate,
}

/// When a panel that was just opened this way is initialised.
pub fn initialization(route: AttachRoute, family: DeviceFamily) -> (moment: Initialization)
    ensures
        moment == if route is TakeAio || route is HidBackend || route is OpenHid {
            if crate::selection::on_wired_aio(family) {
                Initialization::Background
            } else {
                Initialization::Immediate
            }
        } else {
            Initialization::NotNeeded
        },
{
    match route {
        AttachRoute::TakeAio | AttachRoute::HidBackend | AttachRoute::OpenHid =>
            if crate::selection::is_wired_aio_lcd(family) {
                Initialization::Background
            } else {
                Initialization::Immediate
            },
        _ => Initialization::NotNeeded,
    }
}

/// The two tables hold the same panels for the same settings.
pub open spec fn same_media_targets(
    first: Map<usize, MediaTarget>,
    second: Map<usize, MediaTarget>,
) -> bool {
    &&& first.dom() == second.dom()
    &&& forall|index: usize| #[trigger]
        first.contains_key(index) ==> first[index]@ == second[index]@
}

fn included(first: &Table<usize, MediaTarget>, second: &Table<usize, MediaTarget>) -> (all: bool)
    ensures
        all == forall|index: usize| #[trigger]
            first@.contains_key(index) ==> second@.contains_key(index) && first@[index]@
                == second@[index]@,
{
    let n: usize = first.len();
    let mut i: usize = 0;
    while i < n
        invariant
            i <= n,
            n == first.size(),
            forall|j: int|
                0 <= j < i ==> second@.contains_key(#[trigger] first.key(j)) && first@[first.key(
                    j,
                )]@ == second@[first.key(j)]@,
        decreases n - i,
    {
        let (index, target) = first.entry(i);
        match second.get(index) {
            Some(other) => {
                if !target.same(other) {
                    return false;
                }
            },
            None => {
                return false;
            },
        }
        i += 1;
    }
    assert forall|index: usize| #[trigger]
        first@.contains_key(index) implies second@.contains_key(index) && first@[index]@
        == second@[index]@ by {
        let j = first.lemma_entry_of(index);
        assert(second@.contains_key(first.key(j)));
    }
    true
}

/// Every target.
pub open spec fn every_target() -> spec_fn(usize, ActiveTarget) -> bool {
    |index: usize, target: ActiveTarget| true
}

impl ServiceManager {
    /// Enough time has passed since settings could last not be written.
    pub open spec fn may_rewrite(self, now: u64) -> bool {
        self.serial_rewrite_backoff matches Some(failed) ==> time_since(now, failed)
            >= SERIAL_REWRITE_RETRY_INTERVAL
    }

    /// The settings that a rewrite starts from: those that clients see.
    pub open spec fn rewrite_base(self) -> Option<AppConfig> {
        if self.ipc_config is Some {
            self.ipc_config
        } else {
            self.config
        }
    }

    /// The settings with their serials in the form in which the panels report them, if they need
    /// to be written now.
    pub fn rewritten_config(&self, rewrites: &Vec<(String, String)>, now: u64) -> (config: Option<
        AppConfig,
    >)
        ensures
            config is Some <==> self.may_rewrite(now) && self.rewrite_base() is Some
                && any_rewritten(self.rewrite_base()->0.lcds@, rewrites@),
            config matches Some(config) ==> {
                let base = self.rewrite_base()->0;
                &&& serials_rewritten(base.lcds@, config.lcds@, rewrites@)
                &&& config.default_fps == base.default_fps
                &&& config.hardware_video == base.hardware_video
            },
    {
        if let Some(failed) = self.serial_rewrite_backoff {
            if elapsed(now, failed) < SERIAL_REWRITE_RETRY_INTERVAL {
                return None;
            }
        }
        let base = match &self.ipc_config {
            Some(config) => config,
            None => match &self.config {
                Some(config) => config,
                None => {
                    return None;
                },
            },
        };
        let mut lcds: Vec<LcdConfig> = Vec::new();
        let mut changed = false;
        let mut i: usize = 0;
        while i < base.lcds.len()
            invariant
                i <= base.lcds@.len(),
                lcds@.len() == i,
                changed == any_rewritten(base.lcds@.take(i as int), rewrites@),
                serials_rewritten(base.lcds@.take(i as int), lcds@, rewrites@),
            decreases base.lcds@.len() - i,
        {
            let lcd = &base.lcds[i];
            let (serial, hit) = rewrite_serial(&lcd.serial, rewrites);
            let ghost before = base.lcds@.take(i as int);
            let ghost upto = base.lcds@.take(i + 1);
            proof {
                assert(upto =~= before.push(*lcd));
                if changed {
                    let k = choose|k: int|
                        0 <= k < before.len() && rewritten(
                            crate::service::text_of((#[trigger] before[k]).serial),
                            rewrites@,
                        ).changed;
                    assert(upto[k] == before[k]);
                }
                if hit {
                    assert(upto[i as int] == *lcd);
                }
                if any_rewritten(upto, rewrites@) && !hit {
                    let k = choose|k: int|
                        0 <= k < upto.len() && rewritten(
                            crate::service::text_of((#[trigger] upto[k]).serial),
                            rewrites@,
                        ).changed;
                    assert(upto[k] == before[k]);
                }
            }
            changed = changed || hit;
            let copy = lcd.copy();
            let ghost done = lcds@;
            lcds.push(LcdConfig { serial, ..copy });
            assert forall|k: int|
                #![trigger lcds@[k]]
                0 <= k < upto.len() implies crate::service::text_of(lcds@[k].serial) == rewritten(
                crate::service::text_of(upto[k].serial),
                rewrites@,
            ).serial && lcds@[k] == (LcdConfig { serial: lcds@[k].serial, ..upto[k] }) by {
                if k < i {
                    assert(lcds@[k] == done[k]);
                    assert(upto[k] == before[k]);
                }
            }
            i += 1;
        }
        assert(base.lcds@.take(i as int) =~= base.lcds@);
        if changed {
            Some(
                AppConfig {
                    lcds,
                    default_fps: base.default_fps.clone(),
                    hardware_video: base.hardware_video,
                },
            )
        } else {
            None
        }
    }

    /// Notes whether rewritten settings could be written. Only then do they take effect.
    pub fn config_rewritten(&mut self, config: AppConfig, written: bool, now: u64)
        ensures
            !written ==> *final(self) == (ServiceManager {
                serial_rewrite_backoff: Some(now),
                ..*old(self)
            }),
            written ==> {
                &&& final(self).serial_rewrite_backoff is None
                &&& final(self).ipc_config == Some(config)
                &&& final(self).config matches Some(applied) && applied.lcds@ == config.lcds@
                    && applied.default_fps == config.default_fps && applied.hardware_video
                    == config.hardware_video
                &&& *final(self) == (ServiceManager {
                    serial_rewrite_backoff: None,
                    ipc_config: Some(config),
                    config: final(self).config,
                    ..*old(self)
                })
            },
    {
        if written {
            self.serial_rewrite_backoff = None;
            self.config = Some(config.copy());
            self.ipc_config = Some(config);
        } else {
            self.serial_rewrite_backoff = Some(now);
        }
    }

    /// Puts the outcome into effect. The targets that are left over are handed out to be
    /// stopped; the result also says whether other panels are connected now, so that media must
    /// be prepared.
    pub fn finish_refresh(&mut self, refresh: Refresh) -> (result: (Vec<ActiveTarget>, bool))
        requires
            refresh.wf(),
            refresh@.is_done(),
        ensures
            final(self).targets@ == refresh@.targets,
            lists_values(old(self).targets@, every_target(), result.0@),
            result.1 == !same_media_targets(refresh@.media_targets, old(self).media_targets@),
            final(self).media_targets@ == if result.1 {
                refresh@.media_targets
            } else {
                old(self).media_targets@
            },
            *final(self) == (ServiceManager {
                targets: final(self).targets,
                media_targets: final(self).media_targets,
                ..*old(self)
            }),
    {
        let every = |index: &usize, target: &ActiveTarget| -> (leaves: bool)
            ensures
                leaves,
            { true };
        let stopped = self.targets.take_out(every, Ghost(every_target()));
        let forward = included(&refresh.media_targets, &self.media_targets);
        let backward = included(&self.media_targets, &refresh.media_targets);
        proof {
            let new_targets = refresh.media_targets@;
            let old_targets = self.media_targets@;
            if forward && backward {
                assert(new_targets.dom() =~= old_targets.dom());
            }
            if same_media_targets(new_targets, old_targets) {
                assert forall|index: usize| #[trigger]
                    new_targets.contains_key(index) implies old_targets.contains_key(index) by {
                    assert(old_targets.dom().contains(index));
                }
                assert forall|index: usize| #[trigger]
                    old_targets.contains_key(index) implies new_targets.contains_key(index) by {
                    assert(new_targets.dom().contains(index));
                }
            }
        }
        self.targets = refresh.targets;
        let changed = !(forward && backward);
        if changed {
            self.media_targets = refresh.media_targets;
        }
        (stopped, changed)
    }
}

/// Panels are looked for unless a startup image is being stored, a group is being rebooted or
/// settles, or there is nothing to drive and nothing driven.
pub proof fn lemma_panels_are_looked_for(service: ServiceManager, gate: RefreshGate)
    requires
        call_ensures(ServiceManager::refresh_gate, (&service,), gate),
    ensures
        gate is Blocked <==> service.startup_image_job is Some
            || service.lcd_group_recovery.job is Some
            || service.lcd_group_recovery.settle_until is Some,
        gate is Idle <==> !(gate is Blocked) && (service.config is None
            || service.config->0.lcds@.len() == 0) && service.targets@ == Map::<
            usize,
            ActiveTarget,
        >::empty(),
{
}

/// A mode switch is remembered until its time has come, and no longer.
pub proof fn lemma_mode_switches_run_out(now: u64, id: Seq<char>)
    ensures
        forall|service: &mut ServiceManager| #[trigger]
            call_ensures(ServiceManager::expire_mode_switches, (service, now), ()) ==> {
                let before = service.mode_switch_suppression@;
                let after = final(service).mode_switch_suppression@;
                &&& after.contains_key(id) <==> before.contains_key(id) && before[id] > now
                &&& after.contains_key(id) ==> after[id] == before[id]
                &&& final(service).targets == service.targets
            },
{
}

/// A device that was found can be driven exactly when it has a panel, shows no desktop, is not
/// blocked and was not just switched. It is then listed with its identity, family and screen, and
/// nothing else is.
pub proof fn lemma_candidates_are_what_can_be_driven(
    service: ServiceManager,
    detected: &Vec<DetectedLcd>,
    candidates: Vec<LcdCandidate>,
    c: int,
    d: int,
)
    requires
        call_ensures(ServiceManager::lcd_candidates, (&service, detected), candidates),
    ensures
        0 <= c < candidates@.len() ==> exists|i: int|
            0 <= i < detected@.len() && (#[trigger] detected@[i]).device_id
                == candidates@[c].device_id && detected@[i].family == candidates@[c].family
                && detected@[i].screen == candidates@[c].screen && detected@[i].has_lcd
                && !detected@[i].desktop_mode && !detected@[i].suppressed
                && !service.startup_image_quarantine@.contains(detected@[i].device_id@),
        0 <= d < detected@.len() && detected@[d].has_lcd && !detected@[d].desktop_mode
            && !detected@[d].suppressed && !service.startup_image_quarantine@.contains(
            detected@[d].device_id@,
        ) ==> exists|k: int|
            0 <= k < candidates@.len() && (#[trigger] candidates@[k]).device_id
                == detected@[d].device_id && candidates@[k].family == detected@[d].family
                && candidates@[k].screen == detected@[d].screen,
{
    let pick = as_candidate(service.startup_image_quarantine@);
    if 0 <= c < candidates@.len() {
        let i = lemma_picked_from(detected@, pick, c);
        assert(detected@[i].device_id == candidates@[c].device_id);
    }
    if 0 <= d < detected@.len() && pick(detected@[d]) is Some {
        crate::registry::lemma_picked_has(detected@, pick, d);
        let k = choose|k: int|
            0 <= k < candidates@.len() && candidates@[k] == pick(detected@[d])->0;
        assert(candidates@[k].device_id == detected@[d].device_id);
    }
}

proof fn lemma_first_claim_is_first(
    config: LcdConfig,
    candidates: Seq<LcdCandidate>,
    claimed: Seq<bool>,
    from: int,
    c: int,
)
    requires
        0 <= from <= candidates.len(),
    ensures
        first_claim(config, candidates, claimed, from) == Some(c) <==> {
            &&& from <= c < candidates.len()
            &&& claimable(config, candidates, claimed, c)
            &&& forall|e: int| from <= e < c ==> !claimable(config, candidates, claimed, e)
        },
    decreases candidates.len() - from,
{
    if from < candidates.len() {
        if claimable(config, candidates, claimed, from) {
            if from < c && forall|e: int|
                from <= e < c ==> !claimable(config, candidates, claimed, e) {
                assert(!claimable(config, candidates, claimed, from));
            }
        } else {
            lemma_first_claim_is_first(config, candidates, claimed, from + 1, c);
            if forall|e: int| from + 1 <= e < c ==> !claimable(config, candidates, claimed, e) {
                assert forall|e: int| from <= e < c implies !claimable(
                    config,
                    candidates,
                    claimed,
                    e,
                ) by {}
            }
        }
    }
}

/// A setting claims the first panel that it means, by serial, or else by position, and that no
/// setting before it has claimed.
pub proof fn lemma_settings_claim_the_first_free_panel(c: usize)
    ensures
        forall|refresh: &mut Refresh, claim: Option<usize>| #[trigger]
            call_ensures(Refresh::claim, (refresh,), claim) && refresh.wf()
                && refresh@.claims.len() < refresh@.lcds.len() ==> {
                let turn = refresh@.claims.len() as int;
                let config = refresh@.lcds[turn];
                let panels = refresh@.candidates;
                let used = refresh@.claims;
                &&& claim == Some(c) <==> {
                    &&& c < panels.len()
                    &&& config.serial is Some ==> ids_match(
                        config.serial->0@,
                        panels[c as int].device_id@,
                    )
                    &&& config.serial is None ==> config.index == Some(c)
                    &&& !used.contains(Some(c as int))
                    &&& forall|e: int|
                        0 <= e < c && config.serial is Some && ids_match(
                            config.serial->0@,
                            (#[trigger] panels[e]).device_id@,
                        ) ==> used.contains(Some(e))
                }
                &&& final(refresh)@.claims.len() == turn + 1
                &&& final(refresh)@.claims[turn] == claim_view(claim)
                &&& final(refresh)@.claims.take(turn) == used
                &&& final(refresh)@.lcds == refresh@.lcds
                &&& final(refresh)@.candidates == panels
                &&& final(refresh)@.targets == refresh@.targets
                &&& final(refresh)@.media_targets == refresh@.media_targets
            },
{
    assert forall|refresh: &mut Refresh, claim: Option<usize>| #[trigger]
        call_ensures(Refresh::claim, (refresh,), claim) && refresh.wf() && refresh@.claims.len()
            < refresh@.lcds.len() implies {
        let turn = refresh@.claims.len() as int;
        let config = refresh@.lcds[turn];
        let panels = refresh@.candidates;
        let used = refresh@.claims;
        &&& claim == Some(c) <==> {
            &&& c < panels.len()
            &&& config.serial is Some ==> ids_match(
                config.serial->0@,
                panels[c as int].device_id@,
            )
            &&& config.serial is None ==> config.index == Some(c)
            &&& !used.contains(Some(c as int))
            &&& forall|e: int|
                0 <= e < c && config.serial is Some && ids_match(
                    config.serial->0@,
                    (#[trigger] panels[e]).device_id@,
                ) ==> used.contains(Some(e))
        }
        &&& final(refresh)@.claims.take(turn) == used
    } by {
        let turn = refresh@.claims.len() as int;
        let config = refresh@.lcds[turn];
        let panels = refresh@.candidates;
        let used = refresh@.claims;
        let earlier = refresh@.lcds.take(turn);
        let upto = refresh@.lcds.take(turn + 1);
        assert(upto.drop_last() =~= earlier);
        assert(upto.last() == config);
        let claimed = taken(earlier, panels);
        lemma_claims_are_distinct(earlier, panels);
        assert(used == claims(earlier, panels));
        assert forall|e: int| 0 <= e < panels.len() implies (#[trigger] claimed[e]
            <==> used.contains(Some(e))) by {
            if used.contains(Some(e)) {
                let k = choose|k: int| 0 <= k < used.len() && used[k] == Some(e);
                assert(claims(earlier, panels)[k] == Some(e));
            }
        }
        lemma_first_claim_is_first(config, panels, claimed, 0, c as int);
        assert(claim_view(claim) == first_claim(config, panels, claimed, 0));
        assert(final(refresh)@.claims == used.push(claim_view(claim)));
        assert(final(refresh)@.claims.take(turn) =~= used);
        if config.serial is Some {
            if forall|e: int|
                0 <= e < c && config.serial is Some && ids_match(
                    config.serial->0@,
                    (#[trigger] panels[e]).device_id@,
                ) ==> used.contains(Some(e)) {
                if c < panels.len() {
                    assert forall|e: int| 0 <= e < c implies !claimable(
                        config,
                        panels,
                        claimed,
                        e,
                    ) by {
                        assert(claimed[e] <==> used.contains(Some(e)));
                    }
                }
            }
            if claim == Some(c) {
                assert forall|e: int|
                    0 <= e < c && config.serial is Some && ids_match(
                        config.serial->0@,
                        (#[trigger] panels[e]).device_id@,
                    ) implies used.contains(Some(e)) by {
                    assert(!claimable(config, panels, claimed, e));
                    assert(claimed[e] <==> used.contains(Some(e)));
                }
                assert(claimed[c as int] <==> used.contains(Some(c as int)));
            }
        } else if c < panels.len() {
            assert(claimed[c as int] <==> used.contains(Some(c as int)));
        }
    }
}

/// A panel that was opened is driven for its setting, with its identity and screen, under the
/// handle, and shows the media; no other target changes.
pub proof fn lemma_opened_panels_are_driven(asset: &MediaAsset, handle: u64, other: usize)
    ensures
        forall|refresh: &mut Refresh| #[trigger]
            call_ensures(Refresh::opened, (refresh, asset, handle), ())
                && refresh@.claims.len() > 0 && refresh@.claims.len() <= usize::MAX
                && refresh@.claims.last() is Some ==> {
                let index = (refresh@.claims.len() - 1) as usize;
                let panel = refresh@.candidates[refresh@.claims.last()->0];
                let target = final(refresh)@.targets[index];
                &&& final(refresh)@.targets.contains_key(index)
                &&& target.index == refresh@.claims.len() - 1
                &&& target.device_identity@ == panel.device_id@
                &&& panel.screen == Some(target.screen)
                &&& target.key@ == asset.config_key@
                &&& target.handle == handle
                &&& other != index ==> {
                    &&& final(refresh)@.targets.contains_key(other)
                        <==> refresh@.targets.contains_key(other)
                    &&& final(refresh)@.targets[other] == refresh@.targets[other]
                }
                &&& final(refresh)@.claims == refresh@.claims
                &&& final(refresh)@.media_targets == refresh@.media_targets
            },
{
}

/// A setting without a panel loses its target. One whose panel has no known screen is passed over.
/// One without media that was prepared for this very panel loses its target too. With such media,
/// a target that shows it on the panel goes on, one on the panel gets the media, and any other is
/// replaced.
pub proof fn lemma_targets_follow_panel_and_media()
    ensures
        forall|service: &mut ServiceManager, refresh: &mut Refresh, action: RefreshAction|
            #[trigger]
            call_ensures(ServiceManager::refresh_step, (service, refresh), action)
                && refresh@.claims.len() > 0 && refresh@.claims.len() <= usize::MAX ==> {
                let index = (refresh@.claims.len() - 1) as usize;
                let config = refresh@.lcds[refresh@.claims.len() - 1];
                let claim = refresh@.claims.last();
                let panel = refresh@.candidates[claim->0];
                let driven = service.targets@.contains_key(index);
                let target = service.targets@[index];
                let prepared = service.media_asset_targets@[index];
                let asset = service.media_assets@[index];
                let known = claim is Some && panel.screen is Some;
                let ready = known && service.media_assets@.contains_key(index)
                    && service.media_asset_targets@.contains_key(index) && prepared.selection@
                    == selection_of(config) && prepared.device_id@ == panel.device_id@
                    && panel.screen == Some(prepared.screen);
                let here = driven && target.device_identity@ == panel.device_id@;
                &&& action is Detached <==> claim is None
                &&& action is Unknown <==> claim is Some && panel.screen is None
                &&& action is AwaitMedia <==> known && !ready
                &&& action is Keep <==> ready && here && target.key@ == asset.config_key@
                &&& action is Swap <==> ready && here && target.key@ != asset.config_key@
                &&& action is Open <==> ready && !here
            },
{
}

/// What is decided for a setting carries the target, the media and whether it is encoded on the
/// fly. A target that is handed out, goes on or is swapped is the setting's own; nothing happens
/// to those of other settings.
pub proof fn lemma_targets_are_handed_over(other: usize)
    ensures
        forall|service: &mut ServiceManager, refresh: &mut Refresh, action: RefreshAction|
            #[trigger]
            call_ensures(ServiceManager::refresh_step, (service, refresh), action)
                && refresh@.claims.len() > 0 && refresh@.claims.len() <= usize::MAX ==> {
                let index = (refresh@.claims.len() - 1) as usize;
                let config = refresh@.lcds[refresh@.claims.len() - 1];
                let panel = refresh@.candidates[refresh@.claims.last()->0];
                let own = if service.targets@.contains_key(index) {
                    Some(service.targets@[index])
                } else {
                    None
                };
                let asset = service.media_assets@[index];
                let settings = service.media_settings@;
                let h264 = if settings.contains_key(index) {
                    settings[index].custom_h264
                } else {
                    config.custom_h264
                };
                let kept = final(refresh)@.targets;
                &&& action is Unknown ==> final(service).targets@ == service.targets@
                &&& !(action is Unknown) ==> !final(service).targets@.contains_key(index)
                &&& other != index ==> {
                    &&& final(service).targets@.contains_key(other)
                        <==> service.targets@.contains_key(other)
                    &&& final(service).targets@[other] == service.targets@[other]
                    &&& kept.contains_key(other) <==> refresh@.targets.contains_key(other)
                    &&& kept[other] == refresh@.targets[other]
                }
                &&& match action {
                    RefreshAction::Detached(gone) => gone == own && kept == refresh@.targets,
                    RefreshAction::Unknown => kept == refresh@.targets,
                    RefreshAction::AwaitMedia(gone) => gone == own && kept == refresh@.targets,
                    RefreshAction::Keep { handle, custom_h264 } => {
                        &&& handle == own->0.handle
                        &&& custom_h264 == h264
                        &&& kept.contains_key(index) && kept[index] == own->0
                    },
                    RefreshAction::Swap { handle, asset: media, custom_h264 } => {
                        &&& handle == own->0.handle
                        &&& media == asset
                        &&& custom_h264 == h264
                        &&& kept.contains_key(index)
                        &&& kept[index].key == asset.config_key
                        &&& kept[index].handle == own->0.handle
                        &&& kept[index].device_identity == own->0.device_identity
                        &&& kept[index].index == own->0.index
                        &&& kept[index].screen == own->0.screen
                    },
                    RefreshAction::Open { replaced, asset: media, custom_h264 } => {
                        &&& replaced == own
                        &&& media == asset
                        &&& custom_h264 == h264
                        &&& kept == refresh@.targets
                    },
                }
                &&& action is AwaitMedia || action is Keep || action is Swap || action is Open
                    ==> {
                    let connected = final(refresh)@.media_targets[index];
                    &&& final(refresh)@.media_targets.contains_key(index)
                    &&& connected.selection@ == selection_of(config)
                    &&& connected.device_id@ == panel.device_id@
                    &&& panel.screen == Some(connected.screen)
                }
                &&& final(service).media_assets == service.media_assets
                &&& final(refresh)@.claims == refresh@.claims
            },
{
}

/// A serial is to be rewritten when its panel has media and reports the same identity in another
/// form. It is then put last on the list, with the form that the panel reports.
pub proof fn lemma_serials_are_listed_for_rewriting()
    ensures
        forall|service: &mut ServiceManager, refresh: &mut Refresh, action: RefreshAction|
            #[trigger]
            call_ensures(ServiceManager::refresh_step, (service, refresh), action)
                && refresh@.claims.len() > 0 ==> {
                let config = refresh@.lcds[refresh@.claims.len() - 1];
                let panel = refresh@.candidates[refresh@.claims.last()->0];
                let before = refresh@.canonicalize;
                let after = final(refresh)@.canonicalize;
                let listed = (action is Keep || action is Swap || action is Open)
                    && config.serial is Some && config.serial->0@ != panel.device_id@ && ids_match(
                    config.serial->0@,
                    panel.device_id@,
                );
                &&& listed ==> {
                    &&& after.len() == before.len() + 1
                    &&& after.take(before.len() as int) == before
                    &&& after.last().0 == config.serial->0
                    &&& after.last().1 == panel.device_id
                }
                &&& !listed ==> after == before
            },
{
    assert forall|service: &mut ServiceManager, refresh: &mut Refresh, action: RefreshAction|
        #[trigger]
        call_ensures(ServiceManager::refresh_step, (service, refresh), action)
            && refresh@.claims.len() > 0 && final(refresh)@.canonicalize
            != refresh@.canonicalize implies final(refresh)@.canonicalize.take(
        refresh@.canonicalize.len() as int,
    ) == refresh@.canonicalize by {
        assert(final(refresh)@.canonicalize.take(refresh@.canonicalize.len() as int)
            =~= refresh@.canonicalize);
    }
}

proof fn lemma_rewritten_or_same(serial: Seq<char>, rewrites: Seq<(String, String)>)
    ensures
        rewritten(Some(serial), rewrites).changed || rewritten(Some(serial), rewrites).serial
            == Some(serial),
        rewritten(Some(serial), rewrites).serial is Some,
    decreases rewrites.len(),
{
    if rewrites.len() > 0 {
        lemma_rewritten_or_same(serial, rewrites.drop_last());
    }
}

proof fn lemma_named_serials_change(serial: Seq<char>, rewrites: Seq<(String, String)>, k: int)
    requires
        0 <= k < rewrites.len(),
        rewrites[k].0@ == serial,
    ensures
        rewritten(Some(serial), rewrites).changed,
    decreases rewrites.len(),
{
    let before = rewrites.drop_last();
    lemma_rewritten_or_same(serial, before);
    if k < before.len() {
        assert(before[k] == rewrites[k]);
        lemma_named_serials_change(serial, before, k);
    }
}

proof fn lemma_rewritten_by(serial: Seq<char>, rewrites: Seq<(String, String)>, k: int)
    requires
        0 <= k < rewrites.len(),
        rewrites[k].0@ == serial,
        forall|j: int| 0 <= j < k ==> (#[trigger] rewrites[j]).0@ != serial,
        forall|j: int| k < j < rewrites.len() ==> (#[trigger] rewrites[j]).0@ != rewrites[k].1@,
    ensures
        rewritten(Some(serial), rewrites).serial == Some(rewrites[k].1@),
    decreases rewrites.len(),
{
    let before = rewrites.drop_last();
    let last = rewrites.len() - 1;
    if k < last {
        assert(before[k] == rewrites[k]);
        assert forall|j: int| k < j < before.len() implies (#[trigger] before[j]).0@
            != before[k].1@ by {
            assert(before[j] == rewrites[j]);
        }
        assert forall|j: int| 0 <= j < k implies (#[trigger] before[j]).0@ != serial by {
            assert(before[j] == rewrites[j]);
        }
        lemma_rewritten_by(serial, before, k);
        assert(rewrites[last].0@ != rewrites[k].1@);
    } else {
        assert forall|j: int| 0 <= j < before.len() implies Some(serial) != Some(
            (#[trigger] before[j]).0@,
        ) by {
            assert(before[j] == rewrites[j]);
        }
        lemma_other_serials_stay(Some(serial), before);
    }
}

/// Serials are rewritten in the settings that clients see, or else in those in use, and at the
/// earliest a minute after that failed. A serial that the list names is rewritten as its first
/// entry for it says, when no later entry names the new form; one that the list does not name
/// stays, and so does everything else. Without a named serial there is nothing to write.
pub proof fn lemma_serials_are_rewritten_as_listed(
    service: ServiceManager,
    rewrites: &Vec<(String, String)>,
    now: u64,
    config: Option<AppConfig>,
    i: int,
    k: int,
)
    requires
        call_ensures(ServiceManager::rewritten_config, (&service, rewrites, now), config),
    ensures
        ({
            let configured = service.ipc_config is Some || service.config is Some;
            let base = if service.ipc_config is Some {
                service.ipc_config->0
            } else {
                service.config->0
            };
            let early = service.serial_rewrite_backoff is Some && now
                - service.serial_rewrite_backoff->0 < 60_000_000_000;
            let serial = base.lcds@[i].serial;
            let named = 0 <= i < base.lcds@.len() && serial is Some && 0 <= k < rewrites@.len()
                && rewrites@[k].0@ == serial->0@;
            &&& early || !configured ==> config is None
            &&& !early && configured && named ==> config is Some
            &&& config matches Some(after) ==> {
                &&& after.lcds@.len() == base.lcds@.len()
                &&& after.default_fps == base.default_fps
                &&& after.hardware_video == base.hardware_video
                &&& 0 <= i < base.lcds@.len() ==> {
                    let setting = after.lcds@[i];
                    &&& setting.index == base.lcds@[i].index
                    &&& setting.device_id == base.lcds@[i].device_id
                    &&& setting.identity == base.lcds@[i].identity
                    &&& setting.media_type == base.lcds@[i].media_type
                    &&& setting.serial is Some <==> serial is Some
                    &&& serial is Some && (forall|j: int|
                        0 <= j < rewrites@.len() ==> (#[trigger] rewrites@[j]).0@ != serial->0@)
                        ==> setting.serial->0@ == serial->0@
                    &&& named && (forall|j: int|
                        0 <= j < k ==> (#[trigger] rewrites@[j]).0@ != serial->0@) && (forall|j:
                        int|
                        k < j < rewrites@.len() ==> (#[trigger] rewrites@[j]).0@
                            != rewrites@[k].1@) ==> setting.serial->0@ == rewrites@[k].1@
                }
            }
        }),
{
    let base = if service.ipc_config is Some {
        service.ipc_config->0
    } else {
        service.config->0
    };
    if 0 <= i < base.lcds@.len() {
        if let Some(serial) = base.lcds@[i].serial {
            lemma_rewritten_or_same(serial@, rewrites@);
            if 0 <= k < rewrites@.len() && rewrites@[k].0@ == serial@ {
                lemma_named_serials_change(serial@, rewrites@, k);
                assert(rewritten(
                    crate::service::text_of(base.lcds@[i].serial),
                    rewrites@,
                ).changed);
                assert(any_rewritten(base.lcds@, rewrites@));
                if (forall|j: int| 0 <= j < k ==> (#[trigger] rewrites@[j]).0@ != serial@) && (
                forall|j: int|
                    k < j < rewrites@.len() ==> (#[trigger] rewrites@[j]).0@ != rewrites@[k].1@) {
                    lemma_rewritten_by(serial@, rewrites@, k);
                }
            }
            if forall|j: int| 0 <= j < rewrites@.len() ==> (#[trigger] rewrites@[j]).0@ != serial@ {
                lemma_other_serials_stay(Some(serial@), rewrites@);
            }
        } else {
            lemma_other_serials_stay(None, rewrites@);
        }
        if let Some(after) = config {
            assert(serials_rewritten(base.lcds@, after.lcds@, rewrites@));
            assert(after.lcds@[i] == after.lcds@[i]);
        }
    }
}

/// Settings that were rewritten take effect, for clients and for the service, once they were
/// written; otherwise it is noted when that failed.
pub proof fn lemma_rewrites_take_effect_when_written(config: AppConfig, written: bool, now: u64)
    ensures
        forall|service: &mut ServiceManager| #[trigger]
            call_ensures(ServiceManager::config_rewritten, (service, config, written, now), ())
                ==> {
                &&& !written ==> {
                    &&& final(service).serial_rewrite_backoff == Some(now)
                    &&& final(service).config == service.config
                    &&& final(service).ipc_config == service.ipc_config
                }
                &&& written ==> {
                    &&& final(service).serial_rewrite_backoff is None
                    &&& final(service).ipc_config == Some(config)
                    &&& final(service).config is Some
                    &&& final(service).config->0.lcds@ == config.lcds@
                    &&& final(service).config->0.default_fps == config.default_fps
                    &&& final(service).config->0.hardware_video == config.hardware_video
                }
                &&& final(service).targets == service.targets
            },
{
}

/// After a refresh its targets are the driven ones and its panels the connected ones. Media must
/// be prepared again exactly when some setting has gained, lost or changed its panel.
pub proof fn lemma_refreshes_take_effect(refresh: Refresh, index: usize)
    ensures
        forall|service: &mut ServiceManager, result: (Vec<ActiveTarget>, bool)| #[trigger]
            call_ensures(ServiceManager::finish_refresh, (service, refresh), result) ==> {
                let before = service.media_targets@;
                let after = final(service).media_targets@;
                let found = refresh@.media_targets;
                &&& final(service).targets@.contains_key(index) <==> refresh@.targets.contains_key(
                    index,
                )
                &&& final(service).targets@[index] == refresh@.targets[index]
                &&& after.contains_key(index) <==> found.contains_key(index)
                &&& after.contains_key(index) ==> after[index]@ == found[index]@
                &&& !result.1 ==> {
                    &&& before.contains_key(index) <==> found.contains_key(index)
                    &&& found.contains_key(index) ==> before[index]@ == found[index]@
                }
                &&& found.contains_key(index) != before.contains_key(index) ==> result.1
                &&& found.contains_key(index) && before.contains_key(index) && found[index]@
                    != before[index]@ ==> result.1
                &&& (forall|k: usize| #[trigger]
                    found.contains_key(k) <==> before.contains_key(k)) && (forall|k: usize|
                    #[trigger]
                    found.contains_key(k) ==> found[k]@ == before[k]@) ==> !result.1
                &&& final(service).media_assets == service.media_assets
            },
{
    assert forall|service: &mut ServiceManager, result: (Vec<ActiveTarget>, bool)| #[trigger]
        call_ensures(ServiceManager::finish_refresh, (service, refresh), result) implies {
        let before = service.media_targets@;
        let found = refresh@.media_targets;
        &&& !result.1 ==> (before.contains_key(index) <==> found.contains_key(index)) && (
        found.contains_key(index) ==> before[index]@ == found[index]@)
        &&& (forall|k: usize| #[trigger] found.contains_key(k) <==> before.contains_key(k)) && (
        forall|k: usize| #[trigger] found.contains_key(k) ==> found[k]@ == before[k]@)
            ==> !result.1
    } by {
        let before = service.media_targets@;
        let found = refresh@.media_targets;
        if same_media_targets(found, before) {
            assert(found.dom().contains(index) == before.dom().contains(index));
        }
        if (forall|k: usize| #[trigger] found.contains_key(k) <==> before.contains_key(k)) && (
        forall|k: usize| #[trigger] found.contains_key(k) ==> found[k]@ == before[k]@) {
            assert(found.dom() =~= before.dom());
            assert(same_media_targets(found, before));
        }
    }
}

/// A panel of a wireless fan is opened in its own way. The shared cooler's goes over the open
/// transport, if there is one; an older cooler's waits until the cooler is open; a wired fan's
/// uses the open connection or opens one. All others are opened over USB.
pub proof fn lemma_panels_are_opened_by_family(
    family: DeviceFamily,
    shared_transport: bool,
    aio_open: bool,
    hid_open: bool,
    route: AttachRoute,
)
    requires
        call_ensures(attach_route, (family, shared_transport, aio_open, hid_open), route),
    ensures
        ({
            let old_cooler = family is HydroShiftLcd || family is Galahad2Lcd;
            &&& route is OpenSlv3 <==> family is Slv3Lcd || family is Tlv2Lcd
            &&& route is SharedTransport <==> family is HydroShift2Lcd && shared_transport
            &&& route is OpenWinUsb <==> family is HydroShift2Lcd && !shared_transport
                || family is HydroShift2OledCurveLcd || family is Lancool207
                || family is UniversalScreen || family is Vision9p2 || family is TlFlexLcd
                || family is SlInfFlexLcd
            &&& route is TakeAio <==> old_cooler && aio_open
            &&& route is HidBackend <==> (old_cooler && !aio_open || family is TlLcd) && hid_open
            &&& route is OpenHid <==> family is TlLcd && !hid_open
            &&& route is Deferred <==> old_cooler && !aio_open && !hid_open
            &&& route is NoBackend <==> family is WirelessAio || family is Other
        }),
{
}

/// Only panels over HID are initialised when they are opened: those of coolers in the background,
/// any other at once.
pub proof fn lemma_coolers_start_in_the_background(
    route: AttachRoute,
    family: DeviceFamily,
    moment: Initialization,
)
    requires
        call_ensures(initialization, (route, family), moment),
    ensures
        ({
            let over_hid = route is TakeAio || route is HidBackend || route is OpenHid;
            let cooler = family is HydroShiftLcd || family is Galahad2Lcd || family is HydroShift2Lcd
                || family is HydroShift2OledCurveLcd;
            &&& moment is NotNeeded <==> !over_hid
            &&& moment is Background <==> over_hid && cooler
            &&& moment is Immediate <==> over_hid && !cooler
        }),
{
}

/// A refresh begins with every setting, with what can be driven of what was found, and with
/// nothing claimed or driven. It is over when every setting had its turn.
pub proof fn lemma_refreshes_begin_from_the_settings(
    service: ServiceManager,
    detected: &Vec<DetectedLcd>,
    refresh: Refresh,
    candidates: Vec<LcdCandidate>,
    done: bool,
)
    requires
        call_ensures(ServiceManager::begin_refresh, (&service, detected), refresh),
        call_ensures(ServiceManager::lcd_candidates, (&service, detected), candidates),
        call_ensures(Refresh::is_done, (&refresh,), done),
    ensures
        service.config is Some ==> refresh@.lcds == service.config->0.lcds@,
        service.config is None ==> refresh@.lcds.len() == 0,
        refresh@.candidates == candidates@,
        refresh@.claims.len() == 0,
        refresh@.targets == Map::<usize, ActiveTarget>::empty(),
        refresh@.media_targets == Map::<usize, MediaTarget>::empty(),
        refresh@.canonicalize.len() == 0,
        done <==> refresh@.lcds.len() == 0,
{
}

} // verus!
