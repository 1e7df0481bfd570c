//! Preparation of media for the configured panels.
use vstd::prelude::*;
use vstd::string::*;

use crate::registry::{lemma_picked_has, lemma_picked_push, lemma_picked_same, picked};
use crate::selection::{
    asset_cache_key, ids_match, lcd_id_matches, lemma_request_keys_tell_apart, request_key,
    same_selection, selection_key, selection_of, selects_same, target_view, written_target,
    LcdTemplate,
};
use crate::service::{
    LcdConfig, MediaAsset, MediaPreparationState, MediaPreparationStatus, MediaTarget,
    ServiceManager, StatusView,
};
use crate::table::{kept, texts, IdSet, Table};
use crate::text::truncated;

verus! {

/// What is said of a panel whose startup image upload was interrupted.
pub const RECOVERY_MESSAGE: &'static str =
    "Playback paused after an interrupted upload. Clear recovery in Installation Health or restart the daemon. Power-cycle the screen if it remains unresponsive.";

/// What is said of media whose preparation ended without a result.
pub const STALLED_MESSAGE: &'static str =
    "Media preparation stopped before producing a result. Save again to retry.";

/// How many characters of a playback error are kept.
pub const PLAYBACK_ERROR_LIMIT: usize = 2048;

/// Media to prepare for one panel.
pub struct MediaJob {
    pub index: usize,
    pub config: LcdConfig,
    pub key: String,
    pub target: MediaTarget,
}

/// What a job stands for.
pub struct JobView {
    pub index: int,
    pub config: LcdConfig,
    pub key: Seq<char>,
    pub target: MediaTarget,
}

impl View for MediaJob {
    type V = JobView;

    open spec fn view(&self) -> JobView {
        JobView {
            index: self.index as int,
            config: self.config,
            key: self.key@,
            target: self.target,
        }
    }
}

/// What a request to prepare media came to.
pub enum Preparation {
    /// Pixel cleaning comes first.
    Postponed,
    /// There are no settings.
    Unconfigured,
    /// The same is being prepared already.
    Unchanged,
    /// These jobs are to be submitted, in place of those that are running.
    Submit(Vec<MediaJob>),
}

/// What a list of jobs stands for.
pub open spec fn job_views(jobs: Seq<MediaJob>) -> Seq<JobView> {
    jobs.map_values(|job: MediaJob| job@)
}

/// The connected panel that a setting currently stands for.
pub open spec fn current_target(
    targets: Map<usize, MediaTarget>,
    lcds: Seq<LcdConfig>,
    index: usize,
) -> Option<MediaTarget> {
    if index < lcds.len() && targets.contains_key(index) && targets[index].selection@
        == selection_of(lcds[index as int]) {
        Some(targets[index])
    } else {
        None
    }
}

/// The prepared media at `index` still fits: its setting selects the same panel, and the panel
/// is the one it was prepared for.
pub open spec fn asset_fits(
    settings: Map<usize, LcdConfig>,
    asset_targets: Map<usize, MediaTarget>,
    targets: Map<usize, MediaTarget>,
    lcds: Seq<LcdConfig>,
    index: usize,
) -> bool {
    &&& settings.contains_key(index) && index < lcds.len() && selects_same(
        settings[index],
        lcds[index as int],
    )
    &&& asset_targets.contains_key(index) && current_target(targets, lcds, index) is Some
    &&& asset_targets[index]@ == current_target(targets, lcds, index)->0@
}

/// The panel is blocked after an interrupted upload.
pub open spec fn is_blocked(quarantine: Set<Seq<char>>, serial: Option<String>) -> bool {
    serial matches Some(serial) && exists|id: Seq<char>|
        quarantine.contains(id) && #[trigger] ids_match(serial@, id)
}

/// The job for one setting, unless its panel is missing or its media is at hand.
pub open spec fn job_for(
    assets: Map<usize, MediaAsset>,
    index: int,
    config: LcdConfig,
    key: Seq<char>,
    target: Option<MediaTarget>,
) -> Option<JobView> {
    match target {
        Some(target) => if assets.contains_key(index as usize)
            && assets[index as usize].config_key@ == key {
            None
        } else {
            Some(JobView { index, config, key, target })
        },
        None => None,
    }
}

/// The positions of a list of `n` items.
pub open spec fn indices(n: nat) -> Seq<int> {
    Seq::new(n, |i: int| i)
}

fn target_among<'a>(
    targets: &'a Table<usize, MediaTarget>,
    lcds: &Vec<LcdConfig>,
    index: usize,
) -> (target: Option<&'a MediaTarget>)
    ensures
        target is Some <==> current_target(targets@, lcds@, index) is Some,
        target matches Some(target) ==> current_target(targets@, lcds@, index) == Some(*target),
{
    if index >= lcds.len() {
        return None;
    }
    match targets.get(&index) {
        Some(target) => if target.selection == selection_key(&lcds[index]) {
            Some(target)
        } else {
            None
        },
        None => None,
    }
}

fn same_texts(a: &Vec<String>, b: &Vec<String>) -> (same: bool)
    ensures
        same == (texts(a@) == texts(b@)),
{
    if a.len() != b.len() {
        assert(texts(a@).len() != texts(b@).len());
        return false;
    }
    let mut i: usize = 0;
    while i < a.len()
        invariant
            i <= a@.len(),
            a@.len() == b@.len(),
            forall|j: int| 0 <= j < i ==> texts(a@)[j] == texts(b@)[j],
        decreases a@.len() - i,
    {
        if !(a[i] == b[i]) {
            assert(texts(a@)[i as int] != texts(b@)[i as int]);
            return false;
        }
        i += 1;
    }
    assert(texts(a@) =~= texts(b@));
    true
}

fn fits(
    settings: &Table<usize, LcdConfig>,
    asset_targets: &Table<usize, MediaTarget>,
    targets: &Table<usize, MediaTarget>,
    lcds: &Vec<LcdConfig>,
    index: usize,
) -> (fits: bool)
    ensures
        fits == asset_fits(settings@, asset_targets@, targets@, lcds@, index),
{
    if index >= lcds.len() {
        return false;
    }
    let selected = match settings.get(&index) {
        Some(config) => same_selection(config, &lcds[index]),
        None => false,
    };
    let panel = match (asset_targets.get(&index), target_among(targets, lcds, index)) {
        (Some(prepared), Some(current)) => prepared.same(current),
        _ => false,
    };
    selected && panel
}

impl ServiceManager {
    /// The key of what is asked for at `index`.
    pub open spec fn key_at(self, templates: Seq<LcdTemplate>, index: int) -> Seq<char> {
        request_key(
            self.lcds()[index],
            templates,
            self.config->0.default_fps@,
            self.config->0.hardware_video,
            current_target(self.media_targets@, self.lcds(), index as usize),
        )
    }

    /// The keys of everything that is asked for.
    pub open spec fn keys(self, templates: Seq<LcdTemplate>) -> Seq<Seq<char>> {
        Seq::new(self.lcds().len(), |i: int| self.key_at(templates, i))
    }

    /// The prepared media that still fits.
    pub open spec fn fitting_assets(self) -> Map<usize, MediaAsset> {
        kept(
            self.media_assets@,
            |index: usize, asset: MediaAsset|
                asset_fits(
                    self.media_settings@,
                    self.media_asset_targets@,
                    self.media_targets@,
                    self.lcds(),
                    index,
                ),
        )
    }

    /// The job at `index`, unless its panel is missing or its media is at hand.
    pub open spec fn job_at(self, templates: Seq<LcdTemplate>, index: int) -> Option<JobView> {
        job_for(
            self.fitting_assets(),
            index,
            self.lcds()[index],
            self.key_at(templates, index),
            current_target(self.media_targets@, self.lcds(), index as usize),
        )
    }

    /// The jobs for everything that is asked for.
    pub open spec fn jobs(self, templates: Seq<LcdTemplate>) -> Seq<JobView> {
        picked(indices(self.lcds().len()), |index: int| self.job_at(templates, index))
    }

    fn media_target(&self, index: usize) -> (target: Option<&MediaTarget>)
        ensures
            target is Some <==> current_target(self.media_targets@, self.lcds(), index) is Some,
            target matches Some(target) ==> current_target(self.media_targets@, self.lcds(), index)
                == Some(*target),
    {
        match &self.config {
            Some(config) => target_among(&self.media_targets, &config.lcds, index),
            None => None,
        }
    }

    fn requested_keys(&self, templates: &Vec<LcdTemplate>) -> (keys: Vec<String>)
        requires
            self.config is Some,
        ensures
            texts(keys@) == self.keys(templates@),
    {
        let mut keys: Vec<String> = Vec::new();
        if let Some(config) = &self.config {
            let mut i: usize = 0;
            while i < config.lcds.len()
                invariant
                    self.config == Some(*config),
                    i <= config.lcds@.len(),
                    keys@.len() == i,
                    forall|j: int|
                        0 <= j < i ==> (#[trigger] keys@[j])@ == self.key_at(templates@, j),
                decreases config.lcds@.len() - i,
            {
                let base = asset_cache_key(
                    &config.lcds[i],
                    templates,
                    &config.default_fps,
                    config.hardware_video,
                );
                let target = self.media_target(i);
                let text = written_target(target);
                keys.push(base.concat("|target:").concat(&text));
                i += 1;
            }
        }
        assert(texts(keys@) =~= self.keys(templates@));
        keys
    }

    fn drop_unfitting_assets(&mut self)
        requires
            old(self).config is Some,
        ensures
            final(self).media_assets@ == old(self).fitting_assets(),
            final(self).media_settings@ == old(self).media_settings@.restrict(
                old(self).fitting_assets().dom(),
            ),
            final(self).media_asset_targets@ == old(self).media_asset_targets@.restrict(
                old(self).fitting_assets().dom(),
            ),
            *final(self) == (ServiceManager {
                media_assets: final(self).media_assets,
                media_settings: final(self).media_settings,
                media_asset_targets: final(self).media_asset_targets,
                ..*old(self)
            }),
    {
        if let Some(config) = &self.config {
            let lcds = &config.lcds;
            let settings = &self.media_settings;
            let asset_targets = &self.media_asset_targets;
            let targets = &self.media_targets;
            let ghost passes = |index: usize, asset: MediaAsset|
                asset_fits(settings@, asset_targets@, targets@, lcds@, index);
            let keep = |index: &usize, asset: &MediaAsset| -> (fit: bool)
                ensures
                    fit == asset_fits(settings@, asset_targets@, targets@, lcds@, *index),
                { fits(settings, asset_targets, targets, lcds, *index) };
            self.media_assets.retain(keep, Ghost(passes));
            assert(self.media_assets@ =~= old(self).fitting_assets());
        }
        let assets = &self.media_assets;
        let ghost with_settings = |index: usize, config: LcdConfig| assets@.contains_key(index);
        let ghost with_target = |index: usize, target: MediaTarget| assets@.contains_key(index);
        let keep_settings = |index: &usize, config: &LcdConfig| -> (stays: bool)
            ensures
                stays == assets@.contains_key(*index),
            { assets.contains(index) };
        let keep_target = |index: &usize, target: &MediaTarget| -> (stays: bool)
            ensures
                stays == assets@.contains_key(*index),
            { assets.contains(index) };
        self.media_settings.retain(keep_settings, Ghost(with_settings));
        self.media_asset_targets.retain(keep_target, Ghost(with_target));
        assert(self.media_settings@ =~= old(self).media_settings@.restrict(
            old(self).fitting_assets().dom(),
        ));
        assert(self.media_asset_targets@ =~= old(self).media_asset_targets@.restrict(
            old(self).fitting_assets().dom(),
        ));
    }

    fn pending_jobs(&self) -> (jobs: Vec<MediaJob>)
        requires
            self.media_requested_keys@.len() == self.lcds().len(),
        ensures
            job_views(jobs@) == picked(
                indices(self.lcds().len()),
                |index: int|
                    job_for(
                        self.media_assets@,
                        index,
                        self.lcds()[index],
                        self.media_requested_keys@[index]@,
                        current_target(self.media_targets@, self.lcds(), index as usize),
                    ),
            ),
    {
        let ghost pick = |index: int|
            job_for(
                self.media_assets@,
                index,
                self.lcds()[index],
                self.media_requested_keys@[index]@,
                current_target(self.media_targets@, self.lcds(), index as usize),
            );
        let ghost all = indices(self.lcds().len());
        let mut jobs: Vec<MediaJob> = Vec::new();
        assert(job_views(jobs@) =~= picked(all.take(0), pick));
        if let Some(config) = &self.config {
            let mut i: usize = 0;
            while i < config.lcds.len()
                invariant
                    self.config == Some(*config),
                    i <= config.lcds@.len(),
                    self.media_requested_keys@.len() == self.lcds().len(),
                    all == indices(self.lcds().len()),
                    pick == (|index: int|
                        job_for(
                            self.media_assets@,
                            index,
                            self.lcds()[index],
                            self.media_requested_keys@[index]@,
                            current_target(self.media_targets@, self.lcds(), index as usize),
                        )),
                    job_views(jobs@) == picked(all.take(i as int), pick),
                decreases config.lcds@.len() - i,
            {
                proof {
                    lemma_picked_push(all, i as int, pick);
                    assert(all[i as int] == i as int);
                }
                if let Some(target) = self.media_target(i) {
                    let ready = match self.media_assets.get(&i) {
                        Some(asset) => asset.config_key == self.media_requested_keys[i],
                        None => false,
                    };
                    if !ready {
                        let job = MediaJob {
                            index: i,
                            config: config.lcds[i].copy(),
                            key: self.media_requested_keys[i].clone(),
                            target: target.copy(),
                        };
                        let ghost before = jobs@;
                        jobs.push(job);
                        assert(job_views(jobs@) =~= job_views(before).push(job@));
                    }
                }
                i += 1;
            }
            assert(all.take(i as int) =~= all);
        } else {
            assert(all.take(0) =~= all);
        }
        jobs
    }

    /// Finds out what media must be prepared, and lets go of prepared media that no longer fits.
    /// `busy` says whether jobs are running.
    pub fn prepare_media_assets(&mut self, templates: &Vec<LcdTemplate>, busy: bool) -> (preparation:
        Preparation)
        ensures
            match preparation {
                Preparation::Postponed => {
                    &&& old(self).pixel_cleaning
                    &&& *final(self) == (ServiceManager { media_reload_pending: true, ..*old(self) })
                },
                Preparation::Unconfigured => {
                    &&& !old(self).pixel_cleaning && old(self).config is None
                    &&& *final(self) == (ServiceManager { media_reload_pending: false, ..*old(self) })
                },
                Preparation::Unchanged => {
                    &&& !old(self).pixel_cleaning && old(self).config is Some
                    &&& busy && texts(old(self).media_requested_keys@) == old(self).keys(templates@)
                    &&& *final(self) == (ServiceManager { media_reload_pending: false, ..*old(self) })
                },
                Preparation::Submit(jobs) => {
                    &&& !old(self).pixel_cleaning && old(self).config is Some
                    &&& !(busy && texts(old(self).media_requested_keys@) == old(self).keys(
                        templates@,
                    ))
                    &&& job_views(jobs@) == old(self).jobs(templates@)
                    &&& texts(final(self).media_requested_keys@) == old(self).keys(templates@)
                    &&& final(self).media_assets@ == old(self).fitting_assets()
                    &&& final(self).media_settings@ == old(self).media_settings@.restrict(
                        old(self).fitting_assets().dom(),
                    )
                    &&& final(self).media_asset_targets@ == old(self).media_asset_targets@.restrict(
                        old(self).fitting_assets().dom(),
                    )
                    &&& *final(self) == (ServiceManager {
                        media_reload_pending: false,
                        media_requested_keys: final(self).media_requested_keys,
                        media_assets: final(self).media_assets,
                        media_settings: final(self).media_settings,
                        media_asset_targets: final(self).media_asset_targets,
                        ..*old(self)
                    })
                },
            },
    {
        if self.pixel_cleaning {
            self.media_reload_pending = true;
            return Preparation::Postponed;
        }
        self.media_reload_pending = false;
        if self.config.is_none() {
            return Preparation::Unconfigured;
        }
        let keys = self.requested_keys(templates);
        assert(self.keys(templates@) =~= old(self).keys(templates@));
        assert(texts(keys@).len() == keys@.len());
        if busy && same_texts(&self.media_requested_keys, &keys) {
            return Preparation::Unchanged;
        }
        self.media_requested_keys = keys;
        assert(self.fitting_assets() =~= old(self).fitting_assets());
        self.drop_unfitting_assets();
        let jobs = self.pending_jobs();
        proof {
            let wanted = |index: int| old(self).job_at(templates@, index);
            let found = |index: int|
                job_for(
                    self.media_assets@,
                    index,
                    self.lcds()[index],
                    self.media_requested_keys@[index]@,
                    current_target(self.media_targets@, self.lcds(), index as usize),
                );
            let all = indices(self.lcds().len());
            assert forall|i: int| 0 <= i < all.len() implies wanted(#[trigger] all[i]) == found(
                all[i],
            ) by {
                assert(texts(self.media_requested_keys@)[i] == old(self).keys(templates@)[i]);
            }
            lemma_picked_same(all, wanted, found);
        }
        Preparation::Submit(jobs)
    }
}

/// A changed panel is never taken for what is being prepared: where any setting stands for another
/// panel, or another screen, than when the keys at hand were asked for, what is asked for now has
/// other keys.
pub proof fn lemma_changed_panels_change_the_keys(
    asked: ServiceManager,
    asked_templates: Seq<LcdTemplate>,
    service: ServiceManager,
    templates: Seq<LcdTemplate>,
    index: usize,
)
    requires
        texts(service.media_requested_keys@) == asked.keys(asked_templates),
        index < service.lcds().len(),
        target_view(current_target(asked.media_targets@, asked.lcds(), index)) != target_view(
            current_target(service.media_targets@, service.lcds(), index),
        ),
    ensures
        texts(service.media_requested_keys@) != service.keys(templates),
{
    if texts(service.media_requested_keys@) == service.keys(templates) {
        let i = index as int;
        assert(asked.keys(asked_templates).len() == service.keys(templates).len());
        assert(asked.keys(asked_templates)[i] == asked.key_at(asked_templates, i));
        assert(service.keys(templates)[i] == service.key_at(templates, i));
        lemma_request_keys_tell_apart(
            asked.lcds()[i],
            asked_templates,
            asked.config->0.default_fps@,
            asked.config->0.hardware_video,
            current_target(asked.media_targets@, asked.lcds(), index),
            service.lcds()[i],
            templates,
            service.config->0.default_fps@,
            service.config->0.hardware_video,
            current_target(service.media_targets@, service.lcds(), index),
        );
    }
}

/// Whether the panel is blocked after an interrupted upload.
pub fn startup_blocked(quarantine: &IdSet, serial: &Option<String>) -> (blocked: bool)
    ensures
        blocked == is_blocked(quarantine@, *serial),
{
    match serial {
        Some(serial) => find_matching(quarantine, serial).is_some(),
        None => false,
    }
}

/// Some blocked identity names the panel.
pub open spec fn names_blocked(quarantine: Set<Seq<char>>, serial: Seq<char>) -> bool {
    exists|id: Seq<char>| quarantine.contains(id) && #[trigger] ids_match(serial, id)
}

/// A blocked identity that names the panel.
pub fn find_matching<'a>(quarantine: &'a IdSet, serial: &str) -> (found: Option<&'a String>)
    ensures
        found is Some <==> exists|id: Seq<char>|
            quarantine@.contains(id) && #[trigger] ids_match(serial@, id),
        found is Some <==> names_blocked(quarantine@, serial@),
        found matches Some(id) ==> quarantine@.contains(id@) && ids_match(serial@, id@),
{
    let n: usize = quarantine.len();
    let mut i: usize = 0;
    while i < n
        invariant
            i <= n,
            n == quarantine.order().len(),
            forall|j: int| 0 <= j < i ==> !ids_match(serial@, #[trigger] quarantine.order()[j]),
        decreases n - i,
    {
        let id = quarantine.id(i);
        if lcd_id_matches(serial, id) {
            return Some(id);
        }
        i += 1;
    }
    assert forall|id: Seq<char>| quarantine@.contains(id) implies !#[trigger] ids_match(
        serial@,
        id,
    ) by {
        let j = choose|j: int| 0 <= j < quarantine.order().len() && quarantine.order()[j] == id;
        assert(!ids_match(serial@, quarantine.order()[j]));
    }
    None
}

fn listed(list: &Vec<usize>, index: usize) -> (found: bool)
    ensures
        found == list@.contains(index),
{
    let mut i: usize = 0;
    while i < list.len()
        invariant
            i <= list@.len(),
            forall|j: int| 0 <= j < i ==> list@[j] != index,
        decreases list@.len() - i,
    {
        if list[i] == index {
            return true;
        }
        i += 1;
    }
    false
}

/// The result of a job.
pub struct PreparedMedia {
    pub generation: u64,
    pub index: usize,
    pub config: LcdConfig,
    pub target: MediaTarget,
    pub result: Result<MediaAsset, String>,
}

/// The prepared media and what is reported of it.
#[verifier::ext_equal]
pub struct MediaState {
    pub assets: Map<usize, MediaAsset>,
    pub settings: Map<usize, LcdConfig>,
    pub asset_targets: Map<usize, MediaTarget>,
    pub statuses: Map<usize, MediaPreparationStatus>,
}

/// The result belongs to the latest request for its panel.
pub open spec fn is_current(state: MediaState, result: PreparedMedia) -> bool {
    state.statuses.contains_key(result.index) && state.statuses[result.index].generation
        == result.generation
}

/// The state once a result is in. A result of an earlier request changes nothing, and a failed
/// one leaves the media that is at hand.
pub open spec fn absorbed(state: MediaState, result: PreparedMedia) -> MediaState {
    if !is_current(state, result) {
        state
    } else {
        let status = state.statuses[result.index];
        match result.result {
            Ok(asset) => MediaState {
                assets: state.assets.insert(result.index, asset),
                settings: state.settings.insert(result.index, result.config),
                asset_targets: state.asset_targets.insert(result.index, result.target),
                statuses: state.statuses.insert(
                    result.index,
                    MediaPreparationStatus {
                        state: MediaPreparationState::Ready,
                        error: None,
                        ..status
                    },
                ),
            },
            Err(error) => MediaState {
                statuses: state.statuses.insert(
                    result.index,
                    MediaPreparationStatus {
                        state: MediaPreparationState::Failed,
                        error: Some(error),
                        ..status
                    },
                ),
                ..state
            },
        }
    }
}

/// The state once all results are in.
pub open spec fn absorbed_all(state: MediaState, results: Seq<PreparedMedia>) -> MediaState
    decreases results.len(),
{
    if results.len() == 0 {
        state
    } else {
        absorbed_all(absorbed(state, results[0]), results.skip(1))
    }
}

/// A result that is stale or failed leaves the media that is at hand; a current success replaces
/// it.
pub proof fn lemma_only_current_success_replaces_media(state: MediaState, result: PreparedMedia)
    ensures
        !is_current(state, result) || result.result is Err ==> {
            &&& absorbed(state, result).assets == state.assets
            &&& absorbed(state, result).settings == state.settings
            &&& absorbed(state, result).asset_targets == state.asset_targets
        },
        !is_current(state, result) ==> absorbed(state, result) == state,
        is_current(state, result) && result.result is Ok ==> absorbed(state, result).assets
            == state.assets.insert(result.index, result.result->Ok_0),
{
}

/// The panels that jobs prepare media for.
pub open spec fn indices_of(jobs: Seq<JobView>) -> Seq<usize> {
    jobs.map_values(|job: JobView| job.index as usize)
}

/// The panels that jobs prepare media for.
pub fn job_indices(jobs: &Vec<MediaJob>) -> (indices: Vec<usize>)
    ensures
        indices@ == indices_of(job_views(jobs@)),
{
    let mut indices: Vec<usize> = Vec::new();
    let mut i: usize = 0;
    while i < jobs.len()
        invariant
            i <= jobs@.len(),
            indices@.len() == i,
            forall|j: int| 0 <= j < i ==> #[trigger] indices@[j] == jobs@[j].index,
        decreases jobs@.len() - i,
    {
        indices.push(jobs[i].index);
        i += 1;
    }
    assert(indices@ =~= indices_of(job_views(jobs@)));
    indices
}

/// A panel that is reported as ready has prepared media under the key that is asked for, and is
/// connected and not blocked.
pub proof fn lemma_ready_means_prepared(
    service: ServiceManager,
    templates: Seq<LcdTemplate>,
    generation: u64,
    index: usize,
)
    requires
        service.config is Some,
        index < service.lcds().len(),
        service.status_at(index, indices_of(service.jobs(templates)), generation).state is Ready,
    ensures
        service.fitting_assets().contains_key(index),
        service.fitting_assets()[index].config_key@ == service.key_at(templates, index as int),
        current_target(service.media_targets@, service.lcds(), index) is Some,
        !is_blocked(service.startup_image_quarantine@, service.lcds()[index as int].serial),
{
    let jobs = service.jobs(templates);
    let pick = |i: int| service.job_at(templates, i);
    let all = indices(service.lcds().len());
    if service.job_at(templates, index as int) is Some {
        assert(all[index as int] == index as int);
        lemma_picked_has(all, pick, index as int);
        let job = pick(all[index as int])->0;
        let k = choose|k: int| 0 <= k < jobs.len() && jobs[k] == job;
        assert(indices_of(jobs)[k] == index);
        assert(indices_of(jobs).contains(index));
    }
}

/// What to do when media is polled.
pub struct MediaPoll {
    /// Prepare media now.
    pub prepare: bool,
    /// A retry that a client asked for is due.
    pub retry_ready: bool,
}

impl ServiceManager {
    /// What is reported of a panel once its jobs are submitted.
    pub open spec fn status_at(self, index: usize, preparing: Seq<usize>, generation: u64)
        -> StatusView {
        let config = self.lcds()[index as int];
        let recovery = is_blocked(self.startup_image_quarantine@, config.serial);
        StatusView {
            startup_recovery_required: recovery,
            runtime: None,
            last_playback_error: None,
            generation,
            device_id: config.device_id@,
            state: if recovery {
                MediaPreparationState::Failed
            } else if current_target(self.media_targets@, self.lcds(), index) is None {
                MediaPreparationState::WaitingForDevice
            } else if preparing.contains(index) {
                MediaPreparationState::Preparing
            } else {
                MediaPreparationState::Ready
            },
            error: if recovery {
                Some(RECOVERY_MESSAGE@)
            } else {
                None
            },
        }
    }

    /// Reports the jobs that were submitted under this generation, for these panels.
    pub fn media_submitted(&mut self, preparing: &Vec<usize>, generation: u64)
        ensures
            forall|index: usize| #[trigger]
                final(self).media_preparation@.contains_key(index) <==> index < old(self).lcds().len(),
            forall|index: usize|
                index < old(self).lcds().len() ==> (
                #[trigger] final(self).media_preparation@[index])@ == old(self).status_at(
                    index,
                    preparing@,
                    generation,
                ),
            *final(self) == (ServiceManager {
                media_preparation: final(self).media_preparation,
                ..*old(self)
            }),
    {
        let mut statuses: Table<usize, MediaPreparationStatus> = Table::new();
        if let Some(config) = &self.config {
            let mut i: usize = 0;
            while i < config.lcds.len()
                invariant
                    self.config == Some(*config),
                    *self == *old(self),
                    i <= config.lcds@.len(),
                    forall|index: usize| #[trigger] statuses@.contains_key(index) <==> index < i,
                    forall|index: usize|
                        index < i ==> (#[trigger] statuses@[index])@ == self.status_at(
                            index,
                            preparing@,
                            generation,
                        ),
                decreases config.lcds@.len() - i,
            {
                let lcd = &config.lcds[i];
                let recovery = startup_blocked(&self.startup_image_quarantine, &lcd.serial);
                let state = if recovery {
                    MediaPreparationState::Failed
                } else if self.media_target(i).is_none() {
                    MediaPreparationState::WaitingForDevice
                } else if listed(preparing, i) {
                    MediaPreparationState::Preparing
                } else {
                    MediaPreparationState::Ready
                };
                let status = MediaPreparationStatus {
                    startup_recovery_required: recovery,
                    runtime: None,
                    last_playback_error: None,
                    generation,
                    device_id: lcd.device_id.clone(),
                    state,
                    error: if recovery {
                        Some(RECOVERY_MESSAGE.to_owned())
                    } else {
                        None
                    },
                };
                statuses.insert(i, status);
                i += 1;
            }
        }
        self.media_preparation = statuses;
    }

    /// Starts a poll of the media preparation. A retry waits until no job is running, and no
    /// preparation starts during pixel cleaning.
    pub fn begin_media_poll(&mut self, busy: bool) -> (poll: MediaPoll)
        ensures
            poll.retry_ready == (old(self).media_retry_pending && !busy),
            final(self).media_reload_pending == (old(self).media_reload_pending
                || poll.retry_ready),
            poll.prepare == (final(self).media_reload_pending && !old(self).pixel_cleaning),
            *final(self) == (ServiceManager {
                media_reload_pending: final(self).media_reload_pending,
                ..*old(self)
            }),
    {
        let retry_ready = self.media_retry_pending && !busy;
        if retry_ready {
            self.media_reload_pending = true;
        }
        MediaPoll { prepare: self.media_reload_pending && !self.pixel_cleaning, retry_ready }
    }

    /// Notes that the preparation of a poll was requested.
    pub fn media_poll_prepared(&mut self, poll: &MediaPoll)
        ensures
            *final(self) == (ServiceManager {
                media_retry_pending: old(self).media_retry_pending && !(poll.prepare
                    && poll.retry_ready),
                ..*old(self)
            }),
    {
        if poll.prepare && poll.retry_ready {
            self.media_retry_pending = false;
        }
    }

    /// The prepared media and what is reported of it.
    pub open spec fn media_state(self) -> MediaState {
        MediaState {
            assets: self.media_assets@,
            settings: self.media_settings@,
            asset_targets: self.media_asset_targets@,
            statuses: self.media_preparation@,
        }
    }

    /// Takes in the results of jobs.
    pub fn apply_prepared_results(&mut self, results: Vec<PreparedMedia>)
        ensures
            final(self).media_state() == absorbed_all(old(self).media_state(), results@),
            *final(self) == (ServiceManager {
                media_assets: final(self).media_assets,
                media_settings: final(self).media_settings,
                media_asset_targets: final(self).media_asset_targets,
                media_preparation: final(self).media_preparation,
                ..*old(self)
            }),
    {
        let mut left = results;
        let ghost goal = absorbed_all(self.media_state(), left@);
        while left.len() > 0
            invariant
                absorbed_all(self.media_state(), left@) == goal,
                *self == (ServiceManager {
                    media_assets: self.media_assets,
                    media_settings: self.media_settings,
                    media_asset_targets: self.media_asset_targets,
                    media_preparation: self.media_preparation,
                    ..*old(self)
                }),
            decreases left@.len(),
        {
            let ghost all = left@;
            let result = left.remove(0);
            assert(left@ =~= all.skip(1));
            self.apply_prepared_result(result);
        }
    }

    fn apply_prepared_result(&mut self, result: PreparedMedia)
        ensures
            final(self).media_state() == absorbed(old(self).media_state(), result),
            *final(self) == (ServiceManager {
                media_assets: final(self).media_assets,
                media_settings: final(self).media_settings,
                media_asset_targets: final(self).media_asset_targets,
                media_preparation: final(self).media_preparation,
                ..*old(self)
            }),
    {
        let current = match self.media_preparation.get(&result.index) {
            Some(status) => status.generation == result.generation,
            None => false,
        };
        if !current {
            return;
        }
        let ghost before = self.media_preparation@;
        if let Some(status) = self.media_preparation.remove(&result.index) {
            let index: usize = result.index;
            match result.result {
                Ok(asset) => {
                    self.media_assets.insert(index, asset);
                    self.media_settings.insert(index, result.config);
                    self.media_asset_targets.insert(index, result.target);
                    let ready = MediaPreparationStatus {
                        state: MediaPreparationState::Ready,
                        error: None,
                        ..status
                    };
                    self.media_preparation.insert(index, ready);
                    assert(self.media_preparation@ =~= before.insert(index, ready));
                },
                Err(error) => {
                    let failed = MediaPreparationStatus {
                        state: MediaPreparationState::Failed,
                        error: Some(error),
                        ..status
                    };
                    self.media_preparation.insert(index, failed);
                    assert(self.media_preparation@ =~= before.insert(index, failed));
                },
            }
        }
    }

    /// Reports every panel whose media is still being prepared as failed, when no job is running
    /// any more.
    pub fn fail_stalled_media(&mut self, busy: bool)
        ensures
            final(self).media_preparation@.dom() == old(self).media_preparation@.dom(),
            forall|index: usize| #[trigger]
                old(self).media_preparation@.contains_key(index) ==> final(self).media_preparation@[index]@ == stalled(old(self).media_preparation@[index]@, busy),
            *final(self) == (ServiceManager {
                media_preparation: final(self).media_preparation,
                ..*old(self)
            }),
    {
        if busy {
            return;
        }
        let ghost before = self.media_preparation@;
        let mut statuses: Table<usize, MediaPreparationStatus> = Table::new();
        loop
            invariant
                *self == (ServiceManager {
                    media_preparation: self.media_preparation,
                    ..*old(self)
                }),
                forall|index: usize| #[trigger]
                    before.contains_key(index) <==> statuses@.contains_key(index)
                        || self.media_preparation@.contains_key(index),
                forall|index: usize| #[trigger]
                    self.media_preparation@.contains_key(index) ==> before[index]
                        == self.media_preparation@[index] && !statuses@.contains_key(index),
                forall|index: usize| #[trigger]
                    statuses@.contains_key(index) ==> statuses@[index]@ == stalled(
                        before[index]@,
                        false,
                    ),
            ensures
                *self == (ServiceManager {
                    media_preparation: self.media_preparation,
                    ..*old(self)
                }),
                statuses@.dom() == before.dom(),
                forall|index: usize| #[trigger]
                    statuses@.contains_key(index) ==> statuses@[index]@ == stalled(
                        before[index]@,
                        false,
                    ),
            decreases self.media_preparation.size(),
        {
            match self.media_preparation.pop() {
                Some((index, status)) => {
                    if status.state == MediaPreparationState::Preparing {
                        statuses.insert(
                            index,
                            MediaPreparationStatus {
                                state: MediaPreparationState::Failed,
                                error: Some(STALLED_MESSAGE.to_owned()),
                                ..status
                            },
                        );
                    } else {
                        statuses.insert(index, status);
                    }
                },
                None => {
                    assert(statuses@.dom() =~= before.dom());
                    break;
                },
            }
        }
        self.media_preparation = statuses;
    }

    /// The playback error belongs to the media that is asked for.
    pub open spec fn wants(self, index: usize, key: Seq<char>) -> bool {
        index < self.media_requested_keys@.len() && self.media_requested_keys@[index as int]@ == key
    }

    /// Reports a playback error, unless it comes from media that was replaced.
    pub fn record_playback_failure(&mut self, index: usize, key: &str, error: &str)
        ensures
            final(self).media_preparation@.dom() == old(self).media_preparation@.dom(),
            forall|other: usize| #[trigger]
                old(self).media_preparation@.contains_key(other) ==> final(self).media_preparation@[other]@ == if other == index && old(self).wants(index, key@) {
                    StatusView {
                        last_playback_error: Some(
                            if error@.len() > PLAYBACK_ERROR_LIMIT {
                                error@.take(PLAYBACK_ERROR_LIMIT as int)
                            } else {
                                error@
                            },
                        ),
                        ..old(self).media_preparation@[other]@
                    }
                } else {
                    old(self).media_preparation@[other]@
                },
            *final(self) == (ServiceManager {
                media_preparation: final(self).media_preparation,
                ..*old(self)
            }),
    {
        if index >= self.media_requested_keys.len() {
            return;
        }
        if !crate::text::same_text(&self.media_requested_keys[index], key) {
            return;
        }
        let ghost before = self.media_preparation@;
        if let Some(status) = self.media_preparation.remove(&index) {
            let failed = MediaPreparationStatus {
                last_playback_error: Some(truncated(error, PLAYBACK_ERROR_LIMIT)),
                ..status
            };
            assert(error@.take(error@.len() as int) =~= error@);
            self.media_preparation.insert(index, failed);
            assert(self.media_preparation@ =~= before.insert(index, failed));
            assert(self.media_preparation@.dom() =~= before.dom());
        }
    }

    /// Takes a target out of the active ones.
    pub fn take_target(&mut self, index: usize) -> (target: Option<crate::service::ActiveTarget>)
        ensures
            target is Some <==> old(self).targets@.contains_key(index),
            target matches Some(target) ==> target == old(self).targets@[index],
            final(self).targets@ == old(self).targets@.remove(index),
            *final(self) == (ServiceManager { targets: final(self).targets, ..*old(self) }),
    {
        self.targets.remove(&index)
    }
}

/// What becomes of a status when preparation ends: media that is still being prepared failed.
pub open spec fn stalled(status: StatusView, busy: bool) -> StatusView {
    if !busy && status.state is Preparing {
        StatusView {
            state: MediaPreparationState::Failed,
            error: Some(STALLED_MESSAGE@),
            ..status
        }
    } else {
        status
    }
}

/// Media is prepared unless pixel cleaning comes first, nothing is configured, or the same is
/// being prepared already. Only pixel cleaning leaves the request standing.
pub proof fn lemma_media_is_prepared_on_demand(templates: &Vec<LcdTemplate>, busy: bool)
    ensures
        forall|service: &mut ServiceManager, preparation: Preparation| #[trigger]
            call_ensures(
                ServiceManager::prepare_media_assets,
                (service, templates, busy),
                preparation,
            ) ==> {
                let same = texts(service.media_requested_keys@) == service.keys(templates@);
                &&& preparation is Postponed <==> service.pixel_cleaning
                &&& preparation is Unconfigured <==> !service.pixel_cleaning
                    && service.config is None
                &&& preparation is Unchanged <==> !service.pixel_cleaning
                    && service.config is Some && busy && same
                &&& preparation is Submit <==> !service.pixel_cleaning && service.config is Some
                    && !(busy && same)
                &&& final(service).media_reload_pending <==> service.pixel_cleaning
                &&& !(preparation is Submit) ==> {
                    &&& final(service).media_assets == service.media_assets
                    &&& final(service).media_requested_keys == service.media_requested_keys
                }
                &&& final(service).targets == service.targets
                &&& final(service).config == service.config
                &&& final(service).media_preparation == service.media_preparation
            },
{
}

/// Media that was prepared is kept exactly when its setting still selects the same panel and that
/// panel, with its screen, is the connected one that it was prepared for. What it was prepared
/// from is kept along with it.
pub proof fn lemma_fitting_media_is_kept(templates: &Vec<LcdTemplate>, busy: bool, index: usize)
    ensures
        forall|service: &mut ServiceManager, preparation: Preparation| #[trigger]
            call_ensures(
                ServiceManager::prepare_media_assets,
                (service, templates, busy),
                preparation,
            ) && preparation is Submit ==> {
                let lcds = service.config->0.lcds@;
                let connected = service.media_targets@[index];
                let prepared = service.media_asset_targets@[index];
                let stays = {
                    &&& service.media_assets@.contains_key(index)
                    &&& index < lcds.len()
                    &&& service.media_settings@.contains_key(index)
                    &&& selects_same(service.media_settings@[index], lcds[index as int])
                    &&& service.media_targets@.contains_key(index)
                    &&& connected.selection@ == selection_of(lcds[index as int])
                    &&& service.media_asset_targets@.contains_key(index)
                    &&& prepared.selection@ == connected.selection@
                    &&& prepared.device_id@ == connected.device_id@
                    &&& prepared.screen == connected.screen
                };
                &&& final(service).media_assets@.contains_key(index) <==> stays
                &&& stays ==> {
                    &&& final(service).media_assets@[index] == service.media_assets@[index]
                    &&& final(service).media_settings@.contains_key(index)
                    &&& final(service).media_settings@[index] == service.media_settings@[index]
                    &&& final(service).media_asset_targets@.contains_key(index)
                    &&& final(service).media_asset_targets@[index]
                        == service.media_asset_targets@[index]
                }
                &&& !stays ==> {
                    &&& !final(service).media_settings@.contains_key(index)
                    &&& !final(service).media_asset_targets@.contains_key(index)
                }
            },
{
}

proof fn lemma_job_of(service: ServiceManager, templates: Seq<LcdTemplate>, k: int) -> (index: int)
    requires
        0 <= k < service.jobs(templates).len(),
    ensures
        0 <= index < service.lcds().len(),
        service.job_at(templates, index) == Some(service.jobs(templates)[k]),
        service.jobs(templates)[k].index == index,
{
    let all = indices(service.lcds().len());
    let pick = |index: int| service.job_at(templates, index);
    let i = crate::registry::lemma_picked_from(all, pick, k);
    assert(all[i] == i);
    i
}

/// Every job is for one of the settings, whose panel is connected and whose media is not at hand
/// under the key that is asked for now. It carries that setting, that key and that panel.
pub proof fn lemma_jobs_are_for_missing_media(templates: &Vec<LcdTemplate>, busy: bool, k: int)
    ensures
        forall|service: &mut ServiceManager, preparation: Preparation| #[trigger]
            call_ensures(
                ServiceManager::prepare_media_assets,
                (service, templates, busy),
                preparation,
            ) ==> (preparation matches Preparation::Submit(jobs) ==> (0 <= k < jobs@.len() ==> {
                let lcds = service.config->0.lcds@;
                let job = jobs@[k];
                &&& job.index < lcds.len()
                &&& job.config == lcds[job.index as int]
                &&& job.key@ == final(service).media_requested_keys@[job.index as int]@
                &&& service.media_targets@.contains_key(job.index)
                &&& job.target == service.media_targets@[job.index]
                &&& job.target.selection@ == selection_of(lcds[job.index as int])
                &&& !final(service).media_assets@.contains_key(job.index) || final(service).media_assets@[job.index].config_key@ != job.key@
            })),
{
    assert forall|service: &mut ServiceManager, preparation: Preparation| #[trigger]
        call_ensures(
            ServiceManager::prepare_media_assets,
            (service, templates, busy),
            preparation,
        ) implies (preparation matches Preparation::Submit(jobs) ==> (0 <= k < jobs@.len() ==> {
        let lcds = service.config->0.lcds@;
        let job = jobs@[k];
        &&& job.index < lcds.len()
        &&& job.config == lcds[job.index as int]
        &&& job.key@ == final(service).media_requested_keys@[job.index as int]@
        &&& service.media_targets@.contains_key(job.index)
        &&& job.target == service.media_targets@[job.index]
        &&& job.target.selection@ == selection_of(lcds[job.index as int])
        &&& !final(service).media_assets@.contains_key(job.index) || final(service).media_assets@[job.index].config_key@ != job.key@
    })) by {
        if let Preparation::Submit(jobs) = preparation {
            if 0 <= k < jobs@.len() {
                assert(job_views(jobs@)[k] == jobs@[k]@);
                let index = lemma_job_of(*service, templates@, k);
                let keys = final(service).media_requested_keys@;
                assert(texts(keys).len() == keys.len());
                assert(texts(keys)[index] == service.keys(templates@)[index]);
                assert(texts(keys)[index] == keys[index]@);
                assert(jobs@[k].index as int == index);
                assert(jobs@[k]@ == service.job_at(templates@, index)->0);
            }
        }
    }
}

/// A setting whose panel is connected, and whose media is not at hand under the key that is asked
/// for now, has a job.
pub proof fn lemma_missing_media_has_a_job(templates: &Vec<LcdTemplate>, busy: bool, index: usize)
    ensures
        forall|service: &mut ServiceManager, preparation: Preparation| #[trigger]
            call_ensures(
                ServiceManager::prepare_media_assets,
                (service, templates, busy),
                preparation,
            ) ==> (preparation matches Preparation::Submit(jobs) ==> {
                let lcds = service.config->0.lcds@;
                let keys = final(service).media_requested_keys@;
                let assets = final(service).media_assets@;
                &&& keys.len() == lcds.len()
                &&& index < lcds.len() && service.media_targets@.contains_key(index)
                    && service.media_targets@[index].selection@ == selection_of(
                    lcds[index as int],
                ) && (!assets.contains_key(index) || assets[index].config_key@
                    != keys[index as int]@) ==> exists|k: int|
                    0 <= k < jobs@.len() && (#[trigger] jobs@[k]).index == index
            }),
{
    assert forall|service: &mut ServiceManager, preparation: Preparation| #[trigger]
        call_ensures(
            ServiceManager::prepare_media_assets,
            (service, templates, busy),
            preparation,
        ) implies (preparation matches Preparation::Submit(jobs) ==> {
        let lcds = service.config->0.lcds@;
        let keys = final(service).media_requested_keys@;
        let assets = final(service).media_assets@;
        &&& keys.len() == lcds.len()
        &&& index < lcds.len() && service.media_targets@.contains_key(index)
            && service.media_targets@[index].selection@ == selection_of(lcds[index as int]) && (
        !assets.contains_key(index) || assets[index].config_key@ != keys[index as int]@)
            ==> exists|k: int| 0 <= k < jobs@.len() && (#[trigger] jobs@[k]).index == index
    }) by {
        if let Preparation::Submit(jobs) = preparation {
            let keys = final(service).media_requested_keys@;
            assert(texts(keys).len() == keys.len());
            if index < service.config->0.lcds@.len() {
                let i = index as int;
                let all = indices(service.lcds().len());
                let pick = |index: int| service.job_at(templates@, index);
                assert(texts(keys)[i] == service.keys(templates@)[i]);
                assert(all[i] == i);
                if pick(all[i]) is Some {
                    lemma_picked_has(all, pick, i);
                    let views = service.jobs(templates@);
                    let k = choose|k: int| 0 <= k < views.len() && views[k] == pick(all[i])->0;
                    assert(job_views(jobs@)[k] == jobs@[k]@);
                    assert(jobs@[k].index == index);
                }
            }
        }
    }
}

/// Every setting is reported on, and nothing else: a blocked panel as failed, one that is not
/// connected as awaited, one that has a job as being prepared, and any other as ready.
pub proof fn lemma_submitted_media_is_reported(
    preparing: &Vec<usize>,
    generation: u64,
    index: usize,
)
    ensures
        forall|service: &mut ServiceManager| #[trigger]
            call_ensures(ServiceManager::media_submitted, (service, preparing, generation), ()) ==> {
                let count = match service.config {
                    Some(config) => config.lcds@.len(),
                    None => 0,
                };
                let lcds = service.config->0.lcds@;
                let config = lcds[index as int];
                let status = final(service).media_preparation@[index];
                let blocked = config.serial is Some && names_blocked(
                    service.startup_image_quarantine@,
                    config.serial->0@,
                );
                let connected = service.media_targets@.contains_key(index)
                    && service.media_targets@[index].selection@ == selection_of(config);
                &&& final(service).media_preparation@.contains_key(index) <==> index < count
                &&& index < count ==> {
                    &&& status.startup_recovery_required == blocked
                    &&& status.state is Failed <==> blocked
                    &&& status.state is WaitingForDevice <==> !blocked && !connected
                    &&& status.state is Preparing <==> !blocked && connected && preparing@.contains(
                        index,
                    )
                    &&& status.state is Ready <==> !blocked && connected && !preparing@.contains(
                        index,
                    )
                    &&& status.error is Some <==> blocked
                    &&& status.error is Some ==> status.error->0@
                        == "Playback paused after an interrupted upload. Clear recovery in Installation Health or restart the daemon. Power-cycle the screen if it remains unresponsive."@
                    &&& status.generation == generation
                    &&& status.device_id@ == config.device_id@
                    &&& status.runtime is None
                    &&& status.last_playback_error is None
                }
                &&& final(service).media_assets == service.media_assets
                &&& final(service).targets == service.targets
            },
{
    assert forall|service: &mut ServiceManager| #[trigger]
        call_ensures(
            ServiceManager::media_submitted,
            (service, preparing, generation),
            (),
        ) && index < service.lcds().len() implies final(service).media_preparation@[index]@
        == service.status_at(index, preparing@, generation) && is_blocked(
        service.startup_image_quarantine@,
        service.lcds()[index as int].serial,
    ) == (service.lcds()[index as int].serial is Some && names_blocked(
        service.startup_image_quarantine@,
        service.lcds()[index as int].serial->0@,
    )) by {}
}

/// A retry is due once no job runs, and then media is asked for again. It is, or was already,
/// prepared now unless pixel cleaning runs. Only a retry that was carried out is forgotten.
pub proof fn lemma_retries_wait_for_jobs(busy: bool, poll: &MediaPoll)
    ensures
        forall|service: &mut ServiceManager, due: MediaPoll| #[trigger]
            call_ensures(ServiceManager::begin_media_poll, (service, busy), due) ==> {
                &&& due.retry_ready <==> service.media_retry_pending && !busy
                &&& due.prepare <==> !service.pixel_cleaning && (service.media_reload_pending
                    || service.media_retry_pending && !busy)
                &&& final(service).media_reload_pending <==> service.media_reload_pending
                    || service.media_retry_pending && !busy
                &&& final(service).media_retry_pending == service.media_retry_pending
            },
        forall|service: &mut ServiceManager| #[trigger]
            call_ensures(ServiceManager::media_poll_prepared, (service, poll), ()) ==> {
                &&& final(service).media_retry_pending <==> service.media_retry_pending && !(
                poll.prepare && poll.retry_ready)
                &&& final(service).media_reload_pending == service.media_reload_pending
            },
{
}

proof fn lemma_absorbed_without(
    state: MediaState,
    results: Seq<PreparedMedia>,
    index: usize,
)
    requires
        forall|k: int|
            0 <= k < results.len() ==> (#[trigger] results[k]).index != index || !(
            state.statuses.contains_key(index) && state.statuses[index].generation
                == results[k].generation),
    ensures
        ({
            let after = absorbed_all(state, results);
            &&& after.statuses.contains_key(index) <==> state.statuses.contains_key(index)
            &&& after.statuses[index] == state.statuses[index]
            &&& after.assets.contains_key(index) <==> state.assets.contains_key(index)
            &&& after.assets[index] == state.assets[index]
            &&& after.settings[index] == state.settings[index]
            &&& after.asset_targets[index] == state.asset_targets[index]
        }),
    decreases results.len(),
{
    if results.len() > 0 {
        let next = absorbed(state, results[0]);
        let rest = results.skip(1);
        assert(results[0].index != index || !is_current(state, results[0]));
        assert forall|k: int| 0 <= k < rest.len() implies (#[trigger] rest[k]).index != index || !(
        next.statuses.contains_key(index) && next.statuses[index].generation
            == rest[k].generation) by {
            assert(rest[k] == results[k + 1]);
        }
        lemma_absorbed_without(next, rest, index);
    }
}

proof fn lemma_absorbed_last(
    state: MediaState,
    results: Seq<PreparedMedia>,
    index: usize,
    last: int,
)
    requires
        0 <= last < results.len(),
        results[last].index == index,
        state.statuses.contains_key(index),
        state.statuses[index].generation == results[last].generation,
        forall|k: int|
            last < k < results.len() ==> (#[trigger] results[k]).index != index
                || state.statuses[index].generation != results[k].generation,
    ensures
        ({
            let after = absorbed_all(state, results);
            &&& after.statuses.contains_key(index)
            &&& after.statuses[index].generation == state.statuses[index].generation
            &&& after.statuses[index].device_id == state.statuses[index].device_id
            &&& after.statuses[index].last_playback_error
                == state.statuses[index].last_playback_error
            &&& after.statuses[index].startup_recovery_required
                == state.statuses[index].startup_recovery_required
            &&& match results[last].result {
                Ok(asset) => {
                    &&& after.assets.contains_key(index) && after.assets[index] == asset
                    &&& after.settings[index] == results[last].config
                    &&& after.asset_targets[index] == results[last].target
                    &&& after.statuses[index].state is Ready
                    &&& after.statuses[index].error is None
                },
                Err(error) => {
                    &&& after.statuses[index].state is Failed
                    &&& after.statuses[index].error == Some(error)
                },
            }
        }),
    decreases results.len(),
{
    let next = absorbed(state, results[0]);
    let rest = results.skip(1);
    assert forall|k: int| 0 <= k < rest.len() implies rest[k] == results[k + 1] by {}
    if last > 0 {
        assert(rest[last - 1] == results[last]);
        assert forall|k: int| last - 1 < k < rest.len() implies (#[trigger] rest[k]).index != index
            || next.statuses[index].generation != rest[k].generation by {
            assert(rest[k] == results[k + 1]);
        }
        lemma_absorbed_last(next, rest, index, last - 1);
    } else {
        assert forall|k: int| 0 <= k < rest.len() implies (#[trigger] rest[k]).index != index || !(
        next.statuses.contains_key(index) && next.statuses[index].generation
            == rest[k].generation) by {
            assert(rest[k] == results[k + 1]);
        }
        lemma_absorbed_without(next, rest, index);
    }
}

/// Of the results for a panel, the last one that belongs to its latest request decides: a success
/// makes its media the prepared one, a failure is reported. Results of other panels and of earlier
/// requests do nothing.
pub proof fn lemma_the_last_current_result_counts(
    results: Vec<PreparedMedia>,
    index: usize,
    last: int,
)
    ensures
        forall|service: &mut ServiceManager| #[trigger]
            call_ensures(ServiceManager::apply_prepared_results, (service, results), ()) ==> {
                let status = service.media_preparation@[index];
                let after = final(service).media_preparation@[index];
                let known = service.media_preparation@.contains_key(index);
                let none = forall|k: int|
                    0 <= k < results@.len() ==> (#[trigger] results@[k]).index != index || !known
                        || status.generation != results@[k].generation;
                let found = known && 0 <= last < results@.len() && results@[last].index == index
                    && status.generation == results@[last].generation && forall|k: int|
                    last < k < results@.len() ==> (#[trigger] results@[k]).index != index
                        || status.generation != results@[k].generation;
                &&& none ==> {
                    &&& final(service).media_preparation@.contains_key(index) <==> known
                    &&& after == status
                    &&& final(service).media_assets@.contains_key(index)
                        <==> service.media_assets@.contains_key(index)
                    &&& final(service).media_assets@[index] == service.media_assets@[index]
                }
                &&& found ==> {
                    &&& final(service).media_preparation@.contains_key(index)
                    &&& after.generation == status.generation
                    &&& after.last_playback_error == status.last_playback_error
                    &&& match results@[last].result {
                        Ok(asset) => {
                            &&& final(service).media_assets@.contains_key(index)
                            &&& final(service).media_assets@[index] == asset
                            &&& final(service).media_settings@[index] == results@[last].config
                            &&& final(service).media_asset_targets@[index] == results@[last].target
                            &&& after.state is Ready && after.error is None
                        },
                        Err(error) => after.state is Failed && after.error == Some(error),
                    }
                }
                &&& final(service).targets == service.targets
            },
{
    assert forall|service: &mut ServiceManager| #[trigger]
        call_ensures(ServiceManager::apply_prepared_results, (service, results), ()) implies {
        let status = service.media_preparation@[index];
        let after = final(service).media_preparation@[index];
        let known = service.media_preparation@.contains_key(index);
        let none = forall|k: int|
            0 <= k < results@.len() ==> (#[trigger] results@[k]).index != index || !known
                || status.generation != results@[k].generation;
        let found = known && 0 <= last < results@.len() && results@[last].index == index
            && status.generation == results@[last].generation && forall|k: int|
            last < k < results@.len() ==> (#[trigger] results@[k]).index != index
                || status.generation != results@[k].generation;
        &&& none ==> {
            &&& final(service).media_preparation@.contains_key(index) <==> known
            &&& after == status
            &&& final(service).media_assets@.contains_key(index)
                <==> service.media_assets@.contains_key(index)
            &&& final(service).media_assets@[index] == service.media_assets@[index]
        }
        &&& found ==> {
            &&& final(service).media_preparation@.contains_key(index)
            &&& after.generation == status.generation
            &&& after.last_playback_error == status.last_playback_error
            &&& match results@[last].result {
                Ok(asset) => {
                    &&& final(service).media_assets@.contains_key(index)
                    &&& final(service).media_assets@[index] == asset
                    &&& final(service).media_settings@[index] == results@[last].config
                    &&& final(service).media_asset_targets@[index] == results@[last].target
                    &&& after.state is Ready && after.error is None
                },
                Err(error) => after.state is Failed && after.error == Some(error),
            }
        }
    } by {
        let state = service.media_state();
        let goal = absorbed_all(state, results@);
        assert(final(service).media_state() == goal);
        assert(final(service).media_state().statuses == final(service).media_preparation@);
        let known = state.statuses.contains_key(index);
        let generation = state.statuses[index].generation;
        if forall|k: int|
            0 <= k < results@.len() ==> (#[trigger] results@[k]).index != index || !known
                || generation != results@[k].generation {
            lemma_absorbed_without(state, results@, index);
        }
        if known && 0 <= last < results@.len() && results@[last].index == index && generation
            == results@[last].generation && (forall|k: int|
            last < k < results@.len() ==> (#[trigger] results@[k]).index != index || generation
                != results@[k].generation) {
            lemma_absorbed_last(state, results@, index, last);
        }
    }
}

/// When no job runs any more, what is still being prepared has failed; everything else, and all of
/// it while a job runs, stays as it is.
pub proof fn lemma_stalled_media_fails(busy: bool, index: usize)
    ensures
        forall|service: &mut ServiceManager| #[trigger]
            call_ensures(ServiceManager::fail_stalled_media, (service, busy), ())
                && service.media_preparation@.contains_key(index) ==> {
                let before = service.media_preparation@[index]@;
                let after = final(service).media_preparation@[index]@;
                let fails = !busy && before.state is Preparing;
                &&& final(service).media_preparation@.contains_key(index)
                &&& fails ==> {
                    &&& after.state is Failed
                    &&& after.error == Some(
                        "Media preparation stopped before producing a result. Save again to retry."@,
                    )
                    &&& after.generation == before.generation
                    &&& after.device_id == before.device_id
                    &&& after.last_playback_error == before.last_playback_error
                    &&& after.startup_recovery_required == before.startup_recovery_required
                }
                &&& !fails ==> after == before
            },
{
}

/// A playback error is reported for the panel whose media was asked for under the key, in its
/// first 2048 characters, and for no other panel.
pub proof fn lemma_playback_errors_are_reported(index: usize, key: &str, error: &str, other: usize)
    ensures
        forall|service: &mut ServiceManager| #[trigger]
            call_ensures(ServiceManager::record_playback_failure, (service, index, key, error), ())
                && service.media_preparation@.contains_key(other) ==> {
                let before = service.media_preparation@[other]@;
                let after = final(service).media_preparation@[other]@;
                let keys = service.media_requested_keys@;
                let hit = other == index && index < keys.len() && keys[index as int]@ == key@;
                &&& final(service).media_preparation@.contains_key(other)
                &&& !hit ==> after == before
                &&& hit ==> {
                    let kept = after.last_playback_error->0;
                    &&& after.last_playback_error is Some
                    &&& error@.len() <= 2048 ==> kept == error@
                    &&& error@.len() > 2048 ==> kept.len() == 2048 && forall|k: int|
                        0 <= k < 2048 ==> #[trigger] kept[k] == error@[k]
                    &&& after.state == before.state
                    &&& after.error == before.error
                    &&& after.generation == before.generation
                    &&& after.device_id == before.device_id
                    &&& after.runtime == before.runtime
                    &&& after.startup_recovery_required == before.startup_recovery_required
                }
            },
{
}

/// A panel is blocked exactly when it has a serial that names a blocked identity.
pub proof fn lemma_blocked_panels_are_recognised(
    quarantine: &IdSet,
    serial: &Option<String>,
    blocked: bool,
    id: Seq<char>,
)
    requires
        call_ensures(startup_blocked, (quarantine, serial), blocked),
    ensures
        serial is None ==> !blocked,
        serial is Some && quarantine@.contains(id) && ids_match(serial->0@, id) ==> blocked,
        blocked ==> exists|id: Seq<char>|
            quarantine@.contains(id) && #[trigger] ids_match(serial->0@, id),
{
}

/// The panels of a list of jobs, job by job.
pub proof fn lemma_jobs_name_their_panels(jobs: &Vec<MediaJob>, indices: Vec<usize>, k: int)
    requires
        call_ensures(job_indices, (jobs,), indices),
        0 <= k < jobs@.len(),
    ensures
        indices@.len() == jobs@.len(),
        indices@[k] == jobs@[k].index,
{
}

/// A target that is taken out is the one at the index, and the others stay.
pub proof fn lemma_one_target_is_taken(index: usize, other: usize)
    ensures
        forall|service: &mut ServiceManager, target: Option<crate::service::ActiveTarget>|
            #[trigger]
            call_ensures(ServiceManager::take_target, (service, index), target) ==> {
                &&& target is Some <==> service.targets@.contains_key(index)
                &&& target is Some ==> target->0 == service.targets@[index]
                &&& !final(service).targets@.contains_key(index)
                &&& other != index ==> {
                    &&& final(service).targets@.contains_key(other)
                        <==> service.targets@.contains_key(other)
                    &&& final(service).targets@[other] == service.targets@[other]
                }
            },
{
}

/// What is asked for is known, setting by setting, by the key of its media and, behind the word
/// `target`, by the connected panel that it is for, as that is written.
pub proof fn lemma_requests_name_media_and_panel(
    service: ServiceManager,
    templates: &Vec<LcdTemplate>,
    index: usize,
    default_fps: &str,
    media: String,
    panel: String,
)
    requires
        service.config is Some,
        index < service.config->0.lcds@.len(),
        default_fps@ == service.config->0.default_fps@,
        call_ensures(
            asset_cache_key,
            (
                &service.config->0.lcds@[index as int],
                templates,
                default_fps,
                service.config->0.hardware_video,
            ),
            media,
        ),
        ({
            let target = service.media_targets@[index];
            let connected = service.media_targets@.contains_key(index) && target.selection@
                == selection_of(service.config->0.lcds@[index as int]);
            &&& connected ==> call_ensures(written_target, (Some(&target),), panel)
            &&& !connected ==> call_ensures(written_target, (None::<&MediaTarget>,), panel)
        }),
    ensures
        service.keys(templates@).len() == service.config->0.lcds@.len(),
        service.keys(templates@)[index as int] == media@ + "|target:"@ + panel@,
{
}

/// A blocked identity that is found is blocked and names the panel; where none is found, none
/// names it.
pub proof fn lemma_blocked_identities_are_found(
    quarantine: &IdSet,
    serial: &str,
    found: Option<&String>,
    id: Seq<char>,
)
    requires
        call_ensures(find_matching, (quarantine, serial), found),
    ensures
        found is Some ==> quarantine@.contains(found->0@) && ids_match(serial@, found->0@),
        quarantine@.contains(id) && ids_match(serial@, id) ==> found is Some,
{
}

} // verus!
