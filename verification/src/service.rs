//! The state of the LCD service, as plain values.
use vstd::prelude::*;
use vstd::string::*;

use crate::group_watch::LcdGroupRecovery;
use crate::registry::Registry;
use crate::table::{IdSet, Table};

verus! {

/// What kind of media a panel shows.
#[derive(Clone, Copy, Debug, PartialEq, Eq, Structural)]
pub enum MediaType {
    Color,
    Image,
    Video,
    Custom,
    Other,
}

/// The settings of one panel.
pub struct LcdConfig {
    /// The panel, by identity.
    pub serial: Option<String>,
    /// The panel, by its position among those that are connected.
    pub index: Option<usize>,
    /// The name under which the panel is reported.
    pub device_id: String,
    /// Everything that decides what the prepared media looks like.
    pub identity: String,
    pub media_type: MediaType,
    pub template_id: Option<String>,
    pub rgb: Option<[u8; 3]>,
    pub custom_h264: bool,
}

/// A text once more.
pub fn copy_text(text: &Option<String>) -> (copy: Option<String>)
    ensures
        copy == *text,
{
    match text {
        Some(text) => Some(text.clone()),
        None => None,
    }
}

impl LcdConfig {
    /// The same settings once more.
    pub fn copy(&self) -> (copy: Self)
        ensures
            copy == *self,
    {
        LcdConfig {
            serial: copy_text(&self.serial),
            index: self.index,
            device_id: self.device_id.clone(),
            identity: self.identity.clone(),
            media_type: self.media_type,
            template_id: copy_text(&self.template_id),
            rgb: self.rgb,
            custom_h264: self.custom_h264,
        }
    }
}

/// The settings of the service, as far as panels go.
pub struct AppConfig {
    pub lcds: Vec<LcdConfig>,
    /// The default frame rate as it is written in keys.
    pub default_fps: String,
    pub hardware_video: bool,
}

impl AppConfig {
    /// The same settings once more.
    pub fn copy(&self) -> (copy: Self)
        ensures
            copy.lcds@ == self.lcds@,
            copy.default_fps == self.default_fps,
            copy.hardware_video == self.hardware_video,
    {
        let mut lcds: Vec<LcdConfig> = Vec::new();
        let mut i: usize = 0;
        while i < self.lcds.len()
            invariant
                i <= self.lcds@.len(),
                lcds@ == self.lcds@.take(i as int),
            decreases self.lcds@.len() - i,
        {
            lcds.push(self.lcds[i].copy());
            assert(self.lcds@.take(i + 1) =~= self.lcds@.take(i as int).push(self.lcds@[i as int]));
            i += 1;
        }
        assert(lcds@ =~= self.lcds@);
        AppConfig {
            lcds,
            default_fps: self.default_fps.clone(),
            hardware_video: self.hardware_video,
        }
    }
}

/// A screen: its dimensions, and which of the known models it is.
#[derive(Clone, Copy, Debug, PartialEq, Eq, Structural)]
pub struct ScreenInfo {
    pub width: u32,
    pub height: u32,
    pub model: u32,
}

/// The connected panel that a configured one stands for.
pub struct MediaTarget {
    pub selection: String,
    pub device_id: String,
    pub screen: ScreenInfo,
}

/// What a media target stands for.
pub struct MediaTargetView {
    pub selection: Seq<char>,
    pub device_id: Seq<char>,
    pub screen: ScreenInfo,
}

impl View for MediaTarget {
    type V = MediaTargetView;

    open spec fn view(&self) -> MediaTargetView {
        MediaTargetView {
            selection: self.selection@,
            device_id: self.device_id@,
            screen: self.screen,
        }
    }
}

impl MediaTarget {
    /// Whether two targets are the same panel for the same selection.
    pub fn same(&self, other: &Self) -> (same: bool)
        ensures
            same == (self@ == other@),
    {
        self.selection == other.selection && self.device_id == other.device_id && self.screen
            == other.screen
    }

    /// The same target once more.
    pub fn copy(&self) -> (copy: Self)
        ensures
            copy == *self,
    {
        MediaTarget {
            selection: self.selection.clone(),
            device_id: self.device_id.clone(),
            screen: self.screen,
        }
    }
}

/// Prepared media: the key of what it was prepared from, and where it is kept.
pub struct MediaAsset {
    pub config_key: String,
    pub handle: u64,
}

impl MediaAsset {
    /// The same media once more.
    pub fn copy(&self) -> (copy: Self)
        ensures
            copy == *self,
    {
        MediaAsset { config_key: self.config_key.clone(), handle: self.handle }
    }
}

/// A panel that is being driven.
pub struct ActiveTarget {
    pub index: usize,
    pub device_identity: String,
    /// The key of the media that it shows.
    pub key: String,
    pub screen: ScreenInfo,
    /// Which open device it is.
    pub handle: u64,
}

impl ActiveTarget {
    /// The target shows this media on this device.
    pub open spec fn shows(self, device_id: Seq<char>, key: Seq<char>) -> bool {
        self.device_identity@ == device_id && self.key@ == key
    }

    /// Whether the target shows this media on this device.
    pub fn matches(&self, device_id: &String, key: &String) -> (same: bool)
        ensures
            same == self.shows(device_id@, key@),
    {
        self.device_identity == *device_id && self.key == *key
    }
}

/// How far the media of a panel is.
#[derive(Clone, Copy, Debug, PartialEq, Eq, Structural)]
pub enum MediaPreparationState {
    WaitingForDevice,
    Preparing,
    Ready,
    Failed,
}

/// What is reported of the media of a panel.
pub struct MediaPreparationStatus {
    pub startup_recovery_required: bool,
    /// Which running source reports for it.
    pub runtime: Option<u64>,
    pub last_playback_error: Option<String>,
    pub generation: u64,
    pub device_id: String,
    pub state: MediaPreparationState,
    pub error: Option<String>,
}

/// What a media status stands for.
pub struct StatusView {
    pub startup_recovery_required: bool,
    pub runtime: Option<u64>,
    pub last_playback_error: Option<Seq<char>>,
    pub generation: u64,
    pub device_id: Seq<char>,
    pub state: MediaPreparationState,
    pub error: Option<Seq<char>>,
}

/// What an optional text says.
pub open spec fn text_of(text: Option<String>) -> Option<Seq<char>> {
    match text {
        Some(text) => Some(text@),
        None => None,
    }
}

impl View for MediaPreparationStatus {
    type V = StatusView;

    open spec fn view(&self) -> StatusView {
        StatusView {
            startup_recovery_required: self.startup_recovery_required,
            runtime: self.runtime,
            last_playback_error: text_of(self.last_playback_error),
            generation: self.generation,
            device_id: self.device_id@,
            state: self.state,
            error: text_of(self.error),
        }
    }
}

/// How far a startup image upload is.
pub enum StartupImageState {
    Queued,
    Transferring,
    Transferred { response_received: bool },
    Cancelled,
    Failed { message: String },
}

/// What an upload state stands for.
pub enum StartupStateView {
    Queued,
    Transferring,
    Transferred { response_received: bool },
    Cancelled,
    Failed { message: Seq<char> },
}

impl View for StartupImageState {
    type V = StartupStateView;

    open spec fn view(&self) -> StartupStateView {
        match self {
            StartupImageState::Queued => StartupStateView::Queued,
            StartupImageState::Transferring => StartupStateView::Transferring,
            StartupImageState::Transferred { response_received } => StartupStateView::Transferred {
                response_received: *response_received,
            },
            StartupImageState::Cancelled => StartupStateView::Cancelled,
            StartupImageState::Failed { message } => StartupStateView::Failed { message: message@ },
        }
    }
}

/// The upload that clients see.
pub struct StartupImageStatus {
    pub id: u64,
    pub status: StartupImageState,
}

/// The upload that is running.
pub struct StartupImageJob {
    pub id: u64,
    pub identity: String,
}

/// The LCD service.
pub struct ServiceManager {
    pub config: Option<AppConfig>,
    /// The settings that clients see.
    pub ipc_config: Option<AppConfig>,
    pub registry: Registry,
    pub targets: Table<usize, ActiveTarget>,
    pub lcd_group_recovery: LcdGroupRecovery,
    /// The connected panels of the configured ones.
    pub media_targets: Table<usize, MediaTarget>,
    pub media_assets: Table<usize, MediaAsset>,
    /// The settings that the prepared media was prepared from.
    pub media_settings: Table<usize, LcdConfig>,
    /// The panels that the prepared media was prepared for.
    pub media_asset_targets: Table<usize, MediaTarget>,
    pub media_requested_keys: Vec<String>,
    pub media_preparation: Table<usize, MediaPreparationStatus>,
    pub media_reload_pending: bool,
    pub media_retry_pending: bool,
    /// Pixel cleaning is running or being prepared.
    pub pixel_cleaning: bool,
    /// A panel is being switched to another mode.
    pub display_switching: bool,
    /// Until when panels that were switched to another mode are left alone.
    pub mode_switch_suppression: Table<String, u64>,
    pub serial_rewrite_backoff: Option<u64>,
    pub startup_image_job: Option<StartupImageJob>,
    pub startup_image_quarantine: IdSet,
    pub startup_absent_since: Table<String, u64>,
    pub startup_image: Option<StartupImageStatus>,
    /// Clients can cancel the upload.
    pub startup_image_cancel: bool,
    /// New settings arrived during an upload.
    pub startup_config_pending: bool,
}

impl ServiceManager {
    /// A service that knows of nothing yet. An earlier interrupted upload does not block it.
    pub fn new() -> (service: Self)
        ensures
            service.config is None,
            service.ipc_config is None,
            service.registry.cached_usb_devices@.len() == 0,
            service.registry.fan_device_info@.len() == 0,
            service.registry.v2_hid_entries@.len() == 0,
            service.registry.usb_locations@.dom() == Set::<Seq<char>>::empty(),
            service.registry.fan_devices@.dom() == Set::<Seq<char>>::empty(),
            service.targets@ == Map::<usize, ActiveTarget>::empty(),
            !service.lcd_group_recovery.is_busy(),
            service.lcd_group_recovery.states@.dom() == Set::<Seq<char>>::empty(),
            service.media_targets@ == Map::<usize, MediaTarget>::empty(),
            service.media_assets@ == Map::<usize, MediaAsset>::empty(),
            service.media_settings@ == Map::<usize, LcdConfig>::empty(),
            service.media_asset_targets@ == Map::<usize, MediaTarget>::empty(),
            service.media_requested_keys@.len() == 0,
            service.media_preparation@ == Map::<usize, MediaPreparationStatus>::empty(),
            !service.media_reload_pending,
            !service.media_retry_pending,
            !service.pixel_cleaning,
            !service.display_switching,
            service.mode_switch_suppression@ == Map::<Seq<char>, u64>::empty(),
            service.serial_rewrite_backoff is None,
            service.startup_image_job is None,
            service.startup_image_quarantine@ == Set::<Seq<char>>::empty(),
            service.startup_absent_since@ == Map::<Seq<char>, u64>::empty(),
            service.startup_image is None,
            !service.startup_image_cancel,
            !service.startup_config_pending,
    {
        ServiceManager {
            config: None,
            ipc_config: None,
            registry: Registry {
                cached_usb_devices: Vec::new(),
                usb_locations: Table::new(),
                fan_devices: Table::new(),
                fan_device_info: Vec::new(),
                v2_hid_entries: Vec::new(),
            },
            targets: Table::new(),
            lcd_group_recovery: LcdGroupRecovery::new(),
            media_targets: Table::new(),
            media_assets: Table::new(),
            media_settings: Table::new(),
            media_asset_targets: Table::new(),
            media_requested_keys: Vec::new(),
            media_preparation: Table::new(),
            media_reload_pending: false,
            media_retry_pending: false,
            pixel_cleaning: false,
            display_switching: false,
            mode_switch_suppression: Table::new(),
            serial_rewrite_backoff: None,
            startup_image_job: None,
            startup_image_quarantine: IdSet::new(),
            startup_absent_since: Table::new(),
            startup_image: None,
            startup_image_cancel: false,
            startup_config_pending: false,
        }
    }

    /// The settings of the panels.
    pub open spec fn lcds(self) -> Seq<LcdConfig> {
        match self.config {
            Some(config) => config.lcds@,
            None => Seq::empty(),
        }
    }
}

/// Two media targets are the same exactly when they agree in what they were selected by, in the
/// device, and in the screen. An active target matches by its device and its media.
pub proof fn lemma_targets_are_compared_in_full(
    first: MediaTarget,
    second: &MediaTarget,
    same: bool,
    active: ActiveTarget,
    device_id: &String,
    key: &String,
    matching: bool,
)
    requires
        call_ensures(MediaTarget::same, (&first, second), same),
        call_ensures(ActiveTarget::matches, (&active, device_id, key), matching),
    ensures
        same <==> first.selection@ == second.selection@ && first.device_id@ == second.device_id@
            && first.screen.width == second.screen.width && first.screen.height
            == second.screen.height && first.screen.model == second.screen.model,
        matching <==> active.device_identity@ == device_id@ && active.key@ == key@,
{
}

} // verus!
