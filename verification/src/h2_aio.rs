//! The control channel of the HydroShift II: pump, fans and telemetry.
//!
//! It shares its USB handle with the LCD. While the LCD streams, nothing is written from here.
use vstd::prelude::*;
use vstd::string::*;

use crate::bytes::{be16, read_be16};
use crate::group_recovery::{elapsed, time_since};
use crate::h2_pwm::{duty_to_pwm, pwm_for_duty};
use crate::lcd_link::{LcdLink, LinkError};

verus! {

/// How long a telemetry reading is used before a new one is taken, in nanoseconds.
pub const PARAMS_CACHE_TTL: u64 = 300_000_000;

/// How long telemetry waits after a failed exchange, in nanoseconds.
pub const PARAMS_FAILURE_BACKOFF: u64 = 2_000_000_000;

/// How often held-back telemetry is logged, in nanoseconds.
pub const STALE_PARAMS_LOG_INTERVAL: u64 = 10_000_000_000;

/// How old a reading may be to count as live, in nanoseconds.
pub const LIVE_READING: u64 = 5_000_000_000;

/// How often fans and pump are told their duties again, in nanoseconds.
pub const SYNC_INTERVAL: u64 = 3_600_000_000;

/// By how much a duty must change to be sent before that.
pub const SYNC_DEADBAND: u8 = 8;

/// How many bytes a telemetry reply has at least.
pub const PARAMS_REPLY_MIN: usize = 32;

/// How often a telemetry exchange is tried.
pub const PARAMS_ATTEMPTS: usize = 2;

/// Telemetry of the cooler. The time is in nanoseconds.
#[derive(Clone, Copy, Debug)]
pub struct H2Params {
    pub observed_at: u64,
    pub cpu_temp: u8,
    pub cpu_load: u8,
    pub gpu_temp: u8,
    pub gpu_load: u8,
    pub pump_rpm: u16,
    pub fan_rpm: [u16; 3],
    pub coolant_temp: u8,
    pub mac: Option<[u8; 6]>,
}

/// The wireless address in a telemetry reply, unless it is all zeros.
pub open spec fn linked_mac(reply: Seq<u8>) -> Option<Seq<u8>> {
    if forall|i: int| 22 <= i < 28 ==> #[trigger] reply[i] == 0 {
        None
    } else {
        Some(reply.subrange(22, 28))
    }
}

/// What an optional address holds.
pub open spec fn mac_bytes(mac: Option<[u8; 6]>) -> Option<Seq<u8>> {
    match mac {
        Some(mac) => Some(mac@),
        None => None,
    }
}

/// The telemetry is what the reply says.
pub open spec fn params_in(params: H2Params, reply: Seq<u8>, now: u64) -> bool {
    &&& params.observed_at == now
    &&& params.cpu_temp == 0 && params.cpu_load == 0 && params.gpu_temp == 0 && params.gpu_load == 0
    &&& params.coolant_temp == reply[13]
    &&& params.fan_rpm@ == seq![
        be16(reply[14], reply[15]) as u16,
        be16(reply[16], reply[17]) as u16,
        be16(reply[18], reply[19]) as u16,
    ]
    &&& params.pump_rpm == be16(reply[20], reply[21])
    &&& mac_bytes(params.mac) == linked_mac(reply)
}

/// Reads a telemetry reply.
pub fn parse_h2_params(reply: &[u8; 512], now: u64) -> (params: H2Params)
    ensures
        params_in(params, reply@, now),
{
    let all_zero = reply[22] == 0 && reply[23] == 0 && reply[24] == 0 && reply[25] == 0 && reply[26]
        == 0 && reply[27] == 0;
    let mac: Option<[u8; 6]> = if all_zero {
        None
    } else {
        let mac = [reply[22], reply[23], reply[24], reply[25], reply[26], reply[27]];
        assert(mac@ =~= reply@.subrange(22, 28));
        Some(mac)
    };
    let fan_rpm = [
        read_be16(reply[14], reply[15]),
        read_be16(reply[16], reply[17]),
        read_be16(reply[18], reply[19]),
    ];
    assert(fan_rpm@ =~= seq![
        be16(reply@[14], reply@[15]) as u16,
        be16(reply@[16], reply@[17]) as u16,
        be16(reply@[18], reply@[19]) as u16,
    ]);
    proof {
        if !all_zero {
            assert(!(forall|i: int| 22 <= i < 28 ==> #[trigger] reply@[i] == 0)) by {
                assert(reply@[22] != 0 || reply@[23] != 0 || reply@[24] != 0 || reply@[25] != 0
                    || reply@[26] != 0 || reply@[27] != 0);
            }
        }
    }
    H2Params {
        observed_at: now,
        cpu_temp: 0,
        cpu_load: 0,
        gpu_temp: 0,
        gpu_load: 0,
        pump_rpm: read_be16(reply[20], reply[21]),
        fan_rpm,
        coolant_temp: reply[13],
        mac,
    }
}

/// A duty changed enough to be sent at once: by the deadband, or to full speed.
pub open spec fn duty_changed(before: u8, after: u8) -> bool {
    ||| before - after >= SYNC_DEADBAND
    ||| after - before >= SYNC_DEADBAND
    ||| after == 255 && before != 255
}

/// The duties must be sent now.
pub open spec fn sync_due(
    since: u64,
    previous_pump: u8,
    previous_fans: Seq<u8>,
    pump: u8,
    fans: Seq<u8>,
) -> bool {
    ||| since >= SYNC_INTERVAL
    ||| duty_changed(previous_pump, pump)
    ||| exists|i: int|
        0 <= i < 3 && duty_changed(#[trigger] previous_fans[i], #[trigger] fans[i])
}

fn changed(before: u8, after: u8) -> (changed: bool)
    ensures
        changed == duty_changed(before, after),
{
    if before >= after {
        before - after >= SYNC_DEADBAND
    } else {
        after - before >= SYNC_DEADBAND || after == 255
    }
}

/// Whether the duties must be sent now, `since` nanoseconds after the last ones.
pub fn pwm_refresh_due(
    since: u64,
    previous_pump: u8,
    previous_fans: [u8; 3],
    pump: u8,
    fans: [u8; 3],
) -> (due: bool)
    ensures
        due == sync_due(since, previous_pump, previous_fans@, pump, fans@),
{
    let first = changed(previous_fans[0], fans[0]);
    let second = changed(previous_fans[1], fans[1]);
    let third = changed(previous_fans[2], fans[2]);
    assert(first == duty_changed(previous_fans@[0], fans@[0]));
    assert(second == duty_changed(previous_fans@[1], fans@[1]));
    assert(third == duty_changed(previous_fans@[2], fans@[2]));
    since >= SYNC_INTERVAL || changed(previous_pump, pump) || first || second || third
}

/// A rise to full speed is never held back, and duties that did not change are not repeated
/// before their time.
pub proof fn lemma_full_speed_goes_through(
    since: u64,
    previous_pump: u8,
    previous_fans: Seq<u8>,
    pump: u8,
    fans: Seq<u8>,
)
    requires
        previous_fans.len() == 3,
        fans.len() == 3,
    ensures
        pump == 255 && previous_pump != 255 ==> sync_due(
            since,
            previous_pump,
            previous_fans,
            pump,
            fans,
        ),
        forall|i: int|
            0 <= i < 3 && #[trigger] fans[i] == 255 && previous_fans[i] != 255 ==> sync_due(
                since,
                previous_pump,
                previous_fans,
                pump,
                fans,
            ),
        since < SYNC_INTERVAL && previous_pump == pump && previous_fans == fans ==> !sync_due(
            since,
            previous_pump,
            previous_fans,
            pump,
            fans,
        ),
{
    assert forall|i: int|
        0 <= i < 3 && #[trigger] fans[i] == 255 && previous_fans[i] != 255 implies sync_due(
        since,
        previous_pump,
        previous_fans,
        pump,
        fans,
    ) by {
        assert(duty_changed(previous_fans[i], fans[i]));
    }
}

/// The duty of a fan: the selected one, if one was selected.
pub open spec fn selected_duty(previous: u8, duties: Seq<Option<u8>>, i: int) -> u8 {
    if i < duties.len() && duties[i] is Some {
        duties[i]->0
    } else {
        previous
    }
}

/// The duties of the three fans: the selected ones, and the previous ones of the others. What is
/// selected beyond the fans is ignored.
pub fn selected_duties(previous: [u8; 3], duties: &[Option<u8>]) -> (selected: [u8; 3])
    ensures
        forall|i: int|
            0 <= i < 3 ==> #[trigger] selected@[i] == selected_duty(previous@[i], duties@, i),
{
    let mut selected = previous;
    let mut i: usize = 0;
    while i < 3 && i < duties.len()
        invariant
            i <= 3,
            i <= duties@.len(),
            forall|j: int|
                0 <= j < i ==> #[trigger] selected@[j] == selected_duty(previous@[j], duties@, j),
            forall|j: int| i <= j < 3 ==> #[trigger] selected@[j] == previous@[j],
        decreases 3 - i,
    {
        if let Some(duty) = duties[i] {
            selected[i] = duty;
        }
        i += 1;
    }
    selected
}

/// Why there is no telemetry.
#[derive(Clone, Copy, Debug, PartialEq, Eq, Structural)]
pub enum ParamsError {
    StorageInterrupted,
    /// The panel has not recovered from a ring upload.
    RecoveryPending,
    /// The LCD streams, and there is no earlier reading.
    Withheld,
    /// An exchange failed a moment ago.
    BackingOff,
    /// A stream began during the exchange, and there is no earlier reading.
    StreamBegan,
    /// The link is in use.
    Busy,
    /// The reply has only this many bytes.
    ShortReply(usize),
    /// The exchange failed.
    Exchange,
}

/// Where telemetry comes from.
#[derive(Clone, Copy, Debug)]
pub enum ParamsSource {
    /// An earlier reading; whether it is old and that is to be logged.
    Cached { params: H2Params, log: bool },
    /// The cooler must be asked.
    Exchange,
}

/// What came of asking the cooler.
#[derive(Clone, Copy, Debug, PartialEq, Eq, Structural)]
pub enum ExchangeEvent {
    Busy,
    StorageInterrupted,
    StreamBegan,
    /// A reply of this many bytes.
    Reply(usize),
    Failed,
}

/// What follows.
#[derive(Clone, Copy, Debug)]
pub enum ParamsProgress {
    /// Ask again.
    Retry,
    /// This is the telemetry; whether it is an earlier reading and that is to be logged.
    Reading { params: H2Params, log: bool },
    Fail(ParamsError),
}

/// Duties to send: the pump's signal and the fans' duties.
#[derive(Clone, Copy, Debug)]
pub struct SyncCommand {
    pub pump_pwm: u16,
    pub pump_duty: u8,
    pub fans: [u8; 3],
}

/// The last duties that were sent, and when.
#[derive(Clone, Copy, Debug)]
pub struct LastSync {
    pub at: u64,
    pub pump: u8,
    pub fans: [u8; 3],
}

/// The controller of a HydroShift II. Times are in nanoseconds.
pub struct H2AioController {
    pub last_fan_duties: [u8; 3],
    pub last_pump_duty: u8,
    pub is_square: bool,
    /// Fans, pump and ring are driven over the radio.
    pub is_wireless: bool,
    pub mac: Option<[u8; 6]>,
    /// The last reading.
    pub params_cache: Option<H2Params>,
    pub params_failed_at: Option<u64>,
    pub last_sync: Option<LastSync>,
    /// When held-back telemetry was last logged.
    pub stale_params_logged_at: Option<u64>,
}

impl H2AioController {
    /// The controller of the product `pid`.
    pub fn new(pid: u16) -> (controller: Self)
        ensures
            controller.last_fan_duties@ == seq![50u8, 50u8, 50u8],
            controller.last_pump_duty == 128,
            controller.is_square == (pid == 0xA034),
            !controller.is_wireless,
            controller.mac is None,
            controller.params_cache is None,
            controller.params_failed_at is None,
            controller.last_sync is None,
            controller.stale_params_logged_at is None,
    {
        let last_fan_duties = [50u8, 50u8, 50u8];
        assert(last_fan_duties@ =~= seq![50u8, 50u8, 50u8]);
        H2AioController {
            last_fan_duties,
            last_pump_duty: 128,
            is_square: pid == 0xA034,
            is_wireless: false,
            mac: None,
            params_cache: None,
            params_failed_at: None,
            last_sync: None,
            stale_params_logged_at: None,
        }
    }

    /// Notes whether the cooler is driven over the radio.
    pub fn set_wireless_mode(&mut self, enabled: bool)
        ensures
            *final(self) == (H2AioController { is_wireless: enabled, ..*old(self) }),
    {
        self.is_wireless = enabled;
    }

    /// Whether the cooler is driven over the radio.
    pub fn is_wireless_mode(&self) -> (wireless: bool)
        ensures
            wireless == self.is_wireless,
    {
        self.is_wireless
    }

    /// The wireless address that the cooler reported.
    pub fn mac(&self) -> (mac: Option<[u8; 6]>)
        ensures
            mac == self.mac,
    {
        self.mac
    }

    /// Held-back telemetry is logged again.
    pub open spec fn logs_stale(self, now: u64) -> bool {
        self.stale_params_logged_at matches Some(at) ==> time_since(now, at)
            >= STALE_PARAMS_LOG_INTERVAL
    }

    fn note_stale_params(&mut self, now: u64) -> (log: bool)
        ensures
            log == old(self).logs_stale(now),
            *final(self) == if log {
                H2AioController { stale_params_logged_at: Some(now), ..*old(self) }
            } else {
                *old(self)
            },
    {
        let log = match self.stale_params_logged_at {
            Some(at) => elapsed(now, at) >= STALE_PARAMS_LOG_INTERVAL,
            None => true,
        };
        if log {
            self.stale_params_logged_at = Some(now);
        }
        log
    }

    /// There is a reading that is still fresh.
    pub open spec fn has_fresh_params(self, now: u64) -> bool {
        self.params_cache matches Some(params) && time_since(now, params.observed_at)
            < PARAMS_CACHE_TTL
    }

    /// Where telemetry comes from now. A fresh reading is used again. While the LCD streams the
    /// cooler is not asked, and the last reading is used however old it is.
    pub fn get_h2_params(&mut self, link: &LcdLink, now: u64) -> (source: Result<
        ParamsSource,
        ParamsError,
    >)
        ensures
            if link.storage_interrupted {
                &&& source == Err::<ParamsSource, ParamsError>(ParamsError::StorageInterrupted)
                &&& *final(self) == *old(self)
            } else if link.recovering() {
                &&& source == Err::<ParamsSource, ParamsError>(ParamsError::RecoveryPending)
                &&& *final(self) == *old(self)
            } else if old(self).has_fresh_params(now) {
                &&& source == Ok::<ParamsSource, ParamsError>(
                    ParamsSource::Cached { params: old(self).params_cache->0, log: false },
                )
                &&& *final(self) == *old(self)
            } else if link.streaming {
                match old(self).params_cache {
                    Some(params) => {
                        &&& source == Ok::<ParamsSource, ParamsError>(
                            ParamsSource::Cached { params, log: old(self).logs_stale(now) },
                        )
                        &&& *final(self) == if old(self).logs_stale(now) {
                            H2AioController { stale_params_logged_at: Some(now), ..*old(self) }
                        } else {
                            *old(self)
                        }
                    },
                    None => {
                        &&& source == Err::<ParamsSource, ParamsError>(ParamsError::Withheld)
                        &&& *final(self) == *old(self)
                    },
                }
            } else if old(self).params_failed_at matches Some(at) && time_since(now, at)
                < PARAMS_FAILURE_BACKOFF {
                &&& source == Err::<ParamsSource, ParamsError>(ParamsError::BackingOff)
                &&& *final(self) == *old(self)
            } else {
                &&& source == Ok::<ParamsSource, ParamsError>(ParamsSource::Exchange)
                &&& *final(self) == *old(self)
            },
    {
        if link.storage_interrupted {
            return Err(ParamsError::StorageInterrupted);
        }
        if link.ring_recovery_pending() {
            return Err(ParamsError::RecoveryPending);
        }
        if let Some(params) = self.params_cache {
            if elapsed(now, params.observed_at) < PARAMS_CACHE_TTL {
                return Ok(ParamsSource::Cached { params, log: false });
            }
        }
        if link.streaming {
            return match self.params_cache {
                Some(params) => {
                    let log = self.note_stale_params(now);
                    Ok(ParamsSource::Cached { params, log })
                },
                None => Err(ParamsError::Withheld),
            };
        }
        if let Some(at) = self.params_failed_at {
            if elapsed(now, at) < PARAMS_FAILURE_BACKOFF {
                return Err(ParamsError::BackingOff);
            }
        }
        Ok(ParamsSource::Exchange)
    }

    /// Takes in what came of asking the cooler for the `attempt`-th time, counted from zero. A
    /// short reply may be the late answer to another command, so the cooler is asked once more;
    /// a failed transfer is not repeated. After a failure telemetry pauses.
    pub fn params_exchanged(
        &mut self,
        attempt: usize,
        event: ExchangeEvent,
        reply: &[u8; 512],
        now: u64,
    ) -> (progress: ParamsProgress)
        ensures
            match event {
                ExchangeEvent::StorageInterrupted => {
                    &&& progress == ParamsProgress::Fail(ParamsError::StorageInterrupted)
                    &&& *final(self) == *old(self)
                },
                ExchangeEvent::StreamBegan => match old(self).params_cache {
                    Some(params) => {
                        &&& progress == (ParamsProgress::Reading {
                            params,
                            log: old(self).logs_stale(now),
                        })
                        &&& *final(self) == if old(self).logs_stale(now) {
                            H2AioController { stale_params_logged_at: Some(now), ..*old(self) }
                        } else {
                            *old(self)
                        }
                    },
                    None => {
                        &&& progress == ParamsProgress::Fail(ParamsError::StreamBegan)
                        &&& *final(self) == *old(self)
                    },
                },
                ExchangeEvent::Busy => {
                    &&& progress == ParamsProgress::Fail(ParamsError::Busy)
                    &&& *final(self) == (H2AioController {
                        params_failed_at: Some(now),
                        ..*old(self)
                    })
                },
                ExchangeEvent::Failed => {
                    &&& progress == ParamsProgress::Fail(ParamsError::Exchange)
                    &&& *final(self) == (H2AioController {
                        params_failed_at: Some(now),
                        ..*old(self)
                    })
                },
                ExchangeEvent::Reply(length) => if length >= PARAMS_REPLY_MIN {
                    &&& progress matches ParamsProgress::Reading { params, log } && !log
                        && params_in(params, reply@, now) && *final(self) == (H2AioController {
                        params_cache: Some(params),
                        mac: if params.mac is Some {
                            params.mac
                        } else {
                            old(self).mac
                        },
                        ..*old(self)
                    })
                } else if attempt + 1 < PARAMS_ATTEMPTS {
                    &&& progress is Retry
                    &&& *final(self) == *old(self)
                } else {
                    &&& progress == ParamsProgress::Fail(ParamsError::ShortReply(length))
                    &&& *final(self) == (H2AioController {
                        params_failed_at: Some(now),
                        ..*old(self)
                    })
                },
            },
    {
        match event {
            ExchangeEvent::StorageInterrupted => ParamsProgress::Fail(
                ParamsError::StorageInterrupted,
            ),
            ExchangeEvent::StreamBegan => match self.params_cache {
                Some(params) => {
                    let log = self.note_stale_params(now);
                    ParamsProgress::Reading { params, log }
                },
                None => ParamsProgress::Fail(ParamsError::StreamBegan),
            },
            ExchangeEvent::Busy => {
                self.params_failed_at = Some(now);
                ParamsProgress::Fail(ParamsError::Busy)
            },
            ExchangeEvent::Failed => {
                self.params_failed_at = Some(now);
                ParamsProgress::Fail(ParamsError::Exchange)
            },
            ExchangeEvent::Reply(length) => {
                if length < PARAMS_REPLY_MIN {
                    if attempt < PARAMS_ATTEMPTS - 1 {
                        return ParamsProgress::Retry;
                    }
                    self.params_failed_at = Some(now);
                    return ParamsProgress::Fail(ParamsError::ShortReply(length));
                }
                let params = parse_h2_params(reply, now);
                if params.mac.is_some() {
                    self.mac = params.mac;
                }
                self.params_cache = Some(params);
                ParamsProgress::Reading { params, log: false }
            },
        }
    }

    /// The duties are to be sent now.
    pub open spec fn must_sync(self, pump_duty: u8, fans: Seq<u8>, now: u64) -> bool {
        !self.is_wireless && match self.last_sync {
            Some(last) => sync_due(
                time_since(now, last.at) as u64,
                last.pump,
                last.fans@,
                pump_duty,
                fans,
            ),
            None => true,
        }
    }

    /// What to send for these duties, if anything.
    pub open spec fn is_sync(self, sync: Option<SyncCommand>, pump_duty: u8, fans: [u8; 3], now: u64)
        -> bool {
        &&& sync is Some <==> self.must_sync(pump_duty, fans@, now)
        &&& sync matches Some(sync) ==> sync.pump_pwm == pwm_for_duty(self.is_square, pump_duty)
            && sync.pump_duty == pump_duty && sync.fans == fans
    }

    /// What to send for these duties, if anything: nothing when the cooler is driven over the
    /// radio, and nothing before the last duties are due for a refresh.
    pub fn sync_pump_fan(&self, pump_duty: u8, fan_duties: [u8; 3], now: u64) -> (sync: Option<
        SyncCommand,
    >)
        ensures
            self.is_sync(sync, pump_duty, fan_duties, now),
    {
        if self.is_wireless {
            return None;
        }
        if let Some(last) = self.last_sync {
            if !pwm_refresh_due(elapsed(now, last.at), last.pump, last.fans, pump_duty, fan_duties) {
                return None;
            }
        }
        let pump_pwm: u16 = duty_to_pwm(self.is_square, pump_duty);
        Some(SyncCommand { pump_pwm, pump_duty, fans: fan_duties })
    }

    /// Notes that duties were sent, or that it was tried: a cooler that refuses them is not
    /// asked again at once.
    pub fn note_sync(&mut self, sync: &SyncCommand, now: u64)
        ensures
            *final(self) == (H2AioController {
                last_sync: Some(LastSync { at: now, pump: sync.pump_duty, fans: sync.fans }),
                ..*old(self)
            }),
    {
        self.last_sync = Some(LastSync { at: now, pump: sync.pump_duty, fans: sync.fans });
    }

    /// Sets the duty of one fan, and says what to send.
    pub fn set_fan_speed(&mut self, slot: u8, duty: u8, now: u64) -> (sync: Option<SyncCommand>)
        ensures
            final(self).last_fan_duties@ == old(self).last_fan_duties@.update(
                slot as int % 3,
                duty,
            ),
            *final(self) == (H2AioController {
                last_fan_duties: final(self).last_fan_duties,
                ..*old(self)
            }),
            old(self).is_sync(sync, old(self).last_pump_duty, final(self).last_fan_duties, now),
    {
        let mut duties = self.last_fan_duties;
        let fan: usize = (slot % 3) as usize;
        duties[fan] = duty;
        assert(duties@ =~= self.last_fan_duties@.update(slot as int % 3, duty));
        self.last_fan_duties = duties;
        self.sync_pump_fan(self.last_pump_duty, duties, now)
    }

    /// Sets the duties of all fans, those that are not given to zero, and says what to send.
    pub fn set_fan_speeds(&mut self, duties: &[u8], now: u64) -> (sync: Option<SyncCommand>)
        ensures
            forall|i: int|
                0 <= i < 3 ==> #[trigger] final(self).last_fan_duties@[i] == if i < duties@.len() {
                    duties@[i]
                } else {
                    0
                },
            *final(self) == (H2AioController {
                last_fan_duties: final(self).last_fan_duties,
                ..*old(self)
            }),
            old(self).is_sync(sync, old(self).last_pump_duty, final(self).last_fan_duties, now),
    {
        let mut fan_duties = [0u8; 3];
        let mut i: usize = 0;
        while i < 3 && i < duties.len()
            invariant
                i <= 3,
                i <= duties@.len(),
                forall|j: int| 0 <= j < i ==> #[trigger] fan_duties@[j] == duties@[j],
                forall|j: int| i <= j < 3 ==> #[trigger] fan_duties@[j] == 0,
            decreases 3 - i,
        {
            fan_duties[i] = duties[i];
            i += 1;
        }
        self.last_fan_duties = fan_duties;
        self.sync_pump_fan(self.last_pump_duty, fan_duties, now)
    }

    /// Some fan is selected.
    pub open spec fn any_selected(duties: Seq<Option<u8>>) -> bool {
        exists|i: int| 0 <= i < duties.len() && i < 3 && (#[trigger] duties[i]) is Some
    }

    /// Sets the duties of the selected fans, and says what to send.
    pub fn set_selected_fan_speeds(&mut self, duties: &[Option<u8>], now: u64) -> (sync: Option<
        SyncCommand,
    >)
        ensures
            !Self::any_selected(duties@) ==> sync is None && *final(self) == *old(self),
            Self::any_selected(duties@) ==> {
                &&& forall|i: int|
                    0 <= i < 3 ==> #[trigger] final(self).last_fan_duties@[i] == selected_duty(
                        old(self).last_fan_duties@[i],
                        duties@,
                        i,
                    )
                &&& *final(self) == (H2AioController {
                    last_fan_duties: final(self).last_fan_duties,
                    ..*old(self)
                })
                &&& old(self).is_sync(
                    sync,
                    old(self).last_pump_duty,
                    final(self).last_fan_duties,
                    now,
                )
            },
    {
        let mut any = false;
        let mut i: usize = 0;
        while i < 3 && i < duties.len()
            invariant
                i <= 3,
                i <= duties@.len(),
                any == exists|j: int| 0 <= j < i && (#[trigger] duties@[j]) is Some,
            decreases 3 - i,
        {
            if duties[i].is_some() {
                any = true;
            }
            i += 1;
        }
        if !any {
            return None;
        }
        let fan_duties = selected_duties(self.last_fan_duties, duties);
        self.last_fan_duties = fan_duties;
        self.sync_pump_fan(self.last_pump_duty, fan_duties, now)
    }

    /// Sets the duty of the pump, and says what to send.
    pub fn set_pump_speed(&mut self, duty: u8, now: u64) -> (sync: Option<SyncCommand>)
        ensures
            *final(self) == (H2AioController { last_pump_duty: duty, ..*old(self) }),
            old(self).is_sync(sync, duty, old(self).last_fan_duties, now),
    {
        self.last_pump_duty = duty;
        self.sync_pump_fan(duty, self.last_fan_duties, now)
    }

    /// The fan speeds of a reading; none when the cooler is driven over the radio.
    pub fn read_fan_rpm(&self, params: &H2Params) -> (speeds: Vec<u16>)
        ensures
            speeds@ == if self.is_wireless {
                Seq::<u16>::empty()
            } else {
                params.fan_rpm@
            },
    {
        let mut speeds: Vec<u16> = Vec::new();
        if !self.is_wireless {
            speeds.push(params.fan_rpm[0]);
            speeds.push(params.fan_rpm[1]);
            speeds.push(params.fan_rpm[2]);
            assert(speeds@ =~= params.fan_rpm@);
        }
        speeds
    }

    /// The pump speed of a reading, as long as it is live; none when the cooler is driven over
    /// the radio.
    pub fn read_pump_rpm(&self, params: &H2Params, now: u64) -> (rpm: Option<u16>)
        ensures
            rpm == if !self.is_wireless && time_since(now, params.observed_at) < LIVE_READING {
                Some(params.pump_rpm)
            } else {
                None
            },
    {
        if !self.is_wireless && elapsed(now, params.observed_at) < LIVE_READING {
            Some(params.pump_rpm)
        } else {
            None
        }
    }

    /// The coolant temperature of a reading, as long as it is live; none when the cooler is
    /// driven over the radio.
    pub fn coolant_temp(&self, params: &H2Params, now: u64) -> (temp: Option<u8>)
        ensures
            temp == if !self.is_wireless && time_since(now, params.observed_at) < LIVE_READING {
                Some(params.coolant_temp)
            } else {
                None
            },
    {
        if !self.is_wireless && elapsed(now, params.observed_at) < LIVE_READING {
            Some(params.coolant_temp)
        } else {
            None
        }
    }

    /// The coolant temperature of a reading and when it was taken; none when the cooler is driven
    /// over the radio.
    pub fn coolant_reading(&self, params: &H2Params) -> (reading: Option<(u8, u64)>)
        ensures
            reading == if self.is_wireless {
                None
            } else {
                Some((params.coolant_temp, params.observed_at))
            },
    {
        if self.is_wireless {
            None
        } else {
            Some((params.coolant_temp, params.observed_at))
        }
    }

    /// The pump speed of a reading, however old it is; zero when the cooler is driven over the
    /// radio.
    pub fn last_pump_rpm(&self, params: &H2Params) -> (rpm: u16)
        ensures
            rpm == if self.is_wireless {
                0
            } else {
                params.pump_rpm
            },
    {
        if self.is_wireless {
            0
        } else {
            params.pump_rpm
        }
    }

    /// The coolant temperature of a reading, however old it is; zero when the cooler is driven
    /// over the radio.
    pub fn read_coolant_temp(&self, params: &H2Params) -> (temp: u8)
        ensures
            temp == if self.is_wireless {
                0
            } else {
                params.coolant_temp
            },
    {
        if self.is_wireless {
            0
        } else {
            params.coolant_temp
        }
    }
}

/// What a control command does first.
#[derive(Clone, Copy, Debug, PartialEq, Eq, Structural)]
pub enum ControlGate {
    /// It waits in the queue: the LCD streams.
    Queue,
    /// The panel must recover from a ring upload first.
    Recover,
    /// The panel must recover first, and it is too early for that.
    CoolingDown,
    /// It can be written.
    Write,
}

/// What a control command does first.
pub fn control_gate(link: &LcdLink, now: u64) -> (gate: ControlGate)
    ensures
        gate == if link.streaming {
            ControlGate::Queue
        } else if !link.recovering() {
            ControlGate::Write
        } else if link.may_hold(now) {
            ControlGate::Recover
        } else {
            ControlGate::CoolingDown
        },
{
    if link.streaming {
        ControlGate::Queue
    } else if !link.ring_recovery_pending() {
        ControlGate::Write
    } else if link.hold_allowed(now) {
        ControlGate::Recover
    } else {
        ControlGate::CoolingDown
    }
}

/// Whether a control command may be written, once the link is held: a stream may have begun, or
/// an upload may have failed, in the meantime.
pub fn control_write_allowed(link: &LcdLink) -> (allowed: Result<bool, LinkError>)
    ensures
        allowed == if link.storage_interrupted {
            Err::<bool, LinkError>(LinkError::StorageInterrupted)
        } else {
            Ok(!link.streaming && !link.recovering())
        },
{
    if link.storage_interrupted {
        return Err(LinkError::StorageInterrupted);
    }
    Ok(!link.streaming && !link.ring_recovery_pending())
}

/// Each of the three fans gets the duty that is selected for it, and keeps its own where none is.
pub proof fn lemma_selected_fans_get_their_duty(
    previous: [u8; 3],
    duties: &[Option<u8>],
    selected: [u8; 3],
    i: int,
)
    requires
        call_ensures(selected_duties, (previous, duties), selected),
        0 <= i < 3,
    ensures
        i < duties@.len() && duties@[i] is Some ==> duties@[i] == Some(selected@[i]),
        i >= duties@.len() || duties@[i] is None ==> selected@[i] == previous@[i],
{
    assert(selected@[i] == selected_duty(previous@[i], duties@, i));
}

/// Setting the selected fans sets each of them, leaves the others and the pump, and sends what the
/// fans have now; where no fan is selected nothing changes and nothing is sent.
pub proof fn lemma_selected_speeds_reach_the_fans(duties: &[Option<u8>], now: u64, i: int)
    requires
        0 <= i < 3,
    ensures
        forall|controller: &mut H2AioController, sync: Option<SyncCommand>| #[trigger]
            call_ensures(
                H2AioController::set_selected_fan_speeds,
                (controller, duties, now),
                sync,
            ) ==> {
                &&& i < duties@.len() && duties@[i] is Some ==> duties@[i] == Some(
                    final(controller).last_fan_duties@[i],
                )
                &&& i >= duties@.len() || duties@[i] is None ==> final(controller).last_fan_duties@[i] == controller.last_fan_duties@[i]
                &&& final(controller).last_pump_duty == controller.last_pump_duty
                &&& sync matches Some(sync) ==> sync.fans == final(controller).last_fan_duties
                    && sync.pump_duty == controller.last_pump_duty
                &&& (forall|k: int|
                    0 <= k < 3 && k < duties@.len() ==> (#[trigger] duties@[k]) is None) ==> sync is None
            },
{
    assert forall|controller: &mut H2AioController, sync: Option<SyncCommand>| #[trigger]
        call_ensures(
            H2AioController::set_selected_fan_speeds,
            (controller, duties, now),
            sync,
        ) implies {
        &&& i < duties@.len() && duties@[i] is Some ==> duties@[i] == Some(
            final(controller).last_fan_duties@[i],
        )
        &&& i >= duties@.len() || duties@[i] is None ==> final(controller).last_fan_duties@[i]
            == controller.last_fan_duties@[i]
    } by {
        assert(final(controller).last_fan_duties@[i] == final(controller).last_fan_duties@[i]);
    }
}

/// Setting one fan sets that fan, counted round after three, leaves the other two and the pump, and
/// sends what the fans have now.
pub proof fn lemma_one_fan_is_set(slot: u8, duty: u8, now: u64, i: int)
    requires
        0 <= i < 3,
    ensures
        forall|controller: &mut H2AioController, sync: Option<SyncCommand>| #[trigger]
            call_ensures(H2AioController::set_fan_speed, (controller, slot, duty, now), sync) ==> {
                &&& i == slot % 3 ==> final(controller).last_fan_duties@[i] == duty
                &&& i != slot % 3 ==> final(controller).last_fan_duties@[i]
                    == controller.last_fan_duties@[i]
                &&& final(controller).last_pump_duty == controller.last_pump_duty
                &&& final(controller).last_sync == controller.last_sync
                &&& sync matches Some(sync) ==> sync.fans == final(controller).last_fan_duties
                    && sync.pump_duty == controller.last_pump_duty
            },
{
}

/// Setting all fans gives each the duty in its place, and stops those that are given none.
pub proof fn lemma_all_fans_are_set(duties: &[u8], now: u64, i: int)
    requires
        0 <= i < 3,
    ensures
        forall|controller: &mut H2AioController, sync: Option<SyncCommand>| #[trigger]
            call_ensures(H2AioController::set_fan_speeds, (controller, duties, now), sync) ==> {
                &&& i < duties@.len() ==> final(controller).last_fan_duties@[i] == duties@[i]
                &&& i >= duties@.len() ==> final(controller).last_fan_duties@[i] == 0
                &&& final(controller).last_pump_duty == controller.last_pump_duty
                &&& sync matches Some(sync) ==> sync.fans == final(controller).last_fan_duties
                    && sync.pump_duty == controller.last_pump_duty
            },
{
    assert forall|controller: &mut H2AioController, sync: Option<SyncCommand>| #[trigger]
        call_ensures(H2AioController::set_fan_speeds, (controller, duties, now), sync) implies {
        &&& i < duties@.len() ==> final(controller).last_fan_duties@[i] == duties@[i]
        &&& i >= duties@.len() ==> final(controller).last_fan_duties@[i] == 0
    } by {
        assert(final(controller).last_fan_duties@[i] == final(controller).last_fan_duties@[i]);
    }
}

/// Setting the pump sets the pump, leaves the fans, and sends the new duty.
pub proof fn lemma_the_pump_is_set(duty: u8, now: u64)
    ensures
        forall|controller: &mut H2AioController, sync: Option<SyncCommand>| #[trigger]
            call_ensures(H2AioController::set_pump_speed, (controller, duty, now), sync) ==> {
                &&& final(controller).last_pump_duty == duty
                &&& final(controller).last_fan_duties == controller.last_fan_duties
                &&& sync matches Some(sync) ==> sync.fans == controller.last_fan_duties
                    && sync.pump_duty == duty
            },
{
}

/// Duties are sent when they never were, 3.6 seconds after the last ones, and at once where one of
/// them is at least eight steps from the last one, or full where the last one was not; and never
/// while the cooler is driven over the radio.
pub proof fn lemma_duties_are_sent_when_due(
    controller: H2AioController,
    pump_duty: u8,
    fans: [u8; 3],
    now: u64,
    pwm: u16,
    sync: Option<SyncCommand>,
)
    requires
        call_ensures(H2AioController::sync_pump_fan, (&controller, pump_duty, fans, now), sync),
        call_ensures(duty_to_pwm, (controller.is_square, pump_duty), pwm),
    ensures
        sync matches Some(sent) ==> sent.pump_pwm == pwm && sent.pump_duty == pump_duty
            && sent.fans == fans,
        controller.is_wireless ==> sync is None,
        !controller.is_wireless && controller.last_sync is None ==> sync is Some,
        (!controller.is_wireless && controller.last_sync is Some) ==> {
            let last = controller.last_sync->0;
            sync is Some <==> {
                ||| last.at + 3_600_000_000 <= now
                ||| last.pump >= pump_duty + 8
                ||| pump_duty >= last.pump + 8
                ||| pump_duty == 255 && last.pump != 255
                ||| last.fans@[0] >= fans@[0] + 8
                ||| fans@[0] >= last.fans@[0] + 8
                ||| fans@[0] == 255 && last.fans@[0] != 255
                ||| last.fans@[1] >= fans@[1] + 8
                ||| fans@[1] >= last.fans@[1] + 8
                ||| fans@[1] == 255 && last.fans@[1] != 255
                ||| last.fans@[2] >= fans@[2] + 8
                ||| fans@[2] >= last.fans@[2] + 8
                ||| fans@[2] == 255 && last.fans@[2] != 255
            }
        },
{
    if !controller.is_wireless && controller.last_sync is Some {
        let last = controller.last_sync->0;
        assert(duty_changed(last.fans@[0], fans@[0]) ==> sync is Some);
        assert(duty_changed(last.fans@[1], fans@[1]) ==> sync is Some);
        assert(duty_changed(last.fans@[2], fans@[2]) ==> sync is Some);
    }
}

/// Telemetry is read at fixed places of the reply: the coolant at byte 13, the fans at bytes 14, 16
/// and 18, the pump at byte 20, each high byte first, and the wireless address at bytes 22 to 27,
/// unless all of those are zero.
pub proof fn lemma_telemetry_is_read_at_its_places(
    reply: &[u8; 512],
    now: u64,
    params: H2Params,
    i: int,
)
    requires
        call_ensures(parse_h2_params, (reply, now), params),
        0 <= i < 6,
    ensures
        params.observed_at == now,
        params.coolant_temp == reply@[13],
        params.fan_rpm@[0] == 256 * reply@[14] + reply@[15],
        params.fan_rpm@[1] == 256 * reply@[16] + reply@[17],
        params.fan_rpm@[2] == 256 * reply@[18] + reply@[19],
        params.pump_rpm == 256 * reply@[20] + reply@[21],
        params.mac matches Some(mac) ==> mac@[i] == reply@[22 + i],
        params.mac is None ==> reply@[22 + i] == 0,
        reply@[22 + i] != 0 ==> params.mac is Some,
        params.cpu_temp == 0 && params.cpu_load == 0 && params.gpu_temp == 0 && params.gpu_load == 0,
{
    if let Some(mac) = params.mac {
        assert(mac@ == reply@.subrange(22, 28));
        assert(mac@[i] == reply@[22 + i]);
    }
}

/// The cooler is asked for telemetry only while nothing stands against it: no interrupted transfer,
/// no panel that has not recovered, no stream, no reading of the last 0.3 seconds, and no failure
/// of the last two seconds. While a stream runs the last reading is used, however old it is.
pub proof fn lemma_telemetry_is_asked_for_sparingly(link: LcdLink, now: u64)
    ensures
        forall|controller: &mut H2AioController, source: Result<ParamsSource, ParamsError>| #[trigger]
            call_ensures(H2AioController::get_h2_params, (controller, &link, now), source) ==> {
                let fresh = controller.params_cache is Some && now
                    < controller.params_cache->0.observed_at + 300_000_000;
                let failed = controller.params_failed_at is Some && now
                    < controller.params_failed_at->0 + 2_000_000_000;
                let well = !link.storage_interrupted && link.ring.attempted is None;
                &&& source == Ok::<ParamsSource, ParamsError>(ParamsSource::Exchange) <==> well
                    && !link.streaming && !fresh && !failed
                &&& source matches Ok(ParamsSource::Cached { params, log }) ==> {
                    &&& well
                    &&& controller.params_cache == Some(params)
                    &&& fresh || link.streaming
                    &&& log ==> !fresh && (controller.stale_params_logged_at is Some
                        ==> controller.stale_params_logged_at->0 + 10_000_000_000 <= now)
                }
                &&& source == Err::<ParamsSource, ParamsError>(ParamsError::StorageInterrupted)
                    <==> link.storage_interrupted
                &&& source == Err::<ParamsSource, ParamsError>(ParamsError::RecoveryPending)
                    <==> !link.storage_interrupted && link.ring.attempted is Some
                &&& source == Err::<ParamsSource, ParamsError>(ParamsError::Withheld) <==> well
                    && link.streaming && controller.params_cache is None
                &&& source == Err::<ParamsSource, ParamsError>(ParamsError::BackingOff) <==> well
                    && !link.streaming && !fresh && failed
                &&& final(controller).params_cache == controller.params_cache
                &&& final(controller).params_failed_at == controller.params_failed_at
                &&& final(controller).mac == controller.mac
            },
{
}

/// A reply of at least 32 bytes is taken over as the new reading; a shorter one is asked for once
/// more; and only a failed or busy exchange, or a second short reply, makes telemetry pause.
pub proof fn lemma_replies_are_taken_over(
    attempt: usize,
    event: ExchangeEvent,
    reply: &[u8; 512],
    now: u64,
    read: H2Params,
)
    requires
        call_ensures(parse_h2_params, (reply, now), read),
    ensures
        forall|controller: &mut H2AioController, progress: ParamsProgress| #[trigger]
            call_ensures(
                H2AioController::params_exchanged,
                (controller, attempt, event, reply, now),
                progress,
            ) ==> {
                &&& progress is Retry <==> (event matches ExchangeEvent::Reply(length) && length < 32)
                    && attempt == 0
                &&& (event matches ExchangeEvent::Reply(length) && length >= 32) ==> {
                    &&& progress matches ParamsProgress::Reading { params, log }
                    &&& !log
                    &&& final(controller).params_cache == Some(params)
                    &&& params.coolant_temp == reply@[13]
                    &&& params.pump_rpm == read.pump_rpm
                    &&& params.fan_rpm@ == read.fan_rpm@
                    &&& params.observed_at == now
                    &&& final(controller).params_failed_at == controller.params_failed_at
                }
                &&& event is Failed || event is Busy ==> progress is Fail && final(controller).params_failed_at == Some(now)
                &&& event is StreamBegan && controller.params_cache is Some ==> progress is Reading
                &&& !(event matches ExchangeEvent::Reply(length) && length >= 32) ==> final(controller).params_cache == controller.params_cache && final(controller).mac
                    == controller.mac
            },
{
}

/// A speed or temperature is reported only from a reading of the last five seconds, and never while
/// the cooler is driven over the radio.
pub proof fn lemma_live_readings_only(
    controller: H2AioController,
    params: H2Params,
    now: u64,
    rpm: Option<u16>,
    temp: Option<u8>,
    speeds: Vec<u16>,
)
    requires
        call_ensures(H2AioController::read_pump_rpm, (&controller, &params, now), rpm),
        call_ensures(H2AioController::coolant_temp, (&controller, &params, now), temp),
        call_ensures(H2AioController::read_fan_rpm, (&controller, &params), speeds),
    ensures
        rpm is Some <==> !controller.is_wireless && now < params.observed_at + 5_000_000_000,
        temp is Some <==> !controller.is_wireless && now < params.observed_at + 5_000_000_000,
        rpm is Some ==> rpm == Some(params.pump_rpm),
        temp is Some ==> temp == Some(params.coolant_temp),
        controller.is_wireless ==> speeds@.len() == 0,
        !controller.is_wireless ==> speeds@.len() == 3 && speeds@[0] == params.fan_rpm@[0]
            && speeds@[1] == params.fan_rpm@[1] && speeds@[2] == params.fan_rpm@[2],
{
}

/// A control command is written only where no stream runs, no transfer was interrupted and the
/// panel is well; a panel that is not is recovered first, three seconds after the last cycle.
pub proof fn lemma_control_waits_its_turn(
    link: LcdLink,
    now: u64,
    gate: ControlGate,
    allowed: Result<bool, LinkError>,
)
    requires
        call_ensures(control_gate, (&link, now), gate),
        call_ensures(control_write_allowed, (&link,), allowed),
    ensures
        gate is Queue <==> link.streaming,
        gate is Write <==> !link.streaming && link.ring.attempted is None,
        gate is Recover <==> !link.streaming && link.ring.attempted is Some && (
        link.last_hold matches Some(at) ==> at + 3_000_000_000 <= now),
        allowed == Ok::<bool, LinkError>(true) <==> !link.storage_interrupted && !link.streaming
            && link.ring.attempted is None,
        allowed is Err <==> link.storage_interrupted,
{
}

/// A new controller drives the fans at 50 and the pump at 128, and the square model is the product
/// 0xa034.
pub proof fn lemma_new_controllers(pid: u16, controller: H2AioController)
    requires
        call_ensures(H2AioController::new, (pid,), controller),
    ensures
        controller.last_fan_duties@[0] == 50 && controller.last_fan_duties@[1] == 50
            && controller.last_fan_duties@[2] == 50,
        controller.last_pump_duty == 128,
        controller.is_square <==> pid == 0xa034,
        !controller.is_wireless && controller.params_cache is None && controller.last_sync is None,
{
}

/// Duties are sent again after 3.6 seconds, or at once when one of them has moved by eight, or to
/// full speed.
pub proof fn lemma_small_changes_wait(
    since: u64,
    previous_pump: u8,
    previous_fans: [u8; 3],
    pump: u8,
    fans: [u8; 3],
    due: bool,
    i: int,
)
    requires
        call_ensures(pwm_refresh_due, (since, previous_pump, previous_fans, pump, fans), due),
        0 <= i < 3,
    ensures
        since >= 3_600_000_000 ==> due,
        previous_pump - pump >= 8 || pump - previous_pump >= 8 ==> due,
        previous_fans@[i] - fans@[i] >= 8 || fans@[i] - previous_fans@[i] >= 8 ==> due,
        pump == 255 && previous_pump != 255 ==> due,
        fans@[i] == 255 && previous_fans@[i] != 255 ==> due,
        due && since < 3_600_000_000 && -8 < pump - previous_pump < 8 && (pump != 255
            || previous_pump == 255) ==> exists|k: int|
            0 <= k < 3 && (#[trigger] fans@[k] - previous_fans@[k] >= 8 || previous_fans@[k]
                - fans@[k] >= 8 || fans@[k] == 255 && previous_fans@[k] != 255),
{
    assert(duty_changed(previous_fans@[i], fans@[i]) ==> due);
    if due && since < 3_600_000_000 && !duty_changed(previous_pump, pump) {
        let k = choose|k: int|
            0 <= k < 3 && duty_changed(#[trigger] previous_fans@[k], #[trigger] fans@[k]);
        assert(duty_changed(previous_fans@[k], fans@[k]));
        assert(fans@[k] - previous_fans@[k] >= 8 || previous_fans@[k] - fans@[k] >= 8 || fans@[k]
            == 255 && previous_fans@[k] != 255);
    }
}

/// What was sent is remembered: when, and every duty.
pub proof fn lemma_sent_duties_are_remembered(sync: &SyncCommand, now: u64)
    ensures
        forall|controller: &mut H2AioController| #[trigger]
            call_ensures(H2AioController::note_sync, (controller, sync, now), ()) ==> {
                &&& final(controller).last_sync is Some
                &&& final(controller).last_sync->0.at == now
                &&& final(controller).last_sync->0.pump == sync.pump_duty
                &&& final(controller).last_sync->0.fans == sync.fans
                &&& final(controller).is_wireless == controller.is_wireless
                &&& final(controller).mac == controller.mac
            },
{
}

/// Over the radio a cooler has no readings of its own; over USB they are those of its telemetry.
pub proof fn lemma_readings_come_over_usb(
    controller: H2AioController,
    params: &H2Params,
    reading: Option<(u8, u64)>,
    rpm: u16,
    temp: u8,
)
    requires
        call_ensures(H2AioController::coolant_reading, (&controller, params), reading),
        call_ensures(H2AioController::last_pump_rpm, (&controller, params), rpm),
        call_ensures(H2AioController::read_coolant_temp, (&controller, params), temp),
    ensures
        controller.is_wireless ==> reading is None && rpm == 0 && temp == 0,
        !controller.is_wireless ==> rpm == params.pump_rpm && temp == params.coolant_temp,
        !controller.is_wireless ==> reading == Some((params.coolant_temp, params.observed_at)),
{
}

/// Whether the cooler is reached over the radio is what was set last; setting it changes nothing
/// else.
pub proof fn lemma_the_radio_mode_is_set(
    enabled: bool,
    controller: H2AioController,
    wireless: bool,
    mac: Option<[u8; 6]>,
)
    requires
        call_ensures(H2AioController::is_wireless_mode, (&controller,), wireless),
        call_ensures(H2AioController::mac, (&controller,), mac),
    ensures
        wireless == controller.is_wireless,
        mac == controller.mac,
        forall|controller: &mut H2AioController| #[trigger]
            call_ensures(H2AioController::set_wireless_mode, (controller, enabled), ()) ==> {
                &&& final(controller).is_wireless == enabled
                &&& final(controller).mac == controller.mac
                &&& final(controller).last_sync == controller.last_sync
                &&& final(controller).is_square == controller.is_square
            },
{
}

} // verus!
