//! The ring of the HydroShift II: what is uploaded to it, and when.
use std::sync::atomic::AtomicBool;
use std::sync::Arc;
use vstd::prelude::*;
use vstd::string::*;

use crate::bytes::{append_bytes, be16_bytes};
use crate::h2_aio::H2AioController;
use crate::h2_pwm::{lemma_share_is_near, scale_brightness, scaled_channel};
use crate::lcd_link::LcdLink;
use crate::pending::{
    is_queued, is_stopped, live, readable, stop_read_off, uploads, PendingCmd,
};
use crate::ring_cycle::CycleError;

verus! {

/// How many LEDs the ring has.
pub const RING_LED_COUNT: usize = 24;

/// How long a ring upload waits for its reply, in nanoseconds.
pub const RING_REPLY_WAIT: u64 = 100_000_000;

/// How long a duty command waits for its reply, in nanoseconds.
pub const SYNC_REPLY_WAIT: u64 = 250_000_000;

/// The speed at which a still colour is uploaded, in ticks.
pub const STILL_INTERVAL_TICKS: u8 = 100;

/// How an animation is played.
#[derive(Clone, Copy, Debug, PartialEq, Eq, Structural)]
pub struct RgbPlaybackTiming {
    /// The time of a frame, in hundredths of a tick.
    pub interval_hundredths: u32,
    pub secondary_interval_ticks: u32,
    pub secondary_frame_count: u32,
    pub outer_longest: bool,
}

impl Default for RgbPlaybackTiming {
    fn default() -> (timing: Self)
        ensures
            timing == (RgbPlaybackTiming {
                interval_hundredths: 0,
                secondary_interval_ticks: 0,
                secondary_frame_count: 0,
                outer_longest: false,
            }),
    {
        RgbPlaybackTiming {
            interval_hundredths: 0,
            secondary_interval_ticks: 0,
            secondary_frame_count: 0,
            outer_longest: false,
        }
    }
}

/// Why an animation cannot be shown.
#[derive(Clone, Copy, Debug, PartialEq, Eq, Structural)]
pub enum AnimationError {
    NoFrames,
    TooManyFrames,
    SecondaryTiming,
    FractionalTicks,
    IntervalTooLong,
    ZeroInterval,
    /// A frame has not exactly as many colours as the ring has LEDs.
    WrongLedCount,
    /// The ring is driven over the radio.
    RadioOwned,
    /// There is only one zone.
    NoSuchZone,
}

/// Why the ring cannot play so many frames with this timing, if so.
pub open spec fn timing_refused(frame_count: int, timing: RgbPlaybackTiming) -> Option<
    AnimationError,
> {
    if frame_count == 0 {
        Some(AnimationError::NoFrames)
    } else if frame_count > u16::MAX {
        Some(AnimationError::TooManyFrames)
    } else if timing.secondary_interval_ticks != 0 || timing.secondary_frame_count != 0
        || timing.outer_longest {
        Some(AnimationError::SecondaryTiming)
    } else if timing.interval_hundredths % 100 != 0 {
        Some(AnimationError::FractionalTicks)
    } else if timing.interval_hundredths / 100 > u8::MAX {
        Some(AnimationError::IntervalTooLong)
    } else if timing.interval_hundredths == 0 {
        Some(AnimationError::ZeroInterval)
    } else {
        None
    }
}

/// Every frame has a colour for every LED.
pub open spec fn all_whole(frames: Seq<Vec<[u8; 3]>>) -> bool {
    forall|i: int| 0 <= i < frames.len() ==> (#[trigger] frames[i])@.len() == RING_LED_COUNT
}

/// The frame count and the time of a frame in ticks, as the ring takes them.
pub fn h2_playback_fields(frame_count: usize, timing: RgbPlaybackTiming) -> (fields: Result<
    (u16, u8),
    AnimationError,
>)
    ensures
        match timing_refused(frame_count as int, timing) {
            Some(error) => fields == Err::<(u16, u8), AnimationError>(error),
            None => fields matches Ok(fields) && fields.0 == frame_count && fields.1 * 100
                == timing.interval_hundredths,
        },
{
    if frame_count == 0 {
        return Err(AnimationError::NoFrames);
    }
    if frame_count > 65535 {
        return Err(AnimationError::TooManyFrames);
    }
    if timing.secondary_interval_ticks != 0 || timing.secondary_frame_count != 0
        || timing.outer_longest {
        return Err(AnimationError::SecondaryTiming);
    }
    if timing.interval_hundredths % 100 != 0 {
        return Err(AnimationError::FractionalTicks);
    }
    let ticks: u32 = timing.interval_hundredths / 100;
    if ticks > 255 {
        return Err(AnimationError::IntervalTooLong);
    }
    if ticks == 0 {
        return Err(AnimationError::ZeroInterval);
    }
    Ok((frame_count as u16, ticks as u8))
}

/// The time of a frame in hundredths of a tick, for a time in milliseconds: a whole number of
/// ticks, none shorter than asked for.
pub fn frame_interval(interval_ms: u16) -> (timing: RgbPlaybackTiming)
    ensures
        timing.interval_hundredths % 100 == 0,
        interval_ms * 160 <= timing.interval_hundredths < interval_ms * 160 + 100,
        timing == (RgbPlaybackTiming {
            interval_hundredths: timing.interval_hundredths,
            secondary_interval_ticks: 0,
            secondary_frame_count: 0,
            outer_longest: false,
        }),
{
    let exact: u32 = interval_ms as u32 * 160;
    let ticks: u32 = (exact + 99) / 100;
    RgbPlaybackTiming {
        interval_hundredths: ticks * 100,
        secondary_interval_ticks: 0,
        secondary_frame_count: 0,
        outer_longest: false,
    }
}

/// The colour of an LED; LEDs beyond the frame are off.
pub open spec fn led_color(frame: Seq<[u8; 3]>, led: int) -> Seq<u8> {
    if led < frame.len() {
        frame[led]@
    } else {
        seq![0u8, 0u8, 0u8]
    }
}

/// The colours of the first `leds` LEDs of a frame, one after the other.
pub open spec fn frame_bytes(frame: Seq<[u8; 3]>, leds: int) -> Seq<u8>
    decreases leds,
{
    if leds <= 0 {
        Seq::empty()
    } else {
        frame_bytes(frame, leds - 1) + led_color(frame, leds - 1)
    }
}

/// All frames, one after the other.
pub open spec fn ring_bytes(frames: Seq<Vec<[u8; 3]>>) -> Seq<u8>
    decreases frames.len(),
{
    if frames.len() == 0 {
        Seq::empty()
    } else {
        ring_bytes(frames.drop_last()) + frame_bytes(frames.last()@, RING_LED_COUNT as int)
    }
}

proof fn lemma_frame_length(frame: Seq<[u8; 3]>, leds: int)
    requires
        leds >= 0,
    ensures
        frame_bytes(frame, leds).len() == 3 * leds,
    decreases leds,
{
    if leds > 0 {
        lemma_frame_length(frame, leds - 1);
    }
}

/// Every frame takes the same room: three bytes for each LED of the ring.
pub proof fn lemma_ring_length(frames: Seq<Vec<[u8; 3]>>)
    ensures
        ring_bytes(frames).len() == 3 * RING_LED_COUNT * frames.len(),
    decreases frames.len(),
{
    if frames.len() > 0 {
        lemma_ring_length(frames.drop_last());
        lemma_frame_length(frames.last()@, RING_LED_COUNT as int);
    }
}

fn push_frame(raw: &mut Vec<u8>, frame: &Vec<[u8; 3]>)
    ensures
        final(raw)@ == old(raw)@ + frame_bytes(frame@, RING_LED_COUNT as int),
{
    let ghost start = raw@;
    let mut led: usize = 0;
    assert(raw@ =~= start + frame_bytes(frame@, 0));
    while led < RING_LED_COUNT
        invariant
            led <= RING_LED_COUNT,
            raw@ == start + frame_bytes(frame@, led as int),
        decreases RING_LED_COUNT - led,
    {
        let color: [u8; 3] = if led < frame.len() {
            frame[led]
        } else {
            [0u8, 0u8, 0u8]
        };
        assert(color@ =~= led_color(frame@, led as int));
        append_bytes(raw, color.as_slice());
        assert(raw@ =~= start + frame_bytes(frame@, led + 1));
        led += 1;
    }
}

/// The colours of all frames, one after the other.
pub fn ring_data(frames: &Vec<Vec<[u8; 3]>>) -> (raw: Vec<u8>)
    ensures
        raw@ == ring_bytes(frames@),
{
    let mut raw: Vec<u8> = Vec::new();
    let mut i: usize = 0;
    assert(raw@ =~= ring_bytes(frames@.take(0)));
    while i < frames.len()
        invariant
            i <= frames@.len(),
            raw@ == ring_bytes(frames@.take(i as int)),
        decreases frames@.len() - i,
    {
        push_frame(&mut raw, &frames[i]);
        assert(frames@.take(i + 1).drop_last() =~= frames@.take(i as int));
        i += 1;
    }
    assert(frames@.take(i as int) =~= frames@);
    raw
}

/// Why frames are not uploaded now.
#[derive(Clone, Copy, Debug, PartialEq, Eq, Structural)]
pub enum RingRefusal {
    Cancelled,
    TooManyFrames,
    /// Software cooling uses the link; try again in ten seconds.
    CoolingActive,
    /// The same upload waits already; try again in a second.
    AlreadyQueued,
}

impl RingRefusal {
    /// When to try again, in nanoseconds, if that makes sense.
    pub fn retry_after(&self) -> (delay: Option<u64>)
        ensures
            delay == match self {
                RingRefusal::CoolingActive => Some(10_000_000_000u64),
                RingRefusal::AlreadyQueued => Some(1_000_000_000u64),
                _ => None,
            },
    {
        match self {
            RingRefusal::CoolingActive => Some(10_000_000_000),
            RingRefusal::AlreadyQueued => Some(1_000_000_000),
            _ => None,
        }
    }

    /// What the user is told.
    pub fn message(&self) -> (text: &'static str)
        ensures
            text@ == match self {
                RingRefusal::Cancelled => "H2 RGB request cancelled"@,
                RingRefusal::TooManyFrames => "H2 RGB frame count exceeds protocol"@,
                RingRefusal::CoolingActive =>
                    "RGB changes wait while software fan or pump control uses this device"@,
                RingRefusal::AlreadyQueued =>
                    "RGB upload is waiting for a protected LCD transaction"@,
            },
    {
        match self {
            RingRefusal::Cancelled => "H2 RGB request cancelled",
            RingRefusal::TooManyFrames => "H2 RGB frame count exceeds protocol",
            RingRefusal::CoolingActive =>
                "RGB changes wait while software fan or pump control uses this device",
            RingRefusal::AlreadyQueued => "RGB upload is waiting for a protected LCD transaction",
        }
    }
}

/// What frames come to.
pub enum RingRequest {
    /// There is nothing to do: no frames, a ring that is driven over the radio, or one that
    /// shows them already.
    Nothing,
    /// Upload this payload of so many frames.
    Upload { key: (Vec<u8>, u8), frames: u16 },
}

/// What frames come to, given which uploads wait.
pub open spec fn ring_outcome(
    controller: H2AioController,
    link: LcdLink,
    frames: Seq<Vec<[u8; 3]>>,
    interval_ticks: u8,
    cancelled: bool,
    waits: bool,
) -> Result<Option<(Seq<u8>, u8)>, RingRefusal> {
    let key = (ring_bytes(frames), interval_ticks);
    if cancelled {
        Err(RingRefusal::Cancelled)
    } else if frames.len() == 0 {
        Ok(None)
    } else if frames.len() > u16::MAX {
        Err(RingRefusal::TooManyFrames)
    } else if controller.is_wireless || link.ring@.applied == Some(key) {
        Ok(None)
    } else if link.software_cooling && !link.recovering() {
        Err(RingRefusal::CoolingActive)
    } else if link.streaming && waits {
        Err(RingRefusal::AlreadyQueued)
    } else {
        Ok(Some(key))
    }
}

/// The request is what the frames come to.
pub open spec fn request_is(
    request: Result<RingRequest, RingRefusal>,
    outcome: Result<Option<(Seq<u8>, u8)>, RingRefusal>,
    frames: int,
) -> bool {
    match outcome {
        Err(error) => request == Err::<RingRequest, RingRefusal>(error),
        Ok(None) => request matches Ok(request) && request is Nothing,
        Ok(Some(key)) => request matches Ok(RingRequest::Upload { key: payload, frames: count })
            && payload.0@ == key.0 && payload.1 == key.1 && count == frames,
    }
}

impl H2AioController {
    /// Decides what frames come to, given whether their upload waits already.
    pub fn ring_request(
        &self,
        link: &LcdLink,
        frames: &Vec<Vec<[u8; 3]>>,
        interval_ticks: u8,
        cancelled: bool,
        waits: bool,
    ) -> (request: Result<RingRequest, RingRefusal>)
        ensures
            request_is(
                request,
                ring_outcome(*self, *link, frames@, interval_ticks, cancelled, waits),
                frames@.len() as int,
            ),
    {
        if cancelled {
            return Err(RingRefusal::Cancelled);
        }
        if frames.len() == 0 {
            return Ok(RingRequest::Nothing);
        }
        if frames.len() > 65535 {
            return Err(RingRefusal::TooManyFrames);
        }
        if self.is_wireless {
            return Ok(RingRequest::Nothing);
        }
        let key = (ring_data(frames), interval_ticks);
        if link.ring_shows(&key) {
            return Ok(RingRequest::Nothing);
        }
        if link.software_cooling && !link.ring_recovery_pending() {
            return Err(RingRefusal::CoolingActive);
        }
        if link.streaming && waits {
            return Err(RingRefusal::AlreadyQueued);
        }
        Ok(RingRequest::Upload { key, frames: frames.len() as u16 })
    }

    /// Decides what frames come to that nobody gives up. Which waiting uploads were given up is
    /// read off them.
    pub fn send_rgb_frames(
        &self,
        link: &LcdLink,
        frames: &Vec<Vec<[u8; 3]>>,
        interval_ticks: u8,
    ) -> (request: Result<RingRequest, RingRefusal>)
        ensures
            exists|flags: Seq<bool>|
                readable(link.pending@, flags) && request_is(
                    request,
                    ring_outcome(
                        *self,
                        *link,
                        frames@,
                        interval_ticks,
                        false,
                        #[trigger] uploads(
                            link.pending@,
                            flags,
                            (ring_bytes(frames@), interval_ticks),
                        ),
                    ),
                    frames@.len() as int,
                ),
    {
        let key = (ring_data(frames), interval_ticks);
        let waits = link.ring_is_queued(&key);
        self.ring_request(link, frames, interval_ticks, false, waits)
    }

    /// Decides what frames come to, whose owner can give them up. Whether they were given up, and
    /// which waiting uploads were, is read off their owners.
    pub fn send_rgb_frames_with_stop(
        &self,
        link: &LcdLink,
        frames: &Vec<Vec<[u8; 3]>>,
        interval_ticks: u8,
        stop: &Arc<AtomicBool>,
    ) -> (request: Result<RingRequest, RingRefusal>)
        ensures
            exists|cancelled: bool, flags: Seq<bool>|
                #[trigger] stop_read_off(*stop, cancelled) && readable(link.pending@, flags)
                    && request_is(
                    request,
                    ring_outcome(
                        *self,
                        *link,
                        frames@,
                        interval_ticks,
                        cancelled,
                        #[trigger] uploads(
                            link.pending@,
                            flags,
                            (ring_bytes(frames@), interval_ticks),
                        ),
                    ),
                    frames@.len() as int,
                ),
    {
        let cancelled = is_stopped(stop);
        let key = (ring_data(frames), interval_ticks);
        let waits = link.ring_is_queued(&key);
        self.ring_request(link, frames, interval_ticks, cancelled, waits)
    }

    /// Why changes of the ring wait, if they do.
    pub fn deferred_reason(&self, link: &LcdLink) -> (reason: Option<&'static str>)
        ensures
            match reason {
                Some(text) => if link.recovering() {
                    text@
                        == "The LCD connection has not recovered from an RGB upload. Further uploads are waiting."@
                } else {
                    link.software_cooling && text@
                        == "RGB changes wait while software fan or pump control uses this device."@
                },
                None => !link.recovering() && !link.software_cooling,
            },
    {
        if link.ring_recovery_pending() {
            Some(
                "The LCD connection has not recovered from an RGB upload. Further uploads are waiting.",
            )
        } else if link.software_cooling {
            Some("RGB changes wait while software fan or pump control uses this device.")
        } else {
            None
        }
    }

    /// Whether the ring can show the animation, and the time of a frame in ticks: its timing
    /// must fit, and every frame must have a colour for every LED.
    pub fn validate_software_animation(&self, frames: &Vec<Vec<[u8; 3]>>, timing: RgbPlaybackTiming)
        -> (interval: Result<u8, AnimationError>)
        ensures
            match timing_refused(frames@.len() as int, timing) {
                Some(error) => interval == Err::<u8, AnimationError>(error),
                None => if exists|i: int|
                    0 <= i < frames@.len() && (#[trigger] frames@[i])@.len() != RING_LED_COUNT {
                    interval == Err::<u8, AnimationError>(AnimationError::WrongLedCount)
                } else {
                    interval matches Ok(ticks) && ticks * 100 == timing.interval_hundredths
                },
            },
            interval is Ok <==> timing_refused(frames@.len() as int, timing) is None
                && all_whole(frames@),
    {
        let fields = match h2_playback_fields(frames.len(), timing) {
            Ok(fields) => fields,
            Err(error) => {
                return Err(error);
            },
        };
        let mut i: usize = 0;
        while i < frames.len()
            invariant
                i <= frames@.len(),
                timing_refused(frames@.len() as int, timing) is None,
                forall|j: int| 0 <= j < i ==> (#[trigger] frames@[j])@.len() == RING_LED_COUNT,
            decreases frames@.len() - i,
        {
            if frames[i].len() != RING_LED_COUNT {
                return Err(AnimationError::WrongLedCount);
            }
            i += 1;
        }
        Ok(fields.1)
    }

    /// Whether the ring can show the animation now, and the time of a frame in ticks.
    pub fn set_software_animation(&self, frames: &Vec<Vec<[u8; 3]>>, timing: RgbPlaybackTiming) -> (interval:
        Result<u8, AnimationError>)
        ensures
            if self.is_wireless {
                interval == Err::<u8, AnimationError>(AnimationError::RadioOwned)
            } else {
                match timing_refused(frames@.len() as int, timing) {
                    Some(error) => interval == Err::<u8, AnimationError>(error),
                    None => if exists|i: int|
                        0 <= i < frames@.len() && (#[trigger] frames@[i])@.len()
                            != RING_LED_COUNT {
                        interval == Err::<u8, AnimationError>(AnimationError::WrongLedCount)
                    } else {
                        interval matches Ok(ticks) && ticks * 100 == timing.interval_hundredths
                    },
                }
            },
    {
        if self.is_wireless {
            return Err(AnimationError::RadioOwned);
        }
        self.validate_software_animation(frames, timing)
    }

    /// The frame that shows an effect in a zone: every LED in the effect's first colour, white
    /// without one, at a number of quarters of its brightness; all off when the effect is off.
    pub fn set_zone_effect(&self, zone: u8, off: bool, colors: &[[u8; 3]], quarters: u8) -> (frame:
        Result<Vec<[u8; 3]>, AnimationError>)
        ensures
            zone != 0 ==> frame == Err::<Vec<[u8; 3]>, AnimationError>(AnimationError::NoSuchZone),
            zone == 0 ==> {
                &&& frame matches Ok(frame) && frame@.len() == RING_LED_COUNT && forall|i: int|
                    0 <= i < RING_LED_COUNT ==> (#[trigger] frame@[i])@ == effect_color(
                        off,
                        colors@,
                        quarters,
                    )
            },
    {
        if zone != 0 {
            return Err(AnimationError::NoSuchZone);
        }
        let base: [u8; 3] = if colors.len() > 0 {
            colors[0]
        } else {
            [255u8, 255u8, 255u8]
        };
        let color: [u8; 3] = if off {
            [0u8, 0u8, 0u8]
        } else {
            scale_brightness(base, quarters)
        };
        assert(color@ =~= effect_color(off, colors@, quarters));
        let mut frame: Vec<[u8; 3]> = Vec::new();
        let mut i: usize = 0;
        while i < RING_LED_COUNT
            invariant
                i <= RING_LED_COUNT,
                frame@.len() == i,
                forall|j: int| 0 <= j < i ==> #[trigger] frame@[j] == color,
            decreases RING_LED_COUNT - i,
        {
            frame.push(color);
            i += 1;
        }
        Ok(frame)
    }

    /// The frame that shows these colours in a zone.
    pub fn set_direct_colors(&self, zone: u8, colors: Vec<[u8; 3]>) -> (frame: Result<
        Vec<[u8; 3]>,
        AnimationError,
    >)
        ensures
            frame == if zone != 0 {
                Err::<Vec<[u8; 3]>, AnimationError>(AnimationError::NoSuchZone)
            } else {
                Ok(colors)
            },
    {
        if zone != 0 {
            Err(AnimationError::NoSuchZone)
        } else {
            Ok(colors)
        }
    }
}

/// The colour that shows an effect.
pub open spec fn effect_color(off: bool, colors: Seq<[u8; 3]>, quarters: u8) -> Seq<u8> {
    let base = if colors.len() > 0 {
        colors[0]@
    } else {
        seq![255u8, 255u8, 255u8]
    };
    if off {
        seq![0u8, 0u8, 0u8]
    } else {
        seq![
            scaled_channel(base[0], quarters),
            scaled_channel(base[1], quarters),
            scaled_channel(base[2], quarters),
        ]
    }
}

/// The payload of an upload: the compressed colours, how many frames they are, how long each is
/// shown, and how many LEDs each has.
pub fn ring_payload(compressed: Vec<u8>, frames: u16, interval_ticks: u8) -> (payload: Vec<u8>)
    ensures
        payload@ == compressed@ + be16_bytes(frames) + seq![interval_ticks, RING_LED_COUNT as u8],
{
    let ghost start = compressed@;
    let mut payload = compressed;
    payload.push((frames / 256) as u8);
    payload.push((frames % 256) as u8);
    payload.push(interval_ticks);
    payload.push(RING_LED_COUNT as u8);
    assert(payload@ =~= start + be16_bytes(frames) + seq![interval_ticks, RING_LED_COUNT as u8]);
    payload
}

/// The command that uploads a payload.
pub fn ring_command(packet: Vec<u8>, key: (Vec<u8>, u8), stop: Arc<AtomicBool>, now: u64) -> (command:
    PendingCmd)
    ensures
        command == (PendingCmd {
            label: command.label,
            packet,
            reply_wait: RING_REPLY_WAIT,
            queued_at: now,
            play_safe: false,
            ring_key: Some(key),
            cancelled: Some(stop),
        }),
        command.label@ == "PushRgbData"@,
{
    PendingCmd {
        label: "PushRgbData",
        packet,
        reply_wait: RING_REPLY_WAIT,
        queued_at: now,
        play_safe: false,
        ring_key: Some(key),
        cancelled: Some(stop),
    }
}

/// The command that sends duties.
pub fn sync_command(packet: Vec<u8>, now: u64) -> (command: PendingCmd)
    ensures
        command == (PendingCmd {
            label: command.label,
            packet,
            reply_wait: SYNC_REPLY_WAIT,
            queued_at: now,
            play_safe: true,
            ring_key: None,
            cancelled: None,
        }),
        command.label@ == "SyncPumpFan"@,
{
    PendingCmd {
        label: "SyncPumpFan",
        packet,
        reply_wait: SYNC_REPLY_WAIT,
        queued_at: now,
        play_safe: true,
        ring_key: None,
        cancelled: None,
    }
}

/// How an upload goes out.
#[derive(Clone, Copy, Debug, PartialEq, Eq, Structural)]
pub enum RingRoute {
    /// The stream thread stops the panel for it.
    StreamThread,
    /// It waits: the last cycle is too recent, or software cooling needs the link.
    Throttled,
    /// A cycle is run for it now.
    Cycle,
}

/// How an upload goes out.
pub fn ring_route(link: &LcdLink, now: u64) -> (route: RingRoute)
    ensures
        route == if link.streaming {
            RingRoute::StreamThread
        } else if !link.may_hold(now) {
            RingRoute::Throttled
        } else {
            RingRoute::Cycle
        },
{
    if link.streaming {
        RingRoute::StreamThread
    } else if !link.hold_allowed(now) {
        RingRoute::Throttled
    } else {
        RingRoute::Cycle
    }
}

/// Why an upload is not shown. It waits in the queue then, unless it was given up or a newer one
/// waits already.
#[derive(Clone, Copy, Debug, PartialEq, Eq, Structural)]
pub enum RingUnsent {
    /// It waits for its turn, and should be asked for again after this time, in nanoseconds.
    Deferred { retry_after: u64 },
    /// Its cycle failed.
    Failed(CycleError),
}

impl LcdLink {
    /// Begins an upload. While a stream runs, or where the last cycle is too recent, or software
    /// cooling needs the link, the upload is queued. Otherwise it is handed back for a cycle of its
    /// own, and the uploads that wait are dropped, because the latest one counts. Which commands
    /// were given up is read off them.
    pub fn begin_upload(&mut self, command: PendingCmd, now: u64) -> (begun: Result<
        PendingCmd,
        RingUnsent,
    >)
        ensures
            if old(self).streaming || !old(self).may_hold(now) {
                &&& begun matches Err(RingUnsent::Deferred { retry_after }) && retry_after == old(self).retry_delay(now)
                &&& is_queued(old(self).pending@, command, final(self).pending@)
            } else {
                &&& begun == Ok::<PendingCmd, RingUnsent>(command)
                &&& exists|flags: Seq<bool>|
                    readable(old(self).pending@, flags) && final(self).pending@ == #[trigger] live(
                        old(self).pending@,
                        flags,
                        true,
                    )
            },
            *final(self) == (LcdLink { pending: final(self).pending, ..*old(self) }),
    {
        match ring_route(self, now) {
            RingRoute::StreamThread | RingRoute::Throttled => {
                self.defer(command);
                Err(RingUnsent::Deferred { retry_after: self.ring_retry_delay(now) })
            },
            RingRoute::Cycle => {
                let _ = self.take_unsafe();
                Ok(command)
            },
        }
    }

    /// Takes note of how the cycle of an upload went. One that is not shown is queued: it is asked
    /// for again later where a stream began first, and where the cycle failed the caller learns of
    /// the failure. Which commands were given up is read off them.
    pub fn ring_pushed(
        &mut self,
        command: PendingCmd,
        pushed: Result<bool, CycleError>,
        now: u64,
    ) -> (sent: Result<(), RingUnsent>)
        ensures
            match pushed {
                Ok(true) => sent is Ok && *final(self) == *old(self),
                Ok(false) => {
                    &&& sent matches Err(RingUnsent::Deferred { retry_after }) && retry_after
                        == old(self).retry_delay(now)
                    &&& is_queued(old(self).pending@, command, final(self).pending@)
                },
                Err(error) => {
                    &&& sent == Err::<(), RingUnsent>(RingUnsent::Failed(error))
                    &&& is_queued(old(self).pending@, command, final(self).pending@)
                },
            },
            *final(self) == (LcdLink { pending: final(self).pending, ..*old(self) }),
    {
        match pushed {
            Ok(true) => Ok(()),
            Ok(false) => {
                self.defer(command);
                Err(RingUnsent::Deferred { retry_after: self.ring_retry_delay(now) })
            },
            Err(error) => {
                self.defer(command);
                Err(RingUnsent::Failed(error))
            },
        }
    }
}

proof fn lemma_frame_byte(frame: Seq<[u8; 3]>, leds: int, k: int, c: int)
    requires
        0 <= k < leds,
        0 <= c < 3,
    ensures
        0 <= 3 * k + c < frame_bytes(frame, leds).len(),
        frame_bytes(frame, leds)[3 * k + c] == if k < frame.len() {
            frame[k]@[c]
        } else {
            0
        },
    decreases leds,
{
    lemma_frame_length(frame, leds);
    lemma_frame_length(frame, leds - 1);
    if k < leds - 1 {
        lemma_frame_byte(frame, leds - 1, k, c);
    }
}

proof fn lemma_ring_byte(frames: Seq<Vec<[u8; 3]>>, f: int, k: int, c: int)
    requires
        0 <= f < frames.len(),
        0 <= k < 24,
        0 <= c < 3,
    ensures
        ring_bytes(frames).len() == 72 * frames.len(),
        ring_bytes(frames)[72 * f + 3 * k + c] == if k < frames[f]@.len() {
            frames[f]@[k]@[c]
        } else {
            0
        },
    decreases frames.len(),
{
    let before = frames.drop_last();
    lemma_ring_length(frames);
    lemma_ring_length(before);
    lemma_frame_length(frames.last()@, 24);
    if f < before.len() {
        lemma_ring_byte(before, f, k, c);
        assert(before[f] == frames[f]);
    } else {
        lemma_frame_byte(frames.last()@, 24, k, c);
    }
}

/// The payload holds the colours in the order of the LEDs, and the frames in their order: LED `k`
/// of frame `f` has the three bytes from `72 * f + 3 * k` on, and is off where the frame is too
/// short for it.
pub proof fn lemma_every_led_gets_its_colour(
    frames: &Vec<Vec<[u8; 3]>>,
    raw: Vec<u8>,
    f: int,
    k: int,
    c: int,
)
    requires
        call_ensures(ring_data, (frames,), raw),
        0 <= f < frames@.len(),
        0 <= k < 24,
        0 <= c < 3,
    ensures
        raw@.len() == 72 * frames@.len(),
        k < frames@[f]@.len() ==> raw@[72 * f + 3 * k + c] == frames@[f]@[k]@[c],
        k >= frames@[f]@.len() ==> raw@[72 * f + 3 * k + c] == 0,
{
    lemma_ring_byte(frames@, f, k, c);
}

/// An upload is asked for with the colours of its frames, in the order of the LEDs, their number,
/// and the time of each.
pub proof fn lemma_requests_carry_the_colours(
    controller: H2AioController,
    link: LcdLink,
    frames: &Vec<Vec<[u8; 3]>>,
    interval_ticks: u8,
    cancelled: bool,
    waits: bool,
    key: (Vec<u8>, u8),
    count: u16,
    f: int,
    k: int,
    c: int,
)
    requires
        call_ensures(
            H2AioController::ring_request,
            (&controller, &link, frames, interval_ticks, cancelled, waits),
            Ok(RingRequest::Upload { key, frames: count }),
        ),
        0 <= f < frames@.len(),
        0 <= k < 24,
        0 <= c < 3,
    ensures
        key.1 == interval_ticks,
        count == frames@.len(),
        key.0@.len() == 72 * frames@.len(),
        k < frames@[f]@.len() ==> key.0@[72 * f + 3 * k + c] == frames@[f]@[k]@[c],
        k >= frames@[f]@.len() ==> key.0@[72 * f + 3 * k + c] == 0,
        !cancelled && !controller.is_wireless,
        frames@.len() <= 65535,
        link.ring.attempted is None ==> !link.software_cooling,
        !(link.streaming && waits),
        link.ring.applied matches Some(shown) ==> shown.0@ != key.0@ || shown.1 != key.1,
{
    lemma_ring_byte(frames@, f, k, c);
}

/// Frames are not uploaded for exactly one reason: they were given up, there are too many of them,
/// software cooling needs the link of a panel that is well, or the same upload waits for a stream.
/// There is nothing to do where there are no frames or the ring is driven over the radio; and all
/// other frames that the ring does not show yet are uploaded.
pub proof fn lemma_requests_are_refused_for_a_reason(
    controller: H2AioController,
    link: LcdLink,
    frames: &Vec<Vec<[u8; 3]>>,
    interval_ticks: u8,
    cancelled: bool,
    waits: bool,
    request: Result<RingRequest, RingRefusal>,
)
    requires
        call_ensures(
            H2AioController::ring_request,
            (&controller, &link, frames, interval_ticks, cancelled, waits),
            request,
        ),
    ensures
        request == Err::<RingRequest, RingRefusal>(RingRefusal::Cancelled) <==> cancelled,
        request == Err::<RingRequest, RingRefusal>(RingRefusal::TooManyFrames) <==> !cancelled
            && frames@.len() > 65535,
        request == Err::<RingRequest, RingRefusal>(RingRefusal::CoolingActive) ==> link.software_cooling
            && link.ring.attempted is None,
        request == Err::<RingRequest, RingRefusal>(RingRefusal::AlreadyQueued) ==> link.streaming
            && waits,
        !cancelled && (frames@.len() == 0 || frames@.len() <= 65535 && controller.is_wireless)
            ==> (request matches Ok(done) && done is Nothing),
        !cancelled && 0 < frames@.len() <= 65535 && !controller.is_wireless && (
        !link.software_cooling || link.ring.attempted is Some) && !(link.streaming && waits)
            && link.ring.applied is None ==> (request matches Ok(asked) && asked is Upload),
{
}

/// A time of a frame is taken only where the ring can play it exactly: it is a whole number of
/// ticks between 1 and 255, for 1 to 65535 frames, and nothing else of the timing is used.
pub proof fn lemma_playable_timings(
    frame_count: usize,
    timing: RgbPlaybackTiming,
    fields: Result<(u16, u8), AnimationError>,
)
    requires
        call_ensures(h2_playback_fields, (frame_count, timing), fields),
    ensures
        fields is Ok <==> 1 <= frame_count <= 65535 && timing.secondary_interval_ticks == 0
            && timing.secondary_frame_count == 0 && !timing.outer_longest
            && timing.interval_hundredths % 100 == 0 && 100 <= timing.interval_hundredths
            <= 25500,
        fields matches Ok(playable) ==> playable.0 == frame_count && playable.1 * 100
            == timing.interval_hundredths,
        fields == Err::<(u16, u8), AnimationError>(AnimationError::NoFrames) <==> frame_count == 0,
        fields == Err::<(u16, u8), AnimationError>(AnimationError::TooManyFrames) <==> frame_count
            > 65535,
        fields == Err::<(u16, u8), AnimationError>(AnimationError::ZeroInterval) ==> timing.interval_hundredths
            == 0,
        fields == Err::<(u16, u8), AnimationError>(AnimationError::IntervalTooLong)
            ==> timing.interval_hundredths > 25500,
        fields == Err::<(u16, u8), AnimationError>(AnimationError::FractionalTicks)
            ==> timing.interval_hundredths % 100 != 0,
        fields == Err::<(u16, u8), AnimationError>(AnimationError::SecondaryTiming)
            ==> timing.secondary_interval_ticks != 0 || timing.secondary_frame_count != 0
            || timing.outer_longest,
{
}

/// A time in milliseconds becomes the smallest whole number of ticks, of five eighths of a
/// millisecond each, that is not shorter; and a longer time never gets fewer ticks.
pub proof fn lemma_frame_interval_is_tight(
    interval_ms: u16,
    timing: RgbPlaybackTiming,
    longer_ms: u16,
    longer: RgbPlaybackTiming,
)
    requires
        call_ensures(frame_interval, (interval_ms,), timing),
        call_ensures(frame_interval, (longer_ms,), longer),
        interval_ms <= longer_ms,
    ensures
        timing.interval_hundredths % 100 == 0,
        5 * (timing.interval_hundredths / 100) >= 8 * interval_ms,
        timing.interval_hundredths > 0 ==> 5 * (timing.interval_hundredths / 100 - 1) < 8
            * interval_ms,
        timing.interval_hundredths <= longer.interval_hundredths,
        timing.secondary_interval_ticks == 0 && timing.secondary_frame_count == 0
            && !timing.outer_longest,
{
}

/// An animation is shown only where its timing fits and every frame has 24 colours; over the radio
/// it is not shown from here at all.
pub proof fn lemma_shown_animations_are_whole(
    controller: H2AioController,
    frames: &Vec<Vec<[u8; 3]>>,
    timing: RgbPlaybackTiming,
    interval: Result<u8, AnimationError>,
)
    requires
        call_ensures(H2AioController::set_software_animation, (&controller, frames, timing), interval),
    ensures
        interval is Ok <==> !controller.is_wireless && 1 <= frames@.len() <= 65535
            && timing.secondary_interval_ticks == 0 && timing.secondary_frame_count == 0
            && !timing.outer_longest && timing.interval_hundredths % 100 == 0 && 100
            <= timing.interval_hundredths <= 25500 && forall|i: int|
            0 <= i < frames@.len() ==> (#[trigger] frames@[i])@.len() == 24,
        interval matches Ok(ticks) ==> ticks * 100 == timing.interval_hundredths,
        interval == Err::<u8, AnimationError>(AnimationError::RadioOwned)
            <==> controller.is_wireless,
{
}

/// A payload ends with how many frames it has, high byte first, how long each is shown, and 24,
/// behind the compressed colours.
pub proof fn lemma_payload_ends_with_its_fields(
    compressed: Vec<u8>,
    frames: u16,
    interval_ticks: u8,
    payload: Vec<u8>,
)
    requires
        call_ensures(ring_payload, (compressed, frames, interval_ticks), payload),
    ensures
        ({
            let n = compressed@.len() as int;
            &&& payload@.len() == n + 4
            &&& payload@.take(n) == compressed@
            &&& 256 * payload@[n] + payload@[n + 1] == frames
            &&& payload@[n + 2] == interval_ticks
            &&& payload@[n + 3] == 24
        }),
{
    assert(payload@.take(compressed@.len() as int) =~= compressed@);
}

/// An effect fills the ring with one colour: off, or a share of the first colour in quarters, or of
/// white without one; each channel is at most half a step away from its exact share, and no more
/// than full.
pub proof fn lemma_effects_fill_the_ring(
    controller: H2AioController,
    zone: u8,
    off: bool,
    colors: &[[u8; 3]],
    quarters: u8,
    frame: Result<Vec<[u8; 3]>, AnimationError>,
    led: int,
    c: int,
)
    requires
        call_ensures(
            H2AioController::set_zone_effect,
            (&controller, zone, off, colors, quarters),
            frame,
        ),
        0 <= led < 24,
        0 <= c < 3,
    ensures
        frame is Ok <==> zone == 0,
        frame is Err ==> frame == Err::<Vec<[u8; 3]>, AnimationError>(AnimationError::NoSuchZone),
        frame matches Ok(leds) ==> {
            let base = if colors@.len() > 0 {
                colors@[0]@[c]
            } else {
                255
            };
            &&& leds@.len() == 24
            &&& off ==> leds@[led]@[c] == 0
            &&& !off && base * quarters <= 1020 ==> -2 <= 4 * leds@[led]@[c] - base * quarters <= 2
            &&& !off && base * quarters > 1020 ==> leds@[led]@[c] == 255
            &&& !off && quarters == 4 ==> leds@[led]@[c] == base
        },
{
    if let Ok(leds) = frame {
        let base = if colors@.len() > 0 {
            colors@[0]@[c]
        } else {
            255
        };
        assert(leds@[led]@ == effect_color(off, colors@, quarters));
        lemma_share_is_near(base, quarters);
        lemma_share_is_near(255, quarters);
        if colors@.len() > 0 {
            assert(colors@[0]@ == seq![colors@[0]@[0], colors@[0]@[1], colors@[0]@[2]]);
        }
    }
}

/// Ring uploads stop the panel, wait a tenth of a second for their reply and belong to their
/// owner; duties may be sent during play, wait a quarter of a second and have no owner. The two
/// never replace each other in the queue.
pub proof fn lemma_commands_are_told_apart(
    packet: Vec<u8>,
    key: (Vec<u8>, u8),
    stop: Arc<AtomicBool>,
    now: u64,
    upload: PendingCmd,
    duties: PendingCmd,
)
    requires
        call_ensures(ring_command, (packet, key, stop, now), upload),
        call_ensures(sync_command, (packet, now), duties),
    ensures
        upload.packet == packet && upload.queued_at == now && !upload.play_safe,
        upload.reply_wait == 100_000_000,
        upload.ring_key == Some(key) && upload.cancelled == Some(stop),
        duties.packet == packet && duties.queued_at == now && duties.play_safe,
        duties.reply_wait == 250_000_000,
        duties.ring_key is None && duties.cancelled is None,
        upload.label@ != duties.label@,
{
    reveal_strlit("PushRgbData");
    reveal_strlit("SyncPumpFan");
    assert("PushRgbData"@[0] == 'P');
    assert("SyncPumpFan"@[0] == 'S');
}

/// An upload runs now only where no stream does, three seconds after the last one, and not while
/// software cooling needs the link of a panel that is well.
pub proof fn lemma_uploads_are_spaced(link: LcdLink, now: u64, route: RingRoute)
    requires
        call_ensures(ring_route, (&link, now), route),
    ensures
        route is StreamThread <==> link.streaming,
        route is Cycle <==> !link.streaming && (!link.software_cooling || link.ring.attempted is Some)
            && (link.last_hold matches Some(at) ==> at + 3_000_000_000 <= now),
{
}

/// An upload that cannot run now is asked for again when three seconds have passed since the last
/// one, and a quarter of a second from now at the earliest.
pub proof fn lemma_deferred_uploads_come_back(
    command: PendingCmd,
    pushed: Result<bool, CycleError>,
    now: u64,
)
    ensures
        forall|link: &mut LcdLink, sent: Result<(), RingUnsent>| #[trigger]
            call_ensures(LcdLink::ring_pushed, (link, command, pushed, now), sent) ==> {
                &&& sent is Ok <==> pushed == Ok::<bool, CycleError>(true)
                &&& pushed matches Err(error) ==> sent == Err::<(), RingUnsent>(
                    RingUnsent::Failed(error),
                )
                &&& pushed == Ok::<bool, CycleError>(false) ==> {
                    &&& sent matches Err(RingUnsent::Deferred { retry_after })
                    &&& retry_after >= 250_000_000
                    &&& link.last_hold is None ==> retry_after == 250_000_000
                    &&& link.last_hold matches Some(at) ==> {
                        &&& at <= now ==> now + retry_after >= at + 3_000_000_000
                        &&& at <= now && retry_after > 250_000_000 ==> now + retry_after == at
                            + 3_000_000_000
                    }
                }
                &&& final(link).last_hold == link.last_hold
                &&& final(link).ring == link.ring
                &&& final(link).streaming == link.streaming
            },
{
}

/// An animation can be played exactly when it has 1 to 65535 frames of 24 colours each, no second
/// timing, and whole ticks, 1 to 255 of them.
pub proof fn lemma_playable_animations(
    controller: H2AioController,
    frames: &Vec<Vec<[u8; 3]>>,
    timing: RgbPlaybackTiming,
    interval: Result<u8, AnimationError>,
)
    requires
        call_ensures(
            H2AioController::validate_software_animation,
            (&controller, frames, timing),
            interval,
        ),
    ensures
        interval is Ok <==> 1 <= frames@.len() <= 65535 && timing.secondary_interval_ticks == 0
            && timing.secondary_frame_count == 0 && !timing.outer_longest
            && timing.interval_hundredths % 100 == 0 && 100 <= timing.interval_hundredths <= 25500
            && forall|i: int| 0 <= i < frames@.len() ==> (#[trigger] frames@[i])@.len() == 24,
        interval matches Ok(ticks) ==> ticks * 100 == timing.interval_hundredths,
{
}

/// Colours are tried again after ten seconds under software cooling, after one while the same
/// colours wait, and not by themselves otherwise. The reason that they wait is that the panel has
/// not recovered, or else that software cooling is on; without either there is none.
pub proof fn lemma_refused_colours_are_tried_again(
    refusal: RingRefusal,
    delay: Option<u64>,
    controller: H2AioController,
    link: &LcdLink,
    reason: Option<&'static str>,
)
    requires
        call_ensures(RingRefusal::retry_after, (&refusal,), delay),
        call_ensures(H2AioController::deferred_reason, (&controller, link), reason),
    ensures
        delay == Some(10_000_000_000u64) <==> refusal is CoolingActive,
        delay == Some(1_000_000_000u64) <==> refusal is AlreadyQueued,
        delay is None <==> !(refusal is CoolingActive || refusal is AlreadyQueued),
        reason is None <==> link.ring.attempted is None && !link.software_cooling,
        link.ring.attempted is Some ==> reason->0@
            == "The LCD connection has not recovered from an RGB upload. Further uploads are waiting."@,
        link.ring.attempted is None && link.software_cooling ==> reason->0@
            == "RGB changes wait while software fan or pump control uses this device."@,
{
}

/// The ring has one zone, and colours for it are shown as they are.
pub proof fn lemma_colours_are_for_the_ring(
    controller: H2AioController,
    zone: u8,
    colors: Vec<[u8; 3]>,
    frame: Result<Vec<[u8; 3]>, AnimationError>,
)
    requires
        call_ensures(H2AioController::set_direct_colors, (&controller, zone, colors), frame),
    ensures
        frame is Ok <==> zone == 0,
        frame matches Ok(frame) ==> frame == colors,
        frame matches Err(error) ==> error is NoSuchZone,
{
}

/// An upload begins when no stream runs and, unless it is to recover, software cooling does not
/// need the link, three seconds after the last one. Otherwise it is to be tried again when those
/// are over, and no sooner than in a quarter of a second.
pub proof fn lemma_uploads_begin_on_a_free_link(command: PendingCmd, now: u64)
    ensures
        forall|link: &mut LcdLink, begun: Result<PendingCmd, RingUnsent>| #[trigger]
            call_ensures(LcdLink::begin_upload, (link, command, now), begun) ==> {
                let free = !link.streaming && (!link.software_cooling || link.ring.attempted is Some)
                    && (link.last_hold is None || now - link.last_hold->0 >= 3_000_000_000);
                &&& begun is Ok <==> free
                &&& begun is Ok ==> begun->Ok_0 == command
                &&& begun matches Err(RingUnsent::Deferred { retry_after }) ==> {
                    &&& retry_after >= 250_000_000
                    &&& link.last_hold is Some && now >= link.last_hold->0 ==> now + retry_after
                        >= link.last_hold->0 + 3_000_000_000
                    &&& link.last_hold is None ==> retry_after == 250_000_000
                }
                &&& begun is Err ==> begun->Err_0 is Deferred
                &&& final(link).ring == link.ring
                &&& final(link).streaming == link.streaming
                &&& final(link).last_hold == link.last_hold
            },
{
}

/// What frames come to is settled in this order: they were given up; there are none; there are too
/// many; the ring is driven over the radio or shows them already, at this pace; software cooling
/// needs the link and no recovery is due; the same upload waits for a stream. Otherwise they are
/// uploaded.
pub proof fn lemma_every_request_has_its_outcome(
    controller: H2AioController,
    link: LcdLink,
    frames: &Vec<Vec<[u8; 3]>>,
    interval_ticks: u8,
    cancelled: bool,
    waits: bool,
    request: Result<RingRequest, RingRefusal>,
    raw: Vec<u8>,
)
    requires
        call_ensures(
            H2AioController::ring_request,
            (&controller, &link, frames, interval_ticks, cancelled, waits),
            request,
        ),
        call_ensures(ring_data, (frames,), raw),
    ensures
        ({
            let applied = link.ring.applied->0;
            let shown = link.ring.applied is Some && applied.0@ == raw@ && applied.1
                == interval_ticks;
            let usable = !cancelled && 0 < frames@.len() <= 65535 && !controller.is_wireless
                && !shown;
            let cooling = link.software_cooling && link.ring.attempted is None;
            &&& request == Err::<RingRequest, RingRefusal>(RingRefusal::CoolingActive) <==> usable
                && cooling
            &&& request == Err::<RingRequest, RingRefusal>(RingRefusal::AlreadyQueued) <==> usable
                && !cooling && link.streaming && waits
            &&& request is Ok && request->Ok_0 is Upload <==> usable && !cooling && !(
            link.streaming && waits)
            &&& request is Ok && request->Ok_0 is Nothing <==> !cancelled && (frames@.len() == 0
                || frames@.len() <= 65535 && (controller.is_wireless || shown))
        }),
{
}

/// Frames that are sent on a link whose waiting commands have no owner are refused only for too
/// many frames, for software cooling, or because their upload waits for a stream. The key of what
/// is uploaded is the bytes of the frames, with their pace.
pub proof fn lemma_sent_frames_are_uploaded(
    controller: H2AioController,
    link: &LcdLink,
    frames: &Vec<Vec<[u8; 3]>>,
    interval_ticks: u8,
    request: Result<RingRequest, RingRefusal>,
    raw: Vec<u8>,
)
    requires
        call_ensures(
            H2AioController::send_rgb_frames,
            (&controller, link, frames, interval_ticks),
            request,
        ),
        call_ensures(ring_data, (frames,), raw),
    ensures
        ({
            let applied = link.ring.applied->0;
            let shown = link.ring.applied is Some && applied.0@ == raw@ && applied.1
                == interval_ticks;
            let usable = 0 < frames@.len() <= 65535 && !controller.is_wireless && !shown;
            let cooling = link.software_cooling && link.ring.attempted is None;
            &&& request == Err::<RingRequest, RingRefusal>(RingRefusal::TooManyFrames)
                <==> frames@.len() > 65535
            &&& request == Err::<RingRequest, RingRefusal>(RingRefusal::CoolingActive) <==> usable
                && cooling
            &&& request == Err::<RingRequest, RingRefusal>(RingRefusal::AlreadyQueued) ==> usable
                && !cooling && link.streaming
            &&& usable && !cooling && !link.streaming ==> request is Ok && request->Ok_0 is Upload
            &&& !(request == Err::<RingRequest, RingRefusal>(RingRefusal::Cancelled))
            &&& request is Ok && request->Ok_0 is Upload ==> {
                &&& usable && !cooling
                &&& request->Ok_0->key.0@ == raw@
                &&& request->Ok_0->key.1 == interval_ticks
                &&& request->Ok_0->frames == frames@.len()
            }
        }),
{
}

} // verus!
