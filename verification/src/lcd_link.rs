//! What the LCD stream and the control channel of a cooler share: one USB handle, and the
//! coordination that keeps control commands off the wire while the panel's buffer is full.
use vstd::prelude::*;
use vstd::string::*;

use crate::bytes::be32;
use crate::group_recovery::{elapsed, time_since};
use crate::group_watch::UsbError;
use crate::lcd_reply::{
    block_reply, offered_size, BlockReply, NegotiatedH264ChunkSize, DEFAULT_H264_CHUNK_SIZE,
};
use crate::pending::{
    any_unsafe, cancelled_flags, copy_key, is_longest_wait, is_queued, key_of,
    lemma_parts_make_up_the_queue, live, longest_wait,
    queue_control, readable, same_key, some_play_safe, split_play_safe, split_unsafe, unsafe_waiting,
    upload_waiting, uploads, PendingCmd,
};

verus! {

/// How far apart two ring uploads must be, in nanoseconds.
pub const HOLD_MIN_INTERVAL: u64 = 3_000_000_000;

/// How soon a ring upload is tried again at the earliest, in nanoseconds.
pub const RING_RETRY_FLOOR: u64 = 250_000_000;

/// The buffer level at or below which control commands go out right away.
pub const CONTROL_SAFE_LEVEL: u8 = 1;

/// The level that is accepted once a command has waited long enough.
pub const CONTROL_RELAXED_LEVEL: u8 = 2;

/// How long that is, in nanoseconds.
pub const CONTROL_RELAX_AFTER: u64 = 3_000_000_000;

/// Why the panel cannot be used.
#[derive(Clone, Copy, Debug, PartialEq, Eq, Structural)]
pub enum LinkError {
    StorageInterrupted,
    RecoveryPending,
    CoolingActive,
    Cancelled,
    PlaybackActive,
    /// The image was not transferred; what the panel has stored is not known.
    TransferInterrupted,
    /// Only a part of the image was transferred; what the panel has stored is not known.
    TransferIncomplete,
}

impl LinkError {
    /// What the user is told.
    pub fn message(&self) -> (text: &'static str)
        ensures
            text@ == match self {
                LinkError::StorageInterrupted =>
                    "LCD storage transfer was interrupted; reconnect the device before further commands"@,
                LinkError::RecoveryPending => "LCD recovery is still pending"@,
                LinkError::CoolingActive =>
                    "Switch H2 fan and pump control to motherboard or device-managed mode before storing a startup image"@,
                LinkError::Cancelled => "Startup image upload cancelled"@,
                LinkError::PlaybackActive => "LCD playback or recovery is still active"@,
                LinkError::TransferInterrupted =>
                    "Startup image transfer interrupted. Storage state is unknown"@,
                LinkError::TransferIncomplete =>
                    "Startup image transfer incomplete. Storage state is unknown"@,
            },
    {
        match self {
            LinkError::StorageInterrupted =>
                "LCD storage transfer was interrupted; reconnect the device before further commands",
            LinkError::RecoveryPending => "LCD recovery is still pending",
            LinkError::CoolingActive =>
                "Switch H2 fan and pump control to motherboard or device-managed mode before storing a startup image",
            LinkError::Cancelled => "Startup image upload cancelled",
            LinkError::PlaybackActive => "LCD playback or recovery is still active",
            LinkError::TransferInterrupted =>
                "Startup image transfer interrupted. Storage state is unknown",
            LinkError::TransferIncomplete =>
                "Startup image transfer incomplete. Storage state is unknown",
        }
    }
}

/// How far the delivery of a ring payload is.
pub struct RingDelivery {
    /// The payload of the upload that the panel has not recovered from.
    pub attempted: Option<(Vec<u8>, u8)>,
    /// That upload was written completely.
    pub complete: bool,
    /// What the ring shows.
    pub applied: Option<(Vec<u8>, u8)>,
}

/// What a ring delivery stands for.
pub struct RingView {
    pub attempted: Option<(Seq<u8>, u8)>,
    pub complete: bool,
    pub applied: Option<(Seq<u8>, u8)>,
}

impl View for RingDelivery {
    type V = RingView;

    open spec fn view(&self) -> RingView {
        RingView {
            attempted: key_of(self.attempted),
            complete: self.complete,
            applied: key_of(self.applied),
        }
    }
}

impl RingView {
    /// The upload of a payload begins.
    pub open spec fn begun(self, key: (Seq<u8>, u8)) -> RingView {
        RingView { attempted: Some(key), complete: false, ..self }
    }

    /// The upload was written completely.
    pub open spec fn written(self) -> RingView {
        RingView { complete: true, ..self }
    }

    /// The panel has recovered. The ring shows the payload if it was written completely.
    pub open spec fn recovered(self) -> RingView {
        RingView {
            attempted: None,
            complete: false,
            applied: if self.complete {
                self.attempted
            } else {
                self.applied
            },
        }
    }
}

impl RingDelivery {
    /// Nothing was uploaded yet.
    pub fn new() -> (ring: Self)
        ensures
            ring@ == (RingView { attempted: None, complete: false, applied: None }),
    {
        RingDelivery { attempted: None, complete: false, applied: None }
    }

    /// The upload of a payload begins.
    pub fn begin(&mut self, key: (Vec<u8>, u8))
        ensures
            final(self)@ == old(self)@.begun((key.0@, key.1)),
    {
        self.attempted = Some(key);
        self.complete = false;
    }

    /// The upload was written completely.
    pub fn written(&mut self)
        ensures
            final(self)@ == old(self)@.written(),
    {
        self.complete = true;
    }

    /// The panel has recovered.
    pub fn recovered(&mut self)
        ensures
            final(self)@ == old(self)@.recovered(),
    {
        let attempted = self.attempted.take();
        if self.complete {
            self.applied = attempted;
        }
        self.complete = false;
    }
}

/// The link to a panel. Times are in nanoseconds.
pub struct LcdLink {
    /// The handle can be closed and opened again.
    pub reopenable: bool,
    /// A stream is feeding the panel.
    pub streaming: bool,
    pub h264_chunk_size: NegotiatedH264ChunkSize,
    /// The handle was opened again, so that the panel must be initialised before the next frame.
    pub needs_init: bool,
    /// When the last ring upload was.
    pub last_hold: Option<u64>,
    pub ring: RingDelivery,
    /// Fans or pump are controlled by software over this link.
    pub software_cooling: bool,
    /// A transfer to the panel's storage began and did not end.
    pub storage_interrupted: bool,
    pub pending: Vec<PendingCmd>,
}

impl LcdLink {
    /// A fresh link.
    pub fn new(reopenable: bool) -> (link: Self)
        ensures
            link.reopenable == reopenable,
            !link.streaming,
            link.h264_chunk_size.negotiated() is None,
            !link.needs_init,
            link.last_hold is None,
            link.ring@ == (RingView { attempted: None, complete: false, applied: None }),
            link.software_cooling,
            !link.storage_interrupted,
            link.pending@ == Seq::<PendingCmd>::empty(),
    {
        LcdLink {
            reopenable,
            streaming: false,
            h264_chunk_size: NegotiatedH264ChunkSize::default(),
            needs_init: false,
            last_hold: None,
            ring: RingDelivery::new(),
            software_cooling: true,
            storage_interrupted: false,
            pending: Vec::new(),
        }
    }

    /// Whether the panel takes commands at all.
    pub fn ensure_storage_ready(&self) -> (ready: Result<(), LinkError>)
        ensures
            ready == if self.storage_interrupted {
                Err::<(), LinkError>(LinkError::StorageInterrupted)
            } else {
                Ok(())
            },
    {
        if self.storage_interrupted {
            Err(LinkError::StorageInterrupted)
        } else {
            Ok(())
        }
    }

    /// Why the panel cannot store a startup image now, if so.
    pub open spec fn startup_refused(self, h2: bool) -> Option<LinkError> {
        if self.storage_interrupted {
            Some(LinkError::StorageInterrupted)
        } else if self.recovering() {
            Some(LinkError::RecoveryPending)
        } else if h2 && self.software_cooling {
            Some(LinkError::CoolingActive)
        } else {
            None
        }
    }

    /// Whether the panel can store a startup image now. On a cooler it cannot while fans or pump
    /// are controlled by software.
    pub fn startup_image_ready(&self, h2: bool) -> (ready: Result<(), LinkError>)
        ensures
            match self.startup_refused(h2) {
                Some(error) => ready == Err::<(), LinkError>(error),
                None => ready is Ok,
            },
    {
        if self.storage_interrupted {
            return Err(LinkError::StorageInterrupted);
        }
        if self.ring_recovery_pending() {
            return Err(LinkError::RecoveryPending);
        }
        if h2 && self.software_cooling {
            return Err(LinkError::CoolingActive);
        }
        Ok(())
    }

    /// Makes ready for the transfer of a startup image. The panel must be initialised
    /// afterwards.
    pub fn upload_startup_image(&mut self, cancelled: bool) -> (ready: Result<(), LinkError>)
        ensures
            match if cancelled {
                Some(LinkError::Cancelled)
            } else if old(self).startup_refused(false) is Some {
                old(self).startup_refused(false)
            } else if old(self).streaming {
                Some(LinkError::PlaybackActive)
            } else {
                None
            } {
                Some(error) => ready == Err::<(), LinkError>(error) && *final(self) == *old(self),
                None => ready is Ok && *final(self) == (LcdLink { needs_init: true, ..*old(self) }),
            },
    {
        if cancelled {
            return Err(LinkError::Cancelled);
        }
        if let Err(error) = self.startup_image_ready(false) {
            return Err(error);
        }
        if self.streaming || self.ring_recovery_pending() {
            return Err(LinkError::PlaybackActive);
        }
        self.needs_init = true;
        Ok(())
    }

    /// The transfer begins. Until it ends well, the panel's storage counts as interrupted.
    pub fn storage_transfer_begun(&mut self)
        ensures
            *final(self) == (LcdLink { storage_interrupted: true, ..*old(self) }),
    {
        self.storage_interrupted = true;
    }

    /// Looks at how much of the image was written, if it could be written at all.
    pub fn storage_written(&self, written: Option<usize>, length: usize) -> (complete: Result<
        (),
        LinkError,
    >)
        ensures
            complete == match written {
                None => Err::<(), LinkError>(LinkError::TransferInterrupted),
                Some(written) => if written == length {
                    Ok(())
                } else {
                    Err(LinkError::TransferIncomplete)
                },
            },
    {
        match written {
            None => Err(LinkError::TransferInterrupted),
            Some(written) => if written == length {
                Ok(())
            } else {
                Err(LinkError::TransferIncomplete)
            },
        }
    }

    /// The whole image was written. The result says whether the panel answered.
    pub fn storage_transfer_done(&mut self, reply: Option<usize>) -> (answered: bool)
        ensures
            *final(self) == (LcdLink { storage_interrupted: false, ..*old(self) }),
            answered == (reply matches Some(length) && length > 0),
    {
        self.storage_interrupted = false;
        match reply {
            Some(length) => length > 0,
            None => false,
        }
    }

    /// The size that was negotiated with the panel; none before that, and none after the handle
    /// was opened again.
    pub fn negotiated_h264_chunk_size(&self) -> (size: Option<usize>)
        ensures
            size == self.h264_chunk_size.negotiated(),
    {
        self.h264_chunk_size.get()
    }

    /// The size of the chunks to send.
    pub fn h264_chunk_size(&self) -> (size: usize)
        ensures
            size == match self.h264_chunk_size.negotiated() {
                Some(size) => size,
                None => DEFAULT_H264_CHUNK_SIZE,
            },
    {
        match self.h264_chunk_size.get() {
            Some(size) => size,
            None => DEFAULT_H264_CHUNK_SIZE,
        }
    }

    /// Whether a stream is feeding the panel.
    pub fn is_streaming(&self) -> (streaming: bool)
        ensures
            streaming == self.streaming,
    {
        self.streaming
    }

    /// A stream begins or ends.
    pub fn set_streaming(&mut self, on: bool)
        ensures
            *final(self) == (LcdLink { streaming: on, ..*old(self) }),
    {
        self.streaming = on;
    }

    /// Notes whether the panel must be initialised.
    pub fn set_needs_init(&mut self, on: bool)
        ensures
            *final(self) == (LcdLink { needs_init: on, ..*old(self) }),
    {
        self.needs_init = on;
    }

    /// Notes whether fans or pump are controlled by software.
    pub fn set_software_cooling_active(&mut self, active: bool)
        ensures
            *final(self) == (LcdLink { software_cooling: active, ..*old(self) }),
    {
        self.software_cooling = active;
    }

    /// The panel has not recovered from a ring upload.
    pub open spec fn recovering(self) -> bool {
        self.ring@.attempted is Some
    }

    /// Whether the panel has not recovered from a ring upload.
    pub fn ring_recovery_pending(&self) -> (pending: bool)
        ensures
            pending == self.recovering(),
    {
        self.ring.attempted.is_some()
    }

    /// A ring upload may run now: not while software cooling needs the link, except to recover,
    /// and not too soon after the last one.
    pub open spec fn may_hold(self, now: u64) -> bool {
        &&& !self.software_cooling || self.recovering()
        &&& self.last_hold matches Some(at) ==> time_since(now, at) >= HOLD_MIN_INTERVAL
    }

    /// Whether a ring upload may run now.
    pub fn hold_allowed(&self, now: u64) -> (allowed: bool)
        ensures
            allowed == self.may_hold(now),
    {
        if self.software_cooling && !self.ring_recovery_pending() {
            return false;
        }
        match self.last_hold {
            Some(at) => elapsed(now, at) >= HOLD_MIN_INTERVAL,
            None => true,
        }
    }

    /// When a ring upload should be tried again: once two uploads are far enough apart.
    pub open spec fn retry_delay(self, now: u64) -> int {
        match self.last_hold {
            Some(at) => {
                let left = HOLD_MIN_INTERVAL - time_since(now, at);
                if left > RING_RETRY_FLOOR {
                    left
                } else {
                    RING_RETRY_FLOOR as int
                }
            },
            None => RING_RETRY_FLOOR as int,
        }
    }

    /// When a ring upload should be tried again.
    pub fn ring_retry_delay(&self, now: u64) -> (delay: u64)
        ensures
            delay == self.retry_delay(now),
    {
        match self.last_hold {
            Some(at) => {
                let age: u64 = elapsed(now, at);
                if age < HOLD_MIN_INTERVAL && HOLD_MIN_INTERVAL - age > RING_RETRY_FLOOR {
                    HOLD_MIN_INTERVAL - age
                } else {
                    RING_RETRY_FLOOR
                }
            },
            None => RING_RETRY_FLOOR,
        }
    }

    /// The handle was opened again: what was negotiated no longer holds.
    pub fn reopened(&mut self)
        ensures
            final(self).h264_chunk_size.negotiated() is None,
            *final(self) == (LcdLink {
                h264_chunk_size: final(self).h264_chunk_size,
                ..*old(self)
            }),
    {
        self.h264_chunk_size.clear();
    }

    /// Negotiates the chunk size: what was negotiated before no longer holds, whether the panel
    /// answers or not.
    pub fn query_h264_block(&mut self, reply: Option<&[u8]>) -> (block: Option<BlockReply>)
        ensures
            match reply {
                Some(reply) => {
                    &&& final(self).h264_chunk_size.negotiated() == offered_size(reply@)
                    &&& block matches Some(block) && match offered_size(reply@) {
                        Some(size) => block == BlockReply::Size(size),
                        None => if reply@.len() >= 12 && be32(reply@.subrange(8, 12)) == 0 {
                            block is Default
                        } else {
                            block is Invalid
                        },
                    }
                },
                None => block is None && final(self).h264_chunk_size.negotiated() is None,
            },
            *final(self) == (LcdLink {
                h264_chunk_size: final(self).h264_chunk_size,
                ..*old(self)
            }),
    {
        self.h264_chunk_size.clear();
        match reply {
            Some(reply) => {
                let _ = self.h264_chunk_size.update(reply);
                Some(block_reply(reply))
            },
            None => None,
        }
    }

    /// What the ring shows.
    pub fn last_ring_payload(&self) -> (payload: Option<(Vec<u8>, u8)>)
        ensures
            key_of(payload) == self.ring@.applied,
    {
        match &self.ring.applied {
            Some(key) => Some(copy_key(key)),
            None => None,
        }
    }

    /// Whether the ring shows this payload.
    pub fn ring_shows(&self, key: &(Vec<u8>, u8)) -> (shows: bool)
        ensures
            shows == (self.ring@.applied == Some((key.0@, key.1))),
    {
        same_key(&self.ring.applied, &Some(copy_key(key)))
    }

    /// Whether the upload of this payload waits. Which commands were given up is read off them.
    pub fn ring_is_queued(&self, key: &(Vec<u8>, u8)) -> (waits: bool)
        ensures
            exists|flags: Seq<bool>|
                readable(self.pending@, flags) && waits == #[trigger] uploads(
                    self.pending@,
                    flags,
                    (key.0@, key.1),
                ),
    {
        let flags = cancelled_flags(&self.pending);
        upload_waiting(&self.pending, &flags, key)
    }

    /// Hands a command to the stream thread. The latest command of a label replaces earlier
    /// ones. Which commands were given up is read off them.
    pub fn defer(&mut self, command: PendingCmd)
        ensures
            is_queued(old(self).pending@, command, final(self).pending@),
            *final(self) == (LcdLink { pending: final(self).pending, ..*old(self) }),
    {
        queue_control(&mut self.pending, command);
    }

    /// Whether any command waits.
    pub fn has_pending(&self) -> (waits: bool)
        ensures
            waits == (self.pending@.len() > 0),
    {
        self.pending.len() > 0
    }

    /// Takes the commands that may be sent during play.
    pub fn take_play_safe(&mut self) -> (commands: Vec<PendingCmd>)
        ensures
            commands@ == old(self).pending@.filter(|c: PendingCmd| c.play_safe),
            final(self).pending@ == old(self).pending@.filter(|c: PendingCmd| !c.play_safe),
            *final(self) == (LcdLink { pending: final(self).pending, ..*old(self) }),
    {
        split_play_safe(&mut self.pending)
    }

    /// Whether a command waits that may be sent during play.
    pub fn has_play_safe_pending(&self) -> (waits: bool)
        ensures
            waits == exists|i: int|
                0 <= i < self.pending@.len() && (#[trigger] self.pending@[i]).play_safe,
            waits == some_play_safe(self.pending@),
    {
        let mut i: usize = 0;
        while i < self.pending.len()
            invariant
                i <= self.pending@.len(),
                forall|j: int| 0 <= j < i ==> !(#[trigger] self.pending@[j]).play_safe,
            decreases self.pending@.len() - i,
        {
            if self.pending[i].play_safe {
                return true;
            }
            i += 1;
        }
        false
    }

    /// Whether a command waits that needs the panel reinitialised. Which commands were given up
    /// is read off them.
    pub fn has_unsafe_pending(&self) -> (waits: bool)
        ensures
            exists|flags: Seq<bool>|
                readable(self.pending@, flags) && waits == #[trigger] any_unsafe(
                    self.pending@,
                    flags,
                ),
    {
        let flags = cancelled_flags(&self.pending);
        unsafe_waiting(&self.pending, &flags)
    }

    /// Takes the commands that need the panel reinitialised, and drops those that were given up.
    /// Which ones were is read off them.
    pub fn take_unsafe(&mut self) -> (commands: Vec<PendingCmd>)
        ensures
            exists|flags: Seq<bool>|
                readable(old(self).pending@, flags) && commands@ == #[trigger] live(
                    old(self).pending@,
                    flags,
                    false,
                ) && final(self).pending@ == live(old(self).pending@, flags, true),
            *final(self) == (LcdLink { pending: final(self).pending, ..*old(self) }),
    {
        let flags = cancelled_flags(&self.pending);
        split_unsafe(&mut self.pending, &flags)
    }

    /// How long the command that may be sent during play and has waited longest has waited.
    pub fn oldest_play_safe_age(&self, now: u64) -> (age: Option<u64>)
        ensures
            match age {
                Some(age) => is_longest_wait(self.pending@, now, age),
                None => forall|i: int|
                    0 <= i < self.pending@.len() ==> !(#[trigger] self.pending@[i]).play_safe,
            },
    {
        longest_wait(&self.pending, now)
    }

    /// Control commands can go out at this buffer level: at once when it is low, and at a higher
    /// level once one of them has waited long enough.
    pub open spec fn control_fits(self, level: Option<u8>, now: u64) -> bool {
        match level {
            Some(level) => {
                &&& exists|i: int|
                    0 <= i < self.pending@.len() && (#[trigger] self.pending@[i]).play_safe && (level
                        <= CONTROL_SAFE_LEVEL || level <= CONTROL_RELAXED_LEVEL && time_since(
                        now,
                        self.pending@[i].queued_at,
                    ) >= CONTROL_RELAX_AFTER)
            },
            None => false,
        }
    }

    /// Takes the control commands that can go out at this buffer level.
    pub fn flush_pending_control(&mut self, level: Option<u8>, now: u64) -> (commands: Vec<
        PendingCmd,
    >)
        ensures
            old(self).control_fits(level, now) ==> {
                &&& commands@ == old(self).pending@.filter(|c: PendingCmd| c.play_safe)
                &&& final(self).pending@ == old(self).pending@.filter(|c: PendingCmd| !c.play_safe)
                &&& *final(self) == (LcdLink { pending: final(self).pending, ..*old(self) })
            },
            !old(self).control_fits(level, now) ==> commands@.len() == 0 && *final(self) == *old(self),
    {
        if !self.has_play_safe_pending() {
            return Vec::new();
        }
        let fits = match level {
            Some(level) => if level <= CONTROL_SAFE_LEVEL {
                true
            } else if level <= CONTROL_RELAXED_LEVEL {
                match self.oldest_play_safe_age(now) {
                    Some(age) => age >= CONTROL_RELAX_AFTER,
                    None => false,
                }
            } else {
                false
            },
            None => false,
        };
        if !fits {
            assert(!self.control_fits(level, now));
            return Vec::new();
        }
        assert(self.control_fits(level, now));
        self.take_play_safe()
    }

    /// Ends a stream; `stopped` says whether the panel could be stopped, where it was to be.
    /// After a clean end the control commands that waited are handed out to be sent; otherwise
    /// they are dropped, because they are issued again anyway. Ring uploads stay in the queue.
    pub fn stream_end(&mut self, clean: bool, stopped: bool, shutting_down: bool) -> (commands: Vec<
        PendingCmd,
    >)
        ensures
            commands@ == if clean && stopped && !shutting_down {
                old(self).pending@.filter(|c: PendingCmd| c.play_safe)
            } else {
                Seq::empty()
            },
            final(self).pending@ == old(self).pending@.filter(|c: PendingCmd| !c.play_safe),
            *final(self) == (LcdLink {
                pending: final(self).pending,
                streaming: false,
                ..*old(self)
            }),
    {
        self.streaming = false;
        let commands = self.take_play_safe();
        if clean && stopped && !shutting_down {
            commands
        } else {
            Vec::new()
        }
    }
}

/// The length of an answer to a probe: no answer in time counts as an empty one.
pub fn probe_length(read: Result<usize, UsbError>) -> (length: Result<usize, UsbError>)
    ensures
        length == match read {
            Ok(length) => Ok::<usize, UsbError>(length),
            Err(UsbError::Timeout) => Ok(0),
            Err(error) => Err(error),
        },
{
    match read {
        Ok(length) => Ok(length),
        Err(UsbError::Timeout) => Ok(0),
        Err(error) => Err(error),
    }
}

/// The ring shows a payload only after its upload began, was written completely and was recovered
/// from. An upload that was cut off leaves what the ring showed.
pub proof fn lemma_rings_show_what_was_written(key: (Vec<u8>, u8))
    ensures
        forall|ring: &mut RingDelivery| #[trigger]
            call_ensures(RingDelivery::begin, (ring, key), ()) ==> {
                &&& final(ring).attempted is Some
                &&& key_of(final(ring).attempted) == Some((key.0@, key.1))
                &&& !final(ring).complete
                &&& key_of(final(ring).applied) == key_of(ring.applied)
            },
        forall|ring: &mut RingDelivery| #[trigger]
            call_ensures(RingDelivery::written, (ring,), ()) ==> {
                &&& final(ring).complete
                &&& key_of(final(ring).attempted) == key_of(ring.attempted)
                &&& key_of(final(ring).applied) == key_of(ring.applied)
            },
        forall|ring: &mut RingDelivery| #[trigger]
            call_ensures(RingDelivery::recovered, (ring,), ()) ==> {
                &&& final(ring).attempted is None
                &&& !final(ring).complete
                &&& ring.complete ==> key_of(final(ring).applied) == key_of(ring.attempted)
                &&& !ring.complete ==> key_of(final(ring).applied) == key_of(ring.applied)
            },
{
}

/// Two payloads are taken for the same exactly when they agree in every byte and in the interval.
pub proof fn lemma_shown_payloads_are_recognised(
    link: LcdLink,
    key: &(Vec<u8>, u8),
    shows: bool,
    payload: Option<(Vec<u8>, u8)>,
)
    requires
        call_ensures(LcdLink::ring_shows, (&link, key), shows),
        call_ensures(LcdLink::last_ring_payload, (&link,), payload),
    ensures
        shows <==> payload is Some && ({
            let shown = payload->0;
            &&& shown.1 == key.1
            &&& shown.0@.len() == key.0@.len()
            &&& forall|k: int| 0 <= k < key.0@.len() ==> shown.0@[k] == key.0@[k]
        }),
        payload is Some <==> link.ring.applied is Some,
        payload matches Some(shown) ==> {
            let applied = link.ring.applied->0;
            shown.0@ == applied.0@ && shown.1 == applied.1
        },
{
    if let Some(shown) = payload {
        if shown.1 == key.1 && shown.0@.len() == key.0@.len() && (forall|k: int|
            0 <= k < key.0@.len() ==> shown.0@[k] == key.0@[k]) {
            assert(shown.0@ =~= key.0@);
        }
    }
}

/// A startup image can be stored when no transfer was cut off, no recovery is due, and, on a
/// cooler, software controls neither fans nor pump. The first of these that fails is named.
pub proof fn lemma_startup_images_need_a_quiet_link(
    link: LcdLink,
    h2: bool,
    ready: Result<(), LinkError>,
    usable: Result<(), LinkError>,
)
    requires
        call_ensures(LcdLink::startup_image_ready, (&link, h2), ready),
        call_ensures(LcdLink::ensure_storage_ready, (&link,), usable),
    ensures
        ready is Ok <==> !link.storage_interrupted && link.ring.attempted is None && !(h2
            && link.software_cooling),
        ready matches Err(error) ==> {
            &&& error is StorageInterrupted <==> link.storage_interrupted
            &&& error is RecoveryPending <==> !link.storage_interrupted && link.ring.attempted is Some
            &&& error is CoolingActive <==> !link.storage_interrupted && link.ring.attempted is None
        },
        usable is Ok <==> !link.storage_interrupted,
        usable matches Err(error) ==> error is StorageInterrupted,
{
}

/// The transfer of a startup image is made ready for unless it was cancelled, the panel takes no
/// commands, has not recovered or is playing. Software cooling does not matter any more here.
pub proof fn lemma_transfers_need_a_free_panel(cancelled: bool)
    ensures
        forall|link: &mut LcdLink, ready: Result<(), LinkError>| #[trigger]
            call_ensures(LcdLink::upload_startup_image, (link, cancelled), ready) ==> {
                &&& ready is Ok <==> !cancelled && !link.storage_interrupted
                    && link.ring.attempted is None && !link.streaming
                &&& ready matches Err(error) ==> {
                    &&& error is Cancelled <==> cancelled
                    &&& error is StorageInterrupted <==> !cancelled && link.storage_interrupted
                    &&& error is RecoveryPending <==> !cancelled && !link.storage_interrupted
                        && link.ring.attempted is Some
                    &&& error is PlaybackActive <==> !cancelled && !link.storage_interrupted
                        && link.ring.attempted is None
                }
                &&& final(link).needs_init <==> link.needs_init || ready is Ok
                &&& final(link).storage_interrupted == link.storage_interrupted
                &&& final(link).pending == link.pending
                &&& final(link).streaming == link.streaming
            },
{
}

/// From the beginning of a transfer to its good end the panel counts as interrupted, and is
/// refused. Only the full length counts as complete.
pub proof fn lemma_transfers_end_well_or_block(
    link: LcdLink,
    written: Option<usize>,
    length: usize,
    complete: Result<(), LinkError>,
    reply: Option<usize>,
)
    requires
        call_ensures(LcdLink::storage_written, (&link, written, length), complete),
    ensures
        complete is Ok <==> written is Some && written->0 == length,
        complete matches Err(error) ==> {
            &&& error is TransferInterrupted <==> written is None
            &&& error is TransferIncomplete <==> written is Some
        },
        forall|link: &mut LcdLink| #[trigger]
            call_ensures(LcdLink::storage_transfer_begun, (link,), ()) ==> {
                &&& final(link).storage_interrupted
                &&& final(link).ring == link.ring
                &&& final(link).pending == link.pending
            },
        forall|link: &mut LcdLink, answered: bool| #[trigger]
            call_ensures(LcdLink::storage_transfer_done, (link, reply), answered) ==> {
                &&& !final(link).storage_interrupted
                &&& answered <==> reply is Some && reply->0 != 0
                &&& final(link).ring == link.ring
                &&& final(link).pending == link.pending
            },
{
}

/// A ring upload may run when software cooling does not need the link, or to recover, and three
/// seconds after the last one. It is tried again when these are over, but no sooner than a quarter
/// of a second from now.
pub proof fn lemma_ring_uploads_are_three_seconds_apart(
    link: LcdLink,
    now: u64,
    allowed: bool,
    delay: u64,
)
    requires
        call_ensures(LcdLink::hold_allowed, (&link, now), allowed),
        call_ensures(LcdLink::ring_retry_delay, (&link, now), delay),
    ensures
        allowed <==> {
            &&& !link.software_cooling || link.ring.attempted is Some
            &&& link.last_hold is None || now - link.last_hold->0 >= 3_000_000_000
        },
        delay >= 250_000_000,
        link.last_hold is Some && now >= link.last_hold->0 ==> now + delay >= link.last_hold->0
            + 3_000_000_000,
        delay > 250_000_000 ==> link.last_hold is Some && (now >= link.last_hold->0 ==> now + delay
            == link.last_hold->0 + 3_000_000_000) && (now < link.last_hold->0 ==> delay
            == 3_000_000_000),
        link.last_hold is Some && now < link.last_hold->0 ==> delay == 3_000_000_000,
{
}

/// Chunks have the negotiated size, or 202752 bytes while none is negotiated: after the handle was
/// opened again, after no answer, and after an answer that offers none.
pub proof fn lemma_chunks_have_the_negotiated_size(
    link: LcdLink,
    size: usize,
    known: Option<usize>,
    reply: Option<&[u8]>,
)
    requires
        call_ensures(LcdLink::h264_chunk_size, (&link,), size),
        call_ensures(LcdLink::negotiated_h264_chunk_size, (&link,), known),
    ensures
        known is Some ==> size == known->0,
        known is None ==> size == 202_752,
        forall|link: &mut LcdLink| #[trigger]
            call_ensures(LcdLink::reopened, (link,), ()) ==> {
                &&& final(link).h264_chunk_size.negotiated() is None
                &&& final(link).needs_init == link.needs_init
                &&& final(link).pending == link.pending
                &&& final(link).ring == link.ring
                &&& final(link).streaming == link.streaming
            },
        forall|link: &mut LcdLink, block: Option<BlockReply>| #[trigger]
            call_ensures(LcdLink::query_h264_block, (link, reply), block) ==> {
                let bytes = reply->0@;
                let value = bytes[8] * 0x100_0000 + bytes[9] * 0x1_0000 + bytes[10] * 0x100
                    + bytes[11];
                let offered = reply is Some && bytes.len() >= 12 && 0 < value <= 1_048_576;
                &&& block is Some <==> reply is Some
                &&& final(link).h264_chunk_size.negotiated() == if offered {
                    Some(value as usize)
                } else {
                    None
                }
                &&& offered ==> block == Some(BlockReply::Size(value as usize))
                &&& reply is Some && !offered ==> {
                    &&& block == Some(BlockReply::Default) <==> bytes.len() >= 12 && value == 0
                    &&& block == Some(BlockReply::Invalid) <==> bytes.len() < 12 || value > 0
                }
                &&& final(link).pending == link.pending
                &&& final(link).ring == link.ring
            },
{
}

/// Control commands go out at a buffer level of at most one, or of at most two once one of them has
/// waited three seconds. Then all of them go, and what needs the panel stopped stays. At a higher
/// or unknown level nothing goes.
pub proof fn lemma_commands_go_out_at_low_levels(level: Option<u8>, now: u64, i: int)
    ensures
        forall|link: &mut LcdLink, commands: Vec<PendingCmd>| #[trigger]
            call_ensures(LcdLink::flush_pending_control, (link, level, now), commands) ==> {
                let before = link.pending@;
                let after = final(link).pending@;
                let waited = 0 <= i < before.len() && before[i].play_safe;
                &&& level is None || level->0 > 2 ==> commands@.len() == 0 && after == before
                &&& waited && level is Some && level->0 <= 1 ==> commands@.contains(before[i])
                &&& waited && level is Some && level->0 == 2 && now - before[i].queued_at
                    >= 3_000_000_000 ==> commands@.contains(before[i])
                &&& 0 <= i < before.len() && !before[i].play_safe ==> after.contains(before[i])
                &&& 0 <= i < commands@.len() ==> commands@[i].play_safe && before.contains(
                    commands@[i],
                ) && level is Some && level->0 <= 2
                &&& 0 <= i < commands@.len() && level->0 == 2 ==> exists|k: int|
                    0 <= k < before.len() && (#[trigger] before[k]).play_safe && now
                        - before[k].queued_at >= 3_000_000_000
                &&& 0 <= i < after.len() ==> before.contains(after[i])
                &&& commands@.len() + after.len() == before.len()
                &&& commands@.len() > 0 && 0 <= i < after.len() ==> !after[i].play_safe
                &&& final(link).ring == link.ring
                &&& final(link).streaming == link.streaming
            },
{
    assert forall|link: &mut LcdLink, commands: Vec<PendingCmd>| #[trigger]
        call_ensures(LcdLink::flush_pending_control, (link, level, now), commands) implies parts_fit(
        link.pending@,
    ) by {
        lemma_parts_fit(link.pending@);
    }
}

spec fn parts_fit(queue: Seq<PendingCmd>) -> bool {
    let safe = queue.filter(|c: PendingCmd| c.play_safe);
    let rest = queue.filter(|c: PendingCmd| !c.play_safe);
    &&& safe.len() + rest.len() == queue.len()
    &&& forall|i: int|
        0 <= i < queue.len() && (#[trigger] queue[i]).play_safe ==> safe.contains(queue[i])
    &&& forall|i: int|
        0 <= i < queue.len() && !(#[trigger] queue[i]).play_safe ==> rest.contains(queue[i])
    &&& forall|i: int|
        0 <= i < safe.len() ==> (#[trigger] safe[i]).play_safe && queue.contains(safe[i])
    &&& forall|i: int|
        0 <= i < rest.len() ==> !(#[trigger] rest[i]).play_safe && queue.contains(rest[i])
}

proof fn lemma_parts_fit(queue: Seq<PendingCmd>)
    ensures
        parts_fit(queue),
{
    let safe = queue.filter(|c: PendingCmd| c.play_safe);
    let rest = queue.filter(|c: PendingCmd| !c.play_safe);
    lemma_parts_make_up_the_queue(queue, 0);
    assert forall|i: int| 0 <= i < queue.len() && (#[trigger] queue[i]).play_safe implies safe.contains(
        queue[i],
    ) by {
        lemma_parts_make_up_the_queue(queue, i);
    }
    assert forall|i: int| 0 <= i < queue.len() && !(#[trigger] queue[i]).play_safe implies rest.contains(
        queue[i],
    ) by {
        lemma_parts_make_up_the_queue(queue, i);
    }
    assert forall|i: int| 0 <= i < safe.len() implies (#[trigger] safe[i]).play_safe
        && queue.contains(safe[i]) by {
        lemma_parts_make_up_the_queue(queue, i);
    }
    assert forall|i: int| 0 <= i < rest.len() implies !(#[trigger] rest[i]).play_safe
        && queue.contains(rest[i]) by {
        lemma_parts_make_up_the_queue(queue, i);
    }
}

/// The end of a stream empties the queue of control commands and leaves the rest. They are sent
/// only after a clean end with the panel stopped and the service going on.
pub proof fn lemma_streams_end_with_their_commands(
    clean: bool,
    stopped: bool,
    shutting_down: bool,
    i: int,
)
    ensures
        forall|link: &mut LcdLink, commands: Vec<PendingCmd>| #[trigger]
            call_ensures(LcdLink::stream_end, (link, clean, stopped, shutting_down), commands) ==> {
                let before = link.pending@;
                let after = final(link).pending@;
                &&& !final(link).streaming
                &&& !clean || !stopped || shutting_down ==> commands@.len() == 0
                &&& clean && stopped && !shutting_down ==> commands@.len() + after.len()
                    == before.len()
                &&& clean && stopped && !shutting_down && 0 <= i < before.len()
                    && before[i].play_safe ==> commands@.contains(before[i])
                &&& 0 <= i < before.len() && !before[i].play_safe ==> after.contains(before[i])
                &&& 0 <= i < after.len() ==> !after[i].play_safe && before.contains(after[i])
                &&& 0 <= i < commands@.len() ==> commands@[i].play_safe && before.contains(
                    commands@[i],
                )
                &&& final(link).ring == link.ring
            },
{
    assert forall|link: &mut LcdLink, commands: Vec<PendingCmd>| #[trigger]
        call_ensures(
            LcdLink::stream_end,
            (link, clean, stopped, shutting_down),
            commands,
        ) implies parts_fit(link.pending@) by {
        lemma_parts_fit(link.pending@);
    }
}

/// An answer that did not come in time is empty; any other error stands.
pub proof fn lemma_silence_is_no_error(
    read: Result<usize, UsbError>,
    length: Result<usize, UsbError>,
)
    requires
        call_ensures(probe_length, (read,), length),
    ensures
        length is Ok <==> read is Ok || read == Err::<usize, UsbError>(UsbError::Timeout),
        read is Ok ==> length == read,
        read == Err::<usize, UsbError>(UsbError::Timeout) ==> length == Ok::<usize, UsbError>(0),
        length is Err ==> length == read,
{
}

/// A link that was just made plays nothing, has nothing waiting and nothing to recover from, and
/// counts as cooled by software.
pub proof fn lemma_fresh_links_are_idle(reopenable: bool, link: LcdLink)
    requires
        call_ensures(LcdLink::new, (reopenable,), link),
    ensures
        link.reopenable == reopenable,
        link.pending@.len() == 0,
        link.ring.attempted is None && link.ring.applied is None,
        !link.streaming && !link.needs_init && !link.storage_interrupted,
        link.software_cooling && link.last_hold is None,
{
}

/// Whether something waits, and whether some of it may be sent during play.
pub proof fn lemma_queues_are_looked_through(link: LcdLink, any: bool, safe: bool)
    requires
        call_ensures(LcdLink::has_pending, (&link,), any),
        call_ensures(LcdLink::has_play_safe_pending, (&link,), safe),
    ensures
        any <==> link.pending@.len() != 0,
        safe <==> exists|i: int|
            0 <= i < link.pending@.len() && (#[trigger] link.pending@[i]).play_safe,
{
}

/// Each flag of the link is set by its own function, and nothing else is.
pub proof fn lemma_flags_are_set_one_by_one(on: bool)
    ensures
        forall|link: &mut LcdLink| #[trigger]
            call_ensures(LcdLink::set_streaming, (link, on), ()) ==> {
                &&& final(link).streaming == on
                &&& final(link).needs_init == link.needs_init
                &&& final(link).software_cooling == link.software_cooling
                &&& final(link).storage_interrupted == link.storage_interrupted
            },
        forall|link: &mut LcdLink| #[trigger]
            call_ensures(LcdLink::set_needs_init, (link, on), ()) ==> {
                &&& final(link).needs_init == on
                &&& final(link).streaming == link.streaming
                &&& final(link).software_cooling == link.software_cooling
                &&& final(link).storage_interrupted == link.storage_interrupted
            },
        forall|link: &mut LcdLink| #[trigger]
            call_ensures(LcdLink::set_software_cooling_active, (link, on), ()) ==> {
                &&& final(link).software_cooling == on
                &&& final(link).streaming == link.streaming
                &&& final(link).needs_init == link.needs_init
                &&& final(link).storage_interrupted == link.storage_interrupted
            },
{
}

/// Taking the commands that may be sent during play loses none and leaves the others.
pub proof fn lemma_safe_commands_leave_the_queue(i: int)
    ensures
        forall|link: &mut LcdLink, commands: Vec<PendingCmd>| #[trigger]
            call_ensures(LcdLink::take_play_safe, (link,), commands) ==> {
                let before = link.pending@;
                let after = final(link).pending@;
                &&& commands@.len() + after.len() == before.len()
                &&& 0 <= i < before.len() && before[i].play_safe ==> commands@.contains(before[i])
                &&& 0 <= i < before.len() && !before[i].play_safe ==> after.contains(before[i])
                &&& 0 <= i < commands@.len() ==> commands@[i].play_safe
                &&& 0 <= i < after.len() ==> !after[i].play_safe
                &&& final(link).ring == link.ring
                &&& final(link).streaming == link.streaming
            },
{
    assert forall|link: &mut LcdLink, commands: Vec<PendingCmd>| #[trigger]
        call_ensures(LcdLink::take_play_safe, (link,), commands) implies parts_fit(
        link.pending@,
    ) by {
        lemma_parts_fit(link.pending@);
    }
}

/// Whether a stream runs and whether a recovery is due is read off the link.
pub proof fn lemma_links_tell_their_state(link: LcdLink, streaming: bool, pending: bool)
    requires
        call_ensures(LcdLink::is_streaming, (&link,), streaming),
        call_ensures(LcdLink::ring_recovery_pending, (&link,), pending),
    ensures
        streaming == link.streaming,
        pending <==> link.ring.attempted is Some,
{
}

/// The waiting commands have no owner that could give them up.
pub open spec fn unowned(queue: Seq<PendingCmd>) -> bool {
    forall|i: int| 0 <= i < queue.len() ==> (#[trigger] queue[i]).cancelled is None
}

proof fn lemma_unowned_flags(queue: Seq<PendingCmd>, flags: Seq<bool>)
    requires
        unowned(queue),
        readable(queue, flags),
    ensures
        flags.len() == queue.len(),
        forall|i: int| 0 <= i < queue.len() ==> !(#[trigger] flags[i]),
{
    assert forall|i: int| 0 <= i < queue.len() implies !(#[trigger] flags[i]) by {
        assert(crate::pending::read_off(queue[i], flags[i]));
        assert(queue[i].cancelled is None);
    }
}

/// While no waiting command can be given up, each one that may not be sent during play asks for a
/// stop of the panel, and an upload waits exactly when one of them has its payload.
pub proof fn lemma_unowned_commands_count(
    link: LcdLink,
    key: &(Vec<u8>, u8),
    stops: bool,
    waits: bool,
)
    requires
        unowned(link.pending@),
        call_ensures(LcdLink::has_unsafe_pending, (&link,), stops),
        call_ensures(LcdLink::ring_is_queued, (&link, key), waits),
    ensures
        stops <==> exists|i: int|
            0 <= i < link.pending@.len() && !(#[trigger] link.pending@[i]).play_safe,
        waits <==> exists|i: int|
            0 <= i < link.pending@.len() && key_of((#[trigger] link.pending@[i]).ring_key) == Some(
                (key.0@, key.1),
            ),
{
    let queue = link.pending@;
    let flags = choose|flags: Seq<bool>|
        readable(queue, flags) && stops == #[trigger] any_unsafe(queue, flags);
    lemma_unowned_flags(queue, flags);
    if stops {
        let i = choose|i: int| 0 <= i < queue.len() && !(#[trigger] queue[i]).play_safe && !flags[i];
        assert(!queue[i].play_safe);
    } else if exists|i: int| 0 <= i < queue.len() && !(#[trigger] queue[i]).play_safe {
        let i = choose|i: int| 0 <= i < queue.len() && !(#[trigger] queue[i]).play_safe;
        assert(!flags[i]);
    }
    let others = choose|flags: Seq<bool>|
        readable(queue, flags) && waits == #[trigger] uploads(queue, flags, (key.0@, key.1));
    lemma_unowned_flags(queue, others);
    if waits {
        let i = choose|i: int|
            0 <= i < queue.len() && !others[i] && key_of((#[trigger] queue[i]).ring_key) == Some(
                (key.0@, key.1),
            );
        assert(key_of(queue[i].ring_key) == Some((key.0@, key.1)));
    } else if exists|i: int|
        0 <= i < queue.len() && key_of((#[trigger] queue[i]).ring_key) == Some((key.0@, key.1)) {
        let i = choose|i: int|
            0 <= i < queue.len() && key_of((#[trigger] queue[i]).ring_key) == Some(
                (key.0@, key.1),
            );
        assert(!others[i]);
    }
}

/// A command of a new label, which nobody can give up, is put last; nothing else changes.
pub proof fn lemma_new_commands_wait_last(command: PendingCmd)
    requires
        command.cancelled is None,
    ensures
        forall|link: &mut LcdLink| #[trigger]
            call_ensures(LcdLink::defer, (link, command), ()) && (forall|i: int|
                0 <= i < link.pending@.len() ==> (#[trigger] link.pending@[i]).label@
                    != command.label@) ==> {
                &&& final(link).pending@ == link.pending@.push(command)
                &&& final(link).ring == link.ring
                &&& final(link).streaming == link.streaming
            },
{
    assert forall|link: &mut LcdLink| #[trigger]
        call_ensures(LcdLink::defer, (link, command), ()) && (forall|i: int|
            0 <= i < link.pending@.len() ==> (#[trigger] link.pending@[i]).label@
                != command.label@) implies final(link).pending@ == link.pending@.push(command) by {
        crate::pending::lemma_new_labels_are_added(link.pending@, command, final(link).pending@);
    }
}

/// While no waiting command can be given up, all that may not be sent during play are taken, and
/// all others stay.
pub proof fn lemma_unowned_commands_are_taken(command: PendingCmd)
    ensures
        forall|link: &mut LcdLink, commands: Vec<PendingCmd>| #[trigger]
            call_ensures(LcdLink::take_unsafe, (link,), commands) && unowned(link.pending@) ==> {
                &&& commands@.contains(command) <==> link.pending@.contains(command)
                    && !command.play_safe
                &&& final(link).pending@.contains(command) <==> link.pending@.contains(command)
                    && command.play_safe
                &&& final(link).ring == link.ring
            },
{
    assert forall|link: &mut LcdLink, commands: Vec<PendingCmd>| #[trigger]
        call_ensures(LcdLink::take_unsafe, (link,), commands) && unowned(link.pending@) implies (
    commands@.contains(command) <==> link.pending@.contains(command) && !command.play_safe) && (
    final(link).pending@.contains(command) <==> link.pending@.contains(command)
        && command.play_safe) by {
        let queue = link.pending@;
        let flags = choose|flags: Seq<bool>|
            readable(queue, flags) && commands@ == #[trigger] live(queue, flags, false) && final(link).pending@ == live(queue, flags, true);
        lemma_unowned_flags(queue, flags);
        crate::pending::lemma_only_live_commands_are_sent(queue, flags, false);
        crate::pending::lemma_only_live_commands_are_sent(queue, flags, true);
        assert(live(queue, flags, false).contains(command) <==> crate::pending::is_live(
            queue,
            flags,
            false,
            command,
        ));
        assert(live(queue, flags, true).contains(command) <==> crate::pending::is_live(
            queue,
            flags,
            true,
            command,
        ));
        if queue.contains(command) {
            let i = choose|i: int| 0 <= i < queue.len() && queue[i] == command;
            assert(!flags[i]);
            assert(queue[i] == command);
        }
    }
}

} // verus!
