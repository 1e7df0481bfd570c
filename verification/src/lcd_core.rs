//! Driving a panel: frames, streams, and recovery from errors.
use vstd::prelude::*;
use vstd::string::*;

use crate::bytes::append_bytes;
use crate::lcd_link::LcdLink;
use crate::lcd_reply::{firmware_bytes, firmware_text, lossy_text};
use crate::service::text_of;
use crate::text::{byte_value, decimal, decimal_text, joined, parse_byte, trim, trimmed};

verus! {

/// How often a frame is tried.
pub const FRAME_ATTEMPTS: u32 = 3;

/// The buffer level above which the panel must drain before it gets more.
pub const FULL_LEVEL: u8 = 3;

/// The level down to which it drains.
pub const DRAINED_LEVEL: u8 = 2;

/// How often a stall is cleared before the panel is given up.
pub const CLEARED_STALLS: u32 = 5;

/// How often the buffer level is asked for at most.
pub const WAIT_BUFFER_POLLS: u32 = 600;

/// How long that takes at most, in nanoseconds.
pub const WAIT_BUFFER_TIMEOUT: u64 = 30_000_000_000;

/// A packet: its head, and what it carries.
pub fn framed_packet(header: &[u8; 512], payload: &[u8]) -> (packet: Vec<u8>)
    ensures
        packet@ == header@ + payload@,
{
    let mut packet: Vec<u8> = Vec::new();
    append_bytes(&mut packet, header.as_slice());
    append_bytes(&mut packet, payload);
    assert(packet@ =~= header@ + payload@);
    packet
}

/// The error of the image library.
#[verifier::external_type_specification]
#[verifier::external_body]
pub struct ImageFailure(image::ImageError);

/// A JPEG file can have these dimensions.
pub open spec fn jpeg_dimensions(width: u32, height: u32) -> bool {
    1 <= width <= 65535 && 1 <= height <= 65535
}

/// The JPEG file of an image of one colour.
pub uninterp spec fn plain_jpeg(width: u32, height: u32, color: Seq<u8>, quality: u8) -> Seq<u8>;

/// The PNG file of an image of one colour and opacity.
pub uninterp spec fn plain_png(width: u32, height: u32, color: Seq<u8>) -> Seq<u8>;

/// `JpegEncoder::encode_image` with the given quality, on an `ImageBuffer` of one colour and the
/// given dimensions: it succeeds exactly when both dimensions are between 1 and 65535, and the
/// file is a function of the dimensions, the colour and the quality. The image, and a row of it,
/// must fit in memory.
#[verifier::external_body]
fn encode_jpeg(width: u32, height: u32, color: [u8; 3], quality: u8) -> (file: Result<
    Vec<u8>,
    image::ImageError,
>)
    requires
        3 * width <= isize::MAX,
        3 * width * height <= isize::MAX,
    ensures
        (file is Ok) == jpeg_dimensions(width, height),
        file matches Ok(bytes) ==> bytes@ == plain_jpeg(width, height, color@, quality),
{
    let plain = image::ImageBuffer::from_pixel(width, height, image::Rgb(color));
    let mut bytes = Vec::new();
    image::codecs::jpeg::JpegEncoder::new_with_quality(&mut bytes, quality).encode_image(&plain)?;
    Ok(bytes)
}

/// `ImageBuffer::write_to` in the PNG format, on an image of one colour and opacity and the given
/// dimensions: it succeeds exactly when both dimensions are at least 1, and the file is a function
/// of the dimensions and the colour. The image must fit in memory, and the bytes of a row, which
/// are counted in 32 bits where they are alike, must fit in those.
#[verifier::external_body]
fn encode_png(width: u32, height: u32, color: [u8; 4]) -> (file: Result<Vec<u8>, image::ImageError>)
    requires
        4 * width < u32::MAX,
        4 * width <= isize::MAX,
        4 * width * height <= isize::MAX,
    ensures
        (file is Ok) == (width >= 1 && height >= 1),
        file matches Ok(bytes) ==> bytes@ == plain_png(width, height, color@),
{
    let plain = image::ImageBuffer::from_pixel(width, height, image::Rgba(color));
    let mut bytes = std::io::Cursor::new(Vec::new());
    plain.write_to(&mut bytes, image::ImageFormat::Png)?;
    Ok(bytes.into_inner())
}

/// The file that clears the picture of a panel, unless its dimensions are none that a picture
/// can have.
pub fn clear_jpg_layer(width: u32, height: u32, quality: u8) -> (file: Option<Vec<u8>>)
    requires
        3 * width <= isize::MAX,
        3 * width * height <= isize::MAX,
    ensures
        (file is Some) == jpeg_dimensions(width, height),
        file matches Some(bytes) ==> bytes@ == plain_jpeg(
            width,
            height,
            seq![0u8, 0u8, 0u8],
            quality,
        ),
{
    let black = [0u8, 0u8, 0u8];
    assert(black@ =~= seq![0u8, 0u8, 0u8]);
    match encode_jpeg(width, height, black, quality) {
        Ok(bytes) => Some(bytes),
        Err(_) => None,
    }
}

/// The file that clears the overlay of a panel, unless one of its dimensions is zero.
pub fn clear_png_layer(width: u32, height: u32) -> (file: Option<Vec<u8>>)
    requires
        4 * width < u32::MAX,
        4 * width <= isize::MAX,
        4 * width * height <= isize::MAX,
    ensures
        (file is Some) == (width >= 1 && height >= 1),
        file matches Some(bytes) ==> bytes@ == plain_png(
            width,
            height,
            seq![0u8, 0u8, 0u8, 0u8],
        ),
{
    let clear = [0u8, 0u8, 0u8, 0u8];
    assert(clear@ =~= seq![0u8, 0u8, 0u8, 0u8]);
    match encode_png(width, height, clear) {
        Ok(bytes) => Some(bytes),
        Err(_) => None,
    }
}

/// Why a panel is not used.
#[derive(Clone, Copy, Debug, PartialEq, Eq, Structural)]
pub enum PanelError {
    ShuttingDown,
    /// The handle is stale: the panel must be found again.
    Stale,
    /// The panel does not come back: it must be found again.
    Unresponsive,
    /// The frame is larger than the panel takes.
    FrameTooLarge,
    /// The panel does not say how full its buffer is.
    NoFeedback,
    /// The panel's buffer does not drain.
    NotDraining,
    /// The stream is empty.
    EmptyStream,
}

/// What came of a frame.
#[derive(Clone, Copy, Debug, PartialEq, Eq, Structural)]
pub enum FrameStep {
    Done,
    Retry,
    Fail,
}

/// The state of a panel.
pub struct PanelState {
    pub initialized: bool,
    pub consecutive_failures: u32,
    pub device_gone: bool,
    pub firmware: Option<String>,
}

impl PanelState {
    /// A panel that was just opened.
    pub fn new() -> (state: Self)
        ensures
            !state.initialized,
            state.consecutive_failures == 0,
            !state.device_gone,
            state.firmware is None,
    {
        PanelState {
            initialized: false,
            consecutive_failures: 0,
            device_gone: false,
            firmware: None,
        }
    }

    /// Something was written.
    pub fn note_write_success(&mut self)
        ensures
            *final(self) == (PanelState { consecutive_failures: 0, ..*old(self) }),
    {
        self.consecutive_failures = 0;
    }

    /// The panel was found again.
    pub fn reset_failure_state(&mut self)
        ensures
            *final(self) == (PanelState {
                device_gone: false,
                consecutive_failures: 0,
                ..*old(self)
            }),
    {
        self.device_gone = false;
        self.consecutive_failures = 0;
    }

    /// Recovery from a failed write begins, unless it makes no sense.
    pub fn begin_recovery(&mut self, shutting_down: bool) -> (begun: Result<(), PanelError>)
        requires
            old(self).consecutive_failures < u32::MAX,
        ensures
            if shutting_down {
                begun == Err::<(), PanelError>(PanelError::ShuttingDown) && *final(self) == *old(self)
            } else if old(self).device_gone {
                begun == Err::<(), PanelError>(PanelError::Stale) && *final(self) == *old(self)
            } else {
                begun is Ok && *final(self) == (PanelState {
                    consecutive_failures: (old(self).consecutive_failures + 1) as u32,
                    ..*old(self)
                })
            },
    {
        if shutting_down {
            return Err(PanelError::ShuttingDown);
        }
        if self.device_gone {
            return Err(PanelError::Stale);
        }
        self.consecutive_failures = self.consecutive_failures + 1;
        Ok(())
    }

    /// Recovery ends: the handle was opened again, or else stalls were cleared or not. A panel
    /// that keeps stalling is given up.
    pub fn try_recover(&mut self, reopened: bool, cleared: bool) -> (recovered: Result<
        (),
        PanelError,
    >)
        ensures
            if reopened {
                recovered is Ok && *final(self) == (PanelState {
                    consecutive_failures: 0,
                    ..*old(self)
                })
            } else if cleared && old(self).consecutive_failures <= CLEARED_STALLS {
                recovered is Ok && *final(self) == *old(self)
            } else {
                recovered == Err::<(), PanelError>(PanelError::Unresponsive) && *final(self) == (
                PanelState { device_gone: true, ..*old(self) })
            },
    {
        if reopened {
            self.consecutive_failures = 0;
            return Ok(());
        }
        if cleared && self.consecutive_failures <= CLEARED_STALLS {
            return Ok(());
        }
        self.device_gone = true;
        Err(PanelError::Unresponsive)
    }

    /// Takes over the firmware version that the panel reports, if it reports any.
    pub fn read_firmware(&mut self, reply: &[u8])
        ensures
            text_of(final(self).firmware) == if lossy_text(firmware_bytes(reply@)).len() > 0 {
                Some(lossy_text(firmware_bytes(reply@)))
            } else {
                text_of(old(self).firmware)
            },
            *final(self) == (PanelState { firmware: final(self).firmware, ..*old(self) }),
    {
        if let Some(text) = firmware_text(reply) {
            self.firmware = Some(text);
        }
    }

    /// Takes note of how the `attempt`-th try at a frame went, counted from zero. After a failure
    /// the panel is initialised again.
    pub fn send_frame_verified(&mut self, attempt: u32, sent: bool) -> (step: FrameStep)
        ensures
            step == if sent {
                FrameStep::Done
            } else if attempt + 1 < FRAME_ATTEMPTS {
                FrameStep::Retry
            } else {
                FrameStep::Fail
            },
            *final(self) == if step is Retry {
                PanelState { initialized: false, ..*old(self) }
            } else {
                *old(self)
            },
    {
        if sent {
            return FrameStep::Done;
        }
        if attempt < FRAME_ATTEMPTS - 1 {
            self.initialized = false;
            return FrameStep::Retry;
        }
        FrameStep::Fail
    }
}

/// Whether a frame fits.
pub fn frame_fits(length: usize, max_payload: usize) -> (fits: Result<(), PanelError>)
    ensures
        fits == if length > max_payload {
            Err::<(), PanelError>(PanelError::FrameTooLarge)
        } else {
            Ok(())
        },
{
    if length > max_payload {
        Err(PanelError::FrameTooLarge)
    } else {
        Ok(())
    }
}

/// Whether the panel must drain after a frame.
pub fn must_drain(level: Option<u8>) -> (drain: bool)
    ensures
        drain == (level matches Some(level) && level > FULL_LEVEL),
{
    match level {
        Some(level) => level > FULL_LEVEL,
        None => false,
    }
}

/// A wait for the panel's buffer to drain. Times are in nanoseconds.
pub struct BufferWait {
    pub threshold: u8,
    pub deadline: u64,
    pub polls: u32,
    /// The last level that was above the threshold.
    pub last: Option<u8>,
}

/// What a wait comes to.
#[derive(Clone, Copy, Debug, PartialEq, Eq, Structural)]
pub enum WaitStep {
    /// Ask for the level.
    Poll,
    /// Wait a moment.
    Sleep,
    /// The wait is over, with this level.
    Over(Option<u8>),
}

impl BufferWait {
    /// A wait for the buffer to drain to `threshold`.
    pub fn new(threshold: u8, now: u64) -> (wait: Self)
        requires
            now + WAIT_BUFFER_TIMEOUT <= u64::MAX,
        ensures
            wait == (BufferWait {
                threshold,
                deadline: (now + WAIT_BUFFER_TIMEOUT) as u64,
                polls: 0,
                last: None,
            }),
    {
        BufferWait { threshold, deadline: now + WAIT_BUFFER_TIMEOUT, polls: 0, last: None }
    }

    /// The wait goes on as long as nobody stops it, with a bound on its length.
    pub fn before_poll(&mut self, stopping: bool, now: u64) -> (step: WaitStep)
        ensures
            if stopping || old(self).polls >= WAIT_BUFFER_POLLS || now >= old(self).deadline {
                step == WaitStep::Over(old(self).last) && *final(self) == *old(self)
            } else {
                step is Poll && *final(self) == (BufferWait {
                    polls: (old(self).polls + 1) as u32,
                    ..*old(self)
                })
            },
    {
        if stopping || self.polls >= WAIT_BUFFER_POLLS || now >= self.deadline {
            return WaitStep::Over(self.last);
        }
        self.polls = self.polls + 1;
        WaitStep::Poll
    }

    /// Takes note of the level, if the panel gave one.
    pub fn after_poll(&mut self, level: Option<u8>) -> (step: WaitStep)
        ensures
            match level {
                Some(level) => if level <= old(self).threshold {
                    step == WaitStep::Over(Some(level)) && *final(self) == *old(self)
                } else {
                    step is Sleep && *final(self) == (BufferWait {
                        last: Some(level),
                        ..*old(self)
                    })
                },
                None => step == WaitStep::Over(old(self).last) && *final(self) == *old(self),
            },
    {
        match level {
            Some(level) => if level <= self.threshold {
                WaitStep::Over(Some(level))
            } else {
                self.last = Some(level);
                WaitStep::Sleep
            },
            None => WaitStep::Over(self.last),
        }
    }
}

/// What follows a chunk of a stream.
#[derive(Clone, Copy, Debug, PartialEq, Eq, Structural)]
pub enum ChunkStep {
    /// Go on, at this buffer level.
    Go(u8),
    /// Wait until the buffer has drained.
    Drain,
    Fail(PanelError),
}

/// What follows a chunk, given the level in its reply, or else the one that was asked for.
pub fn after_chunk(replied: Option<u8>, asked: Option<u8>) -> (step: ChunkStep)
    ensures
        step == match if replied is Some {
            replied
        } else {
            asked
        } {
            Some(level) => if level > FULL_LEVEL {
                ChunkStep::Drain
            } else {
                ChunkStep::Go(level)
            },
            None => ChunkStep::Fail(PanelError::NoFeedback),
        },
{
    let level = if replied.is_some() {
        replied
    } else {
        asked
    };
    match level {
        Some(level) => if level > FULL_LEVEL {
            ChunkStep::Drain
        } else {
            ChunkStep::Go(level)
        },
        None => ChunkStep::Fail(PanelError::NoFeedback),
    }
}

/// What follows a wait for the buffer to drain.
pub fn after_drain(level: Option<u8>) -> (step: ChunkStep)
    ensures
        step == match level {
            Some(level) => if level <= DRAINED_LEVEL {
                ChunkStep::Go(level)
            } else {
                ChunkStep::Fail(PanelError::NotDraining)
            },
            None => ChunkStep::Fail(PanelError::NotDraining),
        },
{
    match level {
        Some(level) => if level <= DRAINED_LEVEL {
            ChunkStep::Go(level)
        } else {
            ChunkStep::Fail(PanelError::NotDraining)
        },
        None => ChunkStep::Fail(PanelError::NotDraining),
    }
}

/// Whether a stream stops the panel at its end. A stream that ends by itself does not: the panel
/// still shows what it has buffered.
pub fn stops_playback(looping: bool, stop: bool, shutting_down: bool, failed: bool) -> (stops: bool)
    ensures
        stops == (looping || stop || shutting_down || failed),
{
    looping || stop || shutting_down || failed
}

/// Whether the panel is stopped for ring uploads now, given whether one waits.
pub fn reinit_due(link: &LcdLink, upload_waits: bool, now: u64) -> (due: bool)
    ensures
        due == ((upload_waits || link.recovering()) && link.may_hold(now)),
{
    (upload_waits || link.ring_recovery_pending()) && link.hold_allowed(now)
}

/// What the initialisation of a cooler's panel does first.
#[derive(Clone, Copy, Debug, PartialEq, Eq, Structural)]
pub enum InitGate {
    /// Nothing: a transfer to the panel's storage was interrupted.
    StorageInterrupted,
    /// The panel must recover from a ring upload first.
    Recover,
    /// The panel must recover first, and it is too early for that.
    CoolingDown,
    /// It can run.
    Run,
}

/// What the initialisation of a cooler's panel does first.
pub fn h2_control_init(link: &LcdLink, now: u64) -> (gate: InitGate)
    ensures
        gate == if link.storage_interrupted {
            InitGate::StorageInterrupted
        } else if !link.recovering() {
            InitGate::Run
        } else if link.may_hold(now) {
            InitGate::Recover
        } else {
            InitGate::CoolingDown
        },
{
    if link.storage_interrupted {
        InitGate::StorageInterrupted
    } else if !link.ring_recovery_pending() {
        InitGate::Run
    } else if link.hold_allowed(now) {
        InitGate::Recover
    } else {
        InitGate::CoolingDown
    }
}

/// What follows a read from a stream.
#[derive(Clone, Copy, Debug, PartialEq, Eq, Structural)]
pub enum ReadStep {
    /// The stream is over.
    End,
    /// Start again from the beginning.
    Rewind,
    /// Send what was read.
    Send,
}

/// What follows a read of `count` bytes from a stream.
pub fn after_read(count: usize, looping: bool) -> (step: ReadStep)
    ensures
        step == if count > 0 {
            ReadStep::Send
        } else if looping {
            ReadStep::Rewind
        } else {
            ReadStep::End
        },
{
    if count > 0 {
        ReadStep::Send
    } else if looping {
        ReadStep::Rewind
    } else {
        ReadStep::End
    }
}

/// Whether a stream that was started again can go on: an empty one cannot be looped.
pub fn after_rewind(count: usize) -> (goes_on: Result<(), PanelError>)
    ensures
        goes_on == if count > 0 {
            Ok::<(), PanelError>(())
        } else {
            Err(PanelError::EmptyStream)
        },
{
    if count > 0 {
        Ok(())
    } else {
        Err(PanelError::EmptyStream)
    }
}

/// Whether the chunk that ends at `position` is the last one. A looping stream has none.
pub fn is_last_chunk(looping: bool, position: u64, length: u64) -> (last: bool)
    ensures
        last == (!looping && position >= length),
{
    !looping && position >= length
}

/// The pace of a stream: how long to wait before the next chunk, in nanoseconds.
pub fn wait_before_chunk(deadline: u64, now: u64) -> (wait: u64)
    ensures
        wait == if now < deadline {
            deadline - now
        } else {
            0
        },
{
    if now < deadline {
        deadline - now
    } else {
        0
    }
}

/// When the chunk after the next is due: an interval later, or an interval from now when the
/// stream has fallen behind.
pub fn next_deadline(deadline: u64, interval: u64, now: u64) -> (next: u64)
    requires
        deadline + interval <= u64::MAX,
        now + interval <= u64::MAX,
    ensures
        next == if deadline + interval < now {
            now + interval
        } else {
            deadline + interval
        },
        next >= now,
{
    let next: u64 = deadline + interval;
    if next < now {
        now + interval
    } else {
        next
    }
}

/// What the kernel says of a USB device; what could not be read is missing.
pub struct SysfsDevice {
    pub busnum: Option<String>,
    pub devnum: Option<String>,
    pub serial: Option<String>,
}

/// The text is the number, with white space around it.
pub open spec fn spells(text: Option<String>, number: u8) -> bool {
    text matches Some(text) && byte_value(trimmed(text@)) == Some(number)
}

/// The serial that the kernel has of a device: that of the first entry, from `from` on, which is
/// the device and has one. An entry that is the device and cannot be read ends the search.
pub open spec fn kernel_serial(entries: Seq<SysfsDevice>, bus: u8, address: u8, from: int) -> Option<
    Seq<char>,
>
    decreases entries.len() - from,
{
    if from >= entries.len() {
        None
    } else if spells(entries[from].busnum, bus) && spells(entries[from].devnum, address) {
        match entries[from].serial {
            None => None,
            Some(serial) => if trimmed(serial@).len() > 0 {
                Some(trimmed(serial@))
            } else {
                kernel_serial(entries, bus, address, from + 1)
            },
        }
    } else {
        kernel_serial(entries, bus, address, from + 1)
    }
}

fn is_number(text: &Option<String>, number: u8) -> (same: bool)
    ensures
        same == spells(*text, number),
{
    match text {
        Some(text) => match parse_byte(trim(text)) {
            Some(value) => value == number,
            None => false,
        },
        None => false,
    }
}

/// The serial that the kernel has of a device.
pub fn sysfs_serial(entries: &Vec<SysfsDevice>, bus: u8, address: u8) -> (serial: Option<String>)
    ensures
        text_of(serial) == kernel_serial(entries@, bus, address, 0),
{
    let mut i: usize = 0;
    while i < entries.len()
        invariant
            i <= entries@.len(),
            kernel_serial(entries@, bus, address, 0) == kernel_serial(
                entries@,
                bus,
                address,
                i as int,
            ),
        decreases entries@.len() - i,
    {
        let entry = &entries[i];
        if is_number(&entry.busnum, bus) && is_number(&entry.devnum, address) {
            match &entry.serial {
                Some(serial) => {
                    let serial = trim(serial);
                    if serial.unicode_len() > 0 {
                        return Some(serial.to_owned());
                    }
                },
                None => {
                    return None;
                },
            }
        }
        i += 1;
    }
    None
}

/// The serial of a panel: the one that the kernel has, or else the one that the panel reports, or
/// else its place on the bus.
pub fn panel_serial(kernel: Option<String>, reported: Option<String>, bus: u8, address: u8) -> (serial:
    String)
    ensures
        serial@ == match (kernel, reported) {
            (Some(serial), _) => serial@,
            (None, Some(serial)) => serial@,
            (None, None) => "bus"@ + decimal(bus as nat) + "-addr"@ + decimal(address as nat),
        },
{
    match (kernel, reported) {
        (Some(serial), _) => serial,
        (None, Some(serial)) => serial,
        (None, None) => joined("bus", &decimal_text(bus as u32)).concat("-addr").concat(
            &decimal_text(address as u32),
        ),
    }
}

/// A packet is its 512 bytes of head, followed by every byte that it carries.
pub proof fn lemma_packets_carry_their_payload(
    header: &[u8; 512],
    payload: &[u8],
    packet: Vec<u8>,
    k: int,
)
    requires
        call_ensures(framed_packet, (header, payload), packet),
    ensures
        packet@.len() == 512 + payload@.len(),
        0 <= k < 512 ==> packet@[k] == header@[k],
        0 <= k < payload@.len() ==> packet@[512 + k] == payload@[k],
{
}

/// A panel that is shut down or known to be gone is not recovered. Otherwise the failure is
/// counted.
pub proof fn lemma_recovery_begins_with_a_count(shutting_down: bool)
    ensures
        forall|state: &mut PanelState, begun: Result<(), PanelError>| #[trigger]
            call_ensures(PanelState::begin_recovery, (state, shutting_down), begun)
                && state.consecutive_failures < u32::MAX ==> {
                &&& begun is Ok <==> !shutting_down && !state.device_gone
                &&& begun matches Err(error) ==> {
                    &&& error is ShuttingDown <==> shutting_down
                    &&& error is Stale <==> !shutting_down
                }
                &&& begun is Ok ==> final(state).consecutive_failures == state.consecutive_failures
                    + 1
                &&& begun is Err ==> final(state).consecutive_failures == state.consecutive_failures
                &&& final(state).device_gone == state.device_gone
                &&& final(state).initialized == state.initialized
                &&& final(state).firmware == state.firmware
            },
{
}

/// A reopened panel starts afresh. One whose stall was cleared goes on while it has failed at most
/// five times in a row. Any other is given up for gone.
pub proof fn lemma_stalling_panels_are_given_up(reopened: bool, cleared: bool)
    ensures
        forall|state: &mut PanelState, recovered: Result<(), PanelError>| #[trigger]
            call_ensures(PanelState::try_recover, (state, reopened, cleared), recovered) ==> {
                &&& recovered is Ok <==> reopened || cleared && state.consecutive_failures < 6
                &&& recovered is Err ==> recovered == Err::<(), PanelError>(
                    PanelError::Unresponsive,
                )
                &&& final(state).device_gone <==> state.device_gone || recovered is Err
                &&& reopened ==> final(state).consecutive_failures == 0
                &&& !reopened ==> final(state).consecutive_failures == state.consecutive_failures
                &&& final(state).initialized == state.initialized
                &&& final(state).firmware == state.firmware
            },
{
}

/// A frame is tried three times, with the panel initialised again before the second and the third.
pub proof fn lemma_frames_are_tried_three_times(attempt: u32, sent: bool)
    ensures
        forall|state: &mut PanelState, step: FrameStep| #[trigger]
            call_ensures(PanelState::send_frame_verified, (state, attempt, sent), step) ==> {
                &&& step is Done <==> sent
                &&& step is Retry <==> !sent && (attempt == 0 || attempt == 1)
                &&& final(state).initialized <==> state.initialized && !(step is Retry)
                &&& final(state).consecutive_failures == state.consecutive_failures
                &&& final(state).device_gone == state.device_gone
                &&& final(state).firmware == state.firmware
            },
{
}

/// A success ends the row of failures and says nothing of a panel that is gone; a panel that was
/// found again is not gone either.
pub proof fn lemma_failures_are_forgotten()
    ensures
        forall|state: &mut PanelState| #[trigger]
            call_ensures(PanelState::note_write_success, (state,), ()) ==> {
                &&& final(state).consecutive_failures == 0
                &&& final(state).device_gone == state.device_gone
                &&& final(state).initialized == state.initialized
                &&& final(state).firmware == state.firmware
            },
        forall|state: &mut PanelState| #[trigger]
            call_ensures(PanelState::reset_failure_state, (state,), ()) ==> {
                &&& final(state).consecutive_failures == 0
                &&& !final(state).device_gone
                &&& final(state).initialized == state.initialized
                &&& final(state).firmware == state.firmware
            },
{
}

/// A frame fits up to the full payload and no further.
pub proof fn lemma_frames_fit_up_to_the_payload(
    length: usize,
    max_payload: usize,
    fits: Result<(), PanelError>,
)
    requires
        call_ensures(frame_fits, (length, max_payload), fits),
    ensures
        fits is Ok <==> length <= max_payload,
        fits matches Err(error) ==> error is FrameTooLarge,
{
}

/// A panel that reports a level of four or more must drain, and a chunk waits for the same; one
/// that reports none need not after a frame, but fails a chunk. Drained is a level of two or less.
pub proof fn lemma_full_panels_drain(
    level: Option<u8>,
    asked: Option<u8>,
    drain: bool,
    chunk: ChunkStep,
    drained: ChunkStep,
)
    requires
        call_ensures(must_drain, (level,), drain),
        call_ensures(after_chunk, (level, asked), chunk),
        call_ensures(after_drain, (level,), drained),
    ensures
        drain <==> level is Some && level->0 >= 4,
        level is Some ==> {
            &&& chunk is Drain <==> level->0 >= 4
            &&& level->0 < 4 ==> chunk == ChunkStep::Go(level->0)
        },
        level is None && asked is Some ==> {
            &&& chunk is Drain <==> asked->0 >= 4
            &&& asked->0 < 4 ==> chunk == ChunkStep::Go(asked->0)
        },
        level is None && asked is None ==> chunk == ChunkStep::Fail(PanelError::NoFeedback),
        level is Some && level->0 < 3 ==> drained == ChunkStep::Go(level->0),
        level is None || level->0 >= 3 ==> drained == ChunkStep::Fail(PanelError::NotDraining),
{
}

/// A wait for the buffer asks for the level up to six hundred times within thirty seconds, and
/// ends early when it is stopped. It then reports the last level that was still too high.
pub proof fn lemma_waits_are_bounded(threshold: u8, start: u64, stopping: bool, now: u64)
    ensures
        forall|wait: BufferWait| #[trigger]
            call_ensures(BufferWait::new, (threshold, start), wait) && start + 30_000_000_000
                <= u64::MAX ==> {
                &&& wait.deadline - start == 30_000_000_000
                &&& wait.polls == 0
                &&& wait.last is None
                &&& wait.threshold == threshold
            },
        forall|wait: &mut BufferWait, step: WaitStep| #[trigger]
            call_ensures(BufferWait::before_poll, (wait, stopping, now), step) ==> {
                let goes_on = !stopping && wait.polls < 600 && now < wait.deadline;
                &&& goes_on ==> step is Poll && final(wait).polls == wait.polls + 1
                &&& !goes_on ==> step == WaitStep::Over(wait.last) && final(wait).polls
                    == wait.polls
                &&& final(wait).deadline == wait.deadline
                &&& final(wait).threshold == wait.threshold
                &&& final(wait).last == wait.last
            },
{
}

/// A level at or below the threshold ends the wait, and so does no answer. A higher one is
/// remembered and waited for.
pub proof fn lemma_waits_end_at_the_threshold(level: Option<u8>)
    ensures
        forall|wait: &mut BufferWait, step: WaitStep| #[trigger]
            call_ensures(BufferWait::after_poll, (wait, level), step) ==> {
                &&& step is Sleep <==> level is Some && level->0 > wait.threshold
                &&& level is Some && level->0 <= wait.threshold ==> step == WaitStep::Over(level)
                &&& level is None ==> step == WaitStep::Over(wait.last)
                &&& step is Sleep ==> final(wait).last == level
                &&& !(step is Sleep) ==> final(wait).last == wait.last
                &&& final(wait).polls == wait.polls
                &&& final(wait).deadline == wait.deadline
                &&& final(wait).threshold == wait.threshold
            },
{
}

/// A stream leaves the panel playing only when it does not loop, ended by itself and did not fail.
pub proof fn lemma_finished_streams_play_out(
    looping: bool,
    stop: bool,
    shutting_down: bool,
    failed: bool,
    stops: bool,
)
    requires
        call_ensures(stops_playback, (looping, stop, shutting_down, failed), stops),
    ensures
        !stops <==> !looping && !stop && !shutting_down && !failed,
{
}

/// The panel is stopped for its ring only when an upload waits or was not recovered from, and the
/// last one is three seconds past. Software cooling keeps a waiting upload off, not a recovery.
pub proof fn lemma_ring_stops_are_spaced(link: LcdLink, upload_waits: bool, now: u64, due: bool)
    requires
        call_ensures(reinit_due, (&link, upload_waits, now), due),
    ensures
        due <==> {
            &&& link.ring.attempted is Some || upload_waits && !link.software_cooling
            &&& link.last_hold is None || now - link.last_hold->0 >= 3_000_000_000
        },
{
}

/// The initialisation of a cooler's panel runs only when no storage transfer was cut off and no
/// recovery is due; a recovery waits until three seconds after the last upload.
pub proof fn lemma_coolers_recover_before_they_start(link: LcdLink, now: u64, gate: InitGate)
    requires
        call_ensures(h2_control_init, (&link, now), gate),
    ensures
        gate is StorageInterrupted <==> link.storage_interrupted,
        gate is Run <==> !link.storage_interrupted && link.ring.attempted is None,
        gate is Recover <==> !link.storage_interrupted && link.ring.attempted is Some && (
        link.last_hold is None || now - link.last_hold->0 >= 3_000_000_000),
        gate is CoolingDown <==> !link.storage_interrupted && link.ring.attempted is Some
            && link.last_hold is Some && now - link.last_hold->0 < 3_000_000_000,
{
}

/// What was read is sent. At the end a looping stream starts again, if there is anything in it,
/// and any other is over; only such a one has a last chunk.
pub proof fn lemma_streams_loop_or_end(
    count: usize,
    looping: bool,
    position: u64,
    length: u64,
    step: ReadStep,
    goes_on: Result<(), PanelError>,
    last: bool,
)
    requires
        call_ensures(after_read, (count, looping), step),
        call_ensures(after_rewind, (count,), goes_on),
        call_ensures(is_last_chunk, (looping, position, length), last),
    ensures
        step is Send <==> count > 0,
        step is Rewind <==> count == 0 && looping,
        step is End <==> count == 0 && !looping,
        goes_on is Ok <==> count > 0,
        goes_on matches Err(error) ==> error is EmptyStream,
        last <==> !looping && length <= position,
{
}

/// Waiting ends at the deadline. The next deadline is one interval on, and a stream that has
/// fallen behind takes up its pace from now.
pub proof fn lemma_streams_keep_their_pace(
    deadline: u64,
    interval: u64,
    now: u64,
    wait: u64,
    next: u64,
)
    requires
        call_ensures(wait_before_chunk, (deadline, now), wait),
        call_ensures(next_deadline, (deadline, interval, now), next),
        deadline + interval <= u64::MAX,
        now + interval <= u64::MAX,
    ensures
        now <= deadline ==> now + wait == deadline,
        now > deadline ==> wait == 0,
        deadline + interval >= now ==> next - deadline == interval,
        deadline + interval < now ==> next - now == interval,
{
}

proof fn lemma_kernel_serial_skips(
    entries: Seq<SysfsDevice>,
    bus: u8,
    address: u8,
    from: int,
    at: int,
)
    requires
        0 <= from <= at <= entries.len(),
        forall|i: int|
            from <= i < at ==> !(spells((#[trigger] entries[i]).busnum, bus) && spells(
                entries[i].devnum,
                address,
            )) || (entries[i].serial matches Some(serial) && trimmed(serial@).len() == 0),
    ensures
        kernel_serial(entries, bus, address, from) == kernel_serial(entries, bus, address, at),
    decreases at - from,
{
    if from < at {
        assert(entries[from] == entries[from]);
        lemma_kernel_serial_skips(entries, bus, address, from + 1, at);
    }
}

/// The kernel's serial of a device is that of the first entry with the bus and the address of the
/// device, other than entries with an empty one. It comes without the white space around it.
/// Where that entry has none to read, or there is no such entry, there is none.
pub proof fn lemma_serials_come_from_the_device(
    entries: &Vec<SysfsDevice>,
    bus: u8,
    address: u8,
    serial: Option<String>,
    at: int,
)
    requires
        call_ensures(sysfs_serial, (entries, bus, address), serial),
        0 <= at <= entries@.len(),
        forall|i: int|
            0 <= i < at ==> {
                ||| (#[trigger] entries@[i]).busnum is None
                ||| byte_value(trimmed(entries@[i].busnum->0@)) != Some(bus)
                ||| entries@[i].devnum is None
                ||| byte_value(trimmed(entries@[i].devnum->0@)) != Some(address)
                ||| entries@[i].serial is Some && trimmed(entries@[i].serial->0@).len() == 0
            },
        at < entries@.len() ==> {
            &&& entries@[at].busnum is Some
            &&& byte_value(trimmed(entries@[at].busnum->0@)) == Some(bus)
            &&& entries@[at].devnum is Some
            &&& byte_value(trimmed(entries@[at].devnum->0@)) == Some(address)
            &&& entries@[at].serial is None || trimmed(entries@[at].serial->0@).len() > 0
        },
    ensures
        serial is Some <==> at < entries@.len() && entries@[at].serial is Some,
        serial matches Some(text) ==> text@ == trimmed(entries@[at].serial->0@),
{
    lemma_kernel_serial_skips(entries@, bus, address, 0, at);
}

/// A panel goes by the kernel's serial, else by its own, else by its bus and address.
pub proof fn lemma_panels_always_have_a_serial(
    kernel: Option<String>,
    reported: Option<String>,
    bus: u8,
    address: u8,
    serial: String,
)
    requires
        call_ensures(panel_serial, (kernel, reported, bus, address), serial),
    ensures
        kernel is Some ==> serial@ == kernel->0@,
        kernel is None && reported is Some ==> serial@ == reported->0@,
        kernel is None && reported is None ==> serial@ == "bus"@ + decimal(bus as nat) + "-addr"@
            + decimal(address as nat),
{
}

/// Whatever size a JPEG picture can have, the cleared picture is black all over and the cleared
/// overlay is transparent all over.
pub proof fn lemma_cleared_layers_show_nothing(
    width: u32,
    height: u32,
    quality: u8,
    picture: Option<Vec<u8>>,
    overlay: Option<Vec<u8>>,
)
    requires
        call_ensures(clear_jpg_layer, (width, height, quality), picture),
        call_ensures(clear_png_layer, (width, height), overlay),
    ensures
        picture is Some <==> 0 < width < 65536 && 0 < height < 65536,
        overlay is Some <==> 0 < width && 0 < height,
        picture matches Some(file) ==> exists|color: Seq<u8>|
            color.len() == 3 && color[0] == 0 && color[1] == 0 && color[2] == 0 && file@
                == #[trigger] plain_jpeg(width, height, color, quality),
        overlay matches Some(file) ==> exists|color: Seq<u8>|
            color.len() == 4 && color[3] == 0 && color[0] == 0 && color[1] == 0 && color[2] == 0
                && file@ == #[trigger] plain_png(width, height, color),
{
    let black = seq![0u8, 0u8, 0u8];
    let clear = seq![0u8, 0u8, 0u8, 0u8];
    assert(black.len() == 3 && clear.len() == 4);
}

} // verus!
