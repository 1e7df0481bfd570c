//! Commands to wireless receivers, and the transfer of pictures to them.
use vstd::prelude::*;
use vstd::string::*;

use crate::bytes::{be16, same_mac, slice_of};
use crate::registry::DiscoveredDevice;
use crate::text::joined;

verus! {

/// The size of a radio frame.
pub const RF_DATA_SIZE: usize = 240;

/// The first byte of a radio frame that is addressed to a receiver.
pub const RF_SELECT: u8 = 0x12;

/// The frame carries a part of a picture.
pub const RF_SEND_PIC: u8 = 0x22;

/// The USB command that sends a part of a radio frame.
pub const USB_CMD_SEND_RF: u8 = 0x10;

/// How much of a picture fits in a frame.
pub const PIC_CHUNK_SIZE: usize = 220;

/// The number of the frame that ends a picture.
pub const PIC_TERMINATOR: u8 = 0xFF;

/// How large a picture may be.
pub const MAX_AIO_IMAGE_BYTES: usize = 20_480;

/// How long a transfer may take, in nanoseconds.
pub const PICTURE_TIMEOUT: u64 = 30_000_000_000;

/// How long a frame may go without an answer, in nanoseconds.
pub const PICTURE_ACK_TIMEOUT: u64 = 2_000_000_000;

/// How a receiver confirms a command.
#[derive(Clone, Copy, Debug, PartialEq, Eq)]
pub enum AckSignal {
    /// It reports this sequence number.
    CmdSeq(u8),
    /// It reports these duties.
    Pwm([u8; 4]),
    Other,
}

/// The codes of the commands that carry no picture.
#[derive(Clone, Copy, Debug, PartialEq, Eq, Structural)]
pub struct RfOpcodes {
    pub selected_group: u8,
    pub reboot_lcd: u8,
    pub close_217_wifi: u8,
}

/// A command that waits for its confirmation.
pub struct PendingRf {
    pub mac: [u8; 6],
    pub ack: AckSignal,
}

/// A command to a receiver.
pub struct RfCommand {
    pub mac: [u8; 6],
    pub rf_data: Vec<u8>,
    pub ack: AckSignal,
    pub label: String,
    /// How often it may be sent again, if not as often as other commands.
    pub retry_limit: Option<u32>,
}

/// Why nothing is sent.
#[derive(Clone, Copy, Debug, PartialEq, Eq, Structural)]
pub enum WirelessError {
    /// No receiver of the address is known, for each thing that one was needed for.
    NoDeviceToSelect,
    NoDeviceToReboot,
    NoDeviceToClose,
    NoDeviceForPicture,
    /// The group is not bound to this controller any more.
    GroupNotBound,
    /// A picture is being sent to the receiver.
    ImageUploadRunning,
    TxUnavailable,
    PictureTxUnavailable,
    WrongModel,
    WrongSize,
    NotBound,
    AnotherUpload,
    Binding,
    CommandsPending,
    ChunkTooLarge,
    Cancelled,
    TimedOut,
}

impl WirelessError {
    /// What the user is told.
    pub fn message(&self) -> (text: &'static str)
        ensures
            text@ == match self {
                WirelessError::NoDeviceToSelect => "device not found for selected group"@,
                WirelessError::NoDeviceToReboot => "device not found for LCD reboot"@,
                WirelessError::NoDeviceToClose => "device not found for 217 wifi close"@,
                WirelessError::NoDeviceForPicture => "device not found for SendPic"@,
                WirelessError::GroupNotBound => "LCD group is no longer bound to this controller"@,
                WirelessError::ImageUploadRunning =>
                    "Wait for the wireless image upload to finish"@,
                WirelessError::TxUnavailable => "Wireless TX is unavailable"@,
                WirelessError::PictureTxUnavailable => "TX device not available for SendPic"@,
                WirelessError::WrongModel =>
                    "Wireless image upload requires HydroShift II Circle or Square"@,
                WirelessError::WrongSize => "Wireless H2 image must contain 1 to 20480 bytes"@,
                WirelessError::NotBound =>
                    "Bind this H2 to the active wireless controller first"@,
                WirelessError::AnotherUpload => "Another wireless image upload is running"@,
                WirelessError::Binding => "Wait for wireless binding to finish"@,
                WirelessError::CommandsPending =>
                    "Wait for H2 control commands to finish before uploading"@,
                WirelessError::ChunkTooLarge => "Wireless image chunk exceeds 220 bytes"@,
                WirelessError::Cancelled => "Wireless image upload cancelled"@,
                WirelessError::TimedOut => "Wireless image upload timed out"@,
            },
    {
        match self {
            WirelessError::NoDeviceToSelect => "device not found for selected group",
            WirelessError::NoDeviceToReboot => "device not found for LCD reboot",
            WirelessError::NoDeviceToClose => "device not found for 217 wifi close",
            WirelessError::NoDeviceForPicture => "device not found for SendPic",
            WirelessError::GroupNotBound => "LCD group is no longer bound to this controller",
            WirelessError::ImageUploadRunning => "Wait for the wireless image upload to finish",
            WirelessError::TxUnavailable => "Wireless TX is unavailable",
            WirelessError::PictureTxUnavailable => "TX device not available for SendPic",
            WirelessError::WrongModel =>
                "Wireless image upload requires HydroShift II Circle or Square",
            WirelessError::WrongSize => "Wireless H2 image must contain 1 to 20480 bytes",
            WirelessError::NotBound => "Bind this H2 to the active wireless controller first",
            WirelessError::AnotherUpload => "Another wireless image upload is running",
            WirelessError::Binding => "Wait for wireless binding to finish",
            WirelessError::CommandsPending =>
                "Wait for H2 control commands to finish before uploading",
            WirelessError::ChunkTooLarge => "Wireless image chunk exceeds 220 bytes",
            WirelessError::Cancelled => "Wireless image upload cancelled",
            WirelessError::TimedOut => "Wireless image upload timed out",
        }
    }
}

/// Why a picture cannot be sent to a receiver of this type, if so.
pub open spec fn image_refused(device_type: u8, length: int) -> Option<WirelessError> {
    if device_type != 10 && device_type != 11 {
        Some(WirelessError::WrongModel)
    } else if length < 1 || length > MAX_AIO_IMAGE_BYTES {
        Some(WirelessError::WrongSize)
    } else {
        None
    }
}

/// Whether a picture of this length can be sent to a receiver of this type.
pub fn validate_aio_image(device_type: u8, length: usize) -> (valid: Result<(), WirelessError>)
    ensures
        match image_refused(device_type, length as int) {
            Some(error) => valid == Err::<(), WirelessError>(error),
            None => valid is Ok,
        },
{
    if device_type != 10 && device_type != 11 {
        Err(WirelessError::WrongModel)
    } else if length < 1 || length > MAX_AIO_IMAGE_BYTES {
        Err(WirelessError::WrongSize)
    } else {
        Ok(())
    }
}

/// As many zero bytes.
pub open spec fn zeros(n: int) -> Seq<u8> {
    Seq::new(n as nat, |i: int| 0u8)
}

/// The head of a frame: what it is, the receiver, the controller, and how to answer.
pub open spec fn frame_head(
    opcode: u8,
    device: DiscoveredDevice,
    master: [u8; 6],
    channel: u8,
    sequence: u8,
) -> Seq<u8> {
    seq![RF_SELECT, opcode] + device.mac@ + master@ + seq![device.rx_type, channel, 0u8, sequence]
}

/// The frame of a command without arguments.
pub open spec fn command_frame(
    opcode: u8,
    device: DiscoveredDevice,
    master: [u8; 6],
    channel: u8,
    sequence: u8,
) -> Seq<u8> {
    frame_head(opcode, device, master, channel, sequence) + zeros(RF_DATA_SIZE - 18)
}

/// The frame that carries a part of a picture.
pub open spec fn picture_frame(
    device: DiscoveredDevice,
    master: [u8; 6],
    channel: u8,
    sequence: u8,
    index: u8,
    data: Seq<u8>,
) -> Seq<u8> {
    frame_head(RF_SEND_PIC, device, master, channel, sequence) + seq![index] + data + zeros(
        RF_DATA_SIZE - 19 - data.len(),
    )
}

/// The USB packet that carries a quarter of a frame to a receiver.
pub open spec fn packet_of(device: DiscoveredDevice, frame: Seq<u8>, part: int) -> Seq<u8> {
    seq![USB_CMD_SEND_RF, part as u8, device.channel, device.rx_type] + frame.subrange(
        60 * part,
        60 * part + 60,
    )
}

fn push_mac(frame: &mut Vec<u8>, mac: &[u8; 6])
    ensures
        final(frame)@ == old(frame)@ + mac@,
{
    crate::bytes::append_bytes(frame, mac.as_slice());
}

fn push_zeros(frame: &mut Vec<u8>, size: usize)
    requires
        old(frame)@.len() <= size,
    ensures
        final(frame)@ == old(frame)@ + zeros(size - old(frame)@.len()),
{
    let ghost start = frame@;
    assert(frame@ =~= start + zeros(0));
    while frame.len() < size
        invariant
            start.len() <= frame@.len() <= size,
            frame@ == start + zeros(frame@.len() - start.len()),
        decreases size - frame@.len(),
    {
        let ghost before = frame@;
        frame.push(0);
        assert(frame@ =~= start + zeros(before.len() - start.len() + 1));
    }
}

fn start_frame(
    opcode: u8,
    device: &DiscoveredDevice,
    master: &[u8; 6],
    channel: u8,
    sequence: u8,
) -> (frame: Vec<u8>)
    ensures
        frame@ == frame_head(opcode, *device, *master, channel, sequence),
        frame@.len() == 18,
{
    let mut frame: Vec<u8> = Vec::new();
    frame.push(RF_SELECT);
    frame.push(opcode);
    push_mac(&mut frame, &device.mac);
    push_mac(&mut frame, master);
    frame.push(device.rx_type);
    frame.push(channel);
    frame.push(0);
    frame.push(sequence);
    assert(frame@ =~= frame_head(opcode, *device, *master, channel, sequence));
    frame
}

fn packet(device: &DiscoveredDevice, frame: &Vec<u8>, part: usize) -> (packet: [u8; 64])
    requires
        part < 4,
        frame@.len() == RF_DATA_SIZE,
    ensures
        packet@ == packet_of(*device, frame@, part as int),
{
    let mut packet = [0u8; 64];
    packet[0] = USB_CMD_SEND_RF;
    packet[1] = part as u8;
    packet[2] = device.channel;
    packet[3] = device.rx_type;
    let mut i: usize = 0;
    while i < 60
        invariant
            i <= 60,
            part < 4,
            frame@.len() == RF_DATA_SIZE,
            packet@.len() == 64,
            packet@[0] == USB_CMD_SEND_RF,
            packet@[1] == part as u8,
            packet@[2] == device.channel,
            packet@[3] == device.rx_type,
            forall|j: int| 0 <= j < i ==> #[trigger] packet@[4 + j] == frame@[60 * part + j],
        decreases 60 - i,
    {
        packet[4 + i] = frame[60 * part + i];
        i += 1;
    }
    assert forall|k: int| 0 <= k < 64 implies packet@[k] == packet_of(
        *device,
        frame@,
        part as int,
    )[k] by {
        if k >= 4 {
            assert(packet@[4 + (k - 4)] == frame@[60 * part + (k - 4)]);
        }
    }
    assert(packet@ =~= packet_of(*device, frame@, part as int));
    packet
}

/// The USB packets that carry a part of a picture to a receiver.
pub fn picture_packets(
    device: &DiscoveredDevice,
    master: &[u8; 6],
    channel: u8,
    sequence: u8,
    index: u8,
    data: &[u8],
) -> (packets: Result<[[u8; 64]; 4], WirelessError>)
    ensures
        data@.len() > PIC_CHUNK_SIZE ==> packets == Err::<[[u8; 64]; 4], WirelessError>(
            WirelessError::ChunkTooLarge,
        ),
        data@.len() <= PIC_CHUNK_SIZE ==> {
            &&& packets matches Ok(packets) && forall|part: int|
                0 <= part < 4 ==> (#[trigger] packets@[part])@ == packet_of(
                    *device,
                    picture_frame(*device, *master, channel, sequence, index, data@),
                    part,
                )
        },
{
    if data.len() > PIC_CHUNK_SIZE {
        return Err(WirelessError::ChunkTooLarge);
    }
    let mut frame = start_frame(RF_SEND_PIC, device, master, channel, sequence);
    frame.push(index);
    crate::bytes::append_bytes(&mut frame, data);
    push_zeros(&mut frame, RF_DATA_SIZE);
    assert(frame@ =~= picture_frame(*device, *master, channel, sequence, index, data@));
    Ok(
        [
            packet(device, &frame, 0),
            packet(device, &frame, 1),
            packet(device, &frame, 2),
            packet(device, &frame, 3),
        ],
    )
}

/// The four packets of a frame carry the whole frame, in order, behind their heads.
pub proof fn lemma_packets_carry_the_frame(device: DiscoveredDevice, frame: Seq<u8>)
    requires
        frame.len() == RF_DATA_SIZE,
    ensures
        packet_of(device, frame, 0).skip(4) + packet_of(device, frame, 1).skip(4) + packet_of(
            device,
            frame,
            2,
        ).skip(4) + packet_of(device, frame, 3).skip(4) == frame,
{
    assert(packet_of(device, frame, 0).skip(4) =~= frame.subrange(0, 60));
    assert(packet_of(device, frame, 1).skip(4) =~= frame.subrange(60, 120));
    assert(packet_of(device, frame, 2).skip(4) =~= frame.subrange(120, 180));
    assert(packet_of(device, frame, 3).skip(4) =~= frame.subrange(180, 240));
    assert(packet_of(device, frame, 0).skip(4) + packet_of(device, frame, 1).skip(4) + packet_of(
        device,
        frame,
        2,
    ).skip(4) + packet_of(device, frame, 3).skip(4) =~= frame);
}

/// How many frames a picture of this length takes, without the one that ends it.
pub open spec fn chunk_count(length: int) -> int {
    (length + PIC_CHUNK_SIZE - 1) / PIC_CHUNK_SIZE as int
}

/// The part of a picture that the frame `index` carries.
pub open spec fn chunk_of(image: Seq<u8>, index: int) -> Seq<u8> {
    let start = index * PIC_CHUNK_SIZE;
    image.subrange(
        start,
        if start + PIC_CHUNK_SIZE <= image.len() {
            start + PIC_CHUNK_SIZE
        } else {
            image.len() as int
        },
    )
}

/// What the frame that ends a picture carries: its length, high byte first, and zeros.
pub open spec fn terminator_of(length: int) -> Seq<u8> {
    seq![(length / 256) as u8, (length % 256) as u8] + zeros(PIC_CHUNK_SIZE - 2)
}

/// The first `n` parts of a picture, one after the other.
pub open spec fn chunks_joined(image: Seq<u8>, n: int) -> Seq<u8>
    decreases n,
{
    if n <= 0 {
        Seq::empty()
    } else {
        chunks_joined(image, n - 1) + chunk_of(image, n - 1)
    }
}

proof fn lemma_chunks_prefix(image: Seq<u8>, n: int)
    requires
        0 <= n <= chunk_count(image.len() as int),
    ensures
        chunks_joined(image, n) == image.take(
            if n * PIC_CHUNK_SIZE <= image.len() {
                n * PIC_CHUNK_SIZE
            } else {
                image.len() as int
            },
        ),
    decreases n,
{
    if n > 0 {
        lemma_chunks_prefix(image, n - 1);
        assert((n - 1) * PIC_CHUNK_SIZE <= image.len());
        assert(chunks_joined(image, n) =~= image.take(
            if n * PIC_CHUNK_SIZE <= image.len() {
                n * PIC_CHUNK_SIZE
            } else {
                image.len() as int
            },
        ));
    } else {
        assert(chunks_joined(image, n) =~= image.take(0));
    }
}

/// The parts of a picture, put together, are the picture; and what ends it tells its length.
pub proof fn lemma_chunks_rebuild_the_picture(image: Seq<u8>)
    requires
        image.len() <= MAX_AIO_IMAGE_BYTES,
    ensures
        chunks_joined(image, chunk_count(image.len() as int)) == image,
        chunk_count(image.len() as int) < PIC_TERMINATOR,
        be16(terminator_of(image.len() as int)[0], terminator_of(image.len() as int)[1])
            == image.len(),
{
    lemma_chunks_prefix(image, chunk_count(image.len() as int));
    assert(image.take(image.len() as int) =~= image);
}

/// A frame of a picture transfer.
pub struct PictureChunk {
    pub index: u8,
    pub data: Vec<u8>,
}

/// A picture transfer: to whom, and the frames in their order. The receiver is as it was when the
/// transfer began.
pub struct PictureUpload {
    pub device: DiscoveredDevice,
    pub master_mac: [u8; 6],
    pub master_channel: u8,
    pub chunks: Vec<PictureChunk>,
}

/// The chunks carry the picture in frames numbered from zero, and end it.
pub open spec fn carries(chunks: Seq<PictureChunk>, image: Seq<u8>) -> bool {
    let n = chunk_count(image.len() as int);
    &&& chunks.len() == n + 1
    &&& forall|i: int|
        #![trigger chunks[i]]
        0 <= i < n ==> chunks[i].index == i && chunks[i].data@ == chunk_of(image, i)
    &&& chunks[n].index == PIC_TERMINATOR
    &&& chunks[n].data@ == terminator_of(image.len() as int)
}

fn picture_chunks(image: &[u8]) -> (chunks: Vec<PictureChunk>)
    requires
        image@.len() <= MAX_AIO_IMAGE_BYTES,
    ensures
        carries(chunks@, image@),
{
    let total: usize = (image.len() + (PIC_CHUNK_SIZE - 1)) / PIC_CHUNK_SIZE;
    let mut chunks: Vec<PictureChunk> = Vec::new();
    let mut i: usize = 0;
    while i < total
        invariant
            i <= total,
            image@.len() <= MAX_AIO_IMAGE_BYTES,
            total == chunk_count(image@.len() as int),
            chunks@.len() == i,
            forall|j: int|
                #![trigger chunks@[j]]
                0 <= j < i ==> chunks@[j].index == j && chunks@[j].data@ == chunk_of(image@, j),
        decreases total - i,
    {
        let start: usize = i * PIC_CHUNK_SIZE;
        let end: usize = if start + PIC_CHUNK_SIZE <= image.len() {
            start + PIC_CHUNK_SIZE
        } else {
            image.len()
        };
        chunks.push(PictureChunk { index: i as u8, data: slice_of(image, start, end) });
        i += 1;
    }
    let mut data: Vec<u8> = Vec::new();
    data.push((image.len() / 256) as u8);
    data.push((image.len() % 256) as u8);
    push_zeros(&mut data, PIC_CHUNK_SIZE);
    assert(data@ =~= terminator_of(image@.len() as int));
    chunks.push(PictureChunk { index: PIC_TERMINATOR, data });
    chunks
}

/// What waiting for the answer to a frame comes to.
#[derive(Clone, Copy, Debug, PartialEq, Eq, Structural)]
pub enum AckWait {
    Acknowledged,
    /// The transfer ends for this reason.
    Ended(WirelessError),
    /// No answer came in time.
    TimedOut,
    Wait,
}

/// What a receiver is asked to do.
#[derive(Clone, Copy, Debug, PartialEq, Eq, Structural)]
pub enum GroupRequest {
    /// Select its group.
    Select,
    /// Reboot its panels.
    Reboot,
    /// Reboot its panels, and do not ask again.
    RebootOnce,
    /// Switch the wireless link of a Lancool 217 off or on.
    CloseWifi,
}

/// The error for a receiver that is not known.
pub open spec fn missing_for(request: GroupRequest) -> WirelessError {
    match request {
        GroupRequest::Select => WirelessError::NoDeviceToSelect,
        GroupRequest::Reboot | GroupRequest::RebootOnce => WirelessError::NoDeviceToReboot,
        GroupRequest::CloseWifi => WirelessError::NoDeviceToClose,
    }
}

/// The controller of the wireless receivers.
pub struct WirelessController {
    /// The receivers that answered discovery.
    pub discovered: Vec<DiscoveredDevice>,
    /// Those of them that are bound to this controller.
    pub bound: Vec<DiscoveredDevice>,
    pub master_mac: [u8; 6],
    pub master_channel: u8,
    /// The receiver that a picture is being sent to.
    pub picture_target: Option<[u8; 6]>,
    /// The receiver that is being bound.
    pub binding_mac: Option<[u8; 6]>,
    pub pending_commands: Option<Vec<PendingRf>>,
    pub tx_available: bool,
    pub poll_stop: bool,
    pub opcodes: RfOpcodes,
}

/// The position of the first receiver of that address, from `from` on.
pub open spec fn position_of(devices: Seq<DiscoveredDevice>, mac: [u8; 6], from: int) -> Option<int>
    decreases devices.len() - from,
{
    if from >= devices.len() {
        None
    } else if devices[from].mac == mac {
        Some(from)
    } else {
        position_of(devices, mac, from + 1)
    }
}

/// A receiver of that address is in the list.
pub open spec fn lists(devices: Seq<DiscoveredDevice>, mac: [u8; 6]) -> bool {
    exists|i: int| 0 <= i < devices.len() && (#[trigger] devices[i]).mac == mac
}

fn find_device<'a>(devices: &'a Vec<DiscoveredDevice>, mac: &[u8; 6]) -> (device: Option<
    &'a DiscoveredDevice,
>)
    ensures
        device is Some <==> position_of(devices@, *mac, 0) is Some,
        device is Some <==> lists(devices@, *mac),
        device matches Some(device) ==> {
            &&& position_of(devices@, *mac, 0) matches Some(i) && 0 <= i < devices@.len()
            &&& *device == devices@[position_of(devices@, *mac, 0)->0]
            &&& device.mac == *mac
        },
{
    let mut i: usize = 0;
    while i < devices.len()
        invariant
            i <= devices@.len(),
            position_of(devices@, *mac, 0) == position_of(devices@, *mac, i as int),
            forall|j: int| 0 <= j < i ==> (#[trigger] devices@[j]).mac != *mac,
        decreases devices@.len() - i,
    {
        if same_mac(&devices[i].mac, mac) {
            return Some(&devices[i]);
        }
        i += 1;
    }
    None
}

impl WirelessController {
    /// A controller that knows of no receiver and has no transmitter.
    pub fn new(opcodes: RfOpcodes) -> (controller: Self)
        ensures
            controller.discovered@.len() == 0,
            controller.bound@.len() == 0,
            controller.master_mac@ == seq![0u8, 0u8, 0u8, 0u8, 0u8, 0u8],
            controller.master_channel == 0,
            controller.picture_target is None,
            controller.binding_mac is None,
            controller.pending_commands is None,
            !controller.tx_available,
            !controller.poll_stop,
            controller.opcodes == opcodes,
    {
        WirelessController {
            discovered: Vec::new(),
            bound: Vec::new(),
            master_mac: [0u8; 6],
            master_channel: 0,
            picture_target: None,
            binding_mac: None,
            pending_commands: None,
            tx_available: false,
            poll_stop: false,
            opcodes,
        }
    }

    /// The receiver of an address.
    pub open spec fn device(self, mac: [u8; 6]) -> DiscoveredDevice {
        self.discovered@[position_of(self.discovered@, mac, 0)->0]
    }

    /// Why a command with this confirmation cannot be sent to the receiver now, if so. While a
    /// picture is being sent to it, its sequence numbers belong to the transfer.
    pub open spec fn refused(self, mac: [u8; 6], ack: AckSignal) -> Option<WirelessError> {
        if self.picture_target == Some(mac) && ack is CmdSeq {
            Some(WirelessError::ImageUploadRunning)
        } else if !self.tx_available {
            Some(WirelessError::TxUnavailable)
        } else {
            None
        }
    }

    /// Whether a command with this confirmation can be sent to the receiver now.
    pub fn enqueue_rf_command(&self, mac: &[u8; 6], ack: AckSignal) -> (admitted: Result<(), WirelessError>)
        ensures
            match self.refused(*mac, ack) {
                Some(error) => admitted == Err::<(), WirelessError>(error),
                None => admitted is Ok,
            },
    {
        let sequenced = matches!(ack, AckSignal::CmdSeq(_));
        if let Some(target) = &self.picture_target {
            if same_mac(target, mac) && sequenced {
                return Err(WirelessError::ImageUploadRunning);
            }
        }
        if self.tx_available {
            Ok(())
        } else {
            Err(WirelessError::TxUnavailable)
        }
    }

    /// Why a command cannot be sent to the receiver, if so.
    pub open spec fn command_refused(self, request: GroupRequest, mac: [u8; 6]) -> Option<
        WirelessError,
    > {
        if self.draw_refused(request, mac) is Some {
            self.draw_refused(request, mac)
        } else {
            self.refused(mac, AckSignal::CmdSeq(0))
        }
    }

    /// The command to the receiver is what it should be.
    pub open spec fn is_command(
        self,
        command: RfCommand,
        opcode: u8,
        mac: [u8; 6],
        sequence: u8,
    ) -> bool {
        &&& command.mac == mac
        &&& command.rf_data@ == command_frame(
            opcode,
            self.device(mac),
            self.master_mac,
            self.master_channel,
            sequence,
        )
        &&& command.ack == AckSignal::CmdSeq(sequence)
    }

    /// Why a command to the receiver is refused before a sequence number is drawn for it, if so.
    /// One that is to be sent only once also needs a bound receiver.
    pub open spec fn draw_refused(self, request: GroupRequest, mac: [u8; 6]) -> Option<
        WirelessError,
    > {
        if request is RebootOnce && !lists(self.bound@, mac) {
            Some(WirelessError::GroupNotBound)
        } else if !lists(self.discovered@, mac) {
            Some(missing_for(request))
        } else {
            None
        }
    }

    fn receiver(&self, request: GroupRequest, mac: &[u8; 6]) -> (device: Result<
        &DiscoveredDevice,
        WirelessError,
    >)
        ensures
            match self.draw_refused(request, *mac) {
                Some(error) => device == Err::<&DiscoveredDevice, WirelessError>(error),
                None => device matches Ok(device) && *device == self.device(*mac) && device.mac
                    == *mac,
            },
    {
        if request == GroupRequest::RebootOnce && find_device(&self.bound, mac).is_none() {
            return Err(WirelessError::GroupNotBound);
        }
        match find_device(&self.discovered, mac) {
            Some(device) => Ok(device),
            None => Err(
                match request {
                    GroupRequest::Select => WirelessError::NoDeviceToSelect,
                    GroupRequest::Reboot | GroupRequest::RebootOnce => WirelessError::NoDeviceToReboot,
                    GroupRequest::CloseWifi => WirelessError::NoDeviceToClose,
                },
            ),
        }
    }

    /// The sequence number of the receiver from which the next one is drawn for a command, or why
    /// none is drawn. Only a command that gets one here can be built.
    pub fn draw_sequence(&self, request: GroupRequest, mac: &[u8; 6]) -> (current: Result<
        u8,
        WirelessError,
    >)
        ensures
            match self.draw_refused(request, *mac) {
                Some(error) => current == Err::<u8, WirelessError>(error),
                None => current == Ok::<u8, WirelessError>(self.device(*mac).cmd_seq),
            },
    {
        match self.receiver(request, mac) {
            Ok(device) => Ok(device.cmd_seq),
            Err(error) => Err(error),
        }
    }

    /// The sequence number of a receiver from which the next one is drawn for a frame of a
    /// picture: zero for a receiver that is gone.
    pub fn picture_sequence(&self, mac: &[u8; 6]) -> (current: u8)
        ensures
            current == if lists(self.discovered@, *mac) {
                self.device(*mac).cmd_seq
            } else {
                0
            },
    {
        match find_device(&self.discovered, mac) {
            Some(device) => device.cmd_seq,
            None => 0,
        }
    }

    fn command(
        &self,
        opcode: u8,
        mac: &[u8; 6],
        sequence: u8,
        label: String,
        retry_limit: Option<u32>,
        request: GroupRequest,
    ) -> (command: Result<RfCommand, WirelessError>)
        ensures
            match self.command_refused(request, *mac) {
                Some(error) => command == Err::<RfCommand, WirelessError>(error),
                None => command matches Ok(command) && self.is_command(
                    command,
                    opcode,
                    *mac,
                    sequence,
                ) && command.label@ == label@ && command.retry_limit == retry_limit,
            },
    {
        let device = match self.receiver(request, mac) {
            Ok(device) => device,
            Err(error) => {
                return Err(error);
            },
        };
        let mut rf_data = start_frame(
            opcode,
            device,
            &self.master_mac,
            self.master_channel,
            sequence,
        );
        push_zeros(&mut rf_data, RF_DATA_SIZE);
        let ack = AckSignal::CmdSeq(sequence);
        match self.enqueue_rf_command(mac, ack) {
            Ok(()) => Ok(RfCommand { mac: *mac, rf_data, ack, label, retry_limit }),
            Err(error) => Err(error),
        }
    }

    /// The command that selects the group of a receiver.
    pub fn selected_group(&self, mac: &[u8; 6], sequence: u8) -> (command: Result<
        RfCommand,
        WirelessError,
    >)
        ensures
            match self.command_refused(GroupRequest::Select, *mac) {
                Some(error) => command == Err::<RfCommand, WirelessError>(error),
                None => command matches Ok(command) && self.is_command(
                    command,
                    self.opcodes.selected_group,
                    *mac,
                    sequence,
                ) && command.label@ == "selected group"@ && command.retry_limit is None,
            },
    {
        self.command(
            self.opcodes.selected_group,
            mac,
            sequence,
            "selected group".to_owned(),
            None,
            GroupRequest::Select,
        )
    }

    fn queue_lcd_reboot(&self, mac: &[u8; 6], sequence: u8, once: bool) -> (command: Result<
        RfCommand,
        WirelessError,
    >)
        ensures
            match self.command_refused(
                if once {
                    GroupRequest::RebootOnce
                } else {
                    GroupRequest::Reboot
                },
                *mac,
            ) {
                Some(error) => command == Err::<RfCommand, WirelessError>(error),
                None => command matches Ok(command) && self.is_command(
                    command,
                    self.opcodes.reboot_lcd,
                    *mac,
                    sequence,
                ) && command.label@ == "LCD reboot"@ && command.retry_limit == if once {
                    Some(0u32)
                } else {
                    None
                },
            },
    {
        let limit: Option<u32> = if once {
            Some(0)
        } else {
            None
        };
        let request = if once {
            GroupRequest::RebootOnce
        } else {
            GroupRequest::Reboot
        };
        self.command(
            self.opcodes.reboot_lcd,
            mac,
            sequence,
            "LCD reboot".to_owned(),
            limit,
            request,
        )
    }

    /// The command that reboots the panels of a receiver.
    pub fn reboot_lcd_group(&self, mac: &[u8; 6], sequence: u8) -> (command: Result<
        RfCommand,
        WirelessError,
    >)
        ensures
            match self.command_refused(GroupRequest::Reboot, *mac) {
                Some(error) => command == Err::<RfCommand, WirelessError>(error),
                None => command matches Ok(command) && self.is_command(
                    command,
                    self.opcodes.reboot_lcd,
                    *mac,
                    sequence,
                ) && command.label@ == "LCD reboot"@ && command.retry_limit is None,
            },
    {
        self.queue_lcd_reboot(mac, sequence, false)
    }

    /// The command that reboots the panels of a receiver that is bound, and is not sent again:
    /// automatic recovery owns its retry budget and must not reboot restored playback later.
    pub fn reboot_lcd_group_once(&self, mac: &[u8; 6], sequence: u8) -> (command: Result<
        RfCommand,
        WirelessError,
    >)
        ensures
            match self.command_refused(GroupRequest::RebootOnce, *mac) {
                Some(error) => command == Err::<RfCommand, WirelessError>(error),
                None => command matches Ok(command) && self.is_command(
                    command,
                    self.opcodes.reboot_lcd,
                    *mac,
                    sequence,
                ) && command.label@ == "LCD reboot"@ && command.retry_limit == Some(0u32),
            },
    {
        self.queue_lcd_reboot(mac, sequence, true)
    }

    /// The command that switches the wireless link of a Lancool 217 off or on.
    pub fn close_217_wifi(&self, mac: &[u8; 6], disable: bool, sequence: u8) -> (command: Result<
        RfCommand,
        WirelessError,
    >)
        ensures
            match self.command_refused(GroupRequest::CloseWifi, *mac) {
                Some(error) => command == Err::<RfCommand, WirelessError>(error),
                None => command matches Ok(command) && {
                    &&& command.mac == *mac
                    &&& command.rf_data@ == command_frame(
                        self.opcodes.close_217_wifi,
                        self.device(*mac),
                        self.master_mac,
                        self.master_channel,
                        sequence,
                    ).update(
                        20,
                        if disable {
                            1u8
                        } else {
                            0u8
                        },
                    )
                    &&& command.ack == AckSignal::CmdSeq(sequence)
                    &&& command.label@ == "217 wifi "@ + if disable {
                        "disable"@
                    } else {
                        "enable"@
                    }
                    &&& command.retry_limit is None
                },
            },
    {
        let label = joined(
            "217 wifi ",
            if disable {
                "disable"
            } else {
                "enable"
            },
        );
        match self.command(
            self.opcodes.close_217_wifi,
            mac,
            sequence,
            label,
            None,
            GroupRequest::CloseWifi,
        ) {
            Ok(command) => {
                let mut command = command;
                let flag: u8 = if disable {
                    1
                } else {
                    0
                };
                command.rf_data.set(20, flag);
                Ok(command)
            },
            Err(error) => Err(error),
        }
    }

    /// A command with a sequence number waits for its confirmation from the receiver.
    pub open spec fn awaits_sequence(self, mac: [u8; 6]) -> bool {
        self.pending_commands matches Some(commands) && exists|i: int|
            0 <= i < commands@.len() && (#[trigger] commands@[i]).mac == mac
                && commands@[i].ack is CmdSeq
    }

    fn commands_pending(&self, mac: &[u8; 6]) -> (pending: bool)
        ensures
            pending == self.awaits_sequence(*mac),
    {
        match &self.pending_commands {
            Some(commands) => {
                let mut i: usize = 0;
                while i < commands.len()
                    invariant
                        i <= commands@.len(),
                        self.pending_commands == Some(*commands),
                        forall|j: int|
                            0 <= j < i ==> !((#[trigger] commands@[j]).mac == *mac
                                && commands@[j].ack is CmdSeq),
                    decreases commands@.len() - i,
                {
                    let sequenced = matches!(commands[i].ack, AckSignal::CmdSeq(_));
                    if sequenced && same_mac(&commands[i].mac, mac) {
                        return true;
                    }
                    i += 1;
                }
                false
            },
            None => false,
        }
    }

    /// Why a picture of this length cannot be sent to the receiver now, if so.
    pub open spec fn picture_refused(self, mac: [u8; 6], length: int) -> Option<WirelessError> {
        if !lists(self.discovered@, mac) {
            Some(WirelessError::NoDeviceForPicture)
        } else if image_refused(self.device(mac).device_type, length) is Some {
            image_refused(self.device(mac).device_type, length)
        } else if !lists(self.bound@, mac) {
            Some(WirelessError::NotBound)
        } else if self.picture_target is Some {
            Some(WirelessError::AnotherUpload)
        } else if self.binding_mac is Some {
            Some(WirelessError::Binding)
        } else if self.awaits_sequence(mac) {
            Some(WirelessError::CommandsPending)
        } else if !self.tx_available {
            Some(WirelessError::PictureTxUnavailable)
        } else {
            None
        }
    }

    /// Reserves the receiver for a picture and cuts the picture into frames.
    pub fn send_aio_pic(&mut self, mac: &[u8; 6], image: &[u8]) -> (upload: Result<
        PictureUpload,
        WirelessError,
    >)
        ensures
            match old(self).picture_refused(*mac, image@.len() as int) {
                Some(error) => {
                    &&& upload == Err::<PictureUpload, WirelessError>(error)
                    &&& *final(self) == *old(self)
                },
                None => {
                    &&& upload matches Ok(upload) && {
                        &&& upload.device == old(self).device(*mac) && upload.device.mac == *mac
                        &&& upload.master_mac == old(self).master_mac
                        &&& upload.master_channel == old(self).master_channel
                        &&& carries(upload.chunks@, image@)
                    }
                    &&& *final(self) == (WirelessController {
                        picture_target: Some(*mac),
                        ..*old(self)
                    })
                },
            },
    {
        let device = match find_device(&self.discovered, mac) {
            Some(device) => device.copy(),
            None => {
                return Err(WirelessError::NoDeviceForPicture);
            },
        };
        if let Err(error) = validate_aio_image(device.device_type, image.len()) {
            return Err(error);
        }
        if find_device(&self.bound, mac).is_none() {
            return Err(WirelessError::NotBound);
        }
        if self.picture_target.is_some() {
            return Err(WirelessError::AnotherUpload);
        }
        if self.binding_mac.is_some() {
            return Err(WirelessError::Binding);
        }
        if self.commands_pending(mac) {
            return Err(WirelessError::CommandsPending);
        }
        if !self.tx_available {
            return Err(WirelessError::PictureTxUnavailable);
        }
        self.picture_target = Some(*mac);
        Ok(
            PictureUpload {
                device,
                master_mac: self.master_mac,
                master_channel: self.master_channel,
                chunks: picture_chunks(image),
            },
        )
    }

    /// Ends a transfer: the receiver is free for other commands again.
    pub fn picture_finished(&mut self)
        ensures
            *final(self) == (WirelessController { picture_target: None, ..*old(self) }),
    {
        self.picture_target = None;
    }

    /// Why a transfer ends before its next frame, if so.
    pub open spec fn transfer_ended(self, cancelled: bool, now: u64, deadline: u64) -> Option<
        WirelessError,
    > {
        if cancelled || self.poll_stop {
            Some(WirelessError::Cancelled)
        } else if now >= deadline {
            Some(WirelessError::TimedOut)
        } else {
            None
        }
    }

    /// Whether a transfer goes on.
    pub fn check_picture_transfer(&self, cancelled: bool, now: u64, deadline: u64) -> (goes_on:
        Result<(), WirelessError>)
        ensures
            match self.transfer_ended(cancelled, now, deadline) {
                Some(error) => goes_on == Err::<(), WirelessError>(error),
                None => goes_on is Ok,
            },
    {
        if cancelled || self.poll_stop {
            Err(WirelessError::Cancelled)
        } else if now >= deadline {
            Err(WirelessError::TimedOut)
        } else {
            Ok(())
        }
    }

    /// What waiting for the answer to a frame comes to at `now`.
    pub fn wait_pic_ack(
        &self,
        acked: bool,
        cancelled: bool,
        now: u64,
        ack_deadline: u64,
        deadline: u64,
    ) -> (wait: AckWait)
        ensures
            wait == if now >= ack_deadline {
                AckWait::TimedOut
            } else {
                match self.transfer_ended(cancelled, now, deadline) {
                    Some(error) => AckWait::Ended(error),
                    None => if acked {
                        AckWait::Acknowledged
                    } else {
                        AckWait::Wait
                    },
                }
            },
    {
        if now >= ack_deadline {
            return AckWait::TimedOut;
        }
        match self.check_picture_transfer(cancelled, now, deadline) {
            Err(error) => AckWait::Ended(error),
            Ok(()) => if acked {
                AckWait::Acknowledged
            } else {
                AckWait::Wait
            },
        }
    }
}

/// A command to a receiver that is not known, or a single reboot of one that is not bound, draws
/// no sequence number, and is refused for the same reason whatever number it would have had.
pub proof fn lemma_refused_commands_draw_no_number(
    controller: WirelessController,
    request: GroupRequest,
    mac: [u8; 6],
)
    ensures
        !lists(controller.discovered@, mac) || (request is RebootOnce && !lists(
            controller.bound@,
            mac,
        )) ==> controller.draw_refused(request, mac) is Some,
        request is RebootOnce && !lists(controller.bound@, mac) ==> controller.draw_refused(
            request,
            mac,
        ) == Some(WirelessError::GroupNotBound),
        controller.draw_refused(request, mac) is Some ==> controller.command_refused(request, mac)
            == controller.draw_refused(request, mac),
{
}

/// While a picture is being sent to a receiver, only sequenced commands to that receiver are
/// refused on its account: its cooling and all other receivers go on.
pub proof fn lemma_reservation_is_narrow(
    controller: WirelessController,
    mac: [u8; 6],
    ack: AckSignal,
)
    ensures
        controller.refused(mac, ack) == Some(WirelessError::ImageUploadRunning)
            <==> controller.picture_target == Some(mac) && ack is CmdSeq,
        !(controller.picture_target == Some(mac) && ack is CmdSeq) ==> controller.refused(mac, ack)
            == (WirelessController { picture_target: None, ..controller }).refused(mac, ack),
{
}

proof fn lemma_first_position(devices: Seq<DiscoveredDevice>, mac: [u8; 6], from: int)
    requires
        0 <= from <= devices.len(),
    ensures
        match position_of(devices, mac, from) {
            Some(i) => from <= i < devices.len() && devices[i].mac == mac && forall|j: int|
                from <= j < i ==> (#[trigger] devices[j]).mac != mac,
            None => forall|j: int| from <= j < devices.len() ==> (#[trigger] devices[j]).mac != mac,
        },
    decreases devices.len() - from,
{
    if from < devices.len() && devices[from].mac != mac {
        lemma_first_position(devices, mac, from + 1);
    }
}

/// A receiver that puts the data of each frame at 220 times the number of the frame rebuilds the
/// picture: no two frames have one number, each byte of a frame is the byte of the picture that it
/// is put in the place of, and every byte of the picture is in some frame. The last frame has the
/// number 255, which no other has, and begins with the length of the picture, high byte first.
pub proof fn lemma_frames_rebuild_the_picture(mac: &[u8; 6], image: &[u8])
    ensures
        forall|controller: &mut WirelessController, upload: PictureUpload| #[trigger]
            call_ensures(WirelessController::send_aio_pic, (controller, mac, image), Ok(upload)) ==> {
                let chunks = upload.chunks@;
                let last = chunks.len() - 1;
                &&& 1 <= image@.len() <= 20480
                &&& chunks.len() >= 2
                &&& forall|i: int, k: int|
                    #![trigger chunks[i].data@[k]]
                    0 <= i < last && 0 <= k < chunks[i].data@.len() ==> 220 * chunks[i].index + k
                        < image@.len() && chunks[i].data@[k] == image@[220 * chunks[i].index + k]
                &&& forall|i: int, j: int|
                    0 <= i < j < chunks.len() ==> (#[trigger] chunks[i]).index != (
                    #[trigger] chunks[j]).index
                &&& forall|i: int|
                    0 <= i < last ==> 1 <= (#[trigger] chunks[i]).data@.len() <= 220
                &&& forall|b: int|
                    0 <= b < image@.len() ==> 0 <= b / 220 < last && #[trigger] chunks[b
                        / 220].index == b / 220 && b % 220 < chunks[b / 220].data@.len()
                &&& chunks[last].index == 255
                &&& chunks[last].data@.len() == 220
                &&& 256 * chunks[last].data@[0] + chunks[last].data@[1] == image@.len()
                &&& forall|k: int| 2 <= k < 220 ==> #[trigger] chunks[last].data@[k] == 0
            },
{
    assert forall|controller: &mut WirelessController, upload: PictureUpload| #[trigger]
        call_ensures(WirelessController::send_aio_pic, (controller, mac, image), Ok(upload)) implies {
        let chunks = upload.chunks@;
        let last = chunks.len() - 1;
        &&& 1 <= image@.len() <= 20480
        &&& chunks.len() >= 2
        &&& forall|i: int, k: int|
            #![trigger chunks[i].data@[k]]
            0 <= i < last && 0 <= k < chunks[i].data@.len() ==> 220 * chunks[i].index + k
                < image@.len() && chunks[i].data@[k] == image@[220 * chunks[i].index + k]
        &&& forall|i: int, j: int|
            0 <= i < j < chunks.len() ==> (#[trigger] chunks[i]).index != (
            #[trigger] chunks[j]).index
        &&& forall|i: int| 0 <= i < last ==> 1 <= (#[trigger] chunks[i]).data@.len() <= 220
        &&& forall|b: int|
            0 <= b < image@.len() ==> 0 <= b / 220 < last && #[trigger] chunks[b / 220].index == b
                / 220 && b % 220 < chunks[b / 220].data@.len()
        &&& chunks[last].index == 255
        &&& chunks[last].data@.len() == 220
        &&& 256 * chunks[last].data@[0] + chunks[last].data@[1] == image@.len()
        &&& forall|k: int| 2 <= k < 220 ==> #[trigger] chunks[last].data@[k] == 0
    } by {
        let chunks = upload.chunks@;
        assert(carries(chunks, image@));
        assert(1 <= image@.len() <= 20480);
    }
}

/// The four packets of a picture part carry one frame of 240 bytes in quarters: what it is, the
/// receiver, the controller, the receive type, the channel, a zero, the sequence number, the number
/// of the part, and the part itself, filled up with zeros. Each quarter is headed by the USB
/// command, its number, and the channel and receive type of the receiver.
pub proof fn lemma_packets_hold_the_part(
    device: DiscoveredDevice,
    master: &[u8; 6],
    channel: u8,
    sequence: u8,
    index: u8,
    data: &[u8],
    sent: Result<[[u8; 64]; 4], WirelessError>,
    j: int,
)
    requires
        call_ensures(
            picture_packets,
            (&device, master, channel, sequence, index, data),
            sent,
        ),
        sent is Ok,
        0 <= j < 240,
    ensures
        data@.len() <= 220,
        ({
            let packets = sent->Ok_0;
            &&& packets@[j / 60]@[0] == 0x10
            &&& packets@[j / 60]@[1] == j / 60
            &&& packets@[j / 60]@[2] == device.channel
            &&& packets@[j / 60]@[3] == device.rx_type
        }),
        ({
            let packets = sent->Ok_0;
            let byte = packets@[j / 60]@[4 + j % 60];
            &&& j == 0 ==> byte == 0x12
            &&& j == 1 ==> byte == 0x22
            &&& 2 <= j < 8 ==> byte == device.mac@[j - 2]
            &&& 8 <= j < 14 ==> byte == master@[j - 8]
            &&& j == 14 ==> byte == device.rx_type
            &&& j == 15 ==> byte == channel
            &&& j == 16 ==> byte == 0
            &&& j == 17 ==> byte == sequence
            &&& j == 18 ==> byte == index
            &&& 19 <= j < 19 + data@.len() ==> byte == data@[j - 19]
            &&& 19 + data@.len() <= j ==> byte == 0
        }),
{
    let frame = picture_frame(device, *master, channel, sequence, index, data@);
    let packets = sent->Ok_0;
    let part = j / 60;
    assert(data@.len() <= 220);
    assert(0 <= part < 4);
    assert(frame.len() == 240);
    assert(packets@[part]@ == packet_of(device, frame, part));
    assert(60 * part + j % 60 == j);
    assert(packets@[part]@[4 + j % 60] == frame[j]);
}

/// A picture part is refused exactly when it is longer than 220 bytes.
pub proof fn lemma_long_parts_are_refused(
    device: DiscoveredDevice,
    master: &[u8; 6],
    channel: u8,
    sequence: u8,
    index: u8,
    data: &[u8],
    packets: Result<[[u8; 64]; 4], WirelessError>,
)
    requires
        call_ensures(picture_packets, (&device, master, channel, sequence, index, data), packets),
    ensures
        packets is Err <==> data@.len() > 220,
        packets is Err ==> packets == Err::<[[u8; 64]; 4], WirelessError>(
            WirelessError::ChunkTooLarge,
        ),
{
}

/// The bytes of a command without arguments: what it is, the receiver, the controller, how to
/// answer, and zeros.
proof fn lemma_command_bytes(
    opcode: u8,
    device: DiscoveredDevice,
    master: [u8; 6],
    channel: u8,
    sequence: u8,
    j: int,
)
    requires
        0 <= j < 240,
    ensures
        ({
            let frame = command_frame(opcode, device, master, channel, sequence);
            &&& frame.len() == 240
            &&& j == 0 ==> frame[j] == 0x12
            &&& j == 1 ==> frame[j] == opcode
            &&& 2 <= j < 8 ==> frame[j] == device.mac@[j - 2]
            &&& 8 <= j < 14 ==> frame[j] == master@[j - 8]
            &&& j == 14 ==> frame[j] == device.rx_type
            &&& j == 15 ==> frame[j] == channel
            &&& j == 16 ==> frame[j] == 0
            &&& j == 17 ==> frame[j] == sequence
            &&& 18 <= j ==> frame[j] == 0
        }),
{
}

/// A command to a receiver is a frame of 240 bytes that names its operation, the receiver, which is
/// the first of that address that answered discovery, the controller and the sequence number; and
/// it is confirmed by that number. A single reboot is never sent again, and needs a bound receiver.
pub proof fn lemma_commands_name_their_receiver(
    controller: WirelessController,
    mac: &[u8; 6],
    sequence: u8,
    select: Result<RfCommand, WirelessError>,
    reboot: Result<RfCommand, WirelessError>,
    once: Result<RfCommand, WirelessError>,
    at: int,
    j: int,
)
    requires
        call_ensures(WirelessController::selected_group, (&controller, mac, sequence), select),
        call_ensures(WirelessController::reboot_lcd_group, (&controller, mac, sequence), reboot),
        call_ensures(WirelessController::reboot_lcd_group_once, (&controller, mac, sequence), once),
        0 <= at < controller.discovered@.len(),
        controller.discovered@[at].mac == *mac,
        forall|i: int| 0 <= i < at ==> (#[trigger] controller.discovered@[i]).mac != *mac,
        0 <= j < 240,
    ensures
        ({
            let device = controller.discovered@[at];
            let free = controller.tx_available && controller.picture_target != Some(*mac);
            &&& select is Ok <==> free
            &&& reboot is Ok <==> free
            &&& once is Ok <==> free && exists|i: int|
                0 <= i < controller.bound@.len() && (#[trigger] controller.bound@[i]).mac == *mac
            &&& select matches Ok(command) ==> {
                &&& command.mac == *mac && command.ack == AckSignal::CmdSeq(sequence)
                &&& command.retry_limit is None
                &&& command.rf_data@.len() == 240
                &&& j == 0 ==> command.rf_data@[j] == 0x12
                &&& j == 1 ==> command.rf_data@[j] == controller.opcodes.selected_group
                &&& 2 <= j < 8 ==> command.rf_data@[j] == mac@[j - 2]
                &&& 8 <= j < 14 ==> command.rf_data@[j] == controller.master_mac@[j - 8]
                &&& j == 14 ==> command.rf_data@[j] == device.rx_type
                &&& j == 15 ==> command.rf_data@[j] == controller.master_channel
                &&& j == 16 ==> command.rf_data@[j] == 0
                &&& j == 17 ==> command.rf_data@[j] == sequence
                &&& 18 <= j ==> command.rf_data@[j] == 0
            }
            &&& reboot matches Ok(command) ==> {
                &&& command.mac == *mac && command.ack == AckSignal::CmdSeq(sequence)
                &&& command.retry_limit is None
                &&& command.rf_data@.len() == 240
                &&& command.rf_data@[1] == controller.opcodes.reboot_lcd
                &&& select matches Ok(other) ==> (j != 1 ==> command.rf_data@[j]
                    == other.rf_data@[j])
            }
            &&& once matches Ok(command) ==> {
                &&& command.mac == *mac && command.ack == AckSignal::CmdSeq(sequence)
                &&& command.retry_limit == Some(0u32)
                &&& reboot matches Ok(other) ==> command.rf_data@ == other.rf_data@
            }
        }),
{
    lemma_first_position(controller.discovered@, *mac, 0);
    let device = controller.discovered@[at];
    let i = position_of(controller.discovered@, *mac, 0)->0;
    assert(controller.discovered@[i].mac == *mac);
    assert(i == at) by {
        if i > at {
            assert(controller.discovered@[at].mac != *mac);
        }
    }
    assert(controller.device(*mac) == device);
    let (master, channel) = (controller.master_mac, controller.master_channel);
    lemma_command_bytes(controller.opcodes.selected_group, device, master, channel, sequence, j);
    lemma_command_bytes(controller.opcodes.reboot_lcd, device, master, channel, sequence, j);
    lemma_command_bytes(controller.opcodes.reboot_lcd, device, master, channel, sequence, 1);
}

/// The link of a Lancool 217 is switched by byte 20 alone: 1 switches it off, 0 on.
pub proof fn lemma_wifi_is_switched_by_a_flag(
    controller: WirelessController,
    mac: &[u8; 6],
    sequence: u8,
    disable: bool,
    command: RfCommand,
    select: RfCommand,
    j: int,
)
    requires
        call_ensures(
            WirelessController::close_217_wifi,
            (&controller, mac, disable, sequence),
            Ok(command),
        ),
        call_ensures(WirelessController::selected_group, (&controller, mac, sequence), Ok(select)),
        0 <= j < 240,
    ensures
        command.mac == *mac && command.ack == AckSignal::CmdSeq(sequence),
        command.retry_limit is None,
        command.rf_data@.len() == 240,
        command.rf_data@[1] == controller.opcodes.close_217_wifi,
        disable ==> command.rf_data@[20] == 1,
        !disable ==> command.rf_data@[20] == 0,
        j != 1 && j != 20 ==> command.rf_data@[j] == select.rf_data@[j],
{
    let device = controller.device(*mac);
    let (master, channel) = (controller.master_mac, controller.master_channel);
    lemma_command_bytes(controller.opcodes.selected_group, device, master, channel, sequence, j);
    lemma_command_bytes(controller.opcodes.close_217_wifi, device, master, channel, sequence, j);
    lemma_command_bytes(controller.opcodes.close_217_wifi, device, master, channel, sequence, 1);
}

/// A command to a receiver that did not answer discovery is refused, and no sequence number is
/// drawn for it; one that did lends the number that it last reported.
pub proof fn lemma_numbers_come_from_the_receiver(
    controller: WirelessController,
    request: GroupRequest,
    mac: &[u8; 6],
    current: Result<u8, WirelessError>,
    picture: u8,
    at: int,
)
    requires
        call_ensures(WirelessController::draw_sequence, (&controller, request, mac), current),
        call_ensures(WirelessController::picture_sequence, (&controller, mac), picture),
    ensures
        (forall|i: int|
            0 <= i < controller.discovered@.len() ==> (#[trigger] controller.discovered@[i]).mac
                != *mac) ==> current is Err && picture == 0,
        0 <= at < controller.discovered@.len() && controller.discovered@[at].mac == *mac && (forall|
            i: int,
        |
            0 <= i < at ==> (#[trigger] controller.discovered@[i]).mac != *mac) ==> picture
            == controller.discovered@[at].cmd_seq && (current is Ok ==> current == Ok::<
            u8,
            WirelessError,
        >(controller.discovered@[at].cmd_seq)) && (!(request is RebootOnce) ==> current is Ok),
        request is RebootOnce && (forall|i: int|
            0 <= i < controller.bound@.len() ==> (#[trigger] controller.bound@[i]).mac != *mac)
            ==> current is Err,
{
    lemma_first_position(controller.discovered@, *mac, 0);
    let i = position_of(controller.discovered@, *mac, 0);
    if i is Some {
        assert(controller.discovered@[i->0].mac == *mac);
        if 0 <= at < i->0 {
            assert(controller.discovered@[at].mac != *mac);
        }
    }
    if 0 <= at < controller.discovered@.len() && controller.discovered@[at].mac == *mac {
        assert(lists(controller.discovered@, *mac));
    }
}

/// A picture can be sent only to a known and bound HydroShift II, of 1 to 20480 bytes, while no
/// other picture is being sent, nothing is being bound, no sequenced command to the receiver waits,
/// and there is a transmitter.
pub proof fn lemma_pictures_need_a_free_receiver(
    controller: WirelessController,
    mac: [u8; 6],
    length: int,
    at: int,
)
    ensures
        (forall|i: int|
            0 <= i < controller.discovered@.len() ==> (#[trigger] controller.discovered@[i]).mac
                != mac) ==> controller.picture_refused(mac, length) == Some(
            WirelessError::NoDeviceForPicture,
        ),
        (0 <= at < controller.discovered@.len() && controller.discovered@[at].mac == mac && forall|
            i: int,
        |
            0 <= i < at ==> (#[trigger] controller.discovered@[i]).mac != mac) ==> (
        controller.picture_refused(mac, length) is None <==> {
            &&& controller.discovered@[at].device_type == 10
                || controller.discovered@[at].device_type == 11
            &&& 1 <= length <= 20480
            &&& controller.picture_target is None
            &&& controller.binding_mac is None
            &&& controller.tx_available
            &&& exists|i: int|
                0 <= i < controller.bound@.len() && (#[trigger] controller.bound@[i]).mac == mac
            &&& !(controller.pending_commands matches Some(commands) && exists|i: int|
                0 <= i < commands@.len() && (#[trigger] commands@[i]).mac == mac
                    && commands@[i].ack is CmdSeq)
        }),
{
    let devices = controller.discovered@;
    lemma_first_position(devices, mac, 0);
    let found = position_of(devices, mac, 0);
    if 0 <= at < devices.len() && devices[at].mac == mac && found is Some {
        assert(lists(devices, mac));
        assert(devices[found->0].mac == mac);
        if found->0 > at {
            assert(devices[at].mac != mac);
        }
    }
    if found is None {
        assert(!lists(devices, mac));
    }
}

/// A picture that can be sent reserves its receiver, whose state at that moment goes with it; one
/// that cannot changes nothing.
pub proof fn lemma_pictures_reserve_their_receiver(mac: &[u8; 6], image: &[u8])
    ensures
        forall|controller: &mut WirelessController, upload: Result<PictureUpload, WirelessError>|
            #[trigger]
            call_ensures(WirelessController::send_aio_pic, (controller, mac, image), upload) ==> {
                &&& upload is Ok <==> controller.picture_refused(*mac, image@.len() as int) is None
                &&& upload is Ok ==> final(controller).picture_target == Some(*mac)
                &&& upload is Err ==> *final(controller) == *controller
                &&& upload matches Ok(sent) ==> {
                    &&& sent.device.mac == *mac
                    &&& sent.device.device_type == 10 || sent.device.device_type == 11
                    &&& sent.master_mac == controller.master_mac
                    &&& sent.master_channel == controller.master_channel
                }
            },
{
}

/// A transfer goes on while nobody cancels it, the controller is not stopped, and its deadline has
/// not passed; and an answer counts only in time, and only while the transfer goes on.
pub proof fn lemma_transfers_end_for_a_reason(
    controller: WirelessController,
    acked: bool,
    cancelled: bool,
    now: u64,
    ack_deadline: u64,
    deadline: u64,
    goes_on: Result<(), WirelessError>,
    wait: AckWait,
)
    requires
        call_ensures(
            WirelessController::check_picture_transfer,
            (&controller, cancelled, now, deadline),
            goes_on,
        ),
        call_ensures(
            WirelessController::wait_pic_ack,
            (&controller, acked, cancelled, now, ack_deadline, deadline),
            wait,
        ),
    ensures
        goes_on is Ok <==> !cancelled && !controller.poll_stop && now < deadline,
        goes_on == Err::<(), WirelessError>(WirelessError::Cancelled) <==> cancelled
            || controller.poll_stop,
        wait is TimedOut <==> now >= ack_deadline,
        wait is Acknowledged <==> now < ack_deadline && goes_on is Ok && acked,
        wait is Wait <==> now < ack_deadline && goes_on is Ok && !acked,
        wait matches AckWait::Ended(error) ==> goes_on == Err::<(), WirelessError>(error),
{
}

/// While a picture is sent, exactly the sequenced commands to its receiver are refused on its
/// account; every other command needs a transmitter and nothing else.
pub proof fn lemma_admitted_commands(
    controller: WirelessController,
    mac: &[u8; 6],
    ack: AckSignal,
    admitted: Result<(), WirelessError>,
)
    requires
        call_ensures(WirelessController::enqueue_rf_command, (&controller, mac, ack), admitted),
    ensures
        admitted == Err::<(), WirelessError>(WirelessError::ImageUploadRunning)
            <==> controller.picture_target == Some(*mac) && ack is CmdSeq,
        admitted is Ok <==> controller.tx_available && !(controller.picture_target == Some(*mac)
            && ack is CmdSeq),
{
}

/// Pictures go to the receiver types 10 and 11 only, with 1 to 20480 bytes.
pub proof fn lemma_valid_pictures(device_type: u8, length: usize, valid: Result<(), WirelessError>)
    requires
        call_ensures(validate_aio_image, (device_type, length), valid),
    ensures
        valid is Ok <==> (device_type == 10 || device_type == 11) && 1 <= length <= 20480,
        valid == Err::<(), WirelessError>(WirelessError::WrongModel) <==> device_type != 10
            && device_type != 11,
{
}

/// A finished transfer leaves no receiver reserved.
pub proof fn lemma_finished_pictures_free_their_receiver()
    ensures
        forall|controller: &mut WirelessController| #[trigger]
            call_ensures(WirelessController::picture_finished, (controller,), ()) ==> {
                &&& final(controller).picture_target is None
                &&& final(controller).opcodes == controller.opcodes
            },
{
}

} // verus!
