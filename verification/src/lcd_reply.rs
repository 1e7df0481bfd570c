//! What panels answer.
use vstd::prelude::*;
use vstd::slice::slice_subrange;
use vstd::string::*;

use crate::bytes::be32;

verus! {

/// The chunk size before one was negotiated.
pub const DEFAULT_H264_CHUNK_SIZE: usize = 202_752;

/// The largest chunk size that is accepted: device-reported allocations stay within the largest
/// supported LCD payload.
pub const MAX_H264_CHUNK_SIZE: usize = 1_048_576;

/// The smallest chunk size with which a stream can be fed.
pub const MIN_H264_CHUNK_SIZE: usize = 4096;

/// A panel's answer: the first `length` bytes.
pub struct LcdResponse {
    pub bytes: [u8; 512],
    pub length: usize,
}

impl LcdResponse {
    /// What the panel sent.
    pub fn reply(&self) -> (reply: &[u8])
        requires
            self.length <= 512,
        ensures
            reply@ == self.bytes@.take(self.length as int),
    {
        let reply = slice_subrange(self.bytes.as_slice(), 0, self.length);
        assert(reply@ =~= self.bytes@.take(self.length as int));
        reply
    }
}

/// How full the panel says its buffer is.
pub open spec fn level_in(reply: Seq<u8>) -> Option<u8> {
    if reply.len() > 8 {
        Some(reply[8])
    } else {
        None
    }
}

/// How full the panel says its buffer is. A short answer says nothing.
pub fn buffer_level(reply: &[u8]) -> (level: Option<u8>)
    ensures
        level == level_in(reply@),
{
    if reply.len() > 8 {
        Some(reply[8])
    } else {
        None
    }
}

/// The bytes before the first zero.
pub open spec fn until_zero(bytes: Seq<u8>) -> Seq<u8>
    decreases bytes.len(),
{
    if bytes.len() == 0 || bytes[0] == 0 {
        Seq::empty()
    } else {
        seq![bytes[0]] + until_zero(bytes.skip(1))
    }
}

proof fn lemma_until_zero(bytes: Seq<u8>, n: int)
    requires
        0 <= n <= bytes.len(),
        forall|i: int| 0 <= i < n ==> bytes[i] != 0,
        n == bytes.len() || bytes[n] == 0,
    ensures
        until_zero(bytes) == bytes.take(n),
    decreases bytes.len(),
{
    if bytes.len() > 0 && bytes[0] != 0 {
        assert forall|i: int| 0 <= i < n - 1 implies bytes.skip(1)[i] != 0 by {
            assert(bytes.skip(1)[i] == bytes[i + 1]);
        }
        if n < bytes.len() {
            assert(bytes.skip(1)[n - 1] == bytes[n]);
        }
        lemma_until_zero(bytes.skip(1), n - 1);
        assert(seq![bytes[0]] + bytes.skip(1).take(n - 1) =~= bytes.take(n));
    } else {
        assert(bytes.take(n) =~= Seq::<u8>::empty());
    }
}

fn before_zero(bytes: &[u8]) -> (text: &[u8])
    ensures
        text@ == until_zero(bytes@),
{
    let mut n: usize = 0;
    while n < bytes.len() && bytes[n] != 0
        invariant
            n <= bytes@.len(),
            forall|i: int| 0 <= i < n ==> bytes@[i] != 0,
        decreases bytes@.len() - n,
    {
        n += 1;
    }
    proof {
        lemma_until_zero(bytes@, n as int);
    }
    let text = slice_subrange(bytes, 0, n);
    assert(text@ =~= bytes@.take(n as int));
    text
}

/// A printable ASCII character, or a space.
pub open spec fn is_printable(byte: u8) -> bool {
    0x20 <= byte <= 0x7e
}

/// The answer holds a complete firmware version.
pub open spec fn has_firmware(reply: Seq<u8>) -> bool {
    &&& reply.len() >= 40
    &&& reply[0] == 0x0a
    &&& until_zero(reply.subrange(8, 40)).len() > 0
    &&& forall|i: int|
        0 <= i < until_zero(reply.subrange(8, 40)).len() ==> is_printable(
            #[trigger] until_zero(reply.subrange(8, 40))[i],
        )
}

/// Whether the answer holds a complete firmware version.
pub fn valid_firmware_reply(reply: &[u8]) -> (valid: bool)
    ensures
        valid == has_firmware(reply@),
{
    if reply.len() < 40 || reply[0] != 0x0a {
        return false;
    }
    let version = slice_subrange(reply, 8, 40);
    assert(version@ =~= reply@.subrange(8, 40));
    let text = before_zero(version);
    if text.len() == 0 {
        return false;
    }
    let mut i: usize = 0;
    while i < text.len()
        invariant
            i <= text@.len(),
            text@ == until_zero(reply@.subrange(8, 40)),
            forall|j: int| 0 <= j < i ==> is_printable(#[trigger] text@[j]),
        decreases text@.len() - i,
    {
        if text[i] < 0x20 || text[i] > 0x7e {
            assert(!is_printable(text@[i as int]));
            return false;
        }
        i += 1;
    }
    true
}

/// The text that bytes spell, with replacement characters where they spell none.
pub uninterp spec fn lossy_text(bytes: Seq<u8>) -> Seq<char>;

/// `String::from_utf8_lossy`, as a string of its own: a function of the bytes alone. Bytes below
/// 128 stand for the characters of the same numbers.
#[verifier::external_body]
fn text_from_bytes(bytes: &[u8]) -> (text: String)
    ensures
        text@ == lossy_text(bytes@),
        (forall|i: int| 0 <= i < bytes@.len() ==> #[trigger] bytes@[i] < 128) ==> text@
            == bytes@.map_values(|byte: u8| byte as char),
{
    String::from_utf8_lossy(bytes).to_string()
}

/// The bytes of an answer that may hold the firmware version.
pub open spec fn firmware_bytes(reply: Seq<u8>) -> Seq<u8> {
    if reply.len() <= 8 {
        Seq::empty()
    } else {
        until_zero(reply.subrange(8, if reply.len() < 40 { reply.len() as int } else { 40 }))
    }
}

/// The firmware version that a panel reports, if it reports any.
pub fn firmware_text(reply: &[u8]) -> (firmware: Option<String>)
    ensures
        match firmware {
            Some(text) => text@ == lossy_text(firmware_bytes(reply@)) && text@.len() > 0,
            None => lossy_text(firmware_bytes(reply@)).len() == 0,
        },
        (forall|i: int|
            0 <= i < firmware_bytes(reply@).len() ==> #[trigger] firmware_bytes(reply@)[i] < 128)
            ==> match firmware {
            Some(text) => text@ == firmware_bytes(reply@).map_values(|byte: u8| byte as char),
            None => firmware_bytes(reply@).len() == 0,
        },
{
    let end: usize = if reply.len() < 40 {
        reply.len()
    } else {
        40
    };
    let start: usize = if end < 8 {
        end
    } else {
        8
    };
    let bytes = slice_subrange(reply, start, end);
    let version = before_zero(bytes);
    proof {
        if reply@.len() <= 8 {
            assert(bytes@ =~= Seq::<u8>::empty());
        } else {
            assert(bytes@ =~= reply@.subrange(8, end as int));
        }
    }
    named_firmware(text_from_bytes(version))
}

/// A firmware version, unless it is empty.
pub fn named_firmware(text: String) -> (firmware: Option<String>)
    ensures
        firmware == if text@.len() == 0 {
            None
        } else {
            Some(text)
        },
{
    if text.as_str().unicode_len() == 0 {
        None
    } else {
        Some(text)
    }
}

/// The chunk size that an answer offers, if it offers one that is accepted.
pub open spec fn offered_size(reply: Seq<u8>) -> Option<usize> {
    if reply.len() >= 12 && 0 < be32(reply.subrange(8, 12)) <= MAX_H264_CHUNK_SIZE {
        Some(be32(reply.subrange(8, 12)) as usize)
    } else {
        None
    }
}

/// What an answer about the chunk size comes to.
#[derive(Clone, Copy, Debug, PartialEq, Eq, Structural)]
pub enum BlockReply {
    /// The panel takes chunks of this size.
    Size(usize),
    /// The panel wants the default.
    Default,
    /// The answer is short, or the size is not accepted.
    Invalid,
}

fn read_size(reply: &[u8]) -> (size: Option<u32>)
    ensures
        size is Some <==> reply@.len() >= 12,
        size matches Some(size) ==> size == be32(reply@.subrange(8, 12)),
{
    if reply.len() < 12 {
        return None;
    }
    Some(
        16777216 * reply[8] as u32 + 65536 * reply[9] as u32 + 256 * reply[10] as u32
            + reply[11] as u32,
    )
}

/// What an answer about the chunk size comes to.
pub fn block_reply(reply: &[u8]) -> (block: BlockReply)
    ensures
        block == match offered_size(reply@) {
            Some(size) => BlockReply::Size(size),
            None => if reply@.len() >= 12 && be32(reply@.subrange(8, 12)) == 0 {
                BlockReply::Default
            } else {
                BlockReply::Invalid
            },
        },
{
    match read_size(reply) {
        Some(size) => if size == 0 {
            BlockReply::Default
        } else if size <= MAX_H264_CHUNK_SIZE as u32 {
            BlockReply::Size(size as usize)
        } else {
            BlockReply::Invalid
        },
        None => BlockReply::Invalid,
    }
}

/// The chunk size that was negotiated with the panel.
pub struct NegotiatedH264ChunkSize {
    size: usize,
}

impl Default for NegotiatedH264ChunkSize {
    fn default() -> (state: Self)
        ensures
            state.negotiated() is None,
    {
        NegotiatedH264ChunkSize { size: 0 }
    }
}

impl NegotiatedH264ChunkSize {
    /// The size that was negotiated, if one was.
    pub closed spec fn negotiated(self) -> Option<usize> {
        if self.size == 0 {
            None
        } else {
            Some(self.size)
        }
    }

    /// The size that was negotiated, if one was.
    pub fn get(&self) -> (size: Option<usize>)
        ensures
            size == self.negotiated(),
            size matches Some(size) ==> size > 0,
    {
        if self.size == 0 {
            None
        } else {
            Some(self.size)
        }
    }

    /// Forgets the size.
    pub fn clear(&mut self)
        ensures
            final(self).negotiated() is None,
    {
        self.size = 0;
    }

    /// Takes over the size that an answer offers; without one, none is known.
    pub fn update(&mut self, reply: &[u8]) -> (size: Option<usize>)
        ensures
            size == offered_size(reply@),
            final(self).negotiated() == offered_size(reply@),
    {
        match block_reply(reply) {
            BlockReply::Size(size) => {
                self.size = size;
                Some(size)
            },
            _ => {
                self.size = 0;
                None
            },
        }
    }
}

/// The chunk size cannot be used for a stream.
#[derive(Clone, Copy, Debug, PartialEq, Eq, Structural)]
pub struct UnsupportedBlockSize {
    pub size: usize,
}

/// Whether a stream can be fed with chunks of this size.
pub fn validate_h264_chunk_size(size: usize) -> (valid: Result<usize, UnsupportedBlockSize>)
    ensures
        valid == if MIN_H264_CHUNK_SIZE <= size <= MAX_H264_CHUNK_SIZE {
            Ok::<usize, UnsupportedBlockSize>(size)
        } else {
            Err(UnsupportedBlockSize { size })
        },
{
    if MIN_H264_CHUNK_SIZE <= size && size <= MAX_H264_CHUNK_SIZE {
        Ok(size)
    } else {
        Err(UnsupportedBlockSize { size })
    }
}

/// The ninth byte of an answer is the level of the buffer.
pub proof fn lemma_the_level_is_the_ninth_byte(reply: &[u8], level: Option<u8>)
    requires
        call_ensures(buffer_level, (reply,), level),
    ensures
        level is Some <==> reply@.len() >= 9,
        level matches Some(level) ==> level == reply@[8],
{
}

/// A firmware answer is complete exactly when it has forty bytes, begins with its command, and
/// holds from the ninth byte on at least one printable character, up to a zero or the fortieth
/// byte, and no other character.
pub proof fn lemma_complete_firmware_answers(reply: &[u8], valid: bool, n: int)
    requires
        call_ensures(valid_firmware_reply, (reply,), valid),
        reply@.len() >= 40 ==> 0 <= n <= 32 && (n == 32 || reply@[8 + n] == 0) && forall|k: int|
            8 <= k < 8 + n ==> #[trigger] reply@[k] != 0,
    ensures
        valid <==> {
            &&& reply@.len() >= 40
            &&& reply@[0] == 0x0a
            &&& n >= 1
            &&& forall|k: int| 8 <= k < 8 + n ==> 0x20 <= #[trigger] reply@[k] && reply@[k] <= 0x7e
        },
{
    if reply@.len() >= 40 {
        let field = reply@.subrange(8, 40);
        assert forall|k: int| 0 <= k < n implies field[k] != 0 by {
            assert(field[k] == reply@[8 + k]);
        }
        lemma_until_zero(field, n);
        if valid {
            assert forall|k: int| 8 <= k < 8 + n implies 0x20 <= #[trigger] reply@[k] && reply@[k]
                <= 0x7e by {
                assert(is_printable(until_zero(field)[k - 8]));
            }
        } else if forall|k: int| 8 <= k < 8 + n ==> 0x20 <= #[trigger] reply@[k] && reply@[k] <= 0x7e {
            assert forall|i: int| 0 <= i < until_zero(field).len() implies is_printable(
                #[trigger] until_zero(field)[i],
            ) by {
                assert(until_zero(field)[i] == reply@[8 + i]);
            }
        }
    }
}

/// An ASCII firmware version is read character by character from the ninth byte on, up to a zero,
/// the fortieth byte or the end of the answer. No character, no version.
pub proof fn lemma_firmware_is_spelled_out(reply: &[u8], firmware: Option<String>, n: int)
    requires
        call_ensures(firmware_text, (reply,), firmware),
        0 <= n <= 32,
        reply@.len() >= 8 + n || n == 0,
        n == 32 || reply@.len() <= 8 + n || reply@[8 + n] == 0,
        forall|k: int| 8 <= k < 8 + n ==> 0 < #[trigger] reply@[k] && reply@[k] < 128,
    ensures
        firmware is Some <==> n > 0,
        firmware matches Some(text) ==> text@.len() == n && forall|k: int|
            0 <= k < n ==> (#[trigger] text@[k]) == reply@[8 + k] as char,
{
    let bytes = firmware_bytes(reply@);
    if reply@.len() > 8 {
        let field = reply@.subrange(8, if reply@.len() < 40 { reply@.len() as int } else { 40 });
        assert forall|k: int| 0 <= k < n implies field[k] != 0 by {
            assert(field[k] == reply@[8 + k]);
        }
        lemma_until_zero(field, n);
        assert(bytes =~= reply@.subrange(8, 8 + n));
    }
    assert forall|i: int| 0 <= i < bytes.len() implies #[trigger] bytes[i] < 128 by {
        assert(bytes[i] == reply@[8 + i]);
    }
}

/// A panel offers the size that bytes nine to twelve of its answer spell, the highest first, up
/// to one mebibyte. A zero stands for the default.
pub proof fn lemma_offers_are_read_big_endian(reply: &[u8], block: BlockReply)
    requires
        call_ensures(block_reply, (reply,), block),
    ensures
        reply@.len() < 12 ==> block is Invalid,
        reply@.len() >= 12 ==> {
            let value = reply@[8] * 0x100_0000 + reply@[9] * 0x1_0000 + reply@[10] * 0x100
                + reply@[11];
            &&& value == 0 <==> block is Default
            &&& value > 1_048_576 <==> block is Invalid
            &&& 0 < value <= 1_048_576 ==> block == BlockReply::Size(value as usize)
        },
{
}

/// The size that a panel offers is kept and handed out. An answer without one leaves none.
pub proof fn lemma_offers_are_kept(reply: &[u8])
    ensures
        forall|state: &mut NegotiatedH264ChunkSize, size: Option<usize>| #[trigger]
            call_ensures(NegotiatedH264ChunkSize::update, (state, reply), size) ==> {
                let value = reply@[8] * 0x100_0000 + reply@[9] * 0x1_0000 + reply@[10] * 0x100
                    + reply@[11];
                &&& size == if reply@.len() >= 12 && 0 < value <= 1_048_576 {
                    Some(value as usize)
                } else {
                    None
                }
                &&& forall|kept: Option<usize>| #[trigger]
                    call_ensures(NegotiatedH264ChunkSize::get, (&*final(state),), kept) ==> kept
                        == size
            },
{
}

/// A stream can be fed with chunks from four kibibytes to one mebibyte.
pub proof fn lemma_usable_chunk_sizes(size: usize, valid: Result<usize, UnsupportedBlockSize>)
    requires
        call_ensures(validate_h264_chunk_size, (size,), valid),
    ensures
        valid is Ok <==> 4096 <= size <= 1_048_576,
        valid matches Ok(usable) ==> usable == size,
        valid matches Err(refused) ==> refused.size == size,
{
}

/// An empty version is none; any other is taken as it is. A size that is forgotten is not known.
pub proof fn lemma_empty_versions_are_none(text: String, firmware: Option<String>)
    requires
        call_ensures(named_firmware, (text,), firmware),
    ensures
        firmware is None <==> text@.len() == 0,
        firmware is Some ==> firmware->0 == text,
        forall|state: &mut NegotiatedH264ChunkSize| #[trigger]
            call_ensures(NegotiatedH264ChunkSize::clear, (state,), ()) ==> final(state).negotiated() is None,
{
}

/// An answer is the bytes that were received, up to its length.
pub proof fn lemma_answers_are_what_was_received(response: LcdResponse, reply: &[u8], k: int)
    requires
        call_ensures(LcdResponse::reply, (&response,), reply),
        response.length <= 512,
    ensures
        reply@.len() == response.length,
        0 <= k < reply@.len() ==> reply@[k] == response.bytes@[k],
{
}

} // verus!
