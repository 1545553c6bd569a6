//! Voice chat: collecting voice data messages into samples, and decoding the
//! Steam voice packets they carry.

use vstd::prelude::*;
use bitbuffer::{BitError, BitReadBuffer, LittleEndian};
use steamid_ng::{SteamID, SteamIDParseError};

verus! {

#[verifier::external_type_specification]
#[verifier::external_body]
pub struct ExBitError(BitError);

#[verifier::external_type_specification]
#[verifier::external_body]
pub struct ExSteamID(SteamID);

#[verifier::external_type_specification]
#[verifier::external_body]
pub struct ExSteamIDParseError(SteamIDParseError);

/// The unsigned value of bytes read least significant first.
pub open spec fn le_value(bytes: Seq<u8>) -> nat
    decreases bytes.len(),
{
    if bytes.len() == 0 {
        0
    } else {
        bytes[0] as nat + 256 * le_value(bytes.drop_first())
    }
}

/// `bitbuffer::BitReadBuffer::read_int::<u64>` on a little-endian buffer over
/// `data`, reading `count` bits at bit `position`, both whole bytes. Claimed: the
/// read succeeds exactly when the bits lie inside the buffer, and then gives the
/// bytes' value read least significant byte first.
#[verifier::external_body]
fn read_le_int(data: &[u8], position: usize, count: usize) -> (r: Result<u64, BitError>)
    requires
        position % 8 == 0,
        count % 8 == 0,
        0 < count <= 64,
        position + count + 64 <= usize::MAX,
        data@.len() * 8 <= usize::MAX,
    ensures
        r is Ok <==> position + count <= data@.len() * 8,
        r matches Ok(v) ==> v as nat == le_value(
            data@.subrange(position as int / 8, (position + count) as int / 8),
        ),
{
    BitReadBuffer::new(data, LittleEndian).read_int::<u64>(position, count)
}

/// `bitbuffer::BitReadBuffer::read_bytes` on a little-endian buffer over `data`,
/// reading `byte_count` bytes at bit `position`, a whole byte, made into a vector.
/// Claimed: the read succeeds exactly when the bytes lie inside the buffer, and then
/// gives those bytes.
#[verifier::external_body]
fn read_byte_run(data: &[u8], position: usize, byte_count: usize) -> (r: Result<Vec<u8>, BitError>)
    requires
        position % 8 == 0,
        position + byte_count * 8 <= usize::MAX,
        data@.len() * 8 <= usize::MAX,
    ensures
        r is Ok <==> position + byte_count * 8 <= data@.len() * 8,
        r matches Ok(v) ==> v@ == data@.subrange(
            position as int / 8,
            position as int / 8 + byte_count,
        ),
{
    match BitReadBuffer::new(data, LittleEndian).read_bytes(position, byte_count) {
        Ok(bytes) => Ok(bytes.into_owned()),
        Err(e) => Err(e),
    }
}

/// The Steam id that `SteamID::try_from` makes of the 64 bits `raw`.
pub uninterp spec fn steam_id_value(raw: u64) -> SteamID;

/// Whether `raw` has an account type (bits 52..56) and a universe (bits 56..64)
/// that Steam ids can have.
pub open spec fn steam_id_valid(raw: u64) -> bool {
    (raw >> 52u64) & 0xf <= 10 && (raw >> 56u64) & 0xff <= 5
}

/// `steamid_ng::SteamID::try_from(u64)`. Claimed, as its source shows: it succeeds
/// exactly when the account type (bits 52..56) is at most 10 and the universe (bits
/// 56..64) at most 5, and then gives the id made of `raw`.
#[verifier::external_body]
fn steam_id_try_from(raw: u64) -> (r: Result<SteamID, SteamIDParseError>)
    ensures
        r is Ok <==> steam_id_valid(raw),
        r matches Ok(id) ==> id == steam_id_value(raw),
{
    SteamID::try_from(raw)
}

/// The voice codecs of the game.
#[derive(Clone, Copy, Debug, PartialEq, Eq, Structural)]
pub enum VoiceCodec {
    Steam,
    Speex,
    Celt,
    CeltHigh,
}

/// The codec that a voice init message names.
pub open spec fn codec_named(name: Seq<char>) -> Option<VoiceCodec> {
    if name == "steam"@ {
        Some(VoiceCodec::Steam)
    } else if name == "vaudio_speex"@ {
        Some(VoiceCodec::Speex)
    } else if name == "vaudio_celt"@ {
        Some(VoiceCodec::Celt)
    } else if name == "vaudio_celt_high"@ {
        Some(VoiceCodec::CeltHigh)
    } else {
        None
    }
}

/// Whether two strings hold the same characters.
pub fn str_equal(a: &str, b: &str) -> (r: bool)
    ensures
        r == (a@ == b@),
{
    let n = a.unicode_len();
    if n != b.unicode_len() {
        return false;
    }
    let mut i: usize = 0;
    while i < n
        invariant
            i <= n,
            n == a@.len(),
            n == b@.len(),
            forall|j: int| 0 <= j < i ==> a@[j] == b@[j],
        decreases n - i,
    {
        if a.get_char(i) != b.get_char(i) {
            return false;
        }
        i = i + 1;
    }
    assert(a@ =~= b@);
    true
}

/// The codec that a voice init message names, if the game has it.
pub fn codec_from_name(name: &str) -> (r: Option<VoiceCodec>)
    ensures
        r == codec_named(name@),
{
    if str_equal(name, "steam") {
        Some(VoiceCodec::Steam)
    } else if str_equal(name, "vaudio_speex") {
        Some(VoiceCodec::Speex)
    } else if str_equal(name, "vaudio_celt") {
        Some(VoiceCodec::Celt)
    } else if str_equal(name, "vaudio_celt_high") {
        Some(VoiceCodec::CeltHigh)
    } else {
        None
    }
}

/// A voice init message: the codec and sampling rate of the voice data that follows.
#[derive(Debug)]
pub struct VoiceInit {
    pub codec: String,
    pub quality: u8,
    pub sampling_rate: u16,
}

impl VoiceInit {
    /// A copy of the message.
    pub fn duplicate(&self) -> (r: VoiceInit)
        ensures
            r == *self,
    {
        VoiceInit { codec: self.codec.clone(), quality: self.quality, sampling_rate: self.sampling_rate }
    }
}

/// A voice data message: `length` bits of voice data from client `client`, held in
/// `data` from its first byte on.
#[derive(Debug)]
pub struct VoiceData {
    pub client: u8,
    pub proximity: u8,
    pub length: u16,
    pub data: Vec<u8>,
}

/// The messages that voice handling looks at.
#[derive(Debug)]
pub enum VoiceMessage {
    Init(VoiceInit),
    Data(VoiceData),
    Other,
}

/// The types of message.
#[derive(Clone, Copy, Debug, PartialEq, Eq, Structural)]
pub enum MessageType {
    VoiceInit,
    VoiceData,
    Other,
}

/// A sample of voice data, with the codec and sampling rate of the init before it.
#[derive(Debug)]
pub struct VoiceSample {
    pub tick: u32,
    pub codec: VoiceCodec,
    pub sampling_rate: u16,
    pub client: u8,
    pub data: Vec<u8>,
}

/// The values of a voice sample.
pub open spec fn sample_view(s: VoiceSample) -> (u32, VoiceCodec, u16, u8, Seq<u8>) {
    (s.tick, s.codec, s.sampling_rate, s.client, s.data@)
}

/// The voice samples of a demo.
#[derive(Debug)]
pub struct Voice {
    pub samples: Vec<VoiceSample>,
    pub last_init: Option<VoiceInit>,
}

/// The values of the samples of a voice handler.
pub open spec fn samples_view(v: Seq<VoiceSample>) -> Seq<(u32, VoiceCodec, u16, u8, Seq<u8>)> {
    v.map_values(|s: VoiceSample| sample_view(s))
}

/// The values of a voice sample.
pub type SampleView = (u32, VoiceCodec, u16, u8, Seq<u8>);

/// The codec that the last init names, if there is one and the codec is known.
pub open spec fn init_codec(last_init: Option<VoiceInit>) -> Option<VoiceCodec> {
    match last_init {
        Some(init) => codec_named(init.codec@),
        None => None,
    }
}

/// The messages a handler whose last init is `last_init` can take: voice data that
/// will be kept (after an init naming a known codec) holds its whole bytes, and its
/// bits can be counted in a `usize`. Other messages are always taken.
pub open spec fn message_ok(last_init: Option<VoiceInit>, message: VoiceMessage) -> bool {
    match message {
        VoiceMessage::Data(d) => init_codec(last_init) is Some ==> d.length / 8 <= d.data@.len()
            && d.data@.len() * 8 <= usize::MAX,
        _ => true,
    }
}

/// One message taken by a handler with last init `last_init` and samples `samples`:
/// an init becomes the last init; voice data after an init naming a known codec adds
/// a sample of its whole bytes, with that init's codec and sampling rate; anything
/// else changes nothing.
pub open spec fn voice_step(
    last_init: Option<VoiceInit>,
    samples: Seq<SampleView>,
    message: VoiceMessage,
    tick: u32,
) -> (Option<VoiceInit>, Seq<SampleView>) {
    match message {
        VoiceMessage::Init(init) => (Some(init), samples),
        VoiceMessage::Data(d) => match init_codec(last_init) {
            Some(codec) => (
                last_init,
                samples.push(
                    (
                        tick,
                        codec,
                        last_init->0.sampling_rate,
                        d.client,
                        d.data@.subrange(0, d.length as int / 8),
                    ),
                ),
            ),
            None => (last_init, samples),
        },
        VoiceMessage::Other => (last_init, samples),
    }
}

/// The state of a new handler after taking the messages in turn.
pub open spec fn voice_run(messages: Seq<(VoiceMessage, u32)>) -> (Option<VoiceInit>, Seq<SampleView>)
    decreases messages.len(),
{
    if messages.len() == 0 {
        (None, Seq::empty())
    } else {
        let (last_init, samples) = voice_run(messages.drop_last());
        voice_step(last_init, samples, messages.last().0, messages.last().1)
    }
}

/// The last init among the messages, if any.
pub open spec fn latest_init(messages: Seq<(VoiceMessage, u32)>) -> Option<VoiceInit>
    decreases messages.len(),
{
    if messages.len() == 0 {
        None
    } else {
        match messages.last().0 {
            VoiceMessage::Init(init) => Some(init),
            _ => latest_init(messages.drop_last()),
        }
    }
}

/// In order, one sample for each voice data message whose latest preceding init
/// names a known codec: the message's tick, client and whole bytes, with that init's
/// codec and sampling rate.
pub open spec fn voice_samples_of(messages: Seq<(VoiceMessage, u32)>) -> Seq<SampleView>
    decreases messages.len(),
{
    if messages.len() == 0 {
        Seq::empty()
    } else {
        let rest = voice_samples_of(messages.drop_last());
        let before = latest_init(messages.drop_last());
        match (messages.last().0, init_codec(before)) {
            (VoiceMessage::Data(d), Some(codec)) => rest.push(
                (
                    messages.last().1,
                    codec,
                    before->0.sampling_rate,
                    d.client,
                    d.data@.subrange(0, d.length as int / 8),
                ),
            ),
            _ => rest,
        }
    }
}

/// Law: a handler that takes a run of messages from new keeps as last init the latest
/// init of the run, and lists exactly the samples of `voice_samples_of`, in order.
pub proof fn lemma_voice_run(messages: Seq<(VoiceMessage, u32)>)
    ensures
        voice_run(messages) == (latest_init(messages), voice_samples_of(messages)),
    decreases messages.len(),
{
    if messages.len() > 0 {
        lemma_voice_run(messages.drop_last());
    }
}

impl Voice {
    /// No sample and no init yet.
    pub fn new() -> (v: Voice)
        ensures
            v.samples@.len() == 0,
            v.last_init is None,
            (v.last_init, samples_view(v.samples@)) == voice_run(Seq::empty()),
    {
        Voice { samples: Vec::new(), last_init: None }
    }

    /// Voice handling looks at voice init and voice data messages only.
    pub fn does_handle(message_type: MessageType) -> (r: bool)
        ensures
            r == (message_type == MessageType::VoiceInit || message_type == MessageType::VoiceData),
    {
        match message_type {
            MessageType::VoiceInit | MessageType::VoiceData => true,
            _ => false,
        }
    }

    /// Takes one message (see `voice_step`). An init becomes the last init. Voice
    /// data becomes a sample holding its whole bytes, with the codec and sampling rate
    /// of the last init, when there is a last init and it names a known codec;
    /// otherwise it is dropped.
    pub fn handle_message(&mut self, message: &VoiceMessage, tick: u32)
        requires
            message_ok(old(self).last_init, *message),
        ensures
            (final(self).last_init, samples_view(final(self).samples@)) == voice_step(
                old(self).last_init,
                samples_view(old(self).samples@),
                *message,
                tick,
            ),
    {
        match message {
            VoiceMessage::Init(init) => {
                self.last_init = Some(init.duplicate());
            },
            VoiceMessage::Data(data) => {
                let (codec, sampling_rate) = match &self.last_init {
                    Some(init) => match codec_from_name(init.codec.as_str()) {
                        Some(codec) => (codec, init.sampling_rate),
                        None => return ,
                    },
                    None => return ,
                };
                let byte_count = (data.length / 8) as usize;
                let bytes = match read_byte_run(data.data.as_slice(), 0, byte_count) {
                    Ok(bytes) => bytes,
                    Err(_) => return ,
                };
                let ghost before = self.samples@;
                self.samples.push(
                    VoiceSample { tick, codec, sampling_rate, client: data.client, data: bytes },
                );
                assert(samples_view(self.samples@) =~= samples_view(before).push(
                    sample_view(self.samples@.last()),
                ));
            },
            VoiceMessage::Other => {},
        }
    }

    /// The samples collected.
    pub fn into_output(self) -> (samples: Vec<VoiceSample>)
        ensures
            samples == self.samples,
    {
        self.samples
    }
}

/// A decoded Steam voice packet.
#[derive(Debug)]
pub struct SteamVoicePacket {
    pub steam_id: u64,
    pub sample_rate: u16,
    pub data: Vec<u8>,
}

impl SteamVoicePacket {
    /// The packet's sender as a Steam id, when its bits make one.
    pub fn sender(&self) -> (r: Option<SteamID>)
        ensures
            r is Some <==> steam_id_valid(self.steam_id),
            r matches Some(id) ==> id == steam_id_value(self.steam_id),
    {
        match steam_id_try_from(self.steam_id) {
            Ok(id) => Some(id),
            Err(_) => None,
        }
    }
}

/// The header of a Steam voice packet, 14 bytes read little-endian: the sender's
/// 64-bit Steam id, a packet type of 11, the sample rate, the payload type and the
/// payload length in bytes.
pub open spec fn voice_header_ok(data: Seq<u8>) -> bool {
    &&& data.len() >= 14
    &&& data[8] == 11
    &&& data[11] == 6 ==> 14 + le_value(data.subrange(12, 14)) <= data.len()
}

/// Decodes a Steam voice packet: its header and, for payload type 6, the payload
/// bytes that follow; other payload types carry no data.
pub fn decode_steam_voice_sample(data: &[u8]) -> (packet: SteamVoicePacket)
    requires
        voice_header_ok(data@),
        data@.len() * 8 + 128 <= usize::MAX,
    ensures
        packet.steam_id as nat == le_value(data@.subrange(0, 8)),
        packet.sample_rate as nat == le_value(data@.subrange(9, 11)),
        packet.data@ == if data@[11] == 6 {
            data@.subrange(14, 14 + le_value(data@.subrange(12, 14)) as int)
        } else {
            Seq::empty()
        },
{
    proof {
        lemma_le_value_bound(data@.subrange(8, 9));
        lemma_le_value_bound(data@.subrange(9, 11));
        lemma_le_value_bound(data@.subrange(11, 12));
        lemma_le_value_bound(data@.subrange(12, 14));
        lemma_le_value_bound(data@.subrange(0, 8));
        lemma_le_value_byte(data@.subrange(8, 9));
        lemma_le_value_byte(data@.subrange(11, 12));
    }
    let steam_id = match read_le_int(data, 0, 64) {
        Ok(v) => v,
        Err(_) => 0,
    };
    let ty = match read_le_int(data, 64, 8) {
        Ok(v) => v,
        Err(_) => 0,
    };
    let sample_rate = match read_le_int(data, 72, 16) {
        Ok(v) => v as u16,
        Err(_) => 0,
    };
    let payload_type = match read_le_int(data, 88, 8) {
        Ok(v) => v,
        Err(_) => 0,
    };
    let length = match read_le_int(data, 96, 16) {
        Ok(v) => v as usize,
        Err(_) => 0,
    };
    assert(ty == 11);
    let payload = if payload_type == 6 {
        match read_byte_run(data, 112, length) {
            Ok(bytes) => bytes,
            Err(_) => Vec::new(),
        }
    } else {
        Vec::new()
    };
    SteamVoicePacket { steam_id, sample_rate, data: payload }
}

/// The value of one, two or eight bytes fits in `u8`, `u16` or `u64`.
proof fn lemma_le_value_bound(bytes: Seq<u8>)
    ensures
        bytes.len() == 1 ==> le_value(bytes) < 0x100,
        bytes.len() == 2 ==> le_value(bytes) < 0x1_0000,
        bytes.len() == 8 ==> le_value(bytes) < 0x1_0000_0000_0000_0000,
{
    lemma_le_value_upper(bytes);
    reveal_with_fuel(pow256, 9);
}

/// The value of `n` bytes is below `256^n`.
proof fn lemma_le_value_upper(bytes: Seq<u8>)
    ensures
        le_value(bytes) < pow256(bytes.len()),
    decreases bytes.len(),
{
    if bytes.len() > 0 {
        lemma_le_value_upper(bytes.drop_first());
        assert(le_value(bytes) < pow256(bytes.len())) by (nonlinear_arith)
            requires
                le_value(bytes) == bytes[0] as nat + 256 * le_value(bytes.drop_first()),
                bytes[0] < 256,
                le_value(bytes.drop_first()) < pow256(bytes.drop_first().len()),
                pow256(bytes.len()) == 256 * pow256(bytes.drop_first().len()),
        ;
    }
}

/// `256^n`.
pub open spec fn pow256(n: nat) -> nat
    decreases n,
{
    if n == 0 {
        1
    } else {
        256 * pow256((n - 1) as nat)
    }
}

/// The value of one byte is the byte.
proof fn lemma_le_value_byte(bytes: Seq<u8>)
    requires
        bytes.len() == 1,
    ensures
        le_value(bytes) == bytes[0],
{
    assert(bytes.drop_first().len() == 0);
    assert(le_value(bytes.drop_first()) == 0);
}

/// Whether `decode_steam_voice_sample` takes `data`: its header is well-formed (see
/// `voice_header_ok`) and its bits can be counted in a `usize`.
pub fn voice_header_ok_bytes(data: &[u8]) -> (r: bool)
    ensures
        r == (voice_header_ok(data@) && data@.len() * 8 + 128 <= usize::MAX),
{
    let n = data.len();
    if n > (usize::MAX - 128) / 8 {
        return false;
    }
    if n < 14 || data[8] != 11 {
        return false;
    }
    if data[11] != 6 {
        return true;
    }
    let length = data[12] as usize + 256 * (data[13] as usize);
    proof {
        lemma_le_value_two(data@.subrange(12, 14));
    }
    14 + length <= n
}

/// The value of two bytes.
proof fn lemma_le_value_two(bytes: Seq<u8>)
    requires
        bytes.len() == 2,
    ensures
        le_value(bytes) == bytes[0] + 256 * bytes[1],
{
    lemma_le_value_byte(bytes.drop_first());
}

} // verus!
