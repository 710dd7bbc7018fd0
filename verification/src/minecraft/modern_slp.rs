//! The modern Server List Ping: a handshake and a status request over TCP,
//! answered by a length-framed packet that carries a JSON status document.
use vstd::prelude::*;
use vstd::string::*;
use crate::minecraft::common::{
    lemma_varint_roundtrip,
    string_views,
    length_prefix_reaches_back, read_string, read_varint, string_at, varint_at, varint_encoding,
    write_string, write_varint, PlayersInfo, ServerInfo, VarIntScan, VersionInfo,
};
use vstd::utf8::*;
use crate::text::{decimal_chars, decimal_repr, hex_chars, hex_repr, push_all, push_str, to_string};

verus! {

/// The most bytes a status packet may announce.
pub const MAX_PACKET_LENGTH: usize = 65535;

/// The status document a server sends, as the JSON fields that the library
/// reads from it.
#[derive(Debug, Clone)]
pub struct StatusResponse {
    pub version: StatusVersion,
    pub players: StatusPlayers,
    pub description: Description,
    pub favicon: Option<String>,
    pub enforces_secure_chat: Option<bool>,
}

#[derive(Debug, Clone)]
pub struct StatusVersion {
    pub name: String,
    pub protocol: i32,
}

#[derive(Debug, Clone)]
pub struct StatusPlayers {
    pub max: i32,
    pub online: i32,
    pub sample: Option<Vec<PlayerSample>>,
}

#[derive(Debug, Clone)]
pub struct PlayerSample {
    pub name: String,
    pub id: String,
}

/// The server's description: a plain string, an object with a text, or an
/// object with a text and further components.
#[derive(Debug, Clone)]
pub enum Description {
    Plain(String),
    Object { text: String },
    Complex { text: String, extra: Vec<TextComponent> },
}

#[derive(Debug, Clone)]
pub struct TextComponent {
    pub text: String,
}

/// The handshake that opens a status exchange: packet id 0, protocol version
/// -1, the server address as a string, the port in big-endian order, and next
/// state 1 (status).
pub open spec fn handshake_bytes(hostname: Seq<char>, port: u16) -> Seq<u8> {
    seq![0u8] + varint_encoding((-1i32) as u32) + varint_encoding(
        (encode_utf8(hostname).len() as i32) as u32,
    ) + encode_utf8(hostname) + seq![(port / 256) as u8, (port % 256) as u8] + varint_encoding(1)
}

/// Builds the handshake packet (before framing).
pub fn build_handshake(hostname: &str, port: u16) -> (res: Vec<u8>)
    ensures
        res@ == handshake_bytes(hostname@, port),
{
    let mut handshake: Vec<u8> = Vec::new();
    handshake.push(0x00);
    let mut v = write_varint(-1);
    handshake.append(&mut v);
    let mut s = write_string(hostname);
    handshake.append(&mut s);
    assert((port >> 8) as u8 == (port / 256) as u8) by (bit_vector);
    assert((port & 0xFF) as u8 == (port % 256) as u8) by (bit_vector);
    handshake.push((port >> 8) as u8);
    handshake.push((port & 0xFF) as u8);
    let mut n = write_varint(1);
    handshake.append(&mut n);
    assert(handshake@ =~= handshake_bytes(hostname@, port));
    handshake
}

/// A packet as it goes on the wire: its length as a VarInt, then its bytes.
pub open spec fn framed(data: Seq<u8>) -> Seq<u8> {
    varint_encoding((data.len() as i32) as u32) + data
}

/// Frames a packet for sending.
pub fn frame_packet(data: &[u8]) -> (res: Vec<u8>)
    ensures
        res@ == framed(data@),
{
    let mut out = write_varint(data.len() as i32);
    let ghost prefix = out@;
    let mut i: usize = 0;
    while i < data.len()
        invariant
            i <= data@.len(),
            out@ == prefix + data@.subrange(0, i as int),
        decreases data@.len() - i,
    {
        out.push(data[i]);
        i += 1;
        assert(out@ =~= prefix + data@.subrange(0, i as int));
    }
    assert(data@.subrange(0, data@.len() as int) =~= data@);
    out
}

/// The status request packet (before framing): packet id 0 and nothing else.
pub fn status_request() -> (res: Vec<u8>)
    ensures
        res@ == seq![0u8],
{
    let mut v: Vec<u8> = Vec::new();
    v.push(0x00);
    v
}

/// The length that the length bytes of an incoming packet announce, or why
/// the packet is refused.
pub open spec fn announced_length(length_bytes: Seq<u8>) -> Result<usize, Seq<char>> {
    match varint_at(length_bytes, 0) {
        VarIntScan::Truncated(_) => Err("VarInt exceeds data length"@),
        VarIntScan::TooBig(_) => Err("VarInt is too big"@),
        VarIntScan::Value(w, _) => {
            let len = (w as i32) as usize;
            if len > MAX_PACKET_LENGTH {
                Err("Packet too large: "@ + decimal_repr(len as nat))
            } else {
                Ok(len)
            }
        },
    }
}

/// Decodes the length of an incoming packet from the (at most five) length
/// bytes read off the stream; a negative length reads as a huge one.
pub fn packet_length(length_bytes: &[u8]) -> (res: Result<usize, String>)
    ensures
        match announced_length(length_bytes@) {
            Ok(len) => res == Ok::<usize, String>(len),
            Err(msg) => res matches Err(e) && e@ == msg,
        },
{
    let mut offset: usize = 0;
    let length = read_varint(length_bytes, &mut offset)? as usize;
    if length > MAX_PACKET_LENGTH {
        let mut msg: Vec<char> = Vec::new();
        push_str(&mut msg, "Packet too large: ");
        let digits = decimal_chars(length as u64);
        push_all(&mut msg, digits.as_slice());
        return Err(to_string(msg.as_slice()));
    }
    Ok(length)
}

/// What a status packet holds: the JSON text, or why it cannot be read.
pub open spec fn status_json(packet: Seq<u8>) -> Result<Seq<char>, Seq<char>> {
    if packet[0] != 0 {
        Err("Unexpected packet ID: 0x"@ + hex_repr(packet[0] as nat, 2))
    } else {
        match string_at(packet, 1) {
            Ok((json, _)) => Ok(json),
            Err((msg, _)) => Err(msg),
        }
    }
}

/// Takes the JSON text out of a status response packet (packet id 0, then a
/// length-prefixed string). The packet must not be empty, and a string
/// length must not reach back before the packet's start: the protocol code
/// indexes the first byte and slices the string without checking either.
pub fn parse_status_packet(packet: &[u8]) -> (res: Result<String, String>)
    requires
        packet@.len() > 0,
        packet[0] == 0 ==> !length_prefix_reaches_back(packet@, 1),
    ensures
        match status_json(packet@) {
            Ok(json) => res matches Ok(s) && s@ == json,
            Err(msg) => res matches Err(e) && e@ == msg,
        },
{
    let packet_id = packet[0];
    if packet_id != 0x00 {
        let mut msg: Vec<char> = Vec::new();
        push_str(&mut msg, "Unexpected packet ID: 0x");
        let digits = hex_chars(packet_id as u64, 2);
        push_all(&mut msg, digits.as_slice());
        return Err(to_string(msg.as_slice()));
    }
    let mut offset: usize = 1;
    read_string(packet, &mut offset)
}

/// The description as one string: the text, followed by the texts of the
/// further components for a complex description.
pub open spec fn description_text(d: Description) -> Seq<char> {
    match d {
        Description::Plain(s) => s@,
        Description::Object { text } => text@,
        Description::Complex { text, extra } => text@ + concat_texts(extra@),
    }
}

pub open spec fn concat_texts(parts: Seq<TextComponent>) -> Seq<char>
    decreases parts.len(),
{
    if parts.len() == 0 {
        Seq::empty()
    } else {
        concat_texts(parts.drop_last()) + parts.last().text@
    }
}

fn flatten_description(d: Description) -> (res: String)
    ensures
        res@ == description_text(d),
{
    match d {
        Description::Plain(s) => s,
        Description::Object { text } => text,
        Description::Complex { text, extra } => {
            let mut result = text;
            let mut i: usize = 0;
            while i < extra.len()
                invariant
                    i <= extra@.len(),
                    result@ == text@ + concat_texts(extra@.subrange(0, i as int)),
                decreases extra@.len() - i,
            {
                result.append(extra[i].text.as_str());
                proof {
                    let p = extra@.subrange(0, i + 1);
                    assert(p.drop_last() =~= extra@.subrange(0, i as int));
                }
                i += 1;
            }
            assert(extra@.subrange(0, extra@.len() as int) =~= extra@);
            result
        },
    }
}

/// The names of the sampled players.
pub open spec fn sample_names(sample: Seq<PlayerSample>) -> Seq<Seq<char>> {
    sample.map_values(|p: PlayerSample| p.name@)
}

fn player_names(sample: &Vec<PlayerSample>) -> (res: Vec<String>)
    ensures
        res@.map_values(|s: String| s@) == sample_names(sample@),
{
    let mut names: Vec<String> = Vec::new();
    let mut i: usize = 0;
    while i < sample.len()
        invariant
            i <= sample@.len(),
            string_views(names@) == sample_names(sample@.subrange(0, i as int)),
        decreases sample@.len() - i,
    {
        let name = sample[i].name.clone();
        assert(name@ == sample@[i as int].name@);
        let ghost before = names@;
        names.push(name);
        assert(names@ == before.push(name));
        assert(string_views(names@) =~= string_views(before).push(name@));
        assert(sample@.subrange(0, i + 1) =~= sample@.subrange(0, i as int).push(sample@[i as int]));
        i += 1;
        assert(string_views(names@) =~= sample_names(sample@.subrange(0, i as int)));
    }
    assert(sample@.subrange(0, sample@.len() as int) =~= sample@);
    names
}

/// What a successful modern ping reports, given the status document, the
/// address that was pinged and the measured latency.
pub open spec fn modern_server_info_holds(
    info: ServerInfo,
    status: StatusResponse,
    host: Seq<char>,
    port: u16,
    latency_ms: u64,
) -> bool {
    &&& info.online
    &&& info.host@ == host
    &&& info.port == port
    &&& info.resolved_from@ == "direct"@
    &&& info.version matches Some(v) && v.name@ == status.version.name@ && v.protocol
        == status.version.protocol
    &&& info.players matches Some(p) && p.online == status.players.online && p.max
        == status.players.max && match status.players.sample {
        None => p.sample is None,
        Some(sample) => p.sample matches Some(names) && string_views(names@)
            == sample_names(sample@),
    }
    &&& info.description matches Some(d) && d@ == description_text(status.description)
    &&& info.favicon == status.favicon
    &&& info.latency_ms == Some(latency_ms)
    &&& !info.query_enabled
    &&& info.protocol_used@ == "modern_slp"@
}

/// A modern ping reports the whole player sample of the status document:
/// as many names as the sample has entries, the i-th name being the i-th
/// entry's name.
pub proof fn lemma_report_keeps_every_sampled_player(
    info: ServerInfo,
    status: StatusResponse,
    host: Seq<char>,
    port: u16,
    latency_ms: u64,
    sample: Vec<PlayerSample>,
)
    requires
        modern_server_info_holds(info, status, host, port, latency_ms),
        status.players.sample == Some(sample),
    ensures
        info.players matches Some(p) && p.sample matches Some(names) && names@.len() == sample@.len()
            && forall|i: int| 0 <= i < sample@.len() ==> #[trigger] names@[i]@ == sample@[i].name@,
{
    let p = info.players.unwrap();
    let names = p.sample.unwrap();
    assert(string_views(names@).len() == names@.len());
    assert forall|i: int| 0 <= i < sample@.len() implies #[trigger] names@[i]@ == sample@[i].name@ by {
        assert(string_views(names@)[i] == names@[i]@);
        assert(sample_names(sample@)[i] == sample@[i].name@);
    }
}

/// Turns a server's status document into the report of a modern ping.
pub fn status_to_server_info(status: StatusResponse, host: &str, port: u16, latency_ms: u64) -> (info:
    ServerInfo)
    ensures
        modern_server_info_holds(info, status, host@, port, latency_ms),
{
    let player_names = match &status.players.sample {
        Some(sample) => Some(player_names(sample)),
        None => None,
    };
    let description = flatten_description(status.description);
    ServerInfo {
        online: true,
        host: host.to_owned(),
        port,
        resolved_from: String::from_str("direct"),
        version: Some(VersionInfo { name: status.version.name, protocol: status.version.protocol }),
        players: Some(
            PlayersInfo {
                online: status.players.online,
                max: status.players.max,
                sample: player_names,
            },
        ),
        description: Some(description),
        favicon: status.favicon,
        latency_ms: Some(latency_ms),
        query_enabled: false,
        protocol_used: String::from_str("modern_slp"),
    }
}

/// A frame that `frame_packet` writes reads back as the packet's length and,
/// right after the length, the packet (for packets of at most
/// `MAX_PACKET_LENGTH` bytes, which the reader accepts).
pub proof fn lemma_frame_roundtrip(data: Seq<u8>)
    requires
        data.len() <= MAX_PACKET_LENGTH,
    ensures
        ({
            let prefix = varint_encoding((data.len() as i32) as u32);
            &&& announced_length(framed(data)) == Ok::<usize, Seq<char>>(data.len() as usize)
            &&& framed(data).subrange(prefix.len() as int, framed(data).len() as int) == data
        }),
{
    let v = data.len() as i32;
    let prefix = varint_encoding(v as u32);
    let f = framed(data);
    assert(f.subrange(0, prefix.len() as int) =~= prefix);
    lemma_varint_roundtrip(v, f, 0);
    assert(f.subrange(prefix.len() as int, f.len() as int) =~= data);
}

} // verus!
