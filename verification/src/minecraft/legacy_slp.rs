//! The legacy Server List Ping (before 1.7): the client sends `FE 01`, the
//! server answers with a kick packet whose UTF-16 text carries the status.
use vstd::prelude::*;
use vstd::string::*;
use crate::minecraft::common::{PlayersInfo, ServerInfo, VersionInfo};
use crate::sys::{char_of_scalar, chars_of};
use crate::text::{
    has_prefix, hex_chars, hex_repr, parse_i32, parsed_i32, push_all, push_str, split_chars,
    split_on, starts_with, to_string,
};

verus! {

/// The most response bytes that are read before the answer is refused.
pub const MAX_LEGACY_RESPONSE: usize = 4096;

/// The legacy ping request: `FE 01`.
pub fn legacy_ping_request() -> (res: Vec<u8>)
    ensures
        res@ == seq![0xFEu8, 0x01u8],
{
    let mut v: Vec<u8> = Vec::new();
    v.push(0xFE);
    v.push(0x01);
    assert(v@ =~= seq![0xFEu8, 0x01u8]);
    v
}

/// Adds a chunk read from the server to the response and refuses the answer
/// once it has grown beyond `MAX_LEGACY_RESPONSE` bytes.
pub fn accept_chunk(response: &mut Vec<u8>, chunk: &[u8]) -> (res: Result<(), String>)
    ensures
        final(response)@ == old(response)@ + chunk@,
        res is Ok <==> final(response)@.len() <= MAX_LEGACY_RESPONSE,
        res matches Err(e) ==> e@ == "Response too large"@,
{
    let mut i: usize = 0;
    while i < chunk.len()
        invariant
            i <= chunk@.len(),
            response@ == old(response)@ + chunk@.subrange(0, i as int),
        decreases chunk@.len() - i,
    {
        response.push(chunk[i]);
        i += 1;
        assert(response@ =~= old(response)@ + chunk@.subrange(0, i as int));
    }
    assert(chunk@.subrange(0, chunk@.len() as int) =~= chunk@);
    if response.len() > MAX_LEGACY_RESPONSE {
        return Err(String::from_str("Response too large"));
    }
    Ok(())
}

/// The big-endian 16-bit units of `b`; a trailing odd byte is dropped.
pub open spec fn be_units(b: Seq<u8>) -> Seq<u16> {
    Seq::new((b.len() / 2) as nat, |j: int| (b[2 * j] * 256 + b[2 * j + 1]) as u16)
}

/// UTF-16 decoding as `String::from_utf16` does it: a unit outside the
/// surrogate range is a character by itself, a high surrogate followed by a
/// low one makes one character, and any other surrogate makes the text
/// invalid.
pub open spec fn utf16_decode(u: Seq<u16>) -> Option<Seq<char>>
    decreases u.len(),
{
    if u.len() == 0 {
        Some(Seq::empty())
    } else if u[0] < 0xD800 || u[0] > 0xDFFF {
        match utf16_decode(u.drop_first()) {
            Some(r) => Some(seq![(u[0] as u32) as char] + r),
            None => None,
        }
    } else if u[0] <= 0xDBFF && u.len() >= 2 && 0xDC00 <= u[1] && u[1] <= 0xDFFF {
        let c = 0x10000 + (u[0] - 0xD800) * 0x400 + (u[1] - 0xDC00);
        match utf16_decode(u.subrange(2, u.len() as int)) {
            Some(r) => Some(seq![(c as u32) as char] + r),
            None => None,
        }
    } else {
        None
    }
}

spec fn prefixed(out: Seq<char>, r: Option<Seq<char>>) -> Option<Seq<char>> {
    match r {
        Some(t) => Some(out + t),
        None => None,
    }
}

/// Decodes UTF-16 units.
pub fn decode_utf16(u: &[u16]) -> (res: Option<Vec<char>>)
    ensures
        match utf16_decode(u@) {
            Some(t) => res matches Some(v) && v@ == t,
            None => res is None,
        },
{
    let mut out: Vec<char> = Vec::new();
    let mut i: usize = 0;
    assert(u@.subrange(0, u@.len() as int) =~= u@);
    while i < u.len()
        invariant
            i <= u@.len(),
            utf16_decode(u@) == prefixed(out@, utf16_decode(u@.subrange(i as int, u@.len() as int))),
        decreases u@.len() - i,
    {
        let ghost rest = u@.subrange(i as int, u@.len() as int);
        let a = u[i];
        if a < 0xD800 || a > 0xDFFF {
            let c = char_of_scalar(a as u32);
            assert(rest.drop_first() =~= u@.subrange(i + 1, u@.len() as int));
            let ghost before = out@;
            out.push(c);
            proof {
                match utf16_decode(rest.drop_first()) {
                    Some(t) => {
                        assert(before + (seq![c] + t) =~= out@ + t);
                    },
                    None => {},
                }
            }
            i += 1;
        } else if a <= 0xDBFF && i + 1 < u.len() && 0xDC00 <= u[i + 1] && u[i + 1] <= 0xDFFF {
            let b = u[i + 1];
            let x: u32 = 0x10000 + (a as u32 - 0xD800) * 0x400 + (b as u32 - 0xDC00);
            let c = char_of_scalar(x);
            assert(rest.subrange(2, rest.len() as int) =~= u@.subrange(i + 2, u@.len() as int));
            let ghost before = out@;
            out.push(c);
            proof {
                match utf16_decode(rest.subrange(2, rest.len() as int)) {
                    Some(t) => {
                        assert(before + (seq![c] + t) =~= out@ + t);
                    },
                    None => {},
                }
            }
            i += 2;
        } else {
            return None;
        }
    }
    assert(u@.subrange(i as int, u@.len() as int) =~= Seq::<u16>::empty());
    assert(out@ + Seq::<char>::empty() =~= out@);
    Some(out)
}

/// The text of a legacy response, or why it cannot be read: the packet id
/// must be `FF`, two length bytes follow, then the UTF-16 text.
pub open spec fn legacy_text(response: Seq<u8>) -> Result<Seq<char>, Seq<char>> {
    if response.len() == 0 {
        Err("No response received"@)
    } else if response[0] != 0xFF {
        Err("Invalid response packet ID: 0x"@ + hex_repr(response[0] as nat, 2))
    } else if response.len() < 3 {
        Err("Response too short"@)
    } else {
        match utf16_decode(be_units(response.subrange(3, response.len() as int))) {
            Some(t) => Ok(t),
            None => Err("Invalid UTF-16"@),
        }
    }
}

/// The marker that opens a 1.4+ legacy response: `§1` and a NUL.
pub open spec fn v14_marker() -> Seq<char> {
    seq!['\u{a7}', '1', '\0']
}

/// The fields a legacy response yields.
pub struct LegacyReport {
    pub version: Option<(Seq<char>, i32)>,
    pub online: i32,
    pub max: i32,
    pub description: Seq<char>,
    pub protocol_used: Seq<char>,
}

pub open spec fn int_or_zero(s: Seq<char>) -> i32 {
    match parsed_i32(s) {
        Some(v) => v,
        None => 0,
    }
}

/// What a legacy response reports. A 1.4+ response is split at NULs after
/// its third byte in UTF-8, which is the marker's NUL, so the first piece is
/// empty and the fields are read one place off: the protocol from that empty
/// piece, the version name from the protocol, the description from the
/// version name, the online count from the description and the maximum from
/// the online count.
pub open spec fn legacy_report(text: Seq<char>) -> Result<LegacyReport, Seq<char>> {
    if has_prefix(text, v14_marker()) {
        let parts = split_on(text.subrange(2, text.len() as int), '\0');
        if parts.len() >= 5 {
            Ok(
                LegacyReport {
                    version: Some((parts[1], int_or_zero(parts[0]))),
                    online: int_or_zero(parts[3]),
                    max: int_or_zero(parts[4]),
                    description: parts[2],
                    protocol_used: "legacy_slp"@,
                },
            )
        } else {
            Err("Invalid legacy response format"@)
        }
    } else {
        let parts = split_on(text, '\u{a7}');
        if parts.len() >= 3 {
            Ok(
                LegacyReport {
                    version: None,
                    online: int_or_zero(parts[1]),
                    max: int_or_zero(parts[2]),
                    description: parts[0],
                    protocol_used: "legacy_slp_beta"@,
                },
            )
        } else {
            Err("Invalid legacy beta response format"@)
        }
    }
}

/// The whole legacy answer: the text, then the report read from it.
pub open spec fn legacy_outcome(response: Seq<u8>) -> Result<LegacyReport, Seq<char>> {
    match legacy_text(response) {
        Ok(text) => legacy_report(text),
        Err(e) => Err(e),
    }
}

/// `info` is what a legacy ping of `host:port` reports for `r`.
pub open spec fn legacy_info_holds(info: ServerInfo, r: LegacyReport, host: Seq<char>, port: u16) -> bool {
    &&& info.online
    &&& info.host@ == host
    &&& info.port == port
    &&& info.resolved_from@ == "direct"@
    &&& match r.version {
        Some((name, protocol)) => info.version matches Some(v) && v.name@ == name && v.protocol
            == protocol,
        None => info.version is None,
    }
    &&& info.players matches Some(p) && p.online == r.online && p.max == r.max && p.sample is None
    &&& info.description matches Some(d) && d@ == r.description
    &&& info.favicon is None
    &&& info.latency_ms is None
    &&& !info.query_enabled
    &&& info.protocol_used@ == r.protocol_used
}

fn int_or_zero_of(s: &[char]) -> (v: i32)
    ensures
        v == int_or_zero(s@),
{
    match parse_i32(s) {
        Some(v) => v,
        None => 0,
    }
}

fn message(text: &str) -> (res: Result<ServerInfo, String>)
    ensures
        res matches Err(e) && e@ == text@,
{
    Err(text.to_owned())
}

/// Reads the status out of a legacy response from `host:port`.
pub fn parse_legacy_response(response: &[u8], host: &str, port: u16) -> (res: Result<
    ServerInfo,
    String,
>)
    ensures
        match legacy_outcome(response@) {
            Ok(r) => res matches Ok(info) && legacy_info_holds(info, r, host@, port),
            Err(msg) => res matches Err(e) && e@ == msg,
        },
{
    if response.len() == 0 {
        return message("No response received");
    }
    if response[0] != 0xFF {
        let mut msg: Vec<char> = Vec::new();
        push_str(&mut msg, "Invalid response packet ID: 0x");
        let digits = hex_chars(response[0] as u64, 2);
        push_all(&mut msg, digits.as_slice());
        return Err(to_string(msg.as_slice()));
    }
    if response.len() < 3 {
        return message("Response too short");
    }
    let ghost bytes = response@.subrange(3, response@.len() as int);
    let mut units: Vec<u16> = Vec::new();
    let mut i: usize = 3;
    while i < response.len() - 1
        invariant
            3 <= i <= response@.len(),
            (i - 3) % 2 == 0,
            bytes == response@.subrange(3, response@.len() as int),
            units@ == be_units(bytes).subrange(0, (i - 3) / 2),
        decreases response@.len() - i,
    {
        let high = response[i] as u16;
        let low = response[i + 1] as u16;
        assert((high << 8) | low == high * 256 + low) by (bit_vector)
            requires
                high < 256,
                low < 256,
        ;
        let ch = (high << 8) | low;
        units.push(ch);
        i += 2;
        assert(units@ =~= be_units(bytes).subrange(0, (i - 3) / 2));
    }
    assert(units@ =~= be_units(bytes));
    let text = match decode_utf16(units.as_slice()) {
        Some(t) => t,
        None => {
            return message("Invalid UTF-16");
        },
    };
    let marker = chars_of("\u{a7}1\0");
    proof {
        reveal_strlit("\u{a7}1\0");
        assert(marker@ =~= v14_marker());
    }
    if starts_with(text.as_slice(), marker.as_slice()) {
        let mut rest: Vec<char> = Vec::new();
        let mut j: usize = 2;
        while j < text.len()
            invariant
                2 <= j <= text@.len(),
                rest@ == text@.subrange(2, j as int),
            decreases text@.len() - j,
        {
            rest.push(text[j]);
            j += 1;
            assert(rest@ =~= text@.subrange(2, j as int));
        }
        let parts = split_chars(rest.as_slice(), '\0');
        proof {
            assert(parts@.len() == parts@.map_values(|p: Vec<char>| p@).len());
        }
        if parts.len() >= 5 {
            proof {
                assert(parts@[0]@ == parts@.map_values(|p: Vec<char>| p@)[0]);
                assert(parts@[1]@ == parts@.map_values(|p: Vec<char>| p@)[1]);
                assert(parts@[2]@ == parts@.map_values(|p: Vec<char>| p@)[2]);
                assert(parts@[3]@ == parts@.map_values(|p: Vec<char>| p@)[3]);
                assert(parts@[4]@ == parts@.map_values(|p: Vec<char>| p@)[4]);
            }
            Ok(
                ServerInfo {
                    online: true,
                    host: host.to_owned(),
                    port,
                    resolved_from: String::from_str("direct"),
                    version: Some(
                        VersionInfo {
                            name: to_string(parts[1].as_slice()),
                            protocol: int_or_zero_of(parts[0].as_slice()),
                        },
                    ),
                    players: Some(
                        PlayersInfo {
                            online: int_or_zero_of(parts[3].as_slice()),
                            max: int_or_zero_of(parts[4].as_slice()),
                            sample: None,
                        },
                    ),
                    description: Some(to_string(parts[2].as_slice())),
                    favicon: None,
                    latency_ms: None,
                    query_enabled: false,
                    protocol_used: String::from_str("legacy_slp"),
                },
            )
        } else {
            message("Invalid legacy response format")
        }
    } else {
        let parts = split_chars(text.as_slice(), '\u{a7}');
        proof {
            assert(parts@.len() == parts@.map_values(|p: Vec<char>| p@).len());
        }
        if parts.len() >= 3 {
            proof {
                assert(parts@[0]@ == parts@.map_values(|p: Vec<char>| p@)[0]);
                assert(parts@[1]@ == parts@.map_values(|p: Vec<char>| p@)[1]);
                assert(parts@[2]@ == parts@.map_values(|p: Vec<char>| p@)[2]);
            }
            Ok(
                ServerInfo {
                    online: true,
                    host: host.to_owned(),
                    port,
                    resolved_from: String::from_str("direct"),
                    version: None,
                    players: Some(
                        PlayersInfo {
                            online: int_or_zero_of(parts[1].as_slice()),
                            max: int_or_zero_of(parts[2].as_slice()),
                            sample: None,
                        },
                    ),
                    description: Some(to_string(parts[0].as_slice())),
                    favicon: None,
                    latency_ms: None,
                    query_enabled: false,
                    protocol_used: String::from_str("legacy_slp_beta"),
                },
            )
        } else {
            message("Invalid legacy beta response format")
        }
    }
}

} // verus!
