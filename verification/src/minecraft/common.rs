use vstd::prelude::*;
use vstd::utf8::*;
use vstd::string::*;
use crate::sys::string_from_utf8;

verus! {

/// The port a Minecraft server listens on unless told otherwise.
pub const DEFAULT_PORT: u16 = 25565;

/// How long a connection, a status read or a query may take.
pub const TIMEOUT_MS: u64 = 5000;

/// What a ping found out about a server.
#[derive(Debug, Clone)]
pub struct ServerInfo {
    pub online: bool,
    pub host: String,
    pub port: u16,
    pub resolved_from: String,
    pub version: Option<VersionInfo>,
    pub players: Option<PlayersInfo>,
    pub description: Option<String>,
    pub favicon: Option<String>,
    pub latency_ms: Option<u64>,
    pub query_enabled: bool,
    pub protocol_used: String,
}

#[derive(Debug, Clone)]
pub struct VersionInfo {
    pub name: String,
    pub protocol: i32,
}

#[derive(Debug, Clone)]
pub struct PlayersInfo {
    pub online: i32,
    pub max: i32,
    pub sample: Option<Vec<String>>,
}

/// What a `ServerInfo` says, as plain values.
pub struct ServerReport {
    pub online: bool,
    pub host: Seq<char>,
    pub port: u16,
    pub resolved_from: Seq<char>,
    pub version: Option<(Seq<char>, i32)>,
    pub players: Option<(i32, i32, Option<Seq<Seq<char>>>)>,
    pub description: Option<Seq<char>>,
    pub favicon: Option<Seq<char>>,
    pub latency_ms: Option<u64>,
    pub query_enabled: bool,
    pub protocol_used: Seq<char>,
}

pub open spec fn opt_text(s: Option<String>) -> Option<Seq<char>> {
    match s {
        Some(t) => Some(t@),
        None => None,
    }
}

impl View for ServerInfo {
    type V = ServerReport;

    open spec fn view(&self) -> ServerReport {
        ServerReport {
            online: self.online,
            host: self.host@,
            port: self.port,
            resolved_from: self.resolved_from@,
            version: match self.version {
                Some(v) => Some((v.name@, v.protocol)),
                None => None,
            },
            players: match self.players {
                Some(p) => Some(
                    (
                        p.online,
                        p.max,
                        match p.sample {
                            Some(names) => Some(string_views(names@)),
                            None => None,
                        },
                    ),
                ),
                None => None,
            },
            description: opt_text(self.description),
            favicon: opt_text(self.favicon),
            latency_ms: self.latency_ms,
            query_enabled: self.query_enabled,
            protocol_used: self.protocol_used@,
        }
    }
}

fn copy_opt_string(s: &Option<String>) -> (r: Option<String>)
    ensures
        opt_text(r) == opt_text(*s),
{
    match s {
        Some(t) => Some(t.clone()),
        None => None,
    }
}

/// A copy of a list of strings.
pub fn copy_strings(v: &Vec<String>) -> (r: Vec<String>)
    ensures
        string_views(r@) == string_views(v@),
{
    let mut out: Vec<String> = Vec::new();
    let mut i: usize = 0;
    while i < v.len()
        invariant
            i <= v@.len(),
            string_views(out@) == string_views(v@.subrange(0, i as int)),
        decreases v@.len() - i,
    {
        let t = v[i].clone();
        let ghost before = out@;
        out.push(t);
        assert(string_views(out@) =~= string_views(before).push(t@));
        assert(v@.subrange(0, i + 1) =~= v@.subrange(0, i as int).push(v@[i as int]));
        i += 1;
        assert(string_views(out@) =~= string_views(v@.subrange(0, i as int)));
    }
    assert(v@.subrange(0, v@.len() as int) =~= v@);
    out
}

impl ServerInfo {
    /// A copy of the report.
    pub fn duplicate(&self) -> (r: ServerInfo)
        ensures
            r@ == self@,
    {
        ServerInfo {
            online: self.online,
            host: self.host.clone(),
            port: self.port,
            resolved_from: self.resolved_from.clone(),
            version: match &self.version {
                Some(v) => Some(VersionInfo { name: v.name.clone(), protocol: v.protocol }),
                None => None,
            },
            players: match &self.players {
                Some(p) => Some(
                    PlayersInfo {
                        online: p.online,
                        max: p.max,
                        sample: match &p.sample {
                            Some(names) => Some(copy_strings(names)),
                            None => None,
                        },
                    },
                ),
                None => None,
            },
            description: copy_opt_string(&self.description),
            favicon: copy_opt_string(&self.favicon),
            latency_ms: self.latency_ms,
            query_enabled: self.query_enabled,
            protocol_used: self.protocol_used.clone(),
        }
    }
}

/// The texts of a list of strings.
pub open spec fn string_views(v: Seq<String>) -> Seq<Seq<char>> {
    v.map_values(|s: String| s@)
}

/// What the Query protocol's full stat reports.
#[derive(Debug, Clone)]
pub struct QueryInfo {
    pub motd: String,
    pub game_type: String,
    pub map: String,
    pub players: Vec<String>,
    pub version: String,
    pub plugins: Option<String>,
}

/// The bytes of the protocol's VarInt encoding of `v` (taken as an unsigned
/// 32-bit pattern): seven bits per byte, least significant group first, the
/// high bit set on every byte but the last.
pub open spec fn varint_encoding(v: u32) -> Seq<u8>
    decreases v,
{
    if v < 128 {
        seq![v as u8]
    } else {
        seq![(v % 128 + 128) as u8] + varint_encoding(v / 128)
    }
}

/// The weight of the `k`-th seven-bit group of a VarInt (`128` to the `k`).
pub open spec fn group_weight(k: nat) -> int {
    if k == 0 {
        1
    } else if k == 1 {
        128
    } else if k == 2 {
        16384
    } else if k == 3 {
        2097152
    } else {
        268435456
    }
}

/// Outcome of reading a VarInt: the 32-bit pattern and the offset just past
/// it, or the reason for failing and the offset at which reading stopped.
pub enum VarIntScan {
    Value(u32, int),
    Truncated(int),
    TooBig(int),
}

/// Reading a VarInt from `data` at `pos`, with `k` groups already read into
/// `acc`: groups beyond the 32 bits are dropped, and a fifth byte with its
/// continuation bit set makes the VarInt too big.
pub open spec fn varint_scan(data: Seq<u8>, pos: int, k: nat, acc: u32) -> VarIntScan
    decreases 5 - k,
{
    if k >= 5 {
        VarIntScan::TooBig(pos)
    } else if pos < 0 || pos >= data.len() {
        VarIntScan::Truncated(pos)
    } else {
        let b = data[pos];
        let next = ((acc + (b % 128) * group_weight(k)) % 0x1_0000_0000) as u32;
        if b < 128 {
            VarIntScan::Value(next, pos + 1)
        } else if k == 4 {
            VarIntScan::TooBig(pos + 1)
        } else {
            varint_scan(data, pos + 1, k + 1, next)
        }
    }
}

/// A VarInt that was read ends within the data, at least one byte after it began.
pub proof fn lemma_varint_scan_end(data: Seq<u8>, pos: int, k: nat, acc: u32)
    ensures
        varint_scan(data, pos, k, acc) matches VarIntScan::Value(_, end) ==> pos < end <= data.len(),
    decreases 5 - k,
{
    if k < 5 && 0 <= pos < data.len() && data[pos] >= 128 && k != 4 {
        lemma_varint_scan_end(data, pos + 1, k + 1, ((acc + (data[pos] % 128) * group_weight(k)) % 0x1_0000_0000) as u32);
    }
}

/// Reading a VarInt from the start of position `pos`.
pub open spec fn varint_at(data: Seq<u8>, pos: int) -> VarIntScan {
    varint_scan(data, pos, 0, 0)
}

/// Encodes `value` as a VarInt; a negative value is encoded through its
/// two's-complement bit pattern and so takes five bytes.
pub fn write_varint(value: i32) -> (bytes: Vec<u8>)
    ensures
        bytes@ == varint_encoding(value as u32),
{
    let mut bytes: Vec<u8> = Vec::new();
    let mut val: u32 = value as u32;
    loop
        invariant_except_break
            bytes@ + varint_encoding(val) == varint_encoding(value as u32),
        ensures
            bytes@ == varint_encoding(value as u32),
        decreases val,
    {
        assert((val & !0x7Fu32) == 0 <==> val < 128) by (bit_vector);
        if (val & !0x7F) == 0 {
            proof {
                assert(val as u8 == val);
                assert(seq![val as u8] =~= varint_encoding(val));
            }
            bytes.push(val as u8);
            assert(bytes@ =~= varint_encoding(value as u32));
            break;
        }
        assert((val & 0x7F | 0x80) == val % 128 + 128) by (bit_vector);
        assert(val >> 7 == val / 128) by (bit_vector);
        let ghost before = bytes@;
        let ghost prev = val;
        bytes.push((val & 0x7F | 0x80) as u8);
        val = val >> 7;
        assert(bytes@ + varint_encoding(val) =~= before + varint_encoding(prev));
    }
    bytes
}

/// Merging the `k`-th group of a VarInt with the groups read so far, as the
/// bit operations of the reader do it, adds it at its weight modulo 2^32.
proof fn lemma_merge_group(acc: u32, b: u8, k: nat)
    requires
        k <= 4,
        acc < group_weight(k),
    ensures
        acc | (((b & 0x7F) as u32) << ((7 * k) as u32)) == ((acc + (b % 128) * group_weight(k))
            % 0x1_0000_0000) as u32,
{
    if k == 0 {
        assert(acc < 1 ==> acc | (((b & 0x7F) as u32) << 0u32) == ((acc + (b % 128) * 1) % 0x1_0000_0000) as u32) by (bit_vector);
    } else if k == 1 {
        assert(acc < 128 ==> acc | (((b & 0x7F) as u32) << 7u32) == ((acc + (b % 128) * 128) % 0x1_0000_0000) as u32) by (bit_vector);
    } else if k == 2 {
        assert(acc < 16384 ==> acc | (((b & 0x7F) as u32) << 14u32) == ((acc + (b % 128) * 16384) % 0x1_0000_0000) as u32) by (bit_vector);
    } else if k == 3 {
        assert(acc < 2097152 ==> acc | (((b & 0x7F) as u32) << 21u32) == ((acc + (b % 128) * 2097152) % 0x1_0000_0000) as u32) by (bit_vector);
    } else {
        assert(acc < 268435456 ==> acc | (((b & 0x7F) as u32) << 28u32) == ((acc + (b % 128) * 268435456) % 0x1_0000_0000) as u32) by (bit_vector);
    }
}

/// Below the fifth group, adding a group keeps the value below the weight of
/// the next group, with no wrap-around.
proof fn lemma_group_bound(acc: u32, b: u8, k: nat)
    requires
        k <= 3,
        acc < group_weight(k),
    ensures
        acc + (b % 128) * group_weight(k) < group_weight((k + 1) as nat),
        (acc + (b % 128) * group_weight(k)) % 0x1_0000_0000 == acc + (b % 128) * group_weight(k),
{
    let x = b % 128;
    assert(x < 128);
    if k == 0 {
        assert(x * group_weight(k) == x);
    } else if k == 1 {
        assert(x * group_weight(k) == x * 128);
    } else if k == 2 {
        assert(x * group_weight(k) == x * 16384);
    } else {
        assert(x * group_weight(k) == x * 2097152);
    }
}

/// The most bytes a VarInt takes.
pub const MAX_VARINT_BYTES: usize = 5;

/// Whether a VarInt goes on after this byte (its high bit is set).
pub fn varint_continues(byte: u8) -> (r: bool)
    ensures
        r == (byte >= 128),
{
    assert((byte & 0x80) != 0 <==> byte >= 128) by (bit_vector);
    (byte & 0x80) != 0
}

/// Reads a VarInt from `data` at `*offset` and moves `*offset` past the bytes
/// it read, also when it fails: past the end of the data ("VarInt exceeds data
/// length") or past a fifth byte that still has its continuation bit ("VarInt
/// is too big").
pub fn read_varint(data: &[u8], offset: &mut usize) -> (res: Result<i32, String>)
    ensures
        match varint_at(data@, *old(offset) as int) {
            VarIntScan::Value(v, end) => res == Ok::<i32, String>(v as i32) && *final(offset) == end,
            VarIntScan::Truncated(end) => res matches Err(e) && e@ == "VarInt exceeds data length"@
                && *final(offset) == end,
            VarIntScan::TooBig(end) => res matches Err(e) && e@ == "VarInt is too big"@
                && *final(offset) == end,
        },
{
    let mut value: u32 = 0;
    let mut position: u32 = 0;
    let ghost mut k: nat = 0;
    loop
        invariant
            k <= 4,
            position == 7 * k,
            value < group_weight(k),
            varint_scan(data@, *offset as int, k, value) == varint_at(data@, *old(offset) as int),
        decreases 4 - k,
    {
        if *offset >= data.len() {
            return Err(String::from_str("VarInt exceeds data length"));
        }
        let byte = data[*offset];
        *offset += 1;
        proof {
            lemma_merge_group(value, byte, k);
        }
        let ghost prev = value;
        value = value | (((byte & 0x7F) as u32) << position);
        assert((byte & 0x80) == 0 <==> byte < 128) by (bit_vector);
        if (byte & 0x80) == 0 {
            return Ok(value as i32);
        }
        position += 7;
        if position >= 32 {
            return Err(String::from_str("VarInt is too big"));
        }
        proof {
            assert(k <= 3);
            lemma_group_bound(prev, byte, k);
            k = k + 1;
        }
    }
}

/// The length of a VarInt grows by one byte for every further seven bits.
proof fn lemma_encoding_len(w: u32)
    ensures
        w < 128 ==> varint_encoding(w).len() == 1,
        128 <= w < 16384 ==> varint_encoding(w).len() == 2,
        16384 <= w < 2097152 ==> varint_encoding(w).len() == 3,
        2097152 <= w < 268435456 ==> varint_encoding(w).len() == 4,
        268435456 <= w ==> varint_encoding(w).len() == 5,
    decreases w,
{
    if w >= 128 {
        lemma_encoding_len(w / 128);
    }
}

/// Reading the encoding of `w` as the groups from the `k`-th on adds `w` at
/// the weight of the `k`-th group.
proof fn lemma_scan_encoding(data: Seq<u8>, pos: int, w: u32, k: nat, acc: u32)
    requires
        k <= 4,
        0 <= pos,
        pos + varint_encoding(w).len() <= data.len(),
        data.subrange(pos, pos + varint_encoding(w).len()) == varint_encoding(w),
        acc < group_weight(k),
        acc + w * group_weight(k) < 0x1_0000_0000,
    ensures
        varint_scan(data, pos, k, acc) == VarIntScan::Value(
            (acc + w * group_weight(k)) as u32,
            pos + varint_encoding(w).len(),
        ),
    decreases w,
{
    let enc = varint_encoding(w);
    assert(data[pos] == enc[0]);
    lemma_encoding_len(w);
    if w < 128 {
        assert(enc[0] == w as u8);
        assert((w as u8) % 128 == w);
        assert((acc + w * group_weight(k)) % 0x1_0000_0000 == acc + w * group_weight(k));
    } else {
        let b = enc[0];
        let q = w / 128;
        let r = w % 128;
        assert(b == (r + 128) as u8);
        assert(b % 128 == r);
        assert(b >= 128);
        let tail = varint_encoding(q);
        assert(enc =~= seq![b] + tail);
        assert(k <= 3) by {
            if k == 4 {
                assert(w * group_weight(k) >= 128 * 268435456) by (nonlinear_arith)
                    requires
                        w >= 128,
                        group_weight(k) == 268435456,
                ;
            }
        }
        let next = acc + r * group_weight(k);
        assert(next < group_weight((k + 1) as nat) && next + q * group_weight((k + 1) as nat) == acc + w
            * group_weight(k)) by {
            assert(w == 128 * q + r);
            assert(r < 128);
            if k == 0 {
                assert(group_weight(k) == 1 && group_weight((k + 1) as nat) == 128);
                assert(next == acc + r);
                assert(q * 128 + r == w);
            } else if k == 1 {
                assert(group_weight(k) == 128 && group_weight((k + 1) as nat) == 16384);
                assert(next == acc + r * 128);
                assert(q * 16384 + r * 128 == w * 128);
            } else if k == 2 {
                assert(group_weight(k) == 16384 && group_weight((k + 1) as nat) == 2097152);
                assert(next == acc + r * 16384);
                assert(q * 2097152 + r * 16384 == w * 16384);
            } else {
                assert(group_weight(k) == 2097152 && group_weight((k + 1) as nat) == 268435456);
                assert(next == acc + r * 2097152);
                assert(q * 268435456 + r * 2097152 == w * 2097152);
            }
        }
        assert(next % 0x1_0000_0000 == next);
        assert(data.subrange(pos + 1, pos + 1 + tail.len()) =~= tail) by {
            assert forall|i: int| 0 <= i < tail.len() implies data.subrange(
                pos + 1,
                pos + 1 + tail.len(),
            )[i] == tail[i] by {
                assert(data.subrange(pos, pos + enc.len())[i + 1] == enc[i + 1]);
            }
        }
        lemma_scan_encoding(data, pos + 1, q, (k + 1) as nat, next as u32);
    }
}

/// Reading back the VarInt that `write_varint` writes for `value`, wherever it
/// stands in the data, gives `value` and ends just past the encoding, which is
/// one to five bytes long.
pub proof fn lemma_varint_roundtrip(value: i32, data: Seq<u8>, pos: int)
    requires
        0 <= pos,
        pos + varint_encoding(value as u32).len() <= data.len(),
        data.subrange(pos, pos + varint_encoding(value as u32).len()) == varint_encoding(
            value as u32,
        ),
    ensures
        1 <= varint_encoding(value as u32).len() <= 5,
        varint_at(data, pos) == VarIntScan::Value(
            value as u32,
            pos + varint_encoding(value as u32).len(),
        ),
        (value as u32) as i32 == value,
{
    lemma_encoding_len(value as u32);
    lemma_scan_encoding(data, pos, value as u32, 0, 0);
    assert((value as u32) as i32 == value) by (bit_vector);
}

/// Encodes a string as the protocol does: its length in UTF-8 bytes as a
/// VarInt (the byte count cast to `i32`, so it wraps for strings over
/// `i32::MAX` bytes), then the bytes.
pub fn write_string(s: &str) -> (res: Vec<u8>)
    ensures
        res@ == string_encoding(s@),
{
    let bytes = s.as_bytes();
    let mut result = write_varint(bytes.len() as i32);
    let ghost prefix = result@;
    let mut i: usize = 0;
    while i < bytes.len()
        invariant
            i <= bytes@.len(),
            result@ == prefix + bytes@.subrange(0, i as int),
        decreases bytes@.len() - i,
    {
        result.push(bytes[i]);
        i += 1;
        assert(result@ =~= prefix + bytes@.subrange(0, i as int));
    }
    assert(bytes@.subrange(0, bytes@.len() as int) =~= bytes@);
    result
}

/// The length prefix of a string at `pos` is a negative number whose size does
/// not exceed the offset just past the prefix: reading such a string slices a
/// reversed range of the data, which panics, so it is ruled out.
pub open spec fn length_prefix_reaches_back(data: Seq<u8>, pos: int) -> bool {
    match varint_at(data, pos) {
        VarIntScan::Value(w, end) => (w as i32) < 0 && end >= -((w as i32) as int),
        _ => false,
    }
}

/// Reading a length-prefixed string at `pos`: the characters and the offset
/// past the string, or the error message and the offset at which reading
/// stopped.
pub open spec fn string_at(data: Seq<u8>, pos: int) -> Result<(Seq<char>, int), (Seq<char>, int)> {
    match varint_at(data, pos) {
        VarIntScan::Truncated(end) => Err(("VarInt exceeds data length"@, end)),
        VarIntScan::TooBig(end) => Err(("VarInt is too big"@, end)),
        VarIntScan::Value(w, end) => {
            let len = (w as i32) as int;
            if len < 0 || end + len > data.len() {
                Err(("String length exceeds data"@, end))
            } else {
                let bytes = data.subrange(end, end + len);
                if valid_utf8(bytes) {
                    Ok((decode_utf8(bytes), end + len))
                } else {
                    Err(("Invalid UTF-8"@, end + len))
                }
            }
        },
    }
}

/// Reads a length-prefixed UTF-8 string at `*offset` and moves `*offset` past
/// what it read.
pub fn read_string(data: &[u8], offset: &mut usize) -> (res: Result<String, String>)
    requires
        !length_prefix_reaches_back(data@, *old(offset) as int),
    ensures
        match string_at(data@, *old(offset) as int) {
            Ok((chars, end)) => res matches Ok(s) && s@ == chars && *final(offset) == end,
            Err((msg, end)) => res matches Err(e) && e@ == msg && *final(offset) == end,
        },
{
    proof {
        lemma_varint_scan_end(data@, *offset as int, 0, 0);
    }
    let length = read_varint(data, offset)?;
    if length < 0 || length as usize > data.len() - *offset {
        return Err(String::from_str("String length exceeds data"));
    }
    let length = length as usize;
    let string_bytes = vstd::slice::slice_subrange(data, *offset, *offset + length);
    *offset += length;
    match string_from_utf8(string_bytes) {
        Some(s) => Ok(s),
        None => Err(String::from_str("Invalid UTF-8")),
    }
}

/// The bytes that `write_string` writes for the characters `s`.
pub open spec fn string_encoding(s: Seq<char>) -> Seq<u8> {
    varint_encoding((encode_utf8(s).len() as i32) as u32) + encode_utf8(s)
}

/// Reading back the string that `write_string` writes, wherever it stands in
/// the data, gives the same characters and ends just past it (for strings of
/// at most `i32::MAX` bytes, whose length the prefix holds).
pub proof fn lemma_string_roundtrip(s: Seq<char>, data: Seq<u8>, pos: int)
    requires
        0 <= pos,
        encode_utf8(s).len() <= i32::MAX,
        pos + string_encoding(s).len() <= data.len(),
        data.subrange(pos, pos + string_encoding(s).len()) == string_encoding(s),
    ensures
        !length_prefix_reaches_back(data, pos),
        string_at(data, pos) == Ok::<(Seq<char>, int), (Seq<char>, int)>(
            (s, pos + string_encoding(s).len()),
        ),
{
    let bytes = encode_utf8(s);
    let n = bytes.len();
    let v = n as i32;
    let prefix = varint_encoding(v as u32);
    assert(string_encoding(s) == prefix + bytes);
    let whole = data.subrange(pos, pos + prefix.len() + n);
    assert(data.subrange(pos, pos + prefix.len()) =~= prefix) by {
        assert forall|i: int| 0 <= i < prefix.len() implies data.subrange(pos, pos + prefix.len())[i]
            == prefix[i] by {
            assert(whole[i] == (prefix + bytes)[i]);
        }
    }
    lemma_varint_roundtrip(v, data, pos);
    assert(v as int == n);
    let end = pos + prefix.len();
    assert(data.subrange(end, end + n) =~= bytes) by {
        assert forall|i: int| 0 <= i < n implies data.subrange(end, end + n)[i] == bytes[i] by {
            assert(whole[prefix.len() + i] == (prefix + bytes)[prefix.len() + i]);
        }
    }
    encode_utf8_valid_utf8(s);
    encode_utf8_decode_utf8(s);
}

} // verus!
