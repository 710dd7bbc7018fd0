//! The Query protocol over UDP: a handshake that yields a challenge token,
//! then a full stat request whose answer lists key/value pairs and players.
use vstd::prelude::*;
use vstd::string::*;
use vstd::utf8::*;
use crate::minecraft::common::{string_views, QueryInfo};
use crate::sys::{chars_of, string_from_utf8, time_since_epoch, whole_seconds};
use crate::text::{parse_i32, parsed_i32};

verus! {

/// The two bytes that open every query packet.
pub open spec fn query_magic() -> Seq<u8> {
    seq![0xFEu8, 0xFDu8]
}

pub const HANDSHAKE_TYPE: u8 = 0x09;

pub const STAT_TYPE: u8 = 0x00;

/// The big-endian bytes of `x`.
pub open spec fn be_bytes(x: i32) -> Seq<u8> {
    let u = x as u32;
    seq![(u / 0x1000000) as u8, ((u / 0x10000) % 256) as u8, ((u / 0x100) % 256) as u8, (u % 256) as u8]
}

fn push_be(v: &mut Vec<u8>, x: i32)
    ensures
        final(v)@ == old(v)@ + be_bytes(x),
{
    let u = x as u32;
    assert((u >> 24) as u8 == (u / 0x1000000) as u8) by (bit_vector);
    assert((u >> 16) as u8 == ((u / 0x10000) % 256) as u8) by (bit_vector);
    assert((u >> 8) as u8 == ((u / 0x100) % 256) as u8) by (bit_vector);
    assert(u as u8 == (u % 256) as u8) by (bit_vector);
    v.push((u >> 24) as u8);
    v.push((u >> 16) as u8);
    v.push((u >> 8) as u8);
    v.push(u as u8);
    assert(v@ =~= old(v)@ + be_bytes(x));
}

/// The handshake packet: magic, type 9, session id.
pub fn handshake_request(session_id: i32) -> (res: Vec<u8>)
    ensures
        res@ == query_magic() + seq![HANDSHAKE_TYPE] + be_bytes(session_id),
{
    let mut packet: Vec<u8> = Vec::new();
    packet.push(0xFE);
    packet.push(0xFD);
    packet.push(HANDSHAKE_TYPE);
    push_be(&mut packet, session_id);
    assert(packet@ =~= query_magic() + seq![HANDSHAKE_TYPE] + be_bytes(session_id));
    packet
}

/// The full stat request: magic, type 0, session id, challenge token and
/// four zero bytes of padding.
pub fn stat_request(session_id: i32, challenge_token: i32) -> (res: Vec<u8>)
    ensures
        res@ == query_magic() + seq![STAT_TYPE] + be_bytes(session_id) + be_bytes(challenge_token)
            + seq![0u8, 0u8, 0u8, 0u8],
{
    let mut packet: Vec<u8> = Vec::new();
    packet.push(0xFE);
    packet.push(0xFD);
    packet.push(STAT_TYPE);
    push_be(&mut packet, session_id);
    push_be(&mut packet, challenge_token);
    packet.push(0);
    packet.push(0);
    packet.push(0);
    packet.push(0);
    assert(packet@ =~= query_magic() + seq![STAT_TYPE] + be_bytes(session_id) + be_bytes(
        challenge_token,
    ) + seq![0u8, 0u8, 0u8, 0u8]);
    packet
}

/// The session id for a clock reading in seconds: its low 32 bits, masked to
/// `0x0F0F0F0F` as the protocol wants.
pub open spec fn session_id_of(secs: u64) -> i32 {
    (secs as i32) & 0x0F0F0F0Fi32
}

/// The session id for a clock reading in seconds.
pub fn session_id_from_secs(secs: u64) -> (id: i32)
    ensures
        id == session_id_of(secs),
{
    (secs as i32) & 0x0F0F0F0F
}

/// A session id from the current time; `None` when the clock reads before
/// the Unix epoch.
pub fn generate_session_id() -> (id: Option<i32>)
    ensures
        id matches Some(v) ==> exists|secs: u64| v == #[trigger] session_id_of(secs),
{
    match time_since_epoch() {
        None => None,
        Some(since) => Some(session_id_from_secs(whole_seconds(&since))),
    }
}

/// The index of the first NUL byte at or after `i`.
pub open spec fn nul_from(data: Seq<u8>, i: int) -> Option<int>
    decreases data.len() - i,
{
    if i < 0 || i >= data.len() {
        None
    } else if data[i] == 0 {
        Some(i)
    } else {
        nul_from(data, i + 1)
    }
}

pub proof fn lemma_nul_from(data: Seq<u8>, i: int)
    ensures
        nul_from(data, i) matches Some(e) ==> 0 <= i <= e < data.len() && data[e] == 0 && forall|
            j: int,
        | i <= j < e ==> data[j] != 0,
        nul_from(data, i) is None ==> forall|j: int| 0 <= i <= j < data.len() ==> data[j] != 0,
    decreases data.len() - i,
{
    if 0 <= i < data.len() && data[i] != 0 {
        lemma_nul_from(data, i + 1);
    }
}

/// The NUL-terminated UTF-8 string at `start`, or why there is none.
pub open spec fn cstring_at(data: Seq<u8>, start: int) -> Result<Seq<char>, Seq<char>> {
    if start >= data.len() {
        Err("Start position out of bounds"@)
    } else {
        match nul_from(data, start) {
            None => Err("String not null-terminated"@),
            Some(end) => {
                let bytes = data.subrange(start, end);
                if valid_utf8(bytes) {
                    Ok(decode_utf8(bytes))
                } else {
                    Err("Invalid UTF-8"@)
                }
            },
        }
    }
}

/// The offset just past the NUL that ends the string at `start`.
pub open spec fn after_cstring(data: Seq<u8>, start: int) -> int {
    match nul_from(data, start) {
        Some(end) => end + 1,
        None => data.len() as int,
    }
}

/// Reads the NUL-terminated UTF-8 string that starts at `start`.
pub fn extract_null_terminated_string(data: &[u8], start: usize) -> (res: Result<String, String>)
    ensures
        match cstring_at(data@, start as int) {
            Ok(s) => res matches Ok(r) && r@ == s && encode_utf8(s).len() == after_cstring(
                data@,
                start as int,
            ) - 1 - start,
            Err(msg) => res matches Err(e) && e@ == msg,
        },
{
    if start >= data.len() {
        return Err(String::from_str("Start position out of bounds"));
    }
    let mut end: usize = start;
    while end < data.len() && data[end] != 0
        invariant
            start <= end <= data@.len(),
            forall|j: int| start <= j < end ==> data@[j] != 0,
        decreases data@.len() - end,
    {
        end += 1;
    }
    proof {
        lemma_nul_from(data@, start as int);
    }
    if end == data.len() {
        return Err(String::from_str("String not null-terminated"));
    }
    assert(nul_from(data@, start as int) == Some(end as int)) by {
        if let Some(e) = nul_from(data@, start as int) {
            assert(e == end);
        }
    }
    let bytes = vstd::slice::slice_subrange(data, start, end);
    match string_from_utf8(bytes) {
        Some(s) => {
            proof {
                decode_utf8_encode_utf8(bytes@);
            }
            Ok(s)
        },
        None => Err(String::from_str("Invalid UTF-8")),
    }
}

/// Reading the challenge token out of a handshake answer: type 9, then the
/// token as a NUL-terminated decimal string from byte 5 on.
pub open spec fn handshake_token(response: Seq<u8>) -> Result<i32, Seq<char>> {
    if response.len() < 5 || response[0] != HANDSHAKE_TYPE {
        Err("Invalid handshake response"@)
    } else {
        match cstring_at(response, 5) {
            Err(e) => Err(e),
            Ok(text) => match parsed_i32(text) {
                Some(t) => Ok(t),
                None => Err("Invalid challenge token"@),
            },
        }
    }
}

/// Reads the challenge token out of a handshake answer.
pub fn parse_handshake_response(response: &[u8]) -> (res: Result<i32, String>)
    ensures
        match handshake_token(response@) {
            Ok(t) => res == Ok::<i32, String>(t),
            Err(msg) => res matches Err(e) && e@ == msg,
        },
{
    if response.len() < 5 || response[0] != HANDSHAKE_TYPE {
        return Err(String::from_str("Invalid handshake response"));
    }
    let token_str = extract_null_terminated_string(response, 5)?;
    let chars = chars_of(token_str.as_str());
    match parse_i32(chars.as_slice()) {
        Some(t) => Ok(t),
        None => Err(String::from_str("Invalid challenge token")),
    }
}

/// The texts of a list of key/value pairs.
pub open spec fn pair_views(v: Seq<(String, String)>) -> Seq<(Seq<char>, Seq<char>)> {
    v.map_values(|p: (String, String)| (p.0@, p.1@))
}

/// Reading the key/value section of a full stat answer from `off` on, with
/// `props` read so far: pairs of NUL-terminated strings until a key is empty
/// or unreadable; an unreadable value fails the whole answer.
pub open spec fn kv_scan(data: Seq<u8>, off: int, props: Seq<(Seq<char>, Seq<char>)>) -> Result<
    (int, Seq<(Seq<char>, Seq<char>)>),
    Seq<char>,
>
    decreases data.len() - off,
{
    if off < 0 || off >= data.len() {
        Ok((off, props))
    } else {
        match cstring_at(data, off) {
            Err(_) => Ok((off, props)),
            Ok(k) => if k.len() == 0 {
                Ok((off, props))
            } else {
                let voff = after_cstring(data, off);
                match cstring_at(data, voff) {
                    Err(e) => Err(e),
                    Ok(v) => {
                        proof {
                            lemma_nul_from(data, off);
                            lemma_nul_from(data, voff);
                        }
                        kv_scan(data, after_cstring(data, voff), props.push((k, v)))
                    },
                }
            },
        }
    }
}

/// Reading the player section from `off` on, with `acc` read so far:
/// NUL-terminated names until one is empty or unreadable or the data ends.
pub open spec fn players_scan(data: Seq<u8>, off: int, acc: Seq<Seq<char>>) -> Seq<Seq<char>>
    decreases data.len() - off,
{
    if off < 0 || off >= data.len() {
        acc
    } else {
        match cstring_at(data, off) {
            Err(_) => acc,
            Ok(p) => if p.len() == 0 {
                acc
            } else {
                proof {
                    lemma_nul_from(data, off);
                }
                players_scan(data, after_cstring(data, off), acc.push(p))
            },
        }
    }
}

/// The player section that a server writes for these names: each name's
/// bytes and a NUL, then the empty name (a lone NUL) that ends the list.
pub open spec fn player_section(names: Seq<Seq<u8>>) -> Seq<u8>
    decreases names.len(),
{
    if names.len() == 0 {
        seq![0u8]
    } else {
        names[0] + seq![0u8] + player_section(names.drop_first())
    }
}

/// Names that can stand in a player section: not empty, valid UTF-8, no NUL.
pub open spec fn writable_names(names: Seq<Seq<u8>>) -> bool {
    forall|i: int|
        0 <= i < names.len() ==> #[trigger] names[i].len() > 0 && valid_utf8(names[i]) && forall|
            j: int,
        | 0 <= j < names[i].len() ==> names[i][j] != 0u8
}

/// Reading a player section gives back every name in it, in order, however
/// many there are: the scan appends the decoded names to what it had read.
pub proof fn lemma_player_section_lists_every_name(
    data: Seq<u8>,
    off: int,
    names: Seq<Seq<u8>>,
    acc: Seq<Seq<char>>,
)
    requires
        0 <= off,
        off + player_section(names).len() <= data.len(),
        data.subrange(off, off + player_section(names).len()) == player_section(names),
        writable_names(names),
    ensures
        players_scan(data, off, acc) == acc + names.map_values(|n: Seq<u8>| decode_utf8(n)),
    decreases names.len(),
{
    let sec = player_section(names);
    assert(data[off] == sec[0]);
    if names.len() == 0 {
        assert(data[off] == 0u8);
        assert(nul_from(data, off) == Some(off));
        assert(data.subrange(off, off) =~= Seq::<u8>::empty());
        assert(cstring_at(data, off) == Ok::<Seq<char>, Seq<char>>(Seq::<char>::empty()));
        assert(acc + names.map_values(|n: Seq<u8>| decode_utf8(n)) =~= acc);
    } else {
        let n = names[0];
        let len = n.len() as int;
        let rest = names.drop_first();
        assert(sec =~= n + seq![0u8] + player_section(rest));
        assert forall|j: int| off <= j < off + len implies data[j] != 0u8 by {
            assert(data[j] == sec[j - off]);
            assert(sec[j - off] == n[j - off]);
        }
        assert(data[off + len] == sec[len]);
        assert(data[off + len] == 0u8);
        lemma_nul_from(data, off);
        assert(nul_from(data, off) == Some(off + len));
        assert(data.subrange(off, off + len) =~= n);
        let d = decode_utf8(n);
        assert(d.len() > 0);
        assert(cstring_at(data, off) == Ok::<Seq<char>, Seq<char>>(d));
        assert(after_cstring(data, off) == off + len + 1);
        let off2 = off + len + 1;
        let rsec = player_section(rest);
        assert(data.subrange(off2, off2 + rsec.len()) =~= rsec) by {
            assert forall|j: int| 0 <= j < rsec.len() implies data.subrange(off2, off2 + rsec.len())[j]
                == rsec[j] by {
                assert(data[off2 + j] == sec[len + 1 + j]);
            }
        }
        assert(writable_names(rest)) by {
            assert forall|i: int| 0 <= i < rest.len() implies #[trigger] rest[i] == names[i + 1] by {}
        }
        lemma_player_section_lists_every_name(data, off2, rest, acc.push(d));
        assert(acc.push(d) + rest.map_values(|x: Seq<u8>| decode_utf8(x)) =~= acc + names.map_values(
            |x: Seq<u8>| decode_utf8(x),
        ));
    }
}

/// A full stat answer lists every player of its player section: when the
/// key/value section ends at `off` and the player section written for
/// `names` stands 10 bytes later, the answer's players are exactly the
/// names, in order.
pub proof fn lemma_full_stat_lists_every_player(
    data: Seq<u8>,
    off: int,
    props: Seq<(Seq<char>, Seq<char>)>,
    names: Seq<Seq<u8>>,
)
    requires
        data.len() >= 16,
        data[0] == STAT_TYPE,
        kv_scan(data, 16, Seq::empty()) == Ok::<(int, Seq<(Seq<char>, Seq<char>)>), Seq<char>>((off, props)),
        0 <= off,
        off + 10 + player_section(names).len() <= data.len(),
        data.subrange(off + 10, off + 10 + player_section(names).len()) == player_section(names),
        writable_names(names),
    ensures
        full_stats(data) == Ok::<(Seq<(Seq<char>, Seq<char>)>, Seq<Seq<char>>), Seq<char>>(
            (props, names.map_values(|n: Seq<u8>| decode_utf8(n))),
        ),
{
    lemma_player_section_lists_every_name(data, off + 10, names, Seq::empty());
    assert(Seq::<Seq<char>>::empty() + names.map_values(|n: Seq<u8>| decode_utf8(n)) =~= names.map_values(
        |n: Seq<u8>| decode_utf8(n),
    ));
}

/// The value last given for `key`, as a map that each pair overwrites keeps it.
pub open spec fn lookup_last(props: Seq<(Seq<char>, Seq<char>)>, key: Seq<char>) -> Option<Seq<char>>
    decreases props.len(),
{
    if props.len() == 0 {
        None
    } else if props.last().0 == key {
        Some(props.last().1)
    } else {
        lookup_last(props.drop_last(), key)
    }
}

/// What a full stat answer holds: its pairs and its players, or why it
/// cannot be read. The key/value section starts after a 16-byte header and
/// the player section 10 bytes after the key/value section ends.
pub open spec fn full_stats(data: Seq<u8>) -> Result<
    (Seq<(Seq<char>, Seq<char>)>, Seq<Seq<char>>),
    Seq<char>,
> {
    if data.len() < 16 || data[0] != STAT_TYPE {
        Err("Invalid stats response"@)
    } else {
        match kv_scan(data, 16, Seq::empty()) {
            Err(e) => Err(e),
            Ok((off, props)) => Ok((props, players_scan(data, off + 10, Seq::empty()))),
        }
    }
}

pub open spec fn or_empty(v: Option<Seq<char>>) -> Seq<char> {
    match v {
        Some(s) => s,
        None => Seq::empty(),
    }
}

/// `info` reports the pairs `props` and the players `players`.
pub open spec fn query_info_holds(
    info: QueryInfo,
    props: Seq<(Seq<char>, Seq<char>)>,
    players: Seq<Seq<char>>,
) -> bool {
    &&& info.motd@ == or_empty(lookup_last(props, "hostname"@))
    &&& info.game_type@ == or_empty(lookup_last(props, "gametype"@))
    &&& info.map@ == or_empty(lookup_last(props, "map"@))
    &&& info.version@ == or_empty(lookup_last(props, "version"@))
    &&& match lookup_last(props, "plugins"@) {
        Some(p) => info.plugins matches Some(x) && x@ == p,
        None => info.plugins is None,
    }
    &&& string_views(info.players@) == players
}

fn lookup(props: &Vec<(String, String)>, key: &String) -> (res: Option<String>)
    ensures
        match lookup_last(pair_views(props@), key@) {
            Some(v) => res matches Some(r) && r@ == v,
            None => res is None,
        },
{
    let mut i: usize = props.len();
    assert(props@.subrange(0, i as int) =~= props@);
    while i > 0
        invariant
            i <= props@.len(),
            lookup_last(pair_views(props@), key@) == lookup_last(
                pair_views(props@.subrange(0, i as int)),
                key@,
            ),
        decreases i,
    {
        let ghost pv = pair_views(props@.subrange(0, i as int));
        assert(pv.last() == (props@[i - 1].0@, props@[i - 1].1@));
        assert(pv.drop_last() =~= pair_views(props@.subrange(0, i - 1)));
        if props[i - 1].0 == *key {
            let v = props[i - 1].1.clone();
            return Some(v);
        }
        i -= 1;
    }
    None
}

fn lookup_or_empty(props: &Vec<(String, String)>, key: &String) -> (res: String)
    ensures
        res@ == or_empty(lookup_last(pair_views(props@), key@)),
{
    match lookup(props, key) {
        Some(v) => v,
        None => String::new(),
    }
}

/// Reads a full stat answer.
pub fn parse_full_stats(response: &[u8]) -> (res: Result<QueryInfo, String>)
    requires
        response@.len() + 10 <= usize::MAX,
    ensures
        match full_stats(response@) {
            Ok((props, players)) => res matches Ok(info) && query_info_holds(info, props, players),
            Err(msg) => res matches Err(e) && e@ == msg,
        },
{
    if response.len() < 16 || response[0] != STAT_TYPE {
        return Err(String::from_str("Invalid stats response"));
    }
    let mut offset: usize = 16;
    let mut properties: Vec<(String, String)> = Vec::new();
    assert(pair_views(properties@) =~= Seq::<(Seq<char>, Seq<char>)>::empty());
    loop
        invariant_except_break
            16 <= offset <= response@.len(),
            response@[0] == STAT_TYPE,
            response@.len() + 10 <= usize::MAX,
            kv_scan(response@, 16, Seq::empty()) == kv_scan(
                response@,
                offset as int,
                pair_views(properties@),
            ),
        ensures
            16 <= offset <= response@.len(),
            response@[0] == STAT_TYPE,
            response@.len() + 10 <= usize::MAX,
            kv_scan(response@, 16, Seq::empty()) == Ok::<_, Seq<char>>(
                (offset as int, pair_views(properties@)),
            ),
        decreases response@.len() - offset,
    {
        let key = match extract_null_terminated_string(response, offset) {
            Ok(k) => {
                if k.as_str().is_empty() {
                    break;
                }
                k
            },
            Err(_) => {
                break;
            },
        };
        proof {
            lemma_nul_from(response@, offset as int);
        }
        let ghost key_off = offset;
        offset += key.as_str().len() + 1;
        assert(offset == after_cstring(response@, key_off as int));
        let value = match extract_null_terminated_string(response, offset) {
            Ok(v) => v,
            Err(e) => {
                assert(kv_scan(response@, key_off as int, pair_views(properties@)) == Err::<
                    (int, Seq<(Seq<char>, Seq<char>)>),
                    Seq<char>,
                >(e@));
                return Err(e);
            },
        };
        proof {
            lemma_nul_from(response@, offset as int);
        }
        offset += value.as_str().len() + 1;
        let ghost before = pair_views(properties@);
        properties.push((key, value));
        assert(pair_views(properties@) =~= before.push((key@, value@)));
    }
    offset += 10;
    let ghost start = offset;
    let mut players: Vec<String> = Vec::new();
    assert(string_views(players@) =~= Seq::<Seq<char>>::empty());
    while offset < response.len()
        invariant_except_break
            start <= offset,
            players_scan(response@, start as int, Seq::empty()) == players_scan(
                response@,
                offset as int,
                string_views(players@),
            ),
        ensures
            players_scan(response@, start as int, Seq::empty()) == string_views(players@),
        decreases response@.len() - offset,
    {
        let player = match extract_null_terminated_string(response, offset) {
            Ok(p) => {
                if p.as_str().is_empty() {
                    break;
                }
                p
            },
            Err(_) => {
                break;
            },
        };
        proof {
            lemma_nul_from(response@, offset as int);
        }
        offset += player.as_str().len() + 1;
        let ghost before = string_views(players@);
        players.push(player);
        assert(string_views(players@) =~= before.push(player@));
    }
    let motd = lookup_or_empty(&properties, &String::from_str("hostname"));
    let game_type = lookup_or_empty(&properties, &String::from_str("gametype"));
    let map = lookup_or_empty(&properties, &String::from_str("map"));
    let version = lookup_or_empty(&properties, &String::from_str("version"));
    let plugins = lookup(&properties, &String::from_str("plugins"));
    Ok(QueryInfo { motd, game_type, map, players, version, plugins })
}

} // verus!
