use mineping::minecraft::common::ServerInfo;
use mineping::minecraft::legacy_slp::{accept_chunk, decode_utf16, legacy_ping_request, parse_legacy_response};
use mineping::minecraft::modern_slp::{
    build_handshake, frame_packet, packet_length, parse_status_packet, status_request,
    status_to_server_info, Description, PlayerSample, StatusPlayers, StatusResponse, StatusVersion,
    TextComponent,
};
use mineping::minecraft::query::{
    extract_null_terminated_string, generate_session_id, handshake_request, parse_full_stats,
    parse_handshake_response, session_id_from_secs, stat_request,
};

fn legacy_bytes(text: &str) -> Vec<u8> {
    let units: Vec<u16> = text.encode_utf16().collect();
    let mut out = vec![0xFF, (units.len() >> 8) as u8, units.len() as u8];
    for u in units {
        out.push((u >> 8) as u8);
        out.push(u as u8);
    }
    out
}

#[test]
fn handshake_layout() {
    let h = build_handshake("localhost", 25565);
    let mut expected = vec![0x00, 0xFF, 0xFF, 0xFF, 0xFF, 0x0F, 9];
    expected.extend_from_slice(b"localhost");
    expected.extend_from_slice(&[0x63, 0xDD, 0x01]);
    assert_eq!(h, expected);
}

#[test]
fn frames_carry_their_length() {
    assert_eq!(frame_packet(&[0x00]), vec![0x01, 0x00]);
    assert_eq!(frame_packet(&[]), vec![0x00]);
    let big = vec![7u8; 200];
    let f = frame_packet(&big);
    assert_eq!(&f[..2], &[0xC8, 0x01]);
    assert_eq!(&f[2..], &big[..]);
    assert_eq!(status_request(), vec![0x00]);
}

#[test]
fn packet_length_limits() {
    assert_eq!(packet_length(&[0x05]), Ok(5));
    assert_eq!(packet_length(&[0xFF, 0xFF, 0x03]), Ok(65535));
    assert_eq!(packet_length(&[0x80, 0x80, 0x04]), Err("Packet too large: 65536".to_string()));
    assert_eq!(packet_length(&[0x80]), Err("VarInt exceeds data length".to_string()));
    assert_eq!(packet_length(&[0xFF, 0xFF, 0xFF, 0xFF, 0xFF]), Err("VarInt is too big".to_string()));
}

#[test]
fn negative_packet_length_reads_as_huge() {
    let res = packet_length(&[0xFF, 0xFF, 0xFF, 0xFF, 0x0F]);
    assert_eq!(res, Err(format!("Packet too large: {}", usize::MAX)));
}

#[test]
fn status_packet_yields_json() {
    let mut packet = vec![0x00];
    packet.extend(mineping::minecraft::common::write_string("{\"a\":1}"));
    assert_eq!(parse_status_packet(&packet), Ok("{\"a\":1}".to_string()));
}

#[test]
fn status_packet_with_other_id_is_refused() {
    assert_eq!(parse_status_packet(&[0x01, 0x00]), Err("Unexpected packet ID: 0x01".to_string()));
    assert_eq!(parse_status_packet(&[0xAB]), Err("Unexpected packet ID: 0xab".to_string()));
}

fn sample_status(description: Description) -> StatusResponse {
    StatusResponse {
        version: StatusVersion { name: "1.20.4".to_string(), protocol: 765 },
        players: StatusPlayers {
            max: 20,
            online: 2,
            sample: Some(vec![
                PlayerSample { name: "Steve".to_string(), id: "1".to_string() },
                PlayerSample { name: "Alex".to_string(), id: "2".to_string() },
            ]),
        },
        description,
        favicon: Some("data:image/png;base64,AA".to_string()),
        enforces_secure_chat: None,
    }
}

#[test]
fn modern_status_becomes_a_report() {
    let info = status_to_server_info(sample_status(Description::Plain("A Server".to_string())), "1.2.3.4", 25565, 42);
    assert!(info.online);
    assert_eq!(info.host, "1.2.3.4");
    assert_eq!(info.port, 25565);
    assert_eq!(info.resolved_from, "direct");
    let v = info.version.unwrap();
    assert_eq!((v.name.as_str(), v.protocol), ("1.20.4", 765));
    let p = info.players.unwrap();
    assert_eq!((p.online, p.max), (2, 20));
    assert_eq!(p.sample, Some(vec!["Steve".to_string(), "Alex".to_string()]));
    assert_eq!(info.description, Some("A Server".to_string()));
    assert_eq!(info.favicon, Some("data:image/png;base64,AA".to_string()));
    assert_eq!(info.latency_ms, Some(42));
    assert!(!info.query_enabled);
    assert_eq!(info.protocol_used, "modern_slp");
}

#[test]
fn complex_description_is_concatenated() {
    let d = Description::Complex {
        text: "Hello ".to_string(),
        extra: vec![TextComponent { text: "big ".to_string() }, TextComponent { text: "world".to_string() }],
    };
    let info = status_to_server_info(sample_status(d), "h", 1, 0);
    assert_eq!(info.description, Some("Hello big world".to_string()));
    let info = status_to_server_info(sample_status(Description::Object { text: "Obj".to_string() }), "h", 1, 0);
    assert_eq!(info.description, Some("Obj".to_string()));
}

#[test]
fn legacy_request_bytes() {
    assert_eq!(legacy_ping_request(), vec![0xFE, 0x01]);
}

#[test]
fn legacy_response_size_limit() {
    let mut response = Vec::new();
    assert!(accept_chunk(&mut response, &[1u8; 4096]).is_ok());
    assert_eq!(response.len(), 4096);
    assert_eq!(accept_chunk(&mut response, &[2u8]), Err("Response too large".to_string()));
    assert_eq!(response.len(), 4097);
}

#[test]
fn legacy_beta_response() {
    let info = parse_legacy_response(&legacy_bytes("A Minecraft Server\u{a7}5\u{a7}20"), "example.org", 25565).unwrap();
    assert_eq!(info.protocol_used, "legacy_slp_beta");
    assert!(info.version.is_none());
    let p = info.players.unwrap();
    assert_eq!((p.online, p.max), (5, 20));
    assert_eq!(info.description, Some("A Minecraft Server".to_string()));
    assert_eq!(info.host, "example.org");
}

#[test]
fn legacy_v14_response_fields_are_read_one_place_off() {
    let text = "\u{a7}1\u{0}47\u{0}1.4.2\u{0}A Minecraft Server\u{0}3\u{0}20";
    let info: ServerInfo = parse_legacy_response(&legacy_bytes(text), "h", 1).unwrap();
    assert_eq!(info.protocol_used, "legacy_slp");
    let v = info.version.unwrap();
    assert_eq!(v.name, "47");
    assert_eq!(v.protocol, 0);
    assert_eq!(info.description, Some("1.4.2".to_string()));
    let p = info.players.unwrap();
    assert_eq!((p.online, p.max), (0, 3));
}

#[test]
fn legacy_errors() {
    assert_eq!(parse_legacy_response(&[], "h", 1).unwrap_err(), "No response received");
    assert_eq!(parse_legacy_response(&[0x12, 0, 0], "h", 1).unwrap_err(), "Invalid response packet ID: 0x12");
    assert_eq!(parse_legacy_response(&[0xFF, 0], "h", 1).unwrap_err(), "Response too short");
    assert_eq!(parse_legacy_response(&[0xFF, 0, 1, 0xD8, 0x00], "h", 1).unwrap_err(), "Invalid UTF-16");
    assert_eq!(parse_legacy_response(&legacy_bytes("\u{a7}1\u{0}a\u{0}b"), "h", 1).unwrap_err(), "Invalid legacy response format");
    assert_eq!(parse_legacy_response(&legacy_bytes("motd only"), "h", 1).unwrap_err(), "Invalid legacy beta response format");
}

#[test]
fn utf16_surrogate_pairs() {
    assert_eq!(decode_utf16(&[0x0041, 0xD83D, 0xDE00]), Some(vec!['A', '\u{1F600}']));
    assert_eq!(decode_utf16(&[0xDC00]), None);
    assert_eq!(decode_utf16(&[0xD800, 0x0041]), None);
    assert_eq!(decode_utf16(&[]), Some(vec![]));
}

#[test]
fn query_packets() {
    assert_eq!(handshake_request(0x01020304), vec![0xFE, 0xFD, 0x09, 1, 2, 3, 4]);
    assert_eq!(
        stat_request(1, -1),
        vec![0xFE, 0xFD, 0x00, 0, 0, 0, 1, 0xFF, 0xFF, 0xFF, 0xFF, 0, 0, 0, 0]
    );
}

#[test]
fn session_ids_are_masked() {
    assert_eq!(session_id_from_secs(0x1_FFFF_FFFF), 0x0F0F0F0F);
    assert_eq!(session_id_from_secs(0x1234_5678), 0x0204_0608);
    assert_eq!(generate_session_id().unwrap() & !0x0F0F0F0F, 0);
}

#[test]
fn null_terminated_strings() {
    let data = b"ab\0cd\0";
    assert_eq!(extract_null_terminated_string(data, 0), Ok("ab".to_string()));
    assert_eq!(extract_null_terminated_string(data, 3), Ok("cd".to_string()));
    assert_eq!(extract_null_terminated_string(data, 2), Ok("".to_string()));
    assert_eq!(extract_null_terminated_string(data, 6), Err("Start position out of bounds".to_string()));
    assert_eq!(extract_null_terminated_string(b"abc", 0), Err("String not null-terminated".to_string()));
    assert_eq!(extract_null_terminated_string(&[0xC3, 0x28, 0], 0), Err("Invalid UTF-8".to_string()));
}

#[test]
fn handshake_answer_gives_token() {
    let mut answer = vec![0x09, 0, 0, 0, 1];
    answer.extend_from_slice(b"9513307\0");
    assert_eq!(parse_handshake_response(&answer), Ok(9513307));
    let mut negative = vec![0x09, 0, 0, 0, 1];
    negative.extend_from_slice(b"-42\0");
    assert_eq!(parse_handshake_response(&negative), Ok(-42));
    assert_eq!(parse_handshake_response(&[0x09, 0, 0]), Err("Invalid handshake response".to_string()));
    assert_eq!(parse_handshake_response(&[0x00, 0, 0, 0, 1, b'1', 0]), Err("Invalid handshake response".to_string()));
    let mut bad = vec![0x09, 0, 0, 0, 1];
    bad.extend_from_slice(b"12x\0");
    assert_eq!(parse_handshake_response(&bad), Err("Invalid challenge token".to_string()));
    assert_eq!(parse_handshake_response(&[0x09, 0, 0, 0, 1, b'1']), Err("String not null-terminated".to_string()));
}

fn stats_header() -> Vec<u8> {
    let mut v = vec![0x00, 0, 0, 0, 1];
    v.extend_from_slice(b"splitnum\0");
    v.extend_from_slice(&[0x80, 0x00]);
    assert_eq!(v.len(), 16);
    v
}

#[test]
fn full_stats_pairs_and_players() {
    let mut v = stats_header();
    v.extend_from_slice(b"hostname\0A Server\0gametype\0SMP\0version\01.20\0plugins\0\0map\0world\0");
    // An empty key ends the pairs; the players start ten bytes after it.
    v.extend_from_slice(b"\0XXXXXXXXX");
    v.extend_from_slice(b"Steve\0Alex\0\0");
    let info = parse_full_stats(&v).unwrap();
    assert_eq!(info.motd, "A Server");
    assert_eq!(info.game_type, "SMP");
    assert_eq!(info.version, "1.20");
    assert_eq!(info.map, "world");
    assert_eq!(info.plugins, Some("".to_string()));
    assert_eq!(info.players, vec!["Steve".to_string(), "Alex".to_string()]);
}

#[test]
fn full_stats_later_values_win_and_missing_keys_are_empty() {
    let mut v = stats_header();
    v.extend_from_slice(b"map\0first\0map\0second\0\0");
    let info = parse_full_stats(&v).unwrap();
    assert_eq!(info.map, "second");
    assert_eq!(info.motd, "");
    assert_eq!(info.plugins, None);
    assert!(info.players.is_empty());
}

#[test]
fn full_stats_errors() {
    assert_eq!(parse_full_stats(&[0u8; 15]).unwrap_err(), "Invalid stats response");
    let mut wrong = stats_header();
    wrong[0] = 9;
    assert_eq!(parse_full_stats(&wrong).unwrap_err(), "Invalid stats response");
    let mut unterminated = stats_header();
    unterminated.extend_from_slice(b"hostname\0abc");
    assert_eq!(parse_full_stats(&unterminated).unwrap_err(), "String not null-terminated");
}
