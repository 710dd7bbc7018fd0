use mineping::minecraft::common::{read_string, read_varint, write_string, write_varint};

#[test]
fn varint_small_values_take_one_byte() {
    assert_eq!(write_varint(0), vec![0x00]);
    assert_eq!(write_varint(1), vec![0x01]);
    assert_eq!(write_varint(127), vec![0x7F]);
}

#[test]
fn varint_multi_byte_values() {
    assert_eq!(write_varint(128), vec![0x80, 0x01]);
    assert_eq!(write_varint(255), vec![0xFF, 0x01]);
    assert_eq!(write_varint(300), vec![0xAC, 0x02]);
    assert_eq!(write_varint(25565), vec![0xDD, 0xC7, 0x01]);
    assert_eq!(write_varint(2097151), vec![0xFF, 0xFF, 0x7F]);
    assert_eq!(write_varint(2147483647), vec![0xFF, 0xFF, 0xFF, 0xFF, 0x07]);
}

#[test]
fn varint_negative_values_take_five_bytes() {
    assert_eq!(write_varint(-1), vec![0xFF, 0xFF, 0xFF, 0xFF, 0x0F]);
    assert_eq!(write_varint(-2147483648), vec![0x80, 0x80, 0x80, 0x80, 0x08]);
}

#[test]
fn varint_roundtrip_on_samples() {
    for v in [0, 1, 127, 128, 300, 25565, 65535, 2097152, 2147483647, -1, -300, i32::MIN] {
        let mut data = write_varint(v);
        let len = data.len();
        data.extend_from_slice(&[0xAA, 0xBB]);
        let mut offset = 0;
        assert_eq!(read_varint(&data, &mut offset), Ok(v));
        assert_eq!(offset, len);
    }
}

#[test]
fn varint_read_at_offset() {
    let data = [0x05, 0xAC, 0x02, 0x07];
    let mut offset = 1;
    assert_eq!(read_varint(&data, &mut offset), Ok(300));
    assert_eq!(offset, 3);
    assert_eq!(read_varint(&data, &mut offset), Ok(7));
    assert_eq!(offset, 4);
}

#[test]
fn varint_truncated_input_fails() {
    let data = [0x80, 0x80];
    let mut offset = 0;
    assert_eq!(read_varint(&data, &mut offset), Err("VarInt exceeds data length".to_string()));
    assert_eq!(offset, 2);

    let mut offset = 0;
    assert_eq!(read_varint(&[], &mut offset), Err("VarInt exceeds data length".to_string()));
    assert_eq!(offset, 0);
}

#[test]
fn varint_too_big_fails_after_five_bytes() {
    let data = [0xFF, 0xFF, 0xFF, 0xFF, 0xFF, 0x01];
    let mut offset = 0;
    assert_eq!(read_varint(&data, &mut offset), Err("VarInt is too big".to_string()));
    assert_eq!(offset, 5);
}

#[test]
fn varint_fifth_byte_high_bits_are_dropped() {
    let data = [0xFF, 0xFF, 0xFF, 0xFF, 0x7F];
    let mut offset = 0;
    assert_eq!(read_varint(&data, &mut offset), Ok(-1));
    assert_eq!(offset, 5);
}

#[test]
fn string_is_length_prefixed() {
    assert_eq!(write_string("abc"), vec![3, b'a', b'b', b'c']);
    assert_eq!(write_string(""), vec![0]);
    assert_eq!(write_string("é"), vec![2, 0xC3, 0xA9]);
}

#[test]
fn string_roundtrip() {
    for s in ["", "hello", "mc.hypixel.net", "§aColour", "日本語"] {
        let data = write_string(s);
        let mut offset = 0;
        assert_eq!(read_string(&data, &mut offset), Ok(s.to_string()));
        assert_eq!(offset, data.len());
    }
}

#[test]
fn string_longer_than_data_fails() {
    let data = [5, b'a', b'b'];
    let mut offset = 0;
    assert_eq!(read_string(&data, &mut offset), Err("String length exceeds data".to_string()));
    assert_eq!(offset, 1);
}

#[test]
fn string_with_invalid_utf8_fails_after_reading_it() {
    let data = [2, 0xC3, 0x28, 9];
    let mut offset = 0;
    assert_eq!(read_string(&data, &mut offset), Err("Invalid UTF-8".to_string()));
    assert_eq!(offset, 3);
}

#[test]
fn string_negative_length_far_from_start_fails() {
    // A length of -5 read at offset 0: the offset past the prefix (5) does
    // not reach back beyond the start, so the length is refused.
    let mut data = write_varint(-6);
    data.push(b'x');
    let mut offset = 0;
    assert_eq!(read_string(&data, &mut offset), Err("String length exceeds data".to_string()));
    assert_eq!(offset, 5);
}

#[test]
fn string_varint_error_passes_through() {
    let data = [0x80];
    let mut offset = 0;
    assert_eq!(read_string(&data, &mut offset), Err("VarInt exceeds data length".to_string()));
}
