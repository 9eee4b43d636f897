use scx::format::{
    decode_u16, fmt_l0, fmt_l1, fmt_l2, fmt_u16, fmt_u32, fmt_u8, format_hex, hex8, preview_bytes, read_cstring, read_u16_be,
    read_u16_le, read_u32_be, read_u32_le, sign_extend,
};

#[test]
fn reads_little_and_big_endian_words() {
    let data = [0x01u8, 0x02, 0x03, 0x04, 0x05];
    assert_eq!(read_u16_le(&data, 0), 0x0201);
    assert_eq!(read_u16_be(&data, 0), 0x0102);
    assert_eq!(read_u32_le(&data, 1), 0x05040302);
    assert_eq!(read_u32_be(&data, 1), 0x02030405);
}

#[test]
fn sign_extend_takes_the_top_bit_as_sign() {
    assert_eq!(sign_extend(0x1F, 5), -1);
    assert_eq!(sign_extend(0x0F, 5), 15);
    assert_eq!(sign_extend(0x10, 5), -16);
    assert_eq!(sign_extend(0x1000, 13), -4096);
    assert_eq!(sign_extend(0x0FFF, 13), 4095);
    assert_eq!(sign_extend(0x10_0000, 21), -0x10_0000);
    assert_eq!(sign_extend(-5, 32), -5);
    assert_eq!(sign_extend(7, 32), 7);
    assert_eq!(sign_extend(-5, 40), -5);
    assert_eq!(sign_extend(7, 64), 7);
    assert_eq!(sign_extend(i32::MIN, 64), i32::MIN);
}

#[test]
fn sign_extend_keeps_small_values() {
    for bits in 1..=32u32 {
        let v: i64 = (1i64 << (bits - 1)) - 1;
        assert_eq!(sign_extend(v as i32, bits) as i64, v);
    }
}

#[test]
fn hex_formats_are_upper_case_and_padded() {
    assert_eq!(fmt_u8(0x0a), "0x0A");
    assert_eq!(hex8(0xff), "0xFF");
    assert_eq!(fmt_u16(0x1b), "0x001B");
    assert_eq!(fmt_u32(0xdead), "0x0000DEAD");
    assert_eq!(fmt_l0(0x1234), "table0[0x1234]");
    assert_eq!(fmt_l1(0x1), "table1[0x0001]");
    assert_eq!(fmt_l2(0xabcd), "table2[0xABCD]");
}

#[test]
fn read_cstring_stops_at_zero_and_skips_it() {
    let data = b"abc\0def";
    assert_eq!(read_cstring(data, 0, 100), ("abc".to_string(), 4));
    assert_eq!(read_cstring(data, 4, 100), ("def".to_string(), 7));
    assert_eq!(read_cstring(data, 4, 6), ("de".to_string(), 6));
    assert_eq!(read_cstring(data, 3, 100), ("".to_string(), 4));
}

#[test]
fn read_cstring_replaces_invalid_utf8() {
    let data = [0x61u8, 0xff, 0x62, 0x00];
    assert_eq!(read_cstring(&data, 0, 4), ("a\u{FFFD}b".to_string(), 4));
}

#[test]
fn decode_u16_needs_two_bytes_before_the_limit() {
    let data = [0x34u8, 0x12, 0x78];
    assert_eq!(decode_u16(&data, 0, 3), (Some(0x1234), 2));
    assert_eq!(decode_u16(&data, 1, 3), (Some(0x7812), 3));
    assert_eq!(decode_u16(&data, 2, 3), (None, 2));
    assert_eq!(decode_u16(&data, 0, 1), (None, 0));
}

#[test]
fn preview_shows_at_most_sixteen_bytes() {
    assert_eq!(preview_bytes(&[]), "");
    assert_eq!(preview_bytes(&[0x01, 0xab]), "01 ab");
    let sixteen: Vec<u8> = (0u8..16).collect();
    assert_eq!(preview_bytes(&sixteen), "00 01 02 03 04 05 06 07 08 09 0a 0b 0c 0d 0e 0f");
    let seventeen: Vec<u8> = (0u8..17).collect();
    assert_eq!(preview_bytes(&seventeen), "00 01 02 03 04 05 06 07 08 09 0a 0b 0c 0d 0e 0f ...");
}

#[test]
fn format_hex_lists_every_byte() {
    assert_eq!(format_hex(&[]), "");
    assert_eq!(format_hex(&[0x00, 0x7f, 0xff]), "00 7f ff");
}
