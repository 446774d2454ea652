use img_to_array::emit::{emit_array, literal_text, push_dec, push_hex, LiteralStyle, MAX_LINE_WIDTH};

#[test]
fn hex_and_decimal_digits() {
    let mut s = String::new();
    push_hex(&mut s, 0xF800, 4);
    assert_eq!(s, "F800");
    let mut s = String::new();
    push_hex(&mut s, 0x7E0, 4);
    assert_eq!(s, "07E0");
    let mut s = String::new();
    push_hex(&mut s, 0x1234567, 6);
    assert_eq!(s, "1234567");
    let mut s = String::new();
    push_hex(&mut s, 0, 0);
    assert_eq!(s, "0");
    let mut s = String::new();
    push_dec(&mut s, 0);
    assert_eq!(s, "0");
    let mut s = String::new();
    push_dec(&mut s, 18446744073709551615);
    assert_eq!(s, "18446744073709551615");
}

#[test]
fn literal_forms() {
    assert_eq!(literal_text(LiteralStyle::Hex4, 0xF800), "0xF800, ");
    assert_eq!(literal_text(LiteralStyle::Hex4, 0x1F), "0x001F, ");
    assert_eq!(literal_text(LiteralStyle::Hex6, 0x00FF00), "0x00FF00, ");
    assert_eq!(literal_text(LiteralStyle::Decimal, 255), "255,");
}

#[test]
fn literal_forms_match_std_formatting() {
    for v in [0u64, 1, 0x1F, 0x7E0, 0xFFFF, 0xABCDEF].iter() {
        assert_eq!(literal_text(LiteralStyle::Hex4, *v), format!("{:#06X}, ", v));
        assert_eq!(literal_text(LiteralStyle::Hex6, *v), format!("{:#08X}, ", v));
        assert_eq!(literal_text(LiteralStyle::Decimal, *v), format!("{},", v));
    }
}

#[test]
fn emit_small_array() {
    let mut out = String::new();
    emit_array(&mut out, "uint8_t", "image_data", LiteralStyle::Decimal, &vec![0, 1]);
    assert_eq!(out, "\nconst uint8_t image_data[2] PROGMEM = {\n    0,1,\n};\n");
}

#[test]
fn emit_empty_array() {
    let mut out = String::from("x");
    emit_array(&mut out, "uint8_t", "image_data", LiteralStyle::Decimal, &Vec::new());
    assert_eq!(out, "x\nconst uint8_t image_data[0] PROGMEM = {\n};\n");
}

#[test]
fn emit_wraps_decimal_at_eighty_columns() {
    let values: Vec<u64> = (0..40).collect();
    let mut out = String::new();
    emit_array(&mut out, "uint8_t", "image_data", LiteralStyle::Decimal, &values);
    let expected = "\nconst uint8_t image_data[40] PROGMEM = {\n    0,1,2,3,4,5,6,7,8,9,10,11,12,13,14,15,16,17,18,19,20,21,22,23,24,25,26,27,\n    28,29,30,31,32,33,34,35,36,37,38,39,\n};\n";
    assert_eq!(out, expected);
}

#[test]
fn emit_wraps_hex_at_eighty_columns() {
    let values: Vec<u64> = (0..16u64).map(|i| i << 16).collect();
    let mut out = String::new();
    emit_array(&mut out, "uint32_t", "palette", LiteralStyle::Hex6, &values);
    let expected = "\nconst uint32_t palette[16] PROGMEM = {\n    0x000000, 0x010000, 0x020000, 0x030000, 0x040000, 0x050000, 0x060000, \n    0x070000, 0x080000, 0x090000, 0x0A0000, 0x0B0000, 0x0C0000, 0x0D0000, \n    0x0E0000, 0x0F0000, \n};\n";
    assert_eq!(out, expected);
}

#[test]
fn emitted_lines_fit_and_rejoin() {
    let values: Vec<u64> = (0..500u64).map(|i| i * 7919).collect();
    let mut out = String::new();
    emit_array(&mut out, "uint32_t", "image_data", LiteralStyle::Decimal, &values);
    let lines: Vec<&str> = out.lines().collect();
    let body = &lines[2..lines.len() - 1];
    let mut joined = String::new();
    for l in body {
        assert!(l.len() <= MAX_LINE_WIDTH);
        assert!(l.starts_with("    "));
        joined.push_str(&l[4..]);
    }
    let expected: String = values.iter().map(|v| format!("{},", v)).collect();
    assert_eq!(joined, expected);
}
