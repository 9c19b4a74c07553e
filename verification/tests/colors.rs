use hex_thing::{addr_line, ascii_line, dump, format_line, hex_line, separator, DumpConfig, Window};

fn forced() {
    colored::control::set_override(true);
}

#[test]
fn a_coloured_address_is_bright_black() {
    forced();
    assert_eq!(addr_line(0x1f, 4, false, true), "\x1b[90m0x001f\x1b[0m");
    assert_eq!(addr_line(0x1f, 4, false, false), "0x001f");
}

#[test]
fn a_coloured_separator_is_bright_black() {
    forced();
    assert_eq!(separator(true), "\x1b[90m│\x1b[0m");
    assert_eq!(separator(false), "│");
}

#[test]
fn hex_pairs_are_coloured_by_their_byte() {
    forced();
    assert_eq!(
        hex_line(&[0, 9, b'A', 200, 1], 5, false, true),
        "\x1b[90m00\x1b[0m \x1b[36m09\x1b[0m \x1b[32m41\x1b[0m \x1b[33mc8\x1b[0m \x1b[91m01\x1b[0m"
    );
    assert_eq!(hex_line(&[0xab], 1, true, true), "\x1b[33mAB\x1b[0m");
    assert_eq!(hex_line(&[0, 9, b'A', 200, 1], 5, false, false), "00 09 41 c8 01");
}

#[test]
fn glyphs_are_coloured_by_their_byte() {
    forced();
    assert_eq!(
        ascii_line(&[0, 32, b'A', 200, 127], 5, true),
        "\x1b[90m•\x1b[0m\x1b[36m␣\x1b[0m\x1b[32mA\x1b[0m\x1b[33m×\x1b[0m\x1b[91m▴\x1b[0m"
    );
    assert_eq!(ascii_line(&[0, 32, b'A', 200, 127], 5, false), "•␣A×▴");
}

#[test]
fn a_coloured_line_keeps_its_spaces_plain() {
    forced();
    let config = DumpConfig { bytes_per_line: 2, uppercase: false, use_color: true };
    assert_eq!(
        format_line(0, &[b'A'], 1, &config),
        " \x1b[90m0x0\x1b[0m \x1b[90m│\x1b[0m \x1b[32m41\x1b[0m    \x1b[90m│\x1b[0m \x1b[32mA\x1b[0m\n"
    );
}

#[test]
fn a_coloured_dump_has_a_line_for_each_chunk() {
    forced();
    let config = DumpConfig { bytes_per_line: 4, uppercase: false, use_color: true };
    let lines = dump(&[1, 2, 3, 4, 5], Window { start: 0, max_count: None }, config);
    assert_eq!(lines.len(), 2);
    assert!(lines[1].starts_with(" \x1b[90m0x4\x1b[0m "));
    assert!(lines[1].ends_with(" \x1b[91m▴\x1b[0m\n"));
}
