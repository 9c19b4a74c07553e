use hex_thing::{
    addr_line, address_width, ascii_line, format_line, hex_line, separator, DumpConfig, SEPARATOR,
};

fn plain(bytes_per_line: usize, uppercase: bool) -> DumpConfig {
    DumpConfig { bytes_per_line, uppercase, use_color: false }
}

#[test]
fn address_width_is_the_logarithm_rounded_up() {
    assert_eq!(address_width(256), 2);
    assert_eq!(address_width(4096), 3);
    assert_eq!(address_width(0), 0);
    assert_eq!(address_width(1), 0);
    assert_eq!(address_width(2), 1);
    assert_eq!(address_width(16), 1);
    assert_eq!(address_width(17), 2);
    assert_eq!(address_width(255), 2);
    assert_eq!(address_width(257), 3);
    assert_eq!(address_width(4097), 4);
    assert_eq!(address_width(65536), 4);
    assert_eq!(address_width(1 << 60), 15);
    assert_eq!(address_width((1 << 60) + 1), 16);
    assert_eq!(address_width(u64::MAX), 16);
}

#[test]
fn address_width_is_the_least_that_reaches_the_size() {
    for size in 2..5000u64 {
        let w = address_width(size) as u32;
        assert!(16u64.pow(w) >= size);
        assert!(16u64.pow(w - 1) < size);
    }
}

#[test]
fn addresses_are_padded_with_zeros() {
    assert_eq!(addr_line(0, 0, false, false), "0x0");
    assert_eq!(addr_line(0, 1, false, false), "0x0");
    assert_eq!(addr_line(0, 4, false, false), "0x0000");
    assert_eq!(addr_line(0x1f, 4, false, false), "0x001f");
    assert_eq!(addr_line(0x1f, 4, true, false), "0x001F");
    assert_eq!(addr_line(0xabcdef, 2, false, false), "0xabcdef");
    assert_eq!(addr_line(0xabcdef, 6, true, false), "0xABCDEF");
    assert_eq!(addr_line(16, 0, false, false), "0x10");
    assert_eq!(addr_line(255, 3, false, false), "0x0ff");
    assert_eq!(
        addr_line(usize::MAX, 0, false, false),
        format!("0x{:x}", usize::MAX)
    );
}

#[test]
fn addresses_follow_the_standard_formatting() {
    for addr in [0usize, 1, 9, 10, 15, 16, 255, 256, 4095, 4096, 65535, 1 << 20, 123456789] {
        for width in 0..8usize {
            assert_eq!(
                addr_line(addr, width, false, false),
                format!("0x{:0width$x}", addr, width = width)
            );
            assert_eq!(
                addr_line(addr, width, true, false),
                format!("0x{:0width$X}", addr, width = width)
            );
        }
    }
}

#[test]
fn hex_line_writes_pairs_with_spaces_between() {
    assert_eq!(hex_line(&[0x41, 0x42, 0x0a], 3, false, false), "41 42 0a");
    assert_eq!(hex_line(&[0xde, 0xad, 0xbe, 0xef], 4, false, false), "de ad be ef");
    assert_eq!(hex_line(&[0xde, 0xad, 0xbe, 0xef], 4, true, false), "DE AD BE EF");
    assert_eq!(hex_line(&[0x00], 1, false, false), "00");
    assert_eq!(hex_line(&[0xff], 1, true, false), "FF");
    assert_eq!(hex_line(&[], 0, false, false), "");
}

#[test]
fn hex_line_shows_only_the_valid_bytes() {
    let buffer = [0x01, 0x23, 0x45, 0x67];
    assert_eq!(hex_line(&buffer, 0, false, false), "");
    assert_eq!(hex_line(&buffer, 1, false, false), "01");
    assert_eq!(hex_line(&buffer, 3, false, false), "01 23 45");
    assert_eq!(hex_line(&buffer, 4, false, false), "01 23 45 67");
    assert_eq!(hex_line(&buffer, 9, false, false), "01 23 45 67");
}

#[test]
fn hex_line_covers_every_byte_value() {
    for byte in 0..=255u8 {
        assert_eq!(hex_line(&[byte], 1, false, false), format!("{:02x}", byte));
        assert_eq!(hex_line(&[byte], 1, true, false), format!("{:02X}", byte));
    }
}

#[test]
fn ascii_line_writes_one_glyph_per_byte() {
    assert_eq!(ascii_line(&[0x41, 0x42, 0x0a], 3, false), "AB␊");
    assert_eq!(ascii_line(&[0, 9, 10, 13, 32, 65, 127, 200], 8, false), "•⇥␊␍␣A▴×");
    assert_eq!(ascii_line(&[0x41, 0x42, 0x0a], 2, false), "AB");
    assert_eq!(ascii_line(&[0x41, 0x42, 0x0a], 0, false), "");
    assert_eq!(ascii_line(&[0x41, 0x42, 0x0a], 7, false), "AB␊");
    assert_eq!(ascii_line(&[], 0, false), "");
}

#[test]
fn separator_is_the_box_drawing_bar() {
    assert_eq!(SEPARATOR, '│');
    assert_eq!(separator(false), "│");
}

#[test]
fn a_full_line_has_no_padding() {
    let line = format_line(0x10, b"0123456789abcdef", 2, &plain(16, false));
    assert_eq!(
        line,
        " 0x10 │ 30 31 32 33 34 35 36 37 38 39 61 62 63 64 65 66 │ 0123456789abcdef\n"
    );
}

#[test]
fn a_short_line_is_padded_to_the_width_of_a_full_one() {
    let config = plain(4, false);
    let full = format_line(0, &[1, 2, 3, 4], 1, &config);
    let short = format_line(4, &[5], 1, &config);
    assert_eq!(full, " 0x0 │ 01 02 03 04 │ ▴▴▴▴\n");
    assert_eq!(short, " 0x4 │ 05          │ ▴\n");
    let bar = |line: &str| -> Vec<usize> {
        line.chars().enumerate().filter(|(_, c)| *c == '│').map(|(i, _)| i).collect()
    };
    assert_eq!(bar(&full), bar(&short));
    assert_eq!(bar(&full), vec![5, 19]);
}

#[test]
fn every_chunk_length_gives_the_same_columns() {
    let data: Vec<u8> = (0..16u8).collect();
    let config = plain(16, true);
    let full = format_line(0xa0, &data, 3, &config);
    let full_chars = full.chars().count();
    for len in 1..=16usize {
        let line = format_line(0xa0, &data[..len], 3, &config);
        let chars: Vec<char> = line.chars().collect();
        assert_eq!(chars.len() - len, full_chars - 16);
        assert_eq!(chars[7], '│');
        assert_eq!(chars[7 + 3 * 16 + 2], '│');
        assert_eq!(*chars.last().unwrap(), '\n');
        assert_eq!(chars.iter().filter(|c| **c == '│').count(), 2);
    }
}

#[test]
fn uppercase_leaves_the_prefix_and_the_glyphs_alone() {
    let line = format_line(0xab, &[0xcd, b'e'], 2, &plain(2, true));
    assert_eq!(line, " 0xAB │ CD 65 │ ×e\n");
}
