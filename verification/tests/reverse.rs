use hex_thing::{
    decode_line, is_whitespace, reverse_lines, split_fields, strip_spaces, trim_bounds, chars_of,
    string_of, DumpError, Reverse,
};

fn strings(lines: &[&str]) -> Vec<String> {
    lines.iter().map(|line| line.to_string()).collect()
}

#[test]
fn white_space_is_what_the_standard_library_says() {
    for code in 0..=0x10ffffu32 {
        if let Some(c) = char::from_u32(code) {
            assert_eq!(is_whitespace(c), c.is_whitespace(), "U+{code:04X}");
        }
    }
}

#[test]
fn trimming_agrees_with_the_standard_library() {
    let samples = [
        "", " ", "a", " a", "a ", "  a b  ", "\t\n x \r\n", "\u{a0}x\u{3000}", " │ ", "\u{85}",
        "x\u{2003}y", "\u{1680}\u{2028}z\u{2029}\u{202f}\u{205f}",
    ];
    for text in samples {
        let chars: Vec<char> = text.chars().collect();
        let (lo, hi) = trim_bounds(&chars);
        let kept: String = chars[lo..hi].iter().collect();
        assert_eq!(kept, text.trim(), "{text:?}");
    }
}

#[test]
fn splitting_agrees_with_the_standard_library() {
    let samples = ["", "a", "│", "a│b", "a│b│c", "││", "a││b│", "│a", " 0x0 │ 41 │ A", "a-b"];
    for text in samples {
        let chars: Vec<char> = text.chars().collect();
        let fields: Vec<String> =
            split_fields(&chars, '│').iter().map(|f| f.iter().collect()).collect();
        let expected: Vec<String> = text.split('│').map(|f| f.to_string()).collect();
        assert_eq!(fields, expected, "{text:?}");
    }
}

#[test]
fn spaces_are_stripped_and_nothing_else() {
    let chars: Vec<char> = " 41 42\t0a  ".chars().collect();
    let kept: String = strip_spaces(&chars).iter().collect();
    assert_eq!(kept, "4142\t0a");
    assert_eq!(strip_spaces(&[]), Vec::<char>::new());
}

#[test]
fn strings_and_characters_convert_both_ways() {
    let text = "0x1f │ é␊";
    let chars = chars_of(text);
    assert_eq!(chars, text.chars().collect::<Vec<char>>());
    assert_eq!(string_of(&chars), text);
    assert_eq!(string_of(&[]), "");
}

#[test]
fn a_dump_line_decodes_from_its_second_field() {
    assert_eq!(decode_line(" 0x0 │ 41 42 0a │ AB␊", 1), Ok(vec![0x41, 0x42, 0x0a]));
    assert_eq!(decode_line(" 0x0 │ 41 42 0a │ AB␊\n", 1), Ok(vec![0x41, 0x42, 0x0a]));
    assert_eq!(decode_line(" 0x10 │ DE AD be EF       │ ××××", 9), Ok(vec![0xde, 0xad, 0xbe, 0xef]));
}

#[test]
fn a_line_with_two_fields_decodes_from_the_second() {
    assert_eq!(decode_line("0x0 │ 41 42", 1), Ok(vec![0x41, 0x42]));
    assert_eq!(decode_line("anything at all│4142", 1), Ok(vec![0x41, 0x42]));
    assert_eq!(decode_line("4142│", 1), Ok(vec![]));
}

#[test]
fn a_line_without_separator_is_hex_as_a_whole() {
    assert_eq!(decode_line("48656c6c6f", 1), Ok(b"Hello".to_vec()));
    assert_eq!(decode_line("  48 65 6C 6c 6F  ", 1), Ok(b"Hello".to_vec()));
    assert_eq!(decode_line("\t4142\r\n", 1), Ok(vec![0x41, 0x42]));
    assert_eq!(decode_line("", 1), Ok(vec![]));
    assert_eq!(decode_line("   ", 1), Ok(vec![]));
}

#[test]
fn a_line_with_more_than_three_fields_is_refused() {
    assert_eq!(
        decode_line("0x0 │ 41 │ A │ B", 7),
        Err(DumpError::UnrecognizedLineFormat { line: 7 })
    );
    assert_eq!(decode_line("││││", 2), Err(DumpError::UnrecognizedLineFormat { line: 2 }));
}

#[test]
fn bad_hex_is_reported_with_its_text() {
    assert_eq!(
        decode_line("0x0 │ 41 4g │ A", 3),
        Err(DumpError::InvalidHex { text: "414g".to_string(), line: 3 })
    );
    assert_eq!(
        decode_line("1 2 3", 4),
        Err(DumpError::InvalidHex { text: "123".to_string(), line: 4 })
    );
    assert_eq!(
        decode_line("41\t42", 5),
        Err(DumpError::InvalidHex { text: "41\t42".to_string(), line: 5 })
    );
    assert_eq!(
        decode_line("0x41", 6),
        Err(DumpError::InvalidHex { text: "0x41".to_string(), line: 6 })
    );
    assert_eq!(
        decode_line("é", 1),
        Err(DumpError::InvalidHex { text: "é".to_string(), line: 1 })
    );
    assert_eq!(
        decode_line("€1", 1),
        Err(DumpError::InvalidHex { text: "€1".to_string(), line: 1 })
    );
    assert_eq!(
        decode_line("４１", 1),
        Err(DumpError::InvalidHex { text: "４１".to_string(), line: 1 })
    );
}

#[test]
fn lines_are_joined_in_order() {
    let lines = strings(&[" 0x0 │ 01 02 │ ▴▴", " 0x2 │ 03 04 │ ▴▴", "0506", ""]);
    assert_eq!(reverse_lines(&lines), Ok(vec![1, 2, 3, 4, 5, 6]));
    assert_eq!(reverse_lines(&[]), Ok(vec![]));
}

#[test]
fn a_line_with_four_fields_ends_the_run_with_its_number() {
    let lines = strings(&["0102", "0304", "a │ 05 │ b │ c", "0708", "zz"]);
    assert_eq!(reverse_lines(&lines), Err(DumpError::UnrecognizedLineFormat { line: 3 }));
}

#[test]
fn the_first_bad_line_is_the_one_reported() {
    let lines = strings(&["0102", "0g", "a│b│c│d"]);
    assert_eq!(
        reverse_lines(&lines),
        Err(DumpError::InvalidHex { text: "0g".to_string(), line: 2 })
    );
}

#[test]
fn a_run_takes_its_lines_one_by_one() {
    let mut run = Reverse::new();
    assert_eq!(run.lines, 0);
    assert_eq!(run.feed(" 0x0 │ 01 02 │ ▴▴"), Ok(()));
    assert_eq!(run.feed("03"), Ok(()));
    assert_eq!((run.bytes.clone(), run.lines), (vec![1, 2, 3], 2));
    assert_eq!(
        run.feed("0"),
        Err(DumpError::InvalidHex { text: "0".to_string(), line: 3 })
    );
    assert_eq!((run.bytes.clone(), run.lines), (vec![1, 2, 3], 2));
    assert_eq!(run.feed("a│b│c│d"), Err(DumpError::UnrecognizedLineFormat { line: 3 }));
    assert_eq!(run.feed("04"), Ok(()));
    assert_eq!(run.lines, 3);
    assert_eq!(run.finish(), vec![1, 2, 3, 4]);
}
