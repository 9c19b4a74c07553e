use hex_thing::{dump, resolve_range, ByteRange, DumpConfig, DumpError, Forward, Window};

fn plain(bytes_per_line: usize) -> DumpConfig {
    DumpConfig { bytes_per_line, uppercase: false, use_color: false }
}

const WHOLE: Window = Window { start: 0, max_count: None };

#[test]
fn range_from_an_explicit_range() {
    let range = ByteRange::from_str("0x10-0x20").unwrap();
    assert_eq!(
        resolve_range(Some(range), None, None),
        Ok(Window { start: 16, max_count: Some(16) })
    );
}

#[test]
fn range_from_skip_and_length() {
    assert_eq!(
        resolve_range(None, Some(5), Some(10)),
        Ok(Window { start: 5, max_count: Some(10) })
    );
    assert_eq!(resolve_range(None, Some(5), None), Ok(Window { start: 5, max_count: None }));
    assert_eq!(resolve_range(None, None, Some(10)), Ok(Window { start: 0, max_count: Some(10) }));
}

#[test]
fn range_defaults_to_the_whole_input() {
    assert_eq!(resolve_range(None, None, None), Ok(Window { start: 0, max_count: None }));
}

#[test]
fn an_explicit_range_decides_alone() {
    let range = ByteRange { start: 3, end: 7 };
    assert_eq!(
        resolve_range(Some(range), Some(100), Some(200)),
        Ok(Window { start: 3, max_count: Some(4) })
    );
}

#[test]
fn an_inverted_range_is_refused() {
    let range = ByteRange { start: 8, end: 7 };
    assert_eq!(resolve_range(Some(range), None, None), Err(DumpError::InvalidRange));
    let empty = ByteRange { start: 8, end: 8 };
    assert_eq!(resolve_range(Some(empty), None, None), Ok(Window { start: 8, max_count: Some(0) }));
}

#[test]
fn three_bytes_give_one_padded_line() {
    let lines = dump(&[0x41, 0x42, 0x0a], WHOLE, plain(16));
    let expected = format!(" 0x0 │ 41 42 0a{} │ AB␊\n", " ".repeat(13 * 3));
    assert_eq!(lines, vec![expected]);
}

#[test]
fn an_empty_input_gives_no_line() {
    assert_eq!(dump(&[], WHOLE, plain(16)), Vec::<String>::new());
}

#[test]
fn no_bytes_to_a_line_gives_no_line() {
    assert_eq!(dump(&[1, 2, 3], WHOLE, plain(0)), Vec::<String>::new());
}

#[test]
fn lines_carry_the_address_of_their_first_byte() {
    let data: Vec<u8> = (0..40u8).collect();
    let lines = dump(&data, WHOLE, plain(16));
    assert_eq!(lines.len(), 3);
    assert!(lines[0].starts_with(" 0x00 │ 00 01 02 "));
    assert!(lines[1].starts_with(" 0x10 │ 10 11 12 "));
    assert!(lines[2].starts_with(" 0x20 │ 20 21 22 23 24 25 26 27    "));
    assert!(lines[2].ends_with(" │ ␣!\"#$%&'\n"));
}

#[test]
fn address_width_comes_from_the_whole_input() {
    let data = vec![0u8; 300];
    let window = Window { start: 0x20, max_count: Some(2) };
    assert_eq!(dump(&data, window, plain(2)), vec![" 0x020 │ 00 00 │ ••\n".to_string()]);
}

#[test]
fn a_window_selects_its_bytes() {
    let data: Vec<u8> = (0..=255u8).collect();
    let window = Window { start: 16, max_count: Some(16) };
    let lines = dump(&data, window, plain(8));
    assert_eq!(
        lines,
        vec![
            " 0x10 │ 10 11 12 13 14 15 16 17 │ ▴▴▴▴▴▴▴▴\n".to_string(),
            " 0x18 │ 18 19 1a 1b 1c 1d 1e 1f │ ▴▴▴▴▴▴▴▴\n".to_string(),
        ]
    );
}

#[test]
fn a_window_is_cut_at_its_count() {
    let data: Vec<u8> = (0..=255u8).collect();
    let window = Window { start: 5, max_count: Some(10) };
    let lines = dump(&data, window, plain(4));
    assert_eq!(
        lines,
        vec![
            " 0x05 │ 05 06 07 08 │ ▴▴▴▴\n".to_string(),
            " 0x09 │ 09 0a 0b 0c │ ⇥␊▴▴\n".to_string(),
            " 0x0d │ 0d 0e       │ ␍▴\n".to_string(),
        ]
    );
}

#[test]
fn a_window_ends_with_the_input() {
    let data: Vec<u8> = (0..10u8).collect();
    let window = Window { start: 8, max_count: Some(100) };
    assert_eq!(dump(&data, window, plain(4)), vec![" 0x8 │ 08 09       │ ▴⇥\n".to_string()]);
    let beyond = Window { start: 50, max_count: None };
    assert_eq!(dump(&data, beyond, plain(4)), Vec::<String>::new());
    let nothing = Window { start: 2, max_count: Some(0) };
    assert_eq!(dump(&data, nothing, plain(4)), Vec::<String>::new());
    let far = Window { start: usize::MAX, max_count: Some(usize::MAX) };
    assert_eq!(dump(&data, far, plain(4)), Vec::<String>::new());
}

#[test]
fn a_run_starts_at_the_window() {
    let state = Forward::new(plain(16), 4096, Window { start: 7, max_count: Some(3) });
    assert_eq!(state.address, 7);
    assert_eq!(state.start, 7);
    assert_eq!(state.total, 0);
    assert_eq!(state.width, 3);
    assert_eq!(state.max_count, Some(3));
    assert!(!state.done);
}

#[test]
fn steps_emit_lines_until_the_input_ends() {
    let mut state = Forward::new(plain(4), 6, WHOLE);
    assert_eq!(state.step(&[1, 2, 3, 4]), Some(" 0x0 │ 01 02 03 04 │ ▴▴▴▴\n".to_string()));
    assert_eq!((state.address, state.total, state.done), (4, 4, false));
    assert_eq!(state.step(&[5, 6]), Some(" 0x4 │ 05 06       │ ▴▴\n".to_string()));
    assert_eq!((state.address, state.total, state.done), (6, 6, false));
    assert_eq!(state.step(&[]), None);
    assert_eq!((state.address, state.total, state.done), (6, 6, true));
    assert_eq!(state.step(&[7]), None);
    assert_eq!((state.address, state.total, state.done), (6, 6, true));
}

#[test]
fn steps_cut_the_chunk_that_passes_the_count() {
    let mut state = Forward::new(plain(4), 100, Window { start: 10, max_count: Some(6) });
    assert_eq!(state.step(&[1, 2, 3, 4]), Some(" 0x0a │ 01 02 03 04 │ ▴▴▴▴\n".to_string()));
    assert_eq!(state.step(&[5, 6, 7, 8]), Some(" 0x0e │ 05 06       │ ▴▴\n".to_string()));
    assert_eq!((state.address, state.total, state.done), (16, 6, false));
    assert_eq!(state.step(&[9, 10, 11, 12]), None);
    assert_eq!((state.address, state.total, state.done), (16, 6, true));
}

#[test]
fn steps_stop_when_the_count_is_reached_exactly() {
    let mut state = Forward::new(plain(4), 100, Window { start: 0, max_count: Some(4) });
    assert!(state.step(&[1, 2, 3, 4]).is_some());
    assert!(!state.done);
    assert_eq!(state.step(&[5, 6, 7, 8]), None);
    assert!(state.done);
}

#[test]
fn steps_take_short_chunks_in_the_middle() {
    let mut state = Forward::new(plain(4), 20, WHOLE);
    assert_eq!(state.step(&[1]), Some(" 0x00 │ 01          │ ▴\n".to_string()));
    assert_eq!(state.step(&[2, 3, 4, 5]), Some(" 0x01 │ 02 03 04 05 │ ▴▴▴▴\n".to_string()));
    assert_eq!(state.address, 5);
}

#[test]
fn steps_and_dump_agree() {
    let data: Vec<u8> = (0..100u8).map(|i| i.wrapping_mul(37)).collect();
    for bytes_per_line in [1usize, 3, 16, 100, 200] {
        let window = Window { start: 3, max_count: Some(50) };
        let config = plain(bytes_per_line);
        let mut state = Forward::new(config, data.len() as u64, window);
        let mut lines = Vec::new();
        let mut pos = window.start;
        loop {
            let end = (pos + bytes_per_line).min(data.len());
            let before = state.total;
            match state.step(&data[pos..end]) {
                Some(line) => lines.push(line),
                None => break,
            }
            pos += state.total - before;
        }
        assert_eq!(lines, dump(&data, window, config));
        assert_eq!(lines.len(), (50 + bytes_per_line - 1) / bytes_per_line);
    }
}
