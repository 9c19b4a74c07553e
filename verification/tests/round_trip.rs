use hex_thing::{dump, reverse_lines, DumpConfig, Forward, Reverse, Window};

const WHOLE: Window = Window { start: 0, max_count: None };

fn sample(len: usize) -> Vec<u8> {
    (0..len).map(|i| (i * 131 + 7) as u8).collect()
}

fn as_read(lines: &[String]) -> Vec<String> {
    lines.iter().map(|line| line.strip_suffix('\n').unwrap().to_string()).collect()
}

#[test]
fn every_byte_value_survives_the_round_trip() {
    let data: Vec<u8> = (0..=255u8).collect();
    for uppercase in [false, true] {
        for bytes_per_line in [1usize, 2, 7, 16, 255, 256, 1000] {
            let config = DumpConfig { bytes_per_line, uppercase, use_color: false };
            let lines = dump(&data, WHOLE, config);
            assert_eq!(reverse_lines(&lines), Ok(data.clone()));
            assert_eq!(reverse_lines(&as_read(&lines)), Ok(data.clone()));
        }
    }
}

#[test]
fn inputs_of_every_small_length_survive_the_round_trip() {
    let config = DumpConfig { bytes_per_line: 16, uppercase: false, use_color: false };
    for len in 0..100usize {
        let data = sample(len);
        let lines = dump(&data, WHOLE, config);
        assert_eq!(lines.len(), (len + 15) / 16);
        assert_eq!(reverse_lines(&as_read(&lines)), Ok(data));
    }
}

#[test]
fn a_window_survives_the_round_trip() {
    let data = sample(500);
    let config = DumpConfig { bytes_per_line: 12, uppercase: true, use_color: false };
    let window = Window { start: 33, max_count: Some(100) };
    let lines = dump(&data, window, config);
    assert_eq!(reverse_lines(&lines), Ok(data[33..133].to_vec()));
}

#[test]
fn the_text_of_a_dump_survives_the_round_trip() {
    let data = sample(77);
    let config = DumpConfig { bytes_per_line: 16, uppercase: false, use_color: false };
    let text: String = dump(&data, WHOLE, config).concat();
    let lines: Vec<String> = text.lines().map(|line| line.to_string()).collect();
    assert_eq!(reverse_lines(&lines), Ok(data));
}

#[test]
fn steps_and_feeds_survive_the_round_trip() {
    let data = sample(40);
    let config = DumpConfig { bytes_per_line: 16, uppercase: false, use_color: false };
    let mut forward = Forward::new(config, data.len() as u64, WHOLE);
    let mut reverse = Reverse::new();
    for chunk in data.chunks(16) {
        let line = forward.step(chunk).unwrap();
        assert_eq!(reverse.feed(&line), Ok(()));
    }
    assert_eq!(forward.step(&[]), None);
    assert_eq!(reverse.lines, 3);
    assert_eq!(reverse.finish(), data);
}
