use hexdump::all_zero;
use hexdump::engine::{dump_bytes, Dumper};
use hexdump::line::{build_line, offset_hex};
use hexdump::render::{word_as_ascii, word_as_hex};

#[test]
fn all_zero_reports_zero_buffers() {
    assert!(all_zero(&[0u8; 16]));
    assert!(all_zero(&[]));
    assert!(!all_zero(&[0, 0, 1, 0]));
}

#[test]
fn hex_of_bytes_lowercase_padded() {
    assert_eq!(word_as_hex(&[0xde, 0xad, 0xbe, 0xef]), "deadbeef");
    assert_eq!(word_as_hex(&[0x05]), "05");
    assert_eq!(word_as_hex(&[]), "");
    assert_eq!(word_as_hex(&[0x00, 0xff]), "00ff");
}

#[test]
fn ascii_of_bytes_printable_or_dot() {
    assert_eq!(word_as_ascii(&[0x41, 0x00, 0x7f, 0x20, 0x7e]), "A.. ~");
    assert_eq!(word_as_ascii(&[0x1f]), ".");
    assert_eq!(word_as_ascii(&[]), "");
}

#[test]
fn offset_rendering_eight_digits() {
    assert_eq!(offset_hex(0), "00000000");
    assert_eq!(offset_hex(0x10), "00000010");
    assert_eq!(offset_hex(0xdeadbeef), "deadbeef");
    assert_eq!(offset_hex(0x1_0000_0000), "100000000");
}

#[test]
fn build_line_groups_and_offset() {
    let buf: [u8; 16] = [0, 1, 2, 3, 4, 5, 6, 7, 8, 9, 10, 11, 12, 13, 14, 15];
    let line = build_line(16, &buf, 16, 2, 40);
    assert_eq!(line.hex, "0001 0203 0405 0607 0809 0a0b 0c0d 0e0f ");
    assert_eq!(line.ascii, "................");
    assert_eq!(line.start_offset, 0);
    assert_eq!(line.hex_length, 40);
    assert_eq!(
        line.render(),
        "00000000  0001 0203 0405 0607 0809 0a0b 0c0d 0e0f  |................|"
    );
}

#[test]
fn build_line_partial_final_word() {
    let buf: [u8; 16] = [0xab; 16];
    let line = build_line(3, &buf, 3, 2, 40);
    assert_eq!(line.hex, "abab ab ");
    assert_eq!(line.ascii, "...");
    assert_eq!(line.start_offset, 0);
}

#[test]
fn dumper_hex_length_follows_word_size() {
    let d1 = Dumper::new(1, 0, true, 0);
    assert_eq!(d1.hex_length, 48);
    let d2 = Dumper::new(2, 0, true, 0);
    assert_eq!(d2.hex_length, 40);
}

#[test]
fn single_line_word_size_two() {
    let mut d = Dumper::new(2, 0, true, 0);
    let buf: [u8; 16] = [0, 1, 2, 3, 4, 5, 6, 7, 8, 9, 10, 11, 12, 13, 14, 15];
    let (lines, stop) = d.feed(&buf, 16);
    assert_eq!(
        lines,
        vec!["00000000  0001 0203 0405 0607 0809 0a0b 0c0d 0e0f  |................|"]
    );
    assert!(!stop);
    let (end_lines, end_stop) = d.feed(&buf, 0);
    assert_eq!(end_lines, Vec::<String>::new());
    assert!(end_stop);
}

#[test]
fn zero_run_collapsed_to_one_marker() {
    let mut d = Dumper::new(1, 0, true, 0);
    let zeros = [0u8; 16];
    let letters = [0x41u8; 16];
    let mut out: Vec<String> = Vec::new();
    let (l1, _) = d.feed(&zeros, 16);
    out.extend(l1);
    let (l2, _) = d.feed(&zeros, 16);
    out.extend(l2);
    let (l3, _) = d.feed(&zeros, 16);
    out.extend(l3);
    let (l4, _) = d.feed(&letters, 16);
    out.extend(l4);
    assert_eq!(
        out,
        vec![
            "00000000  00 00 00 00 00 00 00 00 00 00 00 00 00 00 00 00  |................|",
            "*",
            "00000030  41 41 41 41 41 41 41 41 41 41 41 41 41 41 41 41  |AAAAAAAAAAAAAAAA|",
        ]
    );
}

#[test]
fn zero_rows_kept_when_suppression_disabled() {
    let mut d = Dumper::new(1, 0, false, 0);
    let zeros = [0u8; 16];
    let (l1, _) = d.feed(&zeros, 16);
    let (l2, _) = d.feed(&zeros, 16);
    assert_eq!(l1.len(), 1);
    assert_eq!(l2.len(), 1);
    assert!(l2[0].starts_with("00000010"));
}

#[test]
fn partial_zero_window_never_suppressed() {
    let mut d = Dumper::new(1, 0, true, 0);
    let zeros = [0u8; 16];
    let (l1, _) = d.feed(&zeros, 16);
    assert_eq!(l1.len(), 1);
    let (l2, stop) = d.feed(&zeros, 4);
    assert_eq!(
        l2,
        vec!["00000010  00 00 00 00                                      |....|"]
    );
    assert!(!stop);
}

#[test]
fn pending_run_flushed_at_end_of_stream() {
    let mut d = Dumper::new(1, 0, true, 0);
    let zeros = [0u8; 16];
    let (_, _) = d.feed(&zeros, 16);
    let (l2, _) = d.feed(&zeros, 16);
    assert_eq!(l2, Vec::<String>::new());
    let (l3, stop) = d.feed(&zeros, 0);
    assert_eq!(l3, vec!["*"]);
    assert!(stop);
}

#[test]
fn zero_window_on_the_limit_is_rendered() {
    let mut d = Dumper::new(1, 32, true, 0);
    let zeros = [0u8; 16];
    let (l1, _) = d.feed(&zeros, 16);
    assert_eq!(l1.len(), 1);
    let (l2, stop) = d.feed(&zeros, 16);
    assert_eq!(
        l2,
        vec![
            "00000010  00 00 00 00 00 00 00 00 00 00 00 00 00 00 00 00  |................|",
            "**",
        ]
    );
    assert!(stop);
}

#[test]
fn pending_run_closed_at_the_limit() {
    let mut d = Dumper::new(1, 48, true, 0);
    let zeros = [0u8; 16];
    let (l1, _) = d.feed(&zeros, 16);
    assert_eq!(l1.len(), 1);
    let (l2, _) = d.feed(&zeros, 16);
    assert_eq!(l2, Vec::<String>::new());
    let (l3, stop) = d.feed(&zeros, 16);
    assert_eq!(
        l3,
        vec![
            "*",
            "00000020  00 00 00 00 00 00 00 00 00 00 00 00 00 00 00 00  |................|",
            "**",
        ]
    );
    assert!(stop);
}

#[test]
fn seeked_start_offset_labels_lines() {
    let mut d = Dumper::new(2, 0, true, 0x10);
    let letters = [0x41u8; 16];
    let (lines, stop) = d.feed(&letters, 16);
    assert_eq!(
        lines,
        vec!["00000010  4141 4141 4141 4141 4141 4141 4141 4141  |AAAAAAAAAAAAAAAA|"]
    );
    assert!(!stop);
}

#[test]
fn limit_truncates_and_marks_early_end() {
    let mut d = Dumper::new(1, 8, true, 0);
    let buf: [u8; 16] = [0, 1, 2, 3, 4, 5, 6, 7, 8, 9, 10, 11, 12, 13, 14, 15];
    let (lines, stop) = d.feed(&buf, 16);
    assert_eq!(
        lines,
        vec![
            "00000000  00 01 02 03 04 05 06 07                          |........|",
            "**",
        ]
    );
    assert!(stop);
}

#[test]
fn limit_measured_on_post_seek_offset() {
    let mut d = Dumper::new(1, 24, true, 16);
    let letters = [0x41u8; 16];
    let (lines, stop) = d.feed(&letters, 16);
    assert_eq!(
        lines,
        vec![
            "00000010  41 41 41 41 41 41 41 41                          |AAAAAAAA|",
            "**",
        ]
    );
    assert!(stop);
}

#[test]
fn empty_input_emits_nothing() {
    let mut d = Dumper::new(2, 0, true, 0);
    let buf = [0u8; 16];
    let (lines, stop) = d.feed(&buf, 0);
    assert_eq!(lines, Vec::<String>::new());
    assert!(stop);
}

#[test]
fn same_stream_same_output_twice() {
    let windows: Vec<([u8; 16], usize)> = vec![
        ([0u8; 16], 16),
        ([0u8; 16], 16),
        ([0x42u8; 16], 16),
        ([0x42u8; 16], 5),
        ([0u8; 16], 0),
    ];
    let mut runs: Vec<Vec<String>> = Vec::new();
    for _ in 0..2 {
        let mut d = Dumper::new(2, 0, true, 0);
        let mut out: Vec<String> = Vec::new();
        for (buf, n) in &windows {
            let (lines, stop) = d.feed(buf, *n);
            out.extend(lines);
            if stop {
                break;
            }
        }
        runs.push(out);
    }
    assert_eq!(runs[0], runs[1]);
}

#[test]
fn offsets_advance_by_bytes_consumed() {
    let mut d = Dumper::new(1, 0, true, 0);
    let a = [0x61u8; 16];
    let (l1, _) = d.feed(&a, 16);
    let (l2, _) = d.feed(&a, 16);
    let (l3, _) = d.feed(&a, 7);
    assert!(l1[0].starts_with("00000000  "));
    assert!(l2[0].starts_with("00000010  "));
    assert!(l3[0].starts_with("00000020  "));
    assert_eq!(d.offset, 0x27);
}

#[test]
fn hex_and_ascii_agree_on_every_byte() {
    let mut bytes: Vec<u8> = Vec::new();
    for i in 0..=255u16 {
        bytes.push(i as u8);
    }
    let mut d = Dumper::new(1, 0, true, 0);
    let mut rebuilt: Vec<u8> = Vec::new();
    for chunk in bytes.chunks(16) {
        let mut buf = [0u8; 16];
        buf[..chunk.len()].copy_from_slice(chunk);
        let (lines, _) = d.feed(&buf, chunk.len());
        for line in lines {
            let hex_field = &line[10..58];
            for group in hex_field.trim_end().split(' ') {
                rebuilt.push(u8::from_str_radix(group, 16).unwrap());
            }
        }
    }
    assert_eq!(rebuilt, bytes);
}

#[test]
fn whole_stream_collapses_zero_runs() {
    let mut data: Vec<u8> = vec![0u8; 48];
    data.extend([0x41u8; 16]);
    let out = dump_bytes(&data, 1, 0, true, 0);
    assert_eq!(
        out,
        vec![
            "00000000  00 00 00 00 00 00 00 00 00 00 00 00 00 00 00 00  |................|",
            "*",
            "00000030  41 41 41 41 41 41 41 41 41 41 41 41 41 41 41 41  |AAAAAAAAAAAAAAAA|",
        ]
    );
}

#[test]
fn whole_stream_twice_is_identical() {
    let mut data: Vec<u8> = Vec::new();
    for i in 0..200u16 {
        data.push(if i % 48 < 32 { 0 } else { (i % 96) as u8 });
    }
    let first = dump_bytes(&data, 2, 0, true, 0);
    let second = dump_bytes(&data, 2, 0, true, 0);
    assert_eq!(first, second);
}

#[test]
fn whole_stream_empty_input_emits_nothing() {
    let out = dump_bytes(&[], 2, 0, true, 0);
    assert!(out.is_empty());
}

#[test]
fn whole_stream_limit_stops_reading() {
    let data = [0x41u8; 32];
    let out = dump_bytes(&data, 1, 8, true, 0);
    assert_eq!(
        out,
        vec![
            "00000000  41 41 41 41 41 41 41 41                          |AAAAAAAA|",
            "**",
        ]
    );
}

#[test]
fn whole_stream_trailing_partial_row() {
    let data = [0x61u8; 20];
    let out = dump_bytes(&data, 2, 0, true, 0);
    assert_eq!(
        out,
        vec![
            "00000000  6161 6161 6161 6161 6161 6161 6161 6161  |aaaaaaaaaaaaaaaa|",
            "00000010  6161 6161                                |aaaa|",
        ]
    );
}
