use dolly::jsonl::record_line_spans;

fn records(s: &str) -> Vec<String> {
    let chars: Vec<char> = s.chars().collect();
    record_line_spans(&chars).into_iter().map(|(a, b)| chars[a..b].iter().collect()).collect()
}

#[test]
fn blank_lines_are_skipped_and_others_framed() {
    let s = "{\"type\":\"key_press\",\"t\":1.0}\ngarbage\n\n{\"type\":\"mouse_move\",\"t\":2.0,\"x\":1.0,\"y\":2.0}\n";
    assert_eq!(
        records(s),
        vec![
            "{\"type\":\"key_press\",\"t\":1.0}".to_string(),
            "garbage".to_string(),
            "{\"type\":\"mouse_move\",\"t\":2.0,\"x\":1.0,\"y\":2.0}".to_string(),
        ]
    );
}

#[test]
fn framing_matches_str_lines_filtered_by_trim() {
    let samples = [
        "",
        "\n",
        "a",
        "a\n",
        "a\r\nb\r\n",
        "a\r",
        " \t \n\u{3000}\u{a0}\nx y \n  \r\n\r\n",
        "torn {\"type\":\"mo",
        "one\n\ntwo\n \nthree",
        "\r\r\n\u{2028}\nz",
    ];
    for s in samples {
        let expected: Vec<String> = s.lines().filter(|l| !l.trim().is_empty()).map(|l| l.to_string()).collect();
        assert_eq!(records(s), expected, "input {s:?}");
    }
}

#[test]
fn torn_tail_leaves_earlier_records_alone() {
    let complete = "{\"type\":\"key_press\",\"t\":1.0}\n{\"type\":\"key_press\",\"t\":2.0}\n";
    let torn = format!("{complete}{{\"type\":\"key_pr");
    let before = records(complete);
    let after = records(&torn);
    assert_eq!(after.len(), before.len() + 1);
    assert_eq!(&after[..before.len()], &before[..]);
}

#[test]
fn written_records_read_back_one_per_line() {
    let written = [
        "{\"type\":\"mouse_move\",\"t\":0.0,\"x\":10.0,\"y\":20.0}",
        "{\"type\":\"mouse_down\",\"t\":5.5,\"x\":10.0,\"y\":20.0,\"button\":\"left\"}",
        "{\"type\":\"key_press\",\"t\":9.0}",
    ];
    let mut text = String::new();
    for r in written {
        text.push_str(r);
        text.push('\n');
    }
    assert_eq!(records(&text), written.iter().map(|r| r.to_string()).collect::<Vec<_>>());
}
