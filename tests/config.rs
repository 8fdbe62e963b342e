use ccwc::file_processing::{FileProcessingConfig, Metric, ProcessingError};

fn args(items: &[&str]) -> Vec<String> {
    items.iter().map(|s| s.to_string()).collect()
}

fn config(items: &[&str]) -> FileProcessingConfig {
    match FileProcessingConfig::new(args(items)) {
        Ok(c) => c,
        Err(e) => panic!("unexpected error {:?}", e),
    }
}

#[test]
fn program_name_alone_is_invalid_input() {
    assert!(matches!(
        FileProcessingConfig::new(args(&["ccwc"])),
        Err(ProcessingError::InvalidInput)
    ));
    assert!(matches!(
        FileProcessingConfig::new(Vec::new()),
        Err(ProcessingError::InvalidInput)
    ));
}

#[test]
fn one_argument_uses_default_flags() {
    let c = config(&["ccwc", "notes.txt"]);
    assert_eq!(c.flags, vec!['c', 'l', 'w']);
    assert_eq!(c.query, "notes.txt");
    assert_eq!(c.filename, "notes.txt");
}

#[test]
fn dashes_are_filtered_from_the_bundle() {
    assert_eq!(config(&["ccwc", "-c-l", "f"]).flags, vec!['c', 'l']);
    assert_eq!(config(&["ccwc", "c-l", "f"]).flags, vec!['c', 'l']);
    assert_eq!(config(&["ccwc", "--", "f"]).flags, Vec::<char>::new());
}

#[test]
fn extra_arguments_are_ignored() {
    let c = config(&["ccwc", "-w", "a.txt", "b.txt"]);
    assert_eq!(c.flags, vec!['w']);
    assert_eq!(c.query, "a.txt");
    assert_eq!(c.filename, "a.txt");
}

#[test]
fn flags_map_to_metrics() {
    assert_eq!(Metric::from_flag('c'), Some(Metric::Bytes));
    assert_eq!(Metric::from_flag('l'), Some(Metric::Lines));
    assert_eq!(Metric::from_flag('w'), Some(Metric::Words));
    assert_eq!(Metric::from_flag('m'), Some(Metric::Characters));
    assert_eq!(Metric::from_flag('x'), None);
    assert_eq!(Metric::Characters.name(), "characters");
    let c = config(&["ccwc", "-mxc-w", "f"]);
    assert_eq!(
        c.requested_metrics(),
        vec![Metric::Characters, Metric::Bytes, Metric::Words]
    );
}

#[test]
fn formatter_writes_one_line() {
    let c = config(&["ccwc", "data.txt"]);
    assert_eq!(c.formatter("bytes", 1234567), "bytes 1234567 in data.txt \n");
    assert_eq!(c.formatter("lines", 0), "lines 0 in data.txt \n");
    assert_eq!(c.formatter("words", 10), "words 10 in data.txt \n");
}

#[test]
fn report_of_all_metrics_on_two_lines() {
    let c = config(&["ccwc", "-clwm", "t.txt"]);
    let out = c.run(b"hello world\nfoo\n").unwrap();
    assert_eq!(
        out,
        "bytes 16 in t.txt \nlines 2 in t.txt \nwords 3 in t.txt \ncharacters 14 in t.txt \n"
    );
}

#[test]
fn report_on_empty_content_shows_zeros() {
    let c = config(&["ccwc", "-clwm", "empty.txt"]);
    let out = c.run(b"").unwrap();
    assert_eq!(
        out,
        "bytes 0 in empty.txt \nlines 0 in empty.txt \nwords 0 in empty.txt \ncharacters 0 in empty.txt \n"
    );
}

#[test]
fn report_follows_bundle_order_and_skips_unknown() {
    let c = config(&["ccwc", "wz-q-c", "f"]);
    let out = c.run(b"a b\n").unwrap();
    assert_eq!(out, "words 2 in f \nbytes 4 in f \n");
    let c = config(&["ccwc", "ccx", "f"]);
    assert_eq!(c.run(b"a b\n").unwrap(), "bytes 4 in f \nbytes 4 in f \n");
}

#[test]
fn default_report_is_bytes_lines_words() {
    let c = config(&["ccwc", "t.txt"]);
    let out = c.run(b"hello world\nfoo\n").unwrap();
    assert_eq!(out, "bytes 16 in t.txt \nlines 2 in t.txt \nwords 3 in t.txt \n");
}

#[test]
fn unknown_flags_alone_give_empty_report() {
    let c = config(&["ccwc", "-xyz", "f"]);
    assert_eq!(c.run(b"abc").unwrap(), "");
}

#[test]
fn invalid_utf8_fails_words_and_characters() {
    let content: &[u8] = &[0x61, 0xff, 0x0a];
    let c = config(&["ccwc", "-cw", "f"]);
    assert_eq!(c.run(content), Err(ProcessingError::InvalidData));
    let c = config(&["ccwc", "-cl", "f"]);
    assert_eq!(c.run(content).unwrap(), "bytes 3 in f \nlines 1 in f \n");
    assert_eq!(c.get_char_count(content), Err(ProcessingError::InvalidData));
    assert_eq!(c.get_word_count(content), Err(ProcessingError::InvalidData));
    assert_eq!(
        c.metric_report(Metric::Lines, content).unwrap(),
        "lines 1 in f \n"
    );
}

#[test]
fn single_metric_lines() {
    let c = config(&["ccwc", "r.txt"]);
    let content = b"one two\r\nthree";
    assert_eq!(c.get_byte_size(content), "bytes 14 in r.txt \n");
    assert_eq!(c.get_lines_count(content), "lines 2 in r.txt \n");
    assert_eq!(c.get_word_count(content).unwrap(), "words 3 in r.txt \n");
    assert_eq!(c.get_char_count(content).unwrap(), "characters 12 in r.txt \n");
}
