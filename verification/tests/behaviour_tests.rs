use logger::{FixedBuffer, Logger, OutputStream, SeverityLevel, MAXIMUM_MESSAGE_LENGTH};

const ALL_LEVELS: [SeverityLevel; 8] = [
    SeverityLevel::Emerg,
    SeverityLevel::Alert,
    SeverityLevel::Crit,
    SeverityLevel::Error,
    SeverityLevel::Warning,
    SeverityLevel::Notice,
    SeverityLevel::Info,
    SeverityLevel::Debug,
];

#[test]
fn tags_and_values_of_every_level() {
    let tags = [
        "[EMERGENCY]",
        "[ALERT]",
        "[CRITICAL]",
        "[ERROR]",
        "[WARNING]",
        "[NOTICE]",
        "[INFO]",
        "[DEBUG]",
    ];
    for (i, level) in ALL_LEVELS.iter().enumerate() {
        assert_eq!(level.as_tag(), tags[i]);
        assert_eq!(level.as_u8() as usize, i);
    }
}

#[test]
fn logger_keeps_exactly_the_levels_at_least_as_severe_as_its_minimum() {
    for (m, minimal) in ALL_LEVELS.iter().enumerate() {
        let logger = Logger::new(*minimal);
        for (l, level) in ALL_LEVELS.iter().enumerate() {
            let enabled = logger.is_enabled(*level);
            assert_eq!(enabled, l <= m);
            assert_eq!(logger.log(*level, "message").is_some(), enabled);
        }
    }
}

#[test]
fn warning_and_more_severe_go_to_stderr_the_others_to_stdout() {
    let logger = Logger::new(SeverityLevel::Debug);
    for (l, level) in ALL_LEVELS.iter().enumerate() {
        let line = logger.log(*level, "x").unwrap();
        let expected = if l <= 4 { OutputStream::Stderr } else { OutputStream::Stdout };
        assert_eq!(line.stream, expected);
    }
}

#[test]
fn line_holds_tag_separator_message_and_newline() {
    let logger = Logger::new(SeverityLevel::Debug);
    let line = logger.info("hi").unwrap();
    assert_eq!(line.bytes, b"[INFO]: hi\n".to_vec());
    let line = logger.warning("disk full").unwrap();
    assert_eq!(line.bytes, b"[WARNING]: disk full\n".to_vec());
    assert_eq!(line.stream, OutputStream::Stderr);
}

#[test]
fn empty_message_gives_tag_separator_and_newline() {
    let logger = Logger::new(SeverityLevel::Debug);
    let line = logger.debug("").unwrap();
    assert_eq!(line.bytes, b"[DEBUG]: \n".to_vec());
}

#[test]
fn message_at_the_budget_is_kept_whole() {
    let logger = Logger::new(SeverityLevel::Debug);
    // 1024 - ("[EMERGENCY]" 11 + ": " 2 + suffix 16 + newline 1) = 994.
    let message = "B".repeat(994);
    let line = logger.emergency(&message).unwrap();
    assert_eq!(line.bytes.len(), 11 + 994 + 3);
    let mut expected = b"[EMERGENCY]: ".to_vec();
    expected.extend_from_slice(message.as_bytes());
    expected.push(b'\n');
    assert_eq!(line.bytes, expected);
}

#[test]
fn message_one_byte_over_the_budget_is_truncated_to_the_maximum_line() {
    let logger = Logger::new(SeverityLevel::Debug);
    let message = "B".repeat(995);
    let line = logger.emergency(&message).unwrap();
    assert_eq!(line.bytes.len(), MAXIMUM_MESSAGE_LENGTH);
    let mut expected = b"[EMERGENCY]: ".to_vec();
    expected.extend_from_slice("B".repeat(994).as_bytes());
    expected.extend_from_slice(b"... [TRUNCATED].\n");
    assert_eq!(line.bytes, expected);
}

#[test]
fn truncated_line_of_a_short_tag_also_fills_the_maximum() {
    let logger = Logger::new(SeverityLevel::Debug);
    let line = logger.info(&"A".repeat(5000)).unwrap();
    // "[INFO]" takes 6 bytes, so 1024 - 25 = 999 bytes of message remain.
    assert_eq!(line.bytes.len(), MAXIMUM_MESSAGE_LENGTH);
    assert!(line.bytes.ends_with(b"A... [TRUNCATED].\n"));
    assert!(line.bytes.starts_with(b"[INFO]: AAA"));
}

#[test]
fn truncation_never_splits_a_multibyte_character_in_a_log_line() {
    let logger = Logger::new(SeverityLevel::Debug);
    // 4-byte characters: 1000 of them take 4000 bytes.
    let message = "\u{1F980}".repeat(1000);
    let line = logger.notice(&message).unwrap();
    // "[NOTICE]" takes 8 bytes: budget 1024 - 27 = 997, the last boundary is 996.
    assert_eq!(line.bytes.len(), 8 + 2 + 996 + 16 + 1);
    let text = String::from_utf8(line.bytes).unwrap();
    assert_eq!(text, format!("[NOTICE]: {}... [TRUNCATED].\n", "\u{1F980}".repeat(249)));
}

#[test]
fn truncate_keeps_a_message_that_fits() {
    let (kept, truncated) = Logger::truncate_log_utf8("hello", 5);
    assert_eq!(kept, "hello");
    assert!(!truncated);
    let (kept, truncated) = Logger::truncate_log_utf8("", 0);
    assert_eq!(kept, "");
    assert!(!truncated);
}

#[test]
fn truncate_cuts_ascii_exactly_at_the_maximum() {
    let (kept, truncated) = Logger::truncate_log_utf8("hello", 3);
    assert_eq!(kept, "hel");
    assert!(truncated);
}

#[test]
fn truncate_falls_back_to_an_empty_prefix_inside_the_first_character() {
    let (kept, truncated) = Logger::truncate_log_utf8("\u{e9}t\u{e9}", 1);
    assert_eq!(kept, "");
    assert!(truncated);
    let (kept, truncated) = Logger::truncate_log_utf8("\u{e9}t\u{e9}", 4);
    assert_eq!(kept, "\u{e9}t");
    assert!(truncated);
    let (kept, truncated) = Logger::truncate_log_utf8("ab", 0);
    assert_eq!(kept, "");
    assert!(truncated);
}

#[test]
fn write_and_count_appends_the_line_and_counts_it() {
    let mut writer = b"previous".to_vec();
    let written = Logger::write_and_count(&mut writer, "[ALERT]", "msg", false);
    assert_eq!(written, 7 + 2 + 3 + 1);
    assert_eq!(writer, b"previous[ALERT]: msg\n".to_vec());

    let mut writer = Vec::new();
    let written = Logger::write_and_count(&mut writer, "[ALERT]", "msg", true);
    assert_eq!(written, 7 + 2 + 3 + 16 + 1);
    assert_eq!(writer, b"[ALERT]: msg... [TRUNCATED].\n".to_vec());
}

#[test]
fn fixed_buffer_keeps_the_first_bytes_that_fit() {
    let mut buffer = FixedBuffer::<8>::new();
    assert_eq!(buffer.as_str(), "");
    assert!(buffer.write_str("Hello").is_ok());
    assert_eq!(buffer.as_str(), "Hello");
    assert!(buffer.write_str(", world").is_ok());
    assert_eq!(buffer.as_str(), "Hello, w");
    assert!(buffer.write_str("more").is_ok());
    assert_eq!(buffer.as_str(), "Hello, w");
}

#[test]
fn fixed_buffer_with_a_cut_character_reads_as_empty() {
    let mut buffer = FixedBuffer::<3>::new();
    assert!(buffer.write_str("a\u{e9}\u{e9}").is_ok());
    // "a" and the full "\u{e9}" fit; the second one does not.
    assert_eq!(buffer.as_str(), "a\u{e9}");

    let mut buffer = FixedBuffer::<2>::new();
    assert!(buffer.write_str("a\u{e9}").is_ok());
    // Only the first byte of "\u{e9}" fits: not valid UTF-8.
    assert_eq!(buffer.as_str(), "");
}

#[test]
fn log_args_writes_the_pieces_one_after_the_other() {
    let logger = Logger::new(SeverityLevel::Debug);
    let line = logger
        .log_args(SeverityLevel::Warning, &["Value: ", "calculated", "!"])
        .unwrap();
    assert_eq!(line.bytes, b"[WARNING]: Value: calculated!\n".to_vec());
    assert_eq!(line.stream, OutputStream::Stderr);
}

#[test]
fn log_args_with_one_piece_logs_as_log_does() {
    let logger = Logger::new(SeverityLevel::Debug);
    let via_pieces = logger.log_args(SeverityLevel::Info, &["same text"]).unwrap();
    let direct = logger.log(SeverityLevel::Info, "same text").unwrap();
    assert_eq!(via_pieces.bytes, direct.bytes);
    assert_eq!(via_pieces.stream, direct.stream);
}

#[test]
fn log_args_drops_a_message_whose_buffer_ends_inside_a_character() {
    let logger = Logger::new(SeverityLevel::Debug);
    let long = "A".repeat(MAXIMUM_MESSAGE_LENGTH - 1);
    let line = logger.log_args(SeverityLevel::Info, &[&long, "\u{e9}"]).unwrap();
    assert_eq!(line.bytes, b"[INFO]: \n".to_vec());
}

#[test]
fn log_args_of_a_filtered_level_gives_nothing() {
    let logger = Logger::new(SeverityLevel::Error);
    assert!(logger.log_args(SeverityLevel::Warning, &["x"]).is_none());
    assert!(logger.log_args(SeverityLevel::Error, &["x"]).is_some());
}

#[test]
fn fixed_buffer_two_writes_equal_one_joined_write() {
    let mut twice = FixedBuffer::<6>::new();
    assert!(twice.write_str("abcd").is_ok());
    assert!(twice.write_str("efgh").is_ok());
    let mut once = FixedBuffer::<6>::new();
    assert!(once.write_str("abcdefgh").is_ok());
    assert_eq!(twice.as_str(), once.as_str());
    assert_eq!(once.as_str(), "abcdef");
}
