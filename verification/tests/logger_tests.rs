use discmon::logger::{ErrContent, LogContent, LogSink, Logger, Timestamp};

fn sample_time() -> Timestamp {
    Timestamp { year: 2024, month: 5, day: 6, hour: 7, minute: 8, second: 9, nanos: 123_456_789 }
}

#[test]
fn error_code_formats_the_timestamp() {
    let code = Logger::error_code(sample_time());
    assert_eq!(code.as_str(), "240506070809123456789");
}

#[test]
fn error_code_is_deterministic() {
    let a = Logger::error_code(sample_time());
    let b = Logger::error_code(sample_time());
    assert_eq!(a, b);
}

#[test]
fn error_codes_of_distinct_instants_differ() {
    let mut later = sample_time();
    later.nanos += 1;
    let a = Logger::error_code(sample_time());
    let b = Logger::error_code(later);
    assert_ne!(a, b);
}

#[test]
fn leap_second_codes_keep_all_their_digits() {
    let mut leap = sample_time();
    leap.nanos = 1_500_000_000;
    let code = Logger::error_code(leap);
    assert_eq!(code.as_str(), "2405060708091500000000");
}

#[test]
fn construction_creates_an_empty_session_file() {
    let mut sink = LogSink::new();
    let logger = Logger::new_at(sample_time(), false, false, &mut sink).unwrap();
    let path = logger.path().unwrap();
    assert_eq!(path.as_str(), "log/240506070809123456789.txt");
    assert_eq!(sink.file_text(path.as_str()).unwrap().as_str(), "");
    assert_eq!(sink.out_lines().len(), 0);
    assert_eq!(sink.err_lines().len(), 0);
}

#[test]
fn quiet_logger_prints_nothing() {
    let mut sink = LogSink::new();
    let logger = Logger::new_at(sample_time(), true, false, &mut sink).unwrap();
    logger.info("hello", &mut sink);
    logger.error(sample_time(), "boom", &mut sink);
    assert_eq!(sink.out_lines().len(), 0);
    assert_eq!(sink.err_lines().len(), 0);
}

#[test]
fn ephemeral_logger_writes_no_files() {
    let mut sink = LogSink::new();
    let logger = Logger::new_at(sample_time(), false, true, &mut sink).unwrap();
    logger.info("hello", &mut sink);
    let code = logger.error(sample_time(), "boom", &mut sink);
    assert_eq!(code.as_str(), "240506070809123456789");
    assert_eq!(sink.file_count(), 0);
    assert_eq!(sink.out_lines().len(), 1);
    assert_eq!(sink.err_lines().len(), 1);
}

#[test]
fn info_prints_and_appends_the_text() {
    let mut sink = LogSink::new();
    let logger = Logger::new(false, false, &mut sink).unwrap();
    logger.info("hello", &mut sink);
    assert_eq!(sink.out_lines().len(), 1);
    assert!(sink.out_lines()[0].contains("hello"));
    assert_eq!(sink.err_lines().len(), 0);
    let path = logger.path().unwrap();
    let session = sink.file_text(path.as_str()).unwrap();
    assert!(session.contains("hello"));
    assert!(session.ends_with(" hello\n"));
}

#[test]
fn error_writes_the_code_file() {
    let mut sink = LogSink::new();
    let logger = Logger::new_at(sample_time(), false, false, &mut sink).unwrap();
    let code = logger.error(sample_time(), "boom", &mut sink);
    assert_eq!(code.as_str(), "240506070809123456789");
    let err_file = sink.file_text("err/240506070809123456789.txt").unwrap();
    assert_eq!(err_file.as_str(), "boom");
    let session = sink.file_text("log/240506070809123456789.txt").unwrap();
    assert!(session.contains("[!]"));
    assert!(session.contains("boom"));
    assert_eq!(sink.err_lines().len(), 1);
    assert!(sink.err_lines()[0].contains("boom"));
    assert_eq!(sink.out_lines().len(), 0);
}

#[test]
fn error_long_stores_the_long_form() {
    let mut sink = LogSink::new();
    let logger = Logger::new_at(sample_time(), false, false, &mut sink).unwrap();
    let code = logger.error_long(sample_time(), "short text", "the full diagnostic", &mut sink);
    let err_file = sink.file_text(format!("err/{}.txt", code).as_str()).unwrap();
    assert_eq!(err_file.as_str(), "the full diagnostic");
    let session = sink.file_text("log/240506070809123456789.txt").unwrap();
    assert!(session.contains("short text"));
    assert!(!session.contains("diagnostic"));
}

#[test]
fn session_lines_accumulate_in_order() {
    let mut sink = LogSink::new();
    let logger = Logger::new_at(sample_time(), true, false, &mut sink).unwrap();
    logger.info("first", &mut sink);
    logger.info("second", &mut sink);
    let session = sink.file_text("log/240506070809123456789.txt").unwrap();
    assert_eq!(session.matches('\n').count(), 2);
    assert!(session.find("first").unwrap() < session.find("second").unwrap());
}

#[test]
fn info_trims_its_text() {
    let mut sink = LogSink::new();
    let logger = Logger::new_at(sample_time(), true, false, &mut sink).unwrap();
    logger.info("  spaced out \n", &mut sink);
    let session = sink.file_text("log/240506070809123456789.txt").unwrap();
    assert!(session.ends_with(" spaced out\n"));
    assert!(!session.contains("  spaced"));
}

#[test]
fn events_carry_their_logger() {
    let mut sink = LogSink::new();
    let logger = Logger::new_at(sample_time(), true, false, &mut sink).unwrap();
    let events = discmon::event::Events::new(logger);
    events.logger.info("ready", &mut sink);
    let session = sink.file_text("log/240506070809123456789.txt").unwrap();
    assert!(session.contains("ready"));
}

#[test]
fn content_lines_carry_the_stamp() {
    let entry = LogContent { time: sample_time(), text: String::from("hello") };
    assert_eq!(entry.to_line_string().as_str(), "[05/06/24 07:08:09:123] hello\n");
    assert!(entry.to_colored_string().contains("hello"));
    let err = ErrContent { time: sample_time(), text: String::from("boom"), long: None };
    assert_eq!(err.to_line_string().as_str(), "[05/06/24 07:08:09:123] [!] boom\n");
    assert_eq!(err.to_long_string().as_str(), "boom");
    assert!(err.to_colored_string().contains("boom"));
    let err_long = ErrContent {
        time: sample_time(),
        text: String::from("boom"),
        long: Some(String::from("  details  ")),
    };
    assert_eq!(err_long.to_long_string().as_str(), "details");
}
