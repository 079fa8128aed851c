use vanessa::log::{
    archived_log_name, log_header, strip_newlines, LogLevel, Logger, BRACKET_COLOR, STYLE_RESET,
};

#[test]
fn logger_interface() {
    let logger2 = Logger::new("", LogLevel::HYPER, LogLevel::HYPER);
    let cases = [
        (LogLevel::HYPER, "Hyper log."),
        (LogLevel::DEBUG, "Debug log."),
        (LogLevel::INFO, "Info log."),
        (LogLevel::CURIO, "Curio log."),
        (LogLevel::OK, "Ok log."),
        (LogLevel::WARN, "Warn log."),
        (LogLevel::ERROR, "Error log."),
        (LogLevel::FATAL, "Fatal log."),
    ];
    for (level, text) in cases {
        assert!(logger2.wants_term(level));
        assert!(logger2.wants_file(level));
        assert!(logger2.term_line("ts", level, text).ends_with(text));
        assert!(logger2.file_line("ts", level, text).ends_with(&format!("{text}\n")));
    }
}

#[test]
fn ansi_colors_of_levels() {
    assert_eq!(LogLevel::HYPER.ansi_color(), "\x1b[38;2;234;118;203m");
    assert_eq!(LogLevel::INFO.ansi_color(), "\x1b[38;2;30;102;245m");
    assert_eq!(LogLevel::FATAL.ansi_color(), "\x1b[38;2;210;15;57m");
    assert_eq!(LogLevel::INPUT.ansi_color(), "\x1b[38;2;32;159;181m");
}

#[test]
fn labels_are_padded_to_five() {
    assert_eq!(LogLevel::INFO.label(), "INFO ");
    assert_eq!(LogLevel::OK.label(), "OK   ");
    assert_eq!(LogLevel::ERROR.label(), "ERROR");
}

#[test]
fn levels_are_ordered_by_severity() {
    assert_eq!(LogLevel::HYPER.rank(), 0);
    assert_eq!(LogLevel::INPUT.rank(), 8);
    assert!(LogLevel::WARN.at_least(&LogLevel::INFO));
    assert!(!LogLevel::DEBUG.at_least(&LogLevel::INFO));
    assert!(LogLevel::INFO.at_least(&LogLevel::INFO));
}

#[test]
fn quick_logger_uses_the_default_level() {
    let l = Logger::quick("app");
    assert_eq!(l.prefix, Some("app"));
    assert_eq!(l.tlevel, LogLevel::INFO);
    assert_eq!(l.flevel, LogLevel::INFO);
    assert!(!l.wants_term(LogLevel::DEBUG));
    assert!(l.wants_term(LogLevel::WARN));
    assert!(l.wants_term(LogLevel::INPUT));
}

#[test]
fn level_filters_are_separate() {
    let l = Logger::new("x", LogLevel::ERROR, LogLevel::DEBUG);
    assert!(!l.wants_term(LogLevel::WARN));
    assert!(l.wants_file(LogLevel::WARN));
    assert!(l.wants_file(LogLevel::INPUT));
    assert!(!l.wants_file(LogLevel::HYPER));
}

#[test]
fn terminal_line_with_prefix() {
    let l = Logger::new("Net", LogLevel::INFO, LogLevel::INFO);
    let c = LogLevel::WARN.ansi_color();
    let b = BRACKET_COLOR;
    let expected = format!("{b}({c}TS {b}|{c} Net {b}| {c}WARN {b}){STYLE_RESET} careful");
    assert_eq!(l.term_line("TS", LogLevel::WARN, "careful"), expected);
}

#[test]
fn terminal_line_without_prefix() {
    let l = Logger { prefix: None, tlevel: LogLevel::INFO, flevel: LogLevel::INFO };
    let c = LogLevel::OK.ansi_color();
    let b = BRACKET_COLOR;
    let expected = format!("{b}({c}TS {b}|{c} OK   {b}){STYLE_RESET} done");
    assert_eq!(l.term_line("TS", LogLevel::OK, "done"), expected);
}

#[test]
fn file_lines() {
    let l = Logger::new("Net", LogLevel::INFO, LogLevel::INFO);
    assert_eq!(l.file_line("TS", LogLevel::ERROR, "boom"), "(TS | Net | ERROR) boom\n");
    let bare = Logger { prefix: None, tlevel: LogLevel::INFO, flevel: LogLevel::INFO };
    assert_eq!(bare.file_line("TS", LogLevel::INFO, "hi"), "(TS | INFO ) hi\n");
}

#[test]
fn log_header_and_archive_name() {
    let h = log_header("1970-Jan-1-00:00:00");
    assert_eq!(h, "!Timestamp: 1970-Jan-1-00:00:00\n");
    assert_eq!(archived_log_name(&h), Some("1970-Jan-1-00:00:00.log".to_string()));
    assert_eq!(archived_log_name("!Timestamp: a\nb"), Some("ab.log".to_string()));
    assert_eq!(archived_log_name("(ts | INFO ) hi\n"), None);
    assert_eq!(archived_log_name("!Time"), None);
    assert_eq!(archived_log_name(""), None);
}

#[test]
fn newlines_are_stripped() {
    assert_eq!(strip_newlines("a\nb\n"), "ab");
    assert_eq!(strip_newlines("\n"), "");
    assert_eq!(strip_newlines("plain"), "plain");
}
