use pipeline_shell::history::{encode_entry, HistoryLog};
use pipeline_shell::search::{pattern_for, search_history, select_matching, SearchError};
use std::io::BufRead;

fn strings(items: &[&str]) -> Vec<String> {
    items.iter().map(|s| s.to_string()).collect()
}

fn log_of(items: &[&str]) -> HistoryLog {
    let mut log = HistoryLog::new();
    for item in items {
        log.record(item);
    }
    log
}

#[test]
fn new_history_is_empty() {
    let log = HistoryLog::new();
    assert_eq!(log.len(), 0);
    assert!(log.entries().is_empty());
}

#[test]
fn load_reads_one_entry_per_line() {
    let log = HistoryLog::load(b"ls -l\necho hi | tr h H\n\ncd /tmp\n");
    assert_eq!(log.entries(), &strings(&["ls -l", "echo hi | tr h H", "", "cd /tmp"]));
    assert_eq!(log.len(), 4);
}

#[test]
fn load_of_no_bytes_is_empty() {
    assert_eq!(HistoryLog::load(b"").len(), 0);
}

#[test]
fn load_keeps_a_last_line_without_newline() {
    let log = HistoryLog::load(b"one\ntwo");
    assert_eq!(log.entries(), &strings(&["one", "two"]));
    let log = HistoryLog::load(b"one\ntwo\r");
    assert_eq!(log.entries(), &strings(&["one", "two\r"]));
}

#[test]
fn load_takes_carriage_return_and_newline_as_one_end() {
    let log = HistoryLog::load(b"one\r\ntwo\r\r\n\r\n");
    assert_eq!(log.entries(), &strings(&["one", "two\r", ""]));
}

#[test]
fn load_skips_lines_that_are_not_utf8() {
    let log = HistoryLog::load(b"good\n\xff\xfe bad\nalso good\n\xc3\n\xc3\xa9\n");
    assert_eq!(log.entries(), &strings(&["good", "also good", "\u{e9}"]));
}

#[test]
fn load_agrees_with_std_lines() {
    let samples: [&[u8]; 6] = [
        b"a\nb\n",
        b"a\r\nb",
        b"\n\n\n",
        b"x\r\r\n\ry\n\r",
        b"caf\xc3\xa9\n\xe2\x82\nend",
        b"\xf0\x9f\x98\x80 | ls\n",
    ];
    for sample in samples {
        let expected: Vec<String> = sample.lines().filter_map(Result::ok).collect();
        assert_eq!(HistoryLog::load(sample).entries(), &expected);
    }
}

#[test]
fn encode_entry_is_text_and_newline() {
    assert_eq!(encode_entry("ls -l"), b"ls -l\n".to_vec());
    assert_eq!(encode_entry(""), b"\n".to_vec());
    assert_eq!(encode_entry("caf\u{e9}"), b"caf\xc3\xa9\n".to_vec());
}

#[test]
fn record_appends_in_memory_and_gives_the_bytes() {
    let mut log = HistoryLog::load(b"first\n");
    let bytes = log.record("second");
    assert_eq!(bytes, b"second\n".to_vec());
    assert_eq!(log.entries(), &strings(&["first", "second"]));
}

#[test]
fn history_idempotence() {
    let mut file: Vec<u8> = b"ls\necho hi | tr h H\n".to_vec();
    let mut log = HistoryLog::load(&file);
    let before = log.entries().clone();
    file.extend(log.record("cd /nonexistent"));
    let again = HistoryLog::load(&file);
    let mut expected = before;
    expected.push("cd /nonexistent".to_string());
    assert_eq!(again.entries(), &expected);
    assert_eq!(log.entries(), &expected);
}

#[test]
fn history_keeps_duplicates_and_order() {
    let log = log_of(&["b", "a", "b", "a"]);
    assert_eq!(log.entries(), &strings(&["b", "a", "b", "a"]));
}

#[test]
fn search_empty_query_returns_everything() {
    let log = log_of(&["ls", "Echo Hi", "", "cd /"]);
    assert_eq!(search_history(&log, ""), Ok(strings(&["ls", "Echo Hi", "", "cd /"])));
    assert_eq!(search_history(&HistoryLog::new(), ""), Ok(Vec::new()));
}

#[test]
fn search_is_case_insensitive() {
    let log = log_of(&["Hello"]);
    assert_eq!(search_history(&log, "hello"), Ok(strings(&["Hello"])));
    assert_eq!(search_history(&log, "HELLO"), Ok(strings(&["Hello"])));
    assert_eq!(search_history(&log, "ell"), Ok(strings(&["Hello"])));
    assert_eq!(search_history(&log, "help"), Ok(Vec::new()));
}

#[test]
fn search_folds_case_beyond_ascii() {
    let log = log_of(&["\u{394}elta", "\u{3b4}", "d"]);
    assert_eq!(search_history(&log, "\u{3b4}"), Ok(strings(&["\u{394}elta", "\u{3b4}"])));
}

#[test]
fn search_keeps_relative_order() {
    let log = log_of(&["echo a", "ls", "ECHO b", "cat", "echo a"]);
    assert_eq!(search_history(&log, "echo"), Ok(strings(&["echo a", "ECHO b", "echo a"])));
}

#[test]
fn search_takes_the_query_as_literal_text() {
    let log = log_of(&["abc", "a.c", "a|b", "x*", "xx", "(ls)"]);
    assert_eq!(search_history(&log, "a.c"), Ok(strings(&["a.c"])));
    assert_eq!(search_history(&log, "a|b"), Ok(strings(&["a|b"])));
    assert_eq!(search_history(&log, "x*"), Ok(strings(&["x*"])));
    assert_eq!(search_history(&log, "(ls)"), Ok(strings(&["(ls)"])));
    assert_eq!(search_history(&log, "."), Ok(strings(&["a.c"])));
}

#[test]
fn search_without_match_is_empty() {
    let log = log_of(&["ls", "cd /"]);
    assert_eq!(search_history(&log, "grep"), Ok(Vec::new()));
}

#[test]
fn pattern_for_escapes_and_switches_case_off() {
    assert_eq!(pattern_for("echo"), "(?i)echo");
    assert_eq!(pattern_for("a.c"), "(?i)a\\.c");
    assert_eq!(pattern_for("\\.+*?()|[]{}^$#&-~"), "(?i)\\\\\\.\\+\\*\\?\\(\\)\\|\\[\\]\\{\\}\\^\\$\\#\\&\\-\\~");
    assert_eq!(pattern_for("%/!\"e "), "(?i)%/!\"e ");
    assert_eq!(pattern_for(""), "(?i)");
}

#[test]
fn select_matching_filters_by_the_expression() {
    let entries = strings(&["Hello", "world", "hello world", ""]);
    let expression = regex::Regex::new("(?i)hello").unwrap();
    assert_eq!(select_matching(&entries, &expression), strings(&["Hello", "hello world"]));
    let anything = regex::Regex::new("").unwrap();
    assert_eq!(select_matching(&entries, &anything), entries);
}

#[test]
fn search_for_a_query_too_large_to_compile_is_rejected() {
    let log = log_of(&["k"]);
    let query = "k".repeat(600_000);
    assert_eq!(search_history(&log, &query), Err(SearchError::QueryRejected));
}
