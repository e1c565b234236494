use pipeline_shell::parser::{classify, parse_line, split_stages, CommandKind, ParseError};
use pipeline_shell::text::{is_whitespace, split_words, trim};

fn strings(items: &[&str]) -> Vec<String> {
    items.iter().map(|s| s.to_string()).collect()
}

#[test]
fn whitespace_agrees_with_std_on_every_char() {
    for code in 0u32..=0x10FFFF {
        if let Some(c) = char::from_u32(code) {
            assert_eq!(is_whitespace(c), c.is_whitespace(), "U+{:04X}", code);
        }
    }
}

#[test]
fn trim_removes_both_ends() {
    assert_eq!(trim("  echo hi \n"), "echo hi");
    assert_eq!(trim("\t \u{3000}"), "");
    assert_eq!(trim(""), "");
    assert_eq!(trim("a"), "a");
}

#[test]
fn split_words_on_runs_of_whitespace() {
    assert_eq!(split_words("  tr   h\tH "), strings(&["tr", "h", "H"]));
    assert_eq!(split_words(""), Vec::<String>::new());
    assert_eq!(split_words(" \n "), Vec::<String>::new());
}

#[test]
fn split_stages_cuts_at_spaced_pipes_only() {
    assert_eq!(split_stages("echo hi | tr h H"), strings(&["echo hi", "tr h H"]));
    assert_eq!(split_stages("a|b"), strings(&["a|b"]));
    assert_eq!(split_stages("a | | b"), strings(&["a", "| b"]));
    assert_eq!(split_stages(" | ls"), strings(&["", "ls"]));
    assert_eq!(split_stages(""), strings(&[""]));
}

#[test]
fn parse_two_stages() {
    let pipeline = parse_line("echo hi | tr h H").unwrap();
    assert_eq!(pipeline.len(), 2);
    let first = pipeline.stage(0).unwrap();
    assert_eq!(first.command(), "echo");
    assert_eq!(first.args(), &strings(&["hi"]));
    assert_eq!(first.kind(), CommandKind::External);
    let second = pipeline.stage(1).unwrap();
    assert_eq!(second.command(), "tr");
    assert_eq!(second.args(), &strings(&["h", "H"]));
    assert!(pipeline.stage(2).is_none());
}

#[test]
fn parse_empty_line_is_an_empty_command() {
    assert_eq!(parse_line("").err(), Some(ParseError::EmptyCommand { stage: 0 }));
    assert_eq!(parse_line("ls |  | wc").err(), Some(ParseError::EmptyCommand { stage: 1 }));
}

#[test]
fn line_without_pipe_is_one_stage_named_by_its_first_word() {
    for (line, command, args) in [
        ("ls", "ls", vec![]),
        ("  grep -r  main\tsrc ", "grep", vec!["-r", "main", "src"]),
        ("a|b c", "a|b", vec!["c"]),
        ("echo |", "echo", vec!["|"]),
        ("| wc", "|", vec!["wc"]),
    ] {
        let pipeline = parse_line(line).unwrap();
        assert_eq!(pipeline.len(), 1, "{:?}", line);
        let stage = pipeline.stage(0).unwrap();
        assert_eq!(stage.command(), command);
        assert_eq!(stage.args(), &strings(&args));
        assert_eq!(stage.command(), line.split_whitespace().next().unwrap());
    }
}

#[test]
fn parse_agrees_with_std_splitting() {
    for line in ["echo hi | tr h H", "a  |  b | c d  e", "x | y|z | w", "one", " lead | trail "] {
        let pipeline = parse_line(line).unwrap();
        let expected: Vec<Vec<&str>> =
            line.split(" | ").map(|part| part.trim().split_whitespace().collect()).collect();
        assert_eq!(pipeline.len(), expected.len());
        for (place, words) in expected.iter().enumerate() {
            let stage = pipeline.stage(place).unwrap();
            assert_eq!(stage.command(), words[0]);
            assert_eq!(stage.args(), &strings(&words[1..]));
        }
    }
}

#[test]
fn blank_stage_at_either_end_is_an_empty_command() {
    assert_eq!(parse_line(" | ls").err(), Some(ParseError::EmptyCommand { stage: 0 }));
    assert_eq!(parse_line("ls | ").err(), Some(ParseError::EmptyCommand { stage: 1 }));
    assert_eq!(parse_line("   ").err(), Some(ParseError::EmptyCommand { stage: 0 }));
    assert_eq!(parse_line(" |  | ").err(), Some(ParseError::EmptyCommand { stage: 0 }));
}

#[test]
fn classify_knows_the_two_builtins() {
    assert_eq!(classify("cd"), CommandKind::ChangeDirectory);
    assert_eq!(classify("exit"), CommandKind::Exit);
    assert_eq!(classify("ls"), CommandKind::External);
    assert_eq!(classify("CD"), CommandKind::External);
    assert_eq!(classify("cdx"), CommandKind::External);
    assert_eq!(classify("exi"), CommandKind::External);
    assert_eq!(classify(""), CommandKind::External);
}

#[test]
fn stage_kind_and_directory() {
    let pipeline = parse_line("cd /tmp extra | exit now | cd").unwrap();
    let first = pipeline.stage(0).unwrap();
    assert_eq!(first.kind(), CommandKind::ChangeDirectory);
    assert_eq!(first.directory(), "/tmp");
    assert_eq!(pipeline.stage(1).unwrap().kind(), CommandKind::Exit);
    assert_eq!(pipeline.stage(2).unwrap().directory(), "/");
}
