use pipeline_shell::executor::Sink;
use pipeline_shell::parser::ParseError;
use pipeline_shell::search::SearchError;
use pipeline_shell::session::{
    describe, diagnostic, history_file, prompt, render_matches, show, Fault, Problem, Prompt,
    Reply, Request, Session,
};

fn strings(items: &[&str]) -> Vec<String> {
    items.iter().map(|s| s.to_string()).collect()
}

fn line(text: &str) -> Reply<u32> {
    Reply::Line(text.to_string())
}

/// A session that has loaded `file` and waits for a command line.
fn opened(file: &[u8]) -> Session<u32> {
    let (session, request) = Session::start();
    assert_eq!(request, Request::LoadHistory);
    let (session, request) = session.step(Reply::Contents(file.to_vec()));
    assert_eq!(request, Request::ReadLine { prompt: Prompt::Command });
    session
}

/// The session after `text` was read as a command line and recorded.
fn submit(session: Session<u32>, text: &str) -> (Session<u32>, Request<u32>) {
    let (session, request) = session.step(line(text));
    let mut record = text.trim().as_bytes().to_vec();
    record.push(b'\n');
    assert_eq!(request, Request::AppendHistory { record });
    session.step(Reply::Done)
}

#[test]
fn fixed_texts() {
    assert_eq!(history_file(), "history.txt");
    assert_eq!(prompt(Prompt::Command), "> ");
    assert_eq!(prompt(Prompt::Search), "Search history: ");
    assert_eq!(diagnostic(Fault::HistoryWrite), "Unable to write to history file");
    assert_eq!(diagnostic(Fault::TerminalRead), "Unable to read from terminal");
    assert_eq!(diagnostic(Fault::TerminalWrite), "Unable to write to terminal");
    assert_eq!(describe(Problem::Parse(ParseError::EmptyCommand { stage: 0 })), "empty command");
    assert_eq!(describe(Problem::Search(SearchError::QueryRejected)), "search query rejected");
}

#[test]
fn render_matches_with_and_without_entries() {
    assert_eq!(
        render_matches(strings(&["ls", "ls -l"])),
        strings(&["Matching commands:", "ls", "ls -l"])
    );
    assert_eq!(render_matches(Vec::new()), strings(&["No matching commands found."]));
}

#[test]
fn show_prints_or_reports() {
    assert_eq!(
        show::<u32>(Ok(strings(&["ls"]))),
        Request::Print { lines: strings(&["Matching commands:", "ls"]) }
    );
    assert_eq!(
        show::<u32>(Ok(Vec::new())),
        Request::Print { lines: strings(&["No matching commands found."]) }
    );
    assert_eq!(
        show::<u32>(Err(SearchError::QueryRejected)),
        Request::Report { problem: Problem::Search(SearchError::QueryRejected) }
    );
}

#[test]
fn history_that_cannot_be_read_is_no_history() {
    let (session, _) = Session::<u32>::start();
    let (session, request) = session.step(Reply::Failed);
    assert_eq!(request, Request::ReadLine { prompt: Prompt::Command });
    assert_eq!(session.history().len(), 0);
}

#[test]
fn echo_piped_into_tr_starts_two_programs() {
    let session = opened(b"");
    let (session, request) = submit(session, "echo hi | tr h H\n");
    assert_eq!(
        request,
        Request::Spawn {
            program: "echo".to_string(),
            args: strings(&["hi"]),
            input: None,
            output: Sink::Pipe,
        }
    );
    let (session, request) = session.step(Reply::Spawned(1));
    assert_eq!(
        request,
        Request::Spawn {
            program: "tr".to_string(),
            args: strings(&["h", "H"]),
            input: Some(1),
            output: Sink::Inherit,
        }
    );
    let (session, request) = session.step(Reply::Spawned(2));
    assert_eq!(request, Request::Wait { process: 2 });
    let (session, request) = session.step(Reply::Done);
    assert_eq!(request, Request::ReadLine { prompt: Prompt::Search });
    assert_eq!(session.history().entries(), &strings(&["echo hi | tr h H"]));
}

#[test]
fn cd_that_fails_goes_on_to_the_search_prompt() {
    let session = opened(b"");
    let (session, request) = submit(session, "cd /nonexistent\n");
    assert_eq!(request, Request::ChangeDirectory { path: "/nonexistent".to_string() });
    let (_, request) = session.step(Reply::Failed);
    assert_eq!(request, Request::ReadLine { prompt: Prompt::Search });
}

#[test]
fn exit_ends_the_session_without_a_search_prompt() {
    let session = opened(b"ls\n");
    let (session, request) = submit(session, "exit\n");
    assert_eq!(request, Request::Exit);
    let (_, request) = session.step(Reply::Done);
    assert_eq!(request, Request::Exit);
}

#[test]
fn command_that_is_not_there_goes_on_to_the_search_prompt() {
    let session = opened(b"");
    let (session, request) = submit(session, "foo\n");
    assert_eq!(
        request,
        Request::Spawn {
            program: "foo".to_string(),
            args: Vec::new(),
            input: None,
            output: Sink::Inherit,
        }
    );
    let (_, request) = session.step(Reply::Failed);
    assert_eq!(request, Request::ReadLine { prompt: Prompt::Search });
}

#[test]
fn empty_line_is_recorded_reported_and_passed_over() {
    let session = opened(b"");
    let (session, request) = submit(session, "\n");
    assert_eq!(
        request,
        Request::Report { problem: Problem::Parse(ParseError::EmptyCommand { stage: 0 }) }
    );
    assert_eq!(session.history().entries(), &strings(&[""]));
    let (_, request) = session.step(Reply::Done);
    assert_eq!(request, Request::ReadLine { prompt: Prompt::Search });
}

#[test]
fn blank_stage_runs_nothing_of_the_line() {
    let session = opened(b"");
    let (_, request) = submit(session, "ls |  | wc\n");
    assert_eq!(
        request,
        Request::Report { problem: Problem::Parse(ParseError::EmptyCommand { stage: 1 }) }
    );
}

#[test]
fn search_shows_matches_then_prompts_again() {
    let session = opened(b"ls -l\nEcho one\n");
    let (session, _) = submit(session, "cd\n");
    let (session, request) = session.step(Reply::Done);
    assert_eq!(request, Request::ReadLine { prompt: Prompt::Search });
    let (session, request) = session.step(line(" echo \n"));
    assert_eq!(request, Request::Print { lines: strings(&["Matching commands:", "Echo one"]) });
    let (session, request) = session.step(Reply::Done);
    assert_eq!(request, Request::ReadLine { prompt: Prompt::Command });
    assert_eq!(session.history().entries(), &strings(&["ls -l", "Echo one", "cd"]));
}

#[test]
fn search_sees_the_line_that_was_just_submitted() {
    let session = opened(b"");
    let (session, _) = submit(session, "cd /tmp\n");
    let (session, _) = session.step(Reply::Done);
    let (_, request) = session.step(line("TMP\n"));
    assert_eq!(request, Request::Print { lines: strings(&["Matching commands:", "cd /tmp"]) });
}

#[test]
fn search_without_match_says_so() {
    let session = opened(b"ls\n");
    let (session, _) = submit(session, "cd\n");
    let (session, _) = session.step(Reply::Done);
    let (_, request) = session.step(line("grep\n"));
    assert_eq!(request, Request::Print { lines: strings(&["No matching commands found."]) });
}

#[test]
fn empty_query_shows_the_whole_history() {
    let session = opened(b"a\nb\n");
    let (session, _) = submit(session, "cd\n");
    let (session, _) = session.step(Reply::Done);
    let (_, request) = session.step(line("\n"));
    assert_eq!(
        request,
        Request::Print { lines: strings(&["Matching commands:", "a", "b", "cd"]) }
    );
}

#[test]
fn a_line_that_cannot_be_read_ends_the_session() {
    let session = opened(b"");
    let (session, request) = session.step(Reply::Failed);
    assert_eq!(request, Request::Abort { fault: Fault::TerminalRead });
    let (_, request) = session.step(line("ls\n"));
    assert_eq!(request, Request::Abort { fault: Fault::TerminalRead });
}

#[test]
fn a_query_that_cannot_be_read_ends_the_session() {
    let session = opened(b"");
    let (session, _) = submit(session, "cd\n");
    let (session, _) = session.step(Reply::Done);
    let (_, request) = session.step(Reply::Failed);
    assert_eq!(request, Request::Abort { fault: Fault::TerminalRead });
}

#[test]
fn a_history_that_cannot_be_written_ends_the_session() {
    let session = opened(b"");
    let (session, request) = session.step(line("ls\n"));
    assert_eq!(request, Request::AppendHistory { record: b"ls\n".to_vec() });
    let (_, request) = session.step(Reply::Failed);
    assert_eq!(request, Request::Abort { fault: Fault::HistoryWrite });
}

#[test]
fn results_that_cannot_be_written_end_the_session() {
    let session = opened(b"");
    let (session, _) = submit(session, "cd\n");
    let (session, _) = session.step(Reply::Done);
    let (session, _) = session.step(line("x\n"));
    let (_, request) = session.step(Reply::Failed);
    assert_eq!(request, Request::Abort { fault: Fault::TerminalWrite });
}

#[test]
fn wait_that_fails_is_passed_over() {
    let session = opened(b"");
    let (session, _) = submit(session, "ls\n");
    let (session, request) = session.step(Reply::Spawned(5));
    assert_eq!(request, Request::Wait { process: 5 });
    let (_, request) = session.step(Reply::Failed);
    assert_eq!(request, Request::ReadLine { prompt: Prompt::Search });
}
