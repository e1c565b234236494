//! The read-eval loop of the shell, as a state machine.
//!
//! The session never touches the terminal, the file system or a process. It
//! hands its host one [`Request`] at a time and takes back a [`Reply`]. One
//! round of the loop reads a command line, records it in the history, runs
//! it as a pipeline, then asks for a search query and shows the entries of
//! the history that hold it.
//!
//! A program that does not start and a directory that cannot be entered are
//! reported by the host and passed over. A line that cannot be read and a
//! history file that cannot be written end the session.

use crate::executor::{
    begin_model, step_model, within, Action, Event, Machine, PipelineState, Sink,
};
use crate::history::{entries, record_of, recordable, HistoryLog};
use crate::parser::{parse_line, parsed, target_directory, ParseError, PipelineSpec, StageView};
use crate::search::{search_history, selected, SearchError};
use crate::text::{copy_texts, is_space, lemma_trimmed_ends, trim, trimmed};
use vstd::prelude::*;
use vstd::string::*;

verus! {

/// What a line is asked for.
#[derive(Clone, Copy, PartialEq, Eq, Structural, Debug)]
pub enum Prompt {
    /// The next command line.
    Command,
    /// The query to search the history for.
    Search,
}

/// A failure that ends the session.
#[derive(Clone, Copy, PartialEq, Eq, Structural, Debug)]
pub enum Fault {
    /// No line could be read from the terminal.
    TerminalRead,
    /// The terminal could not be written to.
    TerminalWrite,
    /// The history file could not be opened or written.
    HistoryWrite,
}

/// A failure that is reported in one line, after which the session goes on.
#[derive(Clone, Copy, PartialEq, Eq, Structural, Debug)]
pub enum Problem {
    /// The command line is no pipeline.
    Parse(ParseError),
    /// The history could not be searched.
    Search(SearchError),
}

/// What the session asks of its host. `H` is the host's handle of a started
/// process.
#[derive(Debug, PartialEq, Eq)]
pub enum Request<H> {
    /// Read the whole history file. Answer with its bytes, or with a failure
    /// where it cannot be read.
    LoadHistory,
    /// Write the prompt to the terminal, then read one line from it.
    ReadLine { prompt: Prompt },
    /// Append these bytes to the history file, creating it if need be.
    AppendHistory { record: Vec<u8> },
    /// Change the working directory. A failure is reported by the host.
    ChangeDirectory { path: String },
    /// Start a program. Its standard input is the output of `input`, or the
    /// terminal where there is none. A failure is reported by the host.
    Spawn { program: String, args: Vec<String>, input: Option<H>, output: Sink },
    /// Block until the process has ended.
    Wait { process: H },
    /// Write these lines to the terminal.
    Print { lines: Vec<String> },
    /// Write one line about the problem to the error stream.
    Report { problem: Problem },
    /// Leave the shell.
    Exit,
    /// Leave the shell with a diagnostic.
    Abort { fault: Fault },
}

/// The host's answer to a request.
#[derive(Debug, PartialEq, Eq)]
pub enum Reply<H> {
    /// The bytes of the history file.
    Contents(Vec<u8>),
    /// The line that was read, with or without its end.
    Line(String),
    /// The handle of the program that was started.
    Spawned(H),
    /// The request was met and there is nothing to hand back.
    Done,
    /// The request could not be met.
    Failed,
}

/// A request as plain values.
pub enum RequestView<H> {
    LoadHistory,
    ReadLine { prompt: Prompt },
    AppendHistory { record: Seq<u8> },
    ChangeDirectory { path: Seq<char> },
    Spawn { program: Seq<char>, args: Seq<Seq<char>>, input: Option<H>, output: Sink },
    Wait { process: H },
    Print { lines: Seq<Seq<char>> },
    Report { problem: Problem },
    Exit,
    Abort { fault: Fault },
}

/// A reply as plain values.
pub enum ReplyView<H> {
    Contents(Seq<u8>),
    Line(Seq<char>),
    Spawned(H),
    Done,
    Failed,
}

impl<H> View for Request<H> {
    type V = RequestView<H>;

    open spec fn view(&self) -> RequestView<H> {
        match *self {
            Request::LoadHistory => RequestView::LoadHistory,
            Request::ReadLine { prompt } => RequestView::ReadLine { prompt },
            Request::AppendHistory { record } => RequestView::AppendHistory { record: record@ },
            Request::ChangeDirectory { path } => RequestView::ChangeDirectory { path: path@ },
            Request::Spawn { program, args, input, output } => RequestView::Spawn {
                program: program@,
                args: args.deep_view(),
                input,
                output,
            },
            Request::Wait { process } => RequestView::Wait { process },
            Request::Print { lines } => RequestView::Print { lines: lines.deep_view() },
            Request::Report { problem } => RequestView::Report { problem },
            Request::Exit => RequestView::Exit,
            Request::Abort { fault } => RequestView::Abort { fault },
        }
    }
}

impl<H> View for Reply<H> {
    type V = ReplyView<H>;

    open spec fn view(&self) -> ReplyView<H> {
        match *self {
            Reply::Contents(bytes) => ReplyView::Contents(bytes@),
            Reply::Line(text) => ReplyView::Line(text@),
            Reply::Spawned(process) => ReplyView::Spawned(process),
            Reply::Done => ReplyView::Done,
            Reply::Failed => ReplyView::Failed,
        }
    }
}

/// The request that a session is waiting to have answered.
pub enum Pending<H> {
    /// The history file is being read.
    History,
    /// A command line is being read.
    Command,
    /// The command line is being recorded; `outcome` is what it parsed to.
    Record { outcome: Result<Seq<StageView>, ParseError> },
    /// An action of a pipeline is under way.
    Pipeline { machine: Machine<H> },
    /// A command line that is no pipeline is being reported.
    Complaint,
    /// A search query is being read.
    Query,
    /// The result of a search is being shown.
    Results,
    /// The shell is to be left.
    Exit,
    /// The shell is to be left with a diagnostic.
    Abort { fault: Fault },
}

/// A session as plain values: the history and what is being waited for.
pub struct SessionView<H> {
    pub history: Seq<Seq<char>>,
    pub pending: Pending<H>,
}

/// The text of a prompt.
pub open spec fn prompt_text(prompt: Prompt) -> Seq<char> {
    match prompt {
        Prompt::Command => "> "@,
        Prompt::Search => "Search history: "@,
    }
}

/// The diagnostic for a fault.
pub open spec fn diagnostic_text(fault: Fault) -> Seq<char> {
    match fault {
        Fault::TerminalRead => "Unable to read from terminal"@,
        Fault::TerminalWrite => "Unable to write to terminal"@,
        Fault::HistoryWrite => "Unable to write to history file"@,
    }
}

/// The line that reports a problem.
pub open spec fn problem_text(problem: Problem) -> Seq<char> {
    match problem {
        Problem::Parse(_) => "empty command"@,
        Problem::Search(_) => "search query rejected"@,
    }
}

/// The lines that show what a search has found: a header and the entries,
/// or one line that says that there are none.
pub open spec fn rendered(found: Seq<Seq<char>>) -> Seq<Seq<char>> {
    if found.len() > 0 {
        seq!["Matching commands:"@] + found
    } else {
        seq!["No matching commands found."@]
    }
}

/// The event that a reply is for a pipeline.
pub open spec fn event_of<H>(reply: ReplyView<H>) -> Event<H> {
    match reply {
        ReplyView::Spawned(process) => Event::Spawned(process),
        ReplyView::Failed => Event::Failed,
        _ => Event::Completed,
    }
}

/// What the session waits for, and asks, once its pipeline has reached
/// `machine` and handed out `action`. An `exit` ends the session at once; a
/// pipeline that is finished is followed by the search prompt.
pub open spec fn issue<H>(history: Seq<Seq<char>>, machine: Machine<H>, action: Action<H>) -> (
    SessionView<H>,
    RequestView<H>,
) {
    match action {
        Action::ChangeDirectory { stage } => (
            SessionView { history, pending: Pending::Pipeline { machine } },
            RequestView::ChangeDirectory {
                path: target_directory(machine.stages[stage as int].args),
            },
        ),
        Action::Spawn { stage, input, output } => (
            SessionView { history, pending: Pending::Pipeline { machine } },
            RequestView::Spawn {
                program: machine.stages[stage as int].command,
                args: machine.stages[stage as int].args,
                input,
                output,
            },
        ),
        Action::Wait { process } => (
            SessionView { history, pending: Pending::Pipeline { machine } },
            RequestView::Wait { process },
        ),
        Action::Exit => (SessionView { history, pending: Pending::Exit }, RequestView::Exit),
        Action::Finished => (
            SessionView { history, pending: Pending::Query },
            RequestView::ReadLine { prompt: Prompt::Search },
        ),
    }
}

/// The session ends with a diagnostic.
pub open spec fn abort<H>(history: Seq<Seq<char>>, fault: Fault) -> (
    SessionView<H>,
    RequestView<H>,
) {
    (SessionView { history, pending: Pending::Abort { fault } }, RequestView::Abort { fault })
}

/// The first state and request of a session.
pub open spec fn opening<H>() -> (SessionView<H>, RequestView<H>) {
    (SessionView { history: Seq::empty(), pending: Pending::History }, RequestView::LoadHistory)
}

/// The state and request that follow `session` once `reply` has come in.
/// `compiled` says whether the expression for a search query could be
/// compiled; it is looked at only where a query that is not empty comes in.
pub open spec fn respond<H>(session: SessionView<H>, reply: ReplyView<H>, compiled: bool) -> (
    SessionView<H>,
    RequestView<H>,
) {
    let history = session.history;
    match session.pending {
        Pending::History => (
            SessionView {
                history: match reply {
                    ReplyView::Contents(bytes) => entries(bytes),
                    _ => Seq::empty(),
                },
                pending: Pending::Command,
            },
            RequestView::ReadLine { prompt: Prompt::Command },
        ),
        Pending::Command => match reply {
            ReplyView::Line(text) => (
                SessionView {
                    history: history.push(trimmed(text)),
                    pending: Pending::Record { outcome: parsed(trimmed(text)) },
                },
                RequestView::AppendHistory { record: record_of(trimmed(text)) },
            ),
            _ => abort(history, Fault::TerminalRead),
        },
        Pending::Record { outcome } => match reply {
            ReplyView::Failed => abort(history, Fault::HistoryWrite),
            _ => match outcome {
                Ok(stages) => issue(history, begin_model::<H>(stages).0, begin_model::<H>(stages).1),
                Err(error) => (
                    SessionView { history, pending: Pending::Complaint },
                    RequestView::Report { problem: Problem::Parse(error) },
                ),
            },
        },
        Pending::Pipeline { machine } => issue(
            history,
            step_model(machine, event_of(reply)).0,
            step_model(machine, event_of(reply)).1,
        ),
        Pending::Complaint => match reply {
            ReplyView::Failed => abort(history, Fault::TerminalWrite),
            _ => (
                SessionView { history, pending: Pending::Query },
                RequestView::ReadLine { prompt: Prompt::Search },
            ),
        },
        Pending::Query => match reply {
            ReplyView::Line(text) => (
                SessionView { history, pending: Pending::Results },
                if trimmed(text).len() == 0 || compiled {
                    RequestView::Print { lines: rendered(selected(history, trimmed(text))) }
                } else {
                    RequestView::Report { problem: Problem::Search(SearchError::QueryRejected) }
                },
            ),
            _ => abort(history, Fault::TerminalRead),
        },
        Pending::Results => match reply {
            ReplyView::Failed => abort(history, Fault::TerminalWrite),
            _ => (
                SessionView { history, pending: Pending::Command },
                RequestView::ReadLine { prompt: Prompt::Command },
            ),
        },
        Pending::Exit => (session, RequestView::Exit),
        Pending::Abort { fault } => (session, RequestView::Abort { fault }),
    }
}

/// A line that was read up to its newline is recorded as one entry: once it
/// is trimmed it holds no newline, and no carriage return at its end.
pub proof fn lemma_line_is_recordable(text: Seq<char>)
    requires
        forall|i: int| 0 <= i < text.len() - 1 ==> text[i] != '\n',
    ensures
        recordable(trimmed(text)),
    decreases text.len(),
{
    lemma_trimmed_ends(text);
    assert(is_space('\r'));
    assert(is_space('\n'));
    if text.len() > 0 && is_space(text.first()) {
        let rest = text.drop_first();
        assert forall|i: int| 0 <= i < rest.len() - 1 implies rest[i] != '\n' by {
            assert(rest[i] == text[i + 1]);
        }
        lemma_line_is_recordable(rest);
    } else if text.len() > 0 && is_space(text.last()) {
        let rest = text.drop_last();
        assert forall|i: int| 0 <= i < rest.len() - 1 implies rest[i] != '\n' by {
            assert(rest[i] == text[i]);
        }
        lemma_line_is_recordable(rest);
    } else if text.len() > 0 {
        assert(trimmed(text) == text);
        assert(text.last() != '\n');
    }
}

/// The name of the history file, in the working directory of the shell.
pub fn history_file() -> (name: &'static str)
    ensures
        name@ == "history.txt"@,
{
    "history.txt"
}

/// The text to write before a line is read.
pub fn prompt(kind: Prompt) -> (text: &'static str)
    ensures
        text@ == prompt_text(kind),
{
    match kind {
        Prompt::Command => "> ",
        Prompt::Search => "Search history: ",
    }
}

/// The diagnostic to leave the shell with.
pub fn diagnostic(fault: Fault) -> (text: &'static str)
    ensures
        text@ == diagnostic_text(fault),
{
    match fault {
        Fault::TerminalRead => "Unable to read from terminal",
        Fault::TerminalWrite => "Unable to write to terminal",
        Fault::HistoryWrite => "Unable to write to history file",
    }
}

/// The line to report a problem with.
pub fn describe(problem: Problem) -> (text: &'static str)
    ensures
        text@ == problem_text(problem),
{
    match problem {
        Problem::Parse(_) => "empty command",
        Problem::Search(_) => "search query rejected",
    }
}

/// The lines that show what a search has found.
pub fn render_matches(found: Vec<String>) -> (lines: Vec<String>)
    ensures
        lines.deep_view() == rendered(found.deep_view()),
{
    let mut lines: Vec<String> = Vec::new();
    if found.len() > 0 {
        lines.push(String::from_str("Matching commands:"));
        let ghost head = lines.deep_view();
        assert(head =~= seq!["Matching commands:"@]);
        let mut found = found;
        let ghost all = found.deep_view();
        lines.append(&mut found);
        assert(lines.deep_view() =~= head + all);
    } else {
        lines.push(String::from_str("No matching commands found."));
        assert(lines.deep_view() =~= seq!["No matching commands found."@]);
    }
    lines
}

/// What the host is asked once a search has been made: to print what was
/// found, or to report why nothing could be looked for.
pub fn show<H>(outcome: Result<Vec<String>, SearchError>) -> (request: Request<H>)
    ensures
        request@ == (match outcome {
            Ok(found) => RequestView::<H>::Print { lines: rendered(found.deep_view()) },
            Err(error) => RequestView::<H>::Report { problem: Problem::Search(error) },
        }),
{
    match outcome {
        Ok(found) => Request::Print { lines: render_matches(found) },
        Err(error) => Request::Report { problem: Problem::Search(error) },
    }
}

enum Waiting<H> {
    History,
    Command,
    Record { outcome: Result<PipelineSpec, ParseError> },
    Pipeline { run: PipelineState<H> },
    Complaint,
    Query,
    Results,
    Exit,
    Abort { fault: Fault },
}

impl<H> Waiting<H> {
    spec fn pending(self) -> Pending<H> {
        match self {
            Waiting::History => Pending::History,
            Waiting::Command => Pending::Command,
            Waiting::Record { outcome } => Pending::Record {
                outcome: match outcome {
                    Ok(pipeline) => Ok(pipeline@),
                    Err(error) => Err(error),
                },
            },
            Waiting::Pipeline { run } => Pending::Pipeline { machine: run@ },
            Waiting::Complaint => Pending::Complaint,
            Waiting::Query => Pending::Query,
            Waiting::Results => Pending::Results,
            Waiting::Exit => Pending::Exit,
            Waiting::Abort { fault } => Pending::Abort { fault },
        }
    }
}

/// One session of the shell: its history and the request that is under way.
pub struct Session<H> {
    history: HistoryLog,
    waiting: Waiting<H>,
}

impl<H> View for Session<H> {
    type V = SessionView<H>;

    closed spec fn view(&self) -> SessionView<H> {
        SessionView { history: self.history@, pending: self.waiting.pending() }
    }
}

impl<H> Session<H> {
    /// Opens a session and says what is to be done first.
    pub fn start() -> (r: (Session<H>, Request<H>))
        ensures
            (r.0@, r.1@) == opening::<H>(),
    {
        (Session { history: HistoryLog::new(), waiting: Waiting::History }, Request::LoadHistory)
    }

    /// Takes in the answer to the last request and says what is to be done
    /// next. Only where a search query that is not empty comes in is there
    /// more than one way on: the expression for it is then compiled by the
    /// `regex` crate, and that succeeds or fails.
    pub fn step(self, reply: Reply<H>) -> (r: (Session<H>, Request<H>))
        ensures
            (r.0@, r.1@) == respond(self@, reply@, true) || (r.0@, r.1@) == respond(
                self@,
                reply@,
                false,
            ),
            !(self@.pending is Query) ==> (r.0@, r.1@) == respond(self@, reply@, true),
    {
        let history = self.history;
        match self.waiting {
            Waiting::History => {
                let loaded = match reply {
                    Reply::Contents(bytes) => HistoryLog::load(bytes.as_slice()),
                    _ => HistoryLog::new(),
                };
                (
                    Session { history: loaded, waiting: Waiting::Command },
                    Request::ReadLine { prompt: Prompt::Command },
                )
            },
            Waiting::Command => match reply {
                Reply::Line(text) => {
                    let mut history = history;
                    let line = trim(text.as_str());
                    let record = history.record(line);
                    let outcome = parse_line(line);
                    (
                        Session { history, waiting: Waiting::Record { outcome } },
                        Request::AppendHistory { record },
                    )
                },
                _ => Self::give_up(history, Fault::TerminalRead),
            },
            Waiting::Record { outcome } => match reply {
                Reply::Failed => Self::give_up(history, Fault::HistoryWrite),
                _ => match outcome {
                    Ok(pipeline) => {
                        let (run, action) = PipelineState::begin(pipeline);
                        Self::advance(history, run, action)
                    },
                    Err(error) => (
                        Session { history, waiting: Waiting::Complaint },
                        Request::Report { problem: Problem::Parse(error) },
                    ),
                },
            },
            Waiting::Pipeline { run } => {
                let event = match reply {
                    Reply::Spawned(process) => Event::Spawned(process),
                    Reply::Failed => Event::Failed,
                    _ => Event::Completed,
                };
                let (run, action) = run.step(event);
                Self::advance(history, run, action)
            },
            Waiting::Complaint => match reply {
                Reply::Failed => Self::give_up(history, Fault::TerminalWrite),
                _ => (
                    Session { history, waiting: Waiting::Query },
                    Request::ReadLine { prompt: Prompt::Search },
                ),
            },
            Waiting::Query => match reply {
                Reply::Line(text) => {
                    let query = trim(text.as_str());
                    let request = show(search_history(&history, query));
                    (Session { history, waiting: Waiting::Results }, request)
                },
                _ => Self::give_up(history, Fault::TerminalRead),
            },
            Waiting::Results => match reply {
                Reply::Failed => Self::give_up(history, Fault::TerminalWrite),
                _ => (
                    Session { history, waiting: Waiting::Command },
                    Request::ReadLine { prompt: Prompt::Command },
                ),
            },
            Waiting::Exit => (Session { history, waiting: Waiting::Exit }, Request::Exit),
            Waiting::Abort { fault } => (
                Session { history, waiting: Waiting::Abort { fault } },
                Request::Abort { fault },
            ),
        }
    }

    fn give_up(history: HistoryLog, fault: Fault) -> (r: (Session<H>, Request<H>))
        ensures
            (r.0@, r.1@) == abort::<H>(history@, fault),
    {
        (Session { history, waiting: Waiting::Abort { fault } }, Request::Abort { fault })
    }

    fn advance(history: HistoryLog, run: PipelineState<H>, action: Action<H>) -> (r: (
        Session<H>,
        Request<H>,
    ))
        requires
            within(action, run@.stages.len()),
        ensures
            (r.0@, r.1@) == issue(history@, run@, action),
    {
        match action {
            Action::ChangeDirectory { stage } => {
                let path = match run.pipeline().stage(stage) {
                    Some(found) => found.directory().to_owned(),
                    None => String::new(),
                };
                (
                    Session { history, waiting: Waiting::Pipeline { run } },
                    Request::ChangeDirectory { path },
                )
            },
            Action::Spawn { stage, input, output } => {
                let (program, args) = match run.pipeline().stage(stage) {
                    Some(found) => (found.command().to_owned(), copy_texts(found.args())),
                    None => (String::new(), Vec::new()),
                };
                (
                    Session { history, waiting: Waiting::Pipeline { run } },
                    Request::Spawn { program, args, input, output },
                )
            },
            Action::Wait { process } => (
                Session { history, waiting: Waiting::Pipeline { run } },
                Request::Wait { process },
            ),
            Action::Exit => (Session { history, waiting: Waiting::Exit }, Request::Exit),
            Action::Finished => (
                Session { history, waiting: Waiting::Query },
                Request::ReadLine { prompt: Prompt::Search },
            ),
        }
    }

    /// The history of this session.
    pub fn history(&self) -> (log: &HistoryLog)
        ensures
            log@ == self@.history,
    {
        &self.history
    }
}

} // verus!
