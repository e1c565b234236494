//! The pipeline parser: one input line becomes an ordered list of stages.
//!
//! A line is cut at every pipe that has one space on each side. Each piece is
//! then split into words at white space: the first word is the command, the
//! others are its arguments. There is no quoting, escaping or expansion.

use crate::text::{chars_of, is_word, lemma_words_are_words, same_text, split_words, words};
use vstd::prelude::*;
use vstd::string::*;

verus! {

/// The text that separates two stages.
pub open spec fn delimiter() -> Seq<char> {
    seq![' ', '|', ' ']
}

/// Whether a delimiter starts at place `i` of `s`.
pub open spec fn delimiter_at(s: Seq<char>, i: int) -> bool {
    &&& 0 <= i
    &&& i + 3 <= s.len()
    &&& s[i] == ' '
    &&& s[i + 1] == '|'
    &&& s[i + 2] == ' '
}

/// A delimiter starts at a place exactly where the three characters from
/// there on are the delimiter.
pub proof fn lemma_delimiter_at(s: Seq<char>, i: int)
    ensures
        delimiter_at(s, i) <==> 0 <= i && i + 3 <= s.len() && s.subrange(i, i + 3) == delimiter(),
{
    if 0 <= i && i + 3 <= s.len() {
        let part = s.subrange(i, i + 3);
        assert(part[0] == s[i] && part[1] == s[i + 1] && part[2] == s[i + 2]);
        if delimiter_at(s, i) {
            assert(part =~= delimiter());
        }
    }
}

/// Whether `s` holds a delimiter anywhere.
pub open spec fn has_delimiter(s: Seq<char>) -> bool {
    exists|i: int| delimiter_at(s, i)
}

/// The place of the leftmost delimiter in `s`, or `s.len()` where there is none.
pub open spec fn first_delimiter(s: Seq<char>) -> int
    decreases s.len(),
{
    if s.len() < 3 {
        s.len() as int
    } else if delimiter_at(s, 0) {
        0
    } else {
        1 + first_delimiter(s.drop_first())
    }
}

/// The pieces of `s` between its delimiters, found from left to right. A
/// delimiter never overlaps the one before it.
pub open spec fn segments(s: Seq<char>) -> Seq<Seq<char>>
    decreases s.len(),
{
    let i = first_delimiter(s);
    if 0 <= i && i + 3 <= s.len() {
        seq![s.take(i)] + segments(s.skip(i + 3))
    } else {
        seq![s]
    }
}

/// `first_delimiter` finds a delimiter, the leftmost one, exactly where there is one.
pub proof fn lemma_first_delimiter(s: Seq<char>)
    ensures
        0 <= first_delimiter(s) <= s.len(),
        first_delimiter(s) < s.len() ==> delimiter_at(s, first_delimiter(s)),
        forall|i: int| 0 <= i < first_delimiter(s) ==> !delimiter_at(s, i),
        has_delimiter(s) <==> first_delimiter(s) < s.len(),
    decreases s.len(),
{
    if s.len() >= 3 && !delimiter_at(s, 0) {
        let rest = s.drop_first();
        lemma_first_delimiter(rest);
        assert forall|i: int| delimiter_at(s, i + 1) == delimiter_at(rest, i) by {
            if 0 <= i && i + 3 <= rest.len() {
                assert(rest[i] == s[i + 1]);
                assert(rest[i + 1] == s[i + 2]);
                assert(rest[i + 2] == s[i + 3]);
            }
        }
        assert forall|i: int| 0 <= i < first_delimiter(s) implies !delimiter_at(s, i) by {
            if i > 0 {
                assert(delimiter_at(s, (i - 1) + 1) == delimiter_at(rest, i - 1));
            }
        }
        if first_delimiter(s) < s.len() {
            assert(delimiter_at(s, first_delimiter(rest) + 1) == delimiter_at(
                rest,
                first_delimiter(rest),
            ));
        }
    }
    if has_delimiter(s) {
        let i = choose|i: int| delimiter_at(s, i);
        if first_delimiter(s) >= s.len() {
            assert(!delimiter_at(s, i));
        }
    }
}

/// Where no delimiter starts before `k`, and one starts at `k` or not even
/// three characters are left there, `k` or the length is the leftmost place.
pub proof fn lemma_first_delimiter_is(s: Seq<char>, k: int)
    requires
        0 <= k <= s.len(),
        forall|i: int| 0 <= i < k ==> !delimiter_at(s, i),
        delimiter_at(s, k) || k + 3 > s.len(),
    ensures
        first_delimiter(s) == (if delimiter_at(s, k) {
            k
        } else {
            s.len() as int
        }),
{
    lemma_first_delimiter(s);
    let f = first_delimiter(s);
    if f < s.len() {
        if f < k {
            assert(!delimiter_at(s, f));
        }
    }
}

/// What the shell does with a stage, decided by its command name alone.
#[derive(Clone, Copy, PartialEq, Eq, Structural, Debug)]
pub enum CommandKind {
    /// `cd`: change the working directory of the shell itself.
    ChangeDirectory,
    /// `exit`: leave the shell.
    Exit,
    /// Any other name: a program to start.
    External,
}

/// Why a line is not a pipeline.
#[derive(Clone, Copy, PartialEq, Eq, Structural, Debug)]
pub enum ParseError {
    /// The stage at this place, counted from zero, holds no word at all.
    EmptyCommand { stage: usize },
}

/// A stage as plain values: the command name and its arguments in order.
pub struct StageView {
    pub command: Seq<char>,
    pub args: Seq<Seq<char>>,
}

/// The kind of the command with this name.
pub open spec fn kind_of(command: Seq<char>) -> CommandKind {
    if command == "cd"@ {
        CommandKind::ChangeDirectory
    } else if command == "exit"@ {
        CommandKind::Exit
    } else {
        CommandKind::External
    }
}

/// The directory that a `cd` with these arguments asks for: its first
/// argument, or the root of the file system where it has none.
pub open spec fn target_directory(args: Seq<Seq<char>>) -> Seq<char> {
    if args.len() > 0 {
        args[0]
    } else {
        "/"@
    }
}

/// Whether a piece of a line holds no word, and so no command.
pub open spec fn is_blank(segment: Seq<char>) -> bool {
    words(segment).len() == 0
}

/// The stage that a piece of a line with at least one word stands for.
pub open spec fn stage_view(segment: Seq<char>) -> StageView {
    StageView { command: words(segment).first(), args: words(segment).drop_first() }
}

/// Whether every stage of `line` names a command.
pub open spec fn well_formed(line: Seq<char>) -> bool {
    forall|i: int| 0 <= i < segments(line).len() ==> !is_blank(#[trigger] segments(line)[i])
}

/// The stages of a well-formed line, from left to right.
pub open spec fn stages_of(line: Seq<char>) -> Seq<StageView> {
    segments(line).map_values(|segment: Seq<char>| stage_view(segment))
}

/// Whether `place` is where the first blank stage of `line` stands.
pub open spec fn is_first_blank(line: Seq<char>, place: int) -> bool {
    &&& 0 <= place < segments(line).len()
    &&& is_blank(segments(line)[place])
    &&& forall|j: int| 0 <= j < place ==> !is_blank(#[trigger] segments(line)[j])
}

/// The pipeline that `line` stands for, or why it stands for none: the place
/// of its first stage without a command.
pub open spec fn parsed(line: Seq<char>) -> Result<Seq<StageView>, ParseError> {
    if well_formed(line) {
        Ok(stages_of(line))
    } else {
        Err(
            ParseError::EmptyCommand {
                stage: (choose|place: int| is_first_blank(line, place)) as usize,
            },
        )
    }
}

/// One stage of a pipeline: a command name, never empty, and its arguments.
pub struct StageSpec {
    kind: CommandKind,
    command: String,
    args: Vec<String>,
}

impl View for StageSpec {
    type V = StageView;

    closed spec fn view(&self) -> StageView {
        StageView { command: self.command@, args: self.args.deep_view() }
    }
}

impl StageSpec {
    #[verifier::type_invariant]
    spec fn consistent(&self) -> bool {
        &&& self.command@.len() > 0
        &&& self.kind == kind_of(self.command@)
    }

    /// What the shell does with this stage.
    pub fn kind(&self) -> (k: CommandKind)
        ensures
            k == kind_of(self@.command),
    {
        proof {
            use_type_invariant(self);
        }
        self.kind
    }

    /// The command name.
    pub fn command(&self) -> (c: &str)
        ensures
            c@ == self@.command,
            c@.len() > 0,
    {
        proof {
            use_type_invariant(self);
        }
        self.command.as_str()
    }

    /// The arguments, in the order in which they were written.
    pub fn args(&self) -> (a: &Vec<String>)
        ensures
            a.deep_view() == self@.args,
    {
        &self.args
    }

    /// The directory that this stage asks for when it is a `cd`.
    pub fn directory(&self) -> (d: &str)
        ensures
            d@ == target_directory(self@.args),
    {
        if self.args.len() > 0 {
            self.args[0].as_str()
        } else {
            "/"
        }
    }
}

/// The kind of the command named `name`.
pub fn classify(name: &str) -> (k: CommandKind)
    ensures
        k == kind_of(name@),
{
    if same_text(name, "cd") {
        CommandKind::ChangeDirectory
    } else if same_text(name, "exit") {
        CommandKind::Exit
    } else {
        CommandKind::External
    }
}

/// A pipeline: the stages of one input line, from left to right.
pub struct PipelineSpec {
    stages: Vec<StageSpec>,
}

impl View for PipelineSpec {
    type V = Seq<StageView>;

    closed spec fn view(&self) -> Seq<StageView> {
        self.stages@.map_values(|stage: StageSpec| stage@)
    }
}

impl PipelineSpec {
    /// The number of stages.
    pub fn len(&self) -> (n: usize)
        ensures
            n == self@.len(),
    {
        self.stages.len()
    }

    /// The stage at place `index`, counted from zero, if there is one.
    pub fn stage(&self, index: usize) -> (s: Option<&StageSpec>)
        ensures
            index < self@.len() ==> s is Some && s->0@ == self@[index as int],
            index >= self@.len() ==> s is None,
    {
        if index < self.stages.len() {
            Some(&self.stages[index])
        } else {
            None
        }
    }
}

/// A line without a delimiter is one stage. Unless the line is blank, its
/// command is the first word of the line and its arguments are the words
/// that follow; a blank line is not well-formed.
pub proof fn lemma_line_without_delimiter(line: Seq<char>)
    requires
        !has_delimiter(line),
    ensures
        segments(line) == seq![line],
        well_formed(line) <==> !is_blank(line),
        stages_of(line) == seq![stage_view(line)],
        stages_of(line)[0].command == words(line).first(),
        stages_of(line)[0].args == words(line).drop_first(),
{
    lemma_first_delimiter(line);
    assert(segments(line)[0] == line);
    assert(stages_of(line) =~= seq![stage_view(line)]);
}

/// In a well-formed line every stage is named by a word, and each of its
/// arguments is a word: none is empty and none holds white space.
pub proof fn lemma_stages_hold_words(line: Seq<char>, place: int)
    requires
        well_formed(line),
        0 <= place < stages_of(line).len(),
    ensures
        is_word(stages_of(line)[place].command),
        forall|k: int|
            0 <= k < stages_of(line)[place].args.len() ==> is_word(
                #[trigger] stages_of(line)[place].args[k],
            ),
{
    let segment = segments(line)[place];
    lemma_words_are_words(segment);
    assert(!is_blank(segment));
    assert(stages_of(line)[place] == stage_view(segment));
    assert(words(segment).first() == words(segment)[0]);
    assert forall|k: int| 0 <= k < stage_view(segment).args.len() implies is_word(
        #[trigger] stage_view(segment).args[k],
    ) by {
        assert(stage_view(segment).args[k] == words(segment)[k + 1]);
    }
}

/// A line has one stage more than it has delimiters that were found: at
/// least one, and never more than it has characters, plus one.
pub proof fn lemma_segments_len(line: Seq<char>)
    ensures
        1 <= segments(line).len() <= line.len() + 1,
        stages_of(line).len() == segments(line).len(),
    decreases line.len(),
{
    lemma_first_delimiter(line);
    let i = first_delimiter(line);
    if 0 <= i && i + 3 <= line.len() {
        lemma_segments_len(line.skip(i + 3));
    }
}

/// The stages of `line` as text, cut at the delimiters.
pub fn split_stages(line: &str) -> (out: Vec<String>)
    ensures
        out.deep_view() == segments(line@),
{
    let chars = chars_of(line);
    let n: usize = chars.len();
    let mut out: Vec<String> = Vec::new();
    let mut start: usize = 0;
    let mut i: usize = 0;
    assert(line@.skip(0) =~= line@);
    assert(out.deep_view() + segments(line@) =~= segments(line@));
    while n - i >= 3
        invariant
            start <= i <= n,
            n == chars.len(),
            chars@ == line@,
            forall|k: int| 0 <= k < i - start ==> !delimiter_at(line@.skip(start as int), k),
            out.deep_view() + segments(line@.skip(start as int)) == segments(line@),
        decreases n - i,
    {
        let ghost rest = line@.skip(start as int);
        if chars[i] == ' ' && chars[i + 1] == '|' && chars[i + 2] == ' ' {
            let piece = line.substring_char(start, i).to_owned();
            proof {
                assert(delimiter_at(rest, i - start));
                lemma_first_delimiter_is(rest, i - start);
                assert(rest.take(i - start) =~= line@.subrange(start as int, i as int));
                assert(rest.skip(i - start + 3) =~= line@.skip(i + 3));
                assert(out.deep_view().push(piece@) + segments(line@.skip(i + 3)) =~= out.deep_view()
                    + segments(rest));
            }
            let ghost before = out.deep_view();
            out.push(piece);
            assert(out.deep_view() =~= before.push(piece@));
            i += 3;
            start = i;
        } else {
            assert(!delimiter_at(rest, i - start));
            i += 1;
        }
    }
    let piece = line.substring_char(start, n).to_owned();
    proof {
        let rest = line@.skip(start as int);
        assert forall|k: int| 0 <= k < rest.len() implies !delimiter_at(rest, k) by {}
        lemma_first_delimiter(rest);
        assert(rest =~= line@.subrange(start as int, n as int));
        assert(out.deep_view().push(piece@) =~= out.deep_view() + segments(rest));
    }
    let ghost before = out.deep_view();
    out.push(piece);
    assert(out.deep_view() =~= before.push(piece@));
    out
}

/// Parses one input line into a pipeline.
///
/// The line is cut at its delimiters and each piece is split into words. The
/// parse fails at the first piece without a word, and names its place.
pub fn parse_line(line: &str) -> (r: Result<PipelineSpec, ParseError>)
    ensures
        r is Ok <==> well_formed(line@),
        r matches Ok(pipeline) ==> pipeline@ == stages_of(line@),
        r matches Err(ParseError::EmptyCommand { stage }) ==> is_first_blank(line@, stage as int),
        match r {
            Ok(pipeline) => parsed(line@) == Ok::<Seq<StageView>, ParseError>(pipeline@),
            Err(error) => parsed(line@) == Err::<Seq<StageView>, ParseError>(error),
        },
{
    let pieces = split_stages(line);
    let n: usize = pieces.len();
    let mut stages: Vec<StageSpec> = Vec::new();
    let mut i: usize = 0;
    while i < n
        invariant
            i <= n,
            n == pieces.len(),
            pieces.deep_view() == segments(line@),
            stages.len() == i,
            forall|j: int| 0 <= j < i ==> !is_blank(#[trigger] segments(line@)[j]),
            forall|j: int| 0 <= j < i ==> (#[trigger] stages@[j])@ == stage_view(segments(line@)[j]),
        decreases n - i,
    {
        assert(pieces.deep_view()[i as int] == pieces@[i as int]@);
        let mut found = split_words(pieces[i].as_str());
        if found.len() == 0 {
            proof {
                assert(is_first_blank(line@, i as int));
                let place = choose|place: int| is_first_blank(line@, place);
                if place < i {
                    assert(!is_blank(segments(line@)[place]));
                }
                if i < place {
                    assert(!is_blank(segments(line@)[i as int]));
                }
            }
            return Err(ParseError::EmptyCommand { stage: i });
        }
        let ghost all = found.deep_view();
        let command = found.remove(0);
        assert(command@ == all[0]);
        assert(found.deep_view() =~= all.drop_first());
        proof {
            lemma_words_are_words(segments(line@)[i as int]);
        }
        let kind = classify(command.as_str());
        let stage = StageSpec { kind, command, args: found };
        stages.push(stage);
        i += 1;
    }
    let pipeline = PipelineSpec { stages };
    assert(pipeline@ =~= stages_of(line@));
    Ok(pipeline)
}

} // verus!
