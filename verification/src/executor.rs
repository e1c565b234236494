//! The pipeline executor, as a state machine.
//!
//! Starting processes, changing the working directory and waiting are done by
//! the caller. The machine decides what is done next: it hands out one
//! [`Action`] at a time and takes back an [`Event`] that says how the action
//! went. Stages are taken strictly from left to right, and the handle of a
//! started process travels from the event that reports it to the very next
//! action, so at most one handle is outstanding at any time.

use crate::parser::{kind_of, CommandKind, PipelineSpec, StageView};
use vstd::prelude::*;

verus! {

/// Where the standard output of a started program goes.
#[derive(Clone, Copy, PartialEq, Eq, Structural, Debug)]
pub enum Sink {
    /// To the terminal of the shell.
    Inherit,
    /// Into a new pipe, whose reading end the next stage gets.
    Pipe,
}

/// What the caller is asked to do. `H` is the caller's handle of a started
/// process, which owns the reading end of the process's output pipe.
#[derive(Debug, PartialEq, Eq)]
pub enum Action<H> {
    /// Change the working directory to the one that stage `stage` asks for.
    ChangeDirectory { stage: usize },
    /// Start the program of stage `stage`. Its standard input is the output of
    /// `input`, or the terminal where there is none.
    Spawn { stage: usize, input: Option<H>, output: Sink },
    /// Block until `process`, the last one started, has ended.
    Wait { process: H },
    /// Leave the shell at once.
    Exit,
    /// Nothing is left to do for this pipeline.
    Finished,
}

/// How the action that was handed out last went.
#[derive(Debug, PartialEq, Eq)]
pub enum Event<H> {
    /// The program was started, and this is its handle.
    Spawned(H),
    /// The action was done, and left no handle.
    Completed,
    /// The action failed. The failure has been reported and is not fatal.
    Failed,
}

/// What the machine is waiting for.
#[derive(Clone, Copy, PartialEq, Eq, Structural, Debug)]
pub enum Phase {
    /// A change of directory is under way.
    ChangingDirectory,
    /// A program is being started.
    Spawning,
    /// The last process is being waited for.
    Draining,
    /// An `exit` was met: the shell is to end.
    Exited,
    /// The pipeline has been run to its end.
    Done,
}

/// The state of a run as plain values.
pub struct Machine<H> {
    pub stages: Seq<StageView>,
    pub position: nat,
    pub phase: Phase,
    pub previous_output: Option<H>,
}

/// The sink of the stage at `position`: a pipe unless the stage is the last.
pub open spec fn sink_at(stages: Seq<StageView>, position: nat) -> Sink {
    if position + 1 < stages.len() {
        Sink::Pipe
    } else {
        Sink::Inherit
    }
}

/// The machine reaches the stage at `position` while `carried` is the process
/// started by the stage just before it, if that stage started one.
///
/// A program takes the process over as its input, and the wait at the end
/// takes it over too. A change of directory drops it. An `exit` leaves it
/// where it is: it is never connected.
pub open spec fn dispatch<H>(stages: Seq<StageView>, position: nat, carried: Option<H>) -> (
    Machine<H>,
    Action<H>,
) {
    if position >= stages.len() {
        match carried {
            Some(process) => (
                Machine { stages, position, phase: Phase::Draining, previous_output: None },
                Action::Wait { process },
            ),
            None => (
                Machine { stages, position, phase: Phase::Done, previous_output: None },
                Action::Finished,
            ),
        }
    } else {
        match kind_of(stages[position as int].command) {
            CommandKind::ChangeDirectory => (
                Machine { stages, position, phase: Phase::ChangingDirectory, previous_output: None },
                Action::ChangeDirectory { stage: position as usize },
            ),
            CommandKind::Exit => (
                Machine { stages, position, phase: Phase::Exited, previous_output: carried },
                Action::Exit,
            ),
            CommandKind::External => (
                Machine { stages, position, phase: Phase::Spawning, previous_output: None },
                Action::Spawn {
                    stage: position as usize,
                    input: carried,
                    output: sink_at(stages, position),
                },
            ),
        }
    }
}

/// The handle that an event leaves for the next stage: the one of a program
/// that was being started and did start.
pub open spec fn carried<H>(phase: Phase, event: Event<H>) -> Option<H> {
    match event {
        Event::Spawned(process) => if phase == Phase::Spawning {
            Some(process)
        } else {
            None
        },
        _ => None,
    }
}

/// Whether the stage that an action names, if it names one, is among the
/// first `count` stages.
pub open spec fn within<H>(action: Action<H>, count: nat) -> bool {
    match action {
        Action::ChangeDirectory { stage } => stage < count,
        Action::Spawn { stage, .. } => stage < count,
        _ => true,
    }
}

/// The first state and action of a run of `stages`.
pub open spec fn begin_model<H>(stages: Seq<StageView>) -> (Machine<H>, Action<H>) {
    dispatch(stages, 0, None)
}

/// The state and action that follow `machine` once `event` has come in. A
/// failure never stops the run: the machine goes on to the next stage.
pub open spec fn step_model<H>(machine: Machine<H>, event: Event<H>) -> (Machine<H>, Action<H>) {
    match machine.phase {
        Phase::ChangingDirectory | Phase::Spawning => dispatch(
            machine.stages,
            machine.position + 1,
            carried(machine.phase, event),
        ),
        Phase::Draining => (Machine { phase: Phase::Done, ..machine }, Action::Finished),
        Phase::Exited => (machine, Action::Exit),
        Phase::Done => (machine, Action::Finished),
    }
}

/// The state reached and the actions handed out, in their order, when the
/// events of `events` answer the actions of a run of `stages` one by one.
pub open spec fn run<H>(stages: Seq<StageView>, events: Seq<Event<H>>) -> (
    Machine<H>,
    Seq<Action<H>>,
)
    decreases events.len(),
{
    if events.len() == 0 {
        let first = begin_model::<H>(stages);
        (first.0, seq![first.1])
    } else {
        let before = run(stages, events.drop_last());
        let next = step_model(before.0, events.last());
        (next.0, before.1.push(next.1))
    }
}

/// Whether an action starts a program.
pub open spec fn is_spawn<H>(action: Action<H>) -> bool {
    action is Spawn
}

/// Whether an action starts a program whose input is the output of another:
/// one pipe connection.
pub open spec fn is_connection<H>(action: Action<H>) -> bool {
    action matches Action::Spawn { input, .. } && input is Some
}

/// The number of programs that the actions of `trace` start.
pub open spec fn spawns<H>(trace: Seq<Action<H>>) -> nat
    decreases trace.len(),
{
    if trace.len() == 0 {
        0
    } else if is_spawn(trace.last()) {
        spawns(trace.drop_last()) + 1
    } else {
        spawns(trace.drop_last())
    }
}

/// The number of pipe connections that the actions of `trace` make.
pub open spec fn connections<H>(trace: Seq<Action<H>>) -> nat
    decreases trace.len(),
{
    if trace.len() == 0 {
        0
    } else if is_connection(trace.last()) {
        connections(trace.drop_last()) + 1
    } else {
        connections(trace.drop_last())
    }
}

/// What holds of the last action and the state after any run.
pub open spec fn settled<H>(stages: Seq<StageView>, machine: Machine<H>, last: Action<H>) -> bool {
    &&& machine.stages == stages
    &&& machine.position <= stages.len()
    &&& machine.previous_output is Some ==> machine.phase == Phase::Exited
    &&& match machine.phase {
        Phase::ChangingDirectory => {
            &&& machine.position < stages.len()
            &&& last == Action::<H>::ChangeDirectory { stage: machine.position as usize }
        },
        Phase::Spawning => {
            &&& machine.position < stages.len()
            &&& last matches Action::Spawn { stage, output, .. }
            &&& stage == machine.position as usize
            &&& output == sink_at(stages, machine.position)
        },
        Phase::Draining => machine.position == stages.len() && last is Wait,
        Phase::Exited => machine.position < stages.len() && last == Action::<H>::Exit,
        Phase::Done => last == Action::<H>::Finished,
    }
}

/// The number 1 where the machine is starting a program, else 0.
pub open spec fn starting(phase: Phase) -> nat {
    if phase == Phase::Spawning {
        1
    } else {
        0
    }
}

/// After any run: one action was handed out at the start and one for each
/// event; no more programs were started than stages were reached; and no
/// more connections were made than programs were started after the first
/// stage.
pub proof fn lemma_run_settles<H>(stages: Seq<StageView>, events: Seq<Event<H>>)
    ensures
        run(stages, events).1.len() == events.len() + 1,
        settled(stages, run(stages, events).0, run(stages, events).1.last()),
        spawns(run(stages, events).1) <= run(stages, events).0.position + starting(
            run(stages, events).0.phase,
        ),
        connections(run(stages, events).1) + 1 <= run(stages, events).0.position + starting(
            run(stages, events).0.phase,
        ) || connections(run(stages, events).1) == 0,
    decreases events.len(),
{
    if events.len() == 0 {
        let first = begin_model::<H>(stages);
        let trace = seq![first.1];
        assert(trace.drop_last() =~= Seq::<Action<H>>::empty());
        assert(trace.last() == first.1);
        assert(spawns(trace.drop_last()) == 0);
        assert(connections(trace.drop_last()) == 0);
    } else {
        let before = run(stages, events.drop_last());
        lemma_run_settles(stages, events.drop_last());
        let next = step_model(before.0, events.last());
        let trace = before.1.push(next.1);
        assert(trace.drop_last() =~= before.1);
        assert(trace.last() == next.1);
    }
}

/// However a run goes, it starts at most as many programs as the pipeline
/// has stages, and makes at most one pipe connection fewer.
pub proof fn lemma_run_bounds<H>(stages: Seq<StageView>, events: Seq<Event<H>>)
    ensures
        spawns(run(stages, events).1) <= stages.len(),
        connections(run(stages, events).1) + 1 <= stages.len() || connections(
            run(stages, events).1,
        ) == 0,
{
    lemma_run_settles(stages, events);
}

/// The actions of a run do not depend on the events that come later.
pub proof fn lemma_run_prefix<H>(stages: Seq<StageView>, events: Seq<Event<H>>, k: int)
    requires
        0 <= k <= events.len(),
    ensures
        run(stages, events.take(k)).1 == run(stages, events).1.take(k + 1),
    decreases events.len() - k,
{
    lemma_run_settles(stages, events);
    if k == events.len() {
        assert(events.take(k) =~= events);
        assert(run(stages, events).1.take(k + 1) =~= run(stages, events).1);
    } else {
        let shorter = events.drop_last();
        lemma_run_settles(stages, shorter);
        lemma_run_prefix(stages, shorter, k);
        assert(shorter.take(k) =~= events.take(k));
        assert(run(stages, events).1.take(k + 1) =~= run(stages, shorter).1.take(k + 1));
    }
}

/// Every pipe connection joins a stage to the one just before it: the
/// program whose input is the output of `process` is started right after the
/// event that reported `process`, and `process` is the program of the stage
/// before, started with a pipe as its output.
pub proof fn lemma_connection_joins_neighbours<H>(
    stages: Seq<StageView>,
    events: Seq<Event<H>>,
    k: int,
)
    requires
        stages.len() <= usize::MAX,
        0 <= k <= events.len(),
        is_connection(run(stages, events).1[k]),
    ensures
        k > 0,
        events[k - 1] == Event::Spawned(run(stages, events).1[k]->Spawn_input->0),
        run(stages, events).1[k - 1] matches Action::Spawn { stage, output, .. } && stage + 1
            == run(stages, events).1[k]->Spawn_stage && output == Sink::Pipe,
{
    let trace = run(stages, events).1;
    lemma_run_settles(stages, events);
    lemma_run_prefix(stages, events, k);
    let upto = events.take(k);
    lemma_run_settles(stages, upto);
    assert(run(stages, upto).1.last() == trace[k]);
    if k == 0 {
        assert(upto =~= Seq::<Event<H>>::empty());
    } else {
        let before = run(stages, upto.drop_last());
        lemma_run_settles(stages, upto.drop_last());
        lemma_run_prefix(stages, events, k - 1);
        assert(upto.drop_last() =~= events.take(k - 1));
        assert(before.1.last() == trace[k - 1]);
        assert(upto.last() == events[k - 1]);
    }
}

/// Where every stage names a program and every program starts, a pipeline
/// of `n` stages starts `n` programs and makes `n - 1` pipe connections:
/// each program but the first reads what the one before it writes, each but
/// the last writes into a pipe, and the last one is waited for.
pub proof fn lemma_all_programs_start<H>(stages: Seq<StageView>, handles: Seq<H>)
    requires
        stages.len() >= 1,
        stages.len() <= usize::MAX,
        handles.len() == stages.len(),
        forall|i: int|
            0 <= i < stages.len() ==> kind_of(#[trigger] stages[i].command)
                == CommandKind::External,
    ensures
        ({
            let n = stages.len() as int;
            let trace = run(stages, handles.map_values(|h: H| Event::Spawned(h))).1;
            &&& trace.len() == n + 1
            &&& spawns(trace) == n
            &&& connections(trace) == n - 1
            &&& trace[0] == Action::<H>::Spawn {
                stage: 0,
                input: None,
                output: sink_at(stages, 0),
            }
            &&& forall|i: int|
                1 <= i < n ==> #[trigger] trace[i] == Action::<H>::Spawn {
                    stage: i as usize,
                    input: Some(handles[i - 1]),
                    output: sink_at(stages, i as nat),
                }
            &&& trace[n] == Action::<H>::Wait { process: handles[n - 1] }
        }),
{
    let events = handles.map_values(|h: H| Event::Spawned(h));
    lemma_started_prefix(stages, handles, stages.len() as int);
    assert(events.take(stages.len() as int) =~= events);
}

proof fn lemma_started_prefix<H>(stages: Seq<StageView>, handles: Seq<H>, k: int)
    requires
        stages.len() >= 1,
        stages.len() <= usize::MAX,
        handles.len() == stages.len(),
        0 <= k <= stages.len(),
        forall|i: int|
            0 <= i < stages.len() ==> kind_of(#[trigger] stages[i].command)
                == CommandKind::External,
    ensures
        ({
            let n = stages.len() as int;
            let state = run(stages, handles.map_values(|h: H| Event::Spawned(h)).take(k)).0;
            let trace = run(stages, handles.map_values(|h: H| Event::Spawned(h)).take(k)).1;
            &&& trace.len() == k + 1
            &&& state.stages == stages
            &&& state.position == k
            &&& state.phase == (if k < n {
                Phase::Spawning
            } else {
                Phase::Draining
            })
            &&& spawns(trace) == (if k < n {
                k + 1
            } else {
                k
            })
            &&& connections(trace) == (if k < n {
                k
            } else {
                k - 1
            })
            &&& trace[0] == Action::<H>::Spawn {
                stage: 0,
                input: None,
                output: sink_at(stages, 0),
            }
            &&& forall|i: int|
                1 <= i <= k && i < n ==> #[trigger] trace[i] == Action::<H>::Spawn {
                    stage: i as usize,
                    input: Some(handles[i - 1]),
                    output: sink_at(stages, i as nat),
                }
            &&& k == n ==> trace[n] == Action::<H>::Wait { process: handles[n - 1] }
        }),
    decreases k,
{
    let n = stages.len() as int;
    let events = handles.map_values(|h: H| Event::Spawned(h));
    if k == 0 {
        assert(events.take(0) =~= Seq::<Event<H>>::empty());
        let first = begin_model::<H>(stages);
        let trace = seq![first.1];
        assert(trace.drop_last() =~= Seq::<Action<H>>::empty());
        assert(trace.last() == first.1);
        assert(spawns(trace.drop_last()) == 0);
        assert(connections(trace.drop_last()) == 0);
        assert(kind_of(stages[0].command) == CommandKind::External);
    } else {
        lemma_started_prefix(stages, handles, k - 1);
        let upto = events.take(k);
        assert(upto.drop_last() =~= events.take(k - 1));
        assert(upto.last() == Event::Spawned(handles[k - 1]));
        let before = run(stages, events.take(k - 1));
        let next = step_model(before.0, upto.last());
        let trace = before.1.push(next.1);
        assert(run(stages, upto).1 == trace);
        assert(trace.drop_last() =~= before.1);
        assert(trace.last() == next.1);
        if k < n {
            assert(kind_of(stages[k].command) == CommandKind::External);
        }
        assert forall|i: int| 1 <= i <= k && i < n implies #[trigger] trace[i] == Action::<
            H,
        >::Spawn {
            stage: i as usize,
            input: Some(handles[i - 1]),
            output: sink_at(stages, i as nat),
        } by {
            if i < k {
                assert(trace[i] == before.1[i]);
            }
        }
        assert(trace[0] == before.1[0]);
    }
}

/// The run of one pipeline: the place it has reached, what it waits for, and
/// the output of the stage before, which is held only until the next stage
/// takes it over.
pub struct PipelineState<H> {
    pipeline: PipelineSpec,
    position: usize,
    phase: Phase,
    previous_output: Option<H>,
}

impl<H> View for PipelineState<H> {
    type V = Machine<H>;

    closed spec fn view(&self) -> Machine<H> {
        Machine {
            stages: self.pipeline@,
            position: self.position as nat,
            phase: self.phase,
            previous_output: self.previous_output,
        }
    }
}

impl<H> PipelineState<H> {
    #[verifier::type_invariant]
    spec fn in_range(&self) -> bool {
        &&& self.position <= self.pipeline@.len()
        &&& self.phase == Phase::ChangingDirectory || self.phase == Phase::Spawning
            ==> self.position < self.pipeline@.len()
        &&& self.previous_output is Some ==> self.phase == Phase::Exited
    }

    /// Starts the run of `pipeline` and says what is to be done first.
    pub fn begin(pipeline: PipelineSpec) -> (r: (PipelineState<H>, Action<H>))
        ensures
            (r.0@, r.1) == begin_model::<H>(pipeline@),
            within(r.1, pipeline@.len()),
    {
        Self::arrive(pipeline, 0, None)
    }

    /// Takes in how the last action went and says what is to be done next.
    pub fn step(self, event: Event<H>) -> (r: (PipelineState<H>, Action<H>))
        ensures
            (r.0@, r.1) == step_model(self@, event),
            within(r.1, self@.stages.len()),
    {
        proof {
            use_type_invariant(&self);
        }
        let n: usize = self.pipeline.len();
        assert(self.phase == Phase::ChangingDirectory || self.phase == Phase::Spawning
            ==> self.position < n);
        match self.phase {
            Phase::ChangingDirectory => Self::arrive(self.pipeline, self.position + 1, None),
            Phase::Spawning => {
                let handle = match event {
                    Event::Spawned(process) => Some(process),
                    _ => None,
                };
                Self::arrive(self.pipeline, self.position + 1, handle)
            },
            Phase::Draining => (
                PipelineState {
                    pipeline: self.pipeline,
                    position: self.position,
                    phase: Phase::Done,
                    previous_output: None,
                },
                Action::Finished,
            ),
            Phase::Exited => (self, Action::Exit),
            Phase::Done => (self, Action::Finished),
        }
    }

    fn arrive(pipeline: PipelineSpec, position: usize, carried: Option<H>) -> (r: (
        PipelineState<H>,
        Action<H>,
    ))
        requires
            position <= pipeline@.len(),
        ensures
            (r.0@, r.1) == dispatch(pipeline@, position as nat, carried),
            within(r.1, pipeline@.len()),
    {
        let n: usize = pipeline.len();
        let kind = match pipeline.stage(position) {
            Some(stage) => Some(stage.kind()),
            None => None,
        };
        match kind {
            None => match carried {
                Some(process) => (
                    PipelineState { pipeline, position, phase: Phase::Draining, previous_output: None },
                    Action::Wait { process },
                ),
                None => (
                    PipelineState { pipeline, position, phase: Phase::Done, previous_output: None },
                    Action::Finished,
                ),
            },
            Some(CommandKind::ChangeDirectory) => (
                PipelineState {
                    pipeline,
                    position,
                    phase: Phase::ChangingDirectory,
                    previous_output: None,
                },
                Action::ChangeDirectory { stage: position },
            ),
            Some(CommandKind::Exit) => (
                PipelineState { pipeline, position, phase: Phase::Exited, previous_output: carried },
                Action::Exit,
            ),
            Some(CommandKind::External) => {
                let output = if n - position > 1 {
                    Sink::Pipe
                } else {
                    Sink::Inherit
                };
                (
                    PipelineState { pipeline, position, phase: Phase::Spawning, previous_output: None },
                    Action::Spawn { stage: position, input: carried, output },
                )
            },
        }
    }

    /// The pipeline that is being run.
    pub fn pipeline(&self) -> (p: &PipelineSpec)
        ensures
            p@ == self@.stages,
    {
        &self.pipeline
    }

    /// The place of the stage that was reached last, counted from zero; the
    /// number of stages once all of them have been passed.
    pub fn position(&self) -> (p: usize)
        ensures
            p == self@.position,
            p <= self@.stages.len(),
    {
        proof {
            use_type_invariant(self);
        }
        self.position
    }

    /// What the machine is waiting for.
    pub fn phase(&self) -> (p: Phase)
        ensures
            p == self@.phase,
    {
        self.phase
    }

    /// Whether a process is held that no stage has taken over. That is so
    /// only after an `exit` that followed a started program.
    pub fn holds_output(&self) -> (b: bool)
        ensures
            b == self@.previous_output is Some,
            b ==> self@.phase == Phase::Exited,
    {
        proof {
            use_type_invariant(self);
        }
        self.previous_output.is_some()
    }
}

} // verus!
