//! The supervisor of the child process, as a state machine.
//!
//! The supervisor itself spawns nothing and reads nothing. Its host performs
//! the `Action` it is told, reports what happened as an `Outcome`, and passes
//! on the `ProcessMessage` that the supervisor emits for it. The write handle
//! of the child travels through by value: it comes in with `Outcome::Spawned`
//! and leaves with `ProcessMessage::InputReady`, once.

use crate::lines::Next;
use vstd::prelude::*;

verus! {

/// Where the child process is in its life.
#[derive(Clone, Copy, Debug, PartialEq, Eq)]
pub enum State {
    NotStarted,
    Starting,
    Running,
    Finished,
}

/// What the host has to do next.
#[derive(Clone, Copy, Debug, PartialEq, Eq)]
pub enum Action {
    /// Nothing new: go on with what is under way.
    Idle,
    /// Spawn the child with both pipes captured, and report.
    Spawn,
    /// Read the next line of the child's output, and report.
    ReadLine,
    /// The stream of events has ended for good.
    Stop,
}

/// What the host reports back. `H` is the handle to the child's input.
#[derive(Debug, Clone, PartialEq, Eq)]
pub enum Outcome<H> {
    Spawned(H),
    SpawnFailed,
    Line(String),
    EndOfOutput,
}

/// The events of a supervised process.
#[derive(Debug, Clone, PartialEq, Eq)]
pub enum ProcessMessage<H> {
    /// The child runs; here is the only handle to its input.
    InputReady(H),
    /// One line of the child's output.
    Response(String),
    /// The child's output has ended.
    Finish,
    /// The child could not be spawned.
    Failed,
}

/// Whether an outcome is one that the supervisor waits for in a state.
pub open spec fn accepts<H>(state: State, outcome: Outcome<H>) -> bool {
    match state {
        State::Starting => outcome is Spawned || outcome is SpawnFailed,
        State::Running => outcome is Line || outcome is EndOfOutput,
        _ => false,
    }
}

/// The state that follows a state on an outcome. An outcome that is not
/// waited for changes nothing.
pub open spec fn next_state<H>(state: State, outcome: Outcome<H>) -> State {
    if !accepts(state, outcome) {
        state
    } else {
        match outcome {
            Outcome::Spawned(_) | Outcome::Line(_) => State::Running,
            Outcome::SpawnFailed | Outcome::EndOfOutput => State::Finished,
        }
    }
}

/// The event that a state emits on an outcome, if any.
pub open spec fn emitted<H>(state: State, outcome: Outcome<H>) -> Option<ProcessMessage<H>> {
    if !accepts(state, outcome) {
        None
    } else {
        Some(
            match outcome {
                Outcome::Spawned(handle) => ProcessMessage::InputReady(handle),
                Outcome::SpawnFailed => ProcessMessage::Failed,
                Outcome::Line(text) => ProcessMessage::Response(text),
                Outcome::EndOfOutput => ProcessMessage::Finish,
            },
        )
    }
}

/// What the host is told after an outcome.
pub open spec fn next_action<H>(state: State, outcome: Outcome<H>) -> Action {
    if accepts(state, outcome) {
        match next_state(state, outcome) {
            State::Running => Action::ReadLine,
            _ => Action::Stop,
        }
    } else if state is Finished {
        Action::Stop
    } else {
        Action::Idle
    }
}

/// The state reached from `state` after a run of outcomes.
pub open spec fn state_after<H>(state: State, outcomes: Seq<Outcome<H>>) -> State
    decreases outcomes.len(),
{
    if outcomes.len() == 0 {
        state
    } else {
        next_state(state_after(state, outcomes.drop_last()), outcomes.last())
    }
}

/// The events emitted from `state` over a run of outcomes, in order.
pub open spec fn trace<H>(state: State, outcomes: Seq<Outcome<H>>) -> Seq<ProcessMessage<H>>
    decreases outcomes.len(),
{
    if outcomes.len() == 0 {
        Seq::empty()
    } else {
        let before = trace(state, outcomes.drop_last());
        match emitted(state_after(state, outcomes.drop_last()), outcomes.last()) {
            Some(message) => before.push(message),
            None => before,
        }
    }
}

/// The shape of the events seen so far, by the state reached: nothing before
/// the child runs; then one `InputReady` and after it only `Response`s; at
/// the end either that same run closed by one `Finish`, or `Failed` alone.
pub open spec fn in_order<H>(events: Seq<ProcessMessage<H>>, state: State) -> bool {
    match state {
        State::NotStarted | State::Starting => events.len() == 0,
        State::Running => {
            &&& events.len() >= 1
            &&& events[0] is InputReady
            &&& forall|i: int| 1 <= i < events.len() ==> events[i] is Response
        },
        State::Finished => {
            ||| events.len() == 1 && events[0] is Failed
            ||| {
                &&& events.len() >= 2
                &&& events[0] is InputReady
                &&& events.last() is Finish
                &&& forall|i: int| 1 <= i < events.len() - 1 ==> events[i] is Response
            }
        },
    }
}

/// The supervisor of one child process.
#[derive(Debug)]
pub struct Process {
    state: State,
}

impl View for Process {
    type V = State;

    closed spec fn view(&self) -> State {
        self.state
    }
}

impl Process {
    /// A supervisor whose child has not been started.
    pub fn new() -> (process: Process)
        ensures
            process@ == State::NotStarted,
    {
        Process { state: State::NotStarted }
    }

    /// The state the supervisor is in.
    pub fn state(&self) -> (state: State)
        ensures
            state == self@,
    {
        self.state
    }

    /// Starts the supervisor. The first call moves it to `Starting` and asks
    /// for the spawn; every later call changes nothing and asks for nothing.
    pub fn activate(&mut self) -> (action: Action)
        ensures
            old(self)@ is NotStarted ==> final(self)@ == State::Starting && action == Action::Spawn,
            !(old(self)@ is NotStarted) ==> final(self)@ == old(self)@ && action == Action::Idle,
    {
        match self.state {
            State::NotStarted => {
                self.state = State::Starting;
                Action::Spawn
            },
            _ => Action::Idle,
        }
    }

    /// Takes what the host reports, moves to the next state, and gives the
    /// event to pass on, if any, with what the host has to do next.
    pub fn step<H>(&mut self, outcome: Outcome<H>) -> (r: (Option<ProcessMessage<H>>, Action))
        ensures
            final(self)@ == next_state(old(self)@, outcome),
            r.0 == emitted(old(self)@, outcome),
            r.1 == next_action(old(self)@, outcome),
    {
        match self.state {
            State::Starting => match outcome {
                Outcome::Spawned(handle) => {
                    self.state = State::Running;
                    (Some(ProcessMessage::InputReady(handle)), Action::ReadLine)
                },
                Outcome::SpawnFailed => {
                    self.state = State::Finished;
                    (Some(ProcessMessage::Failed), Action::Stop)
                },
                _ => (None, Action::Idle),
            },
            State::Running => match outcome {
                Outcome::Line(text) => (Some(ProcessMessage::Response(text)), Action::ReadLine),
                Outcome::EndOfOutput => {
                    self.state = State::Finished;
                    (Some(ProcessMessage::Finish), Action::Stop)
                },
                _ => (None, Action::Idle),
            },
            State::Finished => (None, Action::Stop),
            State::NotStarted => (None, Action::Idle),
        }
    }
}

/// What a line source's answer means for the supervisor of the process whose
/// output it reads: a line is a line, the end is the end of the output, and
/// where the source waits for bytes there is nothing to report yet.
pub fn reported<H>(next: Next) -> (outcome: Option<Outcome<H>>)
    ensures
        outcome == match next {
            Next::Line(text) => Some(Outcome::<H>::Line(text)),
            Next::Pending => None,
            Next::End => Some(Outcome::<H>::EndOfOutput),
        },
{
    match next {
        Next::Line(text) => Some(Outcome::Line(text)),
        Next::Pending => None,
        Next::End => Some(Outcome::EndOfOutput),
    }
}

/// The whole stream of events of a supervisor that is activated and then
/// told the given outcomes one after the other.
pub fn process<H>(outcomes: Vec<Outcome<H>>) -> (events: Vec<ProcessMessage<H>>)
    ensures
        events@ == trace(State::Starting, outcomes@),
{
    let mut supervisor = Process::new();
    let _ = supervisor.activate();
    let mut events: Vec<ProcessMessage<H>> = Vec::new();
    let ghost all = outcomes@;
    for outcome in it: outcomes
        invariant
            it.seq() == all,
            supervisor@ == state_after(State::Starting, all.take(it.index() as int)),
            events@ == trace(State::Starting, all.take(it.index() as int)),
    {
        proof {
            let next = all.take(it.index() + 1);
            assert(next.drop_last() == all.take(it.index() as int));
            assert(next.last() == outcome);
        }
        let (message, _) = supervisor.step(outcome);
        match message {
            Some(m) => {
                events.push(m);
            },
            None => {},
        }
    }
    proof {
        assert(all.take(all.len() as int) == all);
    }
    events
}

/// Before it is activated a supervisor emits nothing and stays where it is,
/// whatever it is told.
pub proof fn lemma_silent_until_activated<H>(outcomes: Seq<Outcome<H>>)
    ensures
        state_after(State::NotStarted, outcomes) == State::NotStarted,
        trace(State::NotStarted, outcomes).len() == 0,
    decreases outcomes.len(),
{
    if outcomes.len() > 0 {
        lemma_silent_until_activated(outcomes.drop_last());
    }
}

/// Where the spawn fails, the error is the only event, whatever is told
/// after it.
pub proof fn lemma_failed_spawn<H>(outcomes: Seq<Outcome<H>>)
    requires
        outcomes.len() > 0,
        outcomes[0] is SpawnFailed,
    ensures
        state_after(State::Starting, outcomes) == State::Finished,
        trace(State::Starting, outcomes) == seq![ProcessMessage::<H>::Failed],
    decreases outcomes.len(),
{
    if outcomes.len() == 1 {
        reveal_with_fuel(state_after, 2);
        reveal_with_fuel(trace, 2);
        assert(outcomes.drop_last().len() == 0);
        assert(outcomes.last() == outcomes[0]);
        assert(trace(State::Starting, outcomes) == Seq::<ProcessMessage<H>>::empty().push(
            ProcessMessage::<H>::Failed,
        ));
    } else {
        assert(outcomes.drop_last()[0] == outcomes[0]);
        lemma_failed_spawn(outcomes.drop_last());
    }
}

/// Where the spawn succeeds, the first event hands out the handle that came
/// with it, and no event is `Failed`.
pub proof fn lemma_successful_spawn<H>(outcomes: Seq<Outcome<H>>)
    requires
        outcomes.len() > 0,
        outcomes[0] is Spawned,
    ensures
        !(state_after(State::Starting, outcomes) is Starting),
        trace(State::Starting, outcomes).len() >= 1,
        trace(State::Starting, outcomes)[0] == ProcessMessage::InputReady(outcomes[0]->Spawned_0),
        forall|i: int|
            0 <= i < trace(State::Starting, outcomes).len() ==> !(#[trigger] trace(
                State::Starting,
                outcomes,
            )[i] is Failed),
    decreases outcomes.len(),
{
    lemma_events_in_order(outcomes);
    if outcomes.len() == 1 {
        reveal_with_fuel(state_after, 2);
        reveal_with_fuel(trace, 2);
        assert(outcomes.drop_last().len() == 0);
        assert(outcomes.last() == outcomes[0]);
    } else {
        assert(outcomes.drop_last()[0] == outcomes[0]);
        lemma_successful_spawn(outcomes.drop_last());
        lemma_events_in_order(outcomes.drop_last());
    }
}

/// Whatever an activated supervisor is told, its events come in order: one
/// `InputReady`, then `Response`s, then one `Finish`, after which nothing;
/// or, where the spawn failed, `Failed` and nothing else.
pub proof fn lemma_events_in_order<H>(outcomes: Seq<Outcome<H>>)
    ensures
        in_order(trace(State::Starting, outcomes), state_after(State::Starting, outcomes)),
    decreases outcomes.len(),
{
    if outcomes.len() > 0 {
        lemma_events_in_order(outcomes.drop_last());
    }
}

} // verus!
