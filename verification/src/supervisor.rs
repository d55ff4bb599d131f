//! Supervising a child process: what to do next, and how it ended.
//!
//! A driver asks the [`Supervisor`] for its [`action`](Supervisor::action),
//! performs it, and reports what happened with [`step`](Supervisor::step),
//! which hands back the progress events to pass on to the caller. One
//! thread does all of it: output is drained and the child is polled in
//! turn, a fixed interval apart.
use crate::event::{
    decode_all, decode_lines, events_view, lemma_decode_all_concat, AptUpgradeEvent, EventView,
};
use crate::lines::{
    complete_lines, lemma_chunking_is_invisible, lemma_unbroken_is_pending, pending_fragment,
    unbroken, OutputBuffer,
};
use crate::lock::POLL_INTERVAL_MS;
use crate::reader::{
    held_after, lines_after, line_texts, non_blocking_line_reading, status_after, ReadOutcome,
    ReadStatus,
};
use crate::text::texts;
use vstd::prelude::*;

verus! {

/// How a child process ended, as the operating system reports it: its exit
/// code, if it exited, and the signal that ended it, if one did.
#[derive(Debug, Clone, Copy, PartialEq, Eq, Structural)]
pub struct ChildExit {
    pub code: Option<i32>,
    pub signal: Option<i32>,
}

/// Why an operation failed.
#[derive(Debug, Clone, Copy, PartialEq, Eq, Structural)]
pub enum Failure {
    /// The child process could not be launched.
    Spawn,
    /// Reading the child's output failed. The child may still be running.
    Read,
    /// The child exited with this code, which is not zero.
    Exit { code: i32 },
    /// The child ended without an exit code: by this signal, if one is known.
    Abnormal { signal: Option<i32> },
}

/// How an operation ended.
#[derive(Debug, Clone, Copy, PartialEq, Eq, Structural)]
pub enum CommandResult {
    Succeeded,
    Failed(Failure),
    /// The package database stayed locked for as long as the wait allowed;
    /// the command was never launched.
    LockTimeout,
}

/// What a supervisor with a running child is doing.
#[derive(Debug, Clone, Copy, PartialEq, Eq, Structural)]
pub enum Activity {
    /// Letting the polling interval pass.
    Sleeping,
    /// Reading what output is available.
    Draining,
    /// Asking whether the child has exited.
    Polling,
    /// Reading what output is left after the child has exited.
    Flushing(ChildExit),
}

/// Where a supervised operation stands.
#[derive(Debug, Clone, Copy, PartialEq, Eq, Structural)]
pub enum SupervisorState {
    /// The child has not been launched yet.
    Spawning,
    Running(Activity),
    Finished(CommandResult),
}

/// What the driver reports to the supervisor.
#[derive(Debug, Clone, PartialEq, Eq)]
pub enum SupervisorEvent {
    /// The wait for the lock that gates the launch has timed out.
    LockTimedOut,
    /// The child was launched, with its output captured and non-blocking.
    Spawned,
    /// The child could not be launched.
    SpawnFailed,
    /// The polling interval has passed.
    Woke,
    /// A read of the child's output came back.
    Read(ReadOutcome),
    /// The child has not exited yet.
    StillRunning,
    /// The child has exited.
    Exited(ChildExit),
}

/// What the supervisor asks the driver to do.
#[derive(Debug, Clone, Copy, PartialEq, Eq, Structural)]
pub enum SupervisorAction {
    /// Launch the child and report [`SupervisorEvent::Spawned`] or
    /// [`SupervisorEvent::SpawnFailed`].
    Spawn,
    /// Sleep for so many milliseconds and report [`SupervisorEvent::Woke`].
    Sleep(u64),
    /// Read from the child's output once, without blocking, and report
    /// [`SupervisorEvent::Read`].
    Read,
    /// Ask, without blocking, whether the child has exited, and report
    /// [`SupervisorEvent::StillRunning`] or [`SupervisorEvent::Exited`].
    Poll,
    /// Stop: the operation has ended with this result.
    Finish(CommandResult),
}

/// The result of an operation whose child ended as `exit` says: success for
/// the exit code zero, a failure that carries the code or the signal for
/// everything else.
pub open spec fn exit_result(exit: ChildExit) -> CommandResult {
    match exit.code {
        Some(code) => if code == 0 {
            CommandResult::Succeeded
        } else {
            CommandResult::Failed(Failure::Exit { code })
        },
        None => CommandResult::Failed(Failure::Abnormal { signal: exit.signal }),
    }
}

/// Classifies the end of a child process.
pub fn classify_exit(exit: ChildExit) -> (result: CommandResult)
    ensures
        result == exit_result(exit),
{
    match exit.code {
        Some(code) => if code == 0 {
            CommandResult::Succeeded
        } else {
            CommandResult::Failed(Failure::Exit { code })
        },
        None => CommandResult::Failed(Failure::Abnormal { signal: exit.signal }),
    }
}

/// Whether a supervisor in this state is waiting for a read to come back.
pub open spec fn awaits_read(state: SupervisorState) -> bool {
    match state {
        SupervisorState::Running(Activity::Draining) => true,
        SupervisorState::Running(Activity::Flushing(_)) => true,
        _ => false,
    }
}

/// The state that follows a read, from a state that waits for one.
pub open spec fn state_after_read(state: SupervisorState, status: ReadStatus) -> SupervisorState {
    match status {
        ReadStatus::Continue => state,
        ReadStatus::Failed => SupervisorState::Finished(CommandResult::Failed(Failure::Read)),
        ReadStatus::Done => match state {
            SupervisorState::Running(Activity::Flushing(exit)) => SupervisorState::Finished(
                exit_result(exit),
            ),
            _ => SupervisorState::Running(Activity::Polling),
        },
    }
}

/// The state that follows an event. An event that the state does not wait
/// for changes nothing.
pub open spec fn state_after(state: SupervisorState, event: SupervisorEvent) -> SupervisorState {
    match state {
        SupervisorState::Spawning => match event {
            SupervisorEvent::LockTimedOut => SupervisorState::Finished(CommandResult::LockTimeout),
            SupervisorEvent::Spawned => SupervisorState::Running(Activity::Sleeping),
            SupervisorEvent::SpawnFailed => SupervisorState::Finished(
                CommandResult::Failed(Failure::Spawn),
            ),
            _ => state,
        },
        SupervisorState::Running(Activity::Sleeping) => match event {
            SupervisorEvent::Woke => SupervisorState::Running(Activity::Draining),
            _ => state,
        },
        SupervisorState::Running(Activity::Polling) => match event {
            SupervisorEvent::StillRunning => SupervisorState::Running(Activity::Sleeping),
            SupervisorEvent::Exited(exit) => SupervisorState::Running(Activity::Flushing(exit)),
            _ => state,
        },
        SupervisorState::Running(_) => match event {
            SupervisorEvent::Read(outcome) => state_after_read(state, status_after(outcome)),
            _ => state,
        },
        SupervisorState::Finished(_) => state,
    }
}

/// The bytes that an event adds to the output taken in: those of a read
/// that the state waits for.
pub open spec fn taken_by(state: SupervisorState, event: SupervisorEvent) -> Seq<u8> {
    match event {
        SupervisorEvent::Read(ReadOutcome::Data(chunk)) => if awaits_read(state) {
            chunk@
        } else {
            Seq::empty()
        },
        _ => Seq::empty(),
    }
}

/// The pending output after an event.
pub open spec fn held_after_event(state: SupervisorState, held: Seq<u8>, event: SupervisorEvent) -> Seq<u8> {
    match event {
        SupervisorEvent::Read(outcome) => if awaits_read(state) {
            held_after(held, outcome)
        } else {
            held
        },
        _ => held,
    }
}

/// The lines that an event brings: those that a read completes, if the
/// state waits for a read.
pub open spec fn lines_by(state: SupervisorState, held: Seq<u8>, event: SupervisorEvent) -> Seq<
    Seq<char>,
> {
    match event {
        SupervisorEvent::Read(outcome) => if awaits_read(state) {
            line_texts(lines_after(held, outcome))
        } else {
            Seq::empty()
        },
        _ => Seq::empty(),
    }
}

/// The progress events that an event brings: those that its lines stand for.
pub open spec fn emitted_by(state: SupervisorState, held: Seq<u8>, event: SupervisorEvent) -> Seq<
    EventView,
> {
    decode_all(lines_by(state, held, event))
}

/// What the driver is to do in a state.
pub open spec fn action_in(state: SupervisorState) -> SupervisorAction {
    match state {
        SupervisorState::Spawning => SupervisorAction::Spawn,
        SupervisorState::Running(Activity::Sleeping) => SupervisorAction::Sleep(POLL_INTERVAL_MS),
        SupervisorState::Running(Activity::Polling) => SupervisorAction::Poll,
        SupervisorState::Running(_) => SupervisorAction::Read,
        SupervisorState::Finished(result) => SupervisorAction::Finish(result),
    }
}

/// What a supervisor is made of: its state and the output that is pending.
pub struct SupervisorView {
    pub state: SupervisorState,
    pub held: Seq<u8>,
}

/// The decisions of one supervised operation, with the output that does
/// not form a complete line yet.
pub struct Supervisor {
    state: SupervisorState,
    buffer: OutputBuffer,
}

impl View for Supervisor {
    type V = SupervisorView;

    closed spec fn view(&self) -> SupervisorView {
        SupervisorView { state: self.state, held: self.buffer@ }
    }
}

impl Supervisor {
    /// A supervisor for a child that is still to be launched.
    pub fn new() -> (supervisor: Supervisor)
        ensures
            supervisor@ == (SupervisorView {
                state: SupervisorState::Spawning,
                held: Seq::empty(),
            }),
    {
        Supervisor { state: SupervisorState::Spawning, buffer: OutputBuffer::new() }
    }

    /// Where the operation stands.
    pub fn state(&self) -> (state: SupervisorState)
        ensures
            state == self@.state,
    {
        self.state
    }

    /// The output that is pending. No line ends inside it.
    pub fn pending(&self) -> (bytes: &Vec<u8>)
        ensures
            bytes@ == self@.held,
            unbroken(self@.held),
    {
        self.buffer.pending()
    }

    /// What the driver is to do now.
    pub fn action(&self) -> (action: SupervisorAction)
        ensures
            action == action_in(self@.state),
    {
        match self.state {
            SupervisorState::Spawning => SupervisorAction::Spawn,
            SupervisorState::Running(Activity::Sleeping) => SupervisorAction::Sleep(
                POLL_INTERVAL_MS,
            ),
            SupervisorState::Running(Activity::Polling) => SupervisorAction::Poll,
            SupervisorState::Running(_) => SupervisorAction::Read,
            SupervisorState::Finished(result) => SupervisorAction::Finish(result),
        }
    }

    /// The result, once the operation has ended.
    pub fn result(&self) -> (result: Option<CommandResult>)
        ensures
            result == match self@.state {
                SupervisorState::Finished(ended) => Some(ended),
                _ => None,
            },
    {
        match self.state {
            SupervisorState::Finished(ended) => Some(ended),
            _ => None,
        }
    }

    /// Takes what the driver reports and moves on.
    ///
    /// The child is launched first. While it runs, each round lets the
    /// interval pass, reads until nothing more is available, and asks
    /// whether the child has exited. Once it has, what output is left is
    /// read, and the operation ends with the result that the exit stands
    /// for. A launch that fails, a lock that stays held and a read that
    /// fails end the operation at once; after a failed read the child may
    /// still be running. An event that the supervisor does not wait for is
    /// ignored, and nothing changes after the end.
    ///
    /// The lines handed back are those that the reported read completed, in
    /// order, as text and without their line feeds.
    pub fn advance(&mut self, event: SupervisorEvent) -> (lines: Vec<String>)
        ensures
            final(self)@.state == state_after(old(self)@.state, event),
            final(self)@.held == held_after_event(old(self)@.state, old(self)@.held, event),
            texts(lines@) == lines_by(old(self)@.state, old(self)@.held, event),
    {
        let state = self.state;
        let mut lines: Vec<String> = Vec::new();
        assert(texts(lines@) =~= Seq::<Seq<char>>::empty());
        match state {
            SupervisorState::Spawning => match event {
                SupervisorEvent::LockTimedOut => {
                    self.state = SupervisorState::Finished(CommandResult::LockTimeout);
                },
                SupervisorEvent::Spawned => {
                    self.state = SupervisorState::Running(Activity::Sleeping);
                },
                SupervisorEvent::SpawnFailed => {
                    self.state = SupervisorState::Finished(CommandResult::Failed(Failure::Spawn));
                },
                _ => {},
            },
            SupervisorState::Running(Activity::Sleeping) => match event {
                SupervisorEvent::Woke => {
                    self.state = SupervisorState::Running(Activity::Draining);
                },
                _ => {},
            },
            SupervisorState::Running(Activity::Polling) => match event {
                SupervisorEvent::StillRunning => {
                    self.state = SupervisorState::Running(Activity::Sleeping);
                },
                SupervisorEvent::Exited(exit) => {
                    self.state = SupervisorState::Running(Activity::Flushing(exit));
                },
                _ => {},
            },
            SupervisorState::Running(activity) => match event {
                SupervisorEvent::Read(outcome) => {
                    let read = non_blocking_line_reading(&mut self.buffer, &outcome);
                    lines = read.lines;
                    match read.status {
                        ReadStatus::Continue => {},
                        ReadStatus::Failed => {
                            self.state = SupervisorState::Finished(
                                CommandResult::Failed(Failure::Read),
                            );
                        },
                        ReadStatus::Done => {
                            match activity {
                                Activity::Flushing(exit) => {
                                    self.state = SupervisorState::Finished(classify_exit(exit));
                                },
                                _ => {
                                    self.state = SupervisorState::Running(Activity::Polling);
                                },
                            }
                        },
                    }
                },
                _ => {},
            },
            SupervisorState::Finished(_) => {},
        }
        lines
    }

    /// Takes what the driver reports and moves on, as
    /// [`advance`](Supervisor::advance) does, and decodes the lines that
    /// come out of it: the progress events handed back are those of the
    /// lines that the reported read completed, in the order of the lines.
    pub fn step(&mut self, event: SupervisorEvent) -> (events: Vec<AptUpgradeEvent>)
        ensures
            final(self)@.state == state_after(old(self)@.state, event),
            final(self)@.held == held_after_event(old(self)@.state, old(self)@.held, event),
            events_view(events@) == emitted_by(old(self)@.state, old(self)@.held, event),
    {
        let lines = self.advance(event);
        decode_lines(&lines)
    }
}

/// What a supervised operation has come to after a sequence of events.
pub struct Run {
    /// Where the operation stands.
    pub state: SupervisorState,
    /// The output that is pending.
    pub held: Seq<u8>,
    /// The progress events handed to the caller so far, in order.
    pub emitted: Seq<EventView>,
    /// The output taken in so far: the bytes of every read that the
    /// supervisor waited for, in order.
    pub taken: Seq<u8>,
}

/// What a supervisor that starts in `state`, holding `held`, has come to
/// after the driver has reported `events`, in order.
pub open spec fn run(state: SupervisorState, held: Seq<u8>, events: Seq<SupervisorEvent>) -> Run
    decreases events.len(),
{
    if events.len() == 0 {
        Run { state, held, emitted: Seq::empty(), taken: Seq::empty() }
    } else {
        let before = run(state, held, events.drop_last());
        let event = events.last();
        Run {
            state: state_after(before.state, event),
            held: held_after_event(before.state, before.held, event),
            emitted: before.emitted + emitted_by(before.state, before.held, event),
            taken: before.taken + taken_by(before.state, event),
        }
    }
}

/// Whether a read found the stream quiet: ended, or with nothing available.
pub open spec fn is_quiet(outcome: ReadOutcome) -> bool {
    outcome is EndOfData || outcome is WouldBlock
}

/// Whether every event is a read that brought bytes.
pub open spec fn are_data_reads(events: Seq<SupervisorEvent>) -> bool {
    forall|i: int|
        0 <= i < events.len() ==> (#[trigger] events[i] matches SupervisorEvent::Read(outcome)
            && outcome is Data)
}

/// Whether the events are one round of reading: reads that bring bytes,
/// any number of them, and then one that finds the stream quiet.
pub open spec fn is_drain(events: Seq<SupervisorEvent>) -> bool {
    &&& events.len() >= 1
    &&& are_data_reads(events.drop_last())
    &&& events.last() matches SupervisorEvent::Read(outcome) && is_quiet(outcome)
}

/// Whether the events are one round in which the child keeps running: the
/// interval passes, the output is drained, and the poll finds the child
/// alive.
pub open spec fn is_idle_round(events: Seq<SupervisorEvent>) -> bool {
    &&& events.len() >= 3
    &&& events[0] is Woke
    &&& is_drain(events.subrange(1, events.len() - 1))
    &&& events.last() is StillRunning
}

/// Whether the events are the round in which the child is found to have
/// exited as `exit` says: the interval passes, the output is drained
/// (`drained` events), the poll reports the exit, and what output is left
/// is drained.
pub open spec fn is_exit_round(events: Seq<SupervisorEvent>, drained: int, exit: ChildExit) -> bool {
    &&& 1 <= drained
    &&& drained + 2 < events.len()
    &&& events[0] is Woke
    &&& is_drain(events.subrange(1, drained + 1))
    &&& events[drained + 1] == SupervisorEvent::Exited(exit)
    &&& is_drain(events.subrange(drained + 2, events.len() as int))
}

/// Events reported one run after another act as they do in one run.
pub proof fn lemma_run_in_two_parts(
    state: SupervisorState,
    held: Seq<u8>,
    first: Seq<SupervisorEvent>,
    second: Seq<SupervisorEvent>,
)
    ensures
        ({
            let midway = run(state, held, first);
            let rest = run(midway.state, midway.held, second);
            run(state, held, first + second) == (Run {
                state: rest.state,
                held: rest.held,
                emitted: midway.emitted + rest.emitted,
                taken: midway.taken + rest.taken,
            })
        }),
    decreases second.len(),
{
    let midway = run(state, held, first);
    if second.len() == 0 {
        assert(first + second =~= first);
        assert(midway.emitted + Seq::<EventView>::empty() =~= midway.emitted);
        assert(midway.taken + Seq::<u8>::empty() =~= midway.taken);
    } else {
        lemma_run_in_two_parts(state, held, first, second.drop_last());
        assert((first + second).drop_last() =~= first + second.drop_last());
        assert((first + second).last() == second.last());
        let shorter = run(midway.state, midway.held, second.drop_last());
        let whole = run(state, held, first + second);
        let rest = run(midway.state, midway.held, second);
        assert(whole.emitted =~= midway.emitted + rest.emitted);
        assert(whole.taken =~= midway.taken + rest.taken);
    }
}

/// The result of an operation is final: once it has ended, no event changes
/// its state or its pending output, and none brings a progress event.
pub proof fn lemma_finished_stays_finished(
    result: CommandResult,
    held: Seq<u8>,
    events: Seq<SupervisorEvent>,
)
    ensures
        run(SupervisorState::Finished(result), held, events) == (Run {
            state: SupervisorState::Finished(result),
            held,
            emitted: Seq::empty(),
            taken: Seq::empty(),
        }),
    decreases events.len(),
{
    if events.len() > 0 {
        lemma_finished_stays_finished(result, held, events.drop_last());
        let whole = run(SupervisorState::Finished(result), held, events);
        assert(whole.emitted =~= Seq::<EventView>::empty());
        assert(whole.taken =~= Seq::<u8>::empty());
    }
}

proof fn lemma_line_texts_concat(first: Seq<Seq<u8>>, second: Seq<Seq<u8>>)
    ensures
        line_texts(first + second) == line_texts(first) + line_texts(second),
{
    assert(line_texts(first + second) =~= line_texts(first) + line_texts(second));
}

/// Progress events come in the order of the lines of the child's output,
/// and each complete line is decoded once, however the output was cut into
/// reads and spread over polling rounds: the events handed out over a whole
/// run are those of the complete lines of the output taken in, read in one
/// piece. Unless a read failed, what is pending at the end is the fragment
/// that follows the last complete line.
pub proof fn lemma_events_follow_the_output(
    state: SupervisorState,
    held: Seq<u8>,
    events: Seq<SupervisorEvent>,
)
    requires
        unbroken(held),
    ensures
        ({
            let end = run(state, held, events);
            &&& end.emitted == decode_all(line_texts(complete_lines(held + end.taken)))
            &&& end.held == pending_fragment(held + end.taken) || end.state
                == SupervisorState::Finished(CommandResult::Failed(Failure::Read))
        }),
    decreases events.len(),
{
    let end = run(state, held, events);
    if events.len() == 0 {
        assert(held + end.taken =~= held);
        lemma_unbroken_is_pending(held);
        assert(line_texts(Seq::<Seq<u8>>::empty()) =~= Seq::<Seq<char>>::empty());
    } else {
        let before = run(state, held, events.drop_last());
        let event = events.last();
        lemma_events_follow_the_output(state, held, events.drop_last());
        let seen = held + before.taken;
        match event {
            SupervisorEvent::Read(outcome) => {
                if awaits_read(before.state) {
                    match outcome {
                        ReadOutcome::Data(chunk) => {
                            assert(held + end.taken =~= seen + chunk@);
                            lemma_chunking_is_invisible(seen, chunk@);
                            lemma_line_texts_concat(
                                complete_lines(seen),
                                complete_lines(before.held + chunk@),
                            );
                            lemma_decode_all_concat(
                                line_texts(complete_lines(seen)),
                                line_texts(complete_lines(before.held + chunk@)),
                            );
                        },
                        _ => {
                            assert(held + end.taken =~= seen);
                            assert(line_texts(Seq::<Seq<u8>>::empty()) =~= Seq::<
                                Seq<char>,
                            >::empty());
                            assert(end.emitted =~= before.emitted);
                        },
                    }
                } else {
                    assert(held + end.taken =~= seen);
                    assert(end.emitted =~= before.emitted);
                }
            },
            _ => {
                assert(held + end.taken =~= seen);
                assert(end.emitted =~= before.emitted);
            },
        }
    }
}

proof fn lemma_data_reads_keep_reading(
    state: SupervisorState,
    held: Seq<u8>,
    events: Seq<SupervisorEvent>,
)
    requires
        awaits_read(state),
        are_data_reads(events),
    ensures
        run(state, held, events).state == state,
    decreases events.len(),
{
    if events.len() > 0 {
        let shorter = events.drop_last();
        assert forall|i: int| 0 <= i < shorter.len() implies (#[trigger] shorter[i] matches SupervisorEvent::Read(
            outcome,
        ) && outcome is Data) by {
            assert(shorter[i] == events[i]);
        }
        lemma_data_reads_keep_reading(state, held, shorter);
        assert(events[events.len() - 1] matches SupervisorEvent::Read(outcome) && outcome is Data);
    }
}

/// A round of reading ends when the stream is found quiet: while the child
/// runs, the supervisor then polls it; after its exit, the operation ends
/// with the result that the exit stands for.
pub proof fn lemma_drain_ends_the_reading(
    state: SupervisorState,
    held: Seq<u8>,
    events: Seq<SupervisorEvent>,
)
    requires
        awaits_read(state),
        is_drain(events),
    ensures
        run(state, held, events).state == state_after_read(state, ReadStatus::Done),
{
    lemma_data_reads_keep_reading(state, held, events.drop_last());
}

proof fn lemma_run_of_one(state: SupervisorState, held: Seq<u8>, events: Seq<SupervisorEvent>)
    requires
        events.len() == 1,
    ensures
        run(state, held, events).state == state_after(state, events[0]),
        run(state, held, events).held == held_after_event(state, held, events[0]),
{
    assert(events.drop_last() =~= Seq::<SupervisorEvent>::empty());
    assert(run(state, held, events.drop_last()).state == state);
    assert(run(state, held, events.drop_last()).held == held);
}

/// A round in which the child keeps running leaves the supervisor where it
/// was, ready for the next round.
pub proof fn lemma_idle_round_repeats(held: Seq<u8>, events: Seq<SupervisorEvent>)
    requires
        is_idle_round(events),
    ensures
        run(SupervisorState::Running(Activity::Sleeping), held, events).state
            == SupervisorState::Running(Activity::Sleeping),
{
    let asleep = SupervisorState::Running(Activity::Sleeping);
    let reading = SupervisorState::Running(Activity::Draining);
    let wake = events.subrange(0, 1);
    let drain = events.subrange(1, events.len() - 1);
    let poll = events.subrange(events.len() - 1, events.len() as int);
    assert(events =~= wake + drain + poll);
    let woken = run(asleep, held, wake);
    lemma_run_of_one(asleep, held, wake);
    assert(woken.state == reading);
    lemma_run_in_two_parts(asleep, held, wake, drain);
    lemma_drain_ends_the_reading(reading, woken.held, drain);
    let drained = run(asleep, held, wake + drain);
    lemma_run_of_one(drained.state, drained.held, poll);
    lemma_run_in_two_parts(asleep, held, wake + drain, poll);
}

/// The round in which the child is found to have exited ends the
/// operation, after what output is left has been read: with success for
/// the exit code zero, and with a failure that carries the code or the
/// signal for any other exit.
pub proof fn lemma_exit_round_finishes(
    held: Seq<u8>,
    events: Seq<SupervisorEvent>,
    drained: int,
    exit: ChildExit,
)
    requires
        is_exit_round(events, drained, exit),
    ensures
        run(SupervisorState::Running(Activity::Sleeping), held, events).state
            == SupervisorState::Finished(exit_result(exit)),
        exit.code == Some(0i32) ==> exit_result(exit) == CommandResult::Succeeded,
        forall|code: i32|
            exit.code == Some(code) && code != 0 ==> exit_result(exit) == CommandResult::Failed(
                Failure::Exit { code },
            ),
{
    let asleep = SupervisorState::Running(Activity::Sleeping);
    let reading = SupervisorState::Running(Activity::Draining);
    let flushing = SupervisorState::Running(Activity::Flushing(exit));
    let wake = events.subrange(0, 1);
    let drain = events.subrange(1, drained + 1);
    let poll = events.subrange(drained + 1, drained + 2);
    let flush = events.subrange(drained + 2, events.len() as int);
    assert(events =~= wake + drain + poll + flush);
    let woken = run(asleep, held, wake);
    lemma_run_of_one(asleep, held, wake);
    assert(woken.state == reading);
    lemma_run_in_two_parts(asleep, held, wake, drain);
    lemma_drain_ends_the_reading(reading, woken.held, drain);
    let read = run(asleep, held, wake + drain);
    lemma_run_of_one(read.state, read.held, poll);
    lemma_run_in_two_parts(asleep, held, wake + drain, poll);
    let polled = run(asleep, held, wake + drain + poll);
    assert(polled.state == flushing);
    lemma_run_in_two_parts(asleep, held, wake + drain + poll, flush);
    lemma_drain_ends_the_reading(flushing, polled.held, flush);
}

} // verus!
