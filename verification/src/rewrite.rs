//! The order of work when a file is rewritten in place.
//!
//! A rewrite never touches the file itself until the very end: the new
//! content is written to a temporary file beside it, and that file is then
//! renamed over the file. This module decides what is done next; the
//! caller does the work on disk and reports how each step went.

use vstd::prelude::*;

verus! {

/// How a rewrite ended.
#[derive(Clone, Copy, Debug, PartialEq, Eq, Structural)]
pub enum Outcome {
    /// The new content has taken the file's place.
    Replaced,
    /// The file was empty and has been left alone.
    LeftEmpty,
    /// The path has no parent directory to hold a temporary file.
    InvalidPath,
    /// A step failed; the file is as it was.
    Failed,
}

/// Where a rewrite stands.
#[derive(Clone, Copy, Debug, PartialEq, Eq, Structural)]
pub enum State {
    /// Nothing has been looked at yet.
    Start,
    /// The file is being opened and asked for its first byte.
    Probing,
    /// The file is being mapped, its permission bits are being taken and
    /// the replacement is being computed.
    Loading,
    /// The temporary file is being made, sized and given the permission
    /// bits. `length` is the length of the new content.
    Staging { length: usize },
    /// The new content is being written to the temporary file.
    Writing,
    /// The source file and its mapping are being let go.
    Releasing,
    /// The temporary file is being renamed over the file.
    Persisting,
    /// The temporary file is being thrown away after a failure.
    Discarding,
    /// The rewrite is over.
    Finished(Outcome),
}

/// What the caller reports.
#[derive(Clone, Copy, Debug, PartialEq, Eq, Structural)]
pub enum Event {
    /// A rewrite is asked for; `has_parent` tells whether the path has a
    /// parent directory.
    Begin { has_parent: bool },
    /// The file was opened; `empty` tells whether no byte could be read.
    Probed { empty: bool },
    /// The file is mapped; `mode` holds its permission bits and `length` the
    /// length of the content that is to take its place.
    Loaded { mode: u32, length: usize },
    /// The temporary file stands, sized and with its permission bits.
    Staged,
    /// The new content has been written and flushed.
    Written,
    /// The source file and its mapping have been let go.
    Released,
    /// The temporary file has been renamed over the file.
    Persisted,
    /// The temporary file is gone.
    Discarded,
    /// The step that was asked for has failed.
    Failed,
}

/// What the caller is to do next.
#[derive(Clone, Copy, Debug, PartialEq, Eq, Structural)]
pub enum Action {
    /// Open the file and try to read one byte.
    Probe,
    /// Map the file, take its permission bits and compute the replacement.
    Load,
    /// Make a temporary file in the file's directory, `length` bytes long,
    /// with the permission bits `mode`.
    Stage { length: usize, mode: u32 },
    /// Write the new content to the temporary file and flush it.
    Write,
    /// Let go of the source file and its mapping.
    Release,
    /// Rename the temporary file over the file.
    Persist,
    /// Throw the temporary file away, if there is one.
    Discard,
    /// Stop, with this outcome.
    Finish(Outcome),
}

/// Whether an action changes anything on disk.
pub open spec fn touches_disk(action: Action) -> bool {
    action is Stage || action is Write || action is Persist
}

/// The state that follows and the action to take when `event` is reported
/// in `state`.
///
/// A path without a parent directory is turned down before anything is
/// opened. An empty file ends the rewrite at once, with success. New content
/// of length zero is not written: the temporary file is already as long as
/// it has to be. The source is let go before the rename. A failure before
/// the temporary file is asked for ends the rewrite; from then on the
/// temporary file is thrown away first. An event that does not belong to
/// the state counts as a failure.
pub open spec fn next(state: State, event: Event) -> (State, Action) {
    match (state, event) {
        (State::Finished(outcome), _) => (state, Action::Finish(outcome)),
        (State::Start, Event::Begin { has_parent }) => if has_parent {
            (State::Probing, Action::Probe)
        } else {
            (State::Finished(Outcome::InvalidPath), Action::Finish(Outcome::InvalidPath))
        },
        (State::Probing, Event::Probed { empty }) => if empty {
            (State::Finished(Outcome::LeftEmpty), Action::Finish(Outcome::LeftEmpty))
        } else {
            (State::Loading, Action::Load)
        },
        (State::Loading, Event::Loaded { mode, length }) => (
            State::Staging { length },
            Action::Stage { length, mode },
        ),
        (State::Staging { length }, Event::Staged) => if length > 0 {
            (State::Writing, Action::Write)
        } else {
            (State::Releasing, Action::Release)
        },
        (State::Writing, Event::Written) => (State::Releasing, Action::Release),
        (State::Releasing, Event::Released) => (State::Persisting, Action::Persist),
        (State::Persisting, Event::Persisted) => (
            State::Finished(Outcome::Replaced),
            Action::Finish(Outcome::Replaced),
        ),
        (State::Discarding, _) => (
            State::Finished(Outcome::Failed),
            Action::Finish(Outcome::Failed),
        ),
        (State::Staging { .. }, _) | (State::Writing, _) | (State::Releasing, _) | (
            State::Persisting,
            _,
        ) => (State::Discarding, Action::Discard),
        _ => (State::Finished(Outcome::Failed), Action::Finish(Outcome::Failed)),
    }
}

/// The state after a run of events.
pub open spec fn state_after(start: State, events: Seq<Event>) -> State
    decreases events.len(),
{
    if events.len() == 0 {
        start
    } else {
        next(state_after(start, events.drop_last()), events.last()).0
    }
}

/// The action that answers the event at index `i` of a run.
pub open spec fn action_at(start: State, events: Seq<Event>, i: int) -> Action {
    next(state_after(start, events.take(i)), events[i]).1
}

/// Whether a rewrite in this state has gone wrong: it is throwing its
/// temporary file away or has ended without success.
pub open spec fn given_up(state: State) -> bool {
    state == State::Discarding || state == State::Finished(Outcome::Failed) || state
        == State::Finished(Outcome::InvalidPath)
}

impl State {
    /// The state in which every rewrite starts.
    pub fn new() -> (state: State)
        ensures
            state == State::Start,
    {
        State::Start
    }

    /// Takes the caller's report and says what to do next.
    pub fn step(self, event: Event) -> (r: (State, Action))
        ensures
            r == next(self, event),
    {
        match self {
            State::Finished(outcome) => (self, Action::Finish(outcome)),
            State::Start => match event {
                Event::Begin { has_parent } => if has_parent {
                    (State::Probing, Action::Probe)
                } else {
                    (State::Finished(Outcome::InvalidPath), Action::Finish(Outcome::InvalidPath))
                },
                _ => (State::Finished(Outcome::Failed), Action::Finish(Outcome::Failed)),
            },
            State::Probing => match event {
                Event::Probed { empty } => if empty {
                    (State::Finished(Outcome::LeftEmpty), Action::Finish(Outcome::LeftEmpty))
                } else {
                    (State::Loading, Action::Load)
                },
                _ => (State::Finished(Outcome::Failed), Action::Finish(Outcome::Failed)),
            },
            State::Loading => match event {
                Event::Loaded { mode, length } => (
                    State::Staging { length },
                    Action::Stage { length, mode },
                ),
                _ => (State::Finished(Outcome::Failed), Action::Finish(Outcome::Failed)),
            },
            State::Staging { length } => match event {
                Event::Staged => if length > 0 {
                    (State::Writing, Action::Write)
                } else {
                    (State::Releasing, Action::Release)
                },
                _ => (State::Discarding, Action::Discard),
            },
            State::Writing => match event {
                Event::Written => (State::Releasing, Action::Release),
                _ => (State::Discarding, Action::Discard),
            },
            State::Releasing => match event {
                Event::Released => (State::Persisting, Action::Persist),
                _ => (State::Discarding, Action::Discard),
            },
            State::Persisting => match event {
                Event::Persisted => (
                    State::Finished(Outcome::Replaced),
                    Action::Finish(Outcome::Replaced),
                ),
                _ => (State::Discarding, Action::Discard),
            },
            State::Discarding => (
                State::Finished(Outcome::Failed),
                Action::Finish(Outcome::Failed),
            ),
        }
    }
}

/// The temporary file gets the length of the new content and the permission
/// bits that were taken from the file.
pub proof fn lemma_stage_carries_length_and_mode(state: State, event: Event)
    ensures
        match next(state, event).1 {
            Action::Stage { length, mode } => state == State::Loading && event == (Event::Loaded {
                mode,
                length,
            }),
            _ => true,
        },
{
}

/// The rename is asked for only once the source has been let go, and the
/// source is let go only once the temporary file holds the new content:
/// after the write, or after staging where there is nothing to write.
pub proof fn lemma_persist_follows_release(state: State, event: Event)
    ensures
        next(state, event).1 == Action::Persist ==> state == State::Releasing && event
            == Event::Released,
        next(state, event).1 == Action::Release ==> (state == State::Writing && event
            == Event::Written) || (state == (State::Staging { length: 0 }) && event
            == Event::Staged),
        next(state, event).1 == Action::Write ==> event == Event::Staged && state is Staging
            && state->length > 0,
{
}

/// A rewrite that has gone wrong stays so, and asks for nothing that
/// changes the disk.
pub proof fn lemma_given_up_is_final(state: State, events: Seq<Event>, i: int)
    requires
        given_up(state),
        0 <= i < events.len(),
    ensures
        given_up(state_after(state, events)),
        !touches_disk(action_at(state, events, i)),
{
    lemma_given_up_persists(state, events.take(i));
    lemma_given_up_persists(state, events);
}

proof fn lemma_given_up_persists(state: State, events: Seq<Event>)
    requires
        given_up(state),
    ensures
        given_up(state_after(state, events)),
    decreases events.len(),
{
    if events.len() > 0 {
        lemma_given_up_persists(state, events.drop_last());
    }
}

/// Once a step of a rewrite that is under way is reported as failed,
/// nothing that changes the disk is asked for again: no temporary file is
/// made or written, and none is renamed over the file. The rewrite does
/// not end in success.
pub proof fn lemma_failure_stops_the_rewrite(events: Seq<Event>, i: int, j: int)
    requires
        0 <= i <= j < events.len(),
        events[i] == Event::Failed,
        !(state_after(State::Start, events.take(i)) is Finished),
    ensures
        !touches_disk(action_at(State::Start, events, j)),
        given_up(state_after(State::Start, events)),
{
    let before = state_after(State::Start, events.take(i));
    let after = next(before, events[i]).0;
    assert(events.take(i + 1).drop_last() =~= events.take(i));
    assert(state_after(State::Start, events.take(i + 1)) == after);
    assert(given_up(after));
    lemma_run_splits(State::Start, events, i + 1);
    let rest = events.skip(i + 1);
    lemma_given_up_persists(after, rest);
    if j > i {
        lemma_run_splits(State::Start, events.take(j), i + 1);
        assert(events.take(j).take(i + 1) =~= events.take(i + 1));
        assert(events.take(j).skip(i + 1) =~= rest.take(j - i - 1));
        assert(rest[j - i - 1] == events[j]);
        lemma_given_up_is_final(after, rest, j - i - 1);
    }
}

/// A run is its first `n` events followed by the rest.
pub proof fn lemma_run_splits(start: State, events: Seq<Event>, n: int)
    requires
        0 <= n <= events.len(),
    ensures
        state_after(start, events) == state_after(
            state_after(start, events.take(n)),
            events.skip(n),
        ),
    decreases events.len(),
{
    if n == events.len() {
        assert(events.take(n) =~= events);
        assert(events.skip(n).len() == 0);
    } else {
        lemma_run_splits(start, events.drop_last(), n);
        assert(events.drop_last().take(n) =~= events.take(n));
        assert(events.skip(n).drop_last() =~= events.drop_last().skip(n));
        assert(events.skip(n).last() == events.last());
    }
}

/// A rewrite that is over stays as it ended.
pub proof fn lemma_finished_is_final(state: State, events: Seq<Event>)
    requires
        state is Finished,
    ensures
        state_after(state, events) == state,
        forall|i: int| 0 <= i < events.len() ==> !touches_disk(#[trigger] action_at(state, events, i)),
    decreases events.len(),
{
    if events.len() > 0 {
        lemma_finished_is_final(state, events.drop_last());
        assert forall|i: int| 0 <= i < events.len() implies !touches_disk(
            #[trigger] action_at(state, events, i),
        ) by {
            lemma_finished_is_final(state, events.take(i));
        }
    }
}

/// An empty file is left alone: the rewrite ends with success as soon as the
/// probe finds no byte, and nothing that changes the disk is ever asked for.
pub proof fn lemma_empty_file_is_left_alone(events: Seq<Event>)
    requires
        events.len() >= 2,
        events[0] == (Event::Begin { has_parent: true }),
        events[1] == (Event::Probed { empty: true }),
    ensures
        state_after(State::Start, events) == State::Finished(Outcome::LeftEmpty),
        forall|i: int| 0 <= i < events.len() ==> !touches_disk(
            #[trigger] action_at(State::Start, events, i),
        ),
{
    let first = events.take(1);
    let second = events.take(2);
    assert(first.drop_last() =~= events.take(0));
    assert(second.drop_last() =~= first);
    assert(state_after(State::Start, events.take(0)) == State::Start);
    assert(state_after(State::Start, first) == State::Probing);
    let done = State::Finished(Outcome::LeftEmpty);
    assert(state_after(State::Start, second) == done);
    lemma_run_splits(State::Start, events, 2);
    lemma_finished_is_final(done, events.skip(2));
    assert forall|i: int| 0 <= i < events.len() implies !touches_disk(
        #[trigger] action_at(State::Start, events, i),
    ) by {
        if i >= 2 {
            lemma_run_splits(State::Start, events.take(i), 2);
            assert(events.take(i).take(2) =~= second);
            lemma_finished_is_final(done, events.take(i).skip(2));
        }
    }
}

} // verus!
