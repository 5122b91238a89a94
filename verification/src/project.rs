//! The event-sourced data model: events, tasks, and projects.
//!
//! A task is an append-only log of events; its current state and description
//! are derived by folding the log and keeping the payload of the last event
//! of the matching kind. A project owns an ordered sequence of tasks, kept
//! grouped by derived state (ONGOING, then TODO, then DONE) after any
//! state-affecting mutation; the grouping is stable, so tasks sharing a state
//! keep their relative order.

use vstd::prelude::*;

use crate::state::state_rank;
use crate::state::State;

verus! {

/// One immutable entry of a task's event log. The `date_time` fields carry
/// the creation instant as ISO-8601 text; the model never inspects it.
#[derive(Clone, Debug, PartialEq, Eq)]
pub enum Event {
    Description { data: String, date_time: String },
    State { data: State, date_time: String },
    Comment { data: String, date_time: String },
}

/// A task: a stable id, a creation timestamp, and its append-only event log.
#[derive(Clone, Debug, PartialEq, Eq)]
pub struct Task {
    pub id: String,
    pub created_at: String,
    pub events: Vec<Event>,
}

/// A project: a stable id, a description, freeform notes, and its tasks.
#[derive(Clone, Debug, PartialEq, Eq)]
pub struct Project {
    pub id: String,
    pub description: String,
    pub notes: String,
    pub tasks: Vec<Task>,
}

/// The state derived from an event log: the payload of the last State event,
/// or TODO if the log holds none.
pub open spec fn spec_state_of(events: Seq<Event>) -> State
    decreases events.len(),
{
    if events.len() == 0 {
        State::TODO
    } else {
        match events.last() {
            Event::State { data, date_time: _ } => data,
            _ => spec_state_of(events.drop_last()),
        }
    }
}

/// The description derived from an event log: the payload of the last
/// Description event, or the empty string if the log holds none.
pub open spec fn spec_description_of(events: Seq<Event>) -> Seq<char>
    decreases events.len(),
{
    if events.len() == 0 {
        Seq::empty()
    } else {
        match events.last() {
            Event::Description { data, date_time: _ } => data@,
            _ => spec_description_of(events.drop_last()),
        }
    }
}

/// The predicate selecting tasks whose derived state is `s`.
pub open spec fn has_state(s: State) -> spec_fn(Task) -> bool {
    |t: Task| t.spec_state() == s
}

/// The stable grouping of tasks by derived state: all ONGOING tasks, then
/// all TODO tasks, then all DONE tasks, each group in its original order.
pub open spec fn tasks_grouped(tasks: Seq<Task>) -> Seq<Task> {
    tasks.filter(has_state(State::ONGOING)) + tasks.filter(has_state(State::TODO)) + tasks.filter(
        has_state(State::DONE),
    )
}

/// Relies on `uuid::Uuid::new_v4` and its `Display` impl: a freshly drawn v4
/// UUID renders as 36 hyphenated hexadecimal characters. The value depends on
/// the random generator, so nothing beyond the length is promised.
#[verifier::external_body]
fn fresh_id() -> (r: String)
    ensures
        r@.len() == 36,
{
    uuid::Uuid::new_v4().to_string()
}

/// Relies on `chrono::Utc::now` and `DateTime::to_rfc3339`: the current
/// instant as ISO-8601 text. The value depends on the clock, so nothing is
/// promised of it.
#[verifier::external_body]
pub(crate) fn now_timestamp() -> String {
    chrono::Utc::now().to_rfc3339()
}

impl Task {
    /// The task's current state, derived from its event log.
    pub open spec fn spec_state(self) -> State {
        spec_state_of(self.events@)
    }

    /// The task's current description, derived from its event log.
    pub open spec fn spec_description(self) -> Seq<char> {
        spec_description_of(self.events@)
    }

    /// A new task with a fresh id, stamped now, seeded with an initial TODO
    /// state event and a description event.
    pub fn new(description: String) -> (t: Task)
        ensures
            t.id@.len() == 36,
            t.spec_state() == State::TODO,
            t.spec_description() == description@,
            exists |stamp: String|
                t.created_at == stamp && t.events@ == seq![
                    Event::State { data: State::TODO, date_time: stamp },
                    Event::Description { data: description, date_time: stamp },
                ],
    {
        let id = fresh_id();
        let stamp = now_timestamp();
        let ghost chosen_stamp: String = stamp;
        let created_at = stamp.clone();
        let state_stamp = stamp.clone();
        let mut events: Vec<Event> = Vec::new();
        events.push(Event::State { data: State::TODO, date_time: state_stamp });
        events.push(Event::Description { data: description, date_time: stamp });
        let t = Task { id, created_at, events };
        proof {
            assert(t.events@ =~= seq![
                Event::State { data: State::TODO, date_time: chosen_stamp },
                Event::Description { data: description, date_time: chosen_stamp },
            ]);
            reveal_with_fuel(spec_state_of, 3);
            reveal_with_fuel(spec_description_of, 2);
            assert(t.events@.drop_last() =~= seq![
                Event::State { data: State::TODO, date_time: chosen_stamp },
            ]);
        }
        t
    }

    /// The task's current state: the payload of the last State event.
    pub fn state(&self) -> (r: State)
        ensures
            r == self.spec_state(),
    {
        let mut state = State::TODO;
        let n = self.events.len();
        for i in 0..n
            invariant
                n == self.events@.len(),
                state == spec_state_of(self.events@.take(i as int)),
        {
            proof {
                assert(self.events@.take(i + 1).drop_last() =~= self.events@.take(i as int));
            }
            match &self.events[i] {
                Event::State { data, date_time: _ } => {
                    state = *data;
                },
                _ => {},
            }
        }
        proof {
            assert(self.events@.take(n as int) =~= self.events@);
        }
        state
    }

    /// The task's current description: the payload of the last Description
    /// event.
    pub fn description(&self) -> (r: String)
        ensures
            r@ == self.spec_description(),
    {
        let mut description = String::new();
        let n = self.events.len();
        for i in 0..n
            invariant
                n == self.events@.len(),
                description@ == spec_description_of(self.events@.take(i as int)),
        {
            proof {
                assert(self.events@.take(i + 1).drop_last() =~= self.events@.take(i as int));
            }
            match &self.events[i] {
                Event::Description { data, date_time: _ } => {
                    description = data.clone();
                },
                _ => {},
            }
        }
        proof {
            assert(self.events@.take(n as int) =~= self.events@);
        }
        description
    }
}

impl Project {
    /// A new empty project with a fresh id and the given description.
    pub fn new(description: String) -> (p: Project)
        ensures
            p.id@.len() == 36,
            p.description == description,
            p.notes@ == Seq::<char>::empty(),
            p.tasks@ == Seq::<Task>::empty(),
    {
        Project { id: fresh_id(), description, notes: String::new(), tasks: Vec::new() }
    }

    /// Re-sorts the tasks into their state groups; the sort is stable.
    pub fn sort_tasks(&mut self)
        ensures
            final(self).id == old(self).id,
            final(self).description == old(self).description,
            final(self).notes == old(self).notes,
            final(self).tasks@ == tasks_grouped(old(self).tasks@),
    {
        broadcast use vstd::seq_lib::group_seq_lib_default;

        let mut rest: Vec<Task> = Vec::new();
        core::mem::swap(&mut rest, &mut self.tasks);
        let ghost orig = rest@;
        let mut ongoing: Vec<Task> = Vec::new();
        let mut todo: Vec<Task> = Vec::new();
        let mut done: Vec<Task> = Vec::new();
        while rest.len() > 0
            invariant
                rest@.len() <= orig.len(),
                rest@ == orig.skip(orig.len() - rest@.len()),
                ongoing@ == orig.take(orig.len() - rest@.len()).filter(has_state(State::ONGOING)),
                todo@ == orig.take(orig.len() - rest@.len()).filter(has_state(State::TODO)),
                done@ == orig.take(orig.len() - rest@.len()).filter(has_state(State::DONE)),
            decreases rest@.len(),
        {
            let ghost k = orig.len() - rest@.len();
            proof {
                assert(orig.skip(k).remove(0) =~= orig.skip(k + 1));
                assert(orig.take(k + 1) =~= orig.take(k).push(orig[k]));
                assert(rest@[0] == orig[k]);
            }
            let t = rest.remove(0);
            let s = t.state();
            match s {
                State::ONGOING => ongoing.push(t),
                State::TODO => todo.push(t),
                State::DONE => done.push(t),
            }
            proof {
                orig.take(k).lemma_filter_push(orig[k], has_state(State::ONGOING));
                orig.take(k).lemma_filter_push(orig[k], has_state(State::TODO));
                orig.take(k).lemma_filter_push(orig[k], has_state(State::DONE));
            }
        }
        proof {
            assert(orig.take(orig.len() as int) =~= orig);
        }
        ongoing.append(&mut todo);
        ongoing.append(&mut done);
        self.tasks = ongoing;
    }

    /// How many tasks the project holds.
    pub fn task_count(&self) -> (r: usize)
        ensures
            r == self.tasks@.len(),
    {
        self.tasks.len()
    }

    /// The index of the first task carrying `task_id`, if any.
    pub fn task_position(&self, task_id: String) -> (r: Option<usize>)
        ensures
            match r {
                Some(i) => i < self.tasks@.len() && self.tasks@[i as int].id@ == task_id@ && (forall|
                    j: int,
                |
                    0 <= j < i ==> self.tasks@[j].id@ != task_id@),
                None => forall|j: int|
                    0 <= j < self.tasks@.len() ==> self.tasks@[j].id@ != task_id@,
            },
    {
        let n = self.tasks.len();
        for i in 0..n
            invariant
                n == self.tasks@.len(),
                forall|j: int| 0 <= j < i ==> self.tasks@[j].id@ != task_id@,
        {
            if self.tasks[i].id == task_id {
                return Some(i);
            }
        }
        None
    }

    /// How many of the project's tasks currently derive the given state.
    pub fn task_state_count(&self, state: State) -> (r: usize)
        ensures
            r == self.tasks@.filter(has_state(state)).len(),
    {
        broadcast use vstd::seq_lib::group_seq_lib_default;

        let mut count: usize = 0;
        let n = self.tasks.len();
        for i in 0..n
            invariant
                n == self.tasks@.len(),
                count == self.tasks@.take(i as int).filter(has_state(state)).len(),
                count <= i,
        {
            proof {
                self.tasks@.take(i as int).lemma_filter_push(self.tasks@[i as int], has_state(state));
                assert(self.tasks@.take(i + 1) =~= self.tasks@.take(i as int).push(
                    self.tasks@[i as int],
                ));
            }
            if self.tasks[i].state() == state {
                count = count + 1;
            }
        }
        proof {
            assert(self.tasks@.take(n as int) =~= self.tasks@);
        }
        count
    }
}

/// Appending a State event to any event log makes the derived state the
/// appended event's payload: `state()` always equals the `data` of the last
/// appended State event.
pub proof fn lemma_state_tracks_last_state_event(events: Seq<Event>, data: State, date_time: String)
    ensures
        spec_state_of(events.push(Event::State { data, date_time })) == data,
{
    reveal_with_fuel(spec_state_of, 2);
    assert(events.push(Event::State { data, date_time }).last() == Event::State {
        data,
        date_time,
    });
}

/// The grouped sequence is ordered by the canonical group order: a task
/// never stands before a task of an earlier group.
pub proof fn lemma_grouped_ordered(tasks: Seq<Task>, i: int, j: int)
    requires
        0 <= i <= j < tasks_grouped(tasks).len(),
    ensures
        state_rank(tasks_grouped(tasks)[i].spec_state()) <= state_rank(
            tasks_grouped(tasks)[j].spec_state(),
        ),
{
    broadcast use vstd::seq_lib::group_seq_lib_default;

    let ongoing = tasks.filter(has_state(State::ONGOING));
    let todo = tasks.filter(has_state(State::TODO));
    let done = tasks.filter(has_state(State::DONE));
    if i < ongoing.len() {
        assert(has_state(State::ONGOING)(ongoing[i]));
    } else if i < ongoing.len() + todo.len() {
        assert(has_state(State::TODO)(todo[i - ongoing.len()]));
    } else {
        assert(has_state(State::DONE)(done[i - ongoing.len() - todo.len()]));
    }
    if j < ongoing.len() {
        assert(has_state(State::ONGOING)(ongoing[j]));
    } else if j < ongoing.len() + todo.len() {
        assert(has_state(State::TODO)(todo[j - ongoing.len()]));
    } else {
        assert(has_state(State::DONE)(done[j - ongoing.len() - todo.len()]));
    }
}

/// Re-sorting an already grouped sequence changes nothing: after a mutation,
/// repeated re-sorts are the same as one.
pub proof fn lemma_grouped_idempotent(tasks: Seq<Task>)
    ensures
        tasks_grouped(tasks_grouped(tasks)) == tasks_grouped(tasks),
{
    lemma_group_sort_stable(tasks, State::ONGOING);
    lemma_group_sort_stable(tasks, State::TODO);
    lemma_group_sort_stable(tasks, State::DONE);
}

/// Grouping re-orders the tasks without losing or duplicating any: the
/// grouped sequence has exactly the length of the original.
pub proof fn lemma_grouped_len(tasks: Seq<Task>)
    ensures
        tasks_grouped(tasks).len() == tasks.len(),
    decreases tasks.len(),
{
    reveal(Seq::filter);
    if tasks.len() == 0 {
    } else {
        lemma_grouped_len(tasks.drop_last());
        match tasks.last().spec_state() {
            State::ONGOING => {
                assert(has_state(State::ONGOING)(tasks.last()));
            },
            State::TODO => {
                assert(has_state(State::TODO)(tasks.last()));
            },
            State::DONE => {
                assert(has_state(State::DONE)(tasks.last()));
            },
        }
    }
}

/// Every task of a sequence reappears somewhere in its grouping: the re-sort
/// loses no task.
pub proof fn lemma_grouped_position_exists(tasks: Seq<Task>, i: int)
    requires
        0 <= i < tasks.len(),
    ensures
        exists|k: int|
            0 <= k < tasks_grouped(tasks).len() && tasks_grouped(tasks)[k] == tasks[i],
{
    broadcast use vstd::seq_lib::group_seq_lib_default;

    let s0 = tasks[i].spec_state();
    assert(has_state(s0)(tasks[i]));
    tasks.lemma_filter_contains(has_state(s0), i);
    let grouped = tasks_grouped(tasks);
    let ongoing = tasks.filter(has_state(State::ONGOING));
    let todo = tasks.filter(has_state(State::TODO));
    match s0 {
        State::ONGOING => {
            let k = choose|k: int| 0 <= k < ongoing.len() && ongoing[k] == tasks[i];
            assert(grouped[k] == tasks[i]);
        },
        State::TODO => {
            let k = choose|k: int| 0 <= k < todo.len() && todo[k] == tasks[i];
            assert(grouped[ongoing.len() + k] == tasks[i]);
        },
        State::DONE => {
            let done = tasks.filter(has_state(State::DONE));
            let k = choose|k: int| 0 <= k < done.len() && done[k] == tasks[i];
            assert(grouped[ongoing.len() + todo.len() + k] == tasks[i]);
        },
    }
}

/// Filtering one state group out of another: the same group passes through
/// unchanged, a different group leaves nothing.
proof fn lemma_filter_group_of_group(tasks: Seq<Task>, a: State, b: State)
    ensures
        tasks.filter(has_state(a)).filter(has_state(b)) == if a == b {
            tasks.filter(has_state(a))
        } else {
            Seq::<Task>::empty()
        },
    decreases tasks.len(),
{
    reveal(Seq::filter);
    if tasks.len() == 0 {
        assert(tasks.filter(has_state(a)) =~= Seq::<Task>::empty());
    } else {
        lemma_filter_group_of_group(tasks.drop_last(), a, b);
        broadcast use vstd::seq_lib::group_seq_lib_default;

        tasks.drop_last().filter(has_state(a)).lemma_filter_push(tasks.last(), has_state(b));
    }
}

/// The grouping re-sort is stable: the subsequence of tasks sharing any given
/// derived state is exactly the same, in the same order, before and after the
/// re-sort.
pub proof fn lemma_group_sort_stable(tasks: Seq<Task>, s: State)
    ensures
        tasks_grouped(tasks).filter(has_state(s)) == tasks.filter(has_state(s)),
{
    broadcast use vstd::seq_lib::group_seq_lib_default;

    let ongoing = tasks.filter(has_state(State::ONGOING));
    let todo = tasks.filter(has_state(State::TODO));
    let done = tasks.filter(has_state(State::DONE));
    Seq::filter_distributes_over_add(ongoing + todo, done, has_state(s));
    Seq::filter_distributes_over_add(ongoing, todo, has_state(s));
    lemma_filter_group_of_group(tasks, State::ONGOING, s);
    lemma_filter_group_of_group(tasks, State::TODO, s);
    lemma_filter_group_of_group(tasks, State::DONE, s);
    match s {
        State::ONGOING => {
            assert(tasks_grouped(tasks).filter(has_state(s)) =~= tasks.filter(has_state(s)));
        },
        State::TODO => {
            assert(tasks_grouped(tasks).filter(has_state(s)) =~= tasks.filter(has_state(s)));
        },
        State::DONE => {
            assert(tasks_grouped(tasks).filter(has_state(s)) =~= tasks.filter(has_state(s)));
        },
    }
}

} // verus!
