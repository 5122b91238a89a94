//! The store: the in-memory collection of projects and its mutation surface.
//!
//! All operations address entities by zero-based index, and every index is
//! required to be valid: the navigation layer is the sole producer of indices
//! and guarantees validity, so an out-of-range index is a caller bug, not a
//! runtime condition. Mutations apply to memory only; the caller persists the
//! serialized document after each successful mutation, so memory deliberately
//! runs ahead of disk when a write fails.

use vstd::prelude::*;

use crate::project::has_state;
use crate::project::lemma_grouped_position_exists;
use crate::project::now_timestamp;
use crate::project::tasks_grouped;
use crate::project::Event;
use crate::project::Project;
use crate::project::Task;
use crate::state::State;

verus! {

/// Two projects that agree on everything but hold the given task sequence
/// after the change.
pub open spec fn same_but_tasks(p0: Project, p1: Project, tasks: Seq<Task>) -> bool {
    &&& p1.id == p0.id
    &&& p1.description == p0.description
    &&& p1.notes == p0.notes
    &&& p1.tasks@ == tasks
}

/// `t1` is `t0` with exactly one event appended.
pub open spec fn task_with_event(t0: Task, t1: Task, e: Event) -> bool {
    &&& t1.id == t0.id
    &&& t1.created_at == t0.created_at
    &&& t1.events@ == t0.events@.push(e)
}

/// What adding `task` to project `project` leaves behind: the task is pushed
/// onto that project's tasks, the tasks are re-grouped by state, every other
/// project is untouched, and `pos` is the first position carrying the new
/// task's id.
pub open spec fn add_task_post(
    ps0: Seq<Project>,
    ps1: Seq<Project>,
    project: int,
    task: Task,
    pos: int,
) -> bool {
    let sorted = tasks_grouped(ps0[project].tasks@.push(task));
    &&& ps1.len() == ps0.len()
    &&& same_but_tasks(ps0[project], ps1[project], sorted)
    &&& (forall|j: int| 0 <= j < ps0.len() && j != project ==> ps1[j] == ps0[j])
    &&& 0 <= pos < sorted.len()
    &&& sorted[pos].id@ == task.id@
    &&& (forall|j: int| 0 <= j < pos ==> sorted[j].id@ != task.id@)
}

/// What changing the state of task `task` in project `project` to `state`
/// leaves behind: one State event carrying `state` and some timestamp is
/// appended to that task's log, the project's tasks are re-grouped, every
/// other project is untouched, and `pos` is the first position carrying the
/// task's id after the re-grouping.
pub open spec fn set_task_state_post(
    ps0: Seq<Project>,
    ps1: Seq<Project>,
    project: int,
    task: int,
    state: State,
    pos: int,
) -> bool {
    let t0 = ps0[project].tasks@[task];
    &&& state != t0.spec_state()
    &&& ps1.len() == ps0.len()
    &&& (forall|j: int| 0 <= j < ps0.len() && j != project ==> ps1[j] == ps0[j])
    &&& (exists|stamp: String, t1: Task|
        task_with_event(t0, t1, Event::State { data: state, date_time: stamp })
            && same_but_tasks(
            ps0[project],
            ps1[project],
            tasks_grouped(ps0[project].tasks@.update(task, t1)),
        ))
    &&& 0 <= pos < ps1[project].tasks@.len()
    &&& ps1[project].tasks@[pos].id@ == t0.id@
    &&& (forall|j: int| 0 <= j < pos ==> ps1[project].tasks@[j].id@ != t0.id@)
}

/// Exchanges two entries of a vector.
fn vec_swap<T>(v: &mut Vec<T>, i: usize, j: usize)
    requires
        i < old(v)@.len(),
        j < old(v)@.len(),
    ensures
        final(v)@ == old(v)@.update(i as int, old(v)@[j as int]).update(j as int, old(v)@[i as int]),
{
    if i == j {
        proof {
            assert(v@.update(i as int, v@[j as int]).update(j as int, v@[i as int]) =~= v@);
        }
        return ;
    }
    let (a, b) = if i < j {
        (i, j)
    } else {
        (j, i)
    };
    let x = v.remove(b);
    let y = v.remove(a);
    v.insert(a, x);
    v.insert(b, y);
    proof {
        assert(v@ =~= old(v)@.update(i as int, old(v)@[j as int]).update(j as int, old(v)@[i as int]));
    }
}

/// The store: an ordered sequence of projects.
pub struct Database {
    projects: Vec<Project>,
}

impl Database {
    /// The projects the store holds.
    pub closed spec fn spec_projects(self) -> Seq<Project> {
        self.projects@
    }

    /// A store holding exactly the given projects.
    pub(crate) fn from_projects(projects: Vec<Project>) -> (db: Database)
        ensures
            db.spec_projects() == projects@,
    {
        Database { projects }
    }

    /// An empty store.
    pub fn new() -> (db: Database)
        ensures
            db.spec_projects() == Seq::<Project>::empty(),
    {
        Database { projects: Vec::new() }
    }

    /// Appends a project.
    pub fn add_project(&mut self, project: Project)
        ensures
            final(self).spec_projects() == old(self).spec_projects().push(project),
    {
        self.projects.push(project);
    }

    /// Appends a task to a project, re-sorts that project's tasks into their
    /// state groups, and returns the task's position after sorting, located
    /// by its id.
    pub fn add_task(&mut self, project: usize, task: Task) -> (r: Option<usize>)
        requires
            project < old(self).spec_projects().len(),
        ensures
            r matches Some(pos) && add_task_post(
                old(self).spec_projects(),
                final(self).spec_projects(),
                project as int,
                task,
                pos as int,
            ),
    {
        let ghost gtask: Task = task;
        let task_id = task.id.clone();
        let mut p = self.projects.remove(project);
        let ghost pushed = p.tasks@.push(gtask);
        p.tasks.push(task);
        p.sort_tasks();
        let pos = p.task_position(task_id);
        self.projects.insert(project, p);
        proof {
            assert(self.projects@ =~= old(self).projects@.update(project as int, p));
            lemma_grouped_position_exists(pushed, pushed.len() - 1);
            assert(pos is Some);
        }
        pos
    }

    /// Removes the project at the given index.
    pub fn remove_project(&mut self, project: usize)
        requires
            project < old(self).spec_projects().len(),
        ensures
            final(self).spec_projects() == old(self).spec_projects().remove(project as int),
    {
        let _ = self.projects.remove(project);
    }

    /// Removes one task of a project.
    pub fn remove_task(&mut self, project: usize, task: usize)
        requires
            project < old(self).spec_projects().len(),
            task < old(self).spec_projects()[project as int].tasks@.len(),
        ensures
            ({
                let ps0 = old(self).spec_projects();
                let ps1 = final(self).spec_projects();
                &&& ps1.len() == ps0.len()
                &&& same_but_tasks(
                    ps0[project as int],
                    ps1[project as int],
                    ps0[project as int].tasks@.remove(task as int),
                )
                &&& forall|j: int| 0 <= j < ps0.len() && j != project ==> ps1[j] == ps0[j]
            }),
    {
        let mut p = self.projects.remove(project);
        let _ = p.tasks.remove(task);
        self.projects.insert(project, p);
        proof {
            assert(self.projects@ =~= old(self).projects@.update(project as int, p));
        }
    }

    /// Exchanges two projects in place.
    pub fn swap_projects(&mut self, first: usize, second: usize)
        requires
            first < old(self).spec_projects().len(),
            second < old(self).spec_projects().len(),
        ensures
            final(self).spec_projects() == old(self).spec_projects().update(
                first as int,
                old(self).spec_projects()[second as int],
            ).update(second as int, old(self).spec_projects()[first as int]),
    {
        vec_swap(&mut self.projects, first, second);
    }

    /// Exchanges two tasks of a project in place. A manual reorder is not a
    /// state-affecting mutation, so no grouping re-sort follows it: the
    /// exchanged order is exactly what the project keeps.
    pub fn swap_tasks(&mut self, project: usize, first: usize, second: usize)
        requires
            project < old(self).spec_projects().len(),
            first < old(self).spec_projects()[project as int].tasks@.len(),
            second < old(self).spec_projects()[project as int].tasks@.len(),
        ensures
            ({
                let ps0 = old(self).spec_projects();
                let ps1 = final(self).spec_projects();
                let ts0 = ps0[project as int].tasks@;
                let swapped = ts0.update(first as int, ts0[second as int]).update(
                    second as int,
                    ts0[first as int],
                );
                &&& ps1.len() == ps0.len()
                &&& same_but_tasks(ps0[project as int], ps1[project as int], swapped)
                &&& forall|j: int| 0 <= j < ps0.len() && j != project ==> ps1[j] == ps0[j]
            }),
    {
        let mut p = self.projects.remove(project);
        vec_swap(&mut p.tasks, first, second);
        self.projects.insert(project, p);
        proof {
            assert(self.projects@ =~= old(self).projects@.update(project as int, p));
        }
    }

    /// If `state` differs from the task's current derived state, appends a
    /// State event stamped now, re-sorts the project's tasks, and returns the
    /// task's new position, located by its id. If `state` equals the current
    /// derived state, changes nothing and returns None.
    pub fn set_task_state(&mut self, project: usize, task: usize, state: State) -> (r: Option<
        usize,
    >)
        requires
            project < old(self).spec_projects().len(),
            task < old(self).spec_projects()[project as int].tasks@.len(),
        ensures
            match r {
                None => *final(self) == *old(self) && state == old(self).spec_projects()[project as int].tasks@[task as int].spec_state(),
                Some(pos) => set_task_state_post(
                    old(self).spec_projects(),
                    final(self).spec_projects(),
                    project as int,
                    task as int,
                    state,
                    pos as int,
                ),
            },
    {
        let current = self.projects[project].tasks[task].state();
        if current == state {
            return None;
        }
        let mut p = self.projects.remove(project);
        let mut t = p.tasks.remove(task);
        let stamp = now_timestamp();
        let ghost gstamp: String = stamp;
        t.events.push(Event::State { data: state, date_time: stamp });
        let ghost t1: Task = t;
        let task_id = t.id.clone();
        p.tasks.insert(task, t);
        let ghost updated = old(self).projects@[project as int].tasks@.update(task as int, t1);
        proof {
            assert(p.tasks@ =~= updated);
        }
        p.sort_tasks();
        let pos = p.task_position(task_id);
        self.projects.insert(project, p);
        proof {
            assert(self.projects@ =~= old(self).projects@.update(project as int, p));
            lemma_grouped_position_exists(updated, task as int);
            assert(pos is Some);
            let t0 = old(self).projects@[project as int].tasks@[task as int];
            assert(task_with_event(
                t0,
                t1,
                Event::State { data: state, date_time: gstamp },
            ));
        }
        pos
    }

    /// The projects, in order.
    pub fn projects(&self) -> (r: &Vec<Project>)
        ensures
            r@ == self.spec_projects(),
    {
        &self.projects
    }

    /// The tasks of one project, in order.
    pub fn tasks(&self, project: usize) -> (r: &Vec<Task>)
        requires
            project < self.spec_projects().len(),
        ensures
            r@ == self.spec_projects()[project as int].tasks@,
    {
        &self.projects[project].tasks
    }

    /// How many projects the store holds.
    pub fn project_count(&self) -> (r: u16)
        requires
            self.spec_projects().len() <= u16::MAX,
        ensures
            r == self.spec_projects().len(),
    {
        self.projects.len() as u16
    }

    /// How many tasks one project holds.
    pub fn task_count(&self, project: usize) -> (r: u16)
        requires
            project < self.spec_projects().len(),
            self.spec_projects()[project as int].tasks@.len() <= u16::MAX,
        ensures
            r == self.spec_projects()[project as int].tasks@.len(),
    {
        self.projects[project].tasks.len() as u16
    }

    /// The derived state of one task.
    pub fn task_state(&self, project: usize, task: usize) -> (r: State)
        requires
            project < self.spec_projects().len(),
            task < self.spec_projects()[project as int].tasks@.len(),
        ensures
            r == self.spec_projects()[project as int].tasks@[task as int].spec_state(),
    {
        self.projects[project].tasks[task].state()
    }
}

} // verus!
