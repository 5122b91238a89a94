//! The index-space commands the control loop issues against the store.
//!
//! Each function takes the current navigation context, applies one store
//! mutation, and returns the context the cursor should move to, keeping the
//! highlighted row on the same entity while the collection shifts. The
//! caller persists the store after any function that mutates it.

use vstd::prelude::*;

use crate::context::Context;
use crate::context::HEADER_OFFSET;
use crate::database::add_task_post;
use crate::database::same_but_tasks;
use crate::database::set_task_state_post;
use crate::database::Database;
use crate::project::lemma_grouped_len;
use crate::project::tasks_grouped;
use crate::project::Project;
use crate::project::Task;
use crate::state::State;
use crate::strings::push_char;

verus! {

/// Whether a context's pane mirrors the collection it stands for: a project
/// pane as long as the project list, a task pane as long as the chosen
/// project's task list (the choice being the remembered project index).
pub open spec fn pane_mirrors(context: Context, project: int, db: Database) -> bool {
    match context {
        Context::Project(_, _) => context.pane_len() == db.spec_projects().len(),
        Context::Task(_, _) => {
            &&& 0 <= project < db.spec_projects().len()
            &&& context.pane_len() == db.spec_projects()[project].tasks@.len()
        },
    }
}

/// Moves the focused row one step by exchanging it with its neighbour: the
/// 'J' command moves down, any other up. At the pane's edge nothing moves.
/// A manual reorder is not a state-affecting mutation, so the exchanged
/// order stands as it is and the cursor follows the moved entity.
pub fn swap_rows(context: Context, project: usize, cmd: char, db: &mut Database) -> (r: Context)
    requires
        context.wf(),
        pane_mirrors(context, project as int, *old(db)),
    ensures
        r.wf(),
        ({
            let delta: int = if cmd == 'J' {
                1
            } else {
                -1
            };
            match context.spec_jump(delta) {
                None => r == context && *final(db) == *old(db),
                Some(next) => {
                    let i = context.spec_idx();
                    let j = next.spec_idx();
                    &&& r == next
                    &&& match context {
                        Context::Project(_, _) => final(db).spec_projects() == old(
                            db,
                        ).spec_projects().update(i, old(db).spec_projects()[j]).update(
                            j,
                            old(db).spec_projects()[i],
                        ),
                        Context::Task(_, _) => {
                            let ps0 = old(db).spec_projects();
                            let ps1 = final(db).spec_projects();
                            let ts0 = ps0[project as int].tasks@;
                            let swapped = ts0.update(i, ts0[j]).update(j, ts0[i]);
                            &&& ps1.len() == ps0.len()
                            &&& same_but_tasks(ps0[project as int], ps1[project as int], swapped)
                            &&& forall|k: int|
                                0 <= k < ps0.len() && k != project ==> ps1[k] == ps0[k]
                        },
                    }
                },
            }
        }),
{
    let delta: i16 = if cmd == 'J' {
        1
    } else {
        -1
    };
    match context.jump(delta) {
        Some(next_context) => {
            match context {
                Context::Project(_, _) => db.swap_projects(context.idx(), next_context.idx()),
                Context::Task(_, _) => db.swap_tasks(project, context.idx(), next_context.idx()),
            }
            next_context
        },
        None => context,
    }
}

/// Adds a row holding the given description: a new project in the project
/// pane, a new task of the chosen project in the task pane. Returns the
/// context whose cursor sits on the new entry — for a task, at the position
/// the store reports after the grouping re-sort.
pub fn add_row(
    context: Context,
    project_context: Context,
    description: String,
    db: &mut Database,
) -> (r: Context)
    requires
        context.wf(),
        context.pane_len() < u16::MAX - HEADER_OFFSET,
        context matches Context::Task(_, _) ==> {
            &&& project_context.wf()
            &&& 0 <= project_context.spec_idx() < old(db).spec_projects().len()
            &&& old(db).spec_projects()[project_context.spec_idx()].tasks@.len()
                == context.pane_len()
        },
    ensures
        r.wf(),
        match context {
            Context::Project(_, size) => {
                &&& final(db).spec_projects().len() == old(db).spec_projects().len() + 1
                &&& final(db).spec_projects().drop_last() == old(db).spec_projects()
                &&& final(db).spec_projects().last().description == description
                &&& final(db).spec_projects().last().notes@ == Seq::<char>::empty()
                &&& final(db).spec_projects().last().tasks@ == Seq::<Task>::empty()
                &&& final(db).spec_projects().last().id@.len() == 36
                &&& r == Context::Project(
                    (size + HEADER_OFFSET + 1) as u16,
                    (size + 1) as u16,
                )
            },
            Context::Task(_, size) => {
                &&& exists|t: Task, pos: usize|
                    {
                        &&& t.spec_state() == State::TODO
                        &&& t.spec_description() == description@
                        &&& t.id@.len() == 36
                        &&& add_task_post(
                            old(db).spec_projects(),
                            final(db).spec_projects(),
                            project_context.spec_idx(),
                            t,
                            pos as int,
                        )
                        &&& r == Context::Task(
                            (pos + HEADER_OFFSET + 1) as u16,
                            (size + 1) as u16,
                        )
                    }
                &&& r matches Context::Task(_, len) && len == context.pane_len() + 1
            },
        },
{
    match context {
        Context::Task(_, size) => {
            let task = Task::new(description);
            let ghost gtask: Task = task;
            let pidx = project_context.idx();
            let pos_opt = db.add_task(pidx, task);
            let task_index = pos_opt.unwrap();
            proof {
                lemma_grouped_len(
                    old(db).spec_projects()[project_context.spec_idx()].tasks@.push(gtask),
                );
            }
            let row = (task_index as u16) + HEADER_OFFSET + 1;
            let r = Context::Task(row, size + 1);
            proof {
                let pos: usize = task_index;
                assert({
                    &&& gtask.spec_state() == State::TODO
                    &&& gtask.spec_description() == description@
                    &&& gtask.id@.len() == 36
                    &&& add_task_post(
                        old(db).spec_projects(),
                        final(db).spec_projects(),
                        project_context.spec_idx(),
                        gtask,
                        pos as int,
                    )
                    &&& r == Context::Task((pos + HEADER_OFFSET + 1) as u16, (size + 1) as u16)
                });
            }
            r
        },
        Context::Project(_, size) => {
            let project = Project::new(description);
            db.add_project(project);
            proof {
                assert(final(db).spec_projects().drop_last() =~= old(db).spec_projects());
            }
            Context::Project(size + HEADER_OFFSET + 1, size + 1)
        },
    }
}

/// Deletes the focused row and shrinks the pane, leaving the cursor on the
/// row above (or on the first entry row). On an empty pane nothing happens.
pub fn delete_row(context: Context, project_context: Context, db: &mut Database) -> (r: Context)
    requires
        context.wf(),
        context matches Context::Task(_, _) ==> project_context.wf()
            && 0 <= project_context.spec_idx() < old(db).spec_projects().len(),
        pane_mirrors(context, project_context.spec_idx(), *old(db)),
    ensures
        r.wf(),
        match context.spec_drop() {
            None => r == context && *final(db) == *old(db),
            Some(next) => {
                let i = context.spec_idx();
                &&& r == next
                &&& match context {
                    Context::Project(_, _) => final(db).spec_projects() == old(
                        db,
                    ).spec_projects().remove(i),
                    Context::Task(_, _) => {
                        let ps0 = old(db).spec_projects();
                        let ps1 = final(db).spec_projects();
                        let p = project_context.spec_idx();
                        &&& ps1.len() == ps0.len()
                        &&& same_but_tasks(ps0[p], ps1[p], ps0[p].tasks@.remove(i))
                        &&& forall|k: int| 0 <= k < ps0.len() && k != p ==> ps1[k] == ps0[k]
                    },
                }
            },
        },
{
    match context.drop() {
        Some(new_context) => {
            match context {
                Context::Project(_, _) => db.remove_project(context.idx()),
                Context::Task(_, _) => db.remove_task(project_context.idx(), context.idx()),
            }
            new_context
        },
        None => context,
    }
}

/// The cursor follows the task: at some position `pos` the store reports,
/// the state change's postcondition holds and the returned context is the
/// task pane with its cursor on `pos`.
pub open spec fn follows_task(
    db0: Database,
    db1: Database,
    project: int,
    task: int,
    target: State,
    r: Context,
    len: u16,
) -> bool {
    exists|pos: usize|
        set_task_state_post(
            db0.spec_projects(),
            db1.spec_projects(),
            project,
            task,
            target,
            pos as int,
        ) && r == Context::Task((pos + HEADER_OFFSET + 1) as u16, len)
}

/// One keypress of freeform text entry, as the control loop reads it.
#[derive(Copy, Clone, PartialEq, Eq, Structural, Debug)]
pub enum EditKey {
    Char(char),
    Backspace,
    Enter,
    Esc,
    Other,
}

/// What one text-entry keypress asks of the terminal: draw the typed
/// character at a column, erase the column behind a removed one, commit the
/// draft, discard it, or do nothing.
#[derive(Copy, Clone, PartialEq, Eq, Structural, Debug)]
pub enum EditAction {
    Write(u16, char),
    Erase(u16),
    Commit,
    Cancel,
    Nothing,
}

/// One step of freeform text entry: a typed character is appended, backspace
/// removes the last character, Enter commits the draft, and the cancel key
/// discards it so that nothing persists. The returned action names the
/// column after the three-column prompt that the caller should redraw.
pub fn edit_step(draft: String, key: EditKey) -> (r: (String, EditAction))
    requires
        draft@.len() < u16::MAX - 4,
    ensures
        match key {
            EditKey::Char(c) => r.0@ == draft@.push(c) && r.1 == EditAction::Write(
                (3 + r.0@.len()) as u16,
                c,
            ),
            EditKey::Backspace => if draft@.len() > 0 {
                r.0@ == draft@.drop_last() && r.1 == EditAction::Erase((4 + r.0@.len()) as u16)
            } else {
                r.0 == draft && r.1 == EditAction::Nothing
            },
            EditKey::Enter => r.0 == draft && r.1 == EditAction::Commit,
            EditKey::Esc => r.0@ == Seq::<char>::empty() && r.1 == EditAction::Cancel,
            EditKey::Other => r.0 == draft && r.1 == EditAction::Nothing,
        },
{
    match key {
        EditKey::Char(c) => {
            let mut extended = draft;
            push_char(&mut extended, c);
            let column = (3 + extended.as_str().unicode_len()) as u16;
            (extended, EditAction::Write(column, c))
        },
        EditKey::Backspace => {
            let length = draft.as_str().unicode_len();
            if length > 0 {
                let shortened = String::from_str(draft.as_str().substring_char(0, length - 1));
                proof {
                    assert(draft@.subrange(0, draft@.len() - 1) =~= draft@.drop_last());
                }
                let column = (4 + shortened.as_str().unicode_len()) as u16;
                (shortened, EditAction::Erase(column))
            } else {
                (draft, EditAction::Nothing)
            }
        },
        EditKey::Enter => (draft, EditAction::Commit),
        EditKey::Esc => (String::new(), EditAction::Cancel),
        EditKey::Other => (draft, EditAction::Nothing),
    }
}

/// Whether the status command has anything to write: in the task pane, the
/// step lands on a state the task does not already have; in the project pane
/// it never does.
pub open spec fn status_step_changes(context: Context, project: int, c: char, db0: Database) -> bool {
    match context {
        Context::Project(_, _) => false,
        Context::Task(_, _) => {
            let t0 = db0.spec_projects()[project].tasks@[context.spec_idx()];
            let target = if c == '>' {
                t0.spec_state().spec_next()
            } else {
                t0.spec_state().spec_previous()
            };
            target != t0.spec_state()
        },
    }
}

/// What `change_status` leaves behind. In the project pane nothing changes.
/// In the task pane, the focused task's derived state is stepped forward
/// ('>') or back (any other command); if the step lands on the state the
/// task already has, nothing changes, and otherwise the store's state change
/// and re-sort happen and the cursor lands on the task's new position.
pub open spec fn change_status_post(
    context: Context,
    project: int,
    c: char,
    db0: Database,
    db1: Database,
    r: Context,
) -> bool {
    match context {
        Context::Project(_, _) => r == context && db1 == db0,
        Context::Task(_, len) => {
            let i = context.spec_idx();
            let t0 = db0.spec_projects()[project].tasks@[i];
            let target = if c == '>' {
                t0.spec_state().spec_next()
            } else {
                t0.spec_state().spec_previous()
            };
            if target == t0.spec_state() {
                r == context && db1 == db0
            } else {
                follows_task(db0, db1, project, i, target, r, len)
            }
        },
    }
}

/// Steps the focused task's state forward ('>') or back (any other command),
/// re-sorts the tasks, and follows the task to its new position. When the
/// step would not change the state (at the lifecycle's ends), nothing
/// changes, and in the project pane this is a no-op; the returned flag says
/// whether the store changed, so the caller persists only after a write.
pub fn change_status(context: Context, project: usize, db: &mut Database, c: char) -> (r: (
    Context,
    bool,
))
    requires
        context.wf(),
        context matches Context::Task(_, _) ==> context.pane_len() > 0 && pane_mirrors(
            context,
            project as int,
            *old(db),
        ),
    ensures
        r.0.wf(),
        change_status_post(context, project as int, c, *old(db), *final(db), r.0),
        r.1 == status_step_changes(context, project as int, c, *old(db)),
{
    match context {
        Context::Task(_, len) => {
            let index = context.idx();
            let current_state = db.task_state(project, index);
            let next_state = if c == '>' {
                current_state.next()
            } else {
                current_state.previous()
            };
            let ghost t1_witness = old(db).spec_projects()[project as int].tasks@[index as int];
            match db.set_task_state(project, index, next_state) {
                Some(new_index) => {
                    proof {
                        let changed = choose|stamp: String, t1: Task|
                            crate::database::task_with_event(
                                t1_witness,
                                t1,
                                crate::project::Event::State {
                                    data: next_state,
                                    date_time: stamp,
                                },
                            ) && same_but_tasks(
                                old(db).spec_projects()[project as int],
                                final(db).spec_projects()[project as int],
                                tasks_grouped(
                                    old(db).spec_projects()[project as int].tasks@.update(
                                        index as int,
                                        t1,
                                    ),
                                ),
                            );
                        lemma_grouped_len(
                            old(db).spec_projects()[project as int].tasks@.update(
                                index as int,
                                changed.1,
                            ),
                        );
                    }
                    let r = Context::Task((new_index as u16) + HEADER_OFFSET + 1, len);
                    proof {
                        let pos: usize = new_index;
                        assert(set_task_state_post(
                            old(db).spec_projects(),
                            db.spec_projects(),
                            project as int,
                            context.spec_idx(),
                            next_state,
                            pos as int,
                        ) && r == Context::Task((pos + HEADER_OFFSET + 1) as u16, len));
                        let i = context.spec_idx();
                        let t0 = old(db).spec_projects()[project as int].tasks@[i];
                        let target = if c == '>' {
                            t0.spec_state().spec_next()
                        } else {
                            t0.spec_state().spec_previous()
                        };
                        assert(target == next_state);
                        assert(follows_task(*old(db), *db, project as int, i, target, r, len)) by {
                            assert(set_task_state_post(
                                old(db).spec_projects(),
                                db.spec_projects(),
                                project as int,
                                i,
                                target,
                                pos as int,
                            ) && r == Context::Task((pos + HEADER_OFFSET + 1) as u16, len));
                        }
                        assert(change_status_post(context, project as int, c, *old(db), *db, r));
                    }
                    (r, true)
                },
                None => (context, false),
            }
        },
        Context::Project(_, _) => (context, false),
    }
}

} // verus!
