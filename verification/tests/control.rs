use tasks::control::add_row;
use tasks::control::change_status;
use tasks::control::delete_row;
use tasks::control::edit_step;
use tasks::control::swap_rows;
use tasks::control::EditAction;
use tasks::control::EditKey;
use tasks::Context;
use tasks::Database;
use tasks::Project;
use tasks::State;
use tasks::Task;

fn store_with_projects(descriptions: &[&str]) -> Database {
    let mut db = Database::new();
    for description in descriptions {
        db.add_project(Project::new(description.to_string()));
    }
    db
}

#[test]
fn swap_rows_moves_the_focused_project_down() {
    let mut db = store_with_projects(&["one", "two"]);
    let context = Context::Project(3, 2);
    let moved = swap_rows(context, 0, 'J', &mut db);
    assert_eq!(moved, Context::Project(4, 2));
    assert_eq!(db.projects()[0].description, "two");
    assert_eq!(db.projects()[1].description, "one");
}

#[test]
fn swap_rows_at_the_edge_changes_nothing() {
    let mut db = store_with_projects(&["one", "two"]);
    let context = Context::Project(3, 2);
    let moved = swap_rows(context, 0, 'K', &mut db);
    assert_eq!(moved, context);
    assert_eq!(db.projects()[0].description, "one");
}

#[test]
fn add_row_appends_a_project_and_focuses_it() {
    let mut db = store_with_projects(&["one"]);
    let context = Context::Project(3, 1);
    let moved = add_row(context, context, "two".to_string(), &mut db);
    assert_eq!(moved, Context::Project(4, 2));
    assert_eq!(db.projects()[1].description, "two");
}

#[test]
fn add_row_adds_a_task_and_follows_it() {
    let mut db = store_with_projects(&["one"]);
    let project_context = Context::Project(3, 1);
    let context = Context::Task(3, 0);
    let moved = add_row(context, project_context, "write spec".to_string(), &mut db);
    assert_eq!(moved, Context::Task(3, 1));
    assert_eq!(db.tasks(0)[0].description(), "write spec");
}

#[test]
fn delete_row_removes_the_focused_project() {
    let mut db = store_with_projects(&["one", "two"]);
    let context = Context::Project(4, 2);
    let moved = delete_row(context, context, &mut db);
    assert_eq!(moved, Context::Project(3, 1));
    assert_eq!(db.project_count(), 1);
    assert_eq!(db.projects()[0].description, "one");
}

#[test]
fn delete_row_on_an_empty_pane_changes_nothing() {
    let mut db = store_with_projects(&[]);
    let context = Context::Project(3, 0);
    let moved = delete_row(context, context, &mut db);
    assert_eq!(moved, context);
    assert_eq!(db.project_count(), 0);
}

#[test]
fn change_status_steps_forward_and_follows_the_task() {
    let mut db = store_with_projects(&["one"]);
    db.add_task(0, Task::new("a".to_string()));
    let context = Context::Task(3, 1);
    let (moved, changed) = change_status(context, 0, &mut db, '>');
    assert_eq!(moved, Context::Task(3, 1));
    assert!(changed);
    assert_eq!(db.task_state(0, 0), State::ONGOING);
}

#[test]
fn change_status_back_from_todo_changes_nothing() {
    let mut db = store_with_projects(&["one"]);
    db.add_task(0, Task::new("a".to_string()));
    let events_before = db.tasks(0)[0].events.len();
    let context = Context::Task(3, 1);
    let (moved, changed) = change_status(context, 0, &mut db, '<');
    assert_eq!(moved, context);
    assert!(!changed);
    assert_eq!(db.task_state(0, 0), State::TODO);
    assert_eq!(db.tasks(0)[0].events.len(), events_before);
}

#[test]
fn swap_rows_moves_a_task_across_state_groups() {
    let mut db = store_with_projects(&["one"]);
    db.add_task(0, Task::new("todo one".to_string()));
    db.add_task(0, Task::new("done one".to_string()));
    assert_eq!(db.set_task_state(0, 1, State::DONE), Some(1));
    assert_eq!(db.task_state(0, 0), State::TODO);
    assert_eq!(db.task_state(0, 1), State::DONE);
    // Moving the TODO row down exchanges it with the DONE row, the order
    // sticks (a manual swap is no state mutation), and the cursor follows.
    let moved = swap_rows(Context::Task(3, 2), 0, 'J', &mut db);
    assert_eq!(moved, Context::Task(4, 2));
    assert_eq!(db.task_state(0, 0), State::DONE);
    assert_eq!(db.task_state(0, 1), State::TODO);
    assert_eq!(db.tasks(0)[1].description(), "todo one");
}

#[test]
fn edit_step_appends_and_names_the_column() {
    let (draft, action) = edit_step("ab".to_string(), EditKey::Char('c'));
    assert_eq!(draft, "abc");
    assert_eq!(action, EditAction::Write(6, 'c'));
}

#[test]
fn edit_step_backspace_removes_the_last_character() {
    let (draft, action) = edit_step("abc".to_string(), EditKey::Backspace);
    assert_eq!(draft, "ab");
    assert_eq!(action, EditAction::Erase(6));
    let (empty, nothing) = edit_step(String::new(), EditKey::Backspace);
    assert_eq!(empty, "");
    assert_eq!(nothing, EditAction::Nothing);
}

#[test]
fn edit_step_commits_and_cancels() {
    let (kept, commit) = edit_step("write spec".to_string(), EditKey::Enter);
    assert_eq!(kept, "write spec");
    assert_eq!(commit, EditAction::Commit);
    let (discarded, cancel) = edit_step("write spec".to_string(), EditKey::Esc);
    assert_eq!(discarded, "");
    assert_eq!(cancel, EditAction::Cancel);
    let (unchanged, nothing) = edit_step("draft".to_string(), EditKey::Other);
    assert_eq!(unchanged, "draft");
    assert_eq!(nothing, EditAction::Nothing);
}
