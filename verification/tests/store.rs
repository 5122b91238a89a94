use tasks::Database;
use tasks::Event;
use tasks::Project;
use tasks::State;
use tasks::Task;

fn task_named(id: &str, description: &str, state: State) -> Task {
    Task {
        id: id.to_string(),
        created_at: "2024-01-02T03:04:05+00:00".to_string(),
        events: vec![
            Event::State { data: State::TODO, date_time: "2024-01-02T03:04:05+00:00".to_string() },
            Event::Description {
                data: description.to_string(),
                date_time: "2024-01-02T03:04:05+00:00".to_string(),
            },
            Event::State { data: state, date_time: "2024-01-02T03:04:06+00:00".to_string() },
        ],
    }
}

#[test]
fn empty_store_grows_one_project_then_one_task() {
    let mut db = Database::new();
    assert_eq!(db.project_count(), 0);

    db.add_project(Project::new("Ship v1".to_string()));
    assert_eq!(db.project_count(), 1);
    assert_eq!(db.projects()[0].description, "Ship v1");
    assert_eq!(db.projects()[0].id.len(), 36);
    assert_eq!(db.task_count(0), 0);

    let position = db.add_task(0, Task::new("write spec".to_string()));
    assert_eq!(position, Some(0));
    assert_eq!(db.task_count(0), 1);
    assert_eq!(db.task_state(0, 0), State::TODO);
    assert_eq!(db.tasks(0)[0].description(), "write spec");

    let events_before = db.tasks(0)[0].events.len();
    let moved = db.set_task_state(0, 0, State::DONE);
    assert_eq!(moved, Some(0));
    assert_eq!(db.task_state(0, 0), State::DONE);
    assert_eq!(db.tasks(0)[0].events.len(), events_before + 1);

    let unchanged = db.set_task_state(0, 0, State::DONE);
    assert_eq!(unchanged, None);
    assert_eq!(db.tasks(0)[0].events.len(), events_before + 1);
}

#[test]
fn fresh_ids_differ() {
    let first = Project::new("one".to_string());
    let second = Project::new("two".to_string());
    assert_eq!(first.id.len(), 36);
    assert_eq!(second.id.len(), 36);
    assert_ne!(first.id, second.id);
}

#[test]
fn groups_appear_in_canonical_order_and_keep_insertion_order() {
    let mut db = Database::new();
    db.add_project(Project::new("p".to_string()));
    db.add_task(0, task_named("a", "first todo", State::TODO));
    db.add_task(0, task_named("b", "the done one", State::DONE));
    let ids: Vec<String> = db.tasks(0).iter().map(|t| t.id.clone()).collect();
    assert_eq!(ids, vec!["a".to_string(), "b".to_string()]);
    assert_eq!(db.task_state(0, 0), State::TODO);
    assert_eq!(db.task_state(0, 1), State::DONE);
}

#[test]
fn resort_is_stable_within_a_group() {
    let mut db = Database::new();
    db.add_project(Project::new("p".to_string()));
    db.add_task(0, task_named("a", "a", State::TODO));
    db.add_task(0, task_named("b", "b", State::TODO));
    db.add_task(0, task_named("c", "c", State::TODO));
    // Move the first and then the last task to ONGOING: within the ONGOING
    // group they must keep that order, and the group precedes TODO.
    assert_eq!(db.set_task_state(0, 0, State::ONGOING), Some(0));
    assert_eq!(db.set_task_state(0, 2, State::ONGOING), Some(1));
    let ids: Vec<String> = db.tasks(0).iter().map(|t| t.id.clone()).collect();
    assert_eq!(ids, vec!["a".to_string(), "c".to_string(), "b".to_string()]);
}

#[test]
fn add_task_reports_position_after_grouping() {
    let mut db = Database::new();
    db.add_project(Project::new("p".to_string()));
    db.add_task(0, task_named("done", "already done", State::DONE));
    // A fresh TODO task sorts ahead of the DONE group.
    let position = db.add_task(0, Task::new("new".to_string()));
    assert_eq!(position, Some(0));
    assert_eq!(db.task_state(0, 0), State::TODO);
    assert_eq!(db.task_state(0, 1), State::DONE);
}

#[test]
fn swap_projects_exchanges_entries() {
    let mut db = Database::new();
    db.add_project(Project::new("one".to_string()));
    db.add_project(Project::new("two".to_string()));
    db.add_project(Project::new("three".to_string()));
    db.swap_projects(0, 2);
    assert_eq!(db.projects()[0].description, "three");
    assert_eq!(db.projects()[1].description, "two");
    assert_eq!(db.projects()[2].description, "one");
}

#[test]
fn swap_tasks_exchanges_in_place_without_regrouping() {
    let mut db = Database::new();
    db.add_project(Project::new("p".to_string()));
    db.add_task(0, task_named("a", "a", State::TODO));
    db.add_task(0, task_named("b", "b", State::DONE));
    // A manual swap across state groups sticks: no re-sort undoes it.
    db.swap_tasks(0, 0, 1);
    let ids: Vec<String> = db.tasks(0).iter().map(|t| t.id.clone()).collect();
    assert_eq!(ids, vec!["b".to_string(), "a".to_string()]);
    assert_eq!(db.task_state(0, 0), State::DONE);
    assert_eq!(db.task_state(0, 1), State::TODO);
}

#[test]
fn remove_project_and_task_shrink_the_store() {
    let mut db = Database::new();
    db.add_project(Project::new("one".to_string()));
    db.add_project(Project::new("two".to_string()));
    db.add_task(0, task_named("a", "a", State::TODO));
    db.add_task(0, task_named("b", "b", State::TODO));
    db.remove_task(0, 0);
    assert_eq!(db.task_count(0), 1);
    assert_eq!(db.tasks(0)[0].id, "b");
    db.remove_project(0);
    assert_eq!(db.project_count(), 1);
    assert_eq!(db.projects()[0].description, "two");
}

#[test]
fn task_position_and_state_count() {
    let mut project = Project::new("p".to_string());
    project.tasks.push(task_named("a", "a", State::TODO));
    project.tasks.push(task_named("b", "b", State::DONE));
    project.tasks.push(task_named("c", "c", State::TODO));
    assert_eq!(project.task_count(), 3);
    assert_eq!(project.task_position("b".to_string()), Some(1));
    assert_eq!(project.task_position("missing".to_string()), None);
    assert_eq!(project.task_state_count(State::TODO), 2);
    assert_eq!(project.task_state_count(State::DONE), 1);
    assert_eq!(project.task_state_count(State::ONGOING), 0);
}

#[test]
fn sort_tasks_groups_by_state() {
    let mut project = Project::new("p".to_string());
    project.tasks.push(task_named("d1", "d", State::DONE));
    project.tasks.push(task_named("t1", "t", State::TODO));
    project.tasks.push(task_named("o1", "o", State::ONGOING));
    project.tasks.push(task_named("t2", "t", State::TODO));
    project.sort_tasks();
    let ids: Vec<String> = project.tasks.iter().map(|t| t.id.clone()).collect();
    assert_eq!(
        ids,
        vec!["o1".to_string(), "t1".to_string(), "t2".to_string(), "d1".to_string()]
    );
}
