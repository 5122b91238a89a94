use tasks::context::enter_context;
use tasks::context::leave_context;
use tasks::context::HEADER_OFFSET;
use tasks::listing::numbered_row;
use tasks::Context;
use tasks::Database;
use tasks::Project;

#[test]
fn idx_maps_row_to_collection_index() {
    assert_eq!(Context::Project(HEADER_OFFSET + 1, 5).idx(), 0);
    assert_eq!(Context::Task(HEADER_OFFSET + 4, 5).idx(), 3);
}

#[test]
fn length_reports_the_pane_length() {
    assert_eq!(Context::Project(3, 5).length(), 5);
    assert_eq!(Context::Task(3, 0).length(), 0);
}

#[test]
fn jump_moves_within_the_pane_and_clamps_at_the_ends() {
    let c = Context::Project(3, 5);
    assert_eq!(c.jump(1), Some(Context::Project(4, 5)));
    assert_eq!(c.jump(4), Some(Context::Project(7, 5)));
    assert_eq!(c.jump(5), None);
    assert_eq!(c.jump(-1), None);
    let end = Context::Project(7, 5);
    assert_eq!(end.jump(1), None);
    assert_eq!(end.jump(-4), Some(Context::Project(3, 5)));
}

#[test]
fn jump_to_start_and_end_reach_the_pane_edges() {
    let c = Context::Task(6, 9);
    assert_eq!(c.jump_to_start(), Some(Context::Task(3, 9)));
    assert_eq!(c.jump_to_end(), Some(Context::Task(11, 9)));
    let empty = Context::Task(3, 0);
    assert_eq!(empty.jump_to_start(), None);
    assert_eq!(empty.jump_to_end(), None);
}

#[test]
fn jump_on_an_empty_pane_never_moves() {
    let c = Context::Task(3, 0);
    assert_eq!(c.jump(1), None);
    assert_eq!(c.jump(-1), None);
    assert_eq!(c.jump(0), None);
}

#[test]
fn jump_to_reaches_any_valid_index() {
    let c = Context::Task(6, 9);
    assert_eq!(c.jump_to(0), Some(Context::Task(3, 9)));
    assert_eq!(c.jump_to(8), Some(Context::Task(11, 9)));
    assert_eq!(c.jump_to(9), None);
}

#[test]
fn drop_shrinks_and_moves_the_cursor_up() {
    assert_eq!(Context::Project(5, 4).drop(), Some(Context::Project(4, 3)));
    assert_eq!(Context::Project(3, 4).drop(), Some(Context::Project(3, 3)));
    assert_eq!(Context::Project(3, 1).drop(), Some(Context::Project(3, 0)));
    assert_eq!(Context::Project(3, 0).drop(), None);
    assert_eq!(Context::Task(3, 0).drop(), None);
}

#[test]
fn enter_then_leave_restores_the_prior_context() {
    let mut db = Database::new();
    db.add_project(Project::new("one".to_string()));
    db.add_project(Project::new("two".to_string()));

    let prior = Context::Project(4, 2);
    let mut context = prior;
    let mut project_context = Context::Project(3, 2);

    enter_context(&mut context, &mut project_context, &db);
    assert_eq!(context, Context::Task(HEADER_OFFSET + 1, 0));
    assert_eq!(project_context, prior);

    leave_context(&mut context, &mut project_context);
    assert_eq!(context, prior);
    assert_eq!(project_context, prior);
}

#[test]
fn enter_from_task_pane_changes_nothing() {
    let mut db = Database::new();
    db.add_project(Project::new("one".to_string()));
    let mut context = Context::Task(3, 0);
    let mut project_context = Context::Project(3, 1);
    enter_context(&mut context, &mut project_context, &db);
    assert_eq!(context, Context::Task(3, 0));
    assert_eq!(project_context, Context::Project(3, 1));
}

#[test]
fn pane_div_crosses_the_project_columns() {
    let div = Context::Project(3, 1).pane_div(27);
    let expected: String = (0..24u16)
        .map(|i| if i == 0 || i == 8 || i == 16 { '╋' } else { '━' })
        .collect();
    assert_eq!(div, expected);
}

#[test]
fn pane_div_crosses_the_task_columns() {
    let div = Context::Task(3, 1).pane_div(30);
    let expected: String = (0..27u16)
        .map(|i| if i == 0 || i == 6 || i == 10 { '╋' } else { '━' })
        .collect();
    assert_eq!(div, expected);
}

#[test]
fn numbered_row_prefixes_the_right_aligned_row_number() {
    assert_eq!(numbered_row(3, 3, &"hello".to_string()), "  1hello");
    assert_eq!(numbered_row(12, 3, &"x".to_string()), " 10x");
    assert_eq!(numbered_row(102, 3, &"x".to_string()), "100x");
    assert_eq!(numbered_row(1, 3, &"header".to_string()), "   header");
}
