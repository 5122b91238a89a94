use tasks::Event;
use tasks::State;
use tasks::Task;

fn stamped(state: State) -> Event {
    Event::State { data: state, date_time: "2024-01-02T03:04:05+00:00".to_string() }
}

fn described(text: &str) -> Event {
    Event::Description { data: text.to_string(), date_time: "2024-01-02T03:04:05+00:00".to_string() }
}

#[test]
fn state_steps_forward_and_clamps() {
    assert_eq!(State::TODO.next(), State::ONGOING);
    assert_eq!(State::ONGOING.next(), State::DONE);
    assert_eq!(State::DONE.next(), State::DONE);
}

#[test]
fn state_steps_back_and_clamps() {
    assert_eq!(State::TODO.previous(), State::TODO);
    assert_eq!(State::ONGOING.previous(), State::TODO);
    assert_eq!(State::DONE.previous(), State::ONGOING);
}

#[test]
fn state_is_the_last_state_event() {
    let task = Task {
        id: "t1".to_string(),
        created_at: "2024-01-02T03:04:05+00:00".to_string(),
        events: vec![
            stamped(State::TODO),
            described("write spec"),
            stamped(State::ONGOING),
            Event::Comment { data: "halfway".to_string(), date_time: "x".to_string() },
            stamped(State::DONE),
        ],
    };
    assert_eq!(task.state(), State::DONE);
}

#[test]
fn state_ignores_other_event_kinds() {
    let task = Task {
        id: "t1".to_string(),
        created_at: "2024-01-02T03:04:05+00:00".to_string(),
        events: vec![stamped(State::ONGOING), described("later words")],
    };
    assert_eq!(task.state(), State::ONGOING);
}

#[test]
fn state_defaults_to_todo_without_state_events() {
    let task = Task {
        id: "t1".to_string(),
        created_at: "2024-01-02T03:04:05+00:00".to_string(),
        events: vec![described("only a description")],
    };
    assert_eq!(task.state(), State::TODO);
}

#[test]
fn description_is_the_last_description_event() {
    let task = Task {
        id: "t1".to_string(),
        created_at: "2024-01-02T03:04:05+00:00".to_string(),
        events: vec![described("first"), stamped(State::DONE), described("second")],
    };
    assert_eq!(task.description(), "second");
}

#[test]
fn description_defaults_to_empty() {
    let task = Task {
        id: "t1".to_string(),
        created_at: "2024-01-02T03:04:05+00:00".to_string(),
        events: vec![stamped(State::TODO)],
    };
    assert_eq!(task.description(), "");
}

#[test]
fn new_task_is_seeded_todo_with_description() {
    let task = Task::new("write spec".to_string());
    assert_eq!(task.id.len(), 36);
    assert_eq!(task.events.len(), 2);
    assert_eq!(task.state(), State::TODO);
    assert_eq!(task.description(), "write spec");
}
