use tasks::Database;
use tasks::Event;
use tasks::Project;
use tasks::State;
use tasks::Task;

fn sample_store() -> Database {
    let mut db = Database::new();
    db.add_project(Project {
        id: "p-1".to_string(),
        description: "Ship v1".to_string(),
        notes: "keep it small".to_string(),
        tasks: vec![Task {
            id: "t-1".to_string(),
            created_at: "2024-01-02T03:04:05+00:00".to_string(),
            events: vec![
                Event::State {
                    data: State::TODO,
                    date_time: "2024-01-02T03:04:05+00:00".to_string(),
                },
                Event::Description {
                    data: "write spec".to_string(),
                    date_time: "2024-01-02T03:04:05+00:00".to_string(),
                },
                Event::Comment {
                    data: "started".to_string(),
                    date_time: "2024-01-03T03:04:05+00:00".to_string(),
                },
            ],
        }],
    });
    db
}

fn sample_document() -> String {
    "[{\"id\":\"p-1\",\"description\":\"Ship v1\",\"notes\":\"keep it small\",\"tasks\":[{\"id\":\"t-1\",\"created_at\":\"2024-01-02T03:04:05+00:00\",\"events\":[{\"type\":\"state\",\"data\":\"TODO\",\"date_time\":\"2024-01-02T03:04:05+00:00\"},{\"type\":\"description\",\"data\":\"write spec\",\"date_time\":\"2024-01-02T03:04:05+00:00\"},{\"type\":\"comment\",\"data\":\"started\",\"date_time\":\"2024-01-03T03:04:05+00:00\"}]}]}]".to_string()
}

#[test]
fn empty_store_serializes_to_an_empty_array() {
    let db = Database::new();
    assert_eq!(db.to_json(), "[]");
}

#[test]
fn empty_array_parses_to_an_empty_store() {
    let db = Database::from_json("[]").expect("empty document parses");
    assert_eq!(db.projects().len(), 0);
}

#[test]
fn store_serializes_to_the_canonical_document() {
    assert_eq!(sample_store().to_json(), sample_document());
}

#[test]
fn document_parses_back_to_the_store() {
    let db = Database::from_json(&sample_document()).expect("document parses");
    assert_eq!(db.projects(), sample_store().projects());
}

#[test]
fn serialize_parse_serialize_is_identity() {
    let document = sample_store().to_json();
    let reread = Database::from_json(&document).expect("own output parses");
    assert_eq!(reread.to_json(), document);
}

#[test]
fn escapes_round_trip() {
    let mut db = Database::new();
    db.add_project(Project {
        id: "p".to_string(),
        description: "say \"hi\" \\ twice\nover\ttabs\u{1}".to_string(),
        notes: "∀x ∈ tasks\r\u{8}\u{c}".to_string(),
        tasks: vec![],
    });
    let document = db.to_json();
    assert!(document.contains("say \\\"hi\\\" \\\\ twice\\nover\\ttabs\\u0001"));
    assert!(document.contains("∀x ∈ tasks\\r\\b\\f"));
    let reread = Database::from_json(&document).expect("escaped document parses");
    assert_eq!(reread.projects(), db.projects());
    assert_eq!(reread.to_json(), document);
}

#[test]
fn several_projects_and_tasks_round_trip() {
    let mut db = Database::new();
    let task = |id: &str| Task {
        id: id.to_string(),
        created_at: "2024-01-02T03:04:05+00:00".to_string(),
        events: vec![Event::State {
            data: State::ONGOING,
            date_time: "2024-01-02T03:04:05+00:00".to_string(),
        }],
    };
    db.add_project(Project {
        id: "p-1".to_string(),
        description: "first".to_string(),
        notes: "".to_string(),
        tasks: vec![task("a"), task("b")],
    });
    db.add_project(Project {
        id: "p-2".to_string(),
        description: "second".to_string(),
        notes: "".to_string(),
        tasks: vec![],
    });
    let document = db.to_json();
    let reread = Database::from_json(&document).expect("own output parses");
    assert_eq!(reread.projects(), db.projects());
    assert_eq!(reread.to_json(), document);
}

#[test]
fn malformed_documents_are_rejected() {
    assert!(Database::from_json("").is_none());
    assert!(Database::from_json("garbage").is_none());
    assert!(Database::from_json("[").is_none());
    assert!(Database::from_json("[]x").is_none());
    assert!(Database::from_json(" []").is_none());
    assert!(Database::from_json("[{]").is_none());
    assert!(Database::from_json("[{\"id\":\"p\"}]").is_none());
}

#[test]
fn non_canonical_escapes_are_rejected() {
    // A raw control character, an uppercase hex escape, an escape for a
    // printable character, and a \u escape for a character with a short
    // escape are all outside the canonical rendering.
    let head = "[{\"id\":";
    let tail = ",\"description\":\"d\",\"notes\":\"n\",\"tasks\":[]}]";
    assert!(Database::from_json(&format!("{}\"a\u{1}b\"{}", head, tail)).is_none());
    assert!(Database::from_json(&format!("{}\"a\\u000Ab\"{}", head, tail)).is_none());
    assert!(Database::from_json(&format!("{}\"a\\u0041b\"{}", head, tail)).is_none());
    assert!(Database::from_json(&format!("{}\"a\\u000ab\"{}", head, tail)).is_none());
    assert!(Database::from_json(&format!("{}\"a\\u0009b\"{}", head, tail)).is_none());
    let canonical = format!("{}\"a\\nb\"{}", head, tail);
    let db = Database::from_json(&canonical).expect("canonical escape parses");
    assert_eq!(db.projects()[0].id, "a\nb");
    let canonical_unit = format!("{}\"a\\u0001b\"{}", head, tail);
    let db = Database::from_json(&canonical_unit).expect("canonical escape parses");
    assert_eq!(db.projects()[0].id, "a\u{1}b");
}
