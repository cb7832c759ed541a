use todo_list::codec::ParseError;
use todo_list::store::TodoApp;

fn store_of(entries: &[(&str, bool)]) -> TodoApp {
    let mut app = TodoApp::new();
    for (d, done) in entries {
        app.add_task(d);
        if *done {
            let i = app.len() - 1;
            assert!(app.mark_task_completed(i).is_ok());
        }
    }
    app
}

fn same_contents(a: &TodoApp, b: &TodoApp) -> bool {
    if a.tasks.len() != b.tasks.len() {
        return false;
    }
    for i in 0..a.tasks.len() {
        if a.tasks[i].description != b.tasks[i].description {
            return false;
        }
        if a.tasks[i].is_completed != b.tasks[i].is_completed {
            return false;
        }
    }
    true
}

#[test]
fn serialize_empty_store() {
    let app = TodoApp::new();
    assert_eq!(app.serialize(), "[]");
}

#[test]
fn serialize_one_task_exact_text() {
    let app = store_of(&[("Buy milk", false)]);
    assert_eq!(
        app.serialize(),
        "[{\"description\":\"Buy milk\",\"is_completed\":false}]"
    );
}

#[test]
fn serialize_two_tasks_exact_text() {
    let app = store_of(&[("a", true), ("b", false)]);
    assert_eq!(
        app.serialize(),
        "[{\"description\":\"a\",\"is_completed\":true},{\"description\":\"b\",\"is_completed\":false}]"
    );
}

#[test]
fn serialize_escapes_special_characters() {
    let app = store_of(&[("say \"hi\" \\ now", false)]);
    assert_eq!(
        app.serialize(),
        "[{\"description\":\"say \\\"hi\\\" \\\\ now\",\"is_completed\":false}]"
    );
}

#[test]
fn round_trip_empty_store() {
    let app = TodoApp::new();
    let loaded = TodoApp::deserialize(&app.serialize()).unwrap();
    assert_eq!(loaded.len(), 0);
}

#[test]
fn round_trip_keeps_order_and_flags() {
    let app = store_of(&[("first", false), ("second", true), ("third", false)]);
    let loaded = TodoApp::deserialize(&app.serialize()).unwrap();
    assert!(same_contents(&app, &loaded));
}

#[test]
fn save_then_load_three_tasks() {
    let app = store_of(&[("Buy milk", true), ("Write report", false), ("Call home", false)]);
    let saved = app.serialize();
    let loaded = TodoApp::deserialize(&saved).unwrap();
    assert_eq!(loaded.len(), 3);
    assert!(same_contents(&app, &loaded));
}

#[test]
fn round_trip_with_escapes_and_unicode() {
    let app = store_of(&[
        ("quote \" backslash \\ done", true),
        ("line\nbreak\ttab\rreturn", false),
        ("завдання з кирилицею", false),
        ("", true),
    ]);
    let loaded = TodoApp::deserialize(&app.serialize()).unwrap();
    assert!(same_contents(&app, &loaded));
}

#[test]
fn deserialize_empty_text_is_malformed() {
    assert!(matches!(TodoApp::deserialize(""), Err(ParseError::Malformed)));
}

#[test]
fn deserialize_garbage_is_malformed() {
    assert!(matches!(TodoApp::deserialize("not a store"), Err(ParseError::Malformed)));
    assert!(matches!(TodoApp::deserialize("["), Err(ParseError::Malformed)));
    assert!(matches!(TodoApp::deserialize("[]]"), Err(ParseError::Malformed)));
    assert!(matches!(
        TodoApp::deserialize("[{\"description\":\"a\",\"is_completed\":false}"),
        Err(ParseError::Malformed)
    ));
}

#[test]
fn deserialize_truncated_escape_is_malformed() {
    assert!(matches!(TodoApp::deserialize("[{\"description\":\"a\\"), Err(ParseError::Malformed)));
    assert!(matches!(
        TodoApp::deserialize("[{\"description\":\"a\\x\",\"is_completed\":false}]"),
        Err(ParseError::Malformed)
    ));
}

#[test]
fn deserialize_accepts_exact_encoding() {
    let loaded =
        TodoApp::deserialize("[{\"description\":\"Buy milk\",\"is_completed\":false}]").unwrap();
    assert_eq!(loaded.len(), 1);
    assert_eq!(loaded.tasks[0].description, "Buy milk");
    assert!(!loaded.tasks[0].is_completed);
}

#[test]
fn deserialize_undoes_escapes() {
    let loaded = TodoApp::deserialize(
        "[{\"description\":\"a\\\"b\\\\c\\nd\\te\\rf\",\"is_completed\":true}]",
    )
    .unwrap();
    assert_eq!(loaded.tasks[0].description, "a\"b\\c\nd\te\rf");
    assert!(loaded.tasks[0].is_completed);
}
