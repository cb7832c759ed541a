use todo_list::store::{StoreError, Task, TodoApp};

#[test]
fn new_task_is_not_completed() {
    let t = Task::new("Buy milk");
    assert_eq!(t.description, "Buy milk");
    assert!(!t.is_completed);
}

#[test]
fn mark_completed_sets_flag_and_keeps_description() {
    let mut t = Task::new("Buy milk");
    t.mark_completed();
    assert!(t.is_completed);
    assert_eq!(t.description, "Buy milk");
}

#[test]
fn mark_completed_is_idempotent_on_task() {
    let mut t = Task::new("Buy milk");
    t.mark_completed();
    t.mark_completed();
    assert!(t.is_completed);
    assert_eq!(t.description, "Buy milk");
}

#[test]
fn new_store_is_empty() {
    let app = TodoApp::new();
    assert_eq!(app.len(), 0);
}

#[test]
fn add_task_appends_not_completed() {
    let mut app = TodoApp::new();
    app.add_task("Buy milk");
    assert_eq!(app.len(), 1);
    app.add_task("Write report");
    assert_eq!(app.len(), 2);
    assert_eq!(app.tasks[1].description, "Write report");
    assert!(!app.tasks[1].is_completed);
}

#[test]
fn remove_task_in_range() {
    let mut app = TodoApp::new();
    app.add_task("a");
    app.add_task("b");
    app.add_task("c");
    let r = app.remove_task(1);
    assert!(r.is_ok());
    assert_eq!(app.len(), 2);
    assert_eq!(app.tasks[0].description, "a");
    assert_eq!(app.tasks[1].description, "c");
}

#[test]
fn remove_task_out_of_range_reports_and_keeps_store() {
    let mut app = TodoApp::new();
    app.add_task("only");
    let r = app.remove_task(5);
    assert_eq!(r, Err(StoreError::IndexOutOfRange));
    assert_eq!(app.len(), 1);
    assert_eq!(app.tasks[0].description, "only");
}

#[test]
fn remove_task_at_len_is_out_of_range() {
    let mut app = TodoApp::new();
    app.add_task("a");
    app.add_task("b");
    let r = app.remove_task(2);
    assert_eq!(r, Err(StoreError::IndexOutOfRange));
    assert_eq!(app.len(), 2);
}

#[test]
fn edit_task_in_range() {
    let mut app = TodoApp::new();
    app.add_task("old text");
    let r = app.edit_task(0, "new text");
    assert!(r.is_ok());
    assert_eq!(app.tasks[0].description, "new text");
    assert!(!app.tasks[0].is_completed);
}

#[test]
fn edit_task_keeps_completion_flag() {
    let mut app = TodoApp::new();
    app.add_task("old text");
    assert!(app.mark_task_completed(0).is_ok());
    assert!(app.edit_task(0, "new text").is_ok());
    assert_eq!(app.tasks[0].description, "new text");
    assert!(app.tasks[0].is_completed);
}

#[test]
fn edit_task_out_of_range_reports_and_keeps_store() {
    let mut app = TodoApp::new();
    app.add_task("keep me");
    let r = app.edit_task(1, "changed");
    assert_eq!(r, Err(StoreError::IndexOutOfRange));
    assert_eq!(app.tasks[0].description, "keep me");
}

#[test]
fn mark_task_completed_in_range() {
    let mut app = TodoApp::new();
    app.add_task("a");
    app.add_task("b");
    let r = app.mark_task_completed(0);
    assert!(r.is_ok());
    assert!(app.tasks[0].is_completed);
    assert!(!app.tasks[1].is_completed);
}

#[test]
fn mark_task_completed_twice_yields_same_state() {
    let mut app = TodoApp::new();
    app.add_task("a");
    app.add_task("b");
    assert!(app.mark_task_completed(0).is_ok());
    let once = app.serialize();
    assert!(app.mark_task_completed(0).is_ok());
    let twice = app.serialize();
    assert_eq!(once, twice);
}

#[test]
fn mark_task_completed_out_of_range_reports_and_keeps_store() {
    let mut app = TodoApp::new();
    app.add_task("a");
    let before = app.serialize();
    let r = app.mark_task_completed(7);
    assert_eq!(r, Err(StoreError::IndexOutOfRange));
    assert_eq!(app.serialize(), before);
    assert!(!app.tasks[0].is_completed);
}

#[test]
fn operations_on_empty_store_report_out_of_range() {
    let mut app = TodoApp::new();
    assert_eq!(app.remove_task(0), Err(StoreError::IndexOutOfRange));
    assert_eq!(app.edit_task(0, "x"), Err(StoreError::IndexOutOfRange));
    assert_eq!(app.mark_task_completed(0), Err(StoreError::IndexOutOfRange));
    assert_eq!(app.len(), 0);
}

#[test]
fn store_error_message_text() {
    let e = StoreError::IndexOutOfRange;
    assert_eq!(e.message(), "Error: Task index out of range.");
}
