use todo_list::listing::usize_dec_chars;
use todo_list::store::TodoApp;

#[test]
fn show_tasks_two_fresh_tasks() {
    let mut app = TodoApp::new();
    app.add_task("Buy milk");
    app.add_task("Write report");
    let lines = app.show_tasks();
    assert_eq!(
        lines,
        vec![
            "1. Buy milk [Not completed]".to_string(),
            "2. Write report [Not completed]".to_string(),
        ]
    );
}

#[test]
fn show_tasks_marks_only_the_completed_one() {
    let mut app = TodoApp::new();
    app.add_task("Buy milk");
    app.add_task("Write report");
    assert!(app.mark_task_completed(0).is_ok());
    let lines = app.show_tasks();
    assert_eq!(lines[0], "1. Buy milk [Completed]");
    assert_eq!(lines[1], "2. Write report [Not completed]");
}

#[test]
fn show_tasks_empty_store_has_no_lines() {
    let app = TodoApp::new();
    assert!(app.show_tasks().is_empty());
}

#[test]
fn show_tasks_positions_past_nine() {
    let mut app = TodoApp::new();
    for i in 0..12 {
        app.add_task(&format!("task {}", i));
    }
    let lines = app.show_tasks();
    assert_eq!(lines[9], "10. task 9 [Not completed]");
    assert_eq!(lines[11], "12. task 11 [Not completed]");
}

#[test]
fn decimal_digits_of_positions() {
    assert_eq!(usize_dec_chars(0), vec!['0']);
    assert_eq!(usize_dec_chars(7), vec!['7']);
    assert_eq!(usize_dec_chars(10), vec!['1', '0']);
    assert_eq!(usize_dec_chars(305), vec!['3', '0', '5']);
}
