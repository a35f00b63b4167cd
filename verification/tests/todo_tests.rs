use todors::todo::{DoneItem, TodoApp, TodoItem, KEY_BACKSPACE, KEY_LEFT, KEY_RIGHT};

fn chars(s: &str) -> Vec<char> {
    s.chars().collect()
}

fn text(v: &Vec<char>) -> String {
    v.iter().collect()
}

fn app_with(todos: &[&str], dones: &[(&str, &str)]) -> TodoApp {
    let ts: Vec<TodoItem> = todos.iter().map(|t| TodoItem { text: chars(t) }).collect();
    let ds: Vec<DoneItem> = dones
        .iter()
        .map(|(t, d)| DoneItem { text: chars(t), date: chars(d) })
        .collect();
    TodoApp::from_lists(ts, ds)
}

fn todo_texts(app: &TodoApp) -> Vec<String> {
    app.get_todos().iter().map(|t| text(&t.text)).collect()
}

fn done_texts(app: &TodoApp) -> Vec<String> {
    app.get_dones().iter().map(|d| text(&d.text)).collect()
}

#[test]
fn new_app_is_empty() {
    let app = TodoApp::new();
    assert_eq!(app.get_todos_n(), 0);
    assert_eq!(app.get_dones_n(), 0);
    assert!(app.is_in_todo_panel());
    assert!(!app.is_in_done_panel());
    assert_eq!(text(app.get_message()), "");
}

#[test]
fn navigate_up_then_down_returns_to_start() {
    let mut app = app_with(&["a", "b", "c"], &[]);
    app.go_down(); // index 1
    assert!(app.is_cur_todo(1));
    app.go_up();
    app.go_down();
    assert!(app.is_cur_todo(1));
}

#[test]
fn navigate_clamps_at_edges() {
    let mut app = app_with(&["a", "b", "c"], &[]);
    app.go_up(); // already at 0
    assert!(app.is_cur_todo(0));
    app.go_bottom();
    assert!(app.is_cur_todo(2));
    app.go_down(); // already last
    assert!(app.is_cur_todo(2));
    app.go_top();
    assert!(app.is_cur_todo(0));
}

#[test]
fn navigate_on_empty_is_noop() {
    let mut app = TodoApp::new();
    app.go_down();
    app.go_up();
    app.go_bottom();
    app.go_top();
    assert!(app.is_cur_todo(0));
}

#[test]
fn toggle_panel_remembers_cursors() {
    let mut app = app_with(&["a", "b"], &[("x", "d1"), ("y", "d2")]);
    app.go_down();
    app.toggle_panel();
    assert!(app.is_in_done_panel());
    assert!(app.is_cur_done(0));
    app.go_down();
    app.toggle_panel();
    assert!(app.is_in_todo_panel());
    assert!(app.is_cur_todo(1));
    app.toggle_panel();
    assert!(app.is_cur_done(1));
}

#[test]
fn drag_down_moves_item_and_cursor() {
    let mut app = app_with(&["a", "b", "c"], &[]);
    app.drag_down();
    assert_eq!(todo_texts(&app), vec!["b", "a", "c"]);
    assert!(app.is_cur_todo(1));
}

#[test]
fn drag_down_on_last_item_is_noop() {
    let mut app = app_with(&["a", "b", "c"], &[]);
    app.go_bottom();
    app.drag_down();
    assert_eq!(todo_texts(&app), vec!["a", "b", "c"]);
    assert!(app.is_cur_todo(2));
    assert!(app.undo_entry.is_none());
}

#[test]
fn drag_up_at_top_is_noop() {
    let mut app = app_with(&["a", "b"], &[]);
    app.drag_up();
    assert_eq!(todo_texts(&app), vec!["a", "b"]);
    assert!(app.is_cur_todo(0));
}

#[test]
fn drag_up_moves_item_and_cursor() {
    let mut app = app_with(&["a", "b", "c"], &[]);
    app.go_bottom();
    app.drag_up();
    assert_eq!(todo_texts(&app), vec!["a", "c", "b"]);
    assert!(app.is_cur_todo(1));
}

#[test]
fn drag_in_done_panel_swaps_dates_too() {
    let mut app = app_with(&[], &[("x", "d1"), ("y", "d2")]);
    app.toggle_panel();
    app.drag_down();
    assert_eq!(done_texts(&app), vec!["y", "x"]);
    let dates: Vec<String> = app.get_dones().iter().map(|d| text(&d.date)).collect();
    assert_eq!(dates, vec!["d2", "d1"]);
}

#[test]
fn transfer_moves_open_item_to_done_end_with_date() {
    let mut app = app_with(&["a", "b"], &[("z", "d0")]);
    app.transfer_item_dated(chars("2024-01-02 03:04:05"));
    assert_eq!(todo_texts(&app), vec!["b"]);
    assert_eq!(done_texts(&app), vec!["z", "a"]);
    assert_eq!(text(&app.get_dones()[1].date), "2024-01-02 03:04:05");
}

#[test]
fn transfer_back_drops_date() {
    let mut app = app_with(&["a"], &[("z", "d0")]);
    app.toggle_panel();
    app.transfer_item_dated(chars("unused"));
    assert_eq!(done_texts(&app), Vec::<String>::new());
    assert_eq!(todo_texts(&app), vec!["a", "z"]);
}

#[test]
fn transfer_with_clock_date_stays_clean() {
    let mut app = app_with(&["a"], &[]);
    app.transfer_item();
    assert_eq!(app.get_dones_n(), 1);
    assert_eq!(text(&app.get_dones()[0].text), "a");
    let date = &app.get_dones()[0].date;
    assert!(!date.is_empty());
    assert!(date.iter().all(|&c| c != '|' && c != '\n'));
}

#[test]
fn transfer_then_undo_restores_everything() {
    let mut app = app_with(&["only"], &[]);
    app.transfer_item_dated(chars("2024"));
    assert_eq!(todo_texts(&app), Vec::<String>::new());
    assert_eq!(done_texts(&app), vec!["only"]);
    app.undo();
    assert_eq!(todo_texts(&app), vec!["only"]);
    assert_eq!(done_texts(&app), Vec::<String>::new());
    assert!(app.is_in_todo_panel());
    assert!(app.is_cur_todo(0));
}

#[test]
fn transfer_on_empty_is_noop() {
    let mut app = TodoApp::new();
    app.transfer_item_dated(chars("2024"));
    assert_eq!(app.get_todos_n(), 0);
    assert_eq!(app.get_dones_n(), 0);
}

#[test]
fn undo_twice_is_noop_the_second_time() {
    let mut app = app_with(&["a", "b"], &[]);
    app.drag_down();
    app.undo();
    assert_eq!(todo_texts(&app), vec!["a", "b"]);
    app.drag_up(); // no-op at top: records nothing
    app.undo(); // no entry left
    assert_eq!(todo_texts(&app), vec!["a", "b"]);
    assert!(app.is_cur_todo(0));
}

#[test]
fn delete_only_works_on_done_panel() {
    let mut app = app_with(&["a"], &[("x", "d")]);
    app.delete_item();
    assert_eq!(todo_texts(&app), vec!["a"]);
    assert_eq!(app.get_dones_n(), 1);
    app.toggle_panel();
    app.delete_item();
    assert_eq!(app.get_dones_n(), 0);
    app.undo();
    assert_eq!(done_texts(&app), vec!["x"]);
}

#[test]
fn insert_item_opens_empty_editor_before_cursor() {
    let mut app = app_with(&["a", "b"], &[]);
    app.go_down();
    let cur = app.insert_item();
    assert_eq!(cur, Some(0));
    assert_eq!(todo_texts(&app), vec!["a", "", "b"]);
    assert!(app.is_cur_todo(1));
    app.edit_item_with('x' as i32);
    assert!(app.finish_edit());
    assert_eq!(todo_texts(&app), vec!["a", "x", "b"]);
}

#[test]
fn append_item_inserts_after_cursor() {
    let mut app = app_with(&["a", "b"], &[]);
    let cur = app.append_item();
    assert_eq!(cur, Some(0));
    assert_eq!(todo_texts(&app), vec!["a", "", "b"]);
    assert!(app.is_cur_todo(1));
}

#[test]
fn insert_on_done_panel_is_refused() {
    let mut app = app_with(&["a"], &[("x", "d")]);
    app.toggle_panel();
    assert_eq!(app.insert_item(), None);
    assert_eq!(app.append_item(), None);
    assert_eq!(app.get_todos_n(), 1);
}

#[test]
fn insert_then_cancel_restores_collection() {
    let mut app = app_with(&["a", "b"], &[]);
    app.go_down();
    app.insert_item();
    app.cancel_edit();
    assert_eq!(todo_texts(&app), vec!["a", "b"]);
    assert!(app.is_cur_todo(1));
    assert!(app.undo_entry.is_none());
}

#[test]
fn insert_then_empty_finish_removes_item() {
    let mut app = app_with(&["a"], &[]);
    app.insert_item();
    assert!(app.finish_edit());
    assert_eq!(todo_texts(&app), vec!["a"]);
}

#[test]
fn edit_seeds_buffer_and_appends_at_end() {
    let mut app = app_with(&["old"], &[]);
    let cur = app.edit_item();
    assert_eq!(cur, Some(3));
    app.edit_item_with('!' as i32);
    assert!(app.finish_edit());
    assert_eq!(todo_texts(&app), vec!["old!"]);
}

#[test]
fn edit_typing_inserts_at_cursor_offset() {
    let mut app = app_with(&["old"], &[]);
    app.edit_item();
    app.edit_item_with('a' as i32);
    app.edit_item_with('b' as i32);
    app.edit_item_with('c' as i32);
    assert!(app.finish_edit());
    assert_eq!(todo_texts(&app), vec!["oldabc"]);
}

#[test]
fn edit_keys_move_delete_and_ignore() {
    let mut app = app_with(&["ab"], &[]);
    app.edit_item(); // buffer "ab", cursor 2
    app.edit_item_with(KEY_LEFT); // cursor 1
    app.edit_item_with('x' as i32); // "axb", cursor 2
    app.edit_item_with(KEY_BACKSPACE); // "ab", cursor 1
    app.edit_item_with(KEY_RIGHT); // cursor 2
    app.edit_item_with(7); // unrecognized: ignored
    app.edit_item_with('!' as i32); // "ab!"
    assert!(app.finish_edit());
    assert_eq!(todo_texts(&app), vec!["ab!"]);
}

#[test]
fn edit_cancel_keeps_original_text() {
    let mut app = app_with(&["keep"], &[]);
    app.edit_item();
    app.edit_item_with('x' as i32);
    app.cancel_edit();
    assert_eq!(todo_texts(&app), vec!["keep"]);
}

#[test]
fn edit_done_item_text() {
    let mut app = app_with(&[], &[("x", "d")]);
    app.toggle_panel();
    let cur = app.edit_item();
    assert_eq!(cur, Some(1));
    app.edit_item_with('y' as i32);
    assert!(app.finish_edit());
    assert_eq!(done_texts(&app), vec!["xy"]);
    assert_eq!(text(&app.get_dones()[0].date), "d");
}

#[test]
fn finish_edit_outside_edit_mode_reports_failure() {
    let mut app = app_with(&["a"], &[]);
    assert!(!app.finish_edit());
}

#[test]
fn normal_ops_are_ignored_while_editing() {
    let mut app = app_with(&["a", "b"], &[]);
    app.edit_item();
    app.go_down();
    app.toggle_panel();
    app.drag_down();
    app.delete_item();
    app.undo();
    assert!(app.is_in_todo_panel());
    assert!(app.is_cur_todo(0));
    assert_eq!(todo_texts(&app), vec!["a", "b"]);
    assert!(app.finish_edit());
}

#[test]
fn edit_on_empty_collection_is_refused() {
    let mut app = TodoApp::new();
    assert_eq!(app.edit_item(), None);
}

#[test]
fn message_can_be_set_and_cleared() {
    let mut app = TodoApp::new();
    app.set_message(chars("saved"));
    assert_eq!(text(app.get_message()), "saved");
    app.clear_message();
    assert_eq!(text(app.get_message()), "");
}

#[test]
fn edit_del_key_behaves_like_backspace() {
    let mut app = app_with(&["abc"], &[]);
    app.edit_item();
    app.edit_item_with(127);
    assert!(app.finish_edit());
    assert_eq!(todo_texts(&app), vec!["ab"]);
}

#[test]
fn edit_keys_outside_edit_mode_are_ignored() {
    let mut app = app_with(&["abc"], &[]);
    app.edit_item_with('x' as i32);
    assert_eq!(todo_texts(&app), vec!["abc"]);
}

#[test]
fn backspace_at_offset_zero_is_noop() {
    let mut app = app_with(&["ab"], &[]);
    app.edit_item();
    app.edit_item_with(KEY_LEFT);
    app.edit_item_with(KEY_LEFT);
    app.edit_item_with(KEY_BACKSPACE);
    assert!(app.finish_edit());
    assert_eq!(todo_texts(&app), vec!["ab"]);
}
