use todors::store::{load_lines, save_lines};
use todors::todo::{DoneItem, TodoItem};

fn chars(s: &str) -> Vec<char> {
    s.chars().collect()
}

fn text(v: &Vec<char>) -> String {
    v.iter().collect()
}

fn line(s: &str) -> Vec<char> {
    chars(s)
}

#[test]
fn save_writes_one_line_per_item() {
    let todos = vec![TodoItem { text: chars("buy milk") }];
    let dones = vec![DoneItem { text: chars("call"), date: chars("2024-01-02 03:04:05") }];
    let lines = save_lines(&todos, &dones);
    let rendered: Vec<String> = lines.iter().map(text).collect();
    assert_eq!(rendered, vec!["[ ] buy milk", "[X] |2024-01-02 03:04:05| call"]);
}

#[test]
fn round_trip_keeps_texts_and_dates() {
    let todos = vec![
        TodoItem { text: chars("alpha") },
        TodoItem { text: chars("") },
        TodoItem { text: chars("with | pipe and [X] markers") },
    ];
    let dones = vec![
        DoneItem { text: chars("done one"), date: chars("2023-12-31 23:59:59") },
        DoneItem { text: chars(""), date: chars("") },
    ];
    let lines = save_lines(&todos, &dones);
    let (t2, d2) = load_lines(&lines);
    assert_eq!(t2.len(), 3);
    assert_eq!(d2.len(), 2);
    for (a, b) in todos.iter().zip(t2.iter()) {
        assert_eq!(text(&a.text), text(&b.text));
    }
    for (a, b) in dones.iter().zip(d2.iter()) {
        assert_eq!(text(&a.text), text(&b.text));
        assert_eq!(text(&a.date), text(&b.date));
    }
}

#[test]
fn load_accepts_interleaved_lines() {
    let lines = vec![
        line("[X] |d1| first done"),
        line("[ ] first open"),
        line("[X] |d2| second done"),
        line("[ ] second open"),
    ];
    let (t, d) = load_lines(&lines);
    let ts: Vec<String> = t.iter().map(|i| text(&i.text)).collect();
    let ds: Vec<String> = d.iter().map(|i| text(&i.text)).collect();
    assert_eq!(ts, vec!["first open", "second open"]);
    assert_eq!(ds, vec!["first done", "second done"]);
}

#[test]
fn load_passes_over_lines_of_other_shapes() {
    let lines = vec![
        line(""),
        line("junk"),
        line("[X] |no closing space|"),
        line("[x] lowercase marker"),
        line("[ ] kept"),
    ];
    let (t, d) = load_lines(&lines);
    assert_eq!(t.len(), 1);
    assert_eq!(text(&t[0].text), "kept");
    assert!(d.is_empty());
}

#[test]
fn empty_open_text_round_trips() {
    let todos = vec![TodoItem { text: chars("") }];
    let lines = save_lines(&todos, &Vec::new());
    assert_eq!(text(&lines[0]), "[ ] ");
    let (t, d) = load_lines(&lines);
    assert_eq!(t.len(), 1);
    assert_eq!(text(&t[0].text), "");
    assert!(d.is_empty());
}

#[test]
fn done_text_may_hold_pipes() {
    let dones = vec![DoneItem { text: chars("a | b | c"), date: chars("d") }];
    let lines = save_lines(&Vec::new(), &dones);
    let (_, d) = load_lines(&lines);
    assert_eq!(text(&d[0].text), "a | b | c");
    assert_eq!(text(&d[0].date), "d");
}
