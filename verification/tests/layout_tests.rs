use todors::layout::{DrawCmd, LayoutKind, UI};
use todors::vec2::Vec2;

fn chars(s: &str) -> Vec<char> {
    s.chars().collect()
}

fn text(v: &Vec<char>) -> String {
    v.iter().collect()
}

#[test]
fn vec2_componentwise_arithmetic() {
    let a = Vec2::new(7, 9);
    let b = Vec2::new(2, 3);
    assert_eq!(a.add(b), Vec2::new(9, 12));
    assert_eq!(a.sub(b), Vec2::new(5, 6));
    assert_eq!(a.mul(b), Vec2::new(14, 27));
    assert_eq!(a.div(b), Vec2::new(3, 3));
    let (q, r) = a.div_rem(b);
    assert_eq!(q, Vec2::new(3, 3));
    assert_eq!(r, Vec2::new(1, 0));
    assert_eq!(Vec2::default(), Vec2::new(0, 0));
}

#[test]
fn even_split_shares_space_with_remainder_folded_in() {
    let mut ui = UI::new();
    ui.begin(Vec2::new(0, 0), LayoutKind::Vert, Vec2::new(80, 10));
    for _ in 0..3 {
        ui.begin_layout(LayoutKind::Vert);
        ui.end_layout();
    }
    // three children of 10 rows: 3 + 3 + 4, never more than the root has
    let root = &ui.stack[0];
    let caps: Vec<i32> = root.children.iter().map(|c| c.max_size.y).collect();
    assert_eq!(caps, vec![3, 3, 4]);
    assert_eq!(caps.iter().sum::<i32>(), 10);
    ui.end();
    assert!(ui.stack.is_empty());
}

#[test]
fn horizontal_split_divides_width() {
    let mut ui = UI::new();
    ui.begin(Vec2::new(0, 0), LayoutKind::Horz, Vec2::new(11, 5));
    ui.begin_layout(LayoutKind::Vert);
    ui.end_layout();
    ui.begin_layout(LayoutKind::Vert);
    ui.end_layout();
    let root = &ui.stack[0];
    let caps: Vec<i32> = root.children.iter().map(|c| c.max_size.x).collect();
    assert_eq!(caps, vec![5, 6]);
    ui.end();
}

#[test]
fn label_pads_and_truncates_to_width() {
    let mut ui = UI::new();
    ui.begin(Vec2::new(0, 0), LayoutKind::Vert, Vec2::new(5, 10));
    ui.label(&chars("ab"));
    ui.label(&chars("abcdefg"));
    ui.end();
    let cmds = ui.take_commands();
    assert_eq!(cmds.len(), 2);
    match &cmds[0] {
        DrawCmd::Text { pos, text: t } => {
            assert_eq!(*pos, Vec2::new(0, 0));
            assert_eq!(text(t), "ab   ");
        }
        _ => panic!("expected text"),
    }
    match &cmds[1] {
        DrawCmd::Text { pos, text: t } => {
            assert_eq!(*pos, Vec2::new(0, 1));
            assert_eq!(text(t), "abcde");
        }
        _ => panic!("expected text"),
    }
}

#[test]
fn styled_label_keeps_pair_and_style() {
    let mut ui = UI::new();
    ui.begin(Vec2::new(0, 0), LayoutKind::Vert, Vec2::new(4, 3));
    ui.label_styled(&chars("hi"), 2, Some(7));
    ui.end();
    let cmds = ui.take_commands();
    match &cmds[0] {
        DrawCmd::TextStyled { pos, text: t, color_pair, style } => {
            assert_eq!(*pos, Vec2::new(0, 0));
            assert_eq!(text(t), "hi  ");
            assert_eq!(*color_pair, 2);
            assert_eq!(*style, Some(7));
        }
        _ => panic!("expected styled text"),
    }
}

#[test]
fn horizontal_rule_fills_width() {
    let mut ui = UI::new();
    ui.begin(Vec2::new(0, 0), LayoutKind::Vert, Vec2::new(4, 3));
    ui.hl();
    ui.end();
    let cmds = ui.take_commands();
    match &cmds[0] {
        DrawCmd::Text { text: t, .. } => assert_eq!(text(t), "----"),
        _ => panic!("expected text"),
    }
}

#[test]
fn break_line_reserves_a_row() {
    let mut ui = UI::new();
    ui.begin(Vec2::new(0, 0), LayoutKind::Vert, Vec2::new(4, 4));
    ui.br();
    ui.label(&chars("x"));
    ui.end();
    let cmds = ui.take_commands();
    match &cmds[0] {
        DrawCmd::Text { pos, .. } => assert_eq!(*pos, Vec2::new(0, 1)),
        _ => panic!("expected text"),
    }
}

#[test]
fn edit_label_overlays_cursor_cell() {
    let mut ui = UI::new();
    ui.begin(Vec2::new(0, 0), LayoutKind::Vert, Vec2::new(10, 3));
    ui.edit_label(&chars("ab"), 1, &chars("- "));
    ui.end();
    let cmds = ui.take_commands();
    assert_eq!(cmds.len(), 2);
    match &cmds[0] {
        DrawCmd::Text { pos, text: t } => {
            assert_eq!(*pos, Vec2::new(0, 0));
            assert_eq!(text(t), "- ab      ");
        }
        _ => panic!("expected text"),
    }
    match &cmds[1] {
        DrawCmd::Cursor { pos, ch } => {
            assert_eq!(*pos, Vec2::new(3, 0));
            assert_eq!(*ch, 'b');
        }
        _ => panic!("expected cursor"),
    }
}

#[test]
fn edit_label_past_end_highlights_blank() {
    let mut ui = UI::new();
    ui.begin(Vec2::new(0, 0), LayoutKind::Vert, Vec2::new(10, 3));
    ui.edit_label(&chars("ab"), 2, &chars(""));
    ui.end();
    let cmds = ui.take_commands();
    match &cmds[1] {
        DrawCmd::Cursor { pos, ch } => {
            assert_eq!(*pos, Vec2::new(2, 0));
            assert_eq!(*ch, ' ');
        }
        _ => panic!("expected cursor"),
    }
}

#[test]
fn shrinking_sibling_blanks_freed_rows() {
    let mut ui = UI::new();
    ui.begin(Vec2::new(0, 0), LayoutKind::Vert, Vec2::new(6, 12));
    ui.begin_layout(LayoutKind::Vert);
    ui.label(&chars("one"));
    ui.label(&chars("two"));
    ui.end_layout();
    ui.begin_layout(LayoutKind::Vert);
    ui.end_layout(); // empty sibling: the two rows above are stale
    ui.end();
    let cmds = ui.take_commands();
    assert_eq!(cmds.len(), 4);
    for cmd in &cmds[2..] {
        match cmd {
            DrawCmd::Text { text: t, .. } => assert_eq!(text(t), "      "),
            _ => panic!("expected blank row"),
        }
    }
}

#[test]
fn nested_scopes_stack_positions() {
    let mut ui = UI::new();
    ui.begin(Vec2::new(0, 0), LayoutKind::Vert, Vec2::new(10, 10));
    ui.label(&chars("header"));
    ui.begin_layout(LayoutKind::Horz);
    ui.label(&chars("left"));
    ui.label(&chars("right"));
    ui.end_layout();
    ui.end();
    let cmds = ui.take_commands();
    // header at row 0; the scope starts at row 1; horizontal packing
    // clamps the second label to the scope's share of the width
    match &cmds[1] {
        DrawCmd::Text { pos, .. } => assert_eq!(*pos, Vec2::new(0, 1)),
        _ => panic!("expected text"),
    }
    match &cmds[2] {
        DrawCmd::Text { pos, .. } => assert_eq!(*pos, Vec2::new(4, 1)),
        _ => panic!("expected text"),
    }
}

#[test]
fn vec2_division_truncates_toward_zero() {
    let a = Vec2::new(-7, 7);
    let b = Vec2::new(2, -2);
    assert_eq!(a.div(b), Vec2::new(-3, -3));
    let (q, r) = a.div_rem(b);
    assert_eq!(q, Vec2::new(-3, -3));
    assert_eq!(r, Vec2::new(-1, 1));
    assert_eq!(q.x * b.x + r.x, a.x);
    assert_eq!(q.y * b.y + r.y, a.y);
}
