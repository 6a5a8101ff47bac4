use arcaea::row::Cell;
use arcaea::style::{Color, Style};
use arcaea::terminal::{Command, Terminal};

fn styled(fg: (u8, u8, u8)) -> Style {
    Style::new().with(Color { r: fg.0, g: fg.1, b: fg.2 })
}

fn prints(cmds: &[Command]) -> Vec<String> {
    cmds.iter()
        .filter_map(|c| match c {
            Command::Print(s) => Some(s.clone()),
            _ => None,
        })
        .collect()
}

#[test]
fn an_unchanged_cell_emits_no_bytes() {
    let mut term = Terminal::new(3, 10);
    let style = styled((1, 2, 3));
    let cell = Cell::new("A".to_string(), 1);
    term.write_cell(arcaea::position::Position { x: 2, y: 1 }, style, &cell);
    let first = term.end_render();
    assert_eq!(prints(&first), vec!["A".to_string()]);

    // write the same cell again with identical content and style: the next
    // flush emits nothing for it
    term.clear_buffer();
    term.write_cell(arcaea::position::Position { x: 2, y: 1 }, style, &cell);
    term.write_cell(arcaea::position::Position { x: 2, y: 1 }, style, &cell);
    let second = term.end_render();
    // only cells differing from the last flushed frame print: the repeated
    // "A" emits nothing, and the only prints are blanks restoring the cells
    // the first frame had painted over
    let non_blank: Vec<String> = prints(&second).into_iter().filter(|s| s != " ").collect();
    assert!(non_blank.is_empty());
}

#[test]
fn resize_forces_a_full_repaint() {
    let mut term = Terminal::new(2, 4);
    let style = styled((9, 9, 9));
    for x in 0..4usize {
        term.write_cell(arcaea::position::Position { x, y: 0 }, style, &Cell::new("x".to_string(), 1));
        term.write_cell(arcaea::position::Position { x, y: 1 }, style, &Cell::new("y".to_string(), 1));
    }
    let first = term.end_render();
    assert_eq!(prints(&first).len(), 8);
    // an identical frame afterwards prints nothing
    let again = term.end_render();
    assert!(prints(&again).is_empty());
    // a resize blanks the diff baseline: the same painted frame prints every
    // visible cell again
    term.update_window_size(2, 4);
    for x in 0..4usize {
        term.write_cell(arcaea::position::Position { x, y: 0 }, style, &Cell::new("x".to_string(), 1));
        term.write_cell(arcaea::position::Position { x, y: 1 }, style, &Cell::new("y".to_string(), 1));
    }
    let after = term.end_render();
    assert_eq!(prints(&after).len(), 8);
}

#[test]
fn runs_coalesce_without_cursor_moves() {
    let mut term = Terminal::new(1, 6);
    let style = styled((5, 5, 5));
    for x in 0..3usize {
        term.write_cell(arcaea::position::Position { x, y: 0 }, style, &Cell::new("r".to_string(), 1));
    }
    let cmds = term.end_render();
    // one row start move, one extra move at most (the run is contiguous from
    // column 0), one style change
    let moves = cmds.iter().filter(|c| matches!(c, Command::MoveTo(_, _))).count();
    let styles = cmds.iter().filter(|c| matches!(c, Command::SetStyle(_))).count();
    assert_eq!(moves, 1);
    assert_eq!(styles, 1);
    assert_eq!(prints(&cmds).len(), 3);
}

#[test]
fn rows_without_changes_emit_no_cursor_moves() {
    let mut term = Terminal::new(3, 4);
    let style = styled((2, 2, 2));
    term.write_cell(arcaea::position::Position { x: 1, y: 1 }, style, &Cell::new("m".to_string(), 1));
    let cmds = term.end_render();
    // only the changed row repositions the cursor; the untouched rows above
    // and below contribute nothing
    let move_rows: Vec<usize> = cmds
        .iter()
        .filter_map(|c| match c {
            Command::MoveTo(_, y) => Some(*y),
            _ => None,
        })
        .collect();
    assert!(!move_rows.is_empty());
    assert!(move_rows.iter().all(|&y| y == 1));
    // a frame identical to the last flushed one emits only the fixed frame
    // prelude: no move, no style, no print
    let again = term.end_render();
    assert_eq!(again.len(), 3);
    assert!(!again.iter().any(|c| matches!(c, Command::MoveTo(_, _) | Command::Print(_))));
}

#[test]
fn wide_glyphs_occupy_trailing_placeholders() {
    let mut term = Terminal::new(1, 4);
    let style = styled((7, 7, 7));
    term.write_cell(arcaea::position::Position { x: 0, y: 0 }, style, &Cell::new("宽".to_string(), 2));
    let cmds = term.end_render();
    assert_eq!(prints(&cmds), vec!["宽".to_string()]);
}

#[test]
fn out_of_bounds_writes_are_dropped() {
    let mut term = Terminal::new(2, 3);
    let style = styled((1, 1, 1));
    term.write_cell(arcaea::position::Position { x: 2, y: 0 }, style, &Cell::new("w".to_string(), 2));
    term.write_cell(arcaea::position::Position { x: 0, y: 5 }, style, &Cell::new("z".to_string(), 1));
    let cmds = term.end_render();
    assert!(prints(&cmds).is_empty());
}
