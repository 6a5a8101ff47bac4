use arcaea::editor::{Editor, EditorAction};
use arcaea::tui::{KeyCode, KeyInput};
use arcaea::position::Position;

fn buffer_texts(ed: &Editor) -> Vec<String> {
    ed.buffer.iter().map(|r| r.to_string()).collect()
}

#[test]
fn typing_then_undo_restores_text_and_cursor() {
    // buffer = ["abc"], cursor at the origin
    let mut ed = Editor::new();
    ed.load_text("abc");
    ed.commit_history();
    assert_eq!(buffer_texts(&ed), vec!["abc"]);
    assert_eq!((ed.cursor.x, ed.cursor.y), (0, 0));

    ed.on_char('x');
    assert_eq!(buffer_texts(&ed), vec!["xabc"]);
    assert_eq!((ed.cursor.x, ed.cursor.y), (1, 0));

    assert!(ed.undo_edit());
    assert_eq!(buffer_texts(&ed), vec!["abc"]);
    assert_eq!((ed.cursor.x, ed.cursor.y), (0, 0));
}

#[test]
fn deleting_a_two_row_selection_merges_the_rows() {
    // buffer = ["hello", "world"]; select (0,0) .. (3,1) and delete
    let mut ed = Editor::new();
    ed.load_text("hello\nworld");
    ed.commit_history();
    ed.delete_selection_range(Position::new(0, 0), Position::new(3, 1));
    assert_eq!(buffer_texts(&ed), vec!["ld"]);
    assert_eq!((ed.cursor.x, ed.cursor.y), (0, 0));
    assert!(ed.anchor.is_none());
}

#[test]
fn deleting_then_reinserting_a_selection_reproduces_the_row() {
    // delete cells [2, 5) of one row, paste the removed text back at 2
    let mut ed = Editor::new();
    ed.load_text("abcdefg");
    ed.commit_history();
    ed.anchor = Some(Position::new(2, 0));
    ed.cursor = Position::new(5, 0);
    let removed = ed.copy_text();
    assert_eq!(removed, "cde");
    ed.on_backspace();
    assert_eq!(buffer_texts(&ed), vec!["abfg"]);
    assert_eq!((ed.cursor.x, ed.cursor.y), (2, 0));
    assert!(ed.paste_text(&removed));
    assert_eq!(buffer_texts(&ed), vec!["abcdefg"]);
}

#[test]
fn word_motion_crosses_into_leading_whitespace() {
    // Ctrl+Right from just after the last non-space character of a row whose
    // next row holds only leading whitespace lands right after that
    // whitespace run.
    let mut ed = Editor::new();
    ed.load_text("ab\n   ");
    ed.commit_history();
    ed.cursor = Position::new(2, 0);
    ed.move_right(false, true);
    assert_eq!((ed.cursor.x, ed.cursor.y), (3, 1));
}

#[test]
fn word_motion_across_a_boundary_stops_after_leading_spaces() {
    // Ctrl+Right from the end of a row whose next row starts with spaces and
    // then a word lands exactly after the whitespace run, before the word
    let mut ed = Editor::new();
    ed.load_text("a\n b");
    ed.commit_history();
    ed.cursor = Position::new(1, 0);
    ed.move_right(false, true);
    assert_eq!((ed.cursor.x, ed.cursor.y), (1, 1));
}

#[test]
fn word_motion_left_across_a_boundary_stops_before_trailing_spaces() {
    // the mirror: Ctrl+Left from a row start crosses to the row above and
    // stops just before its trailing whitespace run
    let mut ed = Editor::new();
    ed.load_text("x  \nb");
    ed.commit_history();
    ed.cursor = Position::new(0, 1);
    ed.move_left(false, true);
    assert_eq!((ed.cursor.x, ed.cursor.y), (1, 0));
}

#[test]
fn word_motion_skips_spaces_then_a_word() {
    let mut ed = Editor::new();
    ed.load_text("  foo bar");
    ed.commit_history();
    ed.move_right(false, true);
    assert_eq!((ed.cursor.x, ed.cursor.y), (5, 0));
    ed.move_left(false, true);
    assert_eq!((ed.cursor.x, ed.cursor.y), (2, 0));
}

#[test]
fn load_detects_crlf_and_save_restores_it() {
    let mut ed = Editor::new();
    ed.load_text("one\r\ntwo\r\n");
    ed.commit_history();
    assert!(ed.is_crlf);
    assert_eq!(buffer_texts(&ed), vec!["one", "two", ""]);
    assert_eq!(ed.save_text(), "one\r\ntwo\r\n");

    let mut ed2 = Editor::new();
    ed2.load_text("plain\nlines");
    assert!(!ed2.is_crlf);
    assert_eq!(ed2.save_text(), "plain\nlines");
}

#[test]
fn multi_line_paste_splices_rows() {
    let mut ed = Editor::new();
    ed.load_text("head tail");
    ed.commit_history();
    ed.cursor = Position::new(5, 0);
    assert!(ed.paste_text("one\ntwo\nthree"));
    assert_eq!(buffer_texts(&ed), vec!["head one", "two", "threetail"]);
    assert_eq!((ed.cursor.x, ed.cursor.y), (5, 2));
}

#[test]
fn enter_splits_and_backspace_merges() {
    let mut ed = Editor::new();
    ed.load_text("split");
    ed.commit_history();
    ed.cursor = Position::new(2, 0);
    ed.on_enter();
    assert_eq!(buffer_texts(&ed), vec!["sp", "lit"]);
    assert_eq!((ed.cursor.x, ed.cursor.y), (0, 1));
    ed.on_backspace();
    assert_eq!(buffer_texts(&ed), vec!["split"]);
    assert_eq!((ed.cursor.x, ed.cursor.y), (2, 0));
}

#[test]
fn typing_over_a_selection_replaces_it() {
    let mut ed = Editor::new();
    ed.load_text("hello\nworld");
    ed.commit_history();
    ed.anchor = Some(Position::new(0, 0));
    ed.cursor = Position::new(3, 1);
    ed.on_char('X');
    assert_eq!(buffer_texts(&ed), vec!["Xld"]);
    assert_eq!((ed.cursor.x, ed.cursor.y), (1, 0));
    assert!(ed.anchor.is_none());
}

#[test]
fn select_all_spans_the_document() {
    let mut ed = Editor::new();
    ed.load_text("ab\ncdef");
    ed.commit_history();
    ed.select_all();
    assert_eq!(ed.anchor, Some(Position::new(0, 0)));
    assert_eq!((ed.cursor.x, ed.cursor.y), (4, 1));
}

#[test]
fn line_moves_and_duplicates() {
    let mut ed = Editor::new();
    ed.load_text("a\nb\nc");
    ed.commit_history();
    ed.cursor = Position::new(0, 1);
    assert!(ed.move_lines_up());
    assert_eq!(buffer_texts(&ed), vec!["b", "a", "c"]);
    assert_eq!((ed.cursor.x, ed.cursor.y), (0, 1));
    // the cursor does not follow the rows, so moving down now moves the
    // row it newly sits on
    assert!(ed.move_lines_down());
    assert_eq!(buffer_texts(&ed), vec!["b", "c", "a"]);
    ed.cursor = Position::new(0, 0);
    ed.duplicate_lines(true);
    assert_eq!(buffer_texts(&ed), vec!["b", "b", "c", "a"]);
    assert_eq!((ed.cursor.x, ed.cursor.y), (0, 1));
}

#[test]
fn sticky_column_is_clamped_only_at_use() {
    let mut ed = Editor::new();
    ed.load_text("long line\nab\nlonger line");
    ed.commit_history();
    ed.cursor = Position::new(7, 0);
    ed.move_down(false);
    // the target column survives the short row untouched
    assert_eq!((ed.cursor.x, ed.cursor.y), (7, 1));
    ed.move_down(false);
    assert_eq!((ed.cursor.x, ed.cursor.y), (7, 2));
}

#[test]
fn viewport_follows_the_cursor() {
    let mut ed = Editor::new();
    let text = vec!["line"; 50].join("\n");
    ed.load_text(&text);
    ed.commit_history();
    ed.terminal.update_window_size(12, 80);
    ed.cursor = Position::new(0, 40);
    ed.update_viewbox();
    // the cursor stays inside the viewport with its margin
    assert!(ed.viewbox.y <= 38);
    assert!(40 < ed.viewbox.y + 12);
}

#[test]
fn search_finds_every_occurrence() {
    let mut ed = Editor::new();
    ed.load_text("abab\nxxaby");
    ed.commit_history();
    let query = arcaea::row::Row::from_str("ab");
    let hits = ed.search_positions(&query);
    let pairs: Vec<(usize, usize)> = hits.iter().map(|p| (p.x, p.y)).collect();
    assert!(pairs.contains(&(0, 0)));
    assert!(pairs.contains(&(2, 0)));
    assert!(pairs.contains(&(2, 1)));
    assert_eq!(pairs.len(), 3);
}

#[test]
fn key_dispatch_runs_the_edits() {
    let mut ed = Editor::new();
    ed.load_text("ab");
    ed.commit_history();
    let plain = |code: KeyCode| KeyInput { code, ctrl: false, shift: false, alt: false };
    let ctrl = |code: KeyCode| KeyInput { code, ctrl: true, shift: false, alt: false };

    let o = ed.handle_key(plain(KeyCode::Char('x'))).map_err(|e| e.message()).expect("ok");
    assert_eq!(o.action, EditorAction::Nothing);
    assert!(o.update_view);
    assert_eq!(buffer_texts(&ed), vec!["xab"]);

    let o = ed.handle_key(ctrl(KeyCode::Char('z'))).map_err(|e| e.message()).expect("ok");
    assert_eq!(o.action, EditorAction::Nothing);
    assert_eq!(buffer_texts(&ed), vec!["ab"]);

    let o = ed.handle_key(ctrl(KeyCode::Char('y'))).map_err(|e| e.message()).expect("ok");
    assert_eq!(o.action, EditorAction::Nothing);
    assert_eq!(buffer_texts(&ed), vec!["xab"]);

    let o = ed.handle_key(plain(KeyCode::Esc)).map_err(|e| e.message()).expect("ok");
    assert_eq!(o.action, EditorAction::ConfirmExit);

    let o = ed.handle_key(ctrl(KeyCode::Char('s'))).map_err(|e| e.message()).expect("ok");
    assert_eq!(o.action, EditorAction::Save);

    let o = ed.handle_key(ctrl(KeyCode::Up)).map_err(|e| e.message()).expect("ok");
    assert!(!o.update_view);
}
