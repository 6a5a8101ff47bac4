use arcaea::history::History;
use arcaea::position::Position;
use arcaea::row::Row;

fn rows(texts: &[&str]) -> Vec<Row> {
    texts.iter().map(|t| Row::from_str(t)).collect()
}

fn same(buffer: &[Row], texts: &[&str]) -> bool {
    buffer.len() == texts.len()
        && buffer.iter().zip(texts.iter()).all(|(r, t)| r.to_string() == *t)
}

#[test]
fn test_history() {
    let mut history: History = History::new();
    let origin = Position::default();
    let ver0 = rows(&["QwQ", "version = 0", "unchanged"]);
    let ver1 = rows(&["awa", "version = 1", "changed", "very", "long"]);
    let ver2 = rows(&["QwQ", "version = 2", "changed"]);

    history.push_state(&ver0, origin, origin, None);
    history.push_state(&ver1, origin, origin, None);
    history.push_state(&ver2, origin, origin, None);

    assert!(same(&history.current, &["QwQ", "version = 2", "changed"]));
    assert_eq!(history.redo(), false);
    assert_eq!(history.undo(), true); // 2 -> 1
    assert!(same(&history.current, &["awa", "version = 1", "changed", "very", "long"]));
    assert_eq!(history.redo(), true); // 1 -> 2
    assert!(same(&history.current, &["QwQ", "version = 2", "changed"]));
    assert_eq!(history.redo(), false);

    assert_eq!(history.undo(), true); // 2 -> 1
    assert_eq!(history.undo(), true); // 1 -> 0
    assert_eq!(history.undo(), false);

    history.push_state(&rows(&["TvT"]), origin, origin, None); // drops old versions 1 and 2
    assert!(same(&history.current, &["TvT"]));
}

#[test]
fn undo_then_redo_walks_every_version() {
    let mut history: History = History::new();
    let origin = Position::default();
    let versions = [
        vec!["one"],
        vec!["one", "two"],
        vec!["one", "two", "three"],
        vec!["almost", "two", "three"],
    ];
    for v in versions.iter() {
        history.push_state(&rows(v), origin, origin, None);
    }
    // walk back: every intermediate state matches the historical commit
    for k in (0..versions.len() - 1).rev() {
        assert!(history.undo());
        assert!(same(&history.current, &versions[k]));
    }
    assert!(!history.undo());
    // walk forward again
    for k in 1..versions.len() {
        assert!(history.redo());
        assert!(same(&history.current, &versions[k]));
    }
    assert!(!history.redo());
}

#[test]
fn commit_off_the_newest_version_discards_the_redo_branch() {
    let mut history: History = History::new();
    let origin = Position::default();
    history.push_state(&rows(&["a"]), origin, origin, None);
    history.push_state(&rows(&["b"]), origin, origin, None);
    history.push_state(&rows(&["c"]), origin, origin, None);
    assert!(history.undo());
    assert!(same(&history.current, &["b"]));
    // committing here discards version "c"
    history.push_state(&rows(&["d"]), origin, origin, None);
    assert!(same(&history.current, &["d"]));
    assert_eq!(history.redo(), false);
    // and the discarded branch stays gone after further undo/redo
    assert!(history.undo());
    assert!(same(&history.current, &["b"]));
    assert!(history.redo());
    assert!(same(&history.current, &["d"]));
    assert_eq!(history.redo(), false);
}

#[test]
fn undo_restores_the_recorded_ui_state() {
    let mut history: History = History::new();
    let p = |x: usize, y: usize| Position::new(x, y);
    history.push_state(&rows(&["abc"]), p(0, 0), p(0, 0), None);
    history.push_state(&rows(&["xabc"]), p(0, 0), p(1, 0), None);
    history.update_state(p(0, 0), p(1, 0), None);
    assert!(history.undo());
    assert_eq!(history.current_state.cursor.x, 0);
    assert_eq!(history.current_state.cursor.y, 0);
}
