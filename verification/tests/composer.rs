use zk_tui::composer::{Composer, Visual};

#[test]
fn edits_respect_multi_byte_characters() {
    let mut composer = Composer::default();
    composer.insert("증명x");
    composer.left();
    composer.backspace();
    assert_eq!(composer.text(), "증x");
    composer.home();
    composer.delete();
    assert_eq!(composer.text(), "x");
}

#[test]
fn history_walks_back_and_returns_to_the_draft() {
    let mut composer = Composer::default();
    for line in ["/list", "/examples"] {
        composer.insert(line);
        composer.take();
    }
    composer.insert("/he");
    composer.up();
    assert_eq!(composer.text(), "/examples");
    composer.up();
    assert_eq!(composer.text(), "/list");
    composer.up();
    assert_eq!(composer.text(), "/list");
    composer.down();
    composer.down();
    assert_eq!(composer.text(), "/he");
    assert!(!composer.recalling());
}

#[test]
fn visual_rows_wrap_and_place_the_cursor() {
    let mut composer = Composer::default();
    composer.insert("abcdef\ngh");
    assert_eq!(
        composer.visual(4),
        Visual { rows: vec!["abcd".into(), "ef".into(), "gh".into()], cursor: (2, 2) }
    );
    composer.set("abcd".into());
    assert_eq!(composer.visual(4).cursor, (1, 0));
}

#[test]
fn up_and_down_move_between_lines_before_history() {
    let mut composer = Composer::default();
    composer.insert("/one");
    composer.take();
    composer.insert("ab\ncd");
    composer.up();
    assert_eq!(composer.text(), "ab\ncd");
    composer.insert("X");
    assert_eq!(composer.text(), "abX\ncd");
}

#[test]
fn a_typed_character_is_taken_back_by_backspace() {
    let mut composer = Composer::default();
    composer.insert("증명");
    composer.left();
    composer.insert("x");
    assert_eq!(composer.text(), "증x명");
    composer.backspace();
    assert_eq!(composer.text(), "증명");
    composer.right();
    composer.backspace();
    assert_eq!(composer.text(), "증");
}

#[test]
fn blank_and_repeated_commands_are_not_remembered() {
    let mut composer = Composer::default();
    for line in ["/list", "/list", "   ", "/help"] {
        composer.insert(line);
        assert_eq!(composer.take(), line);
    }
    assert!(composer.is_empty());
    composer.up();
    assert_eq!(composer.text(), "/help");
    composer.up();
    assert_eq!(composer.text(), "/list");
    composer.up();
    assert_eq!(composer.text(), "/list");
    assert!(composer.recalling());
    composer.down();
    composer.down();
    assert_eq!(composer.text(), "");
    assert!(!composer.recalling());
}

#[test]
fn home_end_and_the_last_full_row() {
    let mut composer = Composer::default();
    composer.insert("ab\ncdef");
    composer.home();
    composer.insert(">");
    assert_eq!(composer.text(), "ab\n>cdef");
    composer.up();
    composer.end();
    composer.insert("!");
    assert_eq!(composer.text(), "ab!\n>cdef");
    composer.clear();
    assert!(composer.is_empty());
    composer.set("증명".into());
    assert_eq!(composer.visual(4), Visual { rows: vec!["증명".into(), "".into()], cursor: (1, 0) });
    assert_eq!(composer.visual(3), Visual { rows: vec!["증".into(), "명".into()], cursor: (1, 2) });
}

#[test]
fn a_fresh_composer_is_consistent() {
    let mut composer = zk_tui::composer::Composer::default();
    assert!(composer.consistent());
    composer.insert("héllo");
    composer.left();
    assert!(composer.consistent());
}

#[test]
fn visual_rows_hold_the_text_within_the_width() {
    let mut composer = Composer::default();
    composer.insert("abcdefg\nhi\n\n증명증명");
    let visual = composer.visual(3);
    assert_eq!(visual.rows.concat(), "abcdefghi증명증명");
    assert!(visual.rows.len() >= 4);
    assert!(visual.rows.iter().all(|row| zk_tui::text::width(row) <= 3), "{:?}", visual.rows);
    assert_eq!(visual.rows, ["abc", "def", "g", "hi", "", "증", "명", "증", "명"]);
}
