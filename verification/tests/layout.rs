use zk_tui::doc::{plain, Block, Doc, Entry, Kind};
use zk_tui::layout::{doc_rows, entry_rows_at};
use zk_tui::look::Look;
use zk_tui::text::Row;

fn texts(rows: &[Row]) -> Vec<String> {
    rows.iter().map(|row| row.iter().map(|(text, _)| text.as_str()).collect()).collect()
}

#[test]
fn tree_items_hang_under_their_text() {
    let mut doc = Doc::new();
    doc.tree(vec![vec![plain("one two three")], vec![plain("four")]]);
    let rows = doc_rows(&doc, 9, &Look::default());
    assert_eq!(texts(&rows), ["├ one two", "  three", "└ four"]);
}

#[test]
fn result_cells_start_with_a_bullet_and_indent_the_rest() {
    let mut doc = Doc::new();
    doc.line(vec![plain("first")]);
    doc.line(vec![plain("second")]);
    let rows = entry_rows_at(&Entry::new(Kind::Result, doc), 40, &Look::default(), 0);
    assert_eq!(texts(&rows), ["• first", "  second"]);
}

#[test]
fn boxes_are_rounded_and_fit_the_width() {
    let mut doc = Doc::new();
    doc.push(Block::Boxed(vec![vec![plain("nmtzk")], vec![plain("a longer line of text")]]));
    let rows = texts(&doc_rows(&doc, 16, &Look::default()));
    assert_eq!(rows[0], "╭──────────────╮");
    assert_eq!(rows[1], "│ nmtzk        │");
    assert_eq!(rows[2], "│ a longer li… │");
    let ascii = texts(&doc_rows(&doc, 16, &Look { color: true, ascii: true }));
    assert_eq!(ascii[0], "+--------------+");
}

#[test]
fn rules_blanks_and_empty_cells() {
    let mut doc = Doc::new();
    doc.push(Block::Rule);
    doc.blank();
    doc.push(Block::Pre(vec![vec![plain("fn main() {}")]]));
    let rows = texts(&doc_rows(&doc, 8, &Look::default()));
    assert_eq!(rows, ["────────", "", "fn main…"]);
    let empty = entry_rows_at(&Entry::new(Kind::Error, Doc::new()), 40, &Look { color: true, ascii: true }, 0);
    assert_eq!(texts(&empty), ["x "]);
    let running = entry_rows_at(&Entry::text(Kind::Running, "proving"), 40, &Look::default(), 80);
    assert_eq!(texts(&running), ["⠙ proving"]);
    let welcome = entry_rows_at(&Entry::text(Kind::Welcome, "hello"), 40, &Look::default(), 0);
    assert_eq!(texts(&welcome), ["hello"]);
}
