use zk_tui::doc::Tone;
use zk_tui::text::{pad, row_width, trim_end, truncate, width, wrap, Piece, Row};

fn texts(rows: &[Row]) -> Vec<String> {
    rows.iter().map(|row| row.iter().map(|(text, _)| text.as_str()).collect()).collect()
}

fn piece(text: &str) -> Piece {
    (text.to_string(), Tone::body())
}

#[test]
fn wraps_at_spaces_and_drops_the_space_it_breaks_on() {
    let rows = wrap(&[piece("the quick brown fox")], 10);
    assert_eq!(texts(&rows), ["the quick", "brown fox"]);
}

#[test]
fn breaks_words_wider_than_a_row_and_honours_newlines() {
    let rows = wrap(&[piece("abcdefghij\n  xy")], 4);
    assert_eq!(texts(&rows), ["abcd", "efgh", "ij", "  xy"]);
}

#[test]
fn adjacent_spans_without_a_space_wrap_as_one_word() {
    let code = Tone::body().bold();
    let rows = wrap(&[piece("crate `"), ("bellman".to_string(), code), piece("`.")], 10);
    assert_eq!(texts(&rows), ["crate", "`bellman`."]);
}

#[test]
fn measures_wide_characters_by_columns() {
    let rows = wrap(&[piece("증명 증명")], 5);
    assert_eq!(texts(&rows), ["증명", "증명"]);
}

#[test]
fn truncates_with_an_ellipsis_inside_the_limit() {
    let row = truncate(vec![piece("abcdef")], 4, "…");
    assert_eq!(texts(&[row]), ["abc…"]);
    let row = truncate(vec![piece("abc")], 4, "…");
    assert_eq!(texts(&[row]), ["abc"]);
}

#[test]
fn padding_and_trimming_undo_each_other() {
    let mut row = vec![piece("ab")];
    pad(&mut row, 5);
    assert_eq!(texts(&[row.clone()]), ["ab   "]);
    assert_eq!(row_width(&row), 5);
    trim_end(&mut row);
    assert_eq!(texts(&[row]), ["ab"]);
    assert_eq!(width("증명"), 4);
    assert_eq!(texts(&wrap(&[piece("")], 4)), [""]);
}

#[test]
fn wrapping_keeps_every_character_but_spaces_and_line_breaks() {
    let input = [piece("the quick\nbrown  "), piece("fox jumps over"), piece(" the lazy dog")];
    let rows = wrap(&input, 7);
    let kept: String = texts(&rows).concat().chars().filter(|c| *c != ' ').collect();
    let whole: String = input.iter().map(|(text, _)| text.as_str()).collect::<String>().chars().filter(|c| *c != ' ' && *c != '\n').collect();
    assert_eq!(kept, whole);
    assert!(texts(&rows).iter().all(|row| width(row) <= 7));
}

#[test]
fn truncation_keeps_the_longest_start_that_fits() {
    let row = truncate(vec![piece("ab"), piece("증명cd")], 5, "…");
    assert_eq!(texts(&[row]), ["ab증…"]);
    let row = truncate(vec![piece("abcdef")], 0, "…");
    assert_eq!(texts(&[row]), [""]);
    let row = truncate(vec![piece("abcdef")], 1, "…");
    assert_eq!(texts(&[row]), ["…"]);
    let row = truncate(vec![piece("abcdef")], 6, "…");
    assert_eq!(texts(&[row]), ["abcdef"]);
}
