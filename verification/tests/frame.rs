use zk_tui::composer::Visual;
use zk_tui::doc::{Hue, Tone};
use zk_tui::frame::{areas, composer_lines, composer_text_width, edge_row, footer, page_lines, Areas};
use zk_tui::look::Look;
use zk_tui::text::{row_width, Row};

fn text(row: &Row) -> String {
    row.iter().map(|(t, _)| t.as_str()).collect()
}

fn look() -> Look {
    Look { color: true, ascii: false }
}

#[test]
fn the_composer_sits_above_the_footer_and_the_transcript_takes_the_rest() {
    let quiet = areas(80, 24, 1, false).unwrap();
    assert_eq!(
        quiet,
        Areas { transcript_height: 20, working_y: 20, working_height: 0, composer_y: 20, composer_height: 3, footer_y: 23 }
    );
    let busy = areas(80, 24, 1, true).unwrap();
    assert_eq!((busy.working_y, busy.working_height, busy.transcript_height), (19, 1, 19));
    let tall = areas(80, 24, 10, false).unwrap();
    assert_eq!((tall.composer_y, tall.composer_height), (15, 8), "the composer stops growing at eight rows");
    assert_eq!(areas(80, 24, 0, false).unwrap().composer_height, 3);
    assert_eq!(composer_text_width(80), 74);
    assert_eq!(composer_text_width(5), 0);
}

#[test]
fn a_too_small_terminal_has_no_parts() {
    assert_eq!(areas(59, 24, 1, false), None);
    assert_eq!(areas(80, 15, 1, false), None);
    assert_eq!(areas(40, 10, 1, false), None);
    assert!(areas(60, 16, 1, false).is_some(), "60×16 is big enough");
}

#[test]
fn an_empty_composer_shows_the_prompt_and_the_hint() {
    let visual = Visual { rows: vec![String::new()], cursor: (0, 0) };
    let lines = composer_lines(&visual, true, "Type / for commands", 78, 1, false, &look());
    assert_eq!(lines.rows.len(), 1);
    assert_eq!(text(&lines.rows[0]), " › Type / for commands");
    assert_eq!(lines.rows[0][1].1.hue, Hue::Accent);
    assert_eq!(lines.rows[0][2].1.hue, Hue::Secondary);
    assert_eq!(lines.cursor, Some((3, 0)));
    let ascii = composer_lines(&visual, true, "Type / for commands", 78, 1, true, &Look { color: false, ascii: true });
    assert_eq!(text(&ascii.rows[0]), " > Type / for commands");
    assert_eq!(ascii.cursor, None, "the shortcut box hides the cursor");
}

#[test]
fn a_long_composer_keeps_the_cursor_row_in_view() {
    let visual = Visual { rows: vec!["one".into(), "two".into(), "three".into()], cursor: (2, 5) };
    let lines = composer_lines(&visual, false, "", 78, 2, false, &look());
    let shown: Vec<String> = lines.rows.iter().map(text).collect();
    assert_eq!(shown, ["   two", "   three"]);
    assert_eq!(lines.cursor, Some((8, 1)));
    let all = composer_lines(&visual, false, "", 78, 6, false, &look());
    let shown: Vec<String> = all.rows.iter().map(text).collect();
    assert_eq!(shown, [" › one", "   two", "   three"]);
    let narrow = composer_lines(&visual, false, "", 4, 6, false, &look());
    assert_eq!(narrow.cursor, Some((3, 2)), "the cursor keeps to the last column");
}

#[test]
fn the_footer_puts_new_output_flush_right() {
    let row = footer(None, None, "/ commands", Some("↓ new output"), 40, &look());
    assert_eq!(row_width(&row), 40);
    let shown = text(&row);
    assert!(shown.starts_with(" / commands"));
    assert!(shown.ends_with("↓ new output "));
    assert_eq!(row[1].1.hue, Hue::Secondary, "hints are dimmed");
    assert_eq!(row.last().unwrap().1.hue, Hue::Accent);
    let warned = footer(Some("press ctrl+c again to quit"), Some("flash"), "hints", None, 40, &look());
    assert_eq!(text(&warned), " press ctrl+c again to quit");
    assert_eq!(warned[1].1.hue, Hue::Body);
    let flashed = footer(None, Some("Nothing to reopen."), "hints", None, 40, &look());
    assert_eq!(text(&flashed), " Nothing to reopen.");
}

#[test]
fn the_left_side_gives_way_to_the_right() {
    let left: Row = vec![("a long left side".to_string(), Tone::body())];
    let right: Row = vec![("right".to_string(), Tone::body())];
    let row = edge_row(left, right, 12, &Look { color: true, ascii: true });
    assert_eq!(text(&row), "a l... right");
    assert_eq!(row_width(&row), 12);
    let alone = edge_row(vec![("left".to_string(), Tone::body())], Vec::new(), 12, &look());
    assert_eq!(text(&alone), "left");
}

#[test]
fn a_page_fills_the_screen_with_its_title_body_and_keys() {
    let body: Vec<Row> = vec![vec![("  text".to_string(), Tone::body())]];
    let lines = page_lines("Stand-in", "q close", "↑↓ scroll", body, 50, 30, 6, &look());
    let shown: Vec<String> = lines.iter().map(text).collect();
    assert_eq!(shown.len(), 6);
    assert_eq!(shown[0], format!("Stand-in{}q close", " ".repeat(15)));
    assert_eq!(shown[1], "  text");
    assert_eq!(shown[2], "");
    assert_eq!(shown[4], "");
    assert_eq!(shown[5], format!("↑↓ scroll{}50%", " ".repeat(18)));
    assert!(lines[0][0].1.bold);
}
