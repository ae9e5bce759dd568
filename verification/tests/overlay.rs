use zk_tui::commands::specs;
use zk_tui::complete::{candidates, Candidate, Offers};
use zk_tui::doc::Hue;
use zk_tui::look::Look;
use zk_tui::overlay::{popup_rows, shortcut_box, POPUP_ROWS};
use zk_tui::text::{row_width, Row};

fn pairs(list: &[(&str, &str)]) -> Vec<(String, String)> {
    list.iter().map(|(a, b)| (a.to_string(), b.to_string())).collect()
}

fn offers() -> Offers {
    Offers {
        systems: Vec::new(),
        all: "every system".to_string(),
        examples: pairs(&[("one-plus-one", "1 + 1 = 2")]),
        shelves: pairs(&[("zcash", "Zcash")]),
        languages: pairs(&[("en", "English")]),
        summaries: specs().iter().map(|spec| format!("about {}", spec.name)).collect(),
    }
}

fn text(row: &Row) -> String {
    row.iter().map(|(t, _)| t.as_str()).collect()
}

fn look() -> Look {
    Look { color: true, ascii: false }
}

fn many(n: usize) -> Vec<Candidate> {
    (0..n)
        .map(|i| Candidate { label: format!("c{i}"), detail: format!("d{i}"), line: format!("/c{i}") })
        .collect()
}

#[test]
fn the_slash_popup_shows_eight_rows_with_the_selection_in_accent() {
    let rows = candidates("/", &offers());
    let popup = popup_rows(&rows, 0, 20, 80, &look());
    assert_eq!(popup.first, 0);
    assert_eq!(popup.rows.len(), POPUP_ROWS);
    assert!(text(&popup.rows[0]).starts_with(" /help"), "{:?}", text(&popup.rows[0]));
    assert!(text(&popup.rows[1]).starts_with(" /list [shelf]"));
    assert_eq!(row_width(&popup.rows[0]), 80, "the selected row fills the width");
    assert!(popup.rows[0].iter().all(|(_, tone)| tone.hue == Hue::Accent));
    assert_eq!(popup.rows[1].last().unwrap().1.hue, Hue::Secondary, "details are dimmed");
    let at = |row: &Row| text(row).find("about").unwrap();
    assert_eq!(at(&popup.rows[0]), at(&popup.rows[1]), "details line up in a column");
}

#[test]
fn the_popup_keeps_the_selection_in_view_and_fits_its_room() {
    let rows = many(12);
    let popup = popup_rows(&rows, 10, 20, 40, &look());
    assert_eq!(popup.first, 3);
    assert_eq!(popup.rows.len(), 8);
    assert!(text(&popup.rows[7]).starts_with(" c10"));
    assert_eq!(popup.rows[7][0].1.hue, Hue::Accent);
    let past_the_end = popup_rows(&rows, 99, 3, 40, &look());
    assert_eq!(past_the_end.first, 9, "a selection past the end keeps to the last row");
    assert_eq!(past_the_end.rows.len(), 3);
    assert!(popup_rows(&rows, 0, 0, 40, &look()).rows.is_empty(), "no room, no popup");
    assert!(popup_rows(&Vec::new(), 0, 9, 40, &look()).rows.is_empty());
}

#[test]
fn a_narrow_popup_cuts_its_rows_with_an_ellipsis() {
    let rows = vec![Candidate { label: "/about".into(), detail: "a long description here".into(), line: "/about ".into() }];
    let popup = popup_rows(&rows, 0, 5, 12, &Look { color: true, ascii: true });
    assert_eq!(row_width(&popup.rows[0]), 12);
    assert_eq!(text(&popup.rows[0]), " /about  ...");
}

#[test]
fn the_shortcut_box_is_centred_and_lines_up_its_keys() {
    let shortcuts = pairs(&[("/", "commands"), ("ctrl+c", "quit")]);
    let b = shortcut_box("Keyboard shortcuts", &shortcuts, "any key closes", 80, 24, &look());
    assert_eq!((b.width, b.height), (22, 8));
    assert_eq!((b.x, b.y), (29, 8));
    let lines: Vec<String> = b.rows.iter().map(text).collect();
    assert_eq!(
        lines,
        [" Keyboard shortcuts", " ", " /       commands", " ctrl+c  quit", " ", " any key closes"]
    );
    assert!(b.rows[0][1].1.bold);
    assert_eq!(b.rows[2][1].1.hue, Hue::Accent);
    assert_eq!(b.rows[5][1].1.hue, Hue::Secondary);
}

#[test]
fn a_small_screen_cuts_the_shortcut_box() {
    let shortcuts = pairs(&[("/", "commands")]);
    let b = shortcut_box("Keyboard shortcuts", &shortcuts, "close", 12, 4, &look());
    assert_eq!((b.width, b.height, b.x, b.y), (12, 4, 0, 0));
    assert_eq!(text(&b.rows[0]), " Keyboard…");
}
