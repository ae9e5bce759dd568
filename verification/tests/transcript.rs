use zk_tui::activity::CellRef;
use zk_tui::doc::{plain, Doc, Entry, Kind};
use zk_tui::look::Look;
use zk_tui::text::Row;
use zk_tui::transcript::Transcript;

fn texts(rows: &[Row]) -> Vec<String> {
    rows.iter().map(|row| row.iter().map(|(text, _)| text.as_str()).collect()).collect()
}

#[test]
fn cells_stack_with_a_blank_row_and_follow_the_bottom() {
    let mut transcript = Transcript::new();
    transcript.push(Entry::text(Kind::Result, "one"));
    transcript.push(Entry::text(Kind::Result, "two"));
    let rows = transcript.window_at(20, 10, &Look::default(), &vec![0, 0]);
    assert_eq!(texts(&rows), ["• one", "", "• two"]);
    let rows = transcript.window_at(20, 2, &Look::default(), &vec![0, 0]);
    assert_eq!(texts(&rows), ["", "• two"]);
    assert!(!transcript.animating());
}

#[test]
fn scrolling_up_stops_following_and_new_output_is_flagged() {
    let mut transcript = Transcript::new();
    for text in ["a", "b", "c"] {
        transcript.push(Entry::text(Kind::Result, text));
    }
    let _ = transcript.window_at(20, 2, &Look::default(), &vec![0, 0, 0]);
    transcript.scroll_up(1);
    let rows = transcript.window_at(20, 2, &Look::default(), &vec![0, 0, 0]);
    assert_eq!(texts(&rows), ["• b", ""]);
    transcript.push(Entry::text(Kind::Result, "d"));
    assert!(transcript.unseen());
    transcript.scroll_down(5);
    assert!(!transcript.unseen());
    assert_eq!(transcript.height(), 2);
}

#[test]
fn activities_replace_and_extend_their_own_cells() {
    let mut transcript = Transcript::new();
    let cell = CellRef::new(7, 0);
    transcript.push_from(cell, Entry::text(Kind::Running, "proving"));
    assert!(transcript.animating());
    transcript.replace(cell, Entry::text(Kind::Result, "proved"));
    let mut beat = Doc::new();
    beat.line(vec![plain("in 12 ms")]);
    transcript.append(cell, beat);
    transcript.append(CellRef::new(8, 0), Doc::new());
    assert!(!transcript.animating());
    let rows = transcript.window_at(20, 10, &Look::default(), &vec![0]);
    assert_eq!(texts(&rows), ["• proved", "  in 12 ms"]);
    transcript.clear();
    assert!(transcript.window(20, 10, &Look::default()).is_empty());
}

#[test]
fn output_while_scrolled_keeps_the_window_and_following_shows_the_bottom() {
    let mut transcript = Transcript::new();
    for text in ["a", "b", "c", "d"] {
        transcript.push(Entry::text(Kind::Result, text));
    }
    let _ = transcript.window_at(20, 2, &Look::default(), &vec![0, 0, 0, 0]);
    transcript.scroll_up(3);
    let before = transcript.window_at(20, 2, &Look::default(), &vec![0, 0, 0, 0]);
    assert_eq!(texts(&before), ["• b", ""]);
    transcript.push(Entry::text(Kind::Result, "e"));
    assert!(transcript.unseen());
    let after = transcript.window_at(20, 2, &Look::default(), &vec![0, 0, 0, 0, 0]);
    assert_eq!(texts(&after), texts(&before));
    transcript.follow();
    assert!(!transcript.unseen());
    let bottom = transcript.window_at(20, 2, &Look::default(), &vec![0, 0, 0, 0, 0]);
    assert_eq!(texts(&bottom), ["", "• e"]);
}
