use zk_tui::doc::{span, Entry, Hue, Kind, Tone};
use zk_tui::look::Look;
use zk_tui::plain::Printer;

#[test]
fn colour_codes_appear_only_when_asked_for() {
    let mut entry = Entry::text(Kind::Result, "ok");
    entry.doc.line(vec![span("fine", Tone::of(Hue::Success))]);
    let coloured = Printer::new(40, true, Look::default()).entry(&entry);
    assert_eq!(coloured, "• ok\n  \x1b[32mfine\x1b[0m\n");
    let plain = Printer::new(40, false, Look::default()).entry(&entry);
    assert_eq!(plain, "• ok\n  fine\n");
}

#[test]
fn pages_print_their_markdown() {
    let printer = Printer::new(40, true, Look { color: false, ascii: false });
    assert_eq!(printer.page("# Title\n\nSome **bold** text."), Some("\x1b[1;4mTitle\x1b[0m\n\nSome \x1b[1mbold\x1b[0m text.\n".to_string()));
    let plain = Printer::new(40, false, Look::default());
    assert_eq!(plain.page("> a quote"), Some("│ a quote\n".to_string()));
}

#[test]
fn standard_output_is_a_terminal_or_plain_text() {
    let look = Look::default();
    assert_eq!(Printer::stdout(look, true, Some(120)), Printer::new(120, true, look));
    assert_eq!(Printer::stdout(look, true, None), Printer::new(100, true, look), "an unreadable size counts as 100 columns");
    assert_eq!(Printer::stdout(look, false, Some(120)), Printer::new(usize::MAX / 4, false, look));
    let no_colour = Look { color: false, ascii: false };
    assert_eq!(Printer::stdout(no_colour, true, Some(80)), Printer::new(80, false, no_colour));
}

#[test]
fn an_empty_page_still_ends_with_a_newline() {
    let printer = Printer::new(40, false, Look::default());
    assert_eq!(printer.page(""), Some("\n".to_string()));
}
