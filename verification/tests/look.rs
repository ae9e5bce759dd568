use std::time::Duration;

use zk_tui::doc::{Hue, Tone};
use zk_tui::look::{Look, Named};

#[test]
fn ascii_look_replaces_symbols_but_keeps_letters() {
    let look = Look { color: true, ascii: true };
    assert_eq!(look.text("› • └ ├ ✗ ⚠ 12 µs"), "> * ` + x ! 12 us");
    assert_eq!(look.text("증명"), "증명");
    assert_eq!(Look::default().text("›"), "›");
}

#[test]
fn spinner_advances_every_80_ms() {
    let look = Look::default();
    assert_eq!(look.spinner(Duration::from_millis(0)), "⠋");
    assert_eq!(look.spinner(Duration::from_millis(80)), "⠙");
    assert_eq!(look.spinner(Duration::from_millis(800)), "⠋");
    let ascii = Look { color: true, ascii: true };
    assert_eq!(ascii.spinner(Duration::from_millis(240)), "\\");
}

#[test]
fn without_colour_only_attributes_remain() {
    let look = Look { color: false, ascii: false };
    let style = look.style(Tone::of(Hue::Failure).bold());
    assert_eq!(style.fg, None);
    assert!(style.bold);
    assert!(!style.italic && !style.underline);
}

#[test]
fn roles_name_their_colours() {
    let look = Look::default();
    assert_eq!(look.color(Hue::Body), None);
    assert_eq!(look.color(Hue::Accent), Some(Named::Cyan));
    assert_eq!(look.color(Hue::Secondary), Some(Named::DarkGray));
    assert_eq!(look.spinner_at(79), "⠋");
    assert_eq!(look.spinner_at(160), "⠹");
    assert_eq!(Look { color: true, ascii: true }.text("a → b … ∞"), "a -> b ... inf");
}

#[test]
fn the_environment_picks_colour_and_symbols() {
    assert_eq!(Look::detect(false, None, Some("xterm-256color")), Look { color: true, ascii: false });
    assert_eq!(Look::detect(false, Some(""), None), Look { color: true, ascii: false }, "an empty NO_COLOR is unset");
    assert_eq!(Look::detect(false, Some("1"), Some("linux")), Look { color: false, ascii: true });
    assert_eq!(Look::detect(true, None, None), Look { color: true, ascii: true });
}

#[test]
fn ascii_text_is_kept_and_showing_twice_changes_nothing() {
    let look = Look { color: false, ascii: true };
    assert_eq!(look.text("plain ASCII, 12 ms -> ok"), "plain ASCII, 12 ms -> ok");
    let once = look.text("› 증명 … → ∞ “q”");
    assert_eq!(once, "> 증명 ... -> inf \"q\"");
    assert_eq!(look.text(&once), once);
    let fancy = Look { color: true, ascii: false };
    assert_eq!(fancy.text("› …"), "› …");
}
