use zk_tui::look::Look;
use zk_tui::pager::{KeyCode, KeyPress, Pager};

fn key(code: KeyCode) -> KeyPress {
    KeyPress { code, ctrl: false, shift: false, alt: false }
}

#[test]
fn the_pager_scrolls_and_closes() {
    let mut pager = Pager::new("Groth16", "one\n\ntwo\n\nthree\n\nfour");
    assert_eq!(pager.title(), "Groth16");
    let frame = pager.frame(40, 4, &Look::default()).unwrap();
    let rows: Vec<String> = frame.body.iter().map(|row| row.iter().map(|(text, _)| text.as_str()).collect()).collect();
    assert_eq!(rows, ["  one", "  "]);
    assert_eq!(frame.percent, 0);
    assert!(pager.key(key(KeyCode::End)));
    let frame = pager.frame(40, 4, &Look::default()).unwrap();
    assert_eq!(frame.percent, 100);
    assert!(pager.key(key(KeyCode::Char('k'))));
    assert!(pager.key(key(KeyCode::PageUp)));
    assert!(pager.key(key(KeyCode::Char('c'))));
    assert!(!pager.key(KeyPress { code: KeyCode::Char('c'), ctrl: true, shift: false, alt: false }));
    assert!(!pager.key(key(KeyCode::Char('q'))));
    assert!(!pager.key(key(KeyCode::Esc)));
    pager.scroll(-3);
    let frame = pager.frame(40, 4, &Look::default()).unwrap();
    assert_eq!(frame.percent, 0);
}
