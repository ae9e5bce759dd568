use zk_tui::doc::{plain, span, Block, Doc, Entry, Hue, Kind, Tone};

#[test]
fn pairs_pad_their_labels_to_one_column() {
    let mut doc = Doc::new();
    doc.pairs(vec![("a".to_string(), vec![plain("1")]), ("longer".to_string(), vec![plain("2")])]);
    assert_eq!(doc.blocks.len(), 2);
    match &doc.blocks[0] {
        Block::Text { lead, hang, body } => {
            assert_eq!(lead[0].text, "├ ");
            assert!(hang.is_none());
            assert_eq!(body[0].text, "a       ");
            assert_eq!(body[1].text, "1");
        }
        other => panic!("not text: {other:?}"),
    }
    match &doc.blocks[1] {
        Block::Text { lead, .. } => assert_eq!(lead[0].text, "└ "),
        other => panic!("not text: {other:?}"),
    }
}

#[test]
fn tones_and_entries() {
    let tone = Tone::of(Hue::Caution).bold().italic().underline();
    assert!(tone.bold && tone.italic && tone.underline);
    assert_eq!(tone.hue, Hue::Caution);
    assert_eq!(span("x", tone).tone, tone);
    let entry = Entry::text(Kind::Warning, "careful");
    assert_eq!(entry.kind, Kind::Warning);
    let mut doc = Doc::new();
    doc.led(vec![plain("> ")], vec![plain("body")]);
    doc.blank();
    let mut other = Doc::new();
    other.push(Block::Rule);
    doc.append(other);
    assert_eq!(doc.blocks.len(), 3);
    assert_eq!(doc.blocks[2], Block::Rule);
}

#[test]
fn the_default_tone_is_the_body_tone() {
    assert_eq!(Tone::default(), Tone::body());
    assert_eq!(Tone::of(Hue::Body), Tone::default());
    assert_eq!(Tone::of(Hue::Accent), Tone { hue: Hue::Accent, bold: false, italic: false, underline: false });
}
