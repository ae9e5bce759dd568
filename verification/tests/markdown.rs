use zk_tui::doc::Block;
use zk_tui::layout::doc_rows;
use zk_tui::look::Look;
use zk_tui::markdown::{doc_of_events, to_doc, MdEnd, MdEvent, MdTag};

fn render(markdown: &str, width: usize) -> Vec<String> {
    doc_rows(&to_doc(markdown), width, &Look::default())
        .iter()
        .map(|row| row.iter().map(|(text, _)| text.as_str()).collect())
        .collect()
}

#[test]
fn headings_are_bold_and_paragraphs_wrap() {
    let doc = to_doc("# Groth16\n\nA short proof of knowledge.");
    let rows = doc_rows(&doc, 12, &Look::default());
    assert!(rows[0][0].1.bold && rows[0][0].1.underline);
    assert_eq!(
        render("# Groth16\n\nA short proof of knowledge.", 12),
        ["Groth16", "", "A short", "proof of", "knowledge."]
    );
}

#[test]
fn lists_nest_and_hang() {
    let rows = render("- one two three\n- four\n  1. five\n", 12);
    assert_eq!(rows, ["• one two", "  three", "• four", "  1. five"]);
}

#[test]
fn links_show_their_address_and_code_is_kept_verbatim() {
    let rows = render("[paper](https://eprint.iacr.org/2016/260)\n\n```\nfn main() {}\n```", 80);
    assert_eq!(rows[0], "paper (https://eprint.iacr.org/2016/260)");
    assert_eq!(rows[2], "    fn main() {}");
}

#[test]
fn a_quote_is_followed_by_one_empty_row() {
    assert_eq!(render("> quoted\n\nafter", 40), ["│ quoted", "", "after"]);
}

#[test]
fn tables_keep_their_columns() {
    let rows = render("| a | b |\n|---|--:|\n| x | 12 |\n", 40);
    assert_eq!(rows, ["a   b", "x  12"]);
}

#[test]
fn events_build_blocks_without_a_parser() {
    let doc = doc_of_events(vec![
        MdEvent::Start(MdTag::Paragraph),
        MdEvent::Text("one".to_string()),
        MdEvent::End(MdEnd::Paragraph),
        MdEvent::Rule,
        MdEvent::Start(MdTag::List(Some(9))),
        MdEvent::Start(MdTag::Item),
        MdEvent::Text("nine".to_string()),
        MdEvent::End(MdEnd::Item),
        MdEvent::Start(MdTag::Item),
        MdEvent::End(MdEnd::Item),
        MdEvent::End(MdEnd::List),
    ]);
    let rows: Vec<String> = doc_rows(&doc, 20, &Look::default())
        .iter()
        .map(|row| row.iter().map(|(text, _)| text.as_str()).collect())
        .collect();
    assert_eq!(rows, ["one", "", "────────────────────", "", "9. nine", "10. "]);
    assert!(!matches!(doc.blocks.last(), Some(Block::Blank)));
}
