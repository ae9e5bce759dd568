use zk_tui::activities::cave::CaveMode;
use zk_tui::activities::request::{confirm_reset, request, unconfirmed_reset};
use zk_tui::commands::{Command, ParseError, PoolAction, Vocabulary};
use zk_tui::doc::{Entry, Kind};
use zk_tui::transcript::Transcript;
use zk_tui::activity::CellRef;
use zk_tui::doc::{plain, Doc};

fn words(list: &[&str]) -> Vec<String> {
    list.iter().map(|w| w.to_string()).collect()
}

fn vocabulary() -> Vocabulary {
    Vocabulary {
        examples: words(&["one-plus-one", "sudoku", "age", "factoring"]),
        shelves: words(&["zcash", "aztec", "ethereum"]),
        languages: words(&["en", "ko"]),
        attacks: words(&["double-spend", "steal", "counterfeit", "unbound-nullifier"]),
    }
}

#[test]
fn the_command_line_asks_for_activities_in_the_screen_grammar() {
    let v = vocabulary();
    assert_eq!(
        request("cave", &words(&["--scenes", "3", "court", "sudoku"]), &v),
        Ok(Command::Cave { mode: CaveMode::Court, example: "sudoku".to_string(), scenes: 3 })
    );
    assert_eq!(
        request("cave", &Vec::new(), &v),
        Ok(Command::Cave { mode: CaveMode::Demonstration, example: "one-plus-one".to_string(), scenes: 40 })
    );
    assert_eq!(request("help", &Vec::new(), &v), Err(ParseError::Unknown("/help ".to_string())));
    assert_eq!(
        request("cave", &words(&["--scenes"]), &v),
        Err(ParseError::Usage("/cave [mode] [example] [--scenes N]"))
    );
}

#[test]
fn a_reset_needs_confirming() {
    let v = vocabulary();
    let reset = request("pool", &words(&["reset"]), &v).unwrap();
    assert!(unconfirmed_reset(&reset));
    let confirmed = confirm_reset(reset);
    assert_eq!(confirmed, Command::Pool(PoolAction::Reset { confirmed: true }));
    assert!(!unconfirmed_reset(&confirmed));
    let ledger = request("pool", &words(&["ledger"]), &v).unwrap();
    assert_eq!(confirm_reset(ledger.clone()), ledger);
}

#[test]
fn collected_cells_end_as_their_last_state() {
    let mut cells = Transcript::new();
    let first = CellRef::new(0, 0);
    let second = CellRef::new(0, 1);
    cells.push_from(first, Entry::text(Kind::Story, "Beat one."));
    cells.push_from(second, Entry::text(Kind::Result, "working"));
    let mut beat = Doc::new();
    beat.line(vec![plain("Beat two.")]);
    cells.append(first, beat);
    cells.replace(second, Entry::text(Kind::Result, "done"));
    cells.push(Entry::text(Kind::Error, "crashed"));
    let entries = cells.into_entries();
    assert_eq!(entries.len(), 3);
    assert_eq!(entries[0].kind, Kind::Story);
    assert_eq!(entries[0].doc.blocks.len(), 2);
    assert_eq!(entries[1], Entry::text(Kind::Result, "done"));
    assert_eq!(entries[2].kind, Kind::Error);
}
