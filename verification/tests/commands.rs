use zk_tui::activities::cave::CaveMode;
use zk_tui::activities::ceremony::CeremonyPart;
use zk_tui::activities::forge::ForgeTarget;
use zk_tui::activities::pool::PoolSystem;
use zk_tui::activities::trio::{TrioCheat, TrioMode};
use zk_tui::commands::{error_text, parse, specs, Command, ErrorTexts, ParseError, PoolAction, Target, Vocabulary};

fn words(list: &[&str]) -> Vec<String> {
    list.iter().map(|word| word.to_string()).collect()
}

fn vocabulary() -> Vocabulary {
    Vocabulary {
        examples: words(&["one-plus-one", "sudoku", "age", "factoring"]),
        shelves: words(&["zcash", "aztec", "ethereum"]),
        languages: words(&["en", "ko"]),
        attacks: words(&["double-spend", "steal", "counterfeit", "unbound-nullifier"]),
    }
}

fn p(line: &str) -> Result<Command, ParseError> {
    parse(line, &vocabulary())
}

#[test]
fn commands_parses_every_command_shape() {
    assert_eq!(p("/help"), Ok(Command::Help));
    assert_eq!(p("  /list zcash "), Ok(Command::List(Some("zcash".to_string()))));
    assert_eq!(p("/list"), Ok(Command::List(None)));
    assert_eq!(
        p("/run all one-plus-one"),
        Ok(Command::Run { target: Target::All, example: "one-plus-one".to_string() })
    );
    assert_eq!(p("/lang ko"), Ok(Command::Lang("ko".to_string())));
    assert_eq!(p("examples"), Ok(Command::Examples));
}

#[test]
fn commands_explains_what_is_wrong() {
    assert_eq!(p("/nope"), Err(ParseError::Unknown("/nope".to_string())));
    assert_eq!(p("hello"), Err(ParseError::NoSlash));
    assert_eq!(p("/run groth16"), Err(ParseError::Usage("/run <system|all> <example>")));
    assert_eq!(p("/run groth16 two"), Err(ParseError::Example("two".to_string())));
    assert_eq!(p("/list moon"), Err(ParseError::Shelf("moon".to_string())));
    assert_eq!(p("/lang xx"), Err(ParseError::Language("xx".to_string())));
}

#[test]
fn mod_parses_every_command_shape() {
    assert_eq!(p("/help"), Ok(Command::Help));
    assert_eq!(p("  /list zcash "), Ok(Command::List(Some("zcash".to_string()))));
    assert_eq!(p("/list"), Ok(Command::List(None)));
    assert_eq!(
        p("/run all one-plus-one"),
        Ok(Command::Run { target: Target::All, example: "one-plus-one".to_string() })
    );
    assert_eq!(p("/lang ko"), Ok(Command::Lang("ko".to_string())));
    assert_eq!(p("examples"), Ok(Command::Examples));
}

#[test]
fn mod_explains_what_is_wrong() {
    assert_eq!(p("/nope"), Err(ParseError::Unknown("/nope".to_string())));
    assert_eq!(p("hello"), Err(ParseError::NoSlash));
    assert_eq!(p("/run groth16"), Err(ParseError::Usage("/run <system|all> <example>")));
    assert_eq!(p("/run groth16 two"), Err(ParseError::Example("two".to_string())));
    assert_eq!(p("/list moon"), Err(ParseError::Shelf("moon".to_string())));
    assert_eq!(p("/lang xx"), Err(ParseError::Language("xx".to_string())));
    assert_eq!(p("/list --scenes 3"), Err(ParseError::Usage("/list [shelf]")));
}

#[test]
fn the_cave_takes_a_mode_an_example_and_a_scene_count() {
    let cave = |mode, example: &str, scenes| Ok(Command::Cave { mode, example: example.to_string(), scenes });
    assert_eq!(p("/cave"), cave(CaveMode::Demonstration, "one-plus-one", 40));
    assert_eq!(p("/cave jealous-edit --scenes 8"), cave(CaveMode::JealousEdit, "one-plus-one", 8));
    assert_eq!(p("/cave --scenes 3 court sudoku"), cave(CaveMode::Court, "sudoku", 3));
    assert_eq!(p("/cave age"), cave(CaveMode::Demonstration, "age", 40));
    assert!(matches!(p("/cave ring"), Err(ParseError::Choice { .. })));
    assert!(matches!(p("/cave --scenes 0"), Err(ParseError::Count { max: 1000, .. })));
    assert_eq!(p("/cave --scenes"), Err(ParseError::Usage("/cave [mode] [example] [--scenes N]")));
}

#[test]
fn trio_takes_a_mode_a_cheat_and_rounds() {
    assert_eq!(
        p("/trio cheat bad-card sudoku --rounds 6"),
        Ok(Command::Trio { mode: TrioMode::Cheat(TrioCheat::BadCard), example: "sudoku".to_string(), rounds: 6 })
    );
    assert_eq!(p("/trio"), Ok(Command::Trio { mode: TrioMode::Play, example: "one-plus-one".to_string(), rounds: 55 }));
    assert_eq!(
        p("/trio cheat"),
        Err(ParseError::Usage("/trio cheat <bad-card|bad-computation|rewrite-hidden> [example]"))
    );
    assert!(matches!(p("/trio cheat lie"), Err(ParseError::Choice { .. })));
}

#[test]
fn pool_actions_parse_with_their_arguments() {
    let pool = |action| Ok(Command::Pool(action));
    assert_eq!(p("/pool"), pool(PoolAction::Help));
    assert_eq!(p("/pool wallet new alice"), pool(PoolAction::NewWallet("alice".into())));
    assert_eq!(p("/pool wallet alice"), pool(PoolAction::Wallet("alice".into())));
    assert_eq!(
        p("/pool send alice bob 120"),
        pool(PoolAction::Send { from: "alice".into(), to: "bob".into(), amount: 120 })
    );
    assert_eq!(p("/pool use halo2"), pool(PoolAction::Use(PoolSystem::Halo2)));
    assert_eq!(p("/pool reset"), pool(PoolAction::Reset { confirmed: false }));
    assert_eq!(p("/pool reset --yes"), pool(PoolAction::Reset { confirmed: true }));
    assert_eq!(p("/pool shield alice lots"), Err(ParseError::Amount("lots".into())));
    assert_eq!(p("/pool send alice 5"), Err(ParseError::Usage("/pool send <from> <to> <amount>")));
    assert!(matches!(p("/pool mint"), Err(ParseError::Choice { .. })));
}

#[test]
fn the_ceremony_and_the_forgery_parse() {
    assert_eq!(p("/ceremony"), Ok(Command::Ceremony { part: CeremonyPart::Tau, participants: 5 }));
    assert_eq!(
        p("/ceremony collude --participants 3"),
        Ok(Command::Ceremony { part: CeremonyPart::Collude, participants: 3 })
    );
    assert_eq!(p("/forge bctv14"), Ok(Command::Forge(ForgeTarget::Bctv14)));
    assert!(matches!(p("/forge groth16"), Err(ParseError::Choice { .. })));
    assert_eq!(p("/forge"), Err(ParseError::Usage("/forge bctv14")));
}

#[test]
fn choices_and_counts_say_what_was_wrong() {
    assert_eq!(
        p("/cave ring"),
        Err(ParseError::Choice {
            value: "ring".into(),
            choices: "demonstration, impostor, jealous-edit, court, prior-agreement, apartment".into()
        })
    );
    assert_eq!(
        p("/trio --rounds 0"),
        Err(ParseError::Count { flag: "--rounds", value: "0".into(), max: 1000 })
    );
    assert_eq!(
        p("/pool attack fly"),
        Err(ParseError::Choice { value: "fly".into(), choices: "double-spend, steal, counterfeit, unbound-nullifier".into() })
    );
    assert_eq!(p("/pool attack steal"), Ok(Command::Pool(PoolAction::Attack("steal".into()))));
    assert_eq!(p(""), Err(ParseError::Empty));
    assert_eq!(p("   "), Err(ParseError::Empty));
    assert_eq!(p("/cave --scenes 5 --scenes 7"), Ok(Command::Cave { mode: CaveMode::Demonstration, example: "one-plus-one".into(), scenes: 7 }));
    assert_eq!(p("/cave --bogus 5"), Err(ParseError::Usage("/cave [mode] [example] [--scenes N]")));
    assert_eq!(p("/run standin sudoku"), Ok(Command::Run { target: Target::System("standin".into()), example: "sudoku".into() }));
    assert_eq!(p("quit"), Ok(Command::Quit));
    assert_eq!(specs().len(), 13);
}

fn texts() -> ErrorTexts {
    ErrorTexts {
        no_slash: "Commands start with /. Type /help for the list.".to_string(),
        unknown_command: "Unknown command {command}. Type /help for the list.".to_string(),
        usage: "Usage: {usage}".to_string(),
        unknown_shelf: "No shelf {shelf}. Shelves: {shelves}.".to_string(),
        unknown_example: "No example {example}.".to_string(),
        unknown_language: "No language {language}. Languages: {languages}.".to_string(),
        unknown_choice: "{value} is not one of {choices}.".to_string(),
        bad_count: "{flag} takes a whole number from 1 to {max}, not {value}.".to_string(),
        bad_amount: "{value} is not an amount.".to_string(),
    }
}

#[test]
fn every_mistake_is_explained_in_a_sentence() {
    let v = vocabulary();
    let t = texts();
    let said = |line: &str| error_text(&p(line).unwrap_err(), &t, &v);
    assert_eq!(said("/nope"), "Unknown command /nope. Type /help for the list.");
    assert_eq!(said("hello"), "Commands start with /. Type /help for the list.");
    assert_eq!(said("/list moon"), "No shelf moon. Shelves: zcash, aztec, ethereum.");
    assert_eq!(said("/lang xx"), "No language xx. Languages: en, ko.");
    assert_eq!(said("/cave --scenes 0"), "--scenes takes a whole number from 1 to 1000, not 0.");
    assert_eq!(said("/cave --scenes"), "Usage: /cave [mode] [example] [--scenes N]");
}
