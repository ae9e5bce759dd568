use zk_tui::commands::{specs, Command, ParseError, Vocabulary};
use zk_tui::complete::Offers;
use zk_tui::doc::{Entry, Kind};
use zk_tui::pager::{KeyCode, KeyPress};
use zk_tui::screen::{unify_newlines, Input, Reaction, Screen};

fn pairs(list: &[(&str, &str)]) -> Vec<(String, String)> {
    list.iter().map(|(a, b)| (a.to_string(), b.to_string())).collect()
}

fn words(list: &[&str]) -> Vec<String> {
    list.iter().map(|w| w.to_string()).collect()
}

fn offers(systems: &[(&str, &str)]) -> Offers {
    Offers {
        systems: pairs(systems),
        all: "every system".to_string(),
        examples: pairs(&[("one-plus-one", "1 + 1 = 2"), ("sudoku", "a solved grid"), ("factoring", "n = p × q")]),
        shelves: pairs(&[("zcash", "Zcash"), ("aztec", "Aztec"), ("ethereum", "Ethereum")]),
        languages: pairs(&[("en", "English"), ("ko", "한국어")]),
        summaries: specs().iter().map(|spec| format!("about {}", spec.name)).collect(),
    }
}

fn two() -> Offers {
    offers(&[("standin", "Stand-in"), ("standin-b", "Stand-in B")])
}

fn vocabulary() -> Vocabulary {
    Vocabulary {
        examples: words(&["one-plus-one", "sudoku", "age", "factoring"]),
        shelves: words(&["zcash", "aztec", "ethereum"]),
        languages: words(&["en", "ko"]),
        attacks: words(&["double-spend", "steal", "counterfeit", "unbound-nullifier"]),
    }
}

/// A screen, the offers its popup draws on, and whether a first ctrl+c is still recent.
struct Driver {
    screen: Screen,
    offers: Offers,
    vocab: Vocabulary,
    armed: bool,
}

impl Driver {
    fn new(offers: Offers) -> Driver {
        Driver {
            screen: Screen::new(Entry::text(Kind::Result, "welcome")),
            offers,
            vocab: vocabulary(),
            armed: false,
        }
    }

    fn key(&mut self, code: KeyCode, ctrl: bool, shift: bool) -> Reaction {
        let key = KeyPress { code, ctrl, shift, alt: false };
        let reaction = self.screen.key(key, self.armed, false, &self.offers, &self.vocab);
        match reaction {
            Reaction::ArmQuit => self.armed = true,
            Reaction::Disarm => self.armed = false,
            _ => {}
        }
        reaction
    }

    fn press(&mut self, code: KeyCode) -> Reaction {
        self.key(code, false, false)
    }

    fn ctrl(&mut self, c: char) -> Reaction {
        self.key(KeyCode::Char(c), true, false)
    }

    fn type_text(&mut self, text: &str) {
        for c in text.chars() {
            self.press(KeyCode::Char(c));
        }
    }

    fn enter(&mut self, text: &str) -> Reaction {
        self.type_text(text);
        self.press(KeyCode::Enter)
    }

    fn input(&self) -> String {
        self.screen.input()
    }
}

#[test]
fn up_and_down_walk_command_history() {
    let mut app = Driver::new(offers(&[]));
    assert_eq!(app.enter("/help"), Reaction::Run(Command::Help));
    assert_eq!(app.enter("/examples"), Reaction::Run(Command::Examples));
    app.type_text("draft");
    app.press(KeyCode::Up);
    assert_eq!(app.input(), "/examples");
    app.press(KeyCode::Up);
    assert_eq!(app.input(), "/help");
    app.press(KeyCode::Up);
    assert_eq!(app.input(), "/help", "the oldest entry stays");
    app.press(KeyCode::Down);
    assert_eq!(app.input(), "/examples");
    app.press(KeyCode::Down);
    assert_eq!(app.input(), "draft", "past the newest entry the draft comes back");
}

#[test]
fn recalled_commands_do_not_reopen_the_popup_under_the_arrows() {
    let mut app = Driver::new(offers(&[]));
    app.enter("/help");
    app.enter("/list");
    app.press(KeyCode::Up);
    app.press(KeyCode::Up);
    assert_eq!(app.input(), "/help");
}

#[test]
fn ctrl_c_clears_the_line_then_needs_a_second_press_to_quit() {
    let mut app = Driver::new(offers(&[]));
    app.type_text("/list");
    assert_eq!(app.ctrl('c'), Reaction::Disarm);
    assert_eq!(app.input(), "");
    assert_eq!(app.ctrl('c'), Reaction::ArmQuit, "one press on an empty line only warns");
    assert_eq!(app.ctrl('c'), Reaction::Quit);
}

#[test]
fn tab_completes_commands_then_systems_then_examples() {
    let mut app = Driver::new(two());
    app.type_text("/ru");
    app.press(KeyCode::Tab);
    assert_eq!(app.input(), "/run ");
    app.type_text("st");
    app.press(KeyCode::Tab);
    assert_eq!(app.input(), "/run standin ");
    app.type_text("fac");
    app.press(KeyCode::Tab);
    assert_eq!(app.input(), "/run standin factoring");
}

#[test]
fn arrows_move_the_popup_selection_and_enter_takes_it() {
    let mut app = Driver::new(two());
    app.type_text("/");
    app.press(KeyCode::Down);
    assert_eq!(app.screen.selected, 1, "the second row is selected");
    assert_eq!(app.press(KeyCode::Enter), Reaction::Run(Command::List(None)));
    assert_eq!(app.input(), "", "/list takes an optional shelf, so Enter runs it");
}

#[test]
fn the_popup_selection_wraps_round_its_rows() {
    let mut app = Driver::new(two());
    app.type_text("/");
    let rows = app.screen.candidates(&app.offers).len();
    app.press(KeyCode::Up);
    assert_eq!(app.screen.selected, rows - 1);
    app.press(KeyCode::Down);
    assert_eq!(app.screen.selected, 0);
}

#[test]
fn enter_on_a_command_that_needs_arguments_keeps_editing() {
    let mut app = Driver::new(two());
    app.type_text("/ab");
    assert_eq!(app.press(KeyCode::Enter), Reaction::Nothing);
    assert_eq!(app.input(), "/about ");
    let rows = app.screen.candidates(&app.offers);
    assert!(rows.iter().any(|row| row.label == "standin-b"), "the popup now offers systems");
}

#[test]
fn esc_closes_the_popup_until_the_line_changes() {
    let mut app = Driver::new(offers(&[]));
    app.type_text("/");
    assert_eq!(app.press(KeyCode::Esc), Reaction::Nothing);
    assert!(app.screen.candidates(&app.offers).is_empty());
    app.type_text("h");
    assert_eq!(app.screen.candidates(&app.offers).len(), 1);
}

#[test]
fn esc_without_a_popup_asks_to_stop() {
    let mut app = Driver::new(offers(&[]));
    assert_eq!(app.press(KeyCode::Esc), Reaction::Stop);
}

#[test]
fn shift_enter_and_ctrl_j_add_lines_and_the_composer_grows() {
    let mut app = Driver::new(offers(&[]));
    app.type_text("one");
    assert_eq!(app.key(KeyCode::Enter, false, true), Reaction::Nothing);
    app.type_text("two");
    app.ctrl('j');
    app.type_text("three");
    assert_eq!(app.input(), "one\ntwo\nthree");
    assert_eq!(app.screen.composer.visual(74).rows.len(), 3);
}

#[test]
fn unknown_input_is_refused_and_quit_is_a_command() {
    let mut app = Driver::new(offers(&[]));
    assert_eq!(app.enter("/nope"), Reaction::Refused(ParseError::Unknown("/nope".to_string())));
    assert_eq!(app.enter("/quit"), Reaction::Run(Command::Quit));
    assert_eq!(app.enter("   "), Reaction::Nothing, "a blank line runs nothing");
}

#[test]
fn question_mark_on_an_empty_line_shows_the_shortcuts() {
    let mut app = Driver::new(offers(&[]));
    app.type_text("?");
    assert!(app.screen.shortcuts);
    assert_eq!(app.input(), "");
    app.press(KeyCode::Char('x'));
    assert!(!app.screen.shortcuts);
    assert_eq!(app.input(), "", "the key that closes the overlay is not typed");
    app.type_text("a?");
    assert_eq!(app.input(), "a?", "on a non-empty line ? is just a character");
}

#[test]
fn ctrl_o_and_ctrl_l_ask_the_caller() {
    let mut app = Driver::new(offers(&[]));
    assert_eq!(app.ctrl('o'), Reaction::NothingToReopen);
    let key = KeyPress { code: KeyCode::Char('o'), ctrl: true, shift: false, alt: false };
    assert_eq!(app.screen.key(key, false, true, &app.offers, &app.vocab), Reaction::Reopen);
    app.ctrl('l');
    assert!(app.screen.take_clear_request());
    assert!(!app.screen.take_clear_request());
}

#[test]
fn an_open_page_takes_the_keys_until_it_closes() {
    let mut app = Driver::new(offers(&[]));
    app.screen.open_page("Stand-in", "# Stand-in\n\nA toy.\n");
    assert!(app.screen.pager_open());
    app.type_text("jj");
    assert_eq!(app.input(), "", "keys go to the page");
    app.press(KeyCode::Char('q'));
    assert!(!app.screen.pager_open());
    app.screen.open_page("Stand-in", "# Stand-in\n");
    assert_eq!(app.ctrl('c'), Reaction::Nothing);
    assert!(!app.screen.pager_open(), "ctrl+c closes the page first");
}

#[test]
fn pasted_text_has_unix_line_breaks() {
    assert_eq!(unify_newlines("a\r\nb\rc\n"), "a\nb\nc\n");
    assert_eq!(unify_newlines("\r\r\n"), "\n\n");
    let mut app = Driver::new(offers(&[]));
    let reaction = app.screen.handle_event(Input::Paste("x\r\ny".to_string()), false, false, &app.offers, &app.vocab);
    assert_eq!(reaction, Reaction::Nothing);
    assert_eq!(app.input(), "x\ny");
    app.screen.handle_event(Input::WheelUp, false, false, &app.offers, &app.vocab);
    assert_eq!(app.input(), "x\ny");
}
