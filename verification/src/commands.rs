//! The slash commands: their names, their arguments and how a typed line becomes one.
//!
//! The same table feeds `/help`, the completion popup and the parser, so a new command is one
//! entry here plus one arm where commands are carried out. What the museum holds (its examples,
//! shelves, languages and pool attacks) comes in as a [`Vocabulary`] of the words that name them.

use vstd::prelude::*;

use crate::activities::cave::{cave_from_key, cave_key, CaveMode, DEFAULT_SCENES, MAX_SCENES};
use crate::activities::ceremony::{ceremony_from_key, ceremony_key, CeremonyPart, MAX_PARTICIPANTS};
use crate::activities::forge::{forge_from_key, forge_key, ForgeTarget};
use crate::activities::pool::{parse_amount, parse_unsigned, spec_parse_u16, spec_parse_unsigned, system_from_key, system_key, PoolSystem};
use crate::activities::trio::{cheat_from_key, cheat_key, TrioCheat, TrioMode, DEFAULT_ROUNDS, MAX_ROUNDS};
use crate::phrases::{fill, filled_by_views, filled_views, values_view};
use crate::strings::{chars_of, is_whitespace, push_char, push_str, same_text, string_of, white_space};

verus! {

/// What an argument position accepts, which decides its completions.
#[derive(Clone, Copy, Debug, PartialEq, Eq, Structural)]
pub enum Arg {
    /// A system.
    System,
    /// A system or `all`.
    SystemOrAll,
    /// An example.
    Example,
    /// A shelf.
    Shelf,
    /// A language.
    Language,
    /// A way to film the cave.
    CaveMode,
    /// Who sits across from Trio's verifier.
    TrioMode,
    /// A cheat after `cheat`, otherwise an example.
    TrioDetail,
    /// A part of the ceremony.
    CeremonyPart,
    /// A forgery.
    ForgeTarget,
    /// A pool action.
    PoolAction,
    /// What follows a pool action: a system, an attack, `new`.
    PoolDetail,
    /// A name or an amount: nothing to offer.
    Free,
}

/// One command as the popup and `/help` show it.
#[derive(Debug)]
pub struct Spec {
    /// The name, with its slash.
    pub name: &'static str,
    /// How it is written.
    pub usage: &'static str,
    /// Argument kinds in order, with whether each is required.
    pub args: Vec<(Arg, bool)>,
    /// Flags it takes; `--yes` stands alone, every other flag takes a value.
    pub flags: Vec<&'static str>,
}

/// A command's entry as sequences.
pub struct SpecView {
    /// The name.
    pub name: Seq<char>,
    /// How it is written.
    pub usage: Seq<char>,
    /// Argument kinds and whether each is required.
    pub args: Seq<(Arg, bool)>,
    /// Flags.
    pub flags: Seq<Seq<char>>,
}

/// A command's entry as sequences.
pub open spec fn spec_view(spec: Spec) -> SpecView {
    SpecView { name: spec.name@, usage: spec.usage@, args: spec.args@, flags: spec.flags@.map_values(|f: &str| f@) }
}

/// The usage of `/trio cheat`.
pub open spec fn trio_cheat_usage() -> Seq<char> {
    "/trio cheat <bad-card|bad-computation|rewrite-hidden> [example]"@
}

/// Every command, in the order `/help` lists them.
pub open spec fn command_table() -> Seq<SpecView> {
    seq![
        SpecView { name: "/help"@, usage: "/help"@, args: seq![], flags: seq![] },
        SpecView { name: "/list"@, usage: "/list [shelf]"@, args: seq![(Arg::Shelf, false)], flags: seq![] },
        SpecView { name: "/about"@, usage: "/about <system>"@, args: seq![(Arg::System, true)], flags: seq![] },
        SpecView { name: "/examples"@, usage: "/examples"@, args: seq![], flags: seq![] },
        SpecView {
            name: "/run"@,
            usage: "/run <system|all> <example>"@,
            args: seq![(Arg::SystemOrAll, true), (Arg::Example, true)],
            flags: seq![],
        },
        SpecView {
            name: "/cave"@,
            usage: "/cave [mode] [example] [--scenes N]"@,
            args: seq![(Arg::CaveMode, false), (Arg::Example, false)],
            flags: seq!["--scenes"@],
        },
        SpecView {
            name: "/trio"@,
            usage: "/trio [mode] [example] [--rounds N]"@,
            args: seq![(Arg::TrioMode, false), (Arg::TrioDetail, false), (Arg::Example, false)],
            flags: seq!["--rounds"@],
        },
        SpecView {
            name: "/pool"@,
            usage: "/pool [action] …"@,
            args: seq![(Arg::PoolAction, false), (Arg::PoolDetail, false), (Arg::Free, false), (Arg::Free, false)],
            flags: seq!["--yes"@],
        },
        SpecView {
            name: "/ceremony"@,
            usage: "/ceremony [part] [--participants N]"@,
            args: seq![(Arg::CeremonyPart, false)],
            flags: seq!["--participants"@],
        },
        SpecView { name: "/forge"@, usage: "/forge bctv14"@, args: seq![(Arg::ForgeTarget, true)], flags: seq![] },
        SpecView { name: "/lang"@, usage: "/lang <en|ko>"@, args: seq![(Arg::Language, true)], flags: seq![] },
        SpecView { name: "/clear"@, usage: "/clear"@, args: seq![], flags: seq![] },
        SpecView { name: "/quit"@, usage: "/quit"@, args: seq![], flags: seq![] },
    ]
}

/// One command's entry.
fn entry(name: &'static str, usage: &'static str, args: Vec<(Arg, bool)>, flags: Vec<&'static str>) -> (spec: Spec)
    ensures
        spec_view(spec) == (SpecView { name: name@, usage: usage@, args: args@, flags: flags@.map_values(|f: &str| f@) }),
{
    Spec { name, usage, args, flags }
}

/// Every command, in the order `/help` lists them.
pub fn specs() -> (table: Vec<Spec>)
    ensures
        table@.map_values(|s: Spec| spec_view(s)) == command_table(),
{
    let table = vec![
        entry("/help", "/help", vec![], vec![]),
        entry("/list", "/list [shelf]", vec![(Arg::Shelf, false)], vec![]),
        entry("/about", "/about <system>", vec![(Arg::System, true)], vec![]),
        entry("/examples", "/examples", vec![], vec![]),
        entry("/run", "/run <system|all> <example>", vec![(Arg::SystemOrAll, true), (Arg::Example, true)], vec![]),
        entry("/cave", "/cave [mode] [example] [--scenes N]", vec![(Arg::CaveMode, false), (Arg::Example, false)], vec!["--scenes"]),
        entry(
            "/trio",
            "/trio [mode] [example] [--rounds N]",
            vec![(Arg::TrioMode, false), (Arg::TrioDetail, false), (Arg::Example, false)],
            vec!["--rounds"],
        ),
        entry(
            "/pool",
            "/pool [action] …",
            vec![(Arg::PoolAction, false), (Arg::PoolDetail, false), (Arg::Free, false), (Arg::Free, false)],
            vec!["--yes"],
        ),
        entry("/ceremony", "/ceremony [part] [--participants N]", vec![(Arg::CeremonyPart, false)], vec!["--participants"]),
        entry("/forge", "/forge bctv14", vec![(Arg::ForgeTarget, true)], vec![]),
        entry("/lang", "/lang <en|ko>", vec![(Arg::Language, true)], vec![]),
        entry("/clear", "/clear", vec![], vec![]),
        entry("/quit", "/quit", vec![], vec![]),
    ];
    proof {
        let t = command_table();
        assert forall|i: int| 0 <= i < 13 implies #[trigger] spec_view(table@[i]) =~~= t[i] by {
            let v = spec_view(table@[i]);
            assert(v.args =~= t[i].args);
            assert(v.flags =~~= t[i].flags);
        }
        assert(table@.map_values(|s: Spec| spec_view(s)) =~~= t);
    }
    table
}

/// The words that name what the museum holds: example ids, shelf keys, language codes and pool
/// attack keys.
pub struct Vocabulary {
    /// Example ids; the first-listed default is `one-plus-one`.
    pub examples: Vec<String>,
    /// Shelf keys.
    pub shelves: Vec<String>,
    /// Language codes.
    pub languages: Vec<String>,
    /// Pool attack keys, in the order the pool lists them.
    pub attacks: Vec<String>,
}

/// Whether `word` is one of `list`.
pub open spec fn known(list: Seq<String>, word: Seq<char>) -> bool {
    exists|i: int| 0 <= i < list.len() && (#[trigger] list[i])@ == word
}

/// Which systems a run covers.
#[derive(Clone, Debug, PartialEq, Eq)]
pub enum Target {
    /// Every system.
    All,
    /// One system, by id.
    System(String),
}

/// One thing to do with the pool.
#[derive(Clone, Debug, PartialEq, Eq)]
pub enum PoolAction {
    /// The list of actions.
    Help,
    /// Prove with this system from now on.
    Use(PoolSystem),
    /// Create a wallet.
    NewWallet(String),
    /// What one wallet's owner sees.
    Wallet(String),
    /// Every wallet with its balances.
    Wallets,
    /// Credit transparent coins in the open.
    Faucet {
        /// The wallet whose transparent account is credited.
        name: String,
        /// Coins.
        amount: u16,
    },
    /// Move transparent coins into a note.
    Shield {
        /// The wallet that shields.
        name: String,
        /// Coins.
        amount: u16,
    },
    /// Pay from one wallet's note to another wallet.
    Send {
        /// The paying wallet.
        from: String,
        /// The paid wallet.
        to: String,
        /// Coins.
        amount: u16,
    },
    /// Take coins out of a note into the transparent account.
    Unshield {
        /// The wallet that unshields.
        name: String,
        /// Coins.
        amount: u16,
    },
    /// What the world sees.
    Ledger,
    /// Run an attack in scratch pools, by its key.
    Attack(String),
    /// Delete this system's ledger and wallets.
    Reset {
        /// Whether the reader confirmed; without it the pool only says how to.
        confirmed: bool,
    },
}

/// A parsed command.
#[derive(Clone, Debug, PartialEq, Eq)]
pub enum Command {
    /// `/help`.
    Help,
    /// `/list`, perhaps of one shelf.
    List(Option<String>),
    /// `/about` a system.
    About(String),
    /// `/examples`.
    Examples,
    /// `/run`.
    Run {
        /// Which systems.
        target: Target,
        /// Which example, by id.
        example: String,
    },
    /// `/cave`.
    Cave {
        /// How it is filmed.
        mode: CaveMode,
        /// Whose claim, by example id.
        example: String,
        /// Scenes to film.
        scenes: u32,
    },
    /// `/trio`.
    Trio {
        /// Who proves.
        mode: TrioMode,
        /// The statement, by example id.
        example: String,
        /// Rounds.
        rounds: u32,
    },
    /// `/pool`.
    Pool(PoolAction),
    /// `/ceremony`.
    Ceremony {
        /// Which part.
        part: CeremonyPart,
        /// How many take part.
        participants: usize,
    },
    /// `/forge`.
    Forge(ForgeTarget),
    /// `/lang`, by code.
    Lang(String),
    /// `/clear`.
    Clear,
    /// `/quit`.
    Quit,
}

/// Why a line is not a command.
#[derive(Clone, Debug, PartialEq, Eq)]
pub enum ParseError {
    /// Nothing was typed.
    Empty,
    /// The line does not start with a slash and names no command.
    NoSlash,
    /// No command has this name.
    Unknown(String),
    /// The arguments do not fit the command; its usage.
    Usage(&'static str),
    /// No shelf has this key.
    Shelf(String),
    /// No example has this id.
    Example(String),
    /// No language has this code.
    Language(String),
    /// A word that is none of the choices a position offers.
    Choice {
        /// The word.
        value: String,
        /// The choices, separated by commas.
        choices: String,
    },
    /// A flag's value is not a whole number from 1 to `max`.
    Count {
        /// The flag.
        flag: &'static str,
        /// Its value.
        value: String,
        /// The largest allowed.
        max: u32,
    },
    /// An amount is not a whole number from 0 to 65,535.
    Amount(String),
}

/// A pool action as sequences.
pub enum SPoolAction {
    /// The list of actions.
    Help,
    /// A system.
    Use(PoolSystem),
    /// A new wallet.
    NewWallet(Seq<char>),
    /// A wallet.
    Wallet(Seq<char>),
    /// Every wallet.
    Wallets,
    /// A faucet credit.
    Faucet(Seq<char>, u16),
    /// Shielding.
    Shield(Seq<char>, u16),
    /// A payment.
    Send(Seq<char>, Seq<char>, u16),
    /// Unshielding.
    Unshield(Seq<char>, u16),
    /// The ledger.
    Ledger,
    /// An attack.
    Attack(Seq<char>),
    /// A reset.
    Reset(bool),
}

/// A command as sequences.
pub enum SCommand {
    /// `/help`.
    Help,
    /// `/list`.
    List(Option<Seq<char>>),
    /// `/about`.
    About(Seq<char>),
    /// `/examples`.
    Examples,
    /// `/run`: every system or one, and the example.
    Run(Option<Seq<char>>, Seq<char>),
    /// `/cave`.
    Cave(CaveMode, Seq<char>, u32),
    /// `/trio`.
    Trio(TrioMode, Seq<char>, u32),
    /// `/pool`.
    Pool(SPoolAction),
    /// `/ceremony`.
    Ceremony(CeremonyPart, usize),
    /// `/forge`.
    Forge(ForgeTarget),
    /// `/lang`.
    Lang(Seq<char>),
    /// `/clear`.
    Clear,
    /// `/quit`.
    Quit,
}

/// A parse error as sequences.
pub enum SErr {
    /// Nothing typed.
    Empty,
    /// No slash.
    NoSlash,
    /// Unknown command.
    Unknown(Seq<char>),
    /// Usage.
    Usage(Seq<char>),
    /// Unknown shelf.
    Shelf(Seq<char>),
    /// Unknown example.
    Example(Seq<char>),
    /// Unknown language.
    Language(Seq<char>),
    /// Not one of the choices.
    Choice(Seq<char>, Seq<char>),
    /// A bad count.
    Count(Seq<char>, Seq<char>, u32),
    /// A bad amount.
    Amount(Seq<char>),
}

/// A pool action as sequences.
pub open spec fn pool_view(action: PoolAction) -> SPoolAction {
    match action {
        PoolAction::Help => SPoolAction::Help,
        PoolAction::Use(system) => SPoolAction::Use(system),
        PoolAction::NewWallet(name) => SPoolAction::NewWallet(name@),
        PoolAction::Wallet(name) => SPoolAction::Wallet(name@),
        PoolAction::Wallets => SPoolAction::Wallets,
        PoolAction::Faucet { name, amount } => SPoolAction::Faucet(name@, amount),
        PoolAction::Shield { name, amount } => SPoolAction::Shield(name@, amount),
        PoolAction::Send { from, to, amount } => SPoolAction::Send(from@, to@, amount),
        PoolAction::Unshield { name, amount } => SPoolAction::Unshield(name@, amount),
        PoolAction::Ledger => SPoolAction::Ledger,
        PoolAction::Attack(key) => SPoolAction::Attack(key@),
        PoolAction::Reset { confirmed } => SPoolAction::Reset(confirmed),
    }
}

/// A command as sequences.
pub open spec fn command_view(command: Command) -> SCommand {
    match command {
        Command::Help => SCommand::Help,
        Command::List(shelf) => SCommand::List(match shelf {
            Some(s) => Some(s@),
            None => None,
        }),
        Command::About(system) => SCommand::About(system@),
        Command::Examples => SCommand::Examples,
        Command::Run { target, example } => SCommand::Run(
            match target {
                Target::All => None,
                Target::System(s) => Some(s@),
            },
            example@,
        ),
        Command::Cave { mode, example, scenes } => SCommand::Cave(mode, example@, scenes),
        Command::Trio { mode, example, rounds } => SCommand::Trio(mode, example@, rounds),
        Command::Pool(action) => SCommand::Pool(pool_view(action)),
        Command::Ceremony { part, participants } => SCommand::Ceremony(part, participants),
        Command::Forge(target) => SCommand::Forge(target),
        Command::Lang(code) => SCommand::Lang(code@),
        Command::Clear => SCommand::Clear,
        Command::Quit => SCommand::Quit,
    }
}

/// A parse error as sequences.
pub open spec fn error_view(error: ParseError) -> SErr {
    match error {
        ParseError::Empty => SErr::Empty,
        ParseError::NoSlash => SErr::NoSlash,
        ParseError::Unknown(s) => SErr::Unknown(s@),
        ParseError::Usage(u) => SErr::Usage(u@),
        ParseError::Shelf(s) => SErr::Shelf(s@),
        ParseError::Example(s) => SErr::Example(s@),
        ParseError::Language(s) => SErr::Language(s@),
        ParseError::Choice { value, choices } => SErr::Choice(value@, choices@),
        ParseError::Count { flag, value, max } => SErr::Count(flag@, value@, max),
        ParseError::Amount(s) => SErr::Amount(s@),
    }
}

/// A parse result as sequences.
pub open spec fn result_view(result: Result<Command, ParseError>) -> Result<SCommand, SErr> {
    match result {
        Ok(c) => Ok(command_view(c)),
        Err(e) => Err(error_view(e)),
    }
}

/// The words of a line: the runs of characters between white space.
pub open spec fn words_upto(line: Seq<char>, k: int) -> (Seq<Seq<char>>, Seq<char>)
    decreases k,
{
    if k <= 0 {
        (Seq::empty(), Seq::empty())
    } else {
        let (done, current) = words_upto(line, k - 1);
        if white_space(line[k - 1]) {
            if current.len() > 0 {
                (done.push(current), Seq::empty())
            } else {
                (done, Seq::empty())
            }
        } else {
            (done, current.push(line[k - 1]))
        }
    }
}

/// The words of a line, as `str::split_whitespace` splits it.
pub open spec fn split_words(line: Seq<char>) -> Seq<Seq<char>> {
    let (done, current) = words_upto(line, line.len() as int);
    if current.len() > 0 {
        done.push(current)
    } else {
        done
    }
}

/// The words of a line, as `str::split_whitespace` splits it.
pub fn words(line: &str) -> (out: Vec<String>)
    ensures
        out@.map_values(|w: String| w@) == split_words(line@),
{
    let chars = chars_of(line);
    let mut out: Vec<String> = Vec::new();
    let mut current: Vec<char> = Vec::new();
    let mut i: usize = 0;
    while i < chars.len()
        invariant
            i <= chars@.len(),
            chars@ == line@,
            out@.map_values(|w: String| w@) == words_upto(line@, i as int).0,
            current@ == words_upto(line@, i as int).1,
        decreases chars@.len() - i,
    {
        let c = chars[i];
        if is_whitespace(c) {
            if current.len() > 0 {
                let ghost before = out@.map_values(|w: String| w@);
                let word = string_of(current.as_slice());
                out.push(word);
                proof {
                    assert(out@.map_values(|w: String| w@) =~= before.push(current@));
                }
                current = Vec::new();
            }
        } else {
            current.push(c);
        }
        i = i + 1;
    }
    if current.len() > 0 {
        let ghost before = out@.map_values(|w: String| w@);
        let word = string_of(current.as_slice());
        out.push(word);
        proof {
            assert(out@.map_values(|w: String| w@) =~= before.push(current@));
        }
    }
    out
}

/// Whether `word` is one of `list`.
fn knows(list: &Vec<String>, word: &str) -> (yes: bool)
    ensures
        yes == known(list@, word@),
{
    let mut i: usize = 0;
    while i < list.len()
        invariant
            i <= list@.len(),
            forall|j: int| 0 <= j < i ==> (#[trigger] list@[j])@ != word@,
        decreases list@.len() - i,
    {
        if same_text(list[i].as_str(), word) {
            return true;
        }
        i = i + 1;
    }
    false
}

/// Texts with `, ` between them.
pub open spec fn comma_list(keys: Seq<Seq<char>>) -> Seq<char>
    decreases keys.len(),
{
    if keys.len() == 0 {
        Seq::empty()
    } else if keys.len() == 1 {
        keys[0]
    } else {
        comma_list(keys.drop_last()) + seq![',', ' '] + keys.last()
    }
}

/// Texts with `, ` between them.
fn join_keys(keys: &Vec<String>) -> (out: String)
    ensures
        out@ == comma_list(keys@.map_values(|k: String| k@)),
{
    let ghost all = keys@.map_values(|k: String| k@);
    let mut out = String::new();
    let mut i: usize = 0;
    while i < keys.len()
        invariant
            i <= keys@.len(),
            all == keys@.map_values(|k: String| k@),
            out@ == comma_list(all.take(i as int)),
        decreases keys@.len() - i,
    {
        proof {
            assert(all.take(i + 1).drop_last() =~= all.take(i as int));
            if i == 0 {
                assert(all.take(1) =~= seq![all[0]]);
            }
        }
        if i > 0 {
            push_char(&mut out, ',');
            push_char(&mut out, ' ');
        }
        push_str(&mut out, keys[i].as_str());
        i = i + 1;
        proof {
            assert(out@ =~= comma_list(all.take(i as int)));
        }
    }
    proof {
        assert(all.take(keys@.len() as int) =~= all);
    }
    out
}

/// Flags found on a line: each flag given, with its value for a valued flag.
pub type Flags = Vec<(&'static str, Option<String>)>;

/// Flags as sequences.
pub open spec fn flags_view(flags: Seq<(&'static str, Option<String>)>) -> Seq<(Seq<char>, Option<Seq<char>>)> {
    flags.map_values(
        |f: (&'static str, Option<String>)|
            (
                f.0@,
                match f.1 {
                    Some(v) => Some(v@),
                    None => None,
                },
            ),
    )
}

/// Words as sequences.
pub open spec fn words_view(words: Seq<String>) -> Seq<Seq<char>> {
    words.map_values(|w: String| w@)
}

/// Whether `prefix` starts `text`.
pub open spec fn begins(text: Seq<char>, prefix: Seq<char>) -> bool {
    prefix.len() <= text.len() && text.take(prefix.len() as int) == prefix
}

/// The positional words and the flags from word `i` on, or the usage when a flag is not one the
/// command takes or a valued flag has nothing after it.
pub open spec fn split_from(spec: SpecView, words: Seq<Seq<char>>, i: int) -> Result<(Seq<Seq<char>>, Seq<(Seq<char>, Option<Seq<char>>)>), SErr>
    decreases words.len() - i,
{
    if i < 0 || i >= words.len() {
        Ok((Seq::empty(), Seq::empty()))
    } else {
        let w = words[i];
        if !begins(w, seq!['-', '-']) {
            match split_from(spec, words, i + 1) {
                Ok(r) => Ok((seq![w] + r.0, r.1)),
                Err(e) => Err(e),
            }
        } else if !spec.flags.contains(w) {
            Err(SErr::Usage(spec.usage))
        } else if w == "--yes"@ {
            match split_from(spec, words, i + 1) {
                Ok(r) => Ok((r.0, seq![(w, None::<Seq<char>>)] + r.1)),
                Err(e) => Err(e),
            }
        } else if i + 1 >= words.len() {
            Err(SErr::Usage(spec.usage))
        } else {
            match split_from(spec, words, i + 2) {
                Ok(r) => Ok((r.0, seq![(w, Some(words[i + 1]))] + r.1)),
                Err(e) => Err(e),
            }
        }
    }
}

/// The value the last `flag` on the line was given, if it was given.
pub open spec fn last_flag(flags: Seq<(Seq<char>, Option<Seq<char>>)>, flag: Seq<char>) -> Option<Option<Seq<char>>>
    decreases flags.len(),
{
    if flags.len() == 0 {
        None
    } else if flags.last().0 == flag {
        Some(flags.last().1)
    } else {
        last_flag(flags.drop_last(), flag)
    }
}

/// The value of a numeric flag, `default` when it is absent; a value that is not a whole number
/// from 1 to `max` is an error.
pub open spec fn spec_count(flags: Seq<(Seq<char>, Option<Seq<char>>)>, flag: Seq<char>, default: u32, max: u32) -> Result<u32, SErr> {
    match last_flag(flags, flag) {
        None => Ok(default),
        Some(given) => {
            let value = match given {
                Some(v) => v,
                None => Seq::empty(),
            };
            match spec_parse_unsigned(value, u32::MAX as int) {
                Some(n) => if 1 <= n <= max {
                    Ok(n as u32)
                } else {
                    Err(SErr::Count(flag, value, max))
                },
                None => Err(SErr::Count(flag, value, max)),
            }
        },
    }
}

/// The example a run defaults to.
pub open spec fn default_example() -> Seq<char> {
    "one-plus-one"@
}

/// The example named after the mode: the default when none is, an error for an unknown one, the
/// usage for more than one.
pub open spec fn spec_example_or_default(words: Seq<Seq<char>>, usage: Seq<char>, vocab: Vocabulary) -> Result<Seq<char>, SErr> {
    if words.len() == 0 {
        Ok(default_example())
    } else if words.len() == 1 {
        if known(vocab.examples@, words[0]) {
            Ok(words[0])
        } else {
            Err(SErr::Example(words[0]))
        }
    } else {
        Err(SErr::Usage(usage))
    }
}

/// Every cave mode's word, in order.
pub open spec fn cave_keys() -> Seq<Seq<char>> {
    seq![
        cave_key(CaveMode::Demonstration),
        cave_key(CaveMode::Impostor),
        cave_key(CaveMode::JealousEdit),
        cave_key(CaveMode::Court),
        cave_key(CaveMode::PriorAgreement),
        cave_key(CaveMode::Apartment),
    ]
}

/// Every cheat's word, in order.
pub open spec fn cheat_keys() -> Seq<Seq<char>> {
    seq![cheat_key(TrioCheat::BadCard), cheat_key(TrioCheat::BadComputation), cheat_key(TrioCheat::RewriteHidden)]
}

/// Every ceremony part's word, in order.
pub open spec fn part_keys() -> Seq<Seq<char>> {
    seq![ceremony_key(CeremonyPart::Toxic), ceremony_key(CeremonyPart::Tau), ceremony_key(CeremonyPart::Collude)]
}

/// Every pool system's word, in order.
pub open spec fn system_keys() -> Seq<Seq<char>> {
    seq![system_key(PoolSystem::Groth16), system_key(PoolSystem::Halo2)]
}

/// `/cave [mode] [example] [--scenes N]`; a lone example means the demonstration.
pub open spec fn spec_cave(args: Seq<Seq<char>>, flags: Seq<(Seq<char>, Option<Seq<char>>)>, vocab: Vocabulary) -> Result<SCommand, SErr> {
    match spec_count(flags, "--scenes"@, DEFAULT_SCENES, MAX_SCENES) {
        Err(e) => Err(e),
        Ok(scenes) => {
            let picked = if args.len() == 0 {
                Ok((CaveMode::Demonstration, args))
            } else {
                match cave_from_key(args[0]) {
                    Some(mode) => Ok((mode, args.skip(1))),
                    None => if args.len() == 1 && known(vocab.examples@, args[0]) {
                        Ok((CaveMode::Demonstration, args))
                    } else {
                        Err(SErr::Choice(args[0], comma_list(cave_keys())))
                    },
                }
            };
            match picked {
                Err(e) => Err(e),
                Ok(p) => match spec_example_or_default(p.1, "/cave [mode] [example] [--scenes N]"@, vocab) {
                    Ok(example) => Ok(SCommand::Cave(p.0, example, scenes)),
                    Err(e) => Err(e),
                },
            }
        },
    }
}

/// `/trio [play|cheat <kind>|simulate] [example] [--rounds N]`; a lone example means play.
pub open spec fn spec_trio(args: Seq<Seq<char>>, flags: Seq<(Seq<char>, Option<Seq<char>>)>, vocab: Vocabulary) -> Result<SCommand, SErr> {
    match spec_count(flags, "--rounds"@, DEFAULT_ROUNDS, MAX_ROUNDS) {
        Err(e) => Err(e),
        Ok(rounds) => {
            let picked = if args.len() == 0 {
                Ok((TrioMode::Play, args))
            } else if args[0] == "play"@ {
                Ok((TrioMode::Play, args.skip(1)))
            } else if args[0] == "simulate"@ {
                Ok((TrioMode::Simulate, args.skip(1)))
            } else if args[0] == "cheat"@ {
                if args.len() == 1 {
                    Err(SErr::Usage(trio_cheat_usage()))
                } else {
                    match cheat_from_key(args[1]) {
                        Some(cheat) => Ok((TrioMode::Cheat(cheat), args.skip(2))),
                        None => Err(SErr::Choice(args[1], comma_list(cheat_keys()))),
                    }
                }
            } else if args.len() == 1 && known(vocab.examples@, args[0]) {
                Ok((TrioMode::Play, args))
            } else {
                Err(SErr::Choice(args[0], "play, cheat, simulate"@))
            };
            match picked {
                Err(e) => Err(e),
                Ok(p) => match spec_example_or_default(p.1, "/trio [mode] [example] [--rounds N]"@, vocab) {
                    Ok(example) => Ok(SCommand::Trio(p.0, example, rounds)),
                    Err(e) => Err(e),
                },
            }
        },
    }
}

/// The usage of one pool action, or the list of actions for a word that is none of them.
pub open spec fn spec_pool_usage(action: Seq<char>) -> SErr {
    if action == "use"@ {
        SErr::Usage("/pool use <groth16|halo2>"@)
    } else if action == "wallet"@ {
        SErr::Usage("/pool wallet new <name> · /pool wallet <name>"@)
    } else if action == "wallets"@ {
        SErr::Usage("/pool wallets"@)
    } else if action == "faucet"@ {
        SErr::Usage("/pool faucet <name> <amount>"@)
    } else if action == "shield"@ {
        SErr::Usage("/pool shield <name> <amount>"@)
    } else if action == "unshield"@ {
        SErr::Usage("/pool unshield <name> <amount>"@)
    } else if action == "send"@ {
        SErr::Usage("/pool send <from> <to> <amount>"@)
    } else if action == "ledger"@ {
        SErr::Usage("/pool ledger"@)
    } else if action == "attack"@ {
        SErr::Usage("/pool attack <double-spend|steal|counterfeit|unbound-nullifier>"@)
    } else if action == "reset"@ {
        SErr::Usage("/pool reset --yes"@)
    } else {
        SErr::Choice(action, "use, wallet, wallets, faucet, shield, send, unshield, ledger, attack, reset"@)
    }
}

/// An amount of coins, or the error naming the text.
pub open spec fn spec_amount(text: Seq<char>) -> Result<u16, SErr> {
    match spec_parse_u16(text) {
        Some(n) => Ok(n),
        None => Err(SErr::Amount(text)),
    }
}

/// Whether the line confirmed with `--yes`.
pub open spec fn confirmed(flags: Seq<(Seq<char>, Option<Seq<char>>)>) -> bool {
    exists|i: int| 0 <= i < flags.len() && (#[trigger] flags[i]).0 == "--yes"@
}

/// A pool action with a name and an amount, or the amount's error.
pub open spec fn with_amount(text: Seq<char>, make: spec_fn(u16) -> SPoolAction) -> Result<SCommand, SErr> {
    match spec_amount(text) {
        Ok(n) => Ok(SCommand::Pool(make(n))),
        Err(e) => Err(e),
    }
}

/// `/pool <action> …`; `/pool` alone lists the actions.
pub open spec fn spec_pool(args: Seq<Seq<char>>, flags: Seq<(Seq<char>, Option<Seq<char>>)>, vocab: Vocabulary) -> Result<SCommand, SErr> {
    let n = args.len();
    if n == 0 {
        Ok(SCommand::Pool(SPoolAction::Help))
    } else {
        let a = args[0];
        if a == "use"@ && n == 2 {
            match system_from_key(args[1]) {
                Some(system) => Ok(SCommand::Pool(SPoolAction::Use(system))),
                None => Err(SErr::Choice(args[1], comma_list(system_keys()))),
            }
        } else if a == "wallet"@ && n == 3 && args[1] == "new"@ {
            Ok(SCommand::Pool(SPoolAction::NewWallet(args[2])))
        } else if a == "wallet"@ && n == 2 && args[1] != "new"@ {
            Ok(SCommand::Pool(SPoolAction::Wallet(args[1])))
        } else if a == "wallets"@ && n == 1 {
            Ok(SCommand::Pool(SPoolAction::Wallets))
        } else if a == "faucet"@ && n == 3 {
            with_amount(args[2], |amount: u16| SPoolAction::Faucet(args[1], amount))
        } else if a == "shield"@ && n == 3 {
            with_amount(args[2], |amount: u16| SPoolAction::Shield(args[1], amount))
        } else if a == "unshield"@ && n == 3 {
            with_amount(args[2], |amount: u16| SPoolAction::Unshield(args[1], amount))
        } else if a == "send"@ && n == 4 {
            with_amount(args[3], |amount: u16| SPoolAction::Send(args[1], args[2], amount))
        } else if a == "ledger"@ && n == 1 {
            Ok(SCommand::Pool(SPoolAction::Ledger))
        } else if a == "attack"@ && n == 2 {
            if known(vocab.attacks@, args[1]) {
                Ok(SCommand::Pool(SPoolAction::Attack(args[1])))
            } else {
                Err(SErr::Choice(args[1], comma_list(words_view(vocab.attacks@))))
            }
        } else if a == "reset"@ && n == 1 {
            Ok(SCommand::Pool(SPoolAction::Reset(confirmed(flags))))
        } else {
            Err(spec_pool_usage(a))
        }
    }
}

/// The action word of `/pool` decides the action: `faucet`, `shield` and `unshield` with a name
/// and an amount, and `send` with two names and an amount, give that very action with the words
/// given and the amount read as a `u16`, or name the amount when it is not one.
pub proof fn pool_actions_follow_their_word(
    name: Seq<char>,
    to: Seq<char>,
    amount: Seq<char>,
    flags: Seq<(Seq<char>, Option<Seq<char>>)>,
    vocab: Vocabulary,
)
    ensures
        spec_pool(seq!["faucet"@, name, amount], flags, vocab) == match spec_parse_u16(amount) {
            Some(n) => Ok::<SCommand, SErr>(SCommand::Pool(SPoolAction::Faucet(name, n))),
            None => Err(SErr::Amount(amount)),
        },
        spec_pool(seq!["shield"@, name, amount], flags, vocab) == match spec_parse_u16(amount) {
            Some(n) => Ok::<SCommand, SErr>(SCommand::Pool(SPoolAction::Shield(name, n))),
            None => Err(SErr::Amount(amount)),
        },
        spec_pool(seq!["unshield"@, name, amount], flags, vocab) == match spec_parse_u16(amount) {
            Some(n) => Ok::<SCommand, SErr>(SCommand::Pool(SPoolAction::Unshield(name, n))),
            None => Err(SErr::Amount(amount)),
        },
        spec_pool(seq!["send"@, name, to, amount], flags, vocab) == match spec_parse_u16(amount) {
            Some(n) => Ok::<SCommand, SErr>(SCommand::Pool(SPoolAction::Send(name, to, n))),
            None => Err(SErr::Amount(amount)),
        },
{
    reveal_strlit("use");
    reveal_strlit("wallet");
    reveal_strlit("wallets");
    reveal_strlit("faucet");
    reveal_strlit("shield");
    reveal_strlit("unshield");
    reveal_strlit("send");
    let f = seq!["faucet"@, name, amount];
    let sh = seq!["shield"@, name, amount];
    let un = seq!["unshield"@, name, amount];
    let se = seq!["send"@, name, to, amount];
    assert(f[0] == "faucet"@ && f[1] == name && f[2] == amount);
    assert(sh[0] == "shield"@ && sh[1] == name && sh[2] == amount);
    assert(un[0] == "unshield"@ && un[1] == name && un[2] == amount);
    assert(se[0] == "send"@ && se[1] == name && se[2] == to && se[3] == amount);
    assert("faucet"@.len() != "use"@.len() && "faucet"@[0] != "wallet"@[0] && "faucet"@.len() != "wallets"@.len());
    assert("shield"@.len() != "use"@.len() && "shield"@[0] != "wallet"@[0] && "shield"@.len() != "wallets"@.len()
        && "shield"@[0] != "faucet"@[0]);
    assert("faucet"@ != "use"@ && "faucet"@ != "wallet"@ && "faucet"@ != "wallets"@);
    assert("shield"@ != "use"@ && "shield"@ != "wallet"@ && "shield"@ != "wallets"@ && "shield"@ != "faucet"@);
    assert("unshield"@ != "use"@ && "unshield"@ != "wallet"@ && "unshield"@ != "wallets"@ && "unshield"@ != "faucet"@
        && "unshield"@ != "shield"@);
    assert("send"@.len() == 4 && "use"@.len() == 3 && "wallet"@.len() == 6 && "wallets"@.len() == 7 && "faucet"@.len() == 6
        && "shield"@.len() == 6 && "unshield"@.len() == 8);
    assert("send"@ != "use"@ && "send"@ != "wallet"@ && "send"@ != "wallets"@ && "send"@ != "faucet"@ && "send"@ != "shield"@
        && "send"@ != "unshield"@);
}

/// `/ceremony [toxic|tau|collude] [--participants N]`.
pub open spec fn spec_ceremony(args: Seq<Seq<char>>, flags: Seq<(Seq<char>, Option<Seq<char>>)>) -> Result<SCommand, SErr> {
    match spec_count(flags, "--participants"@, 5, MAX_PARTICIPANTS) {
        Err(e) => Err(e),
        Ok(participants) => if args.len() == 0 {
            Ok(SCommand::Ceremony(CeremonyPart::Tau, participants as usize))
        } else {
            match ceremony_from_key(args[0]) {
                Some(part) => Ok(SCommand::Ceremony(part, participants as usize)),
                None => Err(SErr::Choice(args[0], comma_list(part_keys()))),
            }
        },
    }
}

/// `/forge bctv14`.
pub open spec fn spec_forge(args: Seq<Seq<char>>) -> Result<SCommand, SErr> {
    let word = if args.len() > 0 { args[0] } else { Seq::empty() };
    match forge_from_key(word) {
        Some(target) => Ok(SCommand::Forge(target)),
        None => Err(SErr::Choice(word, forge_key(ForgeTarget::Bctv14))),
    }
}

/// The command named `name` with its positional words and flags.
pub open spec fn spec_build(name: Seq<char>, args: Seq<Seq<char>>, flags: Seq<(Seq<char>, Option<Seq<char>>)>, vocab: Vocabulary) -> Result<SCommand, SErr> {
    let first = if args.len() > 0 { args[0] } else { Seq::empty() };
    if name == "/help"@ {
        Ok(SCommand::Help)
    } else if name == "/list"@ {
        if args.len() == 0 {
            Ok(SCommand::List(None))
        } else if known(vocab.shelves@, first) {
            Ok(SCommand::List(Some(first)))
        } else {
            Err(SErr::Shelf(first))
        }
    } else if name == "/about"@ {
        Ok(SCommand::About(first))
    } else if name == "/examples"@ {
        Ok(SCommand::Examples)
    } else if name == "/run"@ {
        let example = if args.len() > 1 { args[1] } else { Seq::empty() };
        if known(vocab.examples@, example) {
            Ok(SCommand::Run(if first == "all"@ { None } else { Some(first) }, example))
        } else {
            Err(SErr::Example(example))
        }
    } else if name == "/cave"@ {
        spec_cave(args, flags, vocab)
    } else if name == "/trio"@ {
        spec_trio(args, flags, vocab)
    } else if name == "/pool"@ {
        spec_pool(args, flags, vocab)
    } else if name == "/ceremony"@ {
        spec_ceremony(args, flags)
    } else if name == "/forge"@ {
        spec_forge(args)
    } else if name == "/lang"@ {
        if known(vocab.languages@, first) {
            Ok(SCommand::Lang(first))
        } else {
            Err(SErr::Language(first))
        }
    } else if name == "/clear"@ {
        Ok(SCommand::Clear)
    } else {
        Ok(SCommand::Quit)
    }
}

/// The first command in `table` named `name`.
pub open spec fn find_spec(table: Seq<SpecView>, name: Seq<char>) -> Option<SpecView>
    decreases table.len(),
{
    if table.len() == 0 {
        None
    } else if table[0].name == name {
        Some(table[0])
    } else {
        find_spec(table.skip(1), name)
    }
}

/// How many of a command's arguments are required.
pub open spec fn required(args: Seq<(Arg, bool)>) -> int
    decreases args.len(),
{
    if args.len() == 0 {
        0
    } else {
        required(args.drop_last()) + if args.last().1 { 1int } else { 0int }
    }
}

/// A typed line as a command, or why it is none. A known command name without its slash is
/// accepted too.
pub open spec fn spec_parse(line: Seq<char>, vocab: Vocabulary) -> Result<SCommand, SErr> {
    let words = split_words(line);
    if words.len() == 0 {
        Err(SErr::Empty)
    } else {
        let first = words[0];
        let slashed = first[0] == '/';
        let name = if slashed { first } else { seq!['/'] + first };
        match find_spec(command_table(), name) {
            None => Err(if slashed { SErr::Unknown(first) } else { SErr::NoSlash }),
            Some(spec) => match split_from(spec, words, 1) {
                Err(e) => Err(e),
                Ok(r) => if r.0.len() < required(spec.args) || r.0.len() > spec.args.len() {
                    Err(SErr::Usage(spec.usage))
                } else {
                    spec_build(spec.name, r.0, r.1, vocab)
                },
            },
        }
    }
}

/// A word's characters.
fn word_chars(word: &String) -> (out: String)
    ensures
        out@ == word@,
{
    string_of(chars_of(word.as_str()).as_slice())
}

/// Whether `word` starts with `--`.
fn is_flag(word: &str) -> (yes: bool)
    ensures
        yes == begins(word@, seq!['-', '-']),
{
    let chars = chars_of(word);
    let yes = chars.len() >= 2 && chars[0] == '-' && chars[1] == '-';
    proof {
        if chars@.len() >= 2 {
            if yes {
                assert(chars@.take(2) =~= seq!['-', '-']);
            } else {
                assert(chars@.take(2) != seq!['-', '-']) by {
                    if chars@.take(2) == seq!['-', '-'] {
                        assert(chars@.take(2)[0] == '-');
                        assert(chars@.take(2)[1] == '-');
                    }
                }
            }
        }
    }
    yes
}

/// The flag of `flags` that `word` names.
fn find_flag(flags: &Vec<&'static str>, word: &str) -> (found: Option<&'static str>)
    ensures
        match found {
            Some(f) => f@ == word@ && flags@.map_values(|f: &str| f@).contains(word@),
            None => !flags@.map_values(|f: &str| f@).contains(word@),
        },
{
    let mut i: usize = 0;
    while i < flags.len()
        invariant
            i <= flags@.len(),
            forall|j: int| 0 <= j < i ==> (#[trigger] flags@[j])@ != word@,
        decreases flags@.len() - i,
    {
        if same_text(flags[i], word) {
            proof {
                assert(flags@.map_values(|f: &str| f@)[i as int] == word@);
            }
            return Some(flags[i]);
        }
        i = i + 1;
    }
    proof {
        let names = flags@.map_values(|f: &str| f@);
        assert forall|j: int| 0 <= j < names.len() implies #[trigger] names[j] != word@ by {
            assert(names[j] == flags@[j]@);
        }
    }
    None
}

/// The view of a split: positional words and flags, or the error.
pub open spec fn split_view(r: Result<(Vec<String>, Flags), ParseError>) -> Result<(Seq<Seq<char>>, Seq<(Seq<char>, Option<Seq<char>>)>), SErr> {
    match r {
        Ok(p) => Ok((words_view(p.0@), flags_view(p.1@))),
        Err(e) => Err(error_view(e)),
    }
}

/// Separates `--flags` from positional words, from word 1 on; a flag the command does not take,
/// or a valued flag with nothing after it, is a usage error.
fn split_flags(spec: &Spec, words: &Vec<String>) -> (out: Result<(Vec<String>, Flags), ParseError>)
    ensures
        split_view(out) == split_from(spec_view(*spec), words_view(words@), 1),
{
    let ghost sv = spec_view(*spec);
    let ghost wv = words_view(words@);
    let mut args: Vec<String> = Vec::new();
    let mut flags: Flags = Vec::new();
    let mut i: usize = 1;
    proof {
        assert(words_view(args@) =~= Seq::<Seq<char>>::empty());
        assert(flags_view(flags@) =~= Seq::<(Seq<char>, Option<Seq<char>>)>::empty());
        if wv.len() <= 1 {
            assert(split_from(sv, wv, 1) == Ok::<(Seq<Seq<char>>, Seq<(Seq<char>, Option<Seq<char>>)>), SErr>((Seq::<Seq<char>>::empty(), Seq::<(Seq<char>, Option<Seq<char>>)>::empty())));
        }
    }
    while i < words.len()
        invariant
            1 <= i,
            sv == spec_view(*spec),
            wv == words_view(words@),
            i <= words@.len() || words@.len() == 0,
            split_from(sv, wv, 1) == match split_from(sv, wv, i as int) {
                Ok(r) => Ok((words_view(args@) + r.0, flags_view(flags@) + r.1)),
                Err(e) => Err(e),
            },
        decreases words@.len() - i,
    {
        let word = &words[i];
        proof {
            assert(wv[i as int] == word@);
        }
        if !is_flag(word.as_str()) {
            let ghost before = words_view(args@);
            args.push(word_chars(word));
            proof {
                assert(words_view(args@) =~= before.push(wv[i as int]));
                match split_from(sv, wv, i + 1) {
                    Ok(r) => {
                        assert(before + (seq![wv[i as int]] + r.0) =~= words_view(args@) + r.0);
                    },
                    Err(e) => {},
                }
            }
            i = i + 1;
            continue;
        }
        let flag = match find_flag(&spec.flags, word.as_str()) {
            Some(flag) => flag,
            None => {
                return Err(ParseError::Usage(spec.usage));
            },
        };
        let ghost before = flags_view(flags@);
        if same_text(flag, "--yes") {
            flags.push((flag, None));
            proof {
                assert(flags_view(flags@) =~= before.push((wv[i as int], None::<Seq<char>>)));
                match split_from(sv, wv, i + 1) {
                    Ok(r) => {
                        assert(before + (seq![(wv[i as int], None::<Seq<char>>)] + r.1) =~= flags_view(flags@) + r.1);
                    },
                    Err(e) => {},
                }
            }
            i = i + 1;
        } else {
            if i + 1 >= words.len() {
                return Err(ParseError::Usage(spec.usage));
            }
            let value = word_chars(&words[i + 1]);
            flags.push((flag, Some(value)));
            proof {
                assert(flags_view(flags@) =~= before.push((wv[i as int], Some(wv[i + 1]))));
                match split_from(sv, wv, i + 2) {
                    Ok(r) => {
                        assert(before + (seq![(wv[i as int], Some(wv[i + 1]))] + r.1) =~= flags_view(flags@) + r.1);
                    },
                    Err(e) => {},
                }
            }
            i = i + 2;
        }
    }
    proof {
        assert(words_view(args@) + Seq::<Seq<char>>::empty() =~= words_view(args@));
        assert(flags_view(flags@) + Seq::<(Seq<char>, Option<Seq<char>>)>::empty() =~= flags_view(flags@));
    }
    Ok((args, flags))
}

/// A numeric result as sequences.
pub open spec fn number_view(r: Result<u32, ParseError>) -> Result<u32, SErr> {
    match r {
        Ok(n) => Ok(n),
        Err(e) => Err(error_view(e)),
    }
}

/// A word result as sequences.
pub open spec fn word_view(r: Result<String, ParseError>) -> Result<Seq<char>, SErr> {
    match r {
        Ok(w) => Ok(w@),
        Err(e) => Err(error_view(e)),
    }
}

/// The value of a numeric flag, `default` when it is absent.
fn count(flags: &Flags, flag: &'static str, default: u32, max: u32) -> (out: Result<u32, ParseError>)
    ensures
        number_view(out) == spec_count(flags_view(flags@), flag@, default, max),
{
    let ghost fv = flags_view(flags@);
    let mut k = flags.len();
    proof {
        assert(fv.take(k as int) =~= fv);
    }
    while k > 0 && !same_text(flags[k - 1].0, flag)
        invariant
            k <= flags@.len(),
            fv == flags_view(flags@),
            last_flag(fv.take(k as int), flag@) == last_flag(fv, flag@),
        decreases k,
    {
        proof {
            assert(fv.take(k as int).drop_last() =~= fv.take(k - 1));
        }
        k = k - 1;
    }
    if k == 0 {
        proof {
            assert(fv.take(0) =~= Seq::<(Seq<char>, Option<Seq<char>>)>::empty());
        }
        return Ok(default);
    }
    proof {
        assert(fv.take(k as int).last() == fv[k - 1]);
    }
    let value: String = match &flags[k - 1].1 {
        Some(v) => word_chars(v),
        None => String::new(),
    };
    match parse_unsigned(value.as_str(), u32::MAX) {
        Some(number) => {
            if 1 <= number && number <= max {
                return Ok(number);
            }
            Err(ParseError::Count { flag, value, max })
        },
        None => Err(ParseError::Count { flag, value, max }),
    }
}

/// The example named after the mode: the default when none is.
fn example_or_default(words: &[String], usage: &'static str, vocab: &Vocabulary) -> (out: Result<String, ParseError>)
    ensures
        word_view(out) == spec_example_or_default(words_view(words@), usage@, *vocab),
{
    if words.len() == 0 {
        proof {
            reveal_strlit("one-plus-one");
        }
        return Ok(string_of(chars_of("one-plus-one").as_slice()));
    }
    if words.len() == 1 {
        if knows(&vocab.examples, words[0].as_str()) {
            return Ok(word_chars(&words[0]));
        }
        return Err(ParseError::Example(word_chars(&words[0])));
    }
    Err(ParseError::Usage(usage))
}

/// Words of some keys, as owned strings.
fn key_strings(keys: &Vec<&'static str>) -> (out: Vec<String>)
    ensures
        words_view(out@) == keys@.map_values(|k: &str| k@),
{
    let mut out: Vec<String> = Vec::new();
    let mut i: usize = 0;
    while i < keys.len()
        invariant
            i <= keys@.len(),
            words_view(out@) == keys@.take(i as int).map_values(|k: &str| k@),
        decreases keys@.len() - i,
    {
        let ghost before = words_view(out@);
        let word = string_of(chars_of(keys[i]).as_slice());
        out.push(word);
        proof {
            assert(words_view(out@) =~= before.push(keys@[i as int]@));
            assert(keys@.take(i + 1).map_values(|k: &str| k@) =~= keys@.take(i as int).map_values(|k: &str| k@).push(keys@[i as int]@));
        }
        i = i + 1;
    }
    proof {
        assert(keys@.take(keys@.len() as int) =~= keys@);
    }
    out
}

/// A command result as sequences.
fn cave(args: &Vec<String>, flags: &Flags, vocab: &Vocabulary) -> (out: Result<Command, ParseError>)
    ensures
        result_view(out) == spec_cave(words_view(args@), flags_view(flags@), *vocab),
{
    let scenes = match count(flags, "--scenes", DEFAULT_SCENES, MAX_SCENES) {
        Ok(n) => n,
        Err(e) => return Err(e),
    };
    let ghost av = words_view(args@);
    let usage = "/cave [mode] [example] [--scenes N]";
    let (mode, start): (CaveMode, usize) = if args.len() == 0 {
        (CaveMode::Demonstration, 0)
    } else {
        match CaveMode::from_key(args[0].as_str()) {
            Some(mode) => (mode, 1),
            None => {
                if args.len() == 1 && knows(&vocab.examples, args[0].as_str()) {
                    (CaveMode::Demonstration, 0)
                } else {
                    let all = CaveMode::all();
                    let mut keys: Vec<&'static str> = Vec::new();
                    let mut k: usize = 0;
                    while k < all.len()
                        invariant
                            k <= all@.len(),
                            all@ == seq![CaveMode::Demonstration, CaveMode::Impostor, CaveMode::JealousEdit, CaveMode::Court, CaveMode::PriorAgreement, CaveMode::Apartment],
                            keys@.map_values(|s: &str| s@) == all@.take(k as int).map_values(|m: CaveMode| cave_key(m)),
                        decreases all@.len() - k,
                    {
                        let ghost before = keys@.map_values(|s: &str| s@);
                        let key = all[k].key();
                        keys.push(key);
                        proof {
                            assert(keys@.map_values(|s: &str| s@) =~= before.push(cave_key(all@[k as int])));
                            assert(all@.take(k + 1).map_values(|m: CaveMode| cave_key(m)) =~= all@.take(k as int).map_values(|m: CaveMode| cave_key(m)).push(cave_key(all@[k as int])));
                        }
                        k = k + 1;
                    }
                    let owned = key_strings(&keys);
                    proof {
                        assert(all@.take(6).map_values(|m: CaveMode| cave_key(m)) =~= cave_keys());
                    }
                    return Err(ParseError::Choice { value: word_chars(&args[0]), choices: join_keys(&owned) });
                }
            },
        }
    };
    let rest = args.as_slice().split_at(start).1;
    proof {
        assert(words_view(rest@) =~= av.skip(start as int));
        if start == 0 {
            assert(av.skip(0) =~= av);
        }
    }
    match example_or_default(rest, usage, vocab) {
        Ok(example) => Ok(Command::Cave { mode, example, scenes }),
        Err(e) => Err(e),
    }
}

/// `/trio [play|cheat <kind>|simulate] [example] [--rounds N]`; a lone example means play.
fn trio(args: &Vec<String>, flags: &Flags, vocab: &Vocabulary) -> (out: Result<Command, ParseError>)
    ensures
        result_view(out) == spec_trio(words_view(args@), flags_view(flags@), *vocab),
{
    let rounds = match count(flags, "--rounds", DEFAULT_ROUNDS, MAX_ROUNDS) {
        Ok(n) => n,
        Err(e) => return Err(e),
    };
    let ghost av = words_view(args@);
    let usage = "/trio [mode] [example] [--rounds N]";
    let (mode, start): (TrioMode, usize) = if args.len() == 0 {
        (TrioMode::Play, 0)
    } else if same_text(args[0].as_str(), "play") {
        (TrioMode::Play, 1)
    } else if same_text(args[0].as_str(), "simulate") {
        (TrioMode::Simulate, 1)
    } else if same_text(args[0].as_str(), "cheat") {
        if args.len() == 1 {
            return Err(ParseError::Usage("/trio cheat <bad-card|bad-computation|rewrite-hidden> [example]"));
        }
        match TrioCheat::from_key(args[1].as_str()) {
            Some(cheat) => (TrioMode::Cheat(cheat), 2),
            None => {
                let keys = vec![TrioCheat::BadCard.key(), TrioCheat::BadComputation.key(), TrioCheat::RewriteHidden.key()];
                let owned = key_strings(&keys);
                proof {
                    assert(keys@.map_values(|k: &str| k@) =~= cheat_keys());
                }
                return Err(ParseError::Choice { value: word_chars(&args[1]), choices: join_keys(&owned) });
            },
        }
    } else if args.len() == 1 && knows(&vocab.examples, args[0].as_str()) {
        (TrioMode::Play, 0)
    } else {
        proof {
            reveal_strlit("play, cheat, simulate");
        }
        return Err(ParseError::Choice {
            value: word_chars(&args[0]),
            choices: string_of(chars_of("play, cheat, simulate").as_slice()),
        });
    };
    let rest = args.as_slice().split_at(start).1;
    proof {
        assert(words_view(rest@) =~= av.skip(start as int));
        if start == 0 {
            assert(av.skip(0) =~= av);
        }
    }
    match example_or_default(rest, usage, vocab) {
        Ok(example) => Ok(Command::Trio { mode, example, rounds }),
        Err(e) => Err(e),
    }
}

/// The usage of one pool action, or the list of actions for a word that is none of them.
fn pool_usage(action: &str) -> (error: ParseError)
    ensures
        error_view(error) == spec_pool_usage(action@),
{
    if same_text(action, "use") {
        ParseError::Usage("/pool use <groth16|halo2>")
    } else if same_text(action, "wallet") {
        ParseError::Usage("/pool wallet new <name> · /pool wallet <name>")
    } else if same_text(action, "wallets") {
        ParseError::Usage("/pool wallets")
    } else if same_text(action, "faucet") {
        ParseError::Usage("/pool faucet <name> <amount>")
    } else if same_text(action, "shield") {
        ParseError::Usage("/pool shield <name> <amount>")
    } else if same_text(action, "unshield") {
        ParseError::Usage("/pool unshield <name> <amount>")
    } else if same_text(action, "send") {
        ParseError::Usage("/pool send <from> <to> <amount>")
    } else if same_text(action, "ledger") {
        ParseError::Usage("/pool ledger")
    } else if same_text(action, "attack") {
        ParseError::Usage("/pool attack <double-spend|steal|counterfeit|unbound-nullifier>")
    } else if same_text(action, "reset") {
        ParseError::Usage("/pool reset --yes")
    } else {
        ParseError::Choice {
            value: string_of(chars_of(action).as_slice()),
            choices: string_of(chars_of("use, wallet, wallets, faucet, shield, send, unshield, ledger, attack, reset").as_slice()),
        }
    }
}

/// An amount of coins, or the error naming the text.
fn amount(text: &String) -> (out: Result<u16, ParseError>)
    ensures
        match out {
            Ok(n) => spec_amount(text@) == Ok::<u16, SErr>(n),
            Err(e) => spec_amount(text@) == Err::<u16, SErr>(error_view(e)),
        },
{
    match parse_amount(text.as_str()) {
        Some(n) => Ok(n),
        None => Err(ParseError::Amount(word_chars(text))),
    }
}

/// `/pool <action> …`; `/pool` alone lists the actions.
fn pool(args: &Vec<String>, flags: &Flags, vocab: &Vocabulary) -> (out: Result<Command, ParseError>)
    ensures
        result_view(out) == spec_pool(words_view(args@), flags_view(flags@), *vocab),
{
    let ghost av = words_view(args@);
    let n = args.len();
    if n == 0 {
        return Ok(Command::Pool(PoolAction::Help));
    }
    proof {
        assert(av[0] == args@[0]@);
        if n > 1 {
            assert(av[1] == args@[1]@);
        }
        if n > 2 {
            assert(av[2] == args@[2]@);
        }
        if n > 3 {
            assert(av[3] == args@[3]@);
        }
    }
    let a = args[0].as_str();
    let action = if same_text(a, "use") && n == 2 {
        match PoolSystem::from_key(args[1].as_str()) {
            Some(system) => PoolAction::Use(system),
            None => {
                let keys = vec![PoolSystem::Groth16.key(), PoolSystem::Halo2.key()];
                let owned = key_strings(&keys);
                proof {
                    assert(keys@.map_values(|k: &str| k@) =~= system_keys());
                }
                return Err(ParseError::Choice { value: word_chars(&args[1]), choices: join_keys(&owned) });
            },
        }
    } else if same_text(a, "wallet") && n == 3 && same_text(args[1].as_str(), "new") {
        PoolAction::NewWallet(word_chars(&args[2]))
    } else if same_text(a, "wallet") && n == 2 && !same_text(args[1].as_str(), "new") {
        PoolAction::Wallet(word_chars(&args[1]))
    } else if same_text(a, "wallets") && n == 1 {
        PoolAction::Wallets
    } else if same_text(a, "faucet") && n == 3 {
        match amount(&args[2]) {
            Ok(coins) => PoolAction::Faucet { name: word_chars(&args[1]), amount: coins },
            Err(e) => return Err(e),
        }
    } else if same_text(a, "shield") && n == 3 {
        match amount(&args[2]) {
            Ok(coins) => PoolAction::Shield { name: word_chars(&args[1]), amount: coins },
            Err(e) => return Err(e),
        }
    } else if same_text(a, "unshield") && n == 3 {
        match amount(&args[2]) {
            Ok(coins) => PoolAction::Unshield { name: word_chars(&args[1]), amount: coins },
            Err(e) => return Err(e),
        }
    } else if same_text(a, "send") && n == 4 {
        match amount(&args[3]) {
            Ok(coins) => PoolAction::Send { from: word_chars(&args[1]), to: word_chars(&args[2]), amount: coins },
            Err(e) => return Err(e),
        }
    } else if same_text(a, "ledger") && n == 1 {
        PoolAction::Ledger
    } else if same_text(a, "attack") && n == 2 {
        if knows(&vocab.attacks, args[1].as_str()) {
            PoolAction::Attack(word_chars(&args[1]))
        } else {
            return Err(ParseError::Choice { value: word_chars(&args[1]), choices: join_keys(&vocab.attacks) });
        }
    } else if same_text(a, "reset") && n == 1 {
        let mut yes = false;
        let mut k: usize = 0;
        while k < flags.len()
            invariant
                k <= flags@.len(),
                yes == exists|j: int| 0 <= j < k && (#[trigger] flags_view(flags@)[j]).0 == "--yes"@,
            decreases flags@.len() - k,
        {
            if same_text(flags[k].0, "--yes") {
                yes = true;
            }
            proof {
                assert(flags_view(flags@)[k as int].0 == flags@[k as int].0@);
            }
            k = k + 1;
        }
        PoolAction::Reset { confirmed: yes }
    } else {
        return Err(pool_usage(a));
    };
    Ok(Command::Pool(action))
}

/// `/ceremony [toxic|tau|collude] [--participants N]`.
fn ceremony(args: &Vec<String>, flags: &Flags) -> (out: Result<Command, ParseError>)
    ensures
        result_view(out) == spec_ceremony(words_view(args@), flags_view(flags@)),
{
    let participants = match count(flags, "--participants", 5, MAX_PARTICIPANTS) {
        Ok(n) => n as usize,
        Err(e) => return Err(e),
    };
    if args.len() == 0 {
        return Ok(Command::Ceremony { part: CeremonyPart::Tau, participants });
    }
    match CeremonyPart::from_key(args[0].as_str()) {
        Some(part) => Ok(Command::Ceremony { part, participants }),
        None => {
            let keys = vec![CeremonyPart::Toxic.key(), CeremonyPart::Tau.key(), CeremonyPart::Collude.key()];
            let owned = key_strings(&keys);
            proof {
                assert(keys@.map_values(|k: &str| k@) =~= part_keys());
            }
            Err(ParseError::Choice { value: word_chars(&args[0]), choices: join_keys(&owned) })
        },
    }
}

/// `/forge bctv14`.
fn forge(args: &Vec<String>) -> (out: Result<Command, ParseError>)
    ensures
        result_view(out) == spec_forge(words_view(args@)),
{
    let word = if args.len() > 0 {
        word_chars(&args[0])
    } else {
        String::new()
    };
    match ForgeTarget::from_key(word.as_str()) {
        Some(target) => Ok(Command::Forge(target)),
        None => {
            let keys = vec![ForgeTarget::Bctv14.key()];
            let owned = key_strings(&keys);
            proof {
                assert(words_view(owned@) =~= seq![forge_key(ForgeTarget::Bctv14)]);
                assert(comma_list(words_view(owned@)) == forge_key(ForgeTarget::Bctv14));
            }
            Err(ParseError::Choice { value: word, choices: join_keys(&owned) })
        },
    }
}

/// The command named `name` with its positional words and flags.
fn build(name: &str, args: &Vec<String>, flags: &Flags, vocab: &Vocabulary) -> (out: Result<Command, ParseError>)
    ensures
        result_view(out) == spec_build(name@, words_view(args@), flags_view(flags@), *vocab),
{
    let ghost av = words_view(args@);
    let first = if args.len() > 0 {
        word_chars(&args[0])
    } else {
        String::new()
    };
    proof {
        if args@.len() > 0 {
            assert(av[0] == args@[0]@);
        }
        if args@.len() > 1 {
            assert(av[1] == args@[1]@);
        }
    }
    if same_text(name, "/help") {
        Ok(Command::Help)
    } else if same_text(name, "/list") {
        if args.len() == 0 {
            Ok(Command::List(None))
        } else if knows(&vocab.shelves, first.as_str()) {
            Ok(Command::List(Some(first)))
        } else {
            Err(ParseError::Shelf(first))
        }
    } else if same_text(name, "/about") {
        Ok(Command::About(first))
    } else if same_text(name, "/examples") {
        Ok(Command::Examples)
    } else if same_text(name, "/run") {
        let example = if args.len() > 1 {
            word_chars(&args[1])
        } else {
            String::new()
        };
        if !knows(&vocab.examples, example.as_str()) {
            return Err(ParseError::Example(example));
        }
        let target = if same_text(first.as_str(), "all") {
            Target::All
        } else {
            Target::System(first)
        };
        Ok(Command::Run { target, example })
    } else if same_text(name, "/cave") {
        cave(args, flags, vocab)
    } else if same_text(name, "/trio") {
        trio(args, flags, vocab)
    } else if same_text(name, "/pool") {
        pool(args, flags, vocab)
    } else if same_text(name, "/ceremony") {
        ceremony(args, flags)
    } else if same_text(name, "/forge") {
        forge(args)
    } else if same_text(name, "/lang") {
        if knows(&vocab.languages, first.as_str()) {
            Ok(Command::Lang(first))
        } else {
            Err(ParseError::Language(first))
        }
    } else if same_text(name, "/clear") {
        Ok(Command::Clear)
    } else {
        Ok(Command::Quit)
    }
}

/// Words are never empty.
proof fn words_not_empty(line: Seq<char>, k: int)
    requires
        0 <= k <= line.len(),
    ensures
        forall|i: int| 0 <= i < words_upto(line, k).0.len() ==> (#[trigger] words_upto(line, k).0[i]).len() > 0,
    decreases k,
{
    if k > 0 {
        words_not_empty(line, k - 1);
        let (done, current) = words_upto(line, k - 1);
        if white_space(line[k - 1]) && current.len() > 0 {
            assert forall|i: int| 0 <= i < done.push(current).len() implies (#[trigger] done.push(current)[i]).len() > 0 by {
                if i < done.len() {
                    assert(done.push(current)[i] == done[i]);
                }
            }
        }
    }
}

/// Parses a typed line. A known command name without its slash is accepted too.
pub fn parse(line: &str, vocab: &Vocabulary) -> (out: Result<Command, ParseError>)
    ensures
        result_view(out) == spec_parse(line@, *vocab),
{
    let words = words(line);
    let ghost wv = words_view(words@);
    proof {
        words_not_empty(line@, line@.len() as int);
        assert(wv == split_words(line@));
    }
    if words.len() == 0 {
        return Err(ParseError::Empty);
    }
    let first = chars_of(words[0].as_str());
    proof {
        assert(wv[0] == words@[0]@);
        assert(wv[0].len() > 0);
    }
    let slashed = first[0] == '/';
    let name = if slashed {
        word_chars(&words[0])
    } else {
        let mut name = String::new();
        push_char(&mut name, '/');
        push_str(&mut name, words[0].as_str());
        name
    };
    let table = specs();
    let ghost tv = table@.map_values(|s: Spec| spec_view(s));
    let mut k: usize = 0;
    proof {
        assert(tv.skip(0) =~= tv);
    }
    while k < table.len() && !same_text(table[k].name, name.as_str())
        invariant
            k <= table@.len(),
            tv == table@.map_values(|s: Spec| spec_view(s)),
            tv == command_table(),
            find_spec(tv.skip(k as int), name@) == find_spec(tv, name@),
        decreases table@.len() - k,
    {
        proof {
            assert(tv.skip(k as int)[0] == tv[k as int]);
            assert(tv.skip(k as int).skip(1) =~= tv.skip(k + 1));
        }
        k = k + 1;
    }
    if k == table.len() {
        proof {
            assert(tv.skip(k as int) =~= Seq::<SpecView>::empty());
        }
        if slashed {
            return Err(ParseError::Unknown(word_chars(&words[0])));
        }
        return Err(ParseError::NoSlash);
    }
    let spec = &table[k];
    proof {
        assert(tv.skip(k as int)[0] == tv[k as int]);
        assert(find_spec(tv, name@) == Some(spec_view(*spec)));
    }
    let (args, flags) = match split_flags(spec, &words) {
        Ok(pair) => pair,
        Err(e) => return Err(e),
    };
    let mut required_count: usize = 0;
    let mut q: usize = 0;
    while q < spec.args.len()
        invariant
            q <= spec.args@.len(),
            required_count <= q,
            required_count == required(spec.args@.take(q as int)),
        decreases spec.args@.len() - q,
    {
        proof {
            assert(spec.args@.take(q + 1).drop_last() =~= spec.args@.take(q as int));
        }
        if spec.args[q].1 {
            required_count = required_count + 1;
        }
        q = q + 1;
    }
    proof {
        assert(spec.args@.take(spec.args@.len() as int) =~= spec.args@);
    }
    if args.len() < required_count || args.len() > spec.args.len() {
        return Err(ParseError::Usage(spec.usage));
    }
    build(spec.name, &args, &flags, vocab)
}

/// The words of a line are never empty.
pub proof fn words_not_empty_all(line: Seq<char>)
    ensures
        forall|i: int| 0 <= i < split_words(line).len() ==> (#[trigger] split_words(line)[i]).len() > 0,
{
    words_not_empty(line, line.len() as int);
    let (done, current) = words_upto(line, line.len() as int);
    if current.len() > 0 {
        assert forall|i: int| 0 <= i < done.push(current).len() implies (#[trigger] done.push(current)[i]).len() > 0 by {
            if i < done.len() {
                assert(done.push(current)[i] == done[i]);
            }
        }
    }
}

/// A line that starts with something other than white space has a first word, and it starts
/// with that character.
pub proof fn first_word(line: Seq<char>)
    requires
        line.len() > 0,
        !white_space(line[0]),
    ensures
        split_words(line).len() > 0,
        split_words(line)[0][0] == line[0],
{
    first_word_upto(line, line.len() as int);
}

/// After the first character, the words so far start with it.
proof fn first_word_upto(line: Seq<char>, k: int)
    requires
        1 <= k <= line.len(),
        !white_space(line[0]),
    ensures
        ({
            let (done, current) = words_upto(line, k);
            &&& done.len() > 0 ==> done[0].len() > 0 && done[0][0] == line[0]
            &&& done.len() == 0 ==> current.len() > 0 && current[0] == line[0]
        }),
    decreases k,
{
    if k > 1 {
        first_word_upto(line, k - 1);
        let (done, current) = words_upto(line, k - 1);
        if white_space(line[k - 1]) {
            if current.len() > 0 {
                assert(done.push(current)[0] == (if done.len() > 0 { done[0] } else { current }));
            }
        } else {
            if done.len() == 0 {
                assert(current.push(line[k - 1])[0] == current[0]);
            }
        }
    } else {
        assert(words_upto(line, 0) == (Seq::<Seq<char>>::empty(), Seq::<char>::empty()));
        assert(seq![line[0]][0] == line[0]);
        assert(Seq::<char>::empty().push(line[0]) =~= seq![line[0]]);
    }
}


/// The sentences that explain a mistake, in the reader's language; each names its values in
/// braces.
pub struct ErrorTexts {
    /// No command: `/` is missing.
    pub no_slash: String,
    /// `{command}` names no command.
    pub unknown_command: String,
    /// The arguments do not fit: `{usage}`.
    pub usage: String,
    /// `{shelf}` is not one of `{shelves}`.
    pub unknown_shelf: String,
    /// `{example}` names no example.
    pub unknown_example: String,
    /// `{language}` is not one of `{languages}`.
    pub unknown_language: String,
    /// `{value}` is not one of `{choices}`.
    pub unknown_choice: String,
    /// `{flag}` takes a whole number up to `{max}`, not `{value}`.
    pub bad_count: String,
    /// `{value}` is not an amount.
    pub bad_amount: String,
}

/// Words with a comma and a space between them.
pub open spec fn comma_joined(words: Seq<Seq<char>>) -> Seq<char>
    decreases words.len(),
{
    if words.len() == 0 {
        Seq::empty()
    } else if words.len() == 1 {
        words[0]
    } else {
        comma_joined(words.drop_last()) + seq![',', ' '] + words.last()
    }
}

/// The sentence that explains `error`: its template with the values it names filled in, the
/// shelves and languages there are listed from `vocab`.
pub open spec fn spec_error_text(error: SErr, texts: ErrorTexts, vocab: Vocabulary) -> Seq<char> {
    match error {
        SErr::Empty | SErr::NoSlash => texts.no_slash@,
        SErr::Unknown(command) => filled_views(texts.unknown_command@, seq![("command"@, command)]),
        SErr::Usage(usage) => filled_views(texts.usage@, seq![("usage"@, usage)]),
        SErr::Shelf(shelf) => filled_views(texts.unknown_shelf@, seq![
            ("shelf"@, shelf),
            ("shelves"@, comma_joined(vocab.shelves@.map_values(|w: String| w@))),
        ]),
        SErr::Example(example) => filled_views(texts.unknown_example@, seq![("example"@, example)]),
        SErr::Language(code) => filled_views(texts.unknown_language@, seq![
            ("language"@, code),
            ("languages"@, comma_joined(vocab.languages@.map_values(|w: String| w@))),
        ]),
        SErr::Choice(value, choices) => filled_views(texts.unknown_choice@, seq![("value"@, value), ("choices"@, choices)]),
        SErr::Count(flag, value, max) => filled_views(texts.bad_count@, seq![
            ("flag"@, flag),
            ("value"@, value),
            ("max"@, crate::activities::decimal(max as nat)),
        ]),
        SErr::Amount(value) => filled_views(texts.bad_amount@, seq![("value"@, value)]),
    }
}

/// Words with a comma and a space between them.
pub(crate) fn join_commas(words: &Vec<String>) -> (out: String)
    ensures
        out@ == comma_joined(words@.map_values(|w: String| w@)),
{
    let ghost ws = words@.map_values(|w: String| w@);
    let mut out = String::new();
    let mut i: usize = 0;
    proof {
        assert(ws.take(0) =~= Seq::<Seq<char>>::empty());
    }
    while i < words.len()
        invariant
            i <= words@.len(),
            ws == words@.map_values(|w: String| w@),
            out@ == comma_joined(ws.take(i as int)),
        decreases words@.len() - i,
    {
        let ghost before = out@;
        if i > 0 {
            push_str(&mut out, ", ");
        }
        push_str(&mut out, words[i].as_str());
        proof {
            reveal_strlit(", ");
            assert(", "@ =~= seq![',', ' ']);
            let t = ws.take(i + 1);
            assert(t.drop_last() =~= ws.take(i as int));
            assert(t.last() == words@[i as int]@);
            if i == 0 {
                assert(t.len() == 1);
                assert(out@ =~= comma_joined(t));
            } else {
                assert(out@ =~= comma_joined(t));
            }
        }
        i = i + 1;
    }
    proof {
        assert(ws.take(words@.len() as int) =~= ws);
    }
    out
}

/// Fills `template` from `values`, as [`filled_views`] says of what they hold.
pub(crate) fn fill_views(template: &str, values: &[(&str, &str)]) -> (out: String)
    ensures
        out@ == filled_views(template@, values_view(values@)),
{
    let out = fill(template, values);
    proof {
        filled_by_views(template@, values@);
    }
    out
}

/// The sentence that explains `error`, as [`spec_error_text`] says.
pub fn error_text(error: &ParseError, texts: &ErrorTexts, vocab: &Vocabulary) -> (out: String)
    ensures
        out@ == spec_error_text(error_view(*error), *texts, *vocab),
{
    match error {
        ParseError::Empty | ParseError::NoSlash => string_of(chars_of(texts.no_slash.as_str()).as_slice()),
        ParseError::Unknown(command) => {
            let values = [("command", command.as_str())];
            proof { assert(values_view(values@) =~= seq![("command"@, command@)]); }
            fill_views(texts.unknown_command.as_str(), &values)
        },
        ParseError::Usage(usage) => {
            let values = [("usage", *usage)];
            proof { assert(values_view(values@) =~= seq![("usage"@, usage@)]); }
            fill_views(texts.usage.as_str(), &values)
        },
        ParseError::Shelf(shelf) => {
            let shelves = join_commas(&vocab.shelves);
            let values = [("shelf", shelf.as_str()), ("shelves", shelves.as_str())];
            proof { assert(values_view(values@) =~= seq![("shelf"@, shelf@), ("shelves"@, shelves@)]); }
            fill_views(texts.unknown_shelf.as_str(), &values)
        },
        ParseError::Example(example) => {
            let values = [("example", example.as_str())];
            proof { assert(values_view(values@) =~= seq![("example"@, example@)]); }
            fill_views(texts.unknown_example.as_str(), &values)
        },
        ParseError::Language(code) => {
            let languages = join_commas(&vocab.languages);
            let values = [("language", code.as_str()), ("languages", languages.as_str())];
            proof { assert(values_view(values@) =~= seq![("language"@, code@), ("languages"@, languages@)]); }
            fill_views(texts.unknown_language.as_str(), &values)
        },
        ParseError::Choice { value, choices } => {
            let values = [("value", value.as_str()), ("choices", choices.as_str())];
            proof { assert(values_view(values@) =~= seq![("value"@, value@), ("choices"@, choices@)]); }
            fill_views(texts.unknown_choice.as_str(), &values)
        },
        ParseError::Count { flag, value, max } => {
            let digits = crate::activities::decimal_digits(*max as u128);
            let shown = string_of(digits.as_slice());
            let values = [("flag", *flag), ("value", value.as_str()), ("max", shown.as_str())];
            proof { assert(values_view(values@) =~= seq![("flag"@, flag@), ("value"@, value@), ("max"@, shown@)]); }
            fill_views(texts.bad_count.as_str(), &values)
        },
        ParseError::Amount(value) => {
            let values = [("value", value.as_str())];
            proof { assert(values_view(values@) =~= seq![("value"@, value@)]); }
            fill_views(texts.bad_amount.as_str(), &values)
        },
    }
}

} // verus!
