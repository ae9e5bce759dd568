//! The hands-on activities as the command line asks for them, parsed by the same grammar as the
//! screen's slash commands so both accept the same words and refuse the same mistakes.

use vstd::prelude::*;

use crate::commands::{
    command_view, parse, result_view, spec_parse, Command, ParseError, PoolAction, SCommand, SErr,
    SPoolAction, Vocabulary,
};
use crate::complete::spaced;
use crate::strings::{push_char, push_str};

verus! {

/// The line that the command line's `command` and `words` stand for: a slash, the command, a
/// space, and the words with a space between them.
pub open spec fn request_line(command: Seq<char>, words: Seq<Seq<char>>) -> Seq<char> {
    seq!['/'] + command + seq![' '] + spaced(words)
}

/// Whether a command is one of the hands-on activities.
pub open spec fn is_activity(command: SCommand) -> bool {
    match command {
        SCommand::Cave(..) | SCommand::Trio(..) | SCommand::Pool(..) | SCommand::Ceremony(..) | SCommand::Forge(..) => true,
        _ => false,
    }
}

/// The activity the command line asks for: the line parsed as the screen parses it; a command
/// that is not an activity is refused as unknown, naming the whole line.
pub open spec fn spec_request(command: Seq<char>, words: Seq<Seq<char>>, vocab: Vocabulary) -> Result<SCommand, SErr> {
    let line = request_line(command, words);
    match spec_parse(line, vocab) {
        Ok(c) => if is_activity(c) {
            Ok(c)
        } else {
            Err(SErr::Unknown(line))
        },
        Err(e) => Err(e),
    }
}

/// Words as sequences.
pub open spec fn words_view(words: Seq<String>) -> Seq<Seq<char>> {
    words.map_values(|w: String| w@)
}

/// The line for `command` and `words`, as [`request_line`] says.
fn line_of(command: &str, words: &Vec<String>) -> (line: String)
    ensures
        line@ == request_line(command@, words_view(words@)),
{
    let ghost ws = words_view(words@);
    let mut line = String::new();
    push_char(&mut line, '/');
    push_str(&mut line, command);
    push_char(&mut line, ' ');
    let ghost head = line@;
    proof {
        assert(head =~= seq!['/'] + command@ + seq![' ']);
        assert(ws.take(0) =~= Seq::<Seq<char>>::empty());
        assert(head + spaced(ws.take(0)) =~= head);
    }
    let mut i: usize = 0;
    while i < words.len()
        invariant
            i <= words@.len(),
            ws == words_view(words@),
            head == seq!['/'] + command@ + seq![' '],
            line@ == head + spaced(ws.take(i as int)),
        decreases words@.len() - i,
    {
        let ghost before = line@;
        if i > 0 {
            push_char(&mut line, ' ');
        }
        push_str(&mut line, words[i].as_str());
        proof {
            let t = ws.take(i + 1);
            assert(t.drop_last() =~= ws.take(i as int));
            assert(t.last() == words@[i as int]@);
            if i == 0 {
                assert(t.len() == 1);
                assert(spaced(t) == t[0]);
                assert(line@ =~= head + spaced(t));
            } else {
                assert(spaced(t) == spaced(ws.take(i as int)).push(' ') + words@[i as int]@);
                assert(line@ =~= head + spaced(t));
            }
        }
        i = i + 1;
    }
    proof {
        assert(ws.take(words@.len() as int) =~= ws);
    }
    line
}

/// Whether a command is one of the hands-on activities.
fn activity(command: &Command) -> (yes: bool)
    ensures
        yes == is_activity(command_view(*command)),
{
    match command {
        Command::Cave { .. } | Command::Trio { .. } | Command::Pool(_) | Command::Ceremony { .. } | Command::Forge(_) => true,
        _ => false,
    }
}

/// The activity `command` with its `words`, flags included, asks for, as [`spec_request`] says.
pub fn request(command: &str, words: &Vec<String>, vocab: &Vocabulary) -> (out: Result<Command, ParseError>)
    ensures
        result_view(out) == spec_request(command@, words_view(words@), *vocab),
{
    let line = line_of(command, words);
    match parse(line.as_str(), vocab) {
        Ok(parsed) => {
            if activity(&parsed) {
                Ok(parsed)
            } else {
                Err(ParseError::Unknown(line))
            }
        },
        Err(error) => Err(error),
    }
}

/// Whether a command is a pool reset that nobody has confirmed yet.
pub fn unconfirmed_reset(command: &Command) -> (yes: bool)
    ensures
        yes == (command_view(*command) == SCommand::Pool(SPoolAction::Reset(false))),
{
    match command {
        Command::Pool(PoolAction::Reset { confirmed }) => !*confirmed,
        _ => false,
    }
}

/// The same command with a pool reset confirmed; any other command is kept as it is.
pub fn confirm_reset(command: Command) -> (out: Command)
    ensures
        command_view(out) == match command_view(command) {
            SCommand::Pool(SPoolAction::Reset(_)) => SCommand::Pool(SPoolAction::Reset(true)),
            other => other,
        },
{
    match command {
        Command::Pool(PoolAction::Reset { .. }) => Command::Pool(PoolAction::Reset { confirmed: true }),
        other => other,
    }
}

} // verus!
