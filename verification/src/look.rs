//! Which colours and glyphs this terminal gets, decided once at start-up.
//!
//! The program never picks RGB values: it names one of the 16 ANSI colours and lets the reader's
//! terminal theme decide what that looks like. Consoles that cannot draw box or braille glyphs get
//! ASCII stand-ins, swapped in before text is measured so that wrapping and alignment stay right.

use std::time::Duration;

use vstd::prelude::*;

use crate::doc::{Hue, Tone};
use crate::strings::{chars_of, push_char, push_str};

verus! {

/// Colour and glyph choices for one terminal.
#[derive(Clone, Copy, Debug, PartialEq, Eq, Structural)]
pub struct Look {
    /// Whether colour may be used at all; `NO_COLOR` turns it off.
    pub color: bool,
    /// Whether symbols are replaced by ASCII stand-ins.
    pub ascii: bool,
}

impl Default for Look {
    fn default() -> (look: Look)
        ensures
            look == (Look { color: true, ascii: false }),
    {
        Look { color: true, ascii: false }
    }
}

/// The braille spinner frames.
pub open spec fn braille_frame(index: int) -> Seq<char> {
    if index == 0 {
        seq!['⠋']
    } else if index == 1 {
        seq!['⠙']
    } else if index == 2 {
        seq!['⠹']
    } else if index == 3 {
        seq!['⠸']
    } else if index == 4 {
        seq!['⠼']
    } else if index == 5 {
        seq!['⠴']
    } else if index == 6 {
        seq!['⠦']
    } else if index == 7 {
        seq!['⠧']
    } else if index == 8 {
        seq!['⠇']
    } else {
        seq!['⠏']
    }
}

/// The ASCII spinner frames.
pub open spec fn ascii_frame(index: int) -> Seq<char> {
    if index == 0 {
        seq!['|']
    } else if index == 1 {
        seq!['/']
    } else if index == 2 {
        seq!['-']
    } else {
        seq!['\\']
    }
}

/// The spinner frame after `millis` milliseconds: a new frame every 80 ms, ten braille frames or
/// four ASCII ones.
pub open spec fn spinner_frame(ascii: bool, millis: int) -> Seq<char> {
    let tick = millis / 80;
    if ascii {
        ascii_frame(tick % 4)
    } else {
        braille_frame(tick % 10)
    }
}

/// The ASCII stand-in for a symbol this program draws, or `None` to keep the character.
pub open spec fn stand_in(c: char) -> Option<Seq<char>> {
    if c == '›' {
        Some(seq!['>'])
    } else if c == '•' {
        Some(seq!['*'])
    } else if c == '└' {
        Some(seq!['`'])
    } else if c == '├' {
        Some(seq!['+'])
    } else if c == '✗' {
        Some(seq!['x'])
    } else if c == '⚠' {
        Some(seq!['!'])
    } else if c == '✓' || c == '↓' {
        Some(seq!['v'])
    } else if c == '↑' {
        Some(seq!['^'])
    } else if c == '·' || c == '─' || c == '—' || c == '–' {
        Some(seq!['-'])
    } else if c == '…' {
        Some(seq!['.', '.', '.'])
    } else if c == '│' {
        Some(seq!['|'])
    } else if c == '┃' {
        Some(seq!['#'])
    } else if c == '┬' || c == '╭' || c == '╮' || c == '╰' || c == '╯' {
        Some(seq!['+'])
    } else if c == '∞' {
        Some(seq!['i', 'n', 'f'])
    } else if c == 'µ' {
        Some(seq!['u'])
    } else if c == '×' {
        Some(seq!['x'])
    } else if c == '→' {
        Some(seq!['-', '>'])
    } else if c == '‘' || c == '’' {
        Some(seq!['\''])
    } else if c == '“' || c == '”' {
        Some(seq!['"'])
    } else {
        None
    }
}

/// `text` with every symbol that has a stand-in replaced by it.
pub open spec fn ascii_text(text: Seq<char>) -> Seq<char>
    decreases text.len(),
{
    if text.len() == 0 {
        Seq::empty()
    } else {
        let rest = ascii_text(text.drop_last());
        match stand_in(text.last()) {
            Some(s) => rest + s,
            None => rest.push(text.last()),
        }
    }
}

/// `text` as a look shows it.
pub open spec fn look_text(look: Look, text: Seq<char>) -> Seq<char> {
    if look.ascii {
        ascii_text(text)
    } else {
        text
    }
}

/// Stand-ins are at most three characters.
pub proof fn ascii_text_size(text: Seq<char>)
    ensures
        ascii_text(text).len() <= 3 * text.len(),
    decreases text.len(),
{
    if text.len() > 0 {
        ascii_text_size(text.drop_last());
    }
}

/// Text as a look draws it never grows more than threefold.
pub proof fn look_text_size(look: Look, text: Seq<char>)
    ensures
        look_text(look, text).len() <= 3 * text.len(),
{
    if look.ascii {
        ascii_text_size(text);
    }
}

/// An ASCII character has no stand-in: every symbol that has one lies outside ASCII.
pub proof fn ascii_has_no_stand_in(c: char)
    requires
        (c as u32) < 128,
    ensures
        stand_in(c) is None,
{
}

/// Every character of a stand-in is ASCII.
proof fn stand_ins_are_ascii(c: char)
    ensures
        stand_in(c) matches Some(s) ==> forall|i: int| 0 <= i < s.len() ==> (s[i] as u32) < 128,
{
}

/// Text in which no character has a stand-in is left as it is.
proof fn ascii_text_keeps(text: Seq<char>)
    requires
        forall|i: int| 0 <= i < text.len() ==> stand_in(#[trigger] text[i]) is None,
    ensures
        ascii_text(text) == text,
    decreases text.len(),
{
    if text.len() > 0 {
        ascii_text_keeps(text.drop_last());
        assert(stand_in(text[text.len() - 1]) is None);
        assert(text.drop_last().push(text.last()) =~= text);
    }
}

/// No character of text with its stand-ins put in has a stand-in itself.
proof fn ascii_text_has_no_stand_in(text: Seq<char>)
    ensures
        forall|i: int| 0 <= i < ascii_text(text).len() ==> stand_in(#[trigger] ascii_text(text)[i]) is None,
    decreases text.len(),
{
    if text.len() > 0 {
        let rest = ascii_text(text.drop_last());
        ascii_text_has_no_stand_in(text.drop_last());
        stand_ins_are_ascii(text.last());
        let out = ascii_text(text);
        assert forall|i: int| 0 <= i < out.len() implies stand_in(#[trigger] out[i]) is None by {
            if i >= rest.len() {
                if let Some(s) = stand_in(text.last()) {
                    assert(out[i] == s[i - rest.len()]);
                    ascii_has_no_stand_in(out[i]);
                }
            }
        }
    }
}

/// Text without a symbol that has a stand-in, ASCII text among it, is shown as it is in
/// either look.
pub proof fn text_without_symbols_is_kept(look: Look, text: Seq<char>)
    requires
        forall|i: int| 0 <= i < text.len() ==> stand_in(#[trigger] text[i]) is None,
    ensures
        look_text(look, text) == text,
{
    ascii_text_keeps(text);
}

/// ASCII text is shown as it is in either look, and any text is shown as it is by a look that
/// is not ASCII.
pub proof fn ascii_text_is_kept(look: Look, text: Seq<char>)
    requires
        !look.ascii || forall|i: int| 0 <= i < text.len() ==> (#[trigger] text[i] as u32) < 128,
    ensures
        look_text(look, text) == text,
{
    if look.ascii {
        assert forall|i: int| 0 <= i < text.len() implies stand_in(#[trigger] text[i]) is None by {
            ascii_has_no_stand_in(text[i]);
        }
        ascii_text_keeps(text);
    }
}

/// Showing text that a look already shows changes nothing: every stand-in is ASCII, and
/// letters of any script are kept.
pub proof fn look_text_is_idempotent(look: Look, text: Seq<char>)
    ensures
        look_text(look, look_text(look, text)) == look_text(look, text),
{
    if look.ascii {
        ascii_text_has_no_stand_in(text);
        ascii_text_keeps(ascii_text(text));
    }
}

/// The whole milliseconds `Duration::as_millis` counts in a duration.
pub uninterp spec fn duration_millis(elapsed: Duration) -> u128;

/// `Duration::as_millis`: the whole milliseconds in `elapsed`, a function of the duration alone,
/// named [`duration_millis`].
#[verifier::external_body]
pub(crate) fn millis_of(elapsed: Duration) -> (millis: u128)
    ensures
        millis == duration_millis(elapsed),
{
    elapsed.as_millis()
}

/// The ASCII stand-in for a symbol this program draws, or `None` to keep the character.
pub fn ascii_stand_in(character: char) -> (out: Option<&'static str>)
    ensures
        match (out, stand_in(character)) {
            (Some(s), Some(t)) => s@ == t,
            (None, None) => true,
            _ => false,
        },
{
    let c = character;
    let out = if c == '›' {
        Some(">")
    } else if c == '•' {
        Some("*")
    } else if c == '└' {
        Some("`")
    } else if c == '├' {
        Some("+")
    } else if c == '✗' {
        Some("x")
    } else if c == '⚠' {
        Some("!")
    } else if c == '✓' || c == '↓' {
        Some("v")
    } else if c == '↑' {
        Some("^")
    } else if c == '·' || c == '─' || c == '—' || c == '–' {
        Some("-")
    } else if c == '…' {
        Some("...")
    } else if c == '│' {
        Some("|")
    } else if c == '┃' {
        Some("#")
    } else if c == '┬' || c == '╭' || c == '╮' || c == '╰' || c == '╯' {
        Some("+")
    } else if c == '∞' {
        Some("inf")
    } else if c == 'µ' {
        Some("u")
    } else if c == '×' {
        Some("x")
    } else if c == '→' {
        Some("->")
    } else if c == '‘' || c == '’' {
        Some("'")
    } else if c == '“' || c == '”' {
        Some("\"")
    } else {
        None
    };
    proof {
        reveal_strlit(">");
        reveal_strlit("*");
        reveal_strlit("`");
        reveal_strlit("+");
        reveal_strlit("x");
        reveal_strlit("!");
        reveal_strlit("v");
        reveal_strlit("^");
        reveal_strlit("-");
        reveal_strlit("...");
        reveal_strlit("|");
        reveal_strlit("#");
        reveal_strlit("inf");
        reveal_strlit("u");
        reveal_strlit("->");
        reveal_strlit("'");
        reveal_strlit("\"");
        match out {
            Some(s) => {
                assert(s@ =~= stand_in(c).unwrap());
            },
            None => {},
        }
    }
    out
}

impl Look {
    /// The spinner frame for a task that has been running for `millis` milliseconds.
    pub fn spinner_at(&self, millis: u128) -> (frame: &'static str)
        ensures
            frame@ == spinner_frame(self.ascii, millis as int),
    {
        let tick = millis / 80;
        proof {
            reveal_strlit("|");
            reveal_strlit("/");
            reveal_strlit("-");
            reveal_strlit("\\");
            reveal_strlit("⠋");
            reveal_strlit("⠙");
            reveal_strlit("⠹");
            reveal_strlit("⠸");
            reveal_strlit("⠼");
            reveal_strlit("⠴");
            reveal_strlit("⠦");
            reveal_strlit("⠧");
            reveal_strlit("⠇");
            reveal_strlit("⠏");
        }
        if self.ascii {
            let i = tick % 4;
            let frame = if i == 0 {
                "|"
            } else if i == 1 {
                "/"
            } else if i == 2 {
                "-"
            } else {
                "\\"
            };
            proof {
                assert(frame@ =~= ascii_frame(i as int));
            }
            frame
        } else {
            let i = tick % 10;
            let frame = if i == 0 {
                "⠋"
            } else if i == 1 {
                "⠙"
            } else if i == 2 {
                "⠹"
            } else if i == 3 {
                "⠸"
            } else if i == 4 {
                "⠼"
            } else if i == 5 {
                "⠴"
            } else if i == 6 {
                "⠦"
            } else if i == 7 {
                "⠧"
            } else if i == 8 {
                "⠇"
            } else {
                "⠏"
            };
            proof {
                assert(frame@ =~= braille_frame(i as int));
            }
            frame
        }
    }

    /// The spinner frame for a task that has been running for `elapsed`.
    pub fn spinner(&self, elapsed: Duration) -> (frame: &'static str)
        ensures
            frame@ == spinner_frame(self.ascii, duration_millis(elapsed) as int),
    {
        let millis = millis_of(elapsed);
        self.spinner_at(millis)
    }

    /// `text` with symbols replaced when this look is ASCII-only; letters in any script are kept.
    pub fn text(&self, text: &str) -> (out: String)
        ensures
            out@ == look_text(*self, text@),
    {
        let chars = chars_of(text);
        let mut out = String::new();
        if !self.ascii {
            push_str(&mut out, text);
            return out;
        }
        let mut i: usize = 0;
        while i < chars.len()
            invariant
                i <= chars@.len(),
                chars@ == text@,
                out@ == ascii_text(chars@.take(i as int)),
            decreases chars@.len() - i,
        {
            let c = chars[i];
            proof {
                assert(chars@.take(i + 1).drop_last() =~= chars@.take(i as int));
            }
            match ascii_stand_in(c) {
                Some(stand) => push_str(&mut out, stand),
                None => push_char(&mut out, c),
            }
            i = i + 1;
        }
        proof {
            assert(chars@.take(chars@.len() as int) =~= chars@);
        }
        out
    }
}

/// One of the named ANSI colours this program draws with; the reader's theme decides the shade.
#[derive(Clone, Copy, Debug, PartialEq, Eq, Hash, Structural)]
pub enum Named {
    /// Cyan.
    Cyan,
    /// Green.
    Green,
    /// Red.
    Red,
    /// Yellow.
    Yellow,
    /// Magenta.
    Magenta,
    /// Dark gray.
    DarkGray,
}

/// How a terminal draws a tone: a foreground colour or the default one, and attributes.
/// Backgrounds are never set.
#[derive(Clone, Copy, Debug, PartialEq, Eq, Structural)]
pub struct Paint {
    /// Foreground; `None` for the terminal's own.
    pub fg: Option<Named>,
    /// Bold weight.
    pub bold: bool,
    /// Italic.
    pub italic: bool,
    /// Underline.
    pub underline: bool,
}

/// The named colour of a colour role, `None` for the default foreground.
pub open spec fn hue_color(hue: Hue) -> Option<Named> {
    match hue {
        Hue::Body => None,
        Hue::Accent => Some(Named::Cyan),
        Hue::Success => Some(Named::Green),
        Hue::Failure => Some(Named::Red),
        Hue::Caution => Some(Named::Yellow),
        Hue::Shelf => Some(Named::Magenta),
        Hue::Secondary => Some(Named::DarkGray),
    }
}

/// The named colour a look draws a role in: none at all when colour is off.
pub open spec fn look_color(look: Look, hue: Hue) -> Option<Named> {
    if look.color {
        hue_color(hue)
    } else {
        None
    }
}

/// Whether an environment value asks for no colour: present and not empty.
pub open spec fn asks_no_color(no_color: Option<Seq<char>>) -> bool {
    match no_color {
        Some(v) => v.len() > 0,
        None => false,
    }
}

/// Whether `TERM` names the Linux console, which draws few symbols.
pub open spec fn linux_console(term: Option<Seq<char>>) -> bool {
    term == Some(seq!['l', 'i', 'n', 'u', 'x'])
}

impl Look {
    /// The look for the environment: colour unless `NO_COLOR` is set and not empty; ASCII
    /// stand-ins when asked for (`ascii`) or on the Linux console (`TERM=linux`).
    pub fn detect(ascii: bool, no_color: Option<&str>, term: Option<&str>) -> (look: Look)
        ensures
            look.color == !asks_no_color(match no_color { Some(v) => Some(v@), None => None }),
            look.ascii == (ascii || linux_console(match term { Some(t) => Some(t@), None => None })),
    {
        let no = match no_color {
            Some(v) => v.unicode_len() > 0,
            None => false,
        };
        let linux = match term {
            Some(t) => {
                proof {
                    reveal_strlit("linux");
                    assert("linux"@ =~= seq!['l', 'i', 'n', 'u', 'x']);
                }
                crate::strings::same_text(t, "linux")
            },
            None => false,
        };
        Look { color: !no, ascii: ascii || linux }
    }
}

impl Look {
    /// The named colour for a role, or `None` for the default foreground or when colour is off.
    pub fn color(&self, hue: Hue) -> (named: Option<Named>)
        ensures
            named == look_color(*self, hue),
    {
        if !self.color {
            return None;
        }
        match hue {
            Hue::Body => None,
            Hue::Accent => Some(Named::Cyan),
            Hue::Success => Some(Named::Green),
            Hue::Failure => Some(Named::Red),
            Hue::Caution => Some(Named::Yellow),
            Hue::Shelf => Some(Named::Magenta),
            Hue::Secondary => Some(Named::DarkGray),
        }
    }

    /// How the terminal draws a tone. Backgrounds are never set.
    pub fn style(&self, tone: Tone) -> (paint: Paint)
        ensures
            paint == (Paint { fg: look_color(*self, tone.hue), bold: tone.bold, italic: tone.italic, underline: tone.underline }),
    {
        Paint { fg: self.color(tone.hue), bold: tone.bold, italic: tone.italic, underline: tone.underline }
    }
}

} // verus!
