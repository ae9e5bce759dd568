//! The screen's state and what keys, the mouse wheel and pasted text do to it. What a key asks
//! of the world outside the screen (quitting, stopping a task, running a command) comes back as a
//! [`Reaction`] for the caller to carry out.

use vstd::prelude::*;

use crate::commands::{command_view, error_view, parse, result_view, spec_parse, Command, ParseError, SCommand, SErr, Vocabulary};
use crate::complete::{candidates, candidates_view, spec_candidates, Offers, SCandidate};
use crate::composer::{
    after_backspace, after_delete, after_down, after_insert, after_left, after_right, after_set,
    after_take, after_up, composer_ok, line_end, line_start, Composer, ComposerView,
};
use crate::doc::{body_tone, span, Block, Doc, Entry, Kind, Tone};
use crate::pager::{after_key, KeyCode, KeyPress, Pager, PagerView};
use crate::strings::{chars_of, same_text, string_of, trim, trimmed};
use crate::transcript::{following, scrolled_down, scrolled_up, Transcript, TranscriptView};

verus! {

/// Rows one notch of the mouse wheel scrolls.
pub const WHEEL_ROWS: usize = 3;

/// One thing the terminal reports.
pub enum Input {
    /// A key was pressed.
    Key(KeyPress),
    /// The wheel turned up one notch.
    WheelUp,
    /// The wheel turned down one notch.
    WheelDown,
    /// Text was pasted.
    Paste(String),
}

/// What the caller still has to do after an event.
#[derive(Debug, PartialEq, Eq)]
pub enum Reaction {
    /// Nothing.
    Nothing,
    /// Leave: ctrl+c pressed twice on an empty line.
    Quit,
    /// Remember that ctrl+c was pressed once on an empty line.
    ArmQuit,
    /// Forget an earlier ctrl+c: the line was cleared instead.
    Disarm,
    /// Open the last page again.
    Reopen,
    /// Say that there is no page to open again.
    NothingToReopen,
    /// Ask a running task to stop.
    Stop,
    /// Carry out a command that was entered.
    Run(Command),
    /// Say why an entered line is not a command.
    Refused(ParseError),
}

/// A reaction in terms of views.
pub enum SReaction {
    /// Nothing.
    Nothing,
    /// Leave.
    Quit,
    /// Remember a first ctrl+c.
    ArmQuit,
    /// Forget an earlier ctrl+c.
    Disarm,
    /// Open the last page again.
    Reopen,
    /// No page to open again.
    NothingToReopen,
    /// Stop a running task.
    Stop,
    /// Carry out a command.
    Run(SCommand),
    /// Refuse a line.
    Refused(SErr),
}

/// A reaction as a view.
pub open spec fn reaction_view(r: Reaction) -> SReaction {
    match r {
        Reaction::Nothing => SReaction::Nothing,
        Reaction::Quit => SReaction::Quit,
        Reaction::ArmQuit => SReaction::ArmQuit,
        Reaction::Disarm => SReaction::Disarm,
        Reaction::Reopen => SReaction::Reopen,
        Reaction::NothingToReopen => SReaction::NothingToReopen,
        Reaction::Stop => SReaction::Stop,
        Reaction::Run(c) => SReaction::Run(command_view(c)),
        Reaction::Refused(e) => SReaction::Refused(error_view(e)),
    }
}

/// What the screen holds: the line being typed, the transcript, the open page, whether the
/// shortcut overlay shows, the popup's selected row and the text it was dismissed on, and whether
/// a full redraw was asked for.
pub struct Screen {
    /// The line being typed.
    pub composer: Composer,
    /// Everything shown above the line.
    pub transcript: Transcript,
    /// The full-screen page, while one is open.
    pub pager: Option<Pager>,
    /// Whether the shortcut overlay shows.
    pub shortcuts: bool,
    /// The popup's selected row.
    pub selected: usize,
    /// The text the popup was closed on; it reopens once the text changes.
    pub dismissed: Option<String>,
    /// Whether ctrl+l asked for a full redraw.
    pub clear_requested: bool,
}

/// A screen's state as views.
pub struct ScreenView {
    /// The line being typed.
    pub composer: ComposerView,
    /// The transcript.
    pub transcript: TranscriptView,
    /// The open page.
    pub pager: Option<PagerView>,
    /// Whether the shortcut overlay shows.
    pub shortcuts: bool,
    /// The popup's selected row.
    pub selected: int,
    /// The text the popup was closed on.
    pub dismissed: Option<Seq<char>>,
    /// Whether a full redraw was asked for.
    pub clear_requested: bool,
}

impl View for Screen {
    type V = ScreenView;

    open spec fn view(&self) -> ScreenView {
        ScreenView {
            composer: self.composer@,
            transcript: self.transcript@,
            pager: match self.pager {
                Some(p) => Some(p@),
                None => None,
            },
            shortcuts: self.shortcuts,
            selected: self.selected as int,
            dismissed: match self.dismissed {
                Some(d) => Some(d@),
                None => None,
            },
            clear_requested: self.clear_requested,
        }
    }
}

/// The popup's rows: none while a history entry is recalled or after the popup was closed on
/// this very text.
pub open spec fn popup(s: ScreenView, offers: Offers) -> Seq<SCandidate> {
    if s.composer.recall is Some || s.dismissed == Some(s.composer.text) {
        Seq::empty()
    } else {
        spec_candidates(s.composer.text, offers)
    }
}

/// The row Enter or Tab takes: the selected one, or the last when the selection is past the end.
pub open spec fn chosen_row(rows: Seq<SCandidate>, selected: int) -> Option<SCandidate> {
    if rows.len() == 0 {
        None
    } else if selected < rows.len() - 1 {
        Some(rows[selected])
    } else {
        Some(rows[rows.len() - 1])
    }
}

/// The screen after an edit of the line: the popup starts again from its first row.
pub open spec fn edited(s: ScreenView, c: ComposerView) -> ScreenView {
    ScreenView { composer: c, selected: 0, ..s }
}

/// The composer after it is emptied.
pub open spec fn cleared(c: ComposerView) -> ComposerView {
    ComposerView { text: Seq::empty(), cursor: 0, recall: None, ..c }
}

/// Submitting the line: it is taken out of the composer and the popup is reset; a line that is
/// blank once trimmed does nothing more, another is entered into the transcript (the third part)
/// and parsed.
pub open spec fn spec_submit(s: ScreenView, vocab: Vocabulary) -> (ScreenView, SReaction, Option<Seq<char>>) {
    let line = trimmed(s.composer.text);
    let v = ScreenView { composer: after_take(s.composer), selected: 0, dismissed: None, ..s };
    if line.len() == 0 {
        (v, SReaction::Nothing, None)
    } else {
        let r = match spec_parse(line, vocab) {
            Ok(c) => SReaction::Run(c),
            Err(e) => SReaction::Refused(e),
        };
        (v, r, Some(line))
    }
}

/// Enter: with the popup open, its row replaces a different line first, and a row that is not a
/// whole command stops there; otherwise the line is submitted.
pub open spec fn spec_enter(s: ScreenView, offers: Offers, vocab: Vocabulary) -> (ScreenView, SReaction, Option<Seq<char>>) {
    match chosen_row(popup(s, offers), s.selected) {
        Some(row) => if row.2 != s.composer.text {
            let v = edited(s, after_set(s.composer, row.2));
            if spec_parse(row.2, vocab) is Err {
                (v, SReaction::Nothing, None)
            } else {
                spec_submit(v, vocab)
            }
        } else {
            spec_submit(s, vocab)
        },
        None => spec_submit(s, vocab),
    }
}

/// Tab: the chosen row replaces the line.
pub open spec fn spec_tab(s: ScreenView, offers: Offers) -> ScreenView {
    match chosen_row(popup(s, offers), s.selected) {
        Some(row) => edited(s, after_set(s.composer, row.2)),
        None => s,
    }
}

/// ↑ or ↓: moves the popup's selection round its rows, or recalls history without a popup.
pub open spec fn spec_arrow(s: ScreenView, offers: Offers, up: bool) -> ScreenView {
    let count = popup(s, offers).len();
    if count > 0 {
        ScreenView { selected: (s.selected + if up { -1int } else { 1int }) % (count as int), ..s }
    } else if up {
        ScreenView { composer: after_up(s.composer), ..s }
    } else {
        ScreenView { composer: after_down(s.composer), ..s }
    }
}

/// Esc: closes the popup on this text; without a popup, asks a running task to stop.
pub open spec fn spec_escape(s: ScreenView, offers: Offers) -> (ScreenView, SReaction) {
    if popup(s, offers).len() > 0 {
        (ScreenView { dismissed: Some(s.composer.text), ..s }, SReaction::Nothing)
    } else {
        (s, SReaction::Stop)
    }
}

/// ctrl+c: closes the page, or clears the line, or quits when pressed again while `armed`.
pub open spec fn spec_ctrl_c(s: ScreenView, armed: bool) -> (ScreenView, SReaction) {
    if s.pager is Some {
        (ScreenView { pager: None, ..s }, SReaction::Nothing)
    } else if s.composer.text.len() > 0 {
        (edited(s, cleared(s.composer)), SReaction::Disarm)
    } else if armed {
        (s, SReaction::Quit)
    } else {
        (s, SReaction::ArmQuit)
    }
}

/// Control with another key: ctrl+j breaks the line, ctrl+o opens the last page again, ctrl+l
/// asks for a full redraw.
pub open spec fn spec_control(s: ScreenView, code: KeyCode, can_reopen: bool) -> (ScreenView, SReaction) {
    if code == KeyCode::Char('j') {
        (edited(s, after_insert(s.composer, seq!['\n'])), SReaction::Nothing)
    } else if code == KeyCode::Char('o') {
        (s, if can_reopen { SReaction::Reopen } else { SReaction::NothingToReopen })
    } else if code == KeyCode::Char('l') {
        (ScreenView { clear_requested: true, ..s }, SReaction::Nothing)
    } else {
        (s, SReaction::Nothing)
    }
}

/// The rows Page Up and Page Down move: the transcript's height less two, at least one.
pub open spec fn page_step(height: int) -> int {
    if height > 2 {
        height - 2
    } else {
        1
    }
}

/// A key without Control, with no page open.
pub open spec fn spec_plain_key(s: ScreenView, key: KeyPress, offers: Offers, vocab: Vocabulary) -> (ScreenView, SReaction, Option<Seq<char>>) {
    let c = s.composer;
    let page = page_step(s.transcript.height);
    match key.code {
        KeyCode::Enter => if key.shift || key.alt {
            (edited(s, after_insert(c, seq!['\n'])), SReaction::Nothing, None)
        } else {
            spec_enter(s, offers, vocab)
        },
        KeyCode::Tab => (spec_tab(s, offers), SReaction::Nothing, None),
        KeyCode::Up => (spec_arrow(s, offers, true), SReaction::Nothing, None),
        KeyCode::Down => (spec_arrow(s, offers, false), SReaction::Nothing, None),
        KeyCode::Esc => {
            let (v, r) = spec_escape(s, offers);
            (v, r, None)
        },
        KeyCode::PageUp => (ScreenView { transcript: scrolled_up(s.transcript, page), ..s }, SReaction::Nothing, None),
        KeyCode::PageDown => (ScreenView { transcript: scrolled_down(s.transcript, page), ..s }, SReaction::Nothing, None),
        KeyCode::Left => (ScreenView { composer: after_left(c), ..s }, SReaction::Nothing, None),
        KeyCode::Right => (ScreenView { composer: after_right(c), ..s }, SReaction::Nothing, None),
        KeyCode::Home => (ScreenView { composer: ComposerView { cursor: line_start(c.text, c.cursor), ..c }, ..s }, SReaction::Nothing, None),
        KeyCode::End => (ScreenView { composer: ComposerView { cursor: line_end(c.text, c.cursor), ..c }, ..s }, SReaction::Nothing, None),
        KeyCode::Backspace => (edited(s, after_backspace(c)), SReaction::Nothing, None),
        KeyCode::Delete => (edited(s, after_delete(c)), SReaction::Nothing, None),
        KeyCode::Char(ch) => if ch == '?' && c.text.len() == 0 {
            (ScreenView { shortcuts: true, ..s }, SReaction::Nothing, None)
        } else if !key.alt {
            (edited(s, after_insert(c, seq![ch])), SReaction::Nothing, None)
        } else {
            (s, SReaction::Nothing, None)
        },
        KeyCode::Other => (s, SReaction::Nothing, None),
    }
}

/// A key press: any key first closes the shortcut overlay; ctrl+c comes next, then an open page
/// takes the key, then Control with another key, then the rest. `armed` tells whether an earlier
/// ctrl+c is recent enough to quit on, `can_reopen` whether there is a page to open again.
pub open spec fn spec_key(s: ScreenView, key: KeyPress, armed: bool, can_reopen: bool, offers: Offers, vocab: Vocabulary) -> (ScreenView, SReaction, Option<Seq<char>>) {
    if s.shortcuts {
        (ScreenView { shortcuts: false, ..s }, SReaction::Nothing, None)
    } else if key.ctrl && key.code == KeyCode::Char('c') {
        let (v, r) = spec_ctrl_c(s, armed);
        (v, r, None)
    } else if s.pager is Some {
        let p = s.pager->0;
        match after_key(p.top, p.body_height, key) {
            Some(top) => (ScreenView { pager: Some(PagerView { top, ..p }), ..s }, SReaction::Nothing, None),
            None => (ScreenView { pager: None, ..s }, SReaction::Nothing, None),
        }
    } else if key.ctrl {
        let (v, r) = spec_control(s, key.code, can_reopen);
        (v, r, None)
    } else {
        spec_plain_key(s, key, offers, vocab)
    }
}

/// `text` with each `\r\n`, then each `\r` left, written as `\n`.
pub open spec fn unix_newlines(text: Seq<char>) -> Seq<char>
    decreases text.len(),
{
    if text.len() == 0 {
        Seq::empty()
    } else if text[0] == '\r' && text.len() > 1 && text[1] == '\n' {
        seq!['\n'] + unix_newlines(text.subrange(2, text.len() as int))
    } else if text[0] == '\r' {
        seq!['\n'] + unix_newlines(text.drop_first())
    } else {
        seq![text[0]] + unix_newlines(text.drop_first())
    }
}

/// One event: keys as [`spec_key`]; the wheel scrolls the open page, or else the transcript, by
/// [`WHEEL_ROWS`]; pasted text goes into the line, with its line breaks made `\n`, unless a page
/// is open.
pub open spec fn spec_event(s: ScreenView, event: Input, armed: bool, can_reopen: bool, offers: Offers, vocab: Vocabulary) -> (ScreenView, SReaction, Option<Seq<char>>) {
    match event {
        Input::Key(key) => spec_key(s, key, armed, can_reopen, offers, vocab),
        Input::WheelUp => match s.pager {
            Some(p) => (ScreenView { pager: Some(PagerView { top: crate::pager::scrolled(p.top, -(WHEEL_ROWS as int)), ..p }), ..s }, SReaction::Nothing, None),
            None => (ScreenView { transcript: scrolled_up(s.transcript, WHEEL_ROWS as int), ..s }, SReaction::Nothing, None),
        },
        Input::WheelDown => match s.pager {
            Some(p) => (ScreenView { pager: Some(PagerView { top: crate::pager::scrolled(p.top, WHEEL_ROWS as int), ..p }), ..s }, SReaction::Nothing, None),
            None => (ScreenView { transcript: scrolled_down(s.transcript, WHEEL_ROWS as int), ..s }, SReaction::Nothing, None),
        },
        Input::Paste(text) => if s.pager is None {
            (edited(s, after_insert(s.composer, unix_newlines(text@))), SReaction::Nothing, None)
        } else {
            (s, SReaction::Nothing, None)
        },
    }
}

/// Characters an event may add to the line.
pub open spec fn event_room(event: Input) -> int {
    match event {
        Input::Key(_) => 1,
        Input::Paste(text) => text@.len() as int,
        _ => 0,
    }
}

/// The tone a command line is echoed in.
pub open spec fn echo_tone() -> Tone {
    Tone { bold: true, ..body_tone() }
}

/// `after` is `before` following the bottom again, with one more cell: the command `line` in
/// bold.
pub open spec fn command_entered(before: TranscriptView, after: TranscriptView, line: Seq<char>) -> bool {
    let t = following(before);
    &&& after.top == t.top
    &&& after.unseen == t.unseen
    &&& after.total == t.total
    &&& after.height == t.height
    &&& after.cells.len() == t.cells.len() + 1
    &&& after.cells.drop_last() == t.cells
    &&& after.cells.last().0 is None
    &&& after.cells.last().1 == Kind::Command
    &&& after.cells.last().2.len() == 1
    &&& after.cells.last().2[0] matches Block::Text { lead, hang, body }
        && lead@.len() == 0 && hang is None && body@.len() == 1
        && body@[0].text@ == line && body@[0].tone == echo_tone()
}

/// Whether the screen after an event is `v` with the transcript told of the command `entered`.
pub open spec fn reached(after: ScreenView, v: ScreenView, entered: Option<Seq<char>>) -> bool {
    match entered {
        None => after == v,
        Some(line) => after == (ScreenView { transcript: after.transcript, ..v })
            && command_entered(v.transcript, after.transcript, line),
    }
}

/// `text` with its line breaks made `\n`.
pub fn unify_newlines(text: &str) -> (out: String)
    ensures
        out@ == unix_newlines(text@),
{
    let chars = chars_of(text);
    let n = chars.len();
    let mut out: Vec<char> = Vec::new();
    let mut i: usize = 0;
    proof {
        assert(chars@.subrange(0, n as int) =~= chars@);
        assert(out@ + unix_newlines(chars@) =~= unix_newlines(chars@));
    }
    while i < n
        invariant
            n == chars@.len(),
            i <= n,
            out@ + unix_newlines(chars@.subrange(i as int, n as int)) == unix_newlines(chars@),
        decreases n - i,
    {
        let ghost rest = chars@.subrange(i as int, n as int);
        if chars[i] == '\r' && i + 1 < n && chars[i + 1] == '\n' {
            proof {
                assert(rest.subrange(2, rest.len() as int) =~= chars@.subrange(i + 2, n as int));
                assert(out@.push('\n') + unix_newlines(chars@.subrange(i + 2, n as int)) =~= out@ + unix_newlines(rest));
            }
            out.push('\n');
            i = i + 2;
        } else {
            let c = if chars[i] == '\r' { '\n' } else { chars[i] };
            proof {
                assert(rest.drop_first() =~= chars@.subrange(i + 1, n as int));
                assert(out@.push(c) + unix_newlines(chars@.subrange(i + 1, n as int)) =~= out@ + unix_newlines(rest));
            }
            out.push(c);
            i = i + 1;
        }
    }
    proof {
        assert(chars@.subrange(n as int, n as int) =~= Seq::<char>::empty());
        assert(out@ + Seq::<char>::empty() =~= out@);
        assert(chars@ =~= text@);
    }
    string_of(out.as_slice())
}

/// A string of one character.
fn char_string(c: char) -> (s: String)
    ensures
        s@ == seq![c],
{
    let v = vec![c];
    proof {
        assert(v@ =~= seq![c]);
    }
    string_of(v.as_slice())
}

impl Screen {
    /// Whether the line being typed is consistent.
    pub open spec fn ok(&self) -> bool {
        composer_ok(self.composer@)
    }

    /// A screen with an empty line, no page, and `welcome` as the transcript's first cell.
    pub fn new(welcome: Entry) -> (screen: Screen)
        ensures
            screen.ok(),
            screen@.composer == (ComposerView { text: Seq::empty(), cursor: 0, history: Seq::empty(), recall: None, draft: Seq::empty() }),
            screen@.transcript == (TranscriptView { cells: seq![(None, welcome.kind, welcome.doc.blocks@)], top: None, unseen: false, total: 0, height: 0 }),
            screen@.pager is None,
            !screen@.shortcuts,
            screen@.selected == 0,
            screen@.dismissed is None,
            !screen@.clear_requested,
    {
        let mut transcript = Transcript::new();
        transcript.push(welcome);
        proof {
            assert(transcript@.cells =~= seq![(None, welcome.kind, welcome.doc.blocks@)]);
        }
        Screen {
            composer: Composer::default(),
            transcript,
            pager: None,
            shortcuts: false,
            selected: 0,
            dismissed: None,
            clear_requested: false,
        }
    }

    /// What the line holds.
    pub fn input(&self) -> (text: String)
        ensures
            text@ == self@.composer.text,
    {
        self.composer.text()
    }

    /// Whether the full-screen page is open.
    pub fn pager_open(&self) -> (open: bool)
        ensures
            open == (self@.pager is Some),
    {
        self.pager.is_some()
    }

    /// Opens the page titled `title` written in markdown `source`.
    pub fn open_page(&mut self, title: &str, source: &str)
        ensures
            final(self)@ == (ScreenView { pager: final(self)@.pager, ..old(self)@ }),
            final(self)@.pager matches Some(p) && p.title == title@ && p.top == 0 && p.body_height == 0,
    {
        self.pager = Some(Pager::new(title, source));
    }

    /// Whether ctrl+l asked for a full redraw since the last call; the request is forgotten.
    pub fn take_clear_request(&mut self) -> (asked: bool)
        ensures
            asked == old(self)@.clear_requested,
            final(self)@ == (ScreenView { clear_requested: false, ..old(self)@ }),
    {
        let asked = self.clear_requested;
        self.clear_requested = false;
        asked
    }

    /// The popup's rows for what is typed now.
    pub fn candidates(&self, offers: &Offers) -> (rows: Vec<crate::complete::Candidate>)
        ensures
            candidates_view(rows@) == popup(self@, *offers),
    {
        if self.composer.recalling() {
            let rows: Vec<crate::complete::Candidate> = Vec::new();
            proof {
                assert(candidates_view(rows@) =~= Seq::<SCandidate>::empty());
            }
            return rows;
        }
        let text = self.composer.text();
        match &self.dismissed {
            Some(d) => {
                if same_text(d.as_str(), text.as_str()) {
                    let rows: Vec<crate::complete::Candidate> = Vec::new();
                    proof {
                        assert(candidates_view(rows@) =~= Seq::<SCandidate>::empty());
                    }
                    return rows;
                }
            },
            None => {},
        }
        candidates(text.as_str(), offers)
    }

    /// The line of the row Enter or Tab takes, if the popup has rows.
    fn chosen_line(&self, offers: &Offers) -> (line: Option<String>)
        ensures
            match chosen_row(popup(self@, *offers), self@.selected) {
                Some(row) => line matches Some(l) && l@ == row.2,
                None => line is None,
            },
    {
        let rows = self.candidates(offers);
        proof {
            assert(rows@.len() == candidates_view(rows@).len());
        }
        if rows.len() == 0 {
            return None;
        }
        let last = rows.len() - 1;
        let i = if self.selected < last { self.selected } else { last };
        proof {
            assert(candidates_view(rows@)[i as int] == crate::complete::candidate_view(rows@[i as int]));
        }
        Some(rows[i].line.clone())
    }

    /// Types `text` into the line; the popup starts again from its first row.
    fn type_text(&mut self, text: &str)
        requires
            old(self).ok(),
            old(self)@.composer.text.len() + text@.len() <= usize::MAX,
        ensures
            final(self).ok(),
            final(self)@ == edited(old(self)@, after_insert(old(self)@.composer, text@)),
    {
        self.composer.insert(text);
        self.selected = 0;
    }

    /// Runs what is in the line, as [`spec_submit`] says.
    fn submit(&mut self, vocab: &Vocabulary) -> (r: Reaction)
        requires
            old(self).ok(),
        ensures
            final(self).ok(),
            reaction_view(r) == spec_submit(old(self)@, *vocab).1,
            reached(final(self)@, spec_submit(old(self)@, *vocab).0, spec_submit(old(self)@, *vocab).2),
    {
        let taken = self.composer.take();
        self.selected = 0;
        self.dismissed = None;
        let line = trim(taken.as_str());
        if line.len() == 0 {
            return Reaction::Nothing;
        }
        let line = string_of(line.as_slice());
        let ghost before = self.transcript@;
        self.transcript.follow();
        let mut doc = Doc::new();
        doc.line(vec![span(line.as_str(), Tone::body().bold())]);
        self.transcript.push(Entry::new(Kind::Command, doc));
        proof {
            assert(self.transcript@.cells.drop_last() =~= following(before).cells);
        }
        let parsed = parse(line.as_str(), vocab);
        match parsed {
            Ok(command) => Reaction::Run(command),
            Err(error) => Reaction::Refused(error),
        }
    }

    /// Enter, as [`spec_enter`] says.
    fn enter(&mut self, offers: &Offers, vocab: &Vocabulary) -> (r: Reaction)
        requires
            old(self).ok(),
        ensures
            final(self).ok(),
            reaction_view(r) == spec_enter(old(self)@, *offers, *vocab).1,
            reached(final(self)@, spec_enter(old(self)@, *offers, *vocab).0, spec_enter(old(self)@, *offers, *vocab).2),
    {
        match self.chosen_line(offers) {
            Some(line) => {
                let text = self.composer.text();
                if !same_text(line.as_str(), text.as_str()) {
                    let parsed = parse(line.as_str(), vocab);
                    self.composer.set(line);
                    self.selected = 0;
                    if parsed.is_err() {
                        return Reaction::Nothing;
                    }
                }
                self.submit(vocab)
            },
            None => self.submit(vocab),
        }
    }

    /// Tab, as [`spec_tab`] says.
    fn tab(&mut self, offers: &Offers)
        requires
            old(self).ok(),
        ensures
            final(self).ok(),
            final(self)@ == spec_tab(old(self)@, *offers),
    {
        match self.chosen_line(offers) {
            Some(line) => {
                self.composer.set(line);
                self.selected = 0;
            },
            None => {},
        }
    }

    /// ↑ or ↓, as [`spec_arrow`] says.
    fn arrow(&mut self, offers: &Offers, up: bool)
        requires
            old(self).ok(),
        ensures
            final(self).ok(),
            final(self)@ == spec_arrow(old(self)@, *offers, up),
    {
        let rows = self.candidates(offers);
        proof {
            assert(rows@.len() == candidates_view(rows@).len());
        }
        let count = rows.len();
        if count > 0 {
            let s = self.selected;
            let next = if up {
                if s % count == 0 { count - 1 } else { s % count - 1 }
            } else {
                if s % count == count - 1 { 0 } else { s % count + 1 }
            };
            proof {
                let c = count as int;
                let si = s as int;
                let q = si / c;
                let r = si % c;
                assert(si == q * c + r && 0 <= r < c) by (nonlinear_arith)
                    requires c > 0, q == si / c, r == si % c;
                if up {
                    assert((si - 1) % c == next as int) by (nonlinear_arith)
                        requires
                            c > 0, si == q * c + r, 0 <= r < c,
                            next as int == if r == 0 { c - 1 } else { r - 1 },
                    {
                        if r == 0 {
                            assert(si - 1 == (q - 1) * c + (c - 1));
                        } else {
                            assert(si - 1 == q * c + (r - 1));
                        }
                    }
                } else {
                    assert((si + 1) % c == next as int) by (nonlinear_arith)
                        requires
                            c > 0, si == q * c + r, 0 <= r < c,
                            next as int == if r == c - 1 { 0 } else { r + 1 },
                    {
                        if r == c - 1 {
                            assert(si + 1 == (q + 1) * c + 0);
                        } else {
                            assert(si + 1 == q * c + (r + 1));
                        }
                    }
                }
            }
            self.selected = next;
        } else if up {
            self.composer.up();
        } else {
            self.composer.down();
        }
    }

    /// Esc, as [`spec_escape`] says.
    fn escape(&mut self, offers: &Offers) -> (r: Reaction)
        requires
            old(self).ok(),
        ensures
            final(self).ok(),
            final(self)@ == spec_escape(old(self)@, *offers).0,
            reaction_view(r) == spec_escape(old(self)@, *offers).1,
    {
        let rows = self.candidates(offers);
        proof {
            assert(rows@.len() == candidates_view(rows@).len());
        }
        if rows.len() > 0 {
            self.dismissed = Some(self.composer.text());
            Reaction::Nothing
        } else {
            Reaction::Stop
        }
    }

    /// ctrl+c, as [`spec_ctrl_c`] says.
    fn ctrl_c(&mut self, armed: bool) -> (r: Reaction)
        requires
            old(self).ok(),
        ensures
            final(self).ok(),
            final(self)@ == spec_ctrl_c(old(self)@, armed).0,
            reaction_view(r) == spec_ctrl_c(old(self)@, armed).1,
    {
        if self.pager.is_some() {
            self.pager = None;
            return Reaction::Nothing;
        }
        if !self.composer.is_empty() {
            self.composer.clear();
            self.selected = 0;
            return Reaction::Disarm;
        }
        if armed {
            Reaction::Quit
        } else {
            Reaction::ArmQuit
        }
    }

    /// Control with another key, as [`spec_control`] says.
    fn control_key(&mut self, code: KeyCode, can_reopen: bool) -> (r: Reaction)
        requires
            old(self).ok(),
            old(self)@.composer.text.len() + 1 <= usize::MAX,
        ensures
            final(self).ok(),
            final(self)@ == spec_control(old(self)@, code, can_reopen).0,
            reaction_view(r) == spec_control(old(self)@, code, can_reopen).1,
    {
        match code {
            KeyCode::Char(c) => {
                if c == 'j' {
                    let newline = char_string('\n');
                    self.type_text(newline.as_str());
                    Reaction::Nothing
                } else if c == 'o' {
                    if can_reopen {
                        Reaction::Reopen
                    } else {
                        Reaction::NothingToReopen
                    }
                } else if c == 'l' {
                    self.clear_requested = true;
                    Reaction::Nothing
                } else {
                    Reaction::Nothing
                }
            },
            _ => Reaction::Nothing,
        }
    }

    /// A key without Control while no page is open, as [`spec_plain_key`] says.
    fn plain_key(&mut self, key: KeyPress, offers: &Offers, vocab: &Vocabulary) -> (r: Reaction)
        requires
            old(self).ok(),
            old(self)@.composer.text.len() + 1 <= usize::MAX,
        ensures
            final(self).ok(),
            reaction_view(r) == spec_plain_key(old(self)@, key, *offers, *vocab).1,
            reached(final(self)@, spec_plain_key(old(self)@, key, *offers, *vocab).0, spec_plain_key(old(self)@, key, *offers, *vocab).2),
    {
        let height = self.transcript.height();
        let page: usize = if height > 2 { height - 2 } else { 1 };
        match key.code {
            KeyCode::Enter => {
                if key.shift || key.alt {
                    let newline = char_string('\n');
                    self.type_text(newline.as_str());
                    Reaction::Nothing
                } else {
                    self.enter(offers, vocab)
                }
            },
            KeyCode::Tab => {
                self.tab(offers);
                Reaction::Nothing
            },
            KeyCode::Up => {
                self.arrow(offers, true);
                Reaction::Nothing
            },
            KeyCode::Down => {
                self.arrow(offers, false);
                Reaction::Nothing
            },
            KeyCode::Esc => self.escape(offers),
            KeyCode::PageUp => {
                self.transcript.scroll_up(page);
                Reaction::Nothing
            },
            KeyCode::PageDown => {
                self.transcript.scroll_down(page);
                Reaction::Nothing
            },
            KeyCode::Left => {
                self.composer.left();
                Reaction::Nothing
            },
            KeyCode::Right => {
                self.composer.right();
                Reaction::Nothing
            },
            KeyCode::Home => {
                self.composer.home();
                Reaction::Nothing
            },
            KeyCode::End => {
                self.composer.end();
                Reaction::Nothing
            },
            KeyCode::Backspace => {
                self.composer.backspace();
                self.selected = 0;
                Reaction::Nothing
            },
            KeyCode::Delete => {
                self.composer.delete();
                self.selected = 0;
                Reaction::Nothing
            },
            KeyCode::Char(c) => {
                if c == '?' && self.composer.is_empty() {
                    self.shortcuts = true;
                } else if !key.alt {
                    let typed = char_string(c);
                    self.type_text(typed.as_str());
                }
                Reaction::Nothing
            },
            KeyCode::Other => Reaction::Nothing,
        }
    }

    /// Handles one key press, as [`spec_key`] says.
    pub fn key(&mut self, key: KeyPress, armed: bool, can_reopen: bool, offers: &Offers, vocab: &Vocabulary) -> (r: Reaction)
        requires
            old(self).ok(),
            old(self)@.composer.text.len() + 1 <= usize::MAX,
        ensures
            final(self).ok(),
            reaction_view(r) == spec_key(old(self)@, key, armed, can_reopen, *offers, *vocab).1,
            reached(final(self)@, spec_key(old(self)@, key, armed, can_reopen, *offers, *vocab).0, spec_key(old(self)@, key, armed, can_reopen, *offers, *vocab).2),
    {
        if self.shortcuts {
            self.shortcuts = false;
            return Reaction::Nothing;
        }
        if key.ctrl && key.code == KeyCode::Char('c') {
            return self.ctrl_c(armed);
        }
        if self.pager.is_some() {
            let mut page = self.pager.take().unwrap();
            if page.key(key) {
                self.pager = Some(page);
            }
            return Reaction::Nothing;
        }
        if key.ctrl {
            return self.control_key(key.code, can_reopen);
        }
        self.plain_key(key, offers, vocab)
    }

    /// Handles one event, as [`spec_event`] says.
    pub fn handle_event(&mut self, event: Input, armed: bool, can_reopen: bool, offers: &Offers, vocab: &Vocabulary) -> (r: Reaction)
        requires
            old(self).ok(),
            old(self)@.composer.text.len() + event_room(event) <= usize::MAX,
        ensures
            final(self).ok(),
            reaction_view(r) == spec_event(old(self)@, event, armed, can_reopen, *offers, *vocab).1,
            reached(final(self)@, spec_event(old(self)@, event, armed, can_reopen, *offers, *vocab).0, spec_event(old(self)@, event, armed, can_reopen, *offers, *vocab).2),
    {
        match event {
            Input::Key(key) => self.key(key, armed, can_reopen, offers, vocab),
            Input::WheelUp => {
                if self.pager.is_some() {
                    let mut page = self.pager.take().unwrap();
                    page.scroll(-3);
                    self.pager = Some(page);
                } else {
                    self.transcript.scroll_up(WHEEL_ROWS);
                }
                Reaction::Nothing
            },
            Input::WheelDown => {
                if self.pager.is_some() {
                    let mut page = self.pager.take().unwrap();
                    page.scroll(3);
                    self.pager = Some(page);
                } else {
                    self.transcript.scroll_down(WHEEL_ROWS);
                }
                Reaction::Nothing
            },
            Input::Paste(text) => {
                if self.pager.is_none() {
                    let text = unify_newlines(text.as_str());
                    proof {
                        unix_newlines_shorter(event_text(event));
                    }
                    self.type_text(text.as_str());
                }
                Reaction::Nothing
            },
        }
    }
}

/// The text an event carries; empty for all but pasted text.
pub open spec fn event_text(event: Input) -> Seq<char> {
    match event {
        Input::Paste(text) => text@,
        _ => Seq::empty(),
    }
}

/// Making line breaks `\n` never lengthens a text.
pub proof fn unix_newlines_shorter(text: Seq<char>)
    ensures
        unix_newlines(text).len() <= text.len(),
    decreases text.len(),
{
    if text.len() == 0 {
    } else if text[0] == '\r' && text.len() > 1 && text[1] == '\n' {
        unix_newlines_shorter(text.subrange(2, text.len() as int));
    } else {
        unix_newlines_shorter(text.drop_first());
    }
}

/// Esc closes the popup on the text it was pressed on, and typing brings it back: after Esc with
/// a popup open there are no rows; after a character is then typed, the rows are the candidates
/// for the new text again.
pub proof fn a_closed_popup_reopens_when_the_line_changes(s: ScreenView, offers: Offers, c: char)
    requires
        composer_ok(s.composer),
        popup(s, offers).len() > 0,
    ensures
        ({
            let closed = spec_escape(s, offers).0;
            let typed = edited(closed, after_insert(closed.composer, seq![c]));
            &&& popup(closed, offers).len() == 0
            &&& popup(typed, offers) == spec_candidates(typed.composer.text, offers)
        }),
{
    let closed = spec_escape(s, offers).0;
    let typed = edited(closed, after_insert(closed.composer, seq![c]));
    let t = s.composer.text;
    let k = s.composer.cursor;
    assert(typed.composer.text == t.take(k) + seq![c] + t.skip(k));
    assert(typed.composer.text.len() == t.len() + 1);
}

/// A line that is entered comes back with ↑ on the empty line that follows, as it was typed.
pub proof fn an_entered_line_comes_back_with_up(s: ScreenView, offers: Offers, vocab: Vocabulary)
    requires
        composer_ok(s.composer),
        crate::composer::has_content(s.composer.text),
    ensures
        ({
            let after = spec_submit(s, vocab).0;
            spec_arrow(after, offers, true).composer.text == s.composer.text
        }),
{
    let after = spec_submit(s, vocab).0;
    assert(after.composer.text.len() == 0);
    assert(popup(after, offers).len() == 0);
    assert(!crate::composer::has_newline(after.composer.text.take(0)));
}

} // verus!
