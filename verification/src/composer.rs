//! The line being typed: editing, a cursor that moves by characters so multi-byte text is never
//! split, and command history.

use vstd::prelude::*;

use crate::strings::{chars_of, is_whitespace, string_of, white_space};
use crate::width::{char_columns, char_width};

verus! {

/// What a composer holds: the text, the cursor as a count of characters before it, the history
/// of commands run, which entry is being recalled, and what was typed before recalling started.
pub struct ComposerView {
    /// The text.
    pub text: Seq<char>,
    /// Characters before the cursor.
    pub cursor: int,
    /// Commands run, oldest first.
    pub history: Seq<Seq<char>>,
    /// The history entry on screen while recalling.
    pub recall: Option<int>,
    /// What was typed before recalling started, restored after the newest entry.
    pub draft: Seq<char>,
}

/// The composer's text and history.
#[derive(Debug)]
pub struct Composer {
    text: Vec<char>,
    cursor: usize,
    history: Vec<Vec<char>>,
    recall: Option<usize>,
    draft: Vec<char>,
}

/// The composer laid out in rows of a fixed width, with the cursor's row and column.
#[derive(Debug, PartialEq, Eq)]
pub struct Visual {
    /// The rows.
    pub rows: Vec<String>,
    /// The cursor's row and column.
    pub cursor: (usize, usize),
}

/// Whether a composer is consistent: the cursor inside the text, a recalled entry in the history.
pub open spec fn composer_ok(c: ComposerView) -> bool {
    &&& 0 <= c.cursor <= c.text.len()
    &&& match c.recall {
        Some(i) => 0 <= i < c.history.len(),
        None => true,
    }
}

/// Whether a text holds a line break.
pub open spec fn has_newline(text: Seq<char>) -> bool {
    exists|i: int| 0 <= i < text.len() && text[i] == '\n'
}

/// Whether a text holds anything but white space.
pub open spec fn has_content(text: Seq<char>) -> bool {
    exists|i: int| 0 <= i < text.len() && !white_space(text[i])
}

/// Where the line holding position `at` starts: just after the last line break before it.
pub open spec fn line_start(text: Seq<char>, at: int) -> int
    decreases at,
{
    if at <= 0 {
        0
    } else if text[at - 1] == '\n' {
        at
    } else {
        line_start(text, at - 1)
    }
}

/// Where the line holding position `at` ends: at the first line break from it, or the text's end.
pub open spec fn line_end(text: Seq<char>, at: int) -> int
    decreases text.len() - at,
{
    if at >= text.len() {
        text.len() as int
    } else if text[at] == '\n' {
        at
    } else {
        line_end(text, at + 1)
    }
}

/// The composer after typing `s` at the cursor.
pub open spec fn after_insert(c: ComposerView, s: Seq<char>) -> ComposerView {
    ComposerView {
        text: c.text.take(c.cursor) + s + c.text.skip(c.cursor),
        cursor: c.cursor + s.len(),
        recall: None,
        ..c
    }
}

/// The composer after Backspace: the character before the cursor goes, if there is one.
pub open spec fn after_backspace(c: ComposerView) -> ComposerView {
    if c.cursor > 0 {
        ComposerView { text: c.text.remove(c.cursor - 1), cursor: c.cursor - 1, recall: None, ..c }
    } else {
        c
    }
}

/// The composer after Delete: the character after the cursor goes, if there is one.
pub open spec fn after_delete(c: ComposerView) -> ComposerView {
    if c.cursor < c.text.len() {
        ComposerView { text: c.text.remove(c.cursor), recall: None, ..c }
    } else {
        c
    }
}

/// The composer after ←: the cursor one character back, if it can go.
pub open spec fn after_left(c: ComposerView) -> ComposerView {
    if c.cursor > 0 {
        ComposerView { cursor: c.cursor - 1, ..c }
    } else {
        c
    }
}

/// The composer after →: the cursor one character on, if it can go.
pub open spec fn after_right(c: ComposerView) -> ComposerView {
    if c.cursor < c.text.len() {
        ComposerView { cursor: c.cursor + 1, ..c }
    } else {
        c
    }
}

/// The composer with a new text and the cursor at its end.
pub open spec fn after_set(c: ComposerView, text: Seq<char>) -> ComposerView {
    ComposerView { text, cursor: text.len() as int, recall: None, ..c }
}

/// The composer showing history entry `i`.
pub open spec fn showing(c: ComposerView, i: int) -> ComposerView {
    ComposerView { text: c.history[i], cursor: c.history[i].len() as int, recall: Some(i), ..c }
}

/// The history after running `text`: it is remembered unless it is blank or repeats the newest.
pub open spec fn remembered(history: Seq<Seq<char>>, text: Seq<char>) -> Seq<Seq<char>> {
    if has_content(text) && !(history.len() > 0 && history.last() == text) {
        history.push(text)
    } else {
        history
    }
}

/// The composer after taking its text to run.
pub open spec fn after_take(c: ComposerView) -> ComposerView {
    ComposerView {
        text: Seq::empty(),
        cursor: 0,
        history: remembered(c.history, c.text),
        recall: None,
        draft: Seq::empty(),
    }
}

/// The cursor moved to the line above (`up`) or below, keeping its column where the line is long
/// enough; `None` when there is no line below.
pub open spec fn moved_line(text: Seq<char>, cursor: int, up: bool) -> Option<int> {
    let start = line_start(text, cursor);
    let column = cursor - start;
    let target = if up {
        Some(line_start(text, if start > 0 { start - 1 } else { 0 }))
    } else if line_end(text, cursor) < text.len() {
        Some(line_end(text, cursor) + 1)
    } else {
        None
    };
    match target {
        Some(t) => {
            let length = line_end(text, t) - t;
            Some(t + if column < length { column } else { length })
        },
        None => None,
    }
}

/// The composer after ↑: the line above in a multi-line text, otherwise the previous command.
pub open spec fn after_up(c: ComposerView) -> ComposerView {
    if has_newline(c.text.take(c.cursor)) {
        ComposerView { cursor: moved_line(c.text, c.cursor, true).unwrap(), ..c }
    } else {
        match c.recall {
            None => if c.history.len() == 0 {
                c
            } else {
                showing(ComposerView { draft: c.text, ..c }, c.history.len() - 1)
            },
            Some(i) => if i == 0 {
                c
            } else {
                showing(c, i - 1)
            },
        }
    }
}

/// The composer after ↓: the line below in a multi-line text, otherwise the next command, or
/// back to the draft after the newest.
pub open spec fn after_down(c: ComposerView) -> ComposerView {
    if has_newline(c.text.skip(c.cursor)) {
        match moved_line(c.text, c.cursor, false) {
            Some(at) => ComposerView { cursor: at, ..c },
            None => c,
        }
    } else {
        match c.recall {
            None => c,
            Some(i) => if i + 1 < c.history.len() {
                showing(c, i + 1)
            } else {
                after_set(ComposerView { draft: Seq::empty(), ..c }, c.draft)
            },
        }
    }
}

/// The layout of a composer's text while it is laid out character by character: finished rows,
/// the row being filled, the columns it uses, and where the cursor was placed.
pub struct VisualState {
    /// Finished rows.
    pub done: Seq<Seq<char>>,
    /// The row being filled.
    pub current: Seq<char>,
    /// Columns the row being filled uses.
    pub used: int,
    /// The cursor's row.
    pub row: int,
    /// The cursor's column.
    pub column: int,
}

/// The columns a character takes in the composer; control characters take none.
pub open spec fn composer_columns(c: char) -> int {
    match char_columns(c) {
        Some(n) => n as int,
        None => 0,
    }
}

/// One character laid out: a line break starts a new row; a character that does not fit starts
/// one too. The cursor is placed where the character at its position goes.
pub open spec fn visual_step(st: VisualState, i: int, c: char, cursor: int, width: int) -> VisualState {
    let st1 = if i == cursor {
        VisualState { row: st.done.len() as int, column: st.used, ..st }
    } else {
        st
    };
    if c == '\n' {
        VisualState { done: st1.done.push(st1.current), current: Seq::empty(), used: 0, ..st1 }
    } else {
        let cols = composer_columns(c);
        let st2 = if st1.used + cols > width {
            let broken = VisualState { done: st1.done.push(st1.current), current: Seq::empty(), used: 0, ..st1 };
            if i == cursor {
                VisualState { row: broken.done.len() as int, column: 0, ..broken }
            } else {
                broken
            }
        } else {
            st1
        };
        VisualState { current: st2.current.push(c), used: st2.used + cols, ..st2 }
    }
}

/// The layout after the first `k` characters.
pub open spec fn visual_run(text: Seq<char>, k: int, cursor: int, width: int) -> VisualState
    decreases k,
{
    if k <= 0 {
        VisualState { done: Seq::empty(), current: Seq::empty(), used: 0, row: 0, column: 0 }
    } else {
        visual_step(visual_run(text, k - 1, cursor, width), k - 1, text[k - 1], cursor, width)
    }
}

/// The rows of a text laid out `width` columns wide (at least one), long lines wrapped by
/// character, and the cursor's row and column; a cursor at the end of a full row goes to a new
/// empty row.
pub open spec fn spec_visual(text: Seq<char>, cursor: int, width: int) -> (Seq<Seq<char>>, (int, int)) {
    let w = if width < 1 {
        1
    } else {
        width
    };
    let st = visual_run(text, text.len() as int, cursor, w);
    if cursor == text.len() {
        if st.used >= w {
            (st.done.push(st.current).push(Seq::empty()), ((st.done.len() + 1) as int, 0))
        } else {
            (st.done.push(st.current), (st.done.len() as int, st.used))
        }
    } else {
        (st.done.push(st.current), (st.row, st.column))
    }
}

/// A copy of some characters.
fn copy_chars(chars: &Vec<char>) -> (copy: Vec<char>)
    ensures
        copy@ == chars@,
{
    let mut copy: Vec<char> = Vec::new();
    let mut i: usize = 0;
    while i < chars.len()
        invariant
            i <= chars@.len(),
            copy@ == chars@.take(i as int),
        decreases chars@.len() - i,
    {
        copy.push(chars[i]);
        i = i + 1;
        proof {
            assert(copy@ =~= chars@.take(i as int));
        }
    }
    proof {
        assert(chars@.take(chars@.len() as int) =~= chars@);
    }
    copy
}

/// Whether two runs of characters are the same.
fn same_chars(a: &Vec<char>, b: &Vec<char>) -> (same: bool)
    ensures
        same == (a@ == b@),
{
    if a.len() != b.len() {
        return false;
    }
    let mut i: usize = 0;
    while i < a.len()
        invariant
            a@.len() == b@.len(),
            i <= a@.len(),
            forall|j: int| 0 <= j < i ==> a@[j] == b@[j],
        decreases a@.len() - i,
    {
        if a[i] != b[i] {
            return false;
        }
        i = i + 1;
    }
    proof {
        assert(a@ =~= b@);
    }
    true
}

/// Whether the characters from `a` up to `b` hold a line break.
fn newline_between(text: &Vec<char>, a: usize, b: usize) -> (found: bool)
    requires
        a <= b <= text@.len(),
    ensures
        found == has_newline(text@.subrange(a as int, b as int)),
{
    let mut i = a;
    while i < b
        invariant
            a <= i <= b,
            b <= text@.len(),
            forall|j: int| a <= j < i ==> text@[j] != '\n',
        decreases b - i,
    {
        if text[i] == '\n' {
            proof {
                assert(text@.subrange(a as int, b as int)[i - a] == '\n');
            }
            return true;
        }
        i = i + 1;
    }
    proof {
        assert forall|j: int| 0 <= j < text@.subrange(a as int, b as int).len() implies text@.subrange(a as int, b as int)[j] != '\n' by {
            assert(text@.subrange(a as int, b as int)[j] == text@[a + j]);
        }
    }
    false
}

impl View for Composer {
    type V = ComposerView;

    closed spec fn view(&self) -> ComposerView {
        ComposerView {
            text: self.text@,
            cursor: self.cursor as int,
            history: self.history@.map_values(|entry: Vec<char>| entry@),
            recall: match self.recall {
                Some(i) => Some(i as int),
                None => None,
            },
            draft: self.draft@,
        }
    }
}

impl Default for Composer {
    fn default() -> (composer: Composer)
        ensures
            composer@ == (ComposerView { text: Seq::empty(), cursor: 0, history: Seq::empty(), recall: None, draft: Seq::empty() }),
            composer_ok(composer@),
    {
        let composer = Composer { text: Vec::new(), cursor: 0, history: Vec::new(), recall: None, draft: Vec::new() };
        proof {
            assert(composer@.history =~= Seq::<Seq<char>>::empty());
        }
        composer
    }
}

impl Composer {
    /// Whether the composer is consistent: the cursor inside the text, a recalled entry in the
    /// history.
    pub fn consistent(&self) -> (ok: bool)
        ensures
            ok == composer_ok(self@),
    {
        let recall_ok = match self.recall {
            Some(i) => i < self.history.len(),
            None => true,
        };
        self.cursor <= self.text.len() && recall_ok
    }

    /// The text being typed.
    pub fn text(&self) -> (text: String)
        ensures
            text@ == self@.text,
    {
        string_of(self.text.as_slice())
    }

    /// Whether nothing is typed.
    pub fn is_empty(&self) -> (empty: bool)
        ensures
            empty == (self@.text.len() == 0),
    {
        self.text.len() == 0
    }

    /// Whether the text on screen is a recalled command the reader has not edited.
    pub fn recalling(&self) -> (recalling: bool)
        ensures
            recalling == (self@.recall is Some),
    {
        self.recall.is_some()
    }

    /// Types `text` at the cursor.
    pub fn insert(&mut self, text: &str)
        requires
            composer_ok(old(self)@),
            old(self)@.text.len() + text@.len() <= usize::MAX,
        ensures
            final(self)@ == after_insert(old(self)@, text@),
            composer_ok(final(self)@),
    {
        let chars = chars_of(text);
        let ghost before = self.text@;
        let mut k: usize = 0;
        while k < chars.len()
            invariant
                k <= chars@.len(),
                chars@ == text@,
                self.cursor <= before.len(),
                self.cursor == old(self).cursor,
                self.history == old(self).history,
                self.draft == old(self).draft,
                before == old(self).text@,
                self.text@ == before.take(self.cursor as int) + chars@.take(k as int) + before.skip(self.cursor as int),
                before.len() + chars@.len() <= usize::MAX,
            decreases chars@.len() - k,
        {
            self.text.insert(self.cursor + k, chars[k]);
            k = k + 1;
            proof {
                assert(self.text@ =~= before.take(self.cursor as int) + chars@.take(k as int) + before.skip(self.cursor as int));
            }
        }
        proof {
            assert(chars@.take(chars@.len() as int) =~= chars@);
        }
        self.cursor = self.cursor + chars.len();
        self.recall = None;
    }

    /// Backspace: removes the character before the cursor.
    pub fn backspace(&mut self)
        requires
            composer_ok(old(self)@),
        ensures
            final(self)@ == after_backspace(old(self)@),
            composer_ok(final(self)@),
    {
        if self.cursor > 0 {
            self.text.remove(self.cursor - 1);
            self.cursor = self.cursor - 1;
            self.recall = None;
        }
    }

    /// Delete: removes the character after the cursor.
    pub fn delete(&mut self)
        requires
            composer_ok(old(self)@),
        ensures
            final(self)@ == after_delete(old(self)@),
            composer_ok(final(self)@),
    {
        if self.cursor < self.text.len() {
            self.text.remove(self.cursor);
            self.recall = None;
        }
    }

    /// ←: one character back.
    pub fn left(&mut self)
        requires
            composer_ok(old(self)@),
        ensures
            final(self)@ == after_left(old(self)@),
            composer_ok(final(self)@),
    {
        if self.cursor > 0 {
            self.cursor = self.cursor - 1;
        }
    }

    /// →: one character on.
    pub fn right(&mut self)
        requires
            composer_ok(old(self)@),
        ensures
            final(self)@ == after_right(old(self)@),
            composer_ok(final(self)@),
    {
        if self.cursor < self.text.len() {
            self.cursor = self.cursor + 1;
        }
    }

    /// Where the line holding `at` starts.
    fn start_of_line(&self, at: usize) -> (start: usize)
        requires
            at <= self.text@.len(),
        ensures
            start == line_start(self.text@, at as int),
            start <= at,
    {
        let mut i = at;
        while i > 0 && self.text[i - 1] != '\n'
            invariant
                i <= at,
                at <= self.text@.len(),
                line_start(self.text@, i as int) == line_start(self.text@, at as int),
            decreases i,
        {
            i = i - 1;
        }
        i
    }

    /// Where the line holding `at` ends.
    fn end_of_line(&self, at: usize) -> (end: usize)
        requires
            at <= self.text@.len(),
        ensures
            end == line_end(self.text@, at as int),
            at <= end <= self.text@.len(),
    {
        let mut i = at;
        while i < self.text.len() && self.text[i] != '\n'
            invariant
                at <= i <= self.text@.len(),
                line_end(self.text@, i as int) == line_end(self.text@, at as int),
            decreases self.text@.len() - i,
        {
            i = i + 1;
        }
        i
    }

    /// Home: the start of the current line.
    pub fn home(&mut self)
        requires
            composer_ok(old(self)@),
        ensures
            final(self)@ == (ComposerView { cursor: line_start(old(self)@.text, old(self)@.cursor), ..old(self)@ }),
            composer_ok(final(self)@),
    {
        self.cursor = self.start_of_line(self.cursor);
    }

    /// End: the end of the current line.
    pub fn end(&mut self)
        requires
            composer_ok(old(self)@),
        ensures
            final(self)@ == (ComposerView { cursor: line_end(old(self)@.text, old(self)@.cursor), ..old(self)@ }),
            composer_ok(final(self)@),
    {
        self.cursor = self.end_of_line(self.cursor);
    }

    /// Empties the text.
    pub fn clear(&mut self)
        requires
            composer_ok(old(self)@),
        ensures
            final(self)@ == (ComposerView { text: Seq::empty(), cursor: 0, recall: None, ..old(self)@ }),
            composer_ok(final(self)@),
    {
        self.text = Vec::new();
        self.cursor = 0;
        self.recall = None;
    }

    /// Replaces the text and puts the cursor at the end.
    pub fn set(&mut self, text: String)
        requires
            composer_ok(old(self)@),
        ensures
            final(self)@ == after_set(old(self)@, text@),
            composer_ok(final(self)@),
    {
        let chars = chars_of(text.as_str());
        self.cursor = chars.len();
        self.text = chars;
        self.recall = None;
    }

    /// Takes the text for running and remembers it, unless it is blank or repeats the previous
    /// command.
    pub fn take(&mut self) -> (text: String)
        requires
            composer_ok(old(self)@),
        ensures
            text@ == old(self)@.text,
            final(self)@ == after_take(old(self)@),
            composer_ok(final(self)@),
    {
        let mut taken: Vec<char> = Vec::new();
        std::mem::swap(&mut taken, &mut self.text);
        self.cursor = 0;
        self.recall = None;
        self.draft = Vec::new();
        let mut content = false;
        let mut i: usize = 0;
        while i < taken.len()
            invariant
                i <= taken@.len(),
                content == exists|j: int| 0 <= j < i && !white_space(taken@[j]),
            decreases taken@.len() - i,
        {
            if !is_whitespace(taken[i]) {
                content = true;
            }
            i = i + 1;
        }
        let n = self.history.len();
        let repeats = n > 0 && same_chars(&self.history[n - 1], &taken);
        let ghost old_history = self.history@.map_values(|entry: Vec<char>| entry@);
        proof {
            if n > 0 {
                assert(old_history.last() == self.history@[n - 1]@);
            }
        }
        if content && !repeats {
            self.history.push(copy_chars(&taken));
            proof {
                assert(self.history@.map_values(|entry: Vec<char>| entry@) =~= old_history.push(taken@));
            }
        }
        string_of(taken.as_slice())
    }

    /// Shows history entry `index`.
    fn show_history(&mut self, index: usize)
        requires
            index < old(self).history@.len(),
        ensures
            final(self)@ == showing(old(self)@, index as int),
    {
        self.text = copy_chars(&self.history[index]);
        self.cursor = self.text.len();
        self.recall = Some(index);
    }

    /// Moves the cursor to the line above or below, keeping its column where it can.
    fn move_line(&mut self, up: bool)
        requires
            composer_ok(old(self)@),
        ensures
            final(self)@ == match moved_line(old(self)@.text, old(self)@.cursor, up) {
                Some(at) => ComposerView { cursor: at, ..old(self)@ },
                None => old(self)@,
            },
            composer_ok(final(self)@),
    {
        let start = self.start_of_line(self.cursor);
        let column = self.cursor - start;
        let target = if up {
            let previous_end = if start > 0 {
                start - 1
            } else {
                0
            };
            self.start_of_line(previous_end)
        } else {
            let end = self.end_of_line(self.cursor);
            if end < self.text.len() {
                end + 1
            } else {
                return;
            }
        };
        let length = self.end_of_line(target) - target;
        self.cursor = target + if column < length {
            column
        } else {
            length
        };
    }

    /// ↑: the previous line of a multi-line text, otherwise the previous command.
    pub fn up(&mut self)
        requires
            composer_ok(old(self)@),
        ensures
            final(self)@ == after_up(old(self)@),
            composer_ok(final(self)@),
    {
        proof {
            assert(self.text@.subrange(0, self.cursor as int) =~= self.text@.take(self.cursor as int));
        }
        if newline_between(&self.text, 0, self.cursor) {
            proof {
                line_start_found(self.text@, self.cursor as int);
            }
            self.move_line(true);
            return;
        }
        match self.recall {
            None => {
                if self.history.len() == 0 {
                    return;
                }
                self.draft = copy_chars(&self.text);
                self.show_history(self.history.len() - 1);
            },
            Some(index) => {
                if index == 0 {
                    return;
                }
                self.show_history(index - 1);
            },
        }
    }

    /// ↓: the next line of a multi-line text, otherwise the next command or back to the draft.
    pub fn down(&mut self)
        requires
            composer_ok(old(self)@),
        ensures
            final(self)@ == after_down(old(self)@),
            composer_ok(final(self)@),
    {
        proof {
            assert(self.text@.subrange(self.cursor as int, self.text@.len() as int) =~= self.text@.skip(self.cursor as int));
        }
        if newline_between(&self.text, self.cursor, self.text.len()) {
            self.move_line(false);
            return;
        }
        match self.recall {
            None => {},
            Some(index) => {
                if index < self.history.len() - 1 {
                    self.show_history(index + 1);
                } else {
                    let mut draft: Vec<char> = Vec::new();
                    std::mem::swap(&mut draft, &mut self.draft);
                    self.cursor = draft.len();
                    self.text = draft;
                    self.recall = None;
                }
            },
        }
    }
    /// Lays the text out in rows of `width` columns, wrapping long lines by character.
    pub fn visual(&self, width: usize) -> (visual: Visual)
        requires
            composer_ok(self@),
        ensures
            visual.rows@.map_values(|row: String| row@) == spec_visual(self@.text, self@.cursor, width as int).0,
            (visual.cursor.0 as int, visual.cursor.1 as int) == spec_visual(self@.text, self@.cursor, width as int).1,
    {
        let width = if width < 1 {
            1
        } else {
            width
        };
        let ghost text = self.text@;
        let ghost cursor = self.cursor as int;
        let mut done: Vec<String> = Vec::new();
        let mut current: Vec<char> = Vec::new();
        let mut used: usize = 0;
        let mut row: usize = 0;
        let mut column: usize = 0;
        let mut i: usize = 0;
        while i < self.text.len()
            invariant
                i <= text.len(),
                text == self.text@,
                cursor == self.cursor as int,
                width >= 1,
                done@.len() <= i,
                row <= i,
                column <= width + 3,
                used <= width + 3,
                done@.map_values(|r: String| r@) == visual_run(text, i as int, cursor, width as int).done,
                current@ == visual_run(text, i as int, cursor, width as int).current,
                used == visual_run(text, i as int, cursor, width as int).used,
                row == visual_run(text, i as int, cursor, width as int).row,
                column == visual_run(text, i as int, cursor, width as int).column,
            decreases text.len() - i,
        {
            let c = self.text[i];
            let ghost before = done@.map_values(|r: String| r@);
            if i == self.cursor {
                row = done.len();
                column = used;
            }
            if c == '\n' {
                done.push(string_of(current.as_slice()));
                current = Vec::new();
                used = 0;
                proof {
                    assert(done@.map_values(|r: String| r@) =~= before.push(visual_run(text, i as int, cursor, width as int).current));
                }
            } else {
                let cols = match char_width(c) {
                    Some(n) => n,
                    None => 0,
                };
                if used > width || cols > width - used {
                    done.push(string_of(current.as_slice()));
                    current = Vec::new();
                    used = 0;
                    if i == self.cursor {
                        row = done.len();
                        column = 0;
                    }
                    proof {
                        assert(done@.map_values(|r: String| r@) =~= before.push(visual_run(text, i as int, cursor, width as int).current));
                    }
                }
                current.push(c);
                used = used + cols;
            }
            i = i + 1;
        }
        let ghost last = done@.map_values(|r: String| r@);
        let n = done.len();
        let mut rows = done;
        rows.push(string_of(current.as_slice()));
        proof {
            assert(rows@.map_values(|r: String| r@) =~= last.push(current@));
        }
        let mut place = (row, column);
        if self.cursor == self.text.len() {
            place = (n, used);
            if used >= width {
                let ghost pushed = rows@.map_values(|r: String| r@);
                rows.push(String::new());
                place = (rows.len() - 1, 0);
                proof {
                    assert(rows@.map_values(|r: String| r@) =~= pushed.push(Seq::empty()));
                }
            }
        }
        Visual { rows, cursor: place }
    }
}


/// The line holding `at` starts at `s` when `s` is the text's start or follows a line break, and
/// no line break lies between `s` and `at`.
proof fn line_start_is(text: Seq<char>, at: int, s: int)
    requires
        0 <= s <= at <= text.len(),
        s == 0 || text[s - 1] == '\n',
        forall|k: int| s <= k < at ==> text[k] != '\n',
    ensures
        line_start(text, at) == s,
    decreases at - s,
{
    if at > s {
        line_start_is(text, at - 1, s);
    }
}

/// The line holding `at` ends at `e` when `e` is the text's end or a line break, and no line
/// break lies between `at` and `e`.
proof fn line_end_is(text: Seq<char>, at: int, e: int)
    requires
        0 <= at <= e <= text.len(),
        e == text.len() || text[e] == '\n',
        forall|k: int| at <= k < e ==> text[k] != '\n',
    ensures
        line_end(text, at) == e,
    decreases e - at,
{
    if at < e {
        line_end_is(text, at + 1, e);
    }
}

/// ↓ in a text with a line below the cursor's: the text stays, and the cursor goes to the next
/// line, at the column it had (counted from its line's start `s`) or at that line's end when the
/// line is shorter. The cursor's line ends at the line break `e`; the next line ends at `f`.
pub proof fn down_keeps_the_column(c: ComposerView, s: int, e: int, f: int)
    requires
        composer_ok(c),
        0 <= s <= c.cursor <= e < f <= c.text.len(),
        s == 0 || c.text[s - 1] == '\n',
        forall|k: int| s <= k < c.cursor ==> c.text[k] != '\n',
        c.text[e] == '\n',
        forall|k: int| c.cursor <= k < e ==> c.text[k] != '\n',
        f == c.text.len() || c.text[f] == '\n',
        forall|k: int| e < k < f ==> c.text[k] != '\n',
    ensures
        after_down(c).text == c.text,
        after_down(c).history == c.history,
        after_down(c).cursor == e + 1 + if c.cursor - s < f - (e + 1) { c.cursor - s } else { f - (e + 1) },
{
    let text = c.text;
    line_start_is(text, c.cursor, s);
    line_end_is(text, c.cursor, e);
    line_end_is(text, e + 1, f);
    assert(c.text.skip(c.cursor)[e - c.cursor] == '\n');
}

/// ↑ in a text with a line above the cursor's: the text stays, and the cursor goes to the
/// previous line, which starts at `p`, at the column it had (counted from its line's start `s`)
/// or at that line's end when the line is shorter.
pub proof fn up_keeps_the_column(c: ComposerView, p: int, s: int)
    requires
        composer_ok(c),
        0 <= p < s <= c.cursor,
        p == 0 || c.text[p - 1] == '\n',
        forall|k: int| p <= k < s - 1 ==> c.text[k] != '\n',
        c.text[s - 1] == '\n',
        forall|k: int| s <= k < c.cursor ==> c.text[k] != '\n',
    ensures
        after_up(c).text == c.text,
        after_up(c).history == c.history,
        after_up(c).cursor == p + if c.cursor - s < s - 1 - p { c.cursor - s } else { s - 1 - p },
{
    let text = c.text;
    line_start_is(text, c.cursor, s);
    line_start_is(text, s - 1, p);
    line_end_is(text, p, s - 1);
    assert(c.text.take(c.cursor)[s - 1] == '\n');
}

/// A line break before the cursor means the line starts after one, so there is a line above.
proof fn line_start_found(text: Seq<char>, at: int)
    requires
        0 <= at <= text.len(),
        has_newline(text.take(at)),
    ensures
        line_start(text, at) > 0,
    decreases at,
{
    if at > 0 && text[at - 1] != '\n' {
        let i = choose|i: int| 0 <= i < text.take(at).len() && text.take(at)[i] == '\n';
        assert(text.take(at - 1)[i] == '\n');
        line_start_found(text, at - 1);
    }
}

/// Walking history: ↑ from a line being typed shows the newest command, and ↓ from there
/// brings back what was being typed, no longer recalling.
pub proof fn up_then_down_returns_to_the_draft(c: ComposerView)
    requires
        composer_ok(c),
        c.recall is None,
        c.history.len() > 0,
        !has_newline(c.text.take(c.cursor)),
    ensures
        after_up(c).text == c.history.last(),
        after_up(c).recall == Some(c.history.len() - 1),
        after_down(after_up(c)).text == c.text,
        after_down(after_up(c)).recall is None,
        after_down(after_up(c)).history == c.history,
{
    let up = after_up(c);
    assert(up.text.skip(up.cursor) =~= Seq::<char>::empty());
}

/// Backspace right after typing one character takes it away again.
pub proof fn insert_then_backspace(c: ComposerView, ch: char)
    requires
        composer_ok(c),
    ensures
        after_backspace(after_insert(c, seq![ch])) == (ComposerView { recall: None, ..c }),
{
    let typed = after_insert(c, seq![ch]);
    assert(typed.text.remove(c.cursor) =~= c.text);
}

/// Running the same text twice in a row remembers it once.
pub proof fn a_repeat_is_remembered_once(history: Seq<Seq<char>>, text: Seq<char>)
    ensures
        remembered(remembered(history, text), text) == remembered(history, text),
{
}

/// → undoes ←.
pub proof fn right_undoes_left(c: ComposerView)
    requires
        composer_ok(c),
        c.cursor > 0,
    ensures
        after_right(after_left(c)) == c,
{
}


/// Laying out never puts the cursor below the rows finished so far.
proof fn visual_row_bound(text: Seq<char>, k: int, cursor: int, width: int)
    ensures
        0 <= visual_run(text, k, cursor, width).row <= visual_run(text, k, cursor, width).done.len(),
        visual_run(text, k, cursor, width).column >= 0,
        visual_run(text, k, cursor, width).used >= 0,
    decreases k,
{
    if k > 0 {
        visual_row_bound(text, k - 1, cursor, width);
    }
}

/// However the text wraps, the cursor sits on one of its rows.
pub proof fn the_cursor_is_on_a_row(text: Seq<char>, cursor: int, width: int)
    requires
        0 <= cursor <= text.len(),
    ensures
        0 <= spec_visual(text, cursor, width).1.0 < spec_visual(text, cursor, width).0.len(),
{
    let w = if width < 1 { 1 } else { width };
    visual_row_bound(text, text.len() as int, cursor, w);
}

/// Rows put one after another.
pub open spec fn joined(rows: Seq<Seq<char>>) -> Seq<char>
    decreases rows.len(),
{
    if rows.len() == 0 {
        Seq::empty()
    } else {
        joined(rows.drop_last()) + rows.last()
    }
}

/// A text with its line breaks left out.
pub open spec fn without_breaks(text: Seq<char>) -> Seq<char>
    decreases text.len(),
{
    if text.len() == 0 {
        Seq::empty()
    } else if text.last() == '\n' {
        without_breaks(text.drop_last())
    } else {
        without_breaks(text.drop_last()).push(text.last())
    }
}

/// How many line breaks a text holds.
pub open spec fn line_breaks(text: Seq<char>) -> int
    decreases text.len(),
{
    if text.len() == 0 {
        0
    } else if text.last() == '\n' {
        line_breaks(text.drop_last()) + 1
    } else {
        line_breaks(text.drop_last())
    }
}

/// The columns a row of the composer takes.
pub open spec fn row_columns(row: Seq<char>) -> int
    decreases row.len(),
{
    if row.len() == 0 {
        0
    } else {
        row_columns(row.drop_last()) + composer_columns(row.last())
    }
}

/// Laying out the first `k` characters: the rows so far hold them without line breaks, there
/// is a finished row for each line break, the row being filled uses the columns counted for it,
/// and no row is wider than the width while no character is.
proof fn visual_run_shape(text: Seq<char>, k: int, cursor: int, width: int)
    requires
        0 <= k <= text.len(),
        1 <= width,
    ensures
        ({
            let st = visual_run(text, k, cursor, width);
            &&& joined(st.done) + st.current == without_breaks(text.take(k))
            &&& st.done.len() >= line_breaks(text.take(k))
            &&& st.used == row_columns(st.current)
            &&& (forall|j: int| 0 <= j < k ==> composer_columns(#[trigger] text[j]) <= width) ==> {
                &&& st.used <= width
                &&& forall|i: int| 0 <= i < st.done.len() ==> row_columns(#[trigger] st.done[i]) <= width
            }
        }),
    decreases k,
{
    if k == 0 {
        let st = visual_run(text, k, cursor, width);
        assert(joined(st.done) + st.current =~= without_breaks(text.take(k)));
    } else {
        visual_run_shape(text, k - 1, cursor, width);
        let prev = visual_run(text, k - 1, cursor, width);
        let st = visual_run(text, k, cursor, width);
        let c = text[k - 1];
        assert(text.take(k).drop_last() =~= text.take(k - 1));
        assert(text.take(k).last() == c);
        if c == '\n' {
            assert(st.done == prev.done.push(prev.current));
            assert(st.done.drop_last() =~= prev.done);
            assert(joined(st.done) + st.current =~= joined(prev.done) + prev.current);
            assert(st.current =~= Seq::<char>::empty());
            assert(row_columns(st.current) == 0);
        } else {
            let cols = composer_columns(c);
            if prev.used + cols > width {
                assert(st.done == prev.done.push(prev.current));
                assert(st.done.drop_last() =~= prev.done);
                assert(st.current =~= seq![c]);
                assert(seq![c].drop_last() =~= Seq::<char>::empty());
                assert(row_columns(seq![c]) == row_columns(Seq::<char>::empty()) + composer_columns(c));
                assert(st.used == cols);
                assert(joined(st.done) + st.current =~= (joined(prev.done) + prev.current).push(c));
            } else {
                assert(st.done == prev.done);
                assert(st.current == prev.current.push(c));
                assert(st.current.drop_last() =~= prev.current);
                assert(row_columns(st.current) == row_columns(prev.current) + cols);
                assert(st.used == prev.used + cols);
                assert(joined(st.done) + st.current =~= (joined(prev.done) + prev.current).push(c));
            }
        }
        assert(joined(st.done) + st.current == without_breaks(text.take(k)));
        assert(st.done.len() >= line_breaks(text.take(k)));
        assert(st.used == row_columns(st.current));
        if forall|j: int| 0 <= j < k ==> composer_columns(#[trigger] text[j]) <= width {
            assert(composer_columns(text[k - 1]) <= width);
            assert(st.used <= width);
            assert forall|i: int| 0 <= i < st.done.len() implies row_columns(#[trigger] st.done[i]) <= width by {
                if i < prev.done.len() {
                    assert(st.done[i] == prev.done[i]);
                }
            }
        }
    }
}

/// However a text is laid out, its rows hold its characters in order with the line breaks left
/// out, there is a row for each line at least, and where no character is wider than the width,
/// no row is either.
pub proof fn visual_rows_hold_the_text(text: Seq<char>, cursor: int, width: int)
    requires
        0 <= cursor <= text.len(),
    ensures
        joined(spec_visual(text, cursor, width).0) == without_breaks(text),
        spec_visual(text, cursor, width).0.len() >= line_breaks(text) + 1,
        ({
            let w = if width < 1 { 1 } else { width };
            let rows = spec_visual(text, cursor, width).0;
            (forall|j: int| 0 <= j < text.len() ==> composer_columns(#[trigger] text[j]) <= w) ==> forall|i: int|
                0 <= i < rows.len() ==> row_columns(#[trigger] rows[i]) <= w
        }),
{
    let w = if width < 1 { 1 } else { width };
    let st = visual_run(text, text.len() as int, cursor, w);
    visual_run_shape(text, text.len() as int, cursor, w);
    assert(text.take(text.len() as int) =~= text);
    let rows = spec_visual(text, cursor, width).0;
    let base = st.done.push(st.current);
    assert(base.drop_last() =~= st.done);
    if cursor == text.len() && st.used >= w {
        assert(rows == base.push(Seq::<char>::empty()));
        assert(rows.drop_last() =~= base);
        assert(joined(rows) =~= joined(base));
    }
    if forall|j: int| 0 <= j < text.len() ==> composer_columns(#[trigger] text[j]) <= w {
        assert forall|i: int| 0 <= i < rows.len() implies row_columns(#[trigger] rows[i]) <= w by {
            if i < st.done.len() {
                assert(rows[i] == st.done[i]);
            } else if i == st.done.len() {
                assert(rows[i] == st.current);
            } else {
                assert(rows[i] == Seq::<char>::empty());
            }
        }
    }
}

} // verus!
