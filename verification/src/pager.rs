//! The full-screen page view for long documents such as a system's catalog page.

use vstd::prelude::*;

use crate::doc::{body_tone, Doc};
use crate::layout::{doc_fits, doc_fits_check, doc_rows, spec_doc_rows};
use crate::look::Look;
use crate::markdown::{doc_view, events_doc, markdown_events, to_doc};
use crate::strings::{chars_of, string_of};
use crate::text::{row_view, rows_view, Row, SPiece};

verus! {

/// Widest a page's text runs, so lines stay readable on very wide terminals.
pub const MAX_TEXT_WIDTH: usize = 100;

/// Which key was pressed.
#[derive(Clone, Copy, Debug, PartialEq, Eq, Structural)]
pub enum KeyCode {
    /// A character key.
    Char(char),
    /// Enter.
    Enter,
    /// Tab.
    Tab,
    /// ←.
    Left,
    /// →.
    Right,
    /// Backspace.
    Backspace,
    /// Delete.
    Delete,
    /// ↑.
    Up,
    /// ↓.
    Down,
    /// Page Up.
    PageUp,
    /// Page Down.
    PageDown,
    /// Home.
    Home,
    /// End.
    End,
    /// Esc.
    Esc,
    /// Any other key.
    Other,
}

/// A key press: the key and which modifiers were held.
#[derive(Clone, Copy, Debug, PartialEq, Eq, Structural)]
pub struct KeyPress {
    /// The key.
    pub code: KeyCode,
    /// Whether Control was held.
    pub ctrl: bool,
    /// Whether Shift was held.
    pub shift: bool,
    /// Whether Alt was held.
    pub alt: bool,
}

/// An open page.
pub struct Pager {
    title: String,
    doc: Doc,
    top: usize,
    laid: Option<(usize, Vec<Row>)>,
    body_height: usize,
}

/// What a pager shows: its title, its document, the first row shown and the height of its body.
pub struct PagerView {
    /// The title.
    pub title: Seq<char>,
    /// The document.
    pub doc: Doc,
    /// The first row shown.
    pub top: int,
    /// Rows of text on screen.
    pub body_height: int,
}

/// The pager after scrolling by `rows`: never above the first row, never past the last number.
pub open spec fn scrolled(top: int, rows: int) -> int {
    let t = top + rows;
    if t < 0 {
        0
    } else if t > usize::MAX {
        usize::MAX as int
    } else {
        t
    }
}

/// The rows a page key moves by: a page is the body less one row, at least one.
pub open spec fn page_rows(body_height: int) -> int {
    if body_height > 1 {
        body_height - 1
    } else {
        1
    }
}

/// Where the pager's first row goes after a key, or `None` when the key closes it.
pub open spec fn after_key(top: int, body_height: int, key: KeyPress) -> Option<int> {
    let page = page_rows(body_height);
    match key.code {
        KeyCode::Char(c) => if c == 'q' {
            None
        } else if c == 'k' {
            Some(scrolled(top, -1))
        } else if c == 'j' {
            Some(scrolled(top, 1))
        } else if c == ' ' {
            Some(scrolled(top, page))
        } else if c == 'g' {
            Some(0)
        } else if c == 'G' {
            Some(usize::MAX as int)
        } else if c == 'c' && key.ctrl {
            None
        } else {
            Some(top)
        },
        KeyCode::Esc => None,
        KeyCode::Up => Some(scrolled(top, -1)),
        KeyCode::Down => Some(scrolled(top, 1)),
        KeyCode::PageUp => Some(scrolled(top, -page)),
        KeyCode::PageDown => Some(scrolled(top, page)),
        KeyCode::Home => Some(0),
        KeyCode::End => Some(usize::MAX as int),
        _ => Some(top),
    }
}

/// Page Down moves the first row down by a page, the body's height less one row (at least one
/// row), as Space does, and never past the last number; Page Up moves it up by as much, never
/// above the first row; ↓ and ↑ move it by one row. So a page key moves further than an arrow
/// whenever the body is taller than two rows.
pub proof fn page_keys_move_by_a_page(top: int, body_height: int, key: KeyPress)
    requires
        0 <= top <= usize::MAX,
    ensures
        ({
            let page = if body_height > 1 { body_height - 1 } else { 1 };
            &&& key.code == KeyCode::PageDown ==> after_key(top, body_height, key) == Some(
                if top + page > usize::MAX { usize::MAX as int } else { top + page },
            )
            &&& key.code == KeyCode::PageDown ==> after_key(top, body_height, key) == after_key(
                top,
                body_height,
                KeyPress { code: KeyCode::Char(' '), ctrl: false, shift: false, alt: false },
            )
            &&& key.code == KeyCode::PageUp ==> after_key(top, body_height, key) == Some(
                if top - page < 0 { 0 } else { top - page },
            )
            &&& key.code == KeyCode::Down ==> after_key(top, body_height, key) == Some(
                if top + 1 > usize::MAX { usize::MAX as int } else { top + 1 },
            )
            &&& key.code == KeyCode::Up ==> after_key(top, body_height, key) == Some(if top == 0 { 0 } else { top - 1 })
        }),
{
}

/// Page Down and then Page Up come back to the same first row, when neither stopped at an end.
pub proof fn page_down_then_up_returns(top: int, body_height: int)
    requires
        0 <= top,
        top + (if body_height > 1 { body_height - 1 } else { 1 }) <= usize::MAX,
    ensures
        after_key(top, body_height, KeyPress { code: KeyCode::PageDown, ctrl: false, shift: false, alt: false }) matches Some(t)
            && after_key(t, body_height, KeyPress { code: KeyCode::PageUp, ctrl: false, shift: false, alt: false }) == Some(top),
{
}

/// The body of a page on screen: the rows from `top`, at most `height`, each after two spaces.
pub open spec fn page_body(rows: Seq<Seq<SPiece>>, top: int, height: int) -> Seq<Seq<SPiece>> {
    let end = if top + height < rows.len() { top + height } else { rows.len() as int };
    let shown = if top < end { rows.subrange(top, end) } else { Seq::empty() };
    shown.map_values(|row: Seq<SPiece>| seq![(seq![' ', ' '], body_tone())] + row)
}

/// The width a page's text is laid out at in `columns`: four less, at least one, at most
/// [`MAX_TEXT_WIDTH`].
pub open spec fn text_width(columns: int) -> int {
    let w = if columns > 4 { columns - 4 } else { 0 };
    if w < 1 {
        1
    } else if w > MAX_TEXT_WIDTH {
        MAX_TEXT_WIDTH as int
    } else {
        w
    }
}

/// What a page shows on a screen: the body rows and how far down the page is, in percent.
pub struct PageFrame {
    /// The rows of text, each after two spaces.
    pub body: Vec<Row>,
    /// How far down the page the view is.
    pub percent: usize,
}

impl View for Pager {
    type V = PagerView;

    closed spec fn view(&self) -> PagerView {
        PagerView { title: self.title@, doc: self.doc, top: self.top as int, body_height: self.body_height as int }
    }
}

impl Pager {
    /// A pager at the top of the page written in markdown `source`.
    pub fn new(title: &str, source: &str) -> (pager: Pager)
        ensures
            pager@.title == title@,
            doc_view(pager@.doc) == events_doc(markdown_events(source@)),
            pager@.top == 0,
            pager@.body_height == 0,
    {
        Pager { title: string_of(chars_of(title).as_slice()), doc: to_doc(source), top: 0, laid: None, body_height: 0 }
    }

    /// The page's title.
    pub fn title(&self) -> (title: String)
        ensures
            title@ == self@.title,
    {
        string_of(chars_of(self.title.as_str()).as_slice())
    }

    /// Handles a key; returns `false` when the pager should close.
    pub fn key(&mut self, key: KeyPress) -> (open: bool)
        ensures
            open == (after_key(old(self)@.top, old(self)@.body_height, key) is Some),
            match after_key(old(self)@.top, old(self)@.body_height, key) {
                Some(t) => final(self)@ == (PagerView { top: t, ..old(self)@ }),
                None => final(self)@ == old(self)@,
            },
    {
        let page: usize = if self.body_height > 1 {
            self.body_height - 1
        } else {
            1
        };
        match key.code {
            KeyCode::Char(c) => {
                if c == 'q' {
                    return false;
                } else if c == 'k' {
                    self.scroll_by(1, true);
                } else if c == 'j' {
                    self.scroll_by(1, false);
                } else if c == ' ' {
                    self.scroll_by(page, false);
                } else if c == 'g' {
                    self.top = 0;
                } else if c == 'G' {
                    self.top = usize::MAX;
                } else if c == 'c' && key.ctrl {
                    return false;
                }
            },
            KeyCode::Esc => return false,
            KeyCode::Up => self.scroll_by(1, true),
            KeyCode::Down => self.scroll_by(1, false),
            KeyCode::PageUp => self.scroll_by(page, true),
            KeyCode::PageDown => self.scroll_by(page, false),
            KeyCode::Home => self.top = 0,
            KeyCode::End => self.top = usize::MAX,
            _ => {},
        }
        true
    }

    /// Scrolls by `rows`, up when `up`.
    fn scroll_by(&mut self, rows: usize, up: bool)
        ensures
            final(self)@ == (PagerView { top: scrolled(old(self)@.top, if up { -rows } else { rows as int }), ..old(self)@ }),
    {
        if up {
            self.top = if self.top > rows { self.top - rows } else { 0 };
        } else {
            self.top = if self.top > usize::MAX - rows { usize::MAX } else { self.top + rows };
        }
    }

    /// Scrolls by `rows`, up for a negative count.
    pub fn scroll(&mut self, rows: isize)
        ensures
            final(self)@ == (PagerView { top: scrolled(old(self)@.top, rows as int), ..old(self)@ }),
    {
        if rows < 0 {
            let up: usize = if rows == isize::MIN { (isize::MAX as usize) + 1 } else { (-rows) as usize };
            self.scroll_by(up, true);
        } else {
            self.scroll_by(rows as usize, false);
        }
    }

    /// What the page shows on a screen `columns` wide and `height` tall: the first row keeps to
    /// the last screenful. `None` when the page is too large to lay out.
    pub fn frame(&mut self, columns: usize, height: usize, look: &Look) -> (frame: Option<PageFrame>)
        ensures
            final(self)@.title == old(self)@.title,
            final(self)@.doc == old(self)@.doc,
            match frame {
                None => !doc_fits(old(self)@.doc.blocks@),
                Some(f) => {
                    let rows = spec_doc_rows(old(self)@.doc.blocks@, text_width(columns as int), *look);
                    let body = if height > 2 { height - 2 } else { 0 };
                    let last = if rows.len() > body { rows.len() - body } else { 0 };
                    let top = if old(self)@.top < last { old(self)@.top } else { last };
                    &&& doc_fits(old(self)@.doc.blocks@)
                    &&& final(self)@.body_height == body
                    &&& final(self)@.top == top
                    &&& rows_view(f.body@) == page_body(rows, top, body)
                    &&& f.percent == (if last == 0 { 100 } else { top * 100 / last })
                },
            },
    {
        if !doc_fits_check(&self.doc) {
            return None;
        }
        let w = if columns > 4 { columns - 4 } else { 0 };
        let width = if w < 1 {
            1
        } else if w > MAX_TEXT_WIDTH {
            MAX_TEXT_WIDTH
        } else {
            w
        };
        let rows = doc_rows(&self.doc, width, look);
        let body = if height > 2 { height - 2 } else { 0 };
        self.body_height = body;
        let last = if rows.len() > body { rows.len() - body } else { 0 };
        if self.top > last {
            self.top = last;
        }
        let top = self.top;
        let end = if body < rows.len() - top { top + body } else { rows.len() };
        let ghost all = rows_view(rows@);
        let mut shown: Vec<Row> = Vec::new();
        let mut k = top;
        while k < end
            invariant
                top <= k <= end,
                end <= rows@.len(),
                all == rows_view(rows@),
                rows_view(shown@) == all.subrange(top as int, k as int).map_values(
                    |row: Seq<SPiece>| seq![(seq![' ', ' '], body_tone())] + row,
                ),
            decreases end - k,
        {
            let mut row: Row = vec![(string_of(chars_of("  ").as_slice()), crate::doc::Tone::body())];
            let mut rest = crate::text::copy_row(&rows[k]);
            let ghost first = row_view(row@);
            row.append(&mut rest);
            let ghost before = rows_view(shown@);
            shown.push(row);
            proof {
                reveal_strlit("  ");
                assert("  "@ =~= seq![' ', ' ']);
                assert(first =~~= seq![(seq![' ', ' '], body_tone())]);
                assert(row_view(row@) =~= seq![(seq![' ', ' '], body_tone())] + all[k as int]);
                assert(rows_view(shown@) =~= before.push(row_view(row@)));
                assert(all.subrange(top as int, k + 1) =~= all.subrange(top as int, k as int).push(all[k as int]));
            }
            k = k + 1;
        }
        proof {
            if !(top < end) {
                assert(rows_view(shown@) =~= Seq::<Seq<SPiece>>::empty());
                assert(all.subrange(top as int, k as int) =~= Seq::<Seq<SPiece>>::empty());
            }
        }
        let percent: usize = if last == 0 {
            100
        } else {
            proof {
                assert((top as int) * 100 / (last as int) <= 100) by (nonlinear_arith)
                    requires
                        top <= last,
                        last > 0,
                ;
                assert((top as u128) * 100 == (top as int) * 100);
            }
            ((top as u128) * 100 / (last as u128)) as usize
        };
        Some(PageFrame { body: shown, percent })
    }
}

} // verus!
