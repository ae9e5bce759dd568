//! Measuring, wrapping and cutting styled text by terminal columns, not by bytes or characters.

use vstd::prelude::*;

use crate::doc::{body_tone, Tone};
use crate::strings::{chars_of, push_str, spaces, spaces_string, string_of};
use crate::width::{char_columns, char_width, str_columns, str_width};

verus! {

/// Text in one tone, already resolved for the terminal's look.
pub type Piece = (String, Tone);

/// One screen row.
pub type Row = Vec<Piece>;

/// A piece as characters.
pub type SPiece = (Seq<char>, Tone);

/// A piece's characters and tone.
pub open spec fn piece_view(piece: Piece) -> SPiece {
    (piece.0@, piece.1)
}

/// A row's pieces as characters and tones.
pub open spec fn row_view(row: Seq<Piece>) -> Seq<SPiece> {
    row.map_values(|piece: Piece| piece_view(piece))
}

/// Rows as characters and tones.
pub open spec fn rows_view(rows: Seq<Row>) -> Seq<Seq<SPiece>> {
    rows.map_values(|row: Row| row_view(row@))
}

/// Columns of every piece together.
pub open spec fn columns(pieces: Seq<SPiece>) -> int
    decreases pieces.len(),
{
    if pieces.len() == 0 {
        0
    } else {
        columns(pieces.drop_last()) + str_columns(pieces.last().0) as int
    }
}

/// Characters of every piece together.
pub open spec fn size(pieces: Seq<SPiece>) -> int
    decreases pieces.len(),
{
    if pieces.len() == 0 {
        0
    } else {
        size(pieces.drop_last()) + pieces.last().0.len()
    }
}

/// The characters of every piece, in order.
pub open spec fn joined(pieces: Seq<SPiece>) -> Seq<char>
    decreases pieces.len(),
{
    if pieces.len() == 0 {
        Seq::empty()
    } else {
        joined(pieces.drop_last()) + pieces.last().0
    }
}

/// Columns `text` occupies.
pub fn width(text: &str) -> (w: usize)
    ensures
        w == str_columns(text@),
        w <= 3 * text@.len(),
{
    str_width(text)
}

/// Columns a row occupies.
pub fn row_width(row: &[Piece]) -> (w: usize)
    requires
        columns(row_view(row@)) <= usize::MAX,
    ensures
        w == columns(row_view(row@)),
        w <= 3 * size(row_view(row@)),
{
    let mut w: usize = 0;
    let mut i: usize = 0;
    while i < row.len()
        invariant
            i <= row@.len(),
            w == columns(row_view(row@.take(i as int))),
            w <= 3 * size(row_view(row@.take(i as int))),
            columns(row_view(row@)) <= usize::MAX,
        decreases row@.len() - i,
    {
        let x = str_width(row[i].0.as_str());
        proof {
            assert(row_view(row@.take(i + 1)).drop_last() =~= row_view(row@.take(i as int)));
            assert(row_view(row@.take(i + 1)).last() == piece_view(row@[i as int]));
            assert(row_view(row@.take(i + 1)) =~= row_view(row@).take(i + 1));
            columns_prefix_bound(row_view(row@), i + 1);
        }
        w = w + x;
        i = i + 1;
    }
    proof {
        assert(row@.take(row@.len() as int) =~= row@);
    }
    w
}

/// A prefix of pieces never has more columns than all of them.
pub proof fn columns_prefix_bound(pieces: Seq<SPiece>, n: int)
    requires
        0 <= n <= pieces.len(),
    ensures
        columns(pieces.take(n)) <= columns(pieces),
        columns(pieces.take(n)) >= 0,
    decreases pieces.len(),
{
    if n < pieces.len() {
        assert(pieces.drop_last().take(n) =~= pieces.take(n));
        columns_prefix_bound(pieces.drop_last(), n);
    } else {
        assert(pieces.take(n) =~= pieces);
        columns_nonnegative(pieces);
    }
}

/// Columns are never negative.
pub proof fn columns_nonnegative(pieces: Seq<SPiece>)
    ensures
        columns(pieces) >= 0,
    decreases pieces.len(),
{
    if pieces.len() > 0 {
        columns_nonnegative(pieces.drop_last());
    }
}

// ---------------------------------------------------------------------------------------------
// Tokens: runs of spaces, runs of other characters, and line breaks.

/// A piece of one text: a line break, or the characters from `.0` up to `.1` of a run of spaces
/// or of a word.
#[derive(Clone, Copy, Debug, PartialEq, Eq, Structural)]
pub enum Token {
    /// `\n`.
    Break,
    /// A run of spaces.
    Space(usize, usize),
    /// A run of characters that are neither spaces nor line breaks.
    Word(usize, usize),
}

/// Where the run starting at `i` ends: the first character that is a line break, or whose being a
/// space differs from `space`.
pub open spec fn run_end(s: Seq<char>, i: int, space: bool) -> int
    decreases s.len() - i,
{
    if 0 <= i < s.len() && s[i] != '\n' && (s[i] == ' ') == space {
        run_end(s, i + 1, space)
    } else {
        i
    }
}

/// A run that begins where it may ends after it begins and no later than the text.
pub proof fn lemma_run_end(s: Seq<char>, i: int, space: bool)
    requires
        0 <= i <= s.len(),
    ensures
        i <= run_end(s, i, space) <= s.len(),
        i < s.len() && s[i] != '\n' && (s[i] == ' ') == space ==> run_end(s, i, space) > i,
        forall|k: int| i <= k < run_end(s, i, space) ==> s[k] != '\n' && (s[k] == ' ') == space,
        run_end(s, i, space) < s.len() ==> (s[run_end(s, i, space)] == '\n' || (s[run_end(
            s,
            i,
            space,
        )] == ' ') != space),
    decreases s.len() - i,
{
    if i < s.len() && s[i] != '\n' && (s[i] == ' ') == space {
        lemma_run_end(s, i + 1, space);
    }
}

/// The tokens of `s` from character `i` on.
pub open spec fn tokens_from(s: Seq<char>, i: int) -> Seq<Token>
    decreases s.len() - i,
{
    if i < 0 || i >= s.len() {
        Seq::empty()
    } else if s[i] == '\n' {
        seq![Token::Break] + tokens_from(s, i + 1)
    } else {
        let space = s[i] == ' ';
        let end = run_end(s, i, space);
        proof {
            lemma_run_end(s, i, space);
        }
        let token = if space {
            Token::Space(i as usize, end as usize)
        } else {
            Token::Word(i as usize, end as usize)
        };
        if end > i {
            seq![token] + tokens_from(s, end)
        } else {
            Seq::empty()
        }
    }
}

/// The tokens of a text: each line break, and each maximal run of spaces or of other characters.
pub open spec fn spec_tokens(s: Seq<char>) -> Seq<Token> {
    tokens_from(s, 0)
}

/// Splits `text` into line breaks, runs of spaces and words.
pub fn tokens(text: &Vec<char>) -> (out: Vec<Token>)
    ensures
        out@ == spec_tokens(text@),
{
    let s = text;
    let n = s.len();
    let mut out: Vec<Token> = Vec::new();
    let mut i: usize = 0;
    while i < n
        invariant
            n == s@.len(),
            i <= n,
            out@ + tokens_from(s@, i as int) == spec_tokens(s@),
        decreases n - i,
    {
        if s[i] == '\n' {
            proof {
                assert(tokens_from(s@, i as int) == seq![Token::Break] + tokens_from(s@, i + 1));
                assert(out@.push(Token::Break) + tokens_from(s@, i + 1) =~= out@ + tokens_from(
                    s@,
                    i as int,
                ));
            }
            out.push(Token::Break);
            i = i + 1;
        } else {
            let space = s[i] == ' ';
            let mut end = i + 1;
            proof {
                lemma_run_end(s@, i as int, space);
                assert(run_end(s@, i as int, space) == run_end(s@, i + 1, space));
            }
            while end < n && s[end] != '\n' && (s[end] == ' ') == space
                invariant
                    n == s@.len(),
                    i < end <= n,
                    run_end(s@, end as int, space) == run_end(s@, i as int, space),
                decreases n - end,
            {
                end = end + 1;
            }
            let token = if space {
                Token::Space(i, end)
            } else {
                Token::Word(i, end)
            };
            proof {
                assert(tokens_from(s@, i as int) == seq![token] + tokens_from(s@, end as int));
                assert(out@.push(token) + tokens_from(s@, end as int) =~= out@ + tokens_from(
                    s@,
                    i as int,
                ));
            }
            out.push(token);
            i = end;
        }
    }
    proof {
        assert(tokens_from(s@, n as int) =~= Seq::<Token>::empty());
        assert(out@ + Seq::<Token>::empty() =~= out@);
    }
    out
}


// ---------------------------------------------------------------------------------------------
// Wrapping.

/// One step of the text being wrapped: a line break, a run of spaces, or part of a word.
pub enum Item {
    /// `\n`.
    Break,
    /// A run of spaces in a tone.
    Space(Seq<char>, Tone),
    /// Part of a word in a tone; parts of adjacent pieces with nothing between them form one word.
    Word(Seq<char>, Tone),
}

/// The item a token of `text` stands for.
pub open spec fn token_item(text: Seq<char>, tone: Tone, token: Token) -> Item {
    match token {
        Token::Break => Item::Break,
        Token::Space(a, b) => Item::Space(text.subrange(a as int, b as int), tone),
        Token::Word(a, b) => Item::Word(text.subrange(a as int, b as int), tone),
    }
}

/// The items of one piece.
pub open spec fn piece_items(piece: SPiece) -> Seq<Item> {
    spec_tokens(piece.0).map_values(|token: Token| token_item(piece.0, piece.1, token))
}

/// The items of every piece, in order.
pub open spec fn all_items(pieces: Seq<SPiece>) -> Seq<Item>
    decreases pieces.len(),
{
    if pieces.len() == 0 {
        Seq::empty()
    } else {
        all_items(pieces.drop_last()) + piece_items(pieces.last())
    }
}

/// Where wrapping stands: the finished rows, the row being filled and its columns, the widest a
/// row may be, a run of spaces waiting for the next word, and whether the row began because the
/// previous one was full.
pub struct WrapState {
    pub rows: Seq<Seq<SPiece>>,
    pub row: Seq<SPiece>,
    pub used: int,
    pub max: int,
    pub pending: Option<SPiece>,
    pub soft: bool,
}

/// Adds text to the row, joining it to the last piece when the tone is the same.
pub open spec fn st_push(st: WrapState, text: Seq<char>, tone: Tone) -> WrapState {
    let row = if st.row.len() > 0 && st.row.last().1 == tone {
        st.row.drop_last().push((st.row.last().0 + text, tone))
    } else {
        st.row.push((text, tone))
    };
    WrapState { used: st.used + str_columns(text), row, ..st }
}

/// Ends the row because the text asked for it.
pub open spec fn st_hard_break(st: WrapState) -> WrapState {
    WrapState { rows: st.rows.push(st.row), row: Seq::empty(), used: 0, pending: None, soft: false, ..st }
}

/// Ends the row because it is full.
pub open spec fn st_soft_break(st: WrapState) -> WrapState {
    WrapState { rows: st.rows.push(st.row), row: Seq::empty(), used: 0, pending: None, soft: true, ..st }
}

/// Puts the waiting spaces on the row.
pub open spec fn st_flush(st: WrapState) -> WrapState {
    match st.pending {
        Some(space) => st_push(WrapState { pending: None, ..st }, space.0, space.1),
        None => st,
    }
}

/// Adds every piece to the row.
pub open spec fn st_push_all(st: WrapState, pieces: Seq<SPiece>) -> WrapState
    decreases pieces.len(),
{
    if pieces.len() == 0 {
        st
    } else {
        let before = st_push_all(st, pieces.drop_last());
        st_push(before, pieces.last().0, pieces.last().1)
    }
}

/// Every character of the pieces with its tone.
pub open spec fn char_items(pieces: Seq<SPiece>) -> Seq<(char, Tone)>
    decreases pieces.len(),
{
    if pieces.len() == 0 {
        Seq::empty()
    } else {
        char_items(pieces.drop_last()) + pieces.last().0.map_values(|c: char| (c, pieces.last().1))
    }
}

/// Columns of one character, with control characters taking none.
pub open spec fn char_cols(c: char) -> int {
    match char_columns(c) {
        Some(n) => n as int,
        None => 0,
    }
}

/// Adds one character of a word too wide for a row, starting a new row when it does not fit.
pub open spec fn st_push_char(st: WrapState, c: char, tone: Tone) -> WrapState {
    let st1 = if st.used + char_cols(c) > st.max {
        st_soft_break(st)
    } else {
        st
    };
    st_push(st1, seq![c], tone)
}

/// Adds characters one by one.
pub open spec fn st_push_chars(st: WrapState, chars: Seq<(char, Tone)>) -> WrapState
    decreases chars.len(),
{
    if chars.len() == 0 {
        st
    } else {
        let before = st_push_chars(st, chars.drop_last());
        st_push_char(before, chars.last().0, chars.last().1)
    }
}

/// Places one word: on this row after the waiting spaces when it fits, on a new row when it fits
/// a row, and otherwise broken character by character.
pub open spec fn st_word(st: WrapState, pieces: Seq<SPiece>) -> WrapState {
    let cols = columns(pieces);
    let spacing = match st.pending {
        Some(space) => str_columns(space.0) as int,
        None => 0,
    };
    if st.used + spacing + cols <= st.max {
        st_push_all(st_flush(st), pieces)
    } else if cols <= st.max {
        st_push_all(st_soft_break(st), pieces)
    } else {
        let st1 = if st.used + spacing < st.max {
            st_flush(st)
        } else {
            st_soft_break(st)
        };
        st_push_chars(st1, char_items(pieces))
    }
}

/// A run of spaces: kept at the start of a line the text began, dropped at the start of a row a
/// wrap began, and otherwise held until the next word.
pub open spec fn st_space(st: WrapState, text: Seq<char>, tone: Tone) -> WrapState {
    if st.row.len() == 0 && st.pending is None {
        if !st.soft {
            st_word(st, seq![(text, tone)])
        } else {
            st
        }
    } else {
        WrapState { pending: Some((text, tone)), ..st }
    }
}

/// Places the word gathered so far, if any.
pub open spec fn place_word(st: WrapState, word: Seq<SPiece>) -> WrapState {
    if word.len() > 0 {
        st_word(st, word)
    } else {
        st
    }
}

/// One item: word parts gather; a break or spaces first place the gathered word.
pub open spec fn item_step(acc: (WrapState, Seq<SPiece>), item: Item) -> (WrapState, Seq<SPiece>) {
    match item {
        Item::Word(text, tone) => (acc.0, acc.1.push((text, tone))),
        Item::Break => (st_hard_break(place_word(acc.0, acc.1)), Seq::empty()),
        Item::Space(text, tone) => (st_space(place_word(acc.0, acc.1), text, tone), Seq::empty()),
    }
}

/// Every item in turn.
pub open spec fn run_items(start: (WrapState, Seq<SPiece>), items: Seq<Item>) -> (WrapState, Seq<SPiece>)
    decreases items.len(),
{
    if items.len() == 0 {
        start
    } else {
        item_step(run_items(start, items.drop_last()), items.last())
    }
}

/// Nothing placed yet, rows at most `max` columns (at least one).
pub open spec fn wrap_start(max: int) -> WrapState {
    WrapState {
        rows: Seq::empty(),
        row: Seq::empty(),
        used: 0,
        max: if max < 1 { 1 } else { max },
        pending: None,
        soft: false,
    }
}

/// The rows `pieces` wrap into at `max` columns.
pub open spec fn spec_wrap(pieces: Seq<SPiece>, max: int) -> Seq<Seq<SPiece>> {
    let acc = run_items((wrap_start(max), Seq::empty()), all_items(pieces));
    let st = place_word(acc.0, acc.1);
    st.rows.push(st.row)
}


/// Sizes of prefixes never exceed the whole.
pub proof fn size_prefix(pieces: Seq<SPiece>, n: int)
    requires
        0 <= n <= pieces.len(),
    ensures
        0 <= size(pieces.take(n)) <= size(pieces),
    decreases pieces.len(),
{
    if n < pieces.len() {
        assert(pieces.drop_last().take(n) =~= pieces.take(n));
        size_prefix(pieces.drop_last(), n);
    } else {
        assert(pieces.take(n) =~= pieces);
        size_nonnegative(pieces);
    }
}

/// Sizes are never negative.
pub proof fn size_nonnegative(pieces: Seq<SPiece>)
    ensures
        size(pieces) >= 0,
    decreases pieces.len(),
{
    if pieces.len() > 0 {
        size_nonnegative(pieces.drop_last());
    }
}

/// Columns of pieces of a known size, which bounds them.
pub fn columns_of(pieces: &[Piece]) -> (w: usize)
    requires
        3 * size(row_view(pieces@)) <= usize::MAX,
    ensures
        w == columns(row_view(pieces@)),
        w <= 3 * size(row_view(pieces@)),
{
    let mut w: usize = 0;
    let mut i: usize = 0;
    while i < pieces.len()
        invariant
            i <= pieces@.len(),
            w == columns(row_view(pieces@.take(i as int))),
            w <= 3 * size(row_view(pieces@.take(i as int))),
            3 * size(row_view(pieces@)) <= usize::MAX,
        decreases pieces@.len() - i,
    {
        let x = str_width(pieces[i].0.as_str());
        proof {
            assert(row_view(pieces@.take(i + 1)).drop_last() =~= row_view(pieces@.take(i as int)));
            assert(row_view(pieces@.take(i + 1)).last() == piece_view(pieces@[i as int]));
            assert(row_view(pieces@.take(i + 1)) =~= row_view(pieces@).take(i + 1));
            size_prefix(row_view(pieces@), i + 1);
        }
        w = w + x;
        i = i + 1;
    }
    proof {
        assert(pieces@.take(pieces@.len() as int) =~= pieces@);
    }
    w
}

/// A copy of a piece.
pub fn copy_piece(piece: &Piece) -> (copy: Piece)
    ensures
        copy == *piece,
{
    (piece.0.clone(), piece.1)
}

/// A copy of a row.
pub fn copy_row(row: &Row) -> (copy: Row)
    ensures
        copy@ == row@,
{
    let mut copy: Row = Vec::new();
    let mut i: usize = 0;
    while i < row.len()
        invariant
            i <= row@.len(),
            copy@ == row@.take(i as int),
        decreases row@.len() - i,
    {
        copy.push(copy_piece(&row[i]));
        i = i + 1;
        assert(copy@ =~= row@.take(i as int));
    }
    assert(row@.take(row@.len() as int) =~= row@);
    copy
}

/// No row holds more than all rows together.
pub proof fn rows_size_elem(rows: Seq<Seq<SPiece>>, k: int)
    requires
        0 <= k < rows.len(),
    ensures
        0 <= size(rows[k]) <= rows_size(rows),
    decreases rows.len(),
{
    rows_size_nonneg(rows.drop_last());
    size_nonnegative(rows.last());
    if k < rows.len() - 1 {
        rows_size_elem(rows.drop_last(), k);
    }
}

/// Row sizes are never negative.
pub proof fn rows_size_nonneg(rows: Seq<Seq<SPiece>>)
    ensures
        rows_size(rows) >= 0,
    decreases rows.len(),
{
    if rows.len() > 0 {
        rows_size_nonneg(rows.drop_last());
        size_nonnegative(rows.last());
    }
}

/// Characters of every row together.
pub open spec fn rows_size(rows: Seq<Seq<SPiece>>) -> int
    decreases rows.len(),
{
    if rows.len() == 0 {
        0
    } else {
        rows_size(rows.drop_last()) + size(rows.last())
    }
}

/// Characters placed so far, on finished rows and on the row being filled.
pub open spec fn produced(st: WrapState) -> int {
    rows_size(st.rows) + size(st.row)
}

/// Sizes grow by what is pushed.
pub proof fn size_push(pieces: Seq<SPiece>, piece: SPiece)
    ensures
        size(pieces.push(piece)) == size(pieces) + piece.0.len(),
{
    assert(pieces.push(piece).drop_last() =~= pieces);
}

/// Row sizes grow by what is pushed.
pub proof fn rows_size_push(rows: Seq<Seq<SPiece>>, row: Seq<SPiece>)
    ensures
        rows_size(rows.push(row)) == rows_size(rows) + size(row),
{
    assert(rows.push(row).drop_last() =~= rows);
}

/// The exec side of [`WrapState`].
struct Wrapper {
    rows: Vec<Row>,
    row: Row,
    used: usize,
    max: usize,
    pending: Option<Piece>,
    soft: bool,
}

/// Characters waiting in the pending spaces.
pub open spec fn pending_size(pending: Option<SPiece>) -> int {
    match pending {
        Some(p) => p.0.len() as int,
        None => 0,
    }
}

impl Wrapper {
    spec fn state(&self) -> WrapState {
        WrapState {
            rows: rows_view(self.rows@),
            row: row_view(self.row@),
            used: self.used as int,
            max: self.max as int,
            pending: match self.pending {
                Some(p) => Some(piece_view(p)),
                None => None,
            },
            soft: self.soft,
        }
    }

    fn hard_break(&mut self)
        ensures
            final(self).state() == st_hard_break(old(self).state()),
            produced(final(self).state()) == produced(old(self).state()),
    {
        self.pending = None;
        let mut row: Row = Vec::new();
        std::mem::swap(&mut row, &mut self.row);
        self.rows.push(row);
        self.used = 0;
        self.soft = false;
        proof {
            assert(final(self).state().rows =~= st_hard_break(old(self).state()).rows);
            assert(final(self).state().row =~= Seq::<SPiece>::empty());
            rows_size_push(old(self).state().rows, old(self).state().row);
        }
    }

    fn soft_break(&mut self)
        ensures
            final(self).state() == st_soft_break(old(self).state()),
            produced(final(self).state()) == produced(old(self).state()),
    {
        self.pending = None;
        let mut row: Row = Vec::new();
        std::mem::swap(&mut row, &mut self.row);
        self.rows.push(row);
        self.used = 0;
        self.soft = true;
        proof {
            assert(final(self).state().rows =~= st_soft_break(old(self).state()).rows);
            assert(final(self).state().row =~= Seq::<SPiece>::empty());
            rows_size_push(old(self).state().rows, old(self).state().row);
        }
    }

    fn push(&mut self, text: String, tone: Tone)
        requires
            old(self).used + 3 * text@.len() <= usize::MAX,
        ensures
            final(self).state() == st_push(old(self).state(), text@, tone),
            final(self).used <= old(self).used + 3 * text@.len(),
            produced(final(self).state()) == produced(old(self).state()) + text@.len(),
    {
        let w = str_width(text.as_str());
        self.used = self.used + w;
        let n = self.row.len();
        if n > 0 && self.row[n - 1].1 == tone {
            let mut last = self.row.pop().unwrap();
            let ghost before = last.0@;
            push_str(&mut last.0, text.as_str());
            self.row.push(last);
            proof {
                assert(row_view(self.row@) =~= row_view(old(self).row@).drop_last().push(
                    (before + text@, tone),
                ));
                let r = row_view(old(self).row@);
                size_push(r.drop_last(), (before + text@, tone));
                size_push(r.drop_last(), r.last());
                assert(r.drop_last().push(r.last()) =~= r);
            }
        } else {
            self.row.push((text, tone));
            proof {
                assert(row_view(self.row@) =~= row_view(old(self).row@).push((text@, tone)));
                size_push(row_view(old(self).row@), (text@, tone));
            }
        }
    }

    fn flush_pending(&mut self)
        requires
            old(self).used + 3 * pending_size(old(self).state().pending) <= usize::MAX,
        ensures
            final(self).state() == st_flush(old(self).state()),
            final(self).used <= old(self).used + 3 * pending_size(old(self).state().pending),
            final(self).pending is None,
            produced(final(self).state()) == produced(old(self).state()) + pending_size(old(self).state().pending),
    {
        match self.pending.take() {
            Some((space, tone)) => self.push(space, tone),
            None => {},
        }
    }

    /// Adds every piece to the row.
    fn push_all(&mut self, pieces: &Vec<Piece>)
        requires
            old(self).used + 3 * size(row_view(pieces@)) <= usize::MAX,
        ensures
            final(self).state() == st_push_all(old(self).state(), row_view(pieces@)),
            final(self).used <= old(self).used + 3 * size(row_view(pieces@)),
            final(self).state().pending == old(self).state().pending,
            produced(final(self).state()) == produced(old(self).state()) + size(row_view(pieces@)),
    {
        let ghost start = self.state();
        let mut i: usize = 0;
        while i < pieces.len()
            invariant
                i <= pieces@.len(),
                self.state() == st_push_all(start, row_view(pieces@.take(i as int))),
                self.used <= old(self).used + 3 * size(row_view(pieces@.take(i as int))),
                self.state().pending == old(self).state().pending,
                start == old(self).state(),
                old(self).used + 3 * size(row_view(pieces@)) <= usize::MAX,
                produced(self.state()) == produced(old(self).state()) + size(row_view(pieces@.take(i as int))),
            decreases pieces@.len() - i,
        {
            proof {
                assert(row_view(pieces@.take(i + 1)).drop_last() =~= row_view(pieces@.take(i as int)));
                assert(row_view(pieces@.take(i + 1)).last() == piece_view(pieces@[i as int]));
                assert(row_view(pieces@.take(i + 1)) =~= row_view(pieces@).take(i + 1));
                size_prefix(row_view(pieces@), i + 1);
            }
            let piece = copy_piece(&pieces[i]);
            self.push(piece.0, piece.1);
            i = i + 1;
        }
        proof {
            assert(pieces@.take(pieces@.len() as int) =~= pieces@);
        }
    }

    /// Adds the characters of every piece one by one, starting new rows where they do not fit.
    fn push_chars(&mut self, pieces: &Vec<Piece>)
        requires
            old(self).used + 3 * size(row_view(pieces@)) <= usize::MAX,
        ensures
            final(self).state() == st_push_chars(old(self).state(), char_items(row_view(pieces@))),
            final(self).used <= old(self).used + 3 * size(row_view(pieces@)),
            final(self).pending is None || final(self).state().pending == old(self).state().pending,
            produced(final(self).state()) == produced(old(self).state()) + size(row_view(pieces@)),
    {
        let ghost start = self.state();
        let ghost all = row_view(pieces@);
        let mut i: usize = 0;
        while i < pieces.len()
            invariant
                i <= pieces@.len(),
                all == row_view(pieces@),
                self.state() == st_push_chars(start, char_items(all.take(i as int))),
                self.used <= old(self).used + 3 * size(all.take(i as int)),
                self.pending is None || self.state().pending == old(self).state().pending,
                start == old(self).state(),
                old(self).used + 3 * size(all) <= usize::MAX,
                produced(self.state()) == produced(old(self).state()) + size(all.take(i as int)),
            decreases pieces@.len() - i,
        {
            let chars = chars_of(pieces[i].0.as_str());
            let tone = pieces[i].1;
            let ghost base = char_items(all.take(i as int));
            let ghost mapped = chars@.map_values(|c: char| (c, tone));
            proof {
                assert(all.take(i + 1).drop_last() =~= all.take(i as int));
                assert(all.take(i + 1).last() == (chars@, tone));
                size_prefix(all, i + 1);
            }
            let mut j: usize = 0;
            while j < chars.len()
                invariant
                    j <= chars@.len(),
                    mapped == chars@.map_values(|c: char| (c, tone)),
                    self.state() == st_push_chars(start, base + mapped.take(j as int)),
                    self.used <= old(self).used + 3 * size(all.take(i as int)) + 3 * j,
                    self.pending is None || self.state().pending == old(self).state().pending,
                    size(all.take(i as int)) + chars@.len() <= size(all),
                    old(self).used + 3 * size(all) <= usize::MAX,
                    produced(self.state()) == produced(old(self).state()) + size(all.take(i as int)) + j,
                decreases chars@.len() - j,
            {
                let c = chars[j];
                let wide = match char_width(c) {
                    Some(n) => n,
                    None => 0,
                };
                if self.used + wide > self.max {
                    self.soft_break();
                }
                let mut one = String::new();
                crate::strings::push_char(&mut one, c);
                proof {
                    assert(one@ =~= seq![c]);
                    assert((base + mapped.take(j + 1)).drop_last() =~= base + mapped.take(j as int));
                    assert((base + mapped.take(j + 1)).last() == (c, tone));
                }
                self.push(one, tone);
                j = j + 1;
            }
            proof {
                assert(mapped.take(chars@.len() as int) =~= mapped);
                assert(base + mapped =~= char_items(all.take(i + 1)));
            }
            i = i + 1;
        }
        proof {
            assert(all.take(pieces@.len() as int) =~= all);
        }
    }

    /// Places one word, which may be several pieces in different tones with no space between
    /// them; the pieces stay together.
    fn word(&mut self, pieces: &Vec<Piece>)
        requires
            old(self).used + 3 * pending_size(old(self).state().pending) + 3 * size(row_view(pieces@)) <= usize::MAX,
        ensures
            final(self).state() == st_word(old(self).state(), row_view(pieces@)),
            final(self).used <= old(self).used + 3 * pending_size(old(self).state().pending) + 3 * size(row_view(pieces@)),
            final(self).pending is None,
            produced(final(self).state()) <= produced(old(self).state()) + pending_size(old(self).state().pending) + size(row_view(pieces@)),
    {
        proof {
            size_nonnegative(row_view(pieces@));
        }
        let cols = columns_of(pieces.as_slice());
        let spacing = match &self.pending {
            Some(space) => str_width(space.0.as_str()),
            None => 0,
        };
        if self.used + spacing + cols <= self.max {
            self.flush_pending();
            self.push_all(pieces);
        } else if cols <= self.max {
            self.soft_break();
            self.push_all(pieces);
        } else {
            if self.used + spacing < self.max {
                self.flush_pending();
            } else {
                self.soft_break();
            }
            self.push_chars(pieces);
        }
    }

    fn space(&mut self, text: String, tone: Tone)
        requires
            old(self).used + 3 * pending_size(old(self).state().pending) + 3 * text@.len() <= usize::MAX,
        ensures
            final(self).state() == st_space(old(self).state(), text@, tone),
            final(self).used + 3 * pending_size(final(self).state().pending)
                <= old(self).used + 3 * pending_size(old(self).state().pending) + 3 * text@.len(),
            produced(final(self).state()) + pending_size(final(self).state().pending)
                <= produced(old(self).state()) + pending_size(old(self).state().pending) + text@.len(),
    {
        if self.row.len() == 0 && self.pending.is_none() {
            if !self.soft {
                let ghost t = text@;
                let one = vec![(text, tone)];
                proof {
                    assert(row_view(one@) =~= seq![(t, tone)]);
                    assert(size(row_view(one@)) == t.len()) by {
                        assert(row_view(one@).drop_last() =~= Seq::<SPiece>::empty());
                        reveal_with_fuel(size, 2);
                    }
                }
                self.word(&one);
            }
            return;
        }
        self.pending = Some((text, tone));
    }
}


/// Characters a token covers.
pub open spec fn token_size(token: Token) -> int {
    match token {
        Token::Break => 0,
        Token::Space(a, b) => b - a,
        Token::Word(a, b) => b - a,
    }
}

/// Characters the tokens cover.
pub open spec fn tokens_size(tokens: Seq<Token>) -> int
    decreases tokens.len(),
{
    if tokens.len() == 0 {
        0
    } else {
        tokens_size(tokens.drop_last()) + token_size(tokens.last())
    }
}

/// Token sizes add up over a concatenation.
proof fn tokens_size_concat(a: Seq<Token>, b: Seq<Token>)
    ensures
        tokens_size(a + b) == tokens_size(a) + tokens_size(b),
    decreases b.len(),
{
    if b.len() == 0 {
        assert(a + b =~= a);
    } else {
        assert((a + b).drop_last() =~= a + b.drop_last());
        tokens_size_concat(a, b.drop_last());
    }
}

/// Every run token of the text from `i` lies inside the text, and together they cover no more
/// than the characters from `i` on.
proof fn lemma_tokens_from(s: Seq<char>, i: int)
    requires
        0 <= i <= s.len(),
        s.len() <= usize::MAX,
    ensures
        forall|k: int|
            0 <= k < tokens_from(s, i).len() ==> match #[trigger] tokens_from(s, i)[k] {
                Token::Break => true,
                Token::Space(a, b) => i <= a < b <= s.len(),
                Token::Word(a, b) => i <= a < b <= s.len(),
            },
        0 <= tokens_size(tokens_from(s, i)) <= s.len() - i,
    decreases s.len() - i,
{
    if i < s.len() {
        if s[i] == '\n' {
            lemma_tokens_from(s, i + 1);
            tokens_size_concat(seq![Token::Break], tokens_from(s, i + 1));
            reveal_with_fuel(tokens_size, 2);
            assert forall|k: int| 0 <= k < tokens_from(s, i).len() implies match #[trigger] tokens_from(s, i)[k] {
                Token::Break => true,
                Token::Space(a, b) => i <= a < b <= s.len(),
                Token::Word(a, b) => i <= a < b <= s.len(),
            } by {
                if k > 0 {
                    assert(tokens_from(s, i)[k] == tokens_from(s, i + 1)[k - 1]);
                }
            }
        } else {
            let space = s[i] == ' ';
            lemma_run_end(s, i, space);
            let end = run_end(s, i, space);
            lemma_tokens_from(s, end);
            let token = if space {
                Token::Space(i as usize, end as usize)
            } else {
                Token::Word(i as usize, end as usize)
            };
            tokens_size_concat(seq![token], tokens_from(s, end));
            reveal_with_fuel(tokens_size, 2);
            assert(tokens_from(s, i) == seq![token] + tokens_from(s, end));
            assert forall|k: int| 0 <= k < tokens_from(s, i).len() implies match #[trigger] tokens_from(s, i)[k] {
                Token::Break => true,
                Token::Space(a, b) => i <= a < b <= s.len(),
                Token::Word(a, b) => i <= a < b <= s.len(),
            } by {
                if k > 0 {
                    assert(tokens_from(s, i)[k] == tokens_from(s, end)[k - 1]);
                }
            }
        }
    }
}

/// Characters an item carries.
pub open spec fn item_size(item: Item) -> int {
    match item {
        Item::Break => 0,
        Item::Space(t, _) => t.len() as int,
        Item::Word(t, _) => t.len() as int,
    }
}

/// Characters the items carry.
pub open spec fn items_size(items: Seq<Item>) -> int
    decreases items.len(),
{
    if items.len() == 0 {
        0
    } else {
        items_size(items.drop_last()) + item_size(items.last())
    }
}

/// Item sizes add up over a concatenation.
proof fn items_size_concat(a: Seq<Item>, b: Seq<Item>)
    ensures
        items_size(a + b) == items_size(a) + items_size(b),
    decreases b.len(),
{
    if b.len() == 0 {
        assert(a + b =~= a);
    } else {
        assert((a + b).drop_last() =~= a + b.drop_last());
        items_size_concat(a, b.drop_last());
    }
}

/// The items of a piece carry exactly what its tokens cover.
proof fn piece_items_size(piece: SPiece, n: int)
    requires
        0 <= n <= spec_tokens(piece.0).len(),
        piece.0.len() <= usize::MAX,
    ensures
        items_size(piece_items(piece).take(n)) == tokens_size(spec_tokens(piece.0).take(n)),
    decreases n,
{
    lemma_tokens_from(piece.0, 0);
    if n > 0 {
        piece_items_size(piece, n - 1);
        assert(piece_items(piece).take(n).drop_last() =~= piece_items(piece).take(n - 1));
        assert(spec_tokens(piece.0).take(n).drop_last() =~= spec_tokens(piece.0).take(n - 1));
        let t = spec_tokens(piece.0)[n - 1];
        assert(spec_tokens(piece.0).take(n).last() == t);
        assert(piece_items(piece).take(n).last() == token_item(piece.0, piece.1, t));
    }
}

/// Token sizes of prefixes never exceed the whole.
proof fn tokens_size_prefix(tokens: Seq<Token>, n: int)
    requires
        0 <= n <= tokens.len(),
        forall|k: int| 0 <= k < tokens.len() ==> token_size(#[trigger] tokens[k]) >= 0,
    ensures
        0 <= tokens_size(tokens.take(n)) <= tokens_size(tokens),
    decreases tokens.len(),
{
    if n < tokens.len() {
        assert(tokens.drop_last().take(n) =~= tokens.take(n));
        tokens_size_prefix(tokens.drop_last(), n);
    } else {
        assert(tokens.take(n) =~= tokens);
        if tokens.len() > 0 {
            tokens_size_prefix(tokens.drop_last(), tokens.len() - 1);
            assert(tokens.drop_last().take(tokens.len() - 1) =~= tokens.drop_last());
        }
    }
}

/// The items of all pieces carry no more than their characters.
proof fn all_items_size(pieces: Seq<SPiece>)
    requires
        size(pieces) <= usize::MAX,
    ensures
        0 <= items_size(all_items(pieces)) <= size(pieces),
    decreases pieces.len(),
{
    if pieces.len() > 0 {
        size_nonnegative(pieces.drop_last());
        all_items_size(pieces.drop_last());
        let p = pieces.last();
        items_size_concat(all_items(pieces.drop_last()), piece_items(p));
        lemma_tokens_from(p.0, 0);
        piece_items_size(p, spec_tokens(p.0).len() as int);
        assert(piece_items(p).take(spec_tokens(p.0).len() as int) =~= piece_items(p));
        assert(spec_tokens(p.0).take(spec_tokens(p.0).len() as int) =~= spec_tokens(p.0));
    }
}

/// The characters from `a` up to `b`.
fn substring(chars: &Vec<char>, a: usize, b: usize) -> (out: String)
    requires
        a <= b <= chars@.len(),
    ensures
        out@ == chars@.subrange(a as int, b as int),
{
    let mut out = String::new();
    let mut k = a;
    while k < b
        invariant
            a <= k <= b <= chars@.len(),
            out@ == chars@.subrange(a as int, k as int),
        decreases b - k,
    {
        crate::strings::push_char(&mut out, chars[k]);
        k = k + 1;
        assert(out@ =~= chars@.subrange(a as int, k as int));
    }
    out
}

/// Wraps pieces into rows of at most `max` columns, breaking at spaces and inside words only when
/// a word is wider than a whole row. `\n` always starts a new row.
pub fn wrap(pieces: &[Piece], max: usize) -> (rows: Vec<Row>)
    requires
        3 * size(row_view(pieces@)) <= usize::MAX,
    ensures
        rows_view(rows@) == spec_wrap(row_view(pieces@), max as int),
        rows_size(rows_view(rows@)) <= size(row_view(pieces@)),
{
    let ghost all = row_view(pieces@);
    let ghost start = (wrap_start(max as int), Seq::<SPiece>::empty());
    let mut wrapper = Wrapper {
        rows: Vec::new(),
        row: Vec::new(),
        used: 0,
        max: if max < 1 { 1 } else { max },
        pending: None,
        soft: false,
    };
    proof {
        assert(wrapper.state().rows =~= Seq::<Seq<SPiece>>::empty());
        assert(wrapper.state().row =~= Seq::<SPiece>::empty());
        all_items_size(all);
    }
    let mut word: Vec<Piece> = Vec::new();
    let mut i: usize = 0;
    while i < pieces.len()
        invariant
            i <= pieces@.len(),
            all == row_view(pieces@),
            3 * size(all) <= usize::MAX,
            (wrapper.state(), row_view(word@)) == run_items(start, all_items(all.take(i as int))),
            wrapper.used + 3 * pending_size(wrapper.state().pending) + 3 * size(row_view(word@))
                <= 3 * items_size(all_items(all.take(i as int))),
            items_size(all_items(all.take(i as int))) <= size(all.take(i as int)),
            produced(wrapper.state()) + pending_size(wrapper.state().pending) + size(row_view(word@))
                <= items_size(all_items(all.take(i as int))),
        decreases pieces@.len() - i,
    {
        let chars = chars_of(pieces[i].0.as_str());
        let tone = pieces[i].1;
        let toks = tokens(&chars);
        let _ = chars.len();
        let ghost piece = (chars@, tone);
        let ghost before = all_items(all.take(i as int));
        proof {
            assert(all.take(i + 1).drop_last() =~= all.take(i as int));
            assert(all.take(i + 1).last() == piece);
            assert(all_items(all.take(i + 1)) == before + piece_items(piece));
            lemma_tokens_from(chars@, 0);
            size_prefix(all, i + 1);
            all_items_size(all.take(i + 1));
        }
        let mut j: usize = 0;
        while j < toks.len()
            invariant
                j <= toks@.len(),
                toks@ == spec_tokens(chars@),
                piece == (chars@, tone),
                chars@.len() <= usize::MAX,
                3 * size(all) <= usize::MAX,
                (wrapper.state(), row_view(word@)) == run_items(start, before + piece_items(piece).take(j as int)),
                wrapper.used + 3 * pending_size(wrapper.state().pending) + 3 * size(row_view(word@))
                    <= 3 * items_size(before + piece_items(piece).take(j as int)),
                produced(wrapper.state()) + pending_size(wrapper.state().pending) + size(row_view(word@))
                    <= items_size(before + piece_items(piece).take(j as int)),
                items_size(before + piece_items(piece)) <= size(all),
                forall|k: int|
                    0 <= k < toks@.len() ==> match #[trigger] toks@[k] {
                        Token::Break => true,
                        Token::Space(a, b) => 0 <= a < b <= chars@.len(),
                        Token::Word(a, b) => 0 <= a < b <= chars@.len(),
                    },
            decreases toks@.len() - j,
        {
            let token = toks[j];
            let ghost item = token_item(chars@, tone, token);
            let ghost acc = run_items(start, before + piece_items(piece).take(j as int));
            proof {
                assert((before + piece_items(piece).take(j + 1)).drop_last() =~= before + piece_items(piece).take(j as int));
                assert((before + piece_items(piece).take(j + 1)).last() == item);
                items_size_concat(before, piece_items(piece).take(j + 1));
                items_size_concat(before, piece_items(piece).take(j as int));
                items_size_concat(before, piece_items(piece));
                assert(piece_items(piece).take(j + 1).drop_last() =~= piece_items(piece).take(j as int));
                piece_items_size(piece, j + 1);
                piece_items_size(piece, toks@.len() as int);
                assert(piece_items(piece).take(toks@.len() as int) =~= piece_items(piece));
                assert(spec_tokens(chars@).take(toks@.len() as int) =~= spec_tokens(chars@));
                tokens_size_prefix(spec_tokens(chars@), j + 1);
                assert(items_size(piece_items(piece).take(j + 1)) <= items_size(piece_items(piece)));
            }
            match token {
                Token::Word(a, b) => {
                    let text = substring(&chars, a, b);
                    let ghost old_word = row_view(word@);
                    word.push((text, tone));
                    proof {
                        assert(row_view(word@) =~= old_word.push((chars@.subrange(a as int, b as int), tone)));
                        assert(row_view(word@).drop_last() =~= old_word);
                    }
                },
                _ => {
                    if word.len() > 0 {
                        wrapper.word(&word);
                        word = Vec::new();
                    }
                    proof {
                        assert(row_view(word@) =~= Seq::<SPiece>::empty());
                        size_nonnegative(acc.1);
                    }
                    match token {
                        Token::Space(a, b) => {
                            let text = substring(&chars, a, b);
                            wrapper.space(text, tone);
                        },
                        _ => {
                            wrapper.hard_break();
                        },
                    }
                },
            }
            j = j + 1;
        }
        proof {
            assert(piece_items(piece).take(toks@.len() as int) =~= piece_items(piece));
        }
        i = i + 1;
    }
    proof {
        assert(all.take(pieces@.len() as int) =~= all);
    }
    if word.len() > 0 {
        wrapper.word(&word);
    }
    let row = wrapper.row;
    let mut rows = wrapper.rows;
    let ghost before = rows_view(rows@);
    rows.push(row);
    proof {
        assert(rows_view(rows@) =~= before.push(row_view(row@)));
        rows_size_push(before, row_view(row@));
        all_items_size(all);
    }
    rows
}


// ---------------------------------------------------------------------------------------------
// What wrapping keeps of the text.

/// A text without its spaces and line breaks.
pub open spec fn bare(s: Seq<char>) -> Seq<char>
    decreases s.len(),
{
    if s.len() == 0 {
        Seq::empty()
    } else if s.last() == ' ' || s.last() == '\n' {
        bare(s.drop_last())
    } else {
        bare(s.drop_last()).push(s.last())
    }
}

/// Whether a text is spaces only.
pub open spec fn all_spaces(s: Seq<char>) -> bool {
    forall|k: int| 0 <= k < s.len() ==> s[k] == ' '
}

/// The text of rows, one after another.
pub open spec fn rows_text(rows: Seq<Seq<SPiece>>) -> Seq<char>
    decreases rows.len(),
{
    if rows.len() == 0 {
        Seq::empty()
    } else {
        rows_text(rows.drop_last()) + joined(rows.last())
    }
}

/// The text wrapping has placed so far: the finished rows, then the row being filled.
pub open spec fn placed_text(st: WrapState) -> Seq<char> {
    rows_text(st.rows) + joined(st.row)
}

/// Whether the spaces waiting for the next word are spaces only.
pub open spec fn pending_spaces(st: WrapState) -> bool {
    match st.pending {
        Some(space) => all_spaces(space.0),
        None => true,
    }
}

/// Leaving out spaces and line breaks adds up over two texts put together.
proof fn bare_concat(a: Seq<char>, b: Seq<char>)
    ensures
        bare(a + b) == bare(a) + bare(b),
    decreases b.len(),
{
    if b.len() == 0 {
        assert(a + b =~= a);
        assert(bare(a) + bare(b) =~= bare(a));
    } else {
        bare_concat(a, b.drop_last());
        assert((a + b).drop_last() =~= a + b.drop_last());
        assert((a + b).last() == b.last());
        if !(b.last() == ' ' || b.last() == '\n') {
            assert(bare(a) + bare(b.drop_last()).push(b.last()) =~= (bare(a) + bare(b.drop_last())).push(b.last()));
        }
    }
}

/// Spaces leave nothing.
proof fn bare_spaces(s: Seq<char>)
    requires
        all_spaces(s),
    ensures
        bare(s) == Seq::<char>::empty(),
    decreases s.len(),
{
    if s.len() > 0 {
        bare_spaces(s.drop_last());
    }
}

/// Adding text to the row places exactly that text.
proof fn st_push_places(st: WrapState, text: Seq<char>, tone: Tone)
    ensures
        placed_text(st_push(st, text, tone)) == placed_text(st) + text,
        st_push(st, text, tone).pending == st.pending,
{
    let out = st_push(st, text, tone);
    if st.row.len() > 0 && st.row.last().1 == tone {
        let last = st.row.last();
        assert(out.row.drop_last() =~= st.row.drop_last());
        assert(joined(out.row) =~= joined(st.row.drop_last()) + last.0 + text);
        assert(joined(st.row) == joined(st.row.drop_last()) + last.0);
    } else {
        assert(out.row.drop_last() =~= st.row);
    }
    assert(placed_text(out) =~= placed_text(st) + text);
}

/// Ending a row places nothing and drops the waiting spaces.
proof fn st_breaks_place_nothing(st: WrapState)
    ensures
        placed_text(st_hard_break(st)) == placed_text(st),
        placed_text(st_soft_break(st)) == placed_text(st),
        st_hard_break(st).pending is None,
        st_soft_break(st).pending is None,
{
    let h = st_hard_break(st);
    assert(h.rows.drop_last() =~= st.rows);
    assert(placed_text(h) =~= placed_text(st));
    let s = st_soft_break(st);
    assert(s.rows.drop_last() =~= st.rows);
    assert(placed_text(s) =~= placed_text(st));
}

/// Putting the waiting spaces on the row adds only spaces.
proof fn st_flush_places(st: WrapState)
    requires
        pending_spaces(st),
    ensures
        bare(placed_text(st_flush(st))) == bare(placed_text(st)),
        st_flush(st).pending is None,
{
    if let Some(space) = st.pending {
        st_push_places(WrapState { pending: None, ..st }, space.0, space.1);
        bare_concat(placed_text(st), space.0);
        bare_spaces(space.0);
        assert(bare(placed_text(st)) + Seq::<char>::empty() =~= bare(placed_text(st)));
    }
}

/// Adding pieces places their text.
proof fn st_push_all_places(st: WrapState, pieces: Seq<SPiece>)
    ensures
        placed_text(st_push_all(st, pieces)) == placed_text(st) + joined(pieces),
        st_push_all(st, pieces).pending == st.pending,
    decreases pieces.len(),
{
    if pieces.len() == 0 {
        assert(placed_text(st) + joined(pieces) =~= placed_text(st));
    } else {
        st_push_all_places(st, pieces.drop_last());
        let before = st_push_all(st, pieces.drop_last());
        st_push_places(before, pieces.last().0, pieces.last().1);
        assert(placed_text(st) + joined(pieces.drop_last()) + pieces.last().0 =~= placed_text(st) + joined(pieces));
    }
}

/// The characters of characters with tones.
pub open spec fn item_chars(chars: Seq<(char, Tone)>) -> Seq<char> {
    chars.map_values(|x: (char, Tone)| x.0)
}

/// Adding characters one by one places them, dropping waiting spaces at a break.
proof fn st_push_chars_places(st: WrapState, chars: Seq<(char, Tone)>)
    requires
        pending_spaces(st),
    ensures
        placed_text(st_push_chars(st, chars)) == placed_text(st) + item_chars(chars),
        pending_spaces(st_push_chars(st, chars)),
        chars.len() > 0 ==> st_push_chars(st, chars).pending is None || st_push_chars(st, chars).pending == st.pending,
    decreases chars.len(),
{
    if chars.len() == 0 {
        assert(placed_text(st) + item_chars(chars) =~= placed_text(st));
    } else {
        st_push_chars_places(st, chars.drop_last());
        let before = st_push_chars(st, chars.drop_last());
        let c = chars.last().0;
        let st1 = if before.used + char_cols(c) > before.max { st_soft_break(before) } else { before };
        st_breaks_place_nothing(before);
        st_push_places(st1, seq![c], chars.last().1);
        assert(item_chars(chars) =~= item_chars(chars.drop_last()).push(c));
        assert(placed_text(st) + item_chars(chars.drop_last()) + seq![c] =~= placed_text(st) + item_chars(chars));
    }
}

/// The characters of pieces, one by one, are their text.
proof fn char_items_text(pieces: Seq<SPiece>)
    ensures
        item_chars(char_items(pieces)) == joined(pieces),
    decreases pieces.len(),
{
    if pieces.len() == 0 {
        assert(item_chars(char_items(pieces)) =~= Seq::<char>::empty());
    } else {
        char_items_text(pieces.drop_last());
        let last = pieces.last();
        assert(item_chars(char_items(pieces)) =~= item_chars(char_items(pieces.drop_last())) + last.0);
    }
}

/// Placing a word places its text; only spaces that were waiting may come with it.
proof fn st_word_places(st: WrapState, pieces: Seq<SPiece>)
    requires
        pending_spaces(st),
    ensures
        bare(placed_text(st_word(st, pieces))) == bare(placed_text(st)) + bare(joined(pieces)),
        st_word(st, pieces).pending is None,
{
    let cols = columns(pieces);
    let spacing = match st.pending {
        Some(space) => str_columns(space.0) as int,
        None => 0,
    };
    st_flush_places(st);
    st_breaks_place_nothing(st);
    if st.used + spacing + cols <= st.max {
        st_push_all_places(st_flush(st), pieces);
        bare_concat(placed_text(st_flush(st)), joined(pieces));
    } else if cols <= st.max {
        st_push_all_places(st_soft_break(st), pieces);
        bare_concat(placed_text(st_soft_break(st)), joined(pieces));
    } else {
        let st1 = if st.used + spacing < st.max { st_flush(st) } else { st_soft_break(st) };
        st_push_chars_places(st1, char_items(pieces));
        char_items_text(pieces);
        bare_concat(placed_text(st1), joined(pieces));
        if char_items(pieces).len() == 0 {
            assert(st_push_chars(st1, char_items(pieces)) == st1);
        }
    }
}

/// The text an item stands for; a line break stands for none.
pub open spec fn item_text(item: Item) -> Seq<char> {
    match item {
        Item::Break => Seq::empty(),
        Item::Space(text, _) => text,
        Item::Word(text, _) => text,
    }
}

/// The text of items, one after another.
pub open spec fn items_text(items: Seq<Item>) -> Seq<char>
    decreases items.len(),
{
    if items.len() == 0 {
        Seq::empty()
    } else {
        items_text(items.drop_last()) + item_text(items.last())
    }
}

/// Whether every run of spaces among items is spaces only.
pub open spec fn spaces_are_spaces(items: Seq<Item>) -> bool {
    forall|k: int| 0 <= k < items.len() ==> (#[trigger] items[k] matches Item::Space(text, _) ==> all_spaces(text))
}

/// The text of items adds up over two lists put together.
proof fn items_text_concat(a: Seq<Item>, b: Seq<Item>)
    ensures
        items_text(a + b) == items_text(a) + items_text(b),
    decreases b.len(),
{
    if b.len() == 0 {
        assert(a + b =~= a);
        assert(items_text(a) + items_text(b) =~= items_text(a));
    } else {
        items_text_concat(a, b.drop_last());
        assert((a + b).drop_last() =~= a + b.drop_last());
        assert(items_text(a) + items_text(b.drop_last()) + item_text(b.last()) =~= items_text(a) + items_text(b));
    }
}

/// The items of a text from character `i` on stand for that part of it, line breaks aside, and
/// their runs of spaces are spaces only.
proof fn tokens_keep_the_text(s: Seq<char>, tone: Tone, i: int)
    requires
        0 <= i <= s.len(),
        s.len() <= usize::MAX,
    ensures
        ({
            let items = tokens_from(s, i).map_values(|token: Token| token_item(s, tone, token));
            &&& bare(items_text(items)) == bare(s.skip(i))
            &&& spaces_are_spaces(items)
        }),
    decreases s.len() - i,
{
    let items = tokens_from(s, i).map_values(|token: Token| token_item(s, tone, token));
    if i == s.len() {
        assert(items =~= Seq::<Item>::empty());
        assert(s.skip(i) =~= Seq::<char>::empty());
    } else if s[i] == '\n' {
        tokens_keep_the_text(s, tone, i + 1);
        let rest = tokens_from(s, i + 1).map_values(|token: Token| token_item(s, tone, token));
        assert(items =~= seq![Item::Break] + rest);
        items_text_concat(seq![Item::Break], rest);
        let one = seq![Item::Break];
        assert(one.drop_last() =~= Seq::<Item>::empty());
        assert(one.last() == Item::Break);
        assert(items_text(one.drop_last()) == Seq::<char>::empty());
        assert(items_text(one) =~= Seq::<char>::empty());
        assert(s.skip(i) =~= seq!['\n'] + s.skip(i + 1));
        bare_concat(seq!['\n'], s.skip(i + 1));
        let nl = seq!['\n'];
        assert(nl.drop_last() =~= Seq::<char>::empty());
        assert(nl.last() == '\n');
        assert(bare(nl.drop_last()) == Seq::<char>::empty());
        assert(bare(nl) =~= Seq::<char>::empty());
        assert(Seq::<char>::empty() + items_text(rest) =~= items_text(rest));
        assert(Seq::<char>::empty() + bare(s.skip(i + 1)) =~= bare(s.skip(i + 1)));
        assert forall|k: int| 0 <= k < items.len() implies (#[trigger] items[k] matches Item::Space(text, _) ==> all_spaces(text)) by {
            if k > 0 {
                assert(items[k] == rest[k - 1]);
            }
        }
    } else {
        let space = s[i] == ' ';
        lemma_run_end(s, i, space);
        let end = run_end(s, i, space);
        tokens_keep_the_text(s, tone, end);
        let rest = tokens_from(s, end).map_values(|token: Token| token_item(s, tone, token));
        let token = if space { Token::Space(i as usize, end as usize) } else { Token::Word(i as usize, end as usize) };
        let item = token_item(s, tone, token);
        assert(items =~= seq![item] + rest);
        items_text_concat(seq![item], rest);
        assert(seq![item].drop_last() =~= Seq::<Item>::empty());
        assert(item_text(item) =~= s.subrange(i, end));
        let one = seq![item];
        assert(one.drop_last() =~= Seq::<Item>::empty());
        assert(one.last() == item);
        assert(items_text(one.drop_last()) == Seq::<char>::empty());
        assert(items_text(one) =~= s.subrange(i, end));
        assert(s.skip(i) =~= s.subrange(i, end) + s.skip(end));
        bare_concat(s.subrange(i, end), s.skip(end));
        bare_concat(s.subrange(i, end), items_text(rest));
        assert(items_text(items) == s.subrange(i, end) + items_text(rest));
        assert forall|k: int| 0 <= k < items.len() implies (#[trigger] items[k] matches Item::Space(text, _) ==> all_spaces(text)) by {
            if k > 0 {
                assert(items[k] == rest[k - 1]);
            } else if space {
                assert(items[0] == item);
                assert forall|m: int| 0 <= m < end - i implies s.subrange(i, end)[m] == ' ' by {
                    assert(s.subrange(i, end)[m] == s[i + m]);
                }
            }
        }
    }
}

/// The items of pieces stand for the pieces' text, line breaks aside, and their runs of spaces
/// are spaces only.
proof fn all_items_keep_the_text(pieces: Seq<SPiece>)
    requires
        forall|k: int| 0 <= k < pieces.len() ==> (#[trigger] pieces[k]).0.len() <= usize::MAX,
    ensures
        bare(items_text(all_items(pieces))) == bare(joined(pieces)),
        spaces_are_spaces(all_items(pieces)),
    decreases pieces.len(),
{
    if pieces.len() > 0 {
        let before = all_items(pieces.drop_last());
        let last = pieces.last();
        assert(pieces[pieces.len() - 1] == last);
        assert forall|k: int| 0 <= k < pieces.len() - 1 implies (#[trigger] pieces.drop_last()[k]).0.len() <= usize::MAX by {
            assert(pieces.drop_last()[k] == pieces[k]);
        }
        all_items_keep_the_text(pieces.drop_last());
        tokens_keep_the_text(last.0, last.1, 0);
        assert(last.0.skip(0) =~= last.0);
        items_text_concat(before, piece_items(last));
        bare_concat(items_text(before), items_text(piece_items(last)));
        bare_concat(joined(pieces.drop_last()), last.0);
        let all = all_items(pieces);
        assert forall|k: int| 0 <= k < all.len() implies (#[trigger] all[k] matches Item::Space(text, _) ==> all_spaces(text)) by {
            if k < before.len() {
                assert(all[k] == before[k]);
            } else {
                assert(all[k] == piece_items(last)[k - before.len()]);
            }
        }
    }
}

/// Placing the gathered word places its text.
proof fn place_word_places(st: WrapState, word: Seq<SPiece>)
    requires
        pending_spaces(st),
    ensures
        bare(placed_text(place_word(st, word))) == bare(placed_text(st)) + bare(joined(word)),
        pending_spaces(place_word(st, word)),
{
    if word.len() > 0 {
        st_word_places(st, word);
    } else {
        assert(bare(joined(word)) =~= Seq::<char>::empty());
        assert(bare(placed_text(st)) + bare(joined(word)) =~= bare(placed_text(st)));
    }
}

/// Going through items places their text, line breaks and spaces aside, what is placed and the
/// word still gathering together.
proof fn run_items_keep_the_text(max: int, items: Seq<Item>)
    requires
        spaces_are_spaces(items),
    ensures
        ({
            let acc = run_items((wrap_start(max), Seq::empty()), items);
            &&& bare(placed_text(acc.0)) + bare(joined(acc.1)) == bare(items_text(items))
            &&& pending_spaces(acc.0)
        }),
    decreases items.len(),
{
    if items.len() == 0 {
        let st = wrap_start(max);
        assert(placed_text(st) =~= Seq::<char>::empty());
        assert(bare(placed_text(st)) + bare(joined(Seq::<SPiece>::empty())) =~= Seq::<char>::empty());
    } else {
        let rest = items.drop_last();
        assert forall|k: int| 0 <= k < rest.len() implies (#[trigger] rest[k] matches Item::Space(text, _) ==> all_spaces(text)) by {
            assert(rest[k] == items[k]);
        }
        run_items_keep_the_text(max, rest);
        let acc = run_items((wrap_start(max), Seq::empty()), rest);
        let item = items.last();
        assert(items[items.len() - 1] == item);
        bare_concat(items_text(rest), item_text(item));
        match item {
            Item::Word(text, tone) => {
                let word = acc.1.push((text, tone));
                assert(word.drop_last() =~= acc.1);
                assert(joined(word) == joined(acc.1) + text);
                bare_concat(joined(acc.1), text);
                assert(bare(placed_text(acc.0)) + (bare(joined(acc.1)) + bare(text)) =~= bare(placed_text(acc.0)) + bare(joined(acc.1)) + bare(text));
            },
            Item::Break => {
                place_word_places(acc.0, acc.1);
                st_breaks_place_nothing(place_word(acc.0, acc.1));
                assert(bare(joined(Seq::<SPiece>::empty())) =~= Seq::<char>::empty());
                assert(bare(item_text(item)) =~= Seq::<char>::empty());
                assert(bare(placed_text(acc.0)) + bare(joined(acc.1)) + Seq::<char>::empty() =~= bare(placed_text(acc.0)) + bare(joined(acc.1)));
            },
            Item::Space(text, tone) => {
                place_word_places(acc.0, acc.1);
                let st = place_word(acc.0, acc.1);
                bare_spaces(text);
                if st.row.len() == 0 && st.pending is None {
                    if !st.soft {
                        st_word_places(st, seq![(text, tone)]);
                        assert(seq![(text, tone)].drop_last() =~= Seq::<SPiece>::empty());
                        let one = seq![(text, tone)];
                        assert(one.last() == (text, tone));
                        assert(joined(one.drop_last()) == Seq::<char>::empty());
                        assert(joined(one) =~= text);
                    }
                }
                assert(bare(joined(Seq::<SPiece>::empty())) =~= Seq::<char>::empty());
                assert(bare(placed_text(acc.0)) + bare(joined(acc.1)) + Seq::<char>::empty() =~= bare(placed_text(acc.0)) + bare(joined(acc.1)));
                assert(bare(placed_text(st)) + Seq::<char>::empty() =~= bare(placed_text(st)));
            },
        }
    }
}

/// Wrapping loses nothing of the text but spaces and line breaks: its rows hold every other
/// character of the pieces, in order.
pub proof fn wrap_keeps_the_text(pieces: Seq<SPiece>, max: int)
    requires
        forall|k: int| 0 <= k < pieces.len() ==> (#[trigger] pieces[k]).0.len() <= usize::MAX,
    ensures
        bare(rows_text(spec_wrap(pieces, max))) == bare(joined(pieces)),
{
    all_items_keep_the_text(pieces);
    let items = all_items(pieces);
    run_items_keep_the_text(max, items);
    let acc = run_items((wrap_start(max), Seq::empty()), items);
    place_word_places(acc.0, acc.1);
    let st = place_word(acc.0, acc.1);
    let rows = st.rows.push(st.row);
    assert(rows.drop_last() =~= st.rows);
    assert(rows_text(rows) == placed_text(st));
}

/// Whether `unicode-width` measures every run of `text` as the sum of its characters' widths. It
/// does for text without the few sequences it measures as one (a variation selector after a
/// symbol, for instance, can widen it); a caller can check it with [`width`].
pub open spec fn runs_add_up(text: Seq<char>) -> bool {
    forall|i: int, j: int|
        0 <= i <= j <= text.len() ==> #[trigger] str_columns(text.subrange(i, j)) == chars_columns(text.subrange(i, j))
}

/// Whether every run of `text` adds up and no character of it is wider than `max` columns.
pub open spec fn fits_by_character(text: Seq<char>, max: int) -> bool {
    &&& runs_add_up(text)
    &&& forall|k: int| 0 <= k < text.len() ==> char_cols(#[trigger] text[k]) <= max
}

/// What holds of a text holds of each run of it.
proof fn fits_by_character_part(text: Seq<char>, max: int, a: int, b: int)
    requires
        fits_by_character(text, max),
        0 <= a <= b <= text.len(),
    ensures
        fits_by_character(text.subrange(a, b), max),
{
    let part = text.subrange(a, b);
    assert forall|i: int, j: int| 0 <= i <= j <= part.len() implies #[trigger] str_columns(part.subrange(i, j)) == chars_columns(part.subrange(i, j)) by {
        assert(part.subrange(i, j) =~= text.subrange(a + i, a + j));
    }
    assert forall|k: int| 0 <= k < part.len() implies char_cols(#[trigger] part[k]) <= max by {
        assert(part[k] == text[a + k]);
    }
}

/// A text whose runs add up is measured as the sum of its characters' widths.
proof fn runs_add_up_whole(text: Seq<char>)
    requires
        runs_add_up(text),
    ensures
        str_columns(text) == chars_columns(text),
{
    assert(text.subrange(0, text.len() as int) =~= text);
}

/// Where wrapping stands keeps to its width: the row being filled takes the columns counted for
/// it, at most the width, and so does every finished row.
pub open spec fn rows_fit(st: WrapState) -> bool {
    &&& st.used == chars_columns(joined(st.row))
    &&& st.used <= st.max
    &&& forall|i: int| 0 <= i < st.rows.len() ==> chars_columns(joined(#[trigger] st.rows[i])) <= st.max
}

/// Pieces each measured as the sum of their characters take the columns of their characters.
proof fn columns_are_chars_columns(pieces: Seq<SPiece>)
    requires
        forall|k: int| 0 <= k < pieces.len() ==> str_columns((#[trigger] pieces[k]).0) == chars_columns(pieces[k].0),
    ensures
        columns(pieces) == chars_columns(joined(pieces)),
    decreases pieces.len(),
{
    if pieces.len() > 0 {
        assert(str_columns(pieces[pieces.len() - 1].0) == chars_columns(pieces[pieces.len() - 1].0));
        assert forall|k: int| 0 <= k < pieces.len() - 1 implies str_columns((#[trigger] pieces.drop_last()[k]).0) == chars_columns(pieces.drop_last()[k].0) by {
            assert(pieces.drop_last()[k] == pieces[k]);
        }
        columns_are_chars_columns(pieces.drop_last());
        chars_columns_concat(joined(pieces.drop_last()), pieces.last().0);
    }
}

/// Adding text measured as the sum of its characters to the row adds their columns.
proof fn st_push_counts(st: WrapState, text: Seq<char>, tone: Tone)
    requires
        str_columns(text) == chars_columns(text),
        st.used == chars_columns(joined(st.row)),
    ensures
        st_push(st, text, tone).used == st.used + chars_columns(text),
        st_push(st, text, tone).used == chars_columns(joined(st_push(st, text, tone).row)),
        st_push(st, text, tone).rows == st.rows,
        st_push(st, text, tone).max == st.max,
{
    let out = st_push(st, text, tone);
    st_push_places(st, text, tone);
    assert(joined(out.row) =~= joined(st.row) + text) by {
        assert(placed_text(out) == rows_text(st.rows) + joined(out.row));
        assert(rows_text(st.rows) + joined(out.row) =~= rows_text(st.rows) + (joined(st.row) + text));
        assert(joined(out.row) =~= (rows_text(st.rows) + joined(out.row)).skip(rows_text(st.rows).len() as int));
        assert((rows_text(st.rows) + (joined(st.row) + text)).skip(rows_text(st.rows).len() as int) =~= joined(st.row) + text);
    }
    chars_columns_concat(joined(st.row), text);
}

/// Ending a row keeps every row within the width.
proof fn st_breaks_fit(st: WrapState)
    requires
        rows_fit(st),
    ensures
        rows_fit(st_hard_break(st)),
        rows_fit(st_soft_break(st)),
{
    chars_columns_nonnegative(joined(st.row));
    assert(chars_columns(Seq::<char>::empty()) == 0);
    let h = st_hard_break(st);
    assert(joined(h.row) =~= Seq::<char>::empty());
    assert forall|i: int| 0 <= i < h.rows.len() implies chars_columns(joined(#[trigger] h.rows[i])) <= h.max by {
        if i < st.rows.len() {
            assert(h.rows[i] == st.rows[i]);
        } else {
            assert(h.rows[i] == st.row);
        }
    }
    let s = st_soft_break(st);
    assert(joined(s.row) =~= Seq::<char>::empty());
    assert forall|i: int| 0 <= i < s.rows.len() implies chars_columns(joined(#[trigger] s.rows[i])) <= s.max by {
        if i < st.rows.len() {
            assert(s.rows[i] == st.rows[i]);
        } else {
            assert(s.rows[i] == st.row);
        }
    }
}

/// Adding pieces each measured as the sum of their characters adds their columns.
proof fn st_push_all_counts(st: WrapState, pieces: Seq<SPiece>)
    requires
        forall|k: int| 0 <= k < pieces.len() ==> str_columns((#[trigger] pieces[k]).0) == chars_columns(pieces[k].0),
        st.used == chars_columns(joined(st.row)),
    ensures
        st_push_all(st, pieces).used == st.used + columns(pieces),
        st_push_all(st, pieces).used == chars_columns(joined(st_push_all(st, pieces).row)),
        st_push_all(st, pieces).rows == st.rows,
        st_push_all(st, pieces).max == st.max,
    decreases pieces.len(),
{
    if pieces.len() > 0 {
        assert(str_columns(pieces[pieces.len() - 1].0) == chars_columns(pieces[pieces.len() - 1].0));
        assert forall|k: int| 0 <= k < pieces.len() - 1 implies str_columns((#[trigger] pieces.drop_last()[k]).0) == chars_columns(pieces.drop_last()[k].0) by {
            assert(pieces.drop_last()[k] == pieces[k]);
        }
        st_push_all_counts(st, pieces.drop_last());
        let before = st_push_all(st, pieces.drop_last());
        st_push_counts(before, pieces.last().0, pieces.last().1);
    }
}

/// Adding characters one by one keeps every row within the width when no character is wider and
/// each is measured as its own width.
proof fn st_push_chars_fit(st: WrapState, chars: Seq<(char, Tone)>)
    requires
        forall|k: int| 0 <= k < chars.len() ==> char_cols((#[trigger] chars[k]).0) <= st.max && str_columns(seq![chars[k].0]) == char_cols(chars[k].0),
        rows_fit(st),
    ensures
        rows_fit(st_push_chars(st, chars)),
        st_push_chars(st, chars).max == st.max,
    decreases chars.len(),
{
    if chars.len() > 0 {
        assert forall|k: int| 0 <= k < chars.len() - 1 implies char_cols((#[trigger] chars.drop_last()[k]).0) <= st.max && str_columns(seq![chars.drop_last()[k].0]) == char_cols(chars.drop_last()[k].0) by {
            assert(chars.drop_last()[k] == chars[k]);
        }
        st_push_chars_fit(st, chars.drop_last());
        let before = st_push_chars(st, chars.drop_last());
        let c = chars.last().0;
        assert(chars[chars.len() - 1].0 == c);
        let st1 = if before.used + char_cols(c) > before.max { st_soft_break(before) } else { before };
        st_breaks_fit(before);
        assert(seq![c].drop_last() =~= Seq::<char>::empty());
        assert(chars_columns(seq![c]) == char_cols(c));
        st_push_counts(st1, seq![c], chars.last().1);
    }
}

/// Whether every piece's text fits by character.
pub open spec fn pieces_fit_by_character(pieces: Seq<SPiece>, max: int) -> bool {
    forall|k: int| 0 <= k < pieces.len() ==> fits_by_character((#[trigger] pieces[k]).0, max)
}

/// The characters of pieces that fit by character are each no wider than `max` and measured as
/// their own width.
proof fn char_items_fit(pieces: Seq<SPiece>, max: int)
    requires
        pieces_fit_by_character(pieces, max),
    ensures
        forall|k: int| 0 <= k < char_items(pieces).len() ==> char_cols((#[trigger] char_items(pieces)[k]).0) <= max
            && str_columns(seq![char_items(pieces)[k].0]) == char_cols(char_items(pieces)[k].0),
    decreases pieces.len(),
{
    if pieces.len() > 0 {
        let rest = pieces.drop_last();
        assert forall|k: int| 0 <= k < rest.len() implies fits_by_character((#[trigger] rest[k]).0, max) by {
            assert(rest[k] == pieces[k]);
        }
        char_items_fit(rest, max);
        let last = pieces.last();
        assert(pieces[pieces.len() - 1] == last);
        let text = last.0;
        assert(fits_by_character(text, max));
        let all = char_items(pieces);
        let before = char_items(rest);
        assert(all =~= before + text.map_values(|c: char| (c, last.1)));
        assert forall|k: int| 0 <= k < all.len() implies char_cols((#[trigger] all[k]).0) <= max
            && str_columns(seq![all[k].0]) == char_cols(all[k].0) by {
            if k < before.len() {
                assert(all[k] == before[k]);
            } else {
                let m = k - before.len();
                assert(all[k].0 == text[m]);
                assert(text.subrange(m, m + 1) =~= seq![text[m]]);
                assert(str_columns(text.subrange(m, m + 1)) == chars_columns(text.subrange(m, m + 1)));
                let one = seq![text[m]];
                assert(one.drop_last() =~= Seq::<char>::empty());
                assert(one.last() == text[m]);
                assert(chars_columns(one.drop_last()) == 0);
                assert(chars_columns(one) == char_cols(text[m]));
                assert(seq![all[k].0] == seq![text[m]]);
            }
        }
    }
}

/// Placing a word keeps every row within the width when the word and the waiting spaces fit by
/// character.
proof fn st_word_fits(st: WrapState, pieces: Seq<SPiece>)
    requires
        pieces_fit_by_character(pieces, st.max),
        st.pending matches Some(space) ==> fits_by_character(space.0, st.max),
        rows_fit(st),
    ensures
        rows_fit(st_word(st, pieces)),
        st_word(st, pieces).max == st.max,
        st_word(st, pieces).pending is None,
{
    let cols = columns(pieces);
    let spacing = match st.pending {
        Some(space) => str_columns(space.0) as int,
        None => 0,
    };
    assert forall|k: int| 0 <= k < pieces.len() implies str_columns((#[trigger] pieces[k]).0) == chars_columns(pieces[k].0) by {
        runs_add_up_whole(pieces[k].0);
    }
    let flushed = st_flush(st);
    let cleared = WrapState { pending: None, ..st };
    if let Some(space) = st.pending {
        runs_add_up_whole(space.0);
        st_push_counts(cleared, space.0, space.1);
    }
    if let Some(space) = st.pending {
        st_push_places(cleared, space.0, space.1);
    }
    st_breaks_place_nothing(st);
    assert(flushed.pending is None);
    assert(flushed.used == st.used + spacing);
    assert(flushed.used == chars_columns(joined(flushed.row)));
    assert(flushed.rows == st.rows);
    st_breaks_fit(st);
    if st.used + spacing + cols <= st.max {
        st_push_all_counts(flushed, pieces);
        st_push_all_places(flushed, pieces);
    } else if cols <= st.max {
        st_push_all_counts(st_soft_break(st), pieces);
        st_push_all_places(st_soft_break(st), pieces);
    } else {
        let st1 = if st.used + spacing < st.max { flushed } else { st_soft_break(st) };
        assert(rows_fit(st1));
        let chars = char_items(pieces);
        char_items_fit(pieces, st.max);
        st_push_chars_places(st1, chars);
        st_push_chars_fit(st1, chars);
    }
}

/// Whether the text of every run of spaces and every part of a word among items fits by
/// character.
pub open spec fn items_fit_by_character(items: Seq<Item>, max: int) -> bool {
    forall|k: int| 0 <= k < items.len() ==> match #[trigger] items[k] {
        Item::Word(text, _) => fits_by_character(text, max),
        Item::Space(text, _) => fits_by_character(text, max),
        Item::Break => true,
    }
}

/// The items of a text that fits by character fit by character.
proof fn tokens_fit_by_character(s: Seq<char>, tone: Tone, i: int, max: int)
    requires
        0 <= i <= s.len(),
        s.len() <= usize::MAX,
        fits_by_character(s, max),
    ensures
        items_fit_by_character(tokens_from(s, i).map_values(|token: Token| token_item(s, tone, token)), max),
    decreases s.len() - i,
{
    let items = tokens_from(s, i).map_values(|token: Token| token_item(s, tone, token));
    if i == s.len() {
        assert(items =~= Seq::<Item>::empty());
    } else if s[i] == '\n' {
        tokens_fit_by_character(s, tone, i + 1, max);
        let rest = tokens_from(s, i + 1).map_values(|token: Token| token_item(s, tone, token));
        assert(items =~= seq![Item::Break] + rest);
        assert forall|k: int| 0 <= k < items.len() implies match #[trigger] items[k] {
            Item::Word(text, _) => fits_by_character(text, max),
            Item::Space(text, _) => fits_by_character(text, max),
            Item::Break => true,
        } by {
            if k > 0 {
                assert(items[k] == rest[k - 1]);
            }
        }
    } else {
        let space = s[i] == ' ';
        lemma_run_end(s, i, space);
        let end = run_end(s, i, space);
        tokens_fit_by_character(s, tone, end, max);
        let rest = tokens_from(s, end).map_values(|token: Token| token_item(s, tone, token));
        let token = if space { Token::Space(i as usize, end as usize) } else { Token::Word(i as usize, end as usize) };
        let item = token_item(s, tone, token);
        assert(items =~= seq![item] + rest);
        fits_by_character_part(s, max, i, end);
        assert forall|k: int| 0 <= k < items.len() implies match #[trigger] items[k] {
            Item::Word(text, _) => fits_by_character(text, max),
            Item::Space(text, _) => fits_by_character(text, max),
            Item::Break => true,
        } by {
            if k > 0 {
                assert(items[k] == rest[k - 1]);
            } else {
                assert(items[0] == item);
            }
        }
    }
}

/// The items of pieces that fit by character fit by character.
proof fn all_items_fit_by_character(pieces: Seq<SPiece>, max: int)
    requires
        pieces_fit_by_character(pieces, max),
        forall|k: int| 0 <= k < pieces.len() ==> (#[trigger] pieces[k]).0.len() <= usize::MAX,
    ensures
        items_fit_by_character(all_items(pieces), max),
    decreases pieces.len(),
{
    if pieces.len() > 0 {
        let rest = pieces.drop_last();
        let last = pieces.last();
        assert(pieces[pieces.len() - 1] == last);
        assert forall|k: int| 0 <= k < rest.len() implies fits_by_character((#[trigger] rest[k]).0, max) && rest[k].0.len() <= usize::MAX by {
            assert(rest[k] == pieces[k]);
        }
        all_items_fit_by_character(rest, max);
        tokens_fit_by_character(last.0, last.1, 0, max);
        let before = all_items(rest);
        let all = all_items(pieces);
        assert forall|k: int| 0 <= k < all.len() implies match #[trigger] all[k] {
            Item::Word(text, _) => fits_by_character(text, max),
            Item::Space(text, _) => fits_by_character(text, max),
            Item::Break => true,
        } by {
            if k < before.len() {
                assert(all[k] == before[k]);
            } else {
                assert(all[k] == piece_items(last)[k - before.len()]);
            }
        }
    }
}

/// Going through items that fit by character keeps every row within the width, and the word
/// gathering and the waiting spaces fit by character too.
proof fn run_items_fit(max: int, items: Seq<Item>)
    requires
        items_fit_by_character(items, wrap_start(max).max),
    ensures
        ({
            let acc = run_items((wrap_start(max), Seq::empty()), items);
            &&& rows_fit(acc.0)
            &&& acc.0.max == wrap_start(max).max
            &&& pieces_fit_by_character(acc.1, acc.0.max)
            &&& (acc.0.pending matches Some(space) ==> fits_by_character(space.0, acc.0.max))
        }),
    decreases items.len(),
{
    let w = wrap_start(max).max;
    if items.len() == 0 {
        assert(joined(Seq::<SPiece>::empty()) == Seq::<char>::empty());
    } else {
        let rest = items.drop_last();
        assert forall|k: int| 0 <= k < rest.len() implies match #[trigger] rest[k] {
            Item::Word(text, _) => fits_by_character(text, w),
            Item::Space(text, _) => fits_by_character(text, w),
            Item::Break => true,
        } by {
            assert(rest[k] == items[k]);
        }
        run_items_fit(max, rest);
        let acc = run_items((wrap_start(max), Seq::empty()), rest);
        let placed = place_word(acc.0, acc.1);
        if acc.1.len() > 0 {
            st_word_fits(acc.0, acc.1);
        }
        assert(rows_fit(placed) && placed.max == w);
        assert(placed.pending matches Some(sp) ==> fits_by_character(sp.0, w));
        let item = items.last();
        assert(items[items.len() - 1] == item);
        assert(match items[items.len() - 1] {
            Item::Word(text, _) => fits_by_character(text, w),
            Item::Space(text, _) => fits_by_character(text, w),
            Item::Break => true,
        });
        match item {
            Item::Word(text, tone) => {
                assert(fits_by_character(text, w));
                let word = acc.1.push((text, tone));
                assert forall|k: int| 0 <= k < word.len() implies fits_by_character((#[trigger] word[k]).0, w) by {
                    if k < acc.1.len() {
                        assert(word[k] == acc.1[k]);
                    }
                }
            },
            Item::Break => {
                st_breaks_fit(placed);
            },
            Item::Space(text, tone) => {
                assert(fits_by_character(text, w));
                if placed.row.len() == 0 && placed.pending is None && !placed.soft {
                    assert(seq![(text, tone)][0] == (text, tone));
                    st_word_fits(placed, seq![(text, tone)]);
                }
            },
        }
    }
}

/// When every character of the pieces is no wider than the row (at least one column) and every
/// run of each piece is measured as the sum of its characters' widths, every row wrapping makes
/// takes at most the width, counted character by character; a row whose own pieces are measured
/// that way takes at most the width as `unicode-width` measures it.
pub proof fn wrapped_rows_fit(pieces: Seq<SPiece>, max: int)
    requires
        pieces_fit_by_character(pieces, if max < 1 { 1 } else { max }),
        forall|k: int| 0 <= k < pieces.len() ==> (#[trigger] pieces[k]).0.len() <= usize::MAX,
    ensures
        forall|i: int| 0 <= i < spec_wrap(pieces, max).len() ==> chars_columns(joined(#[trigger] spec_wrap(pieces, max)[i])) <= (if max < 1 { 1 } else { max }),
        forall|i: int| 0 <= i < spec_wrap(pieces, max).len() && (forall|k: int| 0 <= k < spec_wrap(pieces, max)[i].len() ==> str_columns(spec_wrap(pieces, max)[i][k].0) == chars_columns(spec_wrap(pieces, max)[i][k].0)) ==> columns(#[trigger] spec_wrap(pieces, max)[i]) <= (if max < 1 { 1 } else { max }),
{
    let w = if max < 1 { 1 } else { max };
    let items = all_items(pieces);
    all_items_fit_by_character(pieces, w);
    run_items_fit(max, items);
    let acc = run_items((wrap_start(max), Seq::empty()), items);
    if acc.1.len() > 0 {
        st_word_fits(acc.0, acc.1);
    }
    let st = place_word(acc.0, acc.1);
    let rows = st.rows.push(st.row);
    assert forall|i: int| 0 <= i < rows.len() implies chars_columns(joined(#[trigger] rows[i])) <= w by {
        if i < st.rows.len() {
            assert(rows[i] == st.rows[i]);
        }
    }
    assert forall|i: int| 0 <= i < rows.len() && (forall|k: int| 0 <= k < rows[i].len() ==> str_columns(rows[i][k].0) == chars_columns(rows[i][k].0)) implies columns(#[trigger] rows[i]) <= w by {
        assert forall|k: int| 0 <= k < rows[i].len() implies str_columns((#[trigger] rows[i][k]).0) == chars_columns(rows[i][k].0) by {}
        columns_are_chars_columns(rows[i]);
        if i < st.rows.len() {
            assert(rows[i] == st.rows[i]);
        }
    }
}

/// Every piece a cut row keeps is the start of one of the row's pieces.
pub proof fn cut_row_pieces(row: Seq<SPiece>, budget: int)
    ensures
        forall|i: int| 0 <= i < cut_row(row, budget).0.len() ==> exists|k: int, m: int|
            0 <= k < row.len() && 0 <= m <= row[k].0.len() && (#[trigger] cut_row(row, budget).0[i]).0 == row[k].0.take(m),
    decreases row.len(),
{
    if row.len() > 0 {
        let rest = row.drop_last();
        cut_row_pieces(rest, budget);
        let prev = cut_row(rest, budget);
        let out = cut_row(row, budget).0;
        if !prev.2 {
            let last = row.last();
            let cut = cut_text(last.0, prev.1, budget);
            if prev.1 >= 0 {
                cut_text_prefix(last.0, prev.1, budget);
            } else {
                cut_row_prefix(rest, budget);
                chars_columns_nonnegative(joined(prev.0));
            }
        }
        assert forall|i: int| 0 <= i < out.len() implies exists|k: int, m: int|
            0 <= k < row.len() && 0 <= m <= row[k].0.len() && (#[trigger] out[i]).0 == row[k].0.take(m) by {
            if i < prev.0.len() {
                assert(out[i] == prev.0[i]);
                let (k, m) = choose|k: int, m: int| 0 <= k < rest.len() && 0 <= m <= rest[k].0.len() && prev.0[i].0 == rest[k].0.take(m);
                assert(rest[k] == row[k]);
            } else {
                let last = row.last();
                let cut = cut_text(last.0, prev.1, budget);
                assert(row[row.len() - 1] == last);
                assert(out[i].0 == cut.0);
            }
        }
    }
}

/// A cut with no room keeps nothing more.
proof fn cut_text_over(text: Seq<char>, used: int, budget: int)
    requires
        budget < used,
    ensures
        cut_text(text, used, budget).1 == used,
    decreases text.len(),
{
    if text.len() > 0 {
        cut_text_over(text.drop_last(), used, budget);
        match char_columns(text.last()) {
            Some(n) => {},
            None => {},
        }
    }
}

/// A row cut with a budget below nothing keeps no columns.
proof fn cut_row_over(row: Seq<SPiece>, budget: int)
    requires
        budget < 0,
    ensures
        cut_row(row, budget).1 == 0,
    decreases row.len(),
{
    if row.len() > 0 {
        cut_row_over(row.drop_last(), budget);
        let prev = cut_row(row.drop_last(), budget);
        if !prev.2 {
            cut_text_over(row.last().0, prev.1, budget);
        }
    }
}

/// When every run of each of the row's pieces is measured as the sum of its characters' widths,
/// a row cut to `max` columns takes at most `max` columns, ellipsis included.
pub proof fn truncated_rows_fit(row: Seq<SPiece>, max: int, ellipsis: Seq<char>)
    requires
        forall|k: int| 0 <= k < row.len() ==> runs_add_up((#[trigger] row[k]).0),
        0 <= max,
    ensures
        columns(spec_truncate(row, max, ellipsis)) <= max,
{
    if columns(row) > max {
        let e = if str_columns(ellipsis) <= max { ellipsis } else { Seq::<char>::empty() };
        let budget = max - str_columns(e);
        cut_row_prefix(row, budget);
        cut_row_pieces(row, budget);
        let cut = cut_row(row, budget);
        assert forall|i: int| 0 <= i < cut.0.len() implies str_columns((#[trigger] cut.0[i]).0) == chars_columns(cut.0[i].0) by {
            let (k, m) = choose|k: int, m: int| 0 <= k < row.len() && 0 <= m <= row[k].0.len() && cut.0[i].0 == row[k].0.take(m);
            assert(row[k].0.subrange(0, m) =~= row[k].0.take(m));
            assert(runs_add_up(row[k].0));
            assert(str_columns(row[k].0.subrange(0, m)) == chars_columns(row[k].0.subrange(0, m)));
        }
        columns_are_chars_columns(cut.0);
        if e.len() > 0 {
            assert(cut.0.push((e, cut.3)).drop_last() =~= cut.0);
        }
        if budget < 0 {
            cut_row_over(row, budget);
        }
    }
}

/// Columns add up over two rows put together.
pub proof fn columns_concat(a: Seq<SPiece>, b: Seq<SPiece>)
    ensures
        columns(a + b) == columns(a) + columns(b),
    decreases b.len(),
{
    if b.len() == 0 {
        assert(a + b =~= a);
    } else {
        columns_concat(a, b.drop_last());
        assert((a + b).drop_last() =~= a + b.drop_last());
    }
}

/// Where a space takes one column, `n` spaces take `n`.
pub proof fn spaces_columns(n: nat)
    requires
        char_cols(' ') == 1,
    ensures
        chars_columns(spaces(n)) == n,
    decreases n,
{
    if n > 0 {
        spaces_columns((n - 1) as nat);
        assert(spaces(n).drop_last() =~= spaces((n - 1) as nat));
    }
}

/// Whether `unicode-width` measures `n` spaces as `n` columns, for every `n` up to `limit`.
pub open spec fn spaces_measured(limit: int) -> bool {
    forall|n: nat| n <= limit ==> #[trigger] str_columns(spaces(n)) == n
}

/// Where spaces are measured one column each, a padded row that was no wider than the target
/// takes exactly the target.
pub proof fn padded_columns(row: Seq<SPiece>, target: int)
    requires
        spaces_measured(target),
        columns(row) <= target,
    ensures
        columns(spec_pad(row, target)) == target,
{
    if columns(row) < target {
        columns_nonnegative(row);
        let fill = spaces((target - columns(row)) as nat);
        assert(str_columns(fill) == target - columns(row));
        let out = row.push((fill, body_tone()));
        assert(out.drop_last() =~= row);
    }
}

/// What holds of every run of a text holds of every run of each of its runs.
pub proof fn runs_add_up_part(text: Seq<char>, a: int, b: int)
    requires
        runs_add_up(text),
        0 <= a <= b <= text.len(),
    ensures
        runs_add_up(text.subrange(a, b)),
{
    let part = text.subrange(a, b);
    assert forall|i: int, j: int| 0 <= i <= j <= part.len() implies #[trigger] str_columns(part.subrange(i, j)) == chars_columns(part.subrange(i, j)) by {
        assert(part.subrange(i, j) =~= text.subrange(a + i, a + j));
    }
}

/// Spaces leave nothing once trailing spaces go.
pub proof fn spaces_strip_away(n: nat)
    ensures
        strip_spaces(spaces(n)).len() == 0,
    decreases n,
{
    if n > 0 {
        assert(spaces(n).drop_last() =~= spaces((n - 1) as nat));
        spaces_strip_away((n - 1) as nat);
    }
}

/// Whether a piece either goes entirely when trailing spaces go, or is measured run by run as the
/// sum of its characters' widths.
pub open spec fn trims_cleanly(piece: SPiece) -> bool {
    strip_spaces(piece.0).len() == 0 || runs_add_up(piece.0)
}

/// A text without its trailing spaces is a start of it.
proof fn strip_spaces_prefix(text: Seq<char>)
    ensures
        strip_spaces(text).len() <= text.len(),
        strip_spaces(text) == text.take(strip_spaces(text).len() as int),
    decreases text.len(),
{
    if text.len() > 0 && text.last() == ' ' {
        strip_spaces_prefix(text.drop_last());
        let k = strip_spaces(text.drop_last()).len() as int;
        assert(text.drop_last().take(k) =~= text.take(k));
    } else {
        assert(text.take(text.len() as int) =~= text);
    }
}

/// Counting characters' columns never gives a start of a text more than the text.
proof fn chars_columns_prefix(text: Seq<char>, k: int)
    requires
        0 <= k <= text.len(),
    ensures
        chars_columns(text.take(k)) <= chars_columns(text),
{
    assert(text =~= text.take(k) + text.skip(k));
    chars_columns_concat(text.take(k), text.skip(k));
    chars_columns_nonnegative(text.skip(k));
}

/// Dropping trailing spaces never widens a row whose pieces trim cleanly.
pub proof fn trimmed_columns(row: Seq<SPiece>)
    requires
        forall|k: int| 0 <= k < row.len() ==> trims_cleanly(#[trigger] row[k]),
    ensures
        columns(spec_trim_end(row)) <= columns(row),
    decreases row.len(),
{
    if row.len() > 0 {
        let last = row.last();
        let kept = strip_spaces(last.0);
        assert(row[row.len() - 1] == last);
        if kept.len() == 0 {
            assert forall|k: int| 0 <= k < row.len() - 1 implies trims_cleanly(#[trigger] row.drop_last()[k]) by {
                assert(row.drop_last()[k] == row[k]);
            }
            trimmed_columns(row.drop_last());
        } else {
            strip_spaces_prefix(last.0);
            chars_columns_prefix(last.0, kept.len() as int);
            assert(runs_add_up(last.0));
            assert(last.0.subrange(0, kept.len() as int) =~= kept);
            assert(str_columns(last.0.subrange(0, kept.len() as int)) == chars_columns(last.0.subrange(0, kept.len() as int)));
            runs_add_up_whole(last.0);
            assert(row.drop_last().push((kept, last.1)).drop_last() =~= row.drop_last());
        }
    }
}

// ---------------------------------------------------------------------------------------------
// Cutting, padding and trimming.

/// What is kept of one piece's text when `used` columns are already taken and at most `budget`
/// may be: the kept characters, the columns taken after them, and whether the piece ran out of
/// room.
pub open spec fn cut_text(text: Seq<char>, used: int, budget: int) -> (Seq<char>, int, bool)
    decreases text.len(),
{
    if text.len() == 0 {
        (Seq::empty(), used, false)
    } else {
        let prev = cut_text(text.drop_last(), used, budget);
        let c = text.last();
        if prev.2 {
            prev
        } else if prev.1 + char_cols(c) > budget {
            (prev.0, prev.1, true)
        } else {
            (prev.0.push(c), prev.1 + char_cols(c), false)
        }
    }
}

/// The pieces kept of a row cut at `budget` columns, the columns they take, whether the row ran
/// out of room, and the tone of the last piece looked at.
pub open spec fn cut_row(row: Seq<SPiece>, budget: int) -> (Seq<SPiece>, int, bool, Tone)
    decreases row.len(),
{
    if row.len() == 0 {
        (Seq::empty(), 0, false, body_tone())
    } else {
        let prev = cut_row(row.drop_last(), budget);
        if prev.2 {
            prev
        } else {
            let cut = cut_text(row.last().0, prev.1, budget);
            let out = if cut.0.len() > 0 {
                prev.0.push((cut.0, row.last().1))
            } else {
                prev.0
            };
            (out, cut.1, cut.2, row.last().1)
        }
    }
}

/// A row cut to `max` columns, ending with `ellipsis` (or nothing, when the ellipsis itself does
/// not fit) when anything was cut.
pub open spec fn spec_truncate(row: Seq<SPiece>, max: int, ellipsis: Seq<char>) -> Seq<SPiece> {
    if columns(row) <= max {
        row
    } else {
        let e = if str_columns(ellipsis) <= max {
            ellipsis
        } else {
            Seq::empty()
        };
        let budget = max - str_columns(e);
        let cut = cut_row(row, budget);
        if e.len() > 0 {
            cut.0.push((e, cut.3))
        } else {
            cut.0
        }
    }
}

/// The columns a cut keeps never exceed the budget.
proof fn cut_text_bound(text: Seq<char>, used: int, budget: int)
    requires
        0 <= used <= budget,
    ensures
        used <= cut_text(text, used, budget).1 <= budget,
    decreases text.len(),
{
    if text.len() > 0 {
        cut_text_bound(text.drop_last(), used, budget);
        match char_columns(text.last()) {
            Some(n) => {},
            None => {},
        }
    }
}

/// Cuts a row to `max` columns, ending with `ellipsis` when anything was cut.
pub fn truncate(row: Row, max: usize, ellipsis: &str) -> (out: Row)
    requires
        3 * size(row_view(row@)) <= usize::MAX,
    ensures
        row_view(out@) == spec_truncate(row_view(row@), max as int, ellipsis@),
{
    let ghost r = row_view(row@);
    if columns_of(row.as_slice()) <= max {
        return row;
    }
    let ew = str_width(ellipsis);
    let fits = ew <= max;
    let e = if fits {
        string_of(chars_of(ellipsis).as_slice())
    } else {
        String::new()
    };
    let e_width = str_width(e.as_str());
    proof {
        if !fits {
            assert(e@ =~= Seq::<char>::empty());
        }
    }
    let budget = max - e_width;
    let mut out: Row = Vec::new();
    let mut used: usize = 0;
    let mut full = false;
    let mut last_tone = Tone::body();
    let mut i: usize = 0;
    while i < row.len() && !full
        invariant
            i <= row@.len(),
            r == row_view(row@),
            (row_view(out@), used as int, full, last_tone) == cut_row(r.take(i as int), budget as int),
            used <= budget,
        decreases row@.len() - i,
    {
        let chars = chars_of(row[i].0.as_str());
        let tone = row[i].1;
        let ghost prev = cut_row(r.take(i as int), budget as int);
        proof {
            assert(r.take(i + 1).drop_last() =~= r.take(i as int));
            assert(r.take(i + 1).last() == (chars@, tone));
        }
        let mut kept = String::new();
        let mut j: usize = 0;
        let start_used = used;
        while j < chars.len() && !full
            invariant
                j <= chars@.len(),
                (kept@, used as int, full) == cut_text(chars@.take(j as int), start_used as int, budget as int),
                start_used <= used <= budget,
            decreases chars@.len() - j,
        {
            let c = chars[j];
            let cols = match char_width(c) {
                Some(n) => n,
                None => 0,
            };
            proof {
                assert(chars@.take(j + 1).drop_last() =~= chars@.take(j as int));
                assert(chars@.take(j + 1).last() == c);
            }
            if cols > budget - used {
                full = true;
            } else {
                crate::strings::push_char(&mut kept, c);
                used = used + cols;
            }
            j = j + 1;
        }
        proof {
            if !full {
                assert(chars@.take(j as int) =~= chars@);
            } else {
                // Once full, the rest of the text changes nothing.
                cut_text_full(chars@, j as int, start_used as int, budget as int);
            }
        }
        last_tone = tone;
        if !kept.as_str().is_empty() {
            let ghost before = row_view(out@);
            out.push((kept, tone));
            proof {
                assert(row_view(out@) =~= before.push((kept@, tone)));
            }
        }
        proof {
            if kept@.len() == 0 {
                assert(kept@ =~= Seq::<char>::empty());
            }
        }
        i = i + 1;
    }
    proof {
        if !full {
            assert(r.take(i as int) =~= r);
        } else {
            cut_row_full(r, i as int, budget as int);
        }
    }
    if !e.as_str().is_empty() {
        let ghost before = row_view(out@);
        out.push((e, last_tone));
        proof {
            assert(row_view(out@) =~= before.push((e@, last_tone)));
        }
    }
    proof {
        if e@.len() == 0 && fits {
            assert(ellipsis@.len() == 0);
        }
    }
    out
}

/// A cut keeps no more characters than the text has.
proof fn cut_text_size(text: Seq<char>, used: int, budget: int)
    ensures
        cut_text(text, used, budget).0.len() <= text.len(),
    decreases text.len(),
{
    if text.len() > 0 {
        cut_text_size(text.drop_last(), used, budget);
    }
}

/// A cut row keeps no more characters than the row has.
proof fn cut_row_size(row: Seq<SPiece>, budget: int)
    ensures
        0 <= size(cut_row(row, budget).0) <= size(row),
    decreases row.len(),
{
    if row.len() > 0 {
        cut_row_size(row.drop_last(), budget);
        let prev = cut_row(row.drop_last(), budget);
        if !prev.2 {
            let cut = cut_text(row.last().0, prev.1, budget);
            cut_text_size(row.last().0, prev.1, budget);
            size_push(prev.0, (cut.0, row.last().1));
        }
    }
}

/// A truncated row holds no more than the row and the ellipsis.
pub proof fn truncate_size(row: Seq<SPiece>, max: int, ellipsis: Seq<char>)
    ensures
        0 <= size(spec_truncate(row, max, ellipsis)) <= size(row) + ellipsis.len(),
{
    size_nonnegative(row);
    if columns(row) > max {
        cut_row_size(row, max - 0);
        let e = if str_columns(ellipsis) <= max {
            ellipsis
        } else {
            Seq::empty()
        };
        let budget = max - str_columns(e);
        cut_row_size(row, budget);
        let cut = cut_row(row, budget);
        size_push(cut.0, (e, cut.3));
    }
}

/// Once a text has run out of room, the characters after change nothing.
proof fn cut_text_full(text: Seq<char>, n: int, used: int, budget: int)
    requires
        0 <= n <= text.len(),
        cut_text(text.take(n), used, budget).2,
    ensures
        cut_text(text, used, budget) == cut_text(text.take(n), used, budget),
    decreases text.len() - n,
{
    if n == text.len() {
        assert(text.take(n) =~= text);
    } else {
        assert(text.take(n + 1).drop_last() =~= text.take(n));
        cut_text_full(text, n + 1, used, budget);
    }
}

/// Once a row has run out of room, the pieces after change nothing.
proof fn cut_row_full(row: Seq<SPiece>, n: int, budget: int)
    requires
        0 <= n <= row.len(),
        cut_row(row.take(n), budget).2,
    ensures
        cut_row(row, budget) == cut_row(row.take(n), budget),
    decreases row.len() - n,
{
    if n == row.len() {
        assert(row.take(n) =~= row);
    } else {
        assert(row.take(n + 1).drop_last() =~= row.take(n));
        cut_row_full(row, n + 1, budget);
    }
}

/// Columns of a text counted character by character, control characters taking none.
pub open spec fn chars_columns(s: Seq<char>) -> int
    decreases s.len(),
{
    if s.len() == 0 {
        0
    } else {
        chars_columns(s.drop_last()) + char_cols(s.last())
    }
}

/// Counting characters' columns adds up over two texts put together.
proof fn chars_columns_concat(a: Seq<char>, b: Seq<char>)
    ensures
        chars_columns(a + b) == chars_columns(a) + chars_columns(b),
    decreases b.len(),
{
    if b.len() == 0 {
        assert(a + b =~= a);
    } else {
        chars_columns_concat(a, b.drop_last());
        assert((a + b).drop_last() =~= a + b.drop_last());
    }
}

/// Characters' columns are never negative.
proof fn chars_columns_nonnegative(s: Seq<char>)
    ensures
        chars_columns(s) >= 0,
    decreases s.len(),
{
    if s.len() > 0 {
        chars_columns_nonnegative(s.drop_last());
    }
}

/// A cut keeps the start of the text, as many characters as fit after `used` columns, and stops
/// only at a character that does not fit.
proof fn cut_text_prefix(text: Seq<char>, used: int, budget: int)
    requires
        0 <= used,
    ensures
        ({
            let cut = cut_text(text, used, budget);
            &&& cut.0.len() <= text.len()
            &&& cut.0 == text.take(cut.0.len() as int)
            &&& cut.1 == used + chars_columns(cut.0)
            &&& (used <= budget ==> cut.1 <= budget)
            &&& (!cut.2 ==> cut.0 == text)
            &&& (cut.2 ==> cut.0.len() < text.len() && used + chars_columns(text.take(cut.0.len() + 1int)) > budget)
        }),
    decreases text.len(),
{
    if text.len() == 0 {
        assert(text.take(0) =~= text);
    } else {
        let rest = text.drop_last();
        cut_text_prefix(rest, used, budget);
        let prev = cut_text(rest, used, budget);
        let n = prev.0.len() as int;
        let c = text.last();
        assert(rest.take(n) =~= text.take(n));
        if prev.2 {
            assert(rest.take(n + 1) =~= text.take(n + 1));
        } else if prev.1 + char_cols(c) > budget {
            assert(prev.0 == rest);
            assert(text.take(n + 1) =~= text);
            assert(text.drop_last() == rest);
        } else {
            assert(prev.0.push(c) =~= text);
            assert(prev.0.push(c).drop_last() =~= prev.0);
            assert(text.take(n + 1) =~= text);
            match char_columns(c) {
                Some(w) => {},
                None => {},
            }
        }
    }
}

/// A cut row keeps the start of the row's text, whose characters take the columns counted,
/// and stops only at a character that does not fit.
#[verifier::rlimit(40)]
proof fn cut_row_prefix(row: Seq<SPiece>, budget: int)
    ensures
        ({
            let cut = cut_row(row, budget);
            let text = joined(row);
            let kept = joined(cut.0);
            &&& kept.len() <= text.len()
            &&& kept == text.take(kept.len() as int)
            &&& cut.1 == chars_columns(kept)
            &&& (0 <= budget ==> cut.1 <= budget)
            &&& (!cut.2 ==> kept == text)
            &&& (cut.2 ==> kept.len() < text.len() && chars_columns(text.take(kept.len() + 1int)) > budget)
        }),
    decreases row.len(),
{
    if row.len() == 0 {
        assert(joined(row).take(0) =~= joined(row));
    } else {
        let rest = row.drop_last();
        cut_row_prefix(rest, budget);
        let prev = cut_row(rest, budget);
        let before = joined(rest);
        let text = joined(row);
        assert(text == before + row.last().0);
        let kept_before = joined(prev.0);
        let n = kept_before.len() as int;
        assert(before.take(n) =~= text.take(n));
        if prev.2 {
            assert(before.take(n + 1) =~= text.take(n + 1));
        } else {
            let piece = row.last().0;
            chars_columns_nonnegative(kept_before);
            cut_text_prefix(piece, prev.1, budget);
            let cut = cut_text(piece, prev.1, budget);
            let m = cut.0.len() as int;
            let out = cut_row(row, budget);
            if cut.0.len() > 0 {
                assert(out.0.drop_last() =~= prev.0);
                assert(joined(out.0) == kept_before + cut.0);
            } else {
                assert(cut.0 =~= Seq::<char>::empty());
                assert(kept_before + cut.0 =~= kept_before);
            }
            assert(joined(out.0) =~= kept_before + cut.0);
            assert(kept_before + cut.0 =~= text.take(n + m));
            chars_columns_concat(kept_before, cut.0);
            if cut.2 {
                assert(text.take(n + m + 1) =~= kept_before + piece.take(m + 1));
                chars_columns_concat(kept_before, piece.take(m + 1));
            } else {
                assert(kept_before + piece =~= text);
            }
        }
    }
}

/// Cutting a row to `max` columns: a row that fits is kept whole. Otherwise the row keeps the
/// longest start of its text whose characters fit in the columns the ellipsis leaves, followed
/// by the ellipsis when that fits in `max` at all.
pub proof fn truncate_keeps_what_fits(row: Seq<SPiece>, max: int, ellipsis: Seq<char>)
    ensures
        columns(row) <= max ==> spec_truncate(row, max, ellipsis) == row,
        columns(row) > max ==> ({
            let e = if str_columns(ellipsis) <= max { ellipsis } else { Seq::<char>::empty() };
            let budget = max - str_columns(e);
            let out = spec_truncate(row, max, ellipsis);
            let kept = if e.len() > 0 { out.drop_last() } else { out };
            let text = joined(row);
            let k = joined(kept);
            &&& e.len() > 0 ==> out.len() > 0 && out.last().0 == e
            &&& k == text.take(k.len() as int)
            &&& (0 <= budget ==> chars_columns(k) <= budget)
            &&& (k.len() < text.len() ==> chars_columns(text.take(k.len() + 1int)) > budget)
        }),
{
    if columns(row) > max {
        let e = if str_columns(ellipsis) <= max { ellipsis } else { Seq::<char>::empty() };
        let budget = max - str_columns(e);
        cut_row_prefix(row, budget);
        let cut = cut_row(row, budget);
        if e.len() > 0 {
            assert(cut.0.push((e, cut.3)).drop_last() =~= cut.0);
        }
    }
}

/// A row padded with spaces to `target` columns.
pub open spec fn spec_pad(row: Seq<SPiece>, target: int) -> Seq<SPiece> {
    if columns(row) < target {
        row.push((spaces((target - columns(row)) as nat), body_tone()))
    } else {
        row
    }
}

/// Pads a row with spaces to `columns`.
pub fn pad(row: &mut Row, target: usize)
    requires
        3 * size(row_view(old(row)@)) <= usize::MAX,
    ensures
        row_view(final(row)@) == spec_pad(row_view(old(row)@), target as int),
{
    let used = columns_of(row.as_slice());
    if used < target {
        let ghost before = row_view(row@);
        row.push((spaces_string(target - used), Tone::body()));
        proof {
            assert(row_view(row@) =~= before.push((spaces((target - used) as nat), body_tone())));
        }
    }
}

/// A text without its trailing spaces.
pub open spec fn strip_spaces(text: Seq<char>) -> Seq<char>
    decreases text.len(),
{
    if text.len() > 0 && text.last() == ' ' {
        strip_spaces(text.drop_last())
    } else {
        text
    }
}

/// A row without trailing spaces: pieces that are all spaces at the end go, and the last piece
/// left loses its trailing spaces.
pub open spec fn spec_trim_end(row: Seq<SPiece>) -> Seq<SPiece>
    decreases row.len(),
{
    if row.len() == 0 {
        row
    } else {
        let kept = strip_spaces(row.last().0);
        if kept.len() == 0 {
            spec_trim_end(row.drop_last())
        } else {
            row.drop_last().push((kept, row.last().1))
        }
    }
}

/// Drops trailing spaces, so rows copied out of the terminal carry no padding.
pub fn trim_end(row: &mut Row)
    ensures
        row_view(final(row)@) == spec_trim_end(row_view(old(row)@)),
{
    let ghost target = spec_trim_end(row_view(row@));
    loop
        invariant
            spec_trim_end(row_view(row@)) == target,
            target == spec_trim_end(row_view(old(row)@)),
        ensures
            row_view(row@) == target,
        decreases row@.len(),
    {
        let n = row.len();
        if n == 0 {
            return;
        }
        let chars = chars_of(row[n - 1].0.as_str());
        let tone = row[n - 1].1;
        let mut k = chars.len();
        proof {
            assert(chars@.take(k as int) =~= chars@);
        }
        while k > 0 && chars[k - 1] == ' '
            invariant
                k <= chars@.len(),
                strip_spaces(chars@.take(k as int)) == strip_spaces(chars@),
            decreases k,
        {
            proof {
                assert(chars@.take(k as int).drop_last() =~= chars@.take(k - 1));
            }
            k = k - 1;
        }
        proof {
            assert(chars@.take(chars@.len() as int) =~= chars@);
            assert(strip_spaces(chars@.take(k as int)) == chars@.take(k as int));
            assert(row_view(row@).drop_last() =~= row_view(row@.drop_last()));
            assert(row_view(row@).last() == (chars@, tone));
        }
        if k == 0 {
            let _ = row.pop();
            proof {
                assert(chars@.take(0) =~= Seq::<char>::empty());
            }
            continue;
        }
        let kept = substring(&chars, 0, k);
        let _ = row.pop();
        row.push((kept, tone));
        proof {
            assert(kept@ =~= chars@.take(k as int));
        }
        return;
    }
}

} // verus!
