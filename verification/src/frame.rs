//! The screen's fixed parts laid out for the painter: where the transcript, the working line, the
//! composer and the footer sit, the composer's rows and cursor, and the footer row.

use vstd::prelude::*;

use crate::composer::Visual;
use crate::doc::{body_tone, Hue, Tone};
use crate::look::{look_text, Look};
use crate::overlay::{accent_tone, ellipsis, secondary_tone};
use crate::strings::{chars_of, push_str, spaces, spaces_string, string_of};
use crate::text::{
    columns, columns_of, row_view, rows_view, size, size_nonnegative, size_push, spec_truncate,
    truncate, truncate_size, Piece, Row, SPiece,
};

verus! {

/// Narrowest screen every feature works in.
pub const MIN_WIDTH: usize = 60;
/// Shortest screen every feature works in.
pub const MIN_HEIGHT: usize = 16;
/// Most text rows inside the composer's border.
pub const COMPOSER_ROWS: usize = 6;
/// Columns before the typed text inside the composer's border: a space, the prompt and a space.
pub const COMPOSER_LEAD: usize = 3;

/// Where the parts of a screen sit, as rows from the top; the transcript starts at the top.
#[derive(Clone, Copy, Debug, PartialEq, Eq, Structural)]
pub struct Areas {
    /// Rows of transcript.
    pub transcript_height: usize,
    /// The working line's row.
    pub working_y: usize,
    /// Rows of working line: one while a task runs.
    pub working_height: usize,
    /// The composer's top row, its border included.
    pub composer_y: usize,
    /// The composer's rows, its border included.
    pub composer_height: usize,
    /// The footer's row, the last.
    pub footer_y: usize,
}

/// The columns the composer's text may use on a screen `width` wide: all but the border, the
/// lead and one column for the cursor.
pub open spec fn spec_text_width(width: int) -> int {
    if width > 2 + COMPOSER_LEAD + 1 {
        width - (2 + COMPOSER_LEAD + 1)
    } else {
        0
    }
}

/// The columns the composer's text may use on a screen `width` wide.
pub fn composer_text_width(width: usize) -> (w: usize)
    ensures
        w == spec_text_width(width as int),
{
    if width > 2 + COMPOSER_LEAD + 1 {
        width - (2 + COMPOSER_LEAD + 1)
    } else {
        0
    }
}

/// The parts of a screen `width` × `height` with a composer of `text_rows` rows, one working row
/// while `busy`; `None` on a screen smaller than [`MIN_WIDTH`] × [`MIN_HEIGHT`]. From the bottom:
/// the footer, the composer with one to [`COMPOSER_ROWS`] rows inside its border, the working
/// line, and the transcript above them all.
pub open spec fn spec_areas(width: int, height: int, text_rows: int, busy: bool) -> Option<Areas> {
    if width < MIN_WIDTH || height < MIN_HEIGHT {
        None
    } else {
        let rows = if text_rows < 1 { 1 } else if text_rows > COMPOSER_ROWS { COMPOSER_ROWS as int } else { text_rows };
        let footer_y = height - 1;
        let composer_y = footer_y - rows - 2;
        let working_height = if busy { 1int } else { 0int };
        let working_y = composer_y - working_height;
        Some(Areas {
            transcript_height: working_y as usize,
            working_y: working_y as usize,
            working_height: working_height as usize,
            composer_y: composer_y as usize,
            composer_height: (rows + 2) as usize,
            footer_y: footer_y as usize,
        })
    }
}

/// Where the parts of a screen sit, as [`spec_areas`] says.
pub fn areas(width: usize, height: usize, text_rows: usize, busy: bool) -> (out: Option<Areas>)
    ensures
        out == spec_areas(width as int, height as int, text_rows as int, busy),
{
    if width < MIN_WIDTH || height < MIN_HEIGHT {
        return None;
    }
    let rows = if text_rows < 1 { 1 } else if text_rows > COMPOSER_ROWS { COMPOSER_ROWS } else { text_rows };
    let footer_y = height - 1;
    let composer_y = footer_y - rows - 2;
    let working_height: usize = if busy { 1 } else { 0 };
    let working_y = composer_y - working_height;
    Some(Areas {
        transcript_height: working_y,
        working_y,
        working_height,
        composer_y,
        composer_height: rows + 2,
        footer_y,
    })
}

/// The prompt glyph before the first row of the composer.
pub open spec fn prompt(look: Look) -> SPiece {
    (look_text(look, seq!['›', ' ']), accent_tone())
}

/// The first composer row shown in `rows` rows: the cursor's row stays in view at the bottom.
pub open spec fn composer_first(cursor_row: int, rows: int) -> int {
    let r = if rows >= 1 { rows - 1 } else { 0 };
    if cursor_row > r {
        cursor_row - r
    } else {
        0
    }
}

/// The composer's rows inside its border, `width` × `height`: the prompt and the dimmed
/// `placeholder` on an empty line; otherwise each row of the text from [`composer_first`], the
/// first after the prompt and the others after two spaces.
pub open spec fn spec_composer_rows(text_rows: Seq<Seq<char>>, cursor_row: int, empty: bool, placeholder: Seq<char>, width: int, height: int, look: Look) -> Seq<Seq<SPiece>> {
    if empty {
        seq![spec_truncate(seq![(seq![' '], body_tone()), prompt(look), (look_text(look, placeholder), secondary_tone())], width, Seq::empty())]
    } else {
        let first = composer_first(cursor_row, height);
        let left = text_rows.len() - first;
        let n = if left < 0 { 0 } else if left < height { left } else { height };
        Seq::new(n as nat, |i: int| seq![
            (seq![' '], body_tone()),
            if first + i == 0 { prompt(look) } else { (seq![' ', ' '], body_tone()) },
            (text_rows[first + i], body_tone()),
        ])
    }
}

/// The composer drawn inside its border: its rows, and where the cursor goes unless the shortcut
/// box covers it, as a column and a row inside the border.
pub struct ComposerLines {
    /// The rows from the top.
    pub rows: Vec<Row>,
    /// The cursor's column and row.
    pub cursor: Option<(usize, usize)>,
}

/// The composer drawn inside a border `width` × `height`, as [`spec_composer_rows`] says; the
/// cursor sits after the lead on its row, no further right than the last column.
pub fn composer_lines(visual: &Visual, empty: bool, placeholder: &str, width: usize, height: usize, shortcuts: bool, look: &Look) -> (out: ComposerLines)
    requires
        width >= 1,
        16 * (placeholder@.len() + 1) <= usize::MAX,
        visual.cursor.1 + COMPOSER_LEAD <= usize::MAX,
    ensures
        rows_view(out.rows@) == spec_composer_rows(visual.rows@.map_values(|r: String| r@), visual.cursor.0 as int, empty, placeholder@, width as int, height as int, *look),
        shortcuts ==> out.cursor is None,
        !shortcuts ==> out.cursor == Some((
            if visual.cursor.1 + COMPOSER_LEAD < width - 1 { (visual.cursor.1 + COMPOSER_LEAD) as usize } else { (width - 1) as usize },
            (visual.cursor.0 - composer_first(visual.cursor.0 as int, height as int)) as usize,
        )),
{
    let ghost vrows = visual.rows@.map_values(|r: String| r@);
    let r = if height >= 1 { height - 1 } else { 0 };
    let first = if visual.cursor.0 > r { visual.cursor.0 - r } else { 0 };
    let prompt_text = look.text("› ");
    proof {
        reveal_strlit("› ");
        assert("› "@ =~= seq!['›', ' ']);
    }
    let mut rows: Vec<Row> = Vec::new();
    if empty {
        let space = spaces_string(1);
        proof {
            assert(spaces(1) =~= seq![' ']);
            crate::look::look_text_size(*look, seq!['›', ' ']);
            crate::look::look_text_size(*look, placeholder@);
        }
        let row: Row = vec![(space, Tone::body()), (prompt_text, Tone::of(Hue::Accent)), (look.text(placeholder), Tone::of(Hue::Secondary))];
        proof {
            let v = row_view(row@);
            assert(v =~= seq![(seq![' '], body_tone()), prompt(*look), (look_text(*look, placeholder@), secondary_tone())]);
            assert(v.drop_last().drop_last().drop_last() =~= Seq::<SPiece>::empty());
            assert(size(v.drop_last().drop_last().drop_last()) == 0);
            assert(size(v.drop_last().drop_last()) == 1);
            assert(size(v.drop_last()) == 1 + look_text(*look, seq!['›', ' ']).len());
            assert(size(v) == 1 + look_text(*look, seq!['›', ' ']).len() + look_text(*look, placeholder@).len());
            reveal_strlit("");
        }
        let cut = truncate(row, width, "");
        proof {
            assert(""@ =~= Seq::<char>::empty());
        }
        rows.push(cut);
        proof {
            assert(rows_view(rows@) =~= spec_composer_rows(vrows, visual.cursor.0 as int, empty, placeholder@, width as int, height as int, *look));
        }
    } else {
        let count = visual.rows.len();
        let n = if first >= count { 0 } else if count - first < height { count - first } else { height };
        let ghost expected = spec_composer_rows(vrows, visual.cursor.0 as int, empty, placeholder@, width as int, height as int, *look);
        let mut i: usize = 0;
        while i < n
            invariant
                i <= n,
                n == expected.len(),
                count == visual.rows@.len(),
                n > 0 ==> first + n <= count,
                first == composer_first(visual.cursor.0 as int, height as int),
                vrows == visual.rows@.map_values(|r: String| r@),
                !empty,
                prompt_text@ == prompt(*look).0,
                expected == spec_composer_rows(vrows, visual.cursor.0 as int, empty, placeholder@, width as int, height as int, *look),
                rows_view(rows@) == expected.take(i as int),
            decreases n - i,
        {
            let lead: Piece = if first + i == 0 {
                (prompt_text.clone(), Tone::of(Hue::Accent))
            } else {
                (spaces_string(2), Tone::body())
            };
            let space = spaces_string(1);
            let row: Row = vec![(space, Tone::body()), lead, (visual.rows[first + i].clone(), Tone::body())];
            proof {
                assert(spaces(1) =~= seq![' ']);
                assert(spaces(2) =~= seq![' ', ' ']);
                assert(vrows[first + i] == visual.rows@[first + i]@);
                assert(row_view(row@) =~= expected[i as int]);
            }
            let ghost before = rows_view(rows@);
            rows.push(row);
            i = i + 1;
            proof {
                assert(rows_view(rows@) =~= before.push(expected[i - 1]));
                assert(rows_view(rows@) =~= expected.take(i as int));
            }
        }
        proof {
            assert(expected.take(n as int) =~= expected);
        }
    }
    let cursor = if shortcuts {
        None
    } else {
        let x = visual.cursor.1 + COMPOSER_LEAD;
        Some((if x < width - 1 { x } else { width - 1 }, visual.cursor.0 - first))
    };
    ComposerLines { rows, cursor }
}

/// `left` at the start and `right` flush with the end of `columns`: `left` is cut, with an
/// ellipsis, to leave `right` and one more column; `right` follows only when it is narrower than
/// the row.
pub open spec fn spec_edge_row(left: Seq<SPiece>, right: Seq<SPiece>, columns: int, look: Look) -> Seq<SPiece> {
    let rw = crate::text::columns(right);
    let room = if rw > 0 {
        if columns > rw + 1 { columns - (rw + 1) } else { 0 }
    } else {
        columns
    };
    let row = spec_truncate(left, room, ellipsis(look));
    if rw > 0 && rw < columns {
        let used = crate::text::columns(row) + rw;
        let gap = if columns > used { columns - used } else { 0 };
        row.push((spaces(gap as nat), body_tone())) + right
    } else {
        row
    }
}

/// Lays out `left` and `right` on one row of `columns`, as [`spec_edge_row`] says.
pub fn edge_row(left: Row, right: Row, columns: usize, look: &Look) -> (out: Row)
    requires
        3 * (size(row_view(left@)) + size(row_view(right@)) + 3) <= usize::MAX,
    ensures
        row_view(out@) == spec_edge_row(row_view(left@), row_view(right@), columns as int, *look),
{
    let ghost l = row_view(left@);
    let ghost r = row_view(right@);
    proof {
        size_nonnegative(l);
        size_nonnegative(r);
    }
    let right_width = columns_of(right.as_slice());
    let room = if right_width > 0 {
        if columns > right_width + 1 { columns - (right_width + 1) } else { 0 }
    } else {
        columns
    };
    let e = crate::overlay::ellipsis_of(look);
    proof {
        truncate_size(l, room as int, e@);
    }
    let mut row = truncate(left, room, e.as_str());
    if right_width > 0 && right_width < columns {
        let row_width = columns_of(row.as_slice());
        let used = row_width + right_width;
        let gap = if columns > used { columns - used } else { 0 };
        let ghost cut = row_view(row@);
        row.push((spaces_string(gap), Tone::body()));
        let ghost pushed = row_view(row@);
        proof {
            assert(pushed =~= cut.push((spaces(gap as nat), body_tone())));
        }
        let mut k: usize = 0;
        while k < right.len()
            invariant
                k <= right@.len(),
                r == row_view(right@),
                row_view(row@) == pushed + r.take(k as int),
            decreases right@.len() - k,
        {
            let ghost before = row_view(row@);
            row.push((right[k].0.clone(), right[k].1));
            k = k + 1;
            proof {
                assert(r[k - 1] == crate::text::piece_view(right@[k - 1]));
                assert(row_view(row@) =~= before.push(r[k - 1]));
                assert(r.take(k as int) =~= r.take(k - 1).push(r[k - 1]));
                assert(row_view(row@) =~= pushed + r.take(k as int));
            }
        }
        proof {
            assert(r.take(right@.len() as int) =~= r);
        }
    }
    row
}

/// The footer's left text: the second-ctrl+c warning while one is armed, else a passing message,
/// else the key hints, dimmed.
pub open spec fn footer_left(quit_again: Option<Seq<char>>, flash: Option<Seq<char>>, hints: Seq<char>) -> SPiece {
    match quit_again {
        Some(q) => (q, body_tone()),
        None => match flash {
            Some(f) => (f, body_tone()),
            None => (hints, secondary_tone()),
        },
    }
}

/// The footer: a space and its left text, and, while output arrived out of view, the notice and a
/// space at the right in the accent colour.
pub open spec fn spec_footer(quit_again: Option<Seq<char>>, flash: Option<Seq<char>>, hints: Seq<char>, new_output: Option<Seq<char>>, columns: int, look: Look) -> Seq<SPiece> {
    let left = footer_left(quit_again, flash, hints);
    let right = match new_output {
        Some(t) => seq![(look_text(look, t + seq![' ']), accent_tone())],
        None => Seq::empty(),
    };
    spec_edge_row(seq![(seq![' '], body_tone()), (look_text(look, left.0), left.1)], right, columns, look)
}

/// Whether the footer's texts are small enough to lay out.
pub open spec fn footer_fits(quit_again: Option<Seq<char>>, flash: Option<Seq<char>>, hints: Seq<char>, new_output: Option<Seq<char>>) -> bool {
    let q = match quit_again { Some(t) => t.len(), None => 0 };
    let f = match flash { Some(t) => t.len(), None => 0 };
    let n = match new_output { Some(t) => t.len(), None => 0 };
    16 * (q + f + hints.len() + n + 4) <= usize::MAX
}

/// The footer row, as [`spec_footer`] says.
pub fn footer(quit_again: Option<&str>, flash: Option<&str>, hints: &str, new_output: Option<&str>, columns: usize, look: &Look) -> (out: Row)
    requires
        footer_fits(
            match quit_again { Some(t) => Some(t@), None => None },
            match flash { Some(t) => Some(t@), None => None },
            hints@,
            match new_output { Some(t) => Some(t@), None => None },
        ),
    ensures
        row_view(out@) == spec_footer(
            match quit_again { Some(t) => Some(t@), None => None },
            match flash { Some(t) => Some(t@), None => None },
            hints@,
            match new_output { Some(t) => Some(t@), None => None },
            columns as int,
            *look,
        ),
{
    let ghost qv = match quit_again { Some(t) => Some(t@), None => None };
    let ghost fv = match flash { Some(t) => Some(t@), None => None };
    let ghost nv = match new_output { Some(t) => Some(t@), None => None };
    let (text, tone) = match quit_again {
        Some(q) => (q, Tone::body()),
        None => match flash {
            Some(f) => (f, Tone::body()),
            None => (hints, Tone::of(Hue::Secondary)),
        },
    };
    proof {
        assert(footer_left(qv, fv, hints@) == (text@, tone));
        crate::look::look_text_size(*look, text@);
        assert(spaces(1) =~= seq![' ']);
    }
    let left: Row = vec![(spaces_string(1), Tone::body()), (look.text(text), tone)];
    proof {
        let v = row_view(left@);
        assert(v =~= seq![(seq![' '], body_tone()), (look_text(*look, text@), tone)]);
        assert(v.drop_last().drop_last() =~= Seq::<SPiece>::empty());
        assert(size(v.drop_last().drop_last()) == 0);
        assert(size(v.drop_last()) == 1);
        assert(size(v) == 1 + look_text(*look, text@).len());
    }
    let right: Row = match new_output {
        Some(t) => {
            let mut s = string_of(chars_of(t).as_slice());
            push_str(&mut s, " ");
            proof {
                reveal_strlit(" ");
                assert(" "@ =~= seq![' ']);
                crate::look::look_text_size(*look, s@);
            }
            let shown = look.text(s.as_str());
            let right: Row = vec![(shown, Tone::of(Hue::Accent))];
            proof {
                let v = row_view(right@);
                assert(v =~= seq![(look_text(*look, t@ + seq![' ']), accent_tone())]);
                assert(v.drop_last() =~= Seq::<SPiece>::empty());
                assert(size(v.drop_last()) == 0);
            }
            right
        },
        None => {
            let right: Row = Vec::new();
            proof {
                assert(row_view(right@) =~= Seq::<SPiece>::empty());
            }
            right
        },
    };
    edge_row(left, right, columns, look)
}

/// A page on the whole screen: its title in bold with how to close it dimmed at the right, its
/// body rows, blank rows down to the last, and the keys with how far down the page is, in percent,
/// at the right, all dimmed.
pub open spec fn spec_page_lines(title: Seq<char>, close: Seq<char>, keys: Seq<char>, body: Seq<Seq<SPiece>>, percent: int, columns: int, height: int, look: Look) -> Seq<Seq<SPiece>> {
    let head = spec_edge_row(
        seq![(look_text(look, title), Tone { bold: true, ..body_tone() })],
        seq![(look_text(look, close), secondary_tone())],
        columns,
        look,
    );
    let foot = spec_edge_row(
        seq![(look_text(look, keys), secondary_tone())],
        seq![(crate::activities::decimal(percent as nat).push('%'), secondary_tone())],
        columns,
        look,
    );
    let filled = 1 + body.len();
    let blank = if height - 1 > filled { height - 1 - filled } else { 0 };
    seq![head] + body + Seq::new(blank as nat, |i: int| Seq::<SPiece>::empty()) + seq![foot]
}

/// Whether a page's texts are small enough to lay out.
pub open spec fn page_fits(title: Seq<char>, close: Seq<char>, keys: Seq<char>) -> bool {
    16 * (title.len() + close.len() + keys.len() + 110) <= usize::MAX
}

/// One piece of `text` as `look` draws it, in `tone`, as a row.
fn drawn(text: &str, tone: Tone, look: &Look) -> (row: Row)
    ensures
        row_view(row@) == seq![(look_text(*look, text@), tone)],
        size(row_view(row@)) == look_text(*look, text@).len(),
{
    let row: Row = vec![(look.text(text), tone)];
    proof {
        let v = row_view(row@);
        assert(v =~= seq![(look_text(*look, text@), tone)]);
        assert(v.drop_last() =~= Seq::<SPiece>::empty());
        assert(size(v.drop_last()) == 0);
    }
    row
}

/// The lines of a page on the whole screen, as [`spec_page_lines`] says.
pub fn page_lines(title: &str, close: &str, keys: &str, body: Vec<Row>, percent: usize, columns: usize, height: usize, look: &Look) -> (lines: Vec<Row>)
    requires
        page_fits(title@, close@, keys@),
        percent <= 100,
    ensures
        rows_view(lines@) == spec_page_lines(title@, close@, keys@, rows_view(body@), percent as int, columns as int, height as int, *look),
{
    let ghost bv = rows_view(body@);
    proof {
        crate::look::look_text_size(*look, title@);
        crate::look::look_text_size(*look, close@);
        crate::look::look_text_size(*look, keys@);
        crate::activities::decimal_len(percent as nat);
    }
    let head = edge_row(drawn(title, Tone::body().bold(), look), drawn(close, Tone::of(Hue::Secondary), look), columns, look);
    let digits = crate::activities::decimal_digits(percent as u128);
    let mut shown = string_of(digits.as_slice());
    crate::strings::push_char(&mut shown, '%');
    let right: Row = vec![(shown, Tone::of(Hue::Secondary))];
    proof {
        let v = row_view(right@);
        assert(v =~= seq![(crate::activities::decimal(percent as nat).push('%'), secondary_tone())]);
        assert(v.drop_last() =~= Seq::<SPiece>::empty());
        assert(size(v.drop_last()) == 0);
    }
    let foot = edge_row(drawn(keys, Tone::of(Hue::Secondary), look), right, columns, look);
    let mut lines: Vec<Row> = Vec::new();
    lines.push(head);
    let mut body = body;
    let count = body.len();
    let ghost before = rows_view(lines@);
    lines.append(&mut body);
    proof {
        assert(rows_view(lines@) =~= before + bv);
    }
    let filled = lines.len();
    let blank = if height >= 1 && height - 1 > filled { height - 1 - filled } else { 0 };
    let ghost so_far = rows_view(lines@);
    let mut k: usize = 0;
    while k < blank
        invariant
            k <= blank,
            rows_view(lines@) == so_far + Seq::new(k as nat, |i: int| Seq::<SPiece>::empty()),
        decreases blank - k,
    {
        let ghost b = rows_view(lines@);
        let empty: Row = Vec::new();
        proof {
            assert(row_view(empty@) =~= Seq::<SPiece>::empty());
        }
        lines.push(empty);
        k = k + 1;
        proof {
            assert(rows_view(lines@) =~= b.push(Seq::<SPiece>::empty()));
            assert(rows_view(lines@) =~= so_far + Seq::new(k as nat, |i: int| Seq::<SPiece>::empty()));
        }
    }
    let ghost full = rows_view(lines@);
    lines.push(foot);
    proof {
        assert(count == bv.len());
        assert(rows_view(lines@) =~= full.push(row_view(foot@)));
        assert(rows_view(lines@) =~~= spec_page_lines(title@, close@, keys@, bv, percent as int, columns as int, height as int, *look));
    }
    lines
}

/// On a screen large enough, the parts stack without gaps from the top: the transcript, the
/// working line, the composer, and the footer on the last row.
pub proof fn the_parts_tile_the_screen(width: int, height: int, text_rows: int, busy: bool)
    requires
        width >= MIN_WIDTH,
        MIN_HEIGHT <= height <= usize::MAX,
    ensures
        spec_areas(width, height, text_rows, busy) matches Some(a) && {
            &&& a.transcript_height == a.working_y
            &&& a.working_y + a.working_height == a.composer_y
            &&& a.composer_y + a.composer_height == a.footer_y
            &&& a.footer_y + 1 == height
            &&& 3 <= a.composer_height <= COMPOSER_ROWS + 2
            &&& a.transcript_height >= MIN_HEIGHT - COMPOSER_ROWS - 4
        },
{
}

} // verus!
