//! What floats over the screen, laid out as rows for the painter: the completion popup above the
//! line and the keyboard-shortcut box.

use vstd::prelude::*;

use crate::complete::{candidate_view, candidates_view, pairs_view, Candidate, SCandidate};
use crate::doc::{body_tone, Hue, Tone};
use crate::look::{look_text, look_text_size, Look};
use crate::strings::{spaces, spaces_string};
use crate::text::{
    columns, columns_of, pad, row_view, rows_view, size, size_nonnegative, size_push, spec_pad, spec_truncate,
    truncate, truncate_size, width, Piece, Row, SPiece,
};
use crate::width::str_columns;

verus! {

/// Most rows the popup shows.
pub const POPUP_ROWS: usize = 8;

/// Dimmed text.
pub open spec fn secondary_tone() -> Tone {
    Tone { hue: Hue::Secondary, ..body_tone() }
}

/// A row with every piece in the accent colour.
pub open spec fn accented(row: Seq<SPiece>) -> Seq<SPiece> {
    row.map_values(|p: SPiece| (p.0, Tone { hue: Hue::Accent, ..p.1 }))
}

/// The ellipsis as this look draws it.
pub open spec fn ellipsis(look: Look) -> Seq<char> {
    look_text(look, seq!['…'])
}

/// The widest label among `cs`, in columns, as this look draws it.
pub open spec fn widest_label(cs: Seq<SCandidate>, look: Look) -> int
    decreases cs.len(),
{
    if cs.len() == 0 {
        0
    } else {
        let w = str_columns(look_text(look, cs.last().0)) as int;
        let rest = widest_label(cs.drop_last(), look);
        if w > rest {
            w
        } else {
            rest
        }
    }
}

/// One popup row: a space and the label padded to `label_width` columns past it, then the detail
/// dimmed, all cut to `columns`; the chosen row fills the width in the accent colour.
pub open spec fn popup_row(c: SCandidate, label_width: int, columns: int, chosen: bool, look: Look) -> Seq<SPiece> {
    let label = spec_pad(seq![(seq![' '], body_tone()), (look_text(look, c.0), body_tone())], label_width + 1);
    let row = spec_truncate(label.push((look_text(look, c.1), secondary_tone())), columns, ellipsis(look));
    if chosen {
        accented(spec_pad(row, columns))
    } else {
        row
    }
}

/// Rows the popup shows: no more than the candidates, [`POPUP_ROWS`] or the `room` above the line.
pub open spec fn popup_shown(count: int, room: int) -> int {
    let a = if count < POPUP_ROWS as int { count } else { POPUP_ROWS as int };
    if a < room {
        a
    } else {
        room
    }
}

/// The selected row, kept to the last when the selection is past the end.
pub open spec fn popup_selected(count: int, selected: int) -> int {
    if selected < count - 1 {
        selected
    } else {
        count - 1
    }
}

/// The first row shown: the selected row stays in view at the bottom.
pub open spec fn popup_first(count: int, selected: int, shown: int) -> int {
    let s = popup_selected(count, selected);
    if s >= shown - 1 {
        s - (shown - 1)
    } else {
        0
    }
}

/// The popup: the index of its first row shown, and the rows.
pub open spec fn spec_popup(cs: Seq<SCandidate>, selected: int, room: int, columns: int, look: Look) -> (int, Seq<Seq<SPiece>>) {
    let shown = popup_shown(cs.len() as int, room);
    if shown <= 0 {
        (0, Seq::empty())
    } else {
        let first = popup_first(cs.len() as int, selected, shown);
        let label_width = widest_label(cs.subrange(first, first + shown), look) + 2;
        let s = popup_selected(cs.len() as int, selected);
        (first, Seq::new(shown as nat, |i: int| popup_row(cs[first + i], label_width, columns, first + i == s, look)))
    }
}

/// Whether every candidate is small enough to lay out in `columns`.
pub open spec fn popup_fits(cs: Seq<SCandidate>, columns: int) -> bool {
    forall|i: int| 0 <= i < cs.len() ==> 48 * ((#[trigger] cs[i]).0.len() + cs[i].1.len() + 1) + 3 * columns <= usize::MAX
}

/// The popup as laid out: which candidate its first row shows, and its rows from the top.
pub struct PopupRows {
    /// The index of the candidate on the first row.
    pub first: usize,
    /// The rows.
    pub rows: Vec<Row>,
}

/// A row with every piece in the accent colour.
fn accent(row: &Row) -> (out: Row)
    ensures
        row_view(out@) == accented(row_view(row@)),
{
    let mut out: Row = Vec::new();
    let mut k: usize = 0;
    while k < row.len()
        invariant
            k <= row@.len(),
            row_view(out@) == accented(row_view(row@)).take(k as int),
        decreases row@.len() - k,
    {
        let tone = row[k].1;
        let ghost before = row_view(out@);
        out.push((row[k].0.clone(), Tone { hue: Hue::Accent, ..tone }));
        proof {
            assert(row_view(row@)[k as int] == crate::text::piece_view(row@[k as int]));
            assert(row_view(out@) =~= before.push(accented(row_view(row@))[k as int]));
        }
        k = k + 1;
        proof {
            assert(row_view(out@) =~= accented(row_view(row@)).take(k as int));
        }
    }
    proof {
        assert(accented(row_view(row@)).take(row@.len() as int) =~= accented(row_view(row@)));
    }
    out
}

/// A space as a piece in the default tone.
fn space_piece() -> (p: Piece)
    ensures
        p.0@ == seq![' '],
        p.1 == body_tone(),
{
    let s = spaces_string(1);
    proof {
        assert(spaces(1) =~= seq![' ']);
    }
    (s, Tone::body())
}

/// The ellipsis as `look` draws it.
pub(crate) fn ellipsis_of(look: &Look) -> (e: String)
    ensures
        e@ == ellipsis(*look),
        e@.len() <= 3,
{
    proof {
        reveal_strlit("…");
        assert("…"@ =~= seq!['…']);
    }
    let e = look.text("…");
    proof {
        look_text_size(*look, seq!['…']);
    }
    e
}

/// The widest label among candidates `from` up to `to`, as `look` draws them.
fn widest_of(candidates: &Vec<Candidate>, from: usize, to: usize, columns: usize, look: &Look) -> (w: usize)
    requires
        from < to <= candidates@.len(),
        popup_fits(candidates_view(candidates@), columns as int),
    ensures
        w == widest_label(candidates_view(candidates@).subrange(from as int, to as int), *look),
        5 * w + 3 * columns + 48 <= usize::MAX,
{
    let ghost cs = candidates_view(candidates@);
    let mut w: usize = 0;
    let mut i = from;
    proof {
        assert(cs.subrange(from as int, from as int) =~= Seq::<SCandidate>::empty());
        assert(48 * (cs[from as int].0.len() + cs[from as int].1.len() + 1) + 3 * columns <= usize::MAX);
    }
    while i < to
        invariant
            from <= i <= to <= candidates@.len(),
            cs == candidates_view(candidates@),
            popup_fits(cs, columns as int),
            w == widest_label(cs.subrange(from as int, i as int), *look),
            5 * w + 3 * columns + 48 <= usize::MAX,
        decreases to - i,
    {
        let label = look.text(candidates[i].label.as_str());
        let x = width(label.as_str());
        proof {
            assert(cs[i as int] == candidate_view(candidates@[i as int]));
            look_text_size(*look, candidates@[i as int].label@);
            assert(cs.subrange(from as int, i + 1).drop_last() =~= cs.subrange(from as int, i as int));
            assert(48 * (cs[i as int].0.len() + cs[i as int].1.len() + 1) + 3 * columns <= usize::MAX);
        }
        if x > w {
            w = x;
        }
        i = i + 1;
    }
    w
}

/// The popup's rows for `candidates` with row `selected` chosen, in `room` rows above the line and
/// `columns` wide.
pub fn popup_rows(candidates: &Vec<Candidate>, selected: usize, room: usize, columns: usize, look: &Look) -> (out: PopupRows)
    requires
        popup_fits(candidates_view(candidates@), columns as int),
    ensures
        (out.first as int, rows_view(out.rows@)) == spec_popup(candidates_view(candidates@), selected as int, room as int, columns as int, *look),
{
    let ghost cs = candidates_view(candidates@);
    let count = candidates.len();
    let mut shown = count;
    if shown > POPUP_ROWS {
        shown = POPUP_ROWS;
    }
    if shown > room {
        shown = room;
    }
    if shown == 0 {
        let rows: Vec<Row> = Vec::new();
        proof {
            assert(rows_view(rows@) =~= Seq::<Seq<SPiece>>::empty());
        }
        return PopupRows { first: 0, rows };
    }
    let sel = if selected < count - 1 { selected } else { count - 1 };
    let first = if sel >= shown - 1 { sel - (shown - 1) } else { 0 };
    let widest = widest_of(candidates, first, first + shown, columns, look);
    let label_width = widest + 2;
    let e = ellipsis_of(look);
    let ghost expected = Seq::new(shown as nat, |i: int| popup_row(cs[first + i], label_width as int, columns as int, first + i == sel, *look));
    let mut rows: Vec<Row> = Vec::new();
    let mut k: usize = 0;
    while k < shown
        invariant
            k <= shown,
            first + shown <= count == candidates@.len(),
            cs == candidates_view(candidates@),
            popup_fits(cs, columns as int),
            5 * widest + 3 * columns + 48 <= usize::MAX,
            label_width == widest + 2,
            e@ == ellipsis(*look),
            e@.len() <= 3,
            expected == Seq::new(shown as nat, |i: int| popup_row(cs[first + i], label_width as int, columns as int, first + i == sel, *look)),
            rows_view(rows@) == expected.take(k as int),
        decreases shown - k,
    {
        let c = &candidates[first + k];
        let ghost cv = cs[first + k];
        proof {
            assert(cv == candidate_view(candidates@[first + k]));
            assert(48 * (cv.0.len() + cv.1.len() + 1) + 3 * columns <= usize::MAX);
            look_text_size(*look, cv.0);
            look_text_size(*look, cv.1);
        }
        let mut row: Row = vec![space_piece(), (look.text(c.label.as_str()), Tone::body())];
        let ghost start = row_view(row@);
        proof {
            assert(start =~= seq![(seq![' '], body_tone()), (look_text(*look, cv.0), body_tone())]);
            assert(start.drop_last().drop_last() =~= Seq::<SPiece>::empty());
            assert(size(start.drop_last().drop_last()) == 0);
            assert(size(start.drop_last()) == 1);
            assert(size(start) == 1 + look_text(*look, cv.0).len());
            crate::text::columns_nonnegative(start);
        }
        pad(&mut row, label_width + 1);
        proof {
            let padded = row_view(row@);
            if crate::text::columns(start) < label_width + 1 {
                size_push(start, (spaces((label_width + 1 - crate::text::columns(start)) as nat), body_tone()));
            }
            assert(size(padded) <= size(start) + label_width + 1);
        }
        let ghost padded = row_view(row@);
        row.push((look.text(c.detail.as_str()), Tone::of(Hue::Secondary)));
        proof {
            assert(row_view(row@) =~= padded.push((look_text(*look, cv.1), secondary_tone())));
            size_push(padded, (look_text(*look, cv.1), secondary_tone()));
            truncate_size(row_view(row@), columns as int, e@);
        }
        let ghost full = row_view(row@);
        let cut = truncate(row, columns, e.as_str());
        let chosen = first + k == sel;
        let done = if chosen {
            let mut filled = cut;
            let ghost before = row_view(filled@);
            proof {
                size_nonnegative(before);
            }
            pad(&mut filled, columns);
            accent(&filled)
        } else {
            cut
        };
        proof {
            assert(full == spec_pad(start, label_width + 1).push((look_text(*look, cv.1), secondary_tone())));
            assert(row_view(done@) == popup_row(cv, label_width as int, columns as int, chosen, *look));
            assert(expected[k as int] == popup_row(cs[first + k], label_width as int, columns as int, first + k == sel, *look));
        }
        let ghost before_rows = rows_view(rows@);
        rows.push(done);
        k = k + 1;
        proof {
            assert(rows_view(rows@) =~= before_rows.push(row_view(done@)));
            assert(rows_view(rows@) =~= expected.take(k as int));
        }
    }
    proof {
        assert(expected.take(shown as int) =~= expected);
        assert(first == popup_first(count as int, selected as int, shown as int));
        assert(sel == popup_selected(count as int, selected as int));
        assert(shown == popup_shown(count as int, room as int));
    }
    PopupRows { first, rows }
}

/// The widest key text among the shortcuts, in columns, as this look draws it.
pub open spec fn widest_keys(pairs: Seq<(Seq<char>, Seq<char>)>, look: Look) -> int
    decreases pairs.len(),
{
    if pairs.len() == 0 {
        0
    } else {
        let w = str_columns(look_text(look, pairs.last().0)) as int;
        let rest = widest_keys(pairs.drop_last(), look);
        if w > rest {
            w
        } else {
            rest
        }
    }
}

/// The accent colour.
pub open spec fn accent_tone() -> Tone {
    Tone { hue: Hue::Accent, ..body_tone() }
}

/// One shortcut: its keys in the accent colour, padded two columns past the widest keys, then
/// what they do.
pub open spec fn shortcut_row(pair: (Seq<char>, Seq<char>), key_width: int, look: Look) -> Seq<SPiece> {
    spec_pad(seq![(look_text(look, pair.0), accent_tone())], key_width + 2).push((look_text(look, pair.1), body_tone()))
}

/// The shortcut box's lines: the title in bold, a blank line, one line per shortcut, a blank line
/// and how to close the box, dimmed.
pub open spec fn shortcut_lines(title: Seq<char>, pairs: Seq<(Seq<char>, Seq<char>)>, close: Seq<char>, look: Look) -> Seq<Seq<SPiece>> {
    let key_width = widest_keys(pairs, look);
    seq![seq![(title, Tone { bold: true, ..body_tone() })], Seq::<SPiece>::empty()]
        + Seq::new(pairs.len(), |i: int| shortcut_row(pairs[i], key_width, look))
        + seq![Seq::<SPiece>::empty(), seq![(close, secondary_tone())]]
}

/// The widest of some rows, in columns.
pub open spec fn widest_row(rows: Seq<Seq<SPiece>>) -> int
    decreases rows.len(),
{
    if rows.len() == 0 {
        0
    } else {
        let w = columns(rows.last());
        let rest = widest_row(rows.drop_last());
        if w > rest {
            w
        } else {
            rest
        }
    }
}

/// The shortcut box on a screen `width` × `height`: four columns wider than its widest line and
/// two rows taller than its lines, no larger than the screen, centred; inside its border each
/// line follows a space and is cut one column short of the inner width.
pub struct ShortcutBox {
    /// Columns from the screen's left edge.
    pub x: usize,
    /// Rows from the screen's top.
    pub y: usize,
    /// Columns, border included.
    pub width: usize,
    /// Rows, border included.
    pub height: usize,
    /// The lines inside the border, from the top.
    pub rows: Vec<Row>,
}

/// What a shortcut box holds, as numbers and rows of characters.
pub open spec fn shortcut_box_view(b: ShortcutBox) -> (int, int, int, int, Seq<Seq<SPiece>>) {
    (b.x as int, b.y as int, b.width as int, b.height as int, rows_view(b.rows@))
}

/// The shortcut box for `title`, the shortcuts `pairs` and the closing hint `close`.
pub open spec fn spec_shortcut_box(title: Seq<char>, pairs: Seq<(Seq<char>, Seq<char>)>, close: Seq<char>, width: int, height: int, look: Look) -> (int, int, int, int, Seq<Seq<SPiece>>) {
    let lines = shortcut_lines(title, pairs, close, look);
    let bw = if widest_row(lines) + 4 < width { widest_row(lines) + 4 } else { width };
    let bh: int = if lines.len() + 2 < height { lines.len() as int + 2 } else { height };
    let inner = if bw >= 2 { bw - 2 } else { 0 };
    let room = if inner >= 1 { inner - 1 } else { 0 };
    ((width - bw) / 2, (height - bh) / 2, bw, bh,
        Seq::new(lines.len(), |i: int| seq![(seq![' '], body_tone())] + spec_truncate(lines[i], room, ellipsis(look))))
}

/// Whether the shortcut box's texts are small enough to lay out.
pub open spec fn shortcuts_fit(title: Seq<char>, pairs: Seq<(Seq<char>, Seq<char>)>, close: Seq<char>) -> bool {
    &&& 64 * (title.len() + close.len() + 1) <= usize::MAX
    &&& forall|i: int| 0 <= i < pairs.len() ==> 64 * ((#[trigger] pairs[i]).0.len() + pairs[i].1.len() + 1) <= usize::MAX
}

/// The widest keys among the shortcuts, as `look` draws them.
fn widest_keys_of(pairs: &Vec<(String, String)>, look: &Look) -> (w: usize)
    requires
        forall|i: int| 0 <= i < pairs@.len() ==> 64 * ((#[trigger] pairs_view(pairs@)[i]).0.len() + pairs_view(pairs@)[i].1.len() + 1) <= usize::MAX,
    ensures
        w == widest_keys(pairs_view(pairs@), *look),
        7 * w + 64 <= usize::MAX,
{
    let ghost ps = pairs_view(pairs@);
    let mut w: usize = 0;
    let mut i: usize = 0;
    proof {
        assert(ps.take(0) =~= Seq::<(Seq<char>, Seq<char>)>::empty());
    }
    while i < pairs.len()
        invariant
            i <= pairs@.len(),
            ps == pairs_view(pairs@),
            forall|j: int| 0 <= j < pairs@.len() ==> 64 * ((#[trigger] ps[j]).0.len() + ps[j].1.len() + 1) <= usize::MAX,
            w == widest_keys(ps.take(i as int), *look),
            7 * w + 64 <= usize::MAX,
        decreases pairs@.len() - i,
    {
        let keys = look.text(pairs[i].0.as_str());
        let x = width(keys.as_str());
        proof {
            assert(ps[i as int] == (pairs@[i as int].0@, pairs@[i as int].1@));
            look_text_size(*look, ps[i as int].0);
            assert(64 * (ps[i as int].0.len() + ps[i as int].1.len() + 1) <= usize::MAX);
            assert(ps.take(i + 1).drop_last() =~= ps.take(i as int));
        }
        if x > w {
            w = x;
        }
        i = i + 1;
    }
    proof {
        assert(ps.take(pairs@.len() as int) =~= ps);
    }
    w
}

/// Lays out the shortcut box for a screen `width` × `height`.
pub fn shortcut_box(title: &str, pairs: &Vec<(String, String)>, close: &str, width: usize, height: usize, look: &Look) -> (out: ShortcutBox)
    requires
        shortcuts_fit(title@, pairs_view(pairs@), close@),
    ensures
        shortcut_box_view(out) == spec_shortcut_box(title@, pairs_view(pairs@), close@, width as int, height as int, *look),
{
    let ghost ps = pairs_view(pairs@);
    let ghost lines = shortcut_lines(title@, ps, close@, *look);
    let key_width = widest_keys_of(pairs, look);
    let ghost kw = key_width as int;
    let mut lines_made: Vec<Row> = Vec::new();
    let title_row: Row = vec![(crate::strings::string_of(crate::strings::chars_of(title).as_slice()), Tone::body().bold())];
    lines_made.push(title_row);
    lines_made.push(Vec::new());
    let mut i: usize = 0;
    proof {
        let r0 = row_view(lines_made@[0]@);
        assert(r0 =~= seq![(title@, Tone { bold: true, ..body_tone() })]);
        assert(r0.drop_last() =~= Seq::<SPiece>::empty());
        assert(size(r0.drop_last()) == 0);
        assert(size(r0) == title@.len());
        assert(row_view(lines_made@[1]@) =~= Seq::<SPiece>::empty());
        assert(size(row_view(lines_made@[1]@)) == 0);
        assert(lines[0] == seq![(title@, Tone { bold: true, ..body_tone() })]);
        assert(lines[1] == Seq::<SPiece>::empty());
        assert(rows_view(lines_made@) =~~= lines.take(2));
    }
    while i < pairs.len()
        invariant
            i <= pairs@.len(),
            ps == pairs_view(pairs@),
            shortcuts_fit(title@, ps, close@),
            key_width == widest_keys(ps, *look),
            kw == key_width as int,
            7 * key_width + 64 <= usize::MAX,
            lines == shortcut_lines(title@, ps, close@, *look),
            rows_view(lines_made@) == lines.take(i + 2),
            forall|j: int| 0 <= j < lines_made@.len() ==> 4 * size(row_view((#[trigger] lines_made@[j])@)) + 8 <= usize::MAX,
        decreases pairs@.len() - i,
    {
        let ghost pv = ps[i as int];
        proof {
            assert(pv == (pairs@[i as int].0@, pairs@[i as int].1@));
            assert(64 * (pv.0.len() + pv.1.len() + 1) <= usize::MAX);
            look_text_size(*look, pv.0);
            look_text_size(*look, pv.1);
        }
        let mut row: Row = vec![(look.text(pairs[i].0.as_str()), Tone::of(Hue::Accent))];
        let ghost start = row_view(row@);
        proof {
            assert(start =~= seq![(look_text(*look, pv.0), accent_tone())]);
            assert(start.drop_last() =~= Seq::<SPiece>::empty());
            assert(size(start.drop_last()) == 0);
            assert(size(start) == look_text(*look, pv.0).len());
            crate::text::columns_nonnegative(start);
        }
        pad(&mut row, key_width + 2);
        let ghost padded = row_view(row@);
        proof {
            if crate::text::columns(start) < key_width + 2 {
                size_push(start, (spaces((key_width + 2 - crate::text::columns(start)) as nat), body_tone()));
            }
            assert(size(padded) <= size(start) + key_width + 2);
        }
        row.push((look.text(pairs[i].1.as_str()), Tone::body()));
        proof {
            assert(row_view(row@) =~= padded.push((look_text(*look, pv.1), body_tone())));
            size_push(padded, (look_text(*look, pv.1), body_tone()));
            assert(start == seq![(look_text(*look, pv.0), accent_tone())]);
            assert(padded == spec_pad(start, kw + 2));
            assert(row_view(row@) == padded.push((look_text(*look, pv.1), body_tone())));
            assert(row_view(row@) == shortcut_row(pv, kw, *look));
            assert(lines[i + 2] == shortcut_row(ps[i as int], kw, *look));
        }
        let ghost before = rows_view(lines_made@);
        lines_made.push(row);
        i = i + 1;
        proof {
            assert(rows_view(lines_made@) =~= before.push(lines[i + 1]));
            assert(lines.take(i + 2) =~= lines.take(i + 1).push(lines[i + 1]));
        }
    }
    let close_row: Row = vec![(crate::strings::string_of(crate::strings::chars_of(close).as_slice()), Tone::of(Hue::Secondary))];
    let ghost made = rows_view(lines_made@);
    lines_made.push(Vec::new());
    lines_made.push(close_row);
    proof {
        assert(lines.len() == ps.len() + 4);
        assert(made == lines.take(ps.len() as int + 2));
        assert(lines[ps.len() as int + 2] == Seq::<SPiece>::empty());
        assert(lines[ps.len() as int + 3] == seq![(close@, secondary_tone())]);
        assert(row_view(lines_made@[ps.len() as int + 2]@) =~= Seq::<SPiece>::empty());
        assert(row_view(lines_made@[ps.len() as int + 3]@) =~= seq![(close@, secondary_tone())]);
        assert forall|j: int| 0 <= j < lines.len() implies rows_view(lines_made@)[j] == lines[j] by {
            if j < ps.len() + 2 {
                assert(made[j] == lines[j]);
                assert(rows_view(lines_made@)[j] == made[j]);
            }
        }
        assert(rows_view(lines_made@) =~= lines);
        assert forall|j: int| 0 <= j < lines_made@.len() implies 4 * size(row_view((#[trigger] lines_made@[j])@)) + 8 <= usize::MAX by {
            if j == ps.len() + 2 {
                assert(size(row_view(lines_made@[j]@)) == 0);
            } else if j == ps.len() + 3 {
                let r = row_view(lines_made@[j]@);
                assert(r =~= seq![(close@, secondary_tone())]);
                assert(r.drop_last() =~= Seq::<SPiece>::empty());
                assert(size(r.drop_last()) == 0);
                assert(size(r) == close@.len());
            }
        }
    }
    // The widest line.
    let mut widest: usize = 0;
    let mut k: usize = 0;
    proof {
        assert(lines.take(0) =~= Seq::<Seq<SPiece>>::empty());
    }
    while k < lines_made.len()
        invariant
            k <= lines_made@.len(),
            rows_view(lines_made@) == lines,
            forall|j: int| 0 <= j < lines_made@.len() ==> 4 * size(row_view((#[trigger] lines_made@[j])@)) + 8 <= usize::MAX,
            widest == widest_row(lines.take(k as int)),
            widest + 4 <= usize::MAX,
        decreases lines_made@.len() - k,
    {
        let w = columns_of(lines_made[k].as_slice());
        proof {
            assert(lines[k as int] == row_view(lines_made@[k as int]@));
            assert(lines.take(k + 1).drop_last() =~= lines.take(k as int));
        }
        if w > widest {
            widest = w;
        }
        k = k + 1;
    }
    proof {
        assert(lines.take(lines_made@.len() as int) =~= lines);
    }
    let box_width = if widest + 4 < width { widest + 4 } else { width };
    let box_height = if height >= 2 && lines_made.len() < height - 2 { lines_made.len() + 2 } else { height };
    let inner = if box_width >= 2 { box_width - 2 } else { 0 };
    let room = if inner >= 1 { inner - 1 } else { 0 };
    let e = ellipsis_of(look);
    let mut rows: Vec<Row> = Vec::new();
    let ghost expected = Seq::new(lines.len(), |i: int| seq![(seq![' '], body_tone())] + spec_truncate(lines[i], room as int, ellipsis(*look)));
    let mut m: usize = 0;
    while m < lines_made.len()
        invariant
            m <= lines_made@.len(),
            rows_view(lines_made@) == lines,
            forall|j: int| 0 <= j < lines_made@.len() ==> 4 * size(row_view((#[trigger] lines_made@[j])@)) + 8 <= usize::MAX,
            e@ == ellipsis(*look),
            expected == Seq::new(lines.len(), |i: int| seq![(seq![' '], body_tone())] + spec_truncate(lines[i], room as int, ellipsis(*look))),
            rows_view(rows@) == expected.take(m as int),
        decreases lines_made@.len() - m,
    {
        let line = crate::text::copy_row(&lines_made[m]);
        proof {
            assert(row_view(line@) == lines[m as int]);
        }
        let mut cut = truncate(line, room, e.as_str());
        let ghost cut_view = row_view(cut@);
        cut.insert(0, space_piece());
        proof {
            assert(row_view(cut@) =~= seq![(seq![' '], body_tone())] + cut_view);
        }
        let ghost before = rows_view(rows@);
        rows.push(cut);
        m = m + 1;
        proof {
            assert(rows_view(rows@) =~= before.push(expected[m - 1]));
            assert(rows_view(rows@) =~= expected.take(m as int));
        }
    }
    proof {
        assert(expected.take(lines.len() as int) =~= expected);
    }
    ShortcutBox { x: (width - box_width) / 2, y: (height - box_height) / 2, width: box_width, height: box_height, rows }
}

/// The chosen row is always among the rows the popup shows, and the popup shows no more rows
/// than the candidates, [`POPUP_ROWS`] and its room allow.
pub proof fn the_selection_stays_in_view(count: int, selected: int, room: int)
    requires
        count > 0,
        room > 0,
        selected >= 0,
    ensures
        ({
            let shown = popup_shown(count, room);
            let first = popup_first(count, selected, shown);
            let s = popup_selected(count, selected);
            &&& 0 < shown <= POPUP_ROWS
            &&& shown <= count && shown <= room
            &&& 0 <= first <= s < first + shown
            &&& first + shown <= count
        }),
{
}

} // verus!
