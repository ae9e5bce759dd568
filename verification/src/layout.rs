//! Turns documents and cells into screen rows at a given width.

use vstd::prelude::*;

use std::time::Duration;

use crate::doc::{body_tone, Block, Doc, Entry, Hue, Kind, Span, Table, Tone};
use crate::look::{ascii_text_size, duration_millis, look_text, millis_of, spinner_frame, Look};
use crate::strings::{push_str, repeat, repeated, spaces, spaces_string};
use crate::table::{body_cells, body_size, cells_resolved, cells_size, column_count, longest_row, rows, spec_rows, table_fits, table_size};
use crate::text::{
    columns, columns_of, copy_row, pad, row_view, rows_view, size, spec_pad, spec_truncate, spec_wrap,
    truncate, truncate_size, width, wrap, Piece, Row, SPiece,
};
use crate::width::str_columns;

verus! {

/// Characters of every span together.
pub open spec fn spans_size(spans: Seq<Span>) -> int
    decreases spans.len(),
{
    if spans.len() == 0 {
        0
    } else {
        spans_size(spans.drop_last()) + spans.last().text@.len()
    }
}

/// Spans as a look shows them.
pub open spec fn spec_resolve(spans: Seq<Span>, look: Look) -> Seq<SPiece> {
    spans.map_values(|s: Span| (look_text(look, s.text@), s.tone))
}

/// Resolving never more than triples the characters.
pub proof fn resolve_size(spans: Seq<Span>, look: Look)
    ensures
        0 <= size(spec_resolve(spans, look)) <= 3 * spans_size(spans),
        0 <= spans_size(spans),
    decreases spans.len(),
{
    if spans.len() > 0 {
        resolve_size(spans.drop_last(), look);
        assert(spec_resolve(spans, look).drop_last() =~= spec_resolve(spans.drop_last(), look));
        ascii_text_size(spans.last().text@);
    }
}

/// Resolves spans for the look: ASCII stand-ins are swapped in here, before anything is measured.
pub fn resolve(spans: &Vec<Span>, look: &Look) -> (row: Row)
    ensures
        row_view(row@) == spec_resolve(spans@, *look),
{
    let mut row: Row = Vec::new();
    let mut i: usize = 0;
    while i < spans.len()
        invariant
            i <= spans@.len(),
            row_view(row@) == spec_resolve(spans@.take(i as int), *look),
        decreases spans@.len() - i,
    {
        let text = look.text(spans[i].text.as_str());
        let ghost before = row_view(row@);
        row.push((text, spans[i].tone));
        proof {
            assert(row_view(row@) =~= before.push((look_text(*look, spans@[i as int].text@), spans@[i as int].tone)));
            assert(spec_resolve(spans@.take(i + 1), *look) =~= spec_resolve(spans@.take(i as int), *look).push(
                (look_text(*look, spans@[i as int].text@), spans@[i as int].tone),
            ));
        }
        i = i + 1;
    }
    proof {
        assert(spans@.take(spans@.len() as int) =~= spans@);
    }
    row
}

/// Characters of an optional list of spans.
pub open spec fn hang_size(hang: Option<Vec<Span>>) -> int {
    match hang {
        Some(h) => spans_size(h@),
        None => 0,
    }
}

/// Whether a block is small enough to lay out without any count overflowing.
pub open spec fn block_fits(block: Block) -> bool {
    match block {
        Block::Text { lead, hang, body } => 27 * (spans_size(lead@) + hang_size(hang) + spans_size(body@)) + 64 <= usize::MAX,
        Block::Pre(lines) => 27 * cells_size(lines@) + 64 <= usize::MAX,
        Block::Table(table) => table_fits(table),
        Block::Boxed(lines) => 27 * cells_size(lines@) + 64 <= usize::MAX,
        Block::Rule => true,
        Block::Blank => true,
    }
}

/// Whether every block of a document fits.
pub open spec fn doc_fits(blocks: Seq<Block>) -> bool {
    forall|i: int| 0 <= i < blocks.len() ==> block_fits(#[trigger] blocks[i])
}

/// The tone of secondary information.
pub open spec fn secondary_tone() -> Tone {
    Tone { hue: Hue::Secondary, ..body_tone() }
}

/// The rows of a text block: `lead` before the first row, the hang (or spaces as wide as the
/// lead) before the rest, the body wrapped in the room left.
pub open spec fn spec_text_rows(lead: Seq<Span>, hang: Option<Vec<Span>>, body: Seq<Span>, max: int, look: Look) -> Seq<Seq<SPiece>> {
    let lead_r = spec_resolve(lead, look);
    let lead_width = columns(lead_r);
    let hang_r = match hang {
        Some(h) => spec_resolve(h@, look),
        None => if lead_width > 0 {
            seq![(spaces(lead_width as nat), body_tone())]
        } else {
            Seq::empty()
        },
    };
    let widest = if lead_width > columns(hang_r) {
        lead_width
    } else {
        columns(hang_r)
    };
    let room = if max > widest {
        max - widest
    } else {
        1
    };
    let wrapped = spec_wrap(spec_resolve(body, look), room);
    Seq::new(wrapped.len(), |i: int| (if i == 0 { lead_r } else { hang_r }) + wrapped[i])
}

/// The widest of some rows, in columns; zero when there is none.
pub open spec fn widest_row(rows: Seq<Seq<SPiece>>) -> int
    decreases rows.len(),
{
    if rows.len() == 0 {
        0
    } else {
        let rest = widest_row(rows.drop_last());
        if columns(rows.last()) > rest {
            columns(rows.last())
        } else {
            rest
        }
    }
}

/// A horizontal edge of a box: a corner, the rule, the other corner.
pub open spec fn box_edge(look: Look, left: char, right: char, inner: int) -> Seq<SPiece> {
    seq![(
        look_text(look, seq![left]) + repeated(look_text(look, seq!['─']), (inner + 2) as nat) + look_text(look, seq![right]),
        secondary_tone(),
    )]
}

/// One row inside a box: the border, the row cut and padded to the inner width, the border.
pub open spec fn box_row(row: Seq<SPiece>, inner: int, look: Look) -> Seq<SPiece> {
    seq![(look_text(look, seq!['│']).push(' '), secondary_tone())]
        + spec_pad(spec_truncate(row, inner, look_text(look, seq!['…'])), inner)
        + seq![(seq![' '] + look_text(look, seq!['│']), secondary_tone())]
}

/// The inner width of a box: its widest row, but no more than the width allows.
pub open spec fn box_inner(content: Seq<Seq<SPiece>>, max: int) -> int {
    let room = if max > 4 {
        max - 4
    } else {
        0
    };
    if widest_row(content) < room {
        widest_row(content)
    } else {
        room
    }
}

/// Rows inside a rounded box sized to its content.
pub open spec fn spec_boxed_rows(lines: Seq<Vec<Span>>, max: int, look: Look) -> Seq<Seq<SPiece>> {
    let content = body_cells(lines, look);
    let inner = box_inner(content, max);
    seq![box_edge(look, '╭', '╮', inner)]
        + content.map_values(|row: Seq<SPiece>| box_row(row, inner, look))
        + seq![box_edge(look, '╰', '╯', inner)]
}

/// The rows of one block at `max` columns.
pub open spec fn spec_block_rows(block: Block, max: int, look: Look) -> Seq<Seq<SPiece>> {
    match block {
        Block::Text { lead, hang, body } => spec_text_rows(lead@, hang, body@, max, look),
        Block::Pre(lines) => lines@.map_values(
            |line: Vec<Span>| spec_truncate(spec_resolve(line@, look), max, look_text(look, seq!['…'])),
        ),
        Block::Table(table) => spec_rows(table, max, look),
        Block::Boxed(lines) => spec_boxed_rows(lines@, max, look),
        Block::Rule => seq![seq![(
            repeated(look_text(look, seq!['─']), (if max < 100 { max } else { 100 }) as nat),
            secondary_tone(),
        )]],
        Block::Blank => seq![Seq::empty()],
    }
}

/// Every row of a document's blocks at `max` columns.
pub open spec fn spec_doc_rows(blocks: Seq<Block>, max: int, look: Look) -> Seq<Seq<SPiece>>
    decreases blocks.len(),
{
    if blocks.len() == 0 {
        Seq::empty()
    } else {
        spec_doc_rows(blocks.drop_last(), max, look) + spec_block_rows(blocks.last(), max, look)
    }
}

/// The rows of a text block.
fn text_rows(lead: &Vec<Span>, hang: &Option<Vec<Span>>, body: &Vec<Span>, max: usize, look: &Look) -> (out: Vec<Row>)
    requires
        27 * (spans_size(lead@) + hang_size(*hang) + spans_size(body@)) + 64 <= usize::MAX,
    ensures
        rows_view(out@) == spec_text_rows(lead@, *hang, body@, max as int, *look),
{
    proof {
        resolve_size(lead@, *look);
        resolve_size(body@, *look);
        match hang {
            Some(h) => resolve_size(h@, *look),
            None => {},
        }
    }
    let lead_r = resolve(lead, look);
    let lead_width = columns_of(lead_r.as_slice());
    let hang_r: Row = match hang {
        Some(h) => resolve(h, look),
        None => if lead_width > 0 {
            let pad = spaces_string(lead_width);
            let row = vec![(pad, Tone::body())];
            proof {
                assert(row_view(row@) =~= seq![(spaces(lead_width as nat), body_tone())]);
                assert(size(row_view(row@).drop_last()) == 0);
            }
            row
        } else {
            let row: Row = Vec::new();
            proof {
                assert(row_view(row@) =~= Seq::<SPiece>::empty());
            }
            row
        },
    };
    let hang_width = columns_of(hang_r.as_slice());
    let widest = if lead_width > hang_width {
        lead_width
    } else {
        hang_width
    };
    let room = if max > widest {
        max - widest
    } else {
        1
    };
    let body_r = resolve(body, look);
    let wrapped = wrap(body_r.as_slice(), room);
    let ghost target = spec_text_rows(lead@, *hang, body@, max as int, *look);
    let mut out: Vec<Row> = Vec::new();
    let mut index: usize = 0;
    while index < wrapped.len()
        invariant
            index <= wrapped@.len(),
            target == spec_text_rows(lead@, *hang, body@, max as int, *look),
            target.len() == wrapped@.len(),
            out@.len() == index,
            forall|i: int| 0 <= i < wrapped@.len() ==> #[trigger] target[i] == (if i == 0 {
                row_view(lead_r@)
            } else {
                row_view(hang_r@)
            }) + row_view(wrapped@[i]@),
            forall|i: int| 0 <= i < index ==> #[trigger] row_view(out@[i]@) == target[i],
        decreases wrapped@.len() - index,
    {
        let mut row = if index == 0 {
            copy_row(&lead_r)
        } else {
            copy_row(&hang_r)
        };
        let mut rest = copy_row(&wrapped[index]);
        let ghost first = row_view(row@);
        row.append(&mut rest);
        proof {
            assert(row_view(row@) =~= first + row_view(wrapped@[index as int]@));
        }
        out.push(row);
        index = index + 1;
    }
    proof {
        assert(rows_view(out@) =~= target);
    }
    out
}

/// The widest of some rows, in columns.
fn widest_of(rows: &Vec<Row>) -> (w: usize)
    requires
        forall|r: int| 0 <= r < rows@.len() ==> 3 * size(row_view(#[trigger] rows@[r]@)) <= usize::MAX,
    ensures
        w == widest_row(rows_view(rows@)),
{
    let mut w: usize = 0;
    let mut r: usize = 0;
    while r < rows.len()
        invariant
            r <= rows@.len(),
            forall|q: int| 0 <= q < rows@.len() ==> 3 * size(row_view(#[trigger] rows@[q]@)) <= usize::MAX,
            w == widest_row(rows_view(rows@).take(r as int)),
        decreases rows@.len() - r,
    {
        proof {
            assert(rows_view(rows@).take(r + 1).drop_last() =~= rows_view(rows@).take(r as int));
        }
        let c = columns_of(rows[r].as_slice());
        if c > w {
            w = c;
        }
        r = r + 1;
    }
    proof {
        assert(rows_view(rows@).take(rows@.len() as int) =~= rows_view(rows@));
    }
    w
}

/// A box edge: `left`, the rule `inner + 2` wide, `right`.
fn edge(look: &Look, left: &str, right: &str, inner: usize) -> (row: Row)
    requires
        inner + 2 <= usize::MAX,
    ensures
        row_view(row@) == seq![(look_text(*look, left@) + repeated(look_text(*look, "─"@), (inner + 2) as nat) + look_text(*look, right@), secondary_tone())],
{
    let mut text = look.text(left);
    let rule = look.text("─");
    let horizontal = repeat(rule.as_str(), inner + 2);
    push_str(&mut text, horizontal.as_str());
    let corner = look.text(right);
    push_str(&mut text, corner.as_str());
    let row = vec![(text, Tone::of(Hue::Secondary))];
    proof {
        assert(row_view(row@) =~= seq![(look_text(*look, left@) + repeated(look_text(*look, "─"@), (inner + 2) as nat) + look_text(*look, right@), secondary_tone())]);
    }
    row
}

/// Rows inside a rounded box sized to its content.
fn boxed_rows(lines: &Vec<Vec<Span>>, max: usize, look: &Look) -> (out: Vec<Row>)
    requires
        27 * cells_size(lines@) + 64 <= usize::MAX,
    ensures
        rows_view(out@) == spec_boxed_rows(lines@, max as int, *look),
{
    proof {
        cells_resolved(lines@, *look);
        reveal_strlit("…");
        reveal_strlit("─");
        reveal_strlit("│");
        reveal_strlit("╭");
        reveal_strlit("╮");
        reveal_strlit("╰");
        reveal_strlit("╯");
        reveal_strlit(" ");
    }
    let ghost cv = body_cells(lines@, *look);
    let mut content: Vec<Row> = Vec::new();
    let mut i: usize = 0;
    while i < lines.len()
        invariant
            i <= lines@.len(),
            cv == body_cells(lines@, *look),
            rows_view(content@) == cv.take(i as int),
        decreases lines@.len() - i,
    {
        let row = resolve(&lines[i], look);
        let ghost prev = content@;
        content.push(row);
        proof {
            assert(rows_view(content@) =~= rows_view(prev).push(row_view(row@)));
            assert(cv.take(i + 1) =~= cv.take(i as int).push(cv[i as int]));
        }
        i = i + 1;
    }
    proof {
        assert(cv.take(lines@.len() as int) =~= cv);
        assert forall|r: int| 0 <= r < content@.len() implies 3 * size(row_view(#[trigger] content@[r]@)) + 12 <= usize::MAX by {
            assert(row_view(content@[r]@) == cv[r]);
        }
    }
    let natural = widest_of(&content);
    let room = if max > 4 {
        max - 4
    } else {
        0
    };
    let inner = if natural < room {
        natural
    } else {
        room
    };
    proof {
        if content@.len() > 0 {
            widest_row_bound(cv);
        } else {
            assert(cv.len() == 0);
        }
    }
    let ellipsis = look.text("…");
    proof {
        crate::look::ascii_text_size("…"@);
        assert("…"@ =~= seq!['…']);
        assert("─"@ =~= seq!['─']);
        assert("│"@ =~= seq!['│']);
        assert("╭"@ =~= seq!['╭']);
        assert("╮"@ =~= seq!['╮']);
        assert("╰"@ =~= seq!['╰']);
        assert("╯"@ =~= seq!['╯']);
    }
    let ghost target = spec_boxed_rows(lines@, max as int, *look);
    let mut out: Vec<Row> = Vec::new();
    out.push(edge(look, "╭", "╮", inner));
    let mut k: usize = 0;
    while k < content.len()
        invariant
            k <= content@.len(),
            rows_view(content@) == cv,
            cv == body_cells(lines@, *look),
            inner == box_inner(cv, max as int),
            ellipsis@ == look_text(*look, seq!['…']),
            ellipsis@.len() <= 3,
            forall|r: int| 0 <= r < content@.len() ==> 3 * size(row_view(#[trigger] content@[r]@)) + 12 <= usize::MAX,
            out@.len() == k + 1,
            row_view(out@[0]@) == box_edge(*look, '╭', '╮', inner as int),
            forall|r: int| 0 <= r < k ==> #[trigger] row_view(out@[r + 1]@) == box_row(cv[r], inner as int, *look),
        decreases content@.len() - k,
    {
        let row = copy_row(&content[k]);
        proof {
            assert(row_view(row@) == cv[k as int]);
            reveal_strlit("│");
            assert("│"@ =~= seq!['│']);
        }
        let ghost rv = row_view(row@);
        let mut cut = truncate(row, inner, ellipsis.as_str());
        proof {
            truncate_size(rv, inner as int, ellipsis@);
        }
        pad(&mut cut, inner);
        let mut left = look.text("│");
        crate::strings::push_char(&mut left, ' ');
        let mut line: Row = vec![(left, Tone::of(Hue::Secondary))];
        let ghost first = row_view(line@);
        line.append(&mut cut);
        let mut right = String::new();
        crate::strings::push_char(&mut right, ' ');
        let bar = look.text("│");
        push_str(&mut right, bar.as_str());
        let ghost mid = row_view(line@);
        line.push((right, Tone::of(Hue::Secondary)));
        proof {
            assert(row_view(line@) =~= box_row(cv[k as int], inner as int, *look));
        }
        let ghost prev = out@;
        out.push(line);
        proof {
            assert forall|r: int| 0 <= r < k + 1 implies #[trigger] row_view(out@[r + 1]@) == box_row(cv[r], inner as int, *look) by {
                if r < k {
                    assert(out@[r + 1] == prev[r + 1]);
                }
            }
        }
        k = k + 1;
    }
    out.push(edge(look, "╰", "╯", inner));
    proof {
        let middle = cv.map_values(|row: Seq<SPiece>| box_row(row, inner as int, *look));
        assert(rows_view(out@) =~= seq![box_edge(*look, '╭', '╮', inner as int)] + middle + seq![box_edge(*look, '╰', '╯', inner as int)]) by {
            assert forall|r: int| 0 <= r < out@.len() implies #[trigger] rows_view(out@)[r] == (seq![box_edge(*look, '╭', '╮', inner as int)] + middle + seq![box_edge(*look, '╰', '╯', inner as int)])[r] by {
                if 0 < r < out@.len() - 1 {
                    assert(row_view(out@[(r - 1) + 1]@) == box_row(cv[r - 1], inner as int, *look));
                }
            }
        }
    }
    out
}

/// The widest row is among the rows, and no wider than three columns a character of the widest.
proof fn widest_row_bound(rows: Seq<Seq<SPiece>>)
    ensures
        widest_row(rows) >= 0,
    decreases rows.len(),
{
    if rows.len() > 0 {
        widest_row_bound(rows.drop_last());
    }
}

/// The rows of one block at `max` columns.
fn block_rows(block: &Block, max: usize, look: &Look) -> (out: Vec<Row>)
    requires
        block_fits(*block),
    ensures
        rows_view(out@) == spec_block_rows(*block, max as int, *look),
{
    proof {
        reveal_strlit("…");
        reveal_strlit("─");
        assert("…"@ =~= seq!['…']);
        assert("─"@ =~= seq!['─']);
    }
    match block {
        Block::Text { lead, hang, body } => text_rows(lead, hang, body, max, look),
        Block::Pre(lines) => {
            let ellipsis = look.text("…");
            proof {
                cells_resolved(lines@, *look);
            }
            let ghost target = spec_block_rows(*block, max as int, *look);
            let mut out: Vec<Row> = Vec::new();
            let mut i: usize = 0;
            while i < lines.len()
                invariant
                    i <= lines@.len(),
                    target == lines@.map_values(
                        |line: Vec<Span>| spec_truncate(spec_resolve(line@, *look), max as int, look_text(*look, seq!['…'])),
                    ),
                    ellipsis@ == look_text(*look, seq!['…']),
                    27 * cells_size(lines@) + 64 <= usize::MAX,
                    forall|c: int| 0 <= c < lines@.len() ==> 0 <= size(#[trigger] body_cells(lines@, *look)[c]) <= 3 * cells_size(lines@),
                    rows_view(out@) == target.take(i as int),
                decreases lines@.len() - i,
            {
                let row = resolve(&lines[i], look);
                proof {
                    assert(body_cells(lines@, *look)[i as int] == row_view(row@));
                }
                let cut = truncate(row, max, ellipsis.as_str());
                let ghost prev = out@;
                out.push(cut);
                proof {
                    assert(rows_view(out@) =~= rows_view(prev).push(row_view(cut@)));
                    assert(target.take(i + 1) =~= target.take(i as int).push(target[i as int]));
                }
                i = i + 1;
            }
            proof {
                assert(target.take(lines@.len() as int) =~= target);
            }
            out
        },
        Block::Table(table) => rows(table, max, look),
        Block::Boxed(lines) => boxed_rows(lines, max, look),
        Block::Rule => {
            let glyph = look.text("─");
            let count = if max < 100 {
                max
            } else {
                100
            };
            let rule = repeat(glyph.as_str(), count);
            let out = vec![vec![(rule, Tone::of(Hue::Secondary))]];
            proof {
                assert(rows_view(out@) =~~= spec_block_rows(*block, max as int, *look));
            }
            out
        },
        Block::Blank => {
            let out: Vec<Row> = vec![Vec::new()];
            proof {
                assert(rows_view(out@) =~~= spec_block_rows(*block, max as int, *look));
            }
            out
        },
    }
}

/// Every row of `doc` at `max` columns.
pub fn doc_rows(doc: &Doc, max: usize, look: &Look) -> (out: Vec<Row>)
    requires
        doc_fits(doc.blocks@),
    ensures
        rows_view(out@) == spec_doc_rows(doc.blocks@, max as int, *look),
{
    let mut out: Vec<Row> = Vec::new();
    let mut i: usize = 0;
    while i < doc.blocks.len()
        invariant
            i <= doc.blocks@.len(),
            doc_fits(doc.blocks@),
            rows_view(out@) == spec_doc_rows(doc.blocks@.take(i as int), max as int, *look),
        decreases doc.blocks@.len() - i,
    {
        let mut more = block_rows(&doc.blocks[i], max, look);
        let ghost prev = rows_view(out@);
        out.append(&mut more);
        proof {
            assert(doc.blocks@.take(i + 1).drop_last() =~= doc.blocks@.take(i as int));
            assert(rows_view(out@) =~= prev + spec_block_rows(doc.blocks@[i as int], max as int, *look));
        }
        i = i + 1;
    }
    proof {
        assert(doc.blocks@.take(doc.blocks@.len() as int) =~= doc.blocks@);
    }
    out
}

/// The head glyph of a cell kind and its colour role; `None` for a cell drawn without one.
pub open spec fn glyph_of(kind: Kind, ascii: bool, millis: int) -> Option<(Seq<char>, Hue)> {
    match kind {
        Kind::Welcome => None,
        Kind::Command => Some((seq!['›'], Hue::Accent)),
        Kind::Result => Some((seq!['•'], Hue::Body)),
        Kind::Story => Some((seq!['•'], Hue::Body)),
        Kind::Running => Some((spinner_frame(ascii, millis), Hue::Accent)),
        Kind::Warning => Some((seq!['⚠'], Hue::Caution)),
        Kind::Error => Some((seq!['✗'], Hue::Failure)),
    }
}

/// The head piece of a cell as the look shows it.
pub open spec fn spec_head(kind: Kind, look: Look, millis: int) -> Option<SPiece> {
    match glyph_of(kind, look.ascii, millis) {
        None => None,
        Some(g) => Some((look_text(look, g.0), Tone { hue: g.1, ..body_tone() })),
    }
}

/// Every row of a cell at `max` columns: the head glyph and a space before the first row, spaces
/// as wide before the rest; a cell without a head glyph is its document's rows.
pub open spec fn spec_entry_rows(entry: Entry, max: int, look: Look, millis: int) -> Seq<Seq<SPiece>> {
    spec_cell_rows(entry.kind, entry.doc.blocks@, max, look, millis)
}

/// Every row of a cell of `kind` holding `blocks`, after `millis` of running.
pub open spec fn spec_cell_rows(kind: Kind, blocks: Seq<Block>, max: int, look: Look, millis: int) -> Seq<Seq<SPiece>> {
    match spec_head(kind, look, millis) {
        None => spec_doc_rows(blocks, max, look),
        Some(head) => {
            let indent = str_columns(head.0) + 1;
            let room = if max > indent {
                max - indent
            } else {
                1
            };
            let laid = spec_doc_rows(blocks, room, look);
            let rows = if laid.len() == 0 {
                seq![Seq::empty()]
            } else {
                laid
            };
            Seq::new(
                rows.len(),
                |i: int|
                    (if i == 0 {
                        seq![head, (seq![' '], body_tone())]
                    } else {
                        seq![(spaces(indent as nat), body_tone())]
                    }) + rows[i],
            )
        },
    }
}

/// The head glyph of a cell kind, after `millis` of running for a spinner.
fn head(kind: Kind, look: &Look, millis: u128) -> (piece: Option<Piece>)
    ensures
        match (piece, spec_head(kind, *look, millis as int)) {
            (Some(p), Some(q)) => p.0@ == q.0 && p.1 == q.1 && p.0@.len() <= 3,
            (None, None) => true,
            _ => false,
        },
{
    proof {
        reveal_strlit("›");
        reveal_strlit("•");
        reveal_strlit("⚠");
        reveal_strlit("✗");
    }
    let (glyph, hue) = match kind {
        Kind::Welcome => return None,
        Kind::Command => ("›", Hue::Accent),
        Kind::Result => ("•", Hue::Body),
        Kind::Story => ("•", Hue::Body),
        Kind::Running => (look.spinner_at(millis), Hue::Accent),
        Kind::Warning => ("⚠", Hue::Caution),
        Kind::Error => ("✗", Hue::Failure),
    };
    proof {
        assert(glyph@ == glyph_of(kind, look.ascii, millis as int).unwrap().0);
        assert(glyph@.len() == 1) by {
            reveal_with_fuel(crate::look::braille_frame, 1);
        }
        crate::look::ascii_text_size(glyph@);
    }
    Some((look.text(glyph), Tone::of(hue)))
}

/// Every row of a cell after `millis` of running: the head glyph and a space before the first row,
/// two spaces before the rest.
pub fn entry_rows_at(entry: &Entry, max: usize, look: &Look, millis: u128) -> (out: Vec<Row>)
    requires
        doc_fits(entry.doc.blocks@),
    ensures
        rows_view(out@) == spec_entry_rows(*entry, max as int, *look, millis as int),
{
    let head = match head(entry.kind, look, millis) {
        None => return doc_rows(&entry.doc, max, look),
        Some(head) => head,
    };
    let ghost hv = spec_head(entry.kind, *look, millis as int).unwrap();
    let indent = width(head.0.as_str()) + 1;
    let room = if max > indent {
        max - indent
    } else {
        1
    };
    let mut laid = doc_rows(&entry.doc, room, look);
    if laid.len() == 0 {
        laid.push(Vec::new());
        proof {
            assert(rows_view(laid@) =~~= seq![Seq::<SPiece>::empty()]);
        }
    }
    let ghost target = spec_entry_rows(*entry, max as int, *look, millis as int);
    let mut out: Vec<Row> = Vec::new();
    let mut index: usize = 0;
    while index < laid.len()
        invariant
            index <= laid@.len(),
            target.len() == laid@.len(),
            forall|i: int| 0 <= i < laid@.len() ==> #[trigger] target[i] == (if i == 0 {
                seq![hv, (seq![' '], body_tone())]
            } else {
                seq![(spaces(indent as nat), body_tone())]
            }) + row_view(laid@[i]@),
            head.0@ == hv.0,
            head.1 == hv.1,
            out@.len() == index,
            forall|i: int| 0 <= i < index ==> #[trigger] row_view(out@[i]@) == target[i],
        decreases laid@.len() - index,
    {
        let mut row: Row = if index == 0 {
            let mut space = String::new();
            crate::strings::push_char(&mut space, ' ');
            let first = vec![crate::text::copy_piece(&head), (space, Tone::body())];
            proof {
                assert(row_view(first@) =~= seq![hv, (seq![' '], body_tone())]);
            }
            first
        } else {
            let first = vec![(spaces_string(indent), Tone::body())];
            proof {
                assert(row_view(first@) =~= seq![(spaces(indent as nat), body_tone())]);
            }
            first
        };
        let ghost front = row_view(row@);
        let mut rest = copy_row(&laid[index]);
        row.append(&mut rest);
        proof {
            assert(row_view(row@) =~= front + row_view(laid@[index as int]@));
        }
        out.push(row);
        index = index + 1;
    }
    proof {
        assert(rows_view(out@) =~= target);
    }
    out
}

/// Every row of a cell that has been running for `running_for`: the head glyph and a space before
/// the first row, two spaces before the rest.
pub fn entry_rows(entry: &Entry, max: usize, look: &Look, running_for: Duration) -> (out: Vec<Row>)
    requires
        doc_fits(entry.doc.blocks@),
    ensures
        rows_view(out@) == spec_entry_rows(*entry, max as int, *look, duration_millis(running_for) as int),
{
    let millis = millis_of(running_for);
    entry_rows_at(entry, max, look, millis)
}

/// Spans hold no negative number of characters, and a prefix no more than the whole.
proof fn spans_size_prefix(spans: Seq<Span>, k: int)
    requires
        0 <= k <= spans.len(),
    ensures
        0 <= spans_size(spans.take(k)) <= spans_size(spans),
    decreases spans.len(),
{
    resolve_size(spans, Look { color: true, ascii: false });
    if k < spans.len() {
        spans_size_prefix(spans.drop_last(), k);
        assert(spans.drop_last().take(k) =~= spans.take(k));
    } else {
        assert(spans.take(k) =~= spans);
    }
}

/// Lists of cells hold no negative number of characters, and a prefix no more than the whole.
proof fn cells_size_prefix(cells: Seq<Vec<Span>>, k: int)
    requires
        0 <= k <= cells.len(),
    ensures
        0 <= cells_size(cells.take(k)) <= cells_size(cells),
    decreases cells.len(),
{
    cells_resolved(cells, Look { color: true, ascii: false });
    if k < cells.len() {
        cells_size_prefix(cells.drop_last(), k);
        assert(cells.drop_last().take(k) =~= cells.take(k));
        resolve_size(cells.last()@, Look { color: true, ascii: false });
    } else {
        assert(cells.take(k) =~= cells);
    }
}

/// Rows of cells hold no negative number of characters, and a prefix no more than the whole.
proof fn body_size_prefix(rows: Seq<Vec<Vec<Span>>>, k: int)
    requires
        0 <= k <= rows.len(),
    ensures
        0 <= body_size(rows.take(k)) <= body_size(rows),
    decreases rows.len(),
{
    crate::table::body_resolved(rows, Look { color: true, ascii: false });
    if k < rows.len() {
        body_size_prefix(rows.drop_last(), k);
        assert(rows.drop_last().take(k) =~= rows.take(k));
        cells_resolved(rows.last()@, Look { color: true, ascii: false });
    } else {
        assert(rows.take(k) =~= rows);
    }
}

/// Past the limit, a table no longer fits.
proof fn past_table_limit(x: int, m: int)
    requires
        m >= 16,
        x > (m - 16) / 27,
    ensures
        27 * x + 16 > m,
{
    assert(27 * ((m - 16) / 27 + 1) > m - 16) by (nonlinear_arith)
        requires
            m >= 16,
    ;
}

/// Past the limit, the sizes no longer fit.
proof fn past_limit(x: int, m: int)
    requires
        m >= 64,
        x > (m - 64) / 27,
    ensures
        27 * x + 64 > m,
{
    assert(27 * ((m - 64) / 27 + 1) > m - 64) by (nonlinear_arith)
        requires
            m >= 64,
    ;
}

/// The characters of some spans, when they are no more than `limit`.
fn spans_size_upto(spans: &Vec<Span>, limit: usize) -> (n: Option<usize>)
    ensures
        match n {
            Some(k) => k == spans_size(spans@) && k <= limit,
            None => spans_size(spans@) > limit,
        },
{
    let mut total: usize = 0;
    let mut i: usize = 0;
    while i < spans.len()
        invariant
            i <= spans@.len(),
            total == spans_size(spans@.take(i as int)),
            total <= limit,
        decreases spans@.len() - i,
    {
        proof {
            assert(spans@.take(i + 1).drop_last() =~= spans@.take(i as int));
        }
        let len = crate::strings::char_count(spans[i].text.as_str());
        if len > limit - total {
            proof {
                spans_size_prefix(spans@, i + 1);
            }
            return None;
        }
        total = total + len;
        i = i + 1;
    }
    proof {
        assert(spans@.take(spans@.len() as int) =~= spans@);
    }
    Some(total)
}

/// The characters of a list of cells, when they are no more than `limit`.
fn cells_size_upto(cells: &Vec<Vec<Span>>, limit: usize) -> (n: Option<usize>)
    ensures
        match n {
            Some(k) => k == cells_size(cells@) && k <= limit,
            None => cells_size(cells@) > limit,
        },
{
    let mut total: usize = 0;
    let mut i: usize = 0;
    while i < cells.len()
        invariant
            i <= cells@.len(),
            total == cells_size(cells@.take(i as int)),
            total <= limit,
        decreases cells@.len() - i,
    {
        proof {
            assert(cells@.take(i + 1).drop_last() =~= cells@.take(i as int));
        }
        match spans_size_upto(&cells[i], limit - total) {
            Some(k) => {
                total = total + k;
            },
            None => {
                proof {
                    cells_size_prefix(cells@, i + 1);
                    cells_size_prefix(cells@, i as int);
                }
                return None;
            },
        }
        i = i + 1;
    }
    proof {
        assert(cells@.take(cells@.len() as int) =~= cells@);
    }
    Some(total)
}

/// The characters of rows of cells, when they are no more than `limit`.
fn body_size_upto(rows: &Vec<Vec<Vec<Span>>>, limit: usize) -> (n: Option<usize>)
    ensures
        match n {
            Some(k) => k == body_size(rows@) && k <= limit,
            None => body_size(rows@) > limit,
        },
{
    let mut total: usize = 0;
    let mut i: usize = 0;
    while i < rows.len()
        invariant
            i <= rows@.len(),
            total == body_size(rows@.take(i as int)),
            total <= limit,
        decreases rows@.len() - i,
    {
        proof {
            assert(rows@.take(i + 1).drop_last() =~= rows@.take(i as int));
        }
        match cells_size_upto(&rows[i], limit - total) {
            Some(k) => {
                total = total + k;
            },
            None => {
                proof {
                    body_size_prefix(rows@, i + 1);
                    body_size_prefix(rows@, i as int);
                }
                return None;
            },
        }
        i = i + 1;
    }
    proof {
        assert(rows@.take(rows@.len() as int) =~= rows@);
    }
    Some(total)
}

/// How many columns a table has.
fn table_columns(table: &Table) -> (n: usize)
    ensures
        n == column_count(*table),
{
    let mut columns: usize = 0;
    let mut q: usize = 0;
    while q < table.rows.len()
        invariant
            q <= table.rows@.len(),
            columns == longest_row(table.rows@.take(q as int)),
        decreases table.rows@.len() - q,
    {
        proof {
            assert(table.rows@.take(q + 1).drop_last() =~= table.rows@.take(q as int));
        }
        if table.rows[q].len() > columns {
            columns = table.rows[q].len();
        }
        q = q + 1;
    }
    proof {
        assert(table.rows@.take(table.rows@.len() as int) =~= table.rows@);
    }
    if table.header.len() > columns {
        columns = table.header.len();
    }
    if table.align.len() > columns {
        columns = table.align.len();
    }
    columns
}

/// Whether a block is small enough to lay out.
pub fn block_fits_check(block: &Block) -> (ok: bool)
    ensures
        ok == block_fits(*block),
{
    let limit = (usize::MAX - 64) / 27;
    match block {
        Block::Text { lead, hang, body } => {
            let a = match spans_size_upto(lead, limit) {
                Some(a) => a,
                None => {
                    proof {
                        resolve_size(body@, Look { color: true, ascii: false });
                        match hang {
                            Some(h) => resolve_size(h@, Look { color: true, ascii: false }),
                            None => {},
                        }
                        past_limit(spans_size(lead@) + hang_size(*hang) + spans_size(body@), usize::MAX as int);
                    }
                    return false;
                },
            };
            let b = match hang {
                Some(h) => match spans_size_upto(h, limit - a) {
                    Some(b) => b,
                    None => {
                        proof {
                            resolve_size(body@, Look { color: true, ascii: false });
                            past_limit(spans_size(lead@) + hang_size(*hang) + spans_size(body@), usize::MAX as int);
                        }
                        return false;
                    },
                },
                None => 0,
            };
            match spans_size_upto(body, limit - a - b) {
                Some(_) => true,
                None => {
                    proof {
                        spans_size_prefix(body@, 0);
                    }
                    false
                },
            }
        },
        Block::Pre(lines) => cells_size_upto(lines, limit).is_some(),
        Block::Table(table) => {
            let room = (usize::MAX - 16) / 27;
            let a = match cells_size_upto(&table.header, room) {
                Some(a) => a,
                None => {
                    proof {
                        body_size_prefix(table.rows@, 0);
                        past_table_limit(table_size(*table), usize::MAX as int);
                    }
                    return false;
                },
            };
            let b = match body_size_upto(&table.rows, room - a) {
                Some(b) => b,
                None => {
                    proof {
                        past_table_limit(table_size(*table), usize::MAX as int);
                    }
                    return false;
                },
            };
            let size = a + b;
            let columns = table_columns(table);
            size <= (usize::MAX - 16) / 27 && columns <= (usize::MAX - 16 - 27 * size) / 2
        },
        Block::Boxed(lines) => cells_size_upto(lines, limit).is_some(),
        Block::Rule => true,
        Block::Blank => true,
    }
}

/// Whether every block of a document is small enough to lay out.
pub fn doc_fits_check(doc: &Doc) -> (ok: bool)
    ensures
        ok == doc_fits(doc.blocks@),
{
    let mut i: usize = 0;
    while i < doc.blocks.len()
        invariant
            i <= doc.blocks@.len(),
            forall|j: int| 0 <= j < i ==> block_fits(#[trigger] doc.blocks@[j]),
        decreases doc.blocks@.len() - i,
    {
        if !block_fits_check(&doc.blocks[i]) {
            return false;
        }
        i = i + 1;
    }
    true
}

} // verus!
