//! Borderless tables: two spaces between columns, a bold header, numbers on the right.

use vstd::prelude::*;

use crate::doc::{body_tone, Align, Span, Table, Tone};
use crate::layout::{resolve, resolve_size, spans_size, spec_resolve};
use crate::look::{look_text, Look};
use crate::strings::spaces;
use crate::width::str_columns;
use crate::text::{
    columns_concat, columns_nonnegative, cut_row, cut_row_pieces, padded_columns, runs_add_up, runs_add_up_part, spaces_measured, spaces_strip_away,
    trimmed_columns, trims_cleanly, truncated_rows_fit,
    columns, copy_piece, copy_row, pad, piece_view, rows_size_elem, rows_size_nonneg, row_view, rows_size, rows_view, size, size_nonnegative, spec_pad,
    spec_trim_end, spec_truncate, spec_wrap, trim_end, truncate, truncate_size, wrap, Row,
    SPiece,
};

verus! {

/// Columns between two table columns.
pub const GAP: usize = 2;

/// A row with every piece in bold.
pub open spec fn bolded(row: Seq<SPiece>) -> Seq<SPiece> {
    row.map_values(|p: SPiece| (p.0, Tone { bold: true, ..p.1 }))
}

/// The header cells as the look shows them, in bold.
pub open spec fn header_cells(table: Table, look: Look) -> Seq<Seq<SPiece>> {
    bold_cells(table.header@, look)
}

/// Cells as the look shows them, in bold.
pub open spec fn bold_cells(cells: Seq<Vec<Span>>, look: Look) -> Seq<Seq<SPiece>> {
    cells.map_values(|cell: Vec<Span>| bolded(spec_resolve(cell@, look)))
}

/// One body row's cells as the look shows them.
pub open spec fn body_cells(cells: Seq<Vec<Span>>, look: Look) -> Seq<Seq<SPiece>> {
    cells.map_values(|cell: Vec<Span>| spec_resolve(cell@, look))
}

/// Every body row's cells as the look shows them.
pub open spec fn body_rows(table: Table, look: Look) -> Seq<Seq<Seq<SPiece>>> {
    table.rows@.map_values(|cells: Vec<Vec<Span>>| body_cells(cells@, look))
}

/// The most cells any body row has.
pub open spec fn longest_row(rows: Seq<Vec<Vec<Span>>>) -> int
    decreases rows.len(),
{
    if rows.len() == 0 {
        0
    } else {
        let rest = longest_row(rows.drop_last());
        if rows.last()@.len() > rest {
            rows.last()@.len() as int
        } else {
            rest
        }
    }
}

/// How many columns a table has: the most cells in a row, header cells or alignments.
pub open spec fn column_count(table: Table) -> int {
    let a = longest_row(table.rows@);
    let b = if table.header@.len() > a { table.header@.len() as int } else { a };
    if table.align@.len() > b { table.align@.len() as int } else { b }
}

/// Characters in a list of cells.
pub open spec fn cells_size(cells: Seq<Vec<Span>>) -> int
    decreases cells.len(),
{
    if cells.len() == 0 {
        0
    } else {
        cells_size(cells.drop_last()) + spans_size(cells.last()@)
    }
}

/// Characters in every body row.
pub open spec fn body_size(rows: Seq<Vec<Vec<Span>>>) -> int
    decreases rows.len(),
{
    if rows.len() == 0 {
        0
    } else {
        body_size(rows.drop_last()) + cells_size(rows.last()@)
    }
}

/// Characters in a table's cells.
pub open spec fn table_size(table: Table) -> int {
    cells_size(table.header@) + body_size(table.rows@)
}

/// Widths after one more row: each column keeps the wider of its width and the row's cell.
pub open spec fn widen_spec(prev: Seq<int>, cells: Seq<Seq<SPiece>>) -> Seq<int> {
    Seq::new(
        prev.len(),
        |i: int|
            if i < cells.len() && columns(cells[i]) > prev[i] {
                columns(cells[i])
            } else {
                prev[i]
            },
    )
}

/// The widest cell of each column over every row of `rows`.
pub open spec fn naturals(rows: Seq<Seq<Seq<SPiece>>>, n: int) -> Seq<int>
    decreases rows.len(),
{
    if rows.len() == 0 {
        Seq::new(n as nat, |i: int| 0)
    } else {
        widen_spec(naturals(rows.drop_last(), n), rows.last())
    }
}

/// The sum of the natural widths of the columns in `visible`.
pub open spec fn sum_of(natural: Seq<int>, visible: Seq<int>) -> int
    decreases visible.len(),
{
    if visible.len() == 0 {
        0
    } else {
        sum_of(natural, visible.drop_last()) + natural[visible.last()]
    }
}

/// Columns the visible columns take at their natural widths, with the gaps between them.
pub open spec fn used_columns(natural: Seq<int>, visible: Seq<int>) -> int {
    sum_of(natural, visible) + GAP * (if visible.len() > 0 { visible.len() - 1 } else { 0 })
}

/// `visible` without `column`.
pub open spec fn without(visible: Seq<int>, column: int) -> Seq<int>
    decreases visible.len(),
{
    if visible.len() == 0 {
        visible
    } else if visible.last() == column {
        without(visible.drop_last(), column)
    } else {
        without(visible.drop_last(), column).push(visible.last())
    }
}

/// The visible columns after going through `optional`, and whether the dropping stopped.
pub open spec fn dropping(natural: Seq<int>, optional: Seq<usize>, max: int) -> (Seq<int>, bool)
    decreases optional.len(),
{
    if optional.len() == 0 {
        (Seq::new(natural.len(), |i: int| i), false)
    } else {
        let prev = dropping(natural, optional.drop_last(), max);
        if prev.1 || used_columns(natural, prev.0) <= max || prev.0.len() <= 1 {
            (prev.0, true)
        } else {
            (without(prev.0, optional.last() as int), false)
        }
    }
}

/// Every column index, minus optional columns dropped in order until the rest fits.
pub open spec fn spec_visible(natural: Seq<int>, optional: Seq<usize>, max: int) -> Seq<int> {
    dropping(natural, optional, max).0
}

/// Whether column `i` may still give up a column of width.
pub open spec fn shrinkable(widths: Seq<int>, natural: Seq<int>, floor: int, i: int) -> bool {
    let least = if floor < natural[i] { floor } else { natural[i] };
    widths[i] > least && widths[i] > 0
}

/// The widest column among the first `n` that may shrink; the last of equally wide ones.
pub open spec fn widest(widths: Seq<int>, natural: Seq<int>, floor: int, n: int) -> Option<int>
    decreases n,
{
    if n <= 0 {
        None
    } else {
        let best = widest(widths, natural, floor, n - 1);
        if shrinkable(widths, natural, floor, n - 1) && (best is None || widths[n - 1]
            >= widths[best.unwrap()]) {
            Some(n - 1)
        } else {
            best
        }
    }
}

/// Shrinks the widest shrinkable column by one, `steps` times or until nothing can shrink.
pub open spec fn shrink(widths: Seq<int>, natural: Seq<int>, floor: int, steps: nat) -> Seq<int>
    decreases steps,
{
    if steps == 0 {
        widths
    } else {
        match widest(widths, natural, floor, widths.len() as int) {
            None => widths,
            Some(i) => shrink(widths.update(i, widths[i] - 1), natural, floor, (steps - 1) as nat),
        }
    }
}

/// The sum of every width.
pub open spec fn total(widths: Seq<int>) -> int
    decreases widths.len(),
{
    if widths.len() == 0 {
        0
    } else {
        total(widths.drop_last()) + widths.last()
    }
}

/// Column widths that fit `budget`, taking one column from the widest column at a time; prose
/// columns keep at least eight, data columns three (or their natural width when smaller).
pub open spec fn spec_fit(natural: Seq<int>, budget: int, wrap: bool) -> Seq<int> {
    let floor = if wrap { 8 } else { 3 };
    let over = total(natural) - budget;
    shrink(natural, natural, floor, if over > 0 { over as nat } else { 0 })
}

/// The rows one cell takes in its column.
pub open spec fn laid_cell(cells: Seq<Seq<SPiece>>, column: int, width: int, wrap: bool, ellipsis: Seq<char>) -> Seq<Seq<SPiece>> {
    let cell = if column < cells.len() {
        cells[column]
    } else {
        Seq::empty()
    };
    if wrap {
        spec_wrap(cell, width)
    } else {
        seq![spec_truncate(cell, width, ellipsis)]
    }
}

/// The alignment of a column; missing entries are left.
pub open spec fn align_of(align: Seq<Align>, column: int) -> Align {
    if 0 <= column < align.len() {
        align[column]
    } else {
        Align::Left
    }
}

/// One line of a cell in its column: pushed right for a right-aligned column that has room, and
/// otherwise padded to the column's width.
pub open spec fn aligned(cell: Seq<SPiece>, width: int, align: Align) -> Seq<SPiece> {
    let used = columns(cell);
    if align == Align::Right && used < width {
        seq![(spaces((width - used) as nat), body_tone())] + cell
    } else {
        spec_pad(cell, width)
    }
}

/// Line `line` of the first `k` visible columns, with the gaps between them.
pub open spec fn line_parts(
    laid: Seq<Seq<Seq<SPiece>>>,
    visible: Seq<int>,
    widths: Seq<int>,
    align: Seq<Align>,
    line: int,
    k: int,
) -> Seq<SPiece>
    decreases k,
{
    if k <= 0 {
        Seq::empty()
    } else {
        let prev = line_parts(laid, visible, widths, align, line, k - 1);
        let gap = if k - 1 > 0 {
            seq![(spaces(GAP as nat), body_tone())]
        } else {
            Seq::empty()
        };
        let cell = if line < laid[k - 1].len() {
            laid[k - 1][line]
        } else {
            Seq::empty()
        };
        prev + gap + aligned(cell, widths[k - 1], align_of(align, visible[k - 1]))
    }
}

/// The most rows any column takes, one when there is no column.
pub open spec fn height(laid: Seq<Seq<Seq<SPiece>>>) -> int
    decreases laid.len(),
{
    if laid.len() == 0 {
        1
    } else if laid.len() == 1 {
        laid[0].len() as int
    } else {
        let rest = height(laid.drop_last());
        if laid.last().len() > rest {
            laid.last().len() as int
        } else {
            rest
        }
    }
}

/// One table row, which becomes several screen rows when a prose cell wraps.
pub open spec fn spec_join(
    cells: Seq<Seq<SPiece>>,
    visible: Seq<int>,
    widths: Seq<int>,
    align: Seq<Align>,
    wrap: bool,
    ellipsis: Seq<char>,
) -> Seq<Seq<SPiece>> {
    let laid = Seq::new(visible.len(), |k: int| laid_cell(cells, visible[k], widths[k], wrap, ellipsis));
    Seq::new(
        height(laid) as nat,
        |line: int| spec_trim_end(line_parts(laid, visible, widths, align, line, visible.len() as int)),
    )
}

/// Rows of rows, one after another.
pub open spec fn concat(parts: Seq<Seq<Seq<SPiece>>>) -> Seq<Seq<SPiece>>
    decreases parts.len(),
{
    if parts.len() == 0 {
        Seq::empty()
    } else {
        concat(parts.drop_last()) + parts.last()
    }
}

/// The widths the columns of `table` get at `max` columns, and which columns are shown.
pub open spec fn table_layout(table: Table, max: int, look: Look) -> (Seq<int>, Seq<int>) {
    let header = header_cells(table, look);
    let body = body_rows(table, look);
    let n = column_count(table);
    let natural = naturals(body.push(header), n);
    let visible = spec_visible(natural, table.optional@, max);
    let chosen = visible.map_values(|c: int| natural[c]);
    let gaps = GAP * (visible.len() - 1);
    let budget = if max > gaps { max - gaps } else { 0 };
    (visible, spec_fit(chosen, budget, table.wrap))
}

/// The rows of `table` laid out in at most `max` columns.
pub open spec fn spec_rows(table: Table, max: int, look: Look) -> Seq<Seq<SPiece>> {
    if column_count(table) == 0 {
        Seq::empty()
    } else {
        let header = header_cells(table, look);
        let body = body_rows(table, look);
        let (visible, widths) = table_layout(table, max, look);
        let ellipsis = look_text(look, seq!['…']);
        let head = if header.len() > 0 {
            spec_join(header, visible, widths, table.align@, table.wrap, ellipsis)
        } else {
            Seq::empty()
        };
        head + concat(body.map_values(|cells: Seq<Seq<SPiece>>| spec_join(cells, visible, widths, table.align@, table.wrap, ellipsis)))
    }
}


/// Sums over a visible list ending with a new column add that column's width.
proof fn sum_of_push(natural: Seq<int>, visible: Seq<int>, c: int)
    ensures
        sum_of(natural, visible.push(c)) == sum_of(natural, visible) + natural[c],
{
    assert(visible.push(c).drop_last() =~= visible);
}

/// Dropping a column never adds width, when widths are not negative.
proof fn sum_of_without(natural: Seq<int>, visible: Seq<int>, column: int)
    requires
        forall|k: int| 0 <= k < visible.len() ==> 0 <= #[trigger] visible[k] < natural.len(),
        forall|i: int| 0 <= i < natural.len() ==> natural[i] >= 0,
    ensures
        0 <= sum_of(natural, without(visible, column)) <= sum_of(natural, visible),
        without(visible, column).len() <= visible.len(),
        forall|k: int| 0 <= k < without(visible, column).len() ==> 0 <= #[trigger] without(visible, column)[k] < natural.len(),
    decreases visible.len(),
{
    if visible.len() > 0 {
        sum_of_without(natural, visible.drop_last(), column);
        let rest = without(visible.drop_last(), column);
        if visible.last() != column {
            sum_of_push(natural, rest, visible.last());
            assert forall|k: int| 0 <= k < rest.push(visible.last()).len() implies 0 <= #[trigger] rest.push(visible.last())[k] < natural.len() by {
                if k < rest.len() {
                    assert(rest.push(visible.last())[k] == rest[k]);
                }
            }
        }
        assert(visible.drop_last().len() < visible.len());
        sum_of_nonneg(natural, visible.drop_last());
    }
}

/// Sums of widths that are not negative are not negative.
proof fn sum_of_nonneg(natural: Seq<int>, visible: Seq<int>)
    requires
        forall|k: int| 0 <= k < visible.len() ==> 0 <= #[trigger] visible[k] < natural.len(),
        forall|i: int| 0 <= i < natural.len() ==> natural[i] >= 0,
    ensures
        sum_of(natural, visible) >= 0,
    decreases visible.len(),
{
    if visible.len() > 0 {
        sum_of_nonneg(natural, visible.drop_last());
    }
}

/// Summing over every index in order is the total.
proof fn sum_of_all(natural: Seq<int>, n: int)
    requires
        0 <= n <= natural.len(),
    ensures
        sum_of(natural, Seq::new(n as nat, |i: int| i)) == total(natural.take(n)),
    decreases n,
{
    if n > 0 {
        sum_of_all(natural, n - 1);
        assert(Seq::new(n as nat, |i: int| i).drop_last() =~= Seq::new((n - 1) as nat, |i: int| i));
        assert(natural.take(n).drop_last() =~= natural.take(n - 1));
    }
}

/// The visible columns: every column index, minus optional columns dropped in order until the
/// rest fits.
pub fn visible_columns(natural: &Vec<usize>, optional: &Vec<usize>, max: usize) -> (visible: Vec<usize>)
    requires
        total(natural@.map_values(|w: usize| w as int)) + GAP * natural@.len() <= usize::MAX,
    ensures
        visible@.map_values(|c: usize| c as int) == spec_visible(natural@.map_values(|w: usize| w as int), optional@, max as int),
        forall|k: int| 0 <= k < visible@.len() ==> #[trigger] visible@[k] < natural@.len(),
        natural@.len() > 0 ==> visible@.len() >= 1,
        visible@.len() <= natural@.len(),
        sum_of(natural@.map_values(|w: usize| w as int), visible@.map_values(|c: usize| c as int)) <= total(natural@.map_values(|w: usize| w as int)),
{
    let ghost nat_int = natural@.map_values(|w: usize| w as int);
    let n = natural.len();
    let mut visible: Vec<usize> = Vec::new();
    let mut c: usize = 0;
    while c < n
        invariant
            c <= n,
            n == natural@.len(),
            visible@.len() == c,
            forall|k: int| 0 <= k < c ==> #[trigger] visible@[k] == k,
        decreases n - c,
    {
        visible.push(c);
        c = c + 1;
    }
    proof {
        assert(visible@.map_values(|x: usize| x as int) =~= Seq::new(n as nat, |i: int| i));
        sum_of_all(nat_int, n as int);
        assert(nat_int.take(n as int) =~= nat_int);
        assert(dropping(nat_int, optional@.take(0), max as int).0 =~= visible@.map_values(|x: usize| x as int));
    }
    let mut stopped = false;
    let mut j: usize = 0;
    while j < optional.len() && !stopped
        invariant
            j <= optional@.len(),
            nat_int == natural@.map_values(|w: usize| w as int),
            (visible@.map_values(|x: usize| x as int), stopped) == dropping(nat_int, optional@.take(j as int), max as int),
            forall|k: int| 0 <= k < visible@.len() ==> #[trigger] visible@[k] < natural@.len(),
            sum_of(nat_int, visible@.map_values(|x: usize| x as int)) <= total(nat_int),
            increasing(visible@.map_values(|x: usize| x as int)),
            visible@.len() <= natural@.len(),
            natural@.len() > 0 ==> visible@.len() >= 1,
            total(nat_int) + GAP * natural@.len() <= usize::MAX,
        decreases optional@.len() - j,
    {
        let ghost vis = visible@.map_values(|x: usize| x as int);
        proof {
            assert(optional@.take(j + 1).drop_last() =~= optional@.take(j as int));
        }
        let mut sum: usize = 0;
        let mut k: usize = 0;
        while k < visible.len()
            invariant
                k <= visible@.len(),
                vis == visible@.map_values(|x: usize| x as int),
                nat_int == natural@.map_values(|w: usize| w as int),
                forall|q: int| 0 <= q < visible@.len() ==> #[trigger] visible@[q] < natural@.len(),
                sum == sum_of(nat_int, vis.take(k as int)),
                sum_of(nat_int, vis) <= total(nat_int),
                total(nat_int) + GAP * natural@.len() <= usize::MAX,
            decreases visible@.len() - k,
        {
            proof {
                assert(vis.take(k + 1).drop_last() =~= vis.take(k as int));
                sum_of_prefix(nat_int, vis, k + 1);
            }
            sum = sum + natural[visible[k]];
            k = k + 1;
        }
        proof {
            assert(vis.take(visible@.len() as int) =~= vis);
        }
        let gaps = if visible.len() > 0 {
            visible.len() - 1
        } else {
            0
        };
        let used = sum + GAP * gaps;
        if used <= max || visible.len() <= 1 {
            stopped = true;
        } else {
            let column = optional[j];
            let mut kept: Vec<usize> = Vec::new();
            let mut q: usize = 0;
            while q < visible.len()
                invariant
                    q <= visible@.len(),
                    vis == visible@.map_values(|x: usize| x as int),
                    kept@.map_values(|x: usize| x as int) == without(vis.take(q as int), column as int),
                    forall|r: int| 0 <= r < kept@.len() ==> #[trigger] kept@[r] < natural@.len(),
                    forall|r: int| 0 <= r < visible@.len() ==> #[trigger] visible@[r] < natural@.len(),
                decreases visible@.len() - q,
            {
                proof {
                    assert(vis.take(q + 1).drop_last() =~= vis.take(q as int));
                }
                if visible[q] != column {
                    kept.push(visible[q]);
                }
                q = q + 1;
                proof {
                    assert(kept@.map_values(|x: usize| x as int) =~= without(vis.take(q as int), column as int));
                }
            }
            proof {
                assert(vis.take(visible@.len() as int) =~= vis);
                assert forall|r: int| 0 <= r < vis.len() implies 0 <= #[trigger] vis[r] < nat_int.len() by {
                    assert(vis[r] == visible@[r] as int);
                }
                sum_of_without(nat_int, vis, column as int);
                assert(kept@.len() == without(vis, column as int).len());
                without_increasing(vis, column as int);
            }
            visible = kept;
        }
        j = j + 1;
    }
    proof {
        if !stopped {
            assert(optional@.take(j as int) =~= optional@);
        } else {
            dropping_stops(nat_int, optional@, j as int, max as int);
        }
    }
    visible
}

/// Whether the columns are listed in increasing order.
pub open spec fn increasing(visible: Seq<int>) -> bool {
    forall|i: int, j: int| 0 <= i < j < visible.len() ==> visible[i] < visible[j]
}

/// Removing a column from an increasing list keeps it increasing, draws only from the list, and
/// removes at most one entry.
proof fn without_increasing(visible: Seq<int>, column: int)
    requires
        increasing(visible),
    ensures
        increasing(without(visible, column)),
        without(visible, column).len() + 1 >= visible.len(),
        forall|k: int| 0 <= k < without(visible, column).len() ==> exists|j: int| 0 <= j < visible.len() && visible[j] == #[trigger] without(visible, column)[k],
        !visible.contains(column) ==> without(visible, column).len() == visible.len(),
    decreases visible.len(),
{
    if visible.len() > 0 {
        let rest = visible.drop_last();
        assert(increasing(rest));
        without_increasing(rest, column);
        let w = without(rest, column);
        assert forall|k: int| 0 <= k < w.len() implies #[trigger] w[k] < visible.last() by {
            let j = choose|j: int| 0 <= j < rest.len() && rest[j] == w[k];
            assert(visible[j] < visible[visible.len() - 1]);
        }
        if visible.last() == column {
            if rest.contains(column) {
                let j = choose|j: int| 0 <= j < rest.len() && rest[j] == column;
                assert(visible[j] < visible[visible.len() - 1]);
            }
            assert(!rest.contains(column));
        } else {
            let pushed = w.push(visible.last());
            assert forall|k: int| 0 <= k < pushed.len() implies exists|j: int| 0 <= j < visible.len() && visible[j] == #[trigger] pushed[k] by {
                if k < w.len() {
                    let j = choose|j: int| 0 <= j < rest.len() && rest[j] == w[k];
                    assert(visible[j] == pushed[k]);
                } else {
                    assert(visible[visible.len() - 1] == pushed[k]);
                }
            }
            if !visible.contains(column) {
                assert(!rest.contains(column)) by {
                    if rest.contains(column) {
                        let j = choose|j: int| 0 <= j < rest.len() && rest[j] == column;
                        assert(visible[j] == column);
                    }
                }
            }
        }
    }
}

/// A prefix sum of non-negative widths never exceeds the whole.
proof fn sum_of_prefix(natural: Seq<int>, visible: Seq<int>, n: int)
    requires
        0 <= n <= visible.len(),
        forall|k: int| 0 <= k < visible.len() ==> 0 <= #[trigger] visible[k] < natural.len(),
        forall|i: int| 0 <= i < natural.len() ==> natural[i] >= 0,
    ensures
        0 <= sum_of(natural, visible.take(n)) <= sum_of(natural, visible),
    decreases visible.len() - n,
{
    if n == visible.len() {
        assert(visible.take(n) =~= visible);
        sum_of_nonneg(natural, visible);
    } else {
        sum_of_prefix(natural, visible, n + 1);
        assert(visible.take(n + 1).drop_last() =~= visible.take(n));
        assert(forall|k: int| 0 <= k < visible.take(n).len() ==> #[trigger] visible.take(n)[k] == visible[k]);
        sum_of_nonneg(natural, visible.take(n));
    }
}

/// Once dropping stopped, the rest of the optional columns change nothing.
proof fn dropping_stops(natural: Seq<int>, optional: Seq<usize>, n: int, max: int)
    requires
        0 <= n <= optional.len(),
        dropping(natural, optional.take(n), max).1,
    ensures
        dropping(natural, optional, max).0 == dropping(natural, optional.take(n), max).0,
    decreases optional.len() - n,
{
    if n == optional.len() {
        assert(optional.take(n) =~= optional);
    } else {
        assert(optional.take(n + 1).drop_last() =~= optional.take(n));
        dropping_stops(natural, optional, n + 1, max);
    }
}


/// Totals change by what an update changes.
proof fn total_update(widths: Seq<int>, i: int, x: int)
    requires
        0 <= i < widths.len(),
    ensures
        total(widths.update(i, x)) == total(widths) - widths[i] + x,
    decreases widths.len(),
{
    if i < widths.len() - 1 {
        assert(widths.update(i, x).drop_last() =~= widths.drop_last().update(i, x));
        total_update(widths.drop_last(), i, x);
    } else {
        assert(widths.update(i, x).drop_last() =~= widths.drop_last());
    }
}

/// With no column left that may shrink, every column is at its floor or narrower.
proof fn widest_none(widths: Seq<int>, natural: Seq<int>, floor: int, n: int)
    ensures
        widest(widths, natural, floor, n) is None ==> forall|i: int| 0 <= i < n ==> !shrinkable(widths, natural, floor, i),
    decreases n,
{
    if n > 0 {
        widest_none(widths, natural, floor, n - 1);
    }
}

/// Widths of at most `floor` each add up to at most `floor` for each of them.
proof fn total_at_most(widths: Seq<int>, floor: int)
    requires
        forall|i: int| 0 <= i < widths.len() ==> widths[i] <= floor,
    ensures
        total(widths) <= floor * widths.len(),
    decreases widths.len(),
{
    if widths.len() > 0 {
        total_at_most(widths.drop_last(), floor);
        assert(floor * (widths.len() - 1) + floor == floor * widths.len()) by (nonlinear_arith);
    }
}

/// Each step of shrinking takes one column off the total until no column may shrink, at which
/// point every column is at its floor or narrower; no column grows or goes below nothing.
proof fn shrink_total(widths: Seq<int>, natural: Seq<int>, floor: int, steps: nat)
    requires
        0 <= floor,
        forall|i: int| 0 <= i < widths.len() ==> widths[i] >= 0,
    ensures
        ({
            let out = shrink(widths, natural, floor, steps);
            &&& out.len() == widths.len()
            &&& forall|i: int| 0 <= i < out.len() ==> 0 <= #[trigger] out[i] <= widths[i]
            &&& (total(out) <= total(widths) - steps || total(out) <= floor * widths.len())
        }),
    decreases steps,
{
    if steps > 0 {
        match widest(widths, natural, floor, widths.len() as int) {
            None => {
                widest_none(widths, natural, floor, widths.len() as int);
                assert forall|i: int| 0 <= i < widths.len() implies widths[i] <= floor by {
                    assert(!shrinkable(widths, natural, floor, i));
                }
                total_at_most(widths, floor);
            },
            Some(i) => {
                widest_shrinkable(widths, natural, floor, widths.len() as int);
                let next = widths.update(i, widths[i] - 1);
                total_update(widths, i, widths[i] - 1);
                shrink_total(next, natural, floor, (steps - 1) as nat);
                let out = shrink(widths, natural, floor, steps);
                assert(out == shrink(next, natural, floor, (steps - 1) as nat));
                assert forall|k: int| 0 <= k < out.len() implies 0 <= #[trigger] out[k] <= widths[k] by {
                    assert(out[k] <= next[k]);
                }
            },
        }
    }
}

/// The widths chosen for the columns are never wider than the columns' own and add up to at
/// most the budget whenever the budget leaves each column its floor: eight columns for prose,
/// three for data.
pub proof fn fit_stays_within_the_budget(natural: Seq<int>, budget: int, wrap: bool)
    requires
        forall|i: int| 0 <= i < natural.len() ==> natural[i] >= 0,
        (if wrap { 8int } else { 3int }) * natural.len() <= budget,
    ensures
        spec_fit(natural, budget, wrap).len() == natural.len(),
        forall|i: int| 0 <= i < natural.len() ==> 0 <= #[trigger] spec_fit(natural, budget, wrap)[i] <= natural[i],
        total(spec_fit(natural, budget, wrap)) <= budget,
{
    let floor = if wrap { 8int } else { 3int };
    let over = total(natural) - budget;
    shrink_total(natural, natural, floor, if over > 0 { over as nat } else { 0 });
}

/// Widest cells are never negative, one for each column.
proof fn naturals_nonnegative(rows: Seq<Seq<Seq<SPiece>>>, n: int)
    requires
        0 <= n,
    ensures
        naturals(rows, n).len() == n,
        forall|i: int| 0 <= i < n ==> #[trigger] naturals(rows, n)[i] >= 0,
    decreases rows.len(),
{
    if rows.len() > 0 {
        naturals_nonnegative(rows.drop_last(), n);
    }
}

/// The columns shown are columns of the table, in increasing order.
proof fn dropping_in_range(natural: Seq<int>, optional: Seq<usize>, max: int)
    ensures
        increasing(dropping(natural, optional, max).0),
        forall|k: int| 0 <= k < dropping(natural, optional, max).0.len() ==> 0 <= #[trigger] dropping(natural, optional, max).0[k] < natural.len(),
    decreases optional.len(),
{
    if optional.len() > 0 {
        dropping_in_range(natural, optional.drop_last(), max);
        let prev = dropping(natural, optional.drop_last(), max);
        if !(prev.1 || used_columns(natural, prev.0) <= max || prev.0.len() <= 1) {
            without_increasing(prev.0, optional.last() as int);
            let w = without(prev.0, optional.last() as int);
            assert forall|k: int| 0 <= k < w.len() implies 0 <= #[trigger] w[k] < natural.len() by {
                let j = choose|j: int| 0 <= j < prev.0.len() && prev.0[j] == w[k];
            }
        }
    }
}

/// Laid out in `max` columns, the columns a table shows and the gaps between them take at most
/// `max` whenever `max` leaves each shown column its floor (eight for prose, three for data) and
/// the gaps; no column is wider than its widest cell. A data table, whose cells are cut rather
/// than wrapped, takes one screen row for each of its rows and one for its header.
pub proof fn table_layout_fits(table: Table, max: int, look: Look)
    ensures
        ({
            let (visible, widths) = table_layout(table, max, look);
            let floor = if table.wrap { 8int } else { 3int };
            let gaps = if visible.len() > 0 { GAP * (visible.len() - 1) } else { 0 };
            &&& widths.len() == visible.len()
            &&& forall|j: int| 0 <= j < widths.len() ==> #[trigger] widths[j] >= 0
            &&& (floor * visible.len() + gaps <= max ==> total(widths) + gaps <= max)
        }),
        !table.wrap && column_count(table) > 0 ==> spec_rows(table, max, look).len() == table.rows@.len() + (
        if table.header@.len() > 0 { 1int } else { 0int }),
{
    let header = header_cells(table, look);
    let body = body_rows(table, look);
    let n = column_count(table);
    let natural = naturals(body.push(header), n);
    let visible = spec_visible(natural, table.optional@, max);
    let chosen = visible.map_values(|c: int| natural[c]);
    let floor = if table.wrap { 8int } else { 3int };
    assert(n >= 0);
    naturals_nonnegative(body.push(header), n);
    dropping_in_range(natural, table.optional@, max);
    let gaps = if visible.len() > 0 { GAP * (visible.len() - 1) } else { 0 };
    if floor * visible.len() + gaps <= max {
        let budget = if max > GAP * (visible.len() - 1) { max - GAP * (visible.len() - 1) } else { 0 };
        if visible.len() > 0 {
            assert(budget == max - gaps);
        } else {
            assert(budget >= 0);
        }
        assert forall|i: int| 0 <= i < chosen.len() implies chosen[i] >= 0 by {
            assert(0 <= visible[i] < natural.len());
        }
        fit_stays_within_the_budget(chosen, budget, table.wrap);
    } else {
        let budget = if max > GAP * (visible.len() - 1) { max - GAP * (visible.len() - 1) } else { 0 };
        let over = total(chosen) - budget;
        assert forall|i: int| 0 <= i < chosen.len() implies chosen[i] >= 0 by {
            assert(0 <= visible[i] < natural.len());
        }
        shrink_total(chosen, chosen, floor, if over > 0 { over as nat } else { 0 });
    }
    if !table.wrap && n > 0 {
        one_row_per_table_row(table, max, look);
    }
}

/// Cut cells take one line each, so a row of them does too.
proof fn cut_cells_take_one_line(laid: Seq<Seq<Seq<SPiece>>>)
    requires
        forall|k: int| 0 <= k < laid.len() ==> (#[trigger] laid[k]).len() == 1,
    ensures
        height(laid) == 1,
    decreases laid.len(),
{
    if laid.len() > 1 {
        cut_cells_take_one_line(laid.drop_last());
    }
}

/// Rows of one row each, put one after another, are as many as the parts.
proof fn concat_of_single_rows(parts: Seq<Seq<Seq<SPiece>>>)
    requires
        forall|k: int| 0 <= k < parts.len() ==> (#[trigger] parts[k]).len() == 1,
    ensures
        concat(parts).len() == parts.len(),
    decreases parts.len(),
{
    if parts.len() > 0 {
        concat_of_single_rows(parts.drop_last());
    }
}

/// A data table takes one screen row for each of its rows and one for its header.
proof fn one_row_per_table_row(table: Table, max: int, look: Look)
    requires
        !table.wrap,
        column_count(table) > 0,
    ensures
        spec_rows(table, max, look).len() == table.rows@.len() + (if table.header@.len() > 0 { 1int } else { 0int }),
{
    let header = header_cells(table, look);
    let body = body_rows(table, look);
    let (visible, widths) = table_layout(table, max, look);
    let ellipsis = look_text(look, seq!['…']);
    assert forall|cells: Seq<Seq<SPiece>>| #[trigger] spec_join(cells, visible, widths, table.align@, table.wrap, ellipsis).len() == 1 by {
        let laid = Seq::new(visible.len(), |k: int| laid_cell(cells, visible[k], widths[k], table.wrap, ellipsis));
        cut_cells_take_one_line(laid);
    }
    let parts = body.map_values(|cells: Seq<Seq<SPiece>>| spec_join(cells, visible, widths, table.align@, table.wrap, ellipsis));
    assert forall|k: int| 0 <= k < parts.len() implies (#[trigger] parts[k]).len() == 1 by {
        assert(parts[k] == spec_join(body[k], visible, widths, table.align@, table.wrap, ellipsis));
    }
    concat_of_single_rows(parts);
}

/// Where spaces up to the width are measured one column each, a line of a cell no wider than its
/// column takes exactly the column, however it is aligned.
proof fn aligned_columns(cell: Seq<SPiece>, width: int, align: Align)
    requires
        spaces_measured(width),
        columns(cell) <= width,
    ensures
        columns(aligned(cell, width, align)) == width,
{
    let used = columns(cell);
    columns_nonnegative(cell);
    if align == Align::Right && used < width {
        let fill = spaces((width - used) as nat);
        assert(str_columns(fill) == width - used);
        let head = seq![(fill, body_tone())];
        assert(head.drop_last() =~= Seq::<SPiece>::empty());
        assert(head.last() == (fill, body_tone()));
        assert(columns(head) == columns(head.drop_last()) + str_columns(fill) as int);
        columns_concat(head, cell);
        assert(aligned(cell, width, align) == head + cell);
    } else {
        padded_columns(cell, width);
    }
}

/// The pieces of an aligned line of a cell are the cell's pieces and spaces.
proof fn aligned_trims_cleanly(cell: Seq<SPiece>, width: int, align: Align)
    requires
        forall|k: int| 0 <= k < cell.len() ==> trims_cleanly(#[trigger] cell[k]),
    ensures
        forall|k: int| 0 <= k < aligned(cell, width, align).len() ==> trims_cleanly(#[trigger] aligned(cell, width, align)[k]),
{
    let out = aligned(cell, width, align);
    let used = columns(cell);
    assert forall|k: int| 0 <= k < out.len() implies trims_cleanly(#[trigger] out[k]) by {
        if align == Align::Right && used < width {
            if k == 0 {
                spaces_strip_away((width - used) as nat);
            } else {
                assert(out[k] == cell[k - 1]);
            }
        } else if used < width && k == cell.len() {
            spaces_strip_away((width - used) as nat);
        } else {
            assert(out[k] == cell[k]);
        }
    }
}

/// Where spaces up to the widest column are measured one column each, a line of the first `k`
/// columns takes their widths and the gaps between them, when no cell is wider than its column;
/// its pieces trim cleanly when the cells' pieces do.
proof fn line_parts_columns(
    laid: Seq<Seq<Seq<SPiece>>>,
    visible: Seq<int>,
    widths: Seq<int>,
    align: Seq<Align>,
    line: int,
    k: int,
    max: int,
)
    requires
        spaces_measured(max),
        0 <= line,
        0 <= k <= laid.len(),
        k <= widths.len(),
        k <= visible.len(),
        k > 1 ==> GAP <= max,
        forall|j: int, m: int| 0 <= j < k && 0 <= m < laid[j].len() ==> columns(#[trigger] laid[j][m]) <= widths[j],
        forall|j: int, m: int, i: int| 0 <= j < k && 0 <= m < laid[j].len() && 0 <= i < laid[j][m].len() ==> trims_cleanly(#[trigger] laid[j][m][i]),
        forall|j: int| 0 <= j < k ==> 0 <= #[trigger] widths[j] <= max,
    ensures
        columns(line_parts(laid, visible, widths, align, line, k)) == total(widths.take(k)) + (if k > 0 { GAP * (k - 1) } else { 0 }),
        forall|i: int| 0 <= i < line_parts(laid, visible, widths, align, line, k).len() ==> trims_cleanly(#[trigger] line_parts(laid, visible, widths, align, line, k)[i]),
    decreases k,
{
    if k == 0 {
        assert(widths.take(0) =~= Seq::<int>::empty());
    } else {
        line_parts_columns(laid, visible, widths, align, line, k - 1, max);
        let prev = line_parts(laid, visible, widths, align, line, k - 1);
        let gap = if k - 1 > 0 { seq![(spaces(GAP as nat), body_tone())] } else { Seq::<SPiece>::empty() };
        let cell = if line < laid[k - 1].len() { laid[k - 1][line] } else { Seq::<SPiece>::empty() };
        assert(0 <= widths[k - 1] <= max);
        if line < laid[k - 1].len() {
            assert(columns(laid[k - 1][line]) <= widths[k - 1]);
        }
        assert(spaces_measured(widths[k - 1]));
        aligned_columns(cell, widths[k - 1], align_of(align, visible[k - 1]));
        assert forall|i: int| 0 <= i < cell.len() implies trims_cleanly(#[trigger] cell[i]) by {
            assert(cell[i] == laid[k - 1][line][i]);
        }
        aligned_trims_cleanly(cell, widths[k - 1], align_of(align, visible[k - 1]));
        let al = aligned(cell, widths[k - 1], align_of(align, visible[k - 1]));
        columns_concat(prev, gap);
        columns_concat(prev + gap, al);
        if k - 1 > 0 {
            assert(str_columns(spaces(GAP as nat)) == GAP);
            assert(gap.drop_last() =~= Seq::<SPiece>::empty());
            assert(gap.last() == (spaces(GAP as nat), body_tone()));
            assert(columns(gap) == columns(gap.drop_last()) + str_columns(spaces(GAP as nat)) as int);
            assert(columns(gap) == 2);
            spaces_strip_away(GAP as nat);
        } else {
            assert(columns(gap) == 0);
        }
        assert(widths.take(k).drop_last() =~= widths.take(k - 1));
        assert(widths.take(k).last() == widths[k - 1]);
        assert(total(widths.take(k)) == total(widths.take(k - 1)) + widths[k - 1]);
        let all = line_parts(laid, visible, widths, align, line, k);
        assert(all == prev + gap + al);
        assert forall|i: int| 0 <= i < all.len() implies trims_cleanly(#[trigger] all[i]) by {
            if i < prev.len() {
                assert(all[i] == prev[i]);
            } else if i < prev.len() + gap.len() {
                assert(all[i] == gap[i - prev.len()]);
            } else {
                assert(all[i] == al[i - prev.len() - gap.len()]);
            }
        }
    }
}

/// Whether every run of every piece of some cells is measured as the sum of its characters'
/// widths.
pub open spec fn cells_add_up(cells: Seq<Seq<SPiece>>) -> bool {
    forall|j: int, k: int| 0 <= j < cells.len() && 0 <= k < cells[j].len() ==> runs_add_up((#[trigger] cells[j][k]).0)
}

/// The pieces of a cut cell are starts of the cell's pieces and the ellipsis.
proof fn truncated_trims_cleanly(cell: Seq<SPiece>, width: int, ellipsis: Seq<char>)
    requires
        forall|k: int| 0 <= k < cell.len() ==> runs_add_up((#[trigger] cell[k]).0),
        runs_add_up(ellipsis),
    ensures
        forall|i: int| 0 <= i < spec_truncate(cell, width, ellipsis).len() ==> trims_cleanly(#[trigger] spec_truncate(cell, width, ellipsis)[i]),
{
    let out = spec_truncate(cell, width, ellipsis);
    if columns(cell) > width {
        let e = if str_columns(ellipsis) <= width { ellipsis } else { Seq::<char>::empty() };
        let budget = width - str_columns(e);
        cut_row_pieces(cell, budget);
        let cut = cut_row(cell, budget);
        assert forall|i: int| 0 <= i < out.len() implies trims_cleanly(#[trigger] out[i]) by {
            if i < cut.0.len() {
                assert(out[i] == cut.0[i]);
                let (k, m) = choose|k: int, m: int| 0 <= k < cell.len() && 0 <= m <= cell[k].0.len() && cut.0[i].0 == cell[k].0.take(m);
                runs_add_up_part(cell[k].0, 0, m);
                assert(cell[k].0.subrange(0, m) =~= cell[k].0.take(m));
            } else {
                assert(out[i].0 == e);
            }
        }
    }
}

/// Where spaces up to the width are measured one column each and the cells' pieces and the
/// ellipsis are measured run by run as the sum of their characters' widths, a row of a data table
/// takes no more than its columns' widths and the gaps between them.
proof fn cut_row_fits(
    cells: Seq<Seq<SPiece>>,
    visible: Seq<int>,
    widths: Seq<int>,
    align: Seq<Align>,
    ellipsis: Seq<char>,
    max: int,
)
    requires
        spaces_measured(max),
        cells_add_up(cells),
        runs_add_up(ellipsis),
        visible.len() == widths.len(),
        forall|j: int| 0 <= j < visible.len() ==> 0 <= #[trigger] visible[j],
        visible.len() > 1 ==> GAP <= max,
        forall|j: int| 0 <= j < widths.len() ==> 0 <= #[trigger] widths[j] <= max,
    ensures
        spec_join(cells, visible, widths, align, false, ellipsis).len() == 1,
        columns(spec_join(cells, visible, widths, align, false, ellipsis)[0]) <= total(widths) + (
        if visible.len() > 0 { GAP * (visible.len() - 1) } else { 0 }),
{
    let laid = Seq::new(visible.len(), |k: int| laid_cell(cells, visible[k], widths[k], false, ellipsis));
    assert forall|j: int, m: int| 0 <= j < visible.len() && 0 <= m < laid[j].len() implies columns(#[trigger] laid[j][m]) <= widths[j] by {
        let cell = if visible[j] < cells.len() { cells[visible[j]] } else { Seq::<SPiece>::empty() };
        assert forall|k: int| 0 <= k < cell.len() implies runs_add_up((#[trigger] cell[k]).0) by {}
        truncated_rows_fit(cell, widths[j], ellipsis);
        assert(laid[j] == seq![spec_truncate(cell, widths[j], ellipsis)]);
    }
    assert forall|j: int, m: int, i: int| 0 <= j < visible.len() && 0 <= m < laid[j].len() && 0 <= i < laid[j][m].len() implies trims_cleanly(#[trigger] laid[j][m][i]) by {
        let cell = if visible[j] < cells.len() { cells[visible[j]] } else { Seq::<SPiece>::empty() };
        assert forall|k: int| 0 <= k < cell.len() implies runs_add_up((#[trigger] cell[k]).0) by {}
        truncated_trims_cleanly(cell, widths[j], ellipsis);
        assert(laid[j] == seq![spec_truncate(cell, widths[j], ellipsis)]);
    }
    assert forall|k: int| 0 <= k < laid.len() implies (#[trigger] laid[k]).len() == 1 by {}
    cut_cells_take_one_line(laid);
    line_parts_columns(laid, visible, widths, align, 0, visible.len() as int, max);
    assert(widths.take(visible.len() as int) =~= widths);
    trimmed_columns(line_parts(laid, visible, widths, align, 0, visible.len() as int));
}

/// Rows put one after another keep to a width every part keeps to.
proof fn concat_rows_fit(parts: Seq<Seq<Seq<SPiece>>>, max: int)
    requires
        forall|j: int, i: int| 0 <= j < parts.len() && 0 <= i < parts[j].len() ==> columns(#[trigger] parts[j][i]) <= max,
    ensures
        forall|i: int| 0 <= i < concat(parts).len() ==> columns(#[trigger] concat(parts)[i]) <= max,
    decreases parts.len(),
{
    if parts.len() > 0 {
        let rest = parts.drop_last();
        assert forall|j: int, i: int| 0 <= j < rest.len() && 0 <= i < rest[j].len() implies columns(#[trigger] rest[j][i]) <= max by {
            assert(rest[j] == parts[j]);
        }
        concat_rows_fit(rest, max);
        let all = concat(parts);
        assert forall|i: int| 0 <= i < all.len() implies columns(#[trigger] all[i]) <= max by {
            let before = concat(rest);
            if i >= before.len() {
                assert(all[i] == parts[parts.len() - 1][i - before.len()]);
            } else {
                assert(all[i] == before[i]);
            }
        }
    }
}

/// Every row of a data table laid out in `max` columns takes at most `max`, whenever `max` leaves
/// each shown column three columns and the two-column gaps between them, spaces up to `max` are
/// measured one column each, and every run of each cell's pieces and of the ellipsis is measured
/// as the sum of its characters' widths.
pub proof fn data_table_rows_fit(table: Table, max: int, look: Look)
    requires
        spaces_measured(max),
        cells_add_up(header_cells(table, look)),
        forall|r: int| 0 <= r < table.rows@.len() ==> cells_add_up(#[trigger] body_rows(table, look)[r]),
        runs_add_up(look_text(look, seq!['…'])),
        !table.wrap,
        0 <= max,
        5 * table_layout(table, max, look).0.len() <= max + GAP,
    ensures
        forall|i: int| 0 <= i < spec_rows(table, max, look).len() ==> columns(#[trigger] spec_rows(table, max, look)[i]) <= max,
{
    table_layout_fits(table, max, look);
    if column_count(table) > 0 {
        let header = header_cells(table, look);
        let body = body_rows(table, look);
        let (visible, widths) = table_layout(table, max, look);
        let ellipsis = look_text(look, seq!['…']);
        let natural = naturals(body.push(header), column_count(table));
        dropping_in_range(natural, table.optional@, max);
        let gaps = if visible.len() > 0 { GAP * (visible.len() - 1) } else { 0 };
        assert(3 * visible.len() + gaps <= max);
        total_nonneg(widths);
        assert forall|j: int| 0 <= j < widths.len() implies 0 <= #[trigger] widths[j] <= max by {
            total_prefix(widths, j);
            total_prefix(widths, j + 1);
            assert(widths.take(j + 1).drop_last() =~= widths.take(j));
            assert(widths.take(j + 1).last() == widths[j]);
            total_prefix(widths, widths.len() as int);
            assert(widths.take(widths.len() as int) =~= widths);
        }
        let head = if header.len() > 0 {
            spec_join(header, visible, widths, table.align@, table.wrap, ellipsis)
        } else {
            Seq::empty()
        };
        if header.len() > 0 {
            cut_row_fits(header, visible, widths, table.align@, ellipsis, max);
        }
        let parts = body.map_values(|cells: Seq<Seq<SPiece>>| spec_join(cells, visible, widths, table.align@, table.wrap, ellipsis));
        assert forall|j: int, i: int| 0 <= j < parts.len() && 0 <= i < parts[j].len() implies columns(#[trigger] parts[j][i]) <= max by {
            assert(cells_add_up(body[j]));
            cut_row_fits(body[j], visible, widths, table.align@, ellipsis, max);
        }
        concat_rows_fit(parts, max);
        let rows = spec_rows(table, max, look);
        assert(rows == head + concat(parts));
        assert forall|i: int| 0 <= i < rows.len() implies columns(#[trigger] rows[i]) <= max by {
            if i < head.len() {
                assert(rows[i] == head[i]);
            } else {
                assert(rows[i] == concat(parts)[i - head.len()]);
            }
        }
    }
}

/// The widths as integers.
pub open spec fn ints(widths: Seq<usize>) -> Seq<int> {
    widths.map_values(|w: usize| w as int)
}

/// Column widths that fit `budget`, taking one column from the widest column at a time.
pub fn fit(natural: &Vec<usize>, budget: usize, wrap: bool) -> (widths: Vec<usize>)
    requires
        total(ints(natural@)) <= usize::MAX,
    ensures
        ints(widths@) == spec_fit(ints(natural@), budget as int, wrap),
        widths@.len() == natural@.len(),
        forall|k: int| 0 <= k < widths@.len() ==> widths@[k] <= #[trigger] natural@[k],
{
    let floor: usize = if wrap {
        8
    } else {
        3
    };
    let n = natural.len();
    let mut widths: Vec<usize> = Vec::new();
    let mut sum: usize = 0;
    let mut k: usize = 0;
    while k < n
        invariant
            k <= n,
            n == natural@.len(),
            widths@ == natural@.take(k as int),
            sum == total(ints(natural@.take(k as int))),
            total(ints(natural@)) <= usize::MAX,
        decreases n - k,
    {
        proof {
            assert(ints(natural@.take(k + 1)).drop_last() =~= ints(natural@.take(k as int)));
            total_prefix(ints(natural@), k + 1);
            assert(ints(natural@.take(k + 1)) =~= ints(natural@).take(k + 1));
        }
        widths.push(natural[k]);
        sum = sum + natural[k];
        k = k + 1;
        proof {
            assert(widths@ =~= natural@.take(k as int));
        }
    }
    proof {
        assert(natural@.take(n as int) =~= natural@);
    }
    let ghost target = spec_fit(ints(natural@), budget as int, wrap);
    proof {
        assert(ints(widths@) =~= ints(natural@));
    }
    while sum > budget
        invariant_except_break
            sum > budget ==> target == shrink(ints(widths@), ints(natural@), floor as int, (sum - budget) as nat),
            sum <= budget ==> target == ints(widths@),
        invariant
            n == natural@.len(),
            widths@.len() == n,
            sum == total(ints(widths@)),
            forall|q: int| 0 <= q < n ==> widths@[q] <= #[trigger] natural@[q],
            floor == (if wrap { 8int } else { 3int }),
        ensures
            target == ints(widths@),
        decreases sum,
    {
        let mut best: Option<usize> = None;
        let mut idx: usize = 0;
        while idx < n
            invariant
                idx <= n,
                n == natural@.len(),
                widths@.len() == n,
                floor == (if wrap { 8int } else { 3int }),
                match best {
                    Some(b) => widest(ints(widths@), ints(natural@), floor as int, idx as int) == Some(b as int) && b < idx,
                    None => widest(ints(widths@), ints(natural@), floor as int, idx as int) is None,
                },
            decreases n - idx,
        {
            let least = if floor < natural[idx] {
                floor
            } else {
                natural[idx]
            };
            let better = match best {
                None => true,
                Some(b) => widths[idx] >= widths[b],
            };
            if widths[idx] > least && better {
                best = Some(idx);
            }
            idx = idx + 1;
        }
        proof {
            widest_shrinkable(ints(widths@), ints(natural@), floor as int, n as int);
        }
        match best {
            None => {
                proof {
                    assert(ints(widths@).len() == n);
                    assert(target == ints(widths@));
                }
                break;
            },
            Some(i) => {
                proof {
                    total_update(ints(widths@), i as int, widths@[i as int] - 1);
                    assert(ints(widths@.update(i as int, (widths@[i as int] - 1) as usize)) =~= ints(widths@).update(i as int, widths@[i as int] - 1));
                }
                let ghost before = ints(widths@);
                let ghost steps = (sum - budget) as nat;
                let w = widths[i] - 1;
                widths.set(i, w);
                sum = sum - 1;
                proof {
                    assert(before.len() == n);
                    assert(widest(before, ints(natural@), floor as int, before.len() as int) == Some(i as int));
                    assert(ints(widths@) =~= before.update(i as int, before[i as int] - 1));
                    assert(shrink(before, ints(natural@), floor as int, steps) == shrink(ints(widths@), ints(natural@), floor as int, (steps - 1) as nat));
                }
            },
        }
    }
    widths
}

/// Totals of prefixes of non-negative widths never exceed the whole.
proof fn total_prefix(widths: Seq<int>, n: int)
    requires
        0 <= n <= widths.len(),
        forall|i: int| 0 <= i < widths.len() ==> widths[i] >= 0,
    ensures
        0 <= total(widths.take(n)) <= total(widths),
    decreases widths.len() - n,
{
    if n == widths.len() {
        assert(widths.take(n) =~= widths);
        total_nonneg(widths);
    } else {
        total_prefix(widths, n + 1);
        assert(widths.take(n + 1).drop_last() =~= widths.take(n));
        total_nonneg(widths.take(n));
    }
}

/// The widest shrinkable column is one of the columns looked at, and may shrink.
proof fn widest_shrinkable(widths: Seq<int>, natural: Seq<int>, floor: int, n: int)
    ensures
        widest(widths, natural, floor, n) matches Some(i) ==> 0 <= i < n && shrinkable(widths, natural, floor, i),
    decreases n,
{
    if n > 0 {
        widest_shrinkable(widths, natural, floor, n - 1);
    }
}

/// Totals of non-negative widths are not negative.
proof fn total_nonneg(widths: Seq<int>)
    requires
        forall|i: int| 0 <= i < widths.len() ==> widths[i] >= 0,
    ensures
        total(widths) >= 0,
    decreases widths.len(),
{
    if widths.len() > 0 {
        total_nonneg(widths.drop_last());
    }
}


/// Whether every cell of a row is small enough to measure, wrap and cut: three columns a
/// character at most, with room for the ellipsis.
pub open spec fn cells_fit(cells: Seq<Seq<SPiece>>, ellipsis: Seq<char>) -> bool {
    forall|c: int| 0 <= c < cells.len() ==> 3 * size(#[trigger] cells[c]) + 3 * ellipsis.len() + 3 <= usize::MAX
}

/// The rows one cell takes in its column.
fn lay_cell(cells: &Vec<Row>, column: usize, width: usize, wrap_cells: bool, ellipsis: &str) -> (laid: Vec<Row>)
    requires
        cells_fit(rows_view(cells@), ellipsis@),
    ensures
        rows_view(laid@) == laid_cell(rows_view(cells@), column as int, width as int, wrap_cells, ellipsis@),
        forall|r: int| 0 <= r < laid@.len() ==> 3 * size(row_view(#[trigger] laid@[r]@)) + 3 <= usize::MAX,
        laid@.len() >= 1,
{
    let cell: Row = if column < cells.len() {
        copy_row(&cells[column])
    } else {
        Vec::new()
    };
    proof {
        if column < cells.len() {
            assert(rows_view(cells@)[column as int] == row_view(cells@[column as int]@));
        } else {
            assert(row_view(cell@) =~= Seq::<SPiece>::empty());
        }
        size_nonnegative(row_view(cell@));
    }
    if wrap_cells {
        let laid = wrap(cell.as_slice(), width);
        proof {
            assert forall|r: int| 0 <= r < laid@.len() implies 3 * size(row_view(#[trigger] laid@[r]@)) + 3 <= usize::MAX by {
                rows_size_elem(rows_view(laid@), r);
            }
        }
        laid
    } else {
        let ghost before = row_view(cell@);
        let cut = truncate(cell, width, ellipsis);
        proof {
            truncate_size(before, width as int, ellipsis@);
        }
        let laid = vec![cut];
        proof {
            assert(rows_view(laid@) =~= seq![row_view(cut@)]);
        }
        laid
    }
}

/// One table row, which becomes several screen rows when a prose cell wraps.
fn join(cells: &Vec<Row>, visible: &Vec<usize>, widths: &Vec<usize>, align: &Vec<Align>, wrap_cells: bool, ellipsis: &str) -> (out: Vec<Row>)
    requires
        visible@.len() == widths@.len(),
        cells_fit(rows_view(cells@), ellipsis@),
        forall|k: int| 0 <= k < widths@.len() ==> 3 * (#[trigger] widths@[k]) + 3 <= usize::MAX,
    ensures
        rows_view(out@) == spec_join(rows_view(cells@), ints(visible@), ints(widths@), align@, wrap_cells, ellipsis@),
{
    let n = visible.len();
    let ghost laid_spec = Seq::new(n as nat, |k: int| laid_cell(rows_view(cells@), visible@[k] as int, widths@[k] as int, wrap_cells, ellipsis@));
    let mut laid: Vec<Vec<Row>> = Vec::new();
    let mut k: usize = 0;
    while k < n
        invariant
            k <= n,
            n == visible@.len(),
            n == widths@.len(),
            laid@.len() == k,
            laid_spec == Seq::new(n as nat, |q: int| laid_cell(rows_view(cells@), visible@[q] as int, widths@[q] as int, wrap_cells, ellipsis@)),
            cells_fit(rows_view(cells@), ellipsis@),
            forall|q: int| 0 <= q < k ==> rows_view(#[trigger] laid@[q]@) == laid_spec[q],
            forall|q: int, r: int| 0 <= q < k && 0 <= r < laid@[q]@.len() ==> 3 * size(row_view(#[trigger] laid@[q]@[r]@)) + 3 <= usize::MAX,
            forall|q: int| 0 <= q < k ==> (#[trigger] laid@[q]@).len() >= 1,
        decreases n - k,
    {
        let cell_rows = lay_cell(cells, visible[k], widths[k], wrap_cells, ellipsis);
        laid.push(cell_rows);
        k = k + 1;
    }
    let ghost laid_view = Seq::new(n as nat, |q: int| rows_view(laid@[q]@));
    proof {
        assert(laid_view =~= laid_spec);
    }
    let mut tall: usize = if n == 0 {
        1
    } else {
        laid[0].len()
    };
    let mut q: usize = 1;
    while q < n
        invariant
            1 <= q,
            n > 0 ==> q <= n,
            n == laid@.len(),
            laid_view == Seq::new(n as nat, |r: int| rows_view(laid@[r]@)),
            n > 0 ==> tall == height(laid_view.take(q as int)),
            n == 0 ==> tall == 1,
        decreases n - q,
    {
        proof {
            assert(laid_view.take(q + 1).drop_last() =~= laid_view.take(q as int));
            if q == 1 {
                assert(laid_view.take(1)[0] == laid_view[0]);
            }
        }
        if laid[q].len() > tall {
            tall = laid[q].len();
        }
        q = q + 1;
    }
    proof {
        if n > 0 {
            if n == 1 {
                assert(laid_view.take(1)[0] == laid_view[0]);
            }
            assert(laid_view.take(n as int) =~= laid_view);
        } else {
            assert(laid_view =~= Seq::<Seq<Seq<SPiece>>>::empty());
        }
    }
    let mut out: Vec<Row> = Vec::new();
    let mut line: usize = 0;
    while line < tall
        invariant
            line <= tall,
            tall == height(laid_view),
            n == visible@.len(),
            n == widths@.len(),
            n == laid@.len(),
            laid_view == laid_spec,
            laid_view == Seq::new(n as nat, |r: int| rows_view(laid@[r]@)),
            forall|q: int, r: int| 0 <= q < n && 0 <= r < laid@[q]@.len() ==> 3 * size(row_view(#[trigger] laid@[q]@[r]@)) + 3 <= usize::MAX,
            forall|q: int| 0 <= q < widths@.len() ==> 3 * (#[trigger] widths@[q]) + 3 <= usize::MAX,
            out@.len() == line,
            forall|r: int| 0 <= r < line ==> row_view(#[trigger] out@[r]@) == spec_trim_end(line_parts(laid_view, ints(visible@), ints(widths@), align@, r, n as int)),
        decreases tall - line,
    {
        let mut row: Row = Vec::new();
        let mut k: usize = 0;
        while k < n
            invariant
                k <= n,
                n == visible@.len(),
                n == widths@.len(),
                n == laid@.len(),
                laid_view == Seq::new(n as nat, |r: int| rows_view(laid@[r]@)),
                forall|q: int, r: int| 0 <= q < n && 0 <= r < laid@[q]@.len() ==> 3 * size(row_view(#[trigger] laid@[q]@[r]@)) + 3 <= usize::MAX,
                forall|q: int| 0 <= q < widths@.len() ==> 3 * (#[trigger] widths@[q]) + 3 <= usize::MAX,
                row_view(row@) == line_parts(laid_view, ints(visible@), ints(widths@), align@, line as int, k as int),
            decreases n - k,
        {
            let ghost prev = row_view(row@);
            if k > 0 {
                row.push((crate::strings::spaces_string(GAP), Tone::body()));
            }
            let ghost with_gap = row_view(row@);
            proof {
                if k > 0 {
                    assert(with_gap =~= prev + seq![(spaces(GAP as nat), body_tone())]);
                } else {
                    assert(with_gap =~= prev + Seq::<SPiece>::empty());
                }
            }
            let mut cell: Row = if line < laid[k].len() {
                copy_row(&laid[k][line])
            } else {
                Vec::new()
            };
            let ghost cell_view = row_view(cell@);
            proof {
                if line < laid@[k as int]@.len() {
                    assert(laid_view[k as int][line as int] == cell_view);
                } else {
                    assert(cell_view =~= Seq::<SPiece>::empty());
                    size_nonnegative(cell_view);
                }
            }
            let used = crate::text::columns_of(cell.as_slice());
            let width = widths[k];
            let column = visible[k];
            let right = column < align.len() && align[column] == Align::Right;
            proof {
                assert(right == (align_of(align@, column as int) == Align::Right));
            }
            if right && used < width {
                row.push((crate::strings::spaces_string(width - used), Tone::body()));
                let ghost mid = row_view(row@);
                row.append(&mut cell);
                proof {
                    assert(row_view(row@) =~= with_gap + (seq![(spaces((width - used) as nat), body_tone())] + cell_view));
                }
            } else {
                pad(&mut cell, width);
                let ghost padded = row_view(cell@);
                row.append(&mut cell);
                proof {
                    assert(row_view(row@) =~= with_gap + padded);
                }
            }
            k = k + 1;
        }
        trim_end(&mut row);
        out.push(row);
        line = line + 1;
    }
    proof {
        let target = spec_join(rows_view(cells@), ints(visible@), ints(widths@), align@, wrap_cells, ellipsis@);
        let laid_ints = Seq::new(ints(visible@).len(), |k: int| laid_cell(rows_view(cells@), ints(visible@)[k], ints(widths@)[k], wrap_cells, ellipsis@));
        assert(laid_ints =~= laid_spec);
        assert(target.len() == out@.len());
        assert forall|r: int| 0 <= r < out@.len() implies #[trigger] rows_view(out@)[r] == target[r] by {
            assert(row_view(out@[r]@) == spec_trim_end(line_parts(laid_view, ints(visible@), ints(widths@), align@, r, n as int)));
        }
        assert(rows_view(out@) =~= target);
    }
    out
}

/// Whether a table is small enough to lay out without any count overflowing: its characters,
/// even with every stand-in three characters wide and three columns a character, and its
/// columns with the gaps between them.
pub open spec fn table_fits(table: Table) -> bool {
    27 * table_size(table) + 2 * column_count(table) + 16 <= usize::MAX
}

/// Body rows as characters and tones.
pub open spec fn grid_view(grid: Seq<Vec<Row>>) -> Seq<Seq<Seq<SPiece>>> {
    grid.map_values(|cells: Vec<Row>| rows_view(cells@))
}

/// Characters of every cell of every row.
pub open spec fn grid_size(grid: Seq<Seq<Seq<SPiece>>>) -> int
    decreases grid.len(),
{
    if grid.len() == 0 {
        0
    } else {
        grid_size(grid.drop_last()) + rows_size(grid.last())
    }
}

/// Bold changes no character.
proof fn bolded_size(row: Seq<SPiece>)
    ensures
        size(bolded(row)) == size(row),
    decreases row.len(),
{
    if row.len() > 0 {
        assert(bolded(row).drop_last() =~= bolded(row.drop_last()));
        bolded_size(row.drop_last());
    }
}

/// Resolved cells hold at most three times the characters of their spans.
pub proof fn cells_resolved(cells: Seq<Vec<Span>>, look: Look)
    ensures
        0 <= rows_size(body_cells(cells, look)) <= 3 * cells_size(cells),
        forall|c: int| 0 <= c < cells.len() ==> 0 <= size(#[trigger] body_cells(cells, look)[c]) <= 3 * cells_size(cells),
        cells_size(cells) >= 0,
    decreases cells.len(),
{
    if cells.len() > 0 {
        cells_resolved(cells.drop_last(), look);
        assert(body_cells(cells, look).drop_last() =~= body_cells(cells.drop_last(), look));
        resolve_size(cells.last()@, look);
        assert forall|c: int| 0 <= c < cells.len() implies 0 <= size(#[trigger] body_cells(cells, look)[c]) <= 3 * cells_size(cells) by {
            if c < cells.len() - 1 {
                assert(body_cells(cells, look)[c] == body_cells(cells.drop_last(), look)[c]);
            }
        }
    }
}

/// Bolded header cells hold as many characters as plain ones.
proof fn header_resolved(cells: Seq<Vec<Span>>, look: Look)
    ensures
        rows_size(bold_cells(cells, look)) == rows_size(body_cells(cells, look)),
        forall|c: int| 0 <= c < cells.len() ==> size(#[trigger] bold_cells(cells, look)[c]) == size(body_cells(cells, look)[c]),
    decreases cells.len(),
{
    let bold = bold_cells(cells, look);
    if cells.len() > 0 {
        header_resolved(cells.drop_last(), look);
        assert(bold.drop_last() =~= bold_cells(cells.drop_last(), look));
        assert(body_cells(cells, look).drop_last() =~= body_cells(cells.drop_last(), look));
        bolded_size(spec_resolve(cells.last()@, look));
    }
    assert forall|c: int| 0 <= c < cells.len() implies size(#[trigger] bold[c]) == size(body_cells(cells, look)[c]) by {
        bolded_size(spec_resolve(cells[c]@, look));
    }
}

/// Resolved body rows hold at most three times the characters of their spans.
pub proof fn body_resolved(rows: Seq<Vec<Vec<Span>>>, look: Look)
    ensures
        0 <= grid_size(rows.map_values(|cells: Vec<Vec<Span>>| body_cells(cells@, look))) <= 3 * body_size(rows),
        forall|r: int, c: int| 0 <= r < rows.len() && 0 <= c < rows[r]@.len() ==> size(#[trigger] body_cells(rows[r]@, look)[c]) <= 3 * body_size(rows),
        body_size(rows) >= 0,
    decreases rows.len(),
{
    if rows.len() > 0 {
        body_resolved(rows.drop_last(), look);
        assert(rows.map_values(|cells: Vec<Vec<Span>>| body_cells(cells@, look)).drop_last() =~= rows.drop_last().map_values(|cells: Vec<Vec<Span>>| body_cells(cells@, look)));
        cells_resolved(rows.last()@, look);
        assert forall|r: int, c: int| 0 <= r < rows.len() && 0 <= c < rows[r]@.len() implies size(#[trigger] body_cells(rows[r]@, look)[c]) <= 3 * body_size(rows) by {
            if r < rows.len() - 1 {
                assert(rows[r] == rows.drop_last()[r]);
            } else {
                assert(body_cells(rows.last()@, look)[c] == body_cells(rows[r]@, look)[c]);
            }
        }
    }
}

/// No row has more cells than the longest.
proof fn longest_row_bound(rows: Seq<Vec<Vec<Span>>>)
    ensures
        forall|r: int| 0 <= r < rows.len() ==> (#[trigger] rows[r])@.len() <= longest_row(rows),
        longest_row(rows) >= 0,
    decreases rows.len(),
{
    if rows.len() > 0 {
        longest_row_bound(rows.drop_last());
        assert forall|r: int| 0 <= r < rows.len() implies (#[trigger] rows[r])@.len() <= longest_row(rows) by {
            if r < rows.len() - 1 {
                assert(rows[r] == rows.drop_last()[r]);
            }
        }
    }
}

/// A width of non-negative widths is at most their total.
proof fn total_elem(widths: Seq<int>, k: int)
    requires
        0 <= k < widths.len(),
        forall|i: int| 0 <= i < widths.len() ==> widths[i] >= 0,
    ensures
        widths[k] <= total(widths),
    decreases widths.len(),
{
    total_nonneg(widths.drop_last());
    if k < widths.len() - 1 {
        total_elem(widths.drop_last(), k);
    }
}

/// The natural widths picked out by a list of columns add up to their sum.
proof fn total_picked(natural: Seq<int>, visible: Seq<int>)
    ensures
        total(visible.map_values(|c: int| natural[c])) == sum_of(natural, visible),
    decreases visible.len(),
{
    if visible.len() > 0 {
        assert(visible.map_values(|c: int| natural[c]).drop_last() =~= visible.drop_last().map_values(|c: int| natural[c]));
        total_picked(natural, visible.drop_last());
    }
}

/// Grids grow by the characters of the row pushed.
proof fn grid_size_push(grid: Seq<Seq<Seq<SPiece>>>, row: Seq<Seq<SPiece>>)
    ensures
        grid_size(grid.push(row)) == grid_size(grid) + rows_size(row),
{
    assert(grid.push(row).drop_last() =~= grid);
}

/// Concatenation grows by the part pushed.
proof fn concat_push(parts: Seq<Seq<Seq<SPiece>>>, part: Seq<Seq<SPiece>>)
    ensures
        concat(parts.push(part)) == concat(parts) + part,
{
    assert(parts.push(part).drop_last() =~= parts);
}

/// Every piece of a row in bold.
fn bold_row(row: &mut Row)
    ensures
        row_view(final(row)@) == bolded(row_view(old(row)@)),
{
    let ghost start = row_view(row@);
    let mut i: usize = 0;
    while i < row.len()
        invariant
            i <= row@.len(),
            row@.len() == start.len(),
            start == row_view(old(row)@),
            forall|j: int| 0 <= j < i ==> #[trigger] row_view(row@)[j] == bolded(start)[j],
            forall|j: int| i <= j < row@.len() ==> #[trigger] row_view(row@)[j] == start[j],
        decreases row@.len() - i,
    {
        let piece = copy_piece(&row[i]);
        let tone = piece.1.bold();
        let ghost prev = row@;
        proof {
            assert(row_view(prev)[i as int] == start[i as int]);
            assert(row_view(prev)[i as int] == piece_view(piece));
        }
        row.set(i, (piece.0, tone));
        proof {
            assert forall|j: int| 0 <= j < row@.len() && j != i implies #[trigger] row_view(row@)[j] == row_view(prev)[j] by {
                assert(row@[j] == prev[j]);
            }
            assert(row_view(row@)[i as int] == bolded(start)[i as int]);
        }
        i = i + 1;
    }
    assert(row_view(row@) =~= bolded(start));
}

/// Widens the natural widths by one row of cells.
fn widen(natural: &mut Vec<usize>, cells: &Vec<Row>)
    requires
        cells@.len() <= old(natural)@.len(),
        forall|c: int| 0 <= c < cells@.len() ==> 3 * size(row_view(#[trigger] cells@[c]@)) <= usize::MAX,
    ensures
        ints(final(natural)@) == widen_spec(ints(old(natural)@), rows_view(cells@)),
        total(ints(final(natural)@)) <= total(ints(old(natural)@)) + 3 * rows_size(rows_view(cells@)),
{
    let ghost start = ints(natural@);
    let ghost cv = rows_view(cells@);
    let mut c: usize = 0;
    while c < cells.len()
        invariant
            c <= cells@.len(),
            cells@.len() <= natural@.len(),
            natural@.len() == start.len(),
            cv == rows_view(cells@),
            forall|q: int| 0 <= q < cells@.len() ==> 3 * size(row_view(#[trigger] cells@[q]@)) <= usize::MAX,
            forall|i: int| 0 <= i < natural@.len() ==> #[trigger] ints(natural@)[i] == (if i < c && columns(cv[i]) > start[i] {
                columns(cv[i])
            } else {
                start[i]
            }),
            total(ints(natural@)) <= total(start) + 3 * rows_size(cv.take(c as int)),
        decreases cells@.len() - c,
    {
        let w = crate::text::columns_of(cells[c].as_slice());
        proof {
            assert(cv.take(c + 1) =~= cv.take(c as int).push(cv[c as int]));
            crate::text::rows_size_push(cv.take(c as int), cv[c as int]);
            assert(ints(natural@)[c as int] == start[c as int]);
        }
        if w > natural[c] {
            proof {
                total_update(ints(natural@), c as int, w as int);
                assert(ints(natural@.update(c as int, w)) =~= ints(natural@).update(c as int, w as int));
            }
            natural.set(c, w);
        }
        c = c + 1;
    }
    proof {
        assert(ints(natural@) =~= widen_spec(start, cv));
        assert(cv.take(cells@.len() as int) =~= cv);
    }
}

/// Lays `table` out in at most `max` columns. Columns shrink widest-first when the table does
/// not fit; data tables cut cells with `…`, prose tables wrap them.
pub fn rows(table: &Table, max: usize, look: &Look) -> (out: Vec<Row>)
    requires
        table_fits(*table),
    ensures
        rows_view(out@) == spec_rows(*table, max as int, *look),
{
    let ghost hv = header_cells(*table, *look);
    let ghost bv = body_rows(*table, *look);
    proof {
        header_resolved(table.header@, *look);
        cells_resolved(table.header@, *look);
        body_resolved(table.rows@, *look);
        longest_row_bound(table.rows@);
    }
    let mut header: Vec<Row> = Vec::new();
    let mut h: usize = 0;
    while h < table.header.len()
        invariant
            h <= table.header@.len(),
            hv == header_cells(*table, *look),
            rows_view(header@) == hv.take(h as int),
        decreases table.header@.len() - h,
    {
        let mut row = resolve(&table.header[h], look);
        bold_row(&mut row);
        let ghost prev = header@;
        header.push(row);
        proof {
            assert(rows_view(header@) =~= rows_view(prev).push(row_view(row@)));
            assert(hv[h as int] == bolded(spec_resolve(table.header@[h as int]@, *look)));
            assert(hv.take(h + 1) =~= hv.take(h as int).push(hv[h as int]));
        }
        h = h + 1;
    }
    proof {
        assert(hv.take(table.header@.len() as int) =~= hv);
    }
    let mut body: Vec<Vec<Row>> = Vec::new();
    let mut r: usize = 0;
    while r < table.rows.len()
        invariant
            r <= table.rows@.len(),
            bv == body_rows(*table, *look),
            grid_view(body@) == bv.take(r as int),
        decreases table.rows@.len() - r,
    {
        let cells = &table.rows[r];
        let mut laid: Vec<Row> = Vec::new();
        let mut c: usize = 0;
        while c < cells.len()
            invariant
                c <= cells@.len(),
                rows_view(laid@) == body_cells(cells@, *look).take(c as int),
            decreases cells@.len() - c,
        {
            let cell = resolve(&cells[c], look);
            let ghost prev = laid@;
            laid.push(cell);
            proof {
                assert(rows_view(laid@) =~= rows_view(prev).push(row_view(cell@)));
                assert(body_cells(cells@, *look).take(c + 1) =~= body_cells(cells@, *look).take(c as int).push(spec_resolve(cells@[c as int]@, *look)));
            }
            c = c + 1;
        }
        proof {
            assert(rows_view(laid@) =~= body_cells(cells@, *look));
        }
        let ghost prev = body@;
        body.push(laid);
        proof {
            assert(grid_view(body@) =~= grid_view(prev).push(rows_view(laid@)));
            assert(bv[r as int] == body_cells(table.rows@[r as int]@, *look));
            assert(bv.take(r + 1) =~= bv.take(r as int).push(bv[r as int]));
        }
        r = r + 1;
    }
    proof {
        assert(grid_view(body@) =~= bv);
    }
    let mut columns: usize = 0;
    let mut q: usize = 0;
    while q < table.rows.len()
        invariant
            q <= table.rows@.len(),
            columns == longest_row(table.rows@.take(q as int)),
        decreases table.rows@.len() - q,
    {
        proof {
            assert(table.rows@.take(q + 1).drop_last() =~= table.rows@.take(q as int));
        }
        if table.rows[q].len() > columns {
            columns = table.rows[q].len();
        }
        q = q + 1;
    }
    proof {
        assert(table.rows@.take(table.rows@.len() as int) =~= table.rows@);
    }
    if table.header.len() > columns {
        columns = table.header.len();
    }
    if table.align.len() > columns {
        columns = table.align.len();
    }
    if columns == 0 {
        return Vec::new();
    }
    let ghost n = columns as int;
    let mut natural: Vec<usize> = Vec::new();
    let mut z: usize = 0;
    while z < columns
        invariant
            z <= columns,
            natural@.len() == z,
            forall|i: int| 0 <= i < z ==> #[trigger] natural@[i] == 0,
        decreases columns - z,
    {
        natural.push(0);
        z = z + 1;
    }
    proof {
        assert(ints(natural@) =~= naturals(bv.take(0), n));
        total_nonneg(ints(natural@));
        assert(total(ints(natural@)) == 0) by {
            assert(ints(natural@) =~= Seq::new(columns as nat, |i: int| 0int));
            zero_total(columns as int);
        }
    }
    let mut b: usize = 0;
    while b < body.len()
        invariant
            b <= body@.len(),
            body@.len() == table.rows@.len(),
            grid_view(body@) == bv,
            bv == body_rows(*table, *look),
            n == columns,
            n == column_count(*table),
            natural@.len() == n,
            ints(natural@) == naturals(bv.take(b as int), n),
            0 <= total(ints(natural@)) <= 3 * grid_size(bv.take(b as int)),
            grid_size(bv.take(b as int)) <= grid_size(bv),
            0 <= grid_size(bv) <= 3 * body_size(table.rows@),
            table_fits(*table),
            forall|r: int| 0 <= r < table.rows@.len() ==> (#[trigger] table.rows@[r])@.len() <= longest_row(table.rows@),
            forall|r: int, c: int| 0 <= r < table.rows@.len() && 0 <= c < table.rows@[r]@.len() ==> size(#[trigger] body_cells(table.rows@[r]@, *look)[c]) <= 3 * body_size(table.rows@),
            body_size(table.rows@) >= 0,
            cells_size(table.header@) >= 0,
        decreases body@.len() - b,
    {
        proof {
            assert(bv[b as int] == rows_view(body@[b as int]@));
            assert(bv[b as int] == body_cells(table.rows@[b as int]@, *look));
            assert forall|c: int| 0 <= c < body@[b as int]@.len() implies 3 * size(row_view(#[trigger] body@[b as int]@[c]@)) <= usize::MAX by {
                assert(row_view(body@[b as int]@[c]@) == bv[b as int][c]);
            }
            assert(bv.take(b + 1) =~= bv.take(b as int).push(bv[b as int]));
            grid_size_push(bv.take(b as int), bv[b as int]);
            grid_prefix(bv, b + 1);
        }
        let ghost before = ints(natural@);
        widen(&mut natural, &body[b]);
        proof {
            assert(bv.take(b + 1).drop_last() =~= bv.take(b as int));
            assert(bv.take(b + 1).last() == bv[b as int]);
            assert(naturals(bv.take(b + 1), n) == widen_spec(naturals(bv.take(b as int), n), bv[b as int]));
            assert(rows_view(body@[b as int]@) == bv[b as int]);
            assert forall|i: int| 0 <= i < ints(natural@).len() implies #[trigger] ints(natural@)[i] >= 0 by {
                assert(ints(natural@)[i] == natural@[i] as int);
            }
            total_nonneg(ints(natural@));
        }
        b = b + 1;
    }
    proof {
        assert(bv.take(body@.len() as int) =~= bv);
        assert forall|c: int| 0 <= c < header@.len() implies 3 * size(row_view(#[trigger] header@[c]@)) <= usize::MAX by {
            assert(row_view(header@[c]@) == hv[c]);
        }
        rows_size_nonneg(hv);
    }
    widen(&mut natural, &header);
    let ghost all = bv.push(hv);
    proof {
        assert(all.drop_last() =~= bv);
        assert(ints(natural@) == naturals(all, n));
        grid_size_push(bv, hv);
    }
    let visible = visible_columns(&natural, &table.optional, max);
    let ghost vis = ints(visible@);
    let mut chosen: Vec<usize> = Vec::new();
    let mut k: usize = 0;
    while k < visible.len()
        invariant
            k <= visible@.len(),
            vis == ints(visible@),
            forall|j: int| 0 <= j < visible@.len() ==> #[trigger] visible@[j] < natural@.len(),
            ints(chosen@) == vis.take(k as int).map_values(|c: int| ints(natural@)[c]),
        decreases visible@.len() - k,
    {
        let ghost prev = chosen@;
        chosen.push(natural[visible[k]]);
        proof {
            assert(ints(chosen@) =~= ints(prev).push(natural@[visible@[k as int] as int] as int));
            assert(vis.take(k + 1) =~= vis.take(k as int).push(vis[k as int]));
            assert(vis.take(k + 1).map_values(|c: int| ints(natural@)[c]) =~= vis.take(k as int).map_values(|c: int| ints(natural@)[c]).push(ints(natural@)[vis[k as int]]));
        }
        k = k + 1;
    }
    proof {
        assert(vis.take(visible@.len() as int) =~= vis);
        total_picked(ints(natural@), vis);
    }
    let gaps = GAP * (visible.len() - 1);
    let budget = if max > gaps {
        max - gaps
    } else {
        0
    };
    let widths = fit(&chosen, budget, table.wrap);
    let ellipsis = look.text("…");
    proof {
        reveal_strlit("…");
        crate::look::ascii_text_size("…"@);
        assert("…"@.len() == 1);
        assert(ellipsis@.len() <= 3);
        assert forall|j: int| 0 <= j < widths@.len() implies 3 * (#[trigger] widths@[j]) + 3 <= usize::MAX by {
            assert(ints(chosen@)[j] == chosen@[j] as int);
            total_elem(ints(chosen@), j);
        }
        assert(ints(visible@) == table_layout(*table, max as int, *look).0);
        assert(ints(widths@) == table_layout(*table, max as int, *look).1);
    }
    let mut out: Vec<Row> = Vec::new();
    if header.len() > 0 {
        proof {
            assert forall|c: int| 0 <= c < rows_view(header@).len() implies 3 * size(#[trigger] rows_view(header@)[c]) + 3 * ellipsis@.len() + 3 <= usize::MAX by {
                assert(rows_view(header@)[c] == hv[c]);
            }
        }
        out = join(&header, &visible, &widths, &table.align, table.wrap, ellipsis.as_str());
    }
    let ghost head = rows_view(out@);
    let ghost joined = bv.map_values(|cells: Seq<Seq<SPiece>>| spec_join(cells, vis, ints(widths@), table.align@, table.wrap, ellipsis@));
    let mut j: usize = 0;
    while j < body.len()
        invariant
            j <= body@.len(),
            body@.len() == bv.len(),
            grid_view(body@) == bv,
            bv == body_rows(*table, *look),
            vis == ints(visible@),
            visible@.len() == widths@.len(),
            joined == bv.map_values(|cells: Seq<Seq<SPiece>>| spec_join(cells, vis, ints(widths@), table.align@, table.wrap, ellipsis@)),
            rows_view(out@) == head + concat(joined.take(j as int)),
            ellipsis@.len() <= 3,
            forall|q: int| 0 <= q < widths@.len() ==> 3 * (#[trigger] widths@[q]) + 3 <= usize::MAX,
            forall|r: int, c: int| 0 <= r < table.rows@.len() && 0 <= c < table.rows@[r]@.len() ==> size(#[trigger] body_cells(table.rows@[r]@, *look)[c]) <= 3 * body_size(table.rows@),
            9 * body_size(table.rows@) + 12 <= usize::MAX,
        decreases body@.len() - j,
    {
        proof {
            assert(bv[j as int] == rows_view(body@[j as int]@));
            assert(bv[j as int] == body_cells(table.rows@[j as int]@, *look));
            assert forall|c: int| 0 <= c < rows_view(body@[j as int]@).len() implies 3 * size(#[trigger] rows_view(body@[j as int]@)[c]) + 3 * ellipsis@.len() + 3 <= usize::MAX by {
                assert(rows_view(body@[j as int]@)[c] == body_cells(table.rows@[j as int]@, *look)[c]);
            }
        }
        let mut more = join(&body[j], &visible, &widths, &table.align, table.wrap, ellipsis.as_str());
        let ghost before = rows_view(out@);
        out.append(&mut more);
        proof {
            assert(rows_view(out@) =~= before + joined[j as int]);
            assert(joined.take(j + 1) =~= joined.take(j as int).push(joined[j as int]));
            concat_push(joined.take(j as int), joined[j as int]);
            assert(rows_view(out@) =~= head + concat(joined.take(j + 1)));
        }
        j = j + 1;
    }
    proof {
        assert(joined.take(body@.len() as int) =~= joined);
        assert("…"@ =~= seq!['…']);
        let layout = table_layout(*table, max as int, *look);
        assert(layout.0 == vis);
        assert(layout.1 == ints(widths@));
        assert(column_count(*table) != 0);
        assert(hv == header_cells(*table, *look));
        assert(bv == body_rows(*table, *look));
    }
    out
}

/// Columns of zero width add up to nothing.
proof fn zero_total(n: int)
    requires
        n >= 0,
    ensures
        total(Seq::new(n as nat, |i: int| 0int)) == 0,
    decreases n,
{
    if n > 0 {
        assert(Seq::new(n as nat, |i: int| 0int).drop_last() =~= Seq::new((n - 1) as nat, |i: int| 0int));
        zero_total(n - 1);
    }
}

/// Prefixes of a grid hold no more characters than the grid.
proof fn grid_prefix(grid: Seq<Seq<Seq<SPiece>>>, n: int)
    requires
        0 <= n <= grid.len(),
    ensures
        0 <= grid_size(grid.take(n)) <= grid_size(grid),
    decreases grid.len(),
{
    if n < grid.len() {
        assert(grid.drop_last().take(n) =~= grid.take(n));
        grid_prefix(grid.drop_last(), n);
        crate::text::rows_size_nonneg(grid.last());
    } else {
        assert(grid.take(n) =~= grid);
        grid_nonneg(grid);
    }
}

/// Grid sizes are never negative.
proof fn grid_nonneg(grid: Seq<Seq<Seq<SPiece>>>)
    ensures
        grid_size(grid) >= 0,
    decreases grid.len(),
{
    if grid.len() > 0 {
        grid_nonneg(grid.drop_last());
        crate::text::rows_size_nonneg(grid.last());
    }
}

} // verus!
