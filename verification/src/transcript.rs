//! The list of cells above the composer, and where the reader has scrolled to.
//!
//! Following the bottom is the normal state: new cells appear and stay in view. Scrolling up stops
//! following, so reading is never yanked away; new output then only raises a flag the footer shows.

use std::time::{Duration, Instant};

use vstd::prelude::*;

use crate::activity::CellRef;
use crate::doc::{Doc, Entry, Kind};
use crate::doc::Block;
use crate::layout::{doc_fits, doc_fits_check, entry_rows_at, spec_cell_rows};
use crate::look::{millis_of, Look};
use crate::text::{rows_view, Row, SPiece};

verus! {

/// `std::time::Instant`, when a cell started.
#[verifier::external_type_specification]
#[verifier::external_body]
pub struct ExInstant(Instant);

/// `Instant::now`: the time now, which nothing here states anything of.
#[verifier::external_body]
fn now() -> Instant {
    Instant::now()
}

/// `Instant::duration_since`: how long after `start` the moment `now` is; nothing is stated of it.
#[verifier::external_body]
fn since(now: Instant, start: Instant) -> Duration {
    now.duration_since(start)
}

/// One cell: the activity cell it stands for, if any, its entry and when it started.
struct Cell {
    origin: Option<CellRef>,
    entry: Entry,
    started: Instant,
}

/// What a transcript holds: its cells, the first visible row while scrolled up, whether output
/// arrived out of view, and the rows and height of the last window drawn.
pub struct TranscriptView {
    /// Each cell's origin, kind and blocks.
    pub cells: Seq<(Option<CellRef>, Kind, Seq<Block>)>,
    /// The first visible row while scrolled up; `None` while following the bottom.
    pub top: Option<int>,
    /// Whether output arrived while scrolled up.
    pub unseen: bool,
    /// Rows the last window laid out.
    pub total: int,
    /// The last height drawn.
    pub height: int,
}

/// Cells and scroll position.
pub struct Transcript {
    cells: Vec<Cell>,
    top: Option<usize>,
    unseen: bool,
    total: usize,
    height: usize,
}

/// Whether every cell's document is small enough to lay out.
pub open spec fn cells_fit(cells: Seq<(Option<CellRef>, Kind, Seq<Block>)>) -> bool {
    forall|i: int| 0 <= i < cells.len() ==> doc_fits((#[trigger] cells[i]).2)
}

/// The transcript after new output: scrolled up, it now has output out of view.
pub open spec fn after_change(t: TranscriptView) -> TranscriptView {
    if t.top is Some {
        TranscriptView { unseen: true, ..t }
    } else {
        t
    }
}

/// The transcript following the bottom again.
pub open spec fn following(t: TranscriptView) -> TranscriptView {
    TranscriptView { top: None, unseen: false, ..t }
}

/// The transcript after scrolling up by `rows`: from the bottom when following, never above the
/// first row, and unchanged when everything fits.
pub open spec fn scrolled_up(t: TranscriptView, rows: int) -> TranscriptView {
    let bottom = if t.total > t.height { t.total - t.height } else { 0 };
    let top = match t.top {
        Some(top) => top,
        None => bottom,
    };
    if bottom > 0 {
        TranscriptView { top: Some(if top > rows { top - rows } else { 0 }), ..t }
    } else {
        t
    }
}

/// The transcript after scrolling down by `rows`: reaching the bottom follows it again.
pub open spec fn scrolled_down(t: TranscriptView, rows: int) -> TranscriptView {
    match t.top {
        None => t,
        Some(top) => if top + rows + t.height >= t.total {
            following(t)
        } else {
            TranscriptView { top: Some(top + rows), ..t }
        },
    }
}

/// The transcript after the first cell `origin` opened is replaced by `entry`; a cell cleared
/// away in the meantime is simply gone.
pub open spec fn replaced(t: TranscriptView, origin: CellRef, entry: Entry) -> TranscriptView {
    match cell_of(t.cells, origin) {
        Some(i) => after_change(TranscriptView { cells: t.cells.update(i, (Some(origin), entry.kind, entry.doc.blocks@)), ..t }),
        None => t,
    }
}

/// The transcript after `beat` is added to the end of the first cell `origin` opened.
pub open spec fn appended(t: TranscriptView, origin: CellRef, beat: Doc) -> TranscriptView {
    match cell_of(t.cells, origin) {
        Some(i) => after_change(TranscriptView { cells: t.cells.update(i, (Some(origin), t.cells[i].1, t.cells[i].2 + beat.blocks@)), ..t }),
        None => t,
    }
}

/// The transcript after `entry` is added at the bottom as a cell of `origin`.
pub open spec fn pushed(t: TranscriptView, origin: Option<CellRef>, entry: Entry) -> TranscriptView {
    after_change(TranscriptView { cells: t.cells.push((origin, entry.kind, entry.doc.blocks@)), ..t })
}

/// The first cell that `origin` opened.
pub open spec fn cell_of(cells: Seq<(Option<CellRef>, Kind, Seq<Block>)>, origin: CellRef) -> Option<int>
    decreases cells.len(),
{
    if cells.len() == 0 {
        None
    } else {
        match cell_of(cells.drop_last(), origin) {
            Some(i) => Some(i),
            None => if cells.last().0 == Some(origin) {
                Some(cells.len() - 1)
            } else {
                None
            },
        }
    }
}

/// Every cell's rows after `ages[i]` milliseconds of running, one empty row between cells.
pub open spec fn stacked(cells: Seq<(Option<CellRef>, Kind, Seq<Block>)>, ages: Seq<u128>, width: int, look: Look) -> Seq<Seq<SPiece>>
    decreases cells.len(),
{
    if cells.len() == 0 {
        Seq::empty()
    } else {
        let before = stacked(cells.drop_last(), ages, width, look);
        let gap = if cells.len() > 1 {
            seq![Seq::empty()]
        } else {
            Seq::empty()
        };
        before + gap + spec_cell_rows(cells.last().1, cells.last().2, width, look, ages[cells.len() - 1] as int)
    }
}

/// The first visible row: the top while scrolled up above the bottom, otherwise the bottom.
pub open spec fn window_top(top: Option<int>, total: int, height: int) -> int {
    let bottom = if total > height { total - height } else { 0 };
    match top {
        Some(t) => if t < bottom { t } else { bottom },
        None => bottom,
    }
}

/// The rows from `top`, at most `height` of them.
pub open spec fn visible(rows: Seq<Seq<SPiece>>, top: int, height: int) -> Seq<Seq<SPiece>> {
    let end = if top + height < rows.len() { top + height } else { rows.len() as int };
    if top < end {
        rows.subrange(top, end)
    } else {
        Seq::empty()
    }
}

impl View for Transcript {
    type V = TranscriptView;

    closed spec fn view(&self) -> TranscriptView {
        TranscriptView {
            cells: self.cells@.map_values(|c: Cell| (c.origin, c.entry.kind, c.entry.doc.blocks@)),
            top: match self.top {
                Some(t) => Some(t as int),
                None => None,
            },
            unseen: self.unseen,
            total: self.total as int,
            height: self.height as int,
        }
    }
}

impl Transcript {
    /// An empty transcript, following the bottom.
    pub fn new() -> (t: Transcript)
        ensures
            t@ == (TranscriptView { cells: Seq::empty(), top: None, unseen: false, total: 0, height: 0 }),
    {
        let t = Transcript { cells: Vec::new(), top: None, unseen: false, total: 0, height: 0 };
        proof {
            assert(t@.cells =~= Seq::<(Option<CellRef>, Kind, Seq<Block>)>::empty());
        }
        t
    }

    /// Adds a cell at the bottom.
    pub fn push(&mut self, entry: Entry)
        ensures
            final(self)@ == after_change(TranscriptView { cells: old(self)@.cells.push((None, entry.kind, entry.doc.blocks@)), ..old(self)@ }),
    {
        self.add(None, entry);
    }

    /// Adds an activity's cell at the bottom.
    pub fn push_from(&mut self, origin: CellRef, entry: Entry)
        ensures
            final(self)@ == after_change(TranscriptView { cells: old(self)@.cells.push((Some(origin), entry.kind, entry.doc.blocks@)), ..old(self)@ }),
    {
        self.add(Some(origin), entry);
    }

    fn add(&mut self, origin: Option<CellRef>, entry: Entry)
        ensures
            final(self)@ == after_change(TranscriptView { cells: old(self)@.cells.push((origin, entry.kind, entry.doc.blocks@)), ..old(self)@ }),
    {
        let ghost before = self@.cells;
        self.cells.push(Cell { origin, entry, started: now() });
        proof {
            assert(self@.cells =~= before.push((origin, entry.kind, entry.doc.blocks@)));
        }
        self.changed();
    }

    /// Where the first cell `origin` opened is.
    fn find(&self, origin: CellRef) -> (found: Option<usize>)
        ensures
            match found {
                Some(i) => cell_of(self@.cells, origin) == Some(i as int),
                None => cell_of(self@.cells, origin) is None,
            },
    {
        let ghost cv = self@.cells;
        let mut i: usize = 0;
        while i < self.cells.len()
            invariant
                i <= self.cells@.len(),
                cv == self@.cells,
                cell_of(cv.take(i as int), origin) is None,
            decreases self.cells@.len() - i,
        {
            proof {
                assert(cv.take(i + 1).drop_last() =~= cv.take(i as int));
                assert(cv[i as int].0 == self.cells@[i as int].origin);
            }
            let same = match self.cells[i].origin {
                Some(o) => o == origin,
                None => false,
            };
            if same {
                proof {
                    cell_of_prefix(cv, origin, i + 1);
                }
                return Some(i);
            }
            i = i + 1;
        }
        proof {
            assert(cv.take(cv.len() as int) =~= cv);
        }
        None
    }

    /// Replaces an activity's cell; a cell cleared away in the meantime is simply gone.
    pub fn replace(&mut self, origin: CellRef, entry: Entry)
        ensures
            final(self)@ == replaced(old(self)@, origin, entry),
    {
        let i = match self.find(origin) {
            Some(i) => i,
            None => return,
        };
        let ghost before = self@.cells;
        proof {
            cell_of_found(before, origin);
        }
        let mut cell = Cell { origin: Some(origin), entry, started: now() };
        std::mem::swap(&mut cell, &mut self.cells.as_mut_slice()[i]);
        let restart = self.cells[i].entry.kind == Kind::Running && cell.entry.kind != Kind::Running;
        if !restart {
            let started = cell.started;
            self.cells.as_mut_slice()[i].started = started;
        }
        proof {
            assert(self@.cells =~= before.update(i as int, (Some(origin), entry.kind, entry.doc.blocks@)));
        }
        self.changed();
    }

    /// Adds a story beat to the end of an activity's cell.
    pub fn append(&mut self, origin: CellRef, beat: Doc)
        ensures
            final(self)@ == appended(old(self)@, origin, beat),
    {
        let i = match self.find(origin) {
            Some(i) => i,
            None => return,
        };
        let ghost before = self@.cells;
        proof {
            cell_of_found(before, origin);
        }
        let mut cell = Cell { origin: None, entry: Entry { kind: Kind::Result, doc: Doc { blocks: Vec::new() } }, started: now() };
        std::mem::swap(&mut cell, &mut self.cells.as_mut_slice()[i]);
        cell.entry.doc.append(beat);
        std::mem::swap(&mut cell, &mut self.cells.as_mut_slice()[i]);
        proof {
            assert(self@.cells =~= before.update(i as int, (Some(origin), before[i as int].1, before[i as int].2 + beat.blocks@)));
        }
        self.changed();
    }

    /// Empties the transcript and follows the bottom.
    pub fn clear(&mut self)
        ensures
            final(self)@ == following(TranscriptView { cells: Seq::empty(), ..old(self)@ }),
    {
        self.cells = Vec::new();
        proof {
            assert(self@.cells =~= Seq::<(Option<CellRef>, Kind, Seq<Block>)>::empty());
        }
        self.follow();
    }

    fn changed(&mut self)
        ensures
            final(self)@ == after_change(old(self)@),
    {
        if self.top.is_some() {
            self.unseen = true;
        }
    }

    /// The cells' entries, oldest first, each as it stands now.
    pub fn into_entries(self) -> (entries: Vec<Entry>)
        ensures
            entries@.len() == self@.cells.len(),
            forall|i: int| 0 <= i < entries@.len() ==> (#[trigger] entries@[i]).kind == self@.cells[i].1
                && entries@[i].doc.blocks@ == self@.cells[i].2,
    {
        let ghost cells = self@.cells;
        let mut rest = self.cells;
        let mut reversed: Vec<Entry> = Vec::new();
        while rest.len() > 0
            invariant
                rest@.len() + reversed@.len() == cells.len(),
                forall|i: int| 0 <= i < rest@.len() ==> (#[trigger] rest@[i]).entry.kind == cells[i].1
                    && rest@[i].entry.doc.blocks@ == cells[i].2,
                forall|j: int| 0 <= j < reversed@.len() ==> (#[trigger] reversed@[j]).kind == cells[cells.len() - 1 - j].1
                    && reversed@[j].doc.blocks@ == cells[cells.len() - 1 - j].2,
            decreases rest@.len(),
        {
            let cell = rest.pop().unwrap();
            reversed.push(cell.entry);
        }
        let mut entries: Vec<Entry> = Vec::new();
        while reversed.len() > 0
            invariant
                entries@.len() + reversed@.len() == cells.len(),
                forall|j: int| 0 <= j < reversed@.len() ==> (#[trigger] reversed@[j]).kind == cells[cells.len() - 1 - j].1
                    && reversed@[j].doc.blocks@ == cells[cells.len() - 1 - j].2,
                forall|i: int| 0 <= i < entries@.len() ==> (#[trigger] entries@[i]).kind == cells[i].1
                    && entries@[i].doc.blocks@ == cells[i].2,
            decreases reversed@.len(),
        {
            let entry = reversed.pop().unwrap();
            entries.push(entry);
        }
        entries
    }

    /// Whether every cell is small enough to lay out.
    pub fn fits(&self) -> (fits: bool)
        ensures
            fits == cells_fit(self@.cells),
    {
        let mut i: usize = 0;
        while i < self.cells.len()
            invariant
                i <= self.cells@.len(),
                forall|j: int| 0 <= j < i ==> doc_fits((#[trigger] self@.cells[j]).2),
            decreases self.cells@.len() - i,
        {
            if !doc_fits_check(&self.cells[i].entry.doc) {
                proof {
                    assert(self@.cells[i as int].2 == self.cells@[i as int].entry.doc.blocks@);
                }
                return false;
            }
            i = i + 1;
        }
        true
    }

    /// Follows the bottom again.
    pub fn follow(&mut self)
        ensures
            final(self)@ == following(old(self)@),
    {
        self.top = None;
        self.unseen = false;
    }

    /// Whether output arrived while scrolled up.
    pub fn unseen(&self) -> (unseen: bool)
        ensures
            unseen == self@.unseen,
    {
        self.unseen
    }

    /// Whether any cell shows a spinner, so the screen keeps animating.
    pub fn animating(&self) -> (running: bool)
        ensures
            running == exists|i: int| 0 <= i < self@.cells.len() && (#[trigger] self@.cells[i]).1 == Kind::Running,
    {
        let mut i: usize = 0;
        while i < self.cells.len()
            invariant
                i <= self.cells@.len(),
                forall|j: int| 0 <= j < i ==> (#[trigger] self@.cells[j]).1 != Kind::Running,
            decreases self.cells@.len() - i,
        {
            proof {
                assert(self@.cells[i as int].1 == self.cells@[i as int].entry.kind);
            }
            if self.cells[i].entry.kind == Kind::Running {
                return true;
            }
            i = i + 1;
        }
        false
    }

    /// The last height drawn, for page-sized scrolling.
    pub fn height(&self) -> (height: usize)
        ensures
            height == self@.height,
    {
        self.height
    }

    /// Scrolls up by `rows`, starting from the bottom when following; nothing to scroll when
    /// everything fits.
    pub fn scroll_up(&mut self, rows: usize)
        ensures
            final(self)@ == scrolled_up(old(self)@, rows as int),
    {
        let bottom = if self.total > self.height {
            self.total - self.height
        } else {
            0
        };
        let top = match self.top {
            Some(top) => top,
            None => bottom,
        };
        if bottom > 0 {
            self.top = Some(if top > rows { top - rows } else { 0 });
        }
    }

    /// Scrolls down by `rows`; reaching the bottom follows it again.
    pub fn scroll_down(&mut self, rows: usize)
        ensures
            final(self)@ == scrolled_down(old(self)@, rows as int),
    {
        let top = match self.top {
            Some(top) => top,
            None => return,
        };
        if top > usize::MAX - rows || top + rows > usize::MAX - self.height || top + rows + self.height >= self.total {
            self.follow();
        } else {
            self.top = Some(top + rows);
        }
    }

    /// The rows visible in a window of `width` × `height`, each cell drawn as it looks after the
    /// milliseconds in `ages` it has run, with one blank row between cells.
    pub fn window_at(&mut self, width: usize, height: usize, look: &Look, ages: &Vec<u128>) -> (out: Vec<Row>)
        requires
            ages@.len() == old(self)@.cells.len(),
            cells_fit(old(self)@.cells),
        ensures
            ({
                let t = old(self)@;
                let all = stacked(t.cells, ages@, width as int, *look);
                let top = window_top(t.top, all.len() as int, height as int);
                let bottom = if all.len() > height { all.len() - height } else { 0 };
                &&& rows_view(out@) == visible(all, top, height as int)
                &&& final(self)@.cells == t.cells
                &&& final(self)@.total == all.len()
                &&& final(self)@.height == height
                &&& (match t.top {
                    Some(tp) => if tp < bottom {
                        final(self)@.top == t.top && final(self)@.unseen == t.unseen
                    } else {
                        final(self)@.top is None && !final(self)@.unseen
                    },
                    None => final(self)@.top is None && final(self)@.unseen == t.unseen,
                })
            }),
    {
        let ghost cv = self@.cells;
        let mut rows: Vec<Row> = Vec::new();
        let mut i: usize = 0;
        while i < self.cells.len()
            invariant
                i <= self.cells@.len(),
                cv == self@.cells,
                ages@.len() == cv.len(),
                cells_fit(cv),
                rows_view(rows@) == stacked(cv.take(i as int), ages@, width as int, *look),
            decreases self.cells@.len() - i,
        {
            let ghost before = rows_view(rows@);
            proof {
                assert(cv.take(i + 1).drop_last() =~= cv.take(i as int));
                assert(cv[i as int].2 == self.cells@[i as int].entry.doc.blocks@);
                assert(doc_fits(cv[i as int].2));
            }
            if i > 0 {
                rows.push(Vec::new());
            }
            let mut more = entry_rows_at(&self.cells[i].entry, width, look, ages[i]);
            rows.append(&mut more);
            proof {
                let gap = if i + 1 > 1 { seq![Seq::<SPiece>::empty()] } else { Seq::<Seq<SPiece>>::empty() };
                assert(rows_view(rows@) =~~= before + gap + spec_cell_rows(cv[i as int].1, cv[i as int].2, width as int, *look, ages@[i as int] as int));
            }
            i = i + 1;
        }
        proof {
            assert(cv.take(cv.len() as int) =~= cv);
        }
        self.total = rows.len();
        self.height = height;
        let bottom = if self.total > height {
            self.total - height
        } else {
            0
        };
        let top = match self.top {
            Some(top) => if top < bottom {
                top
            } else {
                self.follow();
                bottom
            },
            None => bottom,
        };
        let end = if height < rows.len() - top {
            top + height
        } else {
            rows.len()
        };
        let mut out: Vec<Row> = Vec::new();
        let mut k = top;
        while k < end
            invariant
                top <= k <= end,
                end <= rows@.len(),
                rows_view(out@) == rows_view(rows@).subrange(top as int, k as int),
            decreases end - k,
        {
            let row = crate::text::copy_row(&rows[k]);
            let ghost before = rows_view(out@);
            out.push(row);
            proof {
                assert(rows_view(out@) =~= before.push(rows_view(rows@)[k as int]));
                assert(rows_view(rows@).subrange(top as int, k + 1) =~= rows_view(rows@).subrange(top as int, k as int).push(rows_view(rows@)[k as int]));
            }
            k = k + 1;
        }
        proof {
            if !(top < end) {
                assert(rows_view(out@) =~= Seq::<Seq<SPiece>>::empty());
            }
        }
        out
    }

    /// The rows visible in a window of `width` × `height`, with one blank row between cells; each
    /// cell is drawn as it looks after running from when it started until now.
    pub fn window(&mut self, width: usize, height: usize, look: &Look) -> (out: Vec<Row>)
        requires
            cells_fit(old(self)@.cells),
        ensures
            final(self)@.cells == old(self)@.cells,
            final(self)@.height == height,
            exists|ages: Seq<u128>|
                #![trigger stacked(old(self)@.cells, ages, width as int, *look)]
                ages.len() == old(self)@.cells.len() && rows_view(out@) == visible(
                    stacked(old(self)@.cells, ages, width as int, *look),
                    window_top(old(self)@.top, stacked(old(self)@.cells, ages, width as int, *look).len() as int, height as int),
                    height as int,
                ),
    {
        let moment = now();
        let mut ages: Vec<u128> = Vec::new();
        let mut i: usize = 0;
        while i < self.cells.len()
            invariant
                i <= self.cells@.len(),
                ages@.len() == i,
            decreases self.cells@.len() - i,
        {
            ages.push(millis_of(since(moment, self.cells[i].started)));
            i = i + 1;
        }
        let out = self.window_at(width, height, look, &ages);
        out
    }
}

/// Finding stops at the first cell of `origin`.
proof fn cell_of_prefix(cells: Seq<(Option<CellRef>, Kind, Seq<Block>)>, origin: CellRef, k: int)
    requires
        0 < k <= cells.len(),
        cell_of(cells.take(k - 1), origin) is None,
        cells[k - 1].0 == Some(origin),
    ensures
        cell_of(cells, origin) == Some(k - 1),
    decreases cells.len() - k,
{
    assert(cells.take(k).drop_last() =~= cells.take(k - 1));
    if k < cells.len() {
        assert(cells.drop_last().take(k - 1) =~= cells.take(k - 1));
        cell_of_prefix(cells.drop_last(), origin, k);
    } else {
        assert(cells.take(k) =~= cells);
    }
}

/// What finding finds is a cell of `origin`, inside the list.
proof fn cell_of_found(cells: Seq<(Option<CellRef>, Kind, Seq<Block>)>, origin: CellRef)
    ensures
        cell_of(cells, origin) matches Some(i) ==> 0 <= i < cells.len() && cells[i].0 == Some(origin),
    decreases cells.len(),
{
    if cells.len() > 0 {
        cell_of_found(cells.drop_last(), origin);
    }
}

/// Scrolling down while scrolled up moves the first visible row down by the rows asked for and
/// stays scrolled up, with the cells, the mark of unseen output and the last layout kept, until
/// the bottom is reached; reaching it follows the bottom again and clears the mark.
pub proof fn scroll_down_moves_until_the_bottom(t: TranscriptView, rows: int)
    requires
        t.top is Some,
        0 <= rows,
    ensures
        t.top->0 + rows + t.height < t.total ==> {
            &&& scrolled_down(t, rows).top == Some(t.top->0 + rows)
            &&& scrolled_down(t, rows).unseen == t.unseen
            &&& scrolled_down(t, rows).cells == t.cells
            &&& scrolled_down(t, rows).total == t.total
            &&& scrolled_down(t, rows).height == t.height
        },
        t.top->0 + rows + t.height >= t.total ==> {
            &&& scrolled_down(t, rows).top is None
            &&& !scrolled_down(t, rows).unseen
            &&& scrolled_down(t, rows).cells == t.cells
        },
{
}

/// Scrolling up by some rows from where the reader is, and then down by as many, comes back to
/// the same first row, when the scroll up stopped neither at the first row nor at the bottom.
pub proof fn scroll_up_then_down_returns(t: TranscriptView, rows: int)
    requires
        t.top matches Some(top) && rows <= top && top + t.height < t.total,
        0 < rows,
    ensures
        scrolled_down(scrolled_up(t, rows), rows) == t,
{
}

/// Laying cells out reads only the ages of those cells.
proof fn stacked_reads_own_ages(cells: Seq<(Option<CellRef>, Kind, Seq<Block>)>, ages: Seq<u128>, age: u128, width: int, look: Look)
    requires
        cells.len() <= ages.len(),
    ensures
        stacked(cells, ages.push(age), width, look) == stacked(cells, ages, width, look),
    decreases cells.len(),
{
    if cells.len() > 0 {
        stacked_reads_own_ages(cells.drop_last(), ages, age, width, look);
        assert(ages.push(age)[cells.len() - 1] == ages[cells.len() - 1]);
    }
}

/// Output that arrives while the reader has scrolled up does not move them: the transcript
/// stays scrolled where it was and marks the output as unseen, the rows laid out before are
/// kept as they were, and the next window shows the same rows as the last one. `Transcript::push`
/// leaves the transcript as [`pushed`] says, and `Transcript::window_at` shows [`visible`] rows
/// from [`window_top`], so this is what those two calls do.
pub proof fn push_while_scrolled_keeps_the_window(
    t: TranscriptView,
    origin: Option<CellRef>,
    entry: Entry,
    ages: Seq<u128>,
    age: u128,
    width: int,
    look: Look,
    height: int,
)
    requires
        ages.len() == t.cells.len(),
        0 <= height,
        t.top matches Some(top) && 0 <= top && top + height < stacked(t.cells, ages, width, look).len(),
    ensures
        ({
            let after = pushed(t, origin, entry);
            let rows_before = stacked(t.cells, ages, width, look);
            let rows_after = stacked(after.cells, ages.push(age), width, look);
            &&& after.top == t.top
            &&& after.unseen
            &&& rows_after.take(rows_before.len() as int) == rows_before
            &&& window_top(after.top, rows_after.len() as int, height) == window_top(t.top, rows_before.len() as int, height)
            &&& visible(rows_after, window_top(after.top, rows_after.len() as int, height), height)
                == visible(rows_before, window_top(t.top, rows_before.len() as int, height), height)
        }),
{
    let after = pushed(t, origin, entry);
    let rows_before = stacked(t.cells, ages, width, look);
    let rows_after = stacked(after.cells, ages.push(age), width, look);
    assert(after.cells.drop_last() =~= t.cells);
    stacked_reads_own_ages(t.cells, ages, age, width, look);
    assert(rows_after.take(rows_before.len() as int) =~= rows_before);
    let top = t.top->0;
    assert(rows_after.subrange(top, top + height) =~= rows_before.subrange(top, top + height));
}

/// Following the bottom again clears the mark of unseen output and leaves the cells as they
/// are; the next window then shows the last rows. `Transcript::follow` leaves the transcript as
/// [`following`] says.
pub proof fn follow_shows_the_bottom(t: TranscriptView, rows: Seq<Seq<SPiece>>, height: int)
    requires
        0 <= height,
    ensures
        following(t).top is None,
        !following(t).unseen,
        following(t).cells == t.cells,
        visible(rows, window_top(following(t).top, rows.len() as int, height), height)
            == rows.subrange(if rows.len() > height { rows.len() - height } else { 0 }, rows.len() as int),
{
}

} // verus!
