//! Cells as plain text, for commands that print and exit.
//!
//! Printing and the screen lay out the same documents, so both say the same thing; this printer
//! only swaps the terminal widget for text with optional ANSI colour codes.

use vstd::prelude::*;

use crate::doc::{Entry, Hue, Tone};
use crate::layout::{doc_fits, doc_fits_check, doc_rows, entry_rows_at, spec_doc_rows, spec_entry_rows};
use crate::markdown::{doc_view, events_doc, markdown_events, to_doc};
use crate::doc::Doc;
use crate::look::Look;
use crate::strings::{push_char, push_str};
use crate::text::{row_view, rows_view, spec_trim_end, trim_end, Row, SPiece};

verus! {

/// How printed text looks.
#[derive(Clone, Copy, Debug, PartialEq, Eq, Structural)]
pub struct Printer {
    width: usize,
    ansi: bool,
    look: Look,
}

/// The SGR colour code of a colour role, `None` for the default foreground.
pub open spec fn color_code(hue: Hue) -> Option<Seq<char>> {
    match hue {
        Hue::Body => None,
        Hue::Accent => Some(seq!['3', '6']),
        Hue::Success => Some(seq!['3', '2']),
        Hue::Failure => Some(seq!['3', '1']),
        Hue::Caution => Some(seq!['3', '3']),
        Hue::Shelf => Some(seq!['3', '5']),
        Hue::Secondary => Some(seq!['9', '0']),
    }
}

/// The SGR parameters a tone needs, in order: bold, italic, underline, then the colour when the
/// look has colour.
pub open spec fn sgr_codes(tone: Tone, color: bool) -> Seq<Seq<char>> {
    let attributes = (if tone.bold { seq![seq!['1']] } else { Seq::empty() })
        + (if tone.italic { seq![seq!['3']] } else { Seq::empty() })
        + (if tone.underline { seq![seq!['4']] } else { Seq::empty() });
    match color_code(tone.hue) {
        Some(code) if color => attributes.push(code),
        _ => attributes,
    }
}

/// Texts joined with `;` between them.
pub open spec fn joined_codes(codes: Seq<Seq<char>>) -> Seq<char>
    decreases codes.len(),
{
    if codes.len() == 0 {
        Seq::empty()
    } else if codes.len() == 1 {
        codes[0]
    } else {
        joined_codes(codes.drop_last()).push(';') + codes.last()
    }
}

/// The SGR parameters for a tone, or `None` when nothing needs setting or codes are off.
pub open spec fn spec_sgr(ansi: bool, color: bool, tone: Tone) -> Option<Seq<char>> {
    if !ansi || sgr_codes(tone, color).len() == 0 {
        None
    } else {
        Some(joined_codes(sgr_codes(tone, color)))
    }
}

/// A piece as printed: wrapped in an SGR sequence and a reset when its tone needs one.
pub open spec fn piece_text(ansi: bool, color: bool, piece: SPiece) -> Seq<char> {
    match spec_sgr(ansi, color, piece.1) {
        Some(codes) => seq!['\x1b', '['] + codes + seq!['m'] + piece.0 + seq!['\x1b', '[', '0', 'm'],
        None => piece.0,
    }
}

/// The pieces of a row as printed, one after another.
pub open spec fn pieces_text(ansi: bool, color: bool, row: Seq<SPiece>) -> Seq<char>
    decreases row.len(),
{
    if row.len() == 0 {
        Seq::empty()
    } else {
        pieces_text(ansi, color, row.drop_last()) + piece_text(ansi, color, row.last())
    }
}

/// Rows as printed: each without trailing spaces and ending with a newline.
pub open spec fn spec_print(ansi: bool, color: bool, rows: Seq<Seq<SPiece>>) -> Seq<char>
    decreases rows.len(),
{
    if rows.len() == 0 {
        Seq::empty()
    } else {
        spec_print(ansi, color, rows.drop_last()) + pieces_text(ansi, color, spec_trim_end(rows.last())).push('\n')
    }
}

/// Rows as printed; a document with no rows still prints one empty line, so printed text always
/// ends with a newline.
pub open spec fn spec_printed(ansi: bool, color: bool, rows: Seq<Seq<SPiece>>) -> Seq<char> {
    if rows.len() == 0 {
        seq!['\n']
    } else {
        spec_print(ansi, color, rows)
    }
}

/// Printed text is never empty and ends with a newline.
pub proof fn printed_ends_with_a_newline(ansi: bool, color: bool, rows: Seq<Seq<SPiece>>)
    ensures
        spec_printed(ansi, color, rows).len() > 0,
        spec_printed(ansi, color, rows).last() == '\n',
{
}

impl View for Printer {
    type V = (usize, bool, Look);

    closed spec fn view(&self) -> (usize, bool, Look) {
        (self.width, self.ansi, self.look)
    }
}

impl Printer {
    /// A printer with a fixed width, with colour codes or without.
    pub fn new(width: usize, ansi: bool, look: Look) -> (printer: Printer)
        ensures
            printer@ == (width, ansi, look),
    {
        Printer { width, ansi, look }
    }

    /// A printer for standard output: when it is a `terminal`, as wide as its `columns` (100
    /// when they cannot be read) and coloured when the look has colour; for a pipe or a file,
    /// unwrapped, uncoloured text.
    pub fn stdout(look: Look, terminal: bool, columns: Option<usize>) -> (printer: Printer)
        ensures
            printer@ == (
                if terminal {
                    match columns {
                        Some(c) => c,
                        None => 100usize,
                    }
                } else {
                    (usize::MAX / 4) as usize
                },
                terminal && look.color,
                look,
            ),
    {
        let width = if terminal {
            match columns {
                Some(c) => c,
                None => 100,
            }
        } else {
            usize::MAX / 4
        };
        Printer { width, ansi: terminal && look.color, look }
    }

    /// A cell as text, ending with a newline.
    pub fn entry(&self, entry: &Entry) -> (out: String)
        requires
            doc_fits(entry.doc.blocks@),
        ensures
            out@ == spec_printed(self@.1, self@.2.color, spec_entry_rows(*entry, self@.0 as int, self@.2, 0)),
            out@.len() > 0 && out@.last() == '\n',
    {
        self.text(entry_rows_at(entry, self.width, &self.look, 0))
    }

    /// A markdown page as text, ending with a newline; `None` when the page is too large to lay
    /// out.
    pub fn page(&self, source: &str) -> (out: Option<String>)
        ensures
            match out {
                Some(text) => exists|doc: Doc|
                    #![trigger doc_view(doc)]
                    doc_view(doc) == events_doc(markdown_events(source@)) && doc_fits(doc.blocks@)
                        && text@ == spec_printed(self@.1, self@.2.color, spec_doc_rows(doc.blocks@, self@.0 as int, self@.2)),
                None => exists|doc: Doc|
                    #![trigger doc_view(doc)]
                    doc_view(doc) == events_doc(markdown_events(source@)) && !doc_fits(doc.blocks@),
            },
            out matches Some(text) ==> text@.len() > 0 && text@.last() == '\n',
    {
        let doc = to_doc(source);
        if !doc_fits_check(&doc) {
            return None;
        }
        Some(self.text(doc_rows(&doc, self.width, &self.look)))
    }

    /// Rows as text, each without trailing spaces and ending with a newline; no rows print as
    /// one empty line.
    fn text(&self, rows: Vec<Row>) -> (out: String)
        ensures
            out@ == spec_printed(self.ansi, self.look.color, rows_view(rows@)),
            out@.len() > 0 && out@.last() == '\n',
    {
        let mut out = String::new();
        if rows.len() == 0 {
            push_char(&mut out, '\n');
            proof {
                assert(out@ =~= seq!['\n']);
            }
            return out;
        }
        let mut i: usize = 0;
        while i < rows.len()
            invariant
                i <= rows@.len(),
                out@ == spec_print(self.ansi, self.look.color, rows_view(rows@).take(i as int)),
            decreases rows@.len() - i,
        {
            let mut row = crate::text::copy_row(&rows[i]);
            trim_end(&mut row);
            let ghost before = out@;
            let mut k: usize = 0;
            while k < row.len()
                invariant
                    k <= row@.len(),
                    out@ == before + pieces_text(self.ansi, self.look.color, row_view(row@).take(k as int)),
                decreases row@.len() - k,
            {
                proof {
                    assert(row_view(row@).take(k + 1).drop_last() =~= row_view(row@).take(k as int));
                    reveal_strlit("\x1b[");
                    reveal_strlit("m");
                    reveal_strlit("\x1b[0m");
                }
                let ghost mid = out@;
                match self.sgr(row[k].1) {
                    Some(codes) => {
                        push_str(&mut out, "\x1b[");
                        push_str(&mut out, codes.as_str());
                        push_str(&mut out, "m");
                        push_str(&mut out, row[k].0.as_str());
                        push_str(&mut out, "\x1b[0m");
                    },
                    None => push_str(&mut out, row[k].0.as_str()),
                }
                proof {
                    assert(out@ =~= mid + piece_text(self.ansi, self.look.color, row_view(row@)[k as int]));
                }
                k = k + 1;
            }
            push_char(&mut out, '\n');
            proof {
                assert(row_view(row@).take(row@.len() as int) =~= row_view(row@));
                assert(rows_view(rows@).take(i + 1).drop_last() =~= rows_view(rows@).take(i as int));
            }
            i = i + 1;
        }
        proof {
            assert(rows_view(rows@).take(rows@.len() as int) =~= rows_view(rows@));
            printed_ends_with_a_newline(self.ansi, self.look.color, rows_view(rows@));
        }
        out
    }

    /// The SGR parameters for a tone, or `None` when nothing needs setting.
    fn sgr(&self, tone: Tone) -> (out: Option<String>)
        ensures
            match (out, spec_sgr(self.ansi, self.look.color, tone)) {
                (Some(s), Some(t)) => s@ == t,
                (None, None) => true,
                _ => false,
            },
    {
        if !self.ansi {
            return None;
        }
        proof {
            reveal_strlit("1");
            reveal_strlit("3");
            reveal_strlit("4");
            reveal_strlit("36");
            reveal_strlit("32");
            reveal_strlit("31");
            reveal_strlit("33");
            reveal_strlit("35");
            reveal_strlit("90");
        }
        let ghost b = if tone.bold { seq![seq!['1']] } else { Seq::<Seq<char>>::empty() };
        let ghost it = if tone.italic { seq![seq!['3']] } else { Seq::<Seq<char>>::empty() };
        let ghost u = if tone.underline { seq![seq!['4']] } else { Seq::<Seq<char>>::empty() };
        let mut codes: Vec<&str> = Vec::new();
        if tone.bold {
            codes.push("1");
        }
        assert(codes@.map_values(|c: &str| c@) =~~= b);
        if tone.italic {
            codes.push("3");
        }
        assert(codes@.map_values(|c: &str| c@) =~~= b + it);
        if tone.underline {
            codes.push("4");
        }
        assert(codes@.map_values(|c: &str| c@) =~~= b + it + u);
        let color: Option<&str> = match tone.hue {
            Hue::Body => None,
            Hue::Accent => Some("36"),
            Hue::Success => Some("32"),
            Hue::Failure => Some("31"),
            Hue::Caution => Some("33"),
            Hue::Shelf => Some("35"),
            Hue::Secondary => Some("90"),
        };
        if self.look.color {
            if let Some(code) = color {
                codes.push(code);
            }
        }
        let ghost target = sgr_codes(tone, self.look.color);
        proof {
            assert(codes@.map_values(|c: &str| c@) =~~= target);
        }
        if codes.len() == 0 {
            return None;
        }
        let mut out = String::new();
        let mut i: usize = 0;
        while i < codes.len()
            invariant
                i <= codes@.len(),
                codes@.len() > 0,
                codes@.map_values(|c: &str| c@) == target,
                i > 0 ==> out@ == joined_codes(target.take(i as int)),
                i == 0 ==> out@.len() == 0,
            decreases codes@.len() - i,
        {
            proof {
                assert(target.take(i + 1).drop_last() =~= target.take(i as int));
                assert(target[i as int] == codes@[i as int]@);
            }
            if i > 0 {
                push_char(&mut out, ';');
            }
            push_str(&mut out, codes[i]);
            proof {
                if i == 0 {
                    assert(target.take(1) =~= seq![target[0]]);
                    assert(out@ =~= joined_codes(target.take(1)));
                }
            }
            i = i + 1;
        }
        proof {
            assert(target.take(codes@.len() as int) =~= target);
        }
        Some(out)
    }
}

} // verus!
