//! What a cell or a page says, before anyone decides how wide the screen is.
//!
//! Views build a [`Doc`] out of styled spans, tree lines and tables; the terminal screen and the
//! plain-text printer both lay the same `Doc` out at their own width.

use vstd::prelude::*;

use crate::strings::{chars_of, spaces, spaces_string, string_of};
use crate::width::{str_columns, str_width};

verus! {

/// A colour role. The look turns it into one of the 16 named ANSI colours, or into no colour.
#[derive(Clone, Copy, Debug, Default, PartialEq, Eq, Hash, Structural)]
pub enum Hue {
    /// The terminal's own foreground.
    #[default]
    Body,
    /// Cyan: the prompt glyph, selection and links.
    Accent,
    /// Green: something held or verified.
    Success,
    /// Red: something failed or was broken.
    Failure,
    /// Yellow: not zero-knowledge, teaching implementation, trusted component.
    Caution,
    /// Magenta: shelf names.
    Shelf,
    /// Dark gray: secondary information.
    Secondary,
}

/// Colour role plus the few text attributes a terminal reliably draws.
#[derive(Clone, Copy, Debug, PartialEq, Eq, Hash, Structural)]
pub struct Tone {
    /// Colour role.
    pub hue: Hue,
    /// Bold weight.
    pub bold: bool,
    /// Italic.
    pub italic: bool,
    /// Underline.
    pub underline: bool,
}

/// The default foreground with no attributes.
pub open spec fn body_tone() -> Tone {
    Tone { hue: Hue::Body, bold: false, italic: false, underline: false }
}

impl Default for Tone {
    /// The body tone: default foreground, no attributes.
    fn default() -> (tone: Tone)
        ensures
            tone == body_tone(),
    {
        Tone { hue: Hue::Body, bold: false, italic: false, underline: false }
    }
}

impl Tone {
    /// Default foreground, no attributes.
    pub fn body() -> (tone: Tone)
        ensures
            tone == body_tone(),
    {
        Tone { hue: Hue::Body, bold: false, italic: false, underline: false }
    }

    /// A plain tone of one colour role.
    pub fn of(hue: Hue) -> (tone: Tone)
        ensures
            tone == (Tone { hue, ..body_tone() }),
    {
        Tone { hue, bold: false, italic: false, underline: false }
    }

    /// The same tone in bold.
    pub fn bold(self) -> (tone: Tone)
        ensures
            tone == (Tone { bold: true, ..self }),
    {
        Tone { bold: true, ..self }
    }

    /// The same tone in italics.
    pub fn italic(self) -> (tone: Tone)
        ensures
            tone == (Tone { italic: true, ..self }),
    {
        Tone { italic: true, ..self }
    }

    /// The same tone underlined.
    pub fn underline(self) -> (tone: Tone)
        ensures
            tone == (Tone { underline: true, ..self }),
    {
        Tone { underline: true, ..self }
    }
}

/// A run of text in one tone.
#[derive(Clone, Debug, PartialEq, Eq)]
pub struct Span {
    /// The text; `\n` forces a new row.
    pub text: String,
    /// How it is drawn.
    pub tone: Tone,
}

impl Span {
    /// A copy of this span.
    pub fn duplicate(&self) -> (copy: Span)
        ensures
            copy == *self,
    {
        Span { text: self.text.clone(), tone: self.tone }
    }
}

/// Whether `span` holds `text` in `tone`.
pub open spec fn spans_as(span: Span, text: Seq<char>, tone: Tone) -> bool {
    span.text@ == text && span.tone == tone
}

/// A copy of a list of spans.
pub fn copy_spans(spans: &Vec<Span>) -> (copy: Vec<Span>)
    ensures
        copy@ == spans@,
{
    let mut copy: Vec<Span> = Vec::new();
    let mut i: usize = 0;
    while i < spans.len()
        invariant
            i <= spans@.len(),
            copy@ == spans@.take(i as int),
        decreases spans@.len() - i,
    {
        copy.push(spans[i].duplicate());
        i = i + 1;
        assert(copy@ =~= spans@.take(i as int));
    }
    assert(spans@.take(spans@.len() as int) =~= spans@);
    copy
}

/// A span in `tone`.
pub fn span(text: &str, tone: Tone) -> (out: Span)
    ensures
        spans_as(out, text@, tone),
{
    Span { text: string_of(chars_of(text).as_slice()), tone }
}

/// A span in the default tone.
pub fn plain(text: &str) -> (out: Span)
    ensures
        spans_as(out, text@, body_tone()),
{
    span(text, Tone::body())
}

/// How a table column lines up.
#[derive(Clone, Copy, Debug, PartialEq, Eq, Structural)]
pub enum Align {
    /// Text.
    Left,
    /// Numbers.
    Right,
}

/// A borderless table: two spaces between columns, a bold header row.
#[derive(Clone, Debug, Default, PartialEq, Eq)]
pub struct Table {
    /// Header cells; empty for a table without a header row.
    pub header: Vec<Vec<Span>>,
    /// Alignment per column; missing entries are [`Align::Left`].
    pub align: Vec<Align>,
    /// Body rows of cells.
    pub rows: Vec<Vec<Vec<Span>>>,
    /// Whether a too-wide cell wraps onto more rows (prose) or is cut with an ellipsis (data).
    pub wrap: bool,
    /// Columns that may be left out when the table is too wide, in the order they go.
    pub optional: Vec<usize>,
}

/// One vertical piece of a document.
#[derive(Clone, Debug, PartialEq, Eq)]
pub enum Block {
    /// Wrapped text. `lead` starts the first row; later rows start with `hang`, or with spaces as
    /// wide as `lead` when `hang` is `None`, so tree and list items keep their indentation.
    Text {
        /// First-row prefix.
        lead: Vec<Span>,
        /// Continuation-row prefix.
        hang: Option<Vec<Span>>,
        /// The text that wraps.
        body: Vec<Span>,
    },
    /// Rows drawn as given and cut at the edge, never wrapped: code and drawings.
    Pre(Vec<Vec<Span>>),
    /// A table.
    Table(Table),
    /// Rows inside a rounded box sized to its content.
    Boxed(Vec<Vec<Span>>),
    /// A horizontal rule across the width.
    Rule,
    /// An empty row.
    Blank,
}

/// Whether `block` is a text block with `lead`, no hang and `body`.
pub open spec fn is_led(block: Block, lead: Seq<Span>, body: Seq<Span>) -> bool {
    block matches Block::Text { lead: l, hang: h, body: b } && l@ == lead && h is None && b@ == body
}

/// A width-independent document.
#[derive(Clone, Debug, Default, PartialEq, Eq)]
pub struct Doc {
    /// Blocks from top to bottom.
    pub blocks: Vec<Block>,
}

/// The tree glyph for item `index` of `count`: `└ ` for the last, `├ ` before it.
pub open spec fn tree_glyph(index: int, count: int) -> Seq<char> {
    if index == count - 1 {
        seq!['└', ' ']
    } else {
        seq!['├', ' ']
    }
}

/// The widest label, in columns.
pub open spec fn widest_label(labels: Seq<String>) -> int
    decreases labels.len(),
{
    if labels.len() == 0 {
        0
    } else {
        let rest = widest_label(labels.drop_last());
        let last = str_columns(labels.last()@) as int;
        if last > rest {
            last
        } else {
            rest
        }
    }
}

impl Doc {
    /// An empty document.
    pub fn new() -> (doc: Doc)
        ensures
            doc.blocks@.len() == 0,
    {
        Doc { blocks: Vec::new() }
    }

    /// Adds a block.
    pub fn push(&mut self, block: Block)
        ensures
            final(self).blocks@ == old(self).blocks@.push(block),
    {
        self.blocks.push(block);
    }

    /// Adds a wrapped line of text.
    pub fn line(&mut self, body: Vec<Span>)
        ensures
            final(self).blocks@.len() == old(self).blocks@.len() + 1,
            final(self).blocks@.drop_last() == old(self).blocks@,
            is_led(final(self).blocks@.last(), Seq::empty(), body@),
    {
        self.push(Block::Text { lead: Vec::new(), hang: None, body });
        proof {
            assert(final(self).blocks@.drop_last() =~= old(self).blocks@);
        }
    }

    /// Adds a wrapped line whose continuation rows are indented under `lead`.
    pub fn led(&mut self, lead: Vec<Span>, body: Vec<Span>)
        ensures
            final(self).blocks@.len() == old(self).blocks@.len() + 1,
            final(self).blocks@.drop_last() == old(self).blocks@,
            is_led(final(self).blocks@.last(), lead@, body@),
    {
        self.push(Block::Text { lead, hang: None, body });
        proof {
            assert(final(self).blocks@.drop_last() =~= old(self).blocks@);
        }
    }

    /// Adds tree lines: `├` before every item but the last, `└` before the last.
    pub fn tree(&mut self, items: Vec<Vec<Span>>)
        ensures
            final(self).blocks@.len() == old(self).blocks@.len() + items@.len(),
            final(self).blocks@.take(old(self).blocks@.len() as int) == old(self).blocks@,
            forall|i: int|
                #![trigger final(self).blocks@[old(self).blocks@.len() + i]]
                0 <= i < items@.len() ==> {
                    let block = final(self).blocks@[old(self).blocks@.len() + i];
                    &&& block matches Block::Text { lead, hang, body }
                    &&& lead@.len() == 1
                    &&& spans_as(lead@[0], tree_glyph(i, items@.len() as int), Tone { hue: Hue::Secondary, ..body_tone() })
                    &&& hang is None
                    &&& body@ == items@[i]@
                },
    {
        let count = items.len();
        let ghost start = self.blocks@.len();
        let mut index: usize = 0;
        while index < count
            invariant
                count == items@.len(),
                index <= count,
                self.blocks@.len() == start + index,
                start == old(self).blocks@.len(),
                self.blocks@.take(start as int) == old(self).blocks@,
                forall|i: int|
                    #![trigger self.blocks@[start + i]]
                    0 <= i < index ==> {
                        let block = self.blocks@[start + i];
                        &&& block matches Block::Text { lead, hang, body }
                        &&& lead@.len() == 1
                        &&& spans_as(lead@[0], tree_glyph(i, count as int), Tone { hue: Hue::Secondary, ..body_tone() })
                        &&& hang is None
                        &&& body@ == items@[i]@
                    },
            decreases count - index,
        {
            let glyph = if index + 1 == count { "└ " } else { "├ " };
            proof {
                reveal_strlit("└ ");
                reveal_strlit("├ ");
            }
            let lead = vec![span(glyph, Tone::of(Hue::Secondary))];
            let body = copy_spans(&items[index]);
            proof {
                assert(lead@[0].text@ =~= tree_glyph(index as int, count as int));
            }
            let ghost before = self.blocks@;
            self.push(Block::Text { lead, hang: None, body });
            proof {
                assert(self.blocks@.take(start as int) =~= before.take(start as int));
                assert forall|i: int| 0 <= i < index + 1 implies {
                    let block = #[trigger] self.blocks@[start + i];
                    &&& block matches Block::Text { lead, hang, body }
                    &&& lead@.len() == 1
                    &&& spans_as(lead@[0], tree_glyph(i, count as int), Tone { hue: Hue::Secondary, ..body_tone() })
                    &&& hang is None
                    &&& body@ == items@[i]@
                } by {
                    if i < index {
                        assert(self.blocks@[start + i] == before[start + i]);
                    }
                }
            }
            index = index + 1;
        }
    }

    /// Adds tree lines of `label  value`, with labels padded to one column.
    pub fn pairs(&mut self, pairs: Vec<(String, Vec<Span>)>)
        requires
            forall|i: int| 0 <= i < pairs@.len() ==> #[trigger] pairs@[i].0@.len() <= usize::MAX / 4,
        ensures
            final(self).blocks@.len() == old(self).blocks@.len() + pairs@.len(),
            final(self).blocks@.take(old(self).blocks@.len() as int) == old(self).blocks@,
            forall|i: int|
                #![trigger final(self).blocks@[old(self).blocks@.len() + i]]
                0 <= i < pairs@.len() ==> {
                    let block = final(self).blocks@[old(self).blocks@.len() + i];
                    let (label, value) = pairs@[i];
                    let wide = widest_label(pairs@.map_values(|p: (String, Vec<Span>)| p.0));
                    &&& block matches Block::Text { lead, hang, body }
                    &&& lead@.len() == 1
                    &&& spans_as(lead@[0], tree_glyph(i, pairs@.len() as int), Tone { hue: Hue::Secondary, ..body_tone() })
                    &&& hang is None
                    &&& body@.len() == value@.len() + 1
                    &&& spans_as(body@[0], label@ + spaces((wide - str_columns(label@) + 2) as nat), body_tone())
                    &&& body@.skip(1) == value@
                },
    {
        let ghost labels = pairs@.map_values(|p: (String, Vec<Span>)| p.0);
        let mut wide: usize = 0;
        let mut i: usize = 0;
        while i < pairs.len()
            invariant
                i <= pairs@.len(),
                labels == pairs@.map_values(|p: (String, Vec<Span>)| p.0),
                wide == widest_label(labels.take(i as int)),
                wide <= usize::MAX / 4 * 3,
                forall|j: int| 0 <= j < pairs@.len() ==> #[trigger] pairs@[j].0@.len() <= usize::MAX / 4,
            decreases pairs@.len() - i,
        {
            let w = str_width(pairs[i].0.as_str());
            assert(labels.take(i + 1).drop_last() =~= labels.take(i as int));
            if w > wide {
                wide = w;
            }
            i = i + 1;
        }
        assert(labels.take(pairs@.len() as int) =~= labels);
        let mut items: Vec<Vec<Span>> = Vec::new();
        let mut k: usize = 0;
        while k < pairs.len()
            invariant
                k <= pairs@.len(),
                labels == pairs@.map_values(|p: (String, Vec<Span>)| p.0),
                wide == widest_label(labels),
                wide <= usize::MAX / 4 * 3,
                items@.len() == k,
                forall|j: int| 0 <= j < pairs@.len() ==> #[trigger] pairs@[j].0@.len() <= usize::MAX / 4,
                forall|j: int|
                    #![trigger items@[j]]
                    0 <= j < k ==> {
                        let (label, value) = pairs@[j];
                        &&& items@[j]@.len() == value@.len() + 1
                        &&& spans_as(items@[j]@[0], label@ + spaces((wide - str_columns(label@) + 2) as nat), body_tone())
                        &&& items@[j]@.skip(1) == value@
                    },
            decreases pairs@.len() - k,
        {
            let label = &pairs[k].0;
            proof {
                assert(labels[k as int] == *label);
                widest_label_bounds(labels, k as int);
            }
            let w = str_width(label.as_str());
            let pad = wide - w + 2;
            let mut text = label.clone();
            let padding = spaces_string(pad);
            crate::strings::push_str(&mut text, padding.as_str());
            let mut value = copy_spans(&pairs[k].1);
            let mut item = vec![Span { text, tone: Tone::body() }];
            item.append(&mut value);
            proof {
                assert(item@.skip(1) =~= pairs@[k as int].1@);
            }
            items.push(item);
            k = k + 1;
        }
        self.tree(items);
    }

    /// Adds an empty row.
    pub fn blank(&mut self)
        ensures
            final(self).blocks@ == old(self).blocks@.push(Block::Blank),
    {
        self.push(Block::Blank);
    }

    /// Adds every block of `other`.
    pub fn append(&mut self, other: Doc)
        ensures
            final(self).blocks@ == old(self).blocks@ + other.blocks@,
    {
        let mut other = other;
        self.blocks.append(&mut other.blocks);
    }
}

/// Every label of `labels` is at most as wide as the widest, and the widest fits three columns a
/// character.
proof fn widest_label_bounds(labels: Seq<String>, k: int)
    requires
        0 <= k < labels.len(),
    ensures
        str_columns(labels[k]@) <= widest_label(labels),
        widest_label(labels) >= 0,
    decreases labels.len(),
{
    if k < labels.len() - 1 {
        widest_label_bounds(labels.drop_last(), k);
    }
}

/// What kind of cell a document is shown in; the kind decides the head glyph.
#[derive(Clone, Copy, Debug, PartialEq, Eq, Hash, Structural)]
pub enum Kind {
    /// The start screen box; no head glyph.
    Welcome,
    /// What the user typed, after `›`.
    Command,
    /// A result, after `•`.
    Result,
    /// Work in progress, after a spinner; becomes a result when it ends.
    Running,
    /// A caution, after `⚠`.
    Warning,
    /// A failure, after `✗`.
    Error,
    /// Lines that arrive one beat at a time, after `•`.
    Story,
}

/// A document together with the kind of cell it belongs in.
#[derive(Clone, Debug, PartialEq, Eq)]
pub struct Entry {
    /// Cell kind.
    pub kind: Kind,
    /// Content.
    pub doc: Doc,
}

impl Entry {
    /// An entry of `kind` holding `doc`.
    pub fn new(kind: Kind, doc: Doc) -> (entry: Entry)
        ensures
            entry == (Entry { kind, doc }),
    {
        Entry { kind, doc }
    }

    /// A one-line entry of `kind`.
    pub fn text(kind: Kind, text: &str) -> (entry: Entry)
        ensures
            entry.kind == kind,
            entry.doc.blocks@.len() == 1,
            entry.doc.blocks@[0] matches Block::Text { lead, hang, body }
                && lead@.len() == 0 && hang is None && body@.len() == 1
                && spans_as(body@[0], text@, body_tone()),
    {
        let mut doc = Doc::new();
        doc.line(vec![plain(text)]);
        Entry { kind, doc }
    }
}

} // verus!
