//! Catalog pages from markdown into a document the pager and the plain printer can lay out.
//!
//! Only what the museum's pages use is drawn with care: headings, emphasis, lists, code, tables,
//! quotes and links. HTML is skipped rather than shown as tags. The markdown itself is read by
//! `pulldown-cmark`; this module turns what it reports into blocks.

use pulldown_cmark::{Alignment, Event, Options, Parser, Tag, TagEnd};
use vstd::prelude::*;

use crate::doc::{body_tone, Align, Block, Doc, Hue, Span, Table, Tone};
use crate::strings::{chars_of, push_char, push_str, repeated, spaces, spaces_string, string_of};
use crate::width::{str_columns, str_width};

verus! {

/// How a table column's text is aligned, as the markdown says.
#[derive(Clone, Copy, Debug, PartialEq, Eq, Structural)]
pub enum MdAlign {
    /// No alignment given.
    Unset,
    /// Left.
    Left,
    /// Centred.
    Center,
    /// Right.
    Right,
}

/// Where a markdown element starts.
#[derive(Clone, Debug, PartialEq, Eq)]
pub enum MdTag {
    /// A paragraph.
    Paragraph,
    /// A heading of level one to six.
    Heading(u8),
    /// A block quote.
    BlockQuote,
    /// A code block.
    CodeBlock,
    /// A block of HTML.
    HtmlBlock,
    /// A list, numbered from the given number or bulleted.
    List(Option<u64>),
    /// A list item.
    Item,
    /// A footnote's definition, with its label.
    FootnoteDefinition(String),
    /// A definition list.
    DefinitionList,
    /// A term of a definition list.
    DefinitionListTitle,
    /// A definition of a definition list.
    DefinitionListDefinition,
    /// A table, with each column's alignment.
    Table(Vec<MdAlign>),
    /// A table's header row.
    TableHead,
    /// A table's body row.
    TableRow,
    /// A table cell.
    TableCell,
    /// Emphasis.
    Emphasis,
    /// Strong emphasis.
    Strong,
    /// Struck-through text.
    Strikethrough,
    /// Superscript.
    Superscript,
    /// Subscript.
    Subscript,
    /// A link to the given address.
    Link(String),
    /// An image.
    Image,
    /// A metadata block.
    MetadataBlock,
}

/// Where a markdown element ends.
#[derive(Clone, Copy, Debug, PartialEq, Eq, Structural)]
pub enum MdEnd {
    /// A paragraph.
    Paragraph,
    /// A heading.
    Heading,
    /// A block quote.
    BlockQuote,
    /// A code block.
    CodeBlock,
    /// A block of HTML.
    HtmlBlock,
    /// A list.
    List,
    /// A list item.
    Item,
    /// A footnote's definition.
    FootnoteDefinition,
    /// A definition list.
    DefinitionList,
    /// A term of a definition list.
    DefinitionListTitle,
    /// A definition of a definition list.
    DefinitionListDefinition,
    /// Superscript.
    Superscript,
    /// Subscript.
    Subscript,
    /// A metadata block.
    MetadataBlock,
    /// Emphasis.
    Emphasis,
    /// Strong emphasis.
    Strong,
    /// Struck-through text.
    Strikethrough,
    /// A link.
    Link,
    /// An image.
    Image,
    /// A table cell.
    TableCell,
    /// A table's header row.
    TableHead,
    /// A table's body row.
    TableRow,
    /// A table.
    Table,
}

/// One thing the markdown parser reports.
#[derive(Clone, Debug, PartialEq, Eq)]
pub enum MdEvent {
    /// An element starts.
    Start(MdTag),
    /// An element ends.
    End(MdEnd),
    /// Text.
    Text(String),
    /// Inline code.
    Code(String),
    /// Inline math, as its source.
    InlineMath(String),
    /// Display math, as its source.
    DisplayMath(String),
    /// A line break inside a paragraph that is not a hard break.
    SoftBreak,
    /// A hard line break.
    HardBreak,
    /// A horizontal rule.
    Rule,
    /// A task list's check box, ticked or not.
    TaskListMarker(bool),
    /// A footnote reference with its label.
    FootnoteReference(String),
    /// A line of an HTML block.
    Html(String),
    /// Inline HTML.
    InlineHtml(String),
}

/// `pulldown_cmark::Event`, carried into the functions that turn it into an [`MdEvent`].
#[verifier::external_type_specification]
#[verifier::external_body]
pub struct ExEvent<'a>(Event<'a>);

/// `pulldown_cmark::Tag`, carried into the function that turns it into an [`MdTag`].
#[verifier::external_type_specification]
#[verifier::external_body]
pub struct ExTag<'a>(Tag<'a>);

/// `pulldown_cmark::TagEnd`, carried into the function that turns it into an [`MdEnd`].
#[verifier::external_type_specification]
#[verifier::external_body]
pub struct ExTagEnd(TagEnd);

/// `pulldown_cmark::Alignment`, carried into the function that turns it into an [`MdAlign`].
#[verifier::external_type_specification]
#[verifier::external_body]
pub struct ExAlignment(Alignment);

/// What `pulldown-cmark` reports for a page read with tables, strikethrough and task lists.
pub uninterp spec fn markdown_events(text: Seq<char>) -> Seq<MdEvent>;

/// `pulldown_cmark::Parser::new_ext` with tables, strikethrough and task lists on, its events
/// collected and each turned into the [`MdEvent`] that names the same thing. What the parser
/// reports for a text is not restated here; it is named [`markdown_events`].
#[verifier::external_body]
fn parse_markdown(text: &str) -> (events: Vec<MdEvent>)
    ensures
        events@ == markdown_events(text@),
{
    let options = Options::ENABLE_TABLES | Options::ENABLE_STRIKETHROUGH | Options::ENABLE_TASKLISTS;
    Parser::new_ext(text, options).map(md_event).collect()
}

/// One `pulldown_cmark::Event` as the [`MdEvent`] of the same kind, its text copied: the kinds
/// listed here directly, the others through [`md_other_event`].
#[verifier::external_body]
fn md_event(event: Event<'_>) -> MdEvent {
    match event {
        Event::Start(tag) => MdEvent::Start(md_tag(tag)),
        Event::End(end) => MdEvent::End(md_end(end)),
        Event::Text(text) => MdEvent::Text(text.to_string()),
        Event::Code(code) => MdEvent::Code(code.to_string()),
        Event::InlineMath(math) => MdEvent::InlineMath(math.to_string()),
        Event::DisplayMath(math) => MdEvent::DisplayMath(math.to_string()),
        other => md_other_event(other),
    }
}

/// The kinds of `pulldown_cmark::Event` that [`md_event`] does not list, each as the
/// [`MdEvent`] of the same kind, its text copied.
#[verifier::external_body]
fn md_other_event(event: Event<'_>) -> MdEvent {
    match event {
        Event::Html(html) => MdEvent::Html(html.to_string()),
        Event::InlineHtml(html) => MdEvent::InlineHtml(html.to_string()),
        Event::FootnoteReference(label) => MdEvent::FootnoteReference(label.to_string()),
        Event::SoftBreak => MdEvent::SoftBreak,
        Event::HardBreak => MdEvent::HardBreak,
        Event::Rule => MdEvent::Rule,
        Event::TaskListMarker(done) => MdEvent::TaskListMarker(done),
        other => md_event(other),
    }
}

/// One `pulldown_cmark::Tag` as the [`MdTag`] of the same kind: the kinds listed here directly,
/// the others through [`md_other_tag`]. Quote and code-block kinds are left behind.
#[verifier::external_body]
fn md_tag(tag: Tag<'_>) -> MdTag {
    match tag {
        Tag::Paragraph => MdTag::Paragraph,
        Tag::BlockQuote(_) => MdTag::BlockQuote,
        Tag::CodeBlock(_) => MdTag::CodeBlock,
        Tag::HtmlBlock => MdTag::HtmlBlock,
        Tag::List(start) => MdTag::List(start),
        Tag::Item => MdTag::Item,
        Tag::DefinitionList => MdTag::DefinitionList,
        Tag::DefinitionListTitle => MdTag::DefinitionListTitle,
        Tag::DefinitionListDefinition => MdTag::DefinitionListDefinition,
        Tag::TableHead => MdTag::TableHead,
        Tag::TableRow => MdTag::TableRow,
        Tag::TableCell => MdTag::TableCell,
        other => md_other_tag(other),
    }
}

/// The kinds of `pulldown_cmark::Tag` that [`md_tag`] does not list, each as the [`MdTag`] of
/// the same kind. Heading ids and classes, link types and titles and image fields are left
/// behind.
#[verifier::external_body]
fn md_other_tag(tag: Tag<'_>) -> MdTag {
    match tag {
        Tag::Heading { level, .. } => MdTag::Heading(level as u8),
        Tag::FootnoteDefinition(label) => MdTag::FootnoteDefinition(label.to_string()),
        Tag::Table(columns) => MdTag::Table(columns.into_iter().map(md_align).collect()),
        Tag::Emphasis => MdTag::Emphasis,
        Tag::Strong => MdTag::Strong,
        Tag::Strikethrough => MdTag::Strikethrough,
        Tag::Superscript => MdTag::Superscript,
        Tag::Subscript => MdTag::Subscript,
        Tag::Link { dest_url, .. } => MdTag::Link(dest_url.to_string()),
        Tag::Image { .. } => MdTag::Image,
        Tag::MetadataBlock(_) => MdTag::MetadataBlock,
        other => md_tag(other),
    }
}

/// One `pulldown_cmark::Alignment` as the [`MdAlign`] of the same name.
#[verifier::external_body]
fn md_align(align: Alignment) -> MdAlign {
    match align {
        Alignment::None => MdAlign::Unset,
        Alignment::Left => MdAlign::Left,
        Alignment::Center => MdAlign::Center,
        Alignment::Right => MdAlign::Right,
    }
}

/// One `pulldown_cmark::TagEnd` as the [`MdEnd`] of the same kind, its fields left behind: the
/// kinds listed here directly, the others through [`md_other_end`].
#[verifier::external_body]
fn md_end(end: TagEnd) -> MdEnd {
    match end {
        TagEnd::Paragraph => MdEnd::Paragraph,
        TagEnd::Heading(_) => MdEnd::Heading,
        TagEnd::BlockQuote(_) => MdEnd::BlockQuote,
        TagEnd::CodeBlock => MdEnd::CodeBlock,
        TagEnd::HtmlBlock => MdEnd::HtmlBlock,
        TagEnd::List(_) => MdEnd::List,
        TagEnd::Item => MdEnd::Item,
        TagEnd::FootnoteDefinition => MdEnd::FootnoteDefinition,
        TagEnd::DefinitionList => MdEnd::DefinitionList,
        TagEnd::DefinitionListTitle => MdEnd::DefinitionListTitle,
        TagEnd::DefinitionListDefinition => MdEnd::DefinitionListDefinition,
        TagEnd::MetadataBlock(_) => MdEnd::MetadataBlock,
        other => md_other_end(other),
    }
}

/// The kinds of `pulldown_cmark::TagEnd` that [`md_end`] does not list, each as the [`MdEnd`]
/// of the same kind.
#[verifier::external_body]
fn md_other_end(end: TagEnd) -> MdEnd {
    match end {
        TagEnd::Table => MdEnd::Table,
        TagEnd::TableHead => MdEnd::TableHead,
        TagEnd::TableRow => MdEnd::TableRow,
        TagEnd::TableCell => MdEnd::TableCell,
        TagEnd::Emphasis => MdEnd::Emphasis,
        TagEnd::Strong => MdEnd::Strong,
        TagEnd::Strikethrough => MdEnd::Strikethrough,
        TagEnd::Superscript => MdEnd::Superscript,
        TagEnd::Subscript => MdEnd::Subscript,
        TagEnd::Link => MdEnd::Link,
        TagEnd::Image => MdEnd::Image,
        other => md_end(other),
    }
}

/// A span as characters and a tone.
pub type SSpan = (Seq<char>, Tone);

/// A table as sequences.
#[verifier::ext_equal]
pub struct STable {
    /// Header cells.
    pub header: Seq<Seq<SSpan>>,
    /// Alignment per column.
    pub align: Seq<Align>,
    /// Body rows of cells.
    pub rows: Seq<Seq<Seq<SSpan>>>,
    /// Whether cells wrap.
    pub wrap: bool,
    /// Columns that may be left out.
    pub optional: Seq<usize>,
}

/// A block as sequences.
pub enum SBlock {
    /// Wrapped text.
    Text {
        /// First-row prefix.
        lead: Seq<SSpan>,
        /// Continuation-row prefix.
        hang: Option<Seq<SSpan>>,
        /// The text that wraps.
        body: Seq<SSpan>,
    },
    /// Rows drawn as given.
    Pre(Seq<Seq<SSpan>>),
    /// A table.
    Table(STable),
    /// Rows inside a box.
    Boxed(Seq<Seq<SSpan>>),
    /// A rule.
    Rule,
    /// An empty row.
    Blank,
}

/// A span's characters and tone.
pub open spec fn span_view(span: Span) -> SSpan {
    (span.text@, span.tone)
}

/// Spans as characters and tones.
pub open spec fn spans_view(spans: Seq<Span>) -> Seq<SSpan> {
    spans.map_values(|s: Span| span_view(s))
}

/// Lines of spans as characters and tones.
pub open spec fn lines_view(lines: Seq<Vec<Span>>) -> Seq<Seq<SSpan>> {
    lines.map_values(|l: Vec<Span>| spans_view(l@))
}

/// A table as sequences.
pub open spec fn table_view(table: Table) -> STable {
    STable {
        header: lines_view(table.header@),
        align: table.align@,
        rows: table.rows@.map_values(|r: Vec<Vec<Span>>| lines_view(r@)),
        wrap: table.wrap,
        optional: table.optional@,
    }
}

/// A block as sequences.
pub open spec fn block_view(block: Block) -> SBlock {
    match block {
        Block::Text { lead, hang, body } => SBlock::Text {
            lead: spans_view(lead@),
            hang: match hang {
                Some(h) => Some(spans_view(h@)),
                None => None,
            },
            body: spans_view(body@),
        },
        Block::Pre(lines) => SBlock::Pre(lines_view(lines@)),
        Block::Table(table) => SBlock::Table(table_view(table)),
        Block::Boxed(lines) => SBlock::Boxed(lines_view(lines@)),
        Block::Rule => SBlock::Rule,
        Block::Blank => SBlock::Blank,
    }
}

/// A document's blocks as sequences.
pub open spec fn doc_view(doc: Doc) -> Seq<SBlock> {
    doc.blocks@.map_values(|b: Block| block_view(b))
}

/// Where a page's builder stands between two events.
#[verifier::ext_equal]
pub struct MdState {
    /// Blocks finished so far.
    pub blocks: Seq<SBlock>,
    /// The running paragraph.
    pub inline: Seq<SSpan>,
    /// The level of the heading being read.
    pub heading: Option<u8>,
    /// Strong emphasis open.
    pub strong: int,
    /// Emphasis open.
    pub emphasis: int,
    /// Strikethrough open.
    pub struck: int,
    /// The open link's address and where its text starts.
    pub link: Option<(Seq<char>, int)>,
    /// Block quotes open.
    pub quote: int,
    /// Open lists, each with the number of its next item or none for bullets.
    pub lists: Seq<Option<int>>,
    /// Open list items: the marker and whether it is still to be drawn.
    pub items: Seq<(Seq<char>, bool)>,
    /// The code block being read.
    pub code: Option<Seq<char>>,
    /// The table being read: the table, the row and the cell being filled.
    pub table: Option<(STable, Seq<Seq<SSpan>>, Seq<SSpan>)>,
}

/// A builder before the first event.
pub open spec fn md_start() -> MdState {
    MdState {
        blocks: Seq::empty(),
        inline: Seq::empty(),
        heading: None,
        strong: 0,
        emphasis: 0,
        struck: 0,
        link: None,
        quote: 0,
        lists: Seq::empty(),
        items: Seq::empty(),
        code: None,
        table: None,
    }
}

/// The tone of secondary information.
pub open spec fn grey() -> Tone {
    Tone { hue: Hue::Secondary, ..body_tone() }
}

/// Where inline text goes: the open table cell, or the running paragraph.
pub open spec fn md_target(st: MdState) -> Seq<SSpan> {
    match st.table {
        Some(t) => t.2,
        None => st.inline,
    }
}

/// The builder with inline text going to `target`.
pub open spec fn with_target(st: MdState, target: Seq<SSpan>) -> MdState {
    match st.table {
        Some(t) => MdState { table: Some((t.0, t.1, target)), ..st },
        None => MdState { inline: target, ..st },
    }
}

/// The tone of inline text: by heading level, emphasis, strikethrough and links.
pub open spec fn md_tone(st: MdState) -> Tone {
    let t0 = body_tone();
    let t1 = match st.heading {
        Some(level) => if level == 1 {
            Tone { bold: true, underline: true, ..t0 }
        } else if level == 2 {
            Tone { bold: true, ..t0 }
        } else {
            Tone { bold: true, italic: true, ..t0 }
        },
        None => t0,
    };
    let t2 = if st.strong > 0 { Tone { bold: true, ..t1 } } else { t1 };
    let t3 = if st.emphasis > 0 { Tone { italic: true, ..t2 } } else { t2 };
    let t4 = if st.struck > 0 { Tone { hue: Hue::Secondary, ..t3 } } else { t3 };
    if st.link is Some { Tone { hue: Hue::Accent, underline: true, ..t4 } } else { t4 }
}

/// The builder with `text` added in the current tone.
pub open spec fn md_push(st: MdState, text: Seq<char>) -> MdState {
    with_target(st, md_target(st).push((text, md_tone(st))))
}

/// The columns the markers of the first `n` items take.
pub open spec fn markers_width(items: Seq<(Seq<char>, bool)>, n: int) -> int
    decreases n,
{
    if n <= 0 {
        0
    } else {
        markers_width(items, n - 1) + str_columns(items[n - 1].0) as int
    }
}

/// Spans with empty texts left out.
pub open spec fn non_empty(spans: Seq<SSpan>) -> Seq<SSpan>
    decreases spans.len(),
{
    if spans.len() == 0 {
        Seq::empty()
    } else if spans.last().0.len() > 0 {
        non_empty(spans.drop_last()).push(spans.last())
    } else {
        non_empty(spans.drop_last())
    }
}

/// First-row and continuation prefixes for the current quote and list nesting, and the builder
/// after them: the innermost item's marker is drawn once, later rows get spaces as wide.
pub open spec fn md_prefixes(st: MdState) -> (Seq<SSpan>, Seq<SSpan>, MdState) {
    let bars = repeated(seq!['│', ' '], st.quote as nat);
    let n = st.items.len() as int;
    let outer = if n > 0 { markers_width(st.items, n - 1) } else { 0 };
    let base = seq![(bars, grey()), (spaces(outer as nat), body_tone())];
    if n > 0 {
        let item = st.items[n - 1];
        let width = str_columns(item.0) as int;
        let marker = if item.1 { item.0 } else { spaces(width as nat) };
        let lead = base.push((marker, grey()));
        let hang = base.push((spaces(width as nat), body_tone()));
        (non_empty(lead), non_empty(hang), MdState { items: st.items.update(n - 1, (item.0, false)), ..st })
    } else {
        (non_empty(base), non_empty(base), st)
    }
}

/// One empty row between blocks, never two in a row and never at the top.
pub open spec fn md_blank(st: MdState) -> MdState {
    if st.blocks.len() == 0 || st.blocks.last() == SBlock::Blank {
        st
    } else {
        MdState { blocks: st.blocks.push(SBlock::Blank), ..st }
    }
}

/// Ends the running paragraph as a wrapped text block.
pub open spec fn md_flush(st: MdState) -> MdState {
    if st.inline.len() == 0 {
        st
    } else {
        let body = st.inline;
        let (lead, hang, st1) = md_prefixes(MdState { inline: Seq::empty(), ..st });
        MdState { blocks: st1.blocks.push(SBlock::Text { lead, hang: Some(hang), body }), ..st1 }
    }
}

/// A list item's marker: its number and a dot, or a bullet.
pub open spec fn item_marker(list: Option<Option<int>>) -> Seq<char> {
    match list {
        Some(Some(n)) => crate::activities::decimal(n as nat) + seq!['.', ' '],
        _ => seq!['•', ' '],
    }
}

/// A new list item: numbered lists count on.
pub open spec fn md_start_item(st: MdState) -> MdState {
    let st1 = md_flush(st);
    let last = if st1.lists.len() > 0 { Some(st1.lists.last()) } else { None };
    let lists = match last {
        Some(Some(n)) => st1.lists.update(st1.lists.len() - 1, Some(n + 1)),
        _ => st1.lists,
    };
    MdState { lists, items: st1.items.push((item_marker(last), true)), ..st1 }
}

/// Where an element starts.
pub open spec fn md_open(st: MdState, tag: MdTag) -> MdState {
    match tag {
        MdTag::Heading(level) => {
            let st1 = md_flush(st);
            let st2 = if st1.blocks.len() > 0 { md_blank(st1) } else { st1 };
            MdState { heading: Some(level), ..st2 }
        },
        MdTag::BlockQuote => {
            let st1 = md_flush(st);
            MdState { quote: st1.quote + 1, ..st1 }
        },
        MdTag::CodeBlock => MdState { code: Some(Seq::empty()), ..md_flush(st) },
        MdTag::List(start) => {
            let st1 = md_flush(st);
            MdState { lists: st1.lists.push(match start { Some(n) => Some(n as int), None => None }), ..st1 }
        },
        MdTag::Item => md_start_item(st),
        MdTag::Table(aligns) => {
            let table = STable {
                header: Seq::empty(),
                align: aligns@.map_values(|a: MdAlign| column_align(a)),
                rows: Seq::empty(),
                wrap: true,
                optional: Seq::empty(),
            };
            MdState { table: Some((table, Seq::empty(), Seq::empty())), ..md_flush(st) }
        },
        MdTag::Emphasis => MdState { emphasis: st.emphasis + 1, ..st },
        MdTag::Strong => MdState { strong: st.strong + 1, ..st },
        MdTag::Strikethrough => MdState { struck: st.struck + 1, ..st },
        MdTag::Link(url) => MdState { link: Some((url@, md_target(st).len() as int)), ..st },
        MdTag::Image => md_push(st, seq!['[']),
        _ => st,
    }
}

/// How a page draws a column: right-aligned when the markdown says so, left otherwise (centred
/// columns too).
pub open spec fn column_align(a: MdAlign) -> Align {
    if a == MdAlign::Right {
        Align::Right
    } else {
        Align::Left
    }
}

/// One less, but never below zero.
pub open spec fn less(n: int) -> int {
    if n > 0 { n - 1 } else { 0 }
}

/// The texts of some spans, one after another.
pub open spec fn texts(spans: Seq<SSpan>) -> Seq<char>
    decreases spans.len(),
{
    if spans.len() == 0 {
        Seq::empty()
    } else {
        texts(spans.drop_last()) + spans.last().0
    }
}

/// Whether `prefix` starts `text`.
pub open spec fn starts_with(text: Seq<char>, prefix: Seq<char>) -> bool {
    prefix.len() <= text.len() && text.take(prefix.len() as int) == prefix
}

/// The end of a link: a web address not already its text is shown after it.
pub open spec fn md_end_link(st: MdState) -> MdState {
    match st.link {
        None => st,
        Some(l) => {
            let st1 = MdState { link: None, ..st };
            let target = md_target(st1);
            let shown = texts(if l.1 < target.len() { target.skip(l.1) } else { Seq::empty() });
            if starts_with(l.0, seq!['h', 't', 't', 'p']) && shown != l.0 {
                with_target(st1, target.push((seq![' ', '('] + l.0 + seq![')'], grey())))
            } else {
                st1
            }
        },
    }
}

/// Code with its trailing line breaks cut.
pub open spec fn trim_newlines(code: Seq<char>) -> Seq<char>
    decreases code.len(),
{
    if code.len() > 0 && code.last() == '\n' {
        trim_newlines(code.drop_last())
    } else {
        code
    }
}

/// The lines of a text, split at every line break.
pub open spec fn split_lines(text: Seq<char>) -> Seq<Seq<char>>
    decreases text.len(),
{
    if text.len() == 0 {
        seq![Seq::empty()]
    } else {
        let rest = split_lines(text.drop_last());
        if text.last() == '\n' {
            rest.push(Seq::empty())
        } else {
            rest.update(rest.len() - 1, rest.last().push(text.last()))
        }
    }
}

/// A line of code with its tabs as four spaces.
pub open spec fn untab(line: Seq<char>) -> Seq<char>
    decreases line.len(),
{
    if line.len() == 0 {
        Seq::empty()
    } else {
        untab(line.drop_last()) + if line.last() == '\t' { seq![' ', ' ', ' ', ' '] } else { seq![line.last()] }
    }
}

/// The end of a code block: its lines, indented four spaces under the list nesting.
pub open spec fn md_end_code(st: MdState) -> MdState {
    match st.code {
        None => st,
        Some(code) => {
            let (_, hang, st1) = md_prefixes(MdState { code: None, ..st });
            let lines = split_lines(trim_newlines(code)).map_values(
                |line: Seq<char>| hang.push((seq![' ', ' ', ' ', ' '] + untab(line), body_tone())),
            );
            let st2 = MdState { blocks: st1.blocks.push(SBlock::Pre(lines)), ..st1 };
            if st2.lists.len() == 0 { md_blank(st2) } else { st2 }
        },
    }
}

/// The end of a table's cell, row, header or of the table.
pub open spec fn md_end_table_part(st: MdState, end: MdEnd) -> MdState {
    match st.table {
        None => st,
        Some(t) => match end {
            MdEnd::TableCell => MdState { table: Some((t.0, t.1.push(t.2), Seq::empty())), ..st },
            MdEnd::TableHead => MdState { table: Some((STable { header: t.1, ..t.0 }, Seq::empty(), t.2)), ..st },
            MdEnd::TableRow => MdState { table: Some((STable { rows: t.0.rows.push(t.1), ..t.0 }, Seq::empty(), t.2)), ..st },
            MdEnd::Table => md_blank(MdState { blocks: st.blocks.push(SBlock::Table(t.0)), table: None, ..st }),
            _ => st,
        },
    }
}

/// Where an element ends.
pub open spec fn md_close(st: MdState, end: MdEnd) -> MdState {
    match end {
        MdEnd::Paragraph => {
            let st1 = md_flush(st);
            if st1.lists.len() == 0 { md_blank(st1) } else { st1 }
        },
        MdEnd::Heading => md_blank(MdState { heading: None, ..md_flush(st) }),
        MdEnd::BlockQuote => {
            let st1 = md_flush(st);
            md_blank(MdState { quote: less(st1.quote), ..st1 })
        },
        MdEnd::CodeBlock => md_end_code(st),
        MdEnd::List => {
            let st1 = md_flush(st);
            let st2 = MdState { lists: if st1.lists.len() > 0 { st1.lists.drop_last() } else { st1.lists }, ..st1 };
            if st2.lists.len() == 0 { md_blank(st2) } else { st2 }
        },
        MdEnd::Item => {
            let st1 = md_flush(st);
            let st2 = if st1.items.len() > 0 && st1.items.last().1 {
                let (lead, _, st3) = md_prefixes(st1);
                MdState { blocks: st3.blocks.push(SBlock::Text { lead, hang: None, body: Seq::empty() }), ..st3 }
            } else {
                st1
            };
            MdState { items: if st2.items.len() > 0 { st2.items.drop_last() } else { st2.items }, ..st2 }
        },
        MdEnd::Emphasis => MdState { emphasis: less(st.emphasis), ..st },
        MdEnd::Strong => MdState { strong: less(st.strong), ..st },
        MdEnd::Strikethrough => MdState { struck: less(st.struck), ..st },
        MdEnd::Link => md_end_link(st),
        MdEnd::Image => md_push(st, seq![']']),
        _ => md_end_table_part(st, end),
    }
}

/// One event read.
pub open spec fn md_step(st: MdState, event: MdEvent) -> MdState {
    match event {
        MdEvent::Start(tag) => md_open(st, tag),
        MdEvent::End(end) => md_close(st, end),
        MdEvent::Text(text) => match st.code {
            Some(code) => MdState { code: Some(code + text@), ..st },
            None => md_push(st, text@),
        },
        MdEvent::Code(code) => {
            let tone = md_tone(st);
            with_target(st, md_target(st) + seq![(seq!['`'], grey()), (code@, tone), (seq!['`'], grey())])
        },
        MdEvent::InlineMath(math) => md_push(st, math@),
        MdEvent::DisplayMath(math) => md_push(st, math@),
        MdEvent::SoftBreak => md_push(st, seq![' ']),
        MdEvent::HardBreak => md_push(st, seq!['\n']),
        MdEvent::Rule => {
            let st1 = md_flush(st);
            md_blank(MdState { blocks: st1.blocks.push(SBlock::Rule), ..st1 })
        },
        MdEvent::TaskListMarker(done) => md_push(st, if done { seq!['[', 'x', ']', ' '] } else { seq!['[', ' ', ']', ' '] }),
        MdEvent::FootnoteReference(label) => md_push(st, seq!['['] + label@ + seq![']']),
        MdEvent::Html(_) => st,
        MdEvent::InlineHtml(_) => st,
    }
}

/// The builder after the first `k` events.
pub open spec fn md_run(events: Seq<MdEvent>, k: int) -> MdState
    decreases k,
{
    if k <= 0 {
        md_start()
    } else {
        md_step(md_run(events, k - 1), events[k - 1])
    }
}

/// A line break inside a paragraph that is not a hard break joins the two lines with a space:
/// a paragraph of two lines becomes one text block whose body is the first line, one space and
/// the second line, all in the body tone, so it wraps as one paragraph.
pub proof fn soft_breaks_join_a_paragraph(first: String, second: String)
    ensures
        events_doc(seq![
            MdEvent::Start(MdTag::Paragraph),
            MdEvent::Text(first),
            MdEvent::SoftBreak,
            MdEvent::Text(second),
            MdEvent::End(MdEnd::Paragraph),
        ]) == seq![SBlock::Text {
            lead: Seq::empty(),
            hang: Some(Seq::empty()),
            body: seq![(first@, body_tone()), (seq![' '], body_tone()), (second@, body_tone())],
        }],
{
    let events = seq![
        MdEvent::Start(MdTag::Paragraph),
        MdEvent::Text(first),
        MdEvent::SoftBreak,
        MdEvent::Text(second),
        MdEvent::End(MdEnd::Paragraph),
    ];
    let s0 = md_start();
    assert(md_run(events, 0) == s0);
    let s1 = md_run(events, 1);
    assert(s1 == md_step(s0, events[0]));
    assert(s1 == s0);
    assert(md_tone(s0) == body_tone());
    let s2 = md_run(events, 2);
    assert(s2 == md_step(s1, events[1]));
    assert(s2.inline =~= seq![(first@, body_tone())]);
    let s3 = md_run(events, 3);
    assert(s3 == md_step(s2, events[2]));
    assert(s3.inline =~= seq![(first@, body_tone()), (seq![' '], body_tone())]);
    let s4 = md_run(events, 4);
    assert(s4 == md_step(s3, events[3]));
    let body = seq![(first@, body_tone()), (seq![' '], body_tone()), (second@, body_tone())];
    assert(s4.inline =~= body);
    assert(s4.blocks =~= Seq::<SBlock>::empty());
    let s5 = md_run(events, 5);
    assert(s5 == md_step(s4, events[4]));
    let base = seq![(repeated(seq!['│', ' '], 0), grey()), (spaces(0), body_tone())];
    assert(repeated(seq!['│', ' '], 0) =~= Seq::<char>::empty());
    assert(spaces(0) =~= Seq::<char>::empty());
    assert(base.drop_last().drop_last() =~= Seq::<SSpan>::empty());
    assert(base.drop_last().last().0.len() == 0);
    assert(base.last().0.len() == 0);
    assert(non_empty(base.drop_last().drop_last()) == Seq::<SSpan>::empty());
    assert(non_empty(base.drop_last()) =~= Seq::<SSpan>::empty());
    assert(non_empty(base) =~= Seq::<SSpan>::empty());
    let block = SBlock::Text { lead: Seq::empty(), hang: Some(Seq::empty()), body };
    assert(md_flush(s4).blocks =~= seq![block]);
    assert(s5.blocks =~= seq![block, SBlock::Blank]);
    assert(s5.inline.len() == 0);
    assert(md_flush(s5) == s5);
    assert(seq![block, SBlock::Blank].drop_last() =~= seq![block]);
    assert(drop_trailing_blanks(seq![block]) == seq![block]);
}

/// Blocks without the empty rows at their end.
pub open spec fn drop_trailing_blanks(blocks: Seq<SBlock>) -> Seq<SBlock>
    decreases blocks.len(),
{
    if blocks.len() > 0 && blocks.last() == SBlock::Blank {
        drop_trailing_blanks(blocks.drop_last())
    } else {
        blocks
    }
}

/// The document for a page's events: every event read, the last paragraph ended, and no empty
/// rows at the end.
pub open spec fn events_doc(events: Seq<MdEvent>) -> Seq<SBlock> {
    drop_trailing_blanks(md_flush(md_run(events, events.len() as int)).blocks)
}

/// An open list item: its marker and whether it is still to be drawn.
struct Item {
    marker: String,
    fresh: bool,
}

/// The table being read: the table, the row and the cell being filled.
struct TableState {
    table: Table,
    row: Vec<Vec<Span>>,
    cell: Vec<Span>,
}

/// Builds a page's document one event at a time.
struct Builder {
    doc: Doc,
    inline: Vec<Span>,
    heading: Option<u8>,
    strong: usize,
    emphasis: usize,
    struck: usize,
    link: Option<(String, usize)>,
    quote: usize,
    lists: Vec<Option<u128>>,
    items: Vec<Item>,
    code: Option<String>,
    table: Option<TableState>,
}

/// Whether every count of a builder can grow by one more.
pub open spec fn md_room(st: MdState) -> bool {
    &&& 0 <= st.strong < usize::MAX
    &&& 0 <= st.emphasis < usize::MAX
    &&& 0 <= st.struck < usize::MAX
    &&& 0 <= st.quote < usize::MAX
    &&& forall|i: int| 0 <= i < st.lists.len() ==> (#[trigger] st.lists[i] matches Some(n) ==> 0 <= n < u128::MAX)
}

/// Copies of spans.
fn copy_span_list(spans: &Vec<Span>) -> (copy: Vec<Span>)
    ensures
        spans_view(copy@) == spans_view(spans@),
{
    let copy = crate::doc::copy_spans(spans);
    copy
}

/// Spans with empty texts left out.
fn keep_non_empty(spans: Vec<Span>) -> (kept: Vec<Span>)
    ensures
        spans_view(kept@) == non_empty(spans_view(spans@)),
{
    let mut kept: Vec<Span> = Vec::new();
    let mut i: usize = 0;
    while i < spans.len()
        invariant
            i <= spans@.len(),
            spans_view(kept@) == non_empty(spans_view(spans@).take(i as int)),
        decreases spans@.len() - i,
    {
        proof {
            assert(spans_view(spans@).take(i + 1).drop_last() =~= spans_view(spans@).take(i as int));
        }
        if !spans[i].text.as_str().is_empty() {
            let ghost before = spans_view(kept@);
            kept.push(spans[i].duplicate());
            proof {
                assert(spans_view(kept@) =~= before.push(span_view(spans@[i as int])));
            }
        }
        i = i + 1;
    }
    proof {
        assert(spans_view(spans@).take(spans@.len() as int) =~= spans_view(spans@));
    }
    kept
}

impl Builder {
    /// The builder as sequences.
    spec fn view(&self) -> MdState {
        MdState {
            blocks: doc_view(self.doc),
            inline: spans_view(self.inline@),
            heading: self.heading,
            strong: self.strong as int,
            emphasis: self.emphasis as int,
            struck: self.struck as int,
            link: match self.link {
                Some(l) => Some((l.0@, l.1 as int)),
                None => None,
            },
            quote: self.quote as int,
            lists: self.lists@.map_values(|l: Option<u128>| match l {
                Some(n) => Some(n as int),
                None => None,
            }),
            items: self.items@.map_values(|it: Item| (it.marker@, it.fresh)),
            code: match self.code {
                Some(c) => Some(c@),
                None => None,
            },
            table: match self.table {
                Some(t) => Some((table_view(t.table), lines_view(t.row@), spans_view(t.cell@))),
                None => None,
            },
        }
    }

    /// A builder before the first event.
    fn new() -> (b: Builder)
        ensures
            b.view() == md_start(),
    {
        let b = Builder {
            doc: Doc { blocks: Vec::new() },
            inline: Vec::new(),
            heading: None,
            strong: 0,
            emphasis: 0,
            struck: 0,
            link: None,
            quote: 0,
            lists: Vec::new(),
            items: Vec::new(),
            code: None,
            table: None,
        };
        proof {
            assert(b.view() =~= md_start());
        }
        b
    }

    /// The tone of inline text.
    fn tone(&self) -> (tone: Tone)
        ensures
            tone == md_tone(self.view()),
    {
        let mut tone = Tone::body();
        match self.heading {
            Some(level) => {
                if level == 1 {
                    tone = tone.bold().underline();
                } else if level == 2 {
                    tone = tone.bold();
                } else {
                    tone = tone.bold().italic();
                }
            },
            None => {},
        }
        if self.strong > 0 {
            tone = tone.bold();
        }
        if self.emphasis > 0 {
            tone = tone.italic();
        }
        if self.struck > 0 {
            tone.hue = Hue::Secondary;
        }
        if self.link.is_some() {
            tone = Tone { hue: Hue::Accent, ..tone.underline() };
        }
        tone
    }

    /// How many spans inline text has so far where it goes.
    fn target_len(&self) -> (n: usize)
        ensures
            n == md_target(self.view()).len(),
    {
        match &self.table {
            Some(state) => state.cell.len(),
            None => self.inline.len(),
        }
    }

    /// Adds a span where inline text goes.
    fn push_span(&mut self, span: Span)
        ensures
            final(self).view() == with_target(old(self).view(), md_target(old(self).view()).push(span_view(span))),
    {
        let mut table = None;
        std::mem::swap(&mut table, &mut self.table);
        match table {
            Some(mut state) => {
                let ghost before = spans_view(state.cell@);
                state.cell.push(span);
                proof {
                    assert(spans_view(state.cell@) =~= before.push(span_view(span)));
                }
                self.table = Some(state);
            },
            None => {
                let ghost before = spans_view(self.inline@);
                self.inline.push(span);
                proof {
                    assert(spans_view(self.inline@) =~= before.push(span_view(span)));
                }
            },
        }
        proof {
            assert(self.view() =~= with_target(old(self).view(), md_target(old(self).view()).push(span_view(span))));
        }
    }

    /// Adds text in the current tone.
    fn push(&mut self, text: String)
        ensures
            final(self).view() == md_push(old(self).view(), text@),
    {
        let tone = self.tone();
        self.push_span(Span { text, tone });
    }
}

impl Builder {
    /// First-row and continuation prefixes for the current quote and list nesting.
    fn prefixes(&mut self) -> (out: (Vec<Span>, Vec<Span>))
        ensures
            (spans_view(out.0@), spans_view(out.1@), final(self).view()) == md_prefixes(old(self).view()),
    {
        proof {
            reveal_strlit("│ ");
            assert("│ "@ =~= seq!['│', ' ']);
        }
        let bars = crate::strings::repeat("│ ", self.quote);
        let n = self.items.len();
        let ghost items = self.view().items;
        let mut outer = String::new();
        let mut k: usize = 0;
        let limit = if n > 0 {
            n - 1
        } else {
            0
        };
        while k < limit
            invariant
                k <= limit,
                limit == (if n > 0 { n - 1 } else { 0 }),
                n == self.items@.len(),
                items == self.items@.map_values(|it: Item| (it.marker@, it.fresh)),
                outer@ == spaces(markers_width(items, k as int) as nat),
                markers_width(items, k as int) >= 0,
            decreases n - k,
        {
            let w = str_width(self.items[k].marker.as_str());
            let pad = spaces_string(w);
            let ghost before = outer@;
            push_str(&mut outer, pad.as_str());
            proof {
                assert(items[k as int].0 == self.items@[k as int].marker@);
                assert(outer@ =~= spaces(markers_width(items, k + 1) as nat));
            }
            k = k + 1;
        }
        proof {
            if n > 0 {
                assert(k == n - 1);
            } else {
                assert(outer@ =~= spaces(0));
            }
        }
        let mut lead = vec![Span { text: bars, tone: Tone::of(Hue::Secondary) }, Span { text: outer, tone: Tone::body() }];
        let mut hang = copy_span_list(&lead);
        let ghost base = seq![(repeated(seq!['│', ' '], self.quote as nat), grey()), (spaces((if n > 0 { markers_width(items, n - 1) } else { 0 }) as nat), body_tone())];
        proof {
            assert(spans_view(lead@) =~= base);
        }
        if n > 0 {
            let width = str_width(self.items[n - 1].marker.as_str());
            let kept = self.items[n - 1].marker.clone();
            let marker = if self.items[n - 1].fresh {
                self.items[n - 1].marker.clone()
            } else {
                spaces_string(width)
            };
            let ghost before = self.items@;
            self.items.set(n - 1, Item { marker: kept, fresh: false });
            proof {
                assert(self.items@.map_values(|it: Item| (it.marker@, it.fresh)) =~= items.update(n - 1, (items[n - 1].0, false)));
            }
            let ghost l0 = spans_view(lead@);
            let ghost h0 = spans_view(hang@);
            lead.push(Span { text: marker, tone: Tone::of(Hue::Secondary) });
            hang.push(Span { text: spaces_string(width), tone: Tone::body() });
            proof {
                assert(spans_view(lead@) =~= l0.push((if items[n - 1].1 { items[n - 1].0 } else { spaces(width as nat) }, grey())));
                assert(spans_view(hang@) =~= h0.push((spaces(width as nat), body_tone())));
            }
        }
        let out = (keep_non_empty(lead), keep_non_empty(hang));
        proof {
            assert(self.view() =~= md_prefixes(old(self).view()).2);
        }
        out
    }

    /// One empty row between blocks, never two in a row and never at the top.
    fn blank(&mut self)
        ensures
            final(self).view() == md_blank(old(self).view()),
    {
        let n = self.doc.blocks.len();
        if n == 0 {
            return;
        }
        let last_blank = match &self.doc.blocks[n - 1] {
            Block::Blank => true,
            _ => false,
        };
        if !last_blank {
            let ghost before = doc_view(self.doc);
            self.doc.blank();
            proof {
                assert(doc_view(self.doc) =~= before.push(SBlock::Blank));
            }
        }
        proof {
            assert(self.view() =~= md_blank(old(self).view()));
        }
    }

    /// Ends the running paragraph as a wrapped text block.
    fn flush(&mut self)
        ensures
            final(self).view() == md_flush(old(self).view()),
    {
        if self.inline.len() == 0 {
            proof {
                assert(self.view().inline.len() == 0);
            }
            return;
        }
        let mut body: Vec<Span> = Vec::new();
        std::mem::swap(&mut body, &mut self.inline);
        proof {
            assert(self.view() =~= MdState { inline: Seq::empty(), ..old(self).view() });
        }
        let (lead, hang) = self.prefixes();
        let ghost before = doc_view(self.doc);
        let ghost mid = self.view();
        let block = Block::Text { lead, hang: Some(hang), body };
        self.doc.push(block);
        proof {
            assert(doc_view(self.doc) =~= before.push(block_view(block)));
            assert(self.view() =~= md_flush(old(self).view()));
        }
    }
}

/// The lines of a code block, each after the hang and four spaces, tabs as four spaces.
fn code_lines(code: &str, hang: &Vec<Span>) -> (lines: Vec<Vec<Span>>)
    ensures
        lines_view(lines@) == split_lines(trim_newlines(code@)).map_values(
            |line: Seq<char>| spans_view(hang@).push((seq![' ', ' ', ' ', ' '] + untab(line), body_tone())),
        ),
{
    proof {
        reveal_strlit("    ");
        assert("    "@ =~= seq![' ', ' ', ' ', ' ']);
    }
    let chars = chars_of(code);
    let mut end = chars.len();
    proof {
        assert(chars@.take(end as int) =~= chars@);
    }
    while end > 0 && chars[end - 1] == '\n'
        invariant
            end <= chars@.len(),
            trim_newlines(chars@.take(end as int)) == trim_newlines(chars@),
        decreases end,
    {
        proof {
            assert(chars@.take(end as int).drop_last() =~= chars@.take(end - 1));
        }
        end = end - 1;
    }
    let ghost text = chars@.take(end as int);
    proof {
        assert(trim_newlines(text) == text);
    }
    let ghost hv = spans_view(hang@);
    let ghost f = |line: Seq<char>| hv.push((seq![' ', ' ', ' ', ' '] + untab(line), body_tone()));
    let mut lines: Vec<Vec<Span>> = Vec::new();
    let mut current = string_of(chars_of("    ").as_slice());
    let ghost mut done: Seq<Seq<char>> = Seq::empty();
    let ghost mut line: Seq<char> = Seq::empty();
    let mut i: usize = 0;
    proof {
        assert(text.take(0) =~= Seq::<char>::empty());
    }
    while i < end
        invariant
            i <= end,
            end <= chars@.len(),
            text == chars@.take(end as int),
            hv == spans_view(hang@),
            split_lines(text.take(i as int)) == done.push(line),
            lines_view(lines@) == done.map_values(f),
            current@ == seq![' ', ' ', ' ', ' '] + untab(line),
            "    "@ == seq![' ', ' ', ' ', ' '],
            f == (|line: Seq<char>| hv.push((seq![' ', ' ', ' ', ' '] + untab(line), body_tone()))),
        decreases end - i,
    {
        let c = chars[i];
        proof {
            assert(text.take(i + 1).drop_last() =~= text.take(i as int));
            assert(text.take(i + 1).last() == c);
        }
        if c == '\n' {
            let mut row = copy_span_list(hang);
            let mut finished = string_of(chars_of("    ").as_slice());
            std::mem::swap(&mut finished, &mut current);
            let ghost r0 = spans_view(row@);
            row.push(Span { text: finished, tone: Tone::body() });
            let ghost before = lines_view(lines@);
            lines.push(row);
            proof {
                assert(spans_view(row@) =~= f(line));
                assert(lines_view(lines@) =~= before.push(spans_view(row@)));
                assert(done.push(line).map_values(f) =~= done.map_values(f).push(f(line)));
                done = done.push(line);
                line = Seq::empty();
                assert(untab(line) =~= Seq::<char>::empty());
                assert(current@ =~= seq![' ', ' ', ' ', ' '] + untab(line));
            }
        } else {
            if c == '\t' {
                push_str(&mut current, "    ");
            } else {
                push_char(&mut current, c);
            }
            proof {
                assert(line.push(c).drop_last() =~= line);
                line = line.push(c);
                assert(current@ =~= seq![' ', ' ', ' ', ' '] + untab(line));
                assert(done.push(line) =~= split_lines(text.take(i + 1)));
            }
        }
        i = i + 1;
    }
    let mut row = copy_span_list(hang);
    let ghost r0 = spans_view(row@);
    row.push(Span { text: current, tone: Tone::body() });
    let ghost before = lines_view(lines@);
    lines.push(row);
    proof {
        assert(text.take(end as int) =~= text);
        assert(spans_view(row@) =~= f(line));
        assert(lines_view(lines@) =~= before.push(spans_view(row@)));
        assert(done.push(line).map_values(f) =~= done.map_values(f).push(f(line)));
    }
    lines
}

/// Whether `text` starts with `http`.
fn starts_with_http(text: &str) -> (yes: bool)
    ensures
        yes == starts_with(text@, seq!['h', 't', 't', 'p']),
{
    let chars = chars_of(text);
    if chars.len() < 4 {
        return false;
    }
    let yes = chars[0] == 'h' && chars[1] == 't' && chars[2] == 't' && chars[3] == 'p';
    proof {
        if yes {
            assert(chars@.take(4) =~= seq!['h', 't', 't', 'p']);
        } else {
            assert(chars@.take(4) != seq!['h', 't', 't', 'p']) by {
                if chars@.take(4) == seq!['h', 't', 't', 'p'] {
                    assert(chars@.take(4)[0] == 'h');
                    assert(chars@.take(4)[1] == 't');
                    assert(chars@.take(4)[2] == 't');
                    assert(chars@.take(4)[3] == 'p');
                }
            }
        }
    }
    yes
}

impl Builder {
    /// The texts of the spans where inline text goes, from span `start` on.
    fn target_text_from(&self, start: usize) -> (text: String)
        ensures
            text@ == texts(if start < md_target(self.view()).len() { md_target(self.view()).skip(start as int) } else { Seq::empty() }),
    {
        let target: &Vec<Span> = match &self.table {
            Some(state) => &state.cell,
            None => &self.inline,
        };
        let ghost tv = spans_view(target@);
        proof {
            assert(tv == md_target(self.view()));
        }
        let mut text = String::new();
        if start >= target.len() {
            return text;
        }
        let mut k = start;
        proof {
            assert(tv.subrange(start as int, start as int) =~= Seq::<SSpan>::empty());
        }
        while k < target.len()
            invariant
                start <= k <= target@.len(),
                tv == spans_view(target@),
                text@ == texts(tv.subrange(start as int, k as int)),
            decreases target@.len() - k,
        {
            push_str(&mut text, target[k].text.as_str());
            proof {
                assert(tv.subrange(start as int, k + 1).drop_last() =~= tv.subrange(start as int, k as int));
            }
            k = k + 1;
        }
        proof {
            assert(tv.subrange(start as int, tv.len() as int) =~= tv.skip(start as int));
        }
        text
    }

    /// A new list item: numbered lists count on.
    fn start_item(&mut self)
        requires
            md_room(old(self).view()),
        ensures
            final(self).view() == md_start_item(old(self).view()),
    {
        self.flush();
        let ghost st1 = self.view();
        proof {
            reveal_strlit("• ");
            reveal_strlit(". ");
            assert("• "@ =~= seq!['•', ' ']);
            assert(". "@ =~= seq!['.', ' ']);
            assert(self.view().lists == old(self).view().lists);
        }
        let n = self.lists.len();
        let marker: String = if n > 0 {
            match self.lists[n - 1] {
                Some(number) => {
                    let digits = crate::activities::decimal_digits(number);
                    let mut marker = string_of(digits.as_slice());
                    push_str(&mut marker, ". ");
                    proof {
                        assert(self.view().lists[n - 1] == Some(number as int));
                    }
                    let ghost before = self.lists@;
                    self.lists.set(n - 1, Some(number + 1));
                    proof {
                        assert(self.lists@.map_values(|l: Option<u128>| match l {
                            Some(n) => Some(n as int),
                            None => None,
                        }) =~= old(self).view().lists.update(n - 1, Some(number + 1)));
                    }
                    marker
                },
                None => string_of(chars_of("• ").as_slice()),
            }
        } else {
            string_of(chars_of("• ").as_slice())
        };
        proof {
            assert(marker@ =~= item_marker(if n > 0 { Some(st1.lists.last()) } else { None }));
        }
        let ghost before = self.items@;
        self.items.push(Item { marker, fresh: true });
        proof {
            assert(self.items@.map_values(|it: Item| (it.marker@, it.fresh)) =~= before.map_values(|it: Item| (it.marker@, it.fresh)).push((marker@, true)));
            assert(self.view() =~= md_start_item(old(self).view()));
        }
    }

    /// The end of a code block: its lines, indented under the list nesting.
    fn end_code(&mut self)
        ensures
            final(self).view() == md_end_code(old(self).view()),
    {
        let mut code: Option<String> = None;
        std::mem::swap(&mut code, &mut self.code);
        let code = match code {
            None => {
                proof {
                    assert(self.view() =~= old(self).view());
                }
                return;
            },
            Some(code) => code,
        };
        proof {
            assert(self.view() =~= MdState { code: None, ..old(self).view() });
        }
        let (_, hang) = self.prefixes();
        let lines = code_lines(code.as_str(), &hang);
        let ghost before = doc_view(self.doc);
        let block = Block::Pre(lines);
        self.doc.push(block);
        proof {
            assert(doc_view(self.doc) =~= before.push(block_view(block)));
        }
        if self.lists.len() == 0 {
            self.blank();
        }
    }

    /// The end of a link: a web address not already its text is shown after it.
    fn end_link(&mut self)
        ensures
            final(self).view() == md_end_link(old(self).view()),
    {
        let mut link: Option<(String, usize)> = None;
        std::mem::swap(&mut link, &mut self.link);
        let (url, start) = match link {
            None => {
                proof {
                    assert(self.view() =~= old(self).view());
                }
                return;
            },
            Some(l) => l,
        };
        proof {
            assert(self.view() =~= MdState { link: None, ..old(self).view() });
        }
        let shown = self.target_text_from(start);
        if starts_with_http(url.as_str()) && !crate::strings::same_text(shown.as_str(), url.as_str()) {
            let mut text = string_of(chars_of(" (").as_slice());
            push_str(&mut text, url.as_str());
            push_char(&mut text, ')');
            proof {
                reveal_strlit(" (");
                assert(text@ =~= seq![' ', '('] + url@ + seq![')']);
            }
            self.push_span(Span { text, tone: Tone::of(Hue::Secondary) });
        }
    }

    /// The end of a table's cell, row, header or of the table.
    fn end_table_part(&mut self, end: MdEnd)
        ensures
            final(self).view() == md_end_table_part(old(self).view(), end),
    {
        let mut table: Option<TableState> = None;
        std::mem::swap(&mut table, &mut self.table);
        match table {
            None => {
                proof {
                    assert(self.view() =~= old(self).view());
                }
            },
            Some(mut state) => {
                match end {
                    MdEnd::TableCell => {
                        let mut cell: Vec<Span> = Vec::new();
                        std::mem::swap(&mut cell, &mut state.cell);
                        let ghost before = lines_view(state.row@);
                        state.row.push(cell);
                        proof {
                            assert(lines_view(state.row@) =~= before.push(spans_view(cell@)));
                        }
                        self.table = Some(state);
                    },
                    MdEnd::TableHead => {
                        let mut row: Vec<Vec<Span>> = Vec::new();
                        std::mem::swap(&mut row, &mut state.row);
                        state.table.header = row;
                        self.table = Some(state);
                    },
                    MdEnd::TableRow => {
                        let mut row: Vec<Vec<Span>> = Vec::new();
                        std::mem::swap(&mut row, &mut state.row);
                        let ghost before = state.table.rows@.map_values(|r: Vec<Vec<Span>>| lines_view(r@));
                        state.table.rows.push(row);
                        proof {
                            assert(state.table.rows@.map_values(|r: Vec<Vec<Span>>| lines_view(r@)) =~= before.push(lines_view(row@)));
                        }
                        self.table = Some(state);
                    },
                    MdEnd::Table => {
                        let ghost before = doc_view(self.doc);
                        let block = Block::Table(state.table);
                        self.doc.push(block);
                        proof {
                            assert(doc_view(self.doc) =~= before.push(block_view(block)));
                        }
                        self.blank();
                    },
                    _ => {
                        self.table = Some(state);
                    },
                }
                proof {
                    assert(self.view() =~= md_end_table_part(old(self).view(), end));
                }
            },
        }
    }
}

impl Builder {
    /// Where an element starts.
    fn start(&mut self, tag: MdTag)
        requires
            md_room(old(self).view()),
        ensures
            final(self).view() == md_open(old(self).view(), tag),
    {
        match tag {
            MdTag::Heading(level) => {
                self.flush();
                let ghost s1 = self.view();
                if self.doc.blocks.len() > 0 {
                    self.blank();
                }
                let ghost s2 = self.view();
                proof {
                    assert(s2 == (if s1.blocks.len() > 0 { md_blank(s1) } else { s1 }));
                }
                self.heading = Some(level);
                proof {
                    assert(self.view() =~= MdState { heading: Some(level), ..s2 });
                }
            },
            MdTag::BlockQuote => {
                self.flush();
                let ghost s1 = self.view();
                self.quote = self.quote + 1;
                proof {
                    assert(self.view() =~= MdState { quote: s1.quote + 1, ..s1 });
                }
            },
            MdTag::CodeBlock => {
                self.flush();
                let ghost s1 = self.view();
                self.code = Some(String::new());
                proof {
                    assert(self.view() =~= MdState { code: Some(Seq::empty()), ..s1 });
                }
            },
            MdTag::List(start) => {
                self.flush();
                let ghost s1 = self.view();
                let ghost before = self.lists@;
                let number: Option<u128> = match start {
                    Some(n) => Some(n as u128),
                    None => None,
                };
                self.lists.push(number);
                proof {
                    assert(self.lists@.map_values(|l: Option<u128>| match l {
                        Some(n) => Some(n as int),
                        None => None,
                    }) =~= before.map_values(|l: Option<u128>| match l {
                        Some(n) => Some(n as int),
                        None => None,
                    }).push(match start {
                        Some(n) => Some(n as int),
                        None => None,
                    }));
                    assert(self.view() =~= MdState { lists: s1.lists.push(match start { Some(n) => Some(n as int), None => None }), ..s1 });
                }
            },
            MdTag::Item => self.start_item(),
            MdTag::Table(aligns) => {
                self.flush();
                let mut align: Vec<Align> = Vec::new();
                let mut k: usize = 0;
                while k < aligns.len()
                    invariant
                        k <= aligns@.len(),
                        align@ == aligns@.take(k as int).map_values(|a: MdAlign| column_align(a)),
                    decreases aligns@.len() - k,
                {
                    align.push(if aligns[k] == MdAlign::Right { Align::Right } else { Align::Left });
                    k = k + 1;
                    proof {
                        assert(align@ =~= aligns@.take(k as int).map_values(|a: MdAlign| column_align(a)));
                    }
                }
                proof {
                    assert(aligns@.take(aligns@.len() as int) =~= aligns@);
                }
                let ghost s1 = self.view();
                let table = Table { header: Vec::new(), align, rows: Vec::new(), wrap: true, optional: Vec::new() };
                let state = TableState { table, row: Vec::new(), cell: Vec::new() };
                proof {
                    assert(table_view(state.table) =~= STable {
                        header: Seq::empty(),
                        align: aligns@.map_values(|a: MdAlign| column_align(a)),
                        rows: Seq::empty(),
                        wrap: true,
                        optional: Seq::empty(),
                    });
                    assert(lines_view(state.row@) =~= Seq::<Seq<SSpan>>::empty());
                    assert(spans_view(state.cell@) =~= Seq::<SSpan>::empty());
                }
                self.table = Some(state);
                proof {
                    assert(self.view() =~= MdState { table: Some((table_view(state.table), Seq::empty(), Seq::empty())), ..s1 });
                }
            },
            MdTag::Emphasis => {
                self.emphasis = self.emphasis + 1;
                proof {
                    assert(self.view() =~= MdState { emphasis: old(self).view().emphasis + 1, ..old(self).view() });
                }
            },
            MdTag::Strong => {
                self.strong = self.strong + 1;
                proof {
                    assert(self.view() =~= MdState { strong: old(self).view().strong + 1, ..old(self).view() });
                }
            },
            MdTag::Strikethrough => {
                self.struck = self.struck + 1;
                proof {
                    assert(self.view() =~= MdState { struck: old(self).view().struck + 1, ..old(self).view() });
                }
            },
            MdTag::Link(url) => {
                let start = self.target_len();
                self.link = Some((url, start));
                proof {
                    assert(self.view() =~= MdState { link: Some((url@, start as int)), ..old(self).view() });
                }
            },
            MdTag::Image => {
                proof {
                    reveal_strlit("[");
                    assert("["@ =~= seq!['[']);
                }
                self.push(string_of(chars_of("[").as_slice()));
            },
            _ => {},
        }
    }

    /// Where an element ends.
    fn end(&mut self, end: MdEnd)
        ensures
            final(self).view() == md_close(old(self).view(), end),
    {
        match end {
            MdEnd::Paragraph => {
                self.flush();
                if self.lists.len() == 0 {
                    self.blank();
                }
            },
            MdEnd::Heading => {
                self.flush();
                let ghost s1 = self.view();
                self.heading = None;
                proof {
                    assert(self.view() =~= MdState { heading: None, ..s1 });
                }
                self.blank();
            },
            MdEnd::BlockQuote => {
                self.flush();
                let ghost s1 = self.view();
                self.quote = if self.quote > 0 {
                    self.quote - 1
                } else {
                    0
                };
                proof {
                    assert(self.view() =~= MdState { quote: less(s1.quote), ..s1 });
                }
                self.blank();
            },
            MdEnd::CodeBlock => self.end_code(),
            MdEnd::List => {
                self.flush();
                let ghost s1 = self.view();
                let ghost before = self.lists@;
                let _ = self.lists.pop();
                proof {
                    if before.len() > 0 {
                        assert(self.lists@.map_values(|l: Option<u128>| match l {
                            Some(n) => Some(n as int),
                            None => None,
                        }) =~= before.map_values(|l: Option<u128>| match l {
                            Some(n) => Some(n as int),
                            None => None,
                        }).drop_last());
                    }
                    assert(self.view() =~= MdState { lists: if s1.lists.len() > 0 { s1.lists.drop_last() } else { s1.lists }, ..s1 });
                }
                if self.lists.len() == 0 {
                    self.blank();
                }
            },
            MdEnd::Item => {
                self.flush();
                let ghost s1 = self.view();
                let n = self.items.len();
                if n > 0 && self.items[n - 1].fresh {
                    let (lead, _) = self.prefixes();
                    let ghost s3 = self.view();
                    let ghost before = doc_view(self.doc);
                    let body: Vec<Span> = Vec::new();
                    proof {
                        assert(spans_view(body@) =~= Seq::<SSpan>::empty());
                    }
                    let block = Block::Text { lead, hang: None, body };
                    self.doc.push(block);
                    proof {
                        assert(doc_view(self.doc) =~= before.push(block_view(block)));
                        assert(self.view() =~= MdState { blocks: s3.blocks.push(SBlock::Text { lead: spans_view(lead@), hang: None, body: Seq::empty() }), ..s3 });
                    }
                }
                let ghost s2 = self.view();
                let ghost before = self.items@;
                let _ = self.items.pop();
                proof {
                    if before.len() > 0 {
                        assert(self.items@.map_values(|it: Item| (it.marker@, it.fresh)) =~= before.map_values(|it: Item| (it.marker@, it.fresh)).drop_last());
                    }
                    assert(self.view() =~= MdState { items: if s2.items.len() > 0 { s2.items.drop_last() } else { s2.items }, ..s2 });
                }
            },
            MdEnd::Emphasis => {
                self.emphasis = if self.emphasis > 0 { self.emphasis - 1 } else { 0 };
                proof {
                    assert(self.view() =~= MdState { emphasis: less(old(self).view().emphasis), ..old(self).view() });
                }
            },
            MdEnd::Strong => {
                self.strong = if self.strong > 0 { self.strong - 1 } else { 0 };
                proof {
                    assert(self.view() =~= MdState { strong: less(old(self).view().strong), ..old(self).view() });
                }
            },
            MdEnd::Strikethrough => {
                self.struck = if self.struck > 0 { self.struck - 1 } else { 0 };
                proof {
                    assert(self.view() =~= MdState { struck: less(old(self).view().struck), ..old(self).view() });
                }
            },
            MdEnd::Link => self.end_link(),
            MdEnd::Image => {
                proof {
                    reveal_strlit("]");
                    assert("]"@ =~= seq![']']);
                }
                self.push(string_of(chars_of("]").as_slice()));
            },
            _ => self.end_table_part(end),
        }
    }

    /// Reads one event.
    fn event(&mut self, event: MdEvent)
        requires
            md_room(old(self).view()),
        ensures
            final(self).view() == md_step(old(self).view(), event),
    {
        proof {
            reveal_strlit("`");
            reveal_strlit(" ");
            reveal_strlit("\n");
            reveal_strlit("[x] ");
            reveal_strlit("[ ] ");
            assert("`"@ =~= seq!['`']);
            assert(" "@ =~= seq![' ']);
            assert("\n"@ =~= seq!['\n']);
            assert("[x] "@ =~= seq!['[', 'x', ']', ' ']);
            assert("[ ] "@ =~= seq!['[', ' ', ']', ' ']);
        }
        match event {
            MdEvent::Start(tag) => self.start(tag),
            MdEvent::End(end) => self.end(end),
            MdEvent::Text(text) => {
                let mut code: Option<String> = None;
                std::mem::swap(&mut code, &mut self.code);
                match code {
                    Some(mut c) => {
                        let ghost c0 = c@;
                        push_str(&mut c, text.as_str());
                        self.code = Some(c);
                        proof {
                            assert(old(self).view().code == Some(c0));
                            assert(self.view() =~= MdState { code: Some(c0 + text@), ..old(self).view() });
                        }
                    },
                    None => {
                        proof {
                            assert(self.view() =~= old(self).view());
                        }
                        self.push(text);
                    },
                }
            },
            MdEvent::Code(code) => {
                let tone = self.tone();
                let ghost s0 = self.view();
                let ghost t0 = md_target(s0);
                self.push_span(Span { text: string_of(chars_of("`").as_slice()), tone: Tone::of(Hue::Secondary) });
                let ghost code_view = code@;
                self.push_span(Span { text: code, tone });
                self.push_span(Span { text: string_of(chars_of("`").as_slice()), tone: Tone::of(Hue::Secondary) });
                proof {
                    assert(t0.push((seq!['`'], grey())).push((code_view, tone)).push((seq!['`'], grey())) =~= t0 + seq![(seq!['`'], grey()), (code_view, tone), (seq!['`'], grey())]);
                    assert(self.view() =~= with_target(s0, t0 + seq![(seq!['`'], grey()), (code_view, tone), (seq!['`'], grey())]));
                }
            },
            MdEvent::InlineMath(math) => self.push(math),
            MdEvent::DisplayMath(math) => self.push(math),
            MdEvent::SoftBreak => self.push(string_of(chars_of(" ").as_slice())),
            MdEvent::HardBreak => self.push(string_of(chars_of("\n").as_slice())),
            MdEvent::Rule => {
                self.flush();
                let ghost s1 = self.view();
                let ghost before = doc_view(self.doc);
                self.doc.push(Block::Rule);
                proof {
                    assert(doc_view(self.doc) =~= before.push(SBlock::Rule));
                    assert(self.view() =~= MdState { blocks: s1.blocks.push(SBlock::Rule), ..s1 });
                }
                self.blank();
            },
            MdEvent::TaskListMarker(done) => {
                let mark = if done { "[x] " } else { "[ ] " };
                self.push(string_of(chars_of(mark).as_slice()));
            },
            MdEvent::FootnoteReference(label) => {
                let mut text = String::new();
                push_char(&mut text, '[');
                push_str(&mut text, label.as_str());
                push_char(&mut text, ']');
                proof {
                    assert(text@ =~= seq!['['] + label@ + seq![']']);
                }
                self.push(text);
            },
            MdEvent::Html(_) => {},
            MdEvent::InlineHtml(_) => {},
        }
    }
}

/// Counts no larger than the events read: `k` events open at most `k` elements, and list numbers
/// grow by one an item.
pub open spec fn md_bounded(st: MdState, k: int) -> bool {
    &&& 0 <= st.strong <= k
    &&& 0 <= st.emphasis <= k
    &&& 0 <= st.struck <= k
    &&& 0 <= st.quote <= k
    &&& forall|i: int| 0 <= i < st.lists.len() ==> (#[trigger] st.lists[i] matches Some(n) ==> 0 <= n <= u64::MAX + k)
}

/// Ending a paragraph, or drawing the prefixes, changes no count.
proof fn flush_keeps(st: MdState)
    ensures
        md_prefixes(st).2.strong == st.strong,
        md_prefixes(st).2.emphasis == st.emphasis,
        md_prefixes(st).2.struck == st.struck,
        md_prefixes(st).2.quote == st.quote,
        md_prefixes(st).2.lists == st.lists,
        md_flush(st).strong == st.strong,
        md_flush(st).emphasis == st.emphasis,
        md_flush(st).struck == st.struck,
        md_flush(st).quote == st.quote,
        md_flush(st).lists == st.lists,
        md_blank(st).strong == st.strong,
        md_blank(st).emphasis == st.emphasis,
        md_blank(st).struck == st.struck,
        md_blank(st).quote == st.quote,
        md_blank(st).lists == st.lists,
{
    let inner = MdState { inline: Seq::empty(), ..st };
    assert(md_prefixes(inner).2.lists == st.lists);
}

/// Reading one more event keeps the counts within the events read.
proof fn step_bounded(st: MdState, event: MdEvent, k: int)
    requires
        md_bounded(st, k),
        k >= 0,
    ensures
        md_bounded(md_step(st, event), k + 1),
{
    flush_keeps(st);
    let f = md_flush(st);
    flush_keeps(f);
    flush_keeps(MdState { code: None, ..st });
    let p = md_prefixes(MdState { code: None, ..st });
    flush_keeps(p.2);
    match event {
        MdEvent::Start(tag) => {
            match tag {
                MdTag::Heading(_) => {
                    flush_keeps(md_blank(f));
                },
                MdTag::Item => {
                    let last = if f.lists.len() > 0 { Some(f.lists.last()) } else { None };
                    let lists = match last {
                        Some(Some(n)) => f.lists.update(f.lists.len() - 1, Some(n + 1)),
                        _ => f.lists,
                    };
                    assert forall|i: int| 0 <= i < lists.len() implies (#[trigger] lists[i] matches Some(n) ==> 0 <= n <= u64::MAX + k + 1) by {
                        if i < f.lists.len() - 1 {
                            assert(lists[i] == f.lists[i]);
                        }
                    }
                },
                MdTag::List(start) => {
                    let lists = f.lists.push(match start { Some(n) => Some(n as int), None => None });
                    assert forall|i: int| 0 <= i < lists.len() implies (#[trigger] lists[i] matches Some(n) ==> 0 <= n <= u64::MAX + k + 1) by {
                        if i < f.lists.len() {
                            assert(lists[i] == f.lists[i]);
                        }
                    }
                },
                _ => {},
            }
        },
        MdEvent::End(end) => {
            match end {
                MdEnd::Item => {
                    if f.items.len() > 0 && f.items.last().1 {
                        flush_keeps(f);
                    }
                },
                MdEnd::List => {
                    let lists = if f.lists.len() > 0 { f.lists.drop_last() } else { f.lists };
                    assert forall|i: int| 0 <= i < lists.len() implies (#[trigger] lists[i] matches Some(n) ==> 0 <= n <= u64::MAX + k + 1) by {
                        assert(lists[i] == f.lists[i]);
                    }
                    flush_keeps(MdState { lists, ..f });
                },
                MdEnd::BlockQuote => {
                    flush_keeps(MdState { quote: less(f.quote), ..f });
                },
                MdEnd::Heading => {
                    flush_keeps(MdState { heading: None, ..f });
                },
                MdEnd::CodeBlock => {
                    flush_keeps(MdState { blocks: p.2.blocks.push(SBlock::Pre(Seq::empty())), ..p.2 });
                },
                _ => {},
            }
        },
        MdEvent::Rule => {
            flush_keeps(MdState { blocks: f.blocks.push(SBlock::Rule), ..f });
        },
        _ => {},
    }
}

/// The document for a page's events.
pub fn doc_of_events(events: Vec<MdEvent>) -> (doc: Doc)
    ensures
        doc_view(doc) == events_doc(events@),
{
    let ghost all = events@;
    let mut events = events;
    let mut reversed: Vec<MdEvent> = Vec::new();
    while events.len() > 0
        invariant
            events@.len() + reversed@.len() == all.len(),
            events@ == all.take(events@.len() as int),
            forall|j: int| 0 <= j < reversed@.len() ==> #[trigger] reversed@[j] == all[all.len() - 1 - j],
        decreases events@.len(),
    {
        let e = events.pop().unwrap();
        proof {
            assert(events@ =~= all.take(events@.len() as int));
        }
        reversed.push(e);
    }
    let mut builder = Builder::new();
    let mut k: usize = 0;
    let n = reversed.len();
    while reversed.len() > 0
        invariant
            n == all.len(),
            k + reversed@.len() == n,
            forall|j: int| 0 <= j < reversed@.len() ==> #[trigger] reversed@[j] == all[all.len() - 1 - j],
            builder.view() == md_run(all, k as int),
            md_bounded(builder.view(), k as int),
        decreases reversed@.len(),
    {
        let e = reversed.pop().unwrap();
        proof {
            assert(e == all[k as int]);
            step_bounded(builder.view(), e, k as int);
        }
        builder.event(e);
        k = k + 1;
    }
    builder.flush();
    let mut doc = builder.doc;
    proof {
        assert(doc_view(doc) == md_flush(md_run(all, all.len() as int)).blocks);
    }
    loop
        invariant
            drop_trailing_blanks(doc_view(doc)) == events_doc(all),
        ensures
            doc_view(doc) == events_doc(all),
        decreases doc.blocks@.len(),
    {
        let m = doc.blocks.len();
        if m == 0 {
            break;
        }
        let blank = match &doc.blocks[m - 1] {
            Block::Blank => true,
            _ => false,
        };
        if !blank {
            break;
        }
        let ghost before = doc_view(doc);
        let _ = doc.blocks.pop();
        proof {
            assert(doc_view(doc) =~= before.drop_last());
        }
    }
    doc
}

/// The document for a markdown page.
pub fn to_doc(markdown: &str) -> (doc: Doc)
    ensures
        doc_view(doc) == events_doc(markdown_events(markdown@)),
{
    doc_of_events(parse_markdown(markdown))
}

} // verus!
