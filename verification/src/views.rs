//! What some commands say, as documents: `/help`, the keys of the shortcut box, the welcome box,
//! `/examples` and caution lines. Their sentences come from the caller, in the reader's language.

use vstd::prelude::*;

use crate::commands::{command_table, comma_joined, join_commas, specs, Spec};
use crate::phrases::{fill, filled_by_views, filled_views, values_view};
use crate::doc::{body_tone, plain, span, Align, Block, Doc, Entry, Hue, Kind, Span, Table, Tone};
use crate::markdown::{block_view, doc_view, lines_view, span_view, spans_view, table_view, SBlock, SSpan, STable};
use crate::activities::grouped_text;
use crate::strings::{chars_of, push_str, spaces, spaces_string, string_of};
use crate::width::{str_columns, str_width};

verus! {

/// A full page to open in the pager.
#[derive(Clone, Debug, PartialEq, Eq)]
pub struct Page {
    /// What the pager's top line says.
    pub title: String,
    /// The page source.
    pub markdown: &'static str,
}

/// Dimmed text.
pub open spec fn dim() -> Tone {
    Tone { hue: Hue::Secondary, ..body_tone() }
}

/// Bold text in the default colour.
pub open spec fn strong() -> Tone {
    Tone { bold: true, ..body_tone() }
}

/// A caution line: `⚠` and the text, both yellow.
pub open spec fn caution_line(text: Seq<char>) -> Seq<SSpan> {
    let tone = Tone { hue: Hue::Caution, ..body_tone() };
    seq![("⚠ "@, tone), (text, tone)]
}

/// A caution line, as [`caution_line`] says.
pub fn caution(text: &str) -> (line: Vec<Span>)
    ensures
        spans_view(line@) == caution_line(text@),
{
    let tone = Tone::of(Hue::Caution);
    let line = vec![span("⚠ ", tone), span(text, tone)];
    proof {
        assert(spans_view(line@) =~= caution_line(text@));
    }
    line
}

/// `/help`: a bold heading, a table of every command's usage with its summary dimmed, and a
/// dimmed hint about the shortcuts.
pub open spec fn spec_help(heading: Seq<char>, summaries: Seq<Seq<char>>, hint: Seq<char>) -> Seq<SBlock> {
    let table = command_table();
    seq![
        SBlock::Text { lead: Seq::empty(), hang: None, body: seq![(heading, strong())] },
        SBlock::Table(STable {
            header: Seq::empty(),
            align: Seq::empty(),
            rows: Seq::new(table.len(), |i: int| seq![seq![(table[i].usage, body_tone())], seq![(summaries[i], dim())]]),
            wrap: true,
            optional: Seq::empty(),
        }),
        SBlock::Text { lead: Seq::empty(), hang: None, body: seq![(hint, dim())] },
    ]
}

/// Whether a block reads as `view`.
pub open spec fn block_is(block: Block, view: SBlock) -> bool {
    crate::markdown::block_view(block) == view
}

/// Texts as sequences.
pub open spec fn texts_view(texts: Seq<String>) -> Seq<Seq<char>> {
    texts.map_values(|t: String| t@)
}

/// `/help`, as [`spec_help`] says, with each command's summary in `summaries`, in the order of
/// the command table.
pub fn help(heading: &str, summaries: &Vec<String>, hint: &str) -> (entry: Entry)
    requires
        summaries@.len() == command_table().len(),
    ensures
        entry.kind == Kind::Result,
        doc_view(entry.doc) == spec_help(heading@, texts_view(summaries@), hint@),
{
    let table = specs();
    let ghost sv = table@.map_values(|s: Spec| crate::commands::spec_view(s));
    let ghost expected = spec_help(heading@, texts_view(summaries@), hint@);
    let ghost rows_expected = Seq::new(command_table().len(), |i: int| seq![seq![(command_table()[i].usage, body_tone())], seq![(texts_view(summaries@)[i], dim())]]);
    proof {
        assert(sv == command_table());
        assert(table@.len() == command_table().len());
    }
    let mut rows: Vec<Vec<Vec<Span>>> = Vec::new();
    let mut i: usize = 0;
    while i < table.len()
        invariant
            i <= table@.len(),
            table@.len() == summaries@.len(),
            sv == table@.map_values(|s: Spec| crate::commands::spec_view(s)),
            sv == command_table(),
            rows_expected == Seq::new(command_table().len(), |i: int| seq![seq![(command_table()[i].usage, body_tone())], seq![(texts_view(summaries@)[i], dim())]]),
            rows@.map_values(|r: Vec<Vec<Span>>| lines_view(r@)) == rows_expected.take(i as int),
        decreases table@.len() - i,
    {
        let usage = vec![plain(table[i].usage)];
        let summary = vec![span(summaries[i].as_str(), Tone::of(Hue::Secondary))];
        let row = vec![usage, summary];
        proof {
            assert(sv[i as int].usage == table@[i as int].usage@);
            assert(lines_view(row@) =~~= rows_expected[i as int]);
        }
        let ghost before = rows@.map_values(|r: Vec<Vec<Span>>| lines_view(r@));
        rows.push(row);
        i = i + 1;
        proof {
            assert(rows@.map_values(|r: Vec<Vec<Span>>| lines_view(r@)) =~~= before.push(rows_expected[i - 1]));
            assert(rows_expected.take(i as int) =~~= rows_expected.take(i - 1).push(rows_expected[i - 1]));
        }
    }
    proof {
        assert(rows_expected.take(table@.len() as int) =~~= rows_expected);
    }
    let ghost rows_view = rows@.map_values(|r: Vec<Vec<Span>>| lines_view(r@));
    let mut doc = Doc::new();
    let first = vec![span(heading, Tone::body().bold())];
    let ghost first_view = spans_view(first@);
    doc.line(first);
    let ghost b1 = doc.blocks@;
    let table = Table { header: Vec::new(), align: Vec::new(), rows, wrap: true, optional: Vec::new() };
    let ghost table_view = crate::markdown::table_view(table);
    doc.push(Block::Table(table));
    let ghost b2 = doc.blocks@;
    let last = vec![span(hint, Tone::of(Hue::Secondary))];
    let ghost last_view = spans_view(last@);
    doc.line(last);
    proof {
        assert(first_view =~= seq![(heading@, strong())]);
        assert(last_view =~= seq![(hint@, dim())]);
        assert(table_view.header =~= Seq::<Seq<SSpan>>::empty());
        assert(table_view.align =~= Seq::<crate::doc::Align>::empty());
        assert(table_view.optional =~= Seq::<usize>::empty());
        assert(table_view.rows =~~= rows_expected);
        assert(doc.blocks@.len() == 3);
        assert(b1.len() == 1);
        assert(doc.blocks@[0] == b2[0]);
        assert(b2[0] == b1[0]);
        assert(b2[1] == Block::Table(table));
        assert(doc.blocks@[1] == b2[1]);
        assert(spans_view(Seq::<Span>::empty()) =~= Seq::<SSpan>::empty());
        assert(block_is(doc.blocks@[0], SBlock::Text { lead: Seq::empty(), hang: None, body: first_view }));
        assert(doc_view(doc)[0] =~~= expected[0]);
        assert(doc_view(doc)[1] =~~= expected[1]);
        assert(doc_view(doc)[2] =~~= expected[2]);
        assert(doc_view(doc) =~~= expected);
    }
    Entry::new(Kind::Result, doc)
}

/// The keys the shortcut box explains, in its order.
pub open spec fn shortcut_keys_view() -> Seq<Seq<char>> {
    seq![
        "enter"@,
        "shift+enter, ctrl+j"@,
        "tab"@,
        "↑ ↓"@,
        "esc"@,
        "ctrl+c"@,
        "pgup pgdn, wheel"@,
        "ctrl+o"@,
        "ctrl+l"@,
        "?"@,
        "shift+drag"@,
    ]
}

/// The keys the shortcut box explains, in its order; the caller pairs each with what it does.
pub fn shortcut_keys() -> (keys: Vec<&'static str>)
    ensures
        keys@.map_values(|k: &str| k@) == shortcut_keys_view(),
{
    let keys = vec![
        "enter",
        "shift+enter, ctrl+j",
        "tab",
        "↑ ↓",
        "esc",
        "ctrl+c",
        "pgup pgdn, wheel",
        "ctrl+o",
        "ctrl+l",
        "?",
        "shift+drag",
    ];
    proof {
        assert(keys@.map_values(|k: &str| k@) =~= shortcut_keys_view());
    }
    keys
}


/// The welcome box's sentences: what this is, what each suggested command does, and how to
/// switch to Korean.
pub struct WelcomeTexts {
    /// What this is.
    pub tagline: String,
    /// What `/list` shows.
    pub list: String,
    /// What `/examples` shows.
    pub examples: String,
    /// What `/run all one-plus-one` does.
    pub run_all: String,
    /// What `/lang ko` does.
    pub lang: String,
}

/// The columns the suggested commands are padded to: the widest of the three to try.
pub open spec fn try_width() -> int {
    let a = str_columns("/list"@) as int;
    let b = str_columns("/examples"@) as int;
    let c = str_columns("/run all one-plus-one"@) as int;
    let ab = if a > b { a } else { b };
    if ab > c { ab } else { c }
}

/// A suggested command in bold, padded two columns past the widest, and what it does, dimmed.
pub open spec fn try_row(command: Seq<char>, words: Seq<char>, width: int) -> Seq<SSpan> {
    seq![(command, strong()), (spaces((width - str_columns(command) + 2) as nat), body_tone()), (words, dim())]
}

/// The welcome box: the name in bold with the `version` dimmed, what this is, three commands to
/// try and how to switch to Korean; and a caution when no proof system is built in.
pub open spec fn spec_welcome(version: Seq<char>, texts: WelcomeTexts, no_systems: Option<Seq<char>>) -> Seq<SBlock> {
    let w = try_width();
    let lines = seq![
        seq![("nmtzk"@, strong()), (" v"@ + version, dim())],
        seq![(texts.tagline@, body_tone())],
        Seq::<SSpan>::empty(),
        try_row("/list"@, texts.list@, w),
        try_row("/examples"@, texts.examples@, w),
        try_row("/run all one-plus-one"@, texts.run_all@, w),
        Seq::<SSpan>::empty(),
        try_row("/lang ko"@, texts.lang@, w),
    ];
    let tail = match no_systems {
        Some(t) => seq![Seq::<SSpan>::empty(), caution_line(t)],
        None => Seq::<Seq<SSpan>>::empty(),
    };
    seq![SBlock::Boxed(lines + tail)]
}

/// A suggested command padded to `width` columns, then what it does.
fn try_line(command: &str, words: &str, width: usize) -> (line: Vec<Span>)
    requires
        str_columns(command@) <= width,
        width + 2 <= usize::MAX,
    ensures
        spans_view(line@) == try_row(command@, words@, width as int),
{
    let used = str_width(command);
    let pad = spaces_string(width - used + 2);
    let line = vec![span(command, Tone::body().bold()), plain(pad.as_str()), span(words, Tone::of(Hue::Secondary))];
    proof {
        assert(spans_view(line@) =~= try_row(command@, words@, width as int));
    }
    line
}

/// The welcome box, as [`spec_welcome`] says.
pub fn welcome(version: &str, texts: &WelcomeTexts, no_systems: Option<&str>) -> (entry: Entry)
    ensures
        entry.kind == Kind::Welcome,
        doc_view(entry.doc) == spec_welcome(version@, *texts, match no_systems { Some(t) => Some(t@), None => None }),
{
    let a = str_width("/list");
    let b = str_width("/examples");
    let c = str_width("/run all one-plus-one");
    let l = str_width("/lang ko");
    proof {
        reveal_strlit("/list");
        reveal_strlit("/examples");
        reveal_strlit("/run all one-plus-one");
        reveal_strlit("/lang ko");
        assert forall|i: int| 0 <= i < "/run all one-plus-one"@.len() implies crate::width::printable_ascii(#[trigger] "/run all one-plus-one"@[i]) by {}
        assert forall|i: int| 0 <= i < "/lang ko"@.len() implies crate::width::printable_ascii(#[trigger] "/lang ko"@[i]) by {}
    }
    let ab = if a > b { a } else { b };
    let w = if ab > c { ab } else { c };
    proof {
        assert(c == 21);
        assert(l == 8);
        assert(w == try_width());
        assert(a <= 15 && b <= 27);
    }
    let mut heading = string_of(chars_of(" v").as_slice());
    push_str(&mut heading, version);
    let mut lines: Vec<Vec<Span>> = vec![
        vec![span("nmtzk", Tone::body().bold()), span(heading.as_str(), Tone::of(Hue::Secondary))],
        vec![plain(texts.tagline.as_str())],
        Vec::new(),
        try_line("/list", texts.list.as_str(), w),
        try_line("/examples", texts.examples.as_str(), w),
        try_line("/run all one-plus-one", texts.run_all.as_str(), w),
        Vec::new(),
        try_line("/lang ko", texts.lang.as_str(), w),
    ];
    let ghost head = lines_view(lines@);
    match no_systems {
        Some(text) => {
            lines.push(Vec::new());
            lines.push(caution(text));
        },
        None => {},
    }
    proof {
        let expected = spec_welcome(version@, *texts, match no_systems { Some(t) => Some(t@), None => None });
        assert(head[0] =~~= seq![("nmtzk"@, strong()), (" v"@ + version@, dim())]);
        assert(head[1] =~~= seq![(texts.tagline@, body_tone())]);
        assert(head[2] =~~= Seq::<SSpan>::empty());
        assert(head[6] =~~= Seq::<SSpan>::empty());
        match no_systems {
            Some(t) => {
                assert(lines_view(lines@)[8] =~~= Seq::<SSpan>::empty());
                assert(lines_view(lines@) =~~= expected[0]->Boxed_0);
            },
            None => {
                assert(lines_view(lines@) =~~= expected[0]->Boxed_0);
            },
        }
    }
    let mut doc = Doc::new();
    doc.push(Block::Boxed(lines));
    proof {
        assert(doc_view(doc) =~~= spec_welcome(version@, *texts, match no_systems { Some(t) => Some(t@), None => None }));
    }
    Entry::new(Kind::Welcome, doc)
}


/// What `/examples` lists of one example: its id, the statement it proves, and the names of its
/// public and private inputs.
pub struct ExampleFacts {
    /// The id typed after `/run`.
    pub id: String,
    /// The statement, in the reader's language.
    pub statement: String,
    /// Names of the public inputs.
    pub public: Vec<String>,
    /// Names of the private inputs.
    pub private: Vec<String>,
}

/// The sentences of `/examples`: its title; the inputs line, naming `{public}` and `{private}`;
/// the shortened list of many names, naming `{first}`, `{last}` and `{count}`; and the closing
/// note about the toy hash.
pub struct ExamplesTexts {
    /// The title.
    pub title: String,
    /// The inputs line.
    pub inputs: String,
    /// A long list of names, shortened.
    pub many: String,
    /// The closing note.
    pub toy_hash: String,
}

/// Input names: listed with commas, or, when there are more than four (a sudoku grid, a Merkle
/// path), the first two, the last and how many there are.
pub open spec fn names_text(list: Seq<Seq<char>>, many: Seq<char>) -> Seq<char> {
    if list.len() > 4 {
        filled_views(many, seq![
            ("first"@, list[0] + ", "@ + list[1]),
            ("last"@, list.last()),
            ("count"@, crate::activities::decimal(list.len())),
        ])
    } else {
        comma_joined(list)
    }
}

/// Input names, as [`names_text`] says.
pub fn names(list: &Vec<String>, many: &str) -> (out: String)
    requires
        list@.len() <= u128::MAX,
    ensures
        out@ == names_text(texts_view(list@), many@),
{
    let ghost lv = texts_view(list@);
    if list.len() > 4 {
        let mut first = string_of(chars_of(list[0].as_str()).as_slice());
        push_str(&mut first, ", ");
        push_str(&mut first, list[1].as_str());
        let count = string_of(crate::activities::decimal_digits(list.len() as u128).as_slice());
        let last = list.len() - 1;
        let values = [("first", first.as_str()), ("last", list[last].as_str()), ("count", count.as_str())];
        proof {
            assert(lv[0] == list@[0]@ && lv[1] == list@[1]@ && lv.last() == list@[last as int]@);
            assert(values_view(values@) =~= seq![
                ("first"@, lv[0] + ", "@ + lv[1]),
                ("last"@, lv.last()),
                ("count"@, crate::activities::decimal(lv.len())),
            ]);
        }
        crate::commands::fill_views(many, &values)
    } else {
        crate::commands::join_commas(list)
    }
}

/// An id padded with spaces to `width` characters.
pub open spec fn padded(text: Seq<char>, width: int) -> Seq<char> {
    if text.len() < width {
        text + spaces((width - text.len()) as nat)
    } else {
        text
    }
}

/// The widest example id, in columns.
pub open spec fn widest_id(examples: Seq<ExampleFacts>) -> int
    decreases examples.len(),
{
    if examples.len() == 0 {
        0
    } else {
        let w = str_columns(examples.last().id@) as int;
        let rest = widest_id(examples.drop_last());
        if w > rest { w } else { rest }
    }
}

/// The two lines of one example: its id in bold, padded to `width`, before its statement; then,
/// under the statement, its inputs, dimmed.
pub open spec fn example_blocks(e: ExampleFacts, width: int, texts: ExamplesTexts) -> Seq<SBlock> {
    let inputs = filled_views(texts.inputs@, seq![
        ("public"@, names_text(texts_view(e.public@), texts.many@)),
        ("private"@, names_text(texts_view(e.private@), texts.many@)),
    ]);
    seq![
        SBlock::Text { lead: seq![(padded(e.id@, width), strong())], hang: None, body: seq![(e.statement@, body_tone())] },
        SBlock::Text { lead: seq![(spaces(width as nat), body_tone())], hang: None, body: seq![(inputs, dim())] },
    ]
}

/// The lines of the first `k` examples.
pub open spec fn examples_blocks(examples: Seq<ExampleFacts>, width: int, texts: ExamplesTexts, k: int) -> Seq<SBlock>
    decreases k,
{
    if k <= 0 {
        Seq::empty()
    } else {
        examples_blocks(examples, width, texts, k - 1) + example_blocks(examples[k - 1], width, texts)
    }
}

/// `/examples`: the title, a blank row, two lines for each example with ids padded two columns
/// past the widest, a blank row and the note about the toy hash, dimmed.
pub open spec fn spec_examples(examples: Seq<ExampleFacts>, texts: ExamplesTexts) -> Seq<SBlock> {
    let width = widest_id(examples) + 2;
    seq![SBlock::Text { lead: Seq::empty(), hang: None, body: seq![(texts.title@, body_tone())] }, SBlock::Blank]
        + examples_blocks(examples, width, texts, examples.len() as int)
        + seq![SBlock::Blank, SBlock::Text { lead: Seq::empty(), hang: None, body: seq![(texts.toy_hash@, dim())] }]
}

/// Whether the examples are small enough to lay out.
pub open spec fn examples_fit(examples: Seq<ExampleFacts>) -> bool {
    forall|i: int| 0 <= i < examples.len() ==> 16 * (#[trigger] examples[i]).id@.len() + 8 <= usize::MAX
}

/// `/examples`, as [`spec_examples`] says.
pub fn examples(list: &Vec<ExampleFacts>, texts: &ExamplesTexts) -> (entry: Entry)
    requires
        examples_fit(list@),
        forall|i: int| 0 <= i < list@.len() ==> (#[trigger] list@[i]).public@.len() <= u128::MAX && list@[i].private@.len() <= u128::MAX,
    ensures
        entry.kind == Kind::Result,
        doc_view(entry.doc) == spec_examples(list@, *texts),
{
    let ghost ex = list@;
    let mut widest: usize = 0;
    let mut i: usize = 0;
    proof {
        assert(ex.take(0) =~= Seq::<ExampleFacts>::empty());
    }
    while i < list.len()
        invariant
            i <= list@.len(),
            ex == list@,
            examples_fit(ex),
            widest == widest_id(ex.take(i as int)),
            4 * widest + 8 <= usize::MAX,
        decreases list@.len() - i,
    {
        let w = crate::text::width(list[i].id.as_str());
        proof {
            assert(ex.take(i + 1).drop_last() =~= ex.take(i as int));
            assert(16 * ex[i as int].id@.len() + 8 <= usize::MAX);
        }
        if w > widest {
            widest = w;
        }
        i = i + 1;
    }
    proof {
        assert(ex.take(list@.len() as int) =~= ex);
    }
    let width = widest + 2;
    let mut doc = Doc::new();
    let title = vec![plain(texts.title.as_str())];
    let ghost tv = spans_view(title@);
    doc.line(title);
    doc.blank();
    let ghost head = doc_view(doc);
    proof {
        assert(spans_view(Seq::<Span>::empty()) =~= Seq::<SSpan>::empty());
        assert(tv =~= seq![(texts.title@, body_tone())]);
        assert(head =~~= seq![SBlock::Text { lead: Seq::empty(), hang: None, body: seq![(texts.title@, body_tone())] }, SBlock::Blank]);
        assert(head + examples_blocks(ex, width as int, *texts, 0) =~~= head);
    }
    let mut k: usize = 0;
    while k < list.len()
        invariant
            k <= list@.len(),
            ex == list@,
            width == widest_id(ex) + 2,
            4 * widest_id(ex) + 8 <= usize::MAX,
            forall|i: int| 0 <= i < ex.len() ==> (#[trigger] ex[i]).public@.len() <= u128::MAX && ex[i].private@.len() <= u128::MAX,
            doc_view(doc) == head + examples_blocks(ex, width as int, *texts, k as int),
        decreases list@.len() - k,
    {
        let e = &list[k];
        let id_chars = chars_of(e.id.as_str());
        let mut id = e.id.clone();
        if id_chars.len() < width {
            let pad = spaces_string(width - id_chars.len());
            push_str(&mut id, pad.as_str());
        }
        let public = names(&e.public, texts.many.as_str());
        let private = names(&e.private, texts.many.as_str());
        let values = [("public", public.as_str()), ("private", private.as_str())];
        let inputs = crate::commands::fill_views(texts.inputs.as_str(), &values);
        let ghost before = doc.blocks@;
        let lead1 = vec![span(id.as_str(), Tone::body().bold())];
        let body1 = vec![plain(e.statement.as_str())];
        let ghost l1 = spans_view(lead1@);
        let ghost y1 = spans_view(body1@);
        doc.led(lead1, body1);
        let ghost mid = doc.blocks@;
        let indent = spaces_string(width);
        let lead2 = vec![plain(indent.as_str())];
        let body2 = vec![span(inputs.as_str(), Tone::of(Hue::Secondary))];
        let ghost l2 = spans_view(lead2@);
        let ghost y2 = spans_view(body2@);
        doc.led(lead2, body2);
        k = k + 1;
        proof {
            let ev = ex[k - 1];
            assert(e == ev);
            assert(id@ == padded(ev.id@, width as int));
            assert(values_view(values@) =~= seq![
                ("public"@, names_text(texts_view(ev.public@), texts.many@)),
                ("private"@, names_text(texts_view(ev.private@), texts.many@)),
            ]);
            let pair = example_blocks(ev, width as int, *texts);
            assert(l1 =~= pair[0]->Text_lead);
            assert(y1 =~= pair[0]->Text_body);
            assert(l2 =~= pair[1]->Text_lead);
            assert(y2 =~= pair[1]->Text_body);
            assert(mid.drop_last() == before);
            assert(doc.blocks@.drop_last() == mid);
            assert(crate::markdown::block_view(mid.last()) == pair[0]);
            assert(crate::markdown::block_view(doc.blocks@.last()) == pair[1]);
            assert(doc.blocks@ =~= before.push(mid.last()).push(doc.blocks@.last()));
            assert(doc_view(doc) =~~= before.map_values(|b: Block| crate::markdown::block_view(b)).push(pair[0]).push(pair[1]));
            assert(examples_blocks(ex, width as int, *texts, k as int) == examples_blocks(ex, width as int, *texts, k - 1) + pair);
            assert(doc_view(doc) =~~= head + examples_blocks(ex, width as int, *texts, k as int));
        }
    }
    let ghost body_view = doc_view(doc);
    doc.blank();
    let note = vec![span(texts.toy_hash.as_str(), Tone::of(Hue::Secondary))];
    let ghost nv = spans_view(note@);
    let ghost before_note = doc.blocks@;
    doc.line(note);
    proof {
        let expected = spec_examples(ex, *texts);
        assert(nv =~= seq![(texts.toy_hash@, dim())]);
        assert(doc.blocks@.drop_last() == before_note);
        assert(doc.blocks@ =~= before_note.push(doc.blocks@.last()));
        assert(doc_view(doc) =~~= body_view.push(SBlock::Blank).push(crate::markdown::block_view(doc.blocks@.last())));
        assert(doc_view(doc) =~~= expected);
    }
    Entry::new(Kind::Result, doc)
}


/// A paper a system was published in.
pub struct Paper {
    /// Its title.
    pub title: String,
    /// Where it appeared.
    pub venue: String,
    /// Where to read it.
    pub url: String,
}

/// A project a system is used in, since when, and until when if it stopped.
pub struct Deployment {
    /// The project.
    pub project: String,
    /// Since when.
    pub since: String,
    /// Until when, if it stopped.
    pub until: Option<String>,
}

/// What `/about` lists of one system, its words already in the reader's language: the paper,
/// the setup and zero-knowledge cells as the catalog draws them, the names of its assumptions,
/// whether it resists quantum computers, its proof size, recursion, mode and field, the code cell,
/// its status line, and where it is used.
pub struct CatalogFacts {
    /// The paper, if there is one.
    pub paper: Option<Paper>,
    /// The trusted-setup cell.
    pub setup: Vec<Span>,
    /// The zero-knowledge cell.
    pub zero_knowledge: Vec<Span>,
    /// The names of the assumptions.
    pub assumptions: Vec<String>,
    /// Whether it resists quantum computers.
    pub post_quantum: bool,
    /// The proof size, in words.
    pub proof_size: String,
    /// Recursion, in words.
    pub recursion: String,
    /// The mode, in words.
    pub mode: String,
    /// The field.
    pub field: String,
    /// The implementation cell.
    pub code: Vec<Span>,
    /// The status line.
    pub status: String,
    /// Where it is used.
    pub deployments: Vec<Deployment>,
}

/// The words of `/about`'s facts: each label; the paper line, naming `{title}` and `{venue}`; yes
/// and no; and the deployment lines, naming `{project}`, `{since}` and `{until}`.
pub struct CatalogTexts {
    /// The paper label.
    pub paper: String,
    /// The trusted-setup label.
    pub setup: String,
    /// The zero-knowledge label.
    pub zero_knowledge: String,
    /// The assumptions label.
    pub assumptions: String,
    /// The post-quantum label.
    pub post_quantum: String,
    /// The proof-size label.
    pub proof_size: String,
    /// The recursion label.
    pub recursion: String,
    /// The mode label.
    pub mode: String,
    /// The field label.
    pub field: String,
    /// The code label.
    pub code: String,
    /// The status label.
    pub status: String,
    /// The used-in label.
    pub used_in: String,
    /// The paper line.
    pub paper_line: String,
    /// Yes.
    pub yes: String,
    /// No.
    pub no: String,
    /// A deployment that ended.
    pub deployment_range: String,
    /// A deployment still running.
    pub deployment_since: String,
}

/// Labelled cells as characters and tones.
pub open spec fn pairs_view(pairs: Seq<(String, Vec<Span>)>) -> Seq<(Seq<char>, Seq<SSpan>)> {
    pairs.map_values(|p: (String, Vec<Span>)| (p.0@, spans_view(p.1@)))
}

/// Words with a semicolon and a space between them.
pub open spec fn semicolon_joined(words: Seq<Seq<char>>) -> Seq<char>
    decreases words.len(),
{
    if words.len() == 0 {
        Seq::empty()
    } else if words.len() == 1 {
        words[0]
    } else {
        semicolon_joined(words.drop_last()) + seq![';', ' '] + words.last()
    }
}

/// One deployment in words.
pub open spec fn deployment_text(d: Deployment, texts: CatalogTexts) -> Seq<char> {
    match d.until {
        Some(until) => filled_views(texts.deployment_range@, seq![("project"@, d.project@), ("since"@, d.since@), ("until"@, until@)]),
        None => filled_views(texts.deployment_since@, seq![("project"@, d.project@), ("since"@, d.since@)]),
    }
}

/// The facts `/about` lists of a system, label by label: the paper when there is one, with its
/// address in the accent colour; then setup, zero knowledge, assumptions with commas between
/// them, post-quantum, proof size, recursion, mode, field, code and status; then where it is used,
/// with semicolons between the projects, when it is used anywhere.
pub open spec fn spec_facts(m: CatalogFacts, t: CatalogTexts) -> Seq<(Seq<char>, Seq<SSpan>)> {
    let paper = match m.paper {
        Some(p) => seq![(t.paper@, seq![
            (filled_views(t.paper_line@, seq![("title"@, p.title@), ("venue"@, p.venue@)]), body_tone()),
            (" ("@ + p.url@ + ")"@, Tone { hue: Hue::Accent, ..body_tone() }),
        ])],
        None => Seq::empty(),
    };
    let fixed = seq![
        (t.setup@, spans_view(m.setup@)),
        (t.zero_knowledge@, spans_view(m.zero_knowledge@)),
        (t.assumptions@, seq![(comma_joined(texts_view(m.assumptions@)), body_tone())]),
        (t.post_quantum@, seq![(if m.post_quantum { t.yes@ } else { t.no@ }, body_tone())]),
        (t.proof_size@, seq![(m.proof_size@, body_tone())]),
        (t.recursion@, seq![(m.recursion@, body_tone())]),
        (t.mode@, seq![(m.mode@, body_tone())]),
        (t.field@, seq![(m.field@, body_tone())]),
        (t.code@, spans_view(m.code@)),
        (t.status@, seq![(m.status@, body_tone())]),
    ];
    let used = if m.deployments@.len() > 0 {
        seq![(t.used_in@, seq![(semicolon_joined(m.deployments@.map_values(|d: Deployment| deployment_text(d, t))), body_tone())])]
    } else {
        Seq::empty()
    };
    paper + fixed + used
}

/// A label and its cell added to the list.
fn push_pair(pairs: &mut Vec<(String, Vec<Span>)>, label: &String, cell: Vec<Span>)
    ensures
        pairs_view(final(pairs)@) == pairs_view(old(pairs)@).push((label@, spans_view(cell@))),
{
    let ghost before = pairs_view(pairs@);
    pairs.push((label.clone(), cell));
    proof {
        assert(pairs_view(pairs@) =~= before.push((label@, spans_view(cell@))));
    }
}

/// A cell of one plain text.
fn text_cell(text: &str) -> (cell: Vec<Span>)
    ensures
        spans_view(cell@) == seq![(text@, body_tone())],
{
    let cell = vec![plain(text)];
    proof {
        assert(spans_view(cell@) =~= seq![(text@, body_tone())]);
    }
    cell
}

/// One deployment in words, as [`deployment_text`] says.
fn deployment_line(d: &Deployment, texts: &CatalogTexts) -> (line: String)
    ensures
        line@ == deployment_text(*d, *texts),
{
    match &d.until {
        Some(until) => {
            let values = [("project", d.project.as_str()), ("since", d.since.as_str()), ("until", until.as_str())];
            let line = fill(texts.deployment_range.as_str(), &values);
            proof {
                filled_by_views(texts.deployment_range@, values@);
                assert(values_view(values@) =~= seq![("project"@, d.project@), ("since"@, d.since@), ("until"@, until@)]);
            }
            line
        },
        None => {
            let values = [("project", d.project.as_str()), ("since", d.since.as_str())];
            let line = fill(texts.deployment_since.as_str(), &values);
            proof {
                filled_by_views(texts.deployment_since@, values@);
                assert(values_view(values@) =~= seq![("project"@, d.project@), ("since"@, d.since@)]);
            }
            line
        },
    }
}

/// Where a system is used, with a semicolon and a space between the projects.
fn used_in(deployments: &Vec<Deployment>, texts: &CatalogTexts) -> (out: String)
    ensures
        out@ == semicolon_joined(deployments@.map_values(|d: Deployment| deployment_text(d, *texts))),
{
    let ghost ws = deployments@.map_values(|d: Deployment| deployment_text(d, *texts));
    let mut out = String::new();
    let mut i: usize = 0;
    proof {
        assert(ws.take(0) =~= Seq::<Seq<char>>::empty());
    }
    while i < deployments.len()
        invariant
            i <= deployments@.len(),
            ws == deployments@.map_values(|d: Deployment| deployment_text(d, *texts)),
            out@ == semicolon_joined(ws.take(i as int)),
        decreases deployments@.len() - i,
    {
        if i > 0 {
            push_str(&mut out, "; ");
        }
        let line = deployment_line(&deployments[i], texts);
        push_str(&mut out, line.as_str());
        proof {
            reveal_strlit("; ");
            let t = ws.take(i + 1);
            assert(t.drop_last() =~= ws.take(i as int));
            assert(t.last() == deployment_text(deployments@[i as int], *texts));
            assert(out@ =~= semicolon_joined(t));
        }
        i = i + 1;
    }
    proof {
        assert(ws.take(deployments@.len() as int) =~= ws);
    }
    out
}

/// The facts `/about` lists of a system, as [`spec_facts`] says.
pub fn facts(meta: &CatalogFacts, texts: &CatalogTexts) -> (pairs: Vec<(String, Vec<Span>)>)
    ensures
        pairs_view(pairs@) == spec_facts(*meta, *texts),
{
    let mut pairs: Vec<(String, Vec<Span>)> = Vec::new();
    if let Some(paper) = &meta.paper {
        let values = [("title", paper.title.as_str()), ("venue", paper.venue.as_str())];
        let title = fill(texts.paper_line.as_str(), &values);
        let mut link = String::new();
        push_str(&mut link, " (");
        push_str(&mut link, paper.url.as_str());
        push_str(&mut link, ")");
        let cell = vec![plain(title.as_str()), span(link.as_str(), Tone::of(Hue::Accent))];
        proof {
            filled_by_views(texts.paper_line@, values@);
            assert(values_view(values@) =~= seq![("title"@, paper.title@), ("venue"@, paper.venue@)]);
            assert(link@ =~= " ("@ + paper.url@ + ")"@);
            assert(spans_view(cell@) =~= seq![
                (filled_views(texts.paper_line@, seq![("title"@, paper.title@), ("venue"@, paper.venue@)]), body_tone()),
                (" ("@ + paper.url@ + ")"@, Tone { hue: Hue::Accent, ..body_tone() }),
            ]);
        }
        push_pair(&mut pairs, &texts.paper, cell);
    }
    let ghost head = pairs_view(pairs@);
    push_pair(&mut pairs, &texts.setup, crate::doc::copy_spans(&meta.setup));
    push_pair(&mut pairs, &texts.zero_knowledge, crate::doc::copy_spans(&meta.zero_knowledge));
    let assumptions = join_commas(&meta.assumptions);
    push_pair(&mut pairs, &texts.assumptions, text_cell(assumptions.as_str()));
    let answer = if meta.post_quantum { texts.yes.as_str() } else { texts.no.as_str() };
    push_pair(&mut pairs, &texts.post_quantum, text_cell(answer));
    push_pair(&mut pairs, &texts.proof_size, text_cell(meta.proof_size.as_str()));
    push_pair(&mut pairs, &texts.recursion, text_cell(meta.recursion.as_str()));
    push_pair(&mut pairs, &texts.mode, text_cell(meta.mode.as_str()));
    push_pair(&mut pairs, &texts.field, text_cell(meta.field.as_str()));
    push_pair(&mut pairs, &texts.code, crate::doc::copy_spans(&meta.code));
    push_pair(&mut pairs, &texts.status, text_cell(meta.status.as_str()));
    let ghost middle = pairs_view(pairs@);
    if meta.deployments.len() > 0 {
        let used = used_in(&meta.deployments, texts);
        push_pair(&mut pairs, &texts.used_in, text_cell(used.as_str()));
    }
    proof {
        let m = *meta;
        let t = *texts;
        assert(m.assumptions@.map_values(|w: String| w@) == texts_view(m.assumptions@));
        let fixed = seq![
            (t.setup@, spans_view(m.setup@)),
            (t.zero_knowledge@, spans_view(m.zero_knowledge@)),
            (t.assumptions@, seq![(comma_joined(texts_view(m.assumptions@)), body_tone())]),
            (t.post_quantum@, seq![(if m.post_quantum { t.yes@ } else { t.no@ }, body_tone())]),
            (t.proof_size@, seq![(m.proof_size@, body_tone())]),
            (t.recursion@, seq![(m.recursion@, body_tone())]),
            (t.mode@, seq![(m.mode@, body_tone())]),
            (t.field@, seq![(m.field@, body_tone())]),
            (t.code@, spans_view(m.code@)),
            (t.status@, seq![(m.status@, body_tone())]),
        ];
        assert(middle =~= head + fixed);
    }
    pairs
}


/// What one step of an attack on the pool shows, its words already in the reader's language:
/// what was tried, against which circuit, what the ledger did with it, whether the ledger
/// recorded it, whether it was a forgery, the verifier's word when the ledger judged a proof, the
/// assertions the proved values break, and the scratch pool afterwards.
pub struct StepFacts {
    /// What was tried.
    pub action: String,
    /// The circuit it was proved against.
    pub circuit: String,
    /// What the ledger did with it.
    pub outcome: String,
    /// Whether the ledger recorded it.
    pub recorded: bool,
    /// Whether it was a forgery.
    pub forgery: bool,
    /// The verifier's word on the proof, when the ledger judged one.
    pub verdict: Option<String>,
    /// The assertions the proved values break.
    pub violated: Vec<String>,
    /// The pool's balance afterwards.
    pub pool_balance: u64,
    /// The attacker's balance afterwards.
    pub attacker_balance: u64,
    /// How many nullifiers the ledger holds afterwards.
    pub nullifiers: u64,
}

/// The sentences of a step: the verifier's word, naming `{verdict}`; the broken assertions,
/// naming `{labels}`; and the pool afterwards, naming `{pool}`, `{attacker}` and `{nullifiers}`.
pub struct StepTexts {
    /// The verifier line.
    pub verifier: String,
    /// The broken-assertions line.
    pub broken: String,
    /// The line on the pool afterwards.
    pub after: String,
}

/// A tone of one colour role.
pub open spec fn hue_tone(hue: Hue) -> Tone {
    Tone { hue, ..body_tone() }
}

/// The detail lines of a step: the verifier's word when there is one, the broken assertions when
/// there are any, and the pool afterwards.
pub open spec fn step_details(step: StepFacts, texts: StepTexts) -> Seq<Seq<char>> {
    let verdict = match step.verdict {
        Some(v) => seq![filled_views(texts.verifier@, seq![("verdict"@, v@)])],
        None => Seq::empty(),
    };
    let broken = if step.violated@.len() > 0 {
        seq![filled_views(texts.broken@, seq![("labels"@, semicolon_joined(texts_view(step.violated@)))])]
    } else {
        Seq::empty()
    };
    let after = seq![filled_views(texts.after@, seq![
        ("pool"@, grouped_text(step.pool_balance as nat)),
        ("attacker"@, grouped_text(step.attacker_balance as nat)),
        ("nullifiers"@, crate::activities::decimal(step.nullifiers as nat)),
    ])];
    verdict + broken + after
}

/// Step `number` of an attack: its number before what was tried, in bold, and the circuit,
/// dimmed; under it, indented past the number, a tick when the ledger did what it should (a
/// forgery refused, any other step recorded) and a cross otherwise, before what the ledger did,
/// in red when it was wrong; then each detail line, indented the same way and dimmed.
pub open spec fn spec_step_doc(number: nat, step: StepFacts, texts: StepTexts) -> Seq<SBlock> {
    let secondary = hue_tone(Hue::Secondary);
    let indent = (spaces((crate::activities::decimal(number).len() + 2) as nat), body_tone());
    let good = step.recorded != step.forgery;
    let mark = if good { ("✓ "@, hue_tone(Hue::Success)) } else { ("✗ "@, hue_tone(Hue::Failure)) };
    let tone = if good { body_tone() } else { hue_tone(Hue::Failure) };
    seq![
        SBlock::Text {
            lead: seq![(crate::activities::decimal(number) + ". "@, body_tone())],
            hang: None,
            body: seq![(step.action@, strong()), (" · "@ + step.circuit@, secondary)],
        },
        SBlock::Text { lead: seq![indent, mark], hang: None, body: seq![(step.outcome@, tone)] },
    ] + step_details(step, texts).map_values(|d: Seq<char>| SBlock::Text { lead: seq![indent], hang: None, body: seq![(d, secondary)] })
}

/// A line with a lead added to a document.
fn push_led(doc: &mut Doc, lead: Vec<Span>, body: Vec<Span>)
    ensures
        doc_view(*final(doc)) == doc_view(*old(doc)).push(SBlock::Text { lead: spans_view(lead@), hang: None, body: spans_view(body@) }),
{
    let ghost before = doc_view(*doc);
    let ghost lv = spans_view(lead@);
    let ghost bv = spans_view(body@);
    doc.led(lead, body);
    proof {
        assert(doc_view(*doc) =~= before.push(SBlock::Text { lead: lv, hang: None, body: bv }));
    }
}

/// Labels with a semicolon and a space between them.
fn join_semicolons(words: &Vec<String>) -> (out: String)
    ensures
        out@ == semicolon_joined(texts_view(words@)),
{
    let ghost ws = texts_view(words@);
    let mut out = String::new();
    let mut i: usize = 0;
    proof {
        assert(ws.take(0) =~= Seq::<Seq<char>>::empty());
    }
    while i < words.len()
        invariant
            i <= words@.len(),
            ws == texts_view(words@),
            out@ == semicolon_joined(ws.take(i as int)),
        decreases words@.len() - i,
    {
        if i > 0 {
            push_str(&mut out, "; ");
        }
        push_str(&mut out, words[i].as_str());
        proof {
            reveal_strlit("; ");
            let t = ws.take(i + 1);
            assert(t.drop_last() =~= ws.take(i as int));
            assert(t.last() == words@[i as int]@);
            assert(out@ =~= semicolon_joined(t));
        }
        i = i + 1;
    }
    proof {
        assert(ws.take(words@.len() as int) =~= ws);
    }
    out
}

/// The detail lines of a step, as [`step_details`] says.
fn details_of(step: &StepFacts, texts: &StepTexts) -> (details: Vec<String>)
    ensures
        texts_view(details@) == step_details(*step, *texts),
{
    let mut details: Vec<String> = Vec::new();
    if let Some(verdict) = &step.verdict {
        let values = [("verdict", verdict.as_str())];
        let line = fill(texts.verifier.as_str(), &values);
        proof {
            filled_by_views(texts.verifier@, values@);
            assert(values_view(values@) =~= seq![("verdict"@, verdict@)]);
        }
        details.push(line);
    }
    let ghost first = texts_view(details@);
    if step.violated.len() > 0 {
        let labels = join_semicolons(&step.violated);
        let values = [("labels", labels.as_str())];
        let line = fill(texts.broken.as_str(), &values);
        proof {
            filled_by_views(texts.broken@, values@);
            assert(values_view(values@) =~= seq![("labels"@, labels@)]);
        }
        details.push(line);
    }
    let ghost second = texts_view(details@);
    let pool = crate::format::count(step.pool_balance);
    let attacker = crate::format::count(step.attacker_balance);
    let nullifiers = string_of(crate::activities::decimal_digits(step.nullifiers as u128).as_slice());
    let values = [("pool", pool.as_str()), ("attacker", attacker.as_str()), ("nullifiers", nullifiers.as_str())];
    let line = fill(texts.after.as_str(), &values);
    proof {
        filled_by_views(texts.after@, values@);
        assert(values_view(values@) =~= seq![
            ("pool"@, grouped_text(step.pool_balance as nat)),
            ("attacker"@, grouped_text(step.attacker_balance as nat)),
            ("nullifiers"@, crate::activities::decimal(step.nullifiers as nat)),
        ]);
    }
    details.push(line);
    proof {
        let s = *step;
        let t = *texts;
        let verdict = match s.verdict {
            Some(v) => seq![filled_views(t.verifier@, seq![("verdict"@, v@)])],
            None => Seq::<Seq<char>>::empty(),
        };
        assert(first =~= verdict);
        let broken = if s.violated@.len() > 0 {
            seq![filled_views(t.broken@, seq![("labels"@, semicolon_joined(texts_view(s.violated@)))])]
        } else {
            Seq::<Seq<char>>::empty()
        };
        assert(second =~= verdict + broken);
        assert(texts_view(details@) =~= step_details(s, t));
    }
    details
}

/// Step `number` of an attack, as [`spec_step_doc`] says.
pub fn step_doc(number: usize, step: &StepFacts, texts: &StepTexts) -> (doc: Doc)
    ensures
        doc_view(doc) == spec_step_doc(number as nat, *step, *texts),
{
    let secondary = Tone::of(Hue::Secondary);
    let digits = string_of(crate::activities::decimal_digits(number as u128).as_slice());
    proof {
        crate::activities::decimal_len(number as nat);
        if number >= 10 {
            crate::activities::decimal_len((number / 10) as nat);
        }
    }
    let mut numbered = String::new();
    push_str(&mut numbered, digits.as_str());
    push_str(&mut numbered, ". ");
    let mut on = String::new();
    push_str(&mut on, " · ");
    push_str(&mut on, step.circuit.as_str());
    let mut doc = Doc::new();
    let ghost empty = doc_view(doc);
    proof {
        assert(empty =~= Seq::<SBlock>::empty());
    }
    let lead = vec![plain(numbered.as_str())];
    let body = vec![span(step.action.as_str(), Tone::body().bold()), span(on.as_str(), secondary)];
    proof {
        assert(numbered@ =~= crate::activities::decimal(number as nat) + ". "@);
        assert(on@ =~= " · "@ + step.circuit@);
        assert(spans_view(lead@) =~= seq![(crate::activities::decimal(number as nat) + ". "@, body_tone())]);
        assert(spans_view(body@) =~= seq![(step.action@, strong()), (" · "@ + step.circuit@, hue_tone(Hue::Secondary))]);
    }
    push_led(&mut doc, lead, body);
    let good = step.recorded != step.forgery;
    let tone = if good { Tone::body() } else { Tone::of(Hue::Failure) };
    let mark = if good { span("✓ ", Tone::of(Hue::Success)) } else { span("✗ ", Tone::of(Hue::Failure)) };
    let width = digits.as_str().unicode_len() + 2;
    let lead = vec![plain(spaces_string(width).as_str()), mark];
    let body = vec![span(step.outcome.as_str(), tone)];
    proof {
        assert(spans_view(lead@) =~= seq![
            (spaces(width as nat), body_tone()),
            if good { ("✓ "@, hue_tone(Hue::Success)) } else { ("✗ "@, hue_tone(Hue::Failure)) },
        ]);
        assert(spans_view(body@) =~= seq![(step.outcome@, if good { body_tone() } else { hue_tone(Hue::Failure) })]);
    }
    push_led(&mut doc, lead, body);
    let ghost head = doc_view(doc);
    let details = details_of(step, texts);
    let ghost dv = texts_view(details@);
    let mut i: usize = 0;
    while i < details.len()
        invariant
            i <= details@.len(),
            dv == texts_view(details@),
            width == crate::activities::decimal(number as nat).len() + 2,
            secondary == hue_tone(Hue::Secondary),
            doc_view(doc) == head + dv.take(i as int).map_values(|d: Seq<char>| SBlock::Text {
                lead: seq![(spaces(width as nat), body_tone())],
                hang: None,
                body: seq![(d, secondary)],
            }),
        decreases details@.len() - i,
    {
        let ghost before = doc_view(doc);
        let lead = vec![plain(spaces_string(width).as_str())];
        let body = vec![span(details[i].as_str(), secondary)];
        proof {
            assert(spans_view(lead@) =~= seq![(spaces(width as nat), body_tone())]);
            assert(spans_view(body@) =~= seq![(dv[i as int], secondary)]);
        }
        push_led(&mut doc, lead, body);
        proof {
            let f = |d: Seq<char>| SBlock::Text { lead: seq![(spaces(width as nat), body_tone())], hang: None, body: seq![(d, secondary)] };
            assert(dv.take(i + 1).map_values(f) =~= dv.take(i as int).map_values(f).push(f(dv[i as int])));
        }
        i = i + 1;
    }
    proof {
        assert(dv.take(details@.len() as int) =~= dv);
        let s = *step;
        let good = s.recorded != s.forgery;
        let indent = (spaces((crate::activities::decimal(number as nat).len() + 2) as nat), body_tone());
        let mark_v = if good { ("✓ "@, hue_tone(Hue::Success)) } else { ("✗ "@, hue_tone(Hue::Failure)) };
        let tone_v = if good { body_tone() } else { hue_tone(Hue::Failure) };
        let b1 = SBlock::Text {
            lead: seq![(crate::activities::decimal(number as nat) + ". "@, body_tone())],
            hang: None,
            body: seq![(s.action@, strong()), (" · "@ + s.circuit@, hue_tone(Hue::Secondary))],
        };
        let b2 = SBlock::Text { lead: seq![indent, mark_v], hang: None, body: seq![(s.outcome@, tone_v)] };
        assert(head[0] == b1);
        assert(head[1] == b2);
        assert(head =~= seq![b1, b2]);
    }
    doc
}


/// What `/about` shows of a system built in: its name, its shelf's name, its year, its authors,
/// the caution lines its metadata calls for, and its facts, in the reader's language.
pub struct SystemSummary {
    /// The system's name.
    pub name: String,
    /// The name of its shelf.
    pub shelf: String,
    /// The year it was published.
    pub year: u64,
    /// Its authors.
    pub authors: Vec<String>,
    /// The caution lines its metadata calls for.
    pub cautions: Vec<Vec<Span>>,
    /// Its facts.
    pub facts: CatalogFacts,
}

/// The sentences of `/about`: a page whose system is not built in, naming `{system}`; the note
/// that a page opens; a system without a page, naming `{system}`; and an unknown system, naming
/// `{system}`.
pub struct AboutTexts {
    /// A page whose system is not built in.
    pub not_built: String,
    /// The note that a page opens.
    pub page: String,
    /// A system without a page.
    pub no_page: String,
    /// An unknown system.
    pub unknown: String,
}

/// Whether every label of the facts is small enough to lay out.
pub open spec fn labels_fit(t: CatalogTexts) -> bool {
    let limit = usize::MAX / 4;
    &&& t.paper@.len() <= limit
    &&& t.setup@.len() <= limit
    &&& t.zero_knowledge@.len() <= limit
    &&& t.assumptions@.len() <= limit
    &&& t.post_quantum@.len() <= limit
    &&& t.proof_size@.len() <= limit
    &&& t.recursion@.len() <= limit
    &&& t.mode@.len() <= limit
    &&& t.field@.len() <= limit
    &&& t.code@.len() <= limit
    &&& t.status@.len() <= limit
    &&& t.used_in@.len() <= limit
}

/// The widest of some labels, in columns.
pub open spec fn widest_of(labels: Seq<Seq<char>>) -> int
    decreases labels.len(),
{
    if labels.len() == 0 {
        0
    } else {
        let rest = widest_of(labels.drop_last());
        let last = str_columns(labels.last()) as int;
        if last > rest { last } else { rest }
    }
}

/// Labelled cells as tree lines: each label padded two columns past the widest, then its cell.
pub open spec fn pair_blocks(pairs: Seq<(Seq<char>, Seq<SSpan>)>) -> Seq<SBlock> {
    let wide = widest_of(pairs.map_values(|p: (Seq<char>, Seq<SSpan>)| p.0));
    Seq::new(pairs.len(), |i: int| SBlock::Text {
        lead: seq![(crate::doc::tree_glyph(i, pairs.len() as int), hue_tone(Hue::Secondary))],
        hang: None,
        body: seq![(pairs[i].0 + spaces((wide - str_columns(pairs[i].0) + 2) as nat), body_tone())] + pairs[i].1,
    })
}

/// `/about` of a system built in: its name in bold, its shelf and its year; its authors, dimmed,
/// when it has any; its caution lines; its facts as tree lines; a blank row; and the note on its
/// page, or that it has none, dimmed.
pub open spec fn spec_summary(sys: SystemSummary, markdown: bool, catalog: CatalogTexts, texts: AboutTexts) -> Seq<SBlock> {
    let secondary = hue_tone(Hue::Secondary);
    let head = SBlock::Text {
        lead: Seq::empty(),
        hang: None,
        body: seq![
            (sys.name@, strong()),
            ("  "@, body_tone()),
            (sys.shelf@, hue_tone(Hue::Shelf)),
            (" · "@ + crate::activities::decimal(sys.year as nat), secondary),
        ],
    };
    let authors = if sys.authors@.len() > 0 {
        seq![SBlock::Text { lead: Seq::empty(), hang: None, body: seq![(comma_joined(texts_view(sys.authors@)), secondary)] }]
    } else {
        Seq::empty()
    };
    let note = if markdown { texts.page@ } else { filled_views(texts.no_page@, seq![("system"@, sys.name@)]) };
    seq![head] + authors + lines_view(sys.cautions@).map_values(|l: Seq<SSpan>| SBlock::Text { lead: Seq::empty(), hang: None, body: l })
        + pair_blocks(spec_facts(sys.facts, catalog))
        + seq![SBlock::Blank, SBlock::Text { lead: Seq::empty(), hang: None, body: seq![(note, secondary)] }]
}

/// Widest labels do not depend on how the labels are held.
proof fn widest_label_of(labels: Seq<String>)
    ensures
        crate::doc::widest_label(labels) == widest_of(texts_view(labels)),
    decreases labels.len(),
{
    if labels.len() > 0 {
        widest_label_of(labels.drop_last());
        assert(texts_view(labels.drop_last()) =~= texts_view(labels).drop_last());
    }
}

/// A line without a lead added to a document.
fn push_line(doc: &mut Doc, body: Vec<Span>)
    ensures
        doc_view(*final(doc)) == doc_view(*old(doc)).push(SBlock::Text { lead: Seq::empty(), hang: None, body: spans_view(body@) }),
{
    let ghost before = doc_view(*doc);
    let ghost bv = spans_view(body@);
    doc.line(body);
    proof {
        assert(spans_view(Seq::<Span>::empty()) =~= Seq::<SSpan>::empty());
        assert(doc_view(*doc) =~= before.push(SBlock::Text { lead: Seq::empty(), hang: None, body: bv }));
    }
}

/// Labelled cells added to a document as tree lines, as [`pair_blocks`] says.
fn push_pairs(doc: &mut Doc, pairs: Vec<(String, Vec<Span>)>)
    requires
        forall|i: int| 0 <= i < pairs@.len() ==> #[trigger] pairs@[i].0@.len() <= usize::MAX / 4,
    ensures
        doc_view(*final(doc)) == doc_view(*old(doc)) + pair_blocks(pairs_view(pairs@)),
{
    let ghost before = doc_view(*doc);
    let ghost n = old(doc).blocks@.len();
    let ghost pv = pairs_view(pairs@);
    let ghost ps = pairs@;
    doc.pairs(pairs);
    proof {
        let labels = ps.map_values(|p: (String, Vec<Span>)| p.0);
        widest_label_of(labels);
        assert(texts_view(labels) =~= pv.map_values(|p: (Seq<char>, Seq<SSpan>)| p.0));
        let after = doc_view(*doc);
        let expected = before + pair_blocks(pv);
        assert forall|k: int| 0 <= k < after.len() implies after[k] == expected[k] by {
            if k < n {
                assert(doc.blocks@.take(n as int)[k] == doc.blocks@[k]);
            } else {
                let i = k - n;
                let block = doc.blocks@[n + i];
                if let Block::Text { lead, hang, body } = block {
                    assert(spans_view(lead@) =~= seq![(crate::doc::tree_glyph(i, ps.len() as int), hue_tone(Hue::Secondary))]);
                    assert(body@ =~= seq![body@[0]] + body@.skip(1));
                    assert(spans_view(body@) =~= seq![span_view(body@[0])] + spans_view(ps[i].1@));
                }
            }
        }
        assert(after =~= expected);
    }
}

/// The labels of the facts are the labels of the catalog's words.
proof fn facts_labels_fit(m: CatalogFacts, t: CatalogTexts, pairs: Seq<(String, Vec<Span>)>)
    requires
        labels_fit(t),
        pairs_view(pairs) == spec_facts(m, t),
    ensures
        forall|i: int| 0 <= i < pairs.len() ==> #[trigger] pairs[i].0@.len() <= usize::MAX / 4,
{
    let f = spec_facts(m, t);
    let paper = match m.paper {
        Some(p) => seq![(t.paper@, seq![
            (filled_views(t.paper_line@, seq![("title"@, p.title@), ("venue"@, p.venue@)]), body_tone()),
            (" ("@ + p.url@ + ")"@, Tone { hue: Hue::Accent, ..body_tone() }),
        ])],
        None => Seq::empty(),
    };
    let fixed = seq![
        (t.setup@, spans_view(m.setup@)),
        (t.zero_knowledge@, spans_view(m.zero_knowledge@)),
        (t.assumptions@, seq![(comma_joined(texts_view(m.assumptions@)), body_tone())]),
        (t.post_quantum@, seq![(if m.post_quantum { t.yes@ } else { t.no@ }, body_tone())]),
        (t.proof_size@, seq![(m.proof_size@, body_tone())]),
        (t.recursion@, seq![(m.recursion@, body_tone())]),
        (t.mode@, seq![(m.mode@, body_tone())]),
        (t.field@, seq![(m.field@, body_tone())]),
        (t.code@, spans_view(m.code@)),
        (t.status@, seq![(m.status@, body_tone())]),
    ];
    let used = if m.deployments@.len() > 0 {
        seq![(t.used_in@, seq![(semicolon_joined(m.deployments@.map_values(|d: Deployment| deployment_text(d, t))), body_tone())])]
    } else {
        Seq::empty()
    };
    assert(f == paper + fixed + used);
    assert forall|i: int| 0 <= i < pairs.len() implies #[trigger] pairs[i].0@.len() <= usize::MAX / 4 by {
        assert(pairs_view(pairs)[i].0 == pairs[i].0@);
        if i < paper.len() {
            assert(f[i] == paper[i]);
        } else if i < paper.len() + 10 {
            assert(f[i] == fixed[i - paper.len()]);
            assert(fixed[i - paper.len()].0.len() <= usize::MAX / 4);
        } else {
            assert(f[i] == used[i - paper.len() - 10]);
        }
    }
}

/// `/about <id>`: for a system built in, its summary and the page to open when it has one; for a
/// page whose system is not built in, a line saying so and the page under the id; otherwise the
/// error for an unknown system.
pub fn about(
    id: &str,
    system: Option<&SystemSummary>,
    markdown: Option<&'static str>,
    catalog: &CatalogTexts,
    texts: &AboutTexts,
) -> (out: (Entry, Option<Page>))
    requires
        labels_fit(*catalog),
    ensures
        match system {
            Some(sys) => {
                &&& out.0.kind == Kind::Result
                &&& doc_view(out.0.doc) == spec_summary(*sys, markdown is Some, *catalog, *texts)
                &&& (match markdown {
                    Some(md) => out.1 matches Some(page) && page.title@ == sys.name@ && page.markdown == md,
                    None => out.1 is None,
                })
            },
            None => match markdown {
                Some(md) => {
                    &&& out.0.kind == Kind::Result
                    &&& doc_view(out.0.doc) == seq![SBlock::Text {
                        lead: Seq::empty(),
                        hang: None,
                        body: seq![(filled_views(texts.not_built@, seq![("system"@, id@)]), body_tone())],
                    }]
                    &&& out.1 matches Some(page) && page.title@ == id@ && page.markdown == md
                },
                None => {
                    &&& out.0.kind == Kind::Error
                    &&& doc_view(out.0.doc) == seq![SBlock::Text {
                        lead: Seq::empty(),
                        hang: None,
                        body: seq![(filled_views(texts.unknown@, seq![("system"@, id@)]), body_tone())],
                    }]
                    &&& out.1 is None
                },
            },
        },
{
    match system {
        None => {
            let values = [("system", id)];
            proof {
                assert(values_view(values@) =~= seq![("system"@, id@)]);
            }
            let (kind, template) = match markdown {
                Some(_) => (Kind::Result, texts.not_built.as_str()),
                None => (Kind::Error, texts.unknown.as_str()),
            };
            let line = fill(template, &values);
            proof {
                filled_by_views(template@, values@);
            }
            let mut doc = Doc::new();
            proof {
                assert(doc_view(doc) =~= Seq::<SBlock>::empty());
            }
            push_line(&mut doc, text_cell(line.as_str()));
            let page = match markdown {
                Some(md) => Some(Page { title: string_of(chars_of(id).as_slice()), markdown: md }),
                None => None,
            };
            proof {
                assert(doc_view(doc) =~= seq![SBlock::Text { lead: Seq::empty(), hang: None, body: seq![(line@, body_tone())] }]);
            }
            (Entry::new(kind, doc), page)
        },
        Some(sys) => {
            let secondary = Tone::of(Hue::Secondary);
            let mut doc = Doc::new();
            proof {
                assert(doc_view(doc) =~= Seq::<SBlock>::empty());
            }
            let year = string_of(crate::activities::decimal_digits(sys.year as u128).as_slice());
            let mut dated = String::new();
            push_str(&mut dated, " · ");
            push_str(&mut dated, year.as_str());
            let head = vec![
                span(sys.name.as_str(), Tone::body().bold()),
                plain("  "),
                span(sys.shelf.as_str(), Tone::of(Hue::Shelf)),
                span(dated.as_str(), secondary),
            ];
            proof {
                assert(dated@ =~= " · "@ + crate::activities::decimal(sys.year as nat));
                assert(spans_view(head@) =~= seq![
                    (sys.name@, strong()),
                    ("  "@, body_tone()),
                    (sys.shelf@, hue_tone(Hue::Shelf)),
                    (" · "@ + crate::activities::decimal(sys.year as nat), secondary),
                ]);
            }
            push_line(&mut doc, head);
            let ghost first = doc_view(doc);
            if sys.authors.len() > 0 {
                let authors = join_commas(&sys.authors);
                proof {
                    assert(sys.authors@.map_values(|w: String| w@) == texts_view(sys.authors@));
                }
                let cell = vec![span(authors.as_str(), secondary)];
                proof {
                    assert(spans_view(cell@) =~= seq![(authors@, secondary)]);
                }
                push_line(&mut doc, cell);
            }
            let ghost second = doc_view(doc);
            let ghost cv = lines_view(sys.cautions@);
            let mut i: usize = 0;
            while i < sys.cautions.len()
                invariant
                    i <= sys.cautions@.len(),
                    cv == lines_view(sys.cautions@),
                    doc_view(doc) == second + cv.take(i as int).map_values(|l: Seq<SSpan>| SBlock::Text { lead: Seq::empty(), hang: None, body: l }),
                decreases sys.cautions@.len() - i,
            {
                let line = crate::doc::copy_spans(&sys.cautions[i]);
                push_line(&mut doc, line);
                proof {
                    let f = |l: Seq<SSpan>| SBlock::Text { lead: Seq::empty(), hang: None, body: l };
                    assert(cv[i as int] == spans_view(sys.cautions@[i as int]@));
                    assert(cv.take(i + 1).map_values(f) =~= cv.take(i as int).map_values(f).push(f(cv[i as int])));
                }
                i = i + 1;
            }
            proof {
                assert(cv.take(sys.cautions@.len() as int) =~= cv);
            }
            let ghost third = doc_view(doc);
            let pairs = facts(&sys.facts, catalog);
            proof {
                facts_labels_fit(sys.facts, *catalog, pairs@);
            }
            push_pairs(&mut doc, pairs);
            let ghost fourth = doc_view(doc);
            let ghost before_blank = doc_view(doc);
            doc.blank();
            proof {
                assert(doc_view(doc) =~= before_blank.push(SBlock::Blank));
            }
            let note = match markdown {
                Some(_) => string_of(chars_of(texts.page.as_str()).as_slice()),
                None => {
                    let values = [("system", sys.name.as_str())];
                    let line = fill(texts.no_page.as_str(), &values);
                    proof {
                        filled_by_views(texts.no_page@, values@);
                        assert(values_view(values@) =~= seq![("system"@, sys.name@)]);
                    }
                    line
                },
            };
            let cell = vec![span(note.as_str(), secondary)];
            proof {
                assert(spans_view(cell@) =~= seq![(note@, secondary)]);
            }
            push_line(&mut doc, cell);
            let page = match markdown {
                Some(md) => Some(Page { title: sys.name.clone(), markdown: md }),
                None => None,
            };
            proof {
                reveal_strlit("  ");
                let s = *sys;
                let authors = if s.authors@.len() > 0 {
                    seq![SBlock::Text { lead: Seq::empty(), hang: None, body: seq![(comma_joined(texts_view(s.authors@)), hue_tone(Hue::Secondary))] }]
                } else {
                    Seq::<SBlock>::empty()
                };
                assert(second =~= first + authors);
                assert(doc_view(doc) =~= spec_summary(s, markdown is Some, *catalog, *texts));
            }
            (Entry::new(Kind::Result, doc), page)
        },
    }
}


/// One system as `/list` shows it, its words in the reader's language: the shelf it stands on
/// (its place among the shelves' names), its id, name and year, its setup and zero-knowledge
/// cells, its proof size and its code cell.
pub struct ListedSystem {
    /// The place of its shelf among the shelves.
    pub shelf: usize,
    /// Its id.
    pub id: String,
    /// Its name.
    pub name: String,
    /// The year it was published.
    pub year: u64,
    /// The trusted-setup cell.
    pub setup: Vec<Span>,
    /// The zero-knowledge cell.
    pub zero_knowledge: Vec<Span>,
    /// Its proof size, in words.
    pub proof_size: String,
    /// The code cell.
    pub code: Vec<Span>,
}

/// The sentences of `/list`: the title, naming `{count}`; an empty shelf, naming `{shelf}`; the
/// footer; the column headers; and the two lines said when nothing is built in.
pub struct ListTexts {
    /// The title.
    pub title: String,
    /// An empty shelf.
    pub shelf_empty: String,
    /// The footer.
    pub footer: String,
    /// The column headers: id, name, year, setup, zero knowledge, proof size, code.
    pub columns: Vec<String>,
    /// That nothing is built in.
    pub no_systems: String,
    /// What to do about it.
    pub no_systems_detail: String,
}

/// The systems on shelf `shelf`, in order.
pub open spec fn shelf_systems(systems: Seq<ListedSystem>, shelf: int) -> Seq<ListedSystem>
    decreases systems.len(),
{
    if systems.len() == 0 {
        Seq::empty()
    } else {
        let rest = shelf_systems(systems.drop_last(), shelf);
        if systems.last().shelf == shelf { rest.push(systems.last()) } else { rest }
    }
}

/// A system's row of the shelf table.
pub open spec fn listed_row(s: ListedSystem) -> Seq<Seq<SSpan>> {
    seq![
        seq![(s.id@, body_tone())],
        seq![(s.name@, body_tone())],
        seq![(crate::activities::decimal(s.year as nat), body_tone())],
        spans_view(s.setup@),
        spans_view(s.zero_knowledge@),
        seq![(s.proof_size@, body_tone())],
        spans_view(s.code@),
    ]
}

/// The table of a shelf: the column headers, the year on the right, a row for each system, cut
/// rather than wrapped, and the year and proof size left out first when it is too wide.
pub open spec fn shelf_table(systems: Seq<ListedSystem>, texts: ListTexts) -> STable {
    STable {
        header: texts_view(texts.columns@).map_values(|c: Seq<char>| seq![(c, body_tone())]),
        align: seq![Align::Left, Align::Left, Align::Right, Align::Left, Align::Left, Align::Left, Align::Left],
        rows: systems.map_values(|s: ListedSystem| listed_row(s)),
        wrap: false,
        optional: seq![2usize, 5usize],
    }
}

/// A line of one text in one tone.
pub open spec fn text_block(text: Seq<char>, tone: Tone) -> SBlock {
    SBlock::Text { lead: Seq::empty(), hang: None, body: seq![(text, tone)] }
}

/// One shelf of `/list`: a blank row, then its name in bold and its table; an empty shelf says so
/// when it was asked for, and is left out otherwise.
pub open spec fn shelf_blocks(systems: Seq<ListedSystem>, shelves: Seq<Seq<char>>, shelf: int, asked: bool, texts: ListTexts) -> Seq<SBlock> {
    let on = shelf_systems(systems, shelf);
    seq![SBlock::Blank] + if on.len() == 0 {
        if asked {
            seq![text_block(filled_views(texts.shelf_empty@, seq![("shelf"@, shelves[shelf])]), hue_tone(Hue::Secondary))]
        } else {
            Seq::empty()
        }
    } else {
        seq![text_block(shelves[shelf], Tone { bold: true, ..hue_tone(Hue::Shelf) }), SBlock::Table(shelf_table(on, texts))]
    }
}

/// The first `k` shelves of `/list`, one after another.
pub open spec fn shelves_blocks(systems: Seq<ListedSystem>, shelves: Seq<Seq<char>>, texts: ListTexts, k: int) -> Seq<SBlock>
    decreases k,
{
    if k <= 0 {
        Seq::empty()
    } else {
        shelves_blocks(systems, shelves, texts, k - 1) + shelf_blocks(systems, shelves, k - 1, false, texts)
    }
}

/// `/list`, of every shelf or of the one asked for: the title with how many systems it covers,
/// each shelf, a blank row and the footer, dimmed. With nothing built in, it says so, and what to
/// do about it under a tree mark, dimmed.
pub open spec fn spec_list(systems: Seq<ListedSystem>, shelves: Seq<Seq<char>>, wanted: Option<usize>, texts: ListTexts) -> Seq<SBlock> {
    let secondary = hue_tone(Hue::Secondary);
    if systems.len() == 0 {
        seq![
            text_block(texts.no_systems@, body_tone()),
            SBlock::Text { lead: seq![(crate::doc::tree_glyph(0, 1), secondary)], hang: None, body: seq![(texts.no_systems_detail@, secondary)] },
        ]
    } else {
        let count = match wanted {
            Some(k) => shelf_systems(systems, k as int).len() as nat,
            None => systems.len(),
        };
        let shown = match wanted {
            Some(k) => shelf_blocks(systems, shelves, k as int, true, texts),
            None => shelves_blocks(systems, shelves, texts, shelves.len() as int),
        };
        seq![text_block(filled_views(texts.title@, seq![("count"@, crate::activities::decimal(count))]), body_tone())] + shown
            + seq![SBlock::Blank, text_block(texts.footer@, secondary)]
    }
}

/// A line of one text in one tone added to a document.
fn push_text(doc: &mut Doc, text: &str, tone: Tone)
    ensures
        doc_view(*final(doc)) == doc_view(*old(doc)).push(text_block(text@, tone)),
{
    let cell = vec![span(text, tone)];
    proof {
        assert(spans_view(cell@) =~= seq![(text@, tone)]);
    }
    push_line(doc, cell);
}

/// The rows of the systems on shelf `shelf`.
fn shelf_rows(systems: &Vec<ListedSystem>, shelf: usize) -> (rows: Vec<Vec<Vec<Span>>>)
    ensures
        rows@.map_values(|r: Vec<Vec<Span>>| lines_view(r@)) == shelf_systems(systems@, shelf as int).map_values(|s: ListedSystem| listed_row(s)),
{
    let ghost all = systems@;
    let mut rows: Vec<Vec<Vec<Span>>> = Vec::new();
    let mut i: usize = 0;
    proof {
        assert(all.take(0) =~= Seq::<ListedSystem>::empty());
        assert(rows@.map_values(|r: Vec<Vec<Span>>| lines_view(r@)) =~= Seq::<Seq<Seq<SSpan>>>::empty());
    }
    while i < systems.len()
        invariant
            i <= all.len(),
            all == systems@,
            rows@.map_values(|r: Vec<Vec<Span>>| lines_view(r@)) == shelf_systems(all.take(i as int), shelf as int).map_values(|s: ListedSystem| listed_row(s)),
        decreases all.len() - i,
    {
        proof {
            assert(all.take(i + 1).drop_last() =~= all.take(i as int));
            assert(all.take(i + 1).last() == all[i as int]);
        }
        let s = &systems[i];
        if s.shelf == shelf {
            let ghost before = rows@.map_values(|r: Vec<Vec<Span>>| lines_view(r@));
            let year = string_of(crate::activities::decimal_digits(s.year as u128).as_slice());
            let id = vec![plain(s.id.as_str())];
            let name = vec![plain(s.name.as_str())];
            let dated = vec![plain(year.as_str())];
            let size = vec![plain(s.proof_size.as_str())];
            proof {
                assert(spans_view(id@) =~= seq![(s.id@, body_tone())]);
                assert(spans_view(name@) =~= seq![(s.name@, body_tone())]);
                assert(spans_view(dated@) =~= seq![(crate::activities::decimal(s.year as nat), body_tone())]);
                assert(spans_view(size@) =~= seq![(s.proof_size@, body_tone())]);
            }
            let row = vec![
                id,
                name,
                dated,
                crate::doc::copy_spans(&s.setup),
                crate::doc::copy_spans(&s.zero_knowledge),
                size,
                crate::doc::copy_spans(&s.code),
            ];
            proof {
                assert(lines_view(row@) =~= listed_row(*s));
            }
            rows.push(row);
            proof {
                assert(rows@.map_values(|r: Vec<Vec<Span>>| lines_view(r@)) =~= before.push(listed_row(*s)));
                let on = shelf_systems(all.take(i as int), shelf as int);
                assert(on.push(*s).map_values(|x: ListedSystem| listed_row(x)) =~= on.map_values(|x: ListedSystem| listed_row(x)).push(listed_row(*s)));
            }
        }
        i = i + 1;
    }
    proof {
        assert(all.take(all.len() as int) =~= all);
    }
    rows
}

/// The column headers as header cells.
fn header_of(columns: &Vec<String>) -> (header: Vec<Vec<Span>>)
    ensures
        lines_view(header@) == texts_view(columns@).map_values(|c: Seq<char>| seq![(c, body_tone())]),
{
    let mut header: Vec<Vec<Span>> = Vec::new();
    let mut i: usize = 0;
    while i < columns.len()
        invariant
            i <= columns@.len(),
            lines_view(header@) == texts_view(columns@.take(i as int)).map_values(|c: Seq<char>| seq![(c, body_tone())]),
        decreases columns@.len() - i,
    {
        let ghost before = lines_view(header@);
        let cell = vec![plain(columns[i].as_str())];
        proof {
            assert(spans_view(cell@) =~= seq![(columns@[i as int]@, body_tone())]);
        }
        header.push(cell);
        proof {
            assert(lines_view(header@) =~= before.push(seq![(columns@[i as int]@, body_tone())]));
            assert(columns@.take(i + 1).drop_last() =~= columns@.take(i as int));
            assert(lines_view(header@) =~= texts_view(columns@.take(i + 1)).map_values(|c: Seq<char>| seq![(c, body_tone())]));
        }
        i = i + 1;
    }
    proof {
        assert(columns@.take(columns@.len() as int) =~= columns@);
    }
    header
}

/// One shelf added to a document, as [`shelf_blocks`] says; returns how many systems stand on it.
fn push_shelf(doc: &mut Doc, systems: &Vec<ListedSystem>, shelves: &Vec<String>, shelf: usize, asked: bool, texts: &ListTexts) -> (count: usize)
    requires
        shelf < shelves@.len(),
    ensures
        doc_view(*final(doc)) == doc_view(*old(doc)) + shelf_blocks(systems@, texts_view(shelves@), shelf as int, asked, *texts),
        count == shelf_systems(systems@, shelf as int).len(),
{
    let ghost before = doc_view(*doc);
    let rows = shelf_rows(systems, shelf);
    let count = rows.len();
    proof {
        assert(rows@.map_values(|r: Vec<Vec<Span>>| lines_view(r@)).len() == rows@.len());
        assert(count == shelf_systems(systems@, shelf as int).len());
    }
    doc.blank();
    let ghost blanked = doc_view(*doc);
    proof {
        assert(blanked =~= before.push(SBlock::Blank));
        assert(texts_view(shelves@)[shelf as int] == shelves@[shelf as int]@);
    }
    if count == 0 {
        if asked {
            let values = [("shelf", shelves[shelf].as_str())];
            let line = fill(texts.shelf_empty.as_str(), &values);
            proof {
                filled_by_views(texts.shelf_empty@, values@);
                assert(values_view(values@) =~= seq![("shelf"@, shelves@[shelf as int]@)]);
            }
            push_text(doc, line.as_str(), Tone::of(Hue::Secondary));
        }
    } else {
        push_text(doc, shelves[shelf].as_str(), Tone::of(Hue::Shelf).bold());
        let ghost named = doc_view(*doc);
        let table = Table {
            header: header_of(&texts.columns),
            align: vec![Align::Left, Align::Left, Align::Right, Align::Left, Align::Left, Align::Left, Align::Left],
            rows,
            wrap: false,
            optional: vec![2, 5],
        };
        proof {
            assert(table.align@ =~= seq![Align::Left, Align::Left, Align::Right, Align::Left, Align::Left, Align::Left, Align::Left]);
            assert(table.optional@ =~= seq![2usize, 5usize]);
            assert(table_view(table) =~= shelf_table(shelf_systems(systems@, shelf as int), *texts));
        }
        doc.push(Block::Table(table));
        proof {
            assert(doc_view(*doc) =~= named.push(SBlock::Table(shelf_table(shelf_systems(systems@, shelf as int), *texts))));
        }
    }
    proof {
        assert(doc_view(*doc) =~= before + shelf_blocks(systems@, texts_view(shelves@), shelf as int, asked, *texts));
    }
    count
}

/// How many systems stand on shelf `shelf`.
fn count_on_shelf(systems: &Vec<ListedSystem>, shelf: usize) -> (count: usize)
    ensures
        count == shelf_systems(systems@, shelf as int).len(),
{
    let ghost all = systems@;
    let mut count: usize = 0;
    let mut i: usize = 0;
    proof {
        assert(all.take(0) =~= Seq::<ListedSystem>::empty());
    }
    while i < systems.len()
        invariant
            i <= all.len(),
            all == systems@,
            count == shelf_systems(all.take(i as int), shelf as int).len(),
            count <= i,
        decreases all.len() - i,
    {
        proof {
            assert(all.take(i + 1).drop_last() =~= all.take(i as int));
            assert(all.take(i + 1).last() == all[i as int]);
        }
        if systems[i].shelf == shelf {
            count = count + 1;
        }
        i = i + 1;
    }
    proof {
        assert(all.take(all.len() as int) =~= all);
    }
    count
}

/// `/list`, as [`spec_list`] says: every shelf, or the one asked for.
pub fn list(systems: &Vec<ListedSystem>, shelves: &Vec<String>, wanted: Option<usize>, texts: &ListTexts) -> (entry: Entry)
    requires
        wanted matches Some(k) ==> k < shelves@.len(),
    ensures
        entry.kind == Kind::Result,
        doc_view(entry.doc) == spec_list(systems@, texts_view(shelves@), wanted, *texts),
{
    let secondary = Tone::of(Hue::Secondary);
    let mut doc = Doc::new();
    proof {
        assert(doc_view(doc) =~= Seq::<SBlock>::empty());
    }
    if systems.len() == 0 {
        push_text(&mut doc, texts.no_systems.as_str(), Tone::body());
        let ghost first = doc_view(doc);
        let ghost old_blocks = doc.blocks@;
        let item = vec![span(texts.no_systems_detail.as_str(), secondary)];
        proof {
            assert(spans_view(item@) =~= seq![(texts.no_systems_detail@, secondary)]);
        }
        let ghost item_view = spans_view(item@);
        doc.tree(vec![item]);
        proof {
            let b = doc.blocks@[old_blocks.len() + 0int];
            if let Block::Text { lead, hang, body } = b {
                assert(spans_view(lead@) =~= seq![(crate::doc::tree_glyph(0, 1), secondary)]);
                assert(spans_view(body@) == item_view);
            }
            assert(doc.blocks@ =~= old_blocks.push(b));
            assert(doc_view(doc) =~= first.push(block_view(b)));
            assert(doc_view(doc) =~= spec_list(systems@, texts_view(shelves@), wanted, *texts));
        }
        return Entry::new(Kind::Result, doc);
    }
    let count = match wanted {
        Some(k) => count_on_shelf(systems, k),
        None => systems.len(),
    };
    let digits = string_of(crate::activities::decimal_digits(count as u128).as_slice());
    let values = [("count", digits.as_str())];
    let title = fill(texts.title.as_str(), &values);
    proof {
        filled_by_views(texts.title@, values@);
        assert(values_view(values@) =~= seq![("count"@, crate::activities::decimal(count as nat))]);
    }
    push_text(&mut doc, title.as_str(), Tone::body());
    let ghost titled = doc_view(doc);
    match wanted {
        Some(k) => {
            push_shelf(&mut doc, systems, shelves, k, true, texts);
        },
        None => {
            let mut k: usize = 0;
            proof {
                assert(titled + shelves_blocks(systems@, texts_view(shelves@), *texts, 0) =~= titled);
            }
            while k < shelves.len()
                invariant
                    k <= shelves@.len(),
                    doc_view(doc) == titled + shelves_blocks(systems@, texts_view(shelves@), *texts, k as int),
                decreases shelves@.len() - k,
            {
                push_shelf(&mut doc, systems, shelves, k, false, texts);
                proof {
                    assert(titled + shelves_blocks(systems@, texts_view(shelves@), *texts, k + 1) =~= titled
                        + shelves_blocks(systems@, texts_view(shelves@), *texts, k as int) + shelf_blocks(
                        systems@,
                        texts_view(shelves@),
                        k as int,
                        false,
                        *texts,
                    ));
                }
                k = k + 1;
            }
        },
    }
    let ghost shelves_part = doc_view(doc).skip(titled.len() as int);
    proof {
        assert(doc_view(doc) =~= titled + shelves_part);
    }
    doc.blank();
    let ghost blanked = doc_view(doc);
    proof {
        assert(blanked =~= titled + shelves_part + seq![SBlock::Blank]);
    }
    push_text(&mut doc, texts.footer.as_str(), secondary);
    proof {
        assert(doc_view(doc) =~= spec_list(systems@, texts_view(shelves@), wanted, *texts));
    }
    Entry::new(Kind::Result, doc)
}


/// Why a run produced no report, in the reader's language where it names a stage or an error.
pub enum RunFailure {
    /// The system does not support the example, for the reason key given.
    Unsupported {
        /// The reason, as the engine's key.
        reason: String,
    },
    /// The run was stopped, after the stage named, or before any stage finished.
    Cancelled {
        /// The last stage that finished.
        after: Option<String>,
    },
    /// A stage failed with an error.
    Failed {
        /// The stage.
        stage: String,
        /// The error.
        error: String,
    },
    /// No randomness could be had.
    Randomness(String),
}

/// The sentences of a run that produced no report: unsupported, naming `{system}`, `{example}`
/// and `{reason}`; stopped after a stage, naming `{system}` and `{stage}`; stopped before any,
/// naming `{system}` and `{example}`; failed, naming `{system}`, `{stage}` and `{error}`; and no
/// randomness, naming `{why}`.
pub struct RunTexts {
    /// Unsupported.
    pub unsupported: String,
    /// Stopped after a stage.
    pub stopped_after: String,
    /// Stopped before any stage finished.
    pub stopped_before: String,
    /// Failed.
    pub failed: String,
    /// No randomness.
    pub no_randomness: String,
}

/// A one-line entry of `kind`.
pub open spec fn one_line(kind: Kind, text: Seq<char>) -> (Kind, Seq<SBlock>) {
    (kind, seq![text_block(text, body_tone())])
}

/// A run that produced no report: a warning when the system does not support the example or the
/// run was stopped, an error when a stage failed or no randomness could be had; the reason key
/// is said as readable words.
pub open spec fn spec_run_error(system: Seq<char>, example: Seq<char>, error: RunFailure, texts: RunTexts) -> (Kind, Seq<SBlock>) {
    match error {
        RunFailure::Unsupported { reason } => one_line(Kind::Warning, filled_views(texts.unsupported@, seq![
            ("system"@, system),
            ("example"@, example),
            ("reason"@, crate::phrases::humanised(reason@)),
        ])),
        RunFailure::Cancelled { after: Some(stage) } => one_line(Kind::Warning, filled_views(texts.stopped_after@, seq![
            ("system"@, system),
            ("stage"@, stage@),
        ])),
        RunFailure::Cancelled { after: None } => one_line(Kind::Warning, filled_views(texts.stopped_before@, seq![
            ("system"@, system),
            ("example"@, example),
        ])),
        RunFailure::Failed { stage, error } => one_line(Kind::Error, filled_views(texts.failed@, seq![
            ("system"@, system),
            ("stage"@, stage@),
            ("error"@, error@),
        ])),
        RunFailure::Randomness(why) => one_line(Kind::Error, filled_views(texts.no_randomness@, seq![("why"@, why@)])),
    }
}

/// A one-line entry of `kind`, as [`one_line`] says.
fn line_entry(kind: Kind, text: &str) -> (entry: Entry)
    ensures
        (entry.kind, doc_view(entry.doc)) == one_line(kind, text@),
{
    let mut doc = Doc::new();
    proof {
        assert(doc_view(doc) =~= Seq::<SBlock>::empty());
    }
    push_text(&mut doc, text, Tone::body());
    proof {
        assert(doc_view(doc) =~= seq![text_block(text@, body_tone())]);
    }
    Entry::new(kind, doc)
}

/// The cell shown while a run of `example` on `system` is going: the template naming `{system}`
/// and `{example}`, filled.
pub fn running(system: &str, example: &str, template: &str) -> (entry: Entry)
    ensures
        (entry.kind, doc_view(entry.doc)) == one_line(Kind::Running, filled_views(template@, seq![("system"@, system@), ("example"@, example@)])),
{
    let values = [("system", system), ("example", example)];
    let text = fill(template, &values);
    proof {
        filled_by_views(template@, values@);
        assert(values_view(values@) =~= seq![("system"@, system@), ("example"@, example@)]);
    }
    line_entry(Kind::Running, text.as_str())
}

/// A run of `example` on `system` that produced no report, as [`spec_run_error`] says.
pub fn run_error(system: &str, example: &str, error: &RunFailure, texts: &RunTexts) -> (entry: Entry)
    ensures
        (entry.kind, doc_view(entry.doc)) == spec_run_error(system@, example@, *error, *texts),
{
    match error {
        RunFailure::Unsupported { reason } => {
            let words = crate::phrases::humanise(reason.as_str());
            let values = [("system", system), ("example", example), ("reason", words.as_str())];
            let text = fill(texts.unsupported.as_str(), &values);
            proof {
                filled_by_views(texts.unsupported@, values@);
                assert(values_view(values@) =~= seq![("system"@, system@), ("example"@, example@), ("reason"@, crate::phrases::humanised(reason@))]);
            }
            line_entry(Kind::Warning, text.as_str())
        },
        RunFailure::Cancelled { after: Some(stage) } => {
            let values = [("system", system), ("stage", stage.as_str())];
            let text = fill(texts.stopped_after.as_str(), &values);
            proof {
                filled_by_views(texts.stopped_after@, values@);
                assert(values_view(values@) =~= seq![("system"@, system@), ("stage"@, stage@)]);
            }
            line_entry(Kind::Warning, text.as_str())
        },
        RunFailure::Cancelled { after: None } => {
            let values = [("system", system), ("example", example)];
            let text = fill(texts.stopped_before.as_str(), &values);
            proof {
                filled_by_views(texts.stopped_before@, values@);
                assert(values_view(values@) =~= seq![("system"@, system@), ("example"@, example@)]);
            }
            line_entry(Kind::Warning, text.as_str())
        },
        RunFailure::Failed { stage, error } => {
            let values = [("system", system), ("stage", stage.as_str()), ("error", error.as_str())];
            let text = fill(texts.failed.as_str(), &values);
            proof {
                filled_by_views(texts.failed@, values@);
                assert(values_view(values@) =~= seq![("system"@, system@), ("stage"@, stage@), ("error"@, error@)]);
            }
            line_entry(Kind::Error, text.as_str())
        },
        RunFailure::Randomness(why) => {
            let values = [("why", why.as_str())];
            let text = fill(texts.no_randomness.as_str(), &values);
            proof {
                filled_by_views(texts.no_randomness@, values@);
                assert(values_view(values@) =~= seq![("why"@, why@)]);
            }
            line_entry(Kind::Error, text.as_str())
        },
    }
}

} // verus!
