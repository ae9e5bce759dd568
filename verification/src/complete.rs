//! What the popup offers for the line being typed: command names first, then each argument.

use vstd::prelude::*;

use crate::commands::{command_table, find_spec, specs, spec_view, split_words, words, words_view, Arg, Spec, SpecView};
use crate::strings::{chars_of, is_whitespace, push_char, push_str, same_text, string_of, white_space};

verus! {

/// `str::to_lowercase`'s result for a text.
pub uninterp spec fn lowercase(text: Seq<char>) -> Seq<char>;

/// A text with its ASCII capitals made small.
pub open spec fn ascii_lower(text: Seq<char>) -> Seq<char> {
    text.map_values(|c: char| if 'A' <= c && c <= 'Z' { ((c as u32) + 32) as char } else { c })
}

/// `str::to_lowercase`. Its documentation defines it by Unicode's lowercase mapping, which for
/// ASCII text makes the capitals small and keeps every other character.
#[verifier::external_body]
fn to_lowercase(text: &str) -> (lower: String)
    ensures
        lower@ == lowercase(text@),
        (forall|i: int| 0 <= i < text@.len() ==> (#[trigger] text@[i] as u32) < 0x80) ==> lower@ == ascii_lower(text@),
{
    text.to_lowercase()
}

/// One row of the popup.
#[derive(Clone, Debug, PartialEq, Eq)]
pub struct Candidate {
    /// Left column.
    pub label: String,
    /// Right column, drawn dimmed.
    pub detail: String,
    /// The whole line after choosing this row.
    pub line: String,
}

/// What each kind of argument can be, with a description of each: the museum's systems, the
/// description of `all`, its examples, shelves and languages, and each command's summary in the
/// order of the command table.
pub struct Offers {
    /// System ids with their descriptions.
    pub systems: Vec<(String, String)>,
    /// What `all` means after `/run`.
    pub all: String,
    /// Example ids with their statements.
    pub examples: Vec<(String, String)>,
    /// Shelf keys with their names.
    pub shelves: Vec<(String, String)>,
    /// Language codes with their names.
    pub languages: Vec<(String, String)>,
    /// Each command's summary, in the order of the command table.
    pub summaries: Vec<String>,
}

/// A candidate as sequences: label, detail, line.
pub type SCandidate = (Seq<char>, Seq<char>, Seq<char>);

/// A candidate as sequences.
pub open spec fn candidate_view(c: Candidate) -> SCandidate {
    (c.label@, c.detail@, c.line@)
}

/// Pairs of texts as sequences.
pub open spec fn pairs_view(pairs: Seq<(String, String)>) -> Seq<(Seq<char>, Seq<char>)> {
    pairs.map_values(|p: (String, String)| (p.0@, p.1@))
}

/// Whether `query` can be found in `text` in order, not necessarily together.
pub open spec fn in_order(query: Seq<char>, text: Seq<char>) -> bool
    decreases text.len(),
{
    if query.len() == 0 {
        true
    } else if text.len() == 0 {
        false
    } else if query[0] == text[0] {
        in_order(query.skip(1), text.skip(1))
    } else {
        in_order(query, text.skip(1))
    }
}

/// Whether `prefix` starts `text`.
pub open spec fn starts(text: Seq<char>, prefix: Seq<char>) -> bool {
    prefix.len() <= text.len() && text.take(prefix.len() as int) == prefix
}

/// 0 for a prefix match, 1 for a match in order, `None` for no match; case is ignored.
pub open spec fn spec_rank(query: Seq<char>, candidate: Seq<char>) -> Option<u8> {
    let q = lowercase(query);
    let c = lowercase(candidate);
    if starts(c, q) {
        Some(0)
    } else if in_order(q, c) {
        Some(1)
    } else {
        None
    }
}

/// Whether `query` can be found in `text` in order.
fn find_in_order(query: &Vec<char>, text: &Vec<char>) -> (found: bool)
    ensures
        found == in_order(query@, text@),
{
    let mut q: usize = 0;
    let mut t: usize = 0;
    proof {
        assert(query@.skip(0) =~= query@);
        assert(text@.skip(0) =~= text@);
    }
    while q < query.len() && t < text.len()
        invariant
            q <= query@.len(),
            t <= text@.len(),
            in_order(query@.skip(q as int), text@.skip(t as int)) == in_order(query@, text@),
        decreases text@.len() - t,
    {
        proof {
            assert(query@.skip(q as int)[0] == query@[q as int]);
            assert(text@.skip(t as int)[0] == text@[t as int]);
            assert(query@.skip(q as int).skip(1) =~= query@.skip(q + 1));
            assert(text@.skip(t as int).skip(1) =~= text@.skip(t + 1));
        }
        if query[q] == text[t] {
            q = q + 1;
        }
        t = t + 1;
    }
    proof {
        if q >= query@.len() {
            assert(query@.skip(q as int).len() == 0);
        } else {
            assert(text@.skip(t as int).len() == 0);
        }
    }
    q >= query.len()
}

/// Whether `prefix` starts `text`.
fn starts_with(text: &Vec<char>, prefix: &Vec<char>) -> (yes: bool)
    ensures
        yes == starts(text@, prefix@),
{
    if prefix.len() > text.len() {
        return false;
    }
    let mut i: usize = 0;
    while i < prefix.len()
        invariant
            prefix@.len() <= text@.len(),
            i <= prefix@.len(),
            forall|j: int| 0 <= j < i ==> text@[j] == prefix@[j],
        decreases prefix@.len() - i,
    {
        if text[i] != prefix[i] {
            proof {
                assert(text@.take(prefix@.len() as int)[i as int] != prefix@[i as int]);
            }
            return false;
        }
        i = i + 1;
    }
    proof {
        assert(text@.take(prefix@.len() as int) =~= prefix@);
    }
    true
}

/// 0 for a prefix match, 1 for a subsequence match, `None` for no match. Case is ignored.
pub fn rank(query: &str, candidate: &str) -> (r: Option<u8>)
    ensures
        r == spec_rank(query@, candidate@),
{
    let q = chars_of(to_lowercase(query).as_str());
    let c = chars_of(to_lowercase(candidate).as_str());
    if starts_with(&c, &q) {
        return Some(0);
    }
    if find_in_order(&q, &c) {
        Some(1)
    } else {
        None
    }
}

/// A text without its leading slashes.
pub open spec fn unslashed(text: Seq<char>) -> Seq<char>
    decreases text.len(),
{
    if text.len() > 0 && text[0] == '/' {
        unslashed(text.skip(1))
    } else {
        text
    }
}

/// Words with a space between them.
pub open spec fn spaced(words: Seq<Seq<char>>) -> Seq<char>
    decreases words.len(),
{
    if words.len() == 0 {
        Seq::empty()
    } else if words.len() == 1 {
        words[0]
    } else {
        spaced(words.drop_last()).push(' ') + words.last()
    }
}

/// The offers of rank `r` for `partial`, each completing the line `prefix`, with a space after
/// when more arguments follow.
pub open spec fn picks(options: Seq<(Seq<char>, Seq<char>)>, partial: Seq<char>, prefix: Seq<char>, more: bool, r: u8) -> Seq<SCandidate>
    decreases options.len(),
{
    if options.len() == 0 {
        Seq::empty()
    } else {
        let o = options.last();
        let line = prefix.push(' ') + o.0 + (if more { seq![' '] } else { Seq::empty() });
        picks(options.drop_last(), partial, prefix, more, r) + if spec_rank(partial, o.0) == Some(r) {
            seq![(o.0, o.1, line)]
        } else {
            Seq::empty()
        }
    }
}

/// The commands of rank `r` for what was typed after the slash: usage, summary and the line.
pub open spec fn command_picks(table: Seq<SpecView>, summaries: Seq<Seq<char>>, query: Seq<char>, r: u8) -> Seq<SCandidate>
    decreases table.len(),
{
    if table.len() == 0 {
        Seq::empty()
    } else {
        let i = table.len() - 1;
        let spec = table[i];
        let summary = if i < summaries.len() { summaries[i] } else { Seq::empty() };
        let line = spec.name + (if spec.args.len() == 0 { Seq::empty() } else { seq![' '] });
        command_picks(table.drop_last(), summaries, query, r) + if spec_rank(query, unslashed(spec.name)) == Some(r) {
            seq![(spec.usage, summary, line)]
        } else {
            Seq::empty()
        }
    }
}

/// What an argument position offers.
pub open spec fn spec_options(arg: Arg, offers: Offers) -> Seq<(Seq<char>, Seq<char>)> {
    match arg {
        Arg::System => pairs_view(offers.systems@),
        Arg::SystemOrAll => seq![("all"@, offers.all@)] + pairs_view(offers.systems@),
        Arg::Example => pairs_view(offers.examples@),
        Arg::Shelf => pairs_view(offers.shelves@),
        Arg::Language => pairs_view(offers.languages@),
        _ => Seq::empty(),
    }
}

/// Whether a text holds a line break.
pub open spec fn multiline(text: Seq<char>) -> bool {
    exists|i: int| 0 <= i < text.len() && text[i] == '\n'
}

/// Candidates for `input`, best first; none when the line is not a single-line slash command.
pub open spec fn spec_candidates(input: Seq<char>, offers: Offers) -> Seq<SCandidate> {
    if !(input.len() > 0 && input[0] == '/') || multiline(input) {
        Seq::empty()
    } else {
        let words = split_words(input);
        let open = white_space(input.last());
        if words.len() == 1 && !open {
            let query = unslashed(words[0]);
            let summaries = words_view(offers.summaries@);
            command_picks(command_table(), summaries, query, 0) + command_picks(command_table(), summaries, query, 1)
        } else {
            match find_spec(command_table(), words[0]) {
                None => Seq::empty(),
                Some(spec) => {
                    let done = if open { words.len() - 1 } else { words.len() - 2 };
                    let partial = if open { Seq::empty() } else { words.last() };
                    if done >= spec.args.len() {
                        Seq::empty()
                    } else {
                        let options = spec_options(spec.args[done].0, offers);
                        let prefix = spaced(words.take(done + 1));
                        let more = done + 1 < spec.args.len();
                        picks(options, partial, prefix, more, 0) + picks(options, partial, prefix, more, 1)
                    }
                },
            }
        }
    }
}

/// Copies of pairs of texts.
fn copy_pairs(pairs: &Vec<(String, String)>) -> (copy: Vec<(String, String)>)
    ensures
        pairs_view(copy@) == pairs_view(pairs@),
{
    let mut copy: Vec<(String, String)> = Vec::new();
    let mut i: usize = 0;
    while i < pairs.len()
        invariant
            i <= pairs@.len(),
            pairs_view(copy@) == pairs_view(pairs@).take(i as int),
        decreases pairs@.len() - i,
    {
        let ghost before = pairs_view(copy@);
        copy.push((string_of(chars_of(pairs[i].0.as_str()).as_slice()), string_of(chars_of(pairs[i].1.as_str()).as_slice())));
        proof {
            assert(pairs_view(copy@) =~= before.push(pairs_view(pairs@)[i as int]));
        }
        i = i + 1;
        proof {
            assert(pairs_view(copy@) =~= pairs_view(pairs@).take(i as int));
        }
    }
    proof {
        assert(pairs_view(pairs@).take(pairs@.len() as int) =~= pairs_view(pairs@));
    }
    copy
}

/// `(value, description)` pairs an argument position accepts.
fn options(arg: Arg, offers: &Offers) -> (out: Vec<(String, String)>)
    ensures
        pairs_view(out@) == spec_options(arg, *offers),
{
    match arg {
        Arg::System => copy_pairs(&offers.systems),
        Arg::SystemOrAll => {
            let mut all = vec![(string_of(chars_of("all").as_slice()), string_of(chars_of(offers.all.as_str()).as_slice()))];
            let mut systems = copy_pairs(&offers.systems);
            let ghost first = pairs_view(all@);
            all.append(&mut systems);
            proof {
                assert(first =~= seq![("all"@, offers.all@)]);
                assert(pairs_view(all@) =~= first + pairs_view(offers.systems@));
            }
            all
        },
        Arg::Example => copy_pairs(&offers.examples),
        Arg::Shelf => copy_pairs(&offers.shelves),
        Arg::Language => copy_pairs(&offers.languages),
        _ => {
            let none: Vec<(String, String)> = Vec::new();
            proof {
                assert(pairs_view(none@) =~= Seq::<(Seq<char>, Seq<char>)>::empty());
            }
            none
        },
    }
}

/// A text without its leading slashes.
fn trim_slashes(text: &str) -> (out: String)
    ensures
        out@ == unslashed(text@),
{
    let chars = chars_of(text);
    let mut start: usize = 0;
    proof {
        assert(chars@.skip(0) =~= chars@);
    }
    while start < chars.len() && chars[start] == '/'
        invariant
            start <= chars@.len(),
            unslashed(chars@.skip(start as int)) == unslashed(chars@),
        decreases chars@.len() - start,
    {
        proof {
            assert(chars@.skip(start as int)[0] == chars@[start as int]);
            assert(chars@.skip(start as int).skip(1) =~= chars@.skip(start + 1));
        }
        start = start + 1;
    }
    let rest = chars.as_slice().split_at(start).1;
    proof {
        assert(rest@ =~= chars@.skip(start as int));
        if start < chars@.len() {
            assert(chars@.skip(start as int)[0] == chars@[start as int]);
        }
    }
    string_of(rest)
}

/// Candidates as sequences.
pub open spec fn candidates_view(cs: Seq<Candidate>) -> Seq<SCandidate> {
    cs.map_values(|c: Candidate| candidate_view(c))
}

/// The command rows for what was typed, best first.
fn commands(typed: &str, summaries: &Vec<String>) -> (out: Vec<Candidate>)
    ensures
        candidates_view(out@) == command_picks(command_table(), words_view(summaries@), unslashed(typed@), 0)
            + command_picks(command_table(), words_view(summaries@), unslashed(typed@), 1),
{
    let query = trim_slashes(typed);
    let table = specs();
    let ghost tv = table@.map_values(|s: Spec| spec_view(s));
    let ghost sv = words_view(summaries@);
    let mut out: Vec<Candidate> = Vec::new();
    let mut pass: u8 = 0;
    while pass < 2
        invariant
            pass <= 2,
            tv == table@.map_values(|s: Spec| spec_view(s)),
            tv == command_table(),
            sv == words_view(summaries@),
            query@ == unslashed(typed@),
            candidates_view(out@) == (if pass == 0 { Seq::empty() } else if pass == 1 { command_picks(tv, sv, query@, 0) } else {
                command_picks(tv, sv, query@, 0) + command_picks(tv, sv, query@, 1)
            }),
        decreases 2 - pass,
    {
        let ghost start = candidates_view(out@);
        let mut i: usize = 0;
        while i < table.len()
            invariant
                i <= table@.len(),
                tv == table@.map_values(|s: Spec| spec_view(s)),
                sv == words_view(summaries@),
                candidates_view(out@) == start + command_picks(tv.take(i as int), sv, query@, pass),
            decreases table@.len() - i,
        {
            let name = trim_slashes(table[i].name);
            let ghost before = candidates_view(out@);
            proof {
                assert(tv.take(i + 1).drop_last() =~= tv.take(i as int));
                assert(tv.take(i + 1).last() == spec_view(table@[i as int]));
            }
            if rank(query.as_str(), name.as_str()) == Some(pass) {
                let mut line = string_of(chars_of(table[i].name).as_slice());
                if table[i].args.len() > 0 {
                    push_char(&mut line, ' ');
                }
                let detail = if i < summaries.len() {
                    string_of(chars_of(summaries[i].as_str()).as_slice())
                } else {
                    String::new()
                };
                let label = string_of(chars_of(table[i].usage).as_slice());
                let candidate = Candidate { label, detail, line };
                out.push(candidate);
                proof {
                    if i < summaries@.len() {
                        assert(sv[i as int] == summaries@[i as int]@);
                    }
                    assert(line@ =~= tv[i as int].name + (if tv[i as int].args.len() == 0 { Seq::empty() } else { seq![' '] }));
                    assert(candidates_view(out@) =~= before.push(candidate_view(candidate)));
                }
            }
            i = i + 1;
            proof {
                assert(candidates_view(out@) =~= start + command_picks(tv.take(i as int), sv, query@, pass));
            }
        }
        proof {
            assert(tv.take(table@.len() as int) =~= tv);
        }
        pass = pass + 1;
    }
    out
}

/// The offers of rank `pass` for `partial`, each completing `prefix`.
fn pick(options: &Vec<(String, String)>, partial: &str, prefix: &String, more: bool, pass: u8, out: &mut Vec<Candidate>)
    ensures
        candidates_view(final(out)@) == candidates_view(old(out)@) + picks(pairs_view(options@), partial@, prefix@, more, pass),
{
    let ghost ov = pairs_view(options@);
    let ghost start = candidates_view(out@);
    let mut i: usize = 0;
    while i < options.len()
        invariant
            i <= options@.len(),
            ov == pairs_view(options@),
            start == candidates_view(old(out)@),
            candidates_view(out@) == start + picks(ov.take(i as int), partial@, prefix@, more, pass),
        decreases options@.len() - i,
    {
        proof {
            assert(ov.take(i + 1).drop_last() =~= ov.take(i as int));
            assert(ov.take(i + 1).last() == ov[i as int]);
        }
        let value = &options[i].0;
        if rank(partial, value.as_str()) == Some(pass) {
            let mut line = string_of(chars_of(prefix.as_str()).as_slice());
            push_char(&mut line, ' ');
            push_str(&mut line, value.as_str());
            if more {
                push_char(&mut line, ' ');
            }
            let candidate = Candidate {
                label: string_of(chars_of(value.as_str()).as_slice()),
                detail: string_of(chars_of(options[i].1.as_str()).as_slice()),
                line,
            };
            let ghost before = candidates_view(out@);
            out.push(candidate);
            proof {
                assert(line@ =~= prefix@.push(' ') + ov[i as int].0 + (if more { seq![' '] } else { Seq::empty() }));
                assert(candidates_view(out@) =~= before.push(candidate_view(candidate)));
            }
        }
        i = i + 1;
        proof {
            assert(candidates_view(out@) =~= start + picks(ov.take(i as int), partial@, prefix@, more, pass));
        }
    }
    proof {
        assert(ov.take(options@.len() as int) =~= ov);
    }
}

/// Candidates for `input`, best first; empty when the line is not a single-line slash command.
pub fn candidates(input: &str, offers: &Offers) -> (out: Vec<Candidate>)
    ensures
        candidates_view(out@) == spec_candidates(input@, *offers),
{
    let chars = chars_of(input);
    let mut multi = false;
    let mut k: usize = 0;
    while k < chars.len()
        invariant
            k <= chars@.len(),
            chars@ == input@,
            multi == exists|j: int| 0 <= j < k && chars@[j] == '\n',
        decreases chars@.len() - k,
    {
        if chars[k] == '\n' {
            multi = true;
        }
        k = k + 1;
    }
    if chars.len() == 0 || chars[0] != '/' || multi {
        let none: Vec<Candidate> = Vec::new();
        proof {
            assert(candidates_view(none@) =~= Seq::<SCandidate>::empty());
        }
        return none;
    }
    let words = words(input);
    let ghost wv = words_view(words@);
    let open = is_whitespace(chars[chars.len() - 1]);
    proof {
        crate::commands::words_not_empty_all(input@);
        assert(wv.len() > 0) by {
            crate::commands::first_word(input@);
        }
    }
    if words.len() == 1 && !open {
        proof {
            assert(wv[0] == words@[0]@);
        }
        return commands(words[0].as_str(), &offers.summaries);
    }
    let table = specs();
    let ghost tv = table@.map_values(|s: Spec| spec_view(s));
    let mut q: usize = 0;
    proof {
        assert(tv.skip(0) =~= tv);
        assert(wv[0] == words@[0]@);
    }
    while q < table.len() && !same_text(table[q].name, words[0].as_str())
        invariant
            q <= table@.len(),
            tv == table@.map_values(|s: Spec| spec_view(s)),
            tv == command_table(),
            find_spec(tv.skip(q as int), wv[0]) == find_spec(tv, wv[0]),
            wv == words_view(words@),
            wv.len() > 0,
            wv[0] == words@[0]@,
        decreases table@.len() - q,
    {
        proof {
            assert(tv.skip(q as int)[0] == tv[q as int]);
            assert(tv.skip(q as int).skip(1) =~= tv.skip(q + 1));
        }
        q = q + 1;
    }
    if q == table.len() {
        proof {
            assert(tv.skip(q as int) =~= Seq::<SpecView>::empty());
        }
        let none: Vec<Candidate> = Vec::new();
        proof {
            assert(candidates_view(none@) =~= Seq::<SCandidate>::empty());
        }
        return none;
    }
    let spec = &table[q];
    proof {
        assert(tv.skip(q as int)[0] == tv[q as int]);
    }
    let n = words.len();
    let done = if open {
        n - 1
    } else {
        n - 2
    };
    if done >= spec.args.len() {
        let none: Vec<Candidate> = Vec::new();
        proof {
            assert(candidates_view(none@) =~= Seq::<SCandidate>::empty());
        }
        return none;
    }
    let partial = if open {
        String::new()
    } else {
        string_of(chars_of(words[n - 1].as_str()).as_slice())
    };
    let mut prefix = String::new();
    let mut w: usize = 0;
    while w <= done
        invariant
            w <= done + 1,
            done < n,
            n == words@.len(),
            wv == words_view(words@),
            w == 0 ==> prefix@.len() == 0,
            w > 0 ==> prefix@ == spaced(wv.take(w as int)),
        decreases done + 1 - w,
    {
        proof {
            assert(wv.take(w + 1).drop_last() =~= wv.take(w as int));
            assert(wv[w as int] == words@[w as int]@);
            if w == 0 {
                assert(wv.take(1) =~= seq![wv[0]]);
            }
        }
        if w > 0 {
            push_char(&mut prefix, ' ');
        }
        push_str(&mut prefix, words[w].as_str());
        w = w + 1;
    }
    let more = done + 1 < spec.args.len();
    let offered = options(spec.args[done].0, offers);
    proof {
        if !open {
            assert(wv.last() == words@[n - 1]@);
        }
    }
    let mut out: Vec<Candidate> = Vec::new();
    pick(&offered, partial.as_str(), &prefix, more, 0, &mut out);
    pick(&offered, partial.as_str(), &prefix, more, 1, &mut out);
    proof {
        assert(candidates_view(Seq::<Candidate>::empty()) =~= Seq::<SCandidate>::empty());
    }
    out
}

} // verus!
