//! Filling the phrase templates: values by name, and engine keys as readable words.

use vstd::prelude::*;

use crate::strings::{chars_of, push_char, push_str, string_of};

verus! {

/// The index of the first `c` in `s`.
pub open spec fn find_char(s: Seq<char>, c: char) -> Option<int>
    decreases s.len(),
{
    if s.len() == 0 {
        None
    } else if s[0] == c {
        Some(0)
    } else {
        match find_char(s.skip(1), c) {
            Some(i) => Some(i + 1),
            None => None,
        }
    }
}

/// The value given for `name`: that of the first pair whose name it is.
pub open spec fn lookup(values: Seq<(&str, &str)>, name: Seq<char>) -> Option<Seq<char>>
    decreases values.len(),
{
    if values.len() == 0 {
        None
    } else if values[0].0@ == name {
        Some(values[0].1@)
    } else {
        lookup(values.skip(1), name)
    }
}

/// `template` with every `{name}` that has a value replaced by it; an opening brace without a
/// known name after it stays as it is, and so does a text with no closing brace.
pub open spec fn filled(template: Seq<char>, values: Seq<(&str, &str)>) -> Seq<char>
    decreases template.len(),
{
    match find_char(template, '{') {
        None => template,
        Some(open) => {
            proof {
                find_char_bound(template, '{');
                find_char_bound(template.skip(open + 1), '}');
            }
            let after = template.skip(open + 1);
            let head = template.take(open);
            match find_char(after, '}') {
                Some(close) => match lookup(values, after.take(close)) {
                    Some(value) => head + value + filled(after.skip(close + 1), values),
                    None => head.push('{') + filled(after, values),
                },
                None => head.push('{') + filled(after, values),
            }
        },
    }
}

/// Pairs of names and values as sequences.
pub open spec fn values_view(values: Seq<(&str, &str)>) -> Seq<(Seq<char>, Seq<char>)> {
    values.map_values(|p: (&str, &str)| (p.0@, p.1@))
}

/// The value given for `name` among pairs of sequences: that of the first pair whose name it is.
pub open spec fn lookup_views(pairs: Seq<(Seq<char>, Seq<char>)>, name: Seq<char>) -> Option<Seq<char>>
    decreases pairs.len(),
{
    if pairs.len() == 0 {
        None
    } else if pairs[0].0 == name {
        Some(pairs[0].1)
    } else {
        lookup_views(pairs.skip(1), name)
    }
}

/// [`filled`] with the values given as pairs of sequences.
pub open spec fn filled_views(template: Seq<char>, pairs: Seq<(Seq<char>, Seq<char>)>) -> Seq<char>
    decreases template.len(),
{
    match find_char(template, '{') {
        None => template,
        Some(open) => {
            proof {
                find_char_bound(template, '{');
                find_char_bound(template.skip(open + 1), '}');
            }
            let after = template.skip(open + 1);
            let head = template.take(open);
            match find_char(after, '}') {
                Some(close) => match lookup_views(pairs, after.take(close)) {
                    Some(value) => head + value + filled_views(after.skip(close + 1), pairs),
                    None => head.push('{') + filled_views(after, pairs),
                },
                None => head.push('{') + filled_views(after, pairs),
            }
        },
    }
}

/// Looking a name up depends only on what the pairs say.
proof fn lookup_by_views(values: Seq<(&str, &str)>, name: Seq<char>)
    ensures
        lookup(values, name) == lookup_views(values_view(values), name),
    decreases values.len(),
{
    if values.len() > 0 {
        assert(values_view(values.skip(1)) =~= values_view(values).skip(1));
        lookup_by_views(values.skip(1), name);
    }
}

/// Filling depends only on what the pairs say.
pub proof fn filled_by_views(template: Seq<char>, values: Seq<(&str, &str)>)
    ensures
        filled(template, values) == filled_views(template, values_view(values)),
    decreases template.len(),
{
    match find_char(template, '{') {
        None => {},
        Some(open) => {
            find_char_bound(template, '{');
            let after = template.skip(open + 1);
            find_char_bound(after, '}');
            match find_char(after, '}') {
                Some(close) => {
                    lookup_by_views(values, after.take(close));
                    filled_by_views(after.skip(close + 1), values);
                    filled_by_views(after, values);
                },
                None => {
                    filled_by_views(after, values);
                },
            }
        },
    }
}

/// What `find_char` finds is inside the text.
pub proof fn find_char_bound(s: Seq<char>, c: char)
    ensures
        find_char(s, c) matches Some(i) ==> 0 <= i < s.len(),
    decreases s.len(),
{
    if s.len() > 0 {
        find_char_bound(s.skip(1), c);
    }
}

/// What `find_char` finds is the first `c`.
proof fn find_char_first(s: Seq<char>, c: char, i: int)
    requires
        0 <= i < s.len(),
        s[i] == c,
        forall|k: int| 0 <= k < i ==> s[k] != c,
    ensures
        find_char(s, c) == Some(i),
    decreases i,
{
    if i > 0 {
        find_char_first(s.skip(1), c, i - 1);
    }
}

/// `find_char` finds nothing in a text without `c`.
proof fn find_char_none(s: Seq<char>, c: char)
    requires
        forall|k: int| 0 <= k < s.len() ==> s[k] != c,
    ensures
        find_char(s, c) is None,
    decreases s.len(),
{
    if s.len() > 0 {
        find_char_none(s.skip(1), c);
    }
}

/// What `find_char` finds is a `c` with none before it.
proof fn find_char_found(s: Seq<char>, c: char)
    ensures
        find_char(s, c) matches Some(i) ==> 0 <= i < s.len() && s[i] == c && forall|k: int|
            0 <= k < i ==> s[k] != c,
    decreases s.len(),
{
    if s.len() > 0 && s[0] != c {
        find_char_found(s.skip(1), c);
        if let Some(i) = find_char(s.skip(1), c) {
            assert forall|k: int| 0 <= k < i + 1 implies s[k] != c by {
                if k > 0 {
                    assert(s[k] == s.skip(1)[k - 1]);
                }
            }
        }
    }
}

/// Whether `template` holds a `{name}` whose name has a value: an opening brace, then a name
/// without a closing brace in it, then the closing brace.
pub open spec fn has_known_placeholder(template: Seq<char>, values: Seq<(&str, &str)>) -> bool {
    exists|i: int, j: int|
        0 <= i < j < template.len() && template[i] == '{' && template[j] == '}' && (forall|k: int|
            i < k < j ==> template[k] != '}') && #[trigger] lookup(values, template.subrange(i + 1, j))
            is Some
}

/// A template in which no `{name}` has a value comes back from filling as it was: this holds in
/// particular when no values are given, and when the template has no opening brace. What
/// [`fill`] returns is [`filled`], so `fill` returns such a template unchanged.
pub proof fn unknown_names_are_kept(template: Seq<char>, values: Seq<(&str, &str)>)
    requires
        !has_known_placeholder(template, values),
    ensures
        filled(template, values) == template,
    decreases template.len(),
{
    find_char_found(template, '{');
    if let Some(open) = find_char(template, '{') {
        let after = template.skip(open + 1);
        let head = template.take(open);
        find_char_found(after, '}');
        if let Some(close) = find_char(after, '}') {
            assert(after.take(close) =~= template.subrange(open + 1, open + 1 + close));
            assert forall|k: int| open < k < open + 1 + close implies template[k] != '}' by {
                assert(template[k] == after[k - open - 1]);
            }
            assert(lookup(values, after.take(close)) is None);
        }
        assert(!has_known_placeholder(after, values)) by {
            if has_known_placeholder(after, values) {
                let (i, j) = choose|i: int, j: int|
                    0 <= i < j < after.len() && after[i] == '{' && after[j] == '}' && (forall|k: int|
                        i < k < j ==> after[k] != '}') && #[trigger] lookup(values, after.subrange(i + 1, j))
                        is Some;
                assert(after.subrange(i + 1, j) =~= template.subrange(open + 1 + i + 1, open + 1 + j));
                assert forall|k: int| open + 1 + i < k < open + 1 + j implies template[k] != '}' by {
                    assert(template[k] == after[k - open - 1]);
                }
                assert(template[open + 1 + i] == after[i]);
                assert(template[open + 1 + j] == after[j]);
                assert(lookup(values, template.subrange(open + 1 + i + 1, open + 1 + j)) is Some);
            }
        }
        unknown_names_are_kept(after, values);
        assert(head.push('{') + after =~= template);
    }
}

/// Where the first `c` at or after `from` is.
fn find_from(chars: &Vec<char>, from: usize, c: char) -> (found: Option<usize>)
    requires
        from <= chars@.len(),
    ensures
        found matches Some(j) ==> find_char(chars@.skip(from as int), c) == Some(j - from) && from <= j < chars@.len(),
        found is None ==> find_char(chars@.skip(from as int), c) is None,
{
    let mut j = from;
    while j < chars.len()
        invariant
            from <= j <= chars@.len(),
            forall|k: int| from <= k < j ==> chars@[k] != c,
        decreases chars@.len() - j,
    {
        if chars[j] == c {
            proof {
                find_char_first(chars@.skip(from as int), c, j - from);
            }
            return Some(j);
        }
        j = j + 1;
    }
    proof {
        find_char_none(chars@.skip(from as int), c);
    }
    None
}

/// The value given for the name `chars[a..b]`.
fn lookup_name<'a>(values: &[(&'a str, &'a str)], chars: &Vec<char>, a: usize, b: usize) -> (value: Option<&'a str>)
    requires
        a <= b <= chars@.len(),
    ensures
        match (value, lookup(values@, chars@.subrange(a as int, b as int))) {
            (Some(v), Some(w)) => v@ == w,
            (None, None) => true,
            _ => false,
        },
{
    let ghost name = chars@.subrange(a as int, b as int);
    let mut i: usize = 0;
    proof {
        assert(values@.skip(0) =~= values@);
    }
    while i < values.len()
        invariant
            i <= values@.len(),
            a <= b <= chars@.len(),
            name == chars@.subrange(a as int, b as int),
            lookup(values@.skip(i as int), name) == lookup(values@, name),
        decreases values@.len() - i,
    {
        let key = chars_of(values[i].0);
        let mut same = key.len() == b - a;
        let mut k: usize = 0;
        while same && k < key.len()
            invariant
                key@ == values@[i as int].0@,
                same ==> key@.len() == b - a,
                k <= key@.len(),
                a <= b <= chars@.len(),
                same ==> forall|q: int| 0 <= q < k ==> key@[q] == chars@[a + q],
                !same ==> key@ != name,
                name == chars@.subrange(a as int, b as int),
            decreases key@.len() - k,
        {
            if key[k] != chars[a + k] {
                same = false;
                proof {
                    assert(key@[k as int] != name[k as int]);
                }
            }
            k = k + 1;
        }
        proof {
            assert(values@.skip(i as int)[0] == values@[i as int]);
            assert(values@.skip(i as int).skip(1) =~= values@.skip(i + 1));
            if same {
                assert(key@ =~= name);
            }
        }
        if same {
            return Some(values[i].1);
        }
        i = i + 1;
    }
    None
}

/// Appends `chars[a..b]` to `out`.
fn push_range(out: &mut String, chars: &Vec<char>, a: usize, b: usize)
    requires
        a <= b <= chars@.len(),
    ensures
        final(out)@ == old(out)@ + chars@.subrange(a as int, b as int),
{
    let mut i = a;
    while i < b
        invariant
            a <= i <= b,
            b <= chars@.len(),
            out@ == old(out)@ + chars@.subrange(a as int, i as int),
        decreases b - i,
    {
        push_char(out, chars[i]);
        i = i + 1;
        proof {
            assert(out@ =~= old(out)@ + chars@.subrange(a as int, i as int));
        }
    }
}

/// Replaces `{name}` in `template` with the value given for `name`; unknown names are left as
/// they are.
pub fn fill(template: &str, values: &[(&str, &str)]) -> (out: String)
    ensures
        out@ == filled(template@, values@),
{
    let chars = chars_of(template);
    let n = chars.len();
    let mut out = String::new();
    let mut pos: usize = 0;
    proof {
        assert(chars@.skip(0) =~= chars@);
    }
    while pos < n
        invariant
            pos <= n,
            n == chars@.len(),
            chars@ == template@,
            out@ + filled(chars@.skip(pos as int), values@) == filled(template@, values@),
        decreases n - pos,
    {
        let ghost rest = chars@.skip(pos as int);
        match find_from(&chars, pos, '{') {
            None => {
                push_range(&mut out, &chars, pos, n);
                proof {
                    assert(chars@.subrange(pos as int, n as int) =~= rest);
                    assert(chars@.skip(n as int) =~= Seq::<char>::empty());
                }
                pos = n;
            },
            Some(open) => {
                let ghost after = rest.skip(open - pos + 1);
                proof {
                    assert(after =~= chars@.skip(open + 1));
                    assert(rest.take(open - pos) =~= chars@.subrange(pos as int, open as int));
                }
                push_range(&mut out, &chars, pos, open);
                match find_from(&chars, open + 1, '}') {
                    Some(close) => {
                        proof {
                            assert(after.take(close - open - 1) =~= chars@.subrange(open + 1, close as int));
                            assert(after.skip(close - open - 1 + 1) =~= chars@.skip(close + 1));
                        }
                        match lookup_name(values, &chars, open + 1, close) {
                            Some(value) => {
                                push_str(&mut out, value);
                                pos = close + 1;
                            },
                            None => {
                                push_char(&mut out, '{');
                                pos = open + 1;
                            },
                        }
                    },
                    None => {
                        push_char(&mut out, '{');
                        pos = open + 1;
                    },
                }
            },
        }
    }
    proof {
        assert(chars@.skip(pos as int) =~= Seq::<char>::empty());
    }
    out
}

/// A key with its hyphens and underscores read as spaces.
pub open spec fn humanised(key: Seq<char>) -> Seq<char> {
    key.map_values(|c: char| if c == '-' || c == '_' { ' ' } else { c })
}

/// A phrase key an engine returned (`"public-inputs"`) as readable words when no table has it.
pub fn humanise(key: &str) -> (out: String)
    ensures
        out@ == humanised(key@),
{
    let chars = chars_of(key);
    let mut out: Vec<char> = Vec::new();
    let mut i: usize = 0;
    while i < chars.len()
        invariant
            i <= chars@.len(),
            chars@ == key@,
            out@ == humanised(key@).take(i as int),
        decreases chars@.len() - i,
    {
        let c = chars[i];
        out.push(if c == '-' || c == '_' { ' ' } else { c });
        i = i + 1;
        proof {
            assert(out@ =~= humanised(key@).take(i as int));
        }
    }
    proof {
        assert(humanised(key@).take(chars@.len() as int) =~= humanised(key@));
    }
    string_of(out.as_slice())
}

} // verus!
