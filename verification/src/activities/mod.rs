//! The hands-on exhibits: Ali Baba's cave, Trio's rounds, the Toy Shielded Pool, the trusted-setup
//! ceremony and the BCTV14 forgery; what they are called on the command line, and the numbers
//! and hashes they print.

pub mod cave;
pub mod ceremony;
pub mod forge;
pub mod pool;
pub mod request;
pub mod trio;

use vstd::prelude::*;

use crate::strings::{push_char, string_of};

verus! {

/// Whether an activity waits between its beats.
#[derive(Clone, Copy, Debug, PartialEq, Eq, Hash, Structural)]
pub enum Pace {
    /// One beat at a time, at the pace the design sets for the exhibit: the TUI.
    Story,
    /// Every beat at once: the command line, scripts and tests.
    Instant,
}

impl Default for Pace {
    fn default() -> (pace: Pace)
        ensures
            pace == Pace::Story,
    {
        Pace::Story
    }
}

/// The character of a decimal digit.
pub open spec fn digit_char(d: int) -> char {
    if d == 0 {
        '0'
    } else if d == 1 {
        '1'
    } else if d == 2 {
        '2'
    } else if d == 3 {
        '3'
    } else if d == 4 {
        '4'
    } else if d == 5 {
        '5'
    } else if d == 6 {
        '6'
    } else if d == 7 {
        '7'
    } else if d == 8 {
        '8'
    } else {
        '9'
    }
}

/// The decimal digits of a whole number, most significant first, without leading zeros.
pub open spec fn decimal(value: nat) -> Seq<char>
    decreases value,
{
    if value < 10 {
        seq![digit_char(value as int)]
    } else {
        decimal(value / 10).push(digit_char((value % 10) as int))
    }
}

/// The first `k` digits of `digits`, with a comma before every digit that starts a group of three
/// counted from the right.
pub open spec fn commas_upto(digits: Seq<char>, k: int) -> Seq<char>
    decreases k,
{
    if k <= 0 {
        Seq::empty()
    } else {
        let i = k - 1;
        commas_upto(digits, i) + (if i > 0 && (digits.len() - i) % 3 == 0 {
            seq![',']
        } else {
            Seq::empty()
        }) + seq![digits[i]]
    }
}

/// A whole number with thousands separated by commas.
pub open spec fn grouped_text(value: nat) -> Seq<char> {
    commas_upto(decimal(value), decimal(value).len() as int)
}

/// The character of a decimal digit.
fn digit(d: u128) -> (c: char)
    requires
        d < 10,
    ensures
        c == digit_char(d as int),
{
    if d == 0 {
        '0'
    } else if d == 1 {
        '1'
    } else if d == 2 {
        '2'
    } else if d == 3 {
        '3'
    } else if d == 4 {
        '4'
    } else if d == 5 {
        '5'
    } else if d == 6 {
        '6'
    } else if d == 7 {
        '7'
    } else if d == 8 {
        '8'
    } else {
        '9'
    }
}

/// The decimal digits of `value`.
pub fn decimal_digits(value: u128) -> (digits: Vec<char>)
    ensures
        digits@ == decimal(value as nat),
    decreases value,
{
    if value < 10 {
        vec![digit(value)]
    } else {
        let mut digits = decimal_digits(value / 10);
        digits.push(digit(value % 10));
        digits
    }
}

/// Decimal digits number at most forty for a `u128`.
pub proof fn decimal_len(value: nat)
    ensures
        1 <= decimal(value).len() <= value + 1,
    decreases value,
{
    if value >= 10 {
        decimal_len(value / 10);
    }
}

/// A whole number with thousands separated, however large: `1,099,511,627,776`.
pub fn grouped(value: u128) -> (out: String)
    ensures
        out@ == grouped_text(value as nat),
{
    let digits = decimal_digits(value);
    let n = digits.len();
    let mut out: Vec<char> = Vec::new();
    let mut index: usize = 0;
    while index < n
        invariant
            index <= n,
            n == digits@.len(),
            out@ == commas_upto(digits@, index as int),
        decreases n - index,
    {
        if index > 0 && (n - index) % 3 == 0 {
            out.push(',');
        }
        out.push(digits[index]);
        index = index + 1;
        proof {
            assert(out@ =~= commas_upto(digits@, index as int));
        }
    }
    string_of(out.as_slice())
}

/// The bytes a character takes in UTF-8.
pub open spec fn utf8_len(c: char) -> int {
    if (c as u32) < 0x80 {
        1
    } else if (c as u32) < 0x800 {
        2
    } else if (c as u32) < 0x10000 {
        3
    } else {
        4
    }
}

/// The bytes a text takes in UTF-8.
pub open spec fn utf8_size(text: Seq<char>) -> int
    decreases text.len(),
{
    if text.len() == 0 {
        0
    } else {
        utf8_size(text.drop_last()) + utf8_len(text.last())
    }
}

/// Whether byte `at` of a text is where a character starts (or the end).
pub open spec fn on_boundary(text: Seq<char>, at: int) -> bool {
    exists|k: int| 0 <= k <= text.len() && #[trigger] utf8_size(text.take(k)) == at
}

/// The first `bytes` bytes of a hex string, followed by `…` when there was more: the characters
/// whose bytes come first, as many as make up twice `bytes` bytes.
pub open spec fn spec_short_hex(hex: Seq<char>, bytes: int) -> Seq<char> {
    if 2 * bytes < utf8_size(hex) {
        hex.take(choose|k: int| 0 <= k <= hex.len() && utf8_size(hex.take(k)) == 2 * bytes).push('…')
    } else {
        hex
    }
}

/// The bytes of one character in UTF-8.
fn char_bytes(c: char) -> (n: usize)
    ensures
        n == utf8_len(c),
{
    let code = c as u32;
    if code < 0x80 {
        1
    } else if code < 0x800 {
        2
    } else if code < 0x10000 {
        3
    } else {
        4
    }
}

/// Byte sizes grow with the prefix and only by whole characters.
proof fn utf8_size_prefix(text: Seq<char>, k: int)
    requires
        0 <= k < text.len(),
    ensures
        utf8_size(text.take(k + 1)) == utf8_size(text.take(k)) + utf8_len(text[k]),
        utf8_size(text.take(k)) >= k,
{
    assert(text.take(k + 1).drop_last() =~= text.take(k));
    utf8_size_at_least(text.take(k));
}

/// A text takes at least a byte per character.
proof fn utf8_size_at_least(text: Seq<char>)
    ensures
        utf8_size(text) >= text.len(),
    decreases text.len(),
{
    if text.len() > 0 {
        utf8_size_at_least(text.drop_last());
    }
}

/// Prefix sizes only grow, so two prefixes of the same size are the same prefix.
proof fn utf8_size_increasing(text: Seq<char>, a: int, b: int)
    requires
        0 <= a < b <= text.len(),
    ensures
        utf8_size(text.take(a)) < utf8_size(text.take(b)),
    decreases b - a,
{
    utf8_size_prefix(text, b - 1);
    if a < b - 1 {
        utf8_size_increasing(text, a, b - 1);
    }
}

/// The first `bytes` bytes of a hex string, followed by `…` when there was more. The cut must
/// fall where a character starts, as slicing a string asks.
pub fn short_hex(hex: &str, bytes: usize) -> (out: String)
    requires
        2 * bytes <= usize::MAX,
        utf8_size(hex@) <= usize::MAX,
        2 * bytes < utf8_size(hex@) ==> on_boundary(hex@, 2 * bytes),
    ensures
        out@ == spec_short_hex(hex@, bytes as int),
{
    let chars = crate::strings::chars_of(hex);
    let ghost text = hex@;
    let keep = bytes * 2;
    let mut total: usize = 0;
    let mut i: usize = 0;
    proof {
        assert(text.take(0) =~= Seq::<char>::empty());
    }
    while i < chars.len()
        invariant
            chars@ == text,
            i <= text.len(),
            total == utf8_size(text.take(i as int)),
            utf8_size(text) <= usize::MAX,
        decreases text.len() - i,
    {
        proof {
            utf8_size_prefix(text, i as int);
            assert(text.take(text.len() as int) =~= text);
            if i + 1 < text.len() {
                utf8_size_increasing(text, i + 1, text.len() as int);
            } else {
                assert(text.take(i + 1) =~= text);
            }
            assert(utf8_size(text.take(i + 1)) <= usize::MAX);
        }
        let n = char_bytes(chars[i]);
        assert(n == utf8_len(text[i as int]));
        total = total + n;
        i = i + 1;
    }
    proof {
        assert(text.take(text.len() as int) =~= text);
    }
    if keep < total {
        let ghost k = choose|k: int| 0 <= k <= text.len() && utf8_size(text.take(k)) == 2 * bytes;
        let mut out: Vec<char> = Vec::new();
        let mut used: usize = 0;
        let mut j: usize = 0;
        proof {
            assert(text.take(0) =~= Seq::<char>::empty());
            assert(k < text.len()) by {
                if k == text.len() {
                    assert(text.take(k) =~= text);
                }
            }
        }
        while used < keep
            invariant
                chars@ == text,
                0 <= k < text.len(),
                utf8_size(text.take(k)) == keep,
                j <= k,
                used == utf8_size(text.take(j as int)),
                out@ == text.take(j as int),
                keep < total,
                total == utf8_size(text),
            decreases keep - used,
        {
            proof {
                if j == k {
                    assert(false);
                }
                utf8_size_prefix(text, j as int);
                if j + 1 < k {
                    utf8_size_increasing(text, j + 1, k);
                }
            }
            used = used + char_bytes(chars[j]);
            out.push(chars[j]);
            j = j + 1;
            proof {
                assert(out@ =~= text.take(j as int));
            }
        }
        proof {
            if j < k {
                utf8_size_increasing(text, j as int, k);
            }
            assert(j == k);
        }
        out.push('…');
        string_of(out.as_slice())
    } else {
        string_of(chars.as_slice())
    }
}

/// The lowercase hex digit of a value below sixteen.
pub open spec fn hex_char(d: int) -> char {
    if d < 10 {
        digit_char(d)
    } else if d == 10 {
        'a'
    } else if d == 11 {
        'b'
    } else if d == 12 {
        'c'
    } else if d == 13 {
        'd'
    } else if d == 14 {
        'e'
    } else {
        'f'
    }
}

/// Two lowercase hex digits for every byte.
pub open spec fn hex_text(bytes: Seq<u8>) -> Seq<char>
    decreases bytes.len(),
{
    if bytes.len() == 0 {
        Seq::empty()
    } else {
        hex_text(bytes.drop_last()).push(hex_char((bytes.last() / 16) as int)).push(hex_char((bytes.last() % 16) as int))
    }
}

/// The lowercase hex digit of a value below sixteen.
pub fn hex_digit(d: u8) -> (c: char)
    requires
        d < 16,
    ensures
        c == hex_char(d as int),
{
    if d < 10 {
        digit(d as u128)
    } else if d == 10 {
        'a'
    } else if d == 11 {
        'b'
    } else if d == 12 {
        'c'
    } else if d == 13 {
        'd'
    } else if d == 14 {
        'e'
    } else {
        'f'
    }
}

/// Lowercase hex of `bytes`.
pub fn hex(bytes: &[u8]) -> (out: String)
    ensures
        out@ == hex_text(bytes@),
{
    let mut out = String::new();
    let mut i: usize = 0;
    while i < bytes.len()
        invariant
            i <= bytes@.len(),
            out@ == hex_text(bytes@.take(i as int)),
        decreases bytes@.len() - i,
    {
        let b = bytes[i];
        push_char(&mut out, hex_digit(b / 16));
        push_char(&mut out, hex_digit(b % 16));
        proof {
            assert(bytes@.take(i + 1).drop_last() =~= bytes@.take(i as int));
        }
        i = i + 1;
    }
    proof {
        assert(bytes@.take(bytes@.len() as int) =~= bytes@);
    }
    out
}

} // verus!
