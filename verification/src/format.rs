//! Numbers the way a reader wants them: counts grouped by thousands, bytes in groups of four.

use vstd::prelude::*;

use crate::activities::{grouped, grouped_text, hex_digit, hex_text};
use crate::strings::push_char;

verus! {

/// A count with thousands separated: `12,345`.
pub fn count(value: u64) -> (out: String)
    ensures
        out@ == grouped_text(value as nat),
{
    grouped(value as u128)
}

/// The groups of four bytes from byte `i` on, each in hex and each after a space but the first.
pub open spec fn groups_from(bytes: Seq<u8>, i: int) -> Seq<char>
    decreases bytes.len() - i,
{
    if i < 0 || i >= bytes.len() {
        Seq::empty()
    } else {
        let end = if i + 4 < bytes.len() {
            i + 4
        } else {
            bytes.len() as int
        };
        (if i > 0 {
            seq![' ']
        } else {
            Seq::empty()
        }) + hex_text(bytes.subrange(i, end)) + groups_from(bytes, end)
    }
}

/// Bytes as lowercase hex in groups of four bytes, separated by spaces.
pub open spec fn hex_groups_text(bytes: Seq<u8>) -> Seq<char> {
    groups_from(bytes, 0)
}

/// Bytes as lowercase hex in groups of four bytes, so a reader can count them.
pub fn hex_groups(bytes: &[u8]) -> (out: String)
    ensures
        out@ == hex_groups_text(bytes@),
{
    let n = bytes.len();
    let mut out = String::new();
    let mut i: usize = 0;
    while i < n
        invariant
            i <= n,
            n == bytes@.len(),
            out@ + groups_from(bytes@, i as int) == hex_groups_text(bytes@),
        decreases n - i,
    {
        let end = if n - i > 4 {
            i + 4
        } else {
            n
        };
        let ghost start = out@;
        if i > 0 {
            push_char(&mut out, ' ');
        }
        let ghost spaced = out@;
        let mut k: usize = i;
        while k < end
            invariant
                i <= k <= end,
                end <= n,
                n == bytes@.len(),
                out@ == spaced + hex_text(bytes@.subrange(i as int, k as int)),
            decreases end - k,
        {
            let b = bytes[k];
            push_char(&mut out, hex_digit(b / 16));
            push_char(&mut out, hex_digit(b % 16));
            proof {
                assert(bytes@.subrange(i as int, k + 1).drop_last() =~= bytes@.subrange(i as int, k as int));
            }
            k = k + 1;
        }
        proof {
            assert(out@ + groups_from(bytes@, end as int) =~= start + groups_from(bytes@, i as int));
        }
        i = end;
    }
    proof {
        assert(out@ + groups_from(bytes@, i as int) =~= out@);
    }
    out
}

} // verus!
