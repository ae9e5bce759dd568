//! `/pool`: the Toy Shielded Pool, kept on this machine, proved with Groth16 or Halo 2.

pub mod store;

use vstd::prelude::*;

use crate::strings::same_text;

verus! {


/// The proof system a pool's spends are proved with.
#[derive(Clone, Copy, Debug, PartialEq, Eq, Hash, Structural)]
pub enum PoolSystem {
    /// Groth16 on BLS12-381, as Zcash Sapling proves spends.
    Groth16,
    /// Halo 2 on the Pasta curves, as Zcash Orchard proves actions.
    Halo2,
}

/// The display name of each system.
pub open spec fn system_name(system: PoolSystem) -> Seq<char> {
    match system {
        PoolSystem::Groth16 => "Groth16"@,
        PoolSystem::Halo2 => "Halo 2"@,
    }
}

impl Default for PoolSystem {
    fn default() -> (system: PoolSystem)
        ensures
            system == PoolSystem::Groth16,
    {
        PoolSystem::Groth16
    }
}

/// The word that names each value.
pub open spec fn system_key(value: PoolSystem) -> Seq<char> {
    match value {
        PoolSystem::Groth16 => "groth16"@,
        PoolSystem::Halo2 => "halo2"@,
    }
}

/// The value a word names, if any.
pub open spec fn system_from_key(key: Seq<char>) -> Option<PoolSystem> {
    if key == system_key(PoolSystem::Groth16) {
        Some(PoolSystem::Groth16)
    } else if key == system_key(PoolSystem::Halo2) {
        Some(PoolSystem::Halo2)
    } else {
        None
    }
}

/// Each value has its own word, so reading a value's word back gives the value.
pub proof fn system_key_round_trip(value: PoolSystem)
    ensures
        system_from_key(system_key(value)) == Some(value),
{
    reveal_strlit("groth16");
    reveal_strlit("halo2");
    match value {
        PoolSystem::Groth16 => {
        },
        PoolSystem::Halo2 => {
            assert(system_key(PoolSystem::Halo2).len() != system_key(PoolSystem::Groth16).len());
        },
    }
}

/// A word names a value only when it is that value's word.
pub proof fn system_from_key_names(key: Seq<char>)
    ensures
        system_from_key(key) matches Some(value) ==> system_key(value) == key,
        system_from_key(key) is None ==> forall|value: PoolSystem| #[trigger] system_key(value) != key,
{
}

impl PoolSystem {
    /// Both, in the order Zcash used them.
    pub fn all() -> (all: Vec<PoolSystem>)
        ensures
            all@ == seq![PoolSystem::Groth16, PoolSystem::Halo2],
    {
        let all = vec![PoolSystem::Groth16, PoolSystem::Halo2];
        proof {
            assert(all@ =~= seq![PoolSystem::Groth16, PoolSystem::Halo2]);
        }
        all
    }

    /// The word typed after `/pool use`, also the name of its directory.
    pub fn key(self) -> (key: &'static str)
        ensures
            key@ == system_key(self),
    {
        match self {
            PoolSystem::Groth16 => "groth16",
            PoolSystem::Halo2 => "halo2",
        }
    }

    /// The system a typed word names.
    pub fn from_key(key: &str) -> (value: Option<PoolSystem>)
        ensures
            value == system_from_key(key@),
    {
        if same_text(key, PoolSystem::Groth16.key()) {
            Some(PoolSystem::Groth16)
        } else if same_text(key, PoolSystem::Halo2.key()) {
            Some(PoolSystem::Halo2)
        } else {
            None
        }
    }

    /// Its display name.
    pub fn name(self) -> (name: &'static str)
        ensures
            name@ == system_name(self),
    {
        match self {
            PoolSystem::Groth16 => "Groth16",
            PoolSystem::Halo2 => "Halo 2",
        }
    }

}

/// Whether a character is an ASCII decimal digit.
pub open spec fn is_digit(c: char) -> bool {
    '0' <= c && c <= '9'
}

/// The value of a run of decimal digits.
pub open spec fn digits_value(digits: Seq<char>) -> nat
    decreases digits.len(),
{
    if digits.len() == 0 {
        0
    } else {
        digits_value(digits.drop_last()) * 10 + ((digits.last() as u32) - ('0' as u32)) as nat
    }
}

/// A number's digits: the text after an optional leading `+`.
pub open spec fn unsigned_digits(text: Seq<char>) -> Seq<char> {
    if text.len() > 0 && text[0] == '+' {
        text.skip(1)
    } else {
        text
    }
}

/// A whole number as the standard library's `from_str` for unsigned integers reads it: an
/// optional `+`, then one or more decimal digits whose value is at most `max`; nothing else.
pub open spec fn spec_parse_unsigned(text: Seq<char>, max: int) -> Option<int> {
    let digits = unsigned_digits(text);
    if digits.len() > 0 && (forall|i: int| 0 <= i < digits.len() ==> is_digit(#[trigger] digits[i]))
        && digits_value(digits) <= max {
        Some(digits_value(digits) as int)
    } else {
        None
    }
}

/// A number as `u16::from_str` reads it.
pub open spec fn spec_parse_u16(text: Seq<char>) -> Option<u16> {
    match spec_parse_unsigned(text, 65535) {
        Some(n) => Some(n as u16),
        None => None,
    }
}

/// A longer run of digits is worth at least as much as its start.
proof fn digits_value_grows(digits: Seq<char>, k: int)
    requires
        0 <= k <= digits.len(),
        forall|i: int| 0 <= i < digits.len() ==> is_digit(#[trigger] digits[i]),
    ensures
        digits_value(digits.take(k)) <= digits_value(digits),
    decreases digits.len() - k,
{
    if k < digits.len() {
        digits_value_grows(digits, k + 1);
        assert(digits.take(k + 1).drop_last() =~= digits.take(k));
    } else {
        assert(digits.take(k) =~= digits);
    }
}

/// A whole number from 0 to `max`, read as unsigned integers are read from text.
pub fn parse_unsigned(text: &str, max: u32) -> (number: Option<u32>)
    ensures
        match number {
            Some(n) => spec_parse_unsigned(text@, max as int) == Some(n as int),
            None => spec_parse_unsigned(text@, max as int) is None,
        },
{
    let chars = crate::strings::chars_of(text);
    let n = chars.len();
    let start: usize = if n > 0 && chars[0] == '+' {
        1
    } else {
        0
    };
    let ghost digits = unsigned_digits(text@);
    proof {
        assert(digits =~= chars@.skip(start as int));
    }
    if start == n {
        return None;
    }
    let mut value: u64 = 0;
    let mut i: usize = start;
    while i < n
        invariant
            start <= i <= n,
            n == chars@.len(),
            chars@ == text@,
            digits == chars@.skip(start as int),
            digits == unsigned_digits(text@),
            digits.len() == n - start,
            forall|j: int| 0 <= j < i - start ==> is_digit(#[trigger] digits[j]),
            value == digits_value(digits.take(i - start)),
            value <= max,
        decreases n - i,
    {
        let c = chars[i];
        proof {
            assert(digits[i - start] == c);
            assert(digits.take(i - start + 1).drop_last() =~= digits.take(i - start));
        }
        if !('0' <= c && c <= '9') {
            proof {
                assert(!is_digit(digits[i - start]));
                assert(!(forall|j: int| 0 <= j < digits.len() ==> is_digit(#[trigger] digits[j])));
            }
            return None;
        }
        let d = ((c as u32) - ('0' as u32)) as u64;
        value = value * 10 + d;
        proof {
            assert(digits.take(i - start + 1).last() == c);
            assert(value == digits_value(digits.take(i - start + 1)));
        }
        if value > max as u64 {
            proof {
                if forall|j: int| 0 <= j < digits.len() ==> is_digit(#[trigger] digits[j]) {
                    digits_value_grows(digits, i - start + 1);
                    assert(digits_value(digits) > max);
                }
            }
            return None;
        }
        i = i + 1;
    }
    proof {
        assert(digits.take(n - start) =~= digits);
    }
    Some(value as u32)
}

/// An amount the pool can move: a whole number from 0 to 65,535. Zero parses, and the pool
/// refuses it with its own reason.
pub fn parse_amount(text: &str) -> (amount: Option<u16>)
    ensures
        amount == spec_parse_u16(text@),
{
    match parse_unsigned(text, 65535) {
        Some(n) => Some(n as u16),
        None => None,
    }
}

} // verus!
