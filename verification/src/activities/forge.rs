//! `/forge bctv14`: CVE-2019-7167 replayed on the BCTV14 teaching implementation.

use vstd::prelude::*;

use crate::strings::same_text;

verus! {


/// A known forgery the museum can replay.
#[derive(Clone, Copy, Debug, PartialEq, Eq, Hash, Structural)]
pub enum ForgeTarget {
    /// CVE-2019-7167: redundant setup elements let a BCTV14 proof be rewritten for any input.
    Bctv14,
}

/// The word that names each value.
pub open spec fn forge_key(value: ForgeTarget) -> Seq<char> {
    match value {
        ForgeTarget::Bctv14 => "bctv14"@,
    }
}

/// The value a word names, if any.
pub open spec fn forge_from_key(key: Seq<char>) -> Option<ForgeTarget> {
    if key == forge_key(ForgeTarget::Bctv14) {
        Some(ForgeTarget::Bctv14)
    } else {
        None
    }
}

/// Each value has its own word, so reading a value's word back gives the value.
pub proof fn forge_key_round_trip(value: ForgeTarget)
    ensures
        forge_from_key(forge_key(value)) == Some(value),
{
    reveal_strlit("bctv14");
    match value {
        ForgeTarget::Bctv14 => {
        },
    }
}

/// A word names a value only when it is that value's word.
pub proof fn forge_from_key_names(key: Seq<char>)
    ensures
        forge_from_key(key) matches Some(value) ==> forge_key(value) == key,
        forge_from_key(key) is None ==> forall|value: ForgeTarget| #[trigger] forge_key(value) != key,
{
}

impl ForgeTarget {
    /// Every target.
    pub fn all() -> (all: Vec<ForgeTarget>)
        ensures
            all@ == seq![ForgeTarget::Bctv14],
    {
        let all = vec![ForgeTarget::Bctv14];
        proof {
            assert(all@ =~= seq![ForgeTarget::Bctv14]);
        }
        all
    }

    /// The word typed after `/forge`.
    pub fn key(self) -> (key: &'static str)
        ensures
            key@ == forge_key(self),
    {
        match self {
            ForgeTarget::Bctv14 => "bctv14",
        }
    }

    /// The target a typed word names.
    pub fn from_key(key: &str) -> (value: Option<ForgeTarget>)
        ensures
            value == forge_from_key(key@),
    {
        if same_text(key, ForgeTarget::Bctv14.key()) {
            Some(ForgeTarget::Bctv14)
        } else {
            None
        }
    }


}

} // verus!
