//! `/ceremony`: why a pairing setup must forget its secrets, and why one honest participant
//! among many is enough.

use vstd::prelude::*;

use crate::strings::same_text;

verus! {

/// Participants when none are asked for: the ceremony engine's default.
pub const DEFAULT_PARTICIPANTS: usize = 5;
/// Most participants one ceremony seats.
pub const MAX_PARTICIPANTS: u32 = 100;

/// Which fact of the ceremony to show.
#[derive(Clone, Copy, Debug, PartialEq, Eq, Hash, Structural)]
pub enum CeremonyPart {
    /// Keys made from known toxic waste forge a Groth16 proof of a false claim.
    Toxic,
    /// Powers of Tau: turns anyone can check, and the cheats the checks catch.
    Tau,
    /// Every participant keeps their secret: a KZG opening to a wrong value verifies.
    Collude,
}

/// The word that names each value.
pub open spec fn ceremony_key(value: CeremonyPart) -> Seq<char> {
    match value {
        CeremonyPart::Toxic => "toxic"@,
        CeremonyPart::Tau => "tau"@,
        CeremonyPart::Collude => "collude"@,
    }
}

/// The value a word names, if any.
pub open spec fn ceremony_from_key(key: Seq<char>) -> Option<CeremonyPart> {
    if key == ceremony_key(CeremonyPart::Toxic) {
        Some(CeremonyPart::Toxic)
    } else if key == ceremony_key(CeremonyPart::Tau) {
        Some(CeremonyPart::Tau)
    } else if key == ceremony_key(CeremonyPart::Collude) {
        Some(CeremonyPart::Collude)
    } else {
        None
    }
}

/// Each value has its own word, so reading a value's word back gives the value.
pub proof fn ceremony_key_round_trip(value: CeremonyPart)
    ensures
        ceremony_from_key(ceremony_key(value)) == Some(value),
{
    reveal_strlit("toxic");
    reveal_strlit("tau");
    reveal_strlit("collude");
    match value {
        CeremonyPart::Toxic => {
        },
        CeremonyPart::Tau => {
            assert(ceremony_key(CeremonyPart::Tau).len() != ceremony_key(CeremonyPart::Toxic).len());
        },
        CeremonyPart::Collude => {
            assert(ceremony_key(CeremonyPart::Collude).len() != ceremony_key(CeremonyPart::Toxic).len());
            assert(ceremony_key(CeremonyPart::Collude).len() != ceremony_key(CeremonyPart::Tau).len());
        },
    }
}

/// A word names a value only when it is that value's word.
pub proof fn ceremony_from_key_names(key: Seq<char>)
    ensures
        ceremony_from_key(key) matches Some(value) ==> ceremony_key(value) == key,
        ceremony_from_key(key) is None ==> forall|value: CeremonyPart| #[trigger] ceremony_key(value) != key,
{
}

impl CeremonyPart {
    /// Every part.
    pub fn all() -> (all: Vec<CeremonyPart>)
        ensures
            all@ == seq![CeremonyPart::Toxic, CeremonyPart::Tau, CeremonyPart::Collude],
    {
        let all = vec![CeremonyPart::Toxic, CeremonyPart::Tau, CeremonyPart::Collude];
        proof {
            assert(all@ =~= seq![CeremonyPart::Toxic, CeremonyPart::Tau, CeremonyPart::Collude]);
        }
        all
    }

    /// The word typed after `/ceremony`.
    pub fn key(self) -> (key: &'static str)
        ensures
            key@ == ceremony_key(self),
    {
        match self {
            CeremonyPart::Toxic => "toxic",
            CeremonyPart::Tau => "tau",
            CeremonyPart::Collude => "collude",
        }
    }

    /// The part a typed word names.
    pub fn from_key(key: &str) -> (value: Option<CeremonyPart>)
        ensures
            value == ceremony_from_key(key@),
    {
        if same_text(key, CeremonyPart::Toxic.key()) {
            Some(CeremonyPart::Toxic)
        } else if same_text(key, CeremonyPart::Tau.key()) {
            Some(CeremonyPart::Tau)
        } else if same_text(key, CeremonyPart::Collude.key()) {
            Some(CeremonyPart::Collude)
        } else {
            None
        }
    }


}

} // verus!
