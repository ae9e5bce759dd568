//! `/cave`: Ali Baba's cave, filmed scene by scene.

use vstd::prelude::*;

use crate::strings::same_text;

verus! {

/// Scenes filmed when none are asked for: the cave engine's default.
pub const DEFAULT_SCENES: u32 = 40;
/// Most scenes one film holds.
pub const MAX_SCENES: u32 = 1000;

/// How the cave is filmed.
#[derive(Clone, Copy, Debug, PartialEq, Eq, Hash, Structural)]
pub enum CaveMode {
    /// Mick Ali, who knows the words.
    Demonstration,
    /// A double without the words, caught at the first scene called on the other side.
    Impostor,
    /// The jealous reporter films the double and keeps only the good scenes.
    JealousEdit,
    /// Mick's tape and the edited tape counted side by side.
    Court,
    /// The reporter and the double agree every call before filming.
    PriorAgreement,
    /// One cave per floor, every floor tested in the same round.
    Apartment,
}

/// The word that names each value.
pub open spec fn cave_key(value: CaveMode) -> Seq<char> {
    match value {
        CaveMode::Demonstration => "demonstration"@,
        CaveMode::Impostor => "impostor"@,
        CaveMode::JealousEdit => "jealous-edit"@,
        CaveMode::Court => "court"@,
        CaveMode::PriorAgreement => "prior-agreement"@,
        CaveMode::Apartment => "apartment"@,
    }
}

/// The value a word names, if any.
pub open spec fn cave_from_key(key: Seq<char>) -> Option<CaveMode> {
    if key == cave_key(CaveMode::Demonstration) {
        Some(CaveMode::Demonstration)
    } else if key == cave_key(CaveMode::Impostor) {
        Some(CaveMode::Impostor)
    } else if key == cave_key(CaveMode::JealousEdit) {
        Some(CaveMode::JealousEdit)
    } else if key == cave_key(CaveMode::Court) {
        Some(CaveMode::Court)
    } else if key == cave_key(CaveMode::PriorAgreement) {
        Some(CaveMode::PriorAgreement)
    } else if key == cave_key(CaveMode::Apartment) {
        Some(CaveMode::Apartment)
    } else {
        None
    }
}

/// Each value has its own word, so reading a value's word back gives the value.
pub proof fn cave_key_round_trip(value: CaveMode)
    ensures
        cave_from_key(cave_key(value)) == Some(value),
{
    reveal_strlit("demonstration");
    reveal_strlit("impostor");
    reveal_strlit("jealous-edit");
    reveal_strlit("court");
    reveal_strlit("prior-agreement");
    reveal_strlit("apartment");
    match value {
        CaveMode::Demonstration => {
        },
        CaveMode::Impostor => {
            assert(cave_key(CaveMode::Impostor).len() != cave_key(CaveMode::Demonstration).len());
        },
        CaveMode::JealousEdit => {
            assert(cave_key(CaveMode::JealousEdit).len() != cave_key(CaveMode::Demonstration).len());
            assert(cave_key(CaveMode::JealousEdit).len() != cave_key(CaveMode::Impostor).len());
        },
        CaveMode::Court => {
            assert(cave_key(CaveMode::Court).len() != cave_key(CaveMode::Demonstration).len());
            assert(cave_key(CaveMode::Court).len() != cave_key(CaveMode::Impostor).len());
            assert(cave_key(CaveMode::Court).len() != cave_key(CaveMode::JealousEdit).len());
        },
        CaveMode::PriorAgreement => {
            assert(cave_key(CaveMode::PriorAgreement).len() != cave_key(CaveMode::Demonstration).len());
            assert(cave_key(CaveMode::PriorAgreement).len() != cave_key(CaveMode::Impostor).len());
            assert(cave_key(CaveMode::PriorAgreement).len() != cave_key(CaveMode::JealousEdit).len());
            assert(cave_key(CaveMode::PriorAgreement).len() != cave_key(CaveMode::Court).len());
        },
        CaveMode::Apartment => {
            assert(cave_key(CaveMode::Apartment).len() != cave_key(CaveMode::Demonstration).len());
            assert(cave_key(CaveMode::Apartment).len() != cave_key(CaveMode::Impostor).len());
            assert(cave_key(CaveMode::Apartment).len() != cave_key(CaveMode::JealousEdit).len());
            assert(cave_key(CaveMode::Apartment).len() != cave_key(CaveMode::Court).len());
            assert(cave_key(CaveMode::Apartment).len() != cave_key(CaveMode::PriorAgreement).len());
        },
    }
}

/// A word names a value only when it is that value's word.
pub proof fn cave_from_key_names(key: Seq<char>)
    ensures
        cave_from_key(key) matches Some(value) ==> cave_key(value) == key,
        cave_from_key(key) is None ==> forall|value: CaveMode| #[trigger] cave_key(value) != key,
{
}

impl CaveMode {
    /// Every mode, in the order the story tells them.
    pub fn all() -> (all: Vec<CaveMode>)
        ensures
            all@ == seq![CaveMode::Demonstration, CaveMode::Impostor, CaveMode::JealousEdit, CaveMode::Court, CaveMode::PriorAgreement, CaveMode::Apartment],
    {
        let all = vec![CaveMode::Demonstration, CaveMode::Impostor, CaveMode::JealousEdit, CaveMode::Court, CaveMode::PriorAgreement, CaveMode::Apartment];
        proof {
            assert(all@ =~= seq![CaveMode::Demonstration, CaveMode::Impostor, CaveMode::JealousEdit, CaveMode::Court, CaveMode::PriorAgreement, CaveMode::Apartment]);
        }
        all
    }

    /// The word typed after `/cave`.
    pub fn key(self) -> (key: &'static str)
        ensures
            key@ == cave_key(self),
    {
        match self {
            CaveMode::Demonstration => "demonstration",
            CaveMode::Impostor => "impostor",
            CaveMode::JealousEdit => "jealous-edit",
            CaveMode::Court => "court",
            CaveMode::PriorAgreement => "prior-agreement",
            CaveMode::Apartment => "apartment",
        }
    }

    /// The mode a typed word names.
    pub fn from_key(key: &str) -> (value: Option<CaveMode>)
        ensures
            value == cave_from_key(key@),
    {
        if same_text(key, CaveMode::Demonstration.key()) {
            Some(CaveMode::Demonstration)
        } else if same_text(key, CaveMode::Impostor.key()) {
            Some(CaveMode::Impostor)
        } else if same_text(key, CaveMode::JealousEdit.key()) {
            Some(CaveMode::JealousEdit)
        } else if same_text(key, CaveMode::Court.key()) {
            Some(CaveMode::Court)
        } else if same_text(key, CaveMode::PriorAgreement.key()) {
            Some(CaveMode::PriorAgreement)
        } else if same_text(key, CaveMode::Apartment.key()) {
            Some(CaveMode::Apartment)
        } else {
            None
        }
    }


}

} // verus!
