//! `/trio`: Trio's live conversation round by round, with an honest prover, a cheat or the
//! simulator across from the verifier.

use vstd::prelude::*;

use crate::strings::same_text;

verus! {

/// Rounds when none are asked for: the live conversation's 55, (3/5)^55 < 2^-40.
pub const DEFAULT_ROUNDS: u32 = 55;
/// Most rounds one conversation plays.
pub const MAX_ROUNDS: u32 = 1000;

/// A way to lie to the verifier.
#[derive(Clone, Copy, Debug, PartialEq, Eq, Hash, Structural)]
pub enum TrioCheat {
    /// The dealer rigs one multiplication card.
    BadCard,
    /// Friend 2 broadcasts shares that make every assertion sum to zero.
    BadComputation,
    /// The forgery that broke the first draft: rewrite the hidden friend's shares after the card.
    RewriteHidden,
}

/// The word that names each value.
pub open spec fn cheat_key(value: TrioCheat) -> Seq<char> {
    match value {
        TrioCheat::BadCard => "bad-card"@,
        TrioCheat::BadComputation => "bad-computation"@,
        TrioCheat::RewriteHidden => "rewrite-hidden"@,
    }
}

/// The value a word names, if any.
pub open spec fn cheat_from_key(key: Seq<char>) -> Option<TrioCheat> {
    if key == cheat_key(TrioCheat::BadCard) {
        Some(TrioCheat::BadCard)
    } else if key == cheat_key(TrioCheat::BadComputation) {
        Some(TrioCheat::BadComputation)
    } else if key == cheat_key(TrioCheat::RewriteHidden) {
        Some(TrioCheat::RewriteHidden)
    } else {
        None
    }
}

/// Each value has its own word, so reading a value's word back gives the value.
pub proof fn cheat_key_round_trip(value: TrioCheat)
    ensures
        cheat_from_key(cheat_key(value)) == Some(value),
{
    reveal_strlit("bad-card");
    reveal_strlit("bad-computation");
    reveal_strlit("rewrite-hidden");
    match value {
        TrioCheat::BadCard => {
        },
        TrioCheat::BadComputation => {
            assert(cheat_key(TrioCheat::BadComputation).len() != cheat_key(TrioCheat::BadCard).len());
        },
        TrioCheat::RewriteHidden => {
            assert(cheat_key(TrioCheat::RewriteHidden).len() != cheat_key(TrioCheat::BadCard).len());
            assert(cheat_key(TrioCheat::RewriteHidden).len() != cheat_key(TrioCheat::BadComputation).len());
        },
    }
}

/// A word names a value only when it is that value's word.
pub proof fn cheat_from_key_names(key: Seq<char>)
    ensures
        cheat_from_key(key) matches Some(value) ==> cheat_key(value) == key,
        cheat_from_key(key) is None ==> forall|value: TrioCheat| #[trigger] cheat_key(value) != key,
{
}

impl TrioCheat {
    /// Every cheat.
    pub fn all() -> (all: Vec<TrioCheat>)
        ensures
            all@ == seq![TrioCheat::BadCard, TrioCheat::BadComputation, TrioCheat::RewriteHidden],
    {
        let all = vec![TrioCheat::BadCard, TrioCheat::BadComputation, TrioCheat::RewriteHidden];
        proof {
            assert(all@ =~= seq![TrioCheat::BadCard, TrioCheat::BadComputation, TrioCheat::RewriteHidden]);
        }
        all
    }

    /// The word typed after `/trio cheat`.
    pub fn key(self) -> (key: &'static str)
        ensures
            key@ == cheat_key(self),
    {
        match self {
            TrioCheat::BadCard => "bad-card",
            TrioCheat::BadComputation => "bad-computation",
            TrioCheat::RewriteHidden => "rewrite-hidden",
        }
    }

    /// The cheat a typed word names.
    pub fn from_key(key: &str) -> (value: Option<TrioCheat>)
        ensures
            value == cheat_from_key(key@),
    {
        if same_text(key, TrioCheat::BadCard.key()) {
            Some(TrioCheat::BadCard)
        } else if same_text(key, TrioCheat::BadComputation.key()) {
            Some(TrioCheat::BadComputation)
        } else if same_text(key, TrioCheat::RewriteHidden.key()) {
            Some(TrioCheat::RewriteHidden)
        } else {
            None
        }
    }


}

/// Who sits across from the verifier.
#[derive(Clone, Copy, Debug, PartialEq, Eq, Hash, Structural)]
pub enum TrioMode {
    /// The prover with the true witness.
    Play,
    /// A prover telling one lie.
    Cheat(TrioCheat),
    /// A prover with no witness who knows every card in advance.
    Simulate,
}

/// The word typed after `/trio` for each mode.
pub open spec fn mode_key(mode: TrioMode) -> Seq<char> {
    match mode {
        TrioMode::Play => "play"@,
        TrioMode::Cheat(_) => "cheat"@,
        TrioMode::Simulate => "simulate"@,
    }
}

impl TrioMode {
    /// The word typed after `/trio`.
    pub fn key(self) -> (key: &'static str)
        ensures
            key@ == mode_key(self),
    {
        match self {
            TrioMode::Play => "play",
            TrioMode::Cheat(_) => "cheat",
            TrioMode::Simulate => "simulate",
        }
    }
}

} // verus!
