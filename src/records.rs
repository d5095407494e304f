use vstd::prelude::*;

verus! {

/// A card in the deck: its identifier, a miscellaneous numeric tag, and how many
/// times it has been upgraded.
#[derive(Clone, Debug, PartialEq, Eq)]
pub struct Card {
    pub id: String,
    pub misc: u32,
    pub upgrades: u32,
}

/// The choice offered after a boss: the relic picked, or `None` where the player
/// skipped, and the relics left behind.
#[derive(Clone, Debug, PartialEq, Eq)]
pub struct BossRelicChoice {
    pub picked: Option<String>,
    pub not_picked: Vec<String>,
}

} // verus!
