//! Card suits, and the role each one plays in the dungeon.
use vstd::prelude::*;

verus! {

/// The four suits of a standard deck.
///
/// Spades and Clubs are monsters, Diamonds are weapons and Hearts are potions.
#[derive(PartialEq, Eq, Structural, Clone, Copy, Debug, Hash)]
pub enum Suit {
    Spades,
    Diamonds,
    Clubs,
    Hearts,
}

/// The suits in the order in which a fresh deck lays them out.
pub open spec fn all_suits() -> Seq<Suit> {
    seq![Suit::Spades, Suit::Diamonds, Suit::Clubs, Suit::Hearts]
}

impl Suit {
    /// The emoji that stands for the suit.
    pub open spec fn spec_symbol(self) -> Seq<char> {
        match self {
            Suit::Spades => seq!['\u{2660}', '\u{FE0F}'],
            Suit::Diamonds => seq!['\u{2666}', '\u{FE0F}'],
            Suit::Clubs => seq!['\u{2663}', '\u{FE0F}'],
            Suit::Hearts => seq!['\u{2665}', '\u{FE0F}'],
        }
    }

    /// Cards of this suit are monsters to fight.
    pub open spec fn spec_is_monster(self) -> bool {
        self == Suit::Spades || self == Suit::Clubs
    }

    /// Whether cards of this suit are monsters to fight.
    pub fn is_monster(self) -> (r: bool)
        ensures
            r == self.spec_is_monster(),
    {
        match self {
            Suit::Spades | Suit::Clubs => true,
            _ => false,
        }
    }

    /// The emoji that stands for the suit ("♠️", "♦️", "♣️", "♥️").
    pub fn to_string(&self) -> (r: String)
        ensures
            r@ == self.spec_symbol(),
    {
        let s = match self {
            Suit::Spades => "\u{2660}\u{FE0F}",
            Suit::Diamonds => "\u{2666}\u{FE0F}",
            Suit::Clubs => "\u{2663}\u{FE0F}",
            Suit::Hearts => "\u{2665}\u{FE0F}",
        };
        proof {
            reveal_strlit("\u{2660}\u{FE0F}");
            reveal_strlit("\u{2666}\u{FE0F}");
            reveal_strlit("\u{2663}\u{FE0F}");
            reveal_strlit("\u{2665}\u{FE0F}");
        }
        String::from_str(s)
    }
}

} // verus!
