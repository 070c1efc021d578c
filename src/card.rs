//! A playing card: a suit and a rank.
use crate::rank::Rank;
use crate::suit::Suit;
use vstd::prelude::*;

verus! {

/// A playing card. Cards are plain values: two cards are equal when their
/// suits and ranks are.
#[derive(PartialEq, Eq, Structural, Clone, Copy, Debug, Hash)]
pub struct Card {
    pub suit: Suit,
    pub rank: Rank,
}

impl Card {
    /// The numeric value of the card's rank.
    pub open spec fn spec_value(self) -> nat {
        self.rank.spec_value()
    }

    /// How the card is printed: its suit's emoji, two spaces, its rank's symbol.
    pub open spec fn spec_text(self) -> Seq<char> {
        self.suit.spec_symbol() + seq![' ', ' '] + self.rank.spec_symbol()
    }

    pub fn new(suit: Suit, rank: Rank) -> (r: Card)
        ensures
            r.suit == suit,
            r.rank == rank,
    {
        Card { suit, rank }
    }

    pub fn suit(&self) -> (r: Suit)
        ensures
            r == self.suit,
    {
        self.suit
    }

    pub fn rank(&self) -> (r: Rank)
        ensures
            r == self.rank,
    {
        self.rank
    }

    /// The card as text, for instance "♣️  Q".
    pub fn to_string(&self) -> (r: String)
        ensures
            r@ == self.spec_text(),
    {
        let mut s = self.suit.to_string();
        let sep = "  ";
        proof {
            reveal_strlit("  ");
        }
        s.append(sep);
        let rank = self.rank.to_string();
        s.append(rank.as_str());
        s
    }
}

} // verus!
