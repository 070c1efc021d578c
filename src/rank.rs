//! Card ranks, from Ace (1) to King (13), with their numeric value.
use core::cmp::Ordering;
use core::ops::{Add, Sub};
use vstd::prelude::*;

verus! {

/// The thirteen ranks of a standard deck, in ascending order.
#[derive(PartialEq, Eq, Structural, Ord, Clone, Copy, Debug, Hash)]
pub enum Rank {
    Ace,
    Two,
    Three,
    Four,
    Five,
    Six,
    Seven,
    Eight,
    Nine,
    Ten,
    Jack,
    Queen,
    King,
}

/// The ranks in ascending order.
pub open spec fn all_ranks() -> Seq<Rank> {
    seq![
        Rank::Ace,
        Rank::Two,
        Rank::Three,
        Rank::Four,
        Rank::Five,
        Rank::Six,
        Rank::Seven,
        Rank::Eight,
        Rank::Nine,
        Rank::Ten,
        Rank::Jack,
        Rank::Queen,
        Rank::King,
    ]
}

/// The ordering of two numbers.
pub open spec fn order_of(a: int, b: int) -> Ordering {
    if a < b {
        Ordering::Less
    } else if a == b {
        Ordering::Equal
    } else {
        Ordering::Greater
    }
}

impl Rank {
    /// The numeric value of the rank: Ace is 1, Jack 11, Queen 12, King 13.
    pub open spec fn spec_value(self) -> nat {
        match self {
            Rank::Ace => 1,
            Rank::Two => 2,
            Rank::Three => 3,
            Rank::Four => 4,
            Rank::Five => 5,
            Rank::Six => 6,
            Rank::Seven => 7,
            Rank::Eight => 8,
            Rank::Nine => 9,
            Rank::Ten => 10,
            Rank::Jack => 11,
            Rank::Queen => 12,
            Rank::King => 13,
        }
    }

    /// The symbol printed on the card.
    pub open spec fn spec_symbol(self) -> Seq<char> {
        match self {
            Rank::Ace => seq!['A'],
            Rank::Two => seq!['2'],
            Rank::Three => seq!['3'],
            Rank::Four => seq!['4'],
            Rank::Five => seq!['5'],
            Rank::Six => seq!['6'],
            Rank::Seven => seq!['7'],
            Rank::Eight => seq!['8'],
            Rank::Nine => seq!['9'],
            Rank::Ten => seq!['1', '0'],
            Rank::Jack => seq!['J'],
            Rank::Queen => seq!['Q'],
            Rank::King => seq!['K'],
        }
    }

    /// The numeric value of the rank.
    pub fn value(self) -> (r: u8)
        ensures
            r as nat == self.spec_value(),
            1 <= r <= 13,
    {
        match self {
            Rank::Ace => 1,
            Rank::Two => 2,
            Rank::Three => 3,
            Rank::Four => 4,
            Rank::Five => 5,
            Rank::Six => 6,
            Rank::Seven => 7,
            Rank::Eight => 8,
            Rank::Nine => 9,
            Rank::Ten => 10,
            Rank::Jack => 11,
            Rank::Queen => 12,
            Rank::King => 13,
        }
    }

    /// The symbol printed on the card ("A", "2" .. "10", "J", "Q", "K").
    pub fn to_string(&self) -> (r: String)
        ensures
            r@ == self.spec_symbol(),
    {
        let s = match self {
            Rank::Ace => "A",
            Rank::Two => "2",
            Rank::Three => "3",
            Rank::Four => "4",
            Rank::Five => "5",
            Rank::Six => "6",
            Rank::Seven => "7",
            Rank::Eight => "8",
            Rank::Nine => "9",
            Rank::Ten => "10",
            Rank::Jack => "J",
            Rank::Queen => "Q",
            Rank::King => "K",
        };
        proof {
            reveal_strlit("A");
            reveal_strlit("2");
            reveal_strlit("3");
            reveal_strlit("4");
            reveal_strlit("5");
            reveal_strlit("6");
            reveal_strlit("7");
            reveal_strlit("8");
            reveal_strlit("9");
            reveal_strlit("10");
            reveal_strlit("J");
            reveal_strlit("Q");
            reveal_strlit("K");
        }
        String::from_str(s)
    }
}

impl From<Rank> for u8 {
    fn from(value: Rank) -> (r: u8) {
        value.value()
    }
}

impl vstd::std_specs::convert::FromSpecImpl<Rank> for u8 {
    open spec fn obeys_from_spec() -> bool {
        true
    }

    open spec fn from_spec(v: Rank) -> u8 {
        v.spec_value() as u8
    }
}

impl PartialOrd for Rank {
    fn partial_cmp(&self, other: &Rank) -> (r: Option<Ordering>) {
        let a = self.value();
        let b = other.value();
        if a < b {
            Some(Ordering::Less)
        } else if a == b {
            Some(Ordering::Equal)
        } else {
            Some(Ordering::Greater)
        }
    }
}

impl vstd::std_specs::cmp::PartialOrdSpecImpl for Rank {
    open spec fn obeys_partial_cmp_spec() -> bool {
        true
    }

    open spec fn partial_cmp_spec(&self, other: &Rank) -> Option<Ordering> {
        Some(order_of(self.spec_value() as int, other.spec_value() as int))
    }
}

impl PartialEq<u8> for Rank {
    fn eq(&self, other: &u8) -> (r: bool) {
        self.value() == *other
    }
}

impl vstd::std_specs::cmp::PartialEqSpecImpl<u8> for Rank {
    open spec fn obeys_eq_spec() -> bool {
        true
    }

    open spec fn eq_spec(&self, other: &u8) -> bool {
        self.spec_value() == *other as nat
    }
}

impl PartialEq<Rank> for u8 {
    fn eq(&self, other: &Rank) -> (r: bool) {
        *self == other.value()
    }
}

impl vstd::std_specs::cmp::PartialEqSpecImpl<Rank> for u8 {
    open spec fn obeys_eq_spec() -> bool {
        true
    }

    open spec fn eq_spec(&self, other: &Rank) -> bool {
        *self as nat == other.spec_value()
    }
}

impl PartialOrd<u8> for Rank {
    fn partial_cmp(&self, other: &u8) -> (r: Option<Ordering>) {
        let a = self.value();
        if a < *other {
            Some(Ordering::Less)
        } else if a == *other {
            Some(Ordering::Equal)
        } else {
            Some(Ordering::Greater)
        }
    }
}

impl vstd::std_specs::cmp::PartialOrdSpecImpl<u8> for Rank {
    open spec fn obeys_partial_cmp_spec() -> bool {
        true
    }

    open spec fn partial_cmp_spec(&self, other: &u8) -> Option<Ordering> {
        Some(order_of(self.spec_value() as int, *other as int))
    }
}

impl PartialOrd<Rank> for u8 {
    fn partial_cmp(&self, other: &Rank) -> (r: Option<Ordering>) {
        let b = other.value();
        if *self < b {
            Some(Ordering::Less)
        } else if *self == b {
            Some(Ordering::Equal)
        } else {
            Some(Ordering::Greater)
        }
    }
}

impl vstd::std_specs::cmp::PartialOrdSpecImpl<Rank> for u8 {
    open spec fn obeys_partial_cmp_spec() -> bool {
        true
    }

    open spec fn partial_cmp_spec(&self, other: &Rank) -> Option<Ordering> {
        Some(order_of(*self as int, other.spec_value() as int))
    }
}

impl Add<u8> for Rank {
    type Output = u8;

    fn add(self, rhs: u8) -> (r: u8) {
        self.value() + rhs
    }
}

impl vstd::std_specs::ops::AddSpecImpl<u8> for Rank {
    open spec fn obeys_add_spec() -> bool {
        true
    }

    open spec fn add_req(self, rhs: u8) -> bool {
        self.spec_value() + rhs <= u8::MAX
    }

    open spec fn add_spec(self, rhs: u8) -> u8 {
        (self.spec_value() + rhs) as u8
    }
}

impl Add<Rank> for u8 {
    type Output = u8;

    fn add(self, rhs: Rank) -> (r: u8) {
        self + rhs.value()
    }
}

impl vstd::std_specs::ops::AddSpecImpl<Rank> for u8 {
    open spec fn obeys_add_spec() -> bool {
        true
    }

    open spec fn add_req(self, rhs: Rank) -> bool {
        self + rhs.spec_value() <= u8::MAX
    }

    open spec fn add_spec(self, rhs: Rank) -> u8 {
        (self + rhs.spec_value()) as u8
    }
}

impl Sub<u8> for Rank {
    type Output = u8;

    /// Saturates at zero.
    fn sub(self, rhs: u8) -> (r: u8) {
        self.value().saturating_sub(rhs)
    }
}

impl vstd::std_specs::ops::SubSpecImpl<u8> for Rank {
    open spec fn obeys_sub_spec() -> bool {
        true
    }

    open spec fn sub_req(self, rhs: u8) -> bool {
        true
    }

    open spec fn sub_spec(self, rhs: u8) -> u8 {
        if self.spec_value() >= rhs {
            (self.spec_value() - rhs) as u8
        } else {
            0
        }
    }
}

impl Sub<Rank> for u8 {
    type Output = u8;

    /// Saturates at zero.
    fn sub(self, rhs: Rank) -> (r: u8) {
        self.saturating_sub(rhs.value())
    }
}

impl vstd::std_specs::ops::SubSpecImpl<Rank> for u8 {
    open spec fn obeys_sub_spec() -> bool {
        true
    }

    open spec fn sub_req(self, rhs: Rank) -> bool {
        true
    }

    open spec fn sub_spec(self, rhs: Rank) -> u8 {
        if self >= rhs.spec_value() {
            (self - rhs.spec_value()) as u8
        } else {
            0
        }
    }
}

} // verus!
