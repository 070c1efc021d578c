//! A weapon: a Diamonds card, with the monsters it has slain.
use crate::card::Card;
use vstd::prelude::*;

verus! {

/// The ranks of `kills` fall strictly from each monster to the next.
pub open spec fn descending(kills: Seq<Card>) -> bool {
    forall|i: int, j: int|
        0 <= i < j < kills.len() ==> #[trigger] kills[i].spec_value() > #[trigger] kills[j].spec_value()
}

/// An equipped weapon. Once it has slain a monster it can only be used again
/// on a monster of lower rank than the last one it slew.
#[derive(Clone, Debug, PartialEq, Eq)]
pub struct Weapon {
    /// The card that is the weapon.
    pub weapon: Card,
    /// The monsters slain with the weapon, the first kill first.
    pub monster_stack: Vec<Card>,
}

/// What a weapon is, as a value: its card and the monsters it has slain,
/// the first kill first.
pub struct WeaponModel {
    pub card: Card,
    pub kills: Seq<Card>,
}

impl WeaponModel {
    /// The weapon may be used on `monster`: it has slain nothing yet, or its
    /// last kill outranks `monster`.
    pub open spec fn can_slay(self, monster: Card) -> bool {
        self.kills.len() == 0 || self.kills.last().spec_value() > monster.spec_value()
    }

    /// The damage that `monster` still deals through the weapon: the amount by
    /// which its rank exceeds the weapon's, or nothing.
    pub open spec fn attack_power(self, monster: Card) -> nat {
        if monster.spec_value() > self.card.spec_value() {
            (monster.spec_value() - self.card.spec_value()) as nat
        } else {
            0
        }
    }

    /// The weapon once `monster` has joined its kills.
    pub open spec fn record_kill(self, monster: Card) -> WeaponModel {
        WeaponModel { card: self.card, kills: self.kills.push(monster) }
    }
}

impl View for Weapon {
    type V = WeaponModel;

    open spec fn view(&self) -> WeaponModel {
        WeaponModel { card: self.weapon, kills: self.monster_stack@ }
    }
}

impl Weapon {
    /// A weapon that has slain nothing yet.
    pub fn new(card: Card) -> (r: Weapon)
        ensures
            r@ == (WeaponModel { card, kills: Seq::<Card>::empty() }),
    {
        Weapon { weapon: card, monster_stack: Vec::new() }
    }

    /// Whether the weapon may be used on `monster`.
    pub fn can_slay(&self, monster: &Card) -> (r: bool)
        ensures
            r == self@.can_slay(*monster),
    {
        let n = self.monster_stack.len();
        if n == 0 {
            true
        } else {
            self.monster_stack[n - 1].rank.value() > monster.rank.value()
        }
    }

    /// The damage that `monster` deals to a player who fights it with this weapon.
    pub fn attack_power(&self, monster: &Card) -> (r: u8)
        ensures
            r as nat == self@.attack_power(*monster),
    {
        let m = monster.rank.value();
        let w = self.weapon.rank.value();
        if m > w {
            m - w
        } else {
            0
        }
    }

    /// Adds `monster` to the monsters slain with the weapon. The caller checks
    /// `can_slay` first.
    pub fn record_kill(&mut self, monster: Card)
        ensures
            final(self)@ == old(self)@.record_kill(monster),
    {
        self.monster_stack.push(monster);
    }

    /// The monsters slain with the weapon, the first kill first.
    pub fn monster_stack(&self) -> (r: Vec<Card>)
        ensures
            r@ == self@.kills,
    {
        let mut r: Vec<Card> = Vec::new();
        let mut i: usize = 0;
        while i < self.monster_stack.len()
            invariant
                i <= self.monster_stack@.len(),
                r@ == self.monster_stack@.take(i as int),
            decreases self.monster_stack@.len() - i,
        {
            r.push(self.monster_stack[i]);
            i += 1;
            proof {
                assert(r@ =~= self.monster_stack@.take(i as int));
            }
        }
        proof {
            assert(r@ =~= self.monster_stack@);
        }
        r
    }
}

} // verus!
