//! Resolving a fight between the player and a monster card.
use crate::card::Card;
use crate::weapon::{Weapon, WeaponModel};
use vstd::prelude::*;

verus! {

/// Where a game stands.
#[derive(PartialEq, Eq, Structural, Clone, Copy, Debug)]
pub enum GameState {
    /// The game goes on.
    InGame,
    /// The player has come through every room.
    Win,
    /// The player's life points fell to zero.
    Lose,
}

/// Life points and state after taking `damage` with `life` points left: a
/// blow at least as large as the life points kills, and leaves exactly zero.
pub open spec fn damage_outcome(life: nat, damage: nat) -> (nat, GameState) {
    if damage >= life {
        (0, GameState::Lose)
    } else {
        ((life - damage) as nat, GameState::InGame)
    }
}

/// Life points, state and weapon after fighting `monster` with weapon `w`.
pub open spec fn weapon_outcome(life: nat, monster: Card, w: WeaponModel) -> (
    nat,
    GameState,
    WeaponModel,
) {
    if w.can_slay(monster) {
        let (l, s) = damage_outcome(life, w.attack_power(monster));
        (l, s, w.record_kill(monster))
    } else {
        let (l, s) = damage_outcome(life, monster.spec_value());
        (l, s, w)
    }
}

/// Takes `damage` from `life_points`.
fn take_damage(life_points: u8, damage: u8) -> (r: (u8, GameState))
    ensures
        (r.0 as nat, r.1) == damage_outcome(life_points as nat, damage as nat),
{
    if damage >= life_points {
        (0, GameState::Lose)
    } else {
        (life_points - damage, GameState::InGame)
    }
}

/// Fights `monster` with bare hands: its whole rank is taken from the life points.
pub fn fight_barehanded(life_points: u8, monster: &Card) -> (r: (u8, GameState))
    ensures
        (r.0 as nat, r.1) == damage_outcome(life_points as nat, monster.spec_value()),
{
    take_damage(life_points, monster.rank.value())
}

/// Fights `monster` with `weapon`. Where the weapon may not be used on it,
/// the fight is barehanded and the weapon comes back unchanged; else the
/// monster deals what exceeds the weapon's rank and joins the weapon's kills,
/// also when the blow is lethal.
pub fn fight_with_weapon(life_points: u8, monster: &Card, weapon: Weapon) -> (r: (
    u8,
    GameState,
    Weapon,
))
    ensures
        (r.0 as nat, r.1, r.2@) == weapon_outcome(life_points as nat, *monster, weapon@),
{
    if weapon.can_slay(monster) {
        let attack = weapon.attack_power(monster);
        let mut weapon = weapon;
        weapon.record_kill(*monster);
        let (life, state) = take_damage(life_points, attack);
        (life, state, weapon)
    } else {
        let (life, state) = fight_barehanded(life_points, monster);
        (life, state, weapon)
    }
}

} // verus!
