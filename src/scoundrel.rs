//! The Scoundrel game: rooms drawn from a shrinking deck, monsters to fight,
//! weapons to equip and potions to drink.
use crate::card::Card;
use crate::combat::{damage_outcome, fight_barehanded, fight_with_weapon, weapon_outcome, GameState};
use crate::deck::{
    allowed, card_index, disjoint, full_deck, lemma_card_index, none_banned, reduced_deck, Deck,
};
use crate::rank::Rank;
use crate::suit::Suit;
use crate::weapon::{descending, Weapon, WeaponModel};
use vstd::prelude::*;
use vstd::seq_lib::lemma_no_dup_in_concat;

verus! {

/// Maximum life points a player can have.
pub const MAX_LIFE_POINTS: u8 = 20;

/// Number of rooms to come through to win.
pub const TOTAL_ROOMS: usize = 12;

/// Number of cards in a freshly entered room.
pub const ROOM_SIZE: usize = 4;

/// Why the player may not run away from the room.
#[derive(PartialEq, Eq, Structural, Clone, Copy, Debug)]
pub enum RetreatError {
    /// The player ran away from the last room and has not entered another since.
    AlreadyRanAway,
    /// The hand is not a freshly entered room of four untouched cards.
    RoomInProgress,
}

/// Why no room could be entered.
#[derive(PartialEq, Eq, Structural, Clone, Copy, Debug)]
pub enum RoomError {
    /// More than one card of the last room is still in hand.
    HandNotCleared,
    /// The deck holds too few cards to fill the room.
    DeckExhausted,
}

/// The cards that a game's deck leaves out: Ace, Jack, Queen and King of
/// Diamonds and of Hearts.
pub open spec fn spec_banned_cards() -> Seq<Card> {
    seq![
        Card { suit: Suit::Diamonds, rank: Rank::Ace },
        Card { suit: Suit::Diamonds, rank: Rank::Jack },
        Card { suit: Suit::Diamonds, rank: Rank::Queen },
        Card { suit: Suit::Diamonds, rank: Rank::King },
        Card { suit: Suit::Hearts, rank: Rank::Ace },
        Card { suit: Suit::Hearts, rank: Rank::Jack },
        Card { suit: Suit::Hearts, rank: Rank::Queen },
        Card { suit: Suit::Hearts, rank: Rank::King },
    ]
}

/// The cards that a game's deck leaves out.
pub fn banned_cards() -> (r: Vec<Card>)
    ensures
        r@ == spec_banned_cards(),
{
    let r = vec![
        Card::new(Suit::Diamonds, Rank::Ace),
        Card::new(Suit::Diamonds, Rank::Jack),
        Card::new(Suit::Diamonds, Rank::Queen),
        Card::new(Suit::Diamonds, Rank::King),
        Card::new(Suit::Hearts, Rank::Ace),
        Card::new(Suit::Hearts, Rank::Jack),
        Card::new(Suit::Hearts, Rank::Queen),
        Card::new(Suit::Hearts, Rank::King),
    ];
    proof {
        assert(r@ =~= spec_banned_cards());
    }
    r
}

/// `room` once `card` has left it, if it was there.
pub open spec fn without(room: Seq<Card>, card: Card) -> Seq<Card> {
    if room.contains(card) {
        room.remove(room.index_of(card))
    } else {
        room
    }
}

/// Life points after drinking a potion worth `amount`: at most the maximum.
pub open spec fn healed(life: nat, amount: nat) -> nat {
    if life + amount > MAX_LIFE_POINTS {
        MAX_LIFE_POINTS as nat
    } else {
        life + amount
    }
}

/// What a game is, as a value.
pub struct GameModel {
    /// The deck, from top to bottom.
    pub deck: Seq<Card>,
    /// The cards that the deck leaves out.
    pub banned: Seq<Card>,
    pub life: nat,
    pub weapon: Option<WeaponModel>,
    /// Rooms entered so far.
    pub rooms: nat,
    /// The cards of the current room, face up.
    pub room: Seq<Card>,
    /// The player ran away from the last room and has not entered another since.
    pub ran_away: bool,
}

impl GameModel {
    /// What holds of every game between two calls.
    pub open spec fn wf(self) -> bool {
        &&& self.life <= MAX_LIFE_POINTS
        &&& self.rooms <= TOTAL_ROOMS
        &&& self.room.len() <= ROOM_SIZE
        &&& self.deck.no_duplicates()
        &&& self.room.no_duplicates()
        &&& disjoint(self.deck, self.room)
        &&& none_banned(self.deck, self.banned)
        &&& none_banned(self.room, self.banned)
        &&& (self.weapon matches Some(w) ==> descending(w.kills))
    }

    /// Entering the next room. A lost game stays lost; after the last room
    /// the game is won, and nothing changes. Otherwise the hand, which must
    /// hold at most one card, is filled to four from the top of the deck.
    pub open spec fn enter_room(self) -> (GameModel, Result<GameState, RoomError>) {
        if self.life == 0 {
            (self, Ok(GameState::Lose))
        } else if self.rooms >= TOTAL_ROOMS {
            (self, Ok(GameState::Win))
        } else if self.room.len() > 1 {
            (self, Err(RoomError::HandNotCleared))
        } else if self.deck.len() < ROOM_SIZE - self.room.len() {
            (self, Err(RoomError::DeckExhausted))
        } else {
            let n = ROOM_SIZE - self.room.len();
            (
                GameModel {
                    deck: self.deck.skip(n),
                    room: self.room + self.deck.take(n),
                    rooms: self.rooms + 1,
                    ran_away: false,
                    ..self
                },
                Ok(GameState::InGame),
            )
        }
    }

    /// Playing `card`. A lost game stays lost. Otherwise the card leaves the
    /// hand if it is there, and: a monster is fought, with the weapon if one
    /// is equipped; a Diamond becomes the weapon, with no kills; a Heart heals
    /// by its rank, up to the maximum.
    pub open spec fn play_card(self, card: Card) -> (GameModel, GameState) {
        if self.life == 0 {
            (self, GameState::Lose)
        } else {
            let g = GameModel { room: without(self.room, card), ..self };
            if card.suit.spec_is_monster() {
                match self.weapon {
                    None => {
                        let (l, s) = damage_outcome(self.life, card.spec_value());
                        (GameModel { life: l, ..g }, s)
                    },
                    Some(w) => {
                        let (l, s, w2) = weapon_outcome(self.life, card, w);
                        (GameModel { life: l, weapon: Some(w2), ..g }, s)
                    },
                }
            } else if card.suit == Suit::Diamonds {
                (
                    GameModel {
                        weapon: Some(WeaponModel { card, kills: Seq::<Card>::empty() }),
                        ..g
                    },
                    GameState::InGame,
                )
            } else {
                (GameModel { life: healed(self.life, card.spec_value()), ..g }, GameState::InGame)
            }
        }
    }

    /// Running away: once in a row, and only from a freshly entered room,
    /// whose four cards go to the bottom of the deck in their order.
    pub open spec fn run_away(self) -> (GameModel, Result<(), RetreatError>) {
        if self.ran_away {
            (self, Err(RetreatError::AlreadyRanAway))
        } else if self.room.len() != ROOM_SIZE {
            (self, Err(RetreatError::RoomInProgress))
        } else {
            (
                GameModel {
                    deck: self.deck + self.room,
                    room: Seq::<Card>::empty(),
                    ran_away: true,
                    ..self
                },
                Ok(()),
            )
        }
    }
}

/// A game of Scoundrel.
pub struct Scoundrel {
    /// The deck, without the banned cards.
    deck: Deck,
    /// Current life points, at most `MAX_LIFE_POINTS`.
    life_points: u8,
    /// The equipped weapon, if any.
    weapon_equipped: Option<Weapon>,
    /// Rooms entered so far.
    room_visited: usize,
    /// The cards of the current room.
    room: Vec<Card>,
    /// The player ran away from the last room and has not entered another since.
    has_run_away: bool,
}

/// The view of an optional weapon.
pub open spec fn weapon_view(w: Option<Weapon>) -> Option<WeaponModel> {
    match w {
        Some(w) => Some(w@),
        None => None,
    }
}

impl View for Scoundrel {
    type V = GameModel;

    closed spec fn view(&self) -> GameModel {
        GameModel {
            deck: self.deck@,
            banned: self.deck.banned(),
            life: self.life_points as nat,
            weapon: weapon_view(self.weapon_equipped),
            rooms: self.room_visited as nat,
            room: self.room@,
            ran_away: self.has_run_away,
        }
    }
}

impl Scoundrel {
    /// The deck of the game.
    pub closed spec fn spec_deck(self) -> Deck {
        self.deck
    }

    /// The game is consistent: its deck, and what its view states.
    pub open spec fn wf(self) -> bool {
        &&& self.spec_deck().wf()
        &&& self.spec_deck()@ == self@.deck
        &&& self.spec_deck().banned() == self@.banned
        &&& self@.wf()
    }

    /// A new game: a fresh deck without the banned cards, full life, no
    /// weapon, no room entered.
    pub fn new() -> (r: Scoundrel)
        ensures
            r.wf(),
            r@.deck == reduced_deck(spec_banned_cards()),
            r@.banned == spec_banned_cards(),
            r@.life == MAX_LIFE_POINTS,
            r@.weapon is None,
            r@.rooms == 0,
            r@.room == Seq::<Card>::empty(),
            !r@.ran_away,
            r@.deck.len() == 44,
            none_banned(r@.deck, spec_banned_cards()),
    {
        proof {
            lemma_game_deck_size();
        }
        let deck = Deck::builder().ban_cards(banned_cards()).build();
        Scoundrel {
            deck,
            life_points: MAX_LIFE_POINTS,
            weapon_equipped: None,
            room_visited: 0,
            room: Vec::new(),
            has_run_away: false,
        }
    }

    /// Enters the next room; see `GameModel::enter_room`.
    pub fn enter_room(&mut self) -> (r: Result<GameState, RoomError>)
        requires
            old(self).wf(),
        ensures
            final(self).wf(),
            (final(self)@, r) == old(self)@.enter_room(),
    {
        if self.life_points == 0 {
            return Ok(GameState::Lose);
        }
        if self.room_visited >= TOTAL_ROOMS {
            return Ok(GameState::Win);
        }
        if self.room.len() > 1 {
            return Err(RoomError::HandNotCleared);
        }
        let n = ROOM_SIZE - self.room.len();
        if self.deck.len() < n {
            return Err(RoomError::DeckExhausted);
        }
        let ghost old_deck = self.deck@;
        let ghost old_room = self.room@;
        let mut drawn = self.deck.draw(n);
        proof {
            lemma_split_no_duplicates(old_deck, n as int);
            lemma_no_dup_in_concat(old_room, old_deck.take(n as int));
            assert forall|i: int| 0 <= i < n implies old_deck.take(n as int)[i] == old_deck[i] by {}
        }
        self.room.append(&mut drawn);
        self.room_visited = self.room_visited + 1;
        self.has_run_away = false;
        proof {
            let g = self@;
            assert(g.room == old_room + old_deck.take(n as int));
            assert forall|i: int, j: int|
                0 <= i < g.deck.len() && 0 <= j < g.room.len() implies g.deck[i] != g.room[j] by {
                assert(g.deck[i] == old_deck[i + n]);
                if j < old_room.len() {
                    assert(g.room[j] == old_room[j]);
                } else {
                    assert(g.room[j] == old_deck[j - old_room.len()]);
                }
            }
            assert forall|i: int| 0 <= i < g.room.len() implies !g.banned.contains(
                #[trigger] g.room[i],
            ) by {
                if i < old_room.len() {
                    assert(g.room[i] == old_room[i]);
                } else {
                    assert(g.room[i] == old_deck[i - old_room.len()]);
                }
            }
        }
        Ok(GameState::InGame)
    }

    /// Takes `card` out of the room, if it is there.
    fn leave_room(&mut self, card: &Card)
        requires
            old(self).wf(),
        ensures
            final(self)@ == (GameModel { room: without(old(self)@.room, *card), ..old(self)@ }),
            final(self).spec_deck() == old(self).spec_deck(),
    {
        let mut i: usize = 0;
        while i < self.room.len()
            invariant
                i <= self.room@.len(),
                *self == *old(self),
                self.room@.no_duplicates(),
                forall|j: int| 0 <= j < i ==> self.room@[j] != *card,
            decreases self.room@.len() - i,
        {
            if self.room[i] == *card {
                proof {
                    let k = self.room@.index_of(*card);
                    assert(self.room@.contains(*card));
                    assert(self.room@[k] == *card);
                    assert(k == i);
                }
                self.room.remove(i);
                return;
            }
            i += 1;
        }
        proof {
            assert(!self.room@.contains(*card));
        }
    }

    /// Fights `card`, with the equipped weapon if there is one.
    fn handle_combat(&mut self, card: &Card) -> (r: GameState)
        requires
            old(self).wf(),
        ensures
            final(self).spec_deck() == old(self).spec_deck(),
            ({
                let g = old(self)@;
                match g.weapon {
                    None => {
                        let (l, s) = damage_outcome(g.life, card.spec_value());
                        final(self)@ == (GameModel { life: l, ..g }) && r == s
                    },
                    Some(w) => {
                        let (l, s, w2) = weapon_outcome(g.life, *card, w);
                        final(self)@ == (GameModel { life: l, weapon: Some(w2), ..g }) && r == s
                    },
                }
            }),
    {
        let weapon = self.weapon_equipped.take();
        match weapon {
            Some(weapon) => {
                let (life, state, weapon_updated) = fight_with_weapon(
                    self.life_points,
                    card,
                    weapon,
                );
                self.life_points = life;
                self.weapon_equipped = Some(weapon_updated);
                state
            },
            None => {
                let (life, state) = fight_barehanded(self.life_points, card);
                self.life_points = life;
                state
            },
        }
    }

    /// Plays `card`; see `GameModel::play_card`.
    pub fn play_card(&mut self, card: &Card) -> (r: GameState)
        requires
            old(self).wf(),
        ensures
            final(self).wf(),
            (final(self)@, r) == old(self)@.play_card(*card),
    {
        if self.life_points == 0 {
            return GameState::Lose;
        }
        let ghost g0 = self@;
        self.leave_room(card);
        proof {
            lemma_without_keeps(g0.room, *card);
        }
        let r = if card.suit.is_monster() {
            let s = self.handle_combat(card);
            proof {
                if let Some(w) = g0.weapon {
                    lemma_kill_keeps_descending(w, *card);
                }
            }
            s
        } else if card.suit == Suit::Diamonds {
            self.weapon_equipped = Some(Weapon::new(*card));
            GameState::InGame
        } else {
            let v = card.rank.value();
            let sum = self.life_points + v;
            self.life_points = if sum > MAX_LIFE_POINTS {
                MAX_LIFE_POINTS
            } else {
                sum
            };
            GameState::InGame
        };
        proof {
            assert(self@ == old(self)@.play_card(*card).0);
        }
        r
    }

    /// Runs away from the room; see `GameModel::run_away`.
    pub fn run_away(&mut self) -> (r: Result<(), RetreatError>)
        requires
            old(self).wf(),
        ensures
            final(self).wf(),
            (final(self)@, r) == old(self)@.run_away(),
    {
        if self.has_run_away {
            return Err(RetreatError::AlreadyRanAway);
        }
        if self.room.len() != ROOM_SIZE {
            return Err(RetreatError::RoomInProgress);
        }
        self.deck.bottom(&mut self.room);
        self.has_run_away = true;
        Ok(())
    }

    /// Current life points.
    pub fn life_points(&self) -> (r: u8)
        ensures
            r as nat == self@.life,
    {
        self.life_points
    }

    /// The equipped weapon, if any.
    pub fn weapon_equipped(&self) -> (r: Option<&Weapon>)
        ensures
            match r {
                Some(w) => self@.weapon == Some(w@),
                None => self@.weapon is None,
            },
    {
        match &self.weapon_equipped {
            Some(w) => Some(w),
            None => None,
        }
    }

    /// Number of rooms entered so far.
    pub fn rooms_visited(&self) -> (r: usize)
        ensures
            r as nat == self@.rooms,
    {
        self.room_visited
    }

    /// The cards of the current room.
    pub fn room(&self) -> (r: &Vec<Card>)
        ensures
            r@ == self@.room,
    {
        &self.room
    }

    /// The deck of the game.
    pub fn deck(&self) -> (r: &Deck)
        ensures
            r@ == self@.deck,
            r.banned() == self@.banned,
    {
        &self.deck
    }

    /// Whether the player ran away from the last room and has not entered
    /// another since.
    pub fn has_run_away(&self) -> (r: bool)
        ensures
            r == self@.ran_away,
    {
        self.has_run_away
    }
}

/// Splitting a sequence without duplicates gives two such sequences with no
/// element in common.
proof fn lemma_split_no_duplicates(s: Seq<Card>, n: int)
    requires
        s.no_duplicates(),
        0 <= n <= s.len(),
    ensures
        s.take(n).no_duplicates(),
        s.skip(n).no_duplicates(),
        disjoint(s.skip(n), s.take(n)),
{
    assert forall|i: int, j: int|
        0 <= i < s.skip(n).len() && 0 <= j < s.take(n).len() implies s.skip(n)[i] != s.take(
            n,
        )[j] by {
        assert(s.skip(n)[i] == s[i + n]);
        assert(s.take(n)[j] == s[j]);
    }
    assert forall|i: int, j: int|
        0 <= i < s.skip(n).len() && 0 <= j < s.skip(n).len() && i != j implies s.skip(n)[i]
        != s.skip(n)[j] by {
        assert(s.skip(n)[i] == s[i + n]);
        assert(s.skip(n)[j] == s[j + n]);
    }
    assert forall|i: int, j: int|
        0 <= i < s.take(n).len() && 0 <= j < s.take(n).len() && i != j implies s.take(n)[i]
        != s.take(n)[j] by {
        assert(s.take(n)[i] == s[i]);
        assert(s.take(n)[j] == s[j]);
    }
}

/// Taking a card out of a room keeps it free of duplicates, of banned cards,
/// and of cards that are in the deck.
proof fn lemma_without_keeps(room: Seq<Card>, card: Card)
    requires
        room.no_duplicates(),
    ensures
        without(room, card).no_duplicates(),
        without(room, card).len() <= room.len(),
        forall|i: int|
            0 <= i < without(room, card).len() ==> room.contains(#[trigger] without(room, card)[i]),
{
    if room.contains(card) {
        let k = room.index_of(card);
        let r = room.remove(k);
        assert forall|i: int| 0 <= i < r.len() implies room.contains(#[trigger] r[i]) by {
            if i < k {
                assert(r[i] == room[i]);
            } else {
                assert(r[i] == room[i + 1]);
            }
        }
        assert forall|i: int, j: int| 0 <= i < r.len() && 0 <= j < r.len() && i != j implies r[i]
            != r[j] by {
            let a = if i < k { i } else { i + 1 };
            let b = if j < k { j } else { j + 1 };
            assert(r[i] == room[a]);
            assert(r[j] == room[b]);
        }
    }
}

/// A weapon that may slay a monster still has kills of falling rank once
/// the monster joins them.
proof fn lemma_kill_keeps_descending(w: WeaponModel, monster: Card)
    requires
        descending(w.kills),
    ensures
        w.can_slay(monster) ==> descending(w.record_kill(monster).kills),
{
    if w.can_slay(monster) {
        let k = w.record_kill(monster).kills;
        assert forall|i: int, j: int| 0 <= i < j < k.len() implies #[trigger] k[i].spec_value()
            > #[trigger] k[j].spec_value() by {
            if j == k.len() - 1 {
                assert(k[j] == monster);
                if i < w.kills.len() - 1 {
                    assert(w.kills[i].spec_value() > w.kills.last().spec_value());
                }
            } else {
                assert(k[i] == w.kills[i]);
                assert(k[j] == w.kills[j]);
            }
        }
    }
}

/// How many of the first `k` cards of a fresh deck are banned in a game.
spec fn banned_below(k: int) -> int {
    (if k > 13 { 1int } else { 0int }) + (if k > 23 { 1int } else { 0int }) + (if k > 24 {
        1int
    } else {
        0int
    }) + (if k > 25 { 1int } else { 0int }) + (if k > 39 { 1int } else { 0int }) + (if k > 49 {
        1int
    } else {
        0int
    }) + (if k > 50 { 1int } else { 0int }) + (if k > 51 { 1int } else { 0int })
}

/// The positions in a fresh deck of the cards that a game bans.
proof fn lemma_banned_position(k: int)
    requires
        0 <= k < 52,
    ensures
        spec_banned_cards().contains(full_deck()[k]) <==> (k == 13 || k == 23 || k == 24 || k
            == 25 || k == 39 || k == 49 || k == 50 || k == 51),
{
    let b = spec_banned_cards();
    let c = full_deck()[k];
    lemma_card_index(k);
    if b.contains(c) {
        let j = choose|j: int| 0 <= j < b.len() && b[j] == c;
        assert(card_index(b[j]) == k);
    }
    if k == 13 {
        assert(b[0] == c);
    } else if k == 23 {
        assert(b[1] == c);
    } else if k == 24 {
        assert(b[2] == c);
    } else if k == 25 {
        assert(b[3] == c);
    } else if k == 39 {
        assert(b[4] == c);
    } else if k == 49 {
        assert(b[5] == c);
    } else if k == 50 {
        assert(b[6] == c);
    } else if k == 51 {
        assert(b[7] == c);
    }
}

/// Of the first `k` cards of a fresh deck, all but the banned ones stay.
proof fn lemma_game_deck_prefix(k: int)
    requires
        0 <= k <= 52,
    ensures
        full_deck().take(k).filter(allowed(spec_banned_cards())).len() == k - banned_below(k),
    decreases k,
{
    let pred = allowed(spec_banned_cards());
    if k == 0 {
        assert(full_deck().take(0) =~= Seq::<Card>::empty());
        reveal(Seq::filter);
    } else {
        lemma_game_deck_prefix(k - 1);
        lemma_banned_position(k - 1);
        assert(full_deck().take(k) =~= full_deck().take(k - 1).push(full_deck()[k - 1]));
        full_deck().take(k - 1).lemma_filter_push(full_deck()[k - 1], pred);
    }
}

/// A game's deck holds 44 cards: the 52 of a full deck but the 8 banned ones.
pub proof fn lemma_game_deck_size()
    ensures
        reduced_deck(spec_banned_cards()).len() == 44,
{
    lemma_game_deck_prefix(52);
    assert(full_deck().take(52) =~= full_deck());
}

/// After the last room, entering a room wins the game and changes nothing,
/// however often it is done, as long as the game is not lost.
pub proof fn lemma_enter_room_after_last(g: GameModel)
    requires
        g.rooms == TOTAL_ROOMS,
        g.life > 0,
    ensures
        g.enter_room() == (g, Ok::<GameState, RoomError>(GameState::Win)),
        g.enter_room().0.enter_room() == g.enter_room(),
{
}

/// A Heart of rank R heals a player with L life points to min(20, L + R).
pub proof fn lemma_heal_clamps(g: GameModel, card: Card)
    requires
        card.suit == Suit::Hearts,
        g.life > 0,
    ensures
        g.play_card(card).0.life == if g.life + card.spec_value() > 20 {
            20
        } else {
            g.life + card.spec_value()
        },
        g.play_card(card).1 == GameState::InGame,
{
}

/// Without a weapon, a monster of rank R kills a player with L <= R life
/// points, leaving exactly 0, and otherwise leaves L - R.
pub proof fn lemma_barehanded_lethality(g: GameModel, card: Card)
    requires
        card.suit.spec_is_monster(),
        g.weapon is None,
    ensures
        card.spec_value() >= g.life ==> g.play_card(card).0.life == 0 && g.play_card(card).1
            == GameState::Lose,
        card.spec_value() < g.life ==> g.play_card(card).0.life == g.life - card.spec_value()
            && g.play_card(card).1 == GameState::InGame,
{
}

/// Running away fails on an empty hand, as before the first room. From a
/// freshly entered room it succeeds, puts the room's four cards at the
/// bottom of the deck in their order, and a second try in a row fails.
pub proof fn lemma_retreat_rule(g: GameModel)
    requires
        g.life > 0,
        g.rooms < TOTAL_ROOMS,
        g.room.len() == 0,
        g.deck.len() >= ROOM_SIZE,
    ensures
        !g.ran_away ==> g.run_away() == (g, Err::<(), RetreatError>(RetreatError::RoomInProgress)),
        ({
            let (g1, r1) = g.enter_room();
            let (g2, r2) = g1.run_away();
            &&& r1 == Ok::<GameState, RoomError>(GameState::InGame)
            &&& g1.room == g.deck.take(4)
            &&& r2 == Ok::<(), RetreatError>(())
            &&& g2.room.len() == 0
            &&& g2.deck.len() == g.deck.len()
            &&& g2.deck.skip(g2.deck.len() - 4) == g1.room
            &&& g2.run_away() == (g2, Err::<(), RetreatError>(RetreatError::AlreadyRanAway))
        }),
{
    let (g1, r1) = g.enter_room();
    assert(g.room + g.deck.take(4) =~= g.deck.take(4));
    let g2 = g1.run_away().0;
    assert(g2.deck.skip(g2.deck.len() - 4) =~= g1.room);
}

} // verus!
