use scoundrel::{
    fight_barehanded, fight_with_weapon, Card, Deck, GameState, Rank, RetreatError, RoomError,
    Scoundrel, Suit, Weapon, ROOM_SIZE, TOTAL_ROOMS,
};

fn banned() -> Vec<Card> {
    let mut v = Vec::new();
    for suit in [Suit::Diamonds, Suit::Hearts] {
        for rank in [Rank::Ace, Rank::Jack, Rank::Queen, Rank::King] {
            v.push(Card::new(suit, rank));
        }
    }
    v
}

/// Heals the player back to full life with potions that no room holds:
/// the King of Hearts is banned from the deck.
fn heal_fully(game: &mut Scoundrel) {
    game.play_card(&Card::new(Suit::Hearts, Rank::King));
    game.play_card(&Card::new(Suit::Hearts, Rank::King));
}

/// Plays the first `n` cards of the room, healing before each one.
fn play_from_room(game: &mut Scoundrel, n: usize) {
    for _ in 0..n {
        heal_fully(game);
        let card = game.room()[0];
        assert_eq!(game.play_card(&card), GameState::InGame);
    }
}

#[test]
fn fresh_game_state() {
    let game = Scoundrel::new();
    assert_eq!(game.life_points(), 20);
    assert!(game.weapon_equipped().is_none());
    assert_eq!(game.rooms_visited(), 0);
    assert_eq!(game.deck().len(), 44);
    assert!(game.room().is_empty());
    assert!(!game.has_run_away());
    for card in banned() {
        assert!(!game.deck().contains(&card));
    }
}

#[test]
fn no_banned_card_is_ever_drawn() {
    let mut game = Scoundrel::new();
    let banned = banned();
    for _ in 0..TOTAL_ROOMS {
        assert_eq!(game.enter_room(), Ok(GameState::InGame));
        for card in game.room() {
            assert!(!banned.contains(card));
        }
        play_from_room(&mut game, 3);
    }
}

#[test]
fn entering_after_the_last_room_wins_and_changes_nothing() {
    let mut game = Scoundrel::new();
    for _ in 0..TOTAL_ROOMS {
        assert_eq!(game.enter_room(), Ok(GameState::InGame));
        play_from_room(&mut game, 3);
    }
    assert_eq!(game.rooms_visited(), 12);
    let life = game.life_points();
    let deck_len = game.deck().len();
    let hand = game.room().clone();
    assert_eq!(game.enter_room(), Ok(GameState::Win));
    assert_eq!(game.enter_room(), Ok(GameState::Win));
    assert_eq!(game.life_points(), life);
    assert_eq!(game.deck().len(), deck_len);
    assert_eq!(game.room(), &hand);
    assert_eq!(game.rooms_visited(), 12);
}

#[test]
fn entering_a_room_draws_from_the_top() {
    let mut game = Scoundrel::new();
    let top: Vec<Card> = game.deck().cards()[..4].to_vec();
    assert_eq!(game.enter_room(), Ok(GameState::InGame));
    assert_eq!(game.room(), &top);
    assert_eq!(game.deck().len(), 40);
    assert_eq!(game.rooms_visited(), 1);
    play_from_room(&mut game, 3);
    let kept = game.room()[0];
    let next: Vec<Card> = game.deck().cards()[..3].to_vec();
    assert_eq!(game.enter_room(), Ok(GameState::InGame));
    assert_eq!(game.room().len(), ROOM_SIZE);
    assert_eq!(game.room()[0], kept);
    assert_eq!(&game.room()[1..], &next[..]);
    assert_eq!(game.deck().len(), 37);
}

#[test]
fn entering_with_a_full_hand_is_refused() {
    let mut game = Scoundrel::new();
    assert_eq!(game.enter_room(), Ok(GameState::InGame));
    play_from_room(&mut game, 2);
    let hand = game.room().clone();
    assert_eq!(game.enter_room(), Err(RoomError::HandNotCleared));
    assert_eq!(game.room(), &hand);
    assert_eq!(game.rooms_visited(), 1);
}

#[test]
fn entering_with_an_empty_deck_is_refused() {
    let mut game = Scoundrel::new();
    for _ in 0..11 {
        assert_eq!(game.enter_room(), Ok(GameState::InGame));
        play_from_room(&mut game, 4);
    }
    assert_eq!(game.deck().len(), 0);
    assert_eq!(game.enter_room(), Err(RoomError::DeckExhausted));
    assert_eq!(game.rooms_visited(), 11);
}

#[test]
fn healing_clamps_at_twenty() {
    let mut game = Scoundrel::new();
    game.play_card(&Card::new(Suit::Spades, Rank::Five));
    assert_eq!(game.life_points(), 15);
    assert_eq!(game.play_card(&Card::new(Suit::Hearts, Rank::Five)), GameState::InGame);
    assert_eq!(game.life_points(), 20);
    game.play_card(&Card::new(Suit::Hearts, Rank::Five));
    assert_eq!(game.life_points(), 20);
    game.play_card(&Card::new(Suit::Clubs, Rank::Ten));
    game.play_card(&Card::new(Suit::Hearts, Rank::Three));
    assert_eq!(game.life_points(), 13);
}

#[test]
fn barehanded_fights_follow_the_rank() {
    let mut game = Scoundrel::new();
    assert_eq!(game.play_card(&Card::new(Suit::Clubs, Rank::Five)), GameState::InGame);
    assert_eq!(game.life_points(), 15);
    assert_eq!(game.play_card(&Card::new(Suit::Clubs, Rank::Five)), GameState::InGame);
    assert_eq!(game.life_points(), 10);
    assert_eq!(game.play_card(&Card::new(Suit::Clubs, Rank::Ten)), GameState::Lose);
    assert_eq!(game.life_points(), 0);
}

#[test]
fn a_lost_game_stays_lost() {
    let mut game = Scoundrel::new();
    game.play_card(&Card::new(Suit::Spades, Rank::King));
    assert_eq!(game.play_card(&Card::new(Suit::Spades, Rank::Ten)), GameState::Lose);
    assert_eq!(game.life_points(), 0);
    assert_eq!(game.play_card(&Card::new(Suit::Hearts, Rank::Ten)), GameState::Lose);
    assert_eq!(game.life_points(), 0);
    assert_eq!(game.enter_room(), Ok(GameState::Lose));
    assert_eq!(game.rooms_visited(), 0);
}

#[test]
fn weapon_escalation() {
    let mut game = Scoundrel::new();
    game.play_card(&Card::new(Suit::Diamonds, Rank::Nine));
    let eight = Card::new(Suit::Clubs, Rank::Eight);
    assert_eq!(game.play_card(&eight), GameState::InGame);
    assert_eq!(game.life_points(), 20);
    assert_eq!(game.weapon_equipped().unwrap().monster_stack(), vec![eight]);
    assert_eq!(game.play_card(&Card::new(Suit::Clubs, Rank::Ten)), GameState::InGame);
    assert_eq!(game.life_points(), 10);
    assert_eq!(game.weapon_equipped().unwrap().monster_stack(), vec![eight]);
}

#[test]
fn weapon_damage_floor() {
    let mut game = Scoundrel::new();
    game.play_card(&Card::new(Suit::Diamonds, Rank::Nine));
    let jack = Card::new(Suit::Clubs, Rank::Jack);
    assert_eq!(game.play_card(&jack), GameState::InGame);
    assert_eq!(game.life_points(), 18);
    assert_eq!(game.weapon_equipped().unwrap().monster_stack(), vec![jack]);
}

#[test]
fn a_weapon_that_kills_the_player_still_records_the_monster() {
    let weapon = Weapon::new(Card::new(Suit::Diamonds, Rank::Two));
    let king = Card::new(Suit::Spades, Rank::King);
    let (life, state, weapon) = fight_with_weapon(5, &king, weapon);
    assert_eq!(life, 0);
    assert_eq!(state, GameState::Lose);
    assert_eq!(weapon.monster_stack(), vec![king]);
}

#[test]
fn weapon_rules() {
    let mut weapon = Weapon::new(Card::new(Suit::Diamonds, Rank::Five));
    let seven = Card::new(Suit::Spades, Rank::Seven);
    assert!(weapon.can_slay(&seven));
    assert_eq!(weapon.attack_power(&seven), 2);
    assert_eq!(weapon.attack_power(&Card::new(Suit::Spades, Rank::Three)), 0);
    weapon.record_kill(seven);
    assert!(!weapon.can_slay(&Card::new(Suit::Clubs, Rank::Seven)));
    assert!(weapon.can_slay(&Card::new(Suit::Clubs, Rank::Six)));
    assert_eq!(weapon.monster_stack(), vec![seven]);
}

#[test]
fn barehanded_resolver() {
    let five = Card::new(Suit::Spades, Rank::Five);
    assert_eq!(fight_barehanded(20, &five), (15, GameState::InGame));
    assert_eq!(fight_barehanded(5, &five), (0, GameState::Lose));
    assert_eq!(fight_barehanded(3, &five), (0, GameState::Lose));
}

#[test]
fn retreat_rule() {
    let mut game = Scoundrel::new();
    assert_eq!(game.run_away(), Err(RetreatError::RoomInProgress));
    assert_eq!(game.enter_room(), Ok(GameState::InGame));
    let room = game.room().clone();
    assert_eq!(game.run_away(), Ok(()));
    assert!(game.room().is_empty());
    assert!(game.has_run_away());
    assert_eq!(game.deck().len(), 44);
    assert_eq!(&game.deck().cards()[40..], &room[..]);
    assert_eq!(game.run_away(), Err(RetreatError::AlreadyRanAway));
    assert_eq!(game.enter_room(), Ok(GameState::InGame));
    assert!(!game.has_run_away());
}

#[test]
fn retreat_from_a_started_room_is_refused() {
    let mut game = Scoundrel::new();
    assert_eq!(game.enter_room(), Ok(GameState::InGame));
    play_from_room(&mut game, 1);
    let hand = game.room().clone();
    assert_eq!(game.run_away(), Err(RetreatError::RoomInProgress));
    assert_eq!(game.room(), &hand);
}

#[test]
fn playing_a_card_removes_it_from_the_room() {
    let mut game = Scoundrel::new();
    assert_eq!(game.enter_room(), Ok(GameState::InGame));
    let card = game.room()[2];
    heal_fully(&mut game);
    game.play_card(&card);
    assert_eq!(game.room().len(), 3);
    assert!(!game.room().contains(&card));
}

#[test]
fn builder_bans_single_cards() {
    let deck = Deck::builder()
        .ban_card(Card::new(Suit::Spades, Rank::Ace))
        .ban_card(Card::new(Suit::Hearts, Rank::King))
        .build();
    assert_eq!(deck.len(), 50);
    assert_eq!(deck.cards()[0], Card::new(Suit::Spades, Rank::Two));
}
