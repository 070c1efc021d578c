//! Rule engine of the Scoundrel dungeon-crawl card game.
pub mod card;
pub mod combat;
pub mod deck;
pub mod rank;
pub mod scoundrel;
pub mod suit;
pub mod weapon;

pub use card::Card;
pub use combat::{fight_barehanded, fight_with_weapon, GameState};
pub use deck::{Deck, DeckBuilder};
pub use rank::Rank;
pub use scoundrel::{
    GameModel, RetreatError, RoomError, Scoundrel, MAX_LIFE_POINTS, ROOM_SIZE, TOTAL_ROOMS,
};
pub use suit::Suit;
pub use weapon::Weapon;
