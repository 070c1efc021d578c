use scoundrel::{Card, Rank, Suit};

#[test]
fn print_a_card() {
    let card = Card::new(Suit::Clubs, Rank::Queen);

    assert_eq!(card.to_string(), "♣️  Q")
}

#[test]
fn card_keeps_its_suit_and_rank() {
    let card = Card::new(Suit::Hearts, Rank::Ten);
    assert_eq!(card.suit(), Suit::Hearts);
    assert_eq!(card.rank(), Rank::Ten);
    assert_eq!(card.to_string(), "♥️  10");
}
