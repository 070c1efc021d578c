use scoundrel::Rank;
use std::cmp::Ordering;

#[test]
fn cast_a_card_rank_into_u8() {
    assert_eq!(u8::from(Rank::Ace), 1u8);
    assert_eq!(u8::from(Rank::Two), 2u8);
    assert_eq!(u8::from(Rank::Three), 3u8);
    assert_eq!(u8::from(Rank::Four), 4u8);
    assert_eq!(u8::from(Rank::Five), 5u8);
    assert_eq!(u8::from(Rank::Six), 6u8);
    assert_eq!(u8::from(Rank::Seven), 7u8);
    assert_eq!(u8::from(Rank::Eight), 8u8);
    assert_eq!(u8::from(Rank::Nine), 9u8);
    assert_eq!(u8::from(Rank::Ten), 10u8);
    assert_eq!(u8::from(Rank::Jack), 11u8);
    assert_eq!(u8::from(Rank::Queen), 12u8);
    assert_eq!(u8::from(Rank::King), 13u8);
}

#[test]
fn sum_a_card_with_a_u8() {
    let rank = Rank::Queen;
    let number = 10u8;

    assert_eq!(number + rank, 22u8)
}

#[test]
fn sub_a_card_with_a_u8() {
    let rank = Rank::Queen;
    let number = 10u8;

    assert_eq!(rank - number, 2u8)
}

#[test]
fn test_rank_ordering() {
    assert!(Rank::Ace < Rank::Two);
    assert!(Rank::King > Rank::Queen);
    assert_eq!(Rank::Seven.cmp(&Rank::Seven), Ordering::Equal);
}

#[test]
fn test_rank_u8_comparisons() {
    assert!(Rank::Five == 5);
    assert!(Rank::Nine < 10);
    assert!(8 > Rank::Seven);
    assert!(12 == Rank::Queen);
}

#[test]
fn test_edge_cases() {
    assert!(Rank::Ace == 1);
    assert!(Rank::King == 13);
    assert!(1_u8 == Rank::Ace);
    assert!(13_u8 == Rank::King);
}

#[test]
fn rank_subtraction_saturates_at_zero() {
    assert_eq!(Rank::Two - 5u8, 0u8);
    assert_eq!(3u8 - Rank::King, 0u8);
    assert_eq!(20u8 - Rank::Five, 15u8);
    assert_eq!(Rank::Ace + 4u8, 5u8);
}

#[test]
fn rank_symbols_and_values() {
    assert_eq!(Rank::Ace.to_string(), "A");
    assert_eq!(Rank::Ten.to_string(), "10");
    assert_eq!(Rank::King.to_string(), "K");
    assert_eq!(Rank::Jack.value(), 11);
    assert_eq!(Rank::Queen.partial_cmp(&Rank::Jack), Some(Ordering::Greater));
}
