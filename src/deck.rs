//! A deck of playing cards: the standard 52 cards, less a set of banned ones.
use crate::card::Card;
use crate::rank::{all_ranks, Rank};
use crate::suit::{all_suits, Suit};
use rand::seq::SliceRandom;
use vstd::prelude::*;
use vstd::seq_lib::{lemma_no_dup_in_concat, lemma_seq_union_to_multiset_commutative};
use vstd::set_lib::lemma_len_subset;

verus! {

/// The position of a suit in a fresh deck.
pub open spec fn suit_index(s: Suit) -> int {
    match s {
        Suit::Spades => 0,
        Suit::Diamonds => 1,
        Suit::Clubs => 2,
        Suit::Hearts => 3,
    }
}

/// The position of a card in a fresh, complete deck.
pub open spec fn card_index(c: Card) -> int {
    suit_index(c.suit) * 13 + c.rank.spec_value() - 1
}

/// The 52 cards in the order of a fresh deck: suit by suit, each from Ace to King.
pub open spec fn full_deck() -> Seq<Card> {
    Seq::new(52, |i: int| Card { suit: all_suits()[i / 13], rank: all_ranks()[i % 13] })
}

/// Holds of the cards that are not in `banned`.
pub open spec fn allowed(banned: Seq<Card>) -> spec_fn(Card) -> bool {
    |c: Card| !banned.contains(c)
}

/// A fresh deck from which the cards of `banned` were taken out.
pub open spec fn reduced_deck(banned: Seq<Card>) -> Seq<Card> {
    full_deck().filter(allowed(banned))
}

/// `cards` holds none of the cards in `banned`.
pub open spec fn none_banned(cards: Seq<Card>, banned: Seq<Card>) -> bool {
    forall|i: int| 0 <= i < cards.len() ==> !banned.contains(#[trigger] cards[i])
}

/// No card is in both `a` and `b`.
pub open spec fn disjoint(a: Seq<Card>, b: Seq<Card>) -> bool {
    forall|i: int, j: int| 0 <= i < a.len() && 0 <= j < b.len() ==> a[i] != b[j]
}

/// Whether `cards` holds `card`.
pub fn contains_card(cards: &Vec<Card>, card: &Card) -> (r: bool)
    ensures
        r == cards@.contains(*card),
{
    let mut i: usize = 0;
    while i < cards.len()
        invariant
            i <= cards@.len(),
            forall|j: int| 0 <= j < i ==> cards@[j] != *card,
        decreases cards@.len() - i,
    {
        if cards[i] == *card {
            return true;
        }
        i += 1;
    }
    false
}

fn suit_at(i: usize) -> (r: Suit)
    requires
        i < 4,
    ensures
        r == all_suits()[i as int],
{
    if i == 0 {
        Suit::Spades
    } else if i == 1 {
        Suit::Diamonds
    } else if i == 2 {
        Suit::Clubs
    } else {
        Suit::Hearts
    }
}

fn rank_at(i: usize) -> (r: Rank)
    requires
        i < 13,
    ensures
        r == all_ranks()[i as int],
{
    match i {
        0 => Rank::Ace,
        1 => Rank::Two,
        2 => Rank::Three,
        3 => Rank::Four,
        4 => Rank::Five,
        5 => Rank::Six,
        6 => Rank::Seven,
        7 => Rank::Eight,
        8 => Rank::Nine,
        9 => Rank::Ten,
        10 => Rank::Jack,
        11 => Rank::Queen,
        _ => Rank::King,
    }
}

/// The card at position `k` of a fresh deck sits there.
pub(crate) proof fn lemma_card_index(k: int)
    requires
        0 <= k < 52,
    ensures
        card_index(full_deck()[k]) == k,
{
    let c = full_deck()[k];
    assert(suit_index(c.suit) == k / 13);
    assert(c.rank.spec_value() == k % 13 + 1);
}

/// Every card sits in a fresh, complete deck, at its `card_index`.
proof fn lemma_full_deck_holds(c: Card)
    ensures
        0 <= card_index(c) < 52,
        full_deck()[card_index(c)] == c,
{
    let k = card_index(c);
    assert(k / 13 == suit_index(c.suit));
    assert(k % 13 == c.rank.spec_value() - 1);
}

/// A deck never holds more cards than it had when built or last reset.
pub proof fn lemma_deck_len_bounded(d: Deck)
    requires
        d.wf(),
    ensures
        d@.len() <= d.original_size(),
{
    let reduced = reduced_deck(d.banned());
    assert forall|c: Card| d@.to_set().contains(c) implies reduced.to_set().contains(c) by {
        lemma_full_deck_holds(c);
        assert(d@.contains(c));
        let i = choose|i: int| 0 <= i < d@.len() && d@[i] == c;
        assert(!d.banned().contains(d@[i]));
        full_deck().lemma_filter_contains(allowed(d.banned()), card_index(c));
    }
    d@.unique_seq_to_set();
    reduced.lemma_cardinality_of_set();
    lemma_len_subset(d@.to_set(), reduced.to_set());
}

/// Relies on rand's `SliceRandom::shuffle` with the thread-local generator
/// `rand::rng()`: it reorders the slice by swapping its elements, so the same
/// cards stay, in an order that chance decides.
#[verifier::external_body]
fn shuffle_cards(cards: &mut Vec<Card>)
    ensures
        final(cards)@.to_multiset() == old(cards)@.to_multiset(),
{
    cards.shuffle(&mut rand::rng());
}

/// A deck of playing cards. The top of the deck is the front of its sequence.
#[derive(Clone, Debug, PartialEq, Eq)]
pub struct Deck {
    cards: Vec<Card>,
    size: usize,
    banned_cards: Vec<Card>,
}

impl View for Deck {
    type V = Seq<Card>;

    /// The cards of the deck, from top to bottom.
    closed spec fn view(&self) -> Seq<Card> {
        self.cards@
    }
}

impl Deck {
    /// The cards that this deck leaves out, on construction and on reset.
    pub closed spec fn banned(self) -> Seq<Card> {
        self.banned_cards@
    }

    /// How many cards the deck held when built or last reset.
    pub closed spec fn original_size(self) -> nat {
        self.size as nat
    }

    /// The deck holds each card at most once, and no banned card.
    pub open spec fn wf(self) -> bool {
        &&& self@.no_duplicates()
        &&& none_banned(self@, self.banned())
        &&& self.original_size() == reduced_deck(self.banned()).len()
    }

    /// A complete deck of 52 cards, in the order of `full_deck`.
    pub fn new() -> (r: Deck)
        ensures
            r.wf(),
            r@ == full_deck(),
            r.banned() == Seq::<Card>::empty(),
    {
        let r = Deck::with_banned(Vec::new());
        proof {
            assert forall|i: int| 0 <= i < full_deck().len() implies
                #[trigger] allowed(Seq::<Card>::empty())(full_deck()[i]) by {}
            lemma_filter_all(full_deck(), allowed(Seq::<Card>::empty()));
        }
        r
    }

    /// Starts a builder, with which cards can be banned before the deck is built.
    pub fn builder() -> (r: DeckBuilder)
        ensures
            r@ == Seq::<Card>::empty(),
    {
        DeckBuilder::new()
    }

    /// A fresh deck without the cards of `banned_cards`.
    fn with_banned(banned_cards: Vec<Card>) -> (r: Deck)
        ensures
            r.wf(),
            r@ == reduced_deck(banned_cards@),
            r.banned() == banned_cards@,
    {
        let ghost pred = allowed(banned_cards@);
        let mut cards: Vec<Card> = Vec::new();
        let mut k: usize = 0;
        while k < 52
            invariant
                k <= 52,
                cards@ == full_deck().take(k as int).filter(pred),
                pred == allowed(banned_cards@),
                none_banned(cards@, banned_cards@),
                forall|i: int| 0 <= i < cards@.len() ==> card_index(#[trigger] cards@[i]) < k,
                forall|i: int, j: int|
                    0 <= i < j < cards@.len() ==> card_index(#[trigger] cards@[i]) < card_index(
                        #[trigger] cards@[j],
                    ),
            decreases 52 - k,
        {
            let card = Card::new(suit_at(k / 13), rank_at(k % 13));
            proof {
                lemma_card_index(k as int);
                assert(card == full_deck()[k as int]);
                assert(full_deck().take(k as int + 1) =~= full_deck().take(k as int).push(card));
                full_deck().take(k as int).lemma_filter_push(card, pred);
            }
            let banned = contains_card(&banned_cards, &card);
            if !banned {
                cards.push(card);
            }
            k += 1;
        }
        proof {
            assert(full_deck().take(52) =~= full_deck());
            assert forall|i: int, j: int|
                0 <= i < cards@.len() && 0 <= j < cards@.len() && i != j implies cards@[i]
                != cards@[j] by {
                if i < j {
                    assert(card_index(cards@[i]) < card_index(cards@[j]));
                } else {
                    assert(card_index(cards@[j]) < card_index(cards@[i]));
                }
            }
        }
        Deck { size: cards.len(), cards, banned_cards }
    }

    /// Whether the deck holds `card`.
    pub fn contains(&self, card: &Card) -> (r: bool)
        ensures
            r == self@.contains(*card),
    {
        contains_card(&self.cards, card)
    }

    /// Takes the top `number_of_draws` cards off the deck and returns them,
    /// the top card first.
    pub fn draw(&mut self, number_of_draws: usize) -> (r: Vec<Card>)
        requires
            number_of_draws <= old(self)@.len(),
        ensures
            r@ == old(self)@.take(number_of_draws as int),
            final(self)@ == old(self)@.skip(number_of_draws as int),
            final(self).banned() == old(self).banned(),
            final(self).original_size() == old(self).original_size(),
            old(self).wf() ==> final(self).wf(),
    {
        let rest = self.cards.split_off(number_of_draws);
        let mut drawn = rest;
        std::mem::swap(&mut drawn, &mut self.cards);
        proof {
            assert(old(self)@.take(number_of_draws as int) =~= drawn@);
            assert(old(self)@.skip(number_of_draws as int) =~= self.cards@);
            if old(self).wf() {
                assert forall|i: int| 0 <= i < self@.len() implies !self.banned().contains(
                    #[trigger] self@[i],
                ) by {
                    assert(self@[i] == old(self)@[i + number_of_draws]);
                }
                assert forall|i: int, j: int|
                    0 <= i < self@.len() && 0 <= j < self@.len() && i != j implies self@[i]
                    != self@[j] by {
                    assert(self@[i] == old(self)@[i + number_of_draws]);
                    assert(self@[j] == old(self)@[j + number_of_draws]);
                }
            }
        }
        drawn
    }

    /// Puts `cards` at the bottom of the deck, in their order, and leaves
    /// `cards` empty.
    pub fn bottom(&mut self, cards: &mut Vec<Card>)
        requires
            old(self).wf(),
            old(cards)@.no_duplicates(),
            none_banned(old(cards)@, old(self).banned()),
            disjoint(old(self)@, old(cards)@),
        ensures
            final(self).wf(),
            final(self)@ == old(self)@ + old(cards)@,
            final(cards)@ == Seq::<Card>::empty(),
            final(self).banned() == old(self).banned(),
            final(self).original_size() == old(self).original_size(),
    {
        proof {
            lemma_no_dup_in_concat(self.cards@, cards@);
        }
        self.cards.append(cards);
        proof {
            assert forall|i: int| 0 <= i < self@.len() implies !self.banned().contains(
                #[trigger] self@[i],
            ) by {
                if i >= old(self)@.len() {
                    assert(self@[i] == old(cards)@[i - old(self)@.len()]);
                }
            }
        }
    }

    /// Whether the deck holds no card.
    pub fn is_empty(&self) -> (r: bool)
        ensures
            r == (self@.len() == 0),
    {
        self.cards.is_empty()
    }

    /// The number of cards in the deck.
    pub fn len(&self) -> (r: usize)
        ensures
            r == self@.len(),
    {
        self.cards.len()
    }

    /// The cards of the deck, from top to bottom.
    pub fn cards(&self) -> (r: &Vec<Card>)
        ensures
            r@ == self@,
    {
        &self.cards
    }

    /// Puts every card back: the deck is again fresh, without its banned cards.
    pub fn reset(&mut self)
        ensures
            final(self).wf(),
            final(self)@ == reduced_deck(old(self).banned()),
            final(self).banned() == old(self).banned(),
    {
        let mut banned: Vec<Card> = Vec::new();
        std::mem::swap(&mut banned, &mut self.banned_cards);
        *self = Deck::with_banned(banned);
    }

    /// Puts the cards in an order that chance decides; the deck keeps the same cards.
    pub fn shuffle(&mut self)
        requires
            old(self).wf(),
        ensures
            final(self).wf(),
            final(self)@.to_multiset() == old(self)@.to_multiset(),
            final(self).banned() == old(self).banned(),
            final(self).original_size() == old(self).original_size(),
    {
        shuffle_cards(&mut self.cards);
        proof {
            old(self)@.lemma_multiset_has_no_duplicates();
            self@.lemma_multiset_has_no_duplicates_conv();
            assert forall|i: int| 0 <= i < self@.len() implies !self.banned().contains(
                #[trigger] self@[i],
            ) by {
                self@.to_multiset_ensures();
                old(self)@.to_multiset_ensures();
                assert(self@.to_multiset().count(self@[i]) > 0);
                assert(old(self)@.contains(self@[i]));
                let j = choose|j: int| 0 <= j < old(self)@.len() && old(self)@[j] == self@[i];
                assert(!self.banned().contains(old(self)@[j]));
            }
        }
    }
}

/// If `pred` holds of every element, filtering keeps the whole sequence.
proof fn lemma_filter_all(s: Seq<Card>, pred: spec_fn(Card) -> bool)
    requires
        forall|i: int| 0 <= i < s.len() ==> #[trigger] pred(s[i]),
    ensures
        s.filter(pred) == s,
    decreases s.len(),
{
    if s.len() > 0 {
        let init = s.drop_last();
        assert(init.push(s.last()) =~= s);
        assert forall|i: int| 0 <= i < init.len() implies #[trigger] pred(init[i]) by {
            assert(init[i] == s[i]);
        }
        lemma_filter_all(init, pred);
        init.lemma_filter_push(s.last(), pred);
    } else {
        reveal(Seq::filter);
    }
}

/// Drawing `n` cards and putting them back at the bottom leaves a deck of the
/// same length with the same cards: only their positions may differ.
pub proof fn lemma_draw_then_bottom(cards: Seq<Card>, n: int)
    requires
        0 <= n <= cards.len(),
    ensures
        (cards.skip(n) + cards.take(n)).len() == cards.len(),
        (cards.skip(n) + cards.take(n)).to_multiset() == cards.to_multiset(),
{
    assert(cards.take(n) + cards.skip(n) =~= cards);
    lemma_seq_union_to_multiset_commutative(cards.skip(n), cards.take(n));
}

/// Gathers the cards to ban, then builds the deck.
pub struct DeckBuilder {
    banned_cards: Vec<Card>,
}

impl View for DeckBuilder {
    type V = Seq<Card>;

    /// The cards banned so far, in the order they were named.
    closed spec fn view(&self) -> Seq<Card> {
        self.banned_cards@
    }
}

impl DeckBuilder {
    /// A builder with no banned card.
    pub fn new() -> (r: DeckBuilder)
        ensures
            r@ == Seq::<Card>::empty(),
    {
        DeckBuilder { banned_cards: Vec::new() }
    }

    /// Bans `card` from the deck.
    pub fn ban_card(self, card: Card) -> (r: DeckBuilder)
        ensures
            r@ == self@.push(card),
    {
        let mut b = self;
        b.banned_cards.push(card);
        b
    }

    /// Bans each card of `cards` from the deck.
    pub fn ban_cards(self, cards: Vec<Card>) -> (r: DeckBuilder)
        ensures
            r@ == self@ + cards@,
    {
        let mut b = self;
        let mut more = cards;
        b.banned_cards.append(&mut more);
        b
    }

    /// The deck of all cards but the banned ones, in the order of a fresh deck.
    pub fn build(self) -> (r: Deck)
        ensures
            r.wf(),
            r@ == reduced_deck(self@),
            r.banned() == self@,
    {
        Deck::with_banned(self.banned_cards)
    }
}

} // verus!
