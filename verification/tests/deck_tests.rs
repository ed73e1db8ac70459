use rand::SeedableRng;
use scopa::card::{Card, CardType, Suit};
use scopa::deck::Deck;

fn canonical_cards() -> Vec<Card> {
    let suits = vec![Suit::Hearts, Suit::Tiles, Suit::Clovers, Suit::Pikes];
    let ranks = vec![
        CardType::Ace,
        CardType::Two,
        CardType::Three,
        CardType::Four,
        CardType::Five,
        CardType::Six,
        CardType::Seven,
        CardType::Jack,
        CardType::Queen,
        CardType::King,
    ];
    let mut cards = Vec::new();
    for suit in suits {
        for card_type in ranks.iter() {
            cards.push(Card { suit, card_type: *card_type });
        }
    }
    cards
}

fn holds_each_canonical_card_once(cards: &[Card]) -> bool {
    cards.len() == 40
        && canonical_cards()
            .iter()
            .all(|want| cards.iter().filter(|have| *have == want).count() == 1)
}

#[test]
fn base_deck_is_canonical() {
    let deck = Deck::base_deck();
    assert_eq!(deck.iter(), canonical_cards());
}

#[test]
fn draw_yields_canonical_order_then_empty() {
    let mut deck = Deck::base_deck();
    for want in canonical_cards() {
        assert_eq!(deck.draw(), Some(want));
    }
    assert_eq!(deck.draw(), None);
    assert_eq!(deck.draw(), None);
}

#[test]
fn put_restores_drawn_card() {
    let mut deck = Deck::base_deck();
    let first = deck.draw().unwrap();
    let second = deck.draw().unwrap();
    deck.put(second);
    deck.put(first);
    assert_eq!(deck.draw(), Some(first));
    assert_eq!(deck.draw(), Some(second));
    assert!(holds_each_canonical_card_once(&deck.iter()));
}

#[test]
fn put_on_fresh_deck_is_a_no_op() {
    let mut deck = Deck::base_deck();
    deck.put(Card { suit: Suit::Pikes, card_type: CardType::King });
    assert_eq!(deck.iter(), canonical_cards());
    assert_eq!(
        deck.draw(),
        Some(Card { suit: Suit::Hearts, card_type: CardType::Ace })
    );
}

#[test]
fn shuffle_zero_iterations_is_a_no_op() {
    let mut deck = Deck::base_deck();
    deck.shuffle(0);
    assert_eq!(deck.iter(), canonical_cards());
}

#[test]
fn shuffle_keeps_all_forty_cards() {
    let mut deck = Deck::base_deck();
    deck.shuffle(10);
    assert!(holds_each_canonical_card_once(&deck.iter()));
}

#[test]
fn shuffle_new_keeps_all_forty_cards() {
    let deck = Deck::shuffle_new();
    assert!(holds_each_canonical_card_once(&deck.iter()));
}

#[test]
fn shuffle_leaves_drawn_prefix_in_place() {
    let mut deck = Deck::base_deck();
    let first = deck.draw().unwrap();
    let second = deck.draw().unwrap();
    deck.shuffle(5);
    let cards = deck.iter();
    assert_eq!(cards[0], first);
    assert_eq!(cards[1], second);
    assert!(holds_each_canonical_card_once(&cards));
}

#[test]
fn shuffle_with_same_seed_is_deterministic() {
    let mut rng_a = rand::rngs::StdRng::seed_from_u64(42);
    let mut rng_b = rand::rngs::StdRng::seed_from_u64(42);
    let mut deck_a = Deck::base_deck();
    let mut deck_b = Deck::base_deck();
    deck_a.shuffle_with(&mut rng_a, 10);
    deck_b.shuffle_with(&mut rng_b, 10);
    assert_eq!(deck_a.iter(), deck_b.iter());
    assert!(holds_each_canonical_card_once(&deck_a.iter()));
}

#[test]
fn riffle_pass_interleaves_the_two_halves() {
    let mut deck = Deck::base_deck();
    deck.riffle_pass(20);
    let canonical = canonical_cards();
    let mut expected = vec![canonical[0]; 40];
    for t in 0..20 {
        // push order alternates back slice, front slice; `put` fills the
        // slots from the top down
        expected[39 - 2 * t] = canonical[20 + t];
        expected[38 - 2 * t] = canonical[t];
    }
    assert_eq!(deck.iter(), expected);
}
