use scopa::card::{Card, CardStrErr, CardType, Suit};

fn suits() -> Vec<Suit> {
    vec![Suit::Hearts, Suit::Tiles, Suit::Clovers, Suit::Pikes]
}

fn ranks() -> Vec<CardType> {
    vec![
        CardType::Ace,
        CardType::Two,
        CardType::Three,
        CardType::Four,
        CardType::Five,
        CardType::Six,
        CardType::Seven,
        CardType::Jack,
        CardType::Queen,
        CardType::King,
    ]
}

#[test]
fn round_trip_all_cards() {
    for suit in suits() {
        for card_type in ranks() {
            let card = Card { suit, card_type };
            let text = card.to_string();
            assert_eq!(text.chars().count(), 2);
            assert_eq!(Card::from_str(&text), Ok(card));
        }
    }
}

#[test]
fn format_examples() {
    assert_eq!(Card { suit: Suit::Hearts, card_type: CardType::Ace }.to_string(), "♥A");
    assert_eq!(Card { suit: Suit::Tiles, card_type: CardType::Seven }.to_string(), "♦7");
    assert_eq!(Card { suit: Suit::Clovers, card_type: CardType::Jack }.to_string(), "♣J");
    assert_eq!(Card { suit: Suit::Pikes, card_type: CardType::King }.to_string(), "♠K");
}

#[test]
fn parse_examples() {
    assert_eq!(
        Card::from_str("♠Q"),
        Ok(Card { suit: Suit::Pikes, card_type: CardType::Queen })
    );
    assert_eq!(
        Card::from_str("♥2"),
        Ok(Card { suit: Suit::Hearts, card_type: CardType::Two })
    );
}

#[test]
fn parse_length_errors() {
    assert_eq!(Card::from_str(""), Err(CardStrErr::LengthErr(0)));
    assert_eq!(Card::from_str("♥"), Err(CardStrErr::LengthErr(1)));
    assert_eq!(Card::from_str("♥AK"), Err(CardStrErr::LengthErr(3)));
}

#[test]
fn parse_suit_error() {
    assert_eq!(Card::from_str("XA"), Err(CardStrErr::SuitErr('X')));
    assert_eq!(Card::from_str("A♥"), Err(CardStrErr::SuitErr('A')));
}

#[test]
fn parse_rank_error() {
    assert_eq!(Card::from_str("♥Z"), Err(CardStrErr::CardTypeErr('Z')));
    assert_eq!(Card::from_str("♦8"), Err(CardStrErr::CardTypeErr('8')));
}

#[test]
fn value_table() {
    let expected: Vec<usize> = vec![0, 2, 3, 4, 5, 6, 7, 8, 9, 10];
    for suit in suits() {
        for (card_type, want) in ranks().into_iter().zip(expected.iter()) {
            let card = Card { suit, card_type };
            assert_eq!(card.value(), *want);
        }
    }
}
