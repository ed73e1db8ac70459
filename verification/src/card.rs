//! The card model: suits, ranks, numeric values, and the two-character
//! textual form (one suit glyph followed by one rank glyph).

use vstd::prelude::*;
use vstd::string::StrSliceExecFns;
use vstd::string::StringExecFns;

verus! {

#[derive(Copy, Clone, PartialEq, Eq, Structural, Debug)]
pub enum Suit {
    Hearts,
    Tiles,
    Clovers,
    Pikes,
}

#[derive(Copy, Clone, PartialEq, Eq, Structural, Debug)]
pub enum CardType {
    Ace,
    Two,
    Three,
    Four,
    Five,
    Six,
    Seven,
    Jack,
    Queen,
    King,
}

#[derive(Copy, Clone, PartialEq, Eq, Structural, Debug)]
pub struct Card {
    pub suit: Suit,
    pub card_type: CardType,
}

/// Errors of the textual card form: a length other than two characters,
/// an unknown suit glyph, or an unknown rank glyph. `IterErr` is kept for
/// API compatibility; `from_str` never returns it.
#[derive(Copy, Clone, PartialEq, Eq, Structural, Debug)]
pub enum CardStrErr {
    LengthErr(usize),
    SuitErr(char),
    CardTypeErr(char),
    IterErr,
}

pub open spec fn suit_glyph(suit: Suit) -> char {
    match suit {
        Suit::Hearts => '♥',
        Suit::Tiles => '♦',
        Suit::Clovers => '♣',
        Suit::Pikes => '♠',
    }
}

pub open spec fn suit_of_glyph(c: char) -> Option<Suit> {
    match c {
        '♥' => Some(Suit::Hearts),
        '♦' => Some(Suit::Tiles),
        '♣' => Some(Suit::Clovers),
        '♠' => Some(Suit::Pikes),
        _ => None,
    }
}

pub open spec fn rank_glyph(rank: CardType) -> char {
    match rank {
        CardType::Ace => 'A',
        CardType::Two => '2',
        CardType::Three => '3',
        CardType::Four => '4',
        CardType::Five => '5',
        CardType::Six => '6',
        CardType::Seven => '7',
        CardType::Jack => 'J',
        CardType::Queen => 'Q',
        CardType::King => 'K',
    }
}

pub open spec fn rank_of_glyph(c: char) -> Option<CardType> {
    match c {
        'A' => Some(CardType::Ace),
        '2' => Some(CardType::Two),
        '3' => Some(CardType::Three),
        '4' => Some(CardType::Four),
        '5' => Some(CardType::Five),
        '6' => Some(CardType::Six),
        '7' => Some(CardType::Seven),
        'J' => Some(CardType::Jack),
        'Q' => Some(CardType::Queen),
        'K' => Some(CardType::King),
        _ => None,
    }
}

/// The fixed numeric value of each rank: the Ace counts zero (its capture
/// power comes from its own rule, not from its value), Two through Seven
/// count face value, and Jack, Queen, King count 8, 9, 10.
pub open spec fn rank_value(rank: CardType) -> int {
    match rank {
        CardType::Ace => 0,
        CardType::Two => 2,
        CardType::Three => 3,
        CardType::Four => 4,
        CardType::Five => 5,
        CardType::Six => 6,
        CardType::Seven => 7,
        CardType::Jack => 8,
        CardType::Queen => 9,
        CardType::King => 10,
    }
}

/// Every rank's value lies between 0 and 10.
pub proof fn lemma_rank_value_bounds(rank: CardType)
    ensures
        0 <= rank_value(rank) <= 10,
{
}

/// The two-character textual form of a card.
pub open spec fn format_chars(card: Card) -> Seq<char> {
    seq![suit_glyph(card.suit), rank_glyph(card.card_type)]
}

/// What parsing a character sequence yields: a card when the input is a
/// suit glyph followed by a rank glyph, and otherwise the error naming the
/// first offending aspect (length first, then suit, then rank).
pub open spec fn parse_chars(s: Seq<char>) -> Result<Card, CardStrErr> {
    if s.len() != 2 {
        Result::Err(CardStrErr::LengthErr(s.len() as usize))
    } else {
        match suit_of_glyph(s[0]) {
            Option::Some(suit) => match rank_of_glyph(s[1]) {
                Option::Some(card_type) => Result::Ok(Card { suit, card_type }),
                Option::None => Result::Err(CardStrErr::CardTypeErr(s[1])),
            },
            Option::None => Result::Err(CardStrErr::SuitErr(s[0])),
        }
    }
}

fn char_to_suit(c: char) -> (r: Option<Suit>)
    ensures
        r == suit_of_glyph(c),
{
    match c {
        '♥' => Some(Suit::Hearts),
        '♦' => Some(Suit::Tiles),
        '♣' => Some(Suit::Clovers),
        '♠' => Some(Suit::Pikes),
        _ => None,
    }
}

fn char_to_card(c: char) -> (r: Option<CardType>)
    ensures
        r == rank_of_glyph(c),
{
    match c {
        'A' => Some(CardType::Ace),
        '2' => Some(CardType::Two),
        '3' => Some(CardType::Three),
        '4' => Some(CardType::Four),
        '5' => Some(CardType::Five),
        '6' => Some(CardType::Six),
        '7' => Some(CardType::Seven),
        'J' => Some(CardType::Jack),
        'Q' => Some(CardType::Queen),
        'K' => Some(CardType::King),
        _ => None,
    }
}

fn card_value(rank: &CardType) -> (v: usize)
    ensures
        v == rank_value(*rank),
{
    match rank {
        CardType::Ace => 0,
        CardType::Two => 2,
        CardType::Three => 3,
        CardType::Four => 4,
        CardType::Five => 5,
        CardType::Six => 6,
        CardType::Seven => 7,
        CardType::Jack => 8,
        CardType::Queen => 9,
        CardType::King => 10,
    }
}

fn suit_str(suit: &Suit) -> (s: &'static str)
    ensures
        s@ == seq![suit_glyph(*suit)],
{
    match suit {
        Suit::Hearts => {
            let s = "♥";
            proof {
                reveal_strlit("♥");
                assert(s@ =~= seq![suit_glyph(Suit::Hearts)]);
            }
            s
        },
        Suit::Tiles => {
            let s = "♦";
            proof {
                reveal_strlit("♦");
                assert(s@ =~= seq![suit_glyph(Suit::Tiles)]);
            }
            s
        },
        Suit::Clovers => {
            let s = "♣";
            proof {
                reveal_strlit("♣");
                assert(s@ =~= seq![suit_glyph(Suit::Clovers)]);
            }
            s
        },
        Suit::Pikes => {
            let s = "♠";
            proof {
                reveal_strlit("♠");
                assert(s@ =~= seq![suit_glyph(Suit::Pikes)]);
            }
            s
        },
    }
}

fn rank_str(rank: &CardType) -> (s: &'static str)
    ensures
        s@ == seq![rank_glyph(*rank)],
{
    match rank {
        CardType::Ace => {
            let s = "A";
            proof {
                reveal_strlit("A");
                assert(s@ =~= seq![rank_glyph(CardType::Ace)]);
            }
            s
        },
        CardType::Two => {
            let s = "2";
            proof {
                reveal_strlit("2");
                assert(s@ =~= seq![rank_glyph(CardType::Two)]);
            }
            s
        },
        CardType::Three => {
            let s = "3";
            proof {
                reveal_strlit("3");
                assert(s@ =~= seq![rank_glyph(CardType::Three)]);
            }
            s
        },
        CardType::Four => {
            let s = "4";
            proof {
                reveal_strlit("4");
                assert(s@ =~= seq![rank_glyph(CardType::Four)]);
            }
            s
        },
        CardType::Five => {
            let s = "5";
            proof {
                reveal_strlit("5");
                assert(s@ =~= seq![rank_glyph(CardType::Five)]);
            }
            s
        },
        CardType::Six => {
            let s = "6";
            proof {
                reveal_strlit("6");
                assert(s@ =~= seq![rank_glyph(CardType::Six)]);
            }
            s
        },
        CardType::Seven => {
            let s = "7";
            proof {
                reveal_strlit("7");
                assert(s@ =~= seq![rank_glyph(CardType::Seven)]);
            }
            s
        },
        CardType::Jack => {
            let s = "J";
            proof {
                reveal_strlit("J");
                assert(s@ =~= seq![rank_glyph(CardType::Jack)]);
            }
            s
        },
        CardType::Queen => {
            let s = "Q";
            proof {
                reveal_strlit("Q");
                assert(s@ =~= seq![rank_glyph(CardType::Queen)]);
            }
            s
        },
        CardType::King => {
            let s = "K";
            proof {
                reveal_strlit("K");
                assert(s@ =~= seq![rank_glyph(CardType::King)]);
            }
            s
        },
    }
}

impl Card {
    /// The card's numeric value per its rank.
    pub fn value(&self) -> (v: usize)
        ensures
            v == rank_value(self.card_type),
    {
        card_value(&self.card_type)
    }

    /// The two-character textual form: suit glyph, then rank glyph.
    pub fn to_string(&self) -> (s: String)
        ensures
            s@ == format_chars(*self),
    {
        let head = String::from_str(suit_str(&self.suit));
        let s = head.concat(rank_str(&self.card_type));
        proof {
            assert(s@ =~= format_chars(*self));
        }
        s
    }

    /// Parses the two-character textual form back into a card.
    pub fn from_str(s: &str) -> (r: Result<Card, CardStrErr>)
        ensures
            r == parse_chars(s@),
    {
        let len = s.unicode_len();
        if len != 2 {
            Err(CardStrErr::LengthErr(len))
        } else {
            let suit_char = s.get_char(0);
            match char_to_suit(suit_char) {
                Some(suit) => {
                    let type_char = s.get_char(1);
                    match char_to_card(type_char) {
                        Some(card_type) => Ok(Card { suit, card_type }),
                        None => Err(CardStrErr::CardTypeErr(type_char)),
                    }
                },
                None => Err(CardStrErr::SuitErr(suit_char)),
            }
        }
    }
}

/// Round trip: formatting any card and parsing the result yields the card
/// back.
pub proof fn lemma_parse_format_round_trip(card: Card)
    ensures
        parse_chars(format_chars(card)) == Result::<Card, CardStrErr>::Ok(card),
{
    let s = format_chars(card);
    assert(s.len() == 2);
    assert(suit_of_glyph(s[0]) == Option::Some(card.suit));
    assert(rank_of_glyph(s[1]) == Option::Some(card.card_type));
}

} // verus!
