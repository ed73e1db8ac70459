//! The forty-card deck: a fixed array of cards with a draw cursor, and the
//! riffle-shuffle permutation of the undrawn suffix.

use vstd::prelude::*;
use vstd::seq_lib::*;
use crate::card::{Card, CardType, Suit};

verus! {

/// The canonical suit order of a fresh deck.
pub open spec fn suit_of_index(i: int) -> Suit {
    if i == 0 {
        Suit::Hearts
    } else if i == 1 {
        Suit::Tiles
    } else if i == 2 {
        Suit::Clovers
    } else {
        Suit::Pikes
    }
}

/// The canonical rank order of a fresh deck.
pub open spec fn rank_of_index(i: int) -> CardType {
    if i == 0 {
        CardType::Ace
    } else if i == 1 {
        CardType::Two
    } else if i == 2 {
        CardType::Three
    } else if i == 3 {
        CardType::Four
    } else if i == 4 {
        CardType::Five
    } else if i == 5 {
        CardType::Six
    } else if i == 6 {
        CardType::Seven
    } else if i == 7 {
        CardType::Jack
    } else if i == 8 {
        CardType::Queen
    } else {
        CardType::King
    }
}

pub open spec fn suit_index(suit: Suit) -> int {
    match suit {
        Suit::Hearts => 0,
        Suit::Tiles => 1,
        Suit::Clovers => 2,
        Suit::Pikes => 3,
    }
}

pub open spec fn rank_index(rank: CardType) -> int {
    match rank {
        CardType::Ace => 0,
        CardType::Two => 1,
        CardType::Three => 2,
        CardType::Four => 3,
        CardType::Five => 4,
        CardType::Six => 5,
        CardType::Seven => 6,
        CardType::Jack => 7,
        CardType::Queen => 8,
        CardType::King => 9,
    }
}

/// The card standing at a given slot of a fresh deck: suit-major,
/// rank-ascending.
pub open spec fn card_of_index(i: int) -> Card {
    Card { suit: suit_of_index(i / 10), card_type: rank_of_index(i % 10) }
}

/// The forty cards of a fresh deck, in canonical order.
pub open spec fn full_deck() -> Seq<Card> {
    Seq::new(40, |i: int| card_of_index(i))
}

/// A fixed array of forty cards and a cursor: the prefix before the cursor
/// has already been drawn, the suffix from the cursor on is still in the
/// deck.
pub struct Deck {
    cards: Vec<Card>,
    stack_head: usize,
}

impl Deck {
    /// The forty card slots, drawn prefix included.
    pub closed spec fn cards_view(&self) -> Seq<Card> {
        self.cards@
    }

    /// The cursor: how many cards have been drawn.
    pub closed spec fn head(&self) -> int {
        self.stack_head as int
    }

    pub open spec fn wf(&self) -> bool {
        self.cards_view().len() == 40 && 0 <= self.head() <= 40
    }

    /// The fresh deck: the forty cards in canonical order, nothing drawn.
    pub fn base_deck() -> (deck: Deck)
        ensures
            deck.wf(),
            deck.cards_view() == full_deck(),
            deck.head() == 0,
    {
        let mut cards: Vec<Card> = Vec::new();
        let mut i: usize = 0;
        while i < 40
            invariant
                i <= 40,
                cards@.len() == i,
                forall|j: int| 0 <= j < i ==> cards@[j] == card_of_index(j),
            decreases 40 - i,
        {
            let suit = suit_of_idx(i / 10);
            let card_type = rank_of_idx(i % 10);
            cards.push(Card { suit, card_type });
            i += 1;
        }
        proof {
            assert(cards@ =~= full_deck());
        }
        Deck { cards, stack_head: 0 }
    }

    /// A copy of the forty card slots, in deck order.
    pub fn iter(&self) -> (cards: Vec<Card>)
        ensures
            cards@ == self.cards_view(),
    {
        let mut out: Vec<Card> = Vec::new();
        let mut i: usize = 0;
        while i < self.cards.len()
            invariant
                i <= self.cards@.len(),
                out@ == self.cards@.subrange(0, i as int),
            decreases self.cards@.len() - i,
        {
            out.push(self.cards[i]);
            proof {
                assert(out@ =~= self.cards@.subrange(0, i + 1));
            }
            i += 1;
        }
        proof {
            assert(out@ =~= self.cards@);
        }
        out
    }

    /// Draws the card at the cursor and advances the cursor; yields nothing
    /// once all forty cards are drawn. The card slots themselves never
    /// change.
    pub fn draw(&mut self) -> (card: Option<Card>)
        requires
            old(self).wf(),
        ensures
            final(self).wf(),
            final(self).cards_view() == old(self).cards_view(),
            old(self).head() < 40 ==> card == Some(old(self).cards_view()[old(self).head()])
                && final(self).head() == old(self).head() + 1,
            old(self).head() == 40 ==> card is None && final(self).head() == old(self).head(),
    {
        if self.stack_head >= 40 {
            None
        } else {
            let card = self.cards[self.stack_head];
            self.stack_head += 1;
            Some(card)
        }
    }

    /// Steps the cursor back and overwrites the slot it lands on with the
    /// given card; with nothing drawn this is a silent no-op, so the
    /// shuffle can use `put` as a stack-push primitive without bounds
    /// checks.
    pub fn put(&mut self, card: Card)
        requires
            old(self).wf(),
        ensures
            final(self).wf(),
            old(self).head() > 0 ==> final(self).head() == old(self).head() - 1
                && final(self).cards_view() == old(self).cards_view().update(
                old(self).head() - 1,
                card,
            ),
            old(self).head() == 0 ==> final(self).head() == old(self).head()
                && final(self).cards_view() == old(self).cards_view(),
    {
        if self.stack_head > 0 {
            self.stack_head -= 1;
            self.cards.set(self.stack_head, card);
        }
    }
}

impl Deck {
    /// One riffle pass: splits the undrawn suffix at `split` and pushes the
    /// two slices back alternately with `put`, filling the slots from the
    /// top down. Only the undrawn suffix is reordered; the drawn prefix and
    /// the cursor are untouched.
    #[verifier::rlimit(100)]
    pub fn riffle_pass(&mut self, split: usize)
        requires
            old(self).wf(),
            old(self).head() <= split <= 40,
        ensures
            final(self).wf(),
            final(self).head() == old(self).head(),
            final(self).cards_view() == riffle_pass_result(
                old(self).cards_view(),
                old(self).head(),
                split as int,
            ),
            final(self).cards_view().to_multiset() == old(self).cards_view().to_multiset(),
            final(self).cards_view().take(old(self).head()) == old(self).cards_view().take(
                old(self).head(),
            ),
    {
        let ghost orig = self.cards@;
        let old_head = self.stack_head;
        let old_cards = self.iter();
        self.stack_head = 40;
        let mut p1: usize = old_head;
        let mut p2: usize = split;
        let ghost mut pushed: Seq<Card> = Seq::empty();
        proof {
            assert(self.cards@ =~= orig.take(40) + pushed.reverse());
        }
        while p1 < split || p2 < 40
            invariant
                orig.len() == 40,
                old_cards@ == orig,
                old_head <= split <= 40,
                old_head <= p1 <= split,
                split <= p2 <= 40,
                self.cards@.len() == 40,
                pushed.len() == (p1 - old_head) + (p2 - split),
                self.stack_head as int == 40 - pushed.len(),
                self.cards@ == orig.take(self.stack_head as int) + pushed.reverse(),
                riffle_interleave(
                    orig.subrange(split as int, 40),
                    orig.subrange(old_head as int, split as int),
                ) == pushed + riffle_interleave(
                    orig.subrange(p2 as int, 40),
                    orig.subrange(p1 as int, split as int),
                ),
            decreases (split - p1) + (40 - p2),
        {
            let ghost back_rem = orig.subrange(p2 as int, 40);
            let ghost front_rem = orig.subrange(p1 as int, split as int);
            if p2 < 40 {
                let card = old_cards[p2];
                proof {
                    assert(back_rem[0] == card);
                    assert(back_rem.skip(1) =~= orig.subrange(p2 + 1, 40));
                    assert(pushed + (seq![card] + riffle_front_next(
                        orig.subrange(p2 + 1, 40),
                        front_rem,
                    )) =~= pushed.push(card) + riffle_front_next(
                        orig.subrange(p2 + 1, 40),
                        front_rem,
                    ));
                }
                self.put(card);
                proof {
                    let head = self.stack_head as int;
                    assert(pushed.push(card).reverse() =~= seq![card] + pushed.reverse());
                    assert(self.cards@ =~= orig.take(head) + pushed.push(card).reverse());
                    pushed = pushed.push(card);
                }
                p2 += 1;
            } else {
                proof {
                    assert(riffle_interleave(back_rem, front_rem) =~= riffle_front_next(
                        back_rem,
                        front_rem,
                    ));
                }
            }
            let ghost back_mid = orig.subrange(p2 as int, 40);
            // here the remaining push order is `riffle_front_next(back_mid, front_rem)`
            if p1 < split {
                let card = old_cards[p1];
                proof {
                    assert(front_rem[0] == card);
                    assert(front_rem.skip(1) =~= orig.subrange(p1 + 1, split as int));
                    assert(pushed + (seq![card] + riffle_interleave(
                        back_mid,
                        orig.subrange(p1 + 1, split as int),
                    )) =~= pushed.push(card) + riffle_interleave(
                        back_mid,
                        orig.subrange(p1 + 1, split as int),
                    ));
                }
                self.put(card);
                proof {
                    let head = self.stack_head as int;
                    assert(pushed.push(card).reverse() =~= seq![card] + pushed.reverse());
                    assert(self.cards@ =~= orig.take(head) + pushed.push(card).reverse());
                    pushed = pushed.push(card);
                }
                p1 += 1;
            } else {
                proof {
                    assert(riffle_front_next(back_mid, front_rem) =~= riffle_interleave(
                        back_mid,
                        front_rem,
                    ));
                }
            }
        }
        self.stack_head = old_head;
        proof {
            let back = orig.subrange(split as int, 40);
            let front = orig.subrange(old_head as int, split as int);
            assert(riffle_interleave(orig.subrange(40, 40), orig.subrange(split as int, split as int))
                =~= Seq::<Card>::empty());
            assert(pushed + Seq::<Card>::empty() =~= pushed);
            assert(self.cards@ == orig.take(old_head as int) + riffle_interleave(
                back,
                front,
            ).reverse());
            lemma_riffle_pass_permutes(orig, old_head as int, split as int);
        }
    }

    /// Applies `iterations` riffle passes, each splitting the undrawn
    /// suffix at a point drawn from the given generator. The reordering
    /// stays within the undrawn suffix: the drawn prefix, the cursor, and
    /// the multiset of all forty cards never change, and zero iterations
    /// change nothing at all.
    pub fn shuffle_with(&mut self, rng: &mut rand::rngs::StdRng, iterations: usize)
        requires
            old(self).wf(),
        ensures
            final(self).wf(),
            final(self).head() == old(self).head(),
            final(self).cards_view().to_multiset() == old(self).cards_view().to_multiset(),
            final(self).cards_view().take(old(self).head()) == old(self).cards_view().take(
                old(self).head(),
            ),
            iterations == 0 ==> final(self).cards_view() == old(self).cards_view(),
    {
        let mut done: usize = 0;
        while done < iterations
            invariant
                done <= iterations,
                self.wf(),
                self.head() == old(self).head(),
                self.cards_view().to_multiset() == old(self).cards_view().to_multiset(),
                self.cards_view().take(old(self).head()) == old(self).cards_view().take(
                    old(self).head(),
                ),
                done == 0 ==> self.cards_view() == old(self).cards_view(),
            decreases iterations - done,
        {
            if self.stack_head < 40 {
                let bound = 40 - self.stack_head;
                let offset = rand_below(rng, bound);
                let split = self.stack_head + offset;
                self.riffle_pass(split);
            }
            done += 1;
        }
    }

    /// As `shuffle_with`, with a generator freshly seeded from the
    /// operating system.
    pub fn shuffle(&mut self, iterations: usize)
        requires
            old(self).wf(),
        ensures
            final(self).wf(),
            final(self).head() == old(self).head(),
            final(self).cards_view().to_multiset() == old(self).cards_view().to_multiset(),
            final(self).cards_view().take(old(self).head()) == old(self).cards_view().take(
                old(self).head(),
            ),
            iterations == 0 ==> final(self).cards_view() == old(self).cards_view(),
    {
        let mut rng = entropy_rng();
        self.shuffle_with(&mut rng, iterations)
    }

    /// A fresh deck put through ten riffle passes: it still holds exactly
    /// the forty canonical cards, with nothing drawn.
    pub fn shuffle_new() -> (deck: Deck)
        ensures
            deck.wf(),
            deck.head() == 0,
            deck.cards_view().to_multiset() == full_deck().to_multiset(),
    {
        let mut deck = Deck::base_deck();
        deck.shuffle(10);
        deck
    }
}

#[verifier::external_type_specification]
#[verifier::external_body]
pub struct ExStdRng(rand::rngs::StdRng);

/// Relies on rand's `StdRng::from_entropy`: a generator freshly seeded
/// from the operating system's entropy source.
#[verifier::external_body]
pub(crate) fn entropy_rng() -> rand::rngs::StdRng {
    <rand::rngs::StdRng as rand::SeedableRng>::from_entropy()
}

/// Relies on rand's `Rng::gen_range` over `0..bound`: it returns a value
/// of the range, and panics only when the range is empty, which the
/// precondition rules out.
#[verifier::external_body]
pub(crate) fn rand_below(rng: &mut rand::rngs::StdRng, bound: usize) -> (r: usize)
    requires
        bound >= 1,
    ensures
        r < bound,
{
    rand::Rng::gen_range(rng, 0..bound)
}

fn suit_of_idx(i: usize) -> (suit: Suit)
    ensures
        suit == suit_of_index(i as int),
{
    if i == 0 {
        Suit::Hearts
    } else if i == 1 {
        Suit::Tiles
    } else if i == 2 {
        Suit::Clovers
    } else {
        Suit::Pikes
    }
}

fn rank_of_idx(i: usize) -> (rank: CardType)
    ensures
        rank == rank_of_index(i as int),
{
    if i == 0 {
        CardType::Ace
    } else if i == 1 {
        CardType::Two
    } else if i == 2 {
        CardType::Three
    } else if i == 3 {
        CardType::Four
    } else if i == 4 {
        CardType::Five
    } else if i == 5 {
        CardType::Six
    } else if i == 6 {
        CardType::Seven
    } else if i == 7 {
        CardType::Jack
    } else if i == 8 {
        CardType::Queen
    } else {
        CardType::King
    }
}

/// Distinct slots of the fresh deck hold distinct cards.
pub proof fn lemma_card_of_index_injective(i: int, j: int)
    requires
        0 <= i < 40,
        0 <= j < 40,
        card_of_index(i) == card_of_index(j),
    ensures
        i == j,
{
    assert(i == 10 * (i / 10) + (i % 10));
    assert(j == 10 * (j / 10) + (j % 10));
}

/// The fresh deck holds every suit–rank combination exactly once: no
/// duplicates and no omissions among its forty cards.
pub proof fn lemma_full_deck_complete(suit: Suit, rank: CardType)
    ensures
        full_deck().to_multiset().count(Card { suit, card_type: rank }) == 1,
{
    broadcast use vstd::seq_lib::group_to_multiset_ensures;

    let card = Card { suit, card_type: rank };
    let idx = 10 * suit_index(suit) + rank_index(rank);
    assert(full_deck()[idx] == card);
    assert(full_deck().contains(card));
    assert(full_deck().no_duplicates()) by {
        assert forall|i: int, j: int|
            0 <= i < 40 && 0 <= j < 40 && i != j implies full_deck()[i] != full_deck()[j] by {
            if full_deck()[i] == full_deck()[j] {
                lemma_card_of_index_injective(i, j);
            }
        }
    }
    full_deck().lemma_multiset_has_no_duplicates();
}

/// The order in which a riffle pass pushes cards back onto the deck:
/// alternately one card of the back slice and one of the front slice,
/// starting with the back slice, until both are exhausted. Once one slice
/// runs out the other is pushed on its own.
pub open spec fn riffle_interleave(back: Seq<Card>, front: Seq<Card>) -> Seq<Card>
    decreases back.len() + front.len(),
{
    if back.len() > 0 {
        seq![back[0]] + riffle_front_next(back.skip(1), front)
    } else {
        front
    }
}

/// The push order from the point where the back slice has just yielded a
/// card and the front slice is next.
pub open spec fn riffle_front_next(back: Seq<Card>, front: Seq<Card>) -> Seq<Card>
    decreases back.len() + front.len(),
{
    if front.len() > 0 {
        seq![front[0]] + riffle_interleave(back, front.skip(1))
    } else {
        back
    }
}

/// Interleaving two slices keeps exactly their cards: the result's length
/// and multiset are those of the two slices together.
pub proof fn lemma_riffle_interleave_multiset(back: Seq<Card>, front: Seq<Card>)
    ensures
        riffle_interleave(back, front).len() == back.len() + front.len(),
        riffle_interleave(back, front).to_multiset() == back.to_multiset().add(
            front.to_multiset(),
        ),
        riffle_front_next(back, front).len() == back.len() + front.len(),
        riffle_front_next(back, front).to_multiset() == back.to_multiset().add(
            front.to_multiset(),
        ),
    decreases back.len() + front.len(),
{
    broadcast use vstd::seq_lib::group_to_multiset_ensures;
    broadcast use vstd::multiset::group_multiset_axioms;

    if back.len() > 0 {
        lemma_riffle_interleave_multiset(back.skip(1), front);
        lemma_multiset_commutative(seq![back[0]], riffle_front_next(back.skip(1), front));
        assert(seq![back[0]] + back.skip(1) =~= back);
        lemma_multiset_commutative(seq![back[0]], back.skip(1));
        assert(riffle_interleave(back, front).to_multiset() =~= back.to_multiset().add(
            front.to_multiset(),
        ));
    }
    if front.len() > 0 {
        lemma_riffle_interleave_multiset(back, front.skip(1));
        lemma_multiset_commutative(seq![front[0]], riffle_interleave(back, front.skip(1)));
        assert(seq![front[0]] + front.skip(1) =~= front);
        lemma_multiset_commutative(seq![front[0]], front.skip(1));
        assert(riffle_front_next(back, front).to_multiset() =~= back.to_multiset().add(
            front.to_multiset(),
        ));
    }
}

/// What one riffle pass leaves in the deck's slots: the drawn prefix
/// untouched, and above it the two slices of the undrawn suffix
/// interleaved, written top-down by the `put` stack primitive.
pub open spec fn riffle_pass_result(cards: Seq<Card>, cursor: int, split: int) -> Seq<Card> {
    cards.take(cursor) + riffle_interleave(
        cards.subrange(split, 40),
        cards.subrange(cursor, split),
    ).reverse()
}

/// A riffle pass permutes the undrawn suffix in place: the drawn prefix
/// keeps its order and the whole deck keeps its multiset of cards.
pub proof fn lemma_riffle_pass_permutes(cards: Seq<Card>, cursor: int, split: int)
    requires
        cards.len() == 40,
        0 <= cursor <= split <= 40,
    ensures
        riffle_pass_result(cards, cursor, split).len() == 40,
        riffle_pass_result(cards, cursor, split).to_multiset() == cards.to_multiset(),
        riffle_pass_result(cards, cursor, split).take(cursor) == cards.take(cursor),
{
    broadcast use vstd::multiset::group_multiset_axioms;

    let back = cards.subrange(split, 40);
    let front = cards.subrange(cursor, split);
    let pushed = riffle_interleave(back, front);
    lemma_riffle_interleave_multiset(back, front);
    pushed.lemma_reverse_to_multiset();
    let result = riffle_pass_result(cards, cursor, split);
    assert(result.take(cursor) =~= cards.take(cursor));
    lemma_multiset_commutative(cards.take(cursor), pushed.reverse());
    assert(cards =~= cards.take(cursor) + front + back);
    lemma_multiset_commutative(cards.take(cursor) + front, back);
    lemma_multiset_commutative(cards.take(cursor), front);
    assert(result.to_multiset() =~= cards.to_multiset());
}

/// Deck integrity: overwriting a slot with the very card already standing
/// there — as `put` does when handed back the card that `draw` last
/// returned — never changes the multiset of the deck's cards. Since `draw`
/// moves only the cursor and `shuffle` ensures multiset equality outright,
/// any sequence of such calls keeps the original forty cards intact.
pub proof fn lemma_put_back_preserves_cards(cards: Seq<Card>, i: int)
    requires
        0 <= i < cards.len(),
    ensures
        cards.update(i, cards[i]).to_multiset() == cards.to_multiset(),
{
    assert(cards.update(i, cards[i]) =~= cards);
}

} // verus!
