//! Playing cards and the deck of fifty-two.
use vstd::prelude::*;
use vstd::multiset::Multiset;

verus! {

/// A card of the deck, a number below `N_CARDS`.
pub type Card = u8;

/// The number of cards in a deck.
pub const N_CARDS: u8 = 52;

/// The number of suits.
pub const N_FAMILIES: u8 = 4;

/// The number of ranks in a suit.
pub const N_VALUES: u8 = 13;

/// The rank of a card, by which rounds are decided: the card modulo the
/// number of ranks.
pub open spec fn spec_rank(card: Card) -> u8 {
    (card % 13) as u8
}

/// The suit of a card: the card divided by the number of ranks.
pub open spec fn spec_suit(card: Card) -> u8 {
    (card / 13) as u8
}

/// The rank of a card, by which rounds are decided.
#[verifier::when_used_as_spec(spec_rank)]
pub fn rank(card: Card) -> (r: u8)
    ensures
        r == spec_rank(card),
        r < N_VALUES,
{
    card % N_VALUES
}

/// The suit of a card. The cards of a deck have a suit below `N_FAMILIES`.
#[verifier::when_used_as_spec(spec_suit)]
pub fn suit(card: Card) -> (s: u8)
    ensures
        s == spec_suit(card),
        card < N_CARDS ==> s < N_FAMILIES,
{
    card / N_VALUES
}

/// The deck in the order in which a new game lays it out: card `i` at
/// position `i`.
pub open spec fn fresh_deck() -> Seq<Card> {
    Seq::new(52, |i: int| i as u8)
}

/// The cards of a deck, each once.
pub open spec fn full_deck() -> Multiset<Card> {
    fresh_deck().to_multiset()
}

/// A deck holds fifty-two cards: each card below `N_CARDS` once and no other.
pub proof fn lemma_full_deck()
    ensures
        full_deck().len() == 52,
        forall|c: Card| #[trigger]
            full_deck().count(c) == if c < 52 {
                1nat
            } else {
                0nat
            },
{
    let d = fresh_deck();
    d.to_multiset_ensures();
    assert(d.no_duplicates());
    d.lemma_multiset_has_no_duplicates();
    assert forall|c: Card| #[trigger]
        full_deck().count(c) == if c < 52 {
            1nat
        } else {
            0nat
        } by {
        if c < 52 {
            assert(d[c as int] == c);
            assert(d.contains(c));
        } else {
            assert(!d.contains(c));
        }
    }
}

} // verus!
