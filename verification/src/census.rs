//! Checking cards against the deck: that no card is foreign to it, none is
//! there twice, and none is missing.
use vstd::prelude::*;
use vstd::multiset::Multiset;
use crate::cards::{Card, N_CARDS, full_deck, lemma_full_deck};

verus! {

/// Whether `seen` tells for every card of the deck whether `cards` holds
/// it, where `cards` holds no card that the deck lacks and no card twice.
pub open spec fn tallies(seen: Seq<bool>, cards: Multiset<Card>) -> bool {
    &&& seen.len() == 52
    &&& cards.subset_of(full_deck())
    &&& forall|c: Card| c < 52 ==> (#[trigger] seen[c as int] <==> cards.count(c) == 1)
}

/// A multiset that holds another one that goes beyond the deck goes beyond
/// the deck too.
pub proof fn lemma_beyond_deck(part: Multiset<Card>, rest: Multiset<Card>)
    requires
        !part.subset_of(full_deck()),
    ensures
        !part.add(rest).subset_of(full_deck()),
{
    broadcast use vstd::multiset::group_multiset_axioms;

    let c = choose|c: Card| !(part.count(c) <= full_deck().count(c));
    assert(part.add(rest).count(c) >= part.count(c));
}

/// Cards that lie within the deck and lack none of its cards are the deck.
pub proof fn lemma_tally_complete(seen: Seq<bool>, cards: Multiset<Card>)
    requires
        tallies(seen, cards),
    ensures
        cards == full_deck() <==> forall|c: Card| c < 52 ==> seen[c as int],
{
    broadcast use vstd::multiset::group_multiset_axioms;

    lemma_full_deck();
    if forall|c: Card| c < 52 ==> seen[c as int] {
        assert forall|c: Card| cards.count(c) == full_deck().count(c) by {
            if c < 52 {
                assert(seen[c as int]);
            }
        }
        assert(cards =~= full_deck());
    }
}

/// A tally in which no card is seen yet.
pub(crate) fn empty_tally() -> (seen: [bool; 52])
    ensures
        tallies(seen@, Multiset::empty()),
{
    broadcast use vstd::multiset::group_multiset_axioms;

    let seen = [false; 52];
    proof {
        lemma_full_deck();
    }
    seen
}

/// Enters `cards` in the tally `seen`. Returns whether the cards tallied so
/// far, `cards` among them, lie within the deck; the tally is good for
/// nothing more where they do not.
pub(crate) fn tally(cards: &Vec<Card>, seen: &mut [bool; 52], Ghost(so_far): Ghost<Multiset<Card>>) -> (ok:
    bool)
    requires
        tallies(old(seen)@, so_far),
    ensures
        ok <==> so_far.add(cards@.to_multiset()).subset_of(full_deck()),
        ok ==> tallies(final(seen)@, so_far.add(cards@.to_multiset())),
{
    broadcast use vstd::multiset::group_multiset_axioms;

    proof {
        lemma_full_deck();
    }
    let mut j: usize = 0;
    assert(cards@.take(0) =~= Seq::<Card>::empty());
    assert(so_far.add(cards@.take(0).to_multiset()) =~= so_far) by {
        vstd::seq_lib::to_multiset_len(cards@.take(0));
        vstd::multiset::lemma_multiset_empty_len(cards@.take(0).to_multiset());
    }
    while j < cards.len()
        invariant
            j <= cards@.len(),
            tallies(seen@, so_far.add(cards@.take(j as int).to_multiset())),
            forall|c: Card| #[trigger] full_deck().count(c) == if c < 52 { 1nat } else { 0nat },
        decreases cards@.len() - j,
    {
        let card = cards[j];
        let ghost before = so_far.add(cards@.take(j as int).to_multiset());
        let ghost after = so_far.add(cards@.take(j + 1).to_multiset());
        proof {
            assert(cards@.take(j + 1) =~= cards@.take(j as int).push(card));
            vstd::seq_lib::to_multiset_build(cards@.take(j as int), card);
            assert(after =~= before.insert(card));
            assert(cards@ =~= cards@.take(j + 1) + cards@.skip(j + 1));
            vstd::seq_lib::lemma_multiset_commutative(cards@.take(j + 1), cards@.skip(j + 1));
            assert(so_far.add(cards@.to_multiset()) =~= after.add(
                cards@.skip(j + 1).to_multiset(),
            ));
        }
        if card >= N_CARDS || seen[card as usize] {
            proof {
                assert(after.count(card) > full_deck().count(card));
                lemma_beyond_deck(after, cards@.skip(j + 1).to_multiset());
            }
            return false;
        }
        seen[card as usize] = true;
        proof {
            assert forall|c: Card| c < 52 implies (#[trigger] seen@[c as int] <==> after.count(c)
                == 1) by {
                if c != card {
                    assert(after.count(c) == before.count(c));
                }
            }
        }
        j += 1;
    }
    assert(cards@.take(j as int) =~= cards@);
    true
}

/// Whether the tally has seen every card of the deck.
pub(crate) fn tally_is_full(seen: &[bool; 52], Ghost(so_far): Ghost<Multiset<Card>>) -> (full: bool)
    requires
        tallies(seen@, so_far),
    ensures
        full <==> so_far == full_deck(),
{
    let mut c: u8 = 0;
    while c < N_CARDS
        invariant
            c <= N_CARDS,
            tallies(seen@, so_far),
            forall|d: Card| d < c ==> seen@[d as int],
        decreases N_CARDS - c,
    {
        if !seen[c as usize] {
            proof {
                lemma_tally_complete(seen@, so_far);
            }
            return false;
        }
        c += 1;
    }
    proof {
        lemma_tally_complete(seen@, so_far);
    }
    true
}

} // verus!
