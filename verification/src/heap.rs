//! Drawing from a heap: one card picked at random leaves it, and the last
//! card takes its place.
use vstd::prelude::*;
use crate::cards::Card;
use crate::rng::{RngKeccak256, RngModel};

verus! {

/// The number that `rand::Rng::gen_range` returns for the range from zero up
/// to and excluding `high`, a 32-bit number, when it reads its words from a
/// generator in state `rng`.
pub uninterp spec fn uniform_below(rng: RngModel, high: u32) -> u32;

/// Picks a number below `high` with `rand::Rng::gen_range`, on the range from
/// zero up to and excluding `high`.
///
/// Trusted: the number lies in the range and is a function of the generator's
/// state and of `high`; and the sampler reads the generator one 32-bit word
/// at a time, at least one, each of which spends one block. An empty range is
/// left out, on which the sampler panics.
#[verifier::external_body]
fn gen_range(rng: &mut RngKeccak256, high: u32) -> (i: u32)
    requires
        high > 0,
    ensures
        i == uniform_below(old(rng)@, high),
        i < high,
        final(rng)@.follows(old(rng)@),
{
    rand::Rng::gen_range(rng, 0..high)
}

/// What is left of `heap` when the card at `i` is taken: the last card stands
/// at `i`, and the heap is one shorter.
pub open spec fn without(heap: Seq<Card>, i: int) -> Seq<Card> {
    heap.update(i, heap.last()).drop_last()
}

/// Taking a card moves it out of the heap and neither adds nor loses another.
pub proof fn lemma_without_keeps_cards(heap: Seq<Card>, i: int)
    requires
        0 <= i < heap.len(),
    ensures
        heap.to_multiset() == without(heap, i).to_multiset().insert(heap[i]),
{
    broadcast use vstd::multiset::group_multiset_axioms;

    let moved = heap.update(i, heap.last());
    let rest = without(heap, i);
    assert(moved.to_multiset() == heap.to_multiset().insert(heap.last()).remove(heap[i])) by {
        vstd::seq_lib::to_multiset_update(heap, i, heap.last());
    }
    assert(moved.to_multiset() == rest.to_multiset().insert(heap.last())) by {
        assert(rest.push(heap.last()) =~= moved);
        vstd::seq_lib::to_multiset_build(rest, heap.last());
    }
    assert(heap.to_multiset().count(heap[i]) > 0) by {
        heap.to_multiset_ensures();
        assert(heap.contains(heap[i]));
    }
    assert forall|c: Card|
        heap.to_multiset().count(c) == #[trigger] rest.to_multiset().insert(heap[i]).count(
            c,
        ) by {
        assert(moved.to_multiset().count(c) == rest.to_multiset().insert(heap.last()).count(c));
    }
    assert(heap.to_multiset() =~= rest.to_multiset().insert(heap[i]));
}

/// Takes the card at `i` out of `heap` by moving the last card into its
/// place.
pub fn take(heap: &mut Vec<Card>, i: usize) -> (card: Card)
    requires
        i < old(heap).len(),
    ensures
        card == old(heap)@[i as int],
        final(heap)@ == without(old(heap)@, i as int),
{
    let last_card = heap[heap.len() - 1];
    let card = heap[i];
    heap[i] = last_card;
    heap.pop();
    card
}

/// Draws one card from `heap`: the generator picks its place, uniformly among
/// the places of the heap, and the card leaves the heap as in `take`. The
/// generator has spent one block or more.
///
/// The place is picked as a 32-bit number, so that the same generator picks
/// the same card on every machine.
pub fn draw(rng: &mut RngKeccak256, heap: &mut Vec<Card>) -> (card: Card)
    requires
        0 < old(heap).len() <= u32::MAX,
    ensures
        ({
            let i = uniform_below(old(rng)@, old(heap).len() as u32) as int;
            &&& 0 <= i < old(heap).len()
            &&& card == old(heap)@[i]
            &&& final(heap)@ == without(old(heap)@, i)
        }),
        final(rng)@.follows(old(rng)@),
{
    let i = gen_range(rng, heap.len() as u32);
    take(heap, i as usize)
}

} // verus!
