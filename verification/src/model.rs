//! The game as a mathematical object: what a game holds, which games are
//! valid, and what each move makes of a game.
use vstd::prelude::*;
use vstd::multiset::Multiset;
use crate::address::zero_address;
use crate::beacon::{round_at, round_start, GENESIS_TIME};
use crate::cards::{Card, fresh_deck, full_deck, lemma_full_deck, spec_rank};
use crate::errors::GameError;
use crate::heap::{lemma_without_keeps_cards, uniform_below, without};
use crate::rng::RngModel;

verus! {

/// What a player holds.
pub struct PlayerView {
    /// The account that plays.
    pub owner: Seq<u8>,
    /// The player's own cards that are not drawn yet.
    pub heap: Seq<Card>,
    /// The cards the player has shown, oldest first.
    pub revealed_cards: Seq<Card>,
}

impl PlayerView {
    /// A player who has just come to the table, with no card.
    pub open spec fn joined(owner: Seq<u8>) -> PlayerView {
        PlayerView { owner, heap: Seq::empty(), revealed_cards: Seq::empty() }
    }

    /// All cards with the player, shown or not.
    pub open spec fn cards(self) -> Multiset<Card> {
        self.heap.to_multiset().add(self.revealed_cards.to_multiset())
    }
}

/// All cards with the players.
pub open spec fn held(players: Seq<PlayerView>) -> Multiset<Card>
    decreases players.len(),
{
    if players.len() == 0 {
        Multiset::empty()
    } else {
        held(players.drop_last()).add(players.last().cards())
    }
}

/// The number of cards in the players' own heaps.
pub open spec fn heap_total(players: Seq<PlayerView>) -> nat
    decreases players.len(),
{
    if players.len() == 0 {
        0
    } else {
        heap_total(players.drop_last()) + players.last().heap.len()
    }
}

/// The number of cards the players have shown.
pub open spec fn revealed_total(players: Seq<PlayerView>) -> nat
    decreases players.len(),
{
    if players.len() == 0 {
        0
    } else {
        revealed_total(players.drop_last()) + players.last().revealed_cards.len()
    }
}

/// What a game holds.
pub struct GameView {
    /// The heap all players draw from while it lasts.
    pub common_heap: Seq<Card>,
    /// The players in the order in which they joined.
    pub players: Seq<PlayerView>,
    /// The players that still take turns, by their place in `players`, in the
    /// order of their turns.
    pub active_players: Seq<u64>,
    /// The place in `active_players` of the player whose turn it is.
    pub current_player_index: u64,
    /// Whether the game has started.
    pub started: bool,
    /// Whether a tie is pending.
    pub bataille: bool,
    /// The round of the beacon that the next draw has to prove.
    pub next_round: u64,
    /// The two accounts of a pending tie.
    pub players_bataille: Seq<Seq<u8>>,
    /// The player who won the last round that was played out, by the place
    /// in `players`.
    pub round_winner: Option<u64>,
}

impl GameView {
    /// The game that `creator` has just opened: the whole deck in the common
    /// heap, the creator as the only player.
    pub open spec fn created(creator: Seq<u8>) -> GameView {
        GameView {
            common_heap: fresh_deck(),
            players: seq![PlayerView::joined(creator)],
            active_players: seq![0u64],
            current_player_index: 0,
            started: false,
            bataille: false,
            next_round: 0,
            players_bataille: seq![zero_address(), zero_address()],
            round_winner: None,
        }
    }

    /// All cards of the game, wherever they lie.
    pub open spec fn cards(self) -> Multiset<Card> {
        self.common_heap.to_multiset().add(held(self.players))
    }

    /// The active player at place `k` of the turn order.
    pub open spec fn active(self, k: int) -> PlayerView {
        self.players[self.active_players[k] as int]
    }

    /// Whether the game is valid: its cards are the deck, each card once;
    /// the turn order names players of the game; the turn is with one of
    /// them; and who has had a turn in the running round has shown a card.
    /// Players and places are counted in 64 bits.
    pub open spec fn wf(self) -> bool {
        &&& self.cards() == full_deck()
        &&& self.players.len() <= u64::MAX
        &&& 1 <= self.active_players.len() <= u64::MAX
        &&& forall|k: int|
            0 <= k < self.active_players.len() ==> #[trigger] self.active_players[k]
                < self.players.len()
        &&& self.current_player_index < self.active_players.len()
        &&& forall|k: int|
            0 <= k < self.current_player_index ==> (#[trigger] self.active(
                k,
            )).revealed_cards.len() > 0
        &&& self.players_bataille.len() == 2
        &&& self.round_winner matches Some(w) ==> w < self.players.len()
    }

    /// The place in `players` of the player whose turn it is.
    pub open spec fn drawer(self) -> int {
        self.active_players[self.current_player_index as int] as int
    }

    /// Whether it is the turn of the account `sender`.
    pub open spec fn in_turn(self, sender: Seq<u8>) -> bool {
        self.players[self.drawer()].owner == sender
    }

    /// The heap the next card comes from: the common heap while it has
    /// cards, then the own heap of the player whose turn it is.
    pub open spec fn source(self) -> Seq<Card> {
        if self.common_heap.len() > 0 {
            self.common_heap
        } else {
            self.players[self.drawer()].heap
        }
    }

    /// The place in the source heap of the card that a draw with the
    /// signature `signature` takes: the sampler's pick from the generator
    /// seeded with the signature.
    pub open spec fn pick(self, signature: Seq<u8>) -> int {
        uniform_below(RngModel::seeded(signature), self.source().len() as u32) as int
    }

    /// The game after the account `sender` has joined.
    pub open spec fn after_join(self, sender: Seq<u8>) -> GameView {
        GameView {
            players: self.players.push(PlayerView::joined(sender)),
            active_players: self.active_players.push(self.players.len() as u64),
            ..self
        }
    }

    /// The game after it was started at time `now`.
    pub open spec fn after_start(self, now: u64) -> GameView {
        GameView { started: true, next_round: round_at(now as int) as u64, ..self }
    }

    /// The game after the card at place `i` of the source heap has gone to
    /// the shown cards of the player whose turn it is. The turn is not yet
    /// passed on.
    pub open spec fn after_reveal(self, i: int) -> GameView {
        let p = self.drawer();
        let me = self.players[p];
        let shown = me.revealed_cards.push(self.source()[i]);
        if self.common_heap.len() > 0 {
            GameView {
                common_heap: without(self.common_heap, i),
                players: self.players.update(p, PlayerView { revealed_cards: shown, ..me }),
                ..self
            }
        } else {
            GameView {
                players: self.players.update(
                    p,
                    PlayerView { heap: without(me.heap, i), revealed_cards: shown, ..me },
                ),
                ..self
            }
        }
    }

    /// The place in the turn order that has the turn after the current one:
    /// the next place, and after the last place the first.
    pub open spec fn next_turn(self) -> int {
        if self.current_player_index + 1 == self.active_players.len() {
            0
        } else {
            self.current_player_index + 1
        }
    }

    /// The game after a draw at time `now` that took the card at place `i`
    /// of the source heap: the card is shown, the turn passes on, the round
    /// expected next is the one current at `now`; and where the turn comes
    /// back to the first player, the round is decided.
    pub open spec fn after_draw(self, i: int, now: u64) -> GameView {
        let shown = self.after_reveal(i);
        GameView {
            current_player_index: self.next_turn() as u64,
            next_round: round_at(now as int) as u64,
            round_winner: if self.next_turn() == 0 {
                Some(shown.leader())
            } else {
                self.round_winner
            },
            ..shown
        }
    }

    /// How a draw by the account `sender` ends when the beacon's verifier
    /// has answered `verdict`. For the draw to be made the game must have
    /// started, the turn must be with `sender`, and the verifier must have
    /// confirmed the signature.
    pub open spec fn draw_outcome(self, sender: Seq<u8>, verdict: Option<bool>) -> Result<
        (),
        GameError,
    > {
        if !self.started {
            Err(GameError::NotStarted)
        } else if !self.in_turn(sender) {
            Err(GameError::OutOfTurn)
        } else if verdict != Some(true) {
            Err(GameError::VerificationFailed)
        } else {
            Ok(())
        }
    }

    /// What the active player at place `k` of the turn order stakes in a
    /// round: the rank of the first card that player has shown.
    pub open spec fn stake(self, k: int) -> u8 {
        spec_rank(self.active(k).revealed_cards[0])
    }

    /// Whether place `k` of the turn order holds the highest stake and is
    /// the first place to hold it.
    pub open spec fn leads(self, k: int) -> bool {
        &&& 0 <= k < self.active_players.len()
        &&& forall|j: int| 0 <= j < self.active_players.len() ==> self.stake(j) <= self.stake(k)
        &&& forall|j: int| 0 <= j < k ==> self.stake(j) < self.stake(k)
    }

    /// The place in `players` of the player who leads the round.
    pub open spec fn leader(self) -> u64 {
        self.active_players[choose|k: int| self.leads(k)]
    }

    /// The account that won the last round that was played out, or the
    /// zero address where no round has been played out.
    pub open spec fn winner(self) -> Seq<u8> {
        match self.round_winner {
            Some(w) => self.players[w as int].owner,
            None => zero_address(),
        }
    }
}

/// Only one place of the turn order leads a round.
pub proof fn lemma_leads_unique(g: GameView, a: int, b: int)
    requires
        g.leads(a),
        g.leads(b),
    ensures
        a == b,
{
    if a < b {
        assert(g.stake(a) < g.stake(b));
        assert(g.stake(b) <= g.stake(a));
    } else if b < a {
        assert(g.stake(b) < g.stake(a));
        assert(g.stake(a) <= g.stake(b));
    }
}

/// The place that leads names the leader.
pub proof fn lemma_leader(g: GameView, k: int)
    requires
        g.leads(k),
    ensures
        g.leader() == g.active_players[k],
{
    let c = choose|c: int| g.leads(c);
    lemma_leads_unique(g, c, k);
}

/// A player who has just joined holds no card.
pub proof fn lemma_joined_holds_nothing(owner: Seq<u8>)
    ensures
        PlayerView::joined(owner).cards() == Multiset::<Card>::empty(),
{
    broadcast use vstd::multiset::group_multiset_axioms;

    let none = Seq::<Card>::empty();
    vstd::seq_lib::to_multiset_len(none);
    vstd::multiset::lemma_multiset_empty_len(none.to_multiset());
    assert(PlayerView::joined(owner).cards() =~= Multiset::<Card>::empty());
}

/// A player who joins brings the cards that player holds.
pub proof fn lemma_held_push(players: Seq<PlayerView>, q: PlayerView)
    ensures
        held(players.push(q)) == held(players).add(q.cards()),
        heap_total(players.push(q)) == heap_total(players) + q.heap.len(),
        revealed_total(players.push(q)) == revealed_total(players) + q.revealed_cards.len(),
{
    assert(players.push(q).drop_last() =~= players);
}

/// Replacing one player's holdings changes what the players hold by the
/// difference between the new holdings and the old.
pub proof fn lemma_held_update(players: Seq<PlayerView>, p: int, q: PlayerView)
    requires
        0 <= p < players.len(),
    ensures
        held(players.update(p, q)).add(players[p].cards()) == held(players).add(q.cards()),
        heap_total(players.update(p, q)) + players[p].heap.len() == heap_total(players)
            + q.heap.len(),
        revealed_total(players.update(p, q)) + players[p].revealed_cards.len()
            == revealed_total(players) + q.revealed_cards.len(),
    decreases players.len(),
{
    broadcast use vstd::multiset::group_multiset_axioms;

    let updated = players.update(p, q);
    if p == players.len() - 1 {
        assert(updated.drop_last() =~= players.drop_last());
        assert(updated.last() == q);
    } else {
        lemma_held_update(players.drop_last(), p, q);
        assert(updated.drop_last() =~= players.drop_last().update(p, q));
        assert(updated.last() == players.last());
        assert(players.drop_last()[p] == players[p]);
    }
    assert forall|c: Card|
        held(updated).add(players[p].cards()).count(c) == #[trigger] held(players).add(
            q.cards(),
        ).count(c) by {
        if p != players.len() - 1 {
            assert(held(updated.drop_last()).add(players[p].cards()).count(c) == held(
                players.drop_last(),
            ).add(q.cards()).count(c));
        }
    }
    assert(held(updated).add(players[p].cards()) =~= held(players).add(q.cards()));
}

/// What the first `k` players hold is part of what all players hold.
pub proof fn lemma_held_split(players: Seq<PlayerView>, k: int) -> (rest: Multiset<Card>)
    requires
        0 <= k <= players.len(),
    ensures
        held(players) == held(players.take(k)).add(rest),
    decreases players.len(),
{
    broadcast use vstd::multiset::group_multiset_axioms;

    if k == players.len() {
        assert(players.take(k) =~= players);
        let rest = Multiset::<Card>::empty();
        assert(held(players) =~= held(players.take(k)).add(rest));
        rest
    } else {
        let more = lemma_held_split(players.drop_last(), k);
        assert(players.drop_last().take(k) =~= players.take(k));
        let rest = more.add(players.last().cards());
        assert(held(players) =~= held(players.take(k)).add(rest));
        rest
    }
}

/// What the first `k + 1` players hold is what the first `k` hold and what
/// the player at place `k` holds.
pub proof fn lemma_held_take(players: Seq<PlayerView>, k: int)
    requires
        0 <= k < players.len(),
    ensures
        held(players.take(k + 1)) == held(players.take(k)).add(players[k].cards()),
{
    assert(players.take(k + 1).drop_last() =~= players.take(k));
    assert(players.take(k + 1).last() == players[k]);
}

/// What the players hold counts as many cards as their heaps and their shown
/// cards together.
pub proof fn lemma_held_len(players: Seq<PlayerView>)
    ensures
        held(players).len() == heap_total(players) + revealed_total(players),
    decreases players.len(),
{
    broadcast use vstd::multiset::group_multiset_axioms;

    if players.len() > 0 {
        lemma_held_len(players.drop_last());
        vstd::seq_lib::to_multiset_len(players.last().heap);
        vstd::seq_lib::to_multiset_len(players.last().revealed_cards);
    }
}

/// A player holds no more than all players together.
pub proof fn lemma_held_covers(players: Seq<PlayerView>, p: int)
    requires
        0 <= p < players.len(),
    ensures
        players[p].heap.len() + players[p].revealed_cards.len() <= held(players).len(),
    decreases players.len(),
{
    broadcast use vstd::multiset::group_multiset_axioms;

    if p == players.len() - 1 {
        vstd::seq_lib::to_multiset_len(players.last().heap);
        vstd::seq_lib::to_multiset_len(players.last().revealed_cards);
    } else {
        lemma_held_covers(players.drop_last(), p);
    }
}

/// What a player holds of a card, all players together hold at least.
pub proof fn lemma_held_count(players: Seq<PlayerView>, p: int, c: Card)
    requires
        0 <= p < players.len(),
    ensures
        players[p].cards().count(c) <= held(players).count(c),
    decreases players.len(),
{
    broadcast use vstd::multiset::group_multiset_axioms;

    if p < players.len() - 1 {
        lemma_held_count(players.drop_last(), p, c);
    }
}

/// What two players hold of a card, all players together hold at least.
pub proof fn lemma_held_count_of_two(players: Seq<PlayerView>, p: int, q: int, c: Card)
    requires
        0 <= p < q < players.len(),
    ensures
        players[p].cards().count(c) + players[q].cards().count(c) <= held(players).count(c),
    decreases players.len(),
{
    broadcast use vstd::multiset::group_multiset_axioms;

    if q < players.len() - 1 {
        lemma_held_count_of_two(players.drop_last(), p, q, c);
    } else {
        lemma_held_count(players.drop_last(), p, c);
    }
}

/// In a valid game no heap is longer than the deck.
pub proof fn lemma_source_fits(g: GameView)
    requires
        g.wf(),
    ensures
        g.source().len() <= 52,
{
    broadcast use vstd::multiset::group_multiset_axioms;

    lemma_full_deck();
    vstd::seq_lib::to_multiset_len(g.common_heap);
    lemma_held_covers(g.players, g.drawer());
}

/// Card conservation: in a valid game the common heap, the players' own
/// heaps and the cards they have shown count fifty-two cards together.
pub proof fn lemma_card_conservation(g: GameView)
    requires
        g.wf(),
    ensures
        g.common_heap.len() + heap_total(g.players) + revealed_total(g.players) == 52,
{
    broadcast use vstd::multiset::group_multiset_axioms;

    lemma_full_deck();
    lemma_held_len(g.players);
    vstd::seq_lib::to_multiset_len(g.common_heap);
}

/// No duplicate cards: in a valid game every card of the deck lies in
/// exactly one place, in a heap or among the shown cards, and nothing else
/// lies anywhere.
pub proof fn lemma_no_duplicate_cards(g: GameView)
    requires
        g.wf(),
    ensures
        forall|c: Card| #[trigger] g.cards().count(c) <= 1,
        forall|c: Card| c < 52 <==> #[trigger] g.cards().count(c) == 1,
{
    lemma_full_deck();
}

/// A card that was drawn does not come back: in a valid game a card that a
/// player has shown lies in no heap, neither the common one nor a player's.
pub proof fn lemma_shown_card_in_no_heap(g: GameView, p: int, k: int)
    requires
        g.wf(),
        0 <= p < g.players.len(),
        0 <= k < g.players[p].revealed_cards.len(),
    ensures
        !g.common_heap.contains(g.players[p].revealed_cards[k]),
        forall|q: int|
            0 <= q < g.players.len() ==> !(#[trigger] g.players[q]).heap.contains(
                g.players[p].revealed_cards[k],
            ),
{
    broadcast use vstd::multiset::group_multiset_axioms;

    let c = g.players[p].revealed_cards[k];
    lemma_full_deck();
    assert(g.cards().count(c) <= 1);
    assert(g.players[p].revealed_cards.to_multiset().count(c) >= 1) by {
        vstd::seq_lib::to_multiset_contains(g.players[p].revealed_cards, c);
        assert(g.players[p].revealed_cards.contains(c));
    }
    lemma_held_count(g.players, p, c);
    vstd::seq_lib::to_multiset_contains(g.common_heap, c);
    assert forall|q: int| 0 <= q < g.players.len() implies !(#[trigger] g.players[q]).heap.contains(
        c,
    ) by {
        vstd::seq_lib::to_multiset_contains(g.players[q].heap, c);
        if q < p {
            lemma_held_count_of_two(g.players, q, p, c);
        } else if p < q {
            lemma_held_count_of_two(g.players, p, q, c);
        }
    }
}

/// A game that was just opened is valid.
pub proof fn lemma_created_wf(creator: Seq<u8>)
    ensures
        GameView::created(creator).wf(),
{
    broadcast use vstd::multiset::group_multiset_axioms;

    let g = GameView::created(creator);
    let me = PlayerView::joined(creator);
    assert(g.players.drop_last() =~= Seq::<PlayerView>::empty());
    assert(g.players.last() == me);
    lemma_joined_holds_nothing(creator);
    assert(held(g.players.drop_last()) =~= Multiset::<Card>::empty());
    assert(held(g.players) =~= Multiset::<Card>::empty());
    assert(g.cards() =~= full_deck());
}

/// Joining keeps a game valid.
pub proof fn lemma_join_wf(g: GameView, sender: Seq<u8>)
    requires
        g.wf(),
        g.players.len() < u64::MAX,
        g.active_players.len() < u64::MAX,
    ensures
        g.after_join(sender).wf(),
{
    broadcast use vstd::multiset::group_multiset_axioms;

    let h = g.after_join(sender);
    let me = PlayerView::joined(sender);
    lemma_held_push(g.players, me);
    lemma_joined_holds_nothing(sender);
    assert(h.cards() =~= g.cards());
    assert forall|k: int| 0 <= k < h.active_players.len() implies #[trigger] h.active_players[k]
        < h.players.len() by {
        if k < g.active_players.len() {
            assert(h.active_players[k] == g.active_players[k]);
        }
    }
    assert forall|k: int| 0 <= k < h.current_player_index implies (#[trigger] h.active(
        k,
    )).revealed_cards.len() > 0 by {
        assert(h.active_players[k] == g.active_players[k]);
        assert(h.active(k) == g.active(k));
    }
}

/// Starting keeps a game valid.
pub proof fn lemma_start_wf(g: GameView, now: u64)
    requires
        g.wf(),
    ensures
        g.after_start(now).wf(),
{
    let h = g.after_start(now);
    assert forall|k: int| 0 <= k < h.current_player_index implies (#[trigger] h.active(
        k,
    )).revealed_cards.len() > 0 by {
        assert(h.active(k) == g.active(k));
    }
}

/// Showing a card moves it from its heap to the player and changes nothing
/// else: the cards of the game stay the same, and every player has shown as
/// many cards as before or one more.
pub proof fn lemma_reveal_keeps_cards(g: GameView, i: int)
    requires
        g.wf(),
        0 <= i < g.source().len(),
    ensures
        g.after_reveal(i).cards() == g.cards(),
        g.after_reveal(i).players.len() == g.players.len(),
        forall|p: int|
            0 <= p < g.players.len() ==> (#[trigger] g.after_reveal(
                i,
            ).players[p]).revealed_cards.len() >= g.players[p].revealed_cards.len(),
        g.after_reveal(i).players[g.drawer()].revealed_cards.len() > 0,
{
    broadcast use vstd::multiset::group_multiset_axioms;

    let h = g.after_reveal(i);
    let p = g.drawer();
    let me = g.players[p];
    let card = g.source()[i];
    assert(g.active_players[g.current_player_index as int] < g.players.len());
    lemma_without_keeps_cards(g.source(), i);
    lemma_held_update(g.players, p, h.players[p]);
    vstd::seq_lib::to_multiset_build(me.revealed_cards, card);
    if g.common_heap.len() > 0 {
        assert(h.players[p].cards() =~= me.cards().insert(card));
        assert(held(h.players).add(me.cards()) == held(g.players).add(me.cards().insert(card)));
        assert(held(h.players) =~= held(g.players).insert(card)) by {
            assert forall|c: Card|
                held(h.players).count(c) == #[trigger] held(g.players).insert(card).count(c) by {
                assert(held(h.players).add(me.cards()).count(c) == held(g.players).add(
                    me.cards().insert(card),
                ).count(c));
            }
        }
        assert(h.cards() =~= g.cards());
    } else {
        assert(h.players[p].cards() =~= me.cards());
        assert(held(h.players) =~= held(g.players)) by {
            assert forall|c: Card| held(h.players).count(c) == #[trigger] held(g.players).count(
                c,
            ) by {
                assert(held(h.players).add(me.cards()).count(c) == held(g.players).add(
                    me.cards(),
                ).count(c));
            }
        }
        assert(h.cards() =~= g.cards());
    }
}

/// When every active player has shown a card, one place of the turn order
/// leads the round.
pub proof fn lemma_leader_exists(g: GameView, n: int) -> (k: int)
    requires
        1 <= n <= g.active_players.len(),
    ensures
        0 <= k < n,
        forall|j: int| 0 <= j < n ==> g.stake(j) <= g.stake(k),
        forall|j: int| 0 <= j < k ==> g.stake(j) < g.stake(k),
    decreases n,
{
    if n == 1 {
        0
    } else {
        let k = lemma_leader_exists(g, n - 1);
        if g.stake(n - 1) > g.stake(k) {
            n - 1
        } else {
            k
        }
    }
}

/// A draw keeps a game valid.
pub proof fn lemma_draw_wf(g: GameView, i: int, now: u64)
    requires
        g.wf(),
        0 <= i < g.source().len(),
    ensures
        g.after_draw(i, now).wf(),
{
    let shown = g.after_reveal(i);
    let h = g.after_draw(i, now);
    lemma_reveal_keeps_cards(g, i);
    assert(h.cards() == shown.cards());
    assert forall|k: int| 0 <= k < h.current_player_index implies (#[trigger] h.active(
        k,
    )).revealed_cards.len() > 0 by {
        let p = g.active_players[k] as int;
        assert(g.active_players[k] < g.players.len());
        assert(shown.players[p].revealed_cards.len() >= g.players[p].revealed_cards.len());
        assert(h.active(k) == shown.players[p]);
        if k < g.current_player_index {
            assert(g.active(k).revealed_cards.len() > 0);
        } else {
            assert(p == g.drawer());
        }
    }
    if g.next_turn() == 0 {
        let k = lemma_leader_exists(shown, shown.active_players.len() as int);
        assert(shown.leads(k));
        lemma_leader(shown, k);
    }
}

/// Card conservation through a draw: the cards of the game are the same
/// before and after, and after the draw as before the common heap, the
/// players' own heaps and the cards they have shown count fifty-two cards
/// together.
pub proof fn lemma_draw_conserves_cards(g: GameView, i: int, now: u64)
    requires
        g.wf(),
        0 <= i < g.source().len(),
    ensures
        g.after_draw(i, now).cards() == g.cards(),
        g.after_draw(i, now).common_heap.len() + heap_total(g.after_draw(i, now).players)
            + revealed_total(g.after_draw(i, now).players) == 52,
        g.after_draw(i, now).common_heap.len() + heap_total(g.after_draw(i, now).players) + 1
            == g.common_heap.len() + heap_total(g.players),
        revealed_total(g.after_draw(i, now).players) == revealed_total(g.players) + 1,
{
    let h = g.after_draw(i, now);
    lemma_reveal_keeps_cards(g, i);
    lemma_draw_wf(g, i, now);
    lemma_card_conservation(g);
    lemma_card_conservation(h);
    assert(g.active_players[g.current_player_index as int] < g.players.len());
    lemma_held_update(g.players, g.drawer(), h.players[g.drawer()]);
}

/// Whether the draws can be made one after the other from game `g` on: each
/// is given by the place it picks in the source heap and by its time, and
/// each picks a place that its source heap has.
pub open spec fn playable(g: GameView, draws: Seq<(int, u64)>) -> bool
    decreases draws.len(),
{
    draws.len() > 0 ==> {
        &&& 0 <= draws[0].0 < g.source().len()
        &&& playable(g.after_draw(draws[0].0, draws[0].1), draws.skip(1))
    }
}

/// The game after the draws were made one after the other from game `g` on.
pub open spec fn after_draws(g: GameView, draws: Seq<(int, u64)>) -> GameView
    decreases draws.len(),
{
    if draws.len() == 0 {
        g
    } else {
        after_draws(g.after_draw(draws[0].0, draws[0].1), draws.skip(1))
    }
}

/// Card conservation and no duplicate cards, through every sequence of draws:
/// whatever draws are made from a valid game on, the game stays valid, its
/// cards are the deck with each card once, and its heaps and shown cards
/// count fifty-two cards together.
pub proof fn lemma_draws_conserve_cards(g: GameView, draws: Seq<(int, u64)>)
    requires
        g.wf(),
        playable(g, draws),
    ensures
        after_draws(g, draws).wf(),
        after_draws(g, draws).cards() == full_deck(),
        after_draws(g, draws).common_heap.len() + heap_total(after_draws(g, draws).players)
            + revealed_total(after_draws(g, draws).players) == 52,
        forall|c: Card| #[trigger] after_draws(g, draws).cards().count(c) <= 1,
    decreases draws.len(),
{
    if draws.len() == 0 {
        lemma_card_conservation(g);
        lemma_no_duplicate_cards(g);
    } else {
        lemma_draw_wf(g, draws[0].0, draws[0].1);
        lemma_draws_conserve_cards(g.after_draw(draws[0].0, draws[0].1), draws.skip(1));
    }
}

/// A draw changes nothing but the place of one card, the turn, the round
/// expected next and the winner of the last round: the players, their
/// accounts and their order stay, what a player has shown before stays
/// shown, and a game that has started stays started.
pub proof fn lemma_draw_keeps_the_table(g: GameView, i: int, now: u64)
    requires
        g.wf(),
        0 <= i < g.source().len(),
    ensures
        g.after_draw(i, now).players.len() == g.players.len(),
        forall|p: int|
            0 <= p < g.players.len() ==> (#[trigger] g.after_draw(i, now).players[p]).owner
                == g.players[p].owner,
        forall|p: int|
            0 <= p < g.players.len() ==> g.players[p].revealed_cards.is_prefix_of(
                (#[trigger] g.after_draw(i, now).players[p]).revealed_cards,
            ),
        g.after_draw(i, now).active_players == g.active_players,
        g.after_draw(i, now).started == g.started,
        g.after_draw(i, now).bataille == g.bataille,
        g.after_draw(i, now).players_bataille == g.players_bataille,
{
    assert(g.active_players[g.current_player_index as int] < g.players.len());
}

/// Turn ordering: a draw passes the turn on by exactly one place, counted
/// modulo the number of active players, and leaves the turn order as it is.
pub proof fn lemma_draw_passes_turn(g: GameView, i: int, now: u64)
    requires
        g.wf(),
    ensures
        g.after_draw(i, now).current_player_index == (g.current_player_index + 1) % (
        g.active_players.len() as int),
        g.after_draw(i, now).active_players == g.active_players,
{
    let n = g.active_players.len() as int;
    if g.current_player_index + 1 == n {
        vstd::arithmetic::div_mod::lemma_mod_self_0(n);
    } else {
        vstd::arithmetic::div_mod::lemma_small_mod((g.current_player_index + 1) as nat, n as nat);
    }
}

/// Round monotonicity: a draw made when the round it had to prove is over
/// leaves the game expecting a later round. A draw made while that round is
/// still running leaves the game expecting the same round again.
pub proof fn lemma_draw_advances_round(g: GameView, i: int, now: u64)
    requires
        now >= GENESIS_TIME,
    ensures
        now >= round_start(g.next_round + 1) ==> g.after_draw(i, now).next_round
            > g.next_round,
        round_start(g.next_round as int) <= now < round_start(
            g.next_round + 1,
        ) ==> g.after_draw(i, now).next_round == g.next_round,
{
}

} // verus!
