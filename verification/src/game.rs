//! One game: its players, its heaps, and the moves of its players.
use vstd::prelude::*;
use vstd::multiset::Multiset;
use crate::address::Address;
use crate::beacon::{current_round, GENESIS_TIME};
use crate::cards::{rank, Card, N_CARDS};
use crate::census::{empty_tally, lemma_beyond_deck, tallies, tally, tally_is_full};
use crate::errors::GameError;
use crate::heap::draw;
use crate::model::{
    GameView, PlayerView, held, lemma_created_wf, lemma_draw_passes_turn, lemma_draw_wf,
    lemma_held_split, lemma_held_take, lemma_join_wf, lemma_leader, lemma_reveal_keeps_cards,
    lemma_source_fits, lemma_start_wf,
};
use crate::rng::RngKeccak256;

verus! {

/// A player of a game.
pub struct Player {
    owner: Address,
    heap: Vec<Card>,
    revealed_cards: Vec<Card>,
}

impl View for Player {
    type V = PlayerView;

    closed spec fn view(&self) -> PlayerView {
        PlayerView {
            owner: self.owner@,
            heap: self.heap@,
            revealed_cards: self.revealed_cards@,
        }
    }
}

/// The players as the model sees them.
pub open spec fn views(players: Seq<Player>) -> Seq<PlayerView> {
    players.map_values(|p: Player| p@)
}

/// The game that the given parts make.
pub open spec fn assembled(
    common_heap: Seq<Card>,
    players: Seq<Player>,
    active_players: Seq<u64>,
    current_player_index: u64,
    started: bool,
    bataille: bool,
    next_round: u64,
    players_bataille: Seq<Address>,
    round_winner: Option<u64>,
) -> GameView {
    GameView {
        common_heap,
        players: views(players),
        active_players,
        current_player_index,
        started,
        bataille,
        next_round,
        players_bataille: players_bataille.map_values(|a: Address| a@),
        round_winner,
    }
}

impl Player {
    /// A player with the given account and cards.
    pub fn new(owner: Address, heap: Vec<Card>, revealed_cards: Vec<Card>) -> (player: Player)
        ensures
            player@ == (PlayerView {
                owner: owner@,
                heap: heap@,
                revealed_cards: revealed_cards@,
            }),
    {
        Player { owner, heap, revealed_cards }
    }

    /// A player who has just come to the table, with no card.
    fn joined(owner: Address) -> (player: Player)
        ensures
            player@ == PlayerView::joined(owner@),
    {
        Player { owner, heap: Vec::new(), revealed_cards: Vec::new() }
    }

    /// The account that plays.
    pub fn owner(&self) -> (owner: Address)
        ensures
            owner@ == self@.owner,
    {
        self.owner
    }

    /// The player's own cards that are not drawn yet.
    pub fn heap(&self) -> (heap: &Vec<Card>)
        ensures
            heap@ == self@.heap,
    {
        &self.heap
    }

    /// The cards the player has shown, oldest first.
    pub fn revealed_cards(&self) -> (cards: &Vec<Card>)
        ensures
            cards@ == self@.revealed_cards,
    {
        &self.revealed_cards
    }
}

/// A game of war.
pub struct Game {
    common_heap: Vec<Card>,
    players: Vec<Player>,
    active_players: Vec<u64>,
    current_player_index: u64,
    started: bool,
    bataille: bool,
    next_round: u64,
    players_bataille: [Address; 2],
    round_winner: Option<u64>,
}

impl View for Game {
    type V = GameView;

    closed spec fn view(&self) -> GameView {
        GameView {
            common_heap: self.common_heap@,
            players: views(self.players@),
            active_players: self.active_players@,
            current_player_index: self.current_player_index,
            started: self.started,
            bataille: self.bataille,
            next_round: self.next_round,
            players_bataille: self.players_bataille@.map_values(|a: Address| a@),
            round_winner: self.round_winner,
        }
    }
}

impl Game {
    /// How the fields of a game show in its view.
    proof fn lemma_view(&self)
        ensures
            self@.common_heap == self.common_heap@,
            self@.players.len() == self.players@.len(),
            forall|p: int|
                0 <= p < self.players@.len() ==> #[trigger] self@.players[p] == self.players@[p]@,
            forall|p: int|
                0 <= p < self.players@.len() ==> (#[trigger] self.players@[p])@
                    == self@.players[p],
            self@.active_players == self.active_players@,
            self@.current_player_index == self.current_player_index,
            self@.started == self.started,
            self@.next_round == self.next_round,
            self@.round_winner == self.round_winner,
            self@.players.len() <= usize::MAX,
            self@.active_players.len() <= usize::MAX,
    {
        assert(self.players@.len() == self.players.len());
        assert(self.active_players@.len() == self.active_players.len());
    }

    /// Opens a game for `creator`: the whole deck lies in the common heap,
    /// and the creator is the only player.
    pub fn new(creator: Address) -> (game: Game)
        ensures
            game@ == GameView::created(creator@),
            game@.wf(),
    {
        let mut common_heap: Vec<Card> = Vec::new();
        let mut card: u8 = 0;
        while card < N_CARDS
            invariant
                card <= N_CARDS,
                common_heap@.len() == card,
                forall|i: int| 0 <= i < card ==> common_heap@[i] == i,
            decreases N_CARDS - card,
        {
            common_heap.push(card);
            card += 1;
        }
        let mut players: Vec<Player> = Vec::new();
        players.push(Player::joined(creator));
        let mut active_players: Vec<u64> = Vec::new();
        active_players.push(0);
        let game = Game {
            common_heap,
            players,
            active_players,
            current_player_index: 0,
            started: false,
            bataille: false,
            next_round: 0,
            players_bataille: [Address::zero(), Address::zero()],
            round_winner: None,
        };
        proof {
            let g = GameView::created(creator@);
            assert(game@.common_heap =~= g.common_heap);
            assert(game@.players =~= g.players);
            assert(game@.active_players =~= g.active_players);
            assert(game@.players_bataille =~= g.players_bataille);
            lemma_created_wf(creator@);
        }
        game
    }

    /// Puts a game together from what it holds, as it was stored earlier.
    /// There is no game where the parts do not make a valid one.
    pub fn restore(
        common_heap: Vec<Card>,
        players: Vec<Player>,
        active_players: Vec<u64>,
        current_player_index: u64,
        started: bool,
        bataille: bool,
        next_round: u64,
        players_bataille: [Address; 2],
        round_winner: Option<u64>,
    ) -> (game: Option<Game>)
        ensures
            ({
                let parts = assembled(
                    common_heap@,
                    players@,
                    active_players@,
                    current_player_index,
                    started,
                    bataille,
                    next_round,
                    players_bataille@,
                    round_winner,
                );
                match game {
                    Some(g) => g@ == parts && parts.wf(),
                    None => !parts.wf(),
                }
            }),
    {
        broadcast use vstd::multiset::group_multiset_axioms;

        let ghost parts = assembled(
            common_heap@,
            players@,
            active_players@,
            current_player_index,
            started,
            bataille,
            next_round,
            players_bataille@,
            round_winner,
        );
        let ghost everyone = views(players@);
        assert(players@.len() == players.len());
        assert(active_players@.len() == active_players.len());
        // The cards must be the deck.
        let mut seen = empty_tally();
        let ghost mut so_far = Multiset::<Card>::empty();
        if !tally(&common_heap, &mut seen, Ghost(so_far)) {
            proof {
                lemma_beyond_deck(so_far.add(common_heap@.to_multiset()), held(everyone));
                assert(so_far.add(common_heap@.to_multiset()) =~= common_heap@.to_multiset());
            }
            return None;
        }
        proof {
            so_far = so_far.add(common_heap@.to_multiset());
            assert(everyone.take(0) =~= Seq::<PlayerView>::empty());
            assert(so_far =~= common_heap@.to_multiset().add(held(everyone.take(0))));
        }
        let mut p: usize = 0;
        while p < players.len()
            invariant
                p <= players@.len(),
                everyone == views(players@),
                parts.players == everyone,
                parts.common_heap == common_heap@,
                tallies(seen@, so_far),
                so_far == common_heap@.to_multiset().add(held(everyone.take(p as int))),
            decreases players@.len() - p,
        {
            let ghost me = everyone[p as int];
            let ghost with_heap = so_far.add(me.heap.to_multiset());
            let ghost with_all = with_heap.add(me.revealed_cards.to_multiset());
            proof {
                lemma_held_take(everyone, p as int);
                let rest = lemma_held_split(everyone, p + 1);
                assert(with_all =~= common_heap@.to_multiset().add(held(everyone.take(p + 1))));
                assert(parts.cards() =~= with_all.add(rest));
                assert(with_all =~= with_heap.add(me.revealed_cards.to_multiset()));
            }
            if !tally(&players[p].heap, &mut seen, Ghost(so_far)) {
                proof {
                    let rest = lemma_held_split(everyone, p + 1);
                    lemma_beyond_deck(with_heap, me.revealed_cards.to_multiset());
                    lemma_beyond_deck(with_all, rest);
                }
                return None;
            }
            if !tally(&players[p].revealed_cards, &mut seen, Ghost(with_heap)) {
                proof {
                    let rest = lemma_held_split(everyone, p + 1);
                    lemma_beyond_deck(with_all, rest);
                }
                return None;
            }
            proof {
                so_far = with_all;
            }
            p += 1;
        }
        proof {
            assert(everyone.take(p as int) =~= everyone);
            assert(so_far == parts.cards());
        }
        if !tally_is_full(&seen, Ghost(so_far)) {
            return None;
        }
        // The turn order must name players, and the turn must be with one.
        if active_players.len() == 0 {
            return None;
        }
        let mut k: usize = 0;
        while k < active_players.len()
            invariant
                k <= active_players@.len(),
                forall|j: int| 0 <= j < k ==> #[trigger] active_players@[j] < players@.len(),
            decreases active_players@.len() - k,
        {
            if active_players[k] >= players.len() as u64 {
                return None;
            }
            k += 1;
        }
        if current_player_index >= active_players.len() as u64 {
            return None;
        }
        // Who has had a turn in the running round has shown a card.
        let mut k: usize = 0;
        while k < current_player_index as usize
            invariant
                k <= current_player_index < active_players@.len(),
                parts == assembled(
                    common_heap@,
                    players@,
                    active_players@,
                    current_player_index,
                    started,
                    bataille,
                    next_round,
                    players_bataille@,
                    round_winner,
                ),
                forall|j: int|
                    0 <= j < active_players@.len() ==> #[trigger] active_players@[j]
                        < players@.len(),
                forall|j: int|
                    0 <= j < k ==> (#[trigger] parts.active(j)).revealed_cards.len() > 0,
            decreases current_player_index - k,
        {
            assert(active_players@[k as int] < players@.len());
            if players[active_players[k] as usize].revealed_cards.len() == 0 {
                assert(parts.active(k as int).revealed_cards.len() == 0);
                return None;
            }
            k += 1;
        }
        match round_winner {
            Some(w) => {
                if w >= players.len() as u64 {
                    return None;
                }
            },
            None => {},
        }
        let game = Game {
            common_heap,
            players,
            active_players,
            current_player_index,
            started,
            bataille,
            next_round,
            players_bataille,
            round_winner,
        };
        assert(game@ == parts);
        Some(game)
    }

    /// The heap all players draw from while it lasts.
    pub fn common_heap(&self) -> (heap: &Vec<Card>)
        ensures
            heap@ == self@.common_heap,
    {
        &self.common_heap
    }

    /// The number of players that have joined, the creator among them.
    pub fn n_players(&self) -> (n: usize)
        ensures
            n == self@.players.len(),
    {
        proof {
            self.lemma_view();
        }
        self.players.len()
    }

    /// The player at place `id`, if there is one.
    pub fn player(&self, id: u64) -> (player: Option<&Player>)
        ensures
            id >= self@.players.len() ==> player is None,
            id < self@.players.len() ==> player is Some && player->0@ == self@.players[id as int],
    {
        proof {
            self.lemma_view();
        }
        if id >= self.players.len() as u64 {
            None
        } else {
            Some(&self.players[id as usize])
        }
    }

    /// The players that still take turns, by their place among the players,
    /// in the order of their turns.
    pub fn active_players(&self) -> (order: &Vec<u64>)
        ensures
            order@ == self@.active_players,
    {
        &self.active_players
    }

    /// The place in the turn order of the player whose turn it is.
    pub fn current_player_index(&self) -> (place: u64)
        ensures
            place == self@.current_player_index,
    {
        self.current_player_index
    }

    /// Whether the game has started.
    pub fn started(&self) -> (yes: bool)
        ensures
            yes == self@.started,
    {
        self.started
    }

    /// Whether a tie is pending.
    pub fn bataille(&self) -> (yes: bool)
        ensures
            yes == self@.bataille,
    {
        self.bataille
    }

    /// The round of the beacon that the next draw has to prove.
    pub fn next_round(&self) -> (round: u64)
        ensures
            round == self@.next_round,
    {
        self.next_round
    }

    /// The two accounts of a pending tie.
    pub fn players_bataille(&self) -> (pair: [Address; 2])
        ensures
            pair@.len() == 2,
            pair@[0]@ == self@.players_bataille[0],
            pair@[1]@ == self@.players_bataille[1],
    {
        self.players_bataille
    }

    /// The player who won the last round that was played out, by the place
    /// among the players.
    pub fn round_winner(&self) -> (id: Option<u64>)
        ensures
            id == self@.round_winner,
    {
        self.round_winner
    }

    /// Lets the account `sender` join as a new player, last in the turn
    /// order. A game that has started takes no more players.
    pub fn join(&mut self, sender: Address) -> (res: Result<(), GameError>)
        requires
            old(self)@.wf(),
        ensures
            final(self)@.wf(),
            old(self)@.started ==> res == Err::<(), GameError>(GameError::AlreadyStarted)
                && final(self)@ == old(self)@,
            !old(self)@.started ==> res is Ok && final(self)@ == old(self)@.after_join(sender@),
    {
        proof {
            self.lemma_view();
        }
        if self.started {
            return Err(GameError::AlreadyStarted);
        }
        let id = self.players.len() as u64;
        self.players.push(Player::joined(sender));
        self.active_players.push(id);
        proof {
            self.lemma_view();
            let g = old(self)@.after_join(sender@);
            assert(self@.players =~= g.players);
            assert(self@.active_players =~= g.active_players);
            lemma_join_wf(old(self)@, sender@);
        }
        Ok(())
    }

    /// Starts the game at time `now`: from now on cards are drawn, and the
    /// first draw has to prove the round that is current at `now`.
    pub fn start(&mut self, now: u64)
        requires
            old(self)@.wf(),
            now >= GENESIS_TIME,
        ensures
            final(self)@ == old(self)@.after_start(now),
            final(self)@.wf(),
    {
        self.started = true;
        self.next_round = current_round(now);
        proof {
            lemma_start_wf(old(self)@, now);
        }
    }

    /// The round of the beacon that a draw by the account `sender` has to
    /// prove, or the reason why that account cannot draw now.
    pub fn round_to_prove(&self, sender: Address) -> (res: Result<u64, GameError>)
        requires
            self@.wf(),
        ensures
            !self@.started ==> res == Err::<u64, GameError>(GameError::NotStarted),
            self@.started && !self@.in_turn(sender@) ==> res == Err::<u64, GameError>(
                GameError::OutOfTurn,
            ),
            self@.started && self@.in_turn(sender@) ==> res == Ok::<u64, GameError>(
                self@.next_round,
            ),
    {
        proof {
            self.lemma_view();
        }
        if !self.started {
            return Err(GameError::NotStarted);
        }
        let place = self.current_player_index as usize;
        assert(self@.active_players[place as int] < self@.players.len());
        let id = self.active_players[place] as usize;
        if !(self.players[id].owner == sender) {
            return Err(GameError::OutOfTurn);
        }
        Ok(self.next_round)
    }

    /// Whether the heap that the next card comes from has a card.
    pub fn can_draw(&self) -> (yes: bool)
        requires
            self@.wf(),
        ensures
            yes == (self@.source().len() > 0),
    {
        proof {
            self.lemma_view();
        }
        if self.common_heap.len() != 0 {
            true
        } else {
            let place = self.current_player_index as usize;
            assert(self@.active_players[place as int] < self@.players.len());
            let id = self.active_players[place] as usize;
            self.players[id].heap.len() != 0
        }
    }

    /// The player who leads the round, by the place in `players`: the first
    /// in the turn order among those whose first shown card has the highest
    /// rank.
    fn leader(&self) -> (id: u64)
        requires
            self@.active_players.len() >= 1,
            forall|k: int|
                0 <= k < self@.active_players.len() ==> #[trigger] self@.active_players[k]
                    < self@.players.len(),
            forall|k: int|
                0 <= k < self@.active_players.len() ==> (#[trigger] self@.active(
                    k,
                )).revealed_cards.len() > 0,
        ensures
            id == self@.leader(),
            id < self@.players.len(),
    {
        proof {
            self.lemma_view();
        }
        let mut best: usize = 0;
        let mut i: usize = 1;
        while i < self.active_players.len()
            invariant
                forall|k: int|
                    0 <= k < self@.active_players.len() ==> #[trigger] self@.active_players[k]
                        < self@.players.len(),
                forall|k: int|
                    0 <= k < self@.active_players.len() ==> (#[trigger] self@.active(
                        k,
                    )).revealed_cards.len() > 0,
                0 <= best < i <= self@.active_players.len(),
                forall|j: int| 0 <= j < i ==> self@.stake(j) <= self@.stake(best as int),
                forall|j: int| 0 <= j < best ==> self@.stake(j) < self@.stake(best as int),
            decreases self.active_players.len() - i,
        {
            proof {
                self.lemma_view();
                assert(self@.active_players[i as int] < self@.players.len());
                assert(self@.active_players[best as int] < self@.players.len());
                assert(self@.active(i as int).revealed_cards.len() > 0);
                assert(self@.active(best as int).revealed_cards.len() > 0);
            }
            let challenger = self.active_players[i] as usize;
            let holder = self.active_players[best] as usize;
            if rank(self.players[challenger].revealed_cards[0]) > rank(
                self.players[holder].revealed_cards[0],
            ) {
                best = i;
            }
            i += 1;
        }
        proof {
            assert(self@.leads(best as int));
            lemma_leader(self@, best as int);
            assert(self@.active_players[best as int] < self@.players.len());
        }
        self.active_players[best]
    }

    /// Draws a card for the account `sender` at time `now`.
    ///
    /// `verdict` is what the beacon's verifier answered when asked whether
    /// `signature` is the beacon's signature for the round that the game
    /// expects, and `None` where the verifier gave no answer. Nothing of the
    /// game changes unless the verifier has confirmed the signature.
    ///
    /// The card is picked by a generator seeded with the signature: from
    /// the common heap while it has cards, then from the player's own heap.
    /// It goes to the cards the player has shown, and the turn passes on. When
    /// the turn comes back to the first player, the round is decided. The
    /// next draw has to prove the round that is current at `now`.
    pub fn draw(
        &mut self,
        sender: Address,
        now: u64,
        verdict: Option<bool>,
        signature: &[u8],
    ) -> (res: Result<(), GameError>)
        requires
            old(self)@.wf(),
            now >= GENESIS_TIME,
            old(self)@.draw_outcome(sender@, verdict) is Ok ==> old(self)@.source().len() > 0,
        ensures
            final(self)@.wf(),
            res == old(self)@.draw_outcome(sender@, verdict),
            res is Err ==> final(self)@ == old(self)@,
            res is Ok ==> 0 <= old(self)@.pick(signature@) < old(self)@.source().len(),
            res is Ok ==> final(self)@ == old(self)@.after_draw(
                old(self)@.pick(signature@),
                now,
            ),
            res is Ok ==> final(self)@.current_player_index == (old(self)@.current_player_index
                + 1) % (old(self)@.active_players.len() as int),
            verdict != Some(true) ==> res is Err,
    {
        proof {
            self.lemma_view();
        }
        if !self.started {
            return Err(GameError::NotStarted);
        }
        let place = self.current_player_index as usize;
        assert(self@.active_players[place as int] < self@.players.len());
        let id = self.active_players[place] as usize;
        if !(self.players[id].owner == sender) {
            return Err(GameError::OutOfTurn);
        }
        match verdict {
            Some(true) => {},
            _ => {
                return Err(GameError::VerificationFailed);
            },
        }
        let ghost before = old(self)@;
        let ghost i = before.pick(signature@);
        proof {
            lemma_source_fits(before);
        }
        let mut rng = RngKeccak256::seed(signature);
        let card = if self.common_heap.len() != 0 {
            draw(&mut rng, &mut self.common_heap)
        } else {
            draw(&mut rng, &mut self.players[id].heap)
        };
        self.players[id].revealed_cards.push(card);
        proof {
            self.lemma_view();
            let shown = before.after_reveal(i);
            assert(self@.players =~= shown.players);
            assert(self@ == shown);
            lemma_draw_wf(before, i, now);
            lemma_draw_passes_turn(before, i, now);
            lemma_reveal_keeps_cards(before, i);
            assert forall|k: int|
                0 <= k < shown.active_players.len() && before.next_turn()
                    == 0 implies (#[trigger] shown.active(k)).revealed_cards.len() > 0 by {
                let p = before.active_players[k] as int;
                assert(before.active_players[k] < before.players.len());
                assert(shown.players[p].revealed_cards.len()
                    >= before.players[p].revealed_cards.len());
                if k < before.current_player_index {
                    assert(before.active(k).revealed_cards.len() > 0);
                }
            }
        }
        let next = self.current_player_index + 1;
        if next == self.active_players.len() as u64 {
            let winner = self.leader();
            self.round_winner = Some(winner);
            self.current_player_index = 0;
        } else {
            self.current_player_index = next;
        }
        self.next_round = current_round(now);
        Ok(())
    }

    /// The account that won the last round that was played out, or the zero
    /// address where no round has been played out yet.
    pub fn winner(&self) -> (account: Address)
        requires
            self@.wf(),
        ensures
            account@ == self@.winner(),
    {
        proof {
            self.lemma_view();
        }
        match self.round_winner {
            Some(w) => self.players[w as usize].owner,
            None => Address::zero(),
        }
    }
}

} // verus!
