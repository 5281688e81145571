//! The table of all games, and the operations that players call on it.
use vstd::prelude::*;
use crate::address::{Address, zero_address};
use crate::beacon::GENESIS_TIME;
use crate::errors::GameError;
use crate::game::Game;
use crate::model::GameView;

verus! {

/// All games that were ever opened. A game is known by its number, the
/// place at which it stands; numbers are given in order and never given
/// again.
pub struct Bataille {
    games: Vec<Game>,
}

impl View for Bataille {
    type V = Seq<GameView>;

    closed spec fn view(&self) -> Seq<GameView> {
        self.games@.map_values(|g: Game| g@)
    }
}

/// How a draw in game `game_id` by the account `sender` ends, given the
/// verifier's verdict.
pub open spec fn draw_outcome(
    games: Seq<GameView>,
    game_id: u64,
    sender: Seq<u8>,
    verdict: Option<bool>,
) -> Result<(), GameError> {
    if game_id >= games.len() {
        Err(GameError::NotFound)
    } else {
        games[game_id as int].draw_outcome(sender, verdict)
    }
}

impl Bataille {
    /// Whether every game is valid.
    pub open spec fn wf(&self) -> bool {
        forall|id: int| 0 <= id < self@.len() ==> (#[trigger] self@[id]).wf()
    }

    /// How the games show in the view.
    proof fn lemma_view(&self)
        ensures
            self@.len() == self.games@.len(),
            self@.len() <= usize::MAX,
            forall|id: int| 0 <= id < self.games@.len() ==> #[trigger] self@[id] == self.games@[id]@,
            forall|id: int|
                0 <= id < self.games@.len() ==> (#[trigger] self.games@[id])@ == self@[id],
    {
        assert(self.games@.len() == self.games.len());
    }

    /// A table without games.
    pub fn new() -> (table: Bataille)
        ensures
            table@ == Seq::<GameView>::empty(),
            table.wf(),
    {
        let table = Bataille { games: Vec::new() };
        assert(table@ =~= Seq::<GameView>::empty());
        table
    }

    /// The table that holds the given games, each under the number of its
    /// place, as they were stored earlier.
    pub fn restore(games: Vec<Game>) -> (table: Bataille)
        requires
            forall|id: int| 0 <= id < games@.len() ==> (#[trigger] games@[id])@.wf(),
        ensures
            table@ == games@.map_values(|g: Game| g@),
            table.wf(),
    {
        Bataille { games }
    }

    /// The number of games that were opened.
    pub fn n_games(&self) -> (n: usize)
        ensures
            n == self@.len(),
    {
        proof {
            self.lemma_view();
        }
        self.games.len()
    }

    /// The game with the number `game_id`, if there is one.
    pub fn game(&self, game_id: u64) -> (game: Option<&Game>)
        ensures
            game_id >= self@.len() ==> game is None,
            game_id < self@.len() ==> game is Some && game->0@ == self@[game_id as int],
    {
        proof {
            self.lemma_view();
        }
        if game_id >= self.games.len() as u64 {
            None
        } else {
            Some(&self.games[game_id as usize])
        }
    }

    /// Opens a game for the account `sender` and returns its number: the
    /// whole deck lies in the common heap, and `sender` is the only player.
    pub fn createGame(&mut self, sender: Address) -> (id: u64)
        requires
            old(self).wf(),
        ensures
            id == old(self)@.len(),
            final(self)@ == old(self)@.push(GameView::created(sender@)),
            final(self).wf(),
    {
        proof {
            self.lemma_view();
        }
        let id = self.games.len() as u64;
        self.games.push(Game::new(sender));
        proof {
            self.lemma_view();
            assert(self@ =~= old(self)@.push(GameView::created(sender@)));
        }
        id
    }

    /// Lets the account `sender` join the game `id` as a new player, last in
    /// the turn order. A game that has started takes no more players.
    pub fn joinGame(&mut self, id: u64, sender: Address) -> (res: Result<(), GameError>)
        requires
            old(self).wf(),
        ensures
            final(self).wf(),
            id >= old(self)@.len() ==> res == Err::<(), GameError>(GameError::NotFound),
            id < old(self)@.len() && old(self)@[id as int].started ==> res == Err::<
                (),
                GameError,
            >(GameError::AlreadyStarted),
            id < old(self)@.len() && !old(self)@[id as int].started ==> res is Ok,
            res is Err ==> final(self)@ == old(self)@,
            res is Ok ==> final(self)@ == old(self)@.update(
                id as int,
                old(self)@[id as int].after_join(sender@),
            ),
    {
        proof {
            self.lemma_view();
        }
        if id >= self.games.len() as u64 {
            return Err(GameError::NotFound);
        }
        let res = self.games[id as usize].join(sender);
        proof {
            self.lemma_view();
            if res is Ok {
                assert(self@ =~= old(self)@.update(
                    id as int,
                    old(self)@[id as int].after_join(sender@),
                ));
            } else {
                assert(self@ =~= old(self)@);
            }
        }
        res
    }

    /// Starts the game `id` at time `now`: from now on cards are drawn, and
    /// the first draw has to prove the round that is current at `now`.
    pub fn startGame(&mut self, id: u64, now: u64) -> (res: Result<(), GameError>)
        requires
            old(self).wf(),
            now >= GENESIS_TIME,
        ensures
            final(self).wf(),
            id >= old(self)@.len() ==> res == Err::<(), GameError>(GameError::NotFound)
                && final(self)@ == old(self)@,
            id < old(self)@.len() ==> res is Ok && final(self)@ == old(self)@.update(
                id as int,
                old(self)@[id as int].after_start(now),
            ),
    {
        proof {
            self.lemma_view();
        }
        if id >= self.games.len() as u64 {
            return Err(GameError::NotFound);
        }
        self.games[id as usize].start(now);
        proof {
            self.lemma_view();
            assert(self@ =~= old(self)@.update(id as int, old(self)@[id as int].after_start(now)));
        }
        Ok(())
    }

    /// The round of the beacon that a draw in game `game_id` by the account
    /// `sender` has to prove, or the reason why that account cannot draw
    /// there now. The verifier is asked about this round before the draw.
    pub fn round_to_prove(&self, game_id: u64, sender: Address) -> (res: Result<u64, GameError>)
        requires
            self.wf(),
        ensures
            res is Ok <==> draw_outcome(self@, game_id, sender@, Some(true)) is Ok,
            res matches Ok(round) ==> round == self@[game_id as int].next_round,
            res matches Err(e) ==> draw_outcome(self@, game_id, sender@, Some(true)) == Err::<
                (),
                GameError,
            >(e),
    {
        proof {
            self.lemma_view();
        }
        if game_id >= self.games.len() as u64 {
            return Err(GameError::NotFound);
        }
        self.games[game_id as usize].round_to_prove(sender)
    }

    /// Whether game `game_id` has a card for the player whose turn it is.
    /// There is no card in a game that does not exist.
    pub fn can_draw(&self, game_id: u64) -> (yes: bool)
        requires
            self.wf(),
        ensures
            yes == (game_id < self@.len() && self@[game_id as int].source().len() > 0),
    {
        proof {
            self.lemma_view();
        }
        if game_id >= self.games.len() as u64 {
            false
        } else {
            self.games[game_id as usize].can_draw()
        }
    }

    /// Draws a card in game `game_id` for the account `sender` at time `now`.
    ///
    /// `verdict` is what the beacon's verifier answered when asked whether
    /// `drand_signature` is the beacon's signature for the round that the
    /// game expects, and `None` where the verifier gave no answer. The draw
    /// is turned down, and nothing changes, where the game does not exist,
    /// has not started, the turn is not with `sender`, or the verifier has
    /// not confirmed the signature.
    ///
    /// Otherwise the card is picked by a generator seeded with the
    /// signature, from the common heap while it has cards and then from the
    /// player's own heap. It goes to the cards the player has shown, and the
    /// turn passes on by one place. When the turn comes back to the first
    /// player, the round is decided. The next draw has to prove the round
    /// that is current at `now`.
    pub fn draw(
        &mut self,
        game_id: u64,
        drand_signature: &[u8],
        sender: Address,
        now: u64,
        verdict: Option<bool>,
    ) -> (res: Result<(), GameError>)
        requires
            old(self).wf(),
            now >= GENESIS_TIME,
            draw_outcome(old(self)@, game_id, sender@, verdict) is Ok ==> old(
                self,
            )@[game_id as int].source().len() > 0,
        ensures
            final(self).wf(),
            res == draw_outcome(old(self)@, game_id, sender@, verdict),
            res is Err ==> final(self)@ == old(self)@,
            res is Ok ==> 0 <= old(self)@[game_id as int].pick(drand_signature@) < old(
                self,
            )@[game_id as int].source().len(),
            res is Ok ==> final(self)@ == old(self)@.update(
                game_id as int,
                old(self)@[game_id as int].after_draw(
                    old(self)@[game_id as int].pick(drand_signature@),
                    now,
                ),
            ),
            res is Ok ==> final(self)@[game_id as int].current_player_index == (old(
                self,
            )@[game_id as int].current_player_index + 1) % (old(
                self,
            )@[game_id as int].active_players.len() as int),
            verdict != Some(true) ==> res is Err,
    {
        proof {
            self.lemma_view();
        }
        if game_id >= self.games.len() as u64 {
            return Err(GameError::NotFound);
        }
        let res = self.games[game_id as usize].draw(sender, now, verdict, drand_signature);
        proof {
            self.lemma_view();
            let before = old(self)@[game_id as int];
            if res is Ok {
                let after = before.after_draw(before.pick(drand_signature@), now);
                assert(self@ =~= old(self)@.update(game_id as int, after));
            } else {
                assert(self@ =~= old(self)@);
            }
        }
        res
    }

    /// The account that won the last round that was played out in game
    /// `game_id`. It is the zero address where no round has been played out
    /// yet, and where there is no such game.
    pub fn winner(&self, game_id: u64) -> (account: Address)
        requires
            self.wf(),
        ensures
            game_id < self@.len() ==> account@ == self@[game_id as int].winner(),
            game_id >= self@.len() ==> account@ == zero_address(),
    {
        proof {
            self.lemma_view();
        }
        if game_id >= self.games.len() as u64 {
            Address::zero()
        } else {
            self.games[game_id as usize].winner()
        }
    }

    /// The round of the beacon that the next draw in game `game_id` has to
    /// prove.
    pub fn nextDrandRound(&self, game_id: u64) -> (res: Result<u64, GameError>)
        ensures
            game_id >= self@.len() ==> res == Err::<u64, GameError>(GameError::NotFound),
            game_id < self@.len() ==> res == Ok::<u64, GameError>(
                self@[game_id as int].next_round,
            ),
    {
        proof {
            self.lemma_view();
        }
        if game_id >= self.games.len() as u64 {
            Err(GameError::NotFound)
        } else {
            Ok(self.games[game_id as usize].next_round())
        }
    }
}

} // verus!
