use bataille::{rank, Address, Bataille, Card, GameError, GENESIS_TIME};

fn account(n: u8) -> Address {
    let mut bytes = [0u8; 20];
    bytes[19] = n;
    bytes[0] = 0xA0;
    Address(bytes)
}

/// The signature of a stand-in beacon for a round.
fn signature(round: u64) -> Vec<u8> {
    let mut sig = b"beacon round ".to_vec();
    sig.extend_from_slice(&round.to_be_bytes());
    sig
}

/// The verifier of the stand-in beacon.
fn verify(round: u64, sig: &[u8]) -> bool {
    sig == signature(round).as_slice()
}

/// One whole draw as a caller makes it: ask for the round, ask the verifier,
/// then draw with its verdict.
fn play(
    table: &mut Bataille,
    game_id: u64,
    sender: Address,
    now: u64,
    sig: &[u8],
) -> Result<(), GameError> {
    let verdict = match table.round_to_prove(game_id, sender) {
        Ok(round) => Some(verify(round, sig)),
        Err(_) => None,
    };
    if verdict == Some(true) {
        assert!(table.can_draw(game_id));
    }
    table.draw(game_id, sig, sender, now, verdict)
}

struct Snapshot {
    common_heap: Vec<Card>,
    heaps: Vec<Vec<Card>>,
    revealed: Vec<Vec<Card>>,
    owners: Vec<Address>,
    active: Vec<u64>,
    current: u64,
    started: bool,
    bataille: bool,
    next_round: u64,
    round_winner: Option<u64>,
}

fn snapshot(table: &Bataille, game_id: u64) -> Snapshot {
    let game = table.game(game_id).unwrap();
    let mut heaps = Vec::new();
    let mut revealed = Vec::new();
    let mut owners = Vec::new();
    for p in 0..game.n_players() as u64 {
        let player = game.player(p).unwrap();
        heaps.push(player.heap().clone());
        revealed.push(player.revealed_cards().clone());
        owners.push(player.owner());
    }
    assert!(game.player(game.n_players() as u64).is_none());
    Snapshot {
        common_heap: game.common_heap().clone(),
        heaps,
        revealed,
        owners,
        active: game.active_players().clone(),
        current: game.current_player_index(),
        started: game.started(),
        bataille: game.bataille(),
        next_round: game.next_round(),
        round_winner: game.round_winner(),
    }
}

fn same(a: &Snapshot, b: &Snapshot) -> bool {
    a.common_heap == b.common_heap
        && a.heaps == b.heaps
        && a.revealed == b.revealed
        && a.owners == b.owners
        && a.active == b.active
        && a.current == b.current
        && a.started == b.started
        && a.bataille == b.bataille
        && a.next_round == b.next_round
        && a.round_winner == b.round_winner
}

fn all_cards(s: &Snapshot) -> Vec<Card> {
    let mut cards = s.common_heap.clone();
    for h in &s.heaps {
        cards.extend_from_slice(h);
    }
    for r in &s.revealed {
        cards.extend_from_slice(r);
    }
    cards
}

fn assert_deck_is_whole(s: &Snapshot) {
    let total: usize = s.common_heap.len()
        + s.heaps.iter().map(|h| h.len()).sum::<usize>()
        + s.revealed.iter().map(|r| r.len()).sum::<usize>();
    assert_eq!(total, 52);
    let mut cards = all_cards(s);
    cards.sort();
    assert_eq!(cards, (0..52).collect::<Vec<Card>>());
}

fn started_game(players: u8, now: u64) -> Bataille {
    let mut table = Bataille::new();
    assert_eq!(table.createGame(account(0)), 0);
    for p in 1..players {
        assert_eq!(table.joinGame(0, account(p)), Ok(()));
    }
    assert_eq!(table.startGame(0, now), Ok(()));
    table
}

#[test]
fn a_new_table_has_no_game() {
    let table = Bataille::new();
    assert_eq!(table.n_games(), 0);
    assert!(table.game(0).is_none());
}

#[test]
fn games_are_numbered_in_order() {
    let mut table = Bataille::new();
    assert_eq!(table.createGame(account(1)), 0);
    assert_eq!(table.createGame(account(2)), 1);
    assert_eq!(table.createGame(account(1)), 2);
    assert_eq!(table.n_games(), 3);
    assert!(table.game(2).is_some());
    assert!(table.game(3).is_none());
    assert_eq!(snapshot(&table, 1).owners, vec![account(2)]);
}

#[test]
fn a_created_game_holds_the_deck_and_its_creator() {
    let mut table = Bataille::new();
    let id = table.createGame(account(7));
    let s = snapshot(&table, id);
    assert_eq!(s.common_heap, (0..52).collect::<Vec<Card>>());
    assert_eq!(s.owners, vec![account(7)]);
    assert_eq!(s.heaps, vec![Vec::<Card>::new()]);
    assert_eq!(s.revealed, vec![Vec::<Card>::new()]);
    assert_eq!(s.active, vec![0]);
    assert_eq!(s.current, 0);
    assert!(!s.started);
    assert!(!s.bataille);
    assert_eq!(s.round_winner, None);
    let pair = table.game(id).unwrap().players_bataille();
    assert_eq!(pair[0], Address::zero());
    assert_eq!(pair[1], Address::zero());
    assert_deck_is_whole(&s);
}

#[test]
fn joining_adds_a_player_at_the_end_of_the_turn_order() {
    let mut table = Bataille::new();
    table.createGame(account(0));
    assert_eq!(table.joinGame(0, account(1)), Ok(()));
    assert_eq!(table.joinGame(0, account(2)), Ok(()));
    let s = snapshot(&table, 0);
    assert_eq!(s.owners, vec![account(0), account(1), account(2)]);
    assert_eq!(s.active, vec![0, 1, 2]);
    assert_eq!(s.current, 0);
    assert_eq!(s.common_heap.len(), 52);
    assert!(s.heaps.iter().all(|h| h.is_empty()));
    assert!(s.revealed.iter().all(|r| r.is_empty()));
    assert_deck_is_whole(&s);
}

#[test]
fn joining_touches_no_other_game() {
    let mut table = Bataille::new();
    table.createGame(account(0));
    table.createGame(account(1));
    let before = snapshot(&table, 0);
    assert_eq!(table.joinGame(1, account(2)), Ok(()));
    assert!(same(&before, &snapshot(&table, 0)));
    assert_eq!(snapshot(&table, 1).active, vec![0, 1]);
}

#[test]
fn joining_a_game_that_is_not_there_fails() {
    let mut table = Bataille::new();
    assert_eq!(table.joinGame(0, account(1)), Err(GameError::NotFound));
    table.createGame(account(0));
    assert_eq!(table.joinGame(1, account(1)), Err(GameError::NotFound));
    assert_eq!(table.joinGame(u64::MAX, account(1)), Err(GameError::NotFound));
    assert_eq!(snapshot(&table, 0).active, vec![0]);
}

#[test]
fn joining_a_started_game_fails() {
    let mut table = started_game(2, GENESIS_TIME + 10);
    let before = snapshot(&table, 0);
    assert_eq!(table.joinGame(0, account(5)), Err(GameError::AlreadyStarted));
    assert!(same(&before, &snapshot(&table, 0)));
}

#[test]
fn starting_sets_the_round_of_the_time() {
    let mut table = Bataille::new();
    table.createGame(account(0));
    assert_eq!(table.nextDrandRound(0), Ok(0));
    assert_eq!(table.startGame(0, GENESIS_TIME + 10), Ok(()));
    let s = snapshot(&table, 0);
    assert!(s.started);
    assert_eq!(s.next_round, 4);
    assert_eq!(table.nextDrandRound(0), Ok(4));
    assert_eq!(s.common_heap.len(), 52);
    assert_eq!(s.current, 0);
}

#[test]
fn starting_again_takes_the_round_of_the_later_time() {
    let mut table = started_game(2, GENESIS_TIME);
    assert_eq!(table.nextDrandRound(0), Ok(1));
    assert_eq!(table.startGame(0, GENESIS_TIME + 30), Ok(()));
    assert_eq!(table.nextDrandRound(0), Ok(11));
    assert!(snapshot(&table, 0).started);
}

#[test]
fn starting_a_game_that_is_not_there_fails() {
    let mut table = Bataille::new();
    assert_eq!(table.startGame(0, GENESIS_TIME), Err(GameError::NotFound));
    table.createGame(account(0));
    assert_eq!(table.startGame(3, GENESIS_TIME), Err(GameError::NotFound));
    assert!(!snapshot(&table, 0).started);
}

#[test]
fn next_round_of_a_game_that_is_not_there_fails() {
    let mut table = Bataille::new();
    assert_eq!(table.nextDrandRound(0), Err(GameError::NotFound));
    table.createGame(account(0));
    assert_eq!(table.nextDrandRound(1), Err(GameError::NotFound));
}

#[test]
fn two_players_play_one_round() {
    let mut table = Bataille::new();
    let id = table.createGame(account(0));
    assert_eq!(id, 0);
    let s = snapshot(&table, 0);
    assert_eq!((s.owners.len(), s.common_heap.len()), (1, 52));

    assert_eq!(table.joinGame(0, account(1)), Ok(()));
    assert_eq!(snapshot(&table, 0).active.len(), 2);

    let start = GENESIS_TIME + 300;
    assert_eq!(table.startGame(0, start), Ok(()));
    assert_eq!(table.nextDrandRound(0), Ok(101));

    // The first player draws with the signature of that very round.
    let now = start + 4;
    assert_eq!(play(&mut table, 0, account(0), now, &signature(101)), Ok(()));
    let s = snapshot(&table, 0);
    assert_eq!(s.common_heap.len(), 51);
    assert_eq!(s.revealed[0].len(), 1);
    assert_eq!(s.revealed[1].len(), 0);
    assert_eq!(s.current, 1);
    assert_eq!(s.round_winner, None);
    assert_eq!(table.winner(0), Address::zero());
    assert_eq!(s.next_round, 102);
    assert_deck_is_whole(&s);

    // The second player draws with the signature of the round expected now.
    let now = now + 3;
    assert_eq!(play(&mut table, 0, account(1), now, &signature(102)), Ok(()));
    let s = snapshot(&table, 0);
    assert_eq!(s.common_heap.len(), 50);
    assert_eq!(s.revealed[0].len(), 1);
    assert_eq!(s.revealed[1].len(), 1);
    assert_eq!(s.current, 0);
    assert_eq!(s.next_round, 103);
    assert_deck_is_whole(&s);

    // The round goes to the higher rank, and to the first player in a tie.
    let leader = if rank(s.revealed[1][0]) > rank(s.revealed[0][0]) { 1 } else { 0 };
    assert_eq!(s.round_winner, Some(leader));
    assert_eq!(table.winner(0), account(leader as u8));
}

#[test]
fn a_signature_for_another_round_is_turned_down() {
    let mut table = started_game(2, GENESIS_TIME + 300);
    assert_eq!(table.nextDrandRound(0), Ok(101));
    let before = snapshot(&table, 0);
    for wrong in [100u64, 102, 0, 1] {
        assert_eq!(
            play(&mut table, 0, account(0), GENESIS_TIME + 400, &signature(wrong)),
            Err(GameError::VerificationFailed)
        );
        let after = snapshot(&table, 0);
        assert_eq!(after.common_heap.len(), 52);
        assert!(same(&before, &after));
    }
    assert_eq!(play(&mut table, 0, account(0), GENESIS_TIME + 400, &signature(101)), Ok(()));
}

#[test]
fn a_verifier_that_fails_turns_the_draw_down() {
    let mut table = started_game(2, GENESIS_TIME + 300);
    let before = snapshot(&table, 0);
    let sig = signature(101);
    assert_eq!(
        table.draw(0, &sig, account(0), GENESIS_TIME + 400, None),
        Err(GameError::VerificationFailed)
    );
    assert_eq!(
        table.draw(0, &sig, account(0), GENESIS_TIME + 400, Some(false)),
        Err(GameError::VerificationFailed)
    );
    assert!(same(&before, &snapshot(&table, 0)));
}

#[test]
fn drawing_in_a_game_that_is_not_there_fails() {
    let mut table = started_game(2, GENESIS_TIME);
    let before = snapshot(&table, 0);
    let sig = signature(1);
    assert_eq!(table.round_to_prove(1, account(0)), Err(GameError::NotFound));
    assert_eq!(table.draw(1, &sig, account(0), GENESIS_TIME, Some(true)), Err(GameError::NotFound));
    assert_eq!(table.draw(9, &sig, account(0), GENESIS_TIME, None), Err(GameError::NotFound));
    assert!(!table.can_draw(1));
    assert!(same(&before, &snapshot(&table, 0)));
}

#[test]
fn drawing_before_the_start_fails() {
    let mut table = Bataille::new();
    table.createGame(account(0));
    table.joinGame(0, account(1)).unwrap();
    let before = snapshot(&table, 0);
    let sig = signature(0);
    assert_eq!(table.round_to_prove(0, account(0)), Err(GameError::NotStarted));
    assert_eq!(
        table.draw(0, &sig, account(0), GENESIS_TIME, Some(true)),
        Err(GameError::NotStarted)
    );
    assert_eq!(
        table.draw(0, &sig, account(1), GENESIS_TIME, Some(false)),
        Err(GameError::NotStarted)
    );
    assert!(same(&before, &snapshot(&table, 0)));
}

#[test]
fn drawing_out_of_turn_fails() {
    let mut table = started_game(3, GENESIS_TIME);
    let before = snapshot(&table, 0);
    let sig = signature(1);
    assert_eq!(table.round_to_prove(0, account(1)), Err(GameError::OutOfTurn));
    for stranger in [account(1), account(2), account(9), Address::zero()] {
        assert_eq!(
            table.draw(0, &sig, stranger, GENESIS_TIME, Some(true)),
            Err(GameError::OutOfTurn)
        );
        assert_eq!(table.draw(0, &sig, stranger, GENESIS_TIME, None), Err(GameError::OutOfTurn));
    }
    assert!(same(&before, &snapshot(&table, 0)));
    assert_eq!(table.round_to_prove(0, account(0)), Ok(1));
    assert_eq!(play(&mut table, 0, account(0), GENESIS_TIME, &sig), Ok(()));
    // Now it is the second player's turn and no longer the first's.
    assert_eq!(table.round_to_prove(0, account(0)), Err(GameError::OutOfTurn));
    assert_eq!(table.round_to_prove(0, account(1)), Ok(1));
}

#[test]
fn the_turn_goes_round_the_table() {
    let mut now = GENESIS_TIME + 30;
    let mut table = started_game(3, now);
    for step in 0u64..12 {
        let before = snapshot(&table, 0);
        assert_eq!(before.current, step % 3);
        let sender = account((step % 3) as u8);
        let round = table.nextDrandRound(0).unwrap();
        assert_eq!(play(&mut table, 0, sender, now, &signature(round)), Ok(()));
        let after = snapshot(&table, 0);
        assert_eq!(after.current, (before.current + 1) % 3);
        assert_eq!(after.active, before.active);
        assert_eq!(after.common_heap.len(), before.common_heap.len() - 1);
        now += 3;
    }
}

#[test]
fn a_failed_draw_leaves_the_turn_where_it_is() {
    let mut table = started_game(3, GENESIS_TIME);
    assert_eq!(play(&mut table, 0, account(0), GENESIS_TIME, &signature(1)), Ok(()));
    assert_eq!(snapshot(&table, 0).current, 1);
    let sig = signature(1);
    let _ = play(&mut table, 0, account(0), GENESIS_TIME, &sig);
    let _ = play(&mut table, 0, account(1), GENESIS_TIME, &signature(77));
    let _ = play(&mut table, 5, account(1), GENESIS_TIME, &sig);
    assert_eq!(snapshot(&table, 0).current, 1);
}

#[test]
fn the_drawn_card_is_the_one_the_signature_picks() {
    let mut table = started_game(2, GENESIS_TIME);
    // The empty signature picks place 42 of 52, then place 19 of 51.
    assert_eq!(table.draw(0, &[], account(0), GENESIS_TIME, Some(true)), Ok(()));
    let s = snapshot(&table, 0);
    assert_eq!(s.revealed[0], vec![42]);
    let mut expected: Vec<Card> = (0..52).collect();
    expected[42] = 51;
    expected.pop();
    assert_eq!(s.common_heap, expected);
    assert_eq!(table.draw(0, &[], account(1), GENESIS_TIME, Some(true)), Ok(()));
    let s = snapshot(&table, 0);
    assert_eq!(s.revealed[1], vec![19]);
    expected[19] = 50;
    expected.pop();
    assert_eq!(s.common_heap, expected);
    // Ranks 3 and 6: the second player leads.
    assert_eq!(s.round_winner, Some(1));
    assert_eq!(table.winner(0), account(1));
}

#[test]
fn the_same_signatures_play_the_same_game() {
    let mut a = started_game(3, GENESIS_TIME);
    let mut b = started_game(3, GENESIS_TIME);
    for step in 0u64..30 {
        let sender = account((step % 3) as u8);
        let sig = signature(step * 7);
        assert_eq!(a.draw(0, &sig, sender, GENESIS_TIME + step, Some(true)), Ok(()));
        assert_eq!(b.draw(0, &sig, sender, GENESIS_TIME + step, Some(true)), Ok(()));
        assert!(same(&snapshot(&a, 0), &snapshot(&b, 0)));
    }
}

#[test]
fn the_deck_stays_whole_through_a_game() {
    let mut now = GENESIS_TIME + 1000;
    let mut table = started_game(4, now);
    assert_deck_is_whole(&snapshot(&table, 0));
    for step in 0u64..52 {
        assert!(table.can_draw(0));
        let round = table.nextDrandRound(0).unwrap();
        now += 5;
        let sender = account((step % 4) as u8);
        // A failed attempt in between changes nothing.
        assert!(play(&mut table, 0, sender, now, &signature(round + 1)).is_err());
        assert_eq!(play(&mut table, 0, sender, now, &signature(round)), Ok(()));
        let s = snapshot(&table, 0);
        assert_eq!(s.common_heap.len() as u64, 51 - step);
        assert_eq!(s.revealed.iter().map(|r| r.len() as u64).sum::<u64>(), step + 1);
        assert_deck_is_whole(&s);
    }
    // The common heap is used up, and no player has a heap of their own.
    let s = snapshot(&table, 0);
    assert!(s.common_heap.is_empty());
    assert!(s.heaps.iter().all(|h| h.is_empty()));
    assert_eq!(s.revealed.iter().map(|r| r.len()).collect::<Vec<_>>(), vec![13, 13, 13, 13]);
    assert!(!table.can_draw(0));
}

#[test]
fn the_round_goes_to_the_first_highest_rank() {
    for game in 0u64..40 {
        let mut table = started_game(4, GENESIS_TIME);
        for step in 0u64..4 {
            assert_eq!(snapshot(&table, 0).round_winner, None);
            assert_eq!(table.winner(0), Address::zero());
            let sig = signature(game * 100 + step);
            let sender = account(step as u8);
            assert_eq!(table.draw(0, &sig, sender, GENESIS_TIME, Some(true)), Ok(()));
        }
        let s = snapshot(&table, 0);
        let stakes: Vec<u8> = s.revealed.iter().map(|r| rank(r[0])).collect();
        let highest = *stakes.iter().max().unwrap();
        let leader = stakes.iter().position(|r| *r == highest).unwrap();
        assert_eq!(s.round_winner, Some(leader as u64));
        assert_eq!(table.winner(0), account(leader as u8));
        // The winner stays until the next round is played out.
        let sig = signature(game);
        assert_eq!(table.draw(0, &sig, account(0), GENESIS_TIME, Some(true)), Ok(()));
        assert_eq!(table.winner(0), account(leader as u8));
    }
}

#[test]
fn a_single_player_plays_rounds_alone() {
    let mut table = started_game(1, GENESIS_TIME);
    assert_eq!(table.draw(0, &signature(1), account(0), GENESIS_TIME, Some(true)), Ok(()));
    let s = snapshot(&table, 0);
    assert_eq!(s.current, 0);
    assert_eq!(s.round_winner, Some(0));
    assert_eq!(table.winner(0), account(0));
}

#[test]
fn the_winner_of_a_game_that_is_not_there_is_nobody() {
    let mut table = Bataille::new();
    assert_eq!(table.winner(0), Address::zero());
    table.createGame(account(3));
    assert_eq!(table.winner(0), Address::zero());
    assert_eq!(table.winner(1), Address::zero());
}

#[test]
fn a_draw_after_the_round_is_over_expects_a_later_round() {
    let mut table = started_game(2, GENESIS_TIME + 300);
    assert_eq!(table.nextDrandRound(0), Ok(101));
    // Round 101 ends when round 102 begins, 303 seconds after genesis.
    assert_eq!(play(&mut table, 0, account(0), GENESIS_TIME + 303, &signature(101)), Ok(()));
    assert_eq!(table.nextDrandRound(0), Ok(102));
    assert_eq!(play(&mut table, 0, account(1), GENESIS_TIME + 3000, &signature(102)), Ok(()));
    assert_eq!(table.nextDrandRound(0), Ok(1001));
}

#[test]
fn a_draw_within_the_round_expects_the_same_round_again() {
    let mut table = started_game(2, GENESIS_TIME + 300);
    assert_eq!(table.nextDrandRound(0), Ok(101));
    assert_eq!(play(&mut table, 0, account(0), GENESIS_TIME + 302, &signature(101)), Ok(()));
    assert_eq!(table.nextDrandRound(0), Ok(101));
    assert_eq!(snapshot(&table, 0).common_heap.len(), 51);
}

#[test]
fn games_do_not_share_cards_or_turns() {
    let mut table = Bataille::new();
    table.createGame(account(0));
    table.createGame(account(0));
    table.startGame(0, GENESIS_TIME).unwrap();
    table.startGame(1, GENESIS_TIME + 60).unwrap();
    let other = snapshot(&table, 1);
    assert_eq!(play(&mut table, 0, account(0), GENESIS_TIME, &signature(1)), Ok(()));
    assert!(same(&other, &snapshot(&table, 1)));
    assert_eq!(snapshot(&table, 0).common_heap.len(), 51);
    assert_eq!(table.nextDrandRound(1), Ok(21));
}

#[test]
fn errors_have_their_words() {
    assert_eq!(GameError::NotFound.message(), "no such game");
    assert_eq!(GameError::AlreadyStarted.message(), "game started");
    assert_eq!(GameError::NotStarted.message(), "game not started");
    assert_eq!(GameError::OutOfTurn.message(), "out of turn");
    assert_eq!(GameError::VerificationFailed.message(), "drand verification failed");
}

#[test]
fn accounts_are_equal_when_their_bytes_are() {
    assert_eq!(account(1), account(1));
    assert_ne!(account(1), account(2));
    assert_eq!(Address::zero(), Address([0u8; 20]));
    assert_ne!(Address::zero(), account(0));
    let mut bytes = [0u8; 20];
    bytes[0] = 1;
    assert_ne!(Address(bytes), Address::zero());
    bytes[0] = 0;
    bytes[19] = 1;
    assert_ne!(Address(bytes), Address::zero());
}
