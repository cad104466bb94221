use guessing_game::game::{AdmitDecision, GameState, GuessOutcome};

fn state_with_secret(secret: u32) -> GameState {
    GameState {
        current_round: 1,
        secret_number: secret,
        players: Vec::new(),
        round_active: true,
        max_rounds: 5,
        max_players: 4,
    }
}

/// Capacity 4, max rounds 5: four distinct players join in round 1, a
/// fifth is rejected for capacity, a correct guess wins round 1 for
/// everyone to see, and round 2 starts with a new secret and all four
/// players still attached.
#[test]
fn full_round_one_and_into_round_two() {
    let mut g = state_with_secret(37);
    assert_eq!(g.max_players, 4);
    assert_eq!(g.max_rounds, 5);

    for id in 1..=4u64 {
        assert_eq!(g.try_admit(), AdmitDecision::Accepted);
        assert!(g.add_or_reconnect_player(id, format!("player{}", id)));
    }

    // a fifth join attempt in round 1 is rejected with a capacity reason
    assert_eq!(g.try_admit(), AdmitDecision::CapacityReached);
    assert!(!g.add_or_reconnect_player(5, "fifth".to_string()));

    // player 1 guesses the secret and wins round 1
    let out = g.process_guess(1, b"37");
    assert_eq!(out, GuessOutcome::Won { guess: 37, round: 1, last_round: false });
    // the win is announced to all four connected players
    assert!(out.is_broadcast());
    assert_eq!(g.broadcast_recipients(), vec![1, 2, 3, 4]);
    assert_eq!(g.players[0].wins, 1);

    // after the announcement delay the next round starts
    g.reset_for_next_round();
    assert_eq!(g.current_round, 2);
    assert!(g.round_active);
    assert!(g.secret_number >= 1 && g.secret_number <= 100);
    // all four players remain attached without rejoining
    assert_eq!(g.get_active_player_count(), 4);
    assert_eq!(g.players.len(), 4);
}

/// After round 5 is won the game ends: the final standings name the
/// top player first (the champion), every connection is closed, and a
/// new connection afterwards finds a fresh round 1.
#[test]
fn game_over_after_final_round() {
    let mut g = state_with_secret(10);
    for id in 1..=3u64 {
        assert!(g.add_or_reconnect_player(id, format!("player{}", id)));
    }

    // play all five rounds; player 2 wins three, player 1 wins two
    let winners: [u64; 5] = [2, 1, 2, 2, 1];
    for (round, &winner) in winners.iter().enumerate() {
        assert_eq!(g.current_round, round as u32 + 1);
        let secret = format!("{}", g.secret_number);
        let out = g.process_guess(winner, secret.as_bytes());
        let last = round == 4;
        assert_eq!(
            out,
            GuessOutcome::Won { guess: g.secret_number, round: round as u32 + 1, last_round: last }
        );
        if !last {
            g.reset_for_next_round();
        }
    }

    // all connected players receive the final standings broadcast
    assert_eq!(g.broadcast_recipients(), vec![1, 2, 3]);
    let standings = g.end_game();
    let expect = vec![
        ("player2".to_string(), 3),
        ("player1".to_string(), 2),
        ("player3".to_string(), 0),
    ];
    // ranked best first: the top win-count player is the champion
    assert_eq!(standings, expect);
    assert_eq!(standings[0].0, "player2");

    // the session restarted: a new connection joins a fresh round 1
    assert_eq!(g.current_round, 1);
    assert!(g.round_active);
    assert!(g.players.is_empty());
    assert_eq!(g.try_admit(), AdmitDecision::Accepted);
    assert!(g.add_or_reconnect_player(9, "newcomer".to_string()));
}

/// A malformed guess and an out-of-range guess are answered privately
/// and change nothing; no broadcast goes out.
#[test]
fn malformed_guesses_stay_private() {
    let mut g = state_with_secret(42);
    assert!(g.add_or_reconnect_player(1, "alice".to_string()));
    assert!(g.add_or_reconnect_player(2, "bob".to_string()));

    let out = g.process_guess(1, b"abc");
    assert_eq!(out, GuessOutcome::InvalidInput);
    assert!(!out.is_broadcast());

    let out = g.process_guess(1, b"150");
    assert_eq!(out, GuessOutcome::OutOfRange { guess: 150 });
    assert!(!out.is_broadcast());

    assert!(g.round_active);
    assert_eq!(g.players[0].wins, 0);
    assert_eq!(g.players[1].wins, 0);
}
