use guessing_game::connection::{ConnectionHandler, TextDisposition};
use guessing_game::game::{AdmitDecision, GameState, GuessOutcome, Player};
use guessing_game::parse::parse_guess;

fn state_with_secret(secret: u32) -> GameState {
    GameState {
        current_round: 1,
        secret_number: secret,
        players: Vec::new(),
        round_active: true,
        max_rounds: 5,
        max_players: 4,
    }
}

fn player(id: u64, name: &str, wins: u32, connected: bool) -> Player {
    Player { id, name: name.to_string(), wins, connected }
}

#[test]
fn new_game_defaults() {
    let g = GameState::new();
    assert_eq!(g.current_round, 1);
    assert!(g.round_active);
    assert!(g.players.is_empty());
    assert_eq!(g.max_rounds, 5);
    assert_eq!(g.max_players, 4);
    assert!(g.secret_number >= 1 && g.secret_number <= 100);
    assert!(!g.is_game_over());
}

#[test]
fn fresh_secret_each_round() {
    let mut g = GameState::new();
    let mut seen = Vec::new();
    for _ in 0..20 {
        g.round_active = false;
        g.current_round = 1;
        g.reset_for_next_round();
        assert!(g.secret_number >= 1 && g.secret_number <= 100);
        seen.push(g.secret_number);
    }
    // twenty uniform draws from 1..=100 are essentially never all equal
    assert!(seen.iter().any(|&s| s != seen[0]));
}

#[test]
fn admission_fresh_game_accepts() {
    let g = state_with_secret(42);
    assert!(g.can_accept_new_connection());
    assert_eq!(g.try_admit(), AdmitDecision::Accepted);
}

#[test]
fn admission_rejects_in_progress() {
    let mut g = state_with_secret(42);
    g.current_round = 2;
    assert!(!g.can_accept_new_connection());
    assert_eq!(g.try_admit(), AdmitDecision::GameInProgress);
    // the unified gate agrees for a new identity, while a returning
    // identity is still let through
    assert_eq!(g.admit_connection(false), AdmitDecision::GameInProgress);
    assert_eq!(g.admit_connection(true), AdmitDecision::Accepted);
}

#[test]
fn admission_rejects_when_full() {
    let mut g = state_with_secret(42);
    for id in 0..4u64 {
        g.players.push(player(id, "p", 0, true));
    }
    assert_eq!(g.get_active_player_count(), 4);
    assert!(!g.can_accept_new_connection());
    assert_eq!(g.try_admit(), AdmitDecision::CapacityReached);
}

#[test]
fn admission_rejects_while_resolving() {
    let mut g = state_with_secret(42);
    g.round_active = false;
    assert_eq!(g.try_admit(), AdmitDecision::RoundResolving);
}

#[test]
fn admission_rejects_after_game_end() {
    let mut g = state_with_secret(42);
    g.current_round = 6;
    assert!(g.is_game_over());
    assert_eq!(g.try_admit(), AdmitDecision::GameEnded);
    // even a returning identity is turned away once the game is over
    assert_eq!(g.admit_connection(true), AdmitDecision::GameEnded);
}

#[test]
fn join_until_capacity() {
    let mut g = state_with_secret(42);
    for id in 1..=4u64 {
        assert!(g.add_or_reconnect_player(id, format!("player{}", id)));
    }
    assert_eq!(g.get_active_player_count(), 4);
    assert!(!g.add_or_reconnect_player(5, "late".to_string()));
    assert_eq!(g.players.len(), 4);
}

#[test]
fn reconnect_bypasses_capacity_and_round() {
    let mut g = state_with_secret(42);
    for id in 1..=4u64 {
        assert!(g.add_or_reconnect_player(id, format!("player{}", id)));
    }
    g.players[1].wins = 3;
    g.remove_active_connection(2);
    assert!(!g.players[1].connected);
    // the game has moved on and the table is otherwise full
    g.current_round = 4;
    assert_eq!(g.admit_connection(true), AdmitDecision::Accepted);
    assert!(g.add_or_reconnect_player(2, "renamed".to_string()));
    assert!(g.players[1].connected);
    assert_eq!(g.players[1].name, "renamed");
    // the prior win count is preserved exactly
    assert_eq!(g.players[1].wins, 3);
    assert_eq!(g.players.len(), 4);
}

#[test]
fn disconnect_keeps_the_record() {
    let mut g = state_with_secret(42);
    assert!(g.add_or_reconnect_player(7, "alice".to_string()));
    g.players[0].wins = 2;
    g.remove_active_connection(7);
    assert_eq!(g.get_active_player_count(), 0);
    assert_eq!(g.players.len(), 1);
    assert_eq!(g.players[0].wins, 2);
    assert_eq!(g.players[0].name, "alice");
}

#[test]
fn guess_invalid_input_is_private() {
    let mut g = state_with_secret(42);
    assert!(g.add_or_reconnect_player(1, "alice".to_string()));
    let out = g.process_guess(1, b"abc");
    assert_eq!(out, GuessOutcome::InvalidInput);
    assert!(!out.is_broadcast());
    assert!(g.round_active);
    assert_eq!(g.players[0].wins, 0);
}

#[test]
fn guess_out_of_range_is_private() {
    let mut g = state_with_secret(42);
    assert!(g.add_or_reconnect_player(1, "alice".to_string()));
    let out = g.process_guess(1, b"150");
    assert_eq!(out, GuessOutcome::OutOfRange { guess: 150 });
    assert!(!out.is_broadcast());
    let out = g.process_guess(1, b"0");
    assert_eq!(out, GuessOutcome::OutOfRange { guess: 0 });
    assert!(g.round_active);
}

#[test]
fn guess_too_low_and_too_high_broadcast() {
    let mut g = state_with_secret(50);
    assert!(g.add_or_reconnect_player(1, "alice".to_string()));
    let out = g.process_guess(1, b"25");
    assert_eq!(out, GuessOutcome::TooLow { guess: 25, round: 1 });
    assert!(out.is_broadcast());
    let out = g.process_guess(1, b"75");
    assert_eq!(out, GuessOutcome::TooHigh { guess: 75, round: 1 });
    assert!(out.is_broadcast());
    assert!(g.round_active);
    assert_eq!(g.players[0].wins, 0);
}

#[test]
fn winning_guess_closes_round_atomically() {
    let mut g = state_with_secret(42);
    assert!(g.add_or_reconnect_player(1, "alice".to_string()));
    assert!(g.add_or_reconnect_player(2, "bob".to_string()));
    let out = g.process_guess(1, b"42");
    assert_eq!(out, GuessOutcome::Won { guess: 42, round: 1, last_round: false });
    assert!(out.is_broadcast());
    assert!(!g.round_active);
    assert_eq!(g.players[0].wins, 1);
    assert_eq!(g.players[1].wins, 0);
    // the round is already closed: a second correct guess cannot win it
    let out = g.process_guess(2, b"42");
    assert_eq!(out, GuessOutcome::RoundInactive);
    assert_eq!(g.players[0].wins, 1);
    assert_eq!(g.players[1].wins, 0);
}

#[test]
fn guesses_ignored_while_resolving() {
    let mut g = state_with_secret(42);
    assert!(g.add_or_reconnect_player(1, "alice".to_string()));
    g.round_active = false;
    assert_eq!(g.process_guess(1, b"10"), GuessOutcome::RoundInactive);
    assert_eq!(g.process_guess(1, b"abc"), GuessOutcome::RoundInactive);
}

#[test]
fn leaderboard_sorted_with_stable_ties() {
    let mut g = state_with_secret(42);
    g.players.push(player(1, "alice", 2, true));
    g.players.push(player(2, "bob", 5, true));
    g.players.push(player(3, "carol", 2, false));
    g.players.push(player(4, "dave", 0, true));
    let lb = g.get_leaderboard();
    let expect = vec![
        ("bob".to_string(), 5),
        ("alice".to_string(), 2),
        ("carol".to_string(), 2),
        ("dave".to_string(), 0),
    ];
    assert_eq!(lb, expect);
}

#[test]
fn leaderboard_ties_follow_registration_order() {
    let mut g = state_with_secret(42);
    g.players.push(player(10, "first", 1, true));
    g.players.push(player(11, "second", 1, true));
    g.players.push(player(12, "third", 1, true));
    let lb = g.get_leaderboard();
    let expect = vec![
        ("first".to_string(), 1),
        ("second".to_string(), 1),
        ("third".to_string(), 1),
    ];
    assert_eq!(lb, expect);
}

#[test]
fn broadcast_recipients_in_order() {
    let mut g = state_with_secret(42);
    g.players.push(player(1, "alice", 0, true));
    g.players.push(player(2, "bob", 0, false));
    g.players.push(player(3, "carol", 0, true));
    assert_eq!(g.broadcast_recipients(), vec![1, 3]);
    assert_eq!(g.broadcast_recipients_except(3), vec![1]);
    assert_eq!(g.broadcast_recipients_except(9), vec![1, 3]);
}

#[test]
fn ending_an_empty_game_yields_empty_standings() {
    let mut g = state_with_secret(42);
    g.round_active = false;
    g.current_round = 5;
    let standings = g.end_game();
    assert!(standings.is_empty());
    assert_eq!(g.current_round, 1);
    assert!(g.players.is_empty());
    assert!(g.round_active);
}

#[test]
fn first_message_is_the_name_never_a_guess() {
    let mut h = ConnectionHandler::new(99);
    assert_eq!(h.player_id, 99);
    assert!(!h.named);
    assert_eq!(h.on_text(), TextDisposition::UseAsName);
    assert!(h.named);
    assert_eq!(h.on_text(), TextDisposition::UseAsGuess);
    assert_eq!(h.on_text(), TextDisposition::UseAsGuess);
    assert_eq!(h.player_id, 99);
}

#[test]
fn parse_guess_grammar() {
    assert_eq!(parse_guess(b"42"), Some(42));
    assert_eq!(parse_guess(b"+7"), Some(7));
    assert_eq!(parse_guess(b"007"), Some(7));
    assert_eq!(parse_guess(b"4294967295"), Some(u32::MAX));
    assert_eq!(parse_guess(b""), None);
    assert_eq!(parse_guess(b"+"), None);
    assert_eq!(parse_guess(b"12a"), None);
    assert_eq!(parse_guess(b"-3"), None);
    assert_eq!(parse_guess(b"4294967296"), None);
    assert_eq!(parse_guess(b"99999999999999999999"), None);
    assert_eq!(parse_guess(b" 42"), None);
}
