use crate::parse::{guess_value, is_valid_guess_text, lemma_digits_value_nonneg, parse_guess};
use crate::secret::{draw_secret, SECRET_MAX, SECRET_MIN};
use crate::standings::{is_leaderboard, is_standings_order, precedes, standings_order};
use vstd::prelude::*;

verus! {

/// How many players may hold a live connection at once.
pub const MAX_PLAYERS: usize = 4;

/// How many rounds one game lasts.
pub const MAX_ROUNDS: u32 = 5;

/// One registered player. The record survives disconnects: `connected`
/// flips, but the id, name and win count stay until the game ends.
pub struct Player {
    /// Stable identity, assigned at first admission.
    pub id: u64,
    /// Display name, re-supplied on every connect or reconnect.
    pub name: String,
    /// Cumulative rounds won in the current game.
    pub wins: u32,
    /// Whether a live connection is currently attached.
    pub connected: bool,
}

/// The shared session state: the single source of truth for one game.
///
/// The registry is kept in registration order, which is what breaks
/// ties in the standings.
pub struct GameState {
    /// Current round, starting at 1.
    pub current_round: u32,
    /// The value to guess this round; never revealed to clients.
    pub secret_number: u32,
    /// Player registry, in order of first admission.
    pub players: Vec<Player>,
    /// True while the round accepts guesses; false once it is won,
    /// until the next round starts.
    pub round_active: bool,
    /// Round bound for this game.
    pub max_rounds: u32,
    /// Capacity bound for this game.
    pub max_players: usize,
}

/// No two registry entries share an id.
pub open spec fn ids_unique(ps: Seq<Player>) -> bool {
    forall|i: int, j: int| 0 <= i < j < ps.len() ==> ps[i].id != ps[j].id
}

/// Whether some registry entry carries `id`.
pub open spec fn has_id(ps: Seq<Player>, id: u64) -> bool {
    exists|i: int| 0 <= i < ps.len() && ps[i].id == id
}

/// The index of the registry entry carrying `id`.
pub open spec fn index_of(ps: Seq<Player>, id: u64) -> int {
    choose|i: int| 0 <= i < ps.len() && ps[i].id == id
}

/// How many registry entries currently hold a live connection.
pub open spec fn count_connected(ps: Seq<Player>) -> int
    decreases ps.len(),
{
    if ps.len() == 0 {
        0
    } else {
        count_connected(ps.drop_last()) + if ps.last().connected {
            1int
        } else {
            0int
        }
    }
}

/// The ids of the connected players, in registration order, with
/// `excl` (when given) left out.
pub open spec fn spec_connected_ids_except(ps: Seq<Player>, excl: Option<u64>) -> Seq<u64>
    decreases ps.len(),
{
    if ps.len() == 0 {
        Seq::empty()
    } else {
        let rest = spec_connected_ids_except(ps.drop_last(), excl);
        if ps.last().connected && excl != Some(ps.last().id) {
            rest.push(ps.last().id)
        } else {
            rest
        }
    }
}

impl GameState {
    /// Well-formedness: every state the library hands out satisfies
    /// this, and every operation preserves it.
    pub open spec fn wf(self) -> bool {
        &&& 1 <= self.current_round <= self.max_rounds + 1
        &&& SECRET_MIN <= self.secret_number <= SECRET_MAX
        &&& self.max_rounds >= 1
        &&& self.max_rounds < u32::MAX
        &&& self.max_players >= 1
        &&& ids_unique(self.players@)
        &&& forall|i: int|
            0 <= i < self.players@.len() ==> #[trigger] self.players@[i].wins + (if self.round_active {
                1int
            } else {
                0int
            }) <= self.current_round
    }

    /// A fresh game: round 1 open for guesses, empty registry, a newly
    /// drawn secret, and the fixed capacity and round bounds.
    pub fn new() -> (g: GameState)
        ensures
            g.wf(),
            g.current_round == 1,
            g.round_active,
            g.players@.len() == 0,
            g.max_rounds == MAX_ROUNDS,
            g.max_players == MAX_PLAYERS,
    {
        GameState {
            current_round: 1,
            secret_number: draw_secret(),
            players: Vec::new(),
            round_active: true,
            max_rounds: MAX_ROUNDS,
            max_players: MAX_PLAYERS,
        }
    }

    /// The game is over once the round number has passed the bound.
    pub fn is_game_over(&self) -> (over: bool)
        ensures
            over == (self.current_round > self.max_rounds),
    {
        self.current_round > self.max_rounds
    }

    /// Admission rule for a genuinely new identity: capacity not yet
    /// reached, the game is in its first round, not over, and the
    /// round is open for guesses.
    pub open spec fn spec_can_accept(self) -> bool {
        &&& count_connected(self.players@) < self.max_players
        &&& self.current_round == 1
        &&& !(self.current_round > self.max_rounds)
        &&& self.round_active
    }

    /// Registry lookup by id.
    pub fn find_index(&self, id: u64) -> (r: Option<usize>)
        requires
            ids_unique(self.players@),
        ensures
            match r {
                Some(i) => {
                    &&& has_id(self.players@, id)
                    &&& i < self.players@.len()
                    &&& self.players@[i as int].id == id
                    &&& i == index_of(self.players@, id)
                },
                None => !has_id(self.players@, id),
            },
    {
        let n = self.players.len();
        for i in 0..n
            invariant
                n == self.players@.len(),
                forall|j: int| 0 <= j < i ==> self.players@[j].id != id,
                ids_unique(self.players@),
        {
            if self.players[i].id == id {
                proof {
                    lemma_index_of_unique(self.players@, id, i as int);
                }
                return Some(i);
            }
        }
        None
    }

    /// Number of players with a live connection.
    pub fn get_active_player_count(&self) -> (n: usize)
        ensures
            n == count_connected(self.players@),
    {
        proof {
            lemma_count_connected_bounds(self.players@);
        }
        let mut n: usize = 0;
        let len = self.players.len();
        for i in 0..len
            invariant
                len == self.players@.len(),
                n == count_connected(self.players@.take(i as int)),
                n <= i,
        {
            proof {
                assert(self.players@.take(i + 1).drop_last() =~= self.players@.take(i as int));
                assert(self.players@.take(i + 1).last() == self.players@[i as int]);
            }
            if self.players[i].connected {
                n = n + 1;
            }
        }
        proof {
            assert(self.players@.take(len as int) =~= self.players@);
        }
        n
    }

    /// Whether a brand-new connection may be admitted right now.
    pub fn can_accept_new_connection(&self) -> (ok: bool)
        ensures
            ok == self.spec_can_accept(),
    {
        self.get_active_player_count() < self.max_players && self.current_round == 1
            && !self.is_game_over() && self.round_active
    }

    /// The admission decision for a brand-new identity, with the
    /// reasons checked in a fixed order: a finished game first, then a
    /// game already past its first round, then capacity, then a round
    /// that is being resolved.
    pub open spec fn spec_admit_new(self) -> AdmitDecision {
        if self.current_round > self.max_rounds {
            AdmitDecision::GameEnded
        } else if self.current_round > 1 {
            AdmitDecision::GameInProgress
        } else if count_connected(self.players@) >= self.max_players {
            AdmitDecision::CapacityReached
        } else if !self.round_active {
            AdmitDecision::RoundResolving
        } else {
            AdmitDecision::Accepted
        }
    }

    /// Admission decision for a connection presenting a brand-new
    /// identity, with the reason when it is turned away.
    pub fn try_admit(&self) -> (d: AdmitDecision)
        requires
            self.wf(),
        ensures
            d == self.spec_admit_new(),
            (d == AdmitDecision::Accepted) <==> self.spec_can_accept(),
    {
        if self.is_game_over() {
            AdmitDecision::GameEnded
        } else if self.current_round > 1 {
            AdmitDecision::GameInProgress
        } else if self.get_active_player_count() >= self.max_players {
            AdmitDecision::CapacityReached
        } else if !self.round_active {
            AdmitDecision::RoundResolving
        } else {
            AdmitDecision::Accepted
        }
    }

    /// Admission decision covering both kinds of connection: a
    /// returning identity (one already issued by this game) re-attaches
    /// in any round as long as the game is running, and never counts
    /// against capacity; a brand-new identity passes the full gate.
    pub fn admit_connection(&self, returning: bool) -> (d: AdmitDecision)
        requires
            self.wf(),
        ensures
            returning ==> d == (if self.current_round > self.max_rounds {
                AdmitDecision::GameEnded
            } else {
                AdmitDecision::Accepted
            }),
            !returning ==> d == self.spec_admit_new(),
    {
        if returning {
            if self.is_game_over() {
                AdmitDecision::GameEnded
            } else {
                AdmitDecision::Accepted
            }
        } else {
            self.try_admit()
        }
    }

    /// A guess of `v` would win in this state: the round is open and
    /// `v` hits the secret.
    pub open spec fn spec_wins(self, v: int) -> bool {
        self.round_active && v == self.secret_number
    }

    /// A text message from `winner` wins in this state.
    pub open spec fn wins_with(self, s: Seq<u8>) -> bool {
        &&& self.round_active
        &&& is_valid_guess_text(s)
        &&& self.spec_wins(guess_value(s))
    }

    /// Resolve one text message from an admitted, named connection,
    /// atomically: the round-open check, the comparison against the
    /// secret, and — on a hit — closing the round and crediting the
    /// win are one indivisible step, so no two connections can both
    /// win the same round.
    pub fn process_guess(&mut self, player_id: u64, text: &[u8]) -> (out: GuessOutcome)
        requires
            old(self).wf(),
            has_id(old(self).players@, player_id),
        ensures
            final(self).wf(),
            final(self).current_round == old(self).current_round,
            final(self).secret_number == old(self).secret_number,
            final(self).max_rounds == old(self).max_rounds,
            final(self).max_players == old(self).max_players,
            has_id(final(self).players@, player_id),
            !old(self).round_active ==> out == GuessOutcome::RoundInactive,
            old(self).round_active && !is_valid_guess_text(text@) ==> out
                == GuessOutcome::InvalidInput,
            old(self).round_active && is_valid_guess_text(text@) && !(SECRET_MIN <= guess_value(
                text@,
            ) <= SECRET_MAX) ==> out == (GuessOutcome::OutOfRange {
                guess: guess_value(text@) as u32,
            }),
            old(self).round_active && is_valid_guess_text(text@) && SECRET_MIN <= guess_value(
                text@,
            ) && guess_value(text@) < old(self).secret_number ==> out == (GuessOutcome::TooLow {
                guess: guess_value(text@) as u32,
                round: old(self).current_round,
            }),
            old(self).round_active && is_valid_guess_text(text@) && guess_value(text@) > old(
                self,
            ).secret_number && guess_value(text@) <= SECRET_MAX ==> out == (GuessOutcome::TooHigh {
                guess: guess_value(text@) as u32,
                round: old(self).current_round,
            }),
            old(self).wins_with(text@) ==> out == (GuessOutcome::Won {
                guess: old(self).secret_number,
                round: old(self).current_round,
                last_round: old(self).current_round >= old(self).max_rounds,
            }),
            old(self).wins_with(text@) <==> win_step(*old(self), *final(self), player_id),
            !old(self).wins_with(text@) ==> *final(self) == *old(self),
    {
        if !self.round_active {
            return GuessOutcome::RoundInactive;
        }
        match parse_guess(text) {
            None => GuessOutcome::InvalidInput,
            Some(guess) => {
                proof {
                    lemma_digits_value_nonneg(crate::parse::guess_digits(text@));
                }
                if guess < SECRET_MIN || guess > SECRET_MAX {
                    GuessOutcome::OutOfRange { guess }
                } else if guess < self.secret_number {
                    GuessOutcome::TooLow { guess, round: self.current_round }
                } else if guess > self.secret_number {
                    GuessOutcome::TooHigh { guess, round: self.current_round }
                } else {
                    self.round_active = false;
                    let i = match self.find_index(player_id) {
                        Some(i) => i,
                        None => {
                            proof {
                                assert(false);
                            }
                            0
                        },
                    };
                    self.players[i].wins = self.players[i].wins + 1;
                    proof {
                        assert(ids_unique(self.players@)) by {
                            assert(forall|j: int|
                                0 <= j < self.players@.len() ==> self.players@[j].id == old(
                                    self,
                                ).players@[j].id);
                        }
                        assert(has_id(self.players@, player_id)) by {
                            assert(self.players@[i as int].id == player_id);
                        }
                    }
                    GuessOutcome::Won {
                        guess,
                        round: self.current_round,
                        last_round: self.current_round >= self.max_rounds,
                    }
                }
            },
        }
    }

    /// Begin the next round after one has been resolved: the round
    /// number advances by one, a fresh secret is drawn, guessing
    /// reopens, and every registry record — wins, names, connections —
    /// is carried over unchanged.
    pub fn reset_for_next_round(&mut self)
        requires
            old(self).wf(),
            !old(self).round_active,
            old(self).current_round < old(self).max_rounds,
        ensures
            final(self).wf(),
            advance_step(*old(self), *final(self)),
            final(self).current_round == old(self).current_round + 1,
            final(self).round_active,
            final(self).players@ == old(self).players@,
            final(self).max_rounds == old(self).max_rounds,
            final(self).max_players == old(self).max_players,
    {
        self.current_round = self.current_round + 1;
        self.secret_number = draw_secret();
        self.round_active = true;
    }

    /// Attach a connection to the registry: a known id re-attaches
    /// unconditionally (its name is refreshed and its wins kept), a
    /// new id is admitted only while capacity remains, with a fresh
    /// record of zero wins.
    pub fn add_or_reconnect_player(&mut self, player_id: u64, player_name: String) -> (admitted:
        bool)
        requires
            old(self).wf(),
        ensures
            final(self).wf(),
            final(self).current_round == old(self).current_round,
            final(self).secret_number == old(self).secret_number,
            final(self).round_active == old(self).round_active,
            final(self).max_rounds == old(self).max_rounds,
            final(self).max_players == old(self).max_players,
            has_id(old(self).players@, player_id) ==> {
                let i = index_of(old(self).players@, player_id);
                &&& admitted
                &&& final(self).players@.len() == old(self).players@.len()
                &&& final(self).players@[i].id == player_id
                &&& final(self).players@[i].name == player_name
                &&& final(self).players@[i].wins == old(self).players@[i].wins
                &&& final(self).players@[i].connected
                &&& forall|j: int|
                    0 <= j < old(self).players@.len() && j != i ==> final(self).players@[j] == old(
                        self,
                    ).players@[j]
            },
            !has_id(old(self).players@, player_id) && count_connected(old(self).players@) >= old(
                self,
            ).max_players ==> !admitted && final(self).players@ == old(self).players@,
            !has_id(old(self).players@, player_id) && count_connected(old(self).players@) < old(
                self,
            ).max_players ==> admitted && final(self).players@ == old(self).players@.push(
                (Player { id: player_id, name: player_name, wins: 0, connected: true }),
            ),
            admitted ==> count_connected(final(self).players@) == count_connected(
                old(self).players@,
            ) + (if has_id(old(self).players@, player_id) && old(self).players@[index_of(
                old(self).players@,
                player_id,
            )].connected {
                0int
            } else {
                1int
            }),
            !admitted ==> count_connected(final(self).players@) == count_connected(
                old(self).players@,
            ),
    {
        match self.find_index(player_id) {
            Some(i) => {
                let ghost ps0 = self.players@;
                self.players[i].name = player_name;
                proof {
                    lemma_count_connected_update(ps0, i as int, self.players@[i as int]);
                }
                let ghost ps1 = self.players@;
                self.players[i].connected = true;
                proof {
                    lemma_count_connected_update(ps1, i as int, self.players@[i as int]);
                }
                proof {
                    assert(ids_unique(self.players@)) by {
                        assert(forall|j: int|
                            0 <= j < self.players@.len() ==> self.players@[j].id == old(
                                self,
                            ).players@[j].id);
                    }
                }
                true
            },
            None => {
                if self.get_active_player_count() >= self.max_players {
                    return false;
                }
                proof {
                    lemma_count_connected_push(
                        self.players@,
                        (Player { id: player_id, name: player_name, wins: 0, connected: true }),
                    );
                }
                self.players.push(
                    Player { id: player_id, name: player_name, wins: 0, connected: true },
                );
                proof {
                    assert(ids_unique(self.players@)) by {
                        let n = old(self).players@.len() as int;
                        assert(forall|j: int|
                            0 <= j < n ==> self.players@[j] == old(self).players@[j]);
                        assert(forall|j: int| 0 <= j < n ==> self.players@[j].id != player_id);
                    }
                }
                true
            },
        }
    }

    /// The current standings board: every player's name and win
    /// count, sorted by win count descending, ties in registration
    /// order.
    pub fn get_leaderboard(&self) -> (lb: Vec<(String, u32)>)
        ensures
            is_leaderboard(self.players@, lb@),
            lb@.len() == self.players@.len(),
            forall|k1: int, k2: int|
                0 <= k1 < k2 < lb@.len() ==> (#[trigger] lb@[k1]).1 >= (#[trigger] lb@[k2]).1,
    {
        let ord = standings_order(&self.players);
        let mut lb: Vec<(String, u32)> = Vec::new();
        let m = ord.len();
        for k in 0..m
            invariant
                m == ord@.len(),
                is_standings_order(self.players@, ord@),
                lb@.len() == k,
                forall|t: int|
                    0 <= t < k ==> (#[trigger] lb@[t]).0 == self.players@[ord@[t] as int].name && lb@[t].1
                        == self.players@[ord@[t] as int].wins,
        {
            let idx = ord[k];
            let name = self.players[idx].name.clone();
            let wins = self.players[idx].wins;
            lb.push((name, wins));
        }
        proof {
            assert forall|k1: int, k2: int| 0 <= k1 < k2 < lb@.len() implies (#[trigger] lb@[k1]).1
                >= (#[trigger] lb@[k2]).1 by {
                assert(precedes(self.players@, ord@[k1] as int, ord@[k2] as int));
            }
            assert(is_leaderboard(self.players@, lb@)) by {
                assert(is_standings_order(self.players@, ord@) && lb@.len() == ord@.len() && forall|
                    k: int,
                |
                    0 <= k < lb@.len() ==> (#[trigger] lb@[k]).0 == self.players@[ord@[k] as int].name
                        && lb@[k].1 == self.players@[ord@[k] as int].wins);
            }
        }
        lb
    }

    /// Conclude the game: return the final standings (champion
    /// first), then replace the whole session with a fresh round-1
    /// game, so the next connections start a new game.
    pub fn end_game(&mut self) -> (standings: Vec<(String, u32)>)
        requires
            old(self).wf(),
        ensures
            is_leaderboard(old(self).players@, standings@),
            standings@.len() == old(self).players@.len(),
            forall|k1: int, k2: int|
                0 <= k1 < k2 < standings@.len() ==> (#[trigger] standings@[k1]).1
                    >= (#[trigger] standings@[k2]).1,
            final(self).wf(),
            final(self).current_round == 1,
            final(self).round_active,
            final(self).players@.len() == 0,
            final(self).max_rounds == MAX_ROUNDS,
            final(self).max_players == MAX_PLAYERS,
    {
        let standings = self.get_leaderboard();
        *self = GameState::new();
        standings
    }

    /// Recipients of a broadcast to every connected player, in
    /// registration order.
    pub fn broadcast_recipients(&self) -> (ids: Vec<u64>)
        ensures
            ids@ == spec_connected_ids_except(self.players@, None::<u64>),
    {
        self.collect_connected(None)
    }

    /// Recipients of a broadcast to every connected player but one
    /// (used for join and leave notices).
    pub fn broadcast_recipients_except(&self, excl: u64) -> (ids: Vec<u64>)
        ensures
            ids@ == spec_connected_ids_except(self.players@, Some(excl)),
    {
        self.collect_connected(Some(excl))
    }

    /// Walk the registry and collect the connected ids, skipping
    /// `excl` when one is given.
    fn collect_connected(&self, excl: Option<u64>) -> (ids: Vec<u64>)
        ensures
            ids@ == spec_connected_ids_except(self.players@, excl),
    {
        let mut ids: Vec<u64> = Vec::new();
        let len = self.players.len();
        for i in 0..len
            invariant
                len == self.players@.len(),
                ids@ == spec_connected_ids_except(self.players@.take(i as int), excl),
        {
            proof {
                assert(self.players@.take(i + 1).drop_last() =~= self.players@.take(i as int));
                assert(self.players@.take(i + 1).last() == self.players@[i as int]);
            }
            let p = &self.players[i];
            let keep = p.connected && match excl {
                Some(e) => p.id != e,
                None => true,
            };
            if keep {
                ids.push(p.id);
            }
        }
        proof {
            assert(self.players@.take(len as int) =~= self.players@);
        }
        ids
    }

    /// A connection went away: drop its live flag but keep the record
    /// (name and wins) for a future reconnect. An unknown id changes
    /// nothing.
    pub fn remove_active_connection(&mut self, player_id: u64)
        requires
            old(self).wf(),
        ensures
            final(self).wf(),
            final(self).current_round == old(self).current_round,
            final(self).secret_number == old(self).secret_number,
            final(self).round_active == old(self).round_active,
            final(self).max_rounds == old(self).max_rounds,
            final(self).max_players == old(self).max_players,
            final(self).players@.len() == old(self).players@.len(),
            has_id(old(self).players@, player_id) ==> {
                let i = index_of(old(self).players@, player_id);
                &&& final(self).players@[i].id == old(self).players@[i].id
                &&& final(self).players@[i].name == old(self).players@[i].name
                &&& final(self).players@[i].wins == old(self).players@[i].wins
                &&& !final(self).players@[i].connected
                &&& forall|j: int|
                    0 <= j < old(self).players@.len() && j != i ==> final(self).players@[j] == old(
                        self,
                    ).players@[j]
            },
            !has_id(old(self).players@, player_id) ==> final(self).players@ == old(self).players@,
            count_connected(final(self).players@) == count_connected(old(self).players@) - (if has_id(
                old(self).players@,
                player_id,
            ) && old(self).players@[index_of(old(self).players@, player_id)].connected {
                1int
            } else {
                0int
            }),
    {
        match self.find_index(player_id) {
            Some(i) => {
                let ghost ps0 = self.players@;
                self.players[i].connected = false;
                proof {
                    lemma_count_connected_update(ps0, i as int, self.players@[i as int]);
                    assert(ids_unique(self.players@)) by {
                        assert(forall|j: int|
                            0 <= j < self.players@.len() ==> self.players@[j].id == old(
                                self,
                            ).players@[j].id);
                    }
                }
            },
            None => {},
        }
    }
}

/// Why a brand-new connection was or was not admitted.
#[derive(Clone, Copy, PartialEq, Eq, Structural, Debug)]
pub enum AdmitDecision {
    /// The connection may join the game.
    Accepted,
    /// The game has ended; wait for a new one.
    GameEnded,
    /// The game is already past round 1; new identities may not join.
    GameInProgress,
    /// The capacity bound is reached for this round.
    CapacityReached,
    /// The current round is being resolved and accepts no new joins.
    RoundResolving,
}

/// What one text message from an admitted, named connection led to.
/// The first three outcomes are answered privately to the sender; the
/// last three are broadcast to every connected player.
#[derive(Clone, Copy, PartialEq, Eq, Structural, Debug)]
pub enum GuessOutcome {
    /// The round is closed while it is resolved; the guess is ignored.
    RoundInactive,
    /// The text is not a number.
    InvalidInput,
    /// The number lies outside the guessing range.
    OutOfRange { guess: u32 },
    /// The guess falls short of the secret.
    TooLow { guess: u32, round: u32 },
    /// The guess overshoots the secret.
    TooHigh { guess: u32, round: u32 },
    /// The guess hits the secret: the sender wins the round, and
    /// `last_round` says whether this was the game's final round.
    Won { guess: u32, round: u32, last_round: bool },
}

impl GuessOutcome {
    /// Whether this outcome is announced to every connected player
    /// rather than only to the sender.
    pub fn is_broadcast(&self) -> (b: bool)
        ensures
            b == (*self matches GuessOutcome::TooLow { .. } || *self matches GuessOutcome::TooHigh {
                ..
            } || *self matches GuessOutcome::Won { .. }),
    {
        match self {
            GuessOutcome::TooLow { .. } => true,
            GuessOutcome::TooHigh { .. } => true,
            GuessOutcome::Won { .. } => true,
            _ => false,
        }
    }
}

/// The one winning transition of a round, as a relation between the
/// state before and after: the round closes and exactly the winner's
/// count rises by one; everything else — round number, secret,
/// bounds, every other record — is untouched.
pub open spec fn win_step(pre: GameState, post: GameState, winner: u64) -> bool {
    &&& pre.round_active
    &&& !post.round_active
    &&& has_id(pre.players@, winner)
    &&& post.current_round == pre.current_round
    &&& post.secret_number == pre.secret_number
    &&& post.max_rounds == pre.max_rounds
    &&& post.max_players == pre.max_players
    &&& post.players@.len() == pre.players@.len()
    &&& {
        let i = index_of(pre.players@, winner);
        &&& post.players@[i].id == pre.players@[i].id
        &&& post.players@[i].name == pre.players@[i].name
        &&& post.players@[i].connected == pre.players@[i].connected
        &&& post.players@[i].wins == pre.players@[i].wins + 1
        &&& forall|j: int|
            0 <= j < pre.players@.len() && j != i ==> post.players@[j] == pre.players@[j]
    }
}

/// The transition from a resolved round to the next one: the round
/// number rises by one, guessing reopens with a fresh secret, and the
/// registry is carried over unchanged.
pub open spec fn advance_step(pre: GameState, post: GameState) -> bool {
    &&& !pre.round_active
    &&& post.round_active
    &&& post.current_round == pre.current_round + 1
    &&& SECRET_MIN <= post.secret_number <= SECRET_MAX
    &&& post.players@ == pre.players@
    &&& post.max_rounds == pre.max_rounds
    &&& post.max_players == pre.max_players
}

/// The round number of a well-formed state never passes the round
/// bound plus one, the terminal sentinel.
pub proof fn lemma_round_bounded(g: GameState)
    requires
        g.wf(),
    ensures
        1 <= g.current_round <= g.max_rounds + 1,
{
}

/// Within one game, no transition lowers the round number: resolving
/// a guess keeps it, and advancing to the next round raises it by
/// exactly one.
pub proof fn lemma_round_monotonic(pre: GameState, post: GameState, winner: u64)
    requires
        win_step(pre, post, winner) || advance_step(pre, post),
    ensures
        post.current_round >= pre.current_round,
{
}

/// At most one win is credited per round: the winning transition
/// closes the round in the same step, so from the state it leaves
/// behind no guess — by any player, of any value — can win again
/// until the next round opens.
pub proof fn lemma_at_most_one_win_per_round(
    pre: GameState,
    mid: GameState,
    post: GameState,
    first_winner: u64,
    second_winner: u64,
)
    requires
        win_step(pre, mid, first_winner),
    ensures
        !win_step(mid, post, second_winner),
        forall|v: int| !mid.spec_wins(v),
{
}

/// A brand-new identity is turned away with the in-progress reason
/// whenever the game is past its first round but not over.
pub proof fn lemma_new_rejected_when_in_progress(g: GameState)
    requires
        g.wf(),
        1 < g.current_round <= g.max_rounds,
    ensures
        g.spec_admit_new() == AdmitDecision::GameInProgress,
{
}

/// The live set is a subset of the registry: every id a broadcast
/// would reach belongs to a registered player.
pub proof fn lemma_connected_subset_of_registry(ps: Seq<Player>, excl: Option<u64>, k: int)
    requires
        0 <= k < spec_connected_ids_except(ps, excl).len(),
    ensures
        has_id(ps, spec_connected_ids_except(ps, excl)[k]),
    decreases ps.len(),
{
    let ids = spec_connected_ids_except(ps, excl);
    let rest = spec_connected_ids_except(ps.drop_last(), excl);
    if k < rest.len() {
        lemma_connected_subset_of_registry(ps.drop_last(), excl, k);
        let i = choose|i: int| 0 <= i < ps.drop_last().len() && ps.drop_last()[i].id == rest[k];
        assert(ps[i].id == ids[k]);
    } else {
        assert(ids[k] == ps.last().id);
        assert(ps[ps.len() - 1].id == ids[k]);
    }
}

/// With unique ids, `index_of` is the one index that carries `id`.
pub proof fn lemma_index_of_unique(ps: Seq<Player>, id: u64, i: int)
    requires
        ids_unique(ps),
        0 <= i < ps.len(),
        ps[i].id == id,
    ensures
        index_of(ps, id) == i,
        has_id(ps, id),
{
    assert(has_id(ps, id));
    let j = index_of(ps, id);
    assert(0 <= j < ps.len() && ps[j].id == id);
    if i != j {
        if i < j {
            assert(ps[i].id != ps[j].id);
        } else {
            assert(ps[j].id != ps[i].id);
        }
    }
}

/// Appending a record adds its own connectivity to the count.
pub proof fn lemma_count_connected_push(ps: Seq<Player>, p: Player)
    ensures
        count_connected(ps.push(p)) == count_connected(ps) + (if p.connected {
            1int
        } else {
            0int
        }),
{
    assert(ps.push(p).drop_last() =~= ps);
    assert(ps.push(p).last() == p);
}

/// Replacing one record shifts the count by the connectivity change.
pub proof fn lemma_count_connected_update(ps: Seq<Player>, i: int, p: Player)
    requires
        0 <= i < ps.len(),
    ensures
        count_connected(ps.update(i, p)) == count_connected(ps) - (if ps[i].connected {
            1int
        } else {
            0int
        }) + (if p.connected {
            1int
        } else {
            0int
        }),
    decreases ps.len(),
{
    let u = ps.update(i, p);
    if i == ps.len() - 1 {
        assert(u.drop_last() =~= ps.drop_last());
        assert(u.last() == p);
    } else {
        assert(u.drop_last() =~= ps.drop_last().update(i, p));
        assert(u.last() == ps.last());
        lemma_count_connected_update(ps.drop_last(), i, p);
    }
}

/// The connected count lies between 0 and the registry size.
pub proof fn lemma_count_connected_bounds(ps: Seq<Player>)
    ensures
        0 <= count_connected(ps) <= ps.len(),
    decreases ps.len(),
{
    if ps.len() > 0 {
        lemma_count_connected_bounds(ps.drop_last());
    }
}

} // verus!
