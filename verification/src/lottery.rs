//! The generic lottery: players join by paying a bet, and a random winner
//! takes the pot. The two game variants share this state machine.

use vstd::prelude::*;

use crate::errors::CoreError;
use crate::member::{clone_players, player_eq, StoredPlayer};
use crate::rng::{fresh_id, random_inclusive};

verus! {

#[derive(Debug)]
pub struct Lottery {
    pub id: String,
    pub bet: i64,
    pub creator: StoredPlayer,
    pub players: Vec<StoredPlayer>,
    /// When the game was started, in seconds since the epoch; set once.
    pub start_time: Option<i64>,
    /// Set when a fixed-duration game has stopped accepting joins.
    pub closed: bool,
}

pub struct LotteryResult {
    pub winner: StoredPlayer,
    pub payouts: Vec<(StoredPlayer, i64)>,
}

/// Two game records with the same content: equal ids, bets, creators,
/// player lists, start times and closed marks.
pub open spec fn lottery_like(a: Lottery, b: Lottery) -> bool {
    &&& a.id == b.id
    &&& a.bet == b.bet
    &&& a.creator == b.creator
    &&& a.players@ == b.players@
    &&& a.start_time == b.start_time
    &&& a.closed == b.closed
}

/// The absolute value of a bet.
pub open spec fn spec_abs(n: int) -> int {
    if n >= 0 {
        n
    } else {
        -n
    }
}

impl Lottery {
    /// The pot of the fixed-duration variant: the bet times the number of
    /// players.
    pub open spec fn spec_pot(&self) -> int {
        self.bet * self.players@.len()
    }

    /// What the winner of the shared draw receives: the bet from every
    /// other player.
    pub open spec fn spec_payout(&self) -> int {
        spec_abs(self.bet as int) * (self.players@.len() - 1)
    }

    /// Machine bounds under which the pot and payout computations cannot
    /// overflow.
    pub open spec fn amounts_fit(&self) -> bool {
        &&& self.bet != i64::MIN
        &&& self.players@.len() + 1 <= i64::MAX
        &&& spec_abs(self.bet as int) * (self.players@.len() + 1) <= i64::MAX
    }

    /// Create a game with a positive bet, a fresh id and no players yet.
    /// Rejects a bet of zero or less, mutating nothing.
    pub fn new(creator: StoredPlayer, bet: i64) -> (r: Result<Lottery, CoreError>)
        ensures
            bet > 0 ==> (r matches Ok(l) && l.bet == bet && l.creator == creator && l.players@.len()
                == 0 && l.start_time is None && !l.closed && l.id@.len() == 21),
            bet <= 0 ==> (r matches Err(e) && e == CoreError::NonPositiveBet),
    {
        if bet <= 0 {
            return Err(CoreError::NonPositiveBet);
        }
        Ok(
            Lottery {
                id: fresh_id(),
                bet,
                creator,
                players: Vec::new(),
                start_time: None,
                closed: false,
            },
        )
    }

    /// Restore an open lottery from persisted parts; a record carrying a
    /// closed mark is restored with `from_parts_closed`.
    pub fn from_parts(
        id: String,
        creator: StoredPlayer,
        bet: i64,
        players: Vec<StoredPlayer>,
        start_time: Option<i64>,
    ) -> (r: Lottery)
        ensures
            r == (Lottery { id, bet, creator, players, start_time, closed: false }),
            r.id == id,
            r.creator == creator,
            r.bet == bet,
            r.players == players,
            r.start_time == start_time,
            !r.closed,
    {
        Lottery::from_parts_closed(id, creator, bet, players, start_time, false)
    }

    /// Restore a lottery from all its persisted parts, the closed mark
    /// included: the restored record carries exactly the given fields, so
    /// persistence round-trips are lossless.
    pub fn from_parts_closed(
        id: String,
        creator: StoredPlayer,
        bet: i64,
        players: Vec<StoredPlayer>,
        start_time: Option<i64>,
        closed: bool,
    ) -> (r: Lottery)
        ensures
            r == (Lottery { id, bet, creator, players, start_time, closed }),
            r.id == id,
            r.creator == creator,
            r.bet == bet,
            r.players == players,
            r.start_time == start_time,
            r.closed == closed,
    {
        Lottery { id, bet, creator, players, start_time, closed }
    }

    pub fn buy_in(&self) -> (r: i64)
        ensures
            r == self.bet,
    {
        self.bet
    }

    /// The pot is bet times the number of players: the total stake at risk.
    pub fn pot_size(&self) -> (r: i64)
        requires
            self.players@.len() <= i64::MAX,
            i64::MIN <= self.spec_pot() <= i64::MAX,
        ensures
            r == self.spec_pot(),
    {
        self.bet * (self.players.len() as i64)
    }

    /// Record the start time once; a second call returns the recorded value
    /// and changes nothing.
    pub fn start(&mut self, now: i64) -> (r: i64)
        ensures
            match old(self).start_time {
                Some(t) => r == t && *final(self) == *old(self),
                None => r == now && *final(self) == (Lottery {
                    start_time: Some(now),
                    ..*old(self)
                }),
            },
    {
        match self.start_time {
            Some(t) => t,
            None => {
                self.start_time = Some(now);
                now
            },
        }
    }

    pub fn add_player(&mut self, player: StoredPlayer)
        ensures
            *final(self) == (Lottery { players: final (self).players, ..*old(self) }),
            final(self).players@ == old(self).players@.push(player),
    {
        self.players.push(player);
    }

    /// A lottery can finish in a settlement only with more than one player.
    pub fn can_finish(&self) -> (r: bool)
        ensures
            r == (self.players@.len() > 1),
    {
        self.players.len() > 1
    }

    /// The winner's payout: the bet from each of the other players.
    pub fn get_payout(&self) -> (r: i64)
        requires
            self.players@.len() >= 1,
            self.amounts_fit(),
        ensures
            r == self.spec_payout(),
    {
        let b = if self.bet >= 0 {
            self.bet
        } else {
            -self.bet
        };
        proof {
            assert(b * (self.players@.len() - 1) <= b * (self.players@.len() + 1))
                by (nonlinear_arith)
                requires
                    b >= 0,
                    self.players@.len() >= 1,
            ;
        }
        b * (self.players.len() as i64 - 1)
    }

    /// The settlement when the player at `idx` wins: every copy of the
    /// winning player receives the payout, every other player owes the bet.
    pub fn finish_at(&self, idx: usize) -> (r: LotteryResult)
        requires
            idx < self.players@.len(),
            self.amounts_fit(),
        ensures
            r.winner == self.players@[idx as int],
            r.payouts@.len() == self.players@.len(),
            forall|i: int|
                #![trigger r.payouts@[i]]
                0 <= i < self.players@.len() ==> r.payouts@[i].0 == self.players@[i]
                    && r.payouts@[i].1 == (if player_eq(
                    self.players@[i],
                    self.players@[idx as int],
                ) {
                    self.spec_payout()
                } else {
                    -self.bet as int
                }),
    {
        let winner = self.players[idx].duplicate();
        let win_amount = self.get_payout();
        let mut payouts: Vec<(StoredPlayer, i64)> = Vec::new();
        let n = self.players.len();
        let mut i: usize = 0;
        while i < n
            invariant
                0 <= i <= n,
                n == self.players@.len(),
                winner == self.players@[idx as int],
                idx < n,
                self.amounts_fit(),
                win_amount == self.spec_payout(),
                payouts@.len() == i,
                forall|j: int|
                    #![trigger payouts@[j]]
                    0 <= j < i ==> payouts@[j].0 == self.players@[j]
                        && payouts@[j].1 == (if player_eq(
                        self.players@[j],
                        self.players@[idx as int],
                    ) {
                        self.spec_payout()
                    } else {
                        -self.bet as int
                    }),
            decreases n - i,
        {
            let p = &self.players[i];
            let amount = if p == &winner {
                win_amount
            } else {
                -self.bet
            };
            let dup = p.duplicate();
            let ghost pre = payouts@;
            payouts.push((dup, amount));
            proof {
                assert forall|j: int|
                    #![trigger payouts@[j]]
                    0 <= j < i + 1 implies payouts@[j].0 == self.players@[j]
                    && payouts@[j].1 == (if player_eq(
                    self.players@[j],
                    self.players@[idx as int],
                ) {
                    self.spec_payout()
                } else {
                    -self.bet as int
                }) by {
                    if j < i {
                        assert(payouts@[j] == pre[j]);
                        assert(pre[j].0 == self.players@[j] && pre[j].1 == (if player_eq(
                            self.players@[j],
                            self.players@[idx as int],
                        ) {
                            self.spec_payout()
                        } else {
                            -self.bet as int
                        }));
                    } else {
                        assert(payouts@[j] == (dup, amount));
                    }
                }
            }
            i += 1;
        }
        LotteryResult { winner, payouts }
    }

    /// Draw a winner uniformly at random over the players and settle.
    /// Whatever index the draw yields, the settlement is exact for it.
    pub fn finish(&self) -> (r: LotteryResult)
        requires
            self.players@.len() >= 1,
            self.amounts_fit(),
        ensures
            exists|idx: int|
                {
                    &&& 0 <= idx < self.players@.len()
                    &&& r.winner == self.players@[idx]
                    &&& r.payouts@.len() == self.players@.len()
                    &&& forall|i: int|
                        #![trigger r.payouts@[i]]
                        0 <= i < self.players@.len() ==> r.payouts@[i].0 == self.players@[i]
                            && r.payouts@[i].1 == (if player_eq(
                            self.players@[i],
                            self.players@[idx],
                        ) {
                            self.spec_payout()
                        } else {
                            -self.bet as int
                        })
                },
    {
        let n = self.players.len();
        let idx = random_inclusive(0, n as i64 - 1) as usize;
        let r = self.finish_at(idx);
        proof {
            let j = idx as int;
            assert(0 <= j < self.players@.len());
            assert(r.winner == self.players@[j]);
            assert(r.payouts@.len() == self.players@.len());
            assert forall|i: int|
                #![trigger r.payouts@[i]]
                0 <= i < self.players@.len() implies r.payouts@[i].0 == self.players@[i]
                && r.payouts@[i].1 == (if player_eq(
                self.players@[i],
                self.players@[j],
            ) {
                self.spec_payout()
            } else {
                -self.bet as int
            }) by {
                assert(r.payouts@[i].1 == (if player_eq(self.players@[i], self.players@[j]) {
                    self.spec_payout()
                } else {
                    -self.bet as int
                }));
            }
        }
        r
    }

    /// Whether some player entry carries the given member id.
    pub open spec fn spec_has_player_id(&self, id: Seq<char>) -> bool {
        exists|j: int| 0 <= j < self.players@.len() && (#[trigger] self.players@[j]).id@ == id
    }

    pub fn has_player_id(&self, id: &str) -> (r: bool)
        ensures
            r == self.spec_has_player_id(id@),
    {
        let n = self.players.len();
        let mut j: usize = 0;
        while j < n
            invariant
                0 <= j <= n,
                n == self.players@.len(),
                forall|i: int| 0 <= i < j ==> (#[trigger] self.players@[i]).id@ != id@,
            decreases n - j,
        {
            if crate::text::str_eq(self.players[j].id.as_str(), id) {
                proof {
                    assert(self.players@[j as int].id@ == id@);
                }
                return true;
            }
            j += 1;
        }
        false
    }

    /// Copy the whole game record field by field.
    pub fn duplicate(&self) -> (r: Lottery)
        ensures
            r.id == self.id,
            r.bet == self.bet,
            r.creator == self.creator,
            r.players@ == self.players@,
            r.start_time == self.start_time,
            r.closed == self.closed,
    {
        Lottery {
            id: self.id.clone(),
            bet: self.bet,
            creator: self.creator.duplicate(),
            players: clone_players(&self.players),
            start_time: self.start_time,
            closed: self.closed,
        }
    }
}

} // verus!
