//! The probabilistic-termination game: each join may end the game, with a
//! chance that grows with the player count. The pot counts one seat more
//! than the player list, for the charged joiner whose losing join ended the
//! game. The winner's credit is the pot times a discrete multiplier drawn
//! deterministically from the game id.

use vstd::prelude::*;

use crate::config::Config;
use crate::errors::CoreError;
use crate::jobs::{JobPayload, JobQueue, JobStatus, JobType, SardinesJobPayload};
use crate::ledger::{
    in_i64_range, lemma_stake_batch_ok, stake_batch_ok, stake_sum, stake_updates, Ledger,
};
use crate::lottery::{lottery_like, spec_abs, Lottery};
use crate::member::{player_eq, spec_doc_id, GuildMember, StoredPlayer};
use crate::rng::{random_inclusive, seeded_weighted_random, spec_seeded_word, spec_weighted_value};
use crate::table::Table;
use crate::text::dec_digits;
use vstd::string::StringExecFns;

verus! {

/// The chance that a join at player count `n` ends the game, as the exact
/// rational `num / den`, already clamped into [0, 1]. The raw curve is
/// `(n - 0.7) / (n + 1.8)`: negative for an empty game, rising steeply
/// through the mid range and approaching 1 as the count grows.
pub open spec fn spec_chance_num(n: int) -> int {
    if 10 * n - 7 >= 0 {
        10 * n - 7
    } else {
        0
    }
}

pub open spec fn spec_chance_den(n: int) -> int {
    10 * n + 18
}

/// The clamped join-failure chance at player count `n`, as a fraction:
/// numerator first, denominator second.
pub fn join_failure_chance(n: usize) -> (r: (u64, u64))
    requires
        10 * n + 18 <= u64::MAX,
    ensures
        r.0 == spec_chance_num(n as int),
        r.1 == spec_chance_den(n as int),
        r.0 < r.1,
{
    let den: u64 = 10 * (n as u64) + 18;
    let num: u64 = if n >= 1 {
        10 * (n as u64) - 7
    } else {
        0
    };
    (num, den)
}

/// The clamped chance stays within [0, 1) and never decreases as the
/// player count grows.
pub proof fn lemma_join_failure_chance_monotone(n: int)
    requires
        n >= 0,
    ensures
        0 <= spec_chance_num(n) < spec_chance_den(n),
        spec_chance_num(n) * spec_chance_den(n + 1) <= spec_chance_num(n + 1) * spec_chance_den(n),
{
    assert(spec_chance_num(n) * spec_chance_den(n + 1) <= spec_chance_num(n + 1)
        * spec_chance_den(n)) by (nonlinear_arith)
        requires
            n >= 0,
            spec_chance_num(n) == if 10 * n - 7 >= 0 {
                10 * n - 7
            } else {
                0
            },
            spec_chance_num(n + 1) == if 10 * (n + 1) - 7 >= 0 {
                10 * (n + 1) - 7
            } else {
                0
            },
            spec_chance_den(n) == 10 * n + 18,
            spec_chance_den(n + 1) == 10 * (n + 1) + 18,
    ;
}

/// The losing event: a draw below the clamped chance numerator at player
/// count `n`. A uniform draw over `[0, den)` makes it true with
/// probability exactly `num / den`.
pub open spec fn spec_loses(n: int, draw: int) -> bool {
    draw < spec_chance_num(n)
}

/// Whether a uniform draw in `[0, den)` falls below the clamped chance
/// numerator: the exact event "the joining player loses" at count `n`.
pub fn loses_with_draw(n: usize, draw: u64) -> (r: bool)
    requires
        10 * n + 18 <= u64::MAX,
    ensures
        r == spec_loses(n as int, draw as int),
        r == (draw < spec_chance_num(n as int)),
{
    let (num, _den) = join_failure_chance(n);
    draw < num
}

/// Draw uniformly over `[0, den)` and report whether the joiner loses;
/// the probability of `true` is exactly `num / den`, and whatever the
/// draw, the result is the exact threshold event for it.
fn does_player_lose(n: usize) -> (r: bool)
    requires
        10 * n + 18 <= i64::MAX,
    ensures
        exists|draw: int|
            #![trigger spec_loses(n as int, draw)]
            0 <= draw < spec_chance_den(n as int) && r == spec_loses(n as int, draw),
{
    let den: i64 = 10 * (n as i64) + 18;
    let draw = random_inclusive(0, den - 1);
    let r = loses_with_draw(n, draw as u64);
    proof {
        assert(0 <= (draw as int) < spec_chance_den(n as int));
        assert(r == spec_loses(n as int, draw as int));
    }
    r
}

/// The five payout multipliers, in tenths, from likeliest to rarest.
pub fn multiplier_tenths(idx: usize) -> (r: u64)
    requires
        idx < 5,
    ensures
        r == spec_multiplier_tenths(idx as int),
{
    match idx {
        0 => 12,
        1 => 15,
        2 => 18,
        3 => 20,
        _ => 25,
    }
}

pub open spec fn spec_multiplier_tenths(idx: int) -> int {
    if idx == 0 {
        12
    } else if idx == 1 {
        15
    } else if idx == 2 {
        18
    } else if idx == 3 {
        20
    } else {
        25
    }
}

/// The multiplier a game id deterministically draws: a weighted pick in
/// [1, 5] over the seeded stream, shifted to an index and capped.
pub open spec fn spec_game_multiplier_tenths(id: Seq<char>, base: Seq<char>) -> int {
    let v = spec_weighted_value(spec_seeded_word(id, base), 1, 5);
    spec_multiplier_tenths(if v - 1 < 4 {
        v - 1
    } else {
        4
    })
}

pub struct Sardines {
    pub lottery: Lottery,
    pub random_seed: String,
}

impl Sardines {
    /// A live game: positive bet, the creator among the players, and
    /// enough headroom that the pot times the largest multiplier is
    /// representable.
    pub open spec fn wf(&self) -> bool {
        &&& self.lottery.bet > 0
        &&& self.lottery.players@.len() >= 1
        &&& self.lottery.players@.len() + 2 <= i64::MAX
        &&& 3 * (self.lottery.bet * (self.lottery.players@.len() + 1)) <= i64::MAX
    }

    /// The pot counts every player plus the charged triggering joiner.
    pub open spec fn spec_pot(&self) -> int {
        self.lottery.bet * (self.lottery.players@.len() + 1)
    }

    /// Create a game whose sole initial player is the creator. A bet of
    /// zero or less is rejected with nothing created.
    pub fn init(config: &Config, creator: &GuildMember, bet: i64) -> (r: Result<
        Sardines,
        CoreError,
    >)
        requires
            bet <= i64::MAX / 6,
        ensures
            bet > 0 ==> (r matches Ok(g) && g.wf() && g.lottery.bet == bet
                && g.lottery.players@.len() == 1 && g.lottery.players@[0].id@ == creator.id@
                && player_eq(g.lottery.players@[0], g.lottery.creator)
                && g.lottery.creator.id@ == creator.id@ && g.lottery.start_time is None
                && g.random_seed@ == config.random_seed@),
            bet <= 0 ==> (r matches Err(e) && e == CoreError::NonPositiveBet),
    {
        let stored = StoredPlayer::from_member(creator);
        let second = stored.duplicate();
        match Lottery::new(stored, bet) {
            Ok(l) => {
                let mut l = l;
                l.add_player(second);
                proof {
                    assert(3 * (l.bet * (l.players@.len() + 1)) <= i64::MAX) by (nonlinear_arith)
                        requires
                            0 < l.bet <= i64::MAX / 6,
                            l.players@.len() == 1,
                    ;
                }
                Ok(Sardines { lottery: l, random_seed: config.random_seed.clone() })
            },
            Err(e) => Err(e),
        }
    }

    /// Load a game from the store; a missing id means the game was already
    /// resolved elsewhere.
    pub fn load(games: &Table<Lottery>, config: &Config, id: &str) -> (r: Result<
        Sardines,
        CoreError,
    >)
        requires
            games.wf(),
        ensures
            match r {
                Ok(g) => games@.contains_key(id@) && lottery_like(g.lottery, games@[id@])
                    && g.random_seed@ == config.random_seed@,
                Err(e) => e == CoreError::NotFound && !games@.contains_key(id@),
            },
    {
        match games.get(id) {
            Some(l) => Ok(
                Sardines { lottery: l.duplicate(), random_seed: config.random_seed.clone() },
            ),
            None => Err(CoreError::NotFound),
        }
    }

    /// Wrap an already-loaded game record; used by recovery.
    pub fn from_lottery(config: &Config, lottery: Lottery) -> (r: Sardines)
        ensures
            r.lottery == lottery,
            r.random_seed@ == config.random_seed@,
    {
        Sardines { lottery, random_seed: config.random_seed.clone() }
    }

    pub fn id(&self) -> (r: &str)
        ensures
            r@ == self.lottery.id@,
    {
        self.lottery.id.as_str()
    }

    pub fn buy_in(&self) -> (r: i64)
        ensures
            r == self.lottery.bet,
    {
        self.lottery.buy_in()
    }

    pub fn bet(&self) -> (r: i64)
        ensures
            r == self.lottery.bet,
    {
        self.lottery.bet
    }

    pub fn creator(&self) -> (r: &StoredPlayer)
        ensures
            r == self.lottery.creator,
    {
        &self.lottery.creator
    }

    pub fn players(&self) -> (r: &Vec<StoredPlayer>)
        ensures
            r == self.lottery.players,
    {
        &self.lottery.players
    }

    /// A member already in the game may join again only once the player
    /// count has reached the configured threshold.
    pub fn can_join_repeat(&self, config: &Config) -> (r: bool)
        ensures
            r == (self.lottery.players@.len() >= config.min_players_before_rejoin),
    {
        self.lottery.players.len() >= config.min_players_before_rejoin
    }

    /// Whether the next joiner can be added without ending the game; the
    /// draw uses the player count before the candidate is appended. False
    /// with probability exactly the clamped join-failure chance: the result
    /// is the exact threshold event for a uniform draw below the
    /// denominator, and with no player yet the clamped chance is zero, so
    /// the join never fails.
    pub fn can_add_player(&self) -> (r: bool)
        requires
            10 * self.lottery.players@.len() + 18 <= i64::MAX,
        ensures
            exists|draw: int|
                #![trigger spec_loses(self.lottery.players@.len() as int, draw)]
                0 <= draw < spec_chance_den(self.lottery.players@.len() as int) && r
                    == !spec_loses(self.lottery.players@.len() as int, draw),
            self.lottery.players@.len() == 0 ==> r,
    {
        !does_player_lose(self.lottery.players.len())
    }

    /// Record the start time once, persist the game, and debit the
    /// creator's stake. Returns the start instant in epoch milliseconds.
    pub fn save(&mut self, games: &mut Table<Lottery>, ledger: &mut Ledger, now_ms: u64) -> (r:
        Result<i64, CoreError>)
        requires
            old(self).wf(),
            old(games).wf(),
            old(ledger).wf(),
            now_ms <= i64::MAX,
        ensures
            final(games).wf(),
            final(ledger).wf(),
            match old(self).lottery.start_time {
                Some(t) => final(self).lottery == old(self).lottery,
                None => final(self).lottery == (Lottery {
                    start_time: Some(now_ms as i64),
                    ..old(self).lottery
                }),
            },
            final(games)@ =~= old(games)@.insert(
                old(self).lottery.id@,
                final(self).lottery,
            ) || final(games)@ =~= old(games)@.insert(
                old(self).lottery.id@,
                final(games)@[old(self).lottery.id@],
            ),
            final(games)@.contains_key(old(self).lottery.id@),
            lottery_like(final(games)@[old(self).lottery.id@], final(self).lottery),
            (r matches Ok(t)) <==> in_i64_range(
                old(ledger).offset_of(
                    spec_doc_id(old(self).lottery.creator.guild_id@, old(self).lottery.creator.id@),
                ) - old(self).lottery.bet,
            ),
            r matches Ok(t) ==> ({
                let ck = spec_doc_id(
                    old(self).lottery.creator.guild_id@,
                    old(self).lottery.creator.id@,
                );
                &&& t == (match old(self).lottery.start_time {
                    Some(t0) => t0,
                    None => now_ms as i64,
                })
                &&& final(ledger).offset_of(ck) == old(ledger).offset_of(ck) - old(
                    self,
                ).lottery.bet
                &&& forall|k: Seq<char>|
                    k != ck ==> #[trigger] final(ledger).offset_of(k) == old(ledger).offset_of(k)
            }),
            r matches Err(e) ==> e == CoreError::Overflow && *final(ledger) == *old(ledger),
    {
        let start_time = self.lottery.start(now_ms as i64);
        games.insert(self.lottery.id.clone(), self.lottery.duplicate());
        proof {
            assert(games@ =~= old(games)@.insert(
                old(self).lottery.id@,
                games@[old(self).lottery.id@],
            ));
        }
        let ck = self.lottery.creator.doc_id();
        let bet = self.lottery.bet;
        match ledger.increment(ck, -bet) {
            Ok(()) => Ok(start_time),
            Err(e) => Err(e),
        }
    }

    /// Enqueue the timeout job that settles the game when it expires.
    pub fn enqueue_timeout(
        &self,
        jobs: &mut JobQueue,
        channel_id: u64,
        message_id: u64,
        now_ms: u64,
        expiry_seconds: u64,
    ) -> (id: String)
        requires
            old(jobs).wf(),
            expiry_seconds <= 0xffff_ffff,
            now_ms + expiry_seconds * 1000 <= u64::MAX,
        ensures
            final(jobs).wf(),
            id@ == crate::jobs::spec_job_id(JobType::SardinesFinish, now_ms),
            final(jobs).jobs@ =~= old(jobs).jobs@.insert(id@, final(jobs).jobs@[id@]),
            ({
                let job = final(jobs).jobs@[id@];
                &&& job.job_type == JobType::SardinesFinish
                &&& job.status == JobStatus::Pending
                &&& job.execute_at == now_ms + expiry_seconds * 1000
                &&& (job.payload matches JobPayload::Sardines(p) && p.id@ == self.lottery.id@
                    && p.channel_id == channel_id && p.message_id == message_id)
            }),
    {
        let payload = SardinesJobPayload {
            id: self.lottery.id.clone(),
            channel_id,
            message_id,
        };
        jobs.enqueue(JobType::SardinesFinish, JobPayload::Sardines(payload), now_ms, expiry_seconds)
    }

    /// Append a joining member (duplicates allowed: a rejoin adds another
    /// entry), persist the updated player list, and debit the joiner's
    /// stake.
    pub fn add_player(
        &mut self,
        games: &mut Table<Lottery>,
        ledger: &mut Ledger,
        player: &GuildMember,
    ) -> (r: Result<(), CoreError>)
        requires
            old(self).wf(),
            old(games).wf(),
            old(ledger).wf(),
            old(self).lottery.players@.len() + 3 <= i64::MAX,
            3 * (old(self).lottery.bet * (old(self).lottery.players@.len() + 2)) <= i64::MAX,
        ensures
            final(self).wf(),
            final(games).wf(),
            final(ledger).wf(),
            final(self).lottery.players@.len() == old(self).lottery.players@.len() + 1,
            final(self).lottery.players@.take(old(self).lottery.players@.len() as int) == old(
                self,
            ).lottery.players@,
            final(self).lottery.players@.last().id@ == player.id@,
            final(self).lottery.players@.last().guild_id@ == player.guild_id@,
            final(self).lottery == (Lottery {
                players: final (self).lottery.players,
                ..old(self).lottery
            }),
            final(self).random_seed == old(self).random_seed,
            old(games)@.contains_key(old(self).lottery.id@) ==> final(games)@
                =~= old(games)@.insert(old(self).lottery.id@, final(games)@[old(
                self,
            ).lottery.id@]) && lottery_like(
                final(games)@[old(self).lottery.id@],
                (Lottery {
                    players: final (self).lottery.players,
                    ..old(games)@[old(self).lottery.id@]
                }),
            ),
            !old(games)@.contains_key(old(self).lottery.id@) ==> final(games)@ == old(games)@,
            (r matches Ok(x)) <==> in_i64_range(
                old(ledger).offset_of(spec_doc_id(player.guild_id@, player.id@)) - old(
                    self,
                ).lottery.bet,
            ),
            r matches Ok(x) ==> ({
                let pk = spec_doc_id(player.guild_id@, player.id@);
                &&& final(ledger).offset_of(pk) == old(ledger).offset_of(pk) - old(
                    self,
                ).lottery.bet
                &&& forall|k: Seq<char>|
                    k != pk ==> #[trigger] final(ledger).offset_of(k) == old(ledger).offset_of(k)
            }),
            r matches Err(e) ==> e == CoreError::Overflow && *final(ledger) == *old(ledger),
    {
        let stored = StoredPlayer::from_member(player);
        self.lottery.add_player(stored);
        proof {
            assert(self.lottery.players@.take(old(self).lottery.players@.len() as int)
                =~= old(self).lottery.players@);
            assert(3 * (self.lottery.bet * (self.lottery.players@.len() + 1)) <= i64::MAX);
        }
        let gid = self.lottery.id.clone();
        match games.remove(gid.as_str()) {
            Some(g) => {
                let mut g = g;
                g.players = crate::member::clone_players(&self.lottery.players);
                games.insert(gid.clone(), g);
                proof {
                    assert(games@ =~= old(games)@.insert(
                        old(self).lottery.id@,
                        games@[old(self).lottery.id@],
                    ));
                }
            },
            None => {
                proof {
                    assert(games@ =~= old(games)@);
                }
            },
        }
        let pk = player.doc_id();
        let bet = self.lottery.bet;
        match ledger.increment(pk, -bet) {
            Ok(()) => Ok(()),
            Err(e) => Err(e),
        }
    }

    /// The pot: the bet times the player count plus one, counting the
    /// charged triggering joiner who is excluded from the player list.
    pub fn pot_size(&self) -> (r: i64)
        requires
            self.wf(),
        ensures
            r == self.spec_pot(),
            r == self.lottery.bet * (self.lottery.players@.len() + 1),
    {
        proof {
            assert(0 <= self.lottery.bet * (self.lottery.players@.len() + 1) <= i64::MAX)
                by (nonlinear_arith)
                requires
                    self.lottery.bet > 0,
                    self.lottery.players@.len() >= 1,
                    3 * (self.lottery.bet * (self.lottery.players@.len() + 1)) <= i64::MAX,
            ;
        }
        self.lottery.bet * (self.lottery.players.len() as i64 + 1)
    }

    /// The payout multiplier in tenths, drawn deterministically from the
    /// game id and the process base seed: the same game always draws the
    /// same multiplier.
    pub fn get_multiplier_tenths(&self) -> (r: u64)
        ensures
            r == spec_game_multiplier_tenths(self.lottery.id@, self.random_seed@),
            12 <= r <= 25,
    {
        let v = seeded_weighted_random(1, 5, self.lottery.id.as_str(), self.random_seed.as_str());
        let idx: usize = if (v - 1) < 4 {
            (v - 1) as usize
        } else {
            4
        };
        multiplier_tenths(idx)
    }

    /// The winner's credit: the pot times the multiplier, rounded down.
    pub fn get_payout(&self) -> (r: i64)
        requires
            self.wf(),
        ensures
            r == self.spec_pot() * spec_game_multiplier_tenths(
                self.lottery.id@,
                self.random_seed@,
            ) / 10,
            0 <= r <= 3 * self.spec_pot(),
    {
        let pot = self.pot_size();
        let tenths = self.get_multiplier_tenths();
        let wide: i128 = (pot as i128) * (tenths as i128) / 10;
        proof {
            let p = self.spec_pot();
            let t = spec_game_multiplier_tenths(self.lottery.id@, self.random_seed@);
            assert(0 <= p * t / 10 <= 3 * p) by (nonlinear_arith)
                requires
                    0 <= p,
                    12 <= t <= 25,
            ;
            assert(3 * p <= i64::MAX);
        }
        wide as i64
    }

    /// Settle the game. Below the finishing threshold every player is
    /// refunded exactly their bet and the record is deleted. Otherwise a
    /// winner drawn uniformly over the players (the triggering joiner
    /// included, if they joined) is credited the payout and the record is
    /// deleted. A failing ledger batch leaves everything unchanged.
    pub fn finish(&self, games: &mut Table<Lottery>, ledger: &mut Ledger) -> (r: Result<
        SardinesOutcome,
        CoreError,
    >)
        requires
            self.wf(),
            old(games).wf(),
            old(ledger).wf(),
        ensures
            final(games).wf(),
            final(ledger).wf(),
            self.lottery.players@.len() <= 1 ==> {
                &&& (r matches Ok(o)) <==> stake_batch_ok(
                    old(ledger).accounts@,
                    self.lottery.players@,
                    self.lottery.bet as int,
                )
                &&& (r matches Ok(o) ==> o == SardinesOutcome::Refunded && final(games)@
                    =~= old(games)@.remove(self.lottery.id@) && forall|k: Seq<char>|
                    #[trigger] final(ledger).offset_of(k) == old(ledger).offset_of(k) + stake_sum(
                        self.lottery.players@,
                        self.lottery.bet as int,
                        k,
                    ))
            },
            self.lottery.players@.len() > 1 ==> {
                &&& (r matches Ok(o) ==> (o matches SardinesOutcome::Won {
                    winner,
                    payout,
                    multiplier_tenths,
                } && {
                    &&& exists|idx: int|
                        0 <= idx < self.lottery.players@.len() && winner
                            == self.lottery.players@[idx]
                    &&& multiplier_tenths == spec_game_multiplier_tenths(
                        self.lottery.id@,
                        self.random_seed@,
                    )
                    &&& payout == self.spec_pot() * multiplier_tenths / 10
                    &&& final(games)@ =~= old(games)@.remove(self.lottery.id@)
                    &&& forall|k: Seq<char>|
                        #[trigger] final(ledger).offset_of(k) == old(ledger).offset_of(k) + (if k
                            == spec_doc_id(winner.guild_id@, winner.id@) {
                            payout as int
                        } else {
                            0
                        })
                }))
                &&& ((forall|idx: int|
                    0 <= idx < self.lottery.players@.len() ==> in_i64_range(
                        old(ledger).offset_of(
                            spec_doc_id(
                                (#[trigger] self.lottery.players@[idx]).guild_id@,
                                self.lottery.players@[idx].id@,
                            ),
                        ) + self.spec_pot() * spec_game_multiplier_tenths(
                            self.lottery.id@,
                            self.random_seed@,
                        ) / 10,
                    )) ==> r matches Ok(o))
            },
            r matches Err(e) ==> e == CoreError::Overflow && final(games)@ == old(games)@
                && *final(ledger) == *old(ledger),
    {
        proof {
            assert(spec_abs(self.lottery.bet as int) * (self.lottery.players@.len() + 1)
                <= i64::MAX) by (nonlinear_arith)
                requires
                    self.lottery.bet > 0,
                    self.lottery.players@.len() >= 1,
                    3 * (self.lottery.bet * (self.lottery.players@.len() + 1)) <= i64::MAX,
            ;
        }
        if !self.lottery.can_finish() {
            let refunds = stake_updates(&self.lottery.players, self.lottery.bet);
            proof {
                lemma_stake_batch_ok(
                    ledger.accounts@,
                    refunds@,
                    self.lottery.players@,
                    self.lottery.bet,
                );
            }
            match ledger.increment_many(&refunds) {
                Ok(()) => {
                    let _ = games.remove(self.lottery.id.as_str());
                    Ok(SardinesOutcome::Refunded)
                },
                Err(e) => Err(e),
            }
        } else {
            let result = self.lottery.finish();
            let payout = self.get_payout();
            let tenths = self.get_multiplier_tenths();
            let key = result.winner.doc_id();
            match ledger.increment(key, payout) {
                Ok(()) => {
                    let _ = games.remove(self.lottery.id.as_str());
                    proof {
                        let idx = choose|idx: int|
                            0 <= idx < self.lottery.players@.len() && result.winner
                                == self.lottery.players@[idx];
                        assert(in_i64_range(
                            old(ledger).offset_of(
                                spec_doc_id(result.winner.guild_id@, result.winner.id@),
                            ) + payout,
                        ));
                    }
                    Ok(
                        SardinesOutcome::Won {
                            winner: result.winner,
                            payout,
                            multiplier_tenths: tenths,
                        },
                    )
                },
                Err(e) => {
                    proof {
                        let idx = choose|idx: int|
                            0 <= idx < self.lottery.players@.len() && result.winner
                                == self.lottery.players@[idx];
                        assert(!in_i64_range(
                            old(ledger).offset_of(
                                spec_doc_id(
                                    self.lottery.players@[idx].guild_id@,
                                    self.lottery.players@[idx].id@,
                                ),
                            ) + self.spec_pot() * spec_game_multiplier_tenths(
                                self.lottery.id@,
                                self.random_seed@,
                            ) / 10,
                        ));
                    }
                    Err(e)
                },
            }
        }
    }
}

/// How a join attempt came out.
pub enum JoinOutcome {
    /// The game continues; the joiner is in and charged.
    Continued,
    /// The join ended the game: the joiner was still charged, stands in
    /// the winner pool, and the settlement is attached.
    Ended(SardinesOutcome),
}

/// How a finished game settled.
pub enum SardinesOutcome {
    /// The game never reached the finishing threshold: every player was
    /// refunded their bet.
    Refunded,
    /// The winner was credited the pot times the multiplier.
    Won { winner: StoredPlayer, payout: i64, multiplier_tenths: u64 },
}

impl Sardines {
    /// One join attempt, as the front end runs it under the game's lock:
    /// the losing draw is taken at the player count before the candidate
    /// joins, the candidate is then appended and charged whatever the draw
    /// said — a loser is still charged — and a losing join settles the
    /// game at once, with the joiner in the winner pool.
    pub fn join_attempt(
        &mut self,
        games: &mut Table<Lottery>,
        ledger: &mut Ledger,
        player: &GuildMember,
    ) -> (r: Result<JoinOutcome, CoreError>)
        requires
            old(self).wf(),
            old(games).wf(),
            old(ledger).wf(),
            old(self).lottery.players@.len() + 3 <= i64::MAX,
            10 * old(self).lottery.players@.len() + 18 <= i64::MAX,
            3 * (old(self).lottery.bet * (old(self).lottery.players@.len() + 2)) <= i64::MAX,
        ensures
            final(self).wf(),
            final(games).wf(),
            final(ledger).wf(),
            final(self).lottery.players@.len() == old(self).lottery.players@.len() + 1,
            final(self).lottery.players@.take(old(self).lottery.players@.len() as int) == old(
                self,
            ).lottery.players@,
            final(self).lottery.players@.last().id@ == player.id@,
            final(self).lottery.players@.last().guild_id@ == player.guild_id@,
            final(self).lottery == (Lottery {
                players: final (self).lottery.players,
                ..old(self).lottery
            }),
            r matches Ok(o) ==> ({
                let pk = spec_doc_id(player.guild_id@, player.id@);
                let n0 = old(self).lottery.players@.len() as int;
                &&& (exists|draw: int|
                    #![trigger spec_loses(n0, draw)]
                    0 <= draw < spec_chance_den(n0) && ((o is Continued) <==> !spec_loses(
                        n0,
                        draw,
                    )))
                &&& (o is Continued ==> ({
                    &&& (old(games)@.contains_key(old(self).lottery.id@) ==> final(games)@
                        =~= old(games)@.insert(old(self).lottery.id@, final(games)@[old(
                        self,
                    ).lottery.id@]) && lottery_like(
                        final(games)@[old(self).lottery.id@],
                        (Lottery {
                            players: final (self).lottery.players,
                            ..old(games)@[old(self).lottery.id@]
                        }),
                    ))
                    &&& (!old(games)@.contains_key(old(self).lottery.id@) ==> final(games)@
                        == old(games)@)
                    &&& final(ledger).offset_of(pk) == old(ledger).offset_of(pk) - old(
                        self,
                    ).lottery.bet
                    &&& forall|k: Seq<char>|
                        k != pk ==> #[trigger] final(ledger).offset_of(k) == old(
                            ledger,
                        ).offset_of(k)
                }))
                &&& (o matches JoinOutcome::Ended(so) ==> (so matches SardinesOutcome::Won {
                    winner,
                    payout,
                    multiplier_tenths,
                } && {
                    &&& exists|idx: int|
                        0 <= idx < final(self).lottery.players@.len() && winner
                            == final(self).lottery.players@[idx]
                    &&& multiplier_tenths == spec_game_multiplier_tenths(
                        old(self).lottery.id@,
                        old(self).random_seed@,
                    )
                    &&& payout == old(self).lottery.bet * (old(self).lottery.players@.len() + 2)
                        * multiplier_tenths / 10
                    &&& final(games)@ =~= old(games)@.remove(old(self).lottery.id@)
                    &&& forall|k: Seq<char>|
                        #[trigger] final(ledger).offset_of(k) == old(ledger).offset_of(k) - (if k
                            == pk {
                            old(self).lottery.bet as int
                        } else {
                            0
                        }) + (if k == spec_doc_id(winner.guild_id@, winner.id@) {
                            payout as int
                        } else {
                            0
                        })
                }))
            }),
            r matches Err(e) ==> e == CoreError::Overflow,
    {
        let game_continues = self.can_add_player();
        match self.add_player(games, ledger, player) {
            Ok(()) => {
                if game_continues {
                    Ok(JoinOutcome::Continued)
                } else {
                    let ghost mid_ledger = *ledger;
                    let ghost mid_games = games@;
                    let ghost pk = spec_doc_id(player.guild_id@, player.id@);
                    match self.finish(games, ledger) {
                        Ok(so) => {
                            proof {
                                let ghost so_view = so;
                                if let SardinesOutcome::Won { winner, payout, multiplier_tenths }
                                    = so_view {
                                    let wdoc = spec_doc_id(winner.guild_id@, winner.id@);
                                    assert forall|k: Seq<char>|
                                        #[trigger] ledger.offset_of(k) == old(ledger).offset_of(k)
                                        - (if k == pk {
                                        old(self).lottery.bet as int
                                    } else {
                                        0
                                    }) + (if k == wdoc {
                                        payout as int
                                    } else {
                                        0
                                    }) by {
                                        assert(ledger.offset_of(k) == mid_ledger.offset_of(k) + (
                                        if k == wdoc {
                                            payout as int
                                        } else {
                                            0
                                        }));
                                        if k != pk {
                                            assert(mid_ledger.offset_of(k) == old(
                                                ledger,
                                            ).offset_of(k));
                                        }
                                    }
                                    assert(games@ =~= old(games)@.remove(old(self).lottery.id@));
                                }
                            }
                            Ok(JoinOutcome::Ended(so))
                        },
                        Err(e) => Err(e),
                    }
                }
            },
            Err(e) => Err(e),
        }
    }
}

/// Whether a member may join a game: a member already in the player list
/// may rejoin only at or above the configured threshold, and any joiner
/// must afford the buy-in. `None` means the join is allowed.
pub fn validate_join(
    game: &Sardines,
    member: &GuildMember,
    config: &Config,
    member_rep: i64,
) -> (r: Option<CoreError>)
    ensures
        r == (if game.lottery.spec_has_player_id(member.id@) && game.lottery.players@.len()
            < config.min_players_before_rejoin {
            Some(CoreError::RejoinBelowMinimum)
        } else if member_rep < game.lottery.bet {
            Some(CoreError::InsufficientBalance)
        } else {
            None::<CoreError>
        }),
{
    let player_in_game = game.lottery.has_player_id(member.id.as_str());
    if player_in_game && !game.can_join_repeat(config) {
        return Some(CoreError::RejoinBelowMinimum);
    }
    if member_rep < game.buy_in() {
        return Some(CoreError::InsufficientBalance);
    }
    None
}

/// The clamped join-failure chance as a percentage in hundredths,
/// rounded to the nearest: the value shown as "xx.yy%".
pub open spec fn spec_chance_percent_hundredths(n: int) -> int {
    (spec_chance_num(n) * 20000 + spec_chance_den(n)) / (2 * spec_chance_den(n))
}

/// Render the join-failure chance at count `n` as "xx.yy" (two decimals).
pub fn chance_percent_label(n: usize) -> (r: String)
    requires
        10 * n + 18 <= u64::MAX,
    ensures
        r@ == dec_digits(spec_chance_percent_hundredths(n as int) / 100) + seq!['.']
            + crate::dates::spec_pad2(spec_chance_percent_hundredths(n as int) % 100),
{
    let (num, den) = join_failure_chance(n);
    let v128: u128 = ((num as u128) * 20000 + (den as u128)) / (2 * (den as u128));
    proof {
        assert((num as u128) * 20000 + (den as u128) <= 0xffffffffffffffffu128 * 20001)
            by (nonlinear_arith)
            requires
                num <= den,
                den <= 0xffffffffffffffffu128,
        ;
        assert(v128 == spec_chance_percent_hundredths(n as int));
        assert(v128 * (2 * (den as u128)) <= (num as u128) * 20000 + (den as u128)
            && v128 <= 20000) by (nonlinear_arith)
            requires
                v128 == ((num as u128) * 20000 + (den as u128)) / (2 * (den as u128)),
                0 <= num < den,
                den >= 18,
        ;
    }
    let v: u64 = v128 as u64;
    let mut s = crate::text::u64_string(v / 100);
    proof {
        reveal_strlit(".");
        assert("."@ =~= seq!['.']);
    }
    s.append(".");
    s.append(crate::dates::pad2(v % 100).as_str());
    proof {
        assert(s@ =~= dec_digits(spec_chance_percent_hundredths(n as int) / 100) + seq!['.']
            + crate::dates::spec_pad2(spec_chance_percent_hundredths(n as int) % 100));
    }
    s
}

/// The announcement text of an open game: the banner with the current
/// join-failure chance, and the player list once at least two players are
/// in.
pub open spec fn spec_sardines_content(
    creator_name: Seq<char>,
    bet: int,
    players: Seq<StoredPlayer>,
) -> Seq<char> {
    let pct = dec_digits(spec_chance_percent_hundredths(players.len() as int) / 100) + seq!['.']
        + crate::dates::spec_pad2(spec_chance_percent_hundredths(players.len() as int) % 100);
    let banner = "## Sardines\n"@ + creator_name + " has started a game for "@
        + crate::helpers::spec_bgr_label(bet, false)
        + ". Click the button below to pay the buy-in and attempt to join the game.\nThere is currently a "@
        + pct
        + "% chance of ending the game when joining. A winner is randomly selected among all players in the game."@;
    if players.len() < 2 {
        banner
    } else {
        banner + "\n\n**Players**\n"@ + crate::helpers::join_sep(
            crate::helpers::spec_usernames(players),
            "\n"@,
        )
    }
}

/// Render the announcement text of an open game.
pub fn build_sardines_content(creator_name: &str, bet: i64, players: &Vec<StoredPlayer>) -> (r:
    String)
    requires
        10 * players@.len() + 18 <= u64::MAX,
    ensures
        r@ == spec_sardines_content(creator_name@, bet as int, players@),
{
    let mut s = "## Sardines\n".to_owned();
    s.append(creator_name);
    s.append(" has started a game for ");
    s.append(crate::helpers::bgr_label(bet, false).as_str());
    s.append(". Click the button below to pay the buy-in and attempt to join the game.\nThere is currently a ");
    s.append(chance_percent_label(players.len()).as_str());
    s.append("% chance of ending the game when joining. A winner is randomly selected among all players in the game.");
    if players.len() >= 2 {
        s.append("\n\n**Players**\n");
        s.append(crate::helpers::join_usernames(players, "\n").as_str());
    }
    proof {
        assert(s@ =~= spec_sardines_content(creator_name@, bet as int, players@));
    }
    s
}

} // verus!
