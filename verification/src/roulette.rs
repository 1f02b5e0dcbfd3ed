//! The fixed-duration game: joins stay open for a countdown, and when it
//! expires a winner drawn uniformly over the players takes the whole pot.
//! Stakes are debited at join time, so settlement only credits the winner.

use vstd::prelude::*;

use crate::errors::CoreError;
use crate::jobs::{JobPayload, JobQueue, JobStatus, JobType, RouletteJobPayload};
use crate::ledger::{
    in_i64_range, lemma_stake_batch_ok, stake_batch_ok, stake_sum, stake_updates, Ledger,
};
use crate::lottery::{lottery_like, Lottery};
use crate::member::{player_eq, spec_doc_id, GuildMember, StoredPlayer};
use crate::helpers::{join_sep, spec_bgr_label, spec_usernames};
use crate::table::Table;
use crate::text::dec_int;
use vstd::string::StringExecFns;

verus! {

pub const ROULETTE_TIME_SECONDS: u64 = 30;

pub const ROULETTE_TIME_MS: u64 = ROULETTE_TIME_SECONDS * 1000;

pub const ROULETTE_FINISH_DELAY_SECONDS: u64 = 3;

/// How a finished game settled.
pub enum RouletteOutcome {
    /// Too few players joined: every player was refunded their bet and the
    /// game was cancelled.
    Cancelled,
    /// The winner was credited the whole pot.
    Won { winner: StoredPlayer, payout: i64 },
}

pub struct Roulette {
    pub lottery: Lottery,
}

impl Roulette {
    /// A live game: positive bet, the creator among the players, and
    /// amounts that the settlement arithmetic can represent.
    pub open spec fn wf(&self) -> bool {
        &&& self.lottery.bet > 0
        &&& self.lottery.players@.len() >= 1
        &&& self.lottery.amounts_fit()
    }

    /// Create a game whose sole initial player is the creator. A bet of
    /// zero or less is rejected with nothing created.
    pub fn init(creator: &GuildMember, bet: i64) -> (r: Result<Roulette, CoreError>)
        requires
            bet <= i64::MAX / 2,
        ensures
            bet > 0 ==> (r matches Ok(g) && g.wf() && g.lottery.bet == bet
                && g.lottery.players@.len() == 1 && g.lottery.players@[0].id@ == creator.id@
                && player_eq(g.lottery.players@[0], g.lottery.creator)
                && g.lottery.creator.id@ == creator.id@ && g.lottery.creator.guild_id@
                == creator.guild_id@ && g.lottery.creator.username@ == creator.username@
                && g.lottery.start_time is None && !g.lottery.closed),
            bet <= 0 ==> (r matches Err(e) && e == CoreError::NonPositiveBet),
    {
        let stored = StoredPlayer::from_member(creator);
        let second = stored.duplicate();
        match Lottery::new(stored, bet) {
            Ok(l) => {
                let mut l = l;
                l.add_player(second);
                Ok(Roulette { lottery: l })
            },
            Err(e) => Err(e),
        }
    }

    /// Load a game from the store; a missing id means the game was already
    /// resolved elsewhere.
    pub fn load(games: &Table<Lottery>, id: &str) -> (r: Result<Roulette, CoreError>)
        requires
            games.wf(),
        ensures
            match r {
                Ok(g) => games@.contains_key(id@) && lottery_like(g.lottery, games@[id@]),
                Err(e) => e == CoreError::NotFound && !games@.contains_key(id@),
            },
    {
        match games.get(id) {
            Some(l) => Ok(Roulette { lottery: l.duplicate() }),
            None => Err(CoreError::NotFound),
        }
    }

    pub fn id(&self) -> (r: &str)
        ensures
            r@ == self.lottery.id@,
    {
        self.lottery.id.as_str()
    }

    pub fn buy_in(&self) -> (r: i64)
        ensures
            r == self.lottery.bet,
    {
        self.lottery.buy_in()
    }

    pub fn bet(&self) -> (r: i64)
        ensures
            r == self.lottery.bet,
    {
        self.lottery.bet
    }

    pub fn creator(&self) -> (r: &StoredPlayer)
        ensures
            r == self.lottery.creator,
    {
        &self.lottery.creator
    }

    pub fn players(&self) -> (r: &Vec<StoredPlayer>)
        ensures
            r == self.lottery.players,
    {
        &self.lottery.players
    }

    pub fn start_time(&self) -> (r: Option<i64>)
        ensures
            r == self.lottery.start_time,
    {
        self.lottery.start_time
    }

    pub fn is_closed(&self) -> (r: bool)
        ensures
            r == self.lottery.closed,
    {
        self.lottery.closed
    }

    /// Record the start time (idempotently), persist the game, and enqueue
    /// the finish job that will settle it when the countdown expires.
    /// Returns the start instant in epoch milliseconds.
    pub fn start(
        &mut self,
        games: &mut Table<Lottery>,
        jobs: &mut JobQueue,
        interaction_token: &str,
        now_ms: u64,
    ) -> (r: i64)
        requires
            old(games).wf(),
            old(jobs).wf(),
            now_ms + ROULETTE_TIME_SECONDS * 1000 <= u64::MAX,
            now_ms <= i64::MAX,
        ensures
            final(games).wf(),
            final(jobs).wf(),
            match old(self).lottery.start_time {
                Some(t) => r == t && final(self).lottery == old(self).lottery,
                None => r == now_ms as i64 && final(self).lottery == (Lottery {
                    start_time: Some(now_ms as i64),
                    ..old(self).lottery
                }),
            },
            final(games)@.contains_key(old(self).lottery.id@),
            lottery_like(final(games)@[old(self).lottery.id@], final(self).lottery),
            forall|k: Seq<char>|
                k != old(self).lottery.id@ ==> final(games)@.contains_key(k) == old(
                    games,
                )@.contains_key(k) && (old(games)@.contains_key(k) ==> final(games)@[k] == old(
                    games,
                )@[k]),
            final(jobs).jobs@ =~= old(jobs).jobs@.insert(
                crate::jobs::spec_job_id(JobType::RouletteFinish, now_ms),
                final(jobs).jobs@[crate::jobs::spec_job_id(JobType::RouletteFinish, now_ms)],
            ),
            ({
                let job = final(jobs).jobs@[crate::jobs::spec_job_id(
                    JobType::RouletteFinish,
                    now_ms,
                )];
                &&& job.job_type == JobType::RouletteFinish
                &&& job.status == JobStatus::Pending
                &&& job.execute_at == now_ms + ROULETTE_TIME_SECONDS * 1000
                &&& (job.payload matches JobPayload::Roulette(p) && p.id@
                    == old(self).lottery.id@ && p.interaction_token@ == interaction_token@)
            }),
    {
        let start_time = self.lottery.start(now_ms as i64);
        games.insert(self.lottery.id.clone(), self.lottery.duplicate());
        let payload = RouletteJobPayload {
            id: self.lottery.id.clone(),
            interaction_token: interaction_token.to_owned(),
        };
        let _job_id = jobs.enqueue(
            JobType::RouletteFinish,
            JobPayload::Roulette(payload),
            now_ms,
            ROULETTE_TIME_SECONDS,
        );
        start_time
    }

    /// Append a joining member to the stored player list, unless a player
    /// with the same id is already in; the in-memory copy is refreshed from
    /// the store either way. The joiner's stake is debited by the caller.
    pub fn add_player(&mut self, games: &mut Table<Lottery>, player: &GuildMember) -> (r: Result<
        (),
        CoreError,
    >)
        requires
            old(games).wf(),
            old(games)@.contains_key(old(self).lottery.id@) ==> (old(games)@[old(
                self,
            ).lottery.id@].players@.len() + 2 <= i64::MAX && crate::lottery::spec_abs(
                old(games)@[old(self).lottery.id@].bet as int,
            ) * (old(games)@[old(self).lottery.id@].players@.len() + 2) <= i64::MAX),
        ensures
            final(games).wf(),
            final(self).lottery.id == old(self).lottery.id,
            (r matches Ok(x)) <==> old(games)@.contains_key(old(self).lottery.id@),
            r matches Err(e) ==> e == CoreError::NotFound && final(games)@ == old(games)@
                && final(self).lottery == old(self).lottery,
            r matches Ok(x) ==> ({
                let stored = old(games)@[old(self).lottery.id@];
                let updated = final(games)@[old(self).lottery.id@];
                &&& final(games)@ =~= old(games)@.insert(old(self).lottery.id@, updated)
                &&& (if stored.spec_has_player_id(player.id@) {
                    lottery_like(updated, stored)
                } else {
                    updated.players@.len() == stored.players@.len() + 1
                        && updated.players@.take(stored.players@.len() as int) == stored.players@
                        && updated.players@.last().id@ == player.id@
                        && updated.players@.last().guild_id@ == player.guild_id@
                        && updated.players@.last().username@ == player.username@ && updated.id
                        == stored.id && updated.bet == stored.bet && updated.creator
                        == stored.creator && updated.start_time == stored.start_time
                        && updated.closed == stored.closed
                })
                &&& final(self).lottery.players@ == updated.players@
            }),
    {
        let gid = self.lottery.id.clone();
        match games.remove(gid.as_str()) {
            Some(stored) => {
                let mut stored = stored;
                let ghost pre = stored;
                if !stored.has_player_id(player.id.as_str()) {
                    stored.add_player(StoredPlayer::from_member(player));
                    proof {
                        assert(stored.players@.take(pre.players@.len() as int) =~= pre.players@);
                    }
                }
                self.lottery.players = crate::member::clone_players(&stored.players);
                games.insert(gid.clone(), stored);
                proof {
                    assert(games@ =~= old(games)@.insert(
                        old(self).lottery.id@,
                        games@[old(self).lottery.id@],
                    ));
                }
                Ok(())
            },
            None => Err(CoreError::NotFound),
        }
    }

    /// Mark the stored game closed to new joins.
    pub fn close(&mut self, games: &mut Table<Lottery>) -> (r: Result<(), CoreError>)
        requires
            old(games).wf(),
        ensures
            final(games).wf(),
            final(self).lottery == (Lottery { closed: true, ..old(self).lottery }),
            (r matches Ok(x)) <==> old(games)@.contains_key(old(self).lottery.id@),
            r matches Ok(x) ==> final(games)@ =~= old(games)@.insert(
                old(self).lottery.id@,
                (Lottery { closed: true, ..old(games)@[old(self).lottery.id@] }),
            ),
            r matches Err(e) ==> e == CoreError::NotFound && final(games)@ == old(games)@,
    {
        self.lottery.closed = true;
        let gid = self.lottery.id.clone();
        match games.remove(gid.as_str()) {
            Some(stored) => {
                let mut stored = stored;
                stored.closed = true;
                games.insert(gid.clone(), stored);
                proof {
                    assert(games@ =~= old(games)@.insert(
                        old(self).lottery.id@,
                        (Lottery { closed: true, ..old(games)@[old(self).lottery.id@] }),
                    ));
                }
                Ok(())
            },
            None => Err(CoreError::NotFound),
        }
    }

    /// Delete the stored game without settling. Used for cleanup when a
    /// flow fails mid-way.
    pub fn force_cleanup(&self, games: &mut Table<Lottery>)
        requires
            old(games).wf(),
        ensures
            final(games).wf(),
            final(games)@ =~= old(games)@.remove(self.lottery.id@),
    {
        let _ = games.remove(self.lottery.id.as_str());
    }

    /// Settle the game. With one player or none, every player is refunded
    /// exactly their bet and the record is deleted: a cancellation. With
    /// more than one player, a winner drawn uniformly over the players is
    /// credited the whole pot (stakes were debited at join time) and the
    /// record is deleted. A failing ledger batch leaves everything
    /// unchanged.
    pub fn finish(&self, games: &mut Table<Lottery>, ledger: &mut Ledger) -> (r: Result<
        RouletteOutcome,
        CoreError,
    >)
        requires
            self.wf(),
            old(games).wf(),
            old(ledger).wf(),
        ensures
            final(games).wf(),
            final(ledger).wf(),
            self.lottery.players@.len() <= 1 ==> {
                &&& (r matches Ok(o)) <==> stake_batch_ok(
                    old(ledger).accounts@,
                    self.lottery.players@,
                    self.lottery.bet as int,
                )
                &&& (r matches Ok(o) ==> o == RouletteOutcome::Cancelled && final(games)@
                    =~= old(games)@.remove(self.lottery.id@) && forall|k: Seq<char>|
                    #[trigger] final(ledger).offset_of(k) == old(ledger).offset_of(k) + stake_sum(
                        self.lottery.players@,
                        self.lottery.bet as int,
                        k,
                    ))
            },
            self.lottery.players@.len() > 1 ==> {
                &&& (r matches Ok(o) ==> (o matches RouletteOutcome::Won { winner, payout } && {
                    &&& exists|idx: int|
                        0 <= idx < self.lottery.players@.len() && winner == self.lottery.players@[idx]
                    &&& payout == self.lottery.spec_pot()
                    &&& final(games)@ =~= old(games)@.remove(self.lottery.id@)
                    &&& forall|k: Seq<char>|
                        #[trigger] final(ledger).offset_of(k) == old(ledger).offset_of(k) + (if k
                            == spec_doc_id(winner.guild_id@, winner.id@) {
                            self.lottery.spec_pot()
                        } else {
                            0
                        })
                }))
                &&& ((forall|idx: int|
                    0 <= idx < self.lottery.players@.len() ==> in_i64_range(
                        old(ledger).offset_of(
                            spec_doc_id(
                                (#[trigger] self.lottery.players@[idx]).guild_id@,
                                self.lottery.players@[idx].id@,
                            ),
                        ) + self.lottery.spec_pot(),
                    )) ==> r matches Ok(o))
            },
            r matches Err(e) ==> e == CoreError::Overflow && final(games)@ == old(games)@
                && *final(ledger) == *old(ledger),
    {
        if !self.lottery.can_finish() {
            let refunds = stake_updates(&self.lottery.players, self.lottery.bet);
            proof {
                lemma_stake_batch_ok(
                    ledger.accounts@,
                    refunds@,
                    self.lottery.players@,
                    self.lottery.bet,
                );
            }
            match ledger.increment_many(&refunds) {
                Ok(()) => {
                    let _ = games.remove(self.lottery.id.as_str());
                    Ok(RouletteOutcome::Cancelled)
                },
                Err(e) => Err(e),
            }
        } else {
            let result = self.lottery.finish();
            proof {
                assert(0 <= self.lottery.spec_pot() <= crate::lottery::spec_abs(
                    self.lottery.bet as int,
                ) * (self.lottery.players@.len() + 1)) by (nonlinear_arith)
                    requires
                        self.lottery.bet > 0,
                        self.lottery.players@.len() >= 1,
                        self.lottery.spec_pot() == self.lottery.bet * self.lottery.players@.len(),
                ;
            }
            let pot = self.lottery.pot_size();
            let key = result.winner.doc_id();
            match ledger.increment(key, pot) {
                Ok(()) => {
                    let _ = games.remove(self.lottery.id.as_str());
                    proof {
                        let idx = choose|idx: int|
                            0 <= idx < self.lottery.players@.len() && result.winner
                                == self.lottery.players@[idx];
                        assert(in_i64_range(
                            old(ledger).offset_of(
                                spec_doc_id(result.winner.guild_id@, result.winner.id@),
                            ) + self.lottery.spec_pot(),
                        ));
                    }
                    Ok(RouletteOutcome::Won { winner: result.winner, payout: pot })
                },
                Err(e) => {
                    proof {
                        let idx = choose|idx: int|
                            0 <= idx < self.lottery.players@.len() && result.winner
                                == self.lottery.players@[idx];
                        assert(!in_i64_range(
                            old(ledger).offset_of(
                                spec_doc_id(
                                    self.lottery.players@[idx].guild_id@,
                                    self.lottery.players@[idx].id@,
                                ),
                            ) + self.lottery.spec_pot(),
                        ));
                    }
                    Err(e)
                },
            }
        }
    }
}

/// Whether a member may join a game: joining twice is never allowed in
/// this variant, and any joiner must afford the buy-in. `None` means the
/// join is allowed.
pub fn validate_roulette_join(game: &Roulette, member: &GuildMember, member_rep: i64) -> (r:
    Option<CoreError>)
    ensures
        r == (if game.lottery.spec_has_player_id(member.id@) {
            Some(CoreError::AlreadyJoined)
        } else if member_rep < game.lottery.bet {
            Some(CoreError::InsufficientBalance)
        } else {
            None::<CoreError>
        }),
{
    if game.lottery.has_player_id(member.id.as_str()) {
        return Some(CoreError::AlreadyJoined);
    }
    if member_rep < game.buy_in() {
        return Some(CoreError::InsufficientBalance);
    }
    None
}

/// The whole seconds left on a game's countdown at `now_ms`, clamped at
/// zero: the display loop ticks while this is positive and stops at zero.
pub fn countdown_remaining_seconds(start_ms: i64, now_ms: i64) -> (r: i64)
    requires
        start_ms + ROULETTE_TIME_MS <= i64::MAX,
        start_ms + ROULETTE_TIME_MS - now_ms <= i64::MAX,
    ensures
        r == (if start_ms + ROULETTE_TIME_MS <= now_ms {
            0int
        } else {
            (start_ms + ROULETTE_TIME_MS - now_ms) / 1000
        }),
        r == 0 <==> start_ms + ROULETTE_TIME_MS < now_ms + 1000,
    {
        let end_ms: i64 = start_ms + (ROULETTE_TIME_MS as i64);
        if end_ms <= now_ms {
            0
        } else {
            (end_ms - now_ms) / 1000
        }
    }

/// The announcement text of an open game: the banner, and the player list
/// once at least two players are in.
pub open spec fn spec_roulette_content(
    creator_name: Seq<char>,
    bet: int,
    remaining_secs: int,
    players: Seq<crate::member::StoredPlayer>,
) -> Seq<char> {
    let banner = creator_name + " has started a roulette game for "@ + spec_bgr_label(bet, false)
        + ". Click the button below within "@ + dec_int(remaining_secs)
        + " seconds to place an equal bet and join the game."@;
    if players.len() < 2 {
        banner
    } else {
        banner + "\n\n**Players**\n"@ + join_sep(spec_usernames(players), "\n"@)
    }
}

/// Render the announcement text of an open game.
pub fn build_roulette_content(
    creator_name: &str,
    bet: i64,
    remaining_secs: i64,
    players: &Vec<crate::member::StoredPlayer>,
) -> (r: String)
    ensures
        r@ == spec_roulette_content(creator_name@, bet as int, remaining_secs as int, players@),
{
    let mut s = creator_name.to_owned();
    s.append(" has started a roulette game for ");
    s.append(crate::helpers::bgr_label(bet, false).as_str());
    s.append(". Click the button below within ");
    s.append(crate::text::i64_string(remaining_secs).as_str());
    s.append(" seconds to place an equal bet and join the game.");
    if players.len() >= 2 {
        s.append("\n\n**Players**\n");
        s.append(crate::helpers::join_usernames(players, "\n").as_str());
    }
    proof {
        assert(s@ =~= spec_roulette_content(
            creator_name@,
            bet as int,
            remaining_secs as int,
            players@,
        ));
    }
    s
}

} // verus!
