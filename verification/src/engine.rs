//! The assembled core: the game stores, the job queue and the ledger,
//! with the poll step that dispatches due jobs and the startup
//! reconciliation that resolves games left without a pending job.

use vstd::prelude::*;

use crate::config::Config;
use crate::jobs::{JobPayload, JobQueue, JobStatus, JobType, RouletteJobPayload, SardinesJobPayload};
use crate::ledger::{in_i64_range, stake_batch_ok, stake_sum, Ledger};
use crate::lottery::Lottery;
use crate::member::spec_doc_id;
use crate::roulette::{Roulette, RouletteOutcome};
use crate::sardines::{spec_game_multiplier_tenths, Sardines, SardinesOutcome};
use crate::table::Table;
use crate::text::contains_str;

verus! {

/// What a dispatched job produced, for the front end to render.
pub enum JobOutcome {
    RouletteSettled { interaction_token: String, outcome: RouletteOutcome },
    SardinesSettled { channel_id: u64, message_id: u64, outcome: SardinesOutcome },
    /// The referenced game was already resolved elsewhere, or its ledger
    /// batch could not be applied; the job record is consumed either way.
    Skipped,
}

/// A stored fixed-duration game the engine can settle.
pub open spec fn roulette_stored_wf(l: Lottery) -> bool {
    (Roulette { lottery: l }).wf()
}

/// A stored probabilistic game the engine can settle.
pub open spec fn sardines_stored_wf(l: Lottery) -> bool {
    &&& l.bet > 0
    &&& l.players@.len() >= 1
    &&& l.players@.len() + 2 <= i64::MAX
    &&& 3 * (l.bet * (l.players@.len() + 1)) <= i64::MAX
}

/// A game id is covered when some pending finish job of the right kind
/// points at it.
pub open spec fn covered(jobs: Map<Seq<char>, crate::jobs::Job>, kind: JobType, gid: Seq<char>) -> bool {
    exists|k: Seq<char>|
        {
            &&& #[trigger] jobs.contains_key(k)
            &&& jobs[k].status == JobStatus::Pending
            &&& jobs[k].job_type == kind
            &&& jobs[k].payload.spec_game_id() == gid
        }
}

/// An orphan is a persisted game with no pending finish job pointing at
/// it: it was created or mid-flight when the process crashed, or its job
/// was already consumed.
pub open spec fn orphan(
    games: Map<Seq<char>, Lottery>,
    jobs: Map<Seq<char>, crate::jobs::Job>,
    kind: JobType,
    gid: Seq<char>,
) -> bool {
    games.contains_key(gid) && !covered(jobs, kind, gid)
}

/// Recovery is idempotent: once every remaining game is covered by a
/// pending job, a second reconciliation finds no orphan.
pub proof fn lemma_recover_idempotent(
    games: Map<Seq<char>, Lottery>,
    jobs: Map<Seq<char>, crate::jobs::Job>,
    kind: JobType,
)
    requires
        forall|gid: Seq<char>| #[trigger] games.contains_key(gid) ==> covered(jobs, kind, gid),
    ensures
        forall|gid: Seq<char>| !(#[trigger] orphan(games, jobs, kind, gid)),
{
}

/// The exact effect of dispatching a fixed-duration finish job with
/// payload `p`: the stored game is settled as `Roulette::finish` ensures
/// and the outcome reported under the payload's routing token; a missing
/// game, or a ledger batch that cannot apply, is consumed as `Skipped`
/// with the game store and the ledger untouched.
pub open spec fn roulette_dispatch_effect(
    pre: Core,
    post: Core,
    p: RouletteJobPayload,
    r: JobOutcome,
) -> bool {
    &&& post.sardines@ == pre.sardines@
    &&& (!pre.roulettes@.contains_key(p.id@) ==> r == JobOutcome::Skipped && post.roulettes@
        == pre.roulettes@ && post.ledger == pre.ledger)
    &&& (pre.roulettes@.contains_key(p.id@) ==> ({
        let g = pre.roulettes@[p.id@];
        &&& (r matches JobOutcome::RouletteSettled { interaction_token, outcome }
            ==> interaction_token@ == p.interaction_token@)
        &&& ((r matches JobOutcome::RouletteSettled { .. }) || r == JobOutcome::Skipped)
        &&& (r == JobOutcome::Skipped ==> post.roulettes@ == pre.roulettes@ && post.ledger
            == pre.ledger)
        &&& (g.players@.len() <= 1 ==> ({
            &&& (stake_batch_ok(pre.ledger.accounts@, g.players@, g.bet as int) <==> (
            r matches JobOutcome::RouletteSettled { outcome, .. } && outcome
                == RouletteOutcome::Cancelled))
            &&& (r matches JobOutcome::RouletteSettled { .. } ==> post.roulettes@
                =~= pre.roulettes@.remove(p.id@) && forall|k: Seq<char>|
                #[trigger] post.ledger.offset_of(k) == pre.ledger.offset_of(k) + stake_sum(
                    g.players@,
                    g.bet as int,
                    k,
                ))
        }))
        &&& (g.players@.len() > 1 ==> ({
            &&& (r matches JobOutcome::RouletteSettled { outcome, .. } ==> (
            outcome matches RouletteOutcome::Won { winner, payout } && {
                &&& exists|idx: int|
                    0 <= idx < g.players@.len() && winner == g.players@[idx]
                &&& payout == g.bet * g.players@.len()
                &&& post.roulettes@ =~= pre.roulettes@.remove(p.id@)
                &&& forall|k: Seq<char>|
                    #[trigger] post.ledger.offset_of(k) == pre.ledger.offset_of(k) + (if k
                        == spec_doc_id(winner.guild_id@, winner.id@) {
                        payout as int
                    } else {
                        0
                    })
            }))
            &&& ((forall|idx: int|
                0 <= idx < g.players@.len() ==> in_i64_range(
                    pre.ledger.offset_of(
                        spec_doc_id(
                            (#[trigger] g.players@[idx]).guild_id@,
                            g.players@[idx].id@,
                        ),
                    ) + g.bet * g.players@.len(),
                )) ==> (r matches JobOutcome::RouletteSettled { .. }))
        }))
    }))
}

/// The exact effect of dispatching a probabilistic finish job with payload
/// `p`: the stored game is settled as `Sardines::finish` ensures and the
/// outcome reported under the payload's channel and message ids; a missing
/// game, or a ledger batch that cannot apply, is consumed as `Skipped`
/// with the game store and the ledger untouched.
pub open spec fn sardines_dispatch_effect(
    pre: Core,
    post: Core,
    p: SardinesJobPayload,
    r: JobOutcome,
) -> bool {
    &&& post.roulettes@ == pre.roulettes@
    &&& (!pre.sardines@.contains_key(p.id@) ==> r == JobOutcome::Skipped && post.sardines@
        == pre.sardines@ && post.ledger == pre.ledger)
    &&& (pre.sardines@.contains_key(p.id@) ==> ({
        let g = pre.sardines@[p.id@];
        &&& (r matches JobOutcome::SardinesSettled { channel_id, message_id, outcome }
            ==> channel_id == p.channel_id && message_id == p.message_id)
        &&& ((r matches JobOutcome::SardinesSettled { .. }) || r == JobOutcome::Skipped)
        &&& (r == JobOutcome::Skipped ==> post.sardines@ == pre.sardines@ && post.ledger
            == pre.ledger)
        &&& (g.players@.len() <= 1 ==> ({
            &&& (stake_batch_ok(pre.ledger.accounts@, g.players@, g.bet as int) <==> (
            r matches JobOutcome::SardinesSettled { outcome, .. } && outcome
                == SardinesOutcome::Refunded))
            &&& (r matches JobOutcome::SardinesSettled { .. } ==> post.sardines@
                =~= pre.sardines@.remove(p.id@) && forall|k: Seq<char>|
                #[trigger] post.ledger.offset_of(k) == pre.ledger.offset_of(k) + stake_sum(
                    g.players@,
                    g.bet as int,
                    k,
                ))
        }))
        &&& (g.players@.len() > 1 ==> ({
            &&& (r matches JobOutcome::SardinesSettled { outcome, .. } ==> (
            outcome matches SardinesOutcome::Won { winner, payout, multiplier_tenths } && {
                &&& exists|idx: int|
                    0 <= idx < g.players@.len() && winner == g.players@[idx]
                &&& multiplier_tenths == spec_game_multiplier_tenths(
                    p.id@,
                    pre.config.random_seed@,
                )
                &&& payout == g.bet * (g.players@.len() + 1) * multiplier_tenths / 10
                &&& post.sardines@ =~= pre.sardines@.remove(p.id@)
                &&& forall|k: Seq<char>|
                    #[trigger] post.ledger.offset_of(k) == pre.ledger.offset_of(k) + (if k
                        == spec_doc_id(winner.guild_id@, winner.id@) {
                        payout as int
                    } else {
                        0
                    })
            }))
            &&& ((forall|idx: int|
                0 <= idx < g.players@.len() ==> in_i64_range(
                    pre.ledger.offset_of(
                        spec_doc_id(
                            (#[trigger] g.players@[idx]).guild_id@,
                            g.players@[idx].id@,
                        ),
                    ) + g.bet * (g.players@.len() + 1) * spec_game_multiplier_tenths(
                        p.id@,
                        pre.config.random_seed@,
                    ) / 10,
                )) ==> (r matches JobOutcome::SardinesSettled { .. }))
        }))
    }))
}

/// The ledger effect of one reconciled orphan: the per-player refunds of a
/// cancelled game, the winner's credit of a settled one, and nothing for a
/// failed batch.
#[verifier::opaque]
pub open spec fn settlement_delta(g: Lottery, o: Option<SardinesOutcome>, k: Seq<char>) -> int {
    match o {
        Option::None => 0,
        Option::Some(so) => match so {
            SardinesOutcome::Refunded => stake_sum(g.players@, g.bet as int, k),
            SardinesOutcome::Won { winner, payout, .. } => if k == spec_doc_id(
                winner.guild_id@,
                winner.id@,
            ) {
                payout as int
            } else {
                0
            },
        },
    }
}

/// A reported orphan settlement is valid for its stored game: a game at
/// or below one player was refunded, a larger one was won by one of its
/// players at the game's deterministic multiplier.
#[verifier::opaque]
pub open spec fn reported_settlement_ok(
    g: Lottery,
    gid: Seq<char>,
    seed: Seq<char>,
    o: Option<SardinesOutcome>,
) -> bool {
    o matches Some(so) ==> ({
        &&& (g.players@.len() <= 1 ==> so == SardinesOutcome::Refunded)
        &&& (g.players@.len() > 1 ==> (so matches SardinesOutcome::Won {
            winner,
            payout,
            multiplier_tenths,
        } && {
            &&& exists|idx: int| 0 <= idx < g.players@.len() && winner == g.players@[idx]
            &&& multiplier_tenths == spec_game_multiplier_tenths(gid, seed)
            &&& payout == g.bet * (g.players@.len() + 1) * multiplier_tenths / 10
        }))
    })
}

/// The combined ledger effect of a reconciliation run, per account key:
/// the sum of each reported orphan's settlement against its stored game.
#[verifier::opaque]
pub open spec fn recover_delta(
    entries: Seq<(String, Option<SardinesOutcome>)>,
    games: Map<Seq<char>, Lottery>,
    k: Seq<char>,
) -> int
    decreases entries.len(),
{
    if entries.len() == 0 {
        0
    } else {
        recover_delta(entries.drop_last(), games, k) + (if games.contains_key(
            entries.last().0@,
        ) {
            settlement_delta(games[entries.last().0@], entries.last().1, k)
        } else {
            0
        })
    }
}

/// Settling one more reported orphan keeps the bookkeeping exact: the
/// games that remain are those of the baseline with no settled entry.
proof fn lemma_settle_step_frame(
    games0: Map<Seq<char>, Lottery>,
    pre_games: Map<Seq<char>, Lottery>,
    post_games: Map<Seq<char>, Lottery>,
    pre_results: Seq<(String, Option<SardinesOutcome>)>,
    results: Seq<(String, Option<SardinesOutcome>)>,
    gid: Seq<char>,
)
    requires
        results.len() == pre_results.len() + 1,
        results.drop_last() == pre_results,
        results.last().0@ == gid,
        forall|g2: Seq<char>|
            #![trigger pre_games.contains_key(g2)]
            pre_games.contains_key(g2) <==> (games0.contains_key(g2) && !(exists|a: int|
                0 <= a < pre_results.len() && (#[trigger] pre_results[a]).0@ == g2
                    && pre_results[a].1 is Some)),
        results.last().1 is Some ==> post_games =~= pre_games.remove(gid),
        results.last().1 is None ==> post_games == pre_games,
    ensures
        forall|g2: Seq<char>|
            #![trigger post_games.contains_key(g2)]
            post_games.contains_key(g2) <==> (games0.contains_key(g2) && !(exists|a: int|
                0 <= a < results.len() && (#[trigger] results[a]).0@ == g2 && results[a].1
                    is Some)),
{
    let i = pre_results.len() as int;
    assert forall|g2: Seq<char>|
        #![trigger post_games.contains_key(g2)]
        post_games.contains_key(g2) <==> (games0.contains_key(g2) && !(exists|a: int|
            0 <= a < results.len() && (#[trigger] results[a]).0@ == g2 && results[a].1
                is Some)) by {
        if post_games.contains_key(g2) {
            assert(pre_games.contains_key(g2));
            if exists|a: int|
                0 <= a < results.len() && (#[trigger] results[a]).0@ == g2 && results[a].1
                    is Some {
                let a = choose|a: int|
                    0 <= a < results.len() && (#[trigger] results[a]).0@ == g2 && results[a].1
                        is Some;
                if a < i {
                    assert(pre_results[a].0@ == g2 && pre_results[a].1 is Some);
                } else {
                    assert(g2 == gid && results.last().1 is Some);
                    assert(!post_games.contains_key(g2));
                }
            }
        } else {
            if games0.contains_key(g2) && !(exists|a: int|
                0 <= a < results.len() && (#[trigger] results[a]).0@ == g2 && results[a].1
                    is Some) {
                assert(!(exists|a: int|
                    0 <= a < pre_results.len() && (#[trigger] pre_results[a]).0@ == g2
                        && pre_results[a].1 is Some)) by {
                    if exists|a: int|
                        0 <= a < pre_results.len() && (#[trigger] pre_results[a]).0@ == g2
                            && pre_results[a].1 is Some {
                        let a = choose|a: int|
                            0 <= a < pre_results.len() && (#[trigger] pre_results[a]).0@ == g2
                                && pre_results[a].1 is Some;
                        assert(results[a] == pre_results[a]);
                    }
                }
                assert(pre_games.contains_key(g2));
                assert(g2 != gid || !(results.last().1 is Some));
            }
        }
    }
}

/// After a full reconciliation, the games that remain are exactly the
/// covered ones plus the orphans whose settlement failed.
proof fn lemma_recover_contains(
    games0: Map<Seq<char>, Lottery>,
    jobs0: Map<Seq<char>, crate::jobs::Job>,
    final_games: Map<Seq<char>, Lottery>,
    results: Seq<(String, Option<SardinesOutcome>)>,
)
    requires
        forall|a: int|
            #![trigger results[a]]
            0 <= a < results.len() ==> games0.contains_key(results[a].0@) && !covered(
                jobs0,
                JobType::SardinesFinish,
                results[a].0@,
            ),
        forall|gid: Seq<char>|
            #[trigger] orphan(games0, jobs0, JobType::SardinesFinish, gid) ==> exists|a: int|
                0 <= a < results.len() && results[a].0@ == gid,
        forall|a: int, b: int|
            0 <= a < b < results.len() ==> (#[trigger] results[a]).0@ != (
            #[trigger] results[b]).0@,
        forall|g2: Seq<char>|
            #![trigger final_games.contains_key(g2)]
            final_games.contains_key(g2) <==> (games0.contains_key(g2) && !(exists|a: int|
                0 <= a < results.len() && (#[trigger] results[a]).0@ == g2 && results[a].1
                    is Some)),
    ensures
        forall|gid: Seq<char>|
            #![trigger final_games.contains_key(gid)]
            final_games.contains_key(gid) <==> (games0.contains_key(gid) && (covered(
                jobs0,
                JobType::SardinesFinish,
                gid,
            ) || exists|a: int|
                0 <= a < results.len() && (#[trigger] results[a]).0@ == gid && results[a].1
                    is None)),
{
    assert forall|gid: Seq<char>|
        #![trigger final_games.contains_key(gid)]
        final_games.contains_key(gid) <==> (games0.contains_key(gid) && (covered(
        jobs0,
        JobType::SardinesFinish,
        gid,
    ) || exists|a: int|
        0 <= a < results.len() && (#[trigger] results[a]).0@ == gid && results[a].1
            is None)) by {
        if games0.contains_key(gid) {
            if covered(jobs0, JobType::SardinesFinish, gid) {
                assert(!(exists|a: int|
                    0 <= a < results.len() && (#[trigger] results[a]).0@ == gid && results[a].1
                        is Some)) by {
                    if exists|a: int|
                        0 <= a < results.len() && (#[trigger] results[a]).0@ == gid
                            && results[a].1 is Some {
                        let a = choose|a: int|
                            0 <= a < results.len() && (#[trigger] results[a]).0@ == gid
                                && results[a].1 is Some;
                        assert(!covered(jobs0, JobType::SardinesFinish, results[a].0@));
                    }
                }
            } else {
                assert(orphan(games0, jobs0, JobType::SardinesFinish, gid));
                let a0 = choose|a: int| 0 <= a < results.len() && results[a].0@ == gid;
                if final_games.contains_key(gid) {
                    assert(!(results[a0].1 is Some));
                    assert(results[a0].1 is None);
                } else {
                    let a1 = choose|a: int|
                        0 <= a < results.len() && (#[trigger] results[a]).0@ == gid
                            && results[a].1 is Some;
                    if exists|a: int|
                        0 <= a < results.len() && (#[trigger] results[a]).0@ == gid
                            && results[a].1 is None {
                        let a2 = choose|a: int|
                            0 <= a < results.len() && (#[trigger] results[a]).0@ == gid
                                && results[a].1 is None;
                        assert(results[a1].0@ == results[a2].0@);
                        assert(a1 == a2);
                    }
                }
            }
        }
    }
}

pub struct Core {
    pub roulettes: Table<Lottery>,
    pub sardines: Table<Lottery>,
    pub jobs: JobQueue,
    pub ledger: Ledger,
    pub config: Config,
}

impl Core {
    pub open spec fn wf(&self) -> bool {
        &&& self.roulettes.wf()
        &&& forall|k: Seq<char>|
            self.roulettes@.contains_key(k) ==> roulette_stored_wf(#[trigger] self.roulettes@[k])
            && self.roulettes@[k].id@ == k
        &&& self.sardines.wf()
        &&& forall|k: Seq<char>|
            self.sardines@.contains_key(k) ==> sardines_stored_wf(#[trigger] self.sardines@[k])
            && self.sardines@[k].id@ == k
        &&& self.jobs.wf()
        &&& self.ledger.wf()
    }

    pub fn new(config: Config) -> (r: Core)
        ensures
            r.wf(),
            r.roulettes@ == Map::<Seq<char>, Lottery>::empty(),
            r.sardines@ == Map::<Seq<char>, Lottery>::empty(),
            r.jobs.jobs@ == Map::<Seq<char>, crate::jobs::Job>::empty(),
            r.config == config,
    {
        Core {
            roulettes: Table::new(),
            sardines: Table::new(),
            jobs: JobQueue::new(),
            ledger: Ledger::new(),
            config,
        }
    }

    /// Run one job: mark the record running, dispatch on its payload kind,
    /// and delete the record whatever the handler produced — the canonical
    /// no-retry policy. A missing id changes nothing.
    pub fn execute_job(&mut self, id: &str) -> (r: Option<JobOutcome>)
        requires
            old(self).wf(),
        ensures
            final(self).wf(),
            final(self).config == old(self).config,
            !old(self).jobs.jobs@.contains_key(id@) ==> r is None && *final(self) == *old(self),
            old(self).jobs.jobs@.contains_key(id@) ==> ({
                &&& r is Some
                &&& final(self).jobs.jobs@ =~= old(self).jobs.jobs@.remove(id@)
                &&& (old(self).jobs.jobs@[id@].payload matches JobPayload::Roulette(p) ==> (
                r matches Some(o) && roulette_dispatch_effect(*old(self), *final(self), p, o)))
                &&& (old(self).jobs.jobs@[id@].payload matches JobPayload::Sardines(p) ==> (
                r matches Some(o) && sardines_dispatch_effect(*old(self), *final(self), p, o)))
            }),
    {
        let (game_id, kind, token, channel_id, message_id): (String, JobType, String, u64, u64) =
            match self.jobs.get(id) {
            Some(job) => match &job.payload {
                JobPayload::Roulette(p) => (
                    p.id.clone(),
                    JobType::RouletteFinish,
                    p.interaction_token.clone(),
                    0,
                    0,
                ),
                JobPayload::Sardines(p) => (
                    p.id.clone(),
                    JobType::SardinesFinish,
                    String::new(),
                    p.channel_id,
                    p.message_id,
                ),
            },
            None => {
                return None;
            },
        };
        self.jobs.mark_running(id);
        let outcome: JobOutcome = match kind {
            JobType::RouletteFinish => {
                match Roulette::load(&self.roulettes, game_id.as_str()) {
                    Ok(game) => {
                        proof {
                            assert(roulette_stored_wf(old(self).roulettes@[game_id@]));
                            assert(game.lottery.id@ == game_id@);
                        }
                        match game.finish(&mut self.roulettes, &mut self.ledger) {
                            Ok(o) => JobOutcome::RouletteSettled {
                                interaction_token: token,
                                outcome: o,
                            },
                            Err(_) => JobOutcome::Skipped,
                        }
                    },
                    Err(_) => JobOutcome::Skipped,
                }
            },
            JobType::SardinesFinish => {
                match Sardines::load(&self.sardines, &self.config, game_id.as_str()) {
                    Ok(game) => {
                        proof {
                            assert(sardines_stored_wf(old(self).sardines@[game_id@]));
                            assert(game.lottery.id@ == game_id@);
                        }
                        match game.finish(&mut self.sardines, &mut self.ledger) {
                            Ok(o) => JobOutcome::SardinesSettled {
                                channel_id,
                                message_id,
                                outcome: o,
                            },
                            Err(_) => JobOutcome::Skipped,
                        }
                    },
                    Err(_) => JobOutcome::Skipped,
                }
            },
        };
        self.jobs.delete(id);
        Some(outcome)
    }

    /// One poll: select every record that is pending and due, run each
    /// through the dispatch above, and hand back, per consumed job, its id
    /// and what the dispatch produced. Afterwards exactly the jobs that
    /// were not due remain, unchanged; every due job was consumed.
    pub fn poll_once(&mut self, now_ms: u64) -> (r: Vec<(String, JobOutcome)>)
        requires
            old(self).wf(),
        ensures
            final(self).wf(),
            final(self).config == old(self).config,
            forall|k: Seq<char>|
                #![trigger final(self).jobs.jobs@.contains_key(k)]
                final(self).jobs.jobs@.contains_key(k) <==> (old(self).jobs.jobs@.contains_key(k)
                    && !old(self).jobs.spec_due(k, now_ms)),
            forall|k: Seq<char>|
                #![trigger final(self).jobs.jobs@[k]]
                final(self).jobs.jobs@.contains_key(k) ==> final(self).jobs.jobs@[k] == old(
                    self,
                ).jobs.jobs@[k],
            forall|a: int|
                #![trigger r@[a]]
                0 <= a < r@.len() ==> old(self).jobs.spec_due(r@[a].0@, now_ms),
            forall|k: Seq<char>|
                #[trigger] old(self).jobs.spec_due(k, now_ms) ==> exists|a: int|
                    0 <= a < r@.len() && r@[a].0@ == k,
            forall|a: int, b: int|
                0 <= a < b < r@.len() ==> (#[trigger] r@[a]).0@ != (#[trigger] r@[b]).0@,
            forall|a: int|
                #![trigger r@[a]]
                0 <= a < r@.len() ==> ({
                    let job = old(self).jobs.jobs@[r@[a].0@];
                    &&& (job.payload matches JobPayload::Roulette(p) ==> ((r@[a].1
                        matches JobOutcome::RouletteSettled { interaction_token, .. }
                        && interaction_token@ == p.interaction_token@) || r@[a].1
                        == JobOutcome::Skipped))
                    &&& (job.payload matches JobPayload::Sardines(p) ==> ((r@[a].1
                        matches JobOutcome::SardinesSettled { channel_id, message_id, .. }
                        && channel_id == p.channel_id && message_id == p.message_id) || r@[a].1
                        == JobOutcome::Skipped))
                }),
    {
        let ids = self.jobs.due_pending_ids(now_ms);
        let ghost jobs0 = self.jobs.jobs@;
        let mut outcomes: Vec<(String, JobOutcome)> = Vec::new();
        let n = ids.len();
        let mut i: usize = 0;
        while i < n
            invariant
                0 <= i <= n,
                n == ids@.len(),
                self.wf(),
                self.config == old(self).config,
                jobs0 == old(self).jobs.jobs@,
                forall|j: int|
                    0 <= j < ids@.len() ==> old(self).jobs.spec_due(#[trigger] ids@[j]@, now_ms),
                forall|k: Seq<char>|
                    #[trigger] old(self).jobs.spec_due(k, now_ms) ==> exists|j: int|
                        0 <= j < ids@.len() && ids@[j]@ == k,
                forall|a: int, b: int|
                    0 <= a < b < ids@.len() ==> (#[trigger] ids@[a])@ != (#[trigger] ids@[b])@,
                forall|k: Seq<char>|
                    #![trigger self.jobs.jobs@.contains_key(k)]
                    self.jobs.jobs@.contains_key(k) <==> (jobs0.contains_key(k) && !(exists|j: int|
                        0 <= j < i && (#[trigger] ids@[j])@ == k)),
                forall|k: Seq<char>|
                    #![trigger self.jobs.jobs@[k]]
                    self.jobs.jobs@.contains_key(k) ==> self.jobs.jobs@[k] == jobs0[k],
                outcomes@.len() == i,
                forall|a: int| #![trigger outcomes@[a]] 0 <= a < i ==> outcomes@[a].0@ == ids@[a]@,
                forall|a: int|
                    #![trigger outcomes@[a]]
                    0 <= a < i ==> ({
                        let job = jobs0[outcomes@[a].0@];
                        &&& (job.payload matches JobPayload::Roulette(p) ==> ((outcomes@[a].1
                            matches JobOutcome::RouletteSettled { interaction_token, .. }
                            && interaction_token@ == p.interaction_token@) || outcomes@[a].1
                            == JobOutcome::Skipped))
                        &&& (job.payload matches JobPayload::Sardines(p) ==> ((outcomes@[a].1
                            matches JobOutcome::SardinesSettled { channel_id, message_id, .. }
                            && channel_id == p.channel_id && message_id == p.message_id)
                            || outcomes@[a].1 == JobOutcome::Skipped))
                    }),
            decreases n - i,
        {
            let id = ids[i].clone();
            let ghost pre_jobs = self.jobs.jobs@;
            let ghost pre_out = outcomes@;
            proof {
                assert(old(self).jobs.spec_due(ids@[i as int]@, now_ms));
                assert(jobs0.contains_key(id@));
                assert(!(exists|j: int| 0 <= j < i && (#[trigger] ids@[j])@ == id@)) by {
                    if exists|j: int| 0 <= j < i && (#[trigger] ids@[j])@ == id@ {
                        let j = choose|j: int| 0 <= j < i && (#[trigger] ids@[j])@ == id@;
                        assert(ids@[j]@ != ids@[i as int]@);
                    }
                }
                assert(self.jobs.jobs@.contains_key(id@));
                assert(self.jobs.jobs@[id@] == jobs0[id@]);
            }
            match self.execute_job(id.as_str()) {
                Some(o) => {
                    outcomes.push((id, o));
                },
                None => {
                    proof {
                        assert(false);
                    }
                },
            }
            proof {
                assert forall|k: Seq<char>|
                    #![trigger self.jobs.jobs@.contains_key(k)]
                    self.jobs.jobs@.contains_key(k) <==> (jobs0.contains_key(k) && !(exists|j: int|
                        0 <= j < i + 1 && (#[trigger] ids@[j])@ == k)) by {
                    if self.jobs.jobs@.contains_key(k) {
                        assert(pre_jobs.contains_key(k) && k != ids@[i as int]@);
                        if exists|j: int| 0 <= j < i + 1 && (#[trigger] ids@[j])@ == k {
                            let j = choose|j: int| 0 <= j < i + 1 && (#[trigger] ids@[j])@ == k;
                            assert(j < i);
                            assert(!pre_jobs.contains_key(k));
                        }
                    } else {
                        if jobs0.contains_key(k) && !(exists|j: int|
                            0 <= j < i + 1 && (#[trigger] ids@[j])@ == k) {
                            assert(!(exists|j: int| 0 <= j < i && (#[trigger] ids@[j])@ == k));
                            assert(pre_jobs.contains_key(k));
                            assert(k != ids@[i as int]@);
                        }
                    }
                }
                assert forall|k: Seq<char>|
                    #![trigger self.jobs.jobs@[k]]
                    self.jobs.jobs@.contains_key(k) implies self.jobs.jobs@[k] == jobs0[k] by {
                    assert(pre_jobs.contains_key(k));
                }
                assert forall|a: int| #![trigger outcomes@[a]] 0 <= a < i + 1 implies outcomes@[a].0@
                    == ids@[a]@ by {
                    if a < i {
                        assert(outcomes@[a] == pre_out[a]);
                    }
                }
                assert forall|a: int|
                    #![trigger outcomes@[a]]
                    0 <= a < i + 1 implies ({
                    let job = jobs0[outcomes@[a].0@];
                    &&& (job.payload matches JobPayload::Roulette(p) ==> ((outcomes@[a].1
                        matches JobOutcome::RouletteSettled { interaction_token, .. }
                        && interaction_token@ == p.interaction_token@) || outcomes@[a].1
                        == JobOutcome::Skipped))
                    &&& (job.payload matches JobPayload::Sardines(p) ==> ((outcomes@[a].1
                        matches JobOutcome::SardinesSettled { channel_id, message_id, .. }
                        && channel_id == p.channel_id && message_id == p.message_id)
                        || outcomes@[a].1 == JobOutcome::Skipped))
                }) by {
                    if a < i {
                        assert(outcomes@[a] == pre_out[a]);
                    } else {
                        assert(outcomes@[a].0@ == ids@[i as int]@);
                        assert(pre_jobs[ids@[i as int]@] == jobs0[ids@[i as int]@]);
                    }
                }
            }
            i += 1;
        }
        proof {
            assert forall|k: Seq<char>|
                #![trigger self.jobs.jobs@.contains_key(k)]
                self.jobs.jobs@.contains_key(k) <==> (jobs0.contains_key(k) && !old(
                self,
            ).jobs.spec_due(k, now_ms)) by {
                if jobs0.contains_key(k) {
                    if old(self).jobs.spec_due(k, now_ms) {
                        let j = choose|j: int| 0 <= j < ids@.len() && ids@[j]@ == k;
                        assert(exists|jj: int| 0 <= jj < n && (#[trigger] ids@[jj])@ == k);
                    } else {
                        if exists|j: int| 0 <= j < n && (#[trigger] ids@[j])@ == k {
                            let j = choose|j: int| 0 <= j < n && (#[trigger] ids@[j])@ == k;
                            assert(old(self).jobs.spec_due(ids@[j]@, now_ms));
                        }
                    }
                }
            }
            assert forall|k: Seq<char>| #[trigger] old(self).jobs.spec_due(k, now_ms)
                implies exists|a: int| 0 <= a < outcomes@.len() && outcomes@[a].0@ == k by {
                let j = choose|j: int| 0 <= j < ids@.len() && ids@[j]@ == k;
                assert(outcomes@[j].0@ == ids@[j]@);
            }
        }
        outcomes
    }

    /// The ids of every game that a pending finish job of the given kind
    /// points at.
    fn covered_game_ids(&self, kind: JobType) -> (r: Vec<String>)
        requires
            self.jobs.wf(),
        ensures
            forall|i: int|
                0 <= i < r@.len() ==> covered(self.jobs.jobs@, kind, #[trigger] r@[i]@),
            forall|gid: Seq<char>|
                #[trigger] covered(self.jobs.jobs@, kind, gid) ==> exists|i: int|
                    0 <= i < r@.len() && r@[i]@ == gid,
    {
        let mut r: Vec<String> = Vec::new();
        let n = self.jobs.jobs.len();
        let mut j: usize = 0;
        while j < n
            invariant
                0 <= j <= n,
                n == self.jobs.jobs.entries@.len(),
                self.jobs.wf(),
                forall|i: int|
                    0 <= i < r@.len() ==> covered(self.jobs.jobs@, kind, #[trigger] r@[i]@),
                forall|jj: int|
                    0 <= jj < j && (#[trigger] self.jobs.jobs.entries@[jj].1.status)
                        == JobStatus::Pending && self.jobs.jobs.entries@[jj].1.job_type == kind
                        ==> exists|i: int|
                        0 <= i < r@.len() && r@[i]@
                            == self.jobs.jobs.entries@[jj].1.payload.spec_game_id(),
            decreases n - j,
        {
            let entry = self.jobs.jobs.entry_at(j);
            let matches_kind = match (entry.1.status, entry.1.job_type, kind) {
                (JobStatus::Pending, JobType::RouletteFinish, JobType::RouletteFinish) => true,
                (JobStatus::Pending, JobType::SardinesFinish, JobType::SardinesFinish) => true,
                _ => false,
            };
            if matches_kind {
                proof {
                    crate::table::lemma_map_of_index(self.jobs.jobs.entries@, j as int);
                }
                let ghost pre = r@;
                r.push(entry.1.payload.game_id().clone());
                proof {
                    assert(r@[r@.len() - 1]@
                        == self.jobs.jobs.entries@[j as int].1.payload.spec_game_id());
                    assert(covered(
                        self.jobs.jobs@,
                        kind,
                        self.jobs.jobs.entries@[j as int].1.payload.spec_game_id(),
                    )) by {
                        let k = self.jobs.jobs.entries@[j as int].0@;
                        assert(self.jobs.jobs@.contains_key(k));
                        assert(self.jobs.jobs@[k] == self.jobs.jobs.entries@[j as int].1);
                    }
                    assert forall|i: int|
                        0 <= i < r@.len() implies covered(
                        self.jobs.jobs@,
                        kind,
                        #[trigger] r@[i]@,
                    ) by {
                        if i < pre.len() {
                            assert(r@[i] == pre[i]);
                        }
                    }
                    assert forall|jj: int|
                        0 <= jj < j + 1 && (#[trigger] self.jobs.jobs.entries@[jj].1.status)
                            == JobStatus::Pending && self.jobs.jobs.entries@[jj].1.job_type == kind
                        implies exists|i: int|
                        0 <= i < r@.len() && r@[i]@
                            == self.jobs.jobs.entries@[jj].1.payload.spec_game_id() by {
                        if jj < j {
                            let i = choose|i: int|
                                0 <= i < pre.len() && pre[i]@
                                    == self.jobs.jobs.entries@[jj].1.payload.spec_game_id();
                            assert(r@[i]@
                                == self.jobs.jobs.entries@[jj].1.payload.spec_game_id());
                        } else {
                            assert(r@[r@.len() - 1]@
                                == self.jobs.jobs.entries@[jj].1.payload.spec_game_id());
                        }
                    }
                }
            }
            j += 1;
        }
        proof {
            assert forall|gid: Seq<char>|
                #[trigger] covered(self.jobs.jobs@, kind, gid) implies exists|i: int|
                0 <= i < r@.len() && r@[i]@ == gid by {
                let k = choose|k: Seq<char>|
                    {
                        &&& #[trigger] self.jobs.jobs@.contains_key(k)
                        &&& self.jobs.jobs@[k].status == JobStatus::Pending
                        &&& self.jobs.jobs@[k].job_type == kind
                        &&& self.jobs.jobs@[k].payload.spec_game_id() == gid
                    };
                crate::table::lemma_map_of_contains(self.jobs.jobs.entries@, k);
                let jj = choose|jj: int|
                    0 <= jj < self.jobs.jobs.entries@.len() && self.jobs.jobs.entries@[jj].0@
                        == k;
                crate::table::lemma_map_of_index(self.jobs.jobs.entries@, jj);
                assert(self.jobs.jobs.entries@[jj].1.status == JobStatus::Pending);
            }
        }
        r
    }

    /// The ids of every stored probabilistic game with no pending finish
    /// job pointing at it, each exactly once.
    #[verifier::rlimit(60)]
    fn orphan_ids(&self) -> (r: Vec<String>)
        requires
            self.wf(),
        ensures
            forall|i: int|
                0 <= i < r@.len() ==> self.sardines@.contains_key(#[trigger] r@[i]@) && !covered(
                    self.jobs.jobs@,
                    JobType::SardinesFinish,
                    r@[i]@,
                ),
            forall|gid: Seq<char>|
                #[trigger] orphan(self.sardines@, self.jobs.jobs@, JobType::SardinesFinish, gid)
                    ==> exists|i: int| 0 <= i < r@.len() && r@[i]@ == gid,
            forall|a: int, b: int|
                0 <= a < b < r@.len() ==> (#[trigger] r@[a])@ != (#[trigger] r@[b])@,
    {
        let covered_ids = self.covered_game_ids(JobType::SardinesFinish);
        let mut orphans: Vec<String> = Vec::new();
        let n = self.sardines.len();
        let mut j: usize = 0;
        while j < n
            invariant
                0 <= j <= n,
                n == self.sardines.entries@.len(),
                self.wf(),
                forall|i: int|
                    0 <= i < covered_ids@.len() ==> covered(
                        self.jobs.jobs@,
                        JobType::SardinesFinish,
                        #[trigger] covered_ids@[i]@,
                    ),
                forall|gid: Seq<char>|
                    #[trigger] covered(self.jobs.jobs@, JobType::SardinesFinish, gid)
                        ==> exists|i: int| 0 <= i < covered_ids@.len() && covered_ids@[i]@ == gid,
                forall|i: int|
                    0 <= i < orphans@.len() ==> self.sardines@.contains_key(
                        #[trigger] orphans@[i]@,
                    ) && !covered(self.jobs.jobs@, JobType::SardinesFinish, orphans@[i]@),
                forall|jj: int|
                    0 <= jj < j && !covered(
                        self.jobs.jobs@,
                        JobType::SardinesFinish,
                        (#[trigger] self.sardines.entries@[jj].0)@,
                    ) ==> exists|i: int|
                        0 <= i < orphans@.len() && orphans@[i]@ == self.sardines.entries@[jj].0@,
                forall|i: int|
                    0 <= i < orphans@.len() ==> exists|jj: int|
                        0 <= jj < j && (#[trigger] orphans@[i])@ == self.sardines.entries@[jj].0@,
                forall|a: int, b: int|
                    0 <= a < b < orphans@.len() ==> (#[trigger] orphans@[a])@ != (
                    #[trigger] orphans@[b])@,
            decreases n - j,
        {
            let entry_key = self.sardines.entry_at(j).0.clone();
            if !contains_str(&covered_ids, entry_key.as_str()) {
                proof {
                    crate::table::lemma_map_of_index(self.sardines.entries@, j as int);
                    assert(!covered(self.jobs.jobs@, JobType::SardinesFinish, entry_key@));
                }
                let ghost pre = orphans@;
                orphans.push(entry_key);
                proof {
                    assert forall|i: int|
                        0 <= i < orphans@.len() implies self.sardines@.contains_key(
                        #[trigger] orphans@[i]@,
                    ) && !covered(self.jobs.jobs@, JobType::SardinesFinish, orphans@[i]@) by {
                        if i < pre.len() {
                            assert(orphans@[i] == pre[i]);
                        }
                    }
                    assert forall|jj: int|
                        0 <= jj < j + 1 && !covered(
                        self.jobs.jobs@,
                        JobType::SardinesFinish,
                        (#[trigger] self.sardines.entries@[jj].0)@,
                    ) implies exists|i: int|
                        0 <= i < orphans@.len() && orphans@[i]@
                            == self.sardines.entries@[jj].0@ by {
                        if jj < j {
                            let i = choose|i: int|
                                0 <= i < pre.len() && pre[i]@ == self.sardines.entries@[jj].0@;
                            assert(orphans@[i]@ == self.sardines.entries@[jj].0@);
                        } else {
                            assert(orphans@[orphans@.len() - 1]@
                                == self.sardines.entries@[jj].0@);
                        }
                    }
                    assert forall|i: int|
                        0 <= i < orphans@.len() implies exists|jj: int|
                        0 <= jj < j + 1 && (#[trigger] orphans@[i])@
                            == self.sardines.entries@[jj].0@ by {
                        if i < pre.len() {
                            assert(orphans@[i] == pre[i]);
                            let jj = choose|jj: int|
                                0 <= jj < j && pre[i]@ == self.sardines.entries@[jj].0@;
                            assert(orphans@[i]@ == self.sardines.entries@[jj].0@);
                        } else {
                            assert(orphans@[i]@ == self.sardines.entries@[j as int].0@);
                        }
                    }
                    assert forall|a: int, b: int|
                        0 <= a < b < orphans@.len() implies (#[trigger] orphans@[a])@ != (
                    #[trigger] orphans@[b])@ by {
                        if b < pre.len() {
                            assert(orphans@[a] == pre[a] && orphans@[b] == pre[b]);
                        } else {
                            assert(orphans@[a] == pre[a]);
                            let jj = choose|jj: int|
                                0 <= jj < j && pre[a]@ == self.sardines.entries@[jj].0@;
                            assert(orphans@[b]@ == self.sardines.entries@[j as int].0@);
                            assert(self.sardines.entries@[jj].0@
                                != self.sardines.entries@[j as int].0@);
                        }
                    }
                }
            } else {
                proof {
                    assert forall|jj: int|
                        0 <= jj < j + 1 && !covered(
                        self.jobs.jobs@,
                        JobType::SardinesFinish,
                        (#[trigger] self.sardines.entries@[jj].0)@,
                    ) implies exists|i: int|
                        0 <= i < orphans@.len() && orphans@[i]@
                            == self.sardines.entries@[jj].0@ by {}
                }
            }
            j += 1;
        }
        proof {
            assert forall|gid: Seq<char>|
                #[trigger] orphan(self.sardines@, self.jobs.jobs@, JobType::SardinesFinish, gid)
                implies exists|i: int| 0 <= i < orphans@.len() && orphans@[i]@ == gid by {
                crate::table::lemma_map_of_contains(self.sardines.entries@, gid);
                let jj = choose|jj: int|
                    0 <= jj < self.sardines.entries@.len() && self.sardines.entries@[jj].0@
                        == gid;
            }
        }
        orphans
    }

    /// Settle one orphaned game: load it and run its finish, handing back
    /// the settlement or nothing when its ledger batch could not apply (the
    /// game is then kept).
    fn settle_orphan(&mut self, gid: &str) -> (r: Option<SardinesOutcome>)
        requires
            old(self).wf(),
            old(self).sardines@.contains_key(gid@),
        ensures
            final(self).wf(),
            final(self).jobs == old(self).jobs,
            final(self).roulettes == old(self).roulettes,
            final(self).config == old(self).config,
            ({
                let g = old(self).sardines@[gid@];
                &&& reported_settlement_ok(g, gid@, old(self).config.random_seed@, r)
                &&& (r is Some ==> (final(self).sardines@ =~= old(self).sardines@.remove(gid@)))
                &&& (r is None ==> final(self).sardines@ == old(self).sardines@
                    && final(self).ledger == old(self).ledger)
                &&& forall|k: Seq<char>|
                    #[trigger] final(self).ledger.offset_of(k) == old(self).ledger.offset_of(k)
                        + settlement_delta(g, r, k)
            }),
    {
        proof {
            reveal(reported_settlement_ok);
            reveal(settlement_delta);
        }
        match Sardines::load(&self.sardines, &self.config, gid) {
            Ok(game) => {
                proof {
                    assert(sardines_stored_wf(old(self).sardines@[gid@]));
                    assert(game.lottery.id@ == gid@);
                }
                match game.finish(&mut self.sardines, &mut self.ledger) {
                    Ok(o) => Some(o),
                    Err(_) => None,
                }
            },
            Err(_) => None,
        }
    }

    /// Settle each of the given orphaned games in order, one entry per id:
    /// the settlement applied, or nothing when its ledger batch could not
    /// apply (that game is kept). Only the named games and the ledger move.
    #[verifier::rlimit(60)]
    fn settle_all(&mut self, orphans: &Vec<String>) -> (r: Vec<(String, Option<SardinesOutcome>)>)
        requires
            old(self).wf(),
            forall|ii: int|
                0 <= ii < orphans@.len() ==> old(self).sardines@.contains_key(
                    #[trigger] orphans@[ii]@,
                ) && !covered(old(self).jobs.jobs@, JobType::SardinesFinish, orphans@[ii]@),
            forall|a: int, b: int|
                0 <= a < b < orphans@.len() ==> (#[trigger] orphans@[a])@ != (
                #[trigger] orphans@[b])@,
        ensures
            final(self).wf(),
            final(self).jobs == old(self).jobs,
            final(self).roulettes == old(self).roulettes,
            final(self).config == old(self).config,
            r@.len() == orphans@.len(),
            forall|a: int| #![trigger r@[a]] 0 <= a < r@.len() ==> r@[a].0@ == orphans@[a]@,
            forall|a: int|
                #![trigger r@[a]]
                0 <= a < r@.len() ==> reported_settlement_ok(
                    old(self).sardines@[r@[a].0@],
                    r@[a].0@,
                    old(self).config.random_seed@,
                    r@[a].1,
                ),
            forall|gid: Seq<char>|
                #![trigger final(self).sardines@.contains_key(gid)]
                final(self).sardines@.contains_key(gid) <==> (old(self).sardines@.contains_key(gid)
                    && !(exists|a: int|
                    0 <= a < r@.len() && (#[trigger] r@[a]).0@ == gid && r@[a].1 is Some)),
            forall|gid: Seq<char>|
                #![trigger final(self).sardines@[gid]]
                final(self).sardines@.contains_key(gid) ==> final(self).sardines@[gid] == old(
                    self,
                ).sardines@[gid],
            forall|k: Seq<char>|
                #[trigger] final(self).ledger.offset_of(k) == old(self).ledger.offset_of(k)
                    + recover_delta(r@, old(self).sardines@, k),
    {
        let mut results: Vec<(String, Option<SardinesOutcome>)> = Vec::new();
        let m = orphans.len();
        let ghost jobs0 = self.jobs.jobs@;
        let ghost games0 = self.sardines@;
        let ghost ledger0 = self.ledger;
        proof {
            assert forall|k: Seq<char>|
                #[trigger] recover_delta(results@, games0, k) == 0 by {
                reveal(recover_delta);
            }
        }
        let mut i: usize = 0;
        while i < m
            invariant
                0 <= i <= m,
                m == orphans@.len(),
                self.wf(),
                self.jobs == old(self).jobs,
                self.roulettes == old(self).roulettes,
                self.config == old(self).config,
                jobs0 == old(self).jobs.jobs@,
                games0 == old(self).sardines@,
                ledger0 == old(self).ledger,
                forall|ii: int|
                    0 <= ii < orphans@.len() ==> games0.contains_key(#[trigger] orphans@[ii]@)
                        && !covered(jobs0, JobType::SardinesFinish, orphans@[ii]@),
                forall|a: int, b: int|
                    0 <= a < b < orphans@.len() ==> (#[trigger] orphans@[a])@ != (
                    #[trigger] orphans@[b])@,
                results@.len() == i,
                forall|a: int| #![trigger results@[a]] 0 <= a < i ==> results@[a].0@ == orphans@[a]@,
                forall|a: int|
                    #![trigger results@[a]]
                    0 <= a < i ==> reported_settlement_ok(
                        games0[results@[a].0@],
                        results@[a].0@,
                        old(self).config.random_seed@,
                        results@[a].1,
                    ),
                forall|gid: Seq<char>|
                    #![trigger self.sardines@.contains_key(gid)]
                    self.sardines@.contains_key(gid) <==> (games0.contains_key(gid) && !(exists|
                        a: int,
                    |
                        0 <= a < i && (#[trigger] results@[a]).0@ == gid && results@[a].1
                            is Some)),
                forall|gid: Seq<char>|
                    #![trigger self.sardines@[gid]]
                    self.sardines@.contains_key(gid) ==> self.sardines@[gid] == games0[gid],
                forall|k: Seq<char>|
                    #[trigger] self.ledger.offset_of(k) == ledger0.offset_of(k) + recover_delta(
                        results@,
                        games0,
                        k,
                    ),
            decreases m - i,
        {
            let gid = orphans[i].clone();
            let ghost pre_games = self.sardines@;
            let ghost pre_ledger = self.ledger;
            let ghost pre_results = results@;
            proof {
                assert(games0.contains_key(gid@));
                assert(!(exists|a: int|
                    0 <= a < i && (#[trigger] results@[a]).0@ == gid@ && results@[a].1
                        is Some)) by {
                    if exists|a: int|
                        0 <= a < i && (#[trigger] results@[a]).0@ == gid@ && results@[a].1
                            is Some {
                        let a = choose|a: int|
                            0 <= a < i && (#[trigger] results@[a]).0@ == gid@ && results@[a].1
                                is Some;
                        assert(orphans@[a]@ != orphans@[i as int]@);
                    }
                }
                assert(self.sardines@.contains_key(gid@));
                assert(self.sardines@[gid@] == games0[gid@]);
            }
            let entry = self.settle_orphan(gid.as_str());
            results.push((gid, entry));
            proof {
                let g = games0[orphans@[i as int]@];
                assert(results@.drop_last() =~= pre_results);
                assert(results@.last().0@ == orphans@[i as int]@);
                assert forall|k: Seq<char>|
                    #[trigger] self.ledger.offset_of(k) == ledger0.offset_of(k) + recover_delta(
                    results@,
                    games0,
                    k,
                ) by {
                    assert(recover_delta(results@, games0, k) == recover_delta(
                        pre_results,
                        games0,
                        k,
                    ) + settlement_delta(g, results@.last().1, k)) by {
                        reveal(recover_delta);
                    }
                    assert(pre_ledger.offset_of(k) == ledger0.offset_of(k) + recover_delta(
                        pre_results,
                        games0,
                        k,
                    ));
                    assert(self.ledger.offset_of(k) == pre_ledger.offset_of(k)
                        + settlement_delta(g, results@.last().1, k));
                }
                assert forall|a: int| #![trigger results@[a]] 0 <= a < i + 1 implies results@[a].0@
                    == orphans@[a]@ by {
                    if a < i {
                        assert(results@[a] == pre_results[a]);
                    }
                }
                lemma_settle_step_frame(
                    games0,
                    pre_games,
                    self.sardines@,
                    pre_results,
                    results@,
                    orphans@[i as int]@,
                );
                assert forall|a: int|
                    #![trigger results@[a]]
                    0 <= a < i + 1 implies reported_settlement_ok(
                    games0[results@[a].0@],
                    results@[a].0@,
                    old(self).config.random_seed@,
                    results@[a].1,
                ) by {
                    if a < i {
                        assert(results@[a] == pre_results[a]);
                    }
                }
            }
            i += 1;
        }
        results
    }

    /// Startup reconciliation: settle, immediately, every persisted
    /// probabilistic game that has no pending finish job pointing at it.
    /// Covered games are left to their jobs, untouched. Returns one entry
    /// per orphan: its id and the settlement applied, or nothing when its
    /// ledger batch could not apply (that game is kept). The ledger moves
    /// by exactly the combined effect of the reported settlements, so with
    /// every entry settled a second run finds no orphans and changes
    /// nothing.
    #[verifier::rlimit(60)]
    pub fn recover(&mut self) -> (r: Vec<(String, Option<SardinesOutcome>)>)
        requires
            old(self).wf(),
        ensures
            final(self).wf(),
            final(self).jobs == old(self).jobs,
            final(self).roulettes == old(self).roulettes,
            final(self).config == old(self).config,
            forall|a: int|
                #![trigger r@[a]]
                0 <= a < r@.len() ==> old(self).sardines@.contains_key(r@[a].0@) && !covered(
                    old(self).jobs.jobs@,
                    JobType::SardinesFinish,
                    r@[a].0@,
                ) && reported_settlement_ok(
                    old(self).sardines@[r@[a].0@],
                    r@[a].0@,
                    old(self).config.random_seed@,
                    r@[a].1,
                ),
            forall|gid: Seq<char>|
                #[trigger] orphan(
                    old(self).sardines@,
                    old(self).jobs.jobs@,
                    JobType::SardinesFinish,
                    gid,
                ) ==> exists|a: int| 0 <= a < r@.len() && r@[a].0@ == gid,
            forall|a: int, b: int|
                0 <= a < b < r@.len() ==> (#[trigger] r@[a]).0@ != (#[trigger] r@[b]).0@,
            forall|gid: Seq<char>|
                #![trigger final(self).sardines@.contains_key(gid)]
                final(self).sardines@.contains_key(gid) <==> (old(self).sardines@.contains_key(gid)
                    && (covered(old(self).jobs.jobs@, JobType::SardinesFinish, gid) || exists|
                    a: int,
                |
                    0 <= a < r@.len() && (#[trigger] r@[a]).0@ == gid && r@[a].1 is None)),
            forall|gid: Seq<char>|
                #![trigger final(self).sardines@[gid]]
                final(self).sardines@.contains_key(gid) ==> final(self).sardines@[gid] == old(
                    self,
                ).sardines@[gid],
            forall|k: Seq<char>|
                #[trigger] final(self).ledger.offset_of(k) == old(self).ledger.offset_of(k)
                    + recover_delta(r@, old(self).sardines@, k),
    {
        let ghost jobs0 = self.jobs.jobs@;
        let ghost games0 = self.sardines@;
        let orphans = self.orphan_ids();
        let results = self.settle_all(&orphans);
        proof {
            assert forall|gid: Seq<char>|
                #[trigger] orphan(games0, jobs0, JobType::SardinesFinish, gid) implies exists|
                a: int,
            |
                0 <= a < results@.len() && results@[a].0@ == gid by {
                let ii = choose|ii: int| 0 <= ii < orphans@.len() && orphans@[ii]@ == gid;
                assert(results@[ii].0@ == orphans@[ii]@);
            }
            assert forall|a: int, b: int|
                0 <= a < b < results@.len() implies (#[trigger] results@[a]).0@ != (
            #[trigger] results@[b]).0@ by {
                assert(results@[a].0@ == orphans@[a]@ && results@[b].0@ == orphans@[b]@);
            }
            assert forall|a: int|
                #![trigger results@[a]]
                0 <= a < results@.len() implies games0.contains_key(results@[a].0@) && !covered(
                jobs0,
                JobType::SardinesFinish,
                results@[a].0@,
            ) by {
                assert(results@[a].0@ == orphans@[a]@);
            }
            lemma_recover_contains(games0, jobs0, self.sardines@, results@);
        }
        results
    }
}

} // verus!