//! The ledger: per-account balance offsets, keyed by the composite account
//! id. A balance is an externally supplied base credit plus the stored
//! offset. A batch of increments applies atomically: every delta in the
//! batch applies, with deltas for the same account summed, or none does.

use vstd::prelude::*;

use crate::errors::CoreError;
use crate::member::{spec_doc_id, GuildMember, StoredPlayer};
use crate::table::{map_of, Table};

verus! {

/// The offset an account map holds for a key; absent accounts stand at 0.
pub open spec fn offset_in(m: Map<Seq<char>, i64>, k: Seq<char>) -> int {
    if m.contains_key(k) {
        m[k] as int
    } else {
        0
    }
}

/// The sum of the deltas a batch carries for one account key.
pub open spec fn sum_for(u: Seq<(String, i64)>, k: Seq<char>) -> int
    decreases u.len(),
{
    if u.len() == 0 {
        0
    } else {
        sum_for(u.drop_last(), k) + if u.last().0@ == k {
            u.last().1 as int
        } else {
            0
        }
    }
}

pub open spec fn in_i64_range(x: int) -> bool {
    i64::MIN <= x <= i64::MAX
}

/// A batch applies cleanly to an account map when, processed in order, no
/// running per-account total ever leaves the i64 range.
pub open spec fn batch_ok(m: Map<Seq<char>, i64>, u: Seq<(String, i64)>) -> bool
    decreases u.len(),
{
    if u.len() == 0 {
        true
    } else {
        batch_ok(m, u.drop_last()) && in_i64_range(offset_in(m, u.last().0@) + sum_for(u, u.last().0@))
    }
}

/// Extending a batch by one entry adds that entry's delta to its own key's
/// sum and leaves every other key's sum unchanged.
pub proof fn lemma_sum_for_take_step(u: Seq<(String, i64)>, i: int, k: Seq<char>)
    requires
        0 <= i < u.len(),
    ensures
        sum_for(u.take(i + 1), k) == sum_for(u.take(i), k) + if u[i].0@ == k {
            u[i].1 as int
        } else {
            0
        },
{
    assert(u.take(i + 1).drop_last() =~= u.take(i));
    assert(u.take(i + 1).last() == u[i]);
}

/// A key that no entry of the batch carries sums to zero.
pub proof fn lemma_sum_for_absent(u: Seq<(String, i64)>, k: Seq<char>)
    requires
        forall|j: int| 0 <= j < u.len() ==> u[j].0@ != k,
    ensures
        sum_for(u, k) == 0,
    decreases u.len(),
{
    if u.len() > 0 {
        assert(forall|j: int| 0 <= j < u.len() - 1 ==> u.drop_last()[j].0@ != k);
        lemma_sum_for_absent(u.drop_last(), k);
        assert(u.last() == u[u.len() - 1]);
    }
}

/// A batch that applies cleanly does so on every prefix.
pub proof fn lemma_batch_ok_prefix(m: Map<Seq<char>, i64>, u: Seq<(String, i64)>, i: int)
    requires
        batch_ok(m, u),
        0 <= i <= u.len(),
    ensures
        batch_ok(m, u.take(i)),
    decreases u.len() - i,
{
    if i == u.len() {
        assert(u.take(i) =~= u);
    } else {
        lemma_batch_ok_prefix(m, u, i + 1);
        assert(u.take(i + 1).drop_last() =~= u.take(i));
    }
}

/// The deltas of a concatenation sum per key to the two batches' sums.
pub proof fn lemma_sum_for_concat(u1: Seq<(String, i64)>, u2: Seq<(String, i64)>, k: Seq<char>)
    ensures
        sum_for(u1 + u2, k) == sum_for(u1, k) + sum_for(u2, k),
    decreases u2.len(),
{
    if u2.len() == 0 {
        assert(u1 + u2 =~= u1);
    } else {
        lemma_sum_for_concat(u1, u2.drop_last(), k);
        assert((u1 + u2).drop_last() =~= u1 + u2.drop_last());
        assert((u1 + u2).last() == u2.last());
    }
}

/// With no negative delta, per-key sums are never negative.
pub proof fn lemma_sum_for_nonneg(u: Seq<(String, i64)>, k: Seq<char>)
    requires
        forall|i: int| 0 <= i < u.len() ==> (#[trigger] u[i].1) >= 0,
    ensures
        sum_for(u, k) >= 0,
    decreases u.len(),
{
    if u.len() > 0 {
        assert(forall|i: int| 0 <= i < u.len() - 1 ==> (#[trigger] u.drop_last()[i].1) >= 0);
        lemma_sum_for_nonneg(u.drop_last(), k);
        assert(u.last() == u[u.len() - 1]);
    }
}

/// For a batch with no negative delta, the running totals peak at the end:
/// the batch applies cleanly exactly when each entry's final per-key total
/// stays at or below the maximum.
pub proof fn lemma_batch_ok_nonneg(m: Map<Seq<char>, i64>, u: Seq<(String, i64)>)
    requires
        forall|i: int| 0 <= i < u.len() ==> (#[trigger] u[i].1) >= 0,
    ensures
        batch_ok(m, u) <==> forall|i: int|
            0 <= i < u.len() ==> offset_in(m, (#[trigger] u[i]).0@) + sum_for(u, u[i].0@)
                <= i64::MAX,
    decreases u.len(),
{
    if u.len() > 0 {
        let v = u.drop_last();
        let lastk = u.last().0@;
        assert(forall|i: int| 0 <= i < v.len() ==> (#[trigger] v[i].1) >= 0);
        lemma_batch_ok_nonneg(m, v);
        lemma_sum_for_nonneg(u, lastk);
        assert(u.last() == u[u.len() - 1]);
        assert(forall|i: int| 0 <= i < v.len() ==> #[trigger] v[i] == u[i]);
        assert forall|k: Seq<char>| #[trigger] sum_for(u, k) == sum_for(v, k) + (if lastk == k {
            u.last().1 as int
        } else {
            0
        }) by {}
        if batch_ok(m, u) {
            assert forall|i: int|
                0 <= i < u.len() implies offset_in(m, (#[trigger] u[i]).0@) + sum_for(u, u[i].0@)
                <= i64::MAX by {
                let k = u[i].0@;
                if k == lastk {
                    assert(in_i64_range(offset_in(m, lastk) + sum_for(u, lastk)));
                } else {
                    assert(i < v.len());
                    assert(v[i] == u[i]);
                    assert(offset_in(m, v[i].0@) + sum_for(v, v[i].0@) <= i64::MAX);
                    assert(sum_for(u, k) == sum_for(v, k));
                }
            }
        }
        if forall|i: int|
            0 <= i < u.len() ==> offset_in(m, (#[trigger] u[i]).0@) + sum_for(u, u[i].0@)
                <= i64::MAX {
            assert forall|i: int|
                0 <= i < v.len() implies offset_in(m, (#[trigger] v[i]).0@) + sum_for(v, v[i].0@)
                <= i64::MAX by {
                let k = v[i].0@;
                assert(v[i] == u[i]);
                assert(offset_in(m, k) + sum_for(u, k) <= i64::MAX);
                lemma_sum_for_nonneg(v, k);
                assert(sum_for(v, k) <= sum_for(u, k));
            }
            assert(batch_ok(m, v));
            lemma_sum_for_nonneg(v, lastk);
            assert(offset_in(m, lastk) + sum_for(u, lastk) <= i64::MAX);
            assert(offset_in(m, lastk) >= i64::MIN);
            assert(in_i64_range(offset_in(m, lastk) + sum_for(u, lastk)));
        }
    }
}

/// The total of one key's deltas over a run of batches.
pub open spec fn total_sum(batches: Seq<Seq<(String, i64)>>, k: Seq<char>) -> int
    decreases batches.len(),
{
    if batches.len() == 0 {
        0
    } else {
        total_sum(batches.drop_last(), k) + sum_for(batches.last(), k)
    }
}

/// Concurrent batches that serialize in any order converge to the exact
/// arithmetic sum of all their deltas: when each step of a run adds its
/// batch's per-key sum to an account's offset, the final offset is the
/// initial one plus the total over all batches.
pub proof fn lemma_batches_converge(
    offsets: Seq<int>,
    batches: Seq<Seq<(String, i64)>>,
    k: Seq<char>,
)
    requires
        offsets.len() == batches.len() + 1,
        forall|i: int|
            0 <= i < batches.len() ==> offsets[i + 1] == offsets[i] + sum_for(#[trigger] batches[i], k),
    ensures
        offsets.last() == offsets.first() + total_sum(batches, k),
    decreases batches.len(),
{
    if batches.len() > 0 {
        let n = batches.len() as int;
        lemma_batches_converge(offsets.drop_last(), batches.drop_last(), k);
        assert(offsets.drop_last().last() == offsets[n - 1]);
        assert(offsets.drop_last().first() == offsets.first());
        assert(forall|i: int|
            0 <= i < n - 1 ==> batches.drop_last()[i] == #[trigger] batches[i]);
        assert(offsets[n] == offsets[n - 1] + sum_for(batches[n - 1], k));
    }
}

/// The total a uniform per-player batch (the same amount once per player
/// entry) credits to one account key.
pub open spec fn stake_sum(ps: Seq<StoredPlayer>, amt: int, k: Seq<char>) -> int
    decreases ps.len(),
{
    if ps.len() == 0 {
        0
    } else {
        stake_sum(ps.drop_last(), amt, k) + if spec_doc_id(
            ps.last().guild_id@,
            ps.last().id@,
        ) == k {
            amt
        } else {
            0
        }
    }
}

/// An update batch whose entries pair each player's account key with the
/// same amount sums per key to the player stake sum.
pub proof fn lemma_stake_updates(
    u: Seq<(String, i64)>,
    ps: Seq<StoredPlayer>,
    amt: i64,
    k: Seq<char>,
)
    requires
        u.len() == ps.len(),
        forall|i: int|
            0 <= i < u.len() ==> (#[trigger] u[i]).0@ == spec_doc_id(
                ps[i].guild_id@,
                ps[i].id@,
            ) && u[i].1 == amt,
    ensures
        sum_for(u, k) == stake_sum(ps, amt as int, k),
    decreases u.len(),
{
    if u.len() > 0 {
        assert(forall|i: int| 0 <= i < u.len() - 1 ==> #[trigger] u.drop_last()[i] == u[i]);
        assert(forall|i: int|
            0 <= i < ps.len() - 1 ==> #[trigger] ps.drop_last()[i] == ps[i]);
        lemma_stake_updates(u.drop_last(), ps.drop_last(), amt, k);
        assert(u.last() == u[u.len() - 1]);
        assert(ps.last() == ps[ps.len() - 1]);
    }
}

/// A uniform non-negative per-player batch applies cleanly exactly when no
/// player's account tops out: its offset plus the batch's total for that
/// account stays at or below the maximum.
pub open spec fn stake_batch_ok(
    m: Map<Seq<char>, i64>,
    ps: Seq<StoredPlayer>,
    amt: int,
) -> bool {
    forall|i: int|
        0 <= i < ps.len() ==> offset_in(m, spec_doc_id((#[trigger] ps[i]).guild_id@, ps[i].id@))
            + stake_sum(ps, amt, spec_doc_id(ps[i].guild_id@, ps[i].id@)) <= i64::MAX
}

/// Build the update batch that pays each player of a list the same amount.
pub fn stake_updates(players: &Vec<StoredPlayer>, amount: i64) -> (r: Vec<(String, i64)>)
    ensures
        r@.len() == players@.len(),
        forall|i: int|
            0 <= i < r@.len() ==> (#[trigger] r@[i]).0@ == spec_doc_id(
                players@[i].guild_id@,
                players@[i].id@,
            ) && r@[i].1 == amount,
        forall|k: Seq<char>| #[trigger] sum_for(r@, k) == stake_sum(
            players@,
            amount as int,
            k,
        ),
{
    let mut r: Vec<(String, i64)> = Vec::new();
    let n = players.len();
    let mut i: usize = 0;
    while i < n
        invariant
            0 <= i <= n,
            n == players@.len(),
            r@.len() == i,
            forall|j: int|
                0 <= j < i ==> (#[trigger] r@[j]).0@ == spec_doc_id(
                    players@[j].guild_id@,
                    players@[j].id@,
                ) && r@[j].1 == amount,
        decreases n - i,
    {
        let key = players[i].doc_id();
        let ghost pre = r@;
        r.push((key, amount));
        proof {
            assert forall|j: int|
                0 <= j < i + 1 implies (#[trigger] r@[j]).0@ == spec_doc_id(
                players@[j].guild_id@,
                players@[j].id@,
            ) && r@[j].1 == amount by {
                if j < i {
                    assert(r@[j] == pre[j]);
                }
            }
        }
        i += 1;
    }
    proof {
        assert forall|k: Seq<char>| #[trigger] sum_for(r@, k) == stake_sum(
            players@,
            amount as int,
            k,
        ) by {
            lemma_stake_updates(r@, players@, amount, k);
        }
    }
    r
}

/// For a non-negative amount, the per-player batch applies cleanly exactly
/// under `stake_batch_ok`.
pub proof fn lemma_stake_batch_ok(
    m: Map<Seq<char>, i64>,
    u: Seq<(String, i64)>,
    ps: Seq<StoredPlayer>,
    amt: i64,
)
    requires
        amt >= 0,
        u.len() == ps.len(),
        forall|i: int|
            0 <= i < u.len() ==> (#[trigger] u[i]).0@ == spec_doc_id(
                ps[i].guild_id@,
                ps[i].id@,
            ) && u[i].1 == amt,
        forall|k: Seq<char>| #[trigger] sum_for(u, k) == stake_sum(ps, amt as int, k),
    ensures
        batch_ok(m, u) <==> stake_batch_ok(m, ps, amt as int),
{
    assert(forall|i: int| 0 <= i < u.len() ==> (#[trigger] u[i].1) >= 0);
    lemma_batch_ok_nonneg(m, u);
    if batch_ok(m, u) {
        assert forall|i: int|
            0 <= i < ps.len() implies offset_in(
            m,
            spec_doc_id((#[trigger] ps[i]).guild_id@, ps[i].id@),
        ) + stake_sum(ps, amt as int, spec_doc_id(ps[i].guild_id@, ps[i].id@)) <= i64::MAX by {
            assert(u[i].0@ == spec_doc_id(ps[i].guild_id@, ps[i].id@));
            assert(offset_in(m, u[i].0@) + sum_for(u, u[i].0@) <= i64::MAX);
        }
    }
    if stake_batch_ok(m, ps, amt as int) {
        assert forall|i: int|
            0 <= i < u.len() implies offset_in(m, (#[trigger] u[i]).0@) + sum_for(u, u[i].0@)
            <= i64::MAX by {
            assert(u[i].0@ == spec_doc_id(ps[i].guild_id@, ps[i].id@));
            assert(offset_in(m, spec_doc_id(ps[i].guild_id@, ps[i].id@)) + stake_sum(
                ps,
                amt as int,
                spec_doc_id(ps[i].guild_id@, ps[i].id@),
            ) <= i64::MAX);
        }
    }
}

pub struct Ledger {
    pub accounts: Table<i64>,
}

impl Ledger {
    pub open spec fn wf(&self) -> bool {
        self.accounts.wf()
    }

    /// The stored offset of an account; 0 when the account has no record.
    pub open spec fn offset_of(&self, k: Seq<char>) -> int {
        offset_in(self.accounts@, k)
    }

    pub fn new() -> (r: Ledger)
        ensures
            r.wf(),
            forall|k: Seq<char>| #[trigger] r.offset_of(k) == 0,
    {
        let t = Table::new();
        proof {
            assert(forall|k: Seq<char>| !(#[trigger] t@.contains_key(k)));
        }
        Ledger { accounts: t }
    }

    pub fn get_offset(&self, key: &str) -> (r: i64)
        requires
            self.wf(),
        ensures
            r == self.offset_of(key@),
    {
        match self.accounts.get(key) {
            Some(v) => *v,
            None => 0,
        }
    }

    /// A member's balance: the externally supplied base credit plus the
    /// stored offset.
    pub fn get_user_rep(&self, base: i64, key: &str) -> (r: i64)
        requires
            self.wf(),
            in_i64_range(base + self.offset_of(key@)),
        ensures
            r == base + self.offset_of(key@),
    {
        let off = self.get_offset(key);
        ((base as i128) + (off as i128)) as i64
    }

    /// Apply a batch of account increments atomically: on success every
    /// account's offset grows by the sum of its deltas in the batch; when
    /// any running total would leave the representable range, nothing is
    /// applied and the batch fails.
    pub fn increment_many(&mut self, updates: &Vec<(String, i64)>) -> (r: Result<(), CoreError>)
        requires
            old(self).wf(),
        ensures
            final(self).wf(),
            (r matches Ok(x)) <==> batch_ok(old(self).accounts@, updates@),
            r matches Ok(x) ==> forall|k: Seq<char>|
                #[trigger] final(self).offset_of(k) == old(self).offset_of(k) + sum_for(
                    updates@,
                    k,
                ),
            r matches Err(e) ==> e == CoreError::Overflow && *final(self) == *old(self),
    {
        let ghost m = self.accounts@;
        let mut scratch: Table<i64> = Table::new();
        let n = updates.len();
        let mut i: usize = 0;
        while i < n
            invariant
                0 <= i <= n,
                n == updates@.len(),
                self.wf(),
                self.accounts@ == m,
                scratch.wf(),
                forall|kk: Seq<char>|
                    #[trigger] scratch@.contains_key(kk) <==> exists|j: int|
                        0 <= j < i && (#[trigger] updates@[j].0@) == kk,
                forall|kk: Seq<char>|
                    scratch@.contains_key(kk) ==> #[trigger] scratch@[kk] == offset_in(m, kk)
                        + sum_for(updates@.take(i as int), kk),
                batch_ok(m, updates@.take(i as int)),
            decreases n - i,
        {
            let k: &String = &updates[i].0;
            let d: i64 = updates[i].1;
            let cur: i64 = match scratch.get(k.as_str()) {
                Some(v) => *v,
                None => {
                    proof {
                        lemma_sum_for_absent(updates@.take(i as int), k@);
                    }
                    self.get_offset(k.as_str())
                },
            };
            proof {
                assert(cur == offset_in(m, k@) + sum_for(updates@.take(i as int), k@));
                lemma_sum_for_take_step(updates@, i as int, k@);
            }
            if (d > 0 && cur > i64::MAX - d) || (d < 0 && cur < i64::MIN - d) {
                proof {
                    assert(!in_i64_range(
                        offset_in(m, k@) + sum_for(updates@.take(i + 1), k@),
                    ));
                    assert(updates@.take(i + 1).last() == updates@[i as int]);
                    assert(!batch_ok(m, updates@.take(i + 1)));
                    if batch_ok(m, updates@) {
                        lemma_batch_ok_prefix(m, updates@, i + 1);
                    }
                }
                return Err(CoreError::Overflow);
            }
            let new_off: i64 = cur + d;
            let ghost pre_scratch = scratch@;
            scratch.insert(k.clone(), new_off);
            proof {
                assert(updates@.take(i + 1).drop_last() =~= updates@.take(i as int));
                assert(updates@.take(i + 1).last() == updates@[i as int]);
                assert(batch_ok(m, updates@.take(i + 1)));
                assert forall|kk: Seq<char>|
                    #[trigger] scratch@.contains_key(kk) implies exists|j: int|
                    0 <= j < i + 1 && (#[trigger] updates@[j].0@) == kk by {
                    if kk == k@ {
                        assert(updates@[i as int].0@ == kk);
                    } else {
                        assert(pre_scratch.contains_key(kk));
                    }
                }
                assert forall|kk: Seq<char>|
                    (exists|j: int| 0 <= j < i + 1 && (#[trigger] updates@[j].0@) == kk)
                    implies #[trigger] scratch@.contains_key(kk) by {
                    let j = choose|j: int| 0 <= j < i + 1 && (#[trigger] updates@[j].0@) == kk;
                    if j < i {
                        assert(pre_scratch.contains_key(kk));
                    }
                }
                assert forall|kk: Seq<char>| scratch@.contains_key(kk) implies #[trigger] scratch@[kk]
                    == offset_in(m, kk) + sum_for(updates@.take(i + 1), kk) by {
                    lemma_sum_for_take_step(updates@, i as int, kk);
                    if kk != k@ {
                        assert(scratch@[kk] == pre_scratch[kk]);
                    }
                }
            }
            i += 1;
        }
        proof {
            assert(updates@.take(n as int) =~= updates@);
        }
        // Commit phase: write every staged offset back.
        let sn = scratch.len();
        let mut j: usize = 0;
        while j < sn
            invariant
                0 <= j <= sn,
                sn == scratch.entries@.len(),
                scratch.wf(),
                self.wf(),
                self.accounts@ =~= m.union_prefer_right(
                    map_of(scratch.entries@.take(j as int)),
                ),
            decreases sn - j,
        {
            let key: String = scratch.entry_at(j).0.clone();
            let val: i64 = scratch.entry_at(j).1;
            self.accounts.insert(key, val);
            proof {
                assert(scratch.entries@.take(j + 1).drop_last() =~= scratch.entries@.take(
                    j as int,
                ));
                assert(scratch.entries@.take(j + 1).last() == scratch.entries@[j as int]);
                assert(map_of(scratch.entries@.take(j + 1)) =~= map_of(
                    scratch.entries@.take(j as int),
                ).insert(scratch.entries@[j as int].0@, scratch.entries@[j as int].1));
                assert(self.accounts@ =~= m.union_prefer_right(
                    map_of(scratch.entries@.take(j + 1)),
                ));
            }
            j += 1;
        }
        proof {
            assert(scratch.entries@.take(sn as int) =~= scratch.entries@);
            assert(self.accounts@ =~= m.union_prefer_right(scratch@));
            assert forall|k: Seq<char>|
                #[trigger] offset_in(self.accounts@, k) == offset_in(m, k) + sum_for(
                updates@,
                k,
            ) by {
                if scratch@.contains_key(k) {
                    assert(self.accounts@[k] == scratch@[k]);
                } else {
                    assert(forall|jj: int|
                        0 <= jj < updates@.len() ==> (#[trigger] updates@[jj].0@) != k);
                    lemma_sum_for_absent(updates@, k);
                    assert(offset_in(self.accounts@, k) == offset_in(m, k));
                }
            }
        }
        Ok(())
    }

    /// Transfer currency between two members: one atomic batch debiting
    /// the sender and crediting the recipient. Sending to oneself and
    /// non-positive amounts are rejected with nothing mutated.
    pub fn transfer(
        &mut self,
        sender: &GuildMember,
        recipient: &GuildMember,
        amount: i64,
    ) -> (r: Result<(), CoreError>)
        requires
            old(self).wf(),
        ensures
            final(self).wf(),
            sender.id@ == recipient.id@ ==> r == Err::<(), CoreError>(CoreError::SelfSend)
                && *final(self) == *old(self),
            sender.id@ != recipient.id@ && amount < 1 ==> r == Err::<(), CoreError>(
                CoreError::NonPositiveAmount,
            ) && *final(self) == *old(self),
            sender.id@ != recipient.id@ && amount >= 1 ==> ({
                let sk = spec_doc_id(sender.guild_id@, sender.id@);
                let rk = spec_doc_id(recipient.guild_id@, recipient.id@);
                &&& (sk != rk ==> ((r matches Ok(x)) <==> (in_i64_range(
                    old(self).offset_of(sk) - amount,
                ) && in_i64_range(old(self).offset_of(rk) + amount))))
                &&& (r matches Ok(x) ==> forall|k: Seq<char>|
                    #[trigger] final(self).offset_of(k) == old(self).offset_of(k) + (if k == sk {
                        -amount as int
                    } else {
                        0
                    }) + (if k == rk {
                        amount as int
                    } else {
                        0
                    }))
                &&& (r matches Err(e) ==> e == CoreError::Overflow && *final(self) == *old(self))
            }),
    {
        if crate::text::str_eq(sender.id.as_str(), recipient.id.as_str()) {
            return Err(CoreError::SelfSend);
        }
        if amount < 1 {
            return Err(CoreError::NonPositiveAmount);
        }
        let mut updates: Vec<(String, i64)> = Vec::new();
        let ghost sk = spec_doc_id(sender.guild_id@, sender.id@);
        let ghost rk = spec_doc_id(recipient.guild_id@, recipient.id@);
        updates.push((sender.doc_id(), -amount));
        updates.push((recipient.doc_id(), amount));
        proof {
            let u = updates@;
            assert(u.len() == 2);
            assert(u[0].0@ == sk && u[0].1 == -amount);
            assert(u[1].0@ == rk && u[1].1 == amount);
            assert(u.drop_last().drop_last() =~= Seq::<(String, i64)>::empty());
            assert(u.drop_last().last() == u[0]);
            assert(u.last() == u[1]);
            assert forall|k: Seq<char>| #[trigger] sum_for(u, k) == (if k == sk {
                -(amount as int)
            } else {
                0
            }) + (if k == rk {
                amount as int
            } else {
                0
            }) by {
                assert(sum_for(u.drop_last().drop_last(), k) == 0);
                assert(sum_for(u.drop_last(), k) == (if k == sk {
                    -(amount as int)
                } else {
                    0
                }));
            }
        }
        let r = self.increment_many(&updates);
        proof {
            let u = updates@;
            let m = old(self).accounts@;
            if sk != rk {
                assert(sum_for(u, sk) == -(amount as int));
                assert(sum_for(u, rk) == amount as int);
                assert(sum_for(u.drop_last().drop_last(), sk) == 0);
                assert(sum_for(u.drop_last(), sk) == -(amount as int));
                assert(batch_ok(m, u.drop_last().drop_last()));
                assert(batch_ok(m, u.drop_last()) <==> in_i64_range(offset_in(m, sk) - amount));
                assert(batch_ok(m, u) <==> (in_i64_range(offset_in(m, sk) - amount)
                    && in_i64_range(offset_in(m, rk) + amount)));
            }
        }
        r
    }

    /// Increment a single account: a one-entry batch.
    pub fn increment(&mut self, key: String, delta: i64) -> (r: Result<(), CoreError>)
        requires
            old(self).wf(),
        ensures
            final(self).wf(),
            (r matches Ok(x)) <==> in_i64_range(old(self).offset_of(key@) + delta),
            r matches Ok(x) ==> final(self).offset_of(key@) == old(self).offset_of(key@) + delta
                && forall|k: Seq<char>|
                k != key@ ==> #[trigger] final(self).offset_of(k) == old(self).offset_of(k),
            r matches Err(e) ==> e == CoreError::Overflow && *final(self) == *old(self),
    {
        let mut updates: Vec<(String, i64)> = Vec::new();
        let ghost kview = key@;
        updates.push((key, delta));
        proof {
            assert(updates@.len() == 1);
            assert(updates@[0].0@ == kview);
            assert(updates@[0].1 == delta);
            assert(updates@.last() == updates@[0]);
            assert(updates@.drop_last() =~= Seq::<(String, i64)>::empty());
            assert(sum_for(updates@.drop_last(), kview) == 0);
            assert(sum_for(updates@, kview) == delta);
            assert forall|k: Seq<char>| k != kview implies #[trigger] sum_for(updates@, k)
                == 0 by {
                assert(sum_for(updates@.drop_last(), k) == 0);
            }
        }
        let r = self.increment_many(&updates);
        proof {
            assert(batch_ok(old(self).accounts@, updates@.drop_last()));
            assert(batch_ok(old(self).accounts@, updates@) <==> in_i64_range(
                offset_in(old(self).accounts@, kview) + sum_for(updates@, kview),
            ));
        }
        r
    }
}

} // verus!
