//! Per-member records beyond the balance offset: the instants of a
//! member's last daily guess and last game creation, used for the
//! once-per-day limits, and the tenure-based base credit.

use vstd::prelude::*;

use crate::member::GuildMember;
use crate::table::Table;

verus! {

/// The recorded last-action instants of the members, keyed by the
/// composite account id: the last daily guess and the last game created,
/// in epoch seconds. Members without a record have done neither.
pub struct UserDates {
    pub records: Table<(Option<i64>, Option<i64>)>,
}

impl UserDates {
    pub open spec fn wf(&self) -> bool {
        self.records.wf()
    }

    /// The record for a key; absent members stand at neither-yet.
    pub open spec fn spec_record(&self, k: Seq<char>) -> (Option<i64>, Option<i64>) {
        if self.records@.contains_key(k) {
            self.records@[k]
        } else {
            (None, None)
        }
    }

    pub fn new() -> (r: UserDates)
        ensures
            r.wf(),
            forall|k: Seq<char>| #[trigger] r.spec_record(k) == (None::<i64>, None::<i64>),
    {
        let t = Table::new();
        proof {
            assert(forall|k: Seq<char>| !(#[trigger] t@.contains_key(k)));
        }
        UserDates { records: t }
    }

    /// When the member last made their daily guess.
    pub fn get_last_guess(&self, member: &GuildMember) -> (r: Option<i64>)
        requires
            self.wf(),
        ensures
            r == self.spec_record(
                crate::member::spec_doc_id(member.guild_id@, member.id@),
            ).0,
    {
        match self.records.get(member.doc_id().as_str()) {
            Some(rec) => rec.0,
            None => None,
        }
    }

    /// When the member last created a probabilistic game.
    pub fn get_last_sardines(&self, member: &GuildMember) -> (r: Option<i64>)
        requires
            self.wf(),
        ensures
            r == self.spec_record(
                crate::member::spec_doc_id(member.guild_id@, member.id@),
            ).1,
    {
        match self.records.get(member.doc_id().as_str()) {
            Some(rec) => rec.1,
            None => None,
        }
    }

    /// Record the member's last daily guess, keeping the other instant.
    pub fn set_last_guess(&mut self, member: &GuildMember, when: i64)
        requires
            old(self).wf(),
        ensures
            final(self).wf(),
            ({
                let k = crate::member::spec_doc_id(member.guild_id@, member.id@);
                &&& final(self).spec_record(k) == (Some(when), old(self).spec_record(k).1)
                &&& forall|other: Seq<char>|
                    other != k ==> #[trigger] final(self).spec_record(other) == old(
                        self,
                    ).spec_record(other)
            }),
    {
        let key = member.doc_id();
        let current = match self.records.get(key.as_str()) {
            Some(rec) => rec.1,
            None => None,
        };
        self.records.insert(key, (Some(when), current));
    }

    /// Record the member's last game creation, keeping the other instant.
    pub fn set_last_sardines(&mut self, member: &GuildMember, when: i64)
        requires
            old(self).wf(),
        ensures
            final(self).wf(),
            ({
                let k = crate::member::spec_doc_id(member.guild_id@, member.id@);
                &&& final(self).spec_record(k) == (old(self).spec_record(k).0, Some(when))
                &&& forall|other: Seq<char>|
                    other != k ==> #[trigger] final(self).spec_record(other) == old(
                        self,
                    ).spec_record(other)
            }),
    {
        let key = member.doc_id();
        let current = match self.records.get(key.as_str()) {
            Some(rec) => rec.0,
            None => None,
        };
        self.records.insert(key, (current, Some(when)));
    }
}

/// The base credit a member's tenure earns: one unit per full day since
/// they joined the guild, negative for a join instant in the future, and
/// zero when the join instant is unknown.
pub fn base_rep_from_joined(now_epoch: i64, joined_at: Option<i64>) -> (r: i64)
    requires
        joined_at matches Some(j) ==> in_days_range(now_epoch as int, j as int),
    ensures
        r == (match joined_at {
            Some(j) => if now_epoch >= j {
                (now_epoch - j) / 86400
            } else {
                -((j - now_epoch) / 86400)
            },
            None => 0,
        }),
{
    match joined_at {
        Some(j) => {
            if now_epoch >= j {
                (now_epoch - j) / 86400
            } else {
                -((j - now_epoch) / 86400)
            }
        },
        None => 0,
    }
}

/// The difference of the two instants is representable.
pub open spec fn in_days_range(now: int, joined: int) -> bool {
    -i64::MAX <= now - joined <= i64::MAX
}

} // verus!
