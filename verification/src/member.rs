//! Member identities. A guild member is identified by the pair of guild id
//! and user id; the ledger keys its accounts by the composite document id
//! `"{guild_id}.{user_id}"`. A stored player is the persisted form of a
//! member inside a game record, with the join instant reduced to epoch
//! seconds.

use vstd::prelude::*;
use vstd::string::StringExecFns;

verus! {

#[derive(Debug, Clone)]
pub struct GuildMember {
    pub id: String,
    pub guild_id: String,
    pub username: String,
    /// When the member joined the guild, in seconds since the epoch.
    pub joined_at: Option<i64>,
}

/// The character sequence of a member's composite account key.
pub open spec fn spec_doc_id(guild_id: Seq<char>, id: Seq<char>) -> Seq<char> {
    guild_id + seq!['.'] + id
}

impl GuildMember {
    /// The account key of this member: `"{guild_id}.{id}"`.
    pub fn doc_id(&self) -> (r: String)
        ensures
            r@ == spec_doc_id(self.guild_id@, self.id@),
    {
        let mut s = self.guild_id.clone();
        proof {
            reveal_strlit(".");
            assert("."@ =~= seq!['.']);
        }
        s.append(".");
        s.append(self.id.as_str());
        proof {
            assert(s@ =~= spec_doc_id(self.guild_id@, self.id@));
        }
        s
    }

    pub fn duplicate(&self) -> (r: GuildMember)
        ensures
            r == *self,
    {
        GuildMember {
            id: self.id.clone(),
            guild_id: self.guild_id.clone(),
            username: self.username.clone(),
            joined_at: self.joined_at,
        }
    }
}

#[derive(Debug, Clone)]
pub struct StoredPlayer {
    pub id: String,
    pub guild_id: String,
    pub username: String,
    /// When the member joined the guild, in seconds since the epoch.
    pub joined_at: Option<i64>,
}

/// Two players are the same record when all their fields agree.
pub open spec fn player_eq(a: StoredPlayer, b: StoredPlayer) -> bool {
    a.id@ == b.id@ && a.guild_id@ == b.guild_id@ && a.username@ == b.username@ && a.joined_at
        == b.joined_at
}

impl PartialEq for StoredPlayer {
    fn eq(&self, other: &StoredPlayer) -> (r: bool) {
        self.id == other.id && self.guild_id == other.guild_id && self.username == other.username
            && self.joined_at == other.joined_at
    }
}

impl vstd::std_specs::cmp::PartialEqSpecImpl for StoredPlayer {
    open spec fn obeys_eq_spec() -> bool {
        true
    }

    open spec fn eq_spec(&self, other: &StoredPlayer) -> bool {
        player_eq(*self, *other)
    }
}

impl StoredPlayer {
    pub fn from_member(m: &GuildMember) -> (r: StoredPlayer)
        ensures
            r.id == m.id,
            r.guild_id == m.guild_id,
            r.username == m.username,
            r.joined_at == m.joined_at,
    {
        StoredPlayer {
            id: m.id.clone(),
            guild_id: m.guild_id.clone(),
            username: m.username.clone(),
            joined_at: m.joined_at,
        }
    }

    pub fn to_member(&self) -> (r: GuildMember)
        ensures
            r.id == self.id,
            r.guild_id == self.guild_id,
            r.username == self.username,
            r.joined_at == self.joined_at,
    {
        GuildMember {
            id: self.id.clone(),
            guild_id: self.guild_id.clone(),
            username: self.username.clone(),
            joined_at: self.joined_at,
        }
    }

    /// The account key of this player: `"{guild_id}.{id}"`.
    pub fn doc_id(&self) -> (r: String)
        ensures
            r@ == spec_doc_id(self.guild_id@, self.id@),
    {
        let mut s = self.guild_id.clone();
        proof {
            reveal_strlit(".");
            assert("."@ =~= seq!['.']);
        }
        s.append(".");
        s.append(self.id.as_str());
        proof {
            assert(s@ =~= spec_doc_id(self.guild_id@, self.id@));
        }
        s
    }

    pub fn duplicate(&self) -> (r: StoredPlayer)
        ensures
            r == *self,
    {
        StoredPlayer {
            id: self.id.clone(),
            guild_id: self.guild_id.clone(),
            username: self.username.clone(),
            joined_at: self.joined_at,
        }
    }
}

/// Copy a player list element by element.
pub fn clone_players(v: &Vec<StoredPlayer>) -> (r: Vec<StoredPlayer>)
    ensures
        r@ == v@,
{
    let mut r: Vec<StoredPlayer> = Vec::new();
    let n = v.len();
    let mut i: usize = 0;
    while i < n
        invariant
            0 <= i <= n,
            n == v@.len(),
            r@ =~= v@.take(i as int),
        decreases n - i,
    {
        r.push(v[i].duplicate());
        proof {
            assert(r@ =~= v@.take(i + 1));
        }
        i += 1;
    }
    proof {
        assert(v@.take(n as int) =~= v@);
    }
    r
}

} // verus!
