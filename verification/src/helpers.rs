//! Presentation helpers shared by the front-end texts: the currency label,
//! user mentions, and the custom ids that route button interactions.

use vstd::prelude::*;
use vstd::string::StrSliceExecFns;
use vstd::string::StringExecFns;

use crate::errors::CoreError;
use crate::member::StoredPlayer;
use crate::text::dec_int;

verus! {

/// The rendered currency label: the prescription glyph, the amount, and
/// bold markers when asked for.
pub open spec fn spec_bgr_label(amount: int, bold: bool) -> Seq<char> {
    if bold {
        seq!['*', '*', '\u{211e}'] + dec_int(amount) + seq!['*', '*']
    } else {
        seq!['\u{211e}'] + dec_int(amount)
    }
}

/// Format a currency amount as its label.
pub fn bgr_label(amount: i64, bold: bool) -> (r: String)
    ensures
        r@ == spec_bgr_label(amount as int, bold),
{
    proof {
        reveal_strlit("**");
        reveal_strlit("\u{211e}");
        assert("**"@ =~= seq!['*', '*']);
        assert("\u{211e}"@ =~= seq!['\u{211e}']);
    }
    let mut s = String::new();
    if bold {
        s.append("**");
    }
    s.append("\u{211e}");
    s.append(crate::text::i64_string(amount).as_str());
    if bold {
        s.append("**");
    }
    proof {
        assert(s@ =~= spec_bgr_label(amount as int, bold));
    }
    s
}

/// The chat mention of a user id: `<@{id}>`.
pub open spec fn spec_mention(user_id: Seq<char>) -> Seq<char> {
    seq!['<', '@'] + user_id + seq!['>']
}

pub fn mention(user_id: &str) -> (r: String)
    ensures
        r@ == spec_mention(user_id@),
{
    proof {
        reveal_strlit("<@");
        reveal_strlit(">");
        assert("<@"@ =~= seq!['<', '@']);
        assert(">"@ =~= seq!['>']);
    }
    let mut s = "<@".to_owned();
    s.append(user_id);
    s.append(">");
    proof {
        assert(s@ =~= spec_mention(user_id@));
    }
    s
}

/// Kinds of button interactions routed via component custom ids.
#[derive(Debug, Clone, Copy, PartialEq, Eq, Structural)]
pub enum InteractionType {
    Debug,
    Roulette,
    Sardines,
}

/// The code an interaction kind carries in a custom id.
pub open spec fn spec_interaction_code(t: InteractionType) -> Seq<char> {
    match t {
        InteractionType::Debug => "DEBUG"@,
        InteractionType::Roulette => "ROULETTE"@,
        InteractionType::Sardines => "SARDINES"@,
    }
}

impl InteractionType {
    pub fn code(&self) -> (r: &'static str)
        ensures
            r@ == spec_interaction_code(*self),
    {
        match self {
            InteractionType::Debug => "DEBUG",
            InteractionType::Roulette => "ROULETTE",
            InteractionType::Sardines => "SARDINES",
        }
    }
}

/// Parse an interaction code back into its kind; an unknown code is a
/// validation error.
pub fn parse_interaction_type(s: &str) -> (r: Result<InteractionType, CoreError>)
    ensures
        r == (if s@ == spec_interaction_code(InteractionType::Debug) {
            Ok::<InteractionType, CoreError>(InteractionType::Debug)
        } else if s@ == spec_interaction_code(InteractionType::Roulette) {
            Ok::<InteractionType, CoreError>(InteractionType::Roulette)
        } else if s@ == spec_interaction_code(InteractionType::Sardines) {
            Ok::<InteractionType, CoreError>(InteractionType::Sardines)
        } else {
            Err::<InteractionType, CoreError>(CoreError::UnknownInteraction)
        }),
{
    if crate::text::str_eq(s, "DEBUG") {
        Ok(InteractionType::Debug)
    } else if crate::text::str_eq(s, "ROULETTE") {
        Ok(InteractionType::Roulette)
    } else if crate::text::str_eq(s, "SARDINES") {
        Ok(InteractionType::Sardines)
    } else {
        Err(CoreError::UnknownInteraction)
    }
}

/// The custom id of a component: `{kind}:{id}`.
pub open spec fn spec_custom_id(t: InteractionType, id: Seq<char>) -> Seq<char> {
    spec_interaction_code(t) + seq![':'] + id
}

/// Encode an interaction kind and a record id into a custom id.
pub fn encode_custom_id(id_type: InteractionType, id: &str) -> (r: String)
    ensures
        r@ == spec_custom_id(id_type, id@),
{
    proof {
        reveal_strlit(":");
        assert(":"@ =~= seq![':']);
    }
    let mut s = id_type.code().to_owned();
    s.append(":");
    s.append(id);
    proof {
        assert(s@ =~= spec_custom_id(id_type, id@));
    }
    s
}

/// Position `i` carries the first colon of `s`.
pub open spec fn first_colon_at(s: Seq<char>, i: int) -> bool {
    &&& 0 <= i < s.len()
    &&& s[i] == ':'
    &&& forall|j: int| 0 <= j < i ==> s[j] != ':'
}

/// Split a custom id at its first colon into (kind code, record id); a
/// string without a colon is all kind and no id.
pub fn parse_custom_id(custom_id: &str) -> (r: (&str, &str))
    ensures
        (exists|i: int| #[trigger] first_colon_at(custom_id@, i)) ==> ({
            let i = choose|i: int| #[trigger] first_colon_at(custom_id@, i);
            r.0@ == custom_id@.take(i) && r.1@ == custom_id@.skip(i + 1)
        }),
        !(exists|i: int| #[trigger] first_colon_at(custom_id@, i)) ==> r.0@ == custom_id@
            && r.1@.len() == 0,
{
    let n = custom_id.unicode_len();
    let mut i: usize = 0;
    while i < n
        invariant
            0 <= i <= n,
            n == custom_id@.len(),
            forall|j: int| 0 <= j < i ==> custom_id@[j] != ':',
        decreases n - i,
    {
        if custom_id.get_char(i) == ':' {
            let head = custom_id.substring_char(0, i);
            let tail = custom_id.substring_char(i + 1, n);
            proof {
                assert(first_colon_at(custom_id@, i as int));
                let k = choose|k: int| #[trigger] first_colon_at(custom_id@, k);
                assert(k == i) by {
                    if k < i {
                        assert(custom_id@[k] != ':');
                    }
                    if k > i {
                        assert(custom_id@[i as int] != ':');
                    }
                }
                assert(head@ =~= custom_id@.take(i as int));
                assert(tail@ =~= custom_id@.skip(i + 1));
            }
            return (head, tail);
        }
        i += 1;
    }
    proof {
        if exists|k: int| #[trigger] first_colon_at(custom_id@, k) {
            let k = choose|k: int| #[trigger] first_colon_at(custom_id@, k);
            assert(custom_id@[k] != ':');
        }
        reveal_strlit("");
        assert(""@ =~= Seq::<char>::empty());
    }
    (custom_id, "")
}

/// The usernames of a player list, in order.
pub open spec fn spec_usernames(players: Seq<StoredPlayer>) -> Seq<Seq<char>> {
    players.map_values(|p: StoredPlayer| p.username@)
}

/// The elements joined with a separator between neighbours.
pub open spec fn join_sep(xs: Seq<Seq<char>>, sep: Seq<char>) -> Seq<char>
    decreases xs.len(),
{
    if xs.len() == 0 {
        Seq::empty()
    } else if xs.len() == 1 {
        xs[0]
    } else {
        join_sep(xs.drop_last(), sep) + sep + xs.last()
    }
}

/// Join the players' usernames with a separator.
pub fn join_usernames(players: &Vec<StoredPlayer>, sep: &str) -> (r: String)
    ensures
        r@ == join_sep(spec_usernames(players@), sep@),
{
    let n = players.len();
    if n == 0 {
        let r = String::new();
        proof {
            assert(r@ =~= join_sep(spec_usernames(players@), sep@));
        }
        return r;
    }
    let mut s = players[0].username.clone();
    proof {
        assert(spec_usernames(players@).take(1) =~= seq![players@[0].username@]);
        assert(s@ == join_sep(spec_usernames(players@).take(1), sep@));
    }
    let mut i: usize = 1;
    while i < n
        invariant
            1 <= i <= n,
            n == players@.len(),
            s@ == join_sep(spec_usernames(players@).take(i as int), sep@),
        decreases n - i,
    {
        s.append(sep);
        s.append(players[i].username.as_str());
        proof {
            let names = spec_usernames(players@);
            assert(names.take(i + 1).drop_last() =~= names.take(i as int));
            assert(names.take(i + 1).last() == names[i as int]);
            assert(names[i as int] == players@[i as int].username@);
            assert(s@ =~= join_sep(names.take(i as int), sep@) + sep@ + names[i as int]);
        }
        i += 1;
    }
    proof {
        assert(spec_usernames(players@).take(n as int) =~= spec_usernames(players@));
    }
    s
}

} // verus!
