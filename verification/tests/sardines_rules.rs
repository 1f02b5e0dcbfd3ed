use lottery_core::config::{Config, DiscordConfig, FirebaseConfig};
use lottery_core::errors::CoreError;
use lottery_core::lottery::Lottery;
use lottery_core::member::{GuildMember, StoredPlayer};
use lottery_core::sardines::{
    join_failure_chance, loses_with_draw, validate_join, Sardines,
};

fn test_config(min_players: usize) -> Config {
    Config {
        port: 8006,
        job_queue_poll_interval_ms: 5000,
        min_players_before_rejoin: min_players,
        sardines_expiry_seconds: 86400,
        random_seed: "test".to_string(),
        discord: DiscordConfig {
            timezone: "America/Los_Angeles".to_string(),
            bot_token: "test".to_string(),
            public_key: "test".to_string(),
            server_id: "test".to_string(),
        },
        firebase: FirebaseConfig {
            project_id: "test".to_string(),
            cert_base64: "test".to_string(),
        },
    }
}

fn make_player(id: &str) -> StoredPlayer {
    StoredPlayer {
        id: id.to_string(),
        guild_id: "guild1".to_string(),
        username: id.to_string(),
        joined_at: None,
    }
}

fn make_member(id: &str) -> GuildMember {
    GuildMember {
        id: id.to_string(),
        guild_id: "guild1".to_string(),
        username: id.to_string(),
        joined_at: None,
    }
}

/// Build a Sardines instance with the given player IDs already in the game.
/// The first ID is treated as the creator (matches Sardines::init behaviour).
fn make_sardines(player_ids: &[&str], bet: i64, min_players: usize) -> Sardines {
    let config = test_config(min_players);
    let creator = make_player(player_ids[0]);
    let mut lottery = Lottery::new(creator, bet).unwrap();
    for &id in player_ids {
        lottery.add_player(make_player(id));
    }
    Sardines::from_lottery(&config, lottery)
}

#[test]
fn test_rejoin_blocked_below_min_players() {
    let game = make_sardines(&["creator"], 100, 4);
    let member = make_member("creator");
    let config = test_config(4);

    let result = validate_join(&game, &member, &config, 9999);
    assert!(
        result.is_some(),
        "creator should be blocked from rejoining with only 1 player (min=4)"
    );
}

#[test]
fn test_rejoin_allowed_at_min_players() {
    let game = make_sardines(&["creator", "p2", "p3", "p4"], 100, 4);
    let member = make_member("creator");
    let config = test_config(4);

    let result = validate_join(&game, &member, &config, 9999);
    assert!(
        result.is_none(),
        "creator should be allowed to rejoin with 4 players (min=4)"
    );
}

#[test]
fn test_new_player_not_blocked_by_rejoin_check() {
    let game = make_sardines(&["creator"], 100, 4);
    let member = make_member("newcomer");
    let config = test_config(4);

    let result = validate_join(&game, &member, &config, 9999);
    assert!(
        result.is_none(),
        "new player should never be blocked by the rejoin check"
    );
}

#[test]
fn test_blocked_by_insufficient_rep() {
    let game = make_sardines(&["creator"], 100, 4);
    let member = make_member("broke");
    let config = test_config(4);

    let result = validate_join(&game, &member, &config, 50); // buy-in is 100
    assert!(
        result.is_some(),
        "player with 50 rep should be blocked from a 100-rep game"
    );
}

#[test]
fn test_player_id_field_matches_guild_member_id() {
    // Both StoredPlayer and GuildMember use the raw user ID (not the
    // composite doc_id).
    let discord_user_id = "987654321";
    let game = make_sardines(&[discord_user_id], 100, 4);
    let member = make_member(discord_user_id);
    let config = test_config(4);

    // Player is in game (1 player, min=4), so the join must be blocked.
    let result = validate_join(&game, &member, &config, 9999);
    assert!(
        result.is_some(),
        "player ID comparison should find the match and block the rejoin"
    );
}

#[test]
fn rejoin_rejection_is_a_validation_error() {
    let game = make_sardines(&["creator"], 100, 4);
    let member = make_member("creator");
    let config = test_config(4);
    let err = validate_join(&game, &member, &config, 9999).unwrap();
    assert_eq!(err, CoreError::RejoinBelowMinimum);
    assert!(err.is_validation());
}

#[test]
fn join_failure_chance_values() {
    // At one player the chance is 3/28, roughly 10.7% — near zero.
    assert_eq!(join_failure_chance(1), (3, 28));
    // At zero players the raw curve is negative and clamps to 0.
    assert_eq!(join_failure_chance(0), (0, 18));
    // At ten players the chance is 93/118, above 70%.
    let (n10, d10) = join_failure_chance(10);
    assert_eq!((n10, d10), (93, 118));
    assert!(10 * n10 > 7 * d10);
    // At eight players the chance is 73/98, above one half.
    let (n8, d8) = join_failure_chance(8);
    assert_eq!((n8, d8), (73, 98));
    assert!(2 * n8 > d8);
}

#[test]
fn join_failure_chance_is_non_decreasing() {
    let mut prev = join_failure_chance(0);
    for n in 1..50usize {
        let cur = join_failure_chance(n);
        // prev.0/prev.1 <= cur.0/cur.1, cross-multiplied.
        assert!((prev.0 as u128) * (cur.1 as u128) <= (cur.0 as u128) * (prev.1 as u128));
        assert!(cur.0 < cur.1);
        prev = cur;
    }
}

#[test]
fn losing_draw_threshold_is_exact() {
    // At n=8 the chance is 73/98: draws 0..=72 lose, 73..=97 survive.
    assert!(loses_with_draw(8, 0));
    assert!(loses_with_draw(8, 72));
    assert!(!loses_with_draw(8, 73));
    assert!(!loses_with_draw(8, 97));
    // At n=1 the chance is 3/28: only draws 0..=2 lose.
    assert!(loses_with_draw(1, 2));
    assert!(!loses_with_draw(1, 3));
}

#[test]
fn can_add_player_at_one_player_is_almost_always_true() {
    let game = make_sardines(&["creator"], 100, 4);
    // The chance of a losing join at one player is 3/28; over many draws
    // the joiner must survive at least once (overwhelmingly likely), and
    // a run of surviving draws must appear.
    let mut survived = 0;
    for _ in 0..200 {
        if game.can_add_player() {
            survived += 1;
        }
    }
    assert!(survived > 100, "expected mostly-true at one player, got {survived}/200");
}
