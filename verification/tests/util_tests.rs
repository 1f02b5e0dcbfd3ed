use lottery_core::dates::{civil_date_of, day_string, is_today};
use lottery_core::errors::CoreError;
use lottery_core::helpers::{
    bgr_label, encode_custom_id, join_usernames, mention, parse_custom_id,
    parse_interaction_type, InteractionType,
};
use lottery_core::member::{GuildMember, StoredPlayer};
use lottery_core::registry::LockRegistry;
use lottery_core::rng::{
    chacha8_word, derive_seed, fresh_id, random_inclusive, seeded_random_inclusive,
    seeded_weighted_random,
};
use lottery_core::roulette::build_roulette_content;
use lottery_core::sardines::build_sardines_content;
use lottery_core::text::{i64_string, str_eq, u64_string};
use lottery_core::users::{base_rep_from_joined, UserDates};

fn player(id: &str) -> StoredPlayer {
    StoredPlayer {
        id: id.to_string(),
        guild_id: "g".to_string(),
        username: id.to_string(),
        joined_at: None,
    }
}

#[test]
fn decimal_rendering() {
    assert_eq!(u64_string(0), "0");
    assert_eq!(u64_string(907), "907");
    assert_eq!(i64_string(-45), "-45");
    assert_eq!(i64_string(i64::MIN), "-9223372036854775808");
}

#[test]
fn string_comparison() {
    assert!(str_eq("abc", "abc"));
    assert!(!str_eq("abc", "abd"));
    assert!(!str_eq("abc", "ab"));
}

#[test]
fn labels_and_mentions() {
    assert_eq!(bgr_label(200, false), "\u{211e}200");
    assert_eq!(bgr_label(200, true), "**\u{211e}200**");
    assert_eq!(bgr_label(-3, false), "\u{211e}-3");
    assert_eq!(mention("12345"), "<@12345>");
}

#[test]
fn custom_id_round_trip() {
    let id = encode_custom_id(InteractionType::Sardines, "game42");
    assert_eq!(id, "SARDINES:game42");
    let (kind, rest) = parse_custom_id(&id);
    assert_eq!(kind, "SARDINES");
    assert_eq!(rest, "game42");
    assert_eq!(parse_interaction_type(kind), Ok(InteractionType::Sardines));

    let (all, empty) = parse_custom_id("nocolon");
    assert_eq!(all, "nocolon");
    assert_eq!(empty, "");

    assert_eq!(
        parse_interaction_type("WHAT"),
        Err(CoreError::UnknownInteraction)
    );
    assert_eq!(parse_interaction_type("DEBUG"), Ok(InteractionType::Debug));
    assert_eq!(
        parse_interaction_type("ROULETTE"),
        Ok(InteractionType::Roulette)
    );
}

#[test]
fn username_join() {
    let players = vec![player("ann"), player("bo"), player("cy")];
    assert_eq!(join_usernames(&players, ", "), "ann, bo, cy");
    assert_eq!(join_usernames(&players, "\n"), "ann\nbo\ncy");
    assert_eq!(join_usernames(&Vec::new(), ", "), "");
}

#[test]
fn roulette_content_text() {
    let players = vec![player("ann")];
    let text = build_roulette_content("ann", 50, 25, &players);
    assert_eq!(
        text,
        "ann has started a roulette game for \u{211e}50. Click the button below within 25 \
         seconds to place an equal bet and join the game."
    );
    let players = vec![player("ann"), player("bo")];
    let text = build_roulette_content("ann", 50, 25, &players);
    assert!(text.ends_with("\n\n**Players**\nann\nbo"));
}

#[test]
fn sardines_content_shows_the_chance() {
    let players = vec![player("ann")];
    let text = build_sardines_content("ann", 50, &players);
    // At one player the chance is 3/28 = 10.7142..%, shown as 10.71%.
    assert!(text.starts_with("## Sardines\nann has started a game for \u{211e}50."));
    assert!(text.contains("There is currently a 10.71% chance of ending the game"));
    // Below two players no list is shown.
    assert!(!text.contains("**Players**"));
}

#[test]
fn random_draws_stay_in_range() {
    for _ in 0..100 {
        let v = random_inclusive(-3, 3);
        assert!((-3..=3).contains(&v));
    }
    assert_eq!(random_inclusive(7, 7), 7);
}

#[test]
fn seeded_draws_are_deterministic() {
    let a = seeded_random_inclusive(1, 100, "ctx", "base");
    let b = seeded_random_inclusive(1, 100, "ctx", "base");
    assert_eq!(a, b);
    assert!((1..=100).contains(&a));

    let w = seeded_weighted_random(1, 5, "game-id", "base");
    assert_eq!(w, seeded_weighted_random(1, 5, "game-id", "base"));
    assert!((1..=5).contains(&w));

    // The stream is a function of the seed: same word for the same seed,
    // and the derivation separates distinct contexts.
    assert_eq!(chacha8_word(42), chacha8_word(42));
    assert_ne!(chacha8_word(42), chacha8_word(43));
    assert_ne!(derive_seed("a", "b"), derive_seed("b", "a"));
}

#[test]
fn fresh_ids_are_distinct_and_sized() {
    let a = fresh_id();
    let b = fresh_id();
    assert_eq!(a.chars().count(), 21);
    assert_ne!(a, b);
}

#[test]
fn civil_dates_follow_the_zone() {
    // The epoch is midnight 1970-01-01 in UTC, but still 1969-12-31 on the
    // American west coast.
    assert_eq!(civil_date_of("UTC", 0), Some((1970, 1, 1)));
    assert_eq!(civil_date_of("America/Los_Angeles", 0), Some((1969, 12, 31)));
    assert_eq!(civil_date_of("Not/AZone", 0), None);

    assert_eq!(day_string("UTC", 0).unwrap(), "1970-01-01");
    assert_eq!(
        day_string("America/Los_Angeles", 0).unwrap(),
        "1969-12-31"
    );

    // Same civil day in the zone, eight hours apart.
    assert!(is_today("UTC", 3600, 7200));
    // Either side of the zone's midnight.
    assert!(!is_today("America/Los_Angeles", 0, 12 * 3600));
    assert!(!is_today("Not/AZone", 0, 0));
}

#[test]
fn lock_registry_reuses_and_removes_handles() {
    let mut registry: LockRegistry<u32> = LockRegistry::new();
    let first = *registry.acquire("game1", 11);
    assert_eq!(first, 11);
    // A second acquire converges on the registered handle; the fresh one
    // is discarded.
    let again = *registry.acquire("game1", 22);
    assert_eq!(again, 11);
    assert_eq!(registry.len(), 1);

    registry.remove("game1");
    assert_eq!(registry.len(), 0);
    let fresh = *registry.acquire("game1", 33);
    assert_eq!(fresh, 33);
}

#[test]
fn doc_id_is_guild_dot_user() {
    let m = GuildMember {
        id: "777".to_string(),
        guild_id: "555".to_string(),
        username: "u".to_string(),
        joined_at: Some(12),
    };
    assert_eq!(m.doc_id(), "555.777");
    let p = StoredPlayer::from_member(&m);
    assert_eq!(p.doc_id(), "555.777");
    assert_eq!(p.joined_at, Some(12));
    let back = p.to_member();
    assert_eq!(back.id, "777");
}

#[test]
fn user_dates_track_the_two_limits_independently() {
    let m = GuildMember {
        id: "9".to_string(),
        guild_id: "g".to_string(),
        username: "u".to_string(),
        joined_at: None,
    };
    let mut dates = UserDates::new();
    assert_eq!(dates.get_last_guess(&m), None);
    assert_eq!(dates.get_last_sardines(&m), None);
    dates.set_last_guess(&m, 1_000);
    dates.set_last_sardines(&m, 2_000);
    assert_eq!(dates.get_last_guess(&m), Some(1_000));
    assert_eq!(dates.get_last_sardines(&m), Some(2_000));
    dates.set_last_guess(&m, 3_000);
    assert_eq!(dates.get_last_guess(&m), Some(3_000));
    assert_eq!(dates.get_last_sardines(&m), Some(2_000));

    // Tenure credit: one per full day since joining.
    assert_eq!(base_rep_from_joined(86_400 * 30 + 5, Some(0)), 30);
    assert_eq!(base_rep_from_joined(100, None), 0);
}
